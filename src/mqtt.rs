use vstd::prelude::*;
use vstd::string::*;
use crate::packet::{ReadParam, TranslatedData};
use crate::utils::{le16, signed16, Clock};

verus! {

/// The character of a decimal digit.
pub open spec fn digit(d: int) -> char {
    if d == 0 { '0' }
    else if d == 1 { '1' }
    else if d == 2 { '2' }
    else if d == 3 { '3' }
    else if d == 4 { '4' }
    else if d == 5 { '5' }
    else if d == 6 { '6' }
    else if d == 7 { '7' }
    else if d == 8 { '8' }
    else { '9' }
}

/// The base-10 rendering of `n`, without leading zeros.
pub open spec fn dec(n: nat) -> Seq<char>
    decreases n,
{
    if n < 10 {
        seq![digit(n as int)]
    } else {
        dec(n / 10).push(digit((n % 10) as int))
    }
}

/// The value of a digit character (only meaningful on '0' ..= '9').
pub open spec fn digit_value(c: char) -> int {
    if c == '0' { 0 }
    else if c == '1' { 1 }
    else if c == '2' { 2 }
    else if c == '3' { 3 }
    else if c == '4' { 4 }
    else if c == '5' { 5 }
    else if c == '6' { 6 }
    else if c == '7' { 7 }
    else if c == '8' { 8 }
    else { 9 }
}

/// The number that a string of decimal digits denotes.
pub open spec fn parse_dec(s: Seq<char>) -> int
    decreases s.len(),
{
    if s.len() == 0 {
        0
    } else {
        parse_dec(s.drop_last()) * 10 + digit_value(s.last())
    }
}

/// `s` is a non-empty string of decimal digits.
pub open spec fn all_digits(s: Seq<char>) -> bool {
    s.len() > 0 && forall|i: int| 0 <= i < s.len() ==> '0' <= #[trigger] s[i] <= '9'
}

/// A decimal payload reads back as the number it was rendered from.
pub proof fn lemma_decimal_round_trip(n: nat)
    ensures
        all_digits(dec(n)),
        parse_dec(dec(n)) == n,
    decreases n,
{
    if n >= 10 {
        lemma_decimal_round_trip(n / 10);
        assert(dec(n).drop_last() =~= dec(n / 10));
        let d = (n % 10) as int;
        assert(digit_value(digit(d)) == d);
        assert(n == (n / 10) * 10 + n % 10);
        assert(dec(n).last() == digit(d));
        assert(parse_dec(dec(n)) == parse_dec(dec(n / 10)) * 10 + d);
    } else {
        assert(dec(n).drop_last() =~= Seq::<char>::empty());
        assert(digit_value(digit(n as int)) == n);
        assert(parse_dec(Seq::<char>::empty()) == 0);
        assert(parse_dec(dec(n)) == parse_dec(Seq::<char>::empty()) * 10 + digit_value(digit(n as int)));
    }
}

/// The digit `d` as a one-character string.
fn digit_str(d: u64) -> (r: &'static str)
    requires
        d < 10,
    ensures
        r@ == seq![digit(d as int)],
{
    proof {
        reveal_strlit("0");
        reveal_strlit("1");
        reveal_strlit("2");
        reveal_strlit("3");
        reveal_strlit("4");
        reveal_strlit("5");
        reveal_strlit("6");
        reveal_strlit("7");
        reveal_strlit("8");
        reveal_strlit("9");
    }
    if d == 0 { "0" }
    else if d == 1 { "1" }
    else if d == 2 { "2" }
    else if d == 3 { "3" }
    else if d == 4 { "4" }
    else if d == 5 { "5" }
    else if d == 6 { "6" }
    else if d == 7 { "7" }
    else if d == 8 { "8" }
    else { "9" }
}

/// `n` in base 10.
pub fn decimal(n: u64) -> (r: String)
    ensures
        r@ == dec(n as nat),
    decreases n,
{
    if n < 10 {
        String::from_str(digit_str(n))
    } else {
        let mut s = decimal(n / 10);
        s.append(digit_str(n % 10));
        s
    }
}

/// A signed integer in base 10.
pub open spec fn int_text(v: int) -> Seq<char> {
    if v < 0 { "-"@ + dec((-v) as nat) } else { dec(v as nat) }
}

/// The digits of the fraction `r / divisor` (`divisor` 10, 100 or 1000),
/// without trailing zeros but at least one digit.
pub open spec fn frac_digits(r: int, divisor: int) -> Seq<char> {
    if divisor == 10 {
        seq![digit(r)]
    } else if divisor == 100 {
        if r % 10 == 0 { seq![digit(r / 10)] } else { seq![digit(r / 10), digit(r % 10)] }
    } else {
        if r % 100 == 0 {
            seq![digit(r / 100)]
        } else if r % 10 == 0 {
            seq![digit(r / 100), digit((r / 10) % 10)]
        } else {
            seq![digit(r / 100), digit((r / 10) % 10), digit(r % 10)]
        }
    }
}

/// `units / divisor` as a JSON number: the shortest decimal, always with a
/// fractional part (`0.0`, `23.4`, `-0.05`).
pub open spec fn fixed_text(units: int, divisor: int) -> Seq<char> {
    let a = if units < 0 { -units } else { units };
    let body = dec((a / divisor) as nat) + "."@ + frac_digits(a % divisor, divisor);
    if units < 0 { "-"@ + body } else { body }
}

fn int_string(v: i64) -> (r: String)
    ensures
        r@ == int_text(v as int),
{
    if v < 0 {
        let d = decimal((0i128 - v as i128) as u64);
        let mut s = String::from_str("-");
        s.append(d.as_str());
        s
    } else {
        decimal(v as u64)
    }
}

fn fixed_string(units: i64, divisor: u32) -> (r: String)
    requires
        -1_000_000_000 <= units <= 1_000_000_000,
        divisor == 10 || divisor == 100 || divisor == 1000,
    ensures
        r@ == fixed_text(units as int, divisor as int),
{
    let a: u64 = if units < 0 { (-units) as u64 } else { units as u64 };
    let d = divisor as u64;
    let mut s = if units < 0 { String::from_str("-") } else { String::new() };
    let whole = decimal(a / d);
    s.append(whole.as_str());
    s.append(".");
    let r = a % d;
    if d == 10 {
        s.append(digit_str(r));
    } else if d == 100 {
        s.append(digit_str(r / 10));
        if r % 10 != 0 {
            s.append(digit_str(r % 10));
        }
    } else {
        s.append(digit_str(r / 100));
        if r % 100 != 0 {
            s.append(digit_str((r / 10) % 10));
            if r % 10 != 0 {
                s.append(digit_str(r % 10));
            }
        }
    }
    proof {
        let body = dec((a / d) as nat) + "."@ + frac_digits((a % d) as int, d as int);
        if units < 0 {
            assert(s@ =~= "-"@ + body);
        } else {
            assert(s@ =~= body);
        }
    }
    s
}

/// An outbound telemetry message.
#[derive(Clone, Debug, PartialEq, Eq)]
pub struct Message {
    pub topic: String,
    pub payload: String,
    pub retain: bool,
}

impl View for Message {
    type V = (Seq<char>, Seq<char>, bool);

    open spec fn view(&self) -> (Seq<char>, Seq<char>, bool) {
        (self.topic@, self.payload@, self.retain)
    }
}

/// The views of a list of messages.
pub open spec fn messages_view(ms: Seq<Message>) -> Seq<(Seq<char>, Seq<char>, bool)> {
    ms.map_values(|m: Message| m@)
}

/// The words that a value buffer holds; a trailing odd byte is no word.
pub open spec fn words(values: Seq<u8>) -> Seq<int> {
    Seq::new(values.len() / 2, |i: int| le16(values[2 * i], values[2 * i + 1]))
}

/// Translation failed: the value buffer is too short for what was addressed.
#[derive(Clone, Copy, Debug, PartialEq, Eq)]
pub enum TranslateError {
    UndersizedValues,
}

/// The word at index `i` of a value buffer.
fn word_at(values: &Vec<u8>, i: usize) -> (r: u16)
    requires
        i < values@.len() / 2,
    ensures
        r as int == words(values@)[i as int],
{
    let n = values.len();
    assert(2 * (i as int) + 1 < n);
    let lo = values[2 * i];
    let hi = values[2 * i + 1];
    (lo as u16) + (hi as u16) * 256
}

/// `prefix + a + b` as one string.
fn joined(prefix: &String, a: &str, b: &str) -> (r: String)
    ensures
        r@ == prefix@ + a@ + b@,
{
    let mut s = prefix.clone();
    s.append(a);
    s.append(b);
    s
}

/// The single message for a parameter read.
pub open spec fn param_message(datalog: Seq<char>, register: int, values: Seq<u8>) -> (Seq<char>, Seq<char>, bool) {
    (datalog + "/param/"@ + dec(register as nat), dec(words(values)[0] as nat), true)
}

/// The named flags of a holding register, bit 0 first; empty for a register
/// without a bit table.
pub open spec fn bit_names(register: int) -> Seq<Seq<char>> {
    if register == 21 {
        seq![
            "eps_en"@, "ovf_load_derate_en"@, "drms_en"@, "lvrt_en"@, "anti_island_en"@,
            "neutral_detect_en"@, "grid_on_power_ss_en"@, "ac_charge_en"@, "sw_seamless_en"@,
            "set_to_standby"@, "forced_discharge_en"@, "charge_priority_en"@, "iso_en"@,
            "gfci_en"@, "dci_en"@, "feed_in_grid_en"@,
        ]
    } else if register == 110 {
        seq!["ub_pv_grid_off_en"@, "ub_run_without_grid"@, "ub_micro_grid_en"@]
    } else {
        Seq::empty()
    }
}

/// The views of a list of string slices.
pub open spec fn strs_view(v: Seq<&str>) -> Seq<Seq<char>> {
    v.map_values(|s: &str| s@)
}

fn bit_table(register: u64) -> (r: Vec<&'static str>)
    ensures
        strs_view(r@) == bit_names(register as int),
{
    let r: Vec<&'static str> = if register == 21 {
        vec![
            "eps_en", "ovf_load_derate_en", "drms_en", "lvrt_en", "anti_island_en",
            "neutral_detect_en", "grid_on_power_ss_en", "ac_charge_en", "sw_seamless_en",
            "set_to_standby", "forced_discharge_en", "charge_priority_en", "iso_en",
            "gfci_en", "dci_en", "feed_in_grid_en",
        ]
    } else if register == 110 {
        vec!["ub_pv_grid_off_en", "ub_run_without_grid", "ub_micro_grid_en"]
    } else {
        Vec::new()
    };
    assert(strs_view(r@) =~= bit_names(register as int));
    r
}

/// `w` shifted right by `k` bits.
pub open spec fn shr(w: int, k: nat) -> int
    decreases k,
{
    if k == 0 { w } else { shr(w, (k - 1) as nat) / 2 }
}

/// Bit `i` of `w` is set.
pub open spec fn bit_on(w: int, i: int) -> bool {
    shr(w, i as nat) % 2 == 1
}

/// A flag's state as a JSON string.
pub open spec fn on_off(b: bool) -> Seq<char> {
    if b { "\"ON\""@ } else { "\"OFF\""@ }
}

/// Each named flag with the state of its bit in `w`.
pub open spec fn flag_entries(names: Seq<Seq<char>>, w: int) -> Seq<(Seq<char>, Seq<char>)> {
    Seq::new(names.len(), |i: int| (names[i], on_off(bit_on(w, i))))
}

/// `"key":value`, the value being JSON text already.
pub open spec fn json_member(e: (Seq<char>, Seq<char>)) -> Seq<char> {
    "\""@ + e.0 + "\":"@ + e.1
}

/// The members, separated by commas.
pub open spec fn json_members(es: Seq<(Seq<char>, Seq<char>)>) -> Seq<char>
    decreases es.len(),
{
    if es.len() == 0 {
        Seq::empty()
    } else if es.len() == 1 {
        json_member(es[0])
    } else {
        json_members(es.drop_last()) + ","@ + json_member(es.last())
    }
}

/// A JSON object with the given members, in order.
pub open spec fn json_object(es: Seq<(Seq<char>, Seq<char>)>) -> Seq<char> {
    "{"@ + json_members(es) + "}"@
}

/// The keys of a list of members.
pub open spec fn json_keys(es: Seq<(Seq<char>, Seq<char>)>) -> Seq<Seq<char>> {
    es.map_values(|e: (Seq<char>, Seq<char>)| e.0)
}

/// The views of a list of strings.
pub open spec fn strings_view(v: Seq<String>) -> Seq<Seq<char>> {
    v.map_values(|s: String| s@)
}

/// Keys paired with values, position by position.
pub open spec fn zip_entries(keys: Seq<Seq<char>>, vals: Seq<Seq<char>>) -> Seq<(Seq<char>, Seq<char>)> {
    Seq::new(keys.len(), |i: int| (keys[i], vals[i]))
}

/// Renders a JSON object from keys and already rendered values.
fn json_object_string(keys: &Vec<&'static str>, vals: &Vec<String>) -> (r: String)
    requires
        keys@.len() == vals@.len(),
    ensures
        r@ == json_object(zip_entries(strs_view(keys@), strings_view(vals@))),
{
    let ghost es = zip_entries(strs_view(keys@), strings_view(vals@));
    let mut s = String::from_str("{");
    let mut i: usize = 0;
    while i < keys.len()
        invariant
            i <= keys@.len(),
            keys@.len() == vals@.len(),
            es == zip_entries(strs_view(keys@), strings_view(vals@)),
            s@ == "{"@ + json_members(es.take(i as int)),
        decreases keys@.len() - i,
    {
        if i > 0 {
            s.append(",");
        }
        s.append("\"");
        s.append(keys[i]);
        s.append("\":");
        s.append(vals[i].as_str());
        proof {
            let e = es[i as int];
            assert(e.0 == keys@[i as int]@);
            assert(e.1 == vals@[i as int]@);
            let t = es.take(i + 1);
            assert(t.drop_last() =~= es.take(i as int));
            assert(t.last() == e);
            if i == 0 {
                assert(s@ =~= "{"@ + json_member(e));
            } else {
                assert(s@ =~= "{"@ + (json_members(es.take(i as int)) + ","@ + json_member(e)));
            }
        }
        i = i + 1;
    }
    assert(es.take(i as int) =~= es);
    s.append("}");
    s
}

/// The flags of `table` as a JSON object of "ON" / "OFF" strings.
fn flags_json(table: &Vec<&'static str>, word: u16) -> (r: String)
    ensures
        r@ == json_object(flag_entries(strs_view(table@), word as int)),
{
    let mut vals: Vec<String> = Vec::new();
    let mut cur: u16 = word;
    let mut i: usize = 0;
    while i < table.len()
        invariant
            i <= table@.len(),
            vals@.len() == i,
            forall|j: int| 0 <= j < i ==> #[trigger] vals@[j]@ == on_off(bit_on(word as int, j)),
            cur as int == shr(word as int, i as nat),
        decreases table@.len() - i,
    {
        if cur % 2 == 1 {
            vals.push(String::from_str("\"ON\""));
        } else {
            vals.push(String::from_str("\"OFF\""));
        }
        cur = cur / 2;
        i = i + 1;
    }
    let r = json_object_string(table, &vals);
    assert(zip_entries(strs_view(table@), strings_view(vals@)) =~= flag_entries(
        strs_view(table@),
        word as int,
    ));
    r
}

/// The messages for one holding register: its value, then its flags where it
/// has a bit table.
pub open spec fn hold_one(datalog: Seq<char>, register: int, w: int) -> Seq<(Seq<char>, Seq<char>, bool)> {
    let topic = datalog + "/hold/"@ + dec(register as nat);
    let value = (topic, dec(w as nat), true);
    if bit_names(register).len() > 0 {
        seq![value, (topic + "/bits"@, json_object(flag_entries(bit_names(register), w)), true)]
    } else {
        seq![value]
    }
}

/// The messages for consecutive holding registers from `register` on.
pub open spec fn hold_messages(datalog: Seq<char>, register: int, ws: Seq<int>) -> Seq<(Seq<char>, Seq<char>, bool)>
    decreases ws.len(),
{
    if ws.len() == 0 {
        Seq::empty()
    } else {
        hold_messages(datalog, register, ws.drop_last()) + hold_one(datalog, register + ws.len() - 1, ws.last())
    }
}

/// The human-readable name of an operating-status code.
pub open spec fn status_name(code: int) -> Seq<char> {
    if code == 0x00 { "Standby"@ }
    else if code == 0x02 { "FW Updating"@ }
    else if code == 0x04 { "PV On-grid"@ }
    else if code == 0x08 { "PV Charge"@ }
    else if code == 0x0C { "PV Charge On-grid"@ }
    else if code == 0x10 { "Battery On-grid"@ }
    else if code == 0x11 { "Bypass"@ }
    else if code == 0x14 { "PV & Battery On-grid"@ }
    else if code == 0x19 { "PV Charge + Bypass"@ }
    else if code == 0x20 { "AC Charge"@ }
    else if code == 0x28 { "PV & AC Charge"@ }
    else if code == 0x40 { "Battery Off-grid"@ }
    else if code == 0x80 { "PV Off-grid"@ }
    else if code == 0x88 { "PV Charge Off-grid"@ }
    else if code == 0xC0 { "PV & Battery Off-grid"@ }
    else { "Unknown"@ }
}

fn status_str(code: u16) -> (r: &'static str)
    ensures
        r@ == status_name(code as int),
{
    if code == 0x00 { "Standby" }
    else if code == 0x02 { "FW Updating" }
    else if code == 0x04 { "PV On-grid" }
    else if code == 0x08 { "PV Charge" }
    else if code == 0x0C { "PV Charge On-grid" }
    else if code == 0x10 { "Battery On-grid" }
    else if code == 0x11 { "Bypass" }
    else if code == 0x14 { "PV & Battery On-grid" }
    else if code == 0x19 { "PV Charge + Bypass" }
    else if code == 0x20 { "AC Charge" }
    else if code == 0x28 { "PV & AC Charge" }
    else if code == 0x40 { "Battery Off-grid" }
    else if code == 0x80 { "PV Off-grid" }
    else if code == 0x88 { "PV Charge Off-grid" }
    else if code == 0xC0 { "PV & Battery Off-grid" }
    else { "Unknown" }
}

/// The messages for one input register: its raw value, then, for register 0,
/// the name of the operating status.
pub open spec fn input_one(datalog: Seq<char>, register: int, w: int) -> Seq<(Seq<char>, Seq<char>, bool)> {
    let topic = datalog + "/input/"@ + dec(register as nat);
    let value = (topic, dec(w as nat), false);
    if register == 0 {
        seq![value, (topic + "/parsed"@, status_name(w), false)]
    } else {
        seq![value]
    }
}

/// The per-register messages for consecutive input registers.
pub open spec fn input_messages(datalog: Seq<char>, register: int, ws: Seq<int>) -> Seq<(Seq<char>, Seq<char>, bool)>
    decreases ws.len(),
{
    if ws.len() == 0 {
        Seq::empty()
    } else {
        input_messages(datalog, register, ws.drop_last()) + input_one(datalog, register + ws.len() - 1, ws.last())
    }
}

/// `n` registers from `register` on reach into 127 ..= 254, which hold no
/// telemetry.
pub open spec fn addresses_reserved(register: int, n: int) -> bool {
    n > 0 && register <= 254 && register + n - 1 >= 127
}

/// The fields of the first input record, in the order they are published.
pub open spec fn input_record_keys() -> Seq<Seq<char>> {
    seq![
        "status"@, "v_pv_1"@, "v_pv_2"@, "v_pv_3"@, "v_bat"@, "soc"@, "soh"@, "internal_fault"@, "p_pv"@, "p_pv_1"@, "p_pv_2"@, "p_pv_3"@, "p_battery"@, "p_charge"@, "p_discharge"@, "v_ac_r"@, "v_ac_s"@, "v_ac_t"@, "f_ac"@, "p_inv"@, "p_rec"@, "pf"@, "v_eps_r"@, "v_eps_s"@, "v_eps_t"@, "f_eps"@, "p_eps"@, "s_eps"@, "p_grid"@, "p_to_grid"@, "p_to_user"@, "e_pv_day"@, "e_pv_day_1"@, "e_pv_day_2"@, "e_pv_day_3"@, "e_inv_day"@, "e_rec_day"@, "e_chg_day"@, "e_dischg_day"@, "e_eps_day"@, "e_to_grid_day"@, "e_to_user_day"@, "v_bus_1"@, "v_bus_2"@, "time"@, "datalog"@,
    ]
}

/// The rendered values of the first input record (registers 0 ..= 39): raw
/// counts and powers as integers, voltages, frequencies, power factor and
/// energies as signed fixed-point decimals, then the receipt time and the
/// datalog id.
pub open spec fn input_record_values(ws: Seq<int>, time: int, datalog: Seq<char>) -> Seq<Seq<char>> {
    seq![
        dec(ws[0] as nat),
        fixed_text(signed16(ws[1]), 10),
        fixed_text(signed16(ws[2]), 10),
        fixed_text(signed16(ws[3]), 10),
        fixed_text(signed16(ws[4]), 10),
        dec((ws[5] % 256) as nat),
        dec((ws[5] / 256) as nat),
        dec(ws[6] as nat),
        dec((ws[7] + ws[8] + ws[9]) as nat),
        dec(ws[7] as nat),
        dec(ws[8] as nat),
        dec(ws[9] as nat),
        int_text(ws[10] - ws[11]),
        dec(ws[10] as nat),
        dec(ws[11] as nat),
        fixed_text(signed16(ws[12]), 10),
        fixed_text(signed16(ws[13]), 10),
        fixed_text(signed16(ws[14]), 10),
        fixed_text(signed16(ws[15]), 100),
        dec(ws[16] as nat),
        dec(ws[17] as nat),
        fixed_text(signed16(ws[19]), 1000),
        fixed_text(signed16(ws[20]), 10),
        fixed_text(signed16(ws[21]), 10),
        fixed_text(signed16(ws[22]), 10),
        fixed_text(signed16(ws[23]), 100),
        dec(ws[24] as nat),
        dec(ws[25] as nat),
        int_text(ws[27] - ws[26]),
        dec(ws[26] as nat),
        dec(ws[27] as nat),
        fixed_text(signed16(ws[28]) + signed16(ws[29]) + signed16(ws[30]), 10),
        fixed_text(signed16(ws[28]), 10),
        fixed_text(signed16(ws[29]), 10),
        fixed_text(signed16(ws[30]), 10),
        fixed_text(signed16(ws[31]), 10),
        fixed_text(signed16(ws[32]), 10),
        fixed_text(signed16(ws[33]), 10),
        fixed_text(signed16(ws[34]), 10),
        fixed_text(signed16(ws[35]), 10),
        fixed_text(signed16(ws[36]), 10),
        fixed_text(signed16(ws[37]), 10),
        fixed_text(signed16(ws[38]), 10),
        fixed_text(signed16(ws[39]), 10),
        int_text(time),
        "\""@ + datalog + "\""@,
    ]
}

/// The first input record as one JSON object.
#[verifier::opaque]
pub open spec fn input_record_json(ws: Seq<int>, time: int, datalog: Seq<char>) -> Seq<char> {
    json_object(zip_entries(input_record_keys(), input_record_values(ws, time, datalog)))
}

/// The word at index `i`, read as a signed value.
fn signed_word(values: &Vec<u8>, i: usize) -> (r: i64)
    requires
        i < values@.len() / 2,
    ensures
        r as int == signed16(words(values@)[i as int]),
        -32768 <= r < 32768,
{
    let w = word_at(values, i);
    if w < 32768 {
        w as i64
    } else {
        w as i64 - 65536
    }
}

/// `s` between double quotes.
fn quoted(s: &String) -> (r: String)
    ensures
        r@ == "\""@ + s@ + "\""@,
{
    let mut q = String::from_str("\"");
    q.append(s.as_str());
    q.append("\"");
    q
}

#[verifier::rlimit(100)]
#[verifier::spinoff_prover]
fn input_record(values: &Vec<u8>, time: i64, datalog: &String) -> (r: String)
    requires
        values@.len() == 80,
    ensures
        r@ == input_record_json(words(values@), time as int, datalog@),
{
    let ghost ws = words(values@);
    let keys: Vec<&'static str> = vec![
        "status", "v_pv_1", "v_pv_2", "v_pv_3", "v_bat", "soc", "soh", "internal_fault", "p_pv", "p_pv_1", "p_pv_2", "p_pv_3", "p_battery", "p_charge", "p_discharge", "v_ac_r", "v_ac_s", "v_ac_t", "f_ac", "p_inv", "p_rec", "pf", "v_eps_r", "v_eps_s", "v_eps_t", "f_eps", "p_eps", "s_eps", "p_grid", "p_to_grid", "p_to_user", "e_pv_day", "e_pv_day_1", "e_pv_day_2", "e_pv_day_3", "e_inv_day", "e_rec_day", "e_chg_day", "e_dischg_day", "e_eps_day", "e_to_grid_day", "e_to_user_day", "v_bus_1", "v_bus_2", "time", "datalog",
    ];
    let mut vals: Vec<String> = Vec::new();
    vals.push(decimal(word_at(values, 0) as u64));
    vals.push(fixed_string(signed_word(values, 1), 10));
    vals.push(fixed_string(signed_word(values, 2), 10));
    vals.push(fixed_string(signed_word(values, 3), 10));
    vals.push(fixed_string(signed_word(values, 4), 10));
    vals.push(decimal((word_at(values, 5) % 256) as u64));
    vals.push(decimal((word_at(values, 5) / 256) as u64));
    vals.push(decimal(word_at(values, 6) as u64));
    vals.push(decimal(word_at(values, 7) as u64 + word_at(values, 8) as u64 + word_at(values, 9) as u64));
    vals.push(decimal(word_at(values, 7) as u64));
    vals.push(decimal(word_at(values, 8) as u64));
    vals.push(decimal(word_at(values, 9) as u64));
    vals.push(int_string(word_at(values, 10) as i64 - word_at(values, 11) as i64));
    vals.push(decimal(word_at(values, 10) as u64));
    vals.push(decimal(word_at(values, 11) as u64));
    vals.push(fixed_string(signed_word(values, 12), 10));
    vals.push(fixed_string(signed_word(values, 13), 10));
    vals.push(fixed_string(signed_word(values, 14), 10));
    vals.push(fixed_string(signed_word(values, 15), 100));
    vals.push(decimal(word_at(values, 16) as u64));
    vals.push(decimal(word_at(values, 17) as u64));
    vals.push(fixed_string(signed_word(values, 19), 1000));
    vals.push(fixed_string(signed_word(values, 20), 10));
    vals.push(fixed_string(signed_word(values, 21), 10));
    vals.push(fixed_string(signed_word(values, 22), 10));
    vals.push(fixed_string(signed_word(values, 23), 100));
    vals.push(decimal(word_at(values, 24) as u64));
    vals.push(decimal(word_at(values, 25) as u64));
    vals.push(int_string(word_at(values, 27) as i64 - word_at(values, 26) as i64));
    vals.push(decimal(word_at(values, 26) as u64));
    vals.push(decimal(word_at(values, 27) as u64));
    vals.push(fixed_string(signed_word(values, 28) + signed_word(values, 29) + signed_word(values, 30), 10));
    vals.push(fixed_string(signed_word(values, 28), 10));
    vals.push(fixed_string(signed_word(values, 29), 10));
    vals.push(fixed_string(signed_word(values, 30), 10));
    vals.push(fixed_string(signed_word(values, 31), 10));
    vals.push(fixed_string(signed_word(values, 32), 10));
    vals.push(fixed_string(signed_word(values, 33), 10));
    vals.push(fixed_string(signed_word(values, 34), 10));
    vals.push(fixed_string(signed_word(values, 35), 10));
    vals.push(fixed_string(signed_word(values, 36), 10));
    vals.push(fixed_string(signed_word(values, 37), 10));
    vals.push(fixed_string(signed_word(values, 38), 10));
    vals.push(fixed_string(signed_word(values, 39), 10));
    vals.push(int_string(time));
    vals.push(quoted(datalog));
    assert(strs_view(keys@) =~= input_record_keys());
    assert(strings_view(vals@) =~= input_record_values(ws, time as int, datalog@));
    reveal(input_record_json);
    json_object_string(&keys, &vals)
}

/// What an input read translates to, given the time of receipt.
pub open spec fn input_translation(
    datalog: Seq<char>,
    register: int,
    values: Seq<u8>,
    full_batch: bool,
    time: int,
) -> Seq<(Seq<char>, Seq<char>, bool)> {
    if addresses_reserved(register, (values.len() / 2) as int) {
        Seq::empty()
    } else if !full_batch && register == 0 && values.len() == 80 {
        seq![(datalog + "/inputs/1"@, input_record_json(words(values), time, datalog), false)]
    } else {
        input_messages(datalog, register, words(values))
    }
}

impl Message {
    /// One retained message, `{datalog}/param/{register}`, holding the first
    /// word in base 10. A buffer without a whole word is an error.
    pub fn for_param(packet: ReadParam) -> (r: Result<Vec<Message>, TranslateError>)
        ensures
            r is Ok <==> packet.values@.len() >= 2,
            r matches Ok(ms) ==> messages_view(ms@) == seq![
                param_message(packet.datalog@, packet.register as int, packet.values@),
            ],
            r is Err ==> r == Err::<Vec<Message>, _>(TranslateError::UndersizedValues),
    {
        if packet.values.len() < 2 {
            return Err(TranslateError::UndersizedValues);
        }
        let w = word_at(&packet.values, 0);
        let reg = decimal(packet.register as u64);
        let m = Message { topic: joined(&packet.datalog, "/param/", reg.as_str()), payload: decimal(w as u64), retain: true };
        let out = vec![m];
        assert(messages_view(out@) =~= seq![param_message(packet.datalog@, packet.register as int, packet.values@)]);
        Ok(out)
    }

    /// For each word, a retained `{datalog}/hold/{register}` message with its
    /// value in base 10, followed, for a register with a bit table, by a
    /// retained `/bits` message naming each flag "ON" or "OFF".
    pub fn for_hold(packet: TranslatedData) -> (r: Result<Vec<Message>, TranslateError>)
        ensures
            r matches Ok(ms) && messages_view(ms@) == hold_messages(
                packet.datalog@,
                packet.register as int,
                words(packet.values@),
            ),
    {
        let len = packet.values.len();
        let n = len / 2;
        let ghost ws = words(packet.values@);
        let ghost d = packet.datalog@;
        let mut out: Vec<Message> = Vec::new();
        let mut i: usize = 0;
        while i < n
            invariant
                len == packet.values@.len(),
                n == len / 2,
                ws == words(packet.values@),
                d == packet.datalog@,
                i <= n,
                messages_view(out@) == hold_messages(d, packet.register as int, ws.take(i as int)),
            decreases n - i,
        {
            let w = word_at(&packet.values, i);
            assert(n as int <= usize::MAX as int / 2);
            let reg: u64 = packet.register as u64 + i as u64;
            let num = decimal(reg);
            let topic = joined(&packet.datalog, "/hold/", num.as_str());
            let table = bit_table(reg);
            let ghost prev = out@;
            out.push(Message { topic: topic.clone(), payload: decimal(w as u64), retain: true });
            if table.len() > 0 {
                let bits_topic = topic.concat("/bits");
                out.push(Message { topic: bits_topic, payload: flags_json(&table, w), retain: true });
            }
            proof {
                let t = ws.take(i + 1);
                assert(t.drop_last() =~= ws.take(i as int));
                assert(t.last() == w as int);
                assert(messages_view(out@) =~= messages_view(prev) + hold_one(d, packet.register + i, w as int));
            }
            i = i + 1;
        }
        assert(ws.take(n as int) =~= ws);
        Ok(out)
    }

    /// The per-register translation of an input read: for each word an
    /// unretained `{datalog}/input/{register}` message with its value, and for
    /// register 0 a `/parsed` message with the status name.
    pub fn for_input_registers(packet: &TranslatedData) -> (r: Vec<Message>)
        ensures
            messages_view(r@) == input_messages(packet.datalog@, packet.register as int, words(packet.values@)),
    {
        let len = packet.values.len();
        let n = len / 2;
        let ghost ws = words(packet.values@);
        let ghost d = packet.datalog@;
        let mut out: Vec<Message> = Vec::new();
        let mut i: usize = 0;
        while i < n
            invariant
                len == packet.values@.len(),
                n == len / 2,
                ws == words(packet.values@),
                d == packet.datalog@,
                i <= n,
                messages_view(out@) == input_messages(d, packet.register as int, ws.take(i as int)),
            decreases n - i,
        {
            let w = word_at(&packet.values, i);
            assert(n as int <= usize::MAX as int / 2);
            let reg: u64 = packet.register as u64 + i as u64;
            let num = decimal(reg);
            let topic = joined(&packet.datalog, "/input/", num.as_str());
            let ghost prev = out@;
            out.push(Message { topic: topic.clone(), payload: decimal(w as u64), retain: false });
            if reg == 0 {
                let parsed = topic.concat("/parsed");
                out.push(Message { topic: parsed, payload: String::from_str(status_str(w)), retain: false });
            }
            proof {
                let t = ws.take(i + 1);
                assert(t.drop_last() =~= ws.take(i as int));
                assert(t.last() == w as int);
                assert(messages_view(out@) =~= messages_view(prev) + input_one(d, packet.register + i, w as int));
            }
            i = i + 1;
        }
        assert(ws.take(n as int) =~= ws);
        out
    }

    /// The translation of an input read. A read that reaches into registers
    /// 127 ..= 254 gives no messages. Outside a full batch, the whole first
    /// record (40 words from register 0) becomes one unretained JSON object at
    /// `{datalog}/inputs/1`, stamped with `clock`'s time. Otherwise each
    /// register is reported on its own (see `for_input_registers`).
    pub fn for_input(packet: TranslatedData, full_batch: bool, clock: &Clock) -> (r: Result<Vec<Message>, TranslateError>)
        ensures
            exists|t: int|
                (clock matches Clock::Fixed(f) ==> t == f) && (r matches Ok(ms) && messages_view(ms@)
                    == #[trigger] input_translation(
                    packet.datalog@,
                    packet.register as int,
                    packet.values@,
                    full_batch,
                    t,
                )),
            addresses_reserved(packet.register as int, (packet.values@.len() / 2) as int) ==> (r matches Ok(ms)
                && ms@.len() == 0),
    {
        let now = clock.now();
        let n = packet.values.len() / 2;
        if n > 0 && packet.register <= 254 && packet.register as usize + (n - 1) >= 127 {
            let out: Vec<Message> = Vec::new();
            assert(messages_view(out@) =~= Seq::empty());
            assert(messages_view(out@) == input_translation(packet.datalog@, packet.register as int, packet.values@, full_batch, now.0 as int));
            return Ok(out);
        }
        if !full_batch && packet.register == 0 && packet.values.len() == 80 {
            let payload = input_record(&packet.values, now.0, &packet.datalog);
            let topic = joined(&packet.datalog, "/inputs/", "1");
            proof {
                reveal_strlit("/inputs/");
                reveal_strlit("1");
                reveal_strlit("/inputs/1");
                assert(topic@ =~= packet.datalog@ + "/inputs/1"@);
            }
            let out = vec![Message { topic, payload, retain: false }];
            assert(messages_view(out@) =~= input_translation(packet.datalog@, 0, packet.values@, full_batch, now.0 as int));
            return Ok(out);
        }
        let out = Self::for_input_registers(&packet);
        assert(messages_view(out@) == input_translation(packet.datalog@, packet.register as int, packet.values@, full_batch, now.0 as int));
        Ok(out)
    }
}

/// The topic ends in "/bits": the message is a bit-field companion.
pub open spec fn is_bits_topic(t: Seq<char>) -> bool {
    t.len() >= 5 && t.skip(t.len() - 5) == "/bits"@
}

/// The value message of holding register `register` holding `w`.
pub open spec fn hold_value(datalog: Seq<char>, register: int, w: int) -> (Seq<char>, Seq<char>, bool) {
    (datalog + "/hold/"@ + dec(register as nat), dec(w as nat), true)
}

proof fn lemma_dec_last_digit(n: nat)
    ensures
        dec(n).len() > 0,
        '0' <= dec(n).last() <= '9',
    decreases n,
{
    if n >= 10 {
        lemma_dec_last_digit(n / 10);
    }
}

/// Leaving out the bit-field companions, a holding read gives one message per
/// word, at consecutive registers from the first, each with that word's value.
pub proof fn lemma_hold_value_messages(datalog: Seq<char>, register: int, values: Seq<u8>)
    requires
        0 <= register,
    ensures
        hold_messages(datalog, register, words(values)).filter(|m: (Seq<char>, Seq<char>, bool)|
            !is_bits_topic(m.0)) == Seq::new(
            values.len() / 2,
            |i: int| hold_value(datalog, register + i, words(values)[i]),
        ),
{
    lemma_hold_values_prefix(datalog, register, words(values));
}

proof fn lemma_hold_values_prefix(datalog: Seq<char>, register: int, ws: Seq<int>)
    requires
        0 <= register,
    ensures
        hold_messages(datalog, register, ws).filter(|m: (Seq<char>, Seq<char>, bool)| !is_bits_topic(m.0))
            == Seq::new(ws.len(), |i: int| hold_value(datalog, register + i, ws[i])),
    decreases ws.len(),
{
    let p = |m: (Seq<char>, Seq<char>, bool)| !is_bits_topic(m.0);
    if ws.len() == 0 {
        assert(hold_messages(datalog, register, ws).filter(p) =~= Seq::new(
            ws.len(),
            |i: int| hold_value(datalog, register + i, ws[i]),
        ));
    } else {
        let k = ws.len() - 1;
        let reg = register + k;
        lemma_hold_values_prefix(datalog, register, ws.drop_last());
        let one = hold_one(datalog, reg, ws.last());
        Seq::filter_distributes_over_add(hold_messages(datalog, register, ws.drop_last()), one, p);
        let v = hold_value(datalog, reg, ws.last());
        lemma_dec_last_digit(reg as nat);
        reveal_strlit("/bits");
        assert(!is_bits_topic(v.0)) by {
            if is_bits_topic(v.0) {
                assert(v.0.last() == v.0.skip(v.0.len() - 5)[4]);
                assert(v.0.last() == dec(reg as nat).last());
            }
        }
        if bit_names(reg).len() > 0 {
            let b = one[1];
            assert(b.0.skip(b.0.len() - 5) =~= "/bits"@);
            assert(one =~= seq![v].push(b));
            assert(seq![v].filter(p) =~= seq![v]) by {
                reveal(Seq::filter);
                assert(seq![v].drop_last() =~= Seq::<(Seq<char>, Seq<char>, bool)>::empty());
            }
            assert(one.filter(p) =~= seq![v]) by {
                reveal(Seq::filter);
                assert(one.drop_last() =~= seq![v]);
            }
        } else {
            assert(one =~= seq![v]);
            assert(one.filter(p) =~= seq![v]) by {
                reveal(Seq::filter);
                assert(one.drop_last() =~= Seq::<(Seq<char>, Seq<char>, bool)>::empty());
            }
        }
        assert(hold_messages(datalog, register, ws).filter(p) =~= Seq::new(
            ws.len(),
            |i: int| hold_value(datalog, register + i, ws[i]),
        ));
    }
}

/// A holding register with a bit table gives, after its value, exactly one
/// retained `/bits` message: a JSON object whose keys are that table, in
/// order. A register without one gives its value message alone.
pub proof fn lemma_bits_companion(datalog: Seq<char>, register: int, w: int)
    ensures
        bit_names(register).len() > 0 ==> ({
            let ms = hold_one(datalog, register, w);
            &&& ms.len() == 2
            &&& ms[0] == hold_value(datalog, register, w)
            &&& ms[1].0 == datalog + "/hold/"@ + dec(register as nat) + "/bits"@
            &&& ms[1].2
            &&& ms[1].1 == json_object(flag_entries(bit_names(register), w))
            &&& json_keys(flag_entries(bit_names(register), w)) == bit_names(register)
        }),
        bit_names(register).len() == 0 ==> hold_one(datalog, register, w) == seq![
            hold_value(datalog, register, w),
        ],
{
    assert(json_keys(flag_entries(bit_names(register), w)) =~= bit_names(register));
}

} // verus!
