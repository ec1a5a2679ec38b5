use lxp_bridge::mqtt::{decimal, Message, TranslateError};
use lxp_bridge::packet::{DeviceFunction, ReadParam, TranslatedData};
use lxp_bridge::utils::Clock;

fn input(register: u16, values: Vec<u8>) -> TranslatedData {
    TranslatedData {
        datalog: "AB12345678".to_owned(),
        device_function: DeviceFunction::ReadInput,
        inverter: "0123456789".to_owned(),
        register,
        values,
    }
}

#[test]
fn param_without_a_word_is_an_error() {
    let packet = ReadParam { datalog: "AB12345678".to_owned(), register: 3, values: vec![7] };
    assert_eq!(Message::for_param(packet), Err(TranslateError::UndersizedValues));
}

#[test]
fn param_uses_first_word_only() {
    let packet = ReadParam { datalog: "AB12345678".to_owned(), register: 300, values: vec![0xff, 0xff, 1, 0] };
    let ms = Message::for_param(packet).unwrap();
    assert_eq!(ms.len(), 1);
    assert_eq!(ms[0].topic, "AB12345678/param/300");
    assert_eq!(ms[0].payload, "65535");
    assert!(ms[0].retain);
}

#[test]
fn hold_counts_one_value_message_per_word() {
    let packet = TranslatedData {
        datalog: "AB12345678".to_owned(),
        device_function: DeviceFunction::ReadHold,
        inverter: "0123456789".to_owned(),
        register: 20,
        values: vec![1, 0, 0xff, 0xff, 3, 0, 4],
    };
    let ms = Message::for_hold(packet).unwrap();
    let values: Vec<&Message> = ms.iter().filter(|m| !m.topic.ends_with("/bits")).collect();
    assert_eq!(values.len(), 3);
    assert_eq!(values[0].topic, "AB12345678/hold/20");
    assert_eq!(values[1].topic, "AB12345678/hold/21");
    assert_eq!(values[1].payload, "65535");
    assert_eq!(values[2].topic, "AB12345678/hold/22");
    assert_eq!(ms[2].topic, "AB12345678/hold/21/bits");
    assert_eq!(ms.len(), 4);
}

#[test]
fn hold_payloads_parse_back() {
    let packet = TranslatedData {
        datalog: "AB12345678".to_owned(),
        device_function: DeviceFunction::ReadHold,
        inverter: "0123456789".to_owned(),
        register: 200,
        values: vec![0x39, 0x30, 0, 0, 0xff, 0xff],
    };
    let ms = Message::for_hold(packet).unwrap();
    let parsed: Vec<u16> = ms.iter().map(|m| m.payload.parse::<u16>().unwrap()).collect();
    assert_eq!(parsed, vec![12345, 0, 65535]);
}

#[test]
fn decimal_renders_base_ten() {
    assert_eq!(decimal(0), "0");
    assert_eq!(decimal(10), "10");
    assert_eq!(decimal(65535), "65535");
    assert_eq!(decimal(18446744073709551615), "18446744073709551615");
}

#[test]
fn input_reserved_range_overlap_is_empty() {
    let clock = Clock::Fixed(0);
    assert_eq!(Message::for_input(input(120, vec![0; 20]), true, &clock).unwrap(), vec![]);
    assert_eq!(Message::for_input(input(254, vec![0; 2]), true, &clock).unwrap(), vec![]);
    assert_eq!(Message::for_input(input(255, vec![5, 0]), true, &clock).unwrap().len(), 1);
    assert_eq!(Message::for_input(input(117, vec![0; 20]), true, &clock).unwrap().len(), 10);
}

#[test]
fn input_status_names() {
    let clock = Clock::Fixed(0);
    let ms = Message::for_input(input(0, vec![0x0c, 0]), true, &clock).unwrap();
    assert_eq!(ms[1].topic, "AB12345678/input/0/parsed");
    assert_eq!(ms[1].payload, "PV Charge On-grid");
    let ms = Message::for_input(input(0, vec![0x03, 0]), true, &clock).unwrap();
    assert_eq!(ms[1].payload, "Unknown");
}

#[test]
fn input_record_scales_fields() {
    let mut values = vec![0u8; 80];
    values[2] = 0x0a; // v_pv_1 = 2314 -> 231.4
    values[3] = 0x09;
    values[10] = 0x32; // soc 50, soh 100
    values[11] = 0x64;
    values[20] = 0x10; // p_charge 16
    values[22] = 0x30; // p_discharge 48
    values[30] = 0x92; // f_ac = 5010 -> 50.1
    values[31] = 0x13;
    values[38] = 0x05; // pf = 5 -> 0.005
    values[76] = 0xff; // v_bus_1 = -1 -> -0.1
    values[77] = 0xff;
    let ms = Message::for_input(input(0, values), false, &Clock::Fixed(42)).unwrap();
    assert_eq!(ms.len(), 1);
    let p = &ms[0].payload;
    assert!(p.contains("\"v_pv_1\":231.4,"));
    assert!(p.contains("\"soc\":50,\"soh\":100,"));
    assert!(p.contains("\"p_battery\":-32,\"p_charge\":16,\"p_discharge\":48,"));
    assert!(p.contains("\"f_ac\":50.1,"));
    assert!(p.contains("\"pf\":0.005,"));
    assert!(p.contains("\"v_bus_1\":-0.1,"));
    assert!(p.ends_with("\"time\":42,\"datalog\":\"AB12345678\"}"));
    assert!(!ms[0].retain);
}
