use lxp_bridge::mqtt::Message;
use lxp_bridge::packet::{DeviceFunction, ReadParam, TranslatedData};
use lxp_bridge::utils::Clock;

const DATALOG: &str = "2222222222";
const SERIAL: &str = "5555555555";
const TEST_TIME: i64 = 1646370367;

fn msg(topic: &str, retain: bool, payload: &str) -> Message {
    Message { topic: topic.to_owned(), retain, payload: payload.to_owned() }
}

fn translated(function: DeviceFunction, register: u16, values: Vec<u8>) -> TranslatedData {
    TranslatedData {
        datalog: DATALOG.to_owned(),
        device_function: function,
        inverter: SERIAL.to_owned(),
        register,
        values,
    }
}

#[test]
fn for_param() {
    let packet = ReadParam { datalog: DATALOG.to_owned(), register: 0, values: vec![1, 0] };
    assert_eq!(Message::for_param(packet).unwrap(), vec![msg("2222222222/param/0", true, "1")]);
}

#[test]
fn for_hold_single() {
    let packet = translated(DeviceFunction::ReadHold, 0, vec![1, 0]);
    assert_eq!(Message::for_hold(packet).unwrap(), vec![msg("2222222222/hold/0", true, "1")]);
}

#[test]
fn for_hold_21() {
    let packet = translated(DeviceFunction::ReadHold, 21, vec![12, 34]);
    assert_eq!(
        Message::for_hold(packet).unwrap(),
        vec![
            msg("2222222222/hold/21", true, "8716"),
            msg("2222222222/hold/21/bits", true, "{\"eps_en\":\"OFF\",\"ovf_load_derate_en\":\"OFF\",\"drms_en\":\"ON\",\"lvrt_en\":\"ON\",\"anti_island_en\":\"OFF\",\"neutral_detect_en\":\"OFF\",\"grid_on_power_ss_en\":\"OFF\",\"ac_charge_en\":\"OFF\",\"sw_seamless_en\":\"OFF\",\"set_to_standby\":\"ON\",\"forced_discharge_en\":\"OFF\",\"charge_priority_en\":\"OFF\",\"iso_en\":\"OFF\",\"gfci_en\":\"ON\",\"dci_en\":\"OFF\",\"feed_in_grid_en\":\"OFF\"}"),
        ]
    );
}

#[test]
fn for_hold_110() {
    let packet = translated(DeviceFunction::ReadHold, 110, vec![9, 4]);
    assert_eq!(
        Message::for_hold(packet).unwrap(),
        vec![
            msg("2222222222/hold/110", true, "1033"),
            msg("2222222222/hold/110/bits", true, "{\"ub_pv_grid_off_en\":\"ON\",\"ub_run_without_grid\":\"OFF\",\"ub_micro_grid_en\":\"OFF\"}"),
        ]
    );
}

#[test]
fn for_hold_multi() {
    let packet = translated(DeviceFunction::ReadHold, 12, vec![22, 6, 7, 8, 9, 0]);
    assert_eq!(
        Message::for_hold(packet).unwrap(),
        vec![
            msg("2222222222/hold/12", true, "1558"),
            msg("2222222222/hold/13", true, "2055"),
            msg("2222222222/hold/14", true, "9"),
        ]
    );
}

#[test]
fn for_input() {
    let clock = Clock::Fixed(TEST_TIME);
    let packet = translated(DeviceFunction::ReadInput, 0, [0; 80].to_vec());
    assert_eq!(
        Message::for_input(packet, false, &clock).unwrap(),
        vec![msg("2222222222/inputs/1", false, "{\"status\":0,\"v_pv_1\":0.0,\"v_pv_2\":0.0,\"v_pv_3\":0.0,\"v_bat\":0.0,\"soc\":0,\"soh\":0,\"internal_fault\":0,\"p_pv\":0,\"p_pv_1\":0,\"p_pv_2\":0,\"p_pv_3\":0,\"p_battery\":0,\"p_charge\":0,\"p_discharge\":0,\"v_ac_r\":0.0,\"v_ac_s\":0.0,\"v_ac_t\":0.0,\"f_ac\":0.0,\"p_inv\":0,\"p_rec\":0,\"pf\":0.0,\"v_eps_r\":0.0,\"v_eps_s\":0.0,\"v_eps_t\":0.0,\"f_eps\":0.0,\"p_eps\":0,\"s_eps\":0,\"p_grid\":0,\"p_to_grid\":0,\"p_to_user\":0,\"e_pv_day\":0.0,\"e_pv_day_1\":0.0,\"e_pv_day_2\":0.0,\"e_pv_day_3\":0.0,\"e_inv_day\":0.0,\"e_rec_day\":0.0,\"e_chg_day\":0.0,\"e_dischg_day\":0.0,\"e_eps_day\":0.0,\"e_to_grid_day\":0.0,\"e_to_user_day\":0.0,\"v_bus_1\":0.0,\"v_bus_2\":0.0,\"time\":1646370367,\"datalog\":\"2222222222\"}")]
    );

    let packet = translated(DeviceFunction::ReadInput, 0, [0; 4].to_vec());
    assert_eq!(
        Message::for_input(packet, true, &clock).unwrap(),
        vec![
            msg("2222222222/input/0", false, "0"),
            msg("2222222222/input/0/parsed", false, "Standby"),
            msg("2222222222/input/1", false, "0"),
        ]
    );
}

#[test]
fn for_input_ignore_127_254() {
    let packet = translated(DeviceFunction::ReadInput, 127, [0; 254].to_vec());
    assert_eq!(Message::for_input(packet, false, &Clock::Fixed(TEST_TIME)).unwrap(), vec![]);
}
