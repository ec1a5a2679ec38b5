use vstd::prelude::*;

verus! {

/// The protocol operation that a translated-data packet carries.
#[derive(Clone, Copy, Debug, PartialEq, Eq)]
pub enum DeviceFunction {
    ReadHold,
    ReadInput,
    WriteSingle,
    WriteMulti,
}

/// A register read or write relayed through the datalogger. `values` holds
/// `values.len() / 2` little-endian words, for consecutive registers from
/// `register` on.
#[derive(Clone, Debug, PartialEq, Eq)]
pub struct TranslatedData {
    pub datalog: String,
    pub device_function: DeviceFunction,
    pub inverter: String,
    pub register: u16,
    pub values: Vec<u8>,
}

/// A parameter of the datalogger itself; `values` holds little-endian words.
#[derive(Clone, Debug, PartialEq, Eq)]
pub struct ReadParam {
    pub datalog: String,
    pub register: u16,
    pub values: Vec<u8>,
}

/// A keep-alive from the datalogger.
#[derive(Clone, Debug, PartialEq, Eq)]
pub struct Heartbeat {
    pub datalog: String,
}

/// A decoded protocol message.
#[derive(Clone, Debug, PartialEq, Eq)]
pub enum Packet {
    Heartbeat(Heartbeat),
    TranslatedData(TranslatedData),
    ReadParam(ReadParam),
}

} // verus!
