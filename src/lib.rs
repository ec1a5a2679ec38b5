//! A gateway library for solar inverters that speak a length-delimited binary
//! TCP protocol: field readers, frame decoding, connection supervision
//! decisions and the translation of register reads into telemetry messages.

pub mod utils;
pub mod framing;
pub mod inverter;
pub mod packet;
pub mod mqtt;
