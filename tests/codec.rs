use lxp_bridge::utils::{Clock, CodecError, Scaled, UnixTime, Utils};

#[test]
fn word_readers() {
    let b = [0x34, 0x12, 0xff, 0xff, 0x00, 0x80];
    assert_eq!(Utils::u16ify(&b, 0), 0x1234);
    assert_eq!(Utils::i16ify(&b, 0), 0x1234);
    assert_eq!(Utils::u16ify(&b, 2), 65535);
    assert_eq!(Utils::i16ify(&b, 2), -1);
    assert_eq!(Utils::i16ify(&b, 4), -32768);
    assert_eq!(Utils::u16ify(&b, 1), 0xff12);
}

#[test]
fn scaled_readers_consume_their_field() {
    let b = [0x0a, 0x09, 0xff, 0xff, 7];
    let (rest, v) = Utils::le_i16_div10(&b).unwrap();
    assert_eq!(v, Scaled { units: 2314, divisor: 10 });
    assert_eq!(rest, &[0xff, 0xff, 7]);
    let (rest, v) = Utils::le_i16_div100(rest).unwrap();
    assert_eq!(v, Scaled { units: -1, divisor: 100 });
    assert_eq!(rest, &[7]);
    assert_eq!(Utils::le_i16_div1000(rest), Err(CodecError::InsufficientData));
    let (_, v) = Utils::le_i16_div1000(&b).unwrap();
    assert_eq!(v.divisor, 1000);
}

#[test]
fn u32_reader() {
    let b = [0x01, 0x00, 0x01, 0x00, 9];
    let (rest, v) = Utils::le_u32_div10(&b).unwrap();
    assert_eq!(v, Scaled { units: 65537, divisor: 10 });
    assert_eq!(rest, &[9]);
    assert_eq!(Utils::le_u32_div10(&b[..3]), Err(CodecError::InsufficientData));
}

#[test]
fn optional_readers_always_succeed() {
    let b = [0x05, 0x00];
    let (rest, v) = Utils::opt_le_i16_div10(&b).unwrap();
    assert_eq!(v, Some(Scaled { units: 5, divisor: 10 }));
    assert!(rest.is_empty());
    let (rest, v) = Utils::opt_le_i16_div100(&b[..1]).unwrap();
    assert_eq!(v, None);
    assert_eq!(rest, &[0x05]);
}

#[test]
fn time_reader_consumes_nothing() {
    let b = [1, 2, 3];
    let (rest, t) = Utils::current_time_for_nom(&b, &Clock::Fixed(1646370367)).unwrap();
    assert_eq!(rest, &b);
    assert_eq!(t, UnixTime(1646370367));
    let (_, now) = Utils::current_time_for_nom(&b, &Clock::System).unwrap();
    assert!(now.0 > 1646370367);
}
