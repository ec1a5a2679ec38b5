use lxp_bridge::framing::{FramingError, PacketDecoder};
use lxp_bridge::inverter::{after_connect, sender_step, BusItem, Receiver, SenderAction, SupervisorAction};

fn frame(body: &[u8]) -> Vec<u8> {
    let n = body.len();
    let mut f = vec![0xa1, 0x1a, 2, 0, (n % 256) as u8, (n / 256) as u8];
    f.extend_from_slice(body);
    f
}

#[test]
fn decode_waits_for_a_whole_frame() {
    let mut d = PacketDecoder::new();
    let mut buf = vec![0xa1, 0x1a, 2];
    assert_eq!(d.decode(&mut buf), None);
    assert_eq!(buf.len(), 3);
    let f = frame(&[1, 2, 3]);
    let mut buf = f[..8].to_vec();
    assert_eq!(d.decode(&mut buf), None);
    let mut buf = f.clone();
    buf.extend_from_slice(&[9, 9]);
    assert_eq!(d.decode(&mut buf), Some(f));
    assert_eq!(buf, vec![9, 9]);
}

#[test]
fn decode_eof_flags_leftovers() {
    let mut d = PacketDecoder::new();
    let mut buf = frame(&[5]);
    assert_eq!(d.decode_eof(&mut buf), Ok(Some(frame(&[5]))));
    assert_eq!(d.decode_eof(&mut buf), Ok(None));
    let mut buf = vec![1, 2];
    assert_eq!(d.decode_eof(&mut buf), Err(FramingError::TrailingBytes));
}

#[test]
fn chunked_stream_gives_same_frames() {
    let mut stream = frame(&[1, 2, 3]);
    stream.extend(frame(&[]));
    stream.extend(frame(&[4; 300]));
    stream.extend(&[0xa1, 0x1a]);
    let mut whole = Receiver::new();
    let all = whole.on_bytes(&stream);
    assert_eq!(all.len(), 3);
    for cut in [1usize, 5, 6, 9, 10, 200, stream.len() - 1] {
        let mut r = Receiver::new();
        let mut got = r.on_bytes(&stream[..cut]);
        got.extend(r.on_bytes(&stream[cut..]));
        assert_eq!(got, all);
    }
    let mut r = Receiver::new();
    let mut got = Vec::new();
    for b in &stream {
        got.extend(r.on_bytes(&[*b]));
    }
    assert_eq!(got, all);
    let (rest, end) = r.on_eof();
    assert!(rest.is_empty());
    assert_eq!(end, Err(FramingError::TrailingBytes));
}

#[test]
fn eof_after_whole_frames_is_clean() {
    let mut r = Receiver::new();
    assert!(r.on_bytes(&frame(&[7])[..4]).is_empty());
    let (fs, end) = r.on_eof();
    assert!(fs.is_empty());
    assert_eq!(end, Err(FramingError::TrailingBytes));
    let mut r = Receiver::new();
    assert_eq!(r.on_bytes(&frame(&[7])), vec![frame(&[7])]);
    assert_eq!(r.on_eof(), (vec![], Ok(())));
}

#[test]
fn supervisor_and_sender_decisions() {
    assert_eq!(after_connect(true), SupervisorAction::Finish);
    assert_eq!(after_connect(false), SupervisorAction::Reconnect { delay_secs: 5 });
    assert_eq!(sender_step(BusItem::Data(vec![1, 2])), SenderAction::Write(vec![1, 2]));
    assert_eq!(sender_step(BusItem::Disconnect), SenderAction::Shutdown);
}
