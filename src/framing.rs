use vstd::prelude::*;

verus! {

/// Bytes in a frame header; its last two bytes give, little-endian, how many
/// bytes follow the header.
pub const HEADER_LEN: usize = 6;

/// The full length of the frame at the start of `s` (header included).
pub open spec fn frame_len(s: Seq<u8>) -> int
    recommends
        s.len() >= 6,
{
    6 + s[4] as int + 256 * (s[5] as int)
}

/// `s` begins with a complete frame.
pub open spec fn has_frame(s: Seq<u8>) -> bool {
    s.len() >= 6 && s.len() >= frame_len(s)
}

/// Every complete frame at the front of `s`, in order, and the bytes left
/// after them.
pub open spec fn split_frames(s: Seq<u8>) -> (Seq<Seq<u8>>, Seq<u8>)
    decreases s.len(),
{
    if has_frame(s) {
        let n = frame_len(s);
        let (fs, rest) = split_frames(s.skip(n));
        (seq![s.take(n)] + fs, rest)
    } else {
        (Seq::empty(), s)
    }
}

/// Feeds `chunks` one after another into a buffer that starts as `buf`,
/// draining every complete frame after each chunk: the frames emitted, in
/// order, and the buffer left at the end.
pub open spec fn feed_chunks(buf: Seq<u8>, chunks: Seq<Seq<u8>>) -> (Seq<Seq<u8>>, Seq<u8>)
    decreases chunks.len(),
{
    if chunks.len() == 0 {
        (Seq::empty(), buf)
    } else {
        let (fs, rest) = split_frames(buf + chunks[0]);
        let (gs, last) = feed_chunks(rest, chunks.skip(1));
        (fs + gs, last)
    }
}

/// Appending bytes to what is left after draining `a` yields, after the
/// frames of `a`, exactly the frames of `a + b`.
pub proof fn lemma_split_append(a: Seq<u8>, b: Seq<u8>)
    ensures
        split_frames(a).0 + split_frames(split_frames(a).1 + b).0 == split_frames(a + b).0,
        split_frames(split_frames(a).1 + b).1 == split_frames(a + b).1,
    decreases a.len(),
{
    if has_frame(a) {
        let n = frame_len(a);
        let ab = a + b;
        assert(ab[4] == a[4] && ab[5] == a[5]);
        assert(has_frame(ab));
        assert(ab.take(n) =~= a.take(n));
        assert(ab.skip(n) =~= a.skip(n) + b);
        lemma_split_append(a.skip(n), b);
        let (fs, rest) = split_frames(a.skip(n));
        assert(split_frames(a).0 == seq![a.take(n)] + fs);
        assert(split_frames(ab).0 == seq![a.take(n)] + split_frames(a.skip(n) + b).0);
        assert(seq![a.take(n)] + fs + split_frames(rest + b).0 =~= seq![a.take(n)] + (fs
            + split_frames(rest + b).0));
    } else {
        assert(split_frames(a).0 + split_frames(a + b).0 =~= split_frames(a + b).0);
    }
}

/// Decoding a stream delivered in any number of chunks, draining after each,
/// yields the same frames, and leaves the same bytes, as decoding the
/// concatenation of the chunks at once.
pub proof fn lemma_chunked_decoding(buf: Seq<u8>, chunks: Seq<Seq<u8>>)
    ensures
        split_frames(buf).0 + feed_chunks(split_frames(buf).1, chunks).0 == split_frames(
            buf + chunks.flatten(),
        ).0,
        feed_chunks(split_frames(buf).1, chunks).1 == split_frames(buf + chunks.flatten()).1,
    decreases chunks.len(),
{
    if chunks.len() == 0 {
        assert(buf + chunks.flatten() =~= buf);
        assert(split_frames(buf).0 + Seq::<Seq<u8>>::empty() =~= split_frames(buf).0);
    } else {
        let c = chunks[0];
        let rest0 = split_frames(buf).1;
        lemma_split_append(buf, c);
        let (fs, rest1) = split_frames(rest0 + c);
        let nb = buf + c;
        assert(split_frames(nb).1 == rest1);
        lemma_chunked_decoding(nb, chunks.skip(1));
        assert(chunks.flatten() =~= c + chunks.skip(1).flatten()) by {
            assert(chunks =~= seq![c] + chunks.skip(1));
        }
        assert(buf + chunks.flatten() =~= nb + chunks.skip(1).flatten());
        let (gs, last) = feed_chunks(rest1, chunks.skip(1));
        assert(split_frames(buf).0 + (fs + gs) =~= (split_frames(buf).0 + fs) + gs);
    }
}

/// What is left after draining never begins with a complete frame.
pub proof fn lemma_drained_has_no_frame(s: Seq<u8>)
    ensures
        !has_frame(split_frames(s).1),
    decreases s.len(),
{
    if has_frame(s) {
        lemma_drained_has_no_frame(s.skip(frame_len(s)));
    }
}

/// From an empty buffer: the frames drained chunk by chunk are those of the
/// whole stream at once, and so is what is left over.
pub proof fn lemma_chunked_from_empty(chunks: Seq<Seq<u8>>)
    ensures
        feed_chunks(Seq::empty(), chunks) == split_frames(chunks.flatten()),
{
    let e = Seq::<u8>::empty();
    assert(!has_frame(e));
    lemma_chunked_decoding(e, chunks);
    assert(e + chunks.flatten() =~= chunks.flatten());
    assert(Seq::<Seq<u8>>::empty() + feed_chunks(e, chunks).0 =~= feed_chunks(e, chunks).0);
}

/// A stream with nothing left to frame ended cleanly; one with leftover bytes
/// that do not form a complete frame did not.
#[derive(Clone, Copy, Debug, PartialEq, Eq)]
pub enum FramingError {
    TrailingBytes,
}

/// Cuts complete frames off the front of a receive buffer. It keeps no state
/// between frames: the buffer itself is the cursor.
pub struct PacketDecoder;

impl PacketDecoder {
    pub fn new() -> (r: PacketDecoder) {
        PacketDecoder
    }

    /// The next complete frame, removed from the front of `buf`, or `None`
    /// (buffer untouched) when more bytes must be read first.
    pub fn decode(&mut self, buf: &mut Vec<u8>) -> (r: Option<Vec<u8>>)
        ensures
            has_frame(old(buf)@) ==> (r matches Some(f) && f@ == old(buf)@.take(
                frame_len(old(buf)@),
            ) && final(buf)@ == old(buf)@.skip(frame_len(old(buf)@))),
            !has_frame(old(buf)@) ==> r is None && final(buf)@ == old(buf)@,
    {
        let len = buf.len();
        if len < HEADER_LEN {
            return None;
        }
        let body: usize = (buf[4] as usize) + (buf[5] as usize) * 256;
        let total: usize = HEADER_LEN + body;
        if len < total {
            return None;
        }
        let mut frame = buf.split_off(total);
        std::mem::swap(buf, &mut frame);
        Some(frame)
    }

    /// As `decode`, for the last bytes of a stream that has closed: a final
    /// complete frame is still returned; an empty buffer gives `Ok(None)`;
    /// bytes that do not form a complete frame are an error.
    pub fn decode_eof(&mut self, buf: &mut Vec<u8>) -> (r: Result<Option<Vec<u8>>, FramingError>)
        ensures
            has_frame(old(buf)@) ==> (r matches Ok(Some(f)) && f@ == old(buf)@.take(
                frame_len(old(buf)@),
            ) && final(buf)@ == old(buf)@.skip(frame_len(old(buf)@))),
            !has_frame(old(buf)@) && old(buf)@.len() == 0 ==> (r matches Ok(None) && final(buf)@
                == old(buf)@),
            !has_frame(old(buf)@) && old(buf)@.len() > 0 ==> r == Err::<Option<Vec<u8>>, _>(
                FramingError::TrailingBytes,
            ) && final(buf)@ == old(buf)@,
    {
        match self.decode(buf) {
            Some(f) => Ok(Some(f)),
            None => {
                if buf.len() == 0 {
                    Ok(None)
                } else {
                    Err(FramingError::TrailingBytes)
                }
            },
        }
    }
}

} // verus!
