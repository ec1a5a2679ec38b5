use vstd::prelude::*;
use crate::framing::{PacketDecoder, FramingError, split_frames, has_frame, lemma_drained_has_no_frame};

verus! {

/// Seconds to wait before a new connection attempt. Fixed: there is no
/// backoff growth and no jitter.
pub const RECONNECT_DELAY_SECS: u64 = 5;

/// What travels on the two buses: a frame of data, or the sentinel that tells
/// consumers the link is gone.
#[derive(Clone, Debug, PartialEq, Eq)]
pub enum BusItem {
    Data(Vec<u8>),
    Disconnect,
}

/// What the supervisor does once a connection attempt has ended.
#[derive(Clone, Copy, Debug, PartialEq, Eq)]
pub enum SupervisorAction {
    /// The session ended without error: stop supervising.
    Finish,
    /// Publish `BusItem::Disconnect` on the inbound bus, so that blocked
    /// consumers are released, wait `delay_secs`, then connect again.
    Reconnect { delay_secs: u64 },
}

/// The decision after a connection attempt; retries are unbounded.
pub fn after_connect(succeeded: bool) -> (r: SupervisorAction)
    ensures
        succeeded ==> r == SupervisorAction::Finish,
        !succeeded ==> r == (SupervisorAction::Reconnect { delay_secs: 5 }),
{
    if succeeded {
        SupervisorAction::Finish
    } else {
        SupervisorAction::Reconnect { delay_secs: RECONNECT_DELAY_SECS }
    }
}

/// What the sender does with an item taken from the outbound bus.
#[derive(Clone, Debug, PartialEq, Eq)]
pub enum SenderAction {
    /// Write these bytes to the socket.
    Write(Vec<u8>),
    /// End the session with an error; the receiver is torn down with it.
    Shutdown,
}

/// The sender's step: data is written in the order received, the sentinel
/// is an order to shut down.
pub fn sender_step(item: BusItem) -> (r: SenderAction)
    ensures
        item matches BusItem::Data(d) ==> r == SenderAction::Write(d),
        item is Disconnect ==> r is Shutdown,
{
    match item {
        BusItem::Data(d) => SenderAction::Write(d),
        BusItem::Disconnect => SenderAction::Shutdown,
    }
}

/// The views of a list of frames.
pub open spec fn frames_view(fs: Seq<Vec<u8>>) -> Seq<Seq<u8>> {
    fs.map_values(|f: Vec<u8>| f@)
}

/// The receive side of a session: an append-only buffer of unconsumed bytes
/// and the decoder that drains it.
pub struct Receiver {
    buf: Vec<u8>,
    decoder: PacketDecoder,
}

impl View for Receiver {
    type V = Seq<u8>;

    closed spec fn view(&self) -> Seq<u8> {
        self.buf@
    }
}

impl Receiver {
    pub fn new() -> (r: Receiver)
        ensures
            r@ == Seq::<u8>::empty(),
    {
        Receiver { buf: Vec::new(), decoder: PacketDecoder::new() }
    }

    /// Drains every complete frame from the buffer, in order.
    fn drain(&mut self) -> (out: Vec<Vec<u8>>)
        ensures
            frames_view(out@) == split_frames(old(self)@).0,
            final(self)@ == split_frames(old(self)@).1,
    {
        let mut out: Vec<Vec<u8>> = Vec::new();
        let ghost start = self.buf@;
        loop
            invariant
                start == old(self).buf@,
                frames_view(out@) + split_frames(self.buf@).0 == split_frames(start).0,
                split_frames(self.buf@).1 == split_frames(start).1,
            decreases self.buf@.len(),
        {
            let ghost before = self.buf@;
            match self.decoder.decode(&mut self.buf) {
                Some(f) => {
                    proof {
                        assert(split_frames(before).0 == seq![f@] + split_frames(self.buf@).0);
                        assert(frames_view(out@.push(f)) =~= frames_view(out@).push(f@));
                        assert(frames_view(out@).push(f@) + split_frames(self.buf@).0 =~= frames_view(out@)
                            + split_frames(before).0);
                    }
                    out.push(f);
                },
                None => {
                    proof {
                        assert(frames_view(out@) + split_frames(self.buf@).0 =~= frames_view(out@));
                    }
                    return out;
                },
            }
        }
    }

    /// Appends bytes just read (never overwriting what is unconsumed) and
    /// returns every frame that became complete, in order.
    pub fn on_bytes(&mut self, chunk: &[u8]) -> (out: Vec<Vec<u8>>)
        ensures
            frames_view(out@) == split_frames(old(self)@ + chunk@).0,
            final(self)@ == split_frames(old(self)@ + chunk@).1,
            !has_frame(final(self)@),
    {
        let mut i: usize = 0;
        let ghost start = self.buf@;
        while i < chunk.len()
            invariant
                i <= chunk@.len(),
                self.buf@ == start + chunk@.take(i as int),
            decreases chunk@.len() - i,
        {
            self.buf.push(chunk[i]);
            i = i + 1;
            proof {
                assert(chunk@.take(i as int) =~= chunk@.take(i - 1).push(chunk@[i - 1]));
            }
        }
        assert(chunk@.take(i as int) =~= chunk@);
        proof {
            lemma_drained_has_no_frame(self.buf@);
        }
        self.drain()
    }

    /// The peer closed the stream: the frames still complete in the buffer,
    /// and whether the stream ended cleanly (no bytes left over).
    pub fn on_eof(&mut self) -> (r: (Vec<Vec<u8>>, Result<(), FramingError>))
        ensures
            frames_view(r.0@) == split_frames(old(self)@).0,
            final(self)@ == split_frames(old(self)@).1,
            r.1 is Ok <==> split_frames(old(self)@).1.len() == 0,
            r.1 is Err ==> r.1 == Err::<(), _>(FramingError::TrailingBytes),
    {
        let mut out: Vec<Vec<u8>> = Vec::new();
        let ghost start = self.buf@;
        loop
            invariant
                start == old(self).buf@,
                frames_view(out@) + split_frames(self.buf@).0 == split_frames(start).0,
                split_frames(self.buf@).1 == split_frames(start).1,
            decreases self.buf@.len(),
        {
            let ghost before = self.buf@;
            match self.decoder.decode_eof(&mut self.buf) {
                Ok(Some(f)) => {
                    proof {
                        assert(split_frames(before).0 == seq![f@] + split_frames(self.buf@).0);
                        assert(frames_view(out@.push(f)) =~= frames_view(out@).push(f@));
                        assert(frames_view(out@).push(f@) + split_frames(self.buf@).0 =~= frames_view(out@)
                            + split_frames(before).0);
                    }
                    out.push(f);
                },
                Ok(None) => {
                    proof {
                        assert(frames_view(out@) + split_frames(self.buf@).0 =~= frames_view(out@));
                    }
                    return (out, Ok(()));
                },
                Err(e) => {
                    proof {
                        assert(frames_view(out@) + split_frames(self.buf@).0 =~= frames_view(out@));
                    }
                    return (out, Err(e));
                },
            }
        }
    }
}

} // verus!
