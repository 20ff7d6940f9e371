//! Queuing frames as header and payload bytes to be written.

use vstd::prelude::*;
use bytes::BytesMut;
use crate::buffer::{buf_advance, buf_bytes, buf_extend, buf_len, buf_new, contents};
use crate::config::Builder;
use crate::decoder::{next_frame, split_frames, Split, Step};
use crate::error::FrameError;
use crate::length::{encode_length, field_bytes, lemma_length_round_trip, pow256};

verus! {

/// A payload of `len` bytes can be sent: its length is within the maximum
/// and fits in the length field.
pub open spec fn fits(cfg: Builder, len: nat) -> bool {
    len <= cfg.max_frame_len && len < pow256(cfg.length_field_len as nat)
}

/// The bytes of a frame with payload `p` as the encoder writes them: the
/// length field holding the payload length, then the payload.
pub open spec fn frame_bytes(cfg: Builder, p: Seq<u8>) -> Seq<u8> {
    field_bytes(cfg.length_field_order, p.len(), cfg.length_field_len as nat) + p
}

/// The encoder's layout is read back by the decoder as it was written: the
/// length field comes first, no other header bytes are skipped, and the
/// length is not adjusted.
pub open spec fn symmetric(cfg: Builder) -> bool {
    &&& cfg.wf()
    &&& cfg.length_field_offset == 0
    &&& cfg.length_adjustment == 0
    &&& cfg.skip_len() == cfg.length_field_len
}

/// A frame that the encoder writes decodes to its payload, whatever follows
/// it, under a layout that both sides read alike.
pub proof fn lemma_round_trip(cfg: Builder, p: Seq<u8>, rest: Seq<u8>)
    requires
        symmetric(cfg),
        fits(cfg, p.len()),
    ensures
        next_frame(cfg, frame_bytes(cfg, p) + rest) == Step::Frame(p, frame_bytes(cfg, p).len()),
        split_frames(cfg, frame_bytes(cfg, p))
            == (Split { frames: seq![p], rest: Seq::empty(), error: None }),
{
    let w = cfg.length_field_len as nat;
    let h = field_bytes(cfg.length_field_order, p.len(), w);
    lemma_length_round_trip(cfg.length_field_order, p.len(), w);
    let s = frame_bytes(cfg, p) + rest;
    assert(s.subrange(0, w as int) =~= h);
    assert(s.subrange(w as int, (w + p.len()) as int) =~= p);
    let s1 = frame_bytes(cfg, p);
    assert(s1.subrange(0, w as int) =~= h);
    assert(s1.subrange(w as int, (w + p.len()) as int) =~= p);
    assert(s1.skip(s1.len() as int) =~= Seq::<u8>::empty());
    assert(split_frames(cfg, s1.skip(s1.len() as int)).frames =~= Seq::<Seq<u8>>::empty());
    assert(seq![p] + Seq::<Seq<u8>>::empty() =~= seq![p]);
}

/// The bytes that the encoder writes for the payloads `ps`, in order.
pub open spec fn frames_bytes(cfg: Builder, ps: Seq<Seq<u8>>) -> Seq<u8>
    decreases ps.len(),
{
    if ps.len() == 0 {
        Seq::empty()
    } else {
        frame_bytes(cfg, ps[0]) + frames_bytes(cfg, ps.drop_first())
    }
}

/// The bytes that the encoder writes for a sequence of payloads decode to
/// exactly those payloads, in order, with nothing left over.
pub proof fn lemma_round_trip_frames(cfg: Builder, ps: Seq<Seq<u8>>)
    requires
        symmetric(cfg),
        forall|i: int| 0 <= i < ps.len() ==> fits(cfg, #[trigger] ps[i].len()),
    ensures
        split_frames(cfg, frames_bytes(cfg, ps))
            == (Split { frames: ps, rest: Seq::empty(), error: None }),
    decreases ps.len(),
{
    if ps.len() == 0 {
        assert(ps =~= Seq::<Seq<u8>>::empty());
        assert(frames_bytes(cfg, ps).len() == 0);
    } else {
        let tail = ps.drop_first();
        assert(forall|i: int| 0 <= i < tail.len() ==> tail[i] == ps[i + 1]);
        assert(fits(cfg, ps[0].len()));
        lemma_round_trip_frames(cfg, tail);
        lemma_round_trip(cfg, ps[0], Seq::empty());
        crate::decoder::lemma_split_concat(cfg, frame_bytes(cfg, ps[0]), frames_bytes(cfg, tail));
        assert(Seq::<u8>::empty() + frames_bytes(cfg, tail) =~= frames_bytes(cfg, tail));
        assert(seq![ps[0]] + tail =~= ps);
    }
}

/// Where the encoder stands in writing the current frame.
pub enum EncodeState {
    /// Nothing is waiting to be written.
    Ready,
    /// Writing the header; the payload follows.
    Head { head: BytesMut, data: BytesMut },
    /// Writing the payload.
    Data(BytesMut),
}

/// What `start_send` did with a frame.
pub enum SendOutcome {
    /// The frame is queued to be written.
    Accepted,
    /// The previous frame is still being written; the payload is handed back.
    NotReady(BytesMut),
}

/// Turns frames into header and payload bytes for a channel of type `T`,
/// one frame at a time.
pub struct Encoder<T> {
    inner: T,
    builder: Builder,
    state: EncodeState,
}

impl<T> Encoder<T> {
    /// The header layout.
    pub closed spec fn config(&self) -> Builder {
        self.builder
    }

    /// The channel.
    pub closed spec fn io(&self) -> T {
        self.inner
    }

    /// The bytes queued and not yet written, in the order they go out.
    pub closed spec fn outstanding(&self) -> Seq<u8> {
        match self.state {
            EncodeState::Ready => Seq::empty(),
            EncodeState::Head { head, data } => contents(head) + contents(data),
            EncodeState::Data(data) => contents(data),
        }
    }

    /// The number of bytes that `pending` hands out.
    pub closed spec fn chunk_len(&self) -> nat {
        match self.state {
            EncodeState::Ready => 0,
            EncodeState::Head { head, .. } => contents(head).len(),
            EncodeState::Data(data) => contents(data).len(),
        }
    }

    /// The invariant that every method keeps.
    pub closed spec fn wf(&self) -> bool {
        &&& self.builder.wf()
        &&& match self.state {
            EncodeState::Ready => true,
            EncodeState::Head { head, .. } => contents(head).len() > 0,
            EncodeState::Data(data) => contents(data).len() > 0,
        }
    }

    /// An encoder with the default layout (see `Builder::new`) over `io`.
    pub fn default(io: T) -> (r: Encoder<T>)
        ensures
            r.wf(),
            r.config().is_default(),
            r.io() == io,
            r.outstanding() == Seq::<u8>::empty(),
    {
        Builder::new().encoder(io)
    }

    /// The channel.
    pub fn get_ref(&self) -> (r: &T)
        ensures
            *r == self.io(),
    {
        &self.inner
    }

    /// The channel, to be used in place.
    pub fn get_mut(&mut self) -> (r: &mut T)
        ensures
            *r == old(self).io(),
            final(self).io() == *final(r),
            final(self).config() == old(self).config(),
            final(self).outstanding() == old(self).outstanding(),
            final(self).chunk_len() == old(self).chunk_len(),
            final(self).wf() == old(self).wf(),
    {
        &mut self.inner
    }

    /// Gives the channel back; bytes not yet written are dropped.
    pub fn into_inner(self) -> (r: T)
        ensures
            r == self.io(),
    {
        self.inner
    }

    /// Whether every queued byte has been written.
    pub fn is_flushed(&self) -> (r: bool)
        requires
            self.wf(),
        ensures
            r == (self.outstanding().len() == 0),
    {
        match &self.state {
            EncodeState::Ready => true,
            EncodeState::Head { .. } => false,
            EncodeState::Data(_) => false,
        }
    }

    /// Queues a frame with payload `item`. While an earlier frame is still
    /// being written the payload is handed back and nothing changes. A payload
    /// longer than the maximum, or too long for the length field, is refused
    /// and nothing is queued.
    pub fn start_send(&mut self, item: BytesMut) -> (r: Result<SendOutcome, FrameError>)
        requires
            old(self).wf(),
        ensures
            final(self).wf(),
            final(self).config() == old(self).config(),
            final(self).io() == old(self).io(),
            old(self).outstanding().len() > 0 ==> r == Ok::<SendOutcome, FrameError>(
                SendOutcome::NotReady(item),
            ) && final(self).outstanding() == old(self).outstanding()
                && final(self).chunk_len() == old(self).chunk_len(),
            old(self).outstanding().len() == 0 && fits(old(self).config(), contents(item).len())
                ==> r == Ok::<SendOutcome, FrameError>(SendOutcome::Accepted)
                && final(self).outstanding() == frame_bytes(old(self).config(), contents(item))
                && final(self).chunk_len() == final(self).config().length_field_len,
            old(self).outstanding().len() == 0 && !fits(old(self).config(), contents(item).len())
                ==> r == Err::<SendOutcome, FrameError>(FrameError::FrameTooLarge)
                && final(self).outstanding() == Seq::<u8>::empty(),
    {
        if !self.is_flushed() {
            return Ok(SendOutcome::NotReady(item));
        }
        let n = buf_len(&item);
        if n > self.builder.max_frame_len {
            return Err(FrameError::FrameTooLarge);
        }
        proof {
            crate::length::lemma_pow256_values();
        }
        let width = self.builder.length_field_len;
        let limit: u128 = if width == 1 {
            0x100
        } else if width == 2 {
            0x1_0000
        } else if width == 3 {
            0x100_0000
        } else if width == 4 {
            0x1_0000_0000
        } else if width == 5 {
            0x100_0000_0000
        } else if width == 6 {
            0x1_0000_0000_0000
        } else if width == 7 {
            0x100_0000_0000_0000
        } else {
            0x1_0000_0000_0000_0000
        };
        if (n as u128) >= limit {
            return Err(FrameError::FrameTooLarge);
        }
        let field = encode_length(n as u64, width, self.builder.length_field_order);
        let mut head = buf_new();
        buf_extend(&mut head, field.as_slice());
        proof {
            crate::length::lemma_field_bytes_len(
                self.builder.length_field_order,
                n as nat,
                width as nat,
            );
        }
        assert(contents(head) =~= field@);
        self.state = EncodeState::Head { head, data: item };
        Ok(SendOutcome::Accepted)
    }

    /// The next bytes to write: the rest of the header while it is being
    /// written, then the rest of the payload.
    pub fn pending(&self) -> (r: &[u8])
        requires
            self.wf(),
        ensures
            r@.len() == self.chunk_len(),
            r@.len() <= self.outstanding().len(),
            r@ == self.outstanding().take(r@.len() as int),
            self.outstanding().len() > 0 ==> r@.len() > 0,
    {
        match &self.state {
            EncodeState::Ready => {
                let empty: &[u8] = &[];
                assert(empty@ =~= Seq::<u8>::empty());
                empty
            },
            EncodeState::Head { head, .. } => {
                assert(self.outstanding().take(contents(*head).len() as int) =~= contents(*head));
                buf_bytes(head)
            },
            EncodeState::Data(data) => {
                assert(self.outstanding().take(contents(*data).len() as int) =~= contents(*data));
                buf_bytes(data)
            },
        }
    }

    /// Records that the channel took the first `n` bytes of `pending`. Once
    /// the header is written the payload follows; once the payload is
    /// written the encoder is ready for the next frame.
    pub fn advance(&mut self, n: usize)
        requires
            old(self).wf(),
            n <= old(self).chunk_len(),
        ensures
            final(self).wf(),
            final(self).config() == old(self).config(),
            final(self).io() == old(self).io(),
            final(self).outstanding() == old(self).outstanding().skip(n as int),
            old(self).chunk_len() > n ==> final(self).chunk_len() == old(self).chunk_len() - n,
            old(self).chunk_len() == n ==> final(self).chunk_len() == final(self).outstanding().len(),
    {
        let ghost before = self.outstanding();
        let mut state = EncodeState::Ready;
        std::mem::swap(&mut state, &mut self.state);
        match state {
            EncodeState::Ready => {
                assert(before.skip(0) =~= before);
            },
            EncodeState::Head { mut head, data } => {
                buf_advance(&mut head, n);
                if buf_len(&head) == 0 {
                    if buf_len(&data) == 0 {
                        self.state = EncodeState::Ready;
                    } else {
                        self.state = EncodeState::Data(data);
                    }
                } else {
                    self.state = EncodeState::Head { head, data };
                }
                assert(self.outstanding() =~= before.skip(n as int));
            },
            EncodeState::Data(mut data) => {
                buf_advance(&mut data, n);
                if buf_len(&data) > 0 {
                    self.state = EncodeState::Data(data);
                }
                assert(self.outstanding() =~= before.skip(n as int));
            },
        }
    }
}

impl Builder {
    /// An encoder with this layout over `io`.
    pub fn encoder<T>(self, io: T) -> (r: Encoder<T>)
        requires
            self.wf(),
        ensures
            r.wf(),
            r.config() == self,
            r.io() == io,
            r.outstanding() == Seq::<u8>::empty(),
    {
        Encoder { inner: io, builder: self, state: EncodeState::Ready }
    }
}

} // verus!
