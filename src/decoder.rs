//! Splitting received bytes into frames.

use vstd::prelude::*;
use bytes::BytesMut;
use crate::buffer::{buf_advance, buf_bytes, buf_extend, buf_len, buf_new, buf_split_to, contents};
use crate::config::Builder;
use crate::error::FrameError;
use crate::length::{decode_length, field_value};

verus! {

/// What the start of a stream says about its first frame's header.
pub enum Header {
    /// Fewer bytes than the header needs.
    Incomplete,
    /// The header is there and its length is refused.
    Invalid(FrameError),
    /// The header is there and declares a payload of this many bytes.
    Parsed(nat),
}

/// The header at the start of `s`, read with the layout `cfg`.
pub open spec fn parse_header(cfg: Builder, s: Seq<u8>) -> Header {
    if s.len() < cfg.head_len() {
        Header::Incomplete
    } else {
        let v = field_value(
            cfg.length_field_order,
            s.subrange(cfg.length_field_offset as int, cfg.field_end() as int),
        );
        if v > cfg.max_frame_len {
            Header::Invalid(FrameError::FrameTooLarge)
        } else {
            let n: int = v + cfg.length_adjustment;
            if n < 0 || n > usize::MAX {
                Header::Invalid(FrameError::LengthOverflow)
            } else {
                Header::Parsed(n as nat)
            }
        }
    }
}

/// What the start of a stream yields.
pub enum Step {
    /// More bytes are needed before anything can be said.
    Pending,
    /// The first frame is refused.
    Fail(FrameError),
    /// The first frame carries this payload and takes up this many bytes.
    Frame(Seq<u8>, nat),
}

/// The first frame of the stream `s`.
pub open spec fn next_frame(cfg: Builder, s: Seq<u8>) -> Step {
    match parse_header(cfg, s) {
        Header::Incomplete => Step::Pending,
        Header::Invalid(e) => Step::Fail(e),
        Header::Parsed(n) => {
            let k = cfg.skip_len();
            if s.len() < k + n {
                Step::Pending
            } else {
                Step::Frame(s.subrange(k as int, (k + n) as int), k + n)
            }
        }
    }
}

/// The frames that a stream holds in full, what is left after them, and
/// the error that stopped decoding, if any.
pub struct Split {
    /// The payloads of the frames taken out, in order.
    pub frames: Seq<Seq<u8>>,
    /// The bytes after the last frame taken out.
    pub rest: Seq<u8>,
    /// Why decoding stopped at the front of `rest`, if it failed there.
    pub error: Option<FrameError>,
}

/// All the frames that `s` holds, one after another. A frame that takes up
/// no bytes at all (no header bytes skipped and an empty payload) would
/// repeat without end; the split stops in front of it.
pub open spec fn split_frames(cfg: Builder, s: Seq<u8>) -> Split
    decreases s.len(),
{
    match next_frame(cfg, s) {
        Step::Pending => Split { frames: Seq::empty(), rest: s, error: None },
        Step::Fail(e) => Split { frames: Seq::empty(), rest: s, error: Some(e) },
        Step::Frame(f, k) => {
            if k == 0 || k > s.len() {
                Split { frames: Seq::empty(), rest: s, error: None }
            } else {
                let r = split_frames(cfg, s.skip(k as int));
                Split { frames: seq![f] + r.frames, rest: r.rest, error: r.error }
            }
        }
    }
}

/// The split of `r`'s stream once the bytes `t` have arrived after it.
pub open spec fn continue_split(cfg: Builder, r: Split, t: Seq<u8>) -> Split {
    if r.error is Some {
        Split { frames: r.frames, rest: r.rest + t, error: r.error }
    } else {
        let q = split_frames(cfg, r.rest + t);
        Split { frames: r.frames + q.frames, rest: q.rest, error: q.error }
    }
}

/// The chunks one after another.
pub open spec fn flatten(chunks: Seq<Seq<u8>>) -> Seq<u8>
    decreases chunks.len(),
{
    if chunks.len() == 0 { Seq::empty() } else { chunks[0] + flatten(chunks.drop_first()) }
}

/// Decoding that receives `chunks` one read at a time after `pending`, and
/// takes every complete frame out after each read.
pub open spec fn split_chunks(cfg: Builder, pending: Seq<u8>, chunks: Seq<Seq<u8>>) -> Split
    decreases chunks.len(),
{
    if chunks.len() == 0 {
        split_frames(cfg, pending)
    } else {
        let r = split_frames(cfg, pending + chunks[0]);
        if r.error is Some {
            Split { frames: r.frames, rest: r.rest + flatten(chunks.drop_first()), error: r.error }
        } else {
            let q = split_chunks(cfg, r.rest, chunks.drop_first());
            Split { frames: r.frames + q.frames, rest: q.rest, error: q.error }
        }
    }
}

/// Once the start of a stream decides its first frame, bytes that arrive
/// later do not change that decision.
pub proof fn lemma_next_frame_prefix(cfg: Builder, s: Seq<u8>, t: Seq<u8>)
    requires
        !(next_frame(cfg, s) is Pending),
    ensures
        next_frame(cfg, s + t) == next_frame(cfg, s),
{
    let st = s + t;
    assert(st.subrange(cfg.length_field_offset as int, cfg.field_end() as int)
        =~= s.subrange(cfg.length_field_offset as int, cfg.field_end() as int));
    if let Header::Parsed(n) = parse_header(cfg, s) {
        let k = cfg.skip_len();
        assert(st.subrange(k as int, (k + n) as int) =~= s.subrange(k as int, (k + n) as int));
    }
}

/// Splitting a stream that arrives in two parts gives what splitting the
/// first part and then going on with the second gives.
pub proof fn lemma_split_concat(cfg: Builder, s: Seq<u8>, t: Seq<u8>)
    ensures
        split_frames(cfg, s + t) == continue_split(cfg, split_frames(cfg, s), t),
    decreases s.len(),
{
    let r = split_frames(cfg, s);
    match next_frame(cfg, s) {
        Step::Pending => {
            assert(r.frames + split_frames(cfg, s + t).frames =~= split_frames(cfg, s + t).frames);
        },
        Step::Fail(e) => {
            lemma_next_frame_prefix(cfg, s, t);
        },
        Step::Frame(f, k) => {
            lemma_next_frame_prefix(cfg, s, t);
            if k == 0 || k > s.len() {
                assert(r.frames + split_frames(cfg, s + t).frames
                    =~= split_frames(cfg, s + t).frames);
            } else {
                let s2 = s.skip(k as int);
                assert((s + t).skip(k as int) =~= s2 + t);
                lemma_split_concat(cfg, s2, t);
                let r2 = split_frames(cfg, s2);
                if r2.error is None {
                    let q = split_frames(cfg, r2.rest + t);
                    assert(seq![f] + (r2.frames + q.frames) =~= (seq![f] + r2.frames) + q.frames);
                }
            }
        },
    }
}

/// Decoding does not depend on how the bytes are cut into reads: receiving
/// `chunks` one at a time, and taking out every complete frame after each,
/// gives the frames, the leftover bytes and the error that decoding all the
/// bytes at once gives.
pub proof fn lemma_fragmentation_independence(cfg: Builder, pending: Seq<u8>, chunks: Seq<Seq<u8>>)
    ensures
        split_chunks(cfg, pending, chunks) == split_frames(cfg, pending + flatten(chunks)),
    decreases chunks.len(),
{
    if chunks.len() == 0 {
        assert(pending + flatten(chunks) =~= pending);
    } else {
        let c = chunks[0];
        let tail = chunks.drop_first();
        assert(pending + flatten(chunks) =~= (pending + c) + flatten(tail));
        lemma_split_concat(cfg, pending + c, flatten(tail));
        let r = split_frames(cfg, pending + c);
        if r.error is None {
            lemma_fragmentation_independence(cfg, r.rest, tail);
        }
    }
}

/// Where the decoder stands in the stream.
#[derive(Debug, Clone, Copy, PartialEq, Eq, Structural)]
pub enum DecodeState {
    /// Waiting for a frame header.
    Head,
    /// The header is read; this many payload bytes make up the frame.
    Data(usize),
}

/// Splits the bytes read from a channel of type `T` into frames, according
/// to the length field in each frame header.
pub struct Decoder<T> {
    inner: T,
    builder: Builder,
    buf: BytesMut,
    state: DecodeState,
    /// The header bytes already dropped from `buf` for the frame in progress.
    head: Ghost<Seq<u8>>,
}

impl<T> Decoder<T> {
    /// The header layout.
    pub closed spec fn config(&self) -> Builder {
        self.builder
    }

    /// The channel.
    pub closed spec fn io(&self) -> T {
        self.inner
    }

    /// The position in the current frame.
    pub closed spec fn state(&self) -> DecodeState {
        self.state
    }

    /// The bytes received since the end of the last frame taken out.
    pub closed spec fn stream(&self) -> Seq<u8> {
        self.head@ + contents(self.buf)
    }

    /// The invariant that every method keeps.
    pub closed spec fn wf(&self) -> bool {
        &&& self.builder.wf()
        &&& match self.state {
            DecodeState::Head => self.head@ == Seq::<u8>::empty(),
            DecodeState::Data(n) => {
                &&& self.head@.len() == self.builder.skip_len()
                &&& parse_header(self.builder, self.stream()) == Header::Parsed(n as nat)
            },
        }
    }

    /// A decoder with the default layout (see `Builder::new`) over `io`.
    pub fn default(io: T) -> (r: Decoder<T>)
        ensures
            r.wf(),
            r.config().is_default(),
            r.io() == io,
            r.state() == DecodeState::Head,
            r.stream() == Seq::<u8>::empty(),
    {
        Builder::new().decoder(io)
    }

    /// The channel.
    pub fn get_ref(&self) -> (r: &T)
        ensures
            *r == self.io(),
    {
        &self.inner
    }

    /// The channel, to be used in place.
    pub fn get_mut(&mut self) -> (r: &mut T)
        ensures
            *r == old(self).io(),
            final(self).io() == *final(r),
            final(self).config() == old(self).config(),
            final(self).state() == old(self).state(),
            final(self).stream() == old(self).stream(),
            final(self).wf() == old(self).wf(),
    {
        &mut self.inner
    }

    /// Gives the channel back; buffered bytes are dropped.
    pub fn into_inner(self) -> (r: T)
        ensures
            r == self.io(),
    {
        self.inner
    }

    /// Where the decoder stands.
    pub fn decode_state(&self) -> (r: DecodeState)
        ensures
            r == self.state(),
    {
        self.state
    }

    /// Takes in the bytes of one read from the channel.
    pub fn receive(&mut self, data: &[u8])
        requires
            old(self).wf(),
        ensures
            final(self).wf(),
            final(self).stream() == old(self).stream() + data@,
            final(self).config() == old(self).config(),
            final(self).io() == old(self).io(),
            final(self).state() == old(self).state(),
    {
        let ghost s0 = self.stream();
        buf_extend(&mut self.buf, data);
        assert(self.stream() =~= s0 + data@);
        proof {
            let b = self.builder;
            if let DecodeState::Data(n) = self.state {
                assert(s0.subrange(b.length_field_offset as int, b.field_end() as int)
                    =~= self.stream().subrange(b.length_field_offset as int, b.field_end() as int));
            }
        }
    }

    /// Parses the header at the front of the buffer, where it is complete,
    /// and drops the header bytes that precede the payload.
    fn read_head(&mut self) -> (r: Result<Option<usize>, FrameError>)
        requires
            old(self).wf(),
            old(self).state == DecodeState::Head,
        ensures
            final(self).wf(),
            final(self).builder == old(self).builder,
            final(self).inner == old(self).inner,
            match parse_header(old(self).builder, old(self).stream()) {
                Header::Incomplete => r == Ok::<Option<usize>, FrameError>(None)
                    && *final(self) == *old(self),
                Header::Invalid(e) => r == Err::<Option<usize>, FrameError>(e)
                    && *final(self) == *old(self),
                Header::Parsed(n) => r == Ok::<Option<usize>, FrameError>(Some(n as usize))
                    && final(self).state == DecodeState::Data(n as usize)
                    && final(self).stream() == old(self).stream(),
            },
    {
        let ghost s0 = self.stream();
        assert(s0 =~= contents(self.buf));
        let len = buf_len(&self.buf);
        let head_len = match self.builder.num_head_bytes() {
            None => return Ok(None),
            Some(k) => k,
        };
        if len < head_len {
            return Ok(None);
        }
        let v = read_field(buf_bytes(&self.buf), &self.builder);
        if (v as u128) > (self.builder.max_frame_len as u128) {
            return Err(FrameError::FrameTooLarge);
        }
        let adjusted: i128 = v as i128 + self.builder.length_adjustment as i128;
        if adjusted < 0 || adjusted > usize::MAX as i128 {
            return Err(FrameError::LengthOverflow);
        }
        let n = adjusted as usize;
        let skip = self.builder.num_skip();
        buf_advance(&mut self.buf, skip);
        self.head = Ghost(s0.take(skip as int));
        self.state = DecodeState::Data(n);
        assert(self.stream() =~= s0);
        Ok(Some(n))
    }

    /// Takes the payload out of the buffer once all of it is there.
    fn read_data(&mut self, n: usize) -> (r: Option<BytesMut>)
        requires
            old(self).wf(),
            old(self).state == DecodeState::Data(n),
        ensures
            final(self).wf(),
            final(self).builder == old(self).builder,
            final(self).inner == old(self).inner,
            match next_frame(old(self).builder, old(self).stream()) {
                Step::Frame(f, k) => (r matches Some(b) && contents(b) == f)
                    && final(self).stream() == old(self).stream().skip(k as int)
                    && final(self).state == DecodeState::Head,
                _ => r is None && *final(self) == *old(self),
            },
    {
        let ghost s0 = self.stream();
        let ghost k = self.builder.skip_len() + n;
        if buf_len(&self.buf) < n {
            return None;
        }
        let frame = buf_split_to(&mut self.buf, n);
        self.state = DecodeState::Head;
        self.head = Ghost(Seq::empty());
        assert(contents(frame) =~= s0.subrange(self.builder.skip_len() as int, k as int));
        assert(self.stream() =~= s0.skip(k as int));
        Some(frame)
    }

    /// Takes the next frame out of the bytes received so far: `Ok(None)`
    /// where more bytes are needed, and an error where the header is refused.
    /// A refused header consumes nothing.
    pub fn decode(&mut self) -> (r: Result<Option<BytesMut>, FrameError>)
        requires
            old(self).wf(),
        ensures
            final(self).wf(),
            final(self).config() == old(self).config(),
            final(self).io() == old(self).io(),
            match next_frame(old(self).config(), old(self).stream()) {
                Step::Pending => r == Ok::<Option<BytesMut>, FrameError>(None)
                    && final(self).stream() == old(self).stream(),
                Step::Fail(e) => r == Err::<Option<BytesMut>, FrameError>(e)
                    && final(self).stream() == old(self).stream()
                    && final(self).state() == old(self).state(),
                Step::Frame(f, k) => (r matches Ok(Some(b)) && contents(b) == f)
                    && final(self).stream() == old(self).stream().skip(k as int)
                    && final(self).state() == DecodeState::Head,
            },
            next_frame(old(self).config(), old(self).stream()) is Pending ==> match parse_header(
                old(self).config(),
                old(self).stream(),
            ) {
                Header::Parsed(n) => final(self).state() == DecodeState::Data(n as usize),
                _ => final(self).state() == DecodeState::Head,
            },
    {
        match self.state {
            DecodeState::Data(n) => Ok(self.read_data(n)),
            DecodeState::Head => match self.read_head() {
                Err(e) => Err(e),
                Ok(None) => Ok(None),
                Ok(Some(n)) => Ok(self.read_data(n)),
            },
        }
    }

    /// Takes out every complete frame received so far, in order, stopping
    /// where more bytes are needed or at a refused header. Together with
    /// `lemma_fragmentation_independence`, calling this after each read gives
    /// the frames that decoding all the bytes at once gives.
    pub fn decode_available(&mut self) -> (r: (Vec<BytesMut>, Option<FrameError>))
        requires
            old(self).wf(),
        ensures
            final(self).wf(),
            final(self).config() == old(self).config(),
            final(self).io() == old(self).io(),
            r.0@.map_values(|b: BytesMut| contents(b))
                == split_frames(old(self).config(), old(self).stream()).frames,
            final(self).stream() == split_frames(old(self).config(), old(self).stream()).rest,
            r.1 == split_frames(old(self).config(), old(self).stream()).error,
    {
        let ghost cfg = self.builder;
        let ghost s0 = self.stream();
        let mut frames: Vec<BytesMut> = Vec::new();
        loop
            invariant
                self.wf(),
                self.builder == cfg,
                cfg == old(self).builder,
                s0 == old(self).stream(),
                self.inner == old(self).inner,
                split_frames(cfg, s0) == (Split {
                    frames: frames@.map_values(|b: BytesMut| contents(b))
                        + split_frames(cfg, self.stream()).frames,
                    rest: split_frames(cfg, self.stream()).rest,
                    error: split_frames(cfg, self.stream()).error,
                }),
            decreases self.stream().len(),
        {
            let ghost s = self.stream();
            let ghost done = frames@.map_values(|b: BytesMut| contents(b));
            match self.decode() {
                Err(e) => {
                    assert(done + Seq::<Seq<u8>>::empty() =~= done);
                    return (frames, Some(e));
                },
                Ok(None) => {
                    assert(done + Seq::<Seq<u8>>::empty() =~= done);
                    return (frames, None);
                },
                Ok(Some(frame)) => {
                    let stalled = buf_len(&frame) == 0 && match self.builder.num_skip {
                        Some(k) => k == 0,
                        None => false,
                    };
                    if stalled {
                        assert(self.stream() =~= s);
                        assert(done + Seq::<Seq<u8>>::empty() =~= done);
                        return (frames, None);
                    }
                    frames.push(frame);
                    let ghost r = split_frames(cfg, self.stream());
                    assert(frames@.map_values(|b: BytesMut| contents(b)) =~= done.push(contents(frame)));
                    assert(done + (seq![contents(frame)] + r.frames)
                        =~= done.push(contents(frame)) + r.frames);
                },
            }
        }
    }

    /// What the end of the channel means once `decode` has taken out every
    /// complete frame: a clean end where nothing is buffered, otherwise a
    /// truncated header or a truncated payload.
    pub fn finish(&self) -> (r: Result<(), FrameError>)
        requires
            self.wf(),
            next_frame(self.config(), self.stream()) is Pending,
        ensures
            r == close_outcome(self.config(), self.stream()),
    {
        match self.state {
            DecodeState::Data(_) => Err(FrameError::TruncatedPayload),
            DecodeState::Head => {
                let len = buf_len(&self.buf);
                if len == 0 {
                    Ok(())
                } else {
                    match self.builder.num_head_bytes() {
                        Some(k) => if len >= k {
                            Err(FrameError::TruncatedPayload)
                        } else {
                            Err(FrameError::TruncatedHeader)
                        },
                        None => Err(FrameError::TruncatedHeader),
                    }
                }
            },
        }
    }
}

/// How a stream that ends with the bytes `s` unconsumed closes.
pub open spec fn close_outcome(cfg: Builder, s: Seq<u8>) -> Result<(), FrameError> {
    if s.len() == 0 {
        Ok(())
    } else if parse_header(cfg, s) is Incomplete {
        Err(FrameError::TruncatedHeader)
    } else {
        Err(FrameError::TruncatedPayload)
    }
}

/// The length field of the header at the start of `bytes`.
fn read_field(bytes: &[u8], cfg: &Builder) -> (r: u64)
    requires
        cfg.wf(),
        cfg.head_len() <= bytes@.len(),
    ensures
        r as nat == field_value(
            cfg.length_field_order,
            bytes@.subrange(cfg.length_field_offset as int, cfg.field_end() as int),
        ),
{
    let off = cfg.length_field_offset;
    let width = cfg.length_field_len;
    let total = bytes.len();
    let mut field: Vec<u8> = Vec::new();
    let mut i: usize = 0;
    while i < width
        invariant
            i <= width,
            total == bytes@.len(),
            width == cfg.length_field_len,
            off == cfg.length_field_offset,
            cfg.field_end() <= bytes@.len(),
            field@ =~= bytes@.subrange(off as int, off + i),
        decreases width - i,
    {
        field.push(bytes[off + i]);
        i = i + 1;
    }
    assert(field@.take(width as int) =~= field@);
    decode_length(field.as_slice(), width, cfg.length_field_order)
}

impl Builder {
    /// A decoder with this layout over `io`.
    pub fn decoder<T>(self, io: T) -> (r: Decoder<T>)
        requires
            self.wf(),
        ensures
            r.wf(),
            r.config() == self,
            r.io() == io,
            r.state() == DecodeState::Head,
            r.stream() == Seq::<u8>::empty(),
    {
        let r = Decoder { inner: io, builder: self, buf: buf_new(), state: DecodeState::Head, head: Ghost(Seq::empty()) };
        assert(r.stream() =~= Seq::<u8>::empty());
        r
    }
}

} // verus!
