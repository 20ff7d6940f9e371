use vstd::prelude::*;

verus! {

/// Byte order of the length field.
#[derive(Debug, Clone, Copy, PartialEq, Eq, Structural)]
pub enum ByteOrder {
    /// Most significant byte first (network order).
    BigEndian,
    /// Least significant byte first.
    LittleEndian,
}

/// Default upper bound on a payload length: 8 MiB.
pub const DEFAULT_MAX_FRAME_LEN: usize = 8388608;

/// The header layout shared by a decoder and an encoder.
#[derive(Debug, Clone, Copy)]
pub struct Builder {
    /// Largest length value accepted from a header or for a payload.
    pub max_frame_len: usize,
    /// Width of the length field in bytes, from 1 to 8.
    pub length_field_len: usize,
    /// Bytes of the header that precede the length field.
    pub length_field_offset: usize,
    /// Added to the length read from the header to give the payload length.
    pub length_adjustment: isize,
    /// Header bytes dropped before the payload; when unset,
    /// `length_field_offset + length_field_len`.
    pub num_skip: Option<usize>,
    /// Byte order of the length field.
    pub length_field_order: ByteOrder,
}

impl Builder {
    /// The layout is usable: the length field is 1 to 8 bytes wide.
    pub open spec fn wf(self) -> bool {
        1 <= self.length_field_len <= 8
    }

    /// Offset plus width: the bytes up to the end of the length field.
    pub open spec fn field_end(self) -> nat {
        (self.length_field_offset + self.length_field_len) as nat
    }

    /// Header bytes dropped from the stream before the payload.
    pub open spec fn skip_len(self) -> nat {
        match self.num_skip {
            Some(k) => k as nat,
            None => self.field_end(),
        }
    }

    /// Bytes that must be buffered before the header can be parsed.
    pub open spec fn head_len(self) -> nat {
        let k: nat = match self.num_skip {
            Some(k) => k as nat,
            None => 0,
        };
        if self.field_end() >= k { self.field_end() } else { k }
    }

    /// The layout that `new` returns.
    pub open spec fn is_default(self) -> bool {
        &&& self.max_frame_len == DEFAULT_MAX_FRAME_LEN
        &&& self.length_field_len == 4
        &&& self.length_field_offset == 0
        &&& self.length_adjustment == 0
        &&& self.num_skip is None
        &&& self.length_field_order == ByteOrder::BigEndian
    }

    /// A four-byte big-endian length field at the start of the header, no
    /// adjustment, and payloads of up to 8 MiB.
    pub fn new() -> (r: Builder)
        ensures
            r.is_default(),
            r.wf(),
    {
        Builder {
            max_frame_len: DEFAULT_MAX_FRAME_LEN,
            length_field_len: 4,
            length_field_offset: 0,
            length_adjustment: 0,
            num_skip: None,
            length_field_order: ByteOrder::BigEndian,
        }
    }

    /// Sets the max frame length.
    pub fn set_max_frame_length(self, val: usize) -> (r: Builder)
        ensures
            r == (Builder { max_frame_len: val, ..self }),
    {
        Builder { max_frame_len: val, ..self }
    }

    /// Sets the number of bytes used to represent the length field.
    pub fn set_length_field_length(self, val: usize) -> (r: Builder)
        requires
            1 <= val <= 8,
        ensures
            r == (Builder { length_field_len: val, ..self }),
            r.wf(),
    {
        Builder { length_field_len: val, ..self }
    }

    /// Sets the number of bytes in the header before the length field.
    pub fn set_length_field_offset(self, val: usize) -> (r: Builder)
        ensures
            r == (Builder { length_field_offset: val, ..self }),
    {
        Builder { length_field_offset: val, ..self }
    }

    /// Sets the delta between the length in the header and the real payload
    /// length.
    pub fn set_length_adjustment(self, val: isize) -> (r: Builder)
        ensures
            r == (Builder { length_adjustment: val, ..self }),
    {
        Builder { length_adjustment: val, ..self }
    }

    /// Sets the number of header bytes to skip before reading the payload.
    pub fn set_num_skip(self, val: usize) -> (r: Builder)
        ensures
            r == (Builder { num_skip: Some(val), ..self }),
    {
        Builder { num_skip: Some(val), ..self }
    }

    /// Sets the byte order of the length field.
    pub fn set_byte_order(self, val: ByteOrder) -> (r: Builder)
        ensures
            r == (Builder { length_field_order: val, ..self }),
    {
        Builder { length_field_order: val, ..self }
    }

    /// Number of header bytes to buffer before parsing, or `None` where
    /// that number does not fit in `usize` (such a header never completes).
    pub fn num_head_bytes(&self) -> (r: Option<usize>)
        ensures
            r matches Some(k) ==> k == self.head_len(),
            r is None ==> self.head_len() > usize::MAX,
    {
        let end = self.length_field_offset.checked_add(self.length_field_len);
        match end {
            None => None,
            Some(e) => {
                let k = match self.num_skip {
                    Some(k) => k,
                    None => 0,
                };
                if e >= k { Some(e) } else { Some(k) }
            }
        }
    }

    /// Number of header bytes dropped before the payload.
    pub fn num_skip(&self) -> (r: usize)
        requires
            self.head_len() <= usize::MAX,
        ensures
            r == self.skip_len(),
    {
        match self.num_skip {
            Some(k) => k,
            None => self.length_field_offset + self.length_field_len,
        }
    }
}

} // verus!
