use vstd::prelude::*;
use byteorder::{BigEndian, LittleEndian};
use crate::config::ByteOrder;

verus! {

/// `256` to the power `w`.
pub open spec fn pow256(w: nat) -> nat
    decreases w,
{
    if w == 0 { 1 } else { 256 * pow256((w - 1) as nat) }
}

/// The number that the bytes `s` denote, most significant byte first.
pub open spec fn be_value(s: Seq<u8>) -> nat
    decreases s.len(),
{
    if s.len() == 0 { 0 } else { be_value(s.drop_last()) * 256 + s.last() as nat }
}

/// The number that the bytes `s` denote, least significant byte first.
pub open spec fn le_value(s: Seq<u8>) -> nat
    decreases s.len(),
{
    if s.len() == 0 { 0 } else { s[0] as nat + 256 * le_value(s.drop_first()) }
}

/// The `w` low bytes of `n`, most significant first.
pub open spec fn be_bytes(n: nat, w: nat) -> Seq<u8>
    decreases w,
{
    if w == 0 { Seq::empty() } else { be_bytes(n / 256, (w - 1) as nat).push((n % 256) as u8) }
}

/// The `w` low bytes of `n`, least significant first.
pub open spec fn le_bytes(n: nat, w: nat) -> Seq<u8>
    decreases w,
{
    if w == 0 { Seq::empty() } else { seq![(n % 256) as u8] + le_bytes(n / 256, (w - 1) as nat) }
}

/// The number a length field holds in the given byte order.
pub open spec fn field_value(order: ByteOrder, s: Seq<u8>) -> nat {
    match order {
        ByteOrder::BigEndian => be_value(s),
        ByteOrder::LittleEndian => le_value(s),
    }
}

/// The length field of width `w` that holds `n` in the given byte order.
pub open spec fn field_bytes(order: ByteOrder, n: nat, w: nat) -> Seq<u8> {
    match order {
        ByteOrder::BigEndian => be_bytes(n, w),
        ByteOrder::LittleEndian => le_bytes(n, w),
    }
}

pub proof fn lemma_be_bytes_len(n: nat, w: nat)
    ensures
        be_bytes(n, w).len() == w,
    decreases w,
{
    if w > 0 {
        lemma_be_bytes_len(n / 256, (w - 1) as nat);
    }
}

pub proof fn lemma_le_bytes_len(n: nat, w: nat)
    ensures
        le_bytes(n, w).len() == w,
    decreases w,
{
    if w > 0 {
        lemma_le_bytes_len(n / 256, (w - 1) as nat);
    }
}

pub proof fn lemma_field_bytes_len(order: ByteOrder, n: nat, w: nat)
    ensures
        field_bytes(order, n, w).len() == w,
{
    lemma_be_bytes_len(n, w);
    lemma_le_bytes_len(n, w);
}

proof fn lemma_div_bound(n: nat, w: nat)
    requires
        w > 0,
        n < pow256(w),
    ensures
        n / 256 < pow256((w - 1) as nat),
        n == (n / 256) * 256 + n % 256,
{
    let p = pow256((w - 1) as nat);
    assert(n < 256 * p);
    assert(n / 256 < p) by (nonlinear_arith)
        requires
            n < 256 * p,
    ;
    assert(n == (n / 256) * 256 + n % 256) by (nonlinear_arith);
}

proof fn lemma_be_round_trip(n: nat, w: nat)
    requires
        n < pow256(w),
    ensures
        be_value(be_bytes(n, w)) == n,
    decreases w,
{
    if w > 0 {
        lemma_div_bound(n, w);
        lemma_be_round_trip(n / 256, (w - 1) as nat);
        let s = be_bytes(n, w);
        assert(s.drop_last() =~= be_bytes(n / 256, (w - 1) as nat));
        assert((n % 256) as u8 as nat == n % 256);
    } else {
        assert(n == 0);
    }
}

proof fn lemma_le_round_trip(n: nat, w: nat)
    requires
        n < pow256(w),
    ensures
        le_value(le_bytes(n, w)) == n,
    decreases w,
{
    if w > 0 {
        lemma_div_bound(n, w);
        lemma_le_round_trip(n / 256, (w - 1) as nat);
        let s = le_bytes(n, w);
        assert(s.drop_first() =~= le_bytes(n / 256, (w - 1) as nat));
        assert((n % 256) as u8 as nat == n % 256);
    } else {
        assert(n == 0);
    }
}

/// A length field of any width from 1 to 8 bytes, in either byte order,
/// reads back as the number written into it, for every number that fits.
pub proof fn lemma_length_round_trip(order: ByteOrder, n: nat, w: nat)
    requires
        1 <= w <= 8,
        n < pow256(w),
    ensures
        field_value(order, field_bytes(order, n, w)) == n,
        field_bytes(order, n, w).len() == w,
{
    lemma_be_round_trip(n, w);
    lemma_le_round_trip(n, w);
    lemma_field_bytes_len(order, n, w);
}

/// The widths that a length field can take: `2^(8w)` for `w` in 1..8.
pub proof fn lemma_pow256_values()
    ensures
        pow256(1) == 0x100,
        pow256(2) == 0x1_0000,
        pow256(3) == 0x100_0000,
        pow256(4) == 0x1_0000_0000,
        pow256(5) == 0x100_0000_0000,
        pow256(6) == 0x1_0000_0000_0000,
        pow256(7) == 0x100_0000_0000_0000,
        pow256(8) == 0x1_0000_0000_0000_0000,
{
    reveal_with_fuel(pow256, 9);
}

/// Relies on byteorder's `BigEndian::read_uint`: the first `nbytes` bytes of
/// `buf` read as an unsigned number, most significant byte first.
#[verifier::external_body]
fn read_uint_be(buf: &[u8], nbytes: usize) -> (r: u64)
    requires
        1 <= nbytes <= 8,
        nbytes <= buf@.len(),
    ensures
        r as nat == be_value(buf@.take(nbytes as int)),
{
    <BigEndian as byteorder::ByteOrder>::read_uint(buf, nbytes)
}

/// Relies on byteorder's `LittleEndian::read_uint`: the first `nbytes` bytes
/// of `buf` read as an unsigned number, least significant byte first.
#[verifier::external_body]
fn read_uint_le(buf: &[u8], nbytes: usize) -> (r: u64)
    requires
        1 <= nbytes <= 8,
        nbytes <= buf@.len(),
    ensures
        r as nat == le_value(buf@.take(nbytes as int)),
{
    <LittleEndian as byteorder::ByteOrder>::read_uint(buf, nbytes)
}

/// Relies on byteorder's `BigEndian::write_uint`: it overwrites the first
/// `nbytes` bytes of `buf` with `n`, most significant byte first.
#[verifier::external_body]
fn write_uint_be(buf: &mut Vec<u8>, n: u64, nbytes: usize)
    requires
        1 <= nbytes <= 8,
        (n as nat) < pow256(nbytes as nat),
        nbytes <= old(buf)@.len(),
    ensures
        final(buf)@ == be_bytes(n as nat, nbytes as nat) + old(buf)@.skip(nbytes as int),
{
    <BigEndian as byteorder::ByteOrder>::write_uint(buf.as_mut_slice(), n, nbytes)
}

/// Relies on byteorder's `LittleEndian::write_uint`: it overwrites the first
/// `nbytes` bytes of `buf` with `n`, least significant byte first.
#[verifier::external_body]
fn write_uint_le(buf: &mut Vec<u8>, n: u64, nbytes: usize)
    requires
        1 <= nbytes <= 8,
        (n as nat) < pow256(nbytes as nat),
        nbytes <= old(buf)@.len(),
    ensures
        final(buf)@ == le_bytes(n as nat, nbytes as nat) + old(buf)@.skip(nbytes as int),
{
    <LittleEndian as byteorder::ByteOrder>::write_uint(buf.as_mut_slice(), n, nbytes)
}

/// Reads the length field held in the first `width` bytes of `buf`.
pub fn decode_length(buf: &[u8], width: usize, order: ByteOrder) -> (r: u64)
    requires
        1 <= width <= 8,
        width <= buf@.len(),
    ensures
        r as nat == field_value(order, buf@.take(width as int)),
{
    match order {
        ByteOrder::BigEndian => read_uint_be(buf, width),
        ByteOrder::LittleEndian => read_uint_le(buf, width),
    }
}

/// Writes `n` as a length field of `width` bytes.
pub fn encode_length(n: u64, width: usize, order: ByteOrder) -> (r: Vec<u8>)
    requires
        1 <= width <= 8,
        (n as nat) < pow256(width as nat),
    ensures
        r@ == field_bytes(order, n as nat, width as nat),
{
    let mut out: Vec<u8> = Vec::new();
    let mut i: usize = 0;
    while i < width
        invariant
            i <= width,
            out@.len() == i,
        decreases width - i,
    {
        out.push(0u8);
        i = i + 1;
    }
    proof {
        lemma_field_bytes_len(order, n as nat, width as nat);
    }
    match order {
        ByteOrder::BigEndian => write_uint_be(&mut out, n, width),
        ByteOrder::LittleEndian => write_uint_le(&mut out, n, width),
    }
    assert(out@ =~= field_bytes(order, n as nat, width as nat));
    out
}

} // verus!
