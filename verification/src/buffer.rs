//! Reading from a byte slice and writing to a byte vector with the `bytes`
//! crate.
use crate::wire;
use bytes::{Buf, BufMut};
use vstd::prelude::*;

verus! {

/// `Buf::remaining` on a slice: the number of bytes that are left in it.
#[verifier::external_body]
pub(crate) fn remaining(buf: &&[u8]) -> (n: usize)
    ensures
        n == buf@.len(),
{
    buf.remaining()
}

/// `Buf::get_u8` on a slice: it returns the first byte and moves the slice past
/// it. It panics on an empty slice.
#[verifier::external_body]
pub(crate) fn get_u8(buf: &mut &[u8]) -> (v: u8)
    requires
        old(buf)@.len() >= 1,
    ensures
        v == old(buf)@[0],
        final(buf)@ == old(buf)@.skip(1),
{
    buf.get_u8()
}

/// `Buf::get_u16` on a slice: it returns the big-endian number in the first two
/// bytes and moves the slice past them. It panics on a shorter slice.
#[verifier::external_body]
pub(crate) fn get_u16(buf: &mut &[u8]) -> (v: u16)
    requires
        old(buf)@.len() >= 2,
    ensures
        v == wire::u16_at(old(buf)@, 0),
        final(buf)@ == old(buf)@.skip(2),
{
    buf.get_u16()
}

/// `Buf::get_u32` on a slice: it returns the big-endian number in the first four
/// bytes and moves the slice past them. It panics on a shorter slice.
#[verifier::external_body]
pub(crate) fn get_u32(buf: &mut &[u8]) -> (v: u32)
    requires
        old(buf)@.len() >= 4,
    ensures
        v == wire::u32_at(old(buf)@, 0),
        final(buf)@ == old(buf)@.skip(4),
{
    buf.get_u32()
}

/// `Buf::get_i32` on a slice: it returns the big-endian number, in two's
/// complement, in the first four bytes and moves the slice past them. It panics
/// on a shorter slice.
#[verifier::external_body]
pub(crate) fn get_i32(buf: &mut &[u8]) -> (v: i32)
    requires
        old(buf)@.len() >= 4,
    ensures
        v == wire::i32_at(old(buf)@, 0),
        final(buf)@ == old(buf)@.skip(4),
{
    buf.get_i32()
}

/// `Buf::copy_to_slice` on a slice: it fills `dst` with the first bytes and
/// moves the slice past them. It panics where there are fewer than `dst` takes.
#[verifier::external_body]
pub(crate) fn copy_to_slice(buf: &mut &[u8], dst: &mut [u8])
    requires
        old(buf)@.len() >= old(dst)@.len(),
    ensures
        final(dst)@ == old(buf)@.take(old(dst)@.len() as int),
        final(buf)@ == old(buf)@.skip(old(dst)@.len() as int),
{
    buf.copy_to_slice(dst)
}

/// `BufMut::put_u8` on a vector: it appends the byte.
#[verifier::external_body]
pub(crate) fn put_u8(into: &mut Vec<u8>, v: u8)
    requires
        wire::room_for(old(into)@.len(), 1),
    ensures
        final(into)@ == old(into)@ + seq![v],
{
    into.put_u8(v)
}

/// `BufMut::put_u16` on a vector: it appends the big-endian encoding.
#[verifier::external_body]
pub(crate) fn put_u16(into: &mut Vec<u8>, v: u16)
    requires
        wire::room_for(old(into)@.len(), 2),
    ensures
        final(into)@ == old(into)@ + wire::u16_bytes(v),
{
    into.put_u16(v)
}

/// `BufMut::put_u32` on a vector: it appends the big-endian encoding.
#[verifier::external_body]
pub(crate) fn put_u32(into: &mut Vec<u8>, v: u32)
    requires
        wire::room_for(old(into)@.len(), 4),
    ensures
        final(into)@ == old(into)@ + wire::u32_bytes(v),
{
    into.put_u32(v)
}

/// `BufMut::put_i32` on a vector: it appends the big-endian encoding, in two's
/// complement.
#[verifier::external_body]
pub(crate) fn put_i32(into: &mut Vec<u8>, v: i32)
    requires
        wire::room_for(old(into)@.len(), 4),
    ensures
        final(into)@ == old(into)@ + wire::i32_bytes(v),
{
    into.put_i32(v)
}

/// `BufMut::put` on a vector, from a slice: it appends all bytes of the slice.
#[verifier::external_body]
pub(crate) fn put(into: &mut Vec<u8>, src: &[u8])
    requires
        wire::room_for(old(into)@.len(), src@.len()),
    ensures
        final(into)@ == old(into)@ + src@,
{
    into.put(src)
}

} // verus!
