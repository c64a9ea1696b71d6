//! The growable byte buffer of the `bytes` crate, as the writer and the
//! framing use it. Every function here makes one call into `bytes`.

use vstd::prelude::*;
use bytes::BufMut;
use bytes::BytesMut;
use crate::protocol::{be_bytes_i16, be_bytes_i32, be_bytes_i64};

verus! {

#[verifier::external_type_specification]
#[verifier::external_body]
pub struct ExBytesMut(BytesMut);

/// The bytes that a `BytesMut` holds, front to back.
pub uninterp spec fn buffer_contents(buf: BytesMut) -> Seq<u8>;

/// `BytesMut::with_capacity`: an empty buffer (capacity is not modelled).
/// It panics when the capacity exceeds `isize::MAX`, which `requires` excludes.
#[verifier::external_body]
pub(crate) fn buf_with_capacity(cap: usize) -> (b: BytesMut)
    requires
        cap <= isize::MAX,
    ensures
        buffer_contents(b) == Seq::<u8>::empty(),
{
    BytesMut::with_capacity(cap)
}

/// `BytesMut::len`: the number of bytes held.
#[verifier::external_body]
pub(crate) fn buf_len(b: &BytesMut) -> (n: usize)
    ensures
        n == buffer_contents(*b).len(),
{
    b.len()
}

/// `BufMut::put_u8` on a `BytesMut`: appends one byte. Growing past
/// `isize::MAX` bytes panics, which `requires` excludes.
#[verifier::external_body]
pub(crate) fn buf_put_u8(b: &mut BytesMut, v: u8)
    requires
        buffer_contents(*old(b)).len() + 1 <= isize::MAX,
    ensures
        buffer_contents(*final(b)) == buffer_contents(*old(b)).push(v),
{
    b.put_u8(v)
}

/// `BufMut::put_i8` on a `BytesMut`: appends the byte's two's complement.
#[verifier::external_body]
pub(crate) fn buf_put_i8(b: &mut BytesMut, v: i8)
    requires
        buffer_contents(*old(b)).len() + 1 <= isize::MAX,
    ensures
        buffer_contents(*final(b)) == buffer_contents(*old(b)).push(v as u8),
{
    b.put_i8(v)
}

/// `BufMut::put_i16` on a `BytesMut`: appends the value big-endian.
#[verifier::external_body]
pub(crate) fn buf_put_i16(b: &mut BytesMut, v: i16)
    requires
        buffer_contents(*old(b)).len() + 2 <= isize::MAX,
    ensures
        buffer_contents(*final(b)) == buffer_contents(*old(b)) + be_bytes_i16(v),
{
    b.put_i16(v)
}

/// `BufMut::put_i32` on a `BytesMut`: appends the value big-endian.
#[verifier::external_body]
pub(crate) fn buf_put_i32(b: &mut BytesMut, v: i32)
    requires
        buffer_contents(*old(b)).len() + 4 <= isize::MAX,
    ensures
        buffer_contents(*final(b)) == buffer_contents(*old(b)) + be_bytes_i32(v),
{
    b.put_i32(v)
}

/// `BufMut::put_i64` on a `BytesMut`: appends the value big-endian.
#[verifier::external_body]
pub(crate) fn buf_put_i64(b: &mut BytesMut, v: i64)
    requires
        buffer_contents(*old(b)).len() + 8 <= isize::MAX,
    ensures
        buffer_contents(*final(b)) == buffer_contents(*old(b)) + be_bytes_i64(v),
{
    b.put_i64(v)
}

/// `BytesMut::extend_from_slice`: appends the slice.
#[verifier::external_body]
pub(crate) fn buf_extend(b: &mut BytesMut, s: &[u8])
    requires
        buffer_contents(*old(b)).len() + s@.len() <= isize::MAX,
    ensures
        buffer_contents(*final(b)) == buffer_contents(*old(b)) + s@,
{
    b.extend_from_slice(s)
}

/// The buffer's bytes copied into a `Vec` (through `BytesMut`'s `Deref` to `[u8]`).
#[verifier::external_body]
pub(crate) fn buf_to_vec(b: &BytesMut) -> (v: Vec<u8>)
    ensures
        v@ == buffer_contents(*b),
{
    b.to_vec()
}

} // verus!
