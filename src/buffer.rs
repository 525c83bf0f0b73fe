//! The byte buffer that frames are written to and read from.
use vstd::prelude::*;

verus! {

#[verifier::external_type_specification]
#[verifier::external_body]
pub struct ExBytesMut(bytes::BytesMut);

/// The bytes a buffer currently holds, front first.
pub uninterp spec fn buf_view(b: bytes::BytesMut) -> Seq<u8>;

/// Relies on `BytesMut::len`: the number of bytes held.
#[verifier::external_body]
pub fn buf_len(b: &bytes::BytesMut) -> (r: usize)
    ensures
        r == buf_view(*b).len(),
{
    b.len()
}

/// Relies on indexing a `BytesMut` (through `Deref<Target = [u8]>`).
#[verifier::external_body]
pub fn buf_at(b: &bytes::BytesMut, i: usize) -> (r: u8)
    requires
        i < buf_view(*b).len(),
    ensures
        r == buf_view(*b)[i as int],
{
    b[i]
}

/// Relies on `BufMut::put_slice` for `BytesMut`: appends the bytes at the back.
#[verifier::external_body]
pub fn buf_put(b: &mut bytes::BytesMut, s: &[u8])
    ensures
        buf_view(*final(b)) == buf_view(*old(b)) + s@,
{
    bytes::BufMut::put_slice(b, s)
}

/// Relies on `Buf::advance` for `BytesMut`: drops `n` bytes from the front;
/// it panics when fewer than `n` are held, which `requires` rules out.
#[verifier::external_body]
pub fn buf_advance(b: &mut bytes::BytesMut, n: usize)
    requires
        n <= buf_view(*old(b)).len(),
    ensures
        buf_view(*final(b)) == buf_view(*old(b)).subrange(n as int, buf_view(*old(b)).len() as int),
{
    bytes::Buf::advance(b, n)
}

} // verus!
