//! The byte buffer that commands are written into: netbuf's `Buf`, the
//! buffer type of the rotor stream transport.
use vstd::prelude::*;

use netbuf::Buf;

verus! {

#[verifier::external_type_specification]
#[verifier::external_body]
pub struct ExBuf(netbuf::Buf);

/// The bytes that a buffer holds, oldest first.
pub uninterp spec fn buf_bytes(buf: Buf) -> Seq<u8>;

/// The most bytes that writes here let a buffer hold. netbuf keeps its
/// offsets in `u32`, asserts that a buffer stays below `MAX_BUF_SIZE`
/// (just under 4 GiB) and at most doubles its capacity when it grows, so a
/// buffer kept within a quarter of that never overflows them.
pub const BUF_LIMIT: usize = 1073741824;

/// Calls `std::io::Write::write` on a netbuf `Buf`. netbuf's `write` copies
/// the whole slice after the bytes already held, grows the buffer when it
/// must, and returns `Ok` with the slice's length; it panics or miscounts
/// only when the buffer nears 4 GiB, which `BUF_LIMIT` keeps out.
#[verifier::external_body]
pub(crate) fn buf_append(buf: &mut Buf, data: &[u8])
    requires
        buf_bytes(*old(buf)).len() + data@.len() <= BUF_LIMIT,
    ensures
        buf_bytes(*final(buf)) == buf_bytes(*old(buf)) + data@,
{
    let _ = std::io::Write::write(buf, data);
}

/// Calls netbuf's `Buf::new`, which makes a buffer that holds no bytes.
#[verifier::external_body]
fn buf_new() -> (b: Buf)
    ensures
        buf_bytes(b) == Seq::<u8>::empty(),
{
    Buf::new()
}

/// Calls netbuf's `Buf::len`, the number of bytes the buffer holds.
#[verifier::external_body]
fn buf_len(buf: &Buf) -> (n: usize)
    ensures
        n == buf_bytes(*buf).len(),
{
    buf.len()
}

/// A buffer that holds no bytes.
pub fn new_buffer() -> (b: Buf)
    ensures
        buf_bytes(b) == Seq::<u8>::empty(),
{
    buf_new()
}

/// Can `extra` more bytes be written to `buf` within `BUF_LIMIT`?
pub fn has_room(buf: &Buf, extra: usize) -> (r: bool)
    ensures
        r == (buf_bytes(*buf).len() + extra <= BUF_LIMIT),
{
    let held = buf_len(buf);
    held <= BUF_LIMIT && extra <= BUF_LIMIT - held
}

} // verus!
