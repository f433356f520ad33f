//! Borrowing byte strings as UTF-8 text.
use vstd::prelude::*;
use vstd::string::*;
use vstd::utf8::*;

verus! {

/// Calls `std::str::from_utf8`. Its documentation says that it succeeds
/// exactly when the bytes are well-formed UTF-8 (vstd's `valid_utf8`), and
/// that the `str` it returns is the same bytes, borrowed, not copied.
#[verifier::external_body]
pub(crate) fn str_from_utf8(bytes: &[u8]) -> (r: Option<&str>)
    ensures
        r is Some <==> valid_utf8(bytes@),
        r matches Some(s) ==> s.spec_bytes() == bytes@,
{
    std::str::from_utf8(bytes).ok()
}

/// In well-formed UTF-8 an ASCII byte is a character of its own: a
/// character starts at it and right after it. The end of the text is a
/// character boundary too.
pub proof fn lemma_ascii_byte_is_char_boundary(b: Seq<u8>, i: int)
    requires
        valid_utf8(b),
        0 <= i <= b.len(),
        i < b.len() ==> b[i] < 0x80,
    ensures
        is_char_boundary(b, i),
        i < b.len() ==> is_char_boundary(b, i + 1),
    decreases b.len(),
{
    if i == 0 {
        if b.len() > 0 {
            assert(valid_first_scalar(b));
            assert(length_of_first_scalar(b) == 1);
            assert(is_char_boundary(pop_first_scalar(b), 0));
        }
    } else {
        assert(valid_first_scalar(b));
        let l = length_of_first_scalar(b);
        assert(1 <= l <= b.len());
        if i < l {
            assert(is_continuation_byte(b[i]));
            assert(false);
        }
        let p = pop_first_scalar(b);
        assert(p.len() == b.len() - l);
        if i < b.len() {
            assert(p[i - l] == b[i]);
        }
        lemma_ascii_byte_is_char_boundary(p, i - l);
    }
}

} // verus!
