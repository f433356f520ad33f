//! Decimal numbers as ASCII text: how the protocol spells lengths, counts
//! and integer replies.
use vstd::prelude::*;

verus! {

/// An ASCII digit `0`..`9`.
pub open spec fn is_digit(b: u8) -> bool {
    48 <= b <= 57
}

/// Every byte is an ASCII digit.
pub open spec fn all_digits(s: Seq<u8>) -> bool {
    forall|i: int| 0 <= i < s.len() ==> is_digit(#[trigger] s[i])
}

/// The number that a string of ASCII digits spells in base ten.
pub open spec fn digits_value(s: Seq<u8>) -> nat
    decreases s.len(),
{
    if s.len() == 0 {
        0
    } else {
        digits_value(s.drop_last()) * 10 + (s.last() - 48) as nat
    }
}

/// The shortest base-ten spelling of `n`, most significant digit first.
pub open spec fn decimal(n: nat) -> Seq<u8>
    decreases n,
{
    if n < 10 {
        seq![(48 + n) as u8]
    } else {
        decimal(n / 10).push((48 + n % 10) as u8)
    }
}

/// The value of a text as `usize::from_str` reads it: an optional `+`
/// followed by one or more ASCII digits whose value fits in a `usize`.
pub open spec fn usize_text_value(s: Seq<u8>) -> Option<nat> {
    let d = if s.len() > 0 && s[0] == 43 {
        s.drop_first()
    } else {
        s
    };
    if d.len() > 0 && all_digits(d) && digits_value(d) <= usize::MAX {
        Some(digits_value(d))
    } else {
        None
    }
}

/// The value of a text as `i64::from_str` reads it: an optional `+` or `-`
/// followed by one or more ASCII digits, the signed value within `i64`.
pub open spec fn i64_text_value(s: Seq<u8>) -> Option<int> {
    if s.len() > 0 && s[0] == 45 {
        let d = s.drop_first();
        if d.len() > 0 && all_digits(d) && digits_value(d) <= 0x8000_0000_0000_0000 {
            Some(-(digits_value(d) as int))
        } else {
            None
        }
    } else {
        let d = if s.len() > 0 && s[0] == 43 {
            s.drop_first()
        } else {
            s
        };
        if d.len() > 0 && all_digits(d) && digits_value(d) <= i64::MAX {
            Some(digits_value(d) as int)
        } else {
            None
        }
    }
}

/// Appending digits never makes the value smaller.
pub proof fn lemma_digits_value_prefix(s: Seq<u8>, k: int)
    requires
        0 <= k <= s.len(),
        all_digits(s),
    ensures
        digits_value(s.subrange(0, k)) <= digits_value(s),
    decreases s.len() - k,
{
    if k < s.len() {
        let t = s.subrange(0, k + 1);
        lemma_digits_value_prefix(s, k + 1);
        assert(t.drop_last() =~= s.subrange(0, k));
        assert(is_digit(s[k]));
    } else {
        assert(s.subrange(0, k) =~= s);
    }
}

/// The decimal spelling of `n` is a non-empty run of digits whose value is `n`.
pub proof fn lemma_decimal(n: nat)
    ensures
        decimal(n).len() > 0,
        all_digits(decimal(n)),
        digits_value(decimal(n)) == n,
        decimal(n).len() <= n + 1,
    decreases n,
{
    if n < 10 {
        assert((48 + n) as u8 == 48 + n);
        assert(decimal(n).drop_last() =~= Seq::<u8>::empty());
        assert(digits_value(decimal(n).drop_last()) == 0);
        assert(decimal(n).last() == 48 + n);
    } else {
        lemma_decimal(n / 10);
        let d = decimal(n);
        assert((48 + n % 10) as u8 == 48 + n % 10);
        assert(d.drop_last() =~= decimal(n / 10));
        assert(d.last() == 48 + n % 10);
        assert(digits_value(d) == digits_value(decimal(n / 10)) * 10 + n % 10);
        assert(n == (n / 10) * 10 + n % 10);
        assert forall|i: int| 0 <= i < d.len() implies is_digit(#[trigger] d[i]) by {
            if i < d.len() - 1 {
                assert(d[i] == decimal(n / 10)[i]);
            }
        }
    }
}

/// Ten to the power `k`.
pub open spec fn ten_pow(k: nat) -> nat
    decreases k,
{
    if k == 0 {
        1
    } else {
        10 * ten_pow((k - 1) as nat)
    }
}

/// A number below `10^k` is spelled with at most `k` digits.
proof fn lemma_decimal_len_bound(n: nat, k: nat)
    requires
        k >= 1,
        n < ten_pow(k),
    ensures
        decimal(n).len() <= k,
    decreases k,
{
    if n >= 10 {
        let k1 = (k - 1) as nat;
        if k == 1 {
            assert(ten_pow(1) == 10 * ten_pow(0));
        }
        assert(n / 10 < ten_pow(k1));
        lemma_decimal_len_bound(n / 10, k1);
    }
}

/// A `usize` is spelled with at most twenty digits.
pub proof fn lemma_decimal_short(n: nat)
    requires
        n <= usize::MAX,
    ensures
        decimal(n).len() <= 20,
{
    reveal_with_fuel(ten_pow, 21);
    assert(ten_pow(20) == 100_000_000_000_000_000_000);
    lemma_decimal_len_bound(n, 20);
}

/// `usize::from_str` reads back the decimal spelling of any `usize`.
pub proof fn lemma_decimal_usize_text(n: nat)
    requires
        n <= usize::MAX,
    ensures
        usize_text_value(decimal(n)) == Some(n),
{
    lemma_decimal(n);
    assert(is_digit(decimal(n)[0]));
}

/// Reads the digits of `s` from `start` on as a number, giving up with
/// `None` once the value passes `u64::MAX`.
fn digits_to_u64(s: &[u8], start: usize) -> (r: Option<u64>)
    requires
        start <= s@.len(),
        all_digits(s@.subrange(start as int, s@.len() as int)),
    ensures
        r matches Some(v) ==> v == digits_value(s@.subrange(start as int, s@.len() as int)),
        r is None ==> digits_value(s@.subrange(start as int, s@.len() as int)) > u64::MAX,
{
    let ghost d = s@.subrange(start as int, s@.len() as int);
    let mut acc: u64 = 0;
    let mut i: usize = start;
    while i < s.len()
        invariant
            start <= i <= s@.len(),
            d == s@.subrange(start as int, s@.len() as int),
            all_digits(d),
            acc == digits_value(d.subrange(0, i - start)),
        decreases s@.len() - i,
    {
        let ghost k: int = i - start;
        assert(d.subrange(0, k + 1).drop_last() =~= d.subrange(0, k));
        assert(d[k] == s@[i as int]);
        assert(is_digit(d[k]));
        let digit = (s[i] - 48) as u64;
        match acc.checked_mul(10) {
            Some(m) => match m.checked_add(digit) {
                Some(v) => {
                    acc = v;
                },
                None => {
                    proof {
                        lemma_digits_value_prefix(d, k + 1);
                    }
                    return None;
                },
            },
            None => {
                proof {
                    lemma_digits_value_prefix(d, k + 1);
                }
                return None;
            },
        }
        i = i + 1;
    }
    assert(d.subrange(0, i - start) =~= d);
    Some(acc)
}

/// Checks that every byte of `s` from `start` on is an ASCII digit.
fn digits_only(s: &[u8], start: usize) -> (r: bool)
    requires
        start <= s@.len(),
    ensures
        r == all_digits(s@.subrange(start as int, s@.len() as int)),
{
    let ghost d = s@.subrange(start as int, s@.len() as int);
    let mut i: usize = start;
    while i < s.len()
        invariant
            start <= i <= s@.len(),
            d == s@.subrange(start as int, s@.len() as int),
            forall|j: int| 0 <= j < i - start ==> is_digit(#[trigger] d[j]),
        decreases s@.len() - i,
    {
        if s[i] < 48 || s[i] > 57 {
            assert(!is_digit(d[i - start]));
            return false;
        }
        i = i + 1;
    }
    true
}

/// Reads `s` as `usize::from_str` does.
pub fn parse_usize_text(s: &[u8]) -> (r: Option<usize>)
    ensures
        match usize_text_value(s@) {
            Some(v) => r == Some(v as usize),
            None => r is None,
        },
{
    let start: usize = if s.len() > 0 && s[0] == 43 {
        1
    } else {
        0
    };
    proof {
        if start == 1 {
            assert(s@.subrange(1, s@.len() as int) =~= s@.drop_first());
        } else {
            assert(s@.subrange(0, s@.len() as int) =~= s@);
        }
    }
    if start >= s.len() || !digits_only(s, start) {
        return None;
    }
    match digits_to_u64(s, start) {
        Some(v) => {
            if v <= usize::MAX as u64 {
                Some(v as usize)
            } else {
                None
            }
        },
        None => None,
    }
}

/// Reads `s` as `i64::from_str` does.
pub fn parse_i64_text(s: &[u8]) -> (r: Option<i64>)
    ensures
        match i64_text_value(s@) {
            Some(v) => r == Some(v as i64),
            None => r is None,
        },
{
    let negative = s.len() > 0 && s[0] == 45;
    let start: usize = if s.len() > 0 && (s[0] == 45 || s[0] == 43) {
        1
    } else {
        0
    };
    proof {
        if start == 1 {
            assert(s@.subrange(1, s@.len() as int) =~= s@.drop_first());
        } else {
            assert(s@.subrange(0, s@.len() as int) =~= s@);
        }
    }
    if start >= s.len() || !digits_only(s, start) {
        return None;
    }
    match digits_to_u64(s, start) {
        Some(v) => {
            if negative {
                if v < 0x8000_0000_0000_0000u64 {
                    Some(-(v as i64))
                } else if v == 0x8000_0000_0000_0000u64 {
                    Some(i64::MIN)
                } else {
                    None
                }
            } else if v <= i64::MAX as u64 {
                Some(v as i64)
            } else {
                None
            }
        },
        None => None,
    }
}

/// Appends the decimal spelling of `n` to `out`.
pub fn push_decimal(out: &mut Vec<u8>, n: usize)
    ensures
        final(out)@ == old(out)@ + decimal(n as nat),
    decreases n,
{
    if n >= 10 {
        push_decimal(out, n / 10);
    }
    out.push(48 + (n % 10) as u8);
    proof {
        if n >= 10 {
            assert(decimal(n as nat) == decimal((n / 10) as nat).push((48 + n % 10) as u8));
        }
    }
    assert(out@ =~= old(out)@ + decimal(n as nat));
}

} // verus!
