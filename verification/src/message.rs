//! Replies of the Redis protocol and their decoder.
use vstd::prelude::*;
use vstd::slice::slice_subrange;
use vstd::string::*;
use vstd::utf8::*;

use crate::decimal::{
    all_digits, decimal, i64_text_value, is_digit, lemma_decimal, parse_i64_text, parse_usize_text,
    usize_text_value,
};
use crate::search::{
    find_substr, first_occurrence, lemma_first_occurrence, lemma_first_occurrence_agree,
    lemma_first_occurrence_is, lemma_no_occurrence_in_short_prefix, occurs_at,
};
use crate::text::{lemma_ascii_byte_is_char_boundary, str_from_utf8};

verus! {

/// A reply from the server. Text and byte payloads borrow from the buffer
/// they were decoded from.
#[derive(Debug, PartialEq, Eq)]
pub enum Message<'a> {
    Simple(&'a str),
    Error(&'a str, &'a str),
    Int(i64),
    Bytes(&'a [u8]),
    Null,
    Array(Vec<Message<'a>>),
}

/// What the decoder needs before it can go on.
#[derive(Debug, Clone, Copy, PartialEq, Eq)]
pub enum Expectation {
    /// The reply's first line has not ended yet.
    Newline,
    /// The buffer must hold at least this many bytes.
    More(usize),
}

/// The outcome of decoding the start of a buffer.
#[derive(Debug, PartialEq, Eq)]
pub enum ParseResult<'a> {
    /// A whole reply, and the number of bytes it took.
    Done(Message<'a>, usize),
    Expect(Expectation),
    InvalidData,
}

/// A reply as a mathematical value: text is kept as its UTF-8 bytes.
pub enum MessageModel {
    Simple(Seq<u8>),
    Error(Seq<u8>, Seq<u8>),
    Int(int),
    Bytes(Seq<u8>),
    Null,
    Array(Seq<MessageModel>),
}

/// The outcome of decoding, as a mathematical value.
pub enum ParseOutcome {
    Done(MessageModel, nat),
    ExpectNewline,
    ExpectMore(nat),
    InvalidData,
}

impl<'a> Message<'a> {
    /// The value that a reply stands for.
    pub open spec fn model(self) -> MessageModel
        decreases self,
    {
        match self {
            Message::Simple(s) => MessageModel::Simple(s.spec_bytes()),
            Message::Error(kind, text) => MessageModel::Error(kind.spec_bytes(), text.spec_bytes()),
            Message::Int(v) => MessageModel::Int(v as int),
            Message::Bytes(b) => MessageModel::Bytes(b@),
            Message::Null => MessageModel::Null,
            Message::Array(items) => MessageModel::Array(models(items@)),
        }
    }
}

/// The values that a sequence of replies stands for, in order.
pub open spec fn models<'a>(items: Seq<Message<'a>>) -> Seq<MessageModel>
    decreases items,
{
    if items.len() == 0 {
        Seq::empty()
    } else {
        models(items.drop_last()).push(items.last().model())
    }
}

/// Replies that stand for the same values, one by one, stand for the same sequence.
proof fn lemma_models_pointwise<'a>(a: Seq<Message<'a>>, b: Seq<Message<'a>>)
    requires
        a.len() == b.len(),
        forall|j: int| 0 <= j < a.len() ==> (#[trigger] a[j]).model() == b[j].model(),
    ensures
        models(a) == models(b),
    decreases a.len(),
{
    if a.len() > 0 {
        lemma_models_pointwise(a.drop_last(), b.drop_last());
    }
}

/// A copy of a reply: the same payloads, borrowed from the same buffer.
fn copy_message<'a>(m: &Message<'a>) -> (r: Message<'a>)
    ensures
        r.model() == m.model(),
    decreases m,
{
    match m {
        Message::Simple(s) => Message::Simple(s),
        Message::Error(kind, text) => Message::Error(kind, text),
        Message::Int(v) => Message::Int(*v),
        Message::Bytes(b) => Message::Bytes(b),
        Message::Null => Message::Null,
        Message::Array(items) => {
            proof {
                assert(decreases_to!(*m => m->Array_0));
                assert(decreases_to!(m->Array_0 => m->Array_0@));
            }
            let mut copies: Vec<Message<'a>> = Vec::new();
            let n = items.len();
            let mut i: usize = 0;
            while i < n
                invariant
                    n == items@.len(),
                    *m == Message::Array(*items),
                    decreases_to!(*m => items@),
                    0 <= i <= n,
                    copies@.len() == i,
                    forall|j: int| 0 <= j < i ==> (#[trigger] copies@[j]).model() == items@[j].model(),
                decreases n - i,
            {
                proof {
                    assert(decreases_to!(items@ => items@[i as int]));
                }
                let item = copy_message(&items[i]);
                copies.push(item);
                i = i + 1;
            }
            let r = Message::Array(copies);
            proof {
                lemma_models_pointwise(copies@, items@);
            }
            r
        },
    }
}

impl<'a> Clone for Message<'a> {
    fn clone(&self) -> (r: Self)
        ensures
            r.model() == self.model(),
    {
        copy_message(self)
    }
}

impl<'a> ParseResult<'a> {
    /// The outcome that a decoding result stands for.
    pub open spec fn model(self) -> ParseOutcome {
        match self {
            ParseResult::Done(m, n) => ParseOutcome::Done(m.model(), n as nat),
            ParseResult::Expect(Expectation::Newline) => ParseOutcome::ExpectNewline,
            ParseResult::Expect(Expectation::More(n)) => ParseOutcome::ExpectMore(n as nat),
            ParseResult::InvalidData => ParseOutcome::InvalidData,
        }
    }
}

/// The line terminator of the protocol, CR LF.
pub open spec fn crlf() -> Seq<u8> {
    seq![13u8, 10u8]
}

/// The bytes that start a reply of each kind that the decoder reads:
/// `:` integer, `+` status, `-` error, `$` bulk string.
pub open spec fn is_reply_marker(b: u8) -> bool {
    b == 58 || b == 43 || b == 45 || b == 36
}

/// Where the first line of a non-empty buffer ends: the offset of its
/// first CR LF, counted from the byte after the marker.
pub open spec fn line_end(s: Seq<u8>) -> Option<int> {
    first_occurrence(s.subrange(1, s.len() as int), crlf())
}

/// The kind of an error reply: its text up to the first space.
pub open spec fn error_kind(line: Seq<u8>) -> Seq<u8> {
    match first_occurrence(line, seq![32u8]) {
        Some(i) => line.subrange(0, i),
        None => line,
    }
}

/// The message of an error reply: its text after the first space, if any.
pub open spec fn error_text(line: Seq<u8>) -> Seq<u8> {
    match first_occurrence(line, seq![32u8]) {
        Some(i) => line.subrange(i + 1, line.len() as int),
        None => Seq::empty(),
    }
}

/// The buffers that the decoder accepts: empty, or starting with a marker
/// it knows, and with a bulk length whose end fits in a `usize`.
pub open spec fn parse_is_defined(s: Seq<u8>) -> bool {
    s.len() > 0 ==> {
        &&& is_reply_marker(s[0])
        &&& s[0] == 36 ==> match line_end(s) {
            Some(end) => match usize_text_value(s.subrange(1, end + 1)) {
                Some(n) => end + 3 + n + 2 <= usize::MAX,
                None => true,
            },
            None => true,
        }
    }
}

/// What decoding the start of `s` gives.
///
/// A reply is a marker byte and a line ended by CR LF; a bulk string's line
/// holds its length, and that many bytes and a CR LF follow.
pub open spec fn parse_outcome(s: Seq<u8>) -> ParseOutcome {
    if s.len() == 0 {
        ParseOutcome::ExpectMore(1)
    } else {
        match line_end(s) {
            None => ParseOutcome::ExpectNewline,
            Some(end) => {
                let line = s.subrange(1, end + 1);
                let next = end + 3;
                if s[0] == 58 {
                    match i64_text_value(line) {
                        Some(v) => ParseOutcome::Done(MessageModel::Int(v), next as nat),
                        None => ParseOutcome::InvalidData,
                    }
                } else if s[0] == 43 {
                    if valid_utf8(line) {
                        ParseOutcome::Done(MessageModel::Simple(line), next as nat)
                    } else {
                        ParseOutcome::InvalidData
                    }
                } else if s[0] == 45 {
                    if valid_utf8(line) {
                        ParseOutcome::Done(
                            MessageModel::Error(error_kind(line), error_text(line)),
                            next as nat,
                        )
                    } else {
                        ParseOutcome::InvalidData
                    }
                } else {
                    match usize_text_value(line) {
                        Some(n) => {
                            let data_end = next + n + 2;
                            if data_end > s.len() {
                                ParseOutcome::ExpectMore(data_end as nat)
                            } else if s.subrange(next + n, data_end) != crlf() {
                                ParseOutcome::InvalidData
                            } else {
                                ParseOutcome::Done(
                                    MessageModel::Bytes(s.subrange(next, next + n)),
                                    data_end as nat,
                                )
                            }
                        },
                        None => ParseOutcome::InvalidData,
                    }
                }
            },
        }
    }
}

/// Splits the text of an error reply at its first space.
fn split_error<'b>(line: &'b [u8], text: &'b str) -> (r: (&'b str, &'b str))
    requires
        valid_utf8(line@),
        text.spec_bytes() == line@,
    ensures
        r.0.spec_bytes() == error_kind(line@),
        r.1.spec_bytes() == error_text(line@),
{
    let ll = line.len();
    let space: [u8; 1] = [32u8];
    assert(space@ =~= seq![32u8]);
    match find_substr(line, space.as_slice()) {
        Some(i) => {
            proof {
                crate::search::lemma_first_occurrence(line@, seq![32u8]);
                assert(line@.subrange(i as int, i + 1)[0] == 32u8);
                lemma_ascii_byte_is_char_boundary(line@, i as int);
            }
            let (kind, _) = text.split_at(i);
            let (_, rest) = text.split_at(i + 1);
            assert(rest.spec_bytes() =~= line@.subrange(i + 1, line@.len() as int));
            (kind, rest)
        },
        None => {
            proof {
                lemma_ascii_byte_is_char_boundary(line@, line@.len() as int);
            }
            let n = text.len();
            assert(n == line@.len());
            assert(is_char_boundary(text.spec_bytes(), n as int));
            let whole = text.split_at(n);
            assert(whole.0.spec_bytes() =~= line@);
            assert(whole.1.spec_bytes() =~= Seq::<u8>::empty());
            whole
        },
    }
}

impl<'a> Message<'a> {
    /// Decodes the reply at the start of `bytes`.
    ///
    /// Gives the reply and the number of bytes it took, or what is missing
    /// before it can be decoded, or `InvalidData`.
    pub fn parse(bytes: &[u8]) -> (r: ParseResult)
        requires
            parse_is_defined(bytes@),
        ensures
            r.model() == parse_outcome(bytes@),
    {
        if bytes.len() == 0 {
            return ParseResult::Expect(Expectation::More(1));
        }
        let marker = bytes[0];
        let rest = slice_subrange(bytes, 1, bytes.len());
        let newline: [u8; 2] = [13u8, 10u8];
        assert(newline@ =~= crlf());
        let end = match find_substr(rest, newline.as_slice()) {
            Some(end) => end,
            None => {
                return ParseResult::Expect(Expectation::Newline);
            },
        };
        proof {
            crate::search::lemma_first_occurrence(rest@, crlf());
        }
        let line = slice_subrange(bytes, 1, end + 1);
        assert(line@ =~= bytes@.subrange(1, end + 1));
        if marker == 58 {
            match parse_i64_text(line) {
                Some(v) => ParseResult::Done(Message::Int(v), end + 3),
                None => ParseResult::InvalidData,
            }
        } else if marker == 43 {
            match str_from_utf8(line) {
                Some(s) => ParseResult::Done(Message::Simple(s), end + 3),
                None => ParseResult::InvalidData,
            }
        } else if marker == 45 {
            match str_from_utf8(line) {
                Some(s) => {
                    let (kind, text) = split_error(line, s);
                    ParseResult::Done(Message::Error(kind, text), end + 3)
                },
                None => ParseResult::InvalidData,
            }
        } else {
            match parse_usize_text(line) {
                Some(nbytes) => {
                    let start = end + 3;
                    let str_end = start + nbytes;
                    let data_end = str_end + 2;
                    if data_end > bytes.len() {
                        ParseResult::Expect(Expectation::More(data_end))
                    } else if bytes[str_end] != 13 || bytes[str_end + 1] != 10 {
                        proof {
                            let tail = bytes@.subrange(str_end as int, data_end as int);
                            assert(tail[0] == bytes@[str_end as int]);
                            assert(tail[1] == bytes@[str_end + 1]);
                        }
                        ParseResult::InvalidData
                    } else {
                        assert(bytes@.subrange(str_end as int, data_end as int) =~= crlf());
                        ParseResult::Done(
                            Message::Bytes(slice_subrange(bytes, start, str_end)),
                            data_end,
                        )
                    }
                },
                None => ParseResult::InvalidData,
            }
        }
    }
}

/// The number of bytes that a decoded reply took.
pub open spec fn consumed(o: ParseOutcome) -> int {
    match o {
        ParseOutcome::Done(_, n) => n as int,
        _ => 0,
    }
}

/// Facts about a buffer that starts with a whole reply: where its first
/// line ends, and that the reply lies within the buffer after that line.
proof fn lemma_done_shape(s: Seq<u8>)
    requires
        parse_outcome(s) is Done,
    ensures
        s.len() > 0,
        line_end(s) is Some,
        line_end(s)->0 + 3 <= consumed(parse_outcome(s)) <= s.len(),
{
    lemma_first_occurrence(s.subrange(1, s.len() as int), crlf());
}

/// Bytes that follow a complete reply do not change how it is decoded:
/// the decoder reads a reply from its own bytes and from nothing after them.
pub proof fn law_trailing_bytes_are_ignored(s: Seq<u8>, t: Seq<u8>)
    requires
        parse_is_defined(s),
        parse_outcome(s) is Done,
    ensures
        parse_is_defined(s.subrange(0, consumed(parse_outcome(s))) + t),
        parse_outcome(s.subrange(0, consumed(parse_outcome(s))) + t) == parse_outcome(s),
{
    lemma_done_shape(s);
    let n = consumed(parse_outcome(s));
    let c = s.subrange(0, n) + t;
    let end = line_end(s)->0;
    let h1 = s.subrange(1, s.len() as int);
    let h2 = c.subrange(1, c.len() as int);
    lemma_first_occurrence(h1, crlf());
    assert forall|x: int| 0 <= x < end + 2 implies h1[x] == h2[x] by {
        assert(h1[x] == s[x + 1]);
        assert(h2[x] == c[x + 1]);
    }
    lemma_first_occurrence_agree(h1, h2, crlf(), end, end + 2);
    assert(line_end(c) == Some(end));
    assert(c.subrange(1, end + 1) =~= s.subrange(1, end + 1));
    assert(c[0] == s[0]);
    if s[0] == 36 {
        let nb = usize_text_value(s.subrange(1, end + 1))->0;
        let next = end + 3;
        assert(c.subrange(next + nb, next + nb + 2) =~= s.subrange(next + nb, next + nb + 2));
        assert(c.subrange(next, next + nb) =~= s.subrange(next, next + nb));
    }
}

/// Every proper prefix of a complete reply asks for more input: it is
/// neither taken for a reply nor rejected, and a request for more bytes
/// asks for more than the prefix holds.
pub proof fn law_incomplete_reply_waits(s: Seq<u8>, k: int)
    requires
        parse_is_defined(s),
        parse_outcome(s) is Done,
        0 <= k < consumed(parse_outcome(s)),
    ensures
        parse_is_defined(s.subrange(0, k)),
        match parse_outcome(s.subrange(0, k)) {
            ParseOutcome::ExpectNewline => true,
            ParseOutcome::ExpectMore(x) => x > k,
            _ => false,
        },
{
    lemma_done_shape(s);
    let p = s.subrange(0, k);
    if k > 0 {
        let end = line_end(s)->0;
        let h1 = s.subrange(1, s.len() as int);
        let h2 = p.subrange(1, k);
        lemma_first_occurrence(h1, crlf());
        if k < end + 3 {
            assert(h2 =~= h1.subrange(0, k - 1));
            lemma_no_occurrence_in_short_prefix(h1, crlf(), end, k - 1);
        } else {
            assert forall|x: int| 0 <= x < end + 2 implies h1[x] == h2[x] by {
                assert(h1[x] == s[x + 1]);
                assert(h2[x] == p[x + 1]);
            }
            lemma_first_occurrence_agree(h1, h2, crlf(), end, end + 2);
            assert(p.subrange(1, end + 1) =~= s.subrange(1, end + 1));
        }
    }
}

/// When the decoder asks for more bytes it asks for more than it was given.
pub proof fn law_more_means_more(s: Seq<u8>)
    requires
        parse_outcome(s) is ExpectMore,
    ensures
        parse_outcome(s)->ExpectMore_0 > s.len(),
{
}

/// Tells whether `Message::parse` accepts `bytes`: they are empty, or start
/// with a marker it reads, and a bulk string's end fits in a `usize`.
/// On other input the decoder has nothing to say and stops the program.
pub fn parse_supported(bytes: &[u8]) -> (r: bool)
    ensures
        r == parse_is_defined(bytes@),
{
    if bytes.len() == 0 {
        return true;
    }
    let marker = bytes[0];
    if marker != 58 && marker != 43 && marker != 45 && marker != 36 {
        return false;
    }
    if marker != 36 {
        return true;
    }
    let rest = slice_subrange(bytes, 1, bytes.len());
    let newline: [u8; 2] = [13u8, 10u8];
    assert(newline@ =~= crlf());
    match find_substr(rest, newline.as_slice()) {
        None => true,
        Some(end) => {
            proof {
                lemma_first_occurrence(rest@, crlf());
            }
            let line = slice_subrange(bytes, 1, end + 1);
            assert(line@ =~= bytes@.subrange(1, end + 1));
            match parse_usize_text(line) {
                None => true,
                Some(n) => match (end + 3).checked_add(n) {
                    Some(m) => m.checked_add(2).is_some(),
                    None => false,
                },
            }
        },
    }
}

/// The bytes hold no CR LF.
pub open spec fn has_no_crlf(t: Seq<u8>) -> bool {
    forall|i: int| 0 <= i < t.len() - 1 ==> !(#[trigger] t[i] == 13 && t[i + 1] == 10)
}

/// The bytes hold no space.
pub open spec fn has_no_space(t: Seq<u8>) -> bool {
    forall|i: int| 0 <= i < t.len() ==> #[trigger] t[i] != 32
}

/// A reply written as a marker, a line without CR LF, CR LF and anything
/// after: its first line is exactly that line.
proof fn lemma_line_is(marker: u8, t: Seq<u8>, rest: Seq<u8>)
    requires
        has_no_crlf(t),
    ensures
        ({
            let s = seq![marker] + t + crlf() + rest;
            &&& s.len() > 0
            &&& s[0] == marker
            &&& line_end(s) == Some(t.len() as int)
            &&& s.subrange(1, t.len() as int + 1) == t
            &&& s.len() >= t.len() + 3
        }),
{
    let s = seq![marker] + t + crlf() + rest;
    let h = s.subrange(1, s.len() as int);
    let n = t.len() as int;
    assert forall|x: int| 0 <= x < n implies h[x] == t[x] by {
        assert(h[x] == s[x + 1]);
    }
    assert(h[n] == 13u8 && h[n + 1] == 10u8);
    assert(h.subrange(n, n + 2) =~= crlf());
    assert forall|j: int| 0 <= j < n implies !occurs_at(h, crlf(), j) by {
        if occurs_at(h, crlf(), j) {
            assert(h.subrange(j, j + 2)[0] == h[j]);
            assert(h.subrange(j, j + 2)[1] == h[j + 1]);
            if j + 1 < n {
                assert(t[j] == 13 && t[j + 1] == 10);
            } else {
                assert(h[j + 1] == 13u8);
            }
        }
    }
    lemma_first_occurrence_is(h, crlf(), n);
    assert(s.subrange(1, n + 1) =~= t);
}

/// A status reply is the whole text between `+` and the first CR LF.
pub proof fn law_status_reply_is_its_line(t: Seq<u8>, rest: Seq<u8>)
    requires
        valid_utf8(t),
        has_no_crlf(t),
    ensures
        parse_is_defined(seq![43u8] + t + crlf() + rest),
        parse_outcome(seq![43u8] + t + crlf() + rest) == ParseOutcome::Done(
            MessageModel::Simple(t),
            t.len() + 3,
        ),
{
    lemma_line_is(43u8, t, rest);
}

/// An error reply `-kind message` gives the kind, up to the first space,
/// and the whole message after that space.
pub proof fn law_error_reply_splits_at_first_space(kind: Seq<u8>, text: Seq<u8>, rest: Seq<u8>)
    requires
        valid_utf8(kind + seq![32u8] + text),
        has_no_crlf(kind + seq![32u8] + text),
        has_no_space(kind),
    ensures
        parse_is_defined(seq![45u8] + (kind + seq![32u8] + text) + crlf() + rest),
        parse_outcome(seq![45u8] + (kind + seq![32u8] + text) + crlf() + rest)
            == ParseOutcome::Done(
            MessageModel::Error(kind, text),
            kind.len() + text.len() + 4,
        ),
{
    let line = kind + seq![32u8] + text;
    lemma_line_is(45u8, line, rest);
    let k = kind.len() as int;
    assert(line.subrange(k, k + 1) =~= seq![32u8]);
    assert forall|j: int| 0 <= j < k implies !occurs_at(line, seq![32u8], j) by {
        assert(line.subrange(j, j + 1)[0] == kind[j]);
    }
    lemma_first_occurrence_is(line, seq![32u8], k);
    assert(line.subrange(0, k) =~= kind);
    assert(line.subrange(k + 1, line.len() as int) =~= text);
}

/// An error reply without a space is all kind and no message.
pub proof fn law_error_reply_without_space(kind: Seq<u8>, rest: Seq<u8>)
    requires
        valid_utf8(kind),
        has_no_crlf(kind),
        has_no_space(kind),
    ensures
        parse_is_defined(seq![45u8] + kind + crlf() + rest),
        parse_outcome(seq![45u8] + kind + crlf() + rest) == ParseOutcome::Done(
            MessageModel::Error(kind, Seq::empty()),
            kind.len() + 3,
        ),
{
    lemma_line_is(45u8, kind, rest);
    assert forall|j: int| !occurs_at(kind, seq![32u8], j) by {
        if occurs_at(kind, seq![32u8], j) {
            assert(kind.subrange(j, j + 1)[0] == kind[j]);
        }
    }
    crate::search::lemma_first_occurrence_none(kind, seq![32u8]);
}

/// Decimal digits hold no CR LF.
proof fn lemma_digits_no_crlf(d: Seq<u8>)
    requires
        all_digits(d),
    ensures
        has_no_crlf(d),
{
    assert forall|i: int| 0 <= i < d.len() - 1 implies !(#[trigger] d[i] == 13 && d[i + 1] == 10) by {
        assert(is_digit(d[i]));
    }
}

/// An integer reply of a non-negative number in decimal reads as that number.
pub proof fn law_integer_reply(n: nat, rest: Seq<u8>)
    requires
        n <= i64::MAX,
    ensures
        parse_is_defined(seq![58u8] + decimal(n) + crlf() + rest),
        parse_outcome(seq![58u8] + decimal(n) + crlf() + rest) == ParseOutcome::Done(
            MessageModel::Int(n as int),
            decimal(n).len() + 3,
        ),
{
    lemma_decimal(n);
    lemma_digits_no_crlf(decimal(n));
    lemma_line_is(58u8, decimal(n), rest);
    assert(is_digit(decimal(n)[0]));
}

/// An integer reply of `-` and a number in decimal reads as the negated number.
pub proof fn law_negative_integer_reply(n: nat, rest: Seq<u8>)
    requires
        n <= 0x8000_0000_0000_0000,
    ensures
        parse_is_defined(seq![58u8] + (seq![45u8] + decimal(n)) + crlf() + rest),
        parse_outcome(seq![58u8] + (seq![45u8] + decimal(n)) + crlf() + rest)
            == ParseOutcome::Done(MessageModel::Int(-(n as int)), decimal(n).len() + 4),
{
    lemma_decimal(n);
    let t = seq![45u8] + decimal(n);
    assert forall|i: int| 0 <= i < t.len() - 1 implies !(#[trigger] t[i] == 13 && t[i + 1] == 10) by {
        assert(t[i + 1] == decimal(n)[i]);
        assert(is_digit(decimal(n)[i]));
    }
    lemma_line_is(58u8, t, rest);
    assert(t.drop_first() =~= decimal(n));
}

/// Status and error text that is not UTF-8 is rejected.
pub proof fn law_text_must_be_utf8(marker: u8, t: Seq<u8>, rest: Seq<u8>)
    requires
        marker == 43 || marker == 45,
        !valid_utf8(t),
        has_no_crlf(t),
    ensures
        parse_is_defined(seq![marker] + t + crlf() + rest),
        parse_outcome(seq![marker] + t + crlf() + rest) == ParseOutcome::InvalidData,
{
    lemma_line_is(marker, t, rest);
}

/// A first line that has not ended yet, and does not end in CR, waits for
/// its CR LF, whatever the reply's kind.
pub proof fn law_unfinished_line_waits(marker: u8, t: Seq<u8>)
    requires
        is_reply_marker(marker),
        has_no_crlf(t),
        t.len() > 0 ==> t.last() != 13,
    ensures
        parse_is_defined(seq![marker] + t),
        parse_outcome(seq![marker] + t) == ParseOutcome::ExpectNewline,
{
    let s = seq![marker] + t;
    let h = s.subrange(1, s.len() as int);
    assert(h =~= t);
    assert forall|j: int| !occurs_at(h, crlf(), j) by {
        if occurs_at(h, crlf(), j) {
            assert(h.subrange(j, j + 2)[0] == h[j]);
            assert(h.subrange(j, j + 2)[1] == h[j + 1]);
        }
    }
    crate::search::lemma_first_occurrence_none(h, crlf());
}

} // verus!
