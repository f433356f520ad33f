//! Encoding commands: every argument is sent as a bulk string and a
//! command is an array of them.
use vstd::prelude::*;
use vstd::string::*;

use netbuf::Buf;

use crate::buffer::{buf_append, buf_bytes, BUF_LIMIT};
use crate::decimal::{
    decimal, lemma_decimal, lemma_decimal_short, lemma_decimal_usize_text, push_decimal,
    usize_text_value,
};
use crate::message::{crlf, line_end, parse_is_defined, parse_outcome, MessageModel, ParseOutcome};
use crate::search::{first_occurrence, lemma_first_occurrence_is, occurs_at};

verus! {

/// A bulk string: `$`, the length in decimal, CR LF, the bytes, CR LF.
pub open spec fn encode_bulk(data: Seq<u8>) -> Seq<u8> {
    seq![36u8] + decimal(data.len()) + crlf() + data + crlf()
}

/// Arguments one after another, each as a bulk string.
pub open spec fn encode_bulks(args: Seq<Seq<u8>>) -> Seq<u8>
    decreases args.len(),
{
    if args.len() == 0 {
        Seq::empty()
    } else {
        encode_bulks(args.drop_last()) + encode_bulk(args.last())
    }
}

/// The head of a command of `n` arguments: `*`, `n` in decimal, CR LF.
pub open spec fn command_head(n: nat) -> Seq<u8> {
    seq![42u8] + decimal(n) + crlf()
}

/// A command: its head followed by its arguments as bulk strings.
pub open spec fn encode_command(args: Seq<Seq<u8>>) -> Seq<u8> {
    command_head(args.len()) + encode_bulks(args)
}

/// Encoding two runs of arguments is encoding the one after the other.
pub proof fn lemma_bulks_concat(a: Seq<Seq<u8>>, b: Seq<Seq<u8>>)
    ensures
        encode_bulks(a + b) == encode_bulks(a) + encode_bulks(b),
    decreases b.len(),
{
    if b.len() == 0 {
        assert(a + b =~= a);
        assert(encode_bulks(a) + encode_bulks(b) =~= encode_bulks(a));
    } else {
        assert((a + b).drop_last() =~= a + b.drop_last());
        assert((a + b).last() == b.last());
        lemma_bulks_concat(a, b.drop_last());
        assert(encode_bulks(a + b) =~= encode_bulks(a) + encode_bulks(b));
    }
}

/// Each argument takes at least six bytes, so there are fewer arguments
/// than encoded bytes.
pub proof fn lemma_bulks_len(args: Seq<Seq<u8>>)
    ensures
        encode_bulks(args).len() >= 6 * args.len(),
    decreases args.len(),
{
    if args.len() > 0 {
        lemma_bulks_len(args.drop_last());
        lemma_decimal(args.last().len());
    }
}

/// One argument alone is encoded as its bulk string.
proof fn lemma_bulks_single(data: Seq<u8>)
    ensures
        encode_bulks(seq![data]) == encode_bulk(data),
{
    assert(seq![data].drop_last() =~= Seq::<Seq<u8>>::empty());
    assert(encode_bulks(seq![data].drop_last()) == Seq::<u8>::empty());
    assert(seq![data].last() == data);
    assert(Seq::<u8>::empty() + encode_bulk(data) =~= encode_bulk(data));
}

/// Appends `data` to `buf` as a bulk string.
fn write_bulk(buf: &mut Buf, data: &[u8])
    requires
        buf_bytes(*old(buf)).len() + encode_bulk(data@).len() <= BUF_LIMIT,
    ensures
        buf_bytes(*final(buf)) == buf_bytes(*old(buf)) + encode_bulk(data@),
{
    let mut head: Vec<u8> = Vec::new();
    head.push(36u8);
    push_decimal(&mut head, data.len());
    head.push(13u8);
    head.push(10u8);
    assert(head@ =~= seq![36u8] + decimal(data@.len()) + crlf());
    buf_append(buf, head.as_slice());
    buf_append(buf, data);
    let tail: [u8; 2] = [13u8, 10u8];
    assert(tail@ =~= crlf());
    buf_append(buf, tail.as_slice());
    assert(buf_bytes(*buf) =~= buf_bytes(*old(buf)) + encode_bulk(data@));
}

/// Appends the head of a command of `n` arguments to `buf`.
fn write_command_head(buf: &mut Buf, n: usize)
    requires
        buf_bytes(*old(buf)).len() + command_head(n as nat).len() <= BUF_LIMIT,
    ensures
        buf_bytes(*final(buf)) == buf_bytes(*old(buf)) + command_head(n as nat),
{
    let mut head: Vec<u8> = Vec::new();
    head.push(42u8);
    push_decimal(&mut head, n);
    head.push(13u8);
    head.push(10u8);
    assert(head@ =~= command_head(n as nat));
    buf_append(buf, head.as_slice());
}

/// The length of the decimal spelling of `n`.
fn decimal_len(n: usize) -> (k: usize)
    ensures
        k == decimal(n as nat).len(),
{
    let mut digits: Vec<u8> = Vec::new();
    push_decimal(&mut digits, n);
    assert(digits@ =~= decimal(n as nat));
    digits.len()
}

/// The length of a bulk string of `n` bytes, if it fits in a `usize`.
fn bulk_len(n: usize) -> (k: Option<usize>)
    ensures
        forall|d: Seq<u8>|
            d.len() == n ==> match k {
                Some(v) => v == #[trigger] encode_bulk(d).len(),
                None => encode_bulk(d).len() > usize::MAX,
            },
{
    let digits = decimal_len(n);
    proof {
        lemma_decimal(n as nat);
    }
    assert(digits <= 21) by {
        lemma_decimal_short(n as nat);
    }
    match (digits + 5).checked_add(n) {
        Some(v) => Some(v),
        None => None,
    }
}

/// Adds two lengths, or gives `None` when the sum passes `usize::MAX`.
fn add_len(a: Option<usize>, b: Option<usize>) -> (r: Option<usize>)
    ensures
        r matches Some(v) ==> a matches Some(x) && b matches Some(y) && v == x + y,
        r is None ==> a is None || b is None || a.unwrap() + b.unwrap() > usize::MAX,
{
    match (a, b) {
        (Some(x), Some(y)) => x.checked_add(y),
        _ => None,
    }
}

/// A value that is sent as a single bulk string.
pub trait BulkArg {
    /// The bytes that are sent.
    spec fn bulk_spec(&self) -> Seq<u8>;

    fn bulk_bytes(&self) -> (r: &[u8])
        ensures
            r@ == self.bulk_spec(),
    ;
}

impl<'x> BulkArg for &'x str {
    open spec fn bulk_spec(&self) -> Seq<u8> {
        (**self).spec_bytes()
    }

    fn bulk_bytes(&self) -> (r: &[u8]) {
        (**self).as_bytes()
    }
}

impl<'x> BulkArg for &'x [u8] {
    open spec fn bulk_spec(&self) -> Seq<u8> {
        (**self)@
    }

    fn bulk_bytes(&self) -> (r: &[u8]) {
        *self
    }
}

impl<'x, const N: usize> BulkArg for &'x [u8; N] {
    open spec fn bulk_spec(&self) -> Seq<u8> {
        (**self)@
    }

    fn bulk_bytes(&self) -> (r: &[u8]) {
        (**self).as_slice()
    }
}

impl BulkArg for String {
    open spec fn bulk_spec(&self) -> Seq<u8> {
        vstd::utf8::encode_utf8(self@)
    }

    fn bulk_bytes(&self) -> (r: &[u8]) {
        self.as_str().as_bytes()
    }
}

impl BulkArg for Vec<u8> {
    open spec fn bulk_spec(&self) -> Seq<u8> {
        self@
    }

    fn bulk_bytes(&self) -> (r: &[u8]) {
        self.as_slice()
    }
}

/// Something that is sent as one or more arguments of a command.
pub trait ToRedisArg: Sized {
    /// The arguments, each as the bytes of a bulk string.
    spec fn redis_args(&self) -> Seq<Seq<u8>>;

    fn num_args(&self) -> (n: usize)
        ensures
            n == self.redis_args().len(),
    ;

    /// The number of bytes that `write_into` appends, if it fits in a `usize`.
    fn encoded_len(&self) -> (n: Option<usize>)
        ensures
            match n {
                Some(k) => k == encode_bulks(self.redis_args()).len(),
                None => encode_bulks(self.redis_args()).len() > usize::MAX,
            },
    ;

    fn write_into(self, buf: &mut Buf)
        requires
            buf_bytes(*old(buf)).len() + encode_bulks(self.redis_args()).len() <= BUF_LIMIT,
        ensures
            buf_bytes(*final(buf)) == buf_bytes(*old(buf)) + encode_bulks(self.redis_args()),
    ;
}

impl<T: BulkArg> ToRedisArg for T {
    open spec fn redis_args(&self) -> Seq<Seq<u8>> {
        seq![self.bulk_spec()]
    }

    fn num_args(&self) -> (n: usize) {
        1
    }

    fn encoded_len(&self) -> (n: Option<usize>) {
        proof {
            lemma_bulks_single(self.bulk_spec());
        }
        bulk_len(self.bulk_bytes().len())
    }

    fn write_into(self, buf: &mut Buf) {
        proof {
            lemma_bulks_single(self.bulk_spec());
        }
        write_bulk(buf, self.bulk_bytes());
    }
}

/// Several values sent as consecutive arguments of one command.
pub struct RedisIter<T>(pub T);

impl<'x, T: BulkArg> ToRedisArg for RedisIter<&'x [T]> {
    open spec fn redis_args(&self) -> Seq<Seq<u8>> {
        Seq::new(self.0@.len(), |i: int| self.0@[i].bulk_spec())
    }

    fn num_args(&self) -> (n: usize) {
        self.0.len()
    }

    fn encoded_len(&self) -> (r: Option<usize>) {
        let ghost args = self.redis_args();
        let items = self.0;
        let n = items.len();
        let mut total: usize = 0;
        let mut i: usize = 0;
        while i < n
            invariant
                n == items@.len(),
                0 <= i <= n,
                args == Seq::new(items@.len(), |i: int| items@[i].bulk_spec()),
                args == self.redis_args(),
                total == encode_bulks(args.take(i as int)).len(),
            decreases n - i,
        {
            proof {
                assert(args.take(i + 1).drop_last() =~= args.take(i as int));
                assert(args =~= args.take(i + 1) + args.skip(i + 1));
                lemma_bulks_concat(args.take(i + 1), args.skip(i + 1));
            }
            let b = items[i].bulk_bytes();
            proof {
                assert(args.take(i + 1).last() == args[i as int]);
                assert(b@ == args[i as int]);
                assert(encode_bulk(b@).len() == encode_bulk(args[i as int]).len());
            }
            match add_len(Some(total), bulk_len(b.len())) {
                Some(t) => {
                    total = t;
                },
                None => {
                    assert(encode_bulks(args.take(i + 1)) == encode_bulks(args.take(i as int))
                        + encode_bulk(args[i as int]));
                    assert(encode_bulks(args) == encode_bulks(args.take(i + 1)) + encode_bulks(
                        args.skip(i + 1),
                    ));
                    assert(total + encode_bulk(args[i as int]).len() > usize::MAX);
                    assert(encode_bulks(args).len() > usize::MAX);
                    return None;
                },
            }
            i = i + 1;
        }
        assert(args.take(n as int) =~= args);
        Some(total)
    }

    fn write_into(self, buf: &mut Buf) {
        let ghost start = buf_bytes(*buf);
        let ghost args = self.redis_args();
        let items = self.0;
        let n = items.len();
        let mut i: usize = 0;
        while i < n
            invariant
                n == items@.len(),
                0 <= i <= n,
                args == Seq::new(items@.len(), |i: int| items@[i].bulk_spec()),
                start.len() + encode_bulks(args).len() <= BUF_LIMIT,
                buf_bytes(*buf) == start + encode_bulks(args.take(i as int)),
            decreases n - i,
        {
            proof {
                assert(args.take(i + 1).drop_last() =~= args.take(i as int));
                assert(args =~= args.take(i + 1) + args.skip(i + 1));
                lemma_bulks_concat(args.take(i + 1), args.skip(i + 1));
            }
            write_bulk(buf, items[i].bulk_bytes());
            i = i + 1;
            assert(buf_bytes(*buf) =~= start + encode_bulks(args.take(i as int)));
        }
        assert(args.take(n as int) =~= args);
    }
}

/// Something that is sent as a whole command.
pub trait ToRedisCommand: Sized {
    /// The command's arguments, each as the bytes of a bulk string.
    spec fn command_args(&self) -> Seq<Seq<u8>>;

    /// The number of bytes that `write_into` appends, if it fits in a `usize`.
    fn encoded_len(&self) -> (n: Option<usize>)
        ensures
            match n {
                Some(k) => k == encode_command(self.command_args()).len(),
                None => encode_command(self.command_args()).len() > usize::MAX,
            },
    ;

    fn write_into(self, buf: &mut Buf)
        requires
            buf_bytes(*old(buf)).len() + encode_command(self.command_args()).len() <= BUF_LIMIT,
        ensures
            buf_bytes(*final(buf)) == buf_bytes(*old(buf)) + encode_command(self.command_args()),
    ;
}

impl<A: ToRedisArg> ToRedisCommand for (A,) {
    open spec fn command_args(&self) -> Seq<Seq<u8>> {
        self.0.redis_args()
    }

    fn encoded_len(&self) -> (r: Option<usize>) {
        let ghost a0 = self.0.redis_args();
        proof {
            lemma_bulks_len(a0);
        }
        let total = self.0.encoded_len();
        match total {
            Some(t) => {
                let n = self.0.num_args();
                let head = decimal_len(n);
                proof {
                    lemma_decimal_short(n as nat);
                }
                add_len(Some(head + 3), Some(t))
            },
            None => None,
        }
    }

    #[verifier::rlimit(40)]
    fn write_into(self, buf: &mut Buf) {
        let ghost start = buf_bytes(*buf);
        let ghost a0 = self.0.redis_args();
        proof {
            lemma_bulks_len(a0);
        }
        let n = self.0.num_args();
        write_command_head(buf, n);
        let ghost mut done = start + command_head(n as nat);
        self.0.write_into(buf);
        proof {
            done = done + encode_bulks(a0);
        }
        assert(done =~= start + (command_head(n as nat) + (encode_bulks(a0))));
    }
}

impl<A: ToRedisArg, B: ToRedisArg> ToRedisCommand for (A, B) {
    open spec fn command_args(&self) -> Seq<Seq<u8>> {
        self.0.redis_args() + self.1.redis_args()
    }

    fn encoded_len(&self) -> (r: Option<usize>) {
        let ghost a0 = self.0.redis_args();
        let ghost a1 = self.1.redis_args();
        proof {
            lemma_bulks_concat(a0, a1);
            lemma_bulks_len(a0 + a1);
        }
        let total = self.0.encoded_len();
        let total = add_len(total, self.1.encoded_len());
        match total {
            Some(t) => {
                let n = self.0.num_args() + self.1.num_args();
                let head = decimal_len(n);
                proof {
                    lemma_decimal_short(n as nat);
                }
                add_len(Some(head + 3), Some(t))
            },
            None => None,
        }
    }

    #[verifier::rlimit(40)]
    fn write_into(self, buf: &mut Buf) {
        let ghost start = buf_bytes(*buf);
        let ghost a0 = self.0.redis_args();
        let ghost a1 = self.1.redis_args();
        proof {
            lemma_bulks_concat(a0, a1);
            lemma_bulks_len(a0 + a1);
        }
        let n = self.0.num_args() + self.1.num_args();
        write_command_head(buf, n);
        let ghost mut done = start + command_head(n as nat);
        self.0.write_into(buf);
        proof {
            done = done + encode_bulks(a0);
        }
        self.1.write_into(buf);
        proof {
            done = done + encode_bulks(a1);
        }
        assert(done =~= start + (command_head(n as nat) + (encode_bulks(a0) + encode_bulks(a1))));
    }
}

impl<A: ToRedisArg, B: ToRedisArg, C: ToRedisArg> ToRedisCommand for (A, B, C) {
    open spec fn command_args(&self) -> Seq<Seq<u8>> {
        self.0.redis_args() + self.1.redis_args() + self.2.redis_args()
    }

    fn encoded_len(&self) -> (r: Option<usize>) {
        let ghost a0 = self.0.redis_args();
        let ghost a1 = self.1.redis_args();
        let ghost a2 = self.2.redis_args();
        proof {
            lemma_bulks_concat(a0, a1);
            lemma_bulks_concat(a0 + a1, a2);
            lemma_bulks_len(a0 + a1 + a2);
        }
        let total = self.0.encoded_len();
        let total = add_len(total, self.1.encoded_len());
        let total = add_len(total, self.2.encoded_len());
        match total {
            Some(t) => {
                let n = self.0.num_args() + self.1.num_args() + self.2.num_args();
                let head = decimal_len(n);
                proof {
                    lemma_decimal_short(n as nat);
                }
                add_len(Some(head + 3), Some(t))
            },
            None => None,
        }
    }

    #[verifier::rlimit(40)]
    fn write_into(self, buf: &mut Buf) {
        let ghost start = buf_bytes(*buf);
        let ghost a0 = self.0.redis_args();
        let ghost a1 = self.1.redis_args();
        let ghost a2 = self.2.redis_args();
        proof {
            lemma_bulks_concat(a0, a1);
            lemma_bulks_concat(a0 + a1, a2);
            lemma_bulks_len(a0 + a1 + a2);
        }
        let n = self.0.num_args() + self.1.num_args() + self.2.num_args();
        write_command_head(buf, n);
        let ghost mut done = start + command_head(n as nat);
        self.0.write_into(buf);
        proof {
            done = done + encode_bulks(a0);
        }
        self.1.write_into(buf);
        proof {
            done = done + encode_bulks(a1);
        }
        self.2.write_into(buf);
        proof {
            done = done + encode_bulks(a2);
        }
        assert(done =~= start + (command_head(n as nat) + (encode_bulks(a0) + encode_bulks(a1) + encode_bulks(a2))));
    }
}

impl<A: ToRedisArg, B: ToRedisArg, C: ToRedisArg, D: ToRedisArg> ToRedisCommand for (A, B, C, D) {
    open spec fn command_args(&self) -> Seq<Seq<u8>> {
        self.0.redis_args() + self.1.redis_args() + self.2.redis_args() + self.3.redis_args()
    }

    fn encoded_len(&self) -> (r: Option<usize>) {
        let ghost a0 = self.0.redis_args();
        let ghost a1 = self.1.redis_args();
        let ghost a2 = self.2.redis_args();
        let ghost a3 = self.3.redis_args();
        proof {
            lemma_bulks_concat(a0, a1);
            lemma_bulks_concat(a0 + a1, a2);
            lemma_bulks_concat(a0 + a1 + a2, a3);
            lemma_bulks_len(a0 + a1 + a2 + a3);
        }
        let total = self.0.encoded_len();
        let total = add_len(total, self.1.encoded_len());
        let total = add_len(total, self.2.encoded_len());
        let total = add_len(total, self.3.encoded_len());
        match total {
            Some(t) => {
                let n = self.0.num_args() + self.1.num_args() + self.2.num_args() + self.3.num_args();
                let head = decimal_len(n);
                proof {
                    lemma_decimal_short(n as nat);
                }
                add_len(Some(head + 3), Some(t))
            },
            None => None,
        }
    }

    #[verifier::rlimit(40)]
    fn write_into(self, buf: &mut Buf) {
        let ghost start = buf_bytes(*buf);
        let ghost a0 = self.0.redis_args();
        let ghost a1 = self.1.redis_args();
        let ghost a2 = self.2.redis_args();
        let ghost a3 = self.3.redis_args();
        proof {
            lemma_bulks_concat(a0, a1);
            lemma_bulks_concat(a0 + a1, a2);
            lemma_bulks_concat(a0 + a1 + a2, a3);
            lemma_bulks_len(a0 + a1 + a2 + a3);
        }
        let n = self.0.num_args() + self.1.num_args() + self.2.num_args() + self.3.num_args();
        write_command_head(buf, n);
        let ghost mut done = start + command_head(n as nat);
        self.0.write_into(buf);
        proof {
            done = done + encode_bulks(a0);
        }
        self.1.write_into(buf);
        proof {
            done = done + encode_bulks(a1);
        }
        self.2.write_into(buf);
        proof {
            done = done + encode_bulks(a2);
        }
        self.3.write_into(buf);
        proof {
            done = done + encode_bulks(a3);
        }
        assert(done =~= start + (command_head(n as nat) + (encode_bulks(a0) + encode_bulks(a1) + encode_bulks(a2) + encode_bulks(a3))));
    }
}

impl<A: ToRedisArg, B: ToRedisArg, C: ToRedisArg, D: ToRedisArg, E: ToRedisArg> ToRedisCommand for (A, B, C, D, E) {
    open spec fn command_args(&self) -> Seq<Seq<u8>> {
        self.0.redis_args() + self.1.redis_args() + self.2.redis_args() + self.3.redis_args() + self.4.redis_args()
    }

    fn encoded_len(&self) -> (r: Option<usize>) {
        let ghost a0 = self.0.redis_args();
        let ghost a1 = self.1.redis_args();
        let ghost a2 = self.2.redis_args();
        let ghost a3 = self.3.redis_args();
        let ghost a4 = self.4.redis_args();
        proof {
            lemma_bulks_concat(a0, a1);
            lemma_bulks_concat(a0 + a1, a2);
            lemma_bulks_concat(a0 + a1 + a2, a3);
            lemma_bulks_concat(a0 + a1 + a2 + a3, a4);
            lemma_bulks_len(a0 + a1 + a2 + a3 + a4);
        }
        let total = self.0.encoded_len();
        let total = add_len(total, self.1.encoded_len());
        let total = add_len(total, self.2.encoded_len());
        let total = add_len(total, self.3.encoded_len());
        let total = add_len(total, self.4.encoded_len());
        match total {
            Some(t) => {
                let n = self.0.num_args() + self.1.num_args() + self.2.num_args() + self.3.num_args() + self.4.num_args();
                let head = decimal_len(n);
                proof {
                    lemma_decimal_short(n as nat);
                }
                add_len(Some(head + 3), Some(t))
            },
            None => None,
        }
    }

    #[verifier::rlimit(40)]
    fn write_into(self, buf: &mut Buf) {
        let ghost start = buf_bytes(*buf);
        let ghost a0 = self.0.redis_args();
        let ghost a1 = self.1.redis_args();
        let ghost a2 = self.2.redis_args();
        let ghost a3 = self.3.redis_args();
        let ghost a4 = self.4.redis_args();
        proof {
            lemma_bulks_concat(a0, a1);
            lemma_bulks_concat(a0 + a1, a2);
            lemma_bulks_concat(a0 + a1 + a2, a3);
            lemma_bulks_concat(a0 + a1 + a2 + a3, a4);
            lemma_bulks_len(a0 + a1 + a2 + a3 + a4);
        }
        let n = self.0.num_args() + self.1.num_args() + self.2.num_args() + self.3.num_args() + self.4.num_args();
        write_command_head(buf, n);
        let ghost mut done = start + command_head(n as nat);
        self.0.write_into(buf);
        proof {
            done = done + encode_bulks(a0);
        }
        self.1.write_into(buf);
        proof {
            done = done + encode_bulks(a1);
        }
        self.2.write_into(buf);
        proof {
            done = done + encode_bulks(a2);
        }
        self.3.write_into(buf);
        proof {
            done = done + encode_bulks(a3);
        }
        self.4.write_into(buf);
        proof {
            done = done + encode_bulks(a4);
        }
        assert(done =~= start + (command_head(n as nat) + (encode_bulks(a0) + encode_bulks(a1) + encode_bulks(a2) + encode_bulks(a3) + encode_bulks(a4))));
    }
}

impl<A: ToRedisArg, B: ToRedisArg, C: ToRedisArg, D: ToRedisArg, E: ToRedisArg, F: ToRedisArg> ToRedisCommand for (A, B, C, D, E, F) {
    open spec fn command_args(&self) -> Seq<Seq<u8>> {
        self.0.redis_args() + self.1.redis_args() + self.2.redis_args() + self.3.redis_args() + self.4.redis_args() + self.5.redis_args()
    }

    fn encoded_len(&self) -> (r: Option<usize>) {
        let ghost a0 = self.0.redis_args();
        let ghost a1 = self.1.redis_args();
        let ghost a2 = self.2.redis_args();
        let ghost a3 = self.3.redis_args();
        let ghost a4 = self.4.redis_args();
        let ghost a5 = self.5.redis_args();
        proof {
            lemma_bulks_concat(a0, a1);
            lemma_bulks_concat(a0 + a1, a2);
            lemma_bulks_concat(a0 + a1 + a2, a3);
            lemma_bulks_concat(a0 + a1 + a2 + a3, a4);
            lemma_bulks_concat(a0 + a1 + a2 + a3 + a4, a5);
            lemma_bulks_len(a0 + a1 + a2 + a3 + a4 + a5);
        }
        let total = self.0.encoded_len();
        let total = add_len(total, self.1.encoded_len());
        let total = add_len(total, self.2.encoded_len());
        let total = add_len(total, self.3.encoded_len());
        let total = add_len(total, self.4.encoded_len());
        let total = add_len(total, self.5.encoded_len());
        match total {
            Some(t) => {
                let n = self.0.num_args() + self.1.num_args() + self.2.num_args() + self.3.num_args() + self.4.num_args() + self.5.num_args();
                let head = decimal_len(n);
                proof {
                    lemma_decimal_short(n as nat);
                }
                add_len(Some(head + 3), Some(t))
            },
            None => None,
        }
    }

    #[verifier::rlimit(40)]
    fn write_into(self, buf: &mut Buf) {
        let ghost start = buf_bytes(*buf);
        let ghost a0 = self.0.redis_args();
        let ghost a1 = self.1.redis_args();
        let ghost a2 = self.2.redis_args();
        let ghost a3 = self.3.redis_args();
        let ghost a4 = self.4.redis_args();
        let ghost a5 = self.5.redis_args();
        proof {
            lemma_bulks_concat(a0, a1);
            lemma_bulks_concat(a0 + a1, a2);
            lemma_bulks_concat(a0 + a1 + a2, a3);
            lemma_bulks_concat(a0 + a1 + a2 + a3, a4);
            lemma_bulks_concat(a0 + a1 + a2 + a3 + a4, a5);
            lemma_bulks_len(a0 + a1 + a2 + a3 + a4 + a5);
        }
        let n = self.0.num_args() + self.1.num_args() + self.2.num_args() + self.3.num_args() + self.4.num_args() + self.5.num_args();
        write_command_head(buf, n);
        let ghost mut done = start + command_head(n as nat);
        self.0.write_into(buf);
        proof {
            done = done + encode_bulks(a0);
        }
        self.1.write_into(buf);
        proof {
            done = done + encode_bulks(a1);
        }
        self.2.write_into(buf);
        proof {
            done = done + encode_bulks(a2);
        }
        self.3.write_into(buf);
        proof {
            done = done + encode_bulks(a3);
        }
        self.4.write_into(buf);
        proof {
            done = done + encode_bulks(a4);
        }
        self.5.write_into(buf);
        proof {
            done = done + encode_bulks(a5);
        }
        assert(done =~= start + (command_head(n as nat) + (encode_bulks(a0) + encode_bulks(a1) + encode_bulks(a2) + encode_bulks(a3) + encode_bulks(a4) + encode_bulks(a5))));
    }
}

/// What the encoder writes as a bulk string, the decoder reads back as the
/// same bytes, whatever follows it in the buffer.
pub proof fn law_bulk_roundtrip(data: Seq<u8>, rest: Seq<u8>)
    requires
        encode_bulk(data).len() <= usize::MAX,
    ensures
        parse_is_defined(encode_bulk(data) + rest),
        parse_outcome(encode_bulk(data) + rest) == ParseOutcome::Done(
            MessageModel::Bytes(data),
            encode_bulk(data).len(),
        ),
{
    let digits = decimal(data.len());
    lemma_decimal(data.len());
    lemma_decimal_usize_text(data.len());
    let s = encode_bulk(data) + rest;
    let d = digits.len() as int;
    let h = s.subrange(1, s.len() as int);
    assert(s[0] == 36u8);
    assert forall|x: int| 0 <= x < d implies h[x] == #[trigger] digits[x] by {
        assert(h[x] == s[x + 1]);
    }
    assert(h.subrange(d, d + 2) =~= crlf());
    assert forall|j: int| 0 <= j < d implies !occurs_at(h, crlf(), j) by {
        assert(h[j] == digits[j]);
        assert(h.subrange(j, j + 2)[0] == h[j]);
    }
    lemma_first_occurrence_is(h, crlf(), d);
    assert(line_end(s) == Some(d));
    assert(s.subrange(1, d + 1) =~= digits);
    assert(usize_text_value(s.subrange(1, d + 1)) == Some(data.len()));
    let next = d + 3;
    assert(s.subrange(next + data.len(), next + data.len() + 2) =~= crlf());
    assert(s.subrange(next, next + data.len()) =~= data);
}

/// A bulk reply, `$`, the length in decimal, CR LF, that many bytes and
/// CR LF, reads as exactly those bytes, whatever follows.
pub proof fn law_bulk_reply(data: Seq<u8>, rest: Seq<u8>)
    requires
        data.len() + 25 <= usize::MAX,
    ensures
        parse_outcome(seq![36u8] + decimal(data.len()) + crlf() + data + crlf() + rest)
            == ParseOutcome::Done(
            MessageModel::Bytes(data),
            decimal(data.len()).len() + data.len() + 5,
        ),
{
    lemma_decimal(data.len());
    if data.len() <= usize::MAX {
        crate::decimal::lemma_decimal_short(data.len());
    }
    law_bulk_roundtrip(data, rest);
}

/// A command of 1 value sends their arguments in tuple order.
pub proof fn law_command_args_in_order_1<A: ToRedisArg>(t: (A,))
    ensures
        t.command_args() == t.0.redis_args(),
{
}

/// A command of 2 values sends their arguments in tuple order.
pub proof fn law_command_args_in_order_2<A: ToRedisArg, B: ToRedisArg>(t: (A, B))
    ensures
        t.command_args() == t.0.redis_args() + t.1.redis_args(),
{
}

/// A command of 3 values sends their arguments in tuple order.
pub proof fn law_command_args_in_order_3<A: ToRedisArg, B: ToRedisArg, C: ToRedisArg>(t: (A, B, C))
    ensures
        t.command_args() == t.0.redis_args() + t.1.redis_args() + t.2.redis_args(),
{
}

/// A command of 4 values sends their arguments in tuple order.
pub proof fn law_command_args_in_order_4<A: ToRedisArg, B: ToRedisArg, C: ToRedisArg, D: ToRedisArg>(t: (A, B, C, D))
    ensures
        t.command_args() == t.0.redis_args() + t.1.redis_args() + t.2.redis_args() + t.3.redis_args(),
{
}

/// A command of 5 values sends their arguments in tuple order.
pub proof fn law_command_args_in_order_5<A: ToRedisArg, B: ToRedisArg, C: ToRedisArg, D: ToRedisArg, E: ToRedisArg>(t: (A, B, C, D, E))
    ensures
        t.command_args() == t.0.redis_args() + t.1.redis_args() + t.2.redis_args() + t.3.redis_args() + t.4.redis_args(),
{
}

/// A command of 6 values sends their arguments in tuple order.
pub proof fn law_command_args_in_order_6<A: ToRedisArg, B: ToRedisArg, C: ToRedisArg, D: ToRedisArg, E: ToRedisArg, F: ToRedisArg>(t: (A, B, C, D, E, F))
    ensures
        t.command_args() == t.0.redis_args() + t.1.redis_args() + t.2.redis_args() + t.3.redis_args() + t.4.redis_args() + t.5.redis_args(),
{
}

/// A bulk string whose data is not followed by CR LF is rejected.
pub proof fn law_bulk_needs_terminator(data: Seq<u8>, x: u8, y: u8, rest: Seq<u8>)
    requires
        data.len() + 25 <= usize::MAX,
        !(x == 13 && y == 10),
    ensures
        parse_outcome(seq![36u8] + decimal(data.len()) + crlf() + data + seq![x, y] + rest)
            == ParseOutcome::InvalidData,
{
    let s = seq![36u8] + decimal(data.len()) + crlf() + data + seq![x, y] + rest;
    let digits = decimal(data.len());
    lemma_decimal(data.len());
    crate::decimal::lemma_decimal_short(data.len());
    lemma_decimal_usize_text(data.len());
    let d = digits.len() as int;
    let h = s.subrange(1, s.len() as int);
    assert forall|k: int| 0 <= k < d implies h[k] == #[trigger] digits[k] by {
        assert(h[k] == s[k + 1]);
    }
    assert(h.subrange(d, d + 2) =~= crlf());
    assert forall|j: int| 0 <= j < d implies !occurs_at(h, crlf(), j) by {
        assert(h[j] == digits[j]);
        assert(h.subrange(j, j + 2)[0] == h[j]);
    }
    lemma_first_occurrence_is(h, crlf(), d);
    assert(s.subrange(1, d + 1) =~= digits);
    let next = d + 3;
    let tail = s.subrange(next + data.len(), next + data.len() + 2);
    assert(tail[0] == x && tail[1] == y);
}

/// The head of an encoded command spells, between `*` and the first CR LF,
/// the number of its arguments.
pub proof fn law_command_head_counts_arguments(args: Seq<Seq<u8>>)
    requires
        args.len() <= usize::MAX,
    ensures
        encode_command(args)[0] == 42u8,
        first_occurrence(
            encode_command(args).subrange(1, encode_command(args).len() as int),
            crlf(),
        ) == Some(decimal(args.len()).len() as int),
        usize_text_value(
            encode_command(args).subrange(1, decimal(args.len()).len() as int + 1),
        ) == Some(args.len()),
{
    let c = encode_command(args);
    let digits = decimal(args.len());
    lemma_decimal(args.len());
    lemma_decimal_usize_text(args.len());
    let d = digits.len() as int;
    let h = c.subrange(1, c.len() as int);
    assert forall|x: int| 0 <= x < d implies h[x] == #[trigger] digits[x] by {
        assert(h[x] == c[x + 1]);
    }
    assert(h.subrange(d, d + 2) =~= crlf());
    assert forall|j: int| 0 <= j < d implies !occurs_at(h, crlf(), j) by {
        assert(h[j] == digits[j]);
        assert(h.subrange(j, j + 2)[0] == h[j]);
    }
    lemma_first_occurrence_is(h, crlf(), d);
    assert(c.subrange(1, d + 1) =~= digits);
}

} // verus!
