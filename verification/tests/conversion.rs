use std::str::from_utf8;

use netbuf::Buf;
use rotor_redis::conversion::{RedisIter, ToRedisArg, ToRedisCommand};
use rotor_redis::message::Message;
use rotor_redis::message::ParseResult::Done;

#[test]
fn str_arg() {
    let mut buf = Buf::new();
    "test".write_into(&mut buf);
    assert_eq!(&buf[..], b"$4\r\ntest\r\n");
}

#[test]
fn longer_str_arg() {
    let mut buf = Buf::new();
    "123456789012".write_into(&mut buf);
    assert_eq!(&buf[..], b"$12\r\n123456789012\r\n");
}

#[test]
fn single_arg() {
    let mut buf = Buf::new();
    ("hello",).write_into(&mut buf);
    assert_eq!(&buf[..], b"*1\r\n$5\r\nhello\r\n");
    buf.remove_range(..);
    (b"world",).write_into(&mut buf);
    assert_eq!(&buf[..], b"*1\r\n$5\r\nworld\r\n");
}

#[test]
fn two_args() {
    let mut buf = Buf::new();
    ("GET", b"mykey").write_into(&mut buf);
    assert_eq!(&buf[..], b"*2\r\n$3\r\nGET\r\n$5\r\nmykey\r\n");
}

#[test]
fn three_args() {
    let mut buf = Buf::new();
    ("SET", "mykey", String::from("my/value")).write_into(&mut buf);
    assert_eq!(&buf[..],
        "*3\r\n$3\r\nSET\r\n$5\r\nmykey\r\n$8\r\nmy/value\r\n".as_bytes());
}

#[test]
fn iter_args() {
    let mut buf = Buf::new();
    ("BLPOP", RedisIter(&["k1", "k2", "k3"][..]), "128").write_into(&mut buf);
    assert_eq!(from_utf8(&buf[..]).unwrap(),
        "*5\r\n$5\r\nBLPOP\r\n$2\r\nk1\r\n$2\r\nk2\r\n$2\r\nk3\r\n\
         $3\r\n128\r\n");
}

#[test]
fn counts_of_arguments() {
    assert_eq!("x".num_args(), 1);
    assert_eq!(RedisIter(&["a", "b"][..]).num_args(), 2);
    let none: &[&str] = &[];
    assert_eq!(RedisIter(none).num_args(), 0);
}

#[test]
fn writes_append_to_what_is_there() {
    let mut buf = Buf::new();
    buf.extend(b"abc");
    "".write_into(&mut buf);
    assert_eq!(&buf[..], b"abc$0\r\n\r\n");
}

#[test]
fn six_args_and_byte_vectors() {
    let mut buf = Buf::new();
    ("A", b"bb", String::from("c"), vec![b'd'], &b"e"[..], "0123456789").write_into(&mut buf);
    assert_eq!(&buf[..],
        &b"*6\r\n$1\r\nA\r\n$2\r\nbb\r\n$1\r\nc\r\n$1\r\nd\r\n$1\r\ne\r\n$10\r\n0123456789\r\n"[..]);
}

#[test]
fn written_bulk_reads_back() {
    let mut buf = Buf::new();
    "Hello\r\nWorld".write_into(&mut buf);
    let n = buf.len();
    buf.extend(b"$3\r\nrest");
    assert_eq!(Message::parse(&buf[..]),
        Done(Message::Bytes(b"Hello\r\nWorld"), n));
}
