use std::cell::RefCell;
use std::rc::Rc;
use std::time::Duration;

use netbuf::Buf;
use rotor_redis::context::Context;
use rotor_redis::message::Message;
use rotor_redis::port::{Port, PortImpl, PortReceiver};
use rotor_redis::buffer::{has_room, new_buffer, BUF_LIMIT};
use rotor_redis::conversion::{RedisIter, ToRedisArg, ToRedisCommand};
use rotor_redis::proto::{is_ok_reply, Next, ReadStep, RedisProto};

#[derive(Clone)]
struct Log(Rc<RefCell<Vec<String>>>, &'static str);

impl PortImpl for Log {
    fn put(&mut self, message: &Message) {
        self.0.borrow_mut().push(format!("{}: {:?}", self.1, message));
    }
}

fn port(log: &Rc<RefCell<Vec<String>>>, name: &'static str) -> Port<Log> {
    Port(Log(log.clone(), name))
}

#[test]
fn replies_go_to_requests_in_order() {
    let log = Rc::new(RefCell::new(Vec::new()));
    let mut receiver = PortReceiver::new();
    receiver.add_port(port(&log, "first"));
    receiver.add_port(port(&log, "second"));
    receiver.receive().put(&Message::Int(1));
    receiver.add_port(port(&log, "third"));
    receiver.receive().put(&Message::Int(2));
    receiver.receive().put(&Message::Simple("x"));
    assert_eq!(*log.borrow(),
        vec!["first: Int(1)", "second: Int(2)", "third: Simple(\"x\")"]);
}

#[test]
fn cloned_receiver_waits_for_nothing() {
    let log = Rc::new(RefCell::new(Vec::new()));
    let mut receiver = PortReceiver::new();
    receiver.add_port(port(&log, "a"));
    let mut copy = receiver.clone();
    copy.add_port(port(&log, "b"));
    copy.receive().put(&Message::Null);
    receiver.receive().put(&Message::Int(5));
    assert_eq!(*log.borrow(), vec!["b: Null", "a: Int(5)"]);
}

#[test]
fn port_put_hands_over_the_reply() {
    let log = Rc::new(RefCell::new(Vec::new()));
    port(&log, "p").put(&Message::Bytes(b"ab"));
    assert_eq!(*log.borrow(), vec!["p: Bytes([97, 98])"]);
}

#[test]
fn ok_reply_is_recognised() {
    assert!(is_ok_reply(&Message::Simple("OK")));
    assert!(!is_ok_reply(&Message::Simple("OKAY")));
    assert!(!is_ok_reply(&Message::Simple("ok")));
    assert!(!is_ok_reply(&Message::Error("OK", "")));
    assert!(!is_ok_reply(&Message::Bytes(b"OK")));
}

#[test]
fn connection_selects_its_database() {
    let log = Rc::new(RefCell::new(Vec::new()));
    let mut proto: RedisProto<Log> = RedisProto::create(12);
    assert!(proto.is_connecting());
    let mut out = Buf::new();
    proto.select_db(&mut out, port(&log, "select"));
    assert_eq!(&out[..], b"*2\r\n$6\r\nSELECT\r\n$2\r\n12\r\n");
    assert!(!proto.is_connecting());
    assert_eq!(proto.pending(), 1);
    assert_eq!(proto.wakeup(None), Next::ExpectBytes(1));
    assert_eq!(proto.wakeup(Some(true)), Next::ExpectBytes(1));
    assert_eq!(proto.wakeup(Some(false)), Next::ExpectBytes(1));
}

#[test]
fn refused_database_closes() {
    let log = Rc::new(RefCell::new(Vec::new()));
    let mut proto: RedisProto<Log> = RedisProto::create(0);
    let mut out = Buf::new();
    proto.select_db(&mut out, port(&log, "select"));
    assert_eq!(&out[..], b"*2\r\n$6\r\nSELECT\r\n$1\r\n0\r\n");
    assert_eq!(proto.wakeup(Some(false)), Next::Close);
}

#[test]
fn reading_replies() {
    let log = Rc::new(RefCell::new(Vec::new()));
    let mut proto: RedisProto<Log> = RedisProto::create(0);
    let mut out = Buf::new();
    proto.select_db(&mut out, port(&log, "select"));
    proto.send(&mut out, ("GET", "k"), port(&log, "get"));
    assert_eq!(&out[..],
        &b"*2\r\n$6\r\nSELECT\r\n$1\r\n0\r\n*2\r\n$3\r\nGET\r\n$1\r\nk\r\n"[..]);
    assert_eq!(proto.pending(), 2);

    let (step, delivery) = proto.bytes_read(b"+O", 100);
    assert_eq!(step, ReadStep { consumed: 0, next: Next::ExpectDelimiterAfter(1) });
    assert!(delivery.is_none());

    let (step, delivery) = proto.bytes_read(b"+OK\r\n:5", 100);
    assert_eq!(step, ReadStep { consumed: 5, next: Next::ExpectBytes(1) });
    delivery.expect("a reply").deliver();
    assert_eq!(*log.borrow(), vec!["select: Simple(\"OK\")"]);
    assert_eq!(proto.pending(), 1);

    let (step, delivery) = proto.bytes_read(b"$4\r\nab", 100);
    assert_eq!(step, ReadStep { consumed: 0, next: Next::ExpectBytes(10) });
    assert!(delivery.is_none());

    let (step, delivery) = proto.bytes_read(b"$2\r\nab\r\n", 100);
    assert_eq!(step, ReadStep { consumed: 8, next: Next::ExpectBytes(1) });
    let delivery = delivery.expect("a reply");
    assert_eq!(delivery.reply, Message::Bytes(b"ab"));
    delivery.deliver();
    assert_eq!(*log.borrow(), vec!["select: Simple(\"OK\")", "get: Bytes([97, 98])"]);
    assert_eq!(proto.pending(), 0);

    let (step, _) = proto.bytes_read(b":x\r\n", 100);
    assert_eq!(step, ReadStep { consumed: 0, next: Next::Close });
    let (step, _) = proto.bytes_read(b"", 100);
    assert_eq!(step, ReadStep { consumed: 0, next: Next::ExpectBytes(1) });
}

#[test]
fn replies_beyond_the_limit_close() {
    let log = Rc::new(RefCell::new(Vec::new()));
    let mut proto: RedisProto<Log> = RedisProto::create(0);
    let mut out = Buf::new();
    proto.send(&mut out, ("GET", "k"), port(&log, "get"));
    let (step, delivery) = proto.bytes_read(b"$100\r\nab", 50);
    assert_eq!(step, ReadStep { consumed: 0, next: Next::Close });
    assert!(delivery.is_none());
    let (step, delivery) = proto.bytes_read(b"$4\r\nabcd\r\n", 9);
    assert_eq!(step, ReadStep { consumed: 0, next: Next::Close });
    assert!(delivery.is_none());
    let (step, _) = proto.bytes_read(b"+long line without end", 10);
    assert_eq!(step, ReadStep { consumed: 0, next: Next::Close });
    let (step, delivery) = proto.bytes_read(b"$4\r\nabcd\r\n", 10);
    assert_eq!(step, ReadStep { consumed: 10, next: Next::ExpectBytes(1) });
    assert!(delivery.is_some());
    assert_eq!(proto.pending(), 0);
    assert!(log.borrow().is_empty());
}

#[test]
fn encoded_lengths_and_room() {
    assert_eq!("test".encoded_len(), Some(10));
    assert_eq!(RedisIter(&["k1", "k2"][..]).encoded_len(), Some(16));
    let command = ("BLPOP", RedisIter(&["k1", "k2", "k3"][..]), "128");
    assert_eq!(command.encoded_len(), Some(48));
    let mut buf = new_buffer();
    assert_eq!(buf.len(), 0);
    assert!(has_room(&buf, 48));
    command.write_into(&mut buf);
    assert_eq!(buf.len(), 48);
    assert!(has_room(&buf, BUF_LIMIT - 48));
    assert!(!has_room(&buf, BUF_LIMIT - 47));
}

struct Defaults;

impl Context for Defaults {}

#[test]
fn context_defaults() {
    assert_eq!(Defaults.connect_timeout(), Duration::from_secs(2));
    assert_eq!(Defaults.max_redis_message(), 10_485_760);
}
