use rotor_redis::message::Expectation::{More, Newline};
use rotor_redis::message::Message;
use rotor_redis::message::parse_supported;
use rotor_redis::message::Message::{Bytes, Error, Int, Simple};
use rotor_redis::message::ParseResult::{Done, Expect, InvalidData};

fn partial_compare(src: &[u8], tgt: Message) {
    assert_eq!(Message::parse(src), Done(tgt.clone(), src.len()));
    for end in 0..src.len() {
        match Message::parse(&src[..end]) {
            Done(value, bytes) => {
                panic!("premature parser exit for {:?} -> {:?} / {}",
                    String::from_utf8_lossy(&src[..end]), value, bytes);
            }
            Expect(_) => {},
            InvalidData => {
                panic!("Can't parse partial {:?}",
                    String::from_utf8_lossy(&src[..end]));
            }
        }
    }
    let garbage = b"$-1\r\n$:102\r\n*12\r\n$$$$";
    let mut vec = src.to_vec();
    vec.extend(garbage);
    assert_eq!(Message::parse(&vec), Done(tgt, src.len()));
}

#[test]
fn test_int() {
    partial_compare(b":1\r\n", Int(1));
}

#[test]
fn test_ok() {
    partial_compare(b"+OK\r\n", Simple("OK"));
    partial_compare(b"+\r\n", Simple(""));
}

#[test]
fn test_err() {
    partial_compare(b"-ERR err text\r\n", Error("ERR", "err text"));
    partial_compare(b"-ERR\r\n", Error("ERR", ""));
    partial_compare(b"-\r\n", Error("", ""));
}

#[test]
fn test_bytes() {
    partial_compare(b"$12\r\nHello World!\r\n",
                    Bytes(b"Hello World!"));
}

#[test]
fn test_bad_newline() {
    assert_eq!(Message::parse(b"$12\r\nHello World!--\r\n"),
               InvalidData);
}

#[test]
fn empty_input_asks_for_one_byte() {
    assert_eq!(Message::parse(b""), Expect(More(1)));
}

#[test]
fn unterminated_line_asks_for_newline() {
    assert_eq!(Message::parse(b"+OK"), Expect(Newline));
    assert_eq!(Message::parse(b":12\r"), Expect(Newline));
    assert_eq!(Message::parse(b"$5"), Expect(Newline));
}

#[test]
fn short_bulk_asks_for_its_whole_length() {
    assert_eq!(Message::parse(b"$3\r\nab"), Expect(More(9)));
    assert_eq!(Message::parse(b"$0\r\n"), Expect(More(6)));
}

#[test]
fn integer_edge_cases() {
    assert_eq!(Message::parse(b":-9223372036854775808\r\n"),
               Done(Int(i64::MIN), 23));
    assert_eq!(Message::parse(b":9223372036854775807\r\n"),
               Done(Int(i64::MAX), 22));
    assert_eq!(Message::parse(b":9223372036854775808\r\n"), InvalidData);
    assert_eq!(Message::parse(b":+5\r\n"), Done(Int(5), 5));
    assert_eq!(Message::parse(b":-0\r\n"), Done(Int(0), 5));
    assert_eq!(Message::parse(b":007\r\n"), Done(Int(7), 6));
    assert_eq!(Message::parse(b":-\r\n"), InvalidData);
    assert_eq!(Message::parse(b":\r\n"), InvalidData);
    assert_eq!(Message::parse(b": 1\r\n"), InvalidData);
    assert_eq!(Message::parse(b":1a\r\n"), InvalidData);
}

#[test]
fn invalid_utf8_text_is_rejected() {
    assert_eq!(Message::parse(b"+\xff\r\n"), InvalidData);
    assert_eq!(Message::parse(b"-ERR \xc3\r\n"), InvalidData);
}

#[test]
fn error_splits_at_first_space_only() {
    assert_eq!(Message::parse(b"-WRONGTYPE a b  c\r\n"),
               Done(Error("WRONGTYPE", "a b  c"), 19));
    assert_eq!(Message::parse(b"- x\r\n"), Done(Error("", "x"), 5));
    assert_eq!(Message::parse("-ERR caf\u{e9}\r\n".as_bytes()),
               Done(Error("ERR", "caf\u{e9}"), 12));
}

#[test]
fn bulk_length_edge_cases() {
    assert_eq!(Message::parse(b"$-1\r\n"), InvalidData);
    assert_eq!(Message::parse(b"$x\r\nab\r\n"), InvalidData);
    assert_eq!(Message::parse(b"$+2\r\nab\r\n"), Done(Bytes(b"ab"), 9));
    assert_eq!(Message::parse(b"$0\r\n\r\n"), Done(Bytes(b""), 6));
    assert_eq!(Message::parse(b"$2\r\n\r\n\r\n"), Done(Bytes(b"\r\n"), 8));
}

#[test]
fn clone_keeps_the_payloads() {
    let m = Message::Array(vec![Int(3), Simple("x"), Message::Null]);
    assert_eq!(m.clone(), m);
}

#[test]
fn supported_inputs() {
    assert!(parse_supported(b""));
    assert!(parse_supported(b":1\r\n"));
    assert!(parse_supported(b"+"));
    assert!(parse_supported(b"-x"));
    assert!(parse_supported(b"$5\r\nab"));
    assert!(parse_supported(b"$x\r\n"));
    assert!(!parse_supported(b"*2\r\n"));
    assert!(!parse_supported(b"?"));
    assert!(!parse_supported(b"$18446744073709551615\r\n"));
    assert!(parse_supported(b"$18446744073709551590\r\n"));
    assert!(!parse_supported(b"$18446744073709551591\r\n"));
}

#[test]
fn requests_for_more_exceed_the_input() {
    for src in [&b""[..], b"$1\r\n", b"$10\r\n0123", b"$2\r\nab\r"] {
        match Message::parse(src) {
            Expect(More(n)) => assert!(n > src.len()),
            other => panic!("unexpected {:?}", other),
        }
    }
}
