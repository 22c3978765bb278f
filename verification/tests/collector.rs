use supervisor::collector::{arrived, content_length, find, parse_number, Arrived};

#[test]
fn bytes_are_found() {
    assert_eq!(find(b"abcabc", b"bc"), Some(1));
    assert_eq!(find(b"aab", b"ab"), Some(1));
    assert_eq!(find(b"abc", b"x"), None);
    assert_eq!(find(b"ab", b"abc"), None);
    assert_eq!(find(b"abc", b"abc"), Some(0));
    assert_eq!(find(b"", b"a"), None);
}

#[test]
fn numbers() {
    assert_eq!(parse_number("0"), Some(0));
    assert_eq!(parse_number("+12"), Some(12));
    assert_eq!(parse_number("007"), Some(7));
    for bad in ["", "+", "-1", "1 ", "1.0", "x", "++1"] {
        assert_eq!(parse_number(bad), None);
    }
    assert_eq!(parse_number(&usize::MAX.to_string()), Some(usize::MAX));
    assert_eq!(parse_number(&format!("{}0", usize::MAX)), None);
    assert_eq!(parse_number("18446744073709551616"), None);
}

#[test]
fn lengths_are_announced() {
    assert_eq!(content_length("POST / HTTP/1.1\r\nCONTENT-length:  12 \r\nContent-Length: 9"), 12);
    assert_eq!(content_length("POST /\r\nContent-Length: many\r\nContent-Length: 9"), 0);
    assert_eq!(content_length("POST /\r\nX-Content-Length: 9"), 0);
    assert_eq!(content_length(""), 0);
}

#[test]
fn requests_arrive_in_parts() {
    let head = b"POST / HTTP/1.1\r\nContent-Length: 3\r\n".to_vec();
    assert!(matches!(arrived(&head), Arrived::Head));
    let mut part = head.clone();
    part.extend_from_slice(b"\r\nab");
    match arrived(&part) {
        Arrived::Body { body, whole } => assert_eq!((body, whole), (b"ab".to_vec(), false)),
        Arrived::Head => panic!("the head is there"),
    }
    part.extend_from_slice(b"cd");
    match arrived(&part) {
        Arrived::Body { body, whole } => assert_eq!((body, whole), (b"abc".to_vec(), true)),
        Arrived::Head => panic!("the head is there"),
    }
}

#[test]
fn heads_need_not_be_text() {
    let buf = b"\xff\xfe\r\ncontent-length: 1\r\n\r\nxy".to_vec();
    match arrived(&buf) {
        Arrived::Body { body, whole } => assert_eq!((body, whole), (b"x".to_vec(), true)),
        Arrived::Head => panic!("the head is there"),
    }
}
