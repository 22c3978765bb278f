use supervisor::line::{take_byte, Fed, LineReader, LINE_MAX};

fn read(reader: &mut LineReader, chunks: &mut Vec<Option<Vec<u8>>>) -> Option<Vec<u8>> {
    loop {
        if let Some(l) = reader.take_line() {
            return Some(l);
        }
        match reader.feed(chunks.remove(0)) {
            Fed::More => {}
            Fed::Line(l) => return Some(l),
            Fed::End => return None,
        }
    }
}

fn chunk(s: &str) -> Option<Vec<u8>> {
    Some(s.as_bytes().to_vec())
}

#[test]
fn lines_are_cut_out_of_chunks() {
    let mut r = LineReader::new();
    let mut chunks = vec![chunk("ab"), chunk("c\r\nde\n"), chunk("f"), chunk("")];
    assert_eq!(read(&mut r, &mut chunks), Some(b"abc".to_vec()));
    assert_eq!(read(&mut r, &mut chunks), Some(b"de".to_vec()));
    assert_eq!(read(&mut r, &mut chunks), Some(b"f".to_vec()));
    let mut chunks = vec![chunk("")];
    assert_eq!(read(&mut r, &mut chunks), None);
}

#[test]
fn pipelined_lines_are_not_lost() {
    let mut r = LineReader::new();
    let mut chunks = vec![chunk("auth\nop\n")];
    assert_eq!(read(&mut r, &mut chunks), Some(b"auth".to_vec()));
    assert_eq!(read(&mut r, &mut chunks), Some(b"op".to_vec()));
    assert_eq!(chunks.len(), 0);
}

#[test]
fn the_cut_does_not_matter() {
    let stream = b"one\r\n\ntwo\nthree";
    for size in 1..=stream.len() {
        let mut r = LineReader::new();
        let mut chunks: Vec<Option<Vec<u8>>> = stream.chunks(size).map(|c| Some(c.to_vec())).collect();
        chunks.push(chunk(""));
        for want in ["one", "", "two", "three"] {
            assert_eq!(read(&mut r, &mut chunks), Some(want.as_bytes().to_vec()));
        }
    }
}

#[test]
fn a_failure_ends_the_reading() {
    let mut r = LineReader::new();
    let mut chunks = vec![chunk("half"), None];
    assert_eq!(read(&mut r, &mut chunks), None);
    assert_eq!(r.buf, b"half".to_vec());
}

#[test]
fn the_end_of_the_stream_ends_a_line() {
    let mut r = LineReader::new();
    let mut chunks = vec![chunk("op\r"), chunk("")];
    assert_eq!(read(&mut r, &mut chunks), Some(b"op".to_vec()));
    assert_eq!(r.buf.len(), 0);
    let mut chunks = vec![chunk("op"), chunk("")];
    assert_eq!(read(&mut r, &mut chunks), Some(b"op".to_vec()));
    let mut chunks = vec![chunk("")];
    assert_eq!(read(&mut r, &mut chunks), None);
}

#[test]
fn too_much_is_handed_out_as_a_line() {
    let mut r = LineReader::new();
    assert!(matches!(r.feed(Some(vec![b'x'; LINE_MAX])), Fed::More));
    match r.feed(chunk("y\nz")) {
        Fed::Line(l) => {
            assert_eq!(l.len(), 65536 + 3);
            assert_eq!(&l[65536..], b"y\nz");
        }
        _ => panic!("a line"),
    }
    assert_eq!(r.buf.len(), 0);
}

#[test]
fn a_return_alone_is_kept() {
    let mut r = LineReader::new();
    let mut chunks = vec![chunk("a\rb\r\r\n")];
    assert_eq!(read(&mut r, &mut chunks), Some(b"a\rb\r".to_vec()));
}

#[test]
fn bytes_make_a_line() {
    let mut line = Vec::new();
    assert!(!take_byte(&mut line, b'a'));
    assert!(!take_byte(&mut line, b'\r'));
    assert!(take_byte(&mut line, b'\n'));
    assert_eq!(line, b"a\r".to_vec());
}
