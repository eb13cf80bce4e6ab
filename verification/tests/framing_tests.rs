use line_capture::LineReassembler;

fn feed_all(chunks: &[&[u8]]) -> Vec<Vec<u8>> {
    let mut r = LineReassembler::new();
    let mut lines: Vec<Vec<u8>> = Vec::new();
    for c in chunks {
        lines.extend(r.feed(c));
    }
    lines
}

#[test]
fn emits_lines_in_order() {
    let lines = feed_all(&[b"a\nbb\nccc\n"]);
    assert_eq!(lines, vec![b"a".to_vec(), b"bb".to_vec(), b"ccc".to_vec()]);
}

#[test]
fn strips_carriage_returns_and_nuls() {
    let lines = feed_all(&[b"a\0b\r\nc\r\r\n"]);
    assert_eq!(lines, vec![b"ab".to_vec(), b"c".to_vec()]);
}

#[test]
fn empty_lines_are_delivered() {
    let lines = feed_all(&[b"\n\nx\n"]);
    assert_eq!(lines, vec![b"".to_vec(), b"".to_vec(), b"x".to_vec()]);
}

#[test]
fn trailing_partial_is_carried_over() {
    let mut r = LineReassembler::new();
    assert_eq!(r.feed(b"par"), Vec::<Vec<u8>>::new());
    assert_eq!(r.feed(b"tial\nrest"), vec![b"partial".to_vec()]);
    assert_eq!(r.feed(b"\n"), vec![b"rest".to_vec()]);
}

#[test]
fn empty_chunk_is_a_noop() {
    let mut r = LineReassembler::new();
    assert_eq!(r.feed(b""), Vec::<Vec<u8>>::new());
    assert_eq!(r.feed(b"a"), Vec::<Vec<u8>>::new());
    assert_eq!(r.feed(b""), Vec::<Vec<u8>>::new());
    assert_eq!(r.feed(b"\n"), vec![b"a".to_vec()]);
}

#[test]
fn chunk_boundaries_are_immaterial() {
    let stream: &[u8] = b"first\r\nsec\0ond\npar\r\ntial tail";
    let whole = feed_all(&[stream]);
    for size in 1..stream.len() {
        let chunks: Vec<&[u8]> = stream.chunks(size).collect();
        assert_eq!(feed_all(&chunks), whole, "chunk size {}", size);
    }
    assert_eq!(
        whole,
        vec![b"first".to_vec(), b"second".to_vec(), b"par".to_vec()]
    );
}
