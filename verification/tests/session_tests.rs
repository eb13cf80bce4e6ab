use line_capture::Action;
use line_capture::LineReassembler;
use line_capture::LoggingSession;

struct Capture {
    reasm: LineReassembler,
    session: LoggingSession,
    current: Option<Vec<u8>>,
    closed: Vec<Vec<u8>>,
    actions: Vec<Action>,
}

fn capture(begin: &[u8], end: &[u8]) -> Capture {
    Capture {
        reasm: LineReassembler::new(),
        session: LoggingSession::new(begin.to_vec(), end.to_vec()),
        current: None,
        closed: Vec::new(),
        actions: Vec::new(),
    }
}

fn feed(c: &mut Capture, bytes: &[u8]) {
    for line in c.reasm.feed(bytes) {
        let a = c.session.on_line(&line);
        c.actions.push(a);
        match a {
            Action::Begin => {
                if let Some(f) = c.current.take() {
                    c.closed.push(f);
                }
                c.current = Some(Vec::new());
            }
            Action::End => {
                if let Some(f) = c.current.take() {
                    c.closed.push(f);
                }
            }
            Action::Append => {
                if let Some(f) = &mut c.current {
                    f.extend_from_slice(&line);
                    f.push(b'\n');
                }
            }
            Action::Ignore => {}
        }
    }
}

#[test]
fn one_session_captures_its_rows() {
    let mut c = capture(b"BEGIN", b"END");
    feed(&mut c, b"BEGIN\r\nrow1\r\nrow2\r\nEND\r\n");
    assert_eq!(c.closed, vec![b"row1\nrow2\n".to_vec()]);
    assert_eq!(c.current, None);
    assert_eq!(
        c.actions,
        vec![Action::Begin, Action::Append, Action::Append, Action::End]
    );
}

#[test]
fn rows_before_begin_go_nowhere() {
    let mut c = capture(b"BEGIN", b"END");
    feed(&mut c, b"row0\r\nBEGIN\r\nrow1\r\n");
    assert_eq!(c.closed, Vec::<Vec<u8>>::new());
    assert_eq!(c.current, Some(b"row1\n".to_vec()));
    assert_eq!(c.actions, vec![Action::Ignore, Action::Begin, Action::Append]);
}

#[test]
fn second_begin_starts_a_new_file() {
    let mut c = capture(b"BEGIN", b"END");
    feed(&mut c, b"BEGIN\r\na\r\nBEGIN\r\nb\r\nEND\r\n");
    assert_eq!(c.closed, vec![b"a\n".to_vec(), b"b\n".to_vec()]);
    assert_eq!(c.current, None);
}

#[test]
fn sentinel_with_extra_byte_is_content() {
    let mut c = capture(b"BEGIN", b"END");
    feed(&mut c, b"BEGIN\r\nBEGINX\r\nENDX\r\nEND\r\n");
    assert_eq!(c.closed, vec![b"BEGINX\nENDX\n".to_vec()]);
    assert_eq!(c.current, None);
}

#[test]
fn sentinel_with_extra_byte_outside_session_is_ignored() {
    let mut c = capture(b"BEGIN", b"END");
    feed(&mut c, b"BEGINX\r\nENDX\r\n");
    assert_eq!(c.actions, vec![Action::Ignore, Action::Ignore]);
    assert_eq!(c.closed, Vec::<Vec<u8>>::new());
    assert_eq!(c.current, None);
}

#[test]
fn end_outside_session_is_a_noop() {
    let mut c = capture(b"BEGIN", b"END");
    feed(&mut c, b"END\r\nrow\r\n");
    assert_eq!(c.actions, vec![Action::End, Action::Ignore]);
    assert_eq!(c.closed, Vec::<Vec<u8>>::new());
    assert_eq!(c.current, None);
}

#[test]
fn empty_rows_are_appended() {
    let mut c = capture(b"BEGIN", b"END");
    feed(&mut c, b"BEGIN\r\n\r\n\r\nEND\r\n");
    assert_eq!(c.closed, vec![b"\n\n".to_vec()]);
}

#[test]
fn session_survives_chunk_boundaries() {
    let stream: &[u8] = b"BEGIN\r\nrow1\r\nrow2\r\nEND\r\n";
    for size in 1..stream.len() {
        let mut c = capture(b"BEGIN", b"END");
        for chunk in stream.chunks(size) {
            feed(&mut c, chunk);
        }
        assert_eq!(c.closed, vec![b"row1\nrow2\n".to_vec()], "chunk size {}", size);
        assert_eq!(c.current, None);
    }
}

#[test]
fn bytes_eq_is_exact() {
    assert!(line_capture::bytes_eq(b"BEGIN", b"BEGIN"));
    assert!(!line_capture::bytes_eq(b"BEGIN", b"BEGINX"));
    assert!(!line_capture::bytes_eq(b"BEGINX", b"BEGIN"));
    assert!(!line_capture::bytes_eq(b"BEGIN", b"BEGIM"));
    assert!(line_capture::bytes_eq(b"", b""));
}
