//! The logging session: matches each completed line against the begin and
//! end sentinels and decides the file-lifecycle action to take.
//!
//! The session itself performs no I/O. Its caller interprets the returned
//! [`Action`]; the session carries a ghost [`FileModel`] that records what
//! those interpretations must have done to the files, so that the laws
//! about file content can be stated and proved here.

use vstd::prelude::*;

use crate::NL;

verus! {

/// The abstract state of the files a session has produced: the content of
/// the currently open file, if one is open, and the content of every file
/// already closed, in the order they were closed.
pub struct FileModel {
    pub current: Option<Seq<u8>>,
    pub closed: Seq<Seq<u8>>,
}

/// The state before any line was seen: no file open, none closed.
pub open spec fn empty_model() -> FileModel {
    FileModel { current: None, closed: Seq::empty() }
}

/// The closed files after the open one, if any, is closed as it stands.
pub open spec fn archive(m: FileModel) -> Seq<Seq<u8>> {
    if m.current is Some {
        m.closed.push(m.current->0)
    } else {
        m.closed
    }
}

/// One line's effect on the files. A begin sentinel closes any open file
/// and opens a fresh empty one; an end sentinel closes any open file; any
/// other line is appended, followed by one line feed, to the open file if
/// there is one, and is dropped otherwise.
pub open spec fn session_step(begin: Seq<u8>, end: Seq<u8>, m: FileModel, line: Seq<u8>) -> FileModel {
    if line == begin {
        FileModel { current: Some(Seq::empty()), closed: archive(m) }
    } else if line == end {
        FileModel { current: None, closed: archive(m) }
    } else if m.current is Some {
        FileModel { current: Some(m.current->0 + line.push(NL)), closed: m.closed }
    } else {
        m
    }
}

/// The effect of a whole run of lines, first line first.
pub open spec fn session_run(begin: Seq<u8>, end: Seq<u8>, m: FileModel, lines: Seq<Seq<u8>>) -> FileModel
    decreases lines.len(),
{
    if lines.len() == 0 {
        m
    } else {
        session_run(begin, end, session_step(begin, end, m, lines[0]), lines.skip(1))
    }
}

/// The rows written for `lines`: each line in order, each followed by
/// exactly one line feed.
pub open spec fn joined_rows(lines: Seq<Seq<u8>>) -> Seq<u8>
    decreases lines.len(),
{
    if lines.len() == 0 {
        Seq::empty()
    } else {
        lines[0].push(NL) + joined_rows(lines.skip(1))
    }
}

/// What the caller must do with a line: open a fresh file, close the open
/// file, append the line to the open file, or nothing.
#[derive(Clone, Copy, Debug, PartialEq, Eq, Structural)]
pub enum Action {
    Begin,
    End,
    Append,
    Ignore,
}

/// The session's decision for one line, by exact sentinel comparison, the
/// begin sentinel taking priority.
pub open spec fn decide(begin: Seq<u8>, end: Seq<u8>, logging: bool, line: Seq<u8>) -> Action {
    if line == begin {
        Action::Begin
    } else if line == end {
        Action::End
    } else if logging {
        Action::Append
    } else {
        Action::Ignore
    }
}

/// Exact byte-for-byte equality of two byte strings.
pub fn bytes_eq(a: &[u8], b: &[u8]) -> (r: bool)
    ensures
        r == (a@ == b@),
{
    if a.len() != b.len() {
        return false;
    }
    let mut i: usize = 0;
    while i < a.len()
        invariant
            i <= a.len(),
            a@.len() == b@.len(),
            forall|j: int| 0 <= j < i ==> a@[j] == b@[j],
        decreases a.len() - i,
    {
        if a[i] != b[i] {
            return false;
        }
        i = i + 1;
    }
    proof {
        assert(a@ =~= b@);
    }
    true
}

/// A session-aware logger: holds the two sentinels, whether a file is
/// currently open, and the ghost model of all file content so far.
pub struct LoggingSession {
    begin: Vec<u8>,
    end: Vec<u8>,
    logging: bool,
    model: Ghost<FileModel>,
}

impl LoggingSession {
    /// The begin sentinel, compared in full against each line.
    pub closed spec fn begin_sentinel(self) -> Seq<u8> {
        self.begin@
    }

    /// The end sentinel, compared in full against each line.
    pub closed spec fn end_sentinel(self) -> Seq<u8> {
        self.end@
    }

    /// Whether a file is currently open.
    pub closed spec fn is_logging(self) -> bool {
        self.logging
    }

    /// The abstract content of the open file and of every closed one.
    pub closed spec fn file_model(self) -> FileModel {
        self.model@
    }

    /// A file is open exactly while the model holds an open file.
    pub open spec fn wf(self) -> bool {
        self.is_logging() == (self.file_model().current is Some)
    }

    pub fn new(begin: Vec<u8>, end: Vec<u8>) -> (s: Self)
        ensures
            s.begin_sentinel() == begin@,
            s.end_sentinel() == end@,
            !s.is_logging(),
            s.file_model() == empty_model(),
            s.wf(),
    {
        LoggingSession { begin, end, logging: false, model: Ghost(empty_model()) }
    }

    /// Decide what to do with one completed line. The sentinels never
    /// change; the returned action is exactly `decide`, and the ghost
    /// file model advances by exactly `session_step`.
    pub fn on_line(&mut self, line: &[u8]) -> (a: Action)
        ensures
            final(self).begin_sentinel() == old(self).begin_sentinel(),
            final(self).end_sentinel() == old(self).end_sentinel(),
            a == decide(
                old(self).begin_sentinel(),
                old(self).end_sentinel(),
                old(self).is_logging(),
                line@,
            ),
            final(self).is_logging() == (a == Action::Begin || (a != Action::End
                && old(self).is_logging())),
            final(self).file_model() == session_step(
                old(self).begin_sentinel(),
                old(self).end_sentinel(),
                old(self).file_model(),
                line@,
            ),
            old(self).wf() ==> final(self).wf(),
    {
        let ghost m0 = self.model@;
        let a: Action;
        if bytes_eq(line, self.begin.as_slice()) {
            self.logging = true;
            a = Action::Begin;
        } else if bytes_eq(line, self.end.as_slice()) {
            self.logging = false;
            a = Action::End;
        } else if self.logging {
            a = Action::Append;
        } else {
            a = Action::Ignore;
        }
        self.model = Ghost(session_step(self.begin@, self.end@, m0, line@));
        a
    }
}

/// Outside a session a non-sentinel line changes nothing: no file is
/// open, none is opened, none is written.
pub proof fn lemma_noop_outside_session(begin: Seq<u8>, end: Seq<u8>, m: FileModel, line: Seq<u8>)
    requires
        m.current is None,
        line != begin,
        line != end,
    ensures
        session_step(begin, end, m, line) == m,
{
}

/// Session exclusivity: while a file is open, a run of non-sentinel lines
/// appends exactly those lines to it, in order, each followed by one line
/// feed — and leaves every closed file untouched.
pub proof fn lemma_session_exclusivity(
    begin: Seq<u8>,
    end: Seq<u8>,
    m: FileModel,
    lines: Seq<Seq<u8>>,
)
    requires
        m.current is Some,
        forall|i: int| 0 <= i < lines.len() ==> lines[i] != begin && lines[i] != end,
    ensures
        session_run(begin, end, m, lines).current == Some(m.current->0 + joined_rows(lines)),
        session_run(begin, end, m, lines).closed == m.closed,
    decreases lines.len(),
{
    if lines.len() == 0 {
        assert(m.current->0 + joined_rows(lines) =~= m.current->0);
    } else {
        let m1 = session_step(begin, end, m, lines[0]);
        assert(m1.current == Some(m.current->0 + lines[0].push(NL)));
        assert(forall|i: int| 0 <= i < lines.skip(1).len() ==> lines.skip(1)[i] == lines[i + 1]);
        lemma_session_exclusivity(begin, end, m1, lines.skip(1));
        assert((m.current->0 + lines[0].push(NL)) + joined_rows(lines.skip(1)) =~= m.current->0
            + joined_rows(lines));
    }
}

/// A whole session span: a begin sentinel followed by non-sentinel rows
/// leaves exactly those rows in the open file, whatever state went
/// before; everything earlier is archived untouched.
pub proof fn lemma_session_span(begin: Seq<u8>, end: Seq<u8>, m: FileModel, rows: Seq<Seq<u8>>)
    requires
        forall|i: int| 0 <= i < rows.len() ==> rows[i] != begin && rows[i] != end,
    ensures
        session_run(begin, end, m, seq![begin] + rows).current == Some(joined_rows(rows)),
        session_run(begin, end, m, seq![begin] + rows).closed == archive(m),
{
    let m1 = session_step(begin, end, m, begin);
    assert((seq![begin] + rows)[0] == begin);
    assert((seq![begin] + rows).skip(1) =~= rows);
    lemma_session_exclusivity(begin, end, m1, rows);
    assert(Seq::<u8>::empty() + joined_rows(rows) =~= joined_rows(rows));
}

/// An end sentinel closes the open file: its content is archived exactly
/// as it stands, and no file stays open.
pub proof fn lemma_end_closes(begin: Seq<u8>, end: Seq<u8>, m: FileModel)
    requires
        m.current is Some,
        end != begin,
    ensures
        session_step(begin, end, m, end).current is None,
        session_step(begin, end, m, end).closed == m.closed.push(m.current->0),
{
}

/// Re-entrant begin: a begin sentinel while a file is already open
/// archives that file as it stands and opens a fresh, empty one.
pub proof fn lemma_reentrant_begin(begin: Seq<u8>, end: Seq<u8>, m: FileModel)
    requires
        m.current is Some,
    ensures
        session_step(begin, end, m, begin) == (FileModel {
            current: Some(Seq::<u8>::empty()),
            closed: m.closed.push(m.current->0),
        }),
{
}

/// Once a file is archived it is never written again: any further lines,
/// sentinels included, only extend the list of closed files.
pub proof fn lemma_closed_files_stable(
    begin: Seq<u8>,
    end: Seq<u8>,
    m: FileModel,
    lines: Seq<Seq<u8>>,
)
    ensures
        session_run(begin, end, m, lines).closed.len() >= m.closed.len(),
        forall|i: int|
            0 <= i < m.closed.len() ==> session_run(begin, end, m, lines).closed[i]
                == m.closed[i],
    decreases lines.len(),
{
    if lines.len() == 0 {
    } else {
        let m1 = session_step(begin, end, m, lines[0]);
        assert(m1.closed.len() >= m.closed.len());
        assert(forall|i: int| 0 <= i < m.closed.len() ==> m1.closed[i] == m.closed[i]);
        lemma_closed_files_stable(begin, end, m1, lines.skip(1));
    }
}

/// Sentinel exact match: a line that extends a sentinel by one byte is
/// not that sentinel, and if it equals no sentinel at all it is treated
/// as ordinary content.
pub proof fn lemma_sentinel_extended_is_content(
    begin: Seq<u8>,
    end: Seq<u8>,
    logging: bool,
    c: u8,
)
    ensures
        begin.push(c) != begin,
        end.push(c) != end,
        begin.push(c) != end ==> decide(begin, end, logging, begin.push(c)) == (if logging {
            Action::Append
        } else {
            Action::Ignore
        }),
        end.push(c) != begin ==> decide(begin, end, logging, end.push(c)) == (if logging {
            Action::Append
        } else {
            Action::Ignore
        }),
{
    assert(begin.push(c).len() == begin.len() + 1);
    assert(end.push(c).len() == end.len() + 1);
}

} // verus!
