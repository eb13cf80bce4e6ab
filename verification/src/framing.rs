//! Reassembly of newline-delimited lines from raw byte chunks.
//!
//! The byte machine below is the specification: one byte at a time, a
//! carriage return or NUL is dropped, a line feed completes the accumulated
//! line, and any other byte extends it. `LineReassembler` is the verified
//! executable form, stateful so that a partial line carries across chunks.

use vstd::prelude::*;

use crate::CR;
use crate::NL;
use crate::NUL;

verus! {

/// Lines completed when one byte is processed while `pending` is accumulated.
pub open spec fn step_emits(pending: Seq<u8>, b: u8) -> Seq<Seq<u8>> {
    if b == NL {
        seq![pending]
    } else {
        Seq::empty()
    }
}

/// The accumulated partial line after one byte is processed.
pub open spec fn step_pending(pending: Seq<u8>, b: u8) -> Seq<u8> {
    if b == NUL || b == CR {
        pending
    } else if b == NL {
        Seq::empty()
    } else {
        pending.push(b)
    }
}

/// All lines completed when `input` is processed starting from `pending`.
pub open spec fn run_emits(pending: Seq<u8>, input: Seq<u8>) -> Seq<Seq<u8>>
    decreases input.len(),
{
    if input.len() == 0 {
        Seq::empty()
    } else {
        step_emits(pending, input[0]) + run_emits(step_pending(pending, input[0]), input.skip(1))
    }
}

/// The accumulated partial line after `input` is processed starting from `pending`.
pub open spec fn run_pending(pending: Seq<u8>, input: Seq<u8>) -> Seq<u8>
    decreases input.len(),
{
    if input.len() == 0 {
        pending
    } else {
        run_pending(step_pending(pending, input[0]), input.skip(1))
    }
}

/// `input` with every carriage return and NUL removed.
pub open spec fn strip_crnul(s: Seq<u8>) -> Seq<u8>
    decreases s.len(),
{
    if s.len() == 0 {
        Seq::empty()
    } else if s.last() == CR || s.last() == NUL {
        strip_crnul(s.drop_last())
    } else {
        strip_crnul(s.drop_last()).push(s.last())
    }
}

/// The segment of `s` after its last line feed: the partial line that no
/// line feed has completed yet.
pub open spec fn trailing_partial(s: Seq<u8>) -> Seq<u8>
    decreases s.len(),
{
    if s.len() == 0 {
        Seq::empty()
    } else if s.last() == NL {
        Seq::empty()
    } else {
        trailing_partial(s.drop_last()).push(s.last())
    }
}

/// `s` split on line feeds: one entry per line feed, holding the bytes
/// since the previous line feed; the trailing partial segment is dropped.
pub open spec fn complete_lines(s: Seq<u8>) -> Seq<Seq<u8>>
    decreases s.len(),
{
    if s.len() == 0 {
        Seq::empty()
    } else if s.last() == NL {
        complete_lines(s.drop_last()).push(trailing_partial(s.drop_last()))
    } else {
        complete_lines(s.drop_last())
    }
}

/// `lines` with `p` prepended to its first entry, if it has one.
pub open spec fn prepend_to_first(p: Seq<u8>, lines: Seq<Seq<u8>>) -> Seq<Seq<u8>> {
    if lines.len() > 0 {
        seq![p + lines[0]] + lines.skip(1)
    } else {
        Seq::empty()
    }
}

/// A byte sequence free of line feeds, carriage returns and NULs.
pub open spec fn clean(s: Seq<u8>) -> bool {
    forall|i: int| 0 <= i < s.len() ==> s[i] != NL && s[i] != CR && s[i] != NUL
}

/// The views of a vector of byte vectors, line by line.
pub open spec fn views_of(lines: Seq<Vec<u8>>) -> Seq<Seq<u8>> {
    lines.map_values(|l: Vec<u8>| l@)
}

/// Turns raw byte chunks into whole lines, exactly as the byte machine
/// (`run_emits`, `run_pending`) describes.
pub struct LineReassembler {
    pending: Vec<u8>,
}

impl LineReassembler {
    /// The accumulated partial line.
    pub closed spec fn pending_line(self) -> Seq<u8> {
        self.pending@
    }

    /// The accumulated partial line never holds a line feed, carriage
    /// return or NUL.
    pub open spec fn wf(self) -> bool {
        clean(self.pending_line())
    }

    pub fn new() -> (r: Self)
        ensures
            r.pending_line() == Seq::<u8>::empty(),
            r.wf(),
    {
        LineReassembler { pending: Vec::new() }
    }

    /// Feed one chunk of raw bytes; the lines completed by it are returned
    /// in the order their line feeds were seen.
    pub fn feed(&mut self, chunk: &[u8]) -> (lines: Vec<Vec<u8>>)
        ensures
            views_of(lines@) == run_emits(old(self).pending_line(), chunk@),
            final(self).pending_line() == run_pending(old(self).pending_line(), chunk@),
            old(self).wf() ==> final(self).wf(),
    {
        let mut lines: Vec<Vec<u8>> = Vec::new();
        let mut i: usize = 0;
        proof {
            assert(chunk@.skip(0) =~= chunk@);
            assert(views_of(lines@) =~= Seq::<Seq<u8>>::empty());
            assert(views_of(lines@) + run_emits(self.pending@, chunk@)
                =~= run_emits(self.pending@, chunk@));
        }
        while i < chunk.len()
            invariant
                i <= chunk.len(),
                views_of(lines@) + run_emits(self.pending@, chunk@.skip(i as int))
                    == run_emits(old(self).pending@, chunk@),
                run_pending(self.pending@, chunk@.skip(i as int))
                    == run_pending(old(self).pending@, chunk@),
                clean(old(self).pending@) ==> clean(self.pending@),
            decreases chunk.len() - i,
        {
            let ghost pre_lines = views_of(lines@);
            let ghost pre_pending = self.pending@;
            let ghost rest = chunk@.skip(i as int);
            let b = chunk[i];
            proof {
                assert(rest[0] == chunk@[i as int]);
                assert(rest.skip(1) =~= chunk@.skip(i as int + 1));
            }
            if b == NUL || b == CR {
                proof {
                    assert(step_pending(pre_pending, b) == pre_pending);
                    assert(step_emits(pre_pending, b) + run_emits(pre_pending, rest.skip(1))
                        =~= run_emits(pre_pending, rest.skip(1)));
                }
            } else if b == NL {
                let mut done: Vec<u8> = Vec::new();
                core::mem::swap(&mut done, &mut self.pending);
                lines.push(done);
                proof {
                    assert(views_of(lines@) =~= pre_lines.push(pre_pending));
                    assert(pre_lines.push(pre_pending)
                        + run_emits(Seq::<u8>::empty(), rest.skip(1))
                        =~= pre_lines
                        + (step_emits(pre_pending, b)
                            + run_emits(Seq::<u8>::empty(), rest.skip(1))));
                }
            } else {
                self.pending.push(b);
                proof {
                    assert(step_emits(pre_pending, b) + run_emits(pre_pending.push(b), rest.skip(1))
                        =~= run_emits(pre_pending.push(b), rest.skip(1)));
                }
            }
            i = i + 1;
        }
        proof {
            assert(chunk@.skip(chunk@.len() as int) =~= Seq::<u8>::empty());
            assert(views_of(lines@) + run_emits(self.pending@, Seq::<u8>::empty())
                =~= views_of(lines@));
        }
        lines
    }
}

/// Feeding `a` and then `b` emits the same lines, and leaves the same
/// partial line, as feeding `a + b` in one piece.
pub proof fn lemma_run_append(p: Seq<u8>, a: Seq<u8>, b: Seq<u8>)
    ensures
        run_emits(p, a + b) == run_emits(p, a) + run_emits(run_pending(p, a), b),
        run_pending(p, a + b) == run_pending(run_pending(p, a), b),
    decreases a.len(),
{
    if a.len() == 0 {
        assert(a + b =~= b);
        assert(run_emits(p, a) + run_emits(run_pending(p, a), b) =~= run_emits(p, b));
    } else {
        let p1 = step_pending(p, a[0]);
        assert((a + b)[0] == a[0]);
        assert((a + b).skip(1) =~= a.skip(1) + b);
        lemma_run_append(p1, a.skip(1), b);
        assert(run_emits(p, a + b) =~= run_emits(p, a) + run_emits(run_pending(p, a), b));
    }
}

/// The byte machine computes exactly the strip-then-split description:
/// its emitted lines are `complete_lines(strip_crnul(s))`, with the
/// carried-in partial line `p` prepended to the first of them, and its
/// new partial line is the trailing segment after the last line feed.
pub proof fn lemma_machine_is_split(p: Seq<u8>, s: Seq<u8>)
    ensures
        run_emits(p, s) == prepend_to_first(p, complete_lines(strip_crnul(s))),
        run_pending(p, s) == if complete_lines(strip_crnul(s)).len() > 0 {
            trailing_partial(strip_crnul(s))
        } else {
            p + trailing_partial(strip_crnul(s))
        },
    decreases s.len(),
{
    if s.len() == 0 {
        assert(strip_crnul(s).len() == 0);
        assert(p + trailing_partial(strip_crnul(s)) =~= p);
    } else {
        let s0 = s.drop_last();
        let b = s.last();
        lemma_machine_is_split(p, s0);
        lemma_run_append(p, s0, seq![b]);
        assert(s0 + seq![b] =~= s);
        let rp0 = run_pending(p, s0);
        assert(seq![b].skip(1) =~= Seq::<u8>::empty());
        assert(run_emits(rp0, seq![b]) == step_emits(rp0, b) + run_emits(
            step_pending(rp0, b),
            Seq::<u8>::empty(),
        ));
        assert(seq![b][0] == b);
        assert(run_pending(rp0, seq![b]) == run_pending(step_pending(rp0, b), seq![b].skip(1)));
        assert(run_pending(rp0, seq![b]) == step_pending(rp0, b));
        assert(run_pending(p, s) == step_pending(rp0, b));
        let st0 = strip_crnul(s0);
        let cl0 = complete_lines(st0);
        let tr0 = trailing_partial(st0);
        if b == CR || b == NUL {
            assert(strip_crnul(s) == st0);
            assert(run_emits(p, s) =~= run_emits(p, s0));
            assert(run_pending(p, s) == rp0);
        } else {
            assert(strip_crnul(s) == st0.push(b));
            assert(st0.push(b).last() == b);
            assert(st0.push(b).drop_last() =~= st0);
            if b == NL {
                assert(complete_lines(strip_crnul(s)) == cl0.push(tr0));
                assert(trailing_partial(strip_crnul(s)) =~= Seq::<u8>::empty());
                assert(run_emits(p, s) =~= run_emits(p, s0) + seq![rp0]);
                if cl0.len() > 0 {
                    assert(run_emits(p, s0) == seq![p + cl0[0]] + cl0.skip(1));
                    assert(rp0 == tr0);
                    assert(cl0.push(tr0)[0] == cl0[0]);
                    assert(cl0.push(tr0).skip(1) =~= cl0.skip(1).push(tr0));
                    assert((seq![p + cl0[0]] + cl0.skip(1)) + seq![tr0] =~= seq![p + cl0.push(
                        tr0,
                    )[0]] + cl0.push(tr0).skip(1));
                } else {
                    assert(cl0 =~= Seq::<Seq<u8>>::empty());
                    assert(run_emits(p, s0) =~= Seq::<Seq<u8>>::empty());
                    assert(rp0 == p + tr0);
                    assert(cl0.push(tr0)[0] == tr0);
                    assert(run_emits(p, s) =~= seq![p + tr0]);
                    assert(seq![p + cl0.push(tr0)[0]] + cl0.push(tr0).skip(1) =~= seq![p + tr0]);
                }
                assert(run_pending(p, s) == Seq::<u8>::empty());
            } else {
                assert(complete_lines(strip_crnul(s)) == cl0);
                assert(trailing_partial(strip_crnul(s)) == tr0.push(b));
                assert(run_emits(p, s) =~= run_emits(p, s0));
                assert(run_pending(p, s) == rp0.push(b));
                if cl0.len() == 0 {
                    assert(rp0 == p + tr0);
                    assert((p + tr0).push(b) =~= p + tr0.push(b));
                }
            }
        }
    }
}

/// All raw bytes of the chunk sequence, in order.
pub open spec fn concat_chunks(chunks: Seq<Seq<u8>>) -> Seq<u8>
    decreases chunks.len(),
{
    if chunks.len() == 0 {
        Seq::empty()
    } else {
        concat_chunks(chunks.drop_last()) + chunks.last()
    }
}

/// All lines emitted when the chunks are fed one after the other.
pub open spec fn chunked_emits(pending: Seq<u8>, chunks: Seq<Seq<u8>>) -> Seq<Seq<u8>>
    decreases chunks.len(),
{
    if chunks.len() == 0 {
        Seq::empty()
    } else {
        chunked_emits(pending, chunks.drop_last()) + run_emits(
            chunked_pending(pending, chunks.drop_last()),
            chunks.last(),
        )
    }
}

/// The partial line left after the chunks are fed one after the other.
pub open spec fn chunked_pending(pending: Seq<u8>, chunks: Seq<Seq<u8>>) -> Seq<u8>
    decreases chunks.len(),
{
    if chunks.len() == 0 {
        pending
    } else {
        run_pending(chunked_pending(pending, chunks.drop_last()), chunks.last())
    }
}

/// Feeding the chunks one after the other equals feeding all their bytes
/// in one piece: chunk boundaries are immaterial.
pub proof fn lemma_chunking_immaterial(pending: Seq<u8>, chunks: Seq<Seq<u8>>)
    ensures
        chunked_emits(pending, chunks) == run_emits(pending, concat_chunks(chunks)),
        chunked_pending(pending, chunks) == run_pending(pending, concat_chunks(chunks)),
    decreases chunks.len(),
{
    if chunks.len() == 0 {
    } else {
        lemma_chunking_immaterial(pending, chunks.drop_last());
        lemma_run_append(pending, concat_chunks(chunks.drop_last()), chunks.last());
    }
}

/// Line framing: however the byte stream is cut into chunks, the emitted
/// lines are exactly those obtained by removing every carriage return and
/// NUL and then splitting on line feeds, and the partial line left behind
/// is the trailing segment that no line feed has completed.
#[verifier::rlimit(50)]
pub proof fn lemma_line_framing(chunks: Seq<Seq<u8>>)
    ensures
        chunked_emits(Seq::<u8>::empty(), chunks) == complete_lines(
            strip_crnul(concat_chunks(chunks)),
        ),
        chunked_pending(Seq::<u8>::empty(), chunks) == trailing_partial(
            strip_crnul(concat_chunks(chunks)),
        ),
{
    lemma_chunking_immaterial(Seq::<u8>::empty(), chunks);
    lemma_machine_is_split(Seq::<u8>::empty(), concat_chunks(chunks));
    let cl = complete_lines(strip_crnul(concat_chunks(chunks)));
    let tr = trailing_partial(strip_crnul(concat_chunks(chunks)));
    if cl.len() > 0 {
        assert(seq![Seq::<u8>::empty() + cl[0]] + cl.skip(1) =~= cl);
    } else {
        assert(cl =~= Seq::<Seq<u8>>::empty());
        assert(Seq::<u8>::empty() + tr =~= tr);
    }
}

} // verus!
