//! The log tailer: owns the read offset into a growing log source, detects
//! appended or truncated content on each poll, splits what was appended into
//! complete lines, and feeds them to the trade store in order.
//!
//! When a poll observes a size no larger than the recorded offset, the
//! content was truncated or unchanged: the offset is reset to the observed
//! size and nothing is emitted — data written between a truncation and the
//! next poll is deliberately dropped, a documented liveness trade-off.
use crate::model::{
    lemma_extended_refl, lemma_extended_trans, records_extended, Model,
};
use crate::text::{chars_vec, find_from, find_sub, lemma_find_from_props, match_at};
use vstd::prelude::*;

verus! {

/// Why the source could not be read.
#[derive(Clone, Copy, Debug, PartialEq, Eq, Structural)]
pub enum TailError {
    /// The source could not be opened at all.
    SourceUnavailable,
    /// A size query or read failed after the source had been opened.
    IoFailure,
}

/// A source that can report how many bytes it holds.
pub trait Len {
    /// The current total size of the source, in bytes.
    fn len(&self) -> Result<u64, TailError>;
}

/// A log source the tailer can follow: it reports its size, can be
/// positioned at its end, and hands out everything after the position that
/// was last read. Implementations live outside the library (a file, an
/// in-memory buffer); nothing is assumed of their answers.
pub trait FileLineReaderSource: Len {
    /// Moves the read position to the current end of the source.
    fn seek_to_end(&mut self) -> Result<u64, TailError>;

    /// Reads everything between the current read position and the end of
    /// the source, advancing the position to the end.
    fn read_rest(&mut self) -> Result<String, TailError>;
}

// ---------------------------------------------------------------------------
// The poll decision.
// ---------------------------------------------------------------------------

/// Whether a poll that observes `observed` bytes, with `offset` recorded,
/// reads new content (it does only when the source has grown).
pub open spec fn poll_reads(offset: u64, observed: u64) -> bool {
    observed > offset
}

/// One poll decision: the new recorded offset is always the observed size;
/// content is read only when the source has grown past the old offset.
pub fn poll_step(offset: u64, observed: u64) -> (r: (u64, bool))
    ensures
        r.0 == observed,
        r.1 == poll_reads(offset, observed),
{
    (observed, observed > offset)
}

/// The recorded offset after a sequence of polls observing `sizes`: each
/// poll records what it observed, whether or not it read.
pub open spec fn offset_after_polls(start: u64, sizes: Seq<u64>) -> u64
    decreases sizes.len(),
{
    if sizes.len() == 0 {
        start
    } else {
        offset_after_polls(sizes[0], sizes.drop_first())
    }
}

proof fn lemma_offset_after_is_last(start: u64, sizes: Seq<u64>)
    requires
        sizes.len() > 0,
    ensures
        offset_after_polls(start, sizes) == sizes.last(),
    decreases sizes.len(),
{
    if sizes.len() > 1 {
        lemma_offset_after_is_last(sizes[0], sizes.drop_first());
        assert(sizes.drop_first().last() == sizes.last());
    } else {
        assert(sizes.drop_first().len() == 0);
        assert(offset_after_polls(start, sizes) == offset_after_polls(
            sizes[0],
            sizes.drop_first(),
        ));
        assert(offset_after_polls(sizes[0], sizes.drop_first()) == sizes[0]);
    }
}

/// Idempotence of truncation handling: in any sequence of polls in which
/// the observed size never exceeds the offset recorded at that moment, no
/// poll reads anything, and after each poll the recorded offset equals the
/// size that poll observed.
pub proof fn lemma_truncation_idempotent(start: u64, sizes: Seq<u64>)
    requires
        forall|i: int|
            0 <= i < sizes.len() ==> #[trigger] sizes[i] <= offset_after_polls(
                start,
                sizes.take(i),
            ),
    ensures
        forall|i: int|
            0 <= i < sizes.len() ==> !poll_reads(
                offset_after_polls(start, sizes.take(i)),
                #[trigger] sizes[i],
            ),
        forall|i: int|
            0 <= i < sizes.len() ==> offset_after_polls(start, sizes.take(i + 1)) == #[trigger]
                sizes[i],
{
    assert forall|i: int| 0 <= i < sizes.len() implies offset_after_polls(
        start,
        sizes.take(i + 1),
    ) == #[trigger] sizes[i] by {
        lemma_offset_after_is_last(start, sizes.take(i + 1));
        assert(sizes.take(i + 1).last() == sizes[i]);
    }
}

// ---------------------------------------------------------------------------
// Line splitting.
// ---------------------------------------------------------------------------

/// A line with one trailing carriage return removed, so that `\r\n` line
/// endings are treated like bare `\n` ones.
pub open spec fn strip_cr(l: Seq<char>) -> Seq<char> {
    if l.len() > 0 && l.last() == '\r' {
        l.drop_last()
    } else {
        l
    }
}

/// The complete lines of `s`: pieces split at each line feed, each piece
/// stripped of one trailing carriage return. A trailing piece without a
/// terminator is emitted as it stands; a final line feed adds no empty
/// line.
pub open spec fn lines_of(s: Seq<char>) -> Seq<Seq<char>>
    decreases s.len(),
    via lines_of_dec
{
    if s.len() == 0 {
        Seq::empty()
    } else {
        match find_from(s, seq!['\n'], 0) {
            None => seq![s],
            Some(k) => seq![strip_cr(s.subrange(0, k))] + lines_of(
                s.subrange(k + 1, s.len() as int),
            ),
        }
    }
}

#[via_fn]
proof fn lines_of_dec(s: Seq<char>) {
    if s.len() != 0 {
        lemma_find_from_props(s, seq!['\n'], 0);
    }
}

/// If the first line feed of the tail of `s` at `pos` sits at `k`, the
/// tail's own first-line-feed search finds `k - pos`.
proof fn lemma_first_nl(s: Seq<char>, pos: int, k: int)
    requires
        0 <= pos <= k < s.len(),
        s[k] == '\n',
        forall|m: int| pos <= m < k ==> s[m] != '\n',
    ensures
        find_from(s.subrange(pos, s.len() as int), seq!['\n'], 0) == Some(k - pos),
{
    let suffix = s.subrange(pos, s.len() as int);
    assert(suffix.subrange(k - pos, k - pos + 1) =~= seq!['\n']);
    assert(match_at(suffix, seq!['\n'], k - pos));
    lemma_find_from_props(suffix, seq!['\n'], 0);
    match find_from(suffix, seq!['\n'], 0) {
        Some(j) => {
            assert(suffix.subrange(j, j + 1) == seq!['\n']);
            assert(suffix.subrange(j, j + 1)[0] == suffix[j]);
            assert(suffix[j] == '\n');
            if j < k - pos {
                assert(s[pos + j] == '\n');
                assert(false);
            }
        },
        None => {
            assert(false);
        },
    }
}

/// If the tail of `s` at `pos` holds no line feed, the tail's own search
/// finds none either.
proof fn lemma_no_nl(s: Seq<char>, pos: int)
    requires
        0 <= pos <= s.len(),
        forall|m: int| pos <= m < s.len() ==> s[m] != '\n',
    ensures
        find_from(s.subrange(pos, s.len() as int), seq!['\n'], 0) is None,
{
    let suffix = s.subrange(pos, s.len() as int);
    lemma_find_from_props(suffix, seq!['\n'], 0);
    match find_from(suffix, seq!['\n'], 0) {
        Some(j) => {
            assert(suffix.subrange(j, j + 1) == seq!['\n']);
            assert(suffix.subrange(j, j + 1)[0] == suffix[j]);
            assert(s[pos + j] == '\n');
            assert(false);
        },
        None => {},
    }
}

/// Splits `s` into its complete lines.
pub fn split_lines(s: &str) -> (r: Vec<String>)
    ensures
        r@.map_values(|l: String| l@) == lines_of(s@),
{
    let cs = chars_vec(s);
    let mut nl: Vec<char> = Vec::new();
    nl.push('\n');
    assert(nl@ =~= seq!['\n']);
    let mut out: Vec<String> = Vec::new();
    let mut pos: usize = 0;
    proof {
        assert(s@.subrange(0, s@.len() as int) =~= s@);
        assert(out@.map_values(|l: String| l@) + lines_of(s@) =~= lines_of(s@));
    }
    loop
        invariant
            cs@ == s@,
            nl@ == seq!['\n'],
            pos <= cs.len(),
            lines_of(s@) == out@.map_values(|l: String| l@) + lines_of(
                s@.subrange(pos as int, s@.len() as int),
            ),
        ensures
            pos <= cs.len(),
            lines_of(s@.subrange(pos as int, s@.len() as int)) == Seq::<Seq<char>>::empty(),
            lines_of(s@) == out@.map_values(|l: String| l@) + lines_of(
                s@.subrange(pos as int, s@.len() as int),
            ),
        decreases cs.len() - pos,
    {
        let ghost suffix = s@.subrange(pos as int, s@.len() as int);
        if pos == cs.len() {
            assert(suffix =~= Seq::<char>::empty());
            break ;
        }
        match find_sub(&cs, &nl, pos) {
            None => {
                proof {
                    lemma_find_from_props(cs@, nl@, pos as int);
                    assert forall|m: int| pos <= m < s@.len() implies s@[m] != '\n' by {
                        if s@[m] == '\n' {
                            assert(s@.subrange(m, m + 1) =~= seq!['\n']);
                            assert(match_at(s@, nl@, m));
                        }
                    }
                    lemma_no_nl(s@, pos as int);
                }
                let piece = s.substring_char(pos, cs.len()).to_owned();
                proof {
                    assert(piece@ =~= suffix);
                    assert(lines_of(suffix) =~= seq![suffix]);
                }
                out.push(piece);
                pos = cs.len();
                proof {
                    let done = s@.subrange(pos as int, s@.len() as int);
                    assert(done =~= Seq::<char>::empty());
                    assert(out@.map_values(|l: String| l@) + lines_of(done) =~= lines_of(s@));
                }
                break ;
            },
            Some(k) => {
                proof {
                    lemma_find_from_props(cs@, nl@, pos as int);
                    assert(s@.subrange(k as int, k + 1)[0] == s@[k as int]);
                    assert(s@[k as int] == '\n');
                    assert forall|m: int| pos <= m < k implies s@[m] != '\n' by {
                        if s@[m] == '\n' {
                            assert(s@.subrange(m, m + 1) =~= seq!['\n']);
                            assert(match_at(s@, nl@, m));
                        }
                    }
                    lemma_first_nl(s@, pos as int, k as int);
                }
                let end = if k > pos && cs[k - 1] == '\r' {
                    k - 1
                } else {
                    k
                };
                let piece = s.substring_char(pos, end).to_owned();
                proof {
                    let raw = suffix.subrange(0, k - pos);
                    assert(raw =~= s@.subrange(pos as int, k as int));
                    assert(piece@ =~= strip_cr(raw));
                    assert(lines_of(suffix) == seq![strip_cr(raw)] + lines_of(
                        suffix.subrange(k - pos + 1, suffix.len() as int),
                    ));
                    assert(suffix.subrange(k - pos + 1, suffix.len() as int) =~= s@.subrange(
                        k + 1,
                        s@.len() as int,
                    ));
                }
                let ghost out0 = out@;
                out.push(piece);
                pos = k + 1;
                proof {
                    assert(out@.map_values(|l: String| l@) =~= out0.map_values(|l: String| l@)
                        + seq![piece@]);
                    assert(out@.map_values(|l: String| l@) + lines_of(
                        s@.subrange(pos as int, s@.len() as int),
                    ) =~= lines_of(s@));
                }
            },
        }
    }
    proof {
        assert(out@.map_values(|l: String| l@) =~= lines_of(s@));
    }
    out
}

// ---------------------------------------------------------------------------
// The tailer.
// ---------------------------------------------------------------------------

/// Tails one log source: remembers the offset up to which the source has
/// been consumed and turns each external change signal into one poll.
pub struct FileLineReader<F> {
    byte_count: u64,
    sock: F,
}

impl<F: FileLineReaderSource> FileLineReader<F> {
    /// The recorded tail offset: the size the source had when it was last
    /// polled (or opened).
    pub closed spec fn offset(self) -> u64 {
        self.byte_count
    }

    /// Wraps a source whose read position already sits at the end of its
    /// first `size` bytes, recording `size` as the tail offset: content
    /// before that offset is never emitted by any later poll.
    pub fn from_parts(fp: F, size: u64) -> (r: FileLineReader<F>)
        ensures
            r.offset() == size,
    {
        FileLineReader { byte_count: size, sock: fp }
    }

    /// Takes over a freshly opened source: positions it at its end and
    /// records the size the source reports as the initial offset, so that
    /// only content appended afterwards is ever emitted.
    pub fn new(mut fp: F) -> (r: Result<FileLineReader<F>, TailError>) {
        match fp.seek_to_end() {
            Ok(_) => {},
            Err(e) => {
                return Err(e);
            },
        }
        let size = match fp.len() {
            Ok(n) => n,
            Err(e) => {
                return Err(e);
            },
        };
        Ok(Self::from_parts(fp, size))
    }

    /// The offset up to which the source has been consumed.
    pub fn current_offset(&self) -> (r: u64)
        ensures
            r == self.offset(),
    {
        self.byte_count
    }

    /// One poll, driven by an external change signal.
    ///
    /// Reads the source's current size and records it as the new offset.
    /// If the source has not grown past the old offset (unchanged or
    /// truncated), nothing further happens. Otherwise everything after the
    /// last read position is read, split into lines, and each line is fed
    /// to the store in order, synchronously; a line the store rejects is
    /// skipped, never fatal to the poll.
    ///
    /// Whatever the source answers: existing records keep their identity,
    /// direction and fields (only `last_message` can change), notifications
    /// already sent stay as they were, and when the recorded offset did not
    /// grow the store is untouched.
    pub fn process_new_content(&mut self, model: &mut Model) -> (r: Result<(), TailError>)
        requires
            old(model).wf(),
        ensures
            final(model).wf(),
            r is Err ==> final(model)@ == old(model)@,
            final(self).offset() <= old(self).offset() ==> final(model)@ == old(model)@,
            records_extended(old(model)@.trades, final(model)@.trades),
            old(model)@.notified.is_prefix_of(final(model)@.notified),
            old(model)@.issued.is_prefix_of(final(model)@.issued),
    {
        proof {
            lemma_extended_refl(old(model)@.trades);
            assert(old(model)@.notified.take(old(model)@.notified.len() as int) =~= old(
                model,
            )@.notified);
            assert(old(model)@.issued.take(old(model)@.issued.len() as int) =~= old(
                model,
            )@.issued);
        }
        let new_size = match self.sock.len() {
            Ok(n) => n,
            Err(e) => {
                return Err(e);
            },
        };
        let ghost old_offset = self.byte_count;
        let (next, reads) = poll_step(self.byte_count, new_size);
        self.byte_count = next;
        if !reads {
            return Ok(());
        }
        let contents = match self.sock.read_rest() {
            Ok(c) => c,
            Err(e) => {
                return Err(e);
            },
        };
        let lines = split_lines(contents.as_str());
        let mut i: usize = 0;
        while i < lines.len()
            invariant
                model.wf(),
                records_extended(old(model)@.trades, model@.trades),
                old(model)@.notified.is_prefix_of(model@.notified),
                old(model)@.issued.is_prefix_of(model@.issued),
                i <= lines.len(),
            decreases lines.len() - i,
        {
            let ghost before = model@;
            let _ = model.try_add(lines[i].as_str());
            proof {
                lemma_extended_trans(old(model)@.trades, before.trades, model@.trades);
                assert(old(model)@.notified =~= model@.notified.take(
                    old(model)@.notified.len() as int,
                ));
                assert(old(model)@.issued =~= model@.issued.take(
                    old(model)@.issued.len() as int,
                ));
            }
            i += 1;
        }
        Ok(())
    }
}

} // verus!
