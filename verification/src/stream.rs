//! The streaming parse driver: a forward-only walk over a sequence of lines
//! that yields one [`Entry`] per parseable line and silently skips the rest,
//! so a corrupted or truncated prefix never hides the well-formed remainder.

use vstd::prelude::*;
use crate::entry::{spec_parse_line, Entry, EntryView};

verus! {

/// The entries owed for a sequence of raw lines, in order: one per line
/// that parses, none for a line that does not.
pub open spec fn entries_of(lines: Seq<Seq<char>>) -> Seq<EntryView>
    decreases lines.len(),
{
    if lines.len() == 0 {
        Seq::empty()
    } else {
        match spec_parse_line(lines[0]) {
            Ok(e) => seq![e] + entries_of(lines.drop_first()),
            Err(_) => entries_of(lines.drop_first()),
        }
    }
}

/// The views of a vector of lines.
pub open spec fn views_of(lines: Seq<String>) -> Seq<Seq<char>> {
    lines.map(|i: int, l: String| l@)
}

/// A line that does not parse contributes nothing to the stream.
///
/// In particular a stream holding one corrupted leading line followed by
/// well-formed lines yields exactly the entries of those lines, in order.
pub proof fn lemma_corrupted_line_skipped(bad: Seq<char>, rest: Seq<Seq<char>>)
    requires
        spec_parse_line(bad) is Err,
    ensures
        entries_of(seq![bad] + rest) == entries_of(rest),
{
    let all = seq![bad] + rest;
    assert(all[0] == bad);
    assert(all.drop_first() =~= rest);
}

/// A stream of lines that all parse yields exactly one entry per line,
/// in the original order.
pub proof fn lemma_all_lines_yield(lines: Seq<Seq<char>>)
    requires
        forall|i: int| 0 <= i < lines.len() ==> spec_parse_line(lines[i]) is Ok,
    ensures
        entries_of(lines).len() == lines.len(),
        forall|i: int|
            0 <= i < lines.len() ==> entries_of(lines)[i] == spec_parse_line(
                lines[i],
            )->Ok_0,
    decreases lines.len(),
{
    if lines.len() > 0 {
        let rest = lines.drop_first();
        assert(forall|i: int|
            0 <= i < rest.len() ==> rest[i] == lines[i + 1] && spec_parse_line(rest[i]) is Ok);
        lemma_all_lines_yield(rest);
    }
}

/// A lazy, forward-only source of parsed entries.
///
/// The lines are walked once, front to back; a line that fails to parse is
/// dropped and the walk moves on, so parse failures are never surfaced.
pub struct ParserIterator {
    lines: Vec<String>,
    idx: usize,
}

impl ParserIterator {
    /// The lines this stream was built over.
    pub closed spec fn lines_view(&self) -> Seq<Seq<char>> {
        views_of(self.lines@)
    }

    /// How many leading lines have been consumed.
    pub closed spec fn pos(&self) -> int {
        self.idx as int
    }

    /// A stream is well formed while its position stays inside the lines
    /// and every line is short enough for its characters to be indexed.
    pub open spec fn wf(&self) -> bool {
        0 <= self.pos() <= self.lines_view().len() && forall|i: int|
            0 <= i < self.lines_view().len() ==> self.lines_view()[i].len() < usize::MAX
    }

    /// The entries still to be yielded.
    pub open spec fn remaining_entries(&self) -> Seq<EntryView> {
        entries_of(self.lines_view().skip(self.pos()))
    }

    /// Build a stream over the given lines.
    pub fn new(lines: Vec<String>) -> (r: Self)
        requires
            forall|i: int| 0 <= i < lines@.len() ==> lines@[i]@.len() < usize::MAX,
        ensures
            r.wf(),
            r.remaining_entries() == entries_of(views_of(lines@)),
    {
        let r = ParserIterator { lines, idx: 0 };
        proof {
            assert(r.lines_view().skip(0) =~= r.lines_view());
        }
        r
    }

    /// Yield the next entry: the first remaining line that parses.  Returns
    /// `None` — and leaves the stream exhausted — when no remaining line
    /// parses.
    pub fn next(&mut self) -> (r: Option<Entry>)
        requires
            old(self).wf(),
        ensures
            final(self).wf(),
            r matches Some(e) ==> old(self).remaining_entries().len() > 0
                && e@ == old(self).remaining_entries()[0]
                && final(self).remaining_entries() == old(self).remaining_entries().drop_first(),
            r is None ==> old(self).remaining_entries().len() == 0
                && final(self).remaining_entries().len() == 0,
    {
        loop
            invariant
                self.wf(),
                self.lines_view() == old(self).lines_view(),
                old(self).pos() <= self.pos(),
                entries_of(self.lines_view().skip(self.pos()))
                    == old(self).remaining_entries(),
            decreases self.lines_view().len() - self.pos(),
        {
            if self.idx >= self.lines.len() {
                proof {
                    assert(self.lines_view().skip(self.pos()) =~= Seq::<Seq<char>>::empty());
                }
                return None;
            }
            let ghost rem = self.lines_view().skip(self.pos());
            proof {
                assert(rem.len() > 0);
                assert(rem[0] == self.lines_view()[self.pos()]);
                assert(rem.drop_first() =~= self.lines_view().skip(self.pos() + 1));
            }
            let line = &self.lines[self.idx];
            self.idx = self.idx + 1;
            match Entry::new(line.as_str()) {
                Ok(e) => {
                    return Some(e);
                },
                Err(_) => (),
            }
        }
    }
}

} // verus!
