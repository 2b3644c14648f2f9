//! The stored form of a document: its rows joined by single line breaks.

use vstd::prelude::*;
use vstd::slice::slice_subrange;
use vstd::slice::slice_to_vec;

use crate::bytes::CARRIAGE_RETURN;
use crate::bytes::NEWLINE;
use crate::bytes::append_bytes;
use crate::highlight::HighlightType;
use crate::line::Line;
use crate::syntax::rows_of;
use crate::syntax::tags_of;

verus! {

/// The offset of the first line break of `s` at or after `pos`, or the
/// length of `s` where there is none.
pub open spec fn next_break(s: Seq<u8>, pos: int) -> int
    decreases s.len() - pos,
{
    if !(0 <= pos < s.len()) {
        s.len() as int
    } else if s[pos] == NEWLINE {
        pos
    } else {
        next_break(s, pos + 1)
    }
}

/// `row` without the carriage return at its end, if it has one.
pub open spec fn without_return(row: Seq<u8>) -> Seq<u8> {
    if row.len() > 0 && row.last() == CARRIAGE_RETURN {
        row.drop_last()
    } else {
        row
    }
}

/// The rows of the stored text `s`. Every line break ends a row, and so
/// does the end of the text unless a line break stands right before it; a
/// carriage return right before a line break belongs to the break. The
/// empty text has no rows.
pub open spec fn split_lines(s: Seq<u8>) -> Seq<Seq<u8>>
    decreases s.len(),
{
    let at = next_break(s, 0);
    if s.len() == 0 {
        Seq::empty()
    } else if at < 0 || at >= s.len() {
        seq![s]
    } else {
        seq![without_return(s.take(at))] + split_lines(s.skip(at + 1))
    }
}

/// The rows that a buffer holds after it has loaded the text `s`: the rows
/// of `s`, or one empty row where it has none.
pub open spec fn loaded_rows(s: Seq<u8>) -> Seq<Seq<u8>> {
    if split_lines(s).len() == 0 {
        seq![Seq::empty()]
    } else {
        split_lines(s)
    }
}

/// The stored text of `rows`: one line break between each two, none at the
/// end.
pub open spec fn join_lines(rows: Seq<Seq<u8>>) -> Seq<u8>
    decreases rows.len(),
{
    if rows.len() == 0 {
        Seq::empty()
    } else if rows.len() == 1 {
        rows[0]
    } else {
        join_lines(rows.drop_last()) + seq![NEWLINE] + rows.last()
    }
}

/// Whether `s` comes back unchanged when it is split into rows and the
/// rows are joined again: no line break has a carriage return right
/// before it, and `s` does not end in a line break.
pub open spec fn keeps_breaks(s: Seq<u8>) -> bool {
    &&& forall|k: int| 0 < k < s.len() && #[trigger] s[k] == NEWLINE ==> s[k - 1] != CARRIAGE_RETURN
    &&& s.len() > 0 ==> s.last() != NEWLINE
}

/// The first line break from `pos` on is at `at` when none stands before
/// `at` and one stands there, or `at` is the end.
pub proof fn lemma_next_break(s: Seq<u8>, pos: int, at: int)
    requires
        0 <= pos <= at <= s.len(),
        forall|k: int| pos <= k < at ==> s[k] != NEWLINE,
        at == s.len() || s[at] == NEWLINE,
    ensures
        next_break(s, pos) == at,
    decreases at - pos,
{
    if pos < at {
        lemma_next_break(s, pos + 1, at);
    }
}

/// The break that `next_break` finds is the first one.
pub proof fn lemma_next_break_first(s: Seq<u8>, pos: int)
    requires
        0 <= pos <= s.len(),
    ensures
        pos <= next_break(s, pos) <= s.len(),
        forall|k: int| pos <= k < next_break(s, pos) ==> s[k] != NEWLINE,
        next_break(s, pos) < s.len() ==> s[next_break(s, pos)] == NEWLINE,
    decreases s.len() - pos,
{
    if pos < s.len() && s[pos] != NEWLINE {
        lemma_next_break_first(s, pos + 1);
    }
}

/// Joining a row in front of others puts it and a line break before their
/// joined text.
pub proof fn lemma_join_front(first: Seq<u8>, rest: Seq<Seq<u8>>)
    requires
        rest.len() > 0,
    ensures
        join_lines(seq![first] + rest) == first + seq![NEWLINE] + join_lines(rest),
    decreases rest.len(),
{
    let all = seq![first] + rest;
    assert(all.last() == rest.last());
    if rest.len() == 1 {
        assert(all.drop_last() =~= seq![first]);
        assert(join_lines(all.drop_last()) == first);
    } else {
        assert(all.drop_last() =~= seq![first] + rest.drop_last());
        lemma_join_front(first, rest.drop_last());
        assert(join_lines(all) =~= first + seq![NEWLINE] + join_lines(rest));
    }
}

/// A non-empty text that keeps its breaks is the joined text of its rows.
pub proof fn lemma_join_split(s: Seq<u8>)
    requires
        s.len() > 0,
        keeps_breaks(s),
    ensures
        split_lines(s).len() > 0,
        join_lines(split_lines(s)) == s,
    decreases s.len(),
{
    let at = next_break(s, 0);
    lemma_next_break_first(s, 0);
    if at < s.len() {
        let head = s.take(at);
        let rest = s.skip(at + 1);
        assert(without_return(head) == head) by {
            if head.len() > 0 {
                assert(head.last() == s[at - 1]);
            }
        }
        assert(rest.len() > 0) by {
            if rest.len() == 0 {
                assert(s.last() == s[at]);
            }
        }
        assert(keeps_breaks(rest)) by {
            assert forall|k: int| 0 < k < rest.len() && #[trigger] rest[k] == NEWLINE implies rest[k - 1]
                != CARRIAGE_RETURN by {
                assert(rest[k] == s[at + 1 + k]);
                assert(rest[k - 1] == s[at + 1 + k - 1]);
            }
            assert(rest.last() == s.last());
        }
        lemma_join_split(rest);
        lemma_join_front(head, split_lines(rest));
        assert(head + seq![NEWLINE] + rest =~= s);
    }
}

/// Saving what was loaded gives the loaded text back, byte for byte, for
/// every text that keeps its breaks.
pub proof fn lemma_save_load_round_trip(s: Seq<u8>)
    requires
        keeps_breaks(s),
    ensures
        join_lines(loaded_rows(s)) == s,
{
    if s.len() > 0 {
        lemma_join_split(s);
    } else {
        assert(join_lines(loaded_rows(s)) =~= s);
    }
}

/// The rows of the stored text `bytes`, none of them tagged.
pub fn split_into_lines(bytes: &[u8]) -> (lines: Vec<Line>)
    ensures
        rows_of(lines@) == split_lines(bytes@),
        forall|k: int| 0 <= k < lines@.len() ==> (#[trigger] lines@[k]).tags().len() == 0,
{
    let n: usize = bytes.len();
    let mut lines: Vec<Line> = Vec::new();
    let mut start: usize = 0;
    let mut i: usize = 0;
    assert(bytes@.skip(0) =~= bytes@);
    assert(rows_of(lines@) + split_lines(bytes@) =~= split_lines(bytes@));
    while i < n
        invariant
            start <= i <= n,
            n == bytes@.len(),
            forall|k: int| start <= k < i ==> bytes@[k] != NEWLINE,
            rows_of(lines@) + split_lines(bytes@.skip(start as int)) == split_lines(bytes@),
            forall|k: int| 0 <= k < lines@.len() ==> (#[trigger] lines@[k]).tags().len() == 0,
        decreases n - i,
    {
        if bytes[i] == NEWLINE {
            let mut end: usize = i;
            if end > start && bytes[end - 1] == CARRIAGE_RETURN {
                end -= 1;
            }
            let line = Line::from_bytes(slice_to_vec(slice_subrange(bytes, start, end)));
            proof {
                let rest = bytes@.skip(start as int);
                lemma_next_break(rest, 0, i - start);
                assert(rest.take(i - start) =~= bytes@.subrange(start as int, i as int));
                assert(line@ =~= without_return(rest.take(i - start)));
                assert(rest.skip(i - start + 1) =~= bytes@.skip(i + 1));
                assert(rows_of(lines@.push(line)) =~= rows_of(lines@) + seq![line@]);
                assert(rows_of(lines@.push(line)) + split_lines(bytes@.skip(i + 1)) =~= rows_of(
                    lines@,
                ) + split_lines(rest));
            }
            lines.push(line);
            start = i + 1;
        }
        i += 1;
    }
    if start < n {
        let line = Line::from_bytes(slice_to_vec(slice_subrange(bytes, start, n)));
        proof {
            let rest = bytes@.skip(start as int);
            lemma_next_break(rest, 0, n - start);
            assert(line@ =~= rest);
            assert(rows_of(lines@.push(line)) =~= rows_of(lines@) + seq![line@]);
        }
        lines.push(line);
    } else {
        assert(rows_of(lines@) + Seq::<Seq<u8>>::empty() =~= rows_of(lines@));
    }
    lines
}

/// The stored text of `lines`.
pub fn join_into_bytes(lines: &Vec<Line>) -> (bytes: Vec<u8>)
    ensures
        bytes@ == join_lines(rows_of(lines@)),
{
    let ghost rows = rows_of(lines@);
    let mut bytes: Vec<u8> = Vec::new();
    let mut k: usize = 0;
    assert(rows.take(0) =~= Seq::<Seq<u8>>::empty());
    while k < lines.len()
        invariant
            k <= lines@.len(),
            rows == rows_of(lines@),
            bytes@ == join_lines(rows.take(k as int)),
        decreases lines@.len() - k,
    {
        if k > 0 {
            bytes.push(NEWLINE);
        }
        append_bytes(&mut bytes, lines[k].as_bytes());
        proof {
            let now = rows.take(k + 1);
            assert(now.drop_last() =~= rows.take(k as int));
            assert(now.last() == rows[k as int]);
            if k == 0 {
                assert(bytes@ =~= now[0]);
            } else {
                assert(bytes@ =~= join_lines(rows.take(k as int)) + seq![NEWLINE] + rows[k as int]);
            }
        }
        k += 1;
    }
    assert(rows.take(lines@.len() as int) =~= rows);
    bytes
}

} // verus!
