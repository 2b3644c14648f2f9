//! The phrase search: all places at which a phrase stands in the buffer,
//! and a walk through them that starts over at either end.

use vstd::prelude::*;
use vstd::string::*;
use vstd::utf8::encode_utf8;

use crate::bytes::first_match;
use crate::bytes::matches_at;
use crate::bytes::no_match;
use crate::highlight::HighlightType;
use crate::input::SearchStep;
use crate::line::marked;
use crate::syntax::lemma_highlight_aligned;
use crate::text::Text;
use crate::text::TextView;

verus! {

/// The offsets in `row`, from `from` on, at which `phrase` stands, from the
/// left; a place that begins inside a place already taken is not counted.
/// The empty phrase stands nowhere.
pub open spec fn matches_from(row: Seq<u8>, phrase: Seq<u8>, from: int) -> Seq<int>
    decreases row.len() - from,
{
    if phrase.len() == 0 || from < 0 || from + phrase.len() > row.len() {
        Seq::empty()
    } else if matches_at(row, phrase, from) {
        seq![from] + matches_from(row, phrase, from + phrase.len())
    } else {
        matches_from(row, phrase, from + 1)
    }
}

/// The places of `row`, which is row `y`, at which `phrase` stands, each
/// as column and row.
pub open spec fn row_positions(row: Seq<u8>, phrase: Seq<u8>, y: int) -> Seq<(u16, u16)> {
    matches_from(row, phrase, 0).map_values(|col: int| (col as u16, y as u16))
}

/// The places of `rows` at which `phrase` stands, row after row.
pub open spec fn positions(rows: Seq<Seq<u8>>, phrase: Seq<u8>) -> Seq<(u16, u16)>
    decreases rows.len(),
{
    if rows.len() == 0 {
        Seq::empty()
    } else {
        positions(rows.drop_last(), phrase) + row_positions(rows.last(), phrase, rows.len() - 1)
    }
}

/// Whether the offset `at` lies in one of the places of `count` bytes that
/// begin at the offsets `starts`.
pub open spec fn taken(starts: Seq<int>, count: int, at: int) -> bool {
    exists|k: int| 0 <= k < starts.len() && #[trigger] starts[k] <= at < starts[k] + count
}

/// `tags` with `count` tags from each of the offsets `starts` on replaced
/// by the tag of a search result.
pub open spec fn mark_all(tags: Seq<HighlightType>, starts: Seq<int>, count: int) -> Seq<
    HighlightType,
>
    decreases starts.len(),
{
    if starts.len() == 0 {
        tags
    } else {
        marked(mark_all(tags, starts.drop_last(), count), starts.last(), count)
    }
}

/// `text` with every byte of every place at which `phrase` stands tagged
/// as part of a search result.
pub open spec fn overlaid(text: TextView, phrase: Seq<u8>) -> TextView {
    TextView {
        tags: Seq::new(
            text.rows.len(),
            |r: int| mark_all(text.tags[r], matches_from(text.rows[r], phrase, 0), phrase.len() as int),
        ),
        ..text
    }
}

/// `text` after a search for `phrase`: highlighted anew, which takes away
/// the marks of an earlier search, and marked where it has a highlighter
/// and the phrase is not empty.
pub open spec fn searched(text: TextView, phrase: Seq<u8>) -> TextView {
    if text.highlighted && phrase.len() > 0 {
        overlaid(text.retokenized(), phrase)
    } else {
        text.retokenized()
    }
}

/// The place that follows place `index` of `count` places, the first
/// following the last.
pub open spec fn next_index(index: int, count: int) -> int {
    (index + 1) % count
}

/// The place before place `index` of `count` places, the last coming
/// before the first.
pub open spec fn previous_index(index: int, count: int) -> int {
    (index + count - 1) % count
}

/// Where the phrase first stands `at` bytes past `from`, the places from
/// `from` on are that one and those behind its end.
pub proof fn lemma_matches_from_found(row: Seq<u8>, phrase: Seq<u8>, from: int, at: int)
    requires
        0 <= from <= row.len(),
        phrase.len() > 0,
        first_match(row.skip(from), phrase, at),
    ensures
        matches_from(row, phrase, from) == seq![from + at] + matches_from(
            row,
            phrase,
            from + at + phrase.len(),
        ),
    decreases at,
{
    let rest = row.skip(from);
    assert(rest.subrange(0, phrase.len() as int) =~= row.subrange(from, from + phrase.len()));
    if at > 0 {
        assert(!matches_at(rest, phrase, 0));
        assert(!matches_at(row, phrase, from));
        assert(rest.skip(1) =~= row.skip(from + 1));
        assert forall|k: int| 0 <= k < at - 1 implies !matches_at(rest.skip(1), phrase, k) by {
            assert(!matches_at(rest, phrase, k + 1));
            assert(rest.skip(1).subrange(k, k + phrase.len()) =~= rest.subrange(
                k + 1,
                k + 1 + phrase.len(),
            ));
        }
        assert(rest.skip(1).subrange(at - 1, at - 1 + phrase.len()) =~= rest.subrange(
            at,
            at + phrase.len(),
        ));
        lemma_matches_from_found(row, phrase, from + 1, at - 1);
    }
}

/// Where the phrase stands nowhere from `from` on, there are no places.
pub proof fn lemma_matches_from_none(row: Seq<u8>, phrase: Seq<u8>, from: int)
    requires
        0 <= from <= row.len(),
        no_match(row.skip(from), phrase),
    ensures
        matches_from(row, phrase, from) == Seq::<int>::empty(),
    decreases row.len() - from,
{
    let rest = row.skip(from);
    if !(phrase.len() == 0 || from + phrase.len() > row.len()) {
        assert(!matches_at(rest, phrase, 0));
        assert(rest.subrange(0, phrase.len() as int) =~= row.subrange(from, from + phrase.len()));
        assert(rest.skip(1) =~= row.skip(from + 1));
        assert forall|k: int| !matches_at(rest.skip(1), phrase, k) by {
            assert(!matches_at(rest, phrase, k + 1));
            if 0 <= k && k + phrase.len() <= rest.skip(1).len() {
                assert(rest.skip(1).subrange(k, k + phrase.len()) =~= rest.subrange(
                    k + 1,
                    k + 1 + phrase.len(),
                ));
            }
        }
        lemma_matches_from_none(row, phrase, from + 1);
    }
}

/// At each place of a row the phrase stands, and none lies before `from`.
pub proof fn lemma_matches_stand(row: Seq<u8>, phrase: Seq<u8>, from: int, i: int)
    requires
        0 <= from,
        0 <= i < matches_from(row, phrase, from).len(),
    ensures
        from <= matches_from(row, phrase, from)[i],
        matches_at(row, phrase, matches_from(row, phrase, from)[i]),
    decreases row.len() - from,
{
    if phrase.len() == 0 || from + phrase.len() > row.len() {
    } else if matches_at(row, phrase, from) {
        if i > 0 {
            lemma_matches_stand(row, phrase, from + phrase.len(), i - 1);
        }
    } else {
        lemma_matches_stand(row, phrase, from + 1, i);
    }
}

/// No place of a row begins before the one before it ends.
pub proof fn lemma_matches_apart(row: Seq<u8>, phrase: Seq<u8>, from: int, i: int, j: int)
    requires
        0 <= from,
        0 <= i < j < matches_from(row, phrase, from).len(),
    ensures
        matches_from(row, phrase, from)[i] + phrase.len() <= matches_from(row, phrase, from)[j],
    decreases row.len() - from,
{
    if phrase.len() == 0 || from + phrase.len() > row.len() {
    } else if matches_at(row, phrase, from) {
        if i > 0 {
            lemma_matches_apart(row, phrase, from + phrase.len(), i - 1, j - 1);
        } else {
            lemma_matches_stand(row, phrase, from + phrase.len(), j - 1);
        }
    } else {
        lemma_matches_apart(row, phrase, from + 1, i, j);
    }
}

/// Wherever the phrase stands in a row from `from` on, it is one of the
/// places of the row or begins inside one.
pub proof fn lemma_matches_cover(row: Seq<u8>, phrase: Seq<u8>, from: int, at: int)
    requires
        0 <= from <= at,
        phrase.len() > 0,
        matches_at(row, phrase, at),
    ensures
        taken(matches_from(row, phrase, from), phrase.len() as int, at),
    decreases row.len() - from,
{
    let found = matches_from(row, phrase, from);
    if matches_at(row, phrase, from) {
        if at < from + phrase.len() {
            assert(found[0] <= at < found[0] + phrase.len());
        } else {
            let rest = matches_from(row, phrase, from + phrase.len());
            lemma_matches_cover(row, phrase, from + phrase.len(), at);
            let k = choose|k: int|
                0 <= k < rest.len() && #[trigger] rest[k] <= at < rest[k] + phrase.len();
            assert(found[k + 1] == rest[k]);
        }
    } else {
        lemma_matches_cover(row, phrase, from + 1, at);
    }
}

/// Marking leaves the number of tags as it is.
pub proof fn lemma_mark_all_len(tags: Seq<HighlightType>, starts: Seq<int>, count: int)
    ensures
        mark_all(tags, starts, count).len() == tags.len(),
    decreases starts.len(),
{
    if starts.len() > 0 {
        lemma_mark_all_len(tags, starts.drop_last(), count);
    }
}

/// After marking, a tag at an offset that one of the places takes is the
/// tag of a search result, and every other tag is as it was.
pub proof fn lemma_mark_all_at(tags: Seq<HighlightType>, starts: Seq<int>, count: int, i: int)
    requires
        0 <= i < tags.len(),
    ensures
        mark_all(tags, starts, count)[i] == if taken(starts, count, i) {
            HighlightType::SearchResult
        } else {
            tags[i]
        },
    decreases starts.len(),
{
    if starts.len() > 0 {
        let before = starts.drop_last();
        lemma_mark_all_at(tags, before, count, i);
        lemma_mark_all_len(tags, before, count);
        if starts.last() <= i < starts.last() + count {
            assert(starts[starts.len() - 1] <= i < starts[starts.len() - 1] + count);
        } else if taken(before, count, i) {
            let k = choose|k: int|
                0 <= k < before.len() && #[trigger] before[k] <= i < before[k] + count;
            assert(starts[k] == before[k]);
        } else if taken(starts, count, i) {
            let k = choose|k: int|
                0 <= k < starts.len() && #[trigger] starts[k] <= i < starts[k] + count;
            assert(before[k] == starts[k]);
        }
    }
}

/// Each place found in a buffer that a cursor can address is a position of
/// the buffer at which the phrase stands.
pub proof fn lemma_positions_stand(rows: Seq<Seq<u8>>, phrase: Seq<u8>, i: int)
    requires
        rows.len() <= 0x1_0000,
        forall|k: int| 0 <= k < rows.len() ==> (#[trigger] rows[k]).len() <= 0xffff,
        0 <= i < positions(rows, phrase).len(),
    ensures
        positions(rows, phrase)[i].1 < rows.len(),
        matches_at(
            rows[positions(rows, phrase)[i].1 as int],
            phrase,
            positions(rows, phrase)[i].0 as int,
        ),
    decreases rows.len(),
{
    if rows.len() > 0 {
        let before = positions(rows.drop_last(), phrase);
        if i < before.len() {
            let front = rows.drop_last();
            assert forall|k: int| 0 <= k < front.len() implies (#[trigger] front[k]).len()
                <= 0xffff by {
                assert(front[k] == rows[k]);
            }
            lemma_positions_stand(front, phrase, i);
            assert(front[before[i].1 as int] == rows[before[i].1 as int]);
        } else {
            lemma_matches_stand(rows.last(), phrase, 0, i - before.len());
        }
    }
}

/// The empty phrase stands nowhere in the buffer.
pub proof fn lemma_positions_of_nothing(rows: Seq<Seq<u8>>, phrase: Seq<u8>)
    requires
        phrase.len() == 0,
    ensures
        positions(rows, phrase) == Seq::<(u16, u16)>::empty(),
    decreases rows.len(),
{
    if rows.len() > 0 {
        lemma_positions_of_nothing(rows.drop_last(), phrase);
        assert(row_positions(rows.last(), phrase, rows.len() - 1) =~= Seq::<(u16, u16)>::empty());
    }
}

/// What a search holds.
pub struct SearchView {
    /// The places found by the last search, as column and row.
    pub results: Seq<(u16, u16)>,
    /// The number of the place that the walk is at.
    pub index: int,
}

impl SearchView {
    /// The place that the walk is at, if it is at one.
    pub open spec fn current(self) -> Option<(u16, u16)> {
        if 0 <= self.index < self.results.len() {
            Some(self.results[self.index])
        } else {
            None
        }
    }

    /// The search after a step to the next place; as it was where it
    /// holds no place.
    pub open spec fn forward(self) -> SearchView {
        if self.results.len() == 0 {
            self
        } else {
            SearchView { index: next_index(self.index, self.results.len() as int), ..self }
        }
    }

    /// The search after a step to the place before; as it was where it
    /// holds no place.
    pub open spec fn backward(self) -> SearchView {
        if self.results.len() == 0 {
            self
        } else {
            SearchView { index: previous_index(self.index, self.results.len() as int), ..self }
        }
    }

    /// The search after `phrase` has been looked for in `rows`: it holds
    /// the places found, and the walk is at the number it was at.
    pub open spec fn found(self, rows: Seq<Seq<u8>>, phrase: Seq<u8>) -> SearchView {
        SearchView { results: positions(rows, phrase), ..self }
    }

    /// The first place, if there is one.
    pub open spec fn first(self) -> Option<(u16, u16)> {
        if self.results.len() > 0 {
            Some(self.results[0])
        } else {
            None
        }
    }
}

/// The places at which the phrase of the last search stands, and where
/// the walk through them is.
pub struct SearchData {
    results: Vec<(u16, u16)>,
    index: usize,
}

impl View for SearchData {
    type V = SearchView;

    closed spec fn view(&self) -> SearchView {
        SearchView { results: self.results@, index: self.index as int }
    }
}

impl SearchData {
    /// A search that has found nothing yet.
    pub fn new() -> (search: SearchData)
        ensures
            search@ == (SearchView { results: Seq::empty(), index: 0 }),
    {
        SearchData { results: Vec::new(), index: 0 }
    }

    /// Searches `text` for `phrase`. The buffer is highlighted anew; the
    /// places at which the phrase stands are kept, row after row and in
    /// each row from the left, and their bytes are marked in the buffer.
    /// The first place comes back, or nothing where there is none. The
    /// empty phrase stands nowhere. The walk stays at the number it was at.
    pub fn find_results(&mut self, phrase: &String, text: &mut Text) -> (place: Option<(u16, u16)>)
        requires
            old(text)@.wf(),
            old(text)@.addressable(),
        ensures
            final(self)@ == old(self)@.found(old(text)@.rows, encode_utf8(phrase@)),
            final(text)@ == searched(old(text)@, encode_utf8(phrase@)),
            final(text)@.wf(),
            final(text)@.addressable(),
            place == final(self)@.first(),
            phrase@.len() == 0 ==> final(self)@.results.len() == 0 && place is None,
    {
        text.update_syntax();
        self.results.clear();
        let ghost base = text@;
        let ghost rows = base.rows;
        let ghost needle = encode_utf8(phrase@);
        let words: &str = phrase.as_str();
        let count: usize = words.as_bytes().len();
        let highlighted = text.is_highlighted();
        let height: usize = text.len();
        proof {
            lemma_highlight_aligned(rows);
        }
        if count == 0 {
            proof {
                lemma_positions_of_nothing(rows, needle);
            }
            return None;
        }
        let mut row: usize = 0;
        assert(rows.take(0) =~= Seq::<Seq<u8>>::empty());
        while row < height
            invariant
                row <= height,
                height == rows.len(),
                count == needle.len(),
                count > 0,
                needle == words.spec_bytes(),
                base.wf(),
                base.addressable(),
                base.rows == rows,
                highlighted == base.highlighted,
                text@.rows == rows,
                text@.highlighted == base.highlighted,
                text@.tags.len() == height,
                self.index == old(self).index,
                self.results@ == positions(rows.take(row as int), needle),
                forall|r: int|
                    0 <= r < row ==> #[trigger] text@.tags[r] == if highlighted {
                        mark_all(base.tags[r], matches_from(rows[r], needle, 0), count as int)
                    } else {
                        base.tags[r]
                    },
                forall|r: int| row <= r < height ==> #[trigger] text@.tags[r] == base.tags[r],
            decreases height - row,
        {
            let ghost before_row = self.results@;
            let ghost mut found: Seq<int> = Seq::empty();
            let width: usize = text.line_len(row);
            let mut start: usize = 0;
            let mut searching = true;
            assert(before_row + found.map_values(|col: int| (col as u16, row as u16)) =~= before_row);
            assert(found + matches_from(rows[row as int], needle, 0) =~= matches_from(
                rows[row as int],
                needle,
                0,
            ));
            while searching
                invariant
                    row < height,
                    height == rows.len(),
                    count == needle.len(),
                    count > 0,
                    needle == words.spec_bytes(),
                    base.wf(),
                    base.addressable(),
                    base.rows == rows,
                    highlighted == base.highlighted,
                    width == rows[row as int].len(),
                    start <= width,
                    text@.rows == rows,
                    text@.highlighted == base.highlighted,
                    text@.tags.len() == height,
                    self.index == old(self).index,
                    self.results@ == before_row + found.map_values(
                        |col: int| (col as u16, row as u16),
                    ),
                    found + matches_from(rows[row as int], needle, start as int) == matches_from(
                        rows[row as int],
                        needle,
                        0,
                    ),
                    !searching ==> matches_from(rows[row as int], needle, start as int)
                        == Seq::<int>::empty(),
                    text@.tags[row as int] == if highlighted {
                        mark_all(base.tags[row as int], found, count as int)
                    } else {
                        base.tags[row as int]
                    },
                    forall|r: int|
                        0 <= r < height && r != row ==> #[trigger] text@.tags[r] == if r < row
                            && highlighted {
                            mark_all(base.tags[r], matches_from(rows[r], needle, 0), count as int)
                        } else {
                            base.tags[r]
                        },
                decreases width - start + if searching { 1int } else { 0int },
            {
                match text.find_phrase(words, row, start) {
                    Some(result) => {
                        let col: usize = start + result;
                        proof {
                            lemma_matches_from_found(
                                rows[row as int],
                                needle,
                                start as int,
                                result as int,
                            );
                            lemma_mark_all_len(base.tags[row as int], found, count as int);
                            assert(found.push(col as int).drop_last() =~= found);
                            assert(self.results@.push((col as u16, row as u16)) =~= before_row
                                + found.push(col as int).map_values(
                                |col: int| (col as u16, row as u16),
                            ));
                            assert(found.push(col as int) + matches_from(
                                rows[row as int],
                                needle,
                                col + count,
                            ) =~= found + (seq![col as int] + matches_from(
                                rows[row as int],
                                needle,
                                col + count,
                            )));
                        }
                        self.results.push((col as u16, row as u16));
                        if highlighted {
                            text.highlight_match(row, col, count);
                        }
                        proof {
                            found = found.push(col as int);
                        }
                        start = col + count;
                    },
                    None => {
                        proof {
                            lemma_matches_from_none(rows[row as int], needle, start as int);
                        }
                        searching = false;
                    },
                }
            }
            proof {
                assert(found =~= matches_from(rows[row as int], needle, 0));
                assert(rows.take(row + 1).drop_last() =~= rows.take(row as int));
                assert(rows.take(row + 1).last() == rows[row as int]);
            }
            row += 1;
        }
        proof {
            assert(rows.take(height as int) =~= rows);
            if highlighted {
                assert(text@.tags =~= overlaid(base, needle).tags);
                assert forall|k: int| 0 <= k < rows.len() implies (#[trigger] text@.tags[k]).len()
                    == rows[k].len() by {
                    lemma_mark_all_len(base.tags[k], matches_from(rows[k], needle, 0), count as int);
                }
            } else {
                assert(text@.tags =~= base.tags);
            }
        }
        if self.results.len() > 0 {
            Some(self.results[0])
        } else {
            None
        }
    }

    /// Goes to the place behind the one the walk is at, from the last to
    /// the first, and gives it; nothing where no place was found.
    pub fn get_next(&mut self) -> (place: Option<(u16, u16)>)
        ensures
            final(self)@ == old(self)@.forward(),
            place == final(self)@.current(),
    {
        if self.results.len() == 0 {
            None
        } else {
            let count: u128 = self.results.len() as u128;
            self.index = ((self.index as u128 + 1) % count) as usize;
            Some(self.results[self.index])
        }
    }

    /// Goes to the place before the one the walk is at, from the first to
    /// the last, and gives it; nothing where no place was found.
    pub fn get_previous(&mut self) -> (place: Option<(u16, u16)>)
        ensures
            final(self)@ == old(self)@.backward(),
            place == final(self)@.current(),
    {
        if self.results.len() == 0 {
            None
        } else {
            let count: u128 = self.results.len() as u128;
            self.index = ((self.index as u128 + count - 1) % count) as usize;
            Some(self.results[self.index])
        }
    }

    /// One step of a running search for `phrase`: searches `text` again,
    /// or walks to the next place or the one before, or does nothing. The
    /// place to go to comes back, if there is one.
    pub fn step(&mut self, step: SearchStep, phrase: &String, text: &mut Text) -> (place: Option<
        (u16, u16),
    >)
        requires
            old(text)@.wf(),
            old(text)@.addressable(),
        ensures
            final(text)@.wf(),
            final(text)@.addressable(),
            match step {
                SearchStep::Search => {
                    &&& final(self)@ == old(self)@.found(old(text)@.rows, encode_utf8(phrase@))
                    &&& final(text)@ == searched(old(text)@, encode_utf8(phrase@))
                    &&& place == final(self)@.first()
                },
                SearchStep::Next => {
                    &&& final(self)@ == old(self)@.forward()
                    &&& final(text)@ == old(text)@
                    &&& place == final(self)@.current()
                },
                SearchStep::Previous => {
                    &&& final(self)@ == old(self)@.backward()
                    &&& final(text)@ == old(text)@
                    &&& place == final(self)@.current()
                },
                SearchStep::Stay => {
                    &&& final(self)@ == old(self)@
                    &&& final(text)@ == old(text)@
                    &&& place is None
                },
            },
    {
        match step {
            SearchStep::Search => self.find_results(phrase, text),
            SearchStep::Next => self.get_next(),
            SearchStep::Previous => self.get_previous(),
            SearchStep::Stay => None,
        }
    }

    /// The places found by the last search.
    pub fn results(&self) -> (results: &[(u16, u16)])
        ensures
            results@ == self@.results,
    {
        self.results.as_slice()
    }

    /// The number of the place that the walk is at.
    pub fn index(&self) -> (index: usize)
        ensures
            index == self@.index,
    {
        self.index
    }
}

} // verus!
