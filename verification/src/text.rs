//! The buffer: the rows of the document and their highlighting.

use vstd::prelude::*;
use vstd::string::*;
use vstd::utf8::encode_scalar;
use vstd::utf8::encode_utf8;

use crate::bytes::SPACE;
use crate::bytes::encode_char;
use crate::bytes::first_match;
use crate::bytes::no_match;
use crate::cursor::Cursor;
use crate::cursor::row_len;
use crate::highlight::HighlightType;
use crate::highlight::PrintCommand;
use crate::line::Line;
use crate::line::drawing;
use crate::line::marked;
use crate::line::spliced;
use crate::storage::join_into_bytes;
use crate::storage::join_lines;
use crate::storage::keeps_breaks;
use crate::storage::lemma_save_load_round_trip;
use crate::storage::loaded_rows;
use crate::storage::split_into_lines;
use crate::syntax::RustSyntax;
use crate::syntax::highlight;
use crate::syntax::lemma_highlight_aligned;
use crate::syntax::rows_of;
use crate::syntax::tags_of;

verus! {

/// `std::io::Error`, the reason why a text could not be read. The buffer
/// takes it and looks at nothing in it.
#[verifier::external_type_specification]
#[verifier::external_body]
pub struct ExIoError(std::io::Error);

/// What a buffer holds.
pub struct TextView {
    /// The bytes of each row.
    pub rows: Seq<Seq<u8>>,
    /// The tags of each row.
    pub tags: Seq<Seq<HighlightType>>,
    /// Whether the buffer has a highlighter.
    pub highlighted: bool,
}

impl TextView {
    /// Whether every row has as many tags as bytes.
    pub open spec fn aligned(self) -> bool {
        forall|k: int|
            0 <= k < self.rows.len() ==> (#[trigger] self.tags[k]).len() == self.rows[k].len()
    }

    /// What holds of every buffer between two operations: it has at least
    /// one row, and where it has a highlighter every byte has its tag.
    pub open spec fn wf(self) -> bool {
        &&& self.rows.len() >= 1
        &&& self.tags.len() == self.rows.len()
        &&& self.highlighted ==> self.aligned()
    }

    /// Whether every position of the buffer can be the position of a
    /// cursor, whose column and row are 16-bit numbers.
    pub open spec fn addressable(self) -> bool {
        &&& self.rows.len() <= 0x1_0000
        &&& forall|k: int| 0 <= k < self.rows.len() ==> (#[trigger] self.rows[k]).len() <= 0xffff
    }

    /// The buffer highlighted anew: with a highlighter every row gets the
    /// tags of its bytes, whatever tags it had; without one nothing
    /// changes.
    pub open spec fn retokenized(self) -> TextView {
        if self.highlighted {
            TextView { tags: highlight(self.rows), ..self }
        } else {
            self
        }
    }

    /// The buffer after the bytes `bytes` have been typed at column `x` of
    /// row `y`.
    pub open spec fn typed(self, x: int, y: int, bytes: Seq<u8>) -> TextView {
        TextView { rows: self.rows.update(y, spliced(self.rows[y], x, bytes)), ..self }.retokenized()
    }

    /// The buffer after row `y` has been cut in two at column `x`.
    pub open spec fn broken(self, x: int, y: int) -> TextView {
        TextView {
            rows: self.rows.update(y, self.rows[y].take(x)).insert(y + 1, self.rows[y].skip(x)),
            tags: self.tags.insert(y + 1, Seq::empty()),
            ..self
        }.retokenized()
    }

    /// The buffer after a backspace at column `x` of row `y`: the byte
    /// before the column is gone; at the start of a row the row is put
    /// behind the one before it; at the start of the document nothing goes.
    pub open spec fn erased(self, x: int, y: int) -> TextView {
        if x > 0 {
            TextView { rows: self.rows.update(y, self.rows[y].remove(x - 1)), ..self }.retokenized()
        } else if y > 0 {
            TextView {
                rows: self.rows.update(y - 1, self.rows[y - 1] + self.rows[y]).remove(y),
                tags: self.tags.remove(y),
                ..self
            }.retokenized()
        } else {
            self.retokenized()
        }
    }
}

/// A buffer of untagged `rows`, highlighted where `highlighted` says so.
pub open spec fn fresh(rows: Seq<Seq<u8>>, highlighted: bool) -> TextView {
    TextView {
        rows,
        tags: Seq::new(rows.len(), |k: int| Seq::<HighlightType>::empty()),
        highlighted,
    }.retokenized()
}

/// The bytes that the key for `c` puts into the text: four spaces for a
/// tabulator, the UTF-8 encoding of any other character.
pub open spec fn keyed(c: char) -> Seq<u8> {
    if c == '\t' {
        seq![SPACE, SPACE, SPACE, SPACE]
    } else {
        encode_scalar(c as u32)
    }
}

/// The number of columns by which the key for `c` moves the cursor: 4 for
/// a tabulator, 1 for any other character.
pub open spec fn advance(c: char) -> int {
    if c == '\t' {
        4
    } else {
        1
    }
}

/// Highlighting anew does nothing to a buffer that has just been
/// highlighted.
pub proof fn lemma_retokenized_idempotent(text: TextView)
    ensures
        text.retokenized().retokenized() == text.retokenized(),
{
}

/// A buffer with at least one row is well formed once it has been
/// highlighted, provided it has a tag list for every row.
pub proof fn lemma_retokenized_wf(text: TextView)
    requires
        text.rows.len() >= 1,
        text.tags.len() == text.rows.len(),
    ensures
        text.retokenized().wf(),
{
    lemma_highlight_aligned(text.rows);
}

/// Every edit leaves a well formed buffer well formed. So a buffer with a
/// highlighter has one tag for each byte of each row after any number of
/// edits.
pub proof fn lemma_edits_keep_wf(text: TextView, x: int, y: int, bytes: Seq<u8>)
    requires
        text.wf(),
        0 <= y < text.rows.len(),
        0 <= x <= text.rows[y].len(),
    ensures
        text.typed(x, y, bytes).wf(),
        text.broken(x, y).wf(),
        text.erased(x, y).wf(),
{
    lemma_retokenized_wf(
        TextView { rows: text.rows.update(y, spliced(text.rows[y], x, bytes)), ..text },
    );
    lemma_retokenized_wf(
        TextView {
            rows: text.rows.update(y, text.rows[y].take(x)).insert(y + 1, text.rows[y].skip(x)),
            tags: text.tags.insert(y + 1, Seq::empty()),
            ..text
        },
    );
    if x > 0 {
        lemma_retokenized_wf(
            TextView { rows: text.rows.update(y, text.rows[y].remove(x - 1)), ..text },
        );
    } else if y > 0 {
        lemma_retokenized_wf(
            TextView {
                rows: text.rows.update(y - 1, text.rows[y - 1] + text.rows[y]).remove(y),
                tags: text.tags.remove(y),
                ..text
            },
        );
    } else {
        lemma_retokenized_wf(text);
    }
}

/// A buffer that has loaded a text saves the same text, byte for byte,
/// provided the text keeps its breaks: it does not end in a line break and
/// has no carriage return right before one.
pub proof fn lemma_load_save_round_trip(bytes: Seq<u8>, highlighted: bool)
    requires
        keeps_breaks(bytes),
    ensures
        join_lines(fresh(loaded_rows(bytes), highlighted).rows) == bytes,
{
    lemma_save_load_round_trip(bytes);
}

/// The buffer.
pub struct Text {
    lines: Vec<Line>,
    syntax_highlight: Option<RustSyntax>,
}

impl View for Text {
    type V = TextView;

    closed spec fn view(&self) -> TextView {
        TextView {
            rows: rows_of(self.lines@),
            tags: tags_of(self.lines@),
            highlighted: self.syntax_highlight is Some,
        }
    }
}

impl Text {
    /// A buffer of one empty row, with the highlighter for Rust.
    pub fn new() -> (text: Text)
        ensures
            text@ == fresh(seq![Seq::<u8>::empty()], true),
            text@.wf(),
    {
        Text::with_highlight(Some(RustSyntax {  }))
    }

    /// A buffer of one empty row, with the highlighter `syntax_highlight`
    /// or, where there is none, without highlighting.
    pub fn with_highlight(syntax_highlight: Option<RustSyntax>) -> (text: Text)
        ensures
            text@ == fresh(seq![Seq::<u8>::empty()], syntax_highlight is Some),
            text@.wf(),
    {
        let mut lines: Vec<Line> = Vec::new();
        lines.push(Line::blank());
        let text = Text { lines, syntax_highlight };
        proof {
            let rows = seq![Seq::<u8>::empty()];
            lemma_highlight_aligned(rows);
            assert(text@.rows =~= rows);
            assert(text@.tags =~~= fresh(rows, syntax_highlight is Some).tags);
        }
        text
    }

    /// Replaces the rows by those of the text `content`, or by one empty
    /// row where the text has none or could not be read, and highlights
    /// them.
    pub fn load(&mut self, content: std::io::Result<String>)
        ensures
            final(self)@ == fresh(
                match content {
                    Ok(contents) => loaded_rows(encode_utf8(contents@)),
                    Err(_) => seq![Seq::<u8>::empty()],
                },
                old(self)@.highlighted,
            ),
            final(self)@.wf(),
    {
        let mut lines: Vec<Line> = match &content {
            Ok(contents) => split_into_lines(contents.as_str().as_bytes()),
            Err(_) => Vec::new(),
        };
        if lines.len() == 0 {
            lines.push(Line::blank());
        }
        self.lines = lines;
        proof {
            let rows = match content {
                Ok(contents) => loaded_rows(encode_utf8(contents@)),
                Err(_) => seq![Seq::<u8>::empty()],
            };
            assert(self@.rows =~= rows);
            assert(self@.tags =~~= Seq::new(rows.len(), |k: int| Seq::<HighlightType>::empty()));
            lemma_retokenized_wf(self@);
        }
        self.update_syntax();
    }

    /// Replaces the rows by one empty row.
    pub fn reset(&mut self)
        ensures
            final(self)@ == (TextView {
                rows: seq![Seq::<u8>::empty()],
                tags: seq![Seq::<HighlightType>::empty()],
                highlighted: old(self)@.highlighted,
            }),
            final(self)@.wf(),
    {
        let mut lines: Vec<Line> = Vec::new();
        lines.push(Line::blank());
        self.lines = lines;
        proof {
            assert(self@.rows =~= seq![Seq::<u8>::empty()]);
            assert(self@.tags =~= seq![Seq::<HighlightType>::empty()]);
        }
    }

    /// The stored text of the buffer: its rows with one line break between
    /// each two.
    pub fn save(&self) -> (contents: Vec<u8>)
        ensures
            contents@ == join_lines(self@.rows),
    {
        join_into_bytes(&self.lines)
    }

    /// The commands that draw row `index` between the columns `start` and
    /// `end`; none where there is no such row.
    pub fn print_line(&self, index: usize, start: u16, end: u16) -> (commands: Vec<PrintCommand>)
        ensures
            commands@ == if index < self@.rows.len() {
                drawing(
                    self@.rows[index as int],
                    self@.tags[index as int],
                    start as int,
                    end as int,
                    self@.highlighted,
                )
            } else {
                Seq::empty()
            },
    {
        if index < self.lines.len() {
            self.lines[index].print(start as usize, end as usize, &self.syntax_highlight)
        } else {
            Vec::new()
        }
    }

    /// Types the character `c` at the cursor and moves the cursor behind
    /// what was typed: four spaces for a tabulator, one column for any
    /// other character.
    pub fn insert_char(&mut self, c: char, cursor: &mut Cursor)
        requires
            old(self)@.wf(),
            old(cursor)@.within(old(self)@.rows),
            old(cursor)@.render_x + advance(c) <= u16::MAX,
        ensures
            final(self)@ == old(self)@.typed(old(cursor)@.render_x, old(cursor)@.y, keyed(c)),
            final(cursor)@ == old(cursor)@.at(old(cursor)@.render_x + advance(c), old(cursor)@.y),
            final(self)@.wf(),
            final(cursor)@.within(final(self)@.rows),
    {
        let (x, y) = cursor.get_position();
        let index: usize = cursor.get_line_index();
        let ghost before = self.lines@;
        if c == '\t' {
            proof {
                reveal_strlit("    ");
                is_ascii_spec_bytes("    ");
                assert("    ".spec_bytes() =~= seq![SPACE, SPACE, SPACE, SPACE]);
            }
            self.lines[index].insert(x as usize, "    ");
            cursor.set_position(x + 4, y);
        } else {
            let bytes = encode_char(c);
            self.lines[index].insert_bytes(x as usize, bytes.as_slice());
            cursor.set_position(x + 1, y);
        }
        proof {
            assert(rows_of(self.lines@) =~= rows_of(before).update(
                y as int,
                spliced(rows_of(before)[y as int], x as int, keyed(c)),
            ));
            assert(tags_of(self.lines@) =~= tags_of(before));
            lemma_retokenized_wf(self@);
        }
        self.update_syntax();
    }

    /// Cuts the cursor's row in two at the cursor and puts the cursor at
    /// the start of the second.
    pub fn new_line(&mut self, cursor: &mut Cursor)
        requires
            old(self)@.wf(),
            old(cursor)@.within(old(self)@.rows),
            old(cursor)@.y + 1 <= u16::MAX,
        ensures
            final(self)@ == old(self)@.broken(old(cursor)@.render_x, old(cursor)@.y),
            final(cursor)@ == old(cursor)@.at(0, old(cursor)@.y + 1),
            final(self)@.wf(),
            final(cursor)@.within(final(self)@.rows),
    {
        let line_index: usize = cursor.get_line_index();
        let (x, y) = cursor.get_position();
        let ghost before = self.lines@;
        let new_line = self.lines[line_index].split_at(x as usize);
        self.lines.insert(line_index + 1, new_line);
        proof {
            let rows = rows_of(before);
            assert(rows_of(self.lines@) =~= rows.update(y as int, rows[y as int].take(x as int)).insert(
                y + 1,
                rows[y as int].skip(x as int),
            ));
            assert(tags_of(self.lines@) =~= tags_of(before).insert(y + 1, Seq::empty()));
            lemma_retokenized_wf(self@);
        }
        self.update_syntax();
        cursor.set_position(0, y + 1);
    }

    /// Takes out the byte before the cursor and moves the cursor one
    /// column back. At the start of a row it puts the row behind the one
    /// before it and the cursor where the two meet. At the start of the
    /// document it leaves the rows and the cursor as they are.
    pub fn delete_char(&mut self, cursor: &mut Cursor)
        requires
            old(self)@.wf(),
            old(cursor)@.within(old(self)@.rows),
            old(cursor)@.render_x == 0 && old(cursor)@.y > 0 ==> old(self)@.rows[old(cursor)@.y
                - 1].len() <= u16::MAX,
        ensures
            final(self)@ == old(self)@.erased(old(cursor)@.render_x, old(cursor)@.y),
            final(cursor)@ == if old(cursor)@.render_x > 0 {
                old(cursor)@.at(old(cursor)@.render_x - 1, old(cursor)@.y)
            } else if old(cursor)@.y > 0 {
                old(cursor)@.at(
                    old(self)@.rows[old(cursor)@.y - 1].len() as int,
                    old(cursor)@.y - 1,
                )
            } else {
                old(cursor)@
            },
            final(self)@.wf(),
            final(cursor)@.within(final(self)@.rows),
    {
        let line_index: usize = cursor.get_line_index();
        let (x, y) = cursor.get_position();
        let ghost before = self.lines@;
        let ghost rows = rows_of(before);
        if x > 0 {
            self.lines[line_index].delete_char(x as usize - 1);
            cursor.set_position(x - 1, y);
            proof {
                assert(rows_of(self.lines@) =~= rows.update(
                    y as int,
                    rows[y as int].remove(x - 1),
                ));
                assert(tags_of(self.lines@) =~= tags_of(before));
            }
        } else if y > 0 {
            let old_line = self.lines.remove(line_index);
            let old_length: usize = self.lines[line_index - 1].len();
            self.lines[line_index - 1].append(&old_line);
            cursor.set_position(old_length as u16, y - 1);
            proof {
                assert(rows_of(self.lines@) =~= rows.update(y - 1, rows[y - 1] + rows[y as int]).remove(
                    y as int,
                ));
                assert(tags_of(self.lines@) =~= tags_of(before).remove(y as int));
            }
        }
        proof {
            lemma_retokenized_wf(self@);
        }
        self.update_syntax();
    }

    /// Looks for `phrase` in row `index` from column `start` on. The
    /// result counts from `start`.
    pub fn find_phrase(&self, phrase: &str, index: usize, start: usize) -> (found: Option<usize>)
        requires
            index < self@.rows.len(),
            start <= self@.rows[index as int].len(),
        ensures
            match found {
                Some(at) => first_match(
                    self@.rows[index as int].skip(start as int),
                    phrase.spec_bytes(),
                    at as int,
                ),
                None => no_match(self@.rows[index as int].skip(start as int), phrase.spec_bytes()),
            },
    {
        self.lines[index].find_phrase(phrase, start)
    }

    /// Tags the `count` bytes from column `start` of row `index` on as part
    /// of a search result.
    pub fn highlight_match(&mut self, index: usize, start: usize, count: usize)
        requires
            index < old(self)@.rows.len(),
            start + count <= old(self)@.tags[index as int].len(),
        ensures
            final(self)@ == (TextView {
                tags: old(self)@.tags.update(
                    index as int,
                    marked(old(self)@.tags[index as int], start as int, count as int),
                ),
                ..old(self)@
            }),
            old(self)@.wf() ==> final(self)@.wf(),
    {
        let ghost before = self.lines@;
        self.lines[index].highlight_match(start, count);
        proof {
            assert(rows_of(self.lines@) =~= rows_of(before));
            assert(tags_of(self.lines@) =~= tags_of(before).update(
                index as int,
                marked(tags_of(before)[index as int], start as int, count as int),
            ));
        }
    }

    /// Row `index`, if there is one.
    pub fn get_line(&self, index: usize) -> (line: Option<&Line>)
        ensures
            line is Some == (index < self@.rows.len()),
            line matches Some(row) ==> row@ == self@.rows[index as int] && row.tags()
                == self@.tags[index as int],
    {
        if index < self.lines.len() {
            Some(&self.lines[index])
        } else {
            None
        }
    }

    /// Highlights the buffer anew, if it has a highlighter.
    pub fn update_syntax(&mut self)
        ensures
            final(self)@ == old(self)@.retokenized(),
            old(self)@.wf() ==> final(self)@.wf(),
    {
        proof {
            lemma_highlight_aligned(self@.rows);
        }
        if let Some(syntax_highlight) = &self.syntax_highlight {
            syntax_highlight.update_syntax(&mut self.lines);
        }
    }

    /// Whether every position of the buffer can be the position of a
    /// cursor: there are no more than 65536 rows and none is longer than
    /// 65535 bytes.
    pub fn is_addressable(&self) -> (addressable: bool)
        ensures
            addressable == self@.addressable(),
    {
        if self.lines.len() > 0x1_0000 {
            return false;
        }
        let mut k: usize = 0;
        while k < self.lines.len()
            invariant
                k <= self.lines@.len(),
                self.lines@.len() <= 0x1_0000,
                forall|j: int| 0 <= j < k ==> (#[trigger] self@.rows[j]).len() <= 0xffff,
            decreases self.lines@.len() - k,
        {
            if self.lines[k].len() > 0xffff {
                assert(self@.rows[k as int].len() > 0xffff);
                return false;
            }
            k += 1;
        }
        true
    }

    /// Whether the buffer has a highlighter.
    pub fn is_highlighted(&self) -> (highlighted: bool)
        ensures
            highlighted == self@.highlighted,
    {
        self.syntax_highlight.is_some()
    }

    /// The number of rows.
    pub fn len(&self) -> (len: usize)
        ensures
            len == self@.rows.len(),
    {
        self.lines.len()
    }

    /// The number of bytes in row `index`, 0 where there is no such row.
    pub fn line_len(&self, index: usize) -> (len: usize)
        ensures
            len == row_len(self@.rows, index as int),
    {
        if index < self.len() {
            self.lines[index].len()
        } else {
            0
        }
    }
}

} // verus!
