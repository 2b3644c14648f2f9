//! One row of the document: its bytes, and one tag for each byte once the
//! buffer has been highlighted.

use vstd::prelude::*;
use vstd::slice::slice_subrange;
use vstd::slice::slice_to_vec;
use vstd::string::*;
use vstd::utf8::encode_utf8;

use crate::bytes::append_bytes;
use crate::bytes::find_bytes;
use crate::bytes::first_match;
use crate::bytes::no_match;
use crate::highlight::Colour;
use crate::highlight::HighlightType;
use crate::highlight::PrintCommand;
use crate::highlight::colour_of;
use crate::syntax::RustSyntax;

verus! {

/// The colour of the byte at offset `i` of a line with the tags `tags`:
/// that of its tag where highlighting is on and the line has a tag there,
/// the terminal's own otherwise.
pub open spec fn colour_at(tags: Seq<HighlightType>, i: int, highlighted: bool) -> Colour {
    if highlighted && 0 <= i < tags.len() {
        colour_of(tags[i])
    } else {
        Colour::Reset
    }
}

/// The commands that draw the bytes of `bytes` at the offsets from `from`
/// up to `to`, `previous` being the colour in force: each byte is printed,
/// and the colour is set before a byte whose colour is not in force.
pub open spec fn draw(
    bytes: Seq<u8>,
    tags: Seq<HighlightType>,
    highlighted: bool,
    from: int,
    to: int,
    previous: Colour,
) -> Seq<PrintCommand>
    decreases to - from,
{
    if from >= to {
        Seq::empty()
    } else {
        let colour = colour_at(tags, from, highlighted);
        let switch = if colour != previous {
            seq![PrintCommand::SetForeground(colour)]
        } else {
            Seq::empty()
        };
        switch + seq![PrintCommand::Print(bytes[from])] + draw(
            bytes,
            tags,
            highlighted,
            from + 1,
            to,
            colour,
        )
    }
}

/// The smaller of `a` and `b`.
pub open spec fn least(a: int, b: int) -> int {
    if a <= b {
        a
    } else {
        b
    }
}

/// The commands that draw the window of a row between the offsets `start`
/// and `end`, both cut down to the row's length, and leave the terminal's
/// own colour in force. The window is empty where `end` is not past
/// `start`.
pub open spec fn drawing(
    bytes: Seq<u8>,
    tags: Seq<HighlightType>,
    start: int,
    end: int,
    highlighted: bool,
) -> Seq<PrintCommand> {
    draw(
        bytes,
        tags,
        highlighted,
        least(start, bytes.len() as int),
        least(end, bytes.len() as int),
        Colour::Reset,
    ) + seq![PrintCommand::SetForeground(Colour::Reset)]
}

/// `row` with `bytes` put in at offset `at`.
pub open spec fn spliced(row: Seq<u8>, at: int, bytes: Seq<u8>) -> Seq<u8> {
    row.take(at) + bytes + row.skip(at)
}

/// `tags` with the `count` tags from offset `start` on replaced by the tag
/// of a search result.
pub open spec fn marked(tags: Seq<HighlightType>, start: int, count: int) -> Seq<HighlightType> {
    Seq::new(
        tags.len(),
        |i: int|
            if start <= i < start + count {
                HighlightType::SearchResult
            } else {
                tags[i]
            },
    )
}

/// One row of the document.
pub struct Line {
    content: Vec<u8>,
    highlight_types: Vec<HighlightType>,
}

impl View for Line {
    type V = Seq<u8>;

    /// The bytes of the row.
    closed spec fn view(&self) -> Seq<u8> {
        self.content@
    }
}

impl Line {
    /// The tags of the row. They are as many as the bytes once the buffer
    /// has been highlighted; an edit of the row leaves them as they were.
    pub closed spec fn tags(&self) -> Seq<HighlightType> {
        self.highlight_types@
    }

    /// A row that holds the bytes of `content` and no tags yet.
    pub fn new(content: String) -> (line: Line)
        ensures
            line@ == encode_utf8(content@),
            line.tags() == Seq::<HighlightType>::empty(),
    {
        Line { content: slice_to_vec(content.as_str().as_bytes()), highlight_types: Vec::new() }
    }

    /// A row that holds `content` and no tags yet.
    pub fn from_bytes(content: Vec<u8>) -> (line: Line)
        ensures
            line@ == content@,
            line.tags() == Seq::<HighlightType>::empty(),
    {
        Line { content, highlight_types: Vec::new() }
    }

    /// An empty row.
    pub fn blank() -> (line: Line)
        ensures
            line@ == Seq::<u8>::empty(),
            line.tags() == Seq::<HighlightType>::empty(),
    {
        Line { content: Vec::new(), highlight_types: Vec::new() }
    }

    /// Puts the bytes of `s` into the row at offset `index`.
    pub fn insert(&mut self, index: usize, s: &str)
        requires
            index <= old(self)@.len(),
        ensures
            final(self)@ == spliced(old(self)@, index as int, s.spec_bytes()),
            final(self).tags() == old(self).tags(),
    {
        self.insert_bytes(index, s.as_bytes());
    }

    /// Puts `bytes` into the row at offset `index`.
    pub fn insert_bytes(&mut self, index: usize, bytes: &[u8])
        requires
            index <= old(self)@.len(),
        ensures
            final(self)@ == spliced(old(self)@, index as int, bytes@),
            final(self).tags() == old(self).tags(),
    {
        let mut tail = self.content.split_off(index);
        append_bytes(&mut self.content, bytes);
        self.content.append(&mut tail);
    }

    /// Takes the byte at offset `index` out of the row.
    pub fn delete_char(&mut self, index: usize)
        requires
            index < old(self)@.len(),
        ensures
            final(self)@ == old(self)@.remove(index as int),
            final(self).tags() == old(self).tags(),
    {
        self.content.remove(index);
    }

    /// Puts the bytes of `line` behind those of the row.
    pub fn append(&mut self, line: &Line)
        ensures
            final(self)@ == old(self)@ + line@,
            final(self).tags() == old(self).tags(),
    {
        append_bytes(&mut self.content, line.content.as_slice());
    }

    /// Cuts the row at offset `index`: the bytes before it stay, those from
    /// it on come back as a row of their own, without tags.
    pub fn split_at(&mut self, index: usize) -> (tail: Line)
        requires
            index <= old(self)@.len(),
        ensures
            final(self)@ == old(self)@.take(index as int),
            tail@ == old(self)@.skip(index as int),
            final(self).tags() == old(self).tags(),
            tail.tags() == Seq::<HighlightType>::empty(),
    {
        let tail = self.content.split_off(index);
        Line { content: tail, highlight_types: Vec::new() }
    }

    /// Looks for `phrase` in the row from offset `start` on. The result
    /// counts from `start`: it is the leftmost offset of the rest of the
    /// row at which the phrase stands.
    pub fn find_phrase(&self, phrase: &str, start: usize) -> (found: Option<usize>)
        requires
            start <= self@.len(),
        ensures
            match found {
                Some(at) => first_match(self@.skip(start as int), phrase.spec_bytes(), at as int),
                None => no_match(self@.skip(start as int), phrase.spec_bytes()),
            },
    {
        let text = self.content.as_slice();
        find_bytes(slice_subrange(text, start, text.len()), phrase.as_bytes())
    }

    /// The number of bytes in the row.
    pub fn len(&self) -> (len: usize)
        ensures
            len == self@.len(),
    {
        self.content.len()
    }

    /// The bytes of the row.
    pub fn as_bytes(&self) -> (bytes: &[u8])
        ensures
            bytes@ == self@,
    {
        self.content.as_slice()
    }

    /// The tags of the row.
    pub fn highlight_types(&self) -> (tags: &[HighlightType])
        ensures
            tags@ == self.tags(),
    {
        self.highlight_types.as_slice()
    }

    /// Gives the row the tags `tags`.
    pub fn set_highlight_types(&mut self, tags: Vec<HighlightType>)
        ensures
            final(self)@ == old(self)@,
            final(self).tags() == tags@,
    {
        self.highlight_types = tags;
    }

    /// Tags the `count` bytes from offset `start` on as part of a search
    /// result.
    pub fn highlight_match(&mut self, start: usize, count: usize)
        requires
            start + count <= old(self).tags().len(),
        ensures
            final(self)@ == old(self)@,
            final(self).tags() == marked(old(self).tags(), start as int, count as int),
    {
        let ghost before = self.highlight_types@;
        let len: usize = self.highlight_types.len();
        let mut i: usize = 0;
        assert(self.highlight_types@ =~= marked(before, start as int, 0));
        while i < count
            invariant
                i <= count,
                len == before.len(),
                start + count <= before.len(),
                self.content == old(self).content,
                self.highlight_types@ == marked(before, start as int, i as int),
            decreases count - i,
        {
            self.highlight_types.set(i + start, HighlightType::SearchResult);
            i += 1;
            assert(self.highlight_types@ =~= marked(before, start as int, i as int));
        }
    }

    /// The commands that draw the row between the offsets `start` and
    /// `end`. Where `highlight` is there each byte is drawn in the colour
    /// of its tag, otherwise all in the terminal's own colour.
    pub fn print(&self, start: usize, end: usize, highlight: &Option<RustSyntax>) -> (commands: Vec<
        PrintCommand,
    >)
        ensures
            commands@ == drawing(self@, self.tags(), start as int, end as int, highlight is Some),
    {
        let len: usize = self.len();
        let from: usize = if start <= len {
            start
        } else {
            len
        };
        let to: usize = if end <= len {
            end
        } else {
            len
        };
        let mut commands: Vec<PrintCommand> = Vec::new();
        let mut previous_colour = Colour::Reset;
        let mut i: usize = from;
        assert(commands@ + draw(
            self@,
            self.tags(),
            highlight is Some,
            i as int,
            to as int,
            previous_colour,
        ) =~= draw(self@, self.tags(), highlight is Some, from as int, to as int, Colour::Reset));
        while i < to
            invariant
                to <= len,
                len == self@.len(),
                commands@ + draw(
                    self@,
                    self.tags(),
                    highlight is Some,
                    i as int,
                    to as int,
                    previous_colour,
                ) == draw(
                    self@,
                    self.tags(),
                    highlight is Some,
                    from as int,
                    to as int,
                    Colour::Reset,
                ),
            decreases to - i,
        {
            let ghost before = commands@;
            let colour = match highlight {
                Some(syntax_highlight) => {
                    if i < self.highlight_types.len() {
                        syntax_highlight.syntax_colour(&self.highlight_types[i])
                    } else {
                        Colour::Reset
                    }
                },
                None => Colour::Reset,
            };
            if previous_colour != colour {
                commands.push(PrintCommand::SetForeground(colour));
            }
            commands.push(PrintCommand::Print(self.content[i]));
            proof {
                let rest = draw(
                    self@,
                    self.tags(),
                    highlight is Some,
                    i + 1,
                    to as int,
                    colour,
                );
                let switch = if colour != previous_colour {
                    seq![PrintCommand::SetForeground(colour)]
                } else {
                    Seq::empty()
                };
                assert(commands@ =~= before + switch + seq![PrintCommand::Print(self@[i as int])]);
                assert(commands@ + rest =~= before + (switch + seq![
                    PrintCommand::Print(self@[i as int]),
                ] + rest));
            }
            previous_colour = colour;
            i += 1;
        }
        commands.push(PrintCommand::SetForeground(Colour::Reset));
        assert(commands@ =~= drawing(self@, self.tags(), start as int, end as int, highlight is Some));
        commands
    }
}

} // verus!
