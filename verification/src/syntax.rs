//! The syntax highlighter: one left-to-right scan that gives every byte of
//! the buffer a lexical class.

use vstd::prelude::*;
use vstd::slice::slice_subrange;
use vstd::slice::slice_to_vec;
use vstd::string::*;

use crate::bytes::NEWLINE;
use crate::bytes::append_bytes;
use crate::bytes::match_at;
use crate::bytes::matches_at;
use crate::highlight::Colour;
use crate::highlight::HighlightType;
use crate::highlight::colour_of;
use crate::line::Line;

verus! {

/// The byte `_`.
pub const UNDERSCORE: u8 = 0x5f;

/// The byte `.`.
pub const DOT: u8 = 0x2e;

/// The byte `\`.
pub const BACKSLASH: u8 = 0x5c;

/// The byte `"`.
pub const DOUBLE_QUOTE: u8 = 0x22;

/// The byte `'`.
pub const SINGLE_QUOTE: u8 = 0x27;

/// An ASCII letter.
pub open spec fn alphabetic(b: u8) -> bool {
    (0x41 <= b && b <= 0x5a) || (0x61 <= b && b <= 0x7a)
}

/// An ASCII digit.
pub open spec fn numeric(b: u8) -> bool {
    0x30 <= b && b <= 0x39
}

/// One of `(){}[]`.
pub open spec fn bracket(b: u8) -> bool {
    b == 0x28 || b == 0x29 || b == 0x7b || b == 0x7d || b == 0x5b || b == 0x5d
}

/// A quote that opens a string: `"` or `'`.
pub open spec fn quote(b: u8) -> bool {
    b == DOUBLE_QUOTE || b == SINGLE_QUOTE
}

/// Whether `b` may stand at offset `at` of a word: a letter or `_` anywhere,
/// a digit anywhere but in front.
pub open spec fn word_byte(b: u8, at: int) -> bool {
    alphabetic(b) || b == UNDERSCORE || (numeric(b) && at > 0)
}

/// Whether `b` may stand at offset `at` of a number: a digit anywhere, `_`
/// or `.` anywhere but in front.
pub open spec fn number_byte(b: u8, at: int) -> bool {
    numeric(b) || (at > 0 && (b == UNDERSCORE || b == DOT))
}

/// Where the word ends whose first `n` bytes are already known to belong
/// to it: the first offset from `n` on that is past the end of `s` or
/// holds no word byte.
pub open spec fn word_end(s: Seq<u8>, n: int) -> int
    decreases s.len() - n,
{
    if 0 <= n < s.len() && word_byte(s[n], n) {
        word_end(s, n + 1)
    } else {
        n
    }
}

/// The length of the word that `s` begins with, 0 where it begins with none.
pub open spec fn word_run(s: Seq<u8>) -> int {
    word_end(s, 0)
}

/// Where the number ends whose first `n` bytes are already known to belong
/// to it.
pub open spec fn number_end(s: Seq<u8>, n: int) -> int
    decreases s.len() - n,
{
    if 0 <= n < s.len() && number_byte(s[n], n) {
        number_end(s, n + 1)
    } else {
        n
    }
}

/// The length of the number that `s` begins with, 0 where it begins with
/// none.
pub open spec fn number_run(s: Seq<u8>) -> int {
    number_end(s, 0)
}

/// Where the string ends that was opened by `start` and has been read up
/// to `pos`; `escaped` says that the byte just before `pos` was a backslash
/// that keeps the byte at `pos` from closing it. A string that is never
/// closed ends with `s`.
pub open spec fn string_end(s: Seq<u8>, start: u8, pos: int, escaped: bool) -> int
    decreases s.len() - pos,
{
    if !(0 <= pos < s.len()) {
        pos
    } else if !escaped && s[pos] == start {
        pos + 1
    } else {
        string_end(s, start, pos + 1, s[pos] == BACKSLASH && !escaped)
    }
}

/// The length of the quoted string that `s` begins with, closing quote
/// counted, 0 where `s` does not begin with a quote.
pub open spec fn string_run(s: Seq<u8>) -> int {
    if s.len() > 0 && quote(s[0]) {
        string_end(s, s[0], 1, false)
    } else {
        0
    }
}

/// The offset just past the first line break at or after `pos`, or the
/// length of `s` where there is none.
pub open spec fn line_end(s: Seq<u8>, pos: int) -> int
    decreases s.len() - pos,
{
    if !(0 <= pos < s.len()) {
        s.len() as int
    } else if s[pos] == NEWLINE {
        pos + 1
    } else {
        line_end(s, pos + 1)
    }
}

/// The length of the line comment that `s` begins with, its line break
/// counted, 0 where `s` does not begin with `start`.
pub open spec fn line_comment_run(s: Seq<u8>, start: Seq<u8>) -> int {
    if matches_at(s, start, 0) {
        line_end(s, start.len() as int)
    } else {
        0
    }
}

/// Where the block comment ends that has been read up to `pos` with
/// `depth` delimiters still open. Every `start` met on the way opens one
/// more and every `end` closes one, whatever the depth is; the comment ends
/// at the first offset where neither stands and the depth is zero, or with
/// `s`. So a comment that follows another without a gap belongs to the same
/// run, and an `end` too many is never made up for by the bytes that follow
/// unless a `start` follows.
pub open spec fn block_comment_end(
    s: Seq<u8>,
    start: Seq<u8>,
    end: Seq<u8>,
    pos: int,
    depth: int,
) -> int
    decreases s.len() - pos,
{
    if !(0 <= pos < s.len()) {
        pos
    } else if matches_at(s, start, pos) && start.len() > 0 {
        block_comment_end(s, start, end, pos + start.len(), depth + 1)
    } else if matches_at(s, end, pos) && end.len() > 0 {
        block_comment_end(s, start, end, pos + end.len(), depth - 1)
    } else if depth == 0 {
        pos
    } else {
        block_comment_end(s, start, end, pos + 1, depth)
    }
}

/// The length of the block comment that `s` begins with, 0 where `s` does
/// not begin with `start`.
pub open spec fn block_comment_run(s: Seq<u8>, start: Seq<u8>, end: Seq<u8>) -> int {
    if matches_at(s, start, 0) {
        block_comment_end(s, start, end, start.len() as int, 1)
    } else {
        0
    }
}

/// Whether `word` is one of the words that the language reserves.
pub open spec fn keyword(word: Seq<u8>) -> bool {
    ||| word == "impl".spec_bytes()
    ||| word == "fn".spec_bytes()
    ||| word == "pub".spec_bytes()
    ||| word == "struct".spec_bytes()
    ||| word == "enum".spec_bytes()
    ||| word == "trait".spec_bytes()
    ||| word == "use".spec_bytes()
    ||| word == "for".spec_bytes()
    ||| word == "if".spec_bytes()
    ||| word == "while".spec_bytes()
    ||| word == "else".spec_bytes()
    ||| word == "break".spec_bytes()
    ||| word == "return".spec_bytes()
    ||| word == "continue".spec_bytes()
    ||| word == "mod".spec_bytes()
    ||| word == "macro_rules".spec_bytes()
    ||| word == "true".spec_bytes()
    ||| word == "false".spec_bytes()
    ||| word == "loop".spec_bytes()
    ||| word == "match".spec_bytes()
    ||| word == "let".spec_bytes()
    ||| word == "as".spec_bytes()
    ||| word == "mut".spec_bytes()
}

/// The length of the comment that `s` begins with: the longer of the line
/// comment and the block comment that start there, 0 where neither does.
pub open spec fn comment_run(s: Seq<u8>) -> int {
    let line = line_comment_run(s, "//".spec_bytes());
    let block = block_comment_run(s, "/*".spec_bytes(), "*/".spec_bytes());
    if line >= block {
        line
    } else {
        block
    }
}

/// The class of the token that a non-empty `s` begins with. The rules are
/// tried in a fixed order and the first that reads at least one byte wins:
/// word, number, string, bracket, comment; a byte that none of them takes
/// is a token of its own.
pub open spec fn token_type(s: Seq<u8>) -> HighlightType {
    if word_run(s) > 0 {
        if keyword(s.subrange(0, word_run(s))) {
            HighlightType::Keyword
        } else {
            HighlightType::Identity
        }
    } else if number_run(s) > 0 {
        HighlightType::Number
    } else if string_run(s) > 0 {
        HighlightType::String
    } else if bracket(s[0]) {
        HighlightType::Bracket
    } else if comment_run(s) > 0 {
        HighlightType::Comment
    } else {
        HighlightType::Standard
    }
}

/// The length of the token that a non-empty `s` begins with.
pub open spec fn token_len(s: Seq<u8>) -> int {
    if word_run(s) > 0 {
        word_run(s)
    } else if number_run(s) > 0 {
        number_run(s)
    } else if string_run(s) > 0 {
        string_run(s)
    } else if bracket(s[0]) {
        1
    } else if comment_run(s) > 0 {
        comment_run(s)
    } else {
        1
    }
}

/// `count` tags of the class `class`.
pub open spec fn run_of(class: HighlightType, count: int) -> Seq<HighlightType> {
    Seq::new(count as nat, |i: int| class)
}

/// The class of every byte of `s`: token after token from the left, each
/// byte bearing the class of its token.
pub open spec fn scan(s: Seq<u8>) -> Seq<HighlightType>
    decreases s.len(),
    via scan_decreases
{
    if s.len() == 0 {
        Seq::empty()
    } else {
        run_of(token_type(s), token_len(s)) + scan(s.skip(token_len(s)))
    }
}

#[via_fn]
proof fn scan_decreases(s: Seq<u8>) {
    if s.len() > 0 {
        lemma_token_len_bounds(s);
    }
}

/// The word read on from offset `n` ends in `s`, holds word bytes only,
/// and is not followed by a word byte.
pub proof fn lemma_word_end(s: Seq<u8>, n: int)
    requires
        0 <= n <= s.len(),
    ensures
        n <= word_end(s, n) <= s.len(),
        forall|k: int| n <= k < word_end(s, n) ==> word_byte(#[trigger] s[k], k),
        word_end(s, n) < s.len() ==> !word_byte(s[word_end(s, n)], word_end(s, n)),
    decreases s.len() - n,
{
    if n < s.len() && word_byte(s[n], n) {
        lemma_word_end(s, n + 1);
    }
}

/// The word that `s` begins with is the longest run of word bytes at its
/// front.
pub proof fn lemma_word_run_longest(s: Seq<u8>)
    ensures
        0 <= word_run(s) <= s.len(),
        forall|k: int| 0 <= k < word_run(s) ==> word_byte(#[trigger] s[k], k),
        word_run(s) < s.len() ==> !word_byte(s[word_run(s)], word_run(s)),
{
    lemma_word_end(s, 0);
}

/// The number read on from offset `n` ends in `s`, holds number bytes
/// only, and is not followed by a number byte.
pub proof fn lemma_number_end(s: Seq<u8>, n: int)
    requires
        0 <= n <= s.len(),
    ensures
        n <= number_end(s, n) <= s.len(),
        forall|k: int| n <= k < number_end(s, n) ==> number_byte(#[trigger] s[k], k),
        number_end(s, n) < s.len() ==> !number_byte(s[number_end(s, n)], number_end(s, n)),
    decreases s.len() - n,
{
    if n < s.len() && number_byte(s[n], n) {
        lemma_number_end(s, n + 1);
    }
}

/// The number that `s` begins with is the longest run of number bytes at
/// its front.
pub proof fn lemma_number_run_longest(s: Seq<u8>)
    ensures
        0 <= number_run(s) <= s.len(),
        forall|k: int| 0 <= k < number_run(s) ==> number_byte(#[trigger] s[k], k),
        number_run(s) < s.len() ==> !number_byte(s[number_run(s)], number_run(s)),
{
    lemma_number_end(s, 0);
}

/// A string read on from offset `pos` ends in `s`.
pub proof fn lemma_string_end_bounds(s: Seq<u8>, start: u8, pos: int, escaped: bool)
    requires
        0 <= pos <= s.len(),
    ensures
        pos <= string_end(s, start, pos, escaped) <= s.len(),
    decreases s.len() - pos,
{
    if pos < s.len() && !(!escaped && s[pos] == start) {
        lemma_string_end_bounds(s, start, pos + 1, s[pos] == BACKSLASH && !escaped);
    }
}

/// A line read on from offset `pos` ends in `s`, right behind its first
/// line break or, where it has none, with `s`.
pub proof fn lemma_line_end(s: Seq<u8>, pos: int)
    requires
        0 <= pos <= s.len(),
    ensures
        pos <= line_end(s, pos) <= s.len(),
        forall|k: int| pos <= k < line_end(s, pos) - 1 ==> #[trigger] s[k] != NEWLINE,
        line_end(s, pos) < s.len() ==> pos < line_end(s, pos) && s[line_end(s, pos) - 1]
            == NEWLINE,
        pos < s.len() ==> pos < line_end(s, pos),
    decreases s.len() - pos,
{
    if pos < s.len() && s[pos] != NEWLINE {
        lemma_line_end(s, pos + 1);
    }
}

/// A block comment read on from offset `pos` ends in `s`.
pub proof fn lemma_block_comment_end_bounds(
    s: Seq<u8>,
    start: Seq<u8>,
    end: Seq<u8>,
    pos: int,
    depth: int,
)
    requires
        0 <= pos <= s.len(),
    ensures
        pos <= block_comment_end(s, start, end, pos, depth) <= s.len(),
    decreases s.len() - pos,
{
    if pos < s.len() {
        if matches_at(s, start, pos) && start.len() > 0 {
            lemma_block_comment_end_bounds(s, start, end, pos + start.len(), depth + 1);
        } else if matches_at(s, end, pos) && end.len() > 0 {
            lemma_block_comment_end_bounds(s, start, end, pos + end.len(), depth - 1);
        } else if depth != 0 {
            lemma_block_comment_end_bounds(s, start, end, pos + 1, depth);
        }
    }
}

/// Every token of a non-empty input takes at least one byte and no more
/// than there are.
pub proof fn lemma_token_len_bounds(s: Seq<u8>)
    requires
        s.len() > 0,
    ensures
        1 <= token_len(s) <= s.len(),
{
    lemma_word_end(s, 0);
    lemma_number_end(s, 0);
    lemma_string_end_bounds(s, s[0], 1, false);
    let line = "//".spec_bytes();
    let open = "/*".spec_bytes();
    let close = "*/".spec_bytes();
    if matches_at(s, line, 0) {
        lemma_line_end(s, line.len() as int);
    }
    if matches_at(s, open, 0) {
        lemma_block_comment_end_bounds(s, open, close, open.len() as int, 1);
    }
}

/// The bytes of each of `lines`.
pub open spec fn rows_of(lines: Seq<Line>) -> Seq<Seq<u8>> {
    lines.map_values(|line: Line| line@)
}

/// The tags of each of `lines`.
pub open spec fn tags_of(lines: Seq<Line>) -> Seq<Seq<HighlightType>> {
    lines.map_values(|line: Line| line.tags())
}

/// The rows as one run of bytes, a line break behind each.
pub open spec fn stream(rows: Seq<Seq<u8>>) -> Seq<u8>
    decreases rows.len(),
{
    if rows.len() == 0 {
        Seq::empty()
    } else {
        stream(rows.drop_last()) + rows.last() + seq![NEWLINE]
    }
}

/// The offset in `stream(rows)` at which row `k` begins.
pub open spec fn row_start(rows: Seq<Seq<u8>>, k: int) -> int {
    stream(rows.take(k)).len() as int
}

/// The tags of row `k` when the rows are highlighted together: the part of
/// the scan of the whole stream that lies on the row. The line breaks
/// between the rows are scanned and bear no tag of any row.
pub open spec fn row_tags(rows: Seq<Seq<u8>>, k: int) -> Seq<HighlightType> {
    scan(stream(rows)).subrange(row_start(rows, k), row_start(rows, k) + rows[k].len())
}

/// The tags of all rows when they are highlighted together.
pub open spec fn highlight(rows: Seq<Seq<u8>>) -> Seq<Seq<HighlightType>> {
    Seq::new(rows.len(), |k: int| row_tags(rows, k))
}

/// The scan gives every byte one tag.
pub proof fn lemma_scan_len(s: Seq<u8>)
    ensures
        scan(s).len() == s.len(),
    decreases s.len(),
{
    if s.len() > 0 {
        lemma_token_len_bounds(s);
        lemma_scan_len(s.skip(token_len(s)));
    }
}

/// Row `k` and its line break lie in the stream between the start of the
/// row and the start of the next.
pub proof fn lemma_row_start_step(rows: Seq<Seq<u8>>, k: int)
    requires
        0 <= k < rows.len(),
    ensures
        stream(rows.take(k + 1)) == stream(rows.take(k)) + rows[k] + seq![NEWLINE],
        row_start(rows, k + 1) == row_start(rows, k) + rows[k].len() + 1,
{
    assert(rows.take(k + 1).drop_last() =~= rows.take(k));
}

/// No row begins past the end of the stream.
pub proof fn lemma_row_start_bound(rows: Seq<Seq<u8>>, k: int)
    requires
        0 <= k <= rows.len(),
    ensures
        0 <= row_start(rows, k) <= stream(rows).len(),
    decreases rows.len() - k,
{
    if k == rows.len() {
        assert(rows.take(k) =~= rows);
    } else {
        lemma_row_start_step(rows, k);
        lemma_row_start_bound(rows, k + 1);
    }
}

/// Highlighting gives every row as many tags as it has bytes.
pub proof fn lemma_highlight_aligned(rows: Seq<Seq<u8>>)
    ensures
        highlight(rows).len() == rows.len(),
        forall|k: int| 0 <= k < rows.len() ==> (#[trigger] highlight(rows)[k]).len() == rows[k].len(),
{
    lemma_scan_len(stream(rows));
    assert forall|k: int| 0 <= k < rows.len() implies (#[trigger] highlight(rows)[k]).len()
        == rows[k].len() by {
        lemma_row_start_step(rows, k);
        lemma_row_start_bound(rows, k);
        lemma_row_start_bound(rows, k + 1);
    }
}

/// Whether `c` is an ASCII letter.
pub fn is_alphabetic(c: u8) -> (b: bool)
    ensures
        b == alphabetic(c),
{
    (0x41 <= c && c <= 0x5a) || (0x61 <= c && c <= 0x7a)
}

/// Whether `c` is an ASCII digit.
pub fn is_numeric(c: u8) -> (b: bool)
    ensures
        b == numeric(c),
{
    0x30 <= c && c <= 0x39
}

/// Whether `c` is one of `(){}[]`.
pub fn is_bracket(c: u8) -> (b: bool)
    ensures
        b == bracket(c),
{
    c == 0x28 || c == 0x29 || c == 0x7b || c == 0x7d || c == 0x5b || c == 0x5d
}

fn is_word_byte(c: u8, at: usize) -> (b: bool)
    ensures
        b == word_byte(c, at as int),
{
    is_alphabetic(c) || c == UNDERSCORE || (is_numeric(c) && at > 0)
}

fn is_number_byte(c: u8, at: usize) -> (b: bool)
    ensures
        b == number_byte(c, at as int),
{
    is_numeric(c) || (at > 0 && (c == UNDERSCORE || c == DOT))
}

/// The length of the word at the front of `chars`: letters and `_`, and
/// after the first byte digits too.
pub fn word_len(chars: &[u8]) -> (len: usize)
    ensures
        len == word_run(chars@),
        len <= chars@.len(),
{
    let mut len: usize = 0;
    while len < chars.len() && is_word_byte(chars[len], len)
        invariant
            len <= chars@.len(),
            word_end(chars@, len as int) == word_end(chars@, 0),
        decreases chars@.len() - len,
    {
        len += 1;
    }
    len
}

/// The length of the number at the front of `chars`: digits, and after the
/// first byte `_` and `.` too.
pub fn number_len(chars: &[u8]) -> (len: usize)
    ensures
        len == number_run(chars@),
        len <= chars@.len(),
{
    let mut len: usize = 0;
    while len < chars.len() && is_number_byte(chars[len], len)
        invariant
            len <= chars@.len(),
            number_end(chars@, len as int) == number_end(chars@, 0),
        decreases chars@.len() - len,
    {
        len += 1;
    }
    len
}

/// The length of the quoted string at the front of `chars`, from its
/// opening quote through the first later quote of the same kind that no
/// backslash escapes, or through the last byte where no such quote follows.
pub fn string_len(chars: &[u8]) -> (len: usize)
    ensures
        len == string_run(chars@),
        len <= chars@.len(),
{
    if chars.len() == 0 {
        return 0;
    }
    let start: u8 = chars[0];
    if !(start == DOUBLE_QUOTE || start == SINGLE_QUOTE) {
        return 0;
    }
    let mut len: usize = 1;
    let mut is_escaped = false;
    while len < chars.len()
        invariant
            1 <= len <= chars@.len(),
            start == chars@[0],
            quote(start),
            string_end(chars@, start, len as int, is_escaped) == string_end(chars@, start, 1, false),
        decreases chars@.len() - len,
    {
        let c: u8 = chars[len];
        len += 1;
        if !is_escaped && c == start {
            return len;
        }
        is_escaped = c == BACKSLASH && !is_escaped;
    }
    len
}

/// Whether `chars` begins with `sequence`.
pub fn match_sequence(chars: &[u8], sequence: &str) -> (b: bool)
    ensures
        b == matches_at(chars@, sequence.spec_bytes(), 0),
{
    match_at(chars, 0, sequence.as_bytes())
}

/// The length of the line comment at the front of `chars`: from `start`
/// through the next line break, or through the last byte where none
/// follows; 0 where `chars` does not begin with `start`.
pub fn single_line_comment_len(chars: &[u8], start: &str) -> (len: usize)
    ensures
        len == line_comment_run(chars@, start.spec_bytes()),
        len <= chars@.len(),
{
    if !match_sequence(chars, start) {
        return 0;
    }
    let mut len: usize = start.as_bytes().len();
    while len < chars.len()
        invariant
            len <= chars@.len(),
            matches_at(chars@, start.spec_bytes(), 0),
            line_end(chars@, len as int) == line_end(chars@, start.spec_bytes().len() as int),
        decreases chars@.len() - len,
    {
        let c: u8 = chars[len];
        len += 1;
        if c == NEWLINE {
            return len;
        }
    }
    len
}

/// The length of the block comment at the front of `chars`, with nested
/// comments counted in and out; 0 where `chars` does not begin with
/// `start`.
pub fn multi_line_comment_len(chars: &[u8], start: &str, end: &str) -> (len: usize)
    requires
        start.spec_bytes().len() > 0,
        end.spec_bytes().len() > 0,
    ensures
        len == block_comment_run(chars@, start.spec_bytes(), end.spec_bytes()),
        len <= chars@.len(),
{
    if !match_sequence(chars, start) {
        return 0;
    }
    let open = start.as_bytes();
    let close = end.as_bytes();
    let mut len: usize = open.len();
    let mut depth: i128 = 1;
    while len < chars.len()
        invariant
            len <= chars@.len(),
            matches_at(chars@, start.spec_bytes(), 0),
            open@ == start.spec_bytes(),
            close@ == end.spec_bytes(),
            open@.len() > 0,
            close@.len() > 0,
            -len <= depth <= len,
            block_comment_end(chars@, open@, close@, len as int, depth as int)
                == block_comment_end(chars@, open@, close@, open@.len() as int, 1),
        decreases chars@.len() - len,
    {
        if match_at(chars, len, open) {
            depth += 1;
            len += open.len();
        } else if match_at(chars, len, close) {
            depth -= 1;
            len += close.len();
        } else if depth == 0 {
            return len;
        } else {
            len += 1;
        }
    }
    len
}

/// Whether `word` is exactly the bytes of `text`.
fn is_text(word: &[u8], text: &str) -> (b: bool)
    ensures
        b == (word@ == text.spec_bytes()),
{
    let bytes = text.as_bytes();
    if word.len() != bytes.len() {
        return false;
    }
    let same = match_at(word, 0, bytes);
    assert(word@.subrange(0, word@.len() as int) =~= word@);
    same
}

/// Whether `word` is one of the reserved words.
pub fn is_keyword(word: &[u8]) -> (b: bool)
    ensures
        b == keyword(word@),
{
    is_text(word, "impl") || is_text(word, "fn") || is_text(word, "pub") || is_text(
        word,
        "struct",
    ) || is_text(word, "enum") || is_text(word, "trait") || is_text(word, "use") || is_text(
        word,
        "for",
    ) || is_text(word, "if") || is_text(word, "while") || is_text(word, "else") || is_text(
        word,
        "break",
    ) || is_text(word, "return") || is_text(word, "continue") || is_text(word, "mod")
        || is_text(word, "macro_rules") || is_text(word, "true") || is_text(word, "false")
        || is_text(word, "loop") || is_text(word, "match") || is_text(word, "let") || is_text(
        word,
        "as",
    ) || is_text(word, "mut")
}

/// The length of the comment at the front of `chars`, 0 where none starts
/// there.
pub fn comment_len(chars: &[u8]) -> (len: usize)
    ensures
        len == comment_run(chars@),
        len <= chars@.len(),
{
    proof {
        reveal_strlit("/*");
        reveal_strlit("*/");
        is_ascii_spec_bytes("/*");
        is_ascii_spec_bytes("*/");
    }
    let line = single_line_comment_len(chars, "//");
    let block = multi_line_comment_len(chars, "/*", "*/");
    if line >= block {
        line
    } else {
        block
    }
}

/// The class and the length of the token at the front of `chars`.
pub fn next_token(chars: &[u8]) -> (token: (HighlightType, usize))
    requires
        chars@.len() > 0,
    ensures
        token.0 == token_type(chars@),
        token.1 == token_len(chars@),
        1 <= token.1 <= chars@.len(),
{
    let word = word_len(chars);
    if word > 0 {
        if is_keyword(slice_subrange(chars, 0, word)) {
            return (HighlightType::Keyword, word);
        }
        return (HighlightType::Identity, word);
    }
    let number = number_len(chars);
    if number > 0 {
        return (HighlightType::Number, number);
    }
    let string = string_len(chars);
    if string > 0 {
        return (HighlightType::String, string);
    }
    if is_bracket(chars[0]) {
        return (HighlightType::Bracket, 1);
    }
    let comment = comment_len(chars);
    if comment > 0 {
        return (HighlightType::Comment, comment);
    }
    (HighlightType::Standard, 1)
}

fn push_run(tags: &mut Vec<HighlightType>, class: HighlightType, count: usize)
    ensures
        final(tags)@ == old(tags)@ + run_of(class, count as int),
{
    let mut done: usize = 0;
    while done < count
        invariant
            done <= count,
            tags@ == old(tags)@ + run_of(class, done as int),
        decreases count - done,
    {
        tags.push(class);
        done += 1;
        assert(tags@ =~= old(tags)@ + run_of(class, done as int));
    }
}

/// Gives every byte of `chars` its class.
pub fn tokenize(chars: &[u8]) -> (tags: Vec<HighlightType>)
    ensures
        tags@ == scan(chars@),
{
    let n: usize = chars.len();
    let mut tags: Vec<HighlightType> = Vec::with_capacity(n);
    let mut i: usize = 0;
    assert(chars@.skip(0) =~= chars@);
    assert(tags@ + scan(chars@) =~= scan(chars@));
    while i < n
        invariant
            i <= n,
            n == chars@.len(),
            tags@ + scan(chars@.skip(i as int)) == scan(chars@),
        decreases n - i,
    {
        let rest = slice_subrange(chars, i, n);
        let (class, len) = next_token(rest);
        push_run(&mut tags, class, len);
        proof {
            assert(chars@.skip(i as int).skip(len as int) =~= chars@.skip(i + len));
            assert(tags@ + scan(chars@.skip(i + len)) =~= scan(chars@));
        }
        i += len;
    }
    assert(chars@.skip(n as int) =~= Seq::<u8>::empty());
    assert(tags@ =~= scan(chars@));
    tags
}

/// The highlighter for Rust source text.
pub struct RustSyntax {}

impl RustSyntax {
    /// Highlights `lines` anew: scans their bytes as one stream, the rows
    /// parted by line breaks, and gives each row the tags that fall on it.
    pub fn update_syntax(&self, lines: &mut Vec<Line>)
        ensures
            rows_of(final(lines)@) == rows_of(old(lines)@),
            tags_of(final(lines)@) == highlight(rows_of(old(lines)@)),
    {
        let ghost rows = rows_of(lines@);
        let count: usize = lines.len();
        let mut chars: Vec<u8> = Vec::new();
        let mut k: usize = 0;
        assert(rows.take(0) =~= Seq::<Seq<u8>>::empty());
        while k < count
            invariant
                k <= count,
                count == lines@.len(),
                rows == rows_of(lines@),
                chars@ == stream(rows.take(k as int)),
            decreases count - k,
        {
            append_bytes(&mut chars, lines[k].as_bytes());
            chars.push(NEWLINE);
            proof {
                lemma_row_start_step(rows, k as int);
                assert(chars@ =~= stream(rows.take(k as int)) + rows[k as int] + seq![NEWLINE]);
            }
            k += 1;
        }
        assert(rows.take(count as int) =~= rows);
        let highlight_types = tokenize(chars.as_slice());
        proof {
            lemma_scan_len(stream(rows));
        }
        let total: usize = highlight_types.len();
        let mut start: usize = 0;
        let mut k: usize = 0;
        while k < count
            invariant
                k <= count,
                count == lines@.len(),
                total == stream(rows).len(),
                rows == rows_of(lines@),
                rows == rows_of(old(lines)@),
                highlight_types@ == scan(stream(rows)),
                highlight_types@.len() == stream(rows).len(),
                start == row_start(rows, k as int),
                forall|j: int| 0 <= j < k ==> (#[trigger] lines@[j]).tags() == row_tags(rows, j),
            decreases count - k,
        {
            let len: usize = lines[k].len();
            proof {
                lemma_row_start_step(rows, k as int);
                lemma_row_start_bound(rows, k + 1);
                assert(rows[k as int] == lines@[k as int]@);
            }
            let ghost before = lines@;
            let tags = slice_to_vec(slice_subrange(highlight_types.as_slice(), start, start + len));
            lines[k].set_highlight_types(tags);
            assert(rows_of(lines@) =~= rows_of(before));
            start = start + len + 1;
            k += 1;
        }
        assert(tags_of(lines@) =~= highlight(rows));
    }

    /// The colour in which a byte of the class `highlight_type` is drawn.
    pub fn syntax_colour(&self, highlight_type: &HighlightType) -> (colour: Colour)
        ensures
            colour == colour_of(*highlight_type),
    {
        match highlight_type {
            HighlightType::Identity => Colour::Cyan,
            HighlightType::Keyword => Colour::Blue,
            HighlightType::Number => Colour::Yellow,
            HighlightType::Bracket => Colour::DarkYellow,
            HighlightType::String => Colour::Red,
            HighlightType::Comment => Colour::DarkGreen,
            HighlightType::SearchResult => Colour::Magenta,
            _ => Colour::Reset,
        }
    }
}

} // verus!
