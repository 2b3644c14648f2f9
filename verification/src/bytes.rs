//! Byte sequences: patterns in them, and the bytes of a character.

use vstd::prelude::*;
use vstd::utf8::*;

verus! {

/// The line break.
pub const NEWLINE: u8 = 0x0a;

/// The carriage return.
pub const CARRIAGE_RETURN: u8 = 0x0d;

/// The space.
pub const SPACE: u8 = 0x20;

/// The tabulator.
pub const TAB: u8 = 0x09;

/// Whether `pattern` stands in `s` at offset `pos`.
pub open spec fn matches_at(s: Seq<u8>, pattern: Seq<u8>, pos: int) -> bool {
    0 <= pos && pos + pattern.len() <= s.len() && s.subrange(pos, pos + pattern.len()) == pattern
}

/// Whether `at` is the leftmost offset of `s` at which `pattern` stands.
pub open spec fn first_match(s: Seq<u8>, pattern: Seq<u8>, at: int) -> bool {
    matches_at(s, pattern, at) && forall|k: int| 0 <= k < at ==> !matches_at(s, pattern, k)
}

/// Whether `pattern` stands nowhere in `s`.
pub open spec fn no_match(s: Seq<u8>, pattern: Seq<u8>) -> bool {
    forall|k: int| !matches_at(s, pattern, k)
}

/// Whether `pattern` stands in `chars` at offset `pos`.
pub fn match_at(chars: &[u8], pos: usize, pattern: &[u8]) -> (b: bool)
    requires
        pos <= chars@.len(),
    ensures
        b == matches_at(chars@, pattern@, pos as int),
{
    let n: usize = chars.len();
    if n - pos < pattern.len() {
        return false;
    }
    let mut i: usize = 0;
    while i < pattern.len()
        invariant
            i <= pattern@.len(),
            n == chars@.len(),
            pos + pattern@.len() <= n,
            forall|k: int| 0 <= k < i ==> chars@[pos + k] == pattern@[k],
        decreases pattern@.len() - i,
    {
        if chars[pos + i] != pattern[i] {
            assert(chars@.subrange(pos as int, pos + pattern@.len())[i as int] != pattern@[i as int]);
            return false;
        }
        i += 1;
    }
    assert(chars@.subrange(pos as int, pos + pattern@.len()) =~= pattern@);
    true
}

/// The leftmost offset of `text` at which `phrase` stands, if it stands
/// anywhere. The empty phrase stands at offset 0.
pub fn find_bytes(text: &[u8], phrase: &[u8]) -> (found: Option<usize>)
    ensures
        match found {
            Some(at) => first_match(text@, phrase@, at as int),
            None => no_match(text@, phrase@),
        },
{
    if phrase.len() > text.len() {
        return None;
    }
    let last: usize = text.len() - phrase.len();
    let mut at: usize = 0;
    while at < last
        invariant
            at <= last,
            last + phrase@.len() == text@.len(),
            forall|k: int| 0 <= k < at ==> !matches_at(text@, phrase@, k),
        decreases last - at,
    {
        if match_at(text, at, phrase) {
            return Some(at);
        }
        at += 1;
    }
    if match_at(text, last, phrase) {
        Some(last)
    } else {
        None
    }
}

/// Puts the bytes of `source` behind those of `target`.
pub fn append_bytes(target: &mut Vec<u8>, source: &[u8])
    ensures
        final(target)@ == old(target)@ + source@,
{
    let mut i: usize = 0;
    while i < source.len()
        invariant
            i <= source@.len(),
            target@ == old(target)@ + source@.take(i as int),
        decreases source@.len() - i,
    {
        target.push(source[i]);
        i += 1;
        assert(target@ =~= old(target)@ + source@.take(i as int));
    }
    assert(source@.take(source@.len() as int) =~= source@);
}

/// The UTF-8 bytes of the character `c`.
pub fn encode_char(c: char) -> (bytes: Vec<u8>)
    ensures
        bytes@ == encode_scalar(c as u32),
{
    let v: u32 = c as u32;
    let mut bytes: Vec<u8> = Vec::new();
    if v <= 0x7f {
        assert(v & 0x7f <= 0xff) by (bit_vector);
        bytes.push((v & 0x7f) as u8);
    } else if v <= 0x7ff {
        assert((v >> 6) & 0x1f <= 0xff) by (bit_vector);
        assert(v & 0x3f <= 0xff) by (bit_vector);
        bytes.push(0xc0 | ((v >> 6) & 0x1f) as u8);
        bytes.push(0x80 | (v & 0x3f) as u8);
    } else if v <= 0xffff {
        assert((v >> 12) & 0x0f <= 0xff) by (bit_vector);
        assert((v >> 6) & 0x3f <= 0xff) by (bit_vector);
        assert(v & 0x3f <= 0xff) by (bit_vector);
        bytes.push(0xe0 | ((v >> 12) & 0x0f) as u8);
        bytes.push(0x80 | ((v >> 6) & 0x3f) as u8);
        bytes.push(0x80 | (v & 0x3f) as u8);
    } else {
        assert((v >> 18) & 0x07 <= 0xff) by (bit_vector);
        assert((v >> 12) & 0x3f <= 0xff) by (bit_vector);
        assert((v >> 6) & 0x3f <= 0xff) by (bit_vector);
        assert(v & 0x3f <= 0xff) by (bit_vector);
        bytes.push(0xf0 | ((v >> 18) & 0x07) as u8);
        bytes.push(0x80 | ((v >> 12) & 0x3f) as u8);
        bytes.push(0x80 | ((v >> 6) & 0x3f) as u8);
        bytes.push(0x80 | (v & 0x3f) as u8);
    }
    assert(bytes@ =~= encode_scalar(v));
    bytes
}

} // verus!
