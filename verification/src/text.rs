//! Text out of bytes, and text joined by a separator.

use vstd::prelude::*;
use vstd::utf8::{
    decode_utf8, is_char_boundary_iff_not_is_continuation_byte, valid_utf8, valid_utf8_split,
};

use crate::path::{has_extension, last_dot, lemma_last_dot, stem_of};

verus! {

/// The text that `bytes` spell: their decoding, where they are valid UTF-8.
pub open spec fn text_of(bytes: Seq<u8>) -> Option<Seq<char>> {
    if valid_utf8(bytes) {
        Some(decode_utf8(bytes))
    } else {
        None
    }
}

/// The texts that a vector of strings holds.
pub open spec fn texts(strings: Seq<String>) -> Seq<Seq<char>> {
    strings.map_values(|s: String| s@)
}

/// The parts in order, with the separator between each two neighbours.
pub open spec fn join(parts: Seq<Seq<char>>, separator: Seq<char>) -> Seq<char>
    decreases parts.len(),
{
    if parts.len() == 0 {
        Seq::empty()
    } else if parts.len() == 1 {
        parts[0]
    } else {
        join(parts.drop_last(), separator) + separator + parts.last()
    }
}

/// The stem of a name that is text is text too: the name is cut before a `.`,
/// where no character is ever split.
pub proof fn lemma_stem_is_text(name: Seq<u8>)
    requires
        valid_utf8(name),
    ensures
        valid_utf8(stem_of(name)),
{
    if has_extension(name) {
        lemma_last_dot(name);
        let k = last_dot(name);
        is_char_boundary_iff_not_is_continuation_byte(name, k);
        valid_utf8_split(name, k);
    }
}

/// Decodes bytes as UTF-8 with `String::from_utf8` of the standard library.
/// Taken on trust: the call succeeds exactly on valid UTF-8, and the string
/// it returns holds the characters that the bytes encode.
#[verifier::external_body]
pub(crate) fn decode(bytes: Vec<u8>) -> (text: Option<String>)
    ensures
        match text {
            Some(t) => text_of(bytes@) == Some(t@),
            None => text_of(bytes@) is None,
        },
{
    String::from_utf8(bytes).ok()
}

/// Joins the strings with the separator between them.
pub fn join_strings(parts: &[String], separator: &str) -> (joined: String)
    ensures
        joined@ == join(texts(parts@), separator@),
{
    let mut joined = String::new();
    let mut i: usize = 0;
    while i < parts.len()
        invariant
            i <= parts.len(),
            joined@ == join(texts(parts@).take(i as int), separator@),
        decreases parts.len() - i,
    {
        if i > 0 {
            joined.append(separator);
        }
        joined.append(parts[i].as_str());
        i += 1;
        assert(texts(parts@).take(i as int).drop_last() == texts(parts@).take(i - 1));
    }
    assert(texts(parts@).take(parts.len() as int) == texts(parts@));
    joined
}

} // verus!
