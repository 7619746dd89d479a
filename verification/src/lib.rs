//! A flashcard library for Japanese vocabulary study.
//!
//! The library keeps two decks of cards: kanji cards (one logographic
//! character with its readings) and vocabulary cards (a written word with
//! its phonetic spellings). Each card carries a proficiency score, held in
//! tenths of a point so that score arithmetic is exact. The vocabulary deck
//! can be rendered to, and reloaded from, a TOML document keyed by headword.

use vstd::prelude::*;

pub mod cards;
pub mod codec;
pub mod decks;
pub mod parse;
pub mod persist;
pub mod render;
pub mod roundtrip;
pub mod sorting;
mod trusted;

verus! {

/// Returns true exactly when `c` is a kanji: a CJK unified ideograph,
/// code points U+4E00 through U+9FFF.
pub fn is_kanji(c: char) -> (r: bool)
    ensures
        r == (0x4E00 <= c as u32 <= 0x9FFF),
{
    '\u{4E00}' <= c && c <= '\u{9FFF}'
}

/// Returns true exactly when `c` is a kana: hiragana (U+3040 through
/// U+309F) or katakana (U+30A0 through U+30FF).
pub fn is_kana(c: char) -> (r: bool)
    ensures
        r == (0x3040 <= c as u32 <= 0x30FF),
{
    '\u{3040}' <= c && c <= '\u{30FF}'
}

} // verus!
