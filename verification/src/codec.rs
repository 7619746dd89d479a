//! The persisted text form of the vocabulary deck.
//!
//! A deck is written as a TOML-style document: one table per distinct
//! headword, the table header being the quoted headword and its keys being
//! the card's fields. Strings are double-quoted basic strings: quote and
//! backslash gain a backslash, the common control characters are written
//! with their named escapes, and the remaining control characters (and
//! delete) as a four-digit scalar escape, so every string value can be
//! written and encoding never fails. The score, held in tenths of a point,
//! is written as a decimal number with one fraction digit, so `100` tenths
//! appears as `10.0`.
//!
//! When the deck holds several cards with one headword only the last
//! survives encoding: the document carries one table per headword. This is
//! a deliberately lossy step, inherent in keying the document by headword.

use vstd::prelude::*;
use crate::cards::{Vocabcard, VocabEntry};
use crate::trusted::str_to_chars;

verus! {

/// Errors of the persistence codec.
#[derive(Clone, Copy, PartialEq, Eq, Structural, Debug)]
pub enum CodecError {
    /// The document does not have the expected shape.
    Parse,
}

/// Characters that cannot stand unescaped in a quoted string: the control
/// characters and delete.
pub open spec fn must_escape(c: char) -> bool {
    (c as u32) < 0x20 || c as u32 == 0x7F
}

/// The hexadecimal digit character for `d`, which must lie in 0 through 15.
pub open spec fn hex_char(d: int) -> char {
    if d == 0 {
        '0'
    } else if d == 1 {
        '1'
    } else if d == 2 {
        '2'
    } else if d == 3 {
        '3'
    } else if d == 4 {
        '4'
    } else if d == 5 {
        '5'
    } else if d == 6 {
        '6'
    } else if d == 7 {
        '7'
    } else if d == 8 {
        '8'
    } else if d == 9 {
        '9'
    } else if d == 10 {
        'A'
    } else if d == 11 {
        'B'
    } else if d == 12 {
        'C'
    } else if d == 13 {
        'D'
    } else if d == 14 {
        'E'
    } else {
        'F'
    }
}

/// The escaped form of one character: quote and backslash gain a
/// backslash, backspace, tab, newline, form feed and carriage return use
/// their named escapes, and the other control characters (and delete) a
/// four-digit scalar escape.
pub open spec fn esc_char(c: char) -> Seq<char> {
    if c == '"' {
        seq!['\\', '"']
    } else if c == '\\' {
        seq!['\\', '\\']
    } else if c == '\u{8}' {
        seq!['\\', 'b']
    } else if c == '\t' {
        seq!['\\', 't']
    } else if c == '\n' {
        seq!['\\', 'n']
    } else if c == '\u{C}' {
        seq!['\\', 'f']
    } else if c == '\r' {
        seq!['\\', 'r']
    } else if must_escape(c) {
        seq!['\\', 'u', '0', '0', hex_char((c as u32) as int / 16), hex_char(
            (c as u32) as int % 16,
        )]
    } else {
        seq![c]
    }
}

/// The escaped form of a string's characters.
pub open spec fn esc(s: Seq<char>) -> Seq<char>
    decreases s.len(),
{
    if s.len() == 0 {
        Seq::<char>::empty()
    } else {
        esc_char(s[0]) + esc(s.drop_first())
    }
}

/// A double-quoted, escaped string.
pub open spec fn quoted(s: Seq<char>) -> Seq<char> {
    seq!['"'] + esc(s) + seq!['"']
}

/// The digit character for `d`, which must lie in 0 through 9.
pub open spec fn digit_char(d: int) -> char {
    if d == 0 {
        '0'
    } else if d == 1 {
        '1'
    } else if d == 2 {
        '2'
    } else if d == 3 {
        '3'
    } else if d == 4 {
        '4'
    } else if d == 5 {
        '5'
    } else if d == 6 {
        '6'
    } else if d == 7 {
        '7'
    } else if d == 8 {
        '8'
    } else {
        '9'
    }
}

/// The decimal digits of `n`, most significant first.
pub open spec fn dec_digits(n: nat) -> Seq<char>
    decreases n,
{
    if n < 10 {
        seq![digit_char(n as int)]
    } else {
        dec_digits(n / 10) + seq![digit_char((n % 10) as int)]
    }
}

/// The written form of a score held in tenths: whole part, a point, one
/// fraction digit.
pub open spec fn score_text(sc: u32) -> Seq<char> {
    dec_digits((sc / 10) as nat) + seq!['.'] + seq![digit_char((sc % 10) as int)]
}

pub open spec fn label_kanji() -> Seq<char> {
    seq!['k', 'a', 'n', 'j', 'i', ' ', '=', ' ']
}

pub open spec fn label_spelling() -> Seq<char> {
    seq!['s', 'p', 'e', 'l', 'l', 'i', 'n', 'g', ' ', '=', ' ']
}

pub open spec fn label_meaning() -> Seq<char> {
    seq!['m', 'e', 'a', 'n', 'i', 'n', 'g', ' ', '=', ' ']
}

pub open spec fn label_score() -> Seq<char> {
    seq!['s', 'c', 'o', 'r', 'e', ' ', '=', ' ']
}

/// The quoted spellings, joined by a comma and a space.
pub open spec fn spelling_text(ss: Seq<Seq<char>>) -> Seq<char>
    decreases ss.len(),
{
    if ss.len() == 0 {
        Seq::<char>::empty()
    } else if ss.len() == 1 {
        quoted(ss[0])
    } else {
        quoted(ss[0]) + seq![',', ' '] + spelling_text(ss.drop_first())
    }
}

/// The four field lines of one word card.
pub open spec fn fields_text(e: VocabEntry) -> Seq<char> {
    label_kanji() + quoted(e.kanji) + seq!['\n'] + label_spelling() + seq!['[']
        + spelling_text(e.spelling) + seq![']', '\n'] + label_meaning() + quoted(e.meaning)
        + seq!['\n'] + label_score() + score_text(e.score) + seq!['\n']
}

/// The written form of one word card: a table headed by the quoted
/// headword, then the four field lines.
pub open spec fn entry_text(e: VocabEntry) -> Seq<char> {
    seq!['['] + quoted(e.kanji) + seq![']', '\n'] + fields_text(e)
}

/// The backup document's table header line.
pub open spec fn bak_header() -> Seq<char> {
    seq!['[', '[', 'V', 'o', 'c', 'a', 'b', 'c', 'a', 'r', 'd', ']', ']', '\n']
}

/// The backup document for the cards of `s` from position `i` on: every
/// card in order, duplicates included, each under a plain table header.
pub open spec fn bak_text(s: Seq<VocabEntry>, i: int) -> Seq<char>
    decreases s.len() - i,
{
    if i < 0 || i >= s.len() {
        Seq::<char>::empty()
    } else {
        bak_header() + fields_text(s[i]) + bak_text(s, i + 1)
    }
}

/// Whether a later card of `s` carries the same headword as `s[i]`.
pub open spec fn has_later(s: Seq<VocabEntry>, i: int) -> bool {
    exists|j: int| i < j < s.len() && s[j].kanji == s[i].kanji
}

/// The document for the cards of `s` from position `i` on: one table per
/// headword, each headword's last card surviving.
pub open spec fn doc_from(s: Seq<VocabEntry>, i: int) -> Seq<char>
    decreases s.len() - i,
{
    if i < 0 || i >= s.len() {
        Seq::<char>::empty()
    } else if has_later(s, i) {
        doc_from(s, i + 1)
    } else {
        entry_text(s[i]) + doc_from(s, i + 1)
    }
}

/// The cards of `s` from position `i` on that survive encoding: those whose
/// headword does not recur later.
pub open spec fn kept_from(s: Seq<VocabEntry>, i: int) -> Seq<VocabEntry>
    decreases s.len() - i,
{
    if i < 0 || i >= s.len() {
        Seq::<VocabEntry>::empty()
    } else if has_later(s, i) {
        kept_from(s, i + 1)
    } else {
        seq![s[i]] + kept_from(s, i + 1)
    }
}

/// The views of a deck's cards.
pub open spec fn views_of(s: Seq<Vocabcard>) -> Seq<VocabEntry> {
    s.map_values(|c: Vocabcard| c@)
}

/// Escaping distributes over appending one character.
pub proof fn lemma_esc_push(a: Seq<char>, x: char)
    ensures
        esc(a.push(x)) == esc(a) + esc_char(x),
    decreases a.len(),
{
    if a.len() == 0 {
        assert(a.push(x).drop_first() =~= Seq::<char>::empty());
        assert(a.push(x)[0] == x);
        assert(a =~= Seq::<char>::empty());
        assert(esc(a) == Seq::<char>::empty());
        assert(esc(a.push(x)) == esc_char(x) + esc(a.push(x).drop_first()));
        assert(esc(a.push(x).drop_first()) == esc(a));
        assert(esc_char(x) + Seq::<char>::empty() =~= esc_char(x));
        assert(Seq::<char>::empty() + esc_char(x) =~= esc_char(x));
    } else {
        assert(a.push(x).drop_first() =~= a.drop_first().push(x));
        lemma_esc_push(a.drop_first(), x);
        assert(esc(a.push(x)) == esc_char(a[0]) + esc(a.drop_first().push(x)));
        assert(esc_char(a[0]) + (esc(a.drop_first()) + esc_char(x)) =~= esc(a) + esc_char(x));
    }
}

/// The digit character for `d`.
pub fn digit_to_char(d: u32) -> (c: char)
    requires
        d < 10,
    ensures
        c == digit_char(d as int),
{
    if d == 0 {
        '0'
    } else if d == 1 {
        '1'
    } else if d == 2 {
        '2'
    } else if d == 3 {
        '3'
    } else if d == 4 {
        '4'
    } else if d == 5 {
        '5'
    } else if d == 6 {
        '6'
    } else if d == 7 {
        '7'
    } else if d == 8 {
        '8'
    } else {
        '9'
    }
}

/// Appends the decimal digits of `n`.
pub fn push_dec(out: &mut Vec<char>, n: u32)
    ensures
        final(out)@ == old(out)@ + dec_digits(n as nat),
    decreases n,
{
    if n < 10 {
        out.push(digit_to_char(n));
        proof {
            assert(out@ =~= old(out)@ + dec_digits(n as nat));
        }
    } else {
        push_dec(out, n / 10);
        out.push(digit_to_char(n % 10));
        proof {
            assert(out@ =~= old(out)@ + dec_digits(n as nat));
        }
    }
}

/// The hexadecimal digit character for `d`.
pub fn hex_to_char(d: u32) -> (c: char)
    requires
        d < 16,
    ensures
        c == hex_char(d as int),
{
    if d == 0 {
        '0'
    } else if d == 1 {
        '1'
    } else if d == 2 {
        '2'
    } else if d == 3 {
        '3'
    } else if d == 4 {
        '4'
    } else if d == 5 {
        '5'
    } else if d == 6 {
        '6'
    } else if d == 7 {
        '7'
    } else if d == 8 {
        '8'
    } else if d == 9 {
        '9'
    } else if d == 10 {
        'A'
    } else if d == 11 {
        'B'
    } else if d == 12 {
        'C'
    } else if d == 13 {
        'D'
    } else if d == 14 {
        'E'
    } else {
        'F'
    }
}

/// Appends the escaped characters of `s`. Every character can be escaped,
/// so this never fails.
fn push_escaped(out: &mut Vec<char>, s: &str)
    ensures
        final(out)@ == old(out)@ + esc(s@),
{
    let cs = str_to_chars(s);
    let mut i: usize = 0;
    while i < cs.len()
        invariant
            i <= cs.len(),
            cs@ == s@,
            out@ == old(out)@ + esc(s@.take(i as int)),
        decreases cs.len() - i,
    {
        let c = cs[i];
        proof {
            lemma_esc_push(s@.take(i as int), s@[i as int]);
            assert(s@.take(i as int).push(s@[i as int]) =~= s@.take(i + 1));
        }
        if c == '"' || c == '\\' {
            out.push('\\');
            out.push(c);
        } else if c == '\u{8}' {
            out.push('\\');
            out.push('b');
        } else if c == '\t' {
            out.push('\\');
            out.push('t');
        } else if c == '\n' {
            out.push('\\');
            out.push('n');
        } else if c == '\u{C}' {
            out.push('\\');
            out.push('f');
        } else if c == '\r' {
            out.push('\\');
            out.push('r');
        } else if (c as u32) < 0x20 || (c as u32) == 0x7F {
            let u = c as u32;
            out.push('\\');
            out.push('u');
            out.push('0');
            out.push('0');
            out.push(hex_to_char(u / 16));
            out.push(hex_to_char(u % 16));
        } else {
            out.push(c);
        }
        proof {
            assert(out@ =~= old(out)@ + esc(s@.take(i + 1)));
        }
        i = i + 1;
    }
    proof {
        assert(s@.take(s@.len() as int) =~= s@);
    }
}

/// Appends `s` double-quoted and escaped.
fn push_quoted(out: &mut Vec<char>, s: &str)
    ensures
        final(out)@ == old(out)@ + quoted(s@),
{
    out.push('"');
    push_escaped(out, s);
    out.push('"');
    proof {
        assert(out@ =~= old(out)@ + quoted(s@));
    }
}

fn push_label_kanji(out: &mut Vec<char>)
    ensures
        final(out)@ == old(out)@ + label_kanji(),
{
    out.push('k');
    out.push('a');
    out.push('n');
    out.push('j');
    out.push('i');
    out.push(' ');
    out.push('=');
    out.push(' ');
    proof {
        assert(out@ =~= old(out)@ + label_kanji());
    }
}

fn push_label_spelling(out: &mut Vec<char>)
    ensures
        final(out)@ == old(out)@ + label_spelling(),
{
    out.push('s');
    out.push('p');
    out.push('e');
    out.push('l');
    out.push('l');
    out.push('i');
    out.push('n');
    out.push('g');
    out.push(' ');
    out.push('=');
    out.push(' ');
    proof {
        assert(out@ =~= old(out)@ + label_spelling());
    }
}

fn push_label_meaning(out: &mut Vec<char>)
    ensures
        final(out)@ == old(out)@ + label_meaning(),
{
    out.push('m');
    out.push('e');
    out.push('a');
    out.push('n');
    out.push('i');
    out.push('n');
    out.push('g');
    out.push(' ');
    out.push('=');
    out.push(' ');
    proof {
        assert(out@ =~= old(out)@ + label_meaning());
    }
}

fn push_label_score(out: &mut Vec<char>)
    ensures
        final(out)@ == old(out)@ + label_score(),
{
    out.push('s');
    out.push('c');
    out.push('o');
    out.push('r');
    out.push('e');
    out.push(' ');
    out.push('=');
    out.push(' ');
    proof {
        assert(out@ =~= old(out)@ + label_score());
    }
}

/// Appends the bracketed spelling list.
fn push_spellings(out: &mut Vec<char>, ss: &Vec<String>)
    ensures
        final(out)@ == old(out)@ + seq!['['] + spelling_text(ss.deep_view()) + seq![']'],
{
    out.push('[');
    let mut i: usize = 0;
    while i < ss.len()
        invariant
            i <= ss.len(),
            out@ == old(out)@.push('[') + spelling_text(ss.deep_view().take(i as int)),
        decreases ss.len() - i,
    {
        if i > 0 {
            out.push(',');
            out.push(' ');
        }
        proof {
            assert(ss.deep_view()[i as int] == ss@[i as int]@);
        }
        push_quoted(out, ss[i].as_str());
        proof {
            lemma_spelling_push(ss.deep_view().take(i as int), ss.deep_view()[i as int]);
            assert(ss.deep_view().take(i as int).push(ss.deep_view()[i as int]) =~= ss.deep_view()
                .take(i + 1));
            assert(out@ =~= old(out)@.push('[') + spelling_text(ss.deep_view().take(i + 1)));
        }
        i = i + 1;
    }
    out.push(']');
    proof {
        assert(ss.deep_view().take(ss.deep_view().len() as int) =~= ss.deep_view());
        assert(out@ =~= old(out)@ + seq!['['] + spelling_text(ss.deep_view()) + seq![']']);
    }
}

/// Appends the four field lines for one word card.
pub fn push_fields(out: &mut Vec<char>, c: &Vocabcard)
    ensures
        final(out)@ == old(out)@ + fields_text(c@),
{
    push_label_kanji(out);
    push_quoted(out, c.kanji.as_str());
    out.push('\n');
    push_label_spelling(out);
    push_spellings(out, &c.spelling);
    out.push('\n');
    push_label_meaning(out);
    push_quoted(out, c.meaning.as_str());
    out.push('\n');
    push_label_score(out);
    push_dec(out, c.score / 10);
    out.push('.');
    out.push(digit_to_char(c.score % 10));
    out.push('\n');
    proof {
        assert(out@ =~= old(out)@ + fields_text(c@));
    }
}

/// Appends the full table for one word card.
pub fn push_entry(out: &mut Vec<char>, c: &Vocabcard)
    ensures
        final(out)@ == old(out)@ + entry_text(c@),
{
    out.push('[');
    push_quoted(out, c.kanji.as_str());
    out.push(']');
    out.push('\n');
    push_fields(out, c);
    proof {
        assert(out@ =~= old(out)@ + entry_text(c@));
    }
}

/// The spelling list grows at its end when a spelling is appended.
pub proof fn lemma_spelling_push(a: Seq<Seq<char>>, x: Seq<char>)
    ensures
        spelling_text(a.push(x)) == if a.len() == 0 {
            quoted(x)
        } else {
            spelling_text(a) + seq![',', ' '] + quoted(x)
        },
    decreases a.len(),
{
    if a.len() == 0 {
        assert(a.push(x) =~= seq![x]);
    } else if a.len() == 1 {
        assert(a.push(x).drop_first() =~= seq![x]);
        assert(a.push(x)[0] == a[0]);
        assert(seq![x][0] == x);
        assert(spelling_text(seq![x]) == quoted(x));
        assert(spelling_text(a.push(x)) == quoted(a[0]) + seq![',', ' '] + quoted(x));
    } else {
        assert(a.push(x).drop_first() =~= a.drop_first().push(x));
        lemma_spelling_push(a.drop_first(), x);
        assert(quoted(a[0]) + seq![',', ' '] + (spelling_text(a.drop_first()) + seq![',', ' ']
            + quoted(x)) =~= spelling_text(a) + seq![',', ' '] + quoted(x));
    }
}

} // verus!
