//! Diagnostic rendering of the decks: one display line per card, kanji deck
//! first. The line text is descriptive only and is not part of the
//! persisted format, but its content and order are pinned by `kanji_line`
//! and `vocab_line`.

use vstd::prelude::*;
use crate::cards::{Kanjicard, KanjiEntry, Vocabcard, VocabEntry};
use crate::codec::{dec_digits, digit_to_char, push_dec, score_text};
use crate::decks::Carddecks;
use crate::trusted::{chars_to_string, str_to_chars};

verus! {

/// The displayed list of strings: each double-quoted verbatim, joined by a
/// comma and a space.
pub open spec fn display_list(ss: Seq<Seq<char>>) -> Seq<char>
    decreases ss.len(),
{
    if ss.len() == 0 {
        Seq::<char>::empty()
    } else if ss.len() == 1 {
        seq!['"'] + ss[0] + seq!['"']
    } else {
        seq!['"'] + ss[0] + seq!['"'] + seq![',', ' '] + display_list(ss.drop_first())
    }
}

/// The displayed proficiency tier: a decimal, signed when negative.
pub open spec fn level_text(l: i8) -> Seq<char> {
    if l < 0 {
        seq!['-'] + dec_digits((-(l as int)) as nat)
    } else {
        dec_digits(l as nat)
    }
}

/// The display line for a kanji card.
pub open spec fn kanji_line(e: KanjiEntry) -> Seq<char> {
    "Kanji: "@ + e.kanji + ", On Reading: "@ + seq!['['] + display_list(e.on_reading)
        + seq![']'] + ", Kun Reading: "@ + seq!['['] + display_list(e.kun_reading) + seq![']']
        + ", Meaning: "@ + e.meaning + ", Level: "@ + level_text(e.level) + ", Score: "@
        + score_text(e.score)
}

/// The display line for a word card.
pub open spec fn vocab_line(e: VocabEntry) -> Seq<char> {
    "Kanji: "@ + e.kanji + ", Spelling: "@ + seq!['['] + display_list(e.spelling) + seq![']']
        + ", Meaning: "@ + e.meaning + ", Score: "@ + score_text(e.score)
}

/// The displayed list grows at its end when a string is appended.
proof fn lemma_display_push(a: Seq<Seq<char>>, x: Seq<char>)
    ensures
        display_list(a.push(x)) == if a.len() == 0 {
            seq!['"'] + x + seq!['"']
        } else {
            display_list(a) + seq![',', ' '] + seq!['"'] + x + seq!['"']
        },
    decreases a.len(),
{
    if a.len() == 0 {
        assert(a.push(x) =~= seq![x]);
        assert(seq![x][0] == x);
    } else if a.len() == 1 {
        assert(a.push(x).drop_first() =~= seq![x]);
        assert(a.push(x)[0] == a[0]);
        assert(seq![x][0] == x);
        assert(display_list(seq![x]) == seq!['"'] + x + seq!['"']);
        assert(display_list(a.push(x)) =~= display_list(a) + seq![',', ' '] + seq!['"'] + x
            + seq!['"']);
    } else {
        assert(a.push(x).drop_first() =~= a.drop_first().push(x));
        lemma_display_push(a.drop_first(), x);
        assert(seq!['"'] + a[0] + seq!['"'] + seq![',', ' '] + (display_list(a.drop_first())
            + seq![',', ' '] + seq!['"'] + x + seq!['"']) =~= display_list(a) + seq![',', ' ']
            + seq!['"'] + x + seq!['"']);
    }
}

/// Appends the characters of `s`.
fn push_str_chars(out: &mut Vec<char>, s: &str)
    ensures
        final(out)@ == old(out)@ + s@,
{
    let mut cs = str_to_chars(s);
    out.append(&mut cs);
}

/// Appends a decimal rendering of a proficiency tier.
fn push_level(out: &mut Vec<char>, level: i8)
    ensures
        final(out)@ == old(out)@ + level_text(level),
{
    if level < 0 {
        out.push('-');
        let mag: i32 = -(level as i32);
        push_dec(out, mag as u32);
        proof {
            assert(out@ =~= old(out)@ + level_text(level));
        }
    } else {
        push_dec(out, level as u32);
    }
}

/// Appends a score in tenths as a decimal with one fraction digit.
fn push_score_display(out: &mut Vec<char>, sc: u32)
    ensures
        final(out)@ == old(out)@ + score_text(sc),
{
    push_dec(out, sc / 10);
    out.push('.');
    out.push(digit_to_char(sc % 10));
    proof {
        assert(out@ =~= old(out)@ + score_text(sc));
    }
}

/// Appends a bracketed, quoted list of the given strings.
fn push_str_list(out: &mut Vec<char>, items: &Vec<String>)
    ensures
        final(out)@ == old(out)@ + seq!['['] + display_list(items.deep_view()) + seq![']'],
{
    out.push('[');
    let mut i: usize = 0;
    while i < items.len()
        invariant
            i <= items@.len(),
            out@ == old(out)@.push('[') + display_list(items.deep_view().take(i as int)),
        decreases items.len() - i,
    {
        if i > 0 {
            out.push(',');
            out.push(' ');
        }
        out.push('"');
        proof {
            assert(items.deep_view()[i as int] == items@[i as int]@);
        }
        push_str_chars(out, items[i].as_str());
        out.push('"');
        proof {
            lemma_display_push(items.deep_view().take(i as int), items.deep_view()[i as int]);
            assert(items.deep_view().take(i as int).push(items.deep_view()[i as int])
                =~= items.deep_view().take(i + 1));
            assert(out@ =~= old(out)@.push('[') + display_list(items.deep_view().take(i + 1)));
        }
        i = i + 1;
    }
    out.push(']');
    proof {
        assert(items.deep_view().take(items.deep_view().len() as int) =~= items.deep_view());
        assert(out@ =~= old(out)@ + seq!['['] + display_list(items.deep_view()) + seq![']']);
    }
}

/// One display line for a kanji card.
fn render_kanji_line(c: &Kanjicard) -> (line: String)
    ensures
        line@ == kanji_line(c@),
{
    let mut out: Vec<char> = Vec::new();
    push_str_chars(&mut out, "Kanji: ");
    push_str_chars(&mut out, c.kanji.as_str());
    push_str_chars(&mut out, ", On Reading: ");
    push_str_list(&mut out, &c.on_reading);
    push_str_chars(&mut out, ", Kun Reading: ");
    push_str_list(&mut out, &c.kun_reading);
    push_str_chars(&mut out, ", Meaning: ");
    push_str_chars(&mut out, c.meaning.as_str());
    push_str_chars(&mut out, ", Level: ");
    push_level(&mut out, c.level);
    push_str_chars(&mut out, ", Score: ");
    push_score_display(&mut out, c.score);
    proof {
        assert(out@ =~= kanji_line(c@));
    }
    chars_to_string(&out)
}

/// One display line for a word card.
fn render_vocab_line(c: &Vocabcard) -> (line: String)
    ensures
        line@ == vocab_line(c@),
{
    let mut out: Vec<char> = Vec::new();
    push_str_chars(&mut out, "Kanji: ");
    push_str_chars(&mut out, c.kanji.as_str());
    push_str_chars(&mut out, ", Spelling: ");
    push_str_list(&mut out, &c.spelling);
    push_str_chars(&mut out, ", Meaning: ");
    push_str_chars(&mut out, c.meaning.as_str());
    push_str_chars(&mut out, ", Score: ");
    push_score_display(&mut out, c.score);
    proof {
        assert(out@ =~= vocab_line(c@));
    }
    chars_to_string(&out)
}

impl Carddecks {
    /// The decks as display lines: a heading, one line per kanji card in
    /// deck order, a second heading, then one line per word card in deck
    /// order.
    pub fn print_decks(&self) -> (lines: Vec<String>)
        ensures
            lines@.len() == 2 + self.kanjicards@.len() + self.vocabcards@.len(),
            lines@[0]@ == "kanjivocis"@,
            lines@[1 + self.kanjicards@.len() as int]@ == "Vocabcards"@,
            forall|q: int|
                0 <= q < self.kanjicards@.len() ==> lines@[1 + q]@ == kanji_line(
                    #[trigger] self.kanjicards@[q]@,
                ),
            forall|q: int|
                0 <= q < self.vocabcards@.len() ==> lines@[2 + self.kanjicards@.len() as int + q]@
                    == vocab_line(#[trigger] self.vocabcards@[q]@),
    {
        let mut lines: Vec<String> = Vec::new();
        lines.push("kanjivocis".to_owned());
        let klen = self.kanjicards.len();
        let mut i: usize = 0;
        while i < klen
            invariant
                klen == self.kanjicards@.len(),
                i <= klen,
                lines@.len() == 1 + i,
                lines@[0]@ == "kanjivocis"@,
                forall|q: int|
                    0 <= q < i ==> lines@[1 + q]@ == kanji_line(
                        #[trigger] self.kanjicards@[q]@,
                    ),
            decreases klen - i,
        {
            let line = render_kanji_line(&self.kanjicards[i]);
            lines.push(line);
            i = i + 1;
        }
        lines.push("Vocabcards".to_owned());
        let vlen = self.vocabcards.len();
        let mut j: usize = 0;
        while j < vlen
            invariant
                klen == self.kanjicards@.len(),
                vlen == self.vocabcards@.len(),
                j <= vlen,
                lines@.len() == 2 + klen + j,
                lines@[0]@ == "kanjivocis"@,
                lines@[1 + klen]@ == "Vocabcards"@,
                forall|q: int|
                    0 <= q < klen ==> lines@[1 + q]@ == kanji_line(
                        #[trigger] self.kanjicards@[q]@,
                    ),
                forall|q: int|
                    0 <= q < j ==> lines@[2 + klen + q]@ == vocab_line(
                        #[trigger] self.vocabcards@[q]@,
                    ),
            decreases vlen - j,
        {
            let line = render_vocab_line(&self.vocabcards[j]);
            lines.push(line);
            j = j + 1;
        }
        lines
    }
}

} // verus!
