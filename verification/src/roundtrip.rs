//! The laws of the persistence codec.
//!
//! Saving and then loading reproduces exactly the cards that survive
//! encoding (one per distinct headword), and loading a document whose
//! headwords are all present already changes nothing and reports every
//! entry as a duplicate.

use vstd::prelude::*;
use vstd::arithmetic::div_mod::lemma_fundamental_div_mod;
use crate::cards::VocabEntry;
use vstd::utf8::char_u32_cast;
use crate::codec::{
    dec_digits, digit_char, doc_from, entry_text, esc, esc_char, has_later, hex_char, kept_from,
    must_escape, quoted, score_text, spelling_text,
};
use crate::parse::{
    digit_val, hex_val, is_digit, is_hex_digit, is_named_escape, lit_after_kanji, lit_after_key,
    lit_after_meaning, lit_after_spelling, named_escape, sp_digits, sp_doc, sp_entry, sp_qstring,
    sp_score, sp_spellings, starts_with,
};
use crate::persist::{entries_distinct, entry_key_present, loaded_deck, loaded_dups};

verus! {

/// Hexadecimal digit characters read back as their values.
proof fn lemma_hex_char_val(d: int)
    requires
        0 <= d <= 15,
    ensures
        is_hex_digit(hex_char(d)),
        hex_val(hex_char(d)) == d,
{
}

/// Parsing a quoted string inverts escaping: the escaped text, the closing
/// quote and anything after parse back to the text itself. Every character
/// has an escaped form, so no side condition is needed.
pub proof fn lemma_qstring_inverse(x: Seq<char>, rest: Seq<char>)
    ensures
        sp_qstring(esc(x) + seq!['"'] + rest) == Some((x, rest)),
    decreases x.len(),
{
    let s = esc(x) + seq!['"'] + rest;
    if x.len() == 0 {
        assert(s =~= seq!['"'] + rest);
        assert(s[0] == '"');
        assert(s.drop_first() =~= rest);
    } else {
        lemma_qstring_inverse(x.drop_first(), rest);
        let inner = esc(x.drop_first()) + seq!['"'] + rest;
        let c = x[0];
        if c == '"' || c == '\\' {
            assert(esc_char(c) == seq!['\\', c]);
            assert(s =~= seq!['\\', c] + inner);
            assert(s[0] == '\\');
            assert(s[1] == c);
            assert(s.skip(2) =~= inner);
            assert(seq![s[1]] + x.drop_first() =~= x);
        } else if c == '\u{8}' || c == '\t' || c == '\n' || c == '\u{C}' || c == '\r' {
            let l = if c == '\u{8}' {
                'b'
            } else if c == '\t' {
                't'
            } else if c == '\n' {
                'n'
            } else if c == '\u{C}' {
                'f'
            } else {
                'r'
            };
            assert(esc_char(c) == seq!['\\', l]);
            assert(s =~= seq!['\\', l] + inner);
            assert(s[0] == '\\');
            assert(s[1] == l);
            assert(is_named_escape(s[1]));
            assert(named_escape(s[1]) == c);
            assert(s.skip(2) =~= inner);
            assert(seq![named_escape(s[1])] + x.drop_first() =~= x);
        } else if must_escape(c) {
            let u = c as u32;
            let h1 = hex_char(u as int / 16);
            let h2 = hex_char(u as int % 16);
            assert(esc_char(c) == seq!['\\', 'u', '0', '0', h1, h2]);
            assert(s =~= seq!['\\', 'u', '0', '0', h1, h2] + inner);
            assert(s[0] == '\\');
            assert(s[1] == 'u');
            assert(s[2] == '0');
            assert(s[3] == '0');
            assert(s[4] == h1);
            assert(s[5] == h2);
            lemma_hex_char_val(u as int / 16);
            lemma_hex_char_val(u as int % 16);
            assert(16 * hex_val(s[4]) + hex_val(s[5]) == u) by {
                lemma_fundamental_div_mod(u as int, 16);
            };
            char_u32_cast(c, u);
            assert(((16 * hex_val(s[4]) + hex_val(s[5])) as u32) as char == c);
            assert(must_escape(((16 * hex_val(s[4]) + hex_val(s[5])) as u32) as char));
            assert(s.skip(6) =~= inner);
            assert(seq![((16 * hex_val(s[4]) + hex_val(s[5])) as u32) as char] + x.drop_first()
                =~= x);
        } else {
            assert(esc_char(c) == seq![c]);
            assert(s =~= seq![c] + inner);
            assert(s[0] == c);
            assert(s[0] != '"' && s[0] != '\\');
            assert(!must_escape(s[0]));
            assert(s.drop_first() =~= inner);
            assert(seq![s[0]] + x.drop_first() =~= x);
        }
    }
}

/// Powers of ten.
pub open spec fn pow10(k: nat) -> nat
    decreases k,
{
    if k == 0 {
        1
    } else {
        10 * pow10((k - 1) as nat)
    }
}

/// Digit characters read back as their values.
proof fn lemma_digit_char_val(d: int)
    requires
        0 <= d <= 9,
    ensures
        is_digit(digit_char(d)),
        digit_val(digit_char(d)) == d,
{
}

/// Consuming the printed digits of `n` folds `n` onto the accumulator.
proof fn lemma_digits_consume(n: nat, rest: Seq<char>, acc: int)
    ensures
        sp_digits(dec_digits(n) + rest, acc) == sp_digits(
            rest,
            acc * pow10(dec_digits(n).len() as nat) + n,
        ),
    decreases n,
{
    let s = dec_digits(n) + rest;
    if n < 10 {
        lemma_digit_char_val(n as int);
        assert(s[0] == digit_char(n as int));
        assert(s.drop_first() =~= rest);
        assert(pow10(0) == 1);
        assert(pow10(1) == 10);
        assert(sp_digits(s, acc) == sp_digits(rest, acc * 10 + n));
    } else {
        let m = n / 10;
        let d = n % 10;
        let lp = dec_digits(m).len() as nat;
        assert(s =~= dec_digits(m) + (seq![digit_char(d as int)] + rest));
        lemma_digits_consume(m, seq![digit_char(d as int)] + rest, acc);
        let acc2 = acc * pow10(lp) + m;
        let s2 = seq![digit_char(d as int)] + rest;
        lemma_digit_char_val(d as int);
        assert(s2[0] == digit_char(d as int));
        assert(s2.drop_first() =~= rest);
        assert(sp_digits(s2, acc2) == sp_digits(rest, acc2 * 10 + d));
        lemma_fundamental_div_mod(n as int, 10);
        assert(dec_digits(n).len() == lp + 1);
        assert(pow10(lp + 1) == 10 * pow10(lp));
        assert((acc * pow10(lp) + m) * 10 + d == acc * (10 * pow10(lp)) + (m * 10 + d))
            by (nonlinear_arith);
        assert(m * 10 + d == n);
    }
}

/// The printed score, followed by anything, parses back to the score.
pub proof fn lemma_score_inverse(sc: u32, rest: Seq<char>)
    ensures
        sp_score(score_text(sc) + rest) == Some((sc, rest)),
{
    let q = (sc / 10) as nat;
    let d = (sc % 10) as int;
    let tail = seq!['.'] + seq![digit_char(d)] + rest;
    let s = score_text(sc) + rest;
    assert(s =~= dec_digits(q) + tail);
    lemma_digits_consume(q, tail, 0);
    assert(tail[0] == '.');
    assert(!is_digit('.'));
    assert(sp_digits(tail, q as int) == (q as int, tail));
    lemma_digit_char_val(d);
    assert(s[0] == (dec_digits(q) + tail)[0]);
    lemma_dec_digits_first(q);
    assert(is_digit(s[0]));
    assert(tail[1] == digit_char(d));
    assert(q * 10 + d == sc) by {
        lemma_fundamental_div_mod(sc as int, 10);
    };
    assert(tail.skip(2) =~= rest);
}

/// The first printed digit of a number is a digit.
proof fn lemma_dec_digits_first(n: nat)
    ensures
        dec_digits(n).len() >= 1,
        is_digit(dec_digits(n)[0]),
    decreases n,
{
    if n < 10 {
        lemma_digit_char_val(n as int);
    } else {
        lemma_dec_digits_first(n / 10);
        assert(dec_digits(n)[0] == dec_digits(n / 10)[0]);
    }
}

/// Parsing a spelling list inverts printing one.
pub proof fn lemma_spellings_inverse(ss: Seq<Seq<char>>, rest: Seq<char>)
    ensures
        sp_spellings(spelling_text(ss) + seq![']'] + rest) == Some((ss, rest)),
    decreases ss.len(),
{
    let s = spelling_text(ss) + seq![']'] + rest;
    if ss.len() == 0 {
        assert(s =~= seq![']'] + rest);
        assert(s[0] == ']');
        assert(s.drop_first() =~= rest);
        assert(ss =~= Seq::<Seq<char>>::empty());
    } else if ss.len() == 1 {
        assert(s =~= seq!['"'] + (esc(ss[0]) + seq!['"'] + (seq![']'] + rest)));
        assert(s[0] == '"');
        assert(s[0] != ']');
        assert(s.drop_first() =~= esc(ss[0]) + seq!['"'] + (seq![']'] + rest));
        lemma_qstring_inverse(ss[0], seq![']'] + rest);
        let r = seq![']'] + rest;
        assert(r[0] == ']');
        assert(r.drop_first() =~= rest);
        assert(seq![ss[0]] =~= ss);
    } else {
        let tail_text = spelling_text(ss.drop_first()) + seq![']'] + rest;
        assert(s =~= seq!['"'] + (esc(ss[0]) + seq!['"'] + (seq![',', ' '] + tail_text)));
        assert(s[0] == '"');
        assert(s[0] != ']');
        assert(s.drop_first() =~= esc(ss[0]) + seq!['"'] + (seq![',', ' '] + tail_text));
        lemma_qstring_inverse(ss[0], seq![',', ' '] + tail_text);
        let r = seq![',', ' '] + tail_text;
        assert(r[0] == ',');
        assert(r[0] != ']');
        assert(r.take(2) =~= seq![',', ' ']);
        assert(starts_with(r, seq![',', ' ']));
        assert(r.skip(2) =~= tail_text);
        assert(r.skip(2).len() < s.len());
        lemma_spellings_inverse(ss.drop_first(), rest);
        assert(seq![ss[0]] + ss.drop_first() =~= ss);
    }
}

/// Parsing one table inverts printing one.
#[verifier::rlimit(50)]
pub proof fn lemma_entry_inverse(e: VocabEntry, rest: Seq<char>)
    ensures
        sp_entry(entry_text(e) + rest) == Some((e, rest)),
{
    let s = entry_text(e) + rest;
    let r5 = seq!['\n'] + rest;
    let t_score = score_text(e.score) + r5;
    let r4 = lit_after_meaning() + t_score;
    let t_meaning = esc(e.meaning) + seq!['"'] + r4;
    let r3 = lit_after_spelling() + t_meaning;
    let t_spell = spelling_text(e.spelling) + seq![']'] + r3;
    let r2 = lit_after_kanji() + t_spell;
    let t_kanji = esc(e.kanji) + seq!['"'] + r2;
    let r1 = lit_after_key() + t_kanji;
    let t_key = esc(e.kanji) + seq!['"'] + r1;
    assert(s =~= seq!['[', '"'] + t_key);

    assert(s.take(2) =~= seq!['[', '"']);
    assert(starts_with(s, seq!['[', '"']));
    assert(s.skip(2) =~= t_key);
    lemma_qstring_inverse(e.kanji, r1);

    assert(r1.take(lit_after_key().len() as int) =~= lit_after_key());
    assert(starts_with(r1, lit_after_key()));
    assert(r1.skip(lit_after_key().len() as int) =~= t_kanji);
    lemma_qstring_inverse(e.kanji, r2);

    assert(r2.take(lit_after_kanji().len() as int) =~= lit_after_kanji());
    assert(starts_with(r2, lit_after_kanji()));
    assert(r2.skip(lit_after_kanji().len() as int) =~= t_spell);
    lemma_spellings_inverse(e.spelling, r3);

    assert(r3.take(lit_after_spelling().len() as int) =~= lit_after_spelling());
    assert(starts_with(r3, lit_after_spelling()));
    assert(r3.skip(lit_after_spelling().len() as int) =~= t_meaning);
    lemma_qstring_inverse(e.meaning, r4);

    assert(r4.take(lit_after_meaning().len() as int) =~= lit_after_meaning());
    assert(starts_with(r4, lit_after_meaning()));
    assert(r4.skip(lit_after_meaning().len() as int) =~= t_score);
    lemma_score_inverse(e.score, r5);

    assert(r5[0] == '\n');
    assert(r5.drop_first() =~= rest);
    assert(sp_entry(s).unwrap().0 == e);
    assert(sp_entry(s).unwrap().1 == rest);
    assert(sp_entry(s) == Some((e, rest)));
}

/// Parsing a document inverts printing one: exactly the surviving cards
/// come back, in order.
pub proof fn lemma_doc_inverse(s: Seq<VocabEntry>, i: int)
    requires
        0 <= i <= s.len(),
    ensures
        sp_doc(doc_from(s, i)) == Some(kept_from(s, i)),
    decreases s.len() - i,
{
    if i >= s.len() {
        assert(doc_from(s, i).len() == 0);
    } else if has_later(s, i) {
        lemma_doc_inverse(s, i + 1);
    } else {
        lemma_doc_inverse(s, i + 1);
        lemma_entry_inverse(s[i], doc_from(s, i + 1));
        let d = doc_from(s, i);
        assert(d == entry_text(s[i]) + doc_from(s, i + 1));
        assert(entry_text(s[i]).len() > 0);
        assert(d.len() > 0);
        assert(sp_entry(d) == Some((s[i], doc_from(s, i + 1))));
        assert(doc_from(s, i + 1).len() < d.len());
        assert(seq![s[i]] + kept_from(s, i + 1) == kept_from(s, i));
    }
}

/// Every headword in the kept cards from `i` on belongs to some card at or
/// after `i`.
proof fn lemma_kept_keys(s: Seq<VocabEntry>, i: int, k: int)
    requires
        0 <= i <= s.len(),
        0 <= k < kept_from(s, i).len(),
    ensures
        exists|q: int| i <= q < s.len() && kept_from(s, i)[k].kanji == s[q].kanji,
    decreases s.len() - i,
{
    if i >= s.len() {
    } else if has_later(s, i) {
        lemma_kept_keys(s, i + 1, k);
        let q = choose|q: int|
            i + 1 <= q < s.len() && kept_from(s, i + 1)[k].kanji == s[q].kanji;
        assert(i <= q < s.len() && kept_from(s, i)[k].kanji == s[q].kanji);
    } else {
        if k == 0 {
            assert(kept_from(s, i)[0] == s[i]);
        } else {
            lemma_kept_keys(s, i + 1, k - 1);
            let q = choose|q: int|
                i + 1 <= q < s.len() && kept_from(s, i + 1)[k - 1].kanji == s[q].kanji;
            assert(kept_from(s, i)[k] == kept_from(s, i + 1)[k - 1]);
            assert(i <= q < s.len() && kept_from(s, i)[k].kanji == s[q].kanji);
        }
    }
}

/// The kept cards carry pairwise distinct headwords.
pub proof fn lemma_kept_distinct(s: Seq<VocabEntry>, i: int)
    requires
        0 <= i <= s.len(),
    ensures
        forall|a: int, b: int|
            0 <= a < b < kept_from(s, i).len() ==> kept_from(s, i)[a].kanji != kept_from(
                s,
                i,
            )[b].kanji,
    decreases s.len() - i,
{
    if i >= s.len() {
        assert(kept_from(s, i).len() == 0);
    } else if has_later(s, i) {
        lemma_kept_distinct(s, i + 1);
        assert(kept_from(s, i) == kept_from(s, i + 1));
        assert forall|a: int, b: int|
            0 <= a < b < kept_from(s, i).len() implies kept_from(s, i)[a].kanji != kept_from(
            s,
            i,
        )[b].kanji by {
            assert(kept_from(s, i + 1)[a].kanji != kept_from(s, i + 1)[b].kanji);
        };
    } else {
        lemma_kept_distinct(s, i + 1);
        let kept = kept_from(s, i);
        assert forall|a: int, b: int|
            0 <= a < b < kept.len() implies kept[a].kanji != kept[b].kanji by {
            if a == 0 {
                assert(kept[0] == s[i]);
                assert(kept[b] == kept_from(s, i + 1)[b - 1]);
                lemma_kept_keys(s, i + 1, b - 1);
                let q = choose|q: int|
                    i + 1 <= q < s.len() && kept_from(s, i + 1)[b - 1].kanji == s[q].kanji;
                if kept[a].kanji == kept[b].kanji {
                    assert(i < q < s.len() && s[q].kanji == s[i].kanji);
                    assert(has_later(s, i));
                }
            } else {
                assert(kept[a] == kept_from(s, i + 1)[a - 1]);
                assert(kept[b] == kept_from(s, i + 1)[b - 1]);
            }
        };
    }
}

/// Loading cards none of whose headwords are present, and which are
/// pairwise distinct, appends them all and reports no duplicate.
pub proof fn lemma_load_all_new(deck: Seq<VocabEntry>, es: Seq<VocabEntry>)
    requires
        forall|i: int| 0 <= i < es.len() ==> !entry_key_present(deck, #[trigger] es[i].kanji),
        forall|i: int, j: int| 0 <= i < j < es.len() ==> es[i].kanji != es[j].kanji,
    ensures
        loaded_deck(deck, es) == deck + es,
        loaded_dups(deck, es) == Seq::<Seq<char>>::empty(),
    decreases es.len(),
{
    if es.len() == 0 {
        assert(deck + es =~= deck);
    } else {
        assert(!entry_key_present(deck, es[0].kanji));
        let deck2 = deck.push(es[0]);
        assert forall|i: int|
            0 <= i < es.drop_first().len() implies !entry_key_present(
            deck2,
            #[trigger] es.drop_first()[i].kanji,
        ) by {
            assert(es.drop_first()[i] == es[i + 1]);
            assert(!entry_key_present(deck, es[i + 1].kanji));
            assert(es[i + 1].kanji != es[0].kanji);
            if entry_key_present(deck2, es[i + 1].kanji) {
                let q = choose|q: int|
                    0 <= q < deck2.len() && deck2[q].kanji == es[i + 1].kanji;
                if q < deck.len() {
                    assert(deck[q].kanji == es[i + 1].kanji);
                }
            }
        };
        assert forall|i: int, j: int|
            0 <= i < j < es.drop_first().len() implies es.drop_first()[i].kanji
            != es.drop_first()[j].kanji by {
            assert(es.drop_first()[i] == es[i + 1]);
            assert(es.drop_first()[j] == es[j + 1]);
        };
        lemma_load_all_new(deck2, es.drop_first());
        assert(deck2 + es.drop_first() =~= deck + es);
    }
}

/// Every headword of `es` is present after loading `es`.
proof fn lemma_present_after_load(deck: Seq<VocabEntry>, es: Seq<VocabEntry>, k: Seq<char>)
    requires
        entry_key_present(deck, k),
    ensures
        entry_key_present(loaded_deck(deck, es), k),
    decreases es.len(),
{
    if es.len() > 0 {
        if entry_key_present(deck, es[0].kanji) {
            lemma_present_after_load(deck, es.drop_first(), k);
        } else {
            let q = choose|q: int| 0 <= q < deck.len() && deck[q].kanji == k;
            assert(deck.push(es[0])[q].kanji == k);
            lemma_present_after_load(deck.push(es[0]), es.drop_first(), k);
        }
    }
}

/// After a load, every loaded headword is present in the deck.
pub proof fn lemma_loaded_deck_has_keys(deck: Seq<VocabEntry>, es: Seq<VocabEntry>)
    ensures
        forall|i: int|
            0 <= i < es.len() ==> entry_key_present(loaded_deck(deck, es), #[trigger] es[i].kanji),
    decreases es.len(),
{
    if es.len() > 0 {
        let deck2 = if entry_key_present(deck, es[0].kanji) {
            deck
        } else {
            deck.push(es[0])
        };
        assert(entry_key_present(deck2, es[0].kanji)) by {
            if !entry_key_present(deck, es[0].kanji) {
                assert(deck2[deck.len() as int].kanji == es[0].kanji);
            }
        };
        lemma_loaded_deck_has_keys(deck2, es.drop_first());
        lemma_present_after_load(deck2, es.drop_first(), es[0].kanji);
        assert forall|i: int|
            0 <= i < es.len() implies entry_key_present(
            loaded_deck(deck, es),
            #[trigger] es[i].kanji,
        ) by {
            if i > 0 {
                assert(es.drop_first()[i - 1] == es[i]);
                assert(entry_key_present(loaded_deck(deck2, es.drop_first()), es[i].kanji));
            }
            assert(loaded_deck(deck, es) == loaded_deck(deck2, es.drop_first()));
        };
    }
}

/// Loading cards whose headwords are all present changes nothing and
/// reports every entry as a duplicate.
pub proof fn lemma_load_all_duplicates(deck: Seq<VocabEntry>, es: Seq<VocabEntry>)
    requires
        forall|i: int| 0 <= i < es.len() ==> entry_key_present(deck, #[trigger] es[i].kanji),
    ensures
        loaded_deck(deck, es) == deck,
        loaded_dups(deck, es) == es.map_values(|e: VocabEntry| e.kanji),
    decreases es.len(),
{
    if es.len() == 0 {
        assert(es.map_values(|e: VocabEntry| e.kanji) =~= Seq::<Seq<char>>::empty());
    } else {
        assert forall|i: int|
            0 <= i < es.drop_first().len() implies entry_key_present(
            deck,
            #[trigger] es.drop_first()[i].kanji,
        ) by {
            assert(es.drop_first()[i] == es[i + 1]);
        };
        lemma_load_all_duplicates(deck, es.drop_first());
        assert(seq![es[0].kanji] + es.drop_first().map_values(|e: VocabEntry| e.kanji)
            =~= es.map_values(|e: VocabEntry| e.kanji));
    }
}

/// Loading one document twice is the same as loading it once: the second
/// load adds no card and reports one duplicate per entry.
pub proof fn lemma_reload_is_noop(deck: Seq<VocabEntry>, es: Seq<VocabEntry>)
    ensures
        loaded_deck(loaded_deck(deck, es), es) == loaded_deck(deck, es),
        loaded_dups(loaded_deck(deck, es), es) == es.map_values(|e: VocabEntry| e.kanji),
{
    lemma_loaded_deck_has_keys(deck, es);
    lemma_load_all_duplicates(loaded_deck(deck, es), es);
}

/// Round trip: a saved deck parses back to exactly the cards that survived
/// encoding, their headwords pairwise distinct, and loading them into an
/// empty store reproduces them all, every field and score intact, with no
/// duplicate reported.
pub proof fn lemma_save_load_round_trip(s: Seq<VocabEntry>)
    ensures
        sp_doc(doc_from(s, 0)) == Some(kept_from(s, 0)),
        entries_distinct(kept_from(s, 0)),
        loaded_deck(Seq::<VocabEntry>::empty(), kept_from(s, 0)) == kept_from(s, 0),
        loaded_dups(Seq::<VocabEntry>::empty(), kept_from(s, 0)) == Seq::<Seq<char>>::empty(),
{
    lemma_doc_inverse(s, 0);
    lemma_kept_distinct(s, 0);
    lemma_load_all_new(Seq::<VocabEntry>::empty(), kept_from(s, 0));
    assert(Seq::<VocabEntry>::empty() + kept_from(s, 0) =~= kept_from(s, 0));
}

} // verus!
