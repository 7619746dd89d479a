//! Saving and loading the vocabulary deck as a document, and rendering the
//! decks for display.
//!
//! These operations work on plain text: the caller reads and writes files.
//! Loading never fails on duplicates: a card whose headword is already in
//! the deck is skipped and its headword reported.

use vstd::prelude::*;
use crate::cards::{Vocabcard, VocabEntry};
use crate::codec::{
    bak_header, bak_text, doc_from, has_later, push_entry, push_fields, views_of, CodecError,
};
use crate::decks::Carddecks;
use crate::parse::{px_doc, sp_doc};
use crate::trusted::{chars_to_string, str_to_chars};

verus! {

/// Whether some card of `s` carries headword `k`.
pub open spec fn entry_key_present(s: Seq<VocabEntry>, k: Seq<char>) -> bool {
    exists|i: int| 0 <= i < s.len() && s[i].kanji == k
}

/// The cards carry pairwise distinct headwords, as the tables of a valid
/// document must.
pub open spec fn entries_distinct(es: Seq<VocabEntry>) -> bool {
    forall|i: int, j: int| 0 <= i < j < es.len() ==> es[i].kanji != es[j].kanji
}

/// The deck after loading the cards `es` in order: each is appended unless
/// its headword is already present, in which case it is skipped.
pub open spec fn loaded_deck(deck: Seq<VocabEntry>, es: Seq<VocabEntry>) -> Seq<VocabEntry>
    decreases es.len(),
{
    if es.len() == 0 {
        deck
    } else if entry_key_present(deck, es[0].kanji) {
        loaded_deck(deck, es.drop_first())
    } else {
        loaded_deck(deck.push(es[0]), es.drop_first())
    }
}

/// The duplicate headwords reported while loading `es`, in order.
pub open spec fn loaded_dups(deck: Seq<VocabEntry>, es: Seq<VocabEntry>) -> Seq<Seq<char>>
    decreases es.len(),
{
    if es.len() == 0 {
        Seq::<Seq<char>>::empty()
    } else if entry_key_present(deck, es[0].kanji) {
        seq![es[0].kanji] + loaded_dups(deck, es.drop_first())
    } else {
        loaded_dups(deck.push(es[0]), es.drop_first())
    }
}

/// Whether the deck holds a card whose headword equals `w`.
fn vocab_has_headword(v: &Vec<Vocabcard>, w: &String) -> (r: bool)
    ensures
        r == entry_key_present(views_of(v@), w@),
{
    let n = v.len();
    let mut i: usize = 0;
    while i < n
        invariant
            i <= n,
            n == v@.len(),
            forall|q: int| 0 <= q < i ==> views_of(v@)[q].kanji != w@,
        decreases n - i,
    {
        proof {
            assert(views_of(v@)[i as int] == v@[i as int]@);
        }
        if v[i].kanji == *w {
            return true;
        }
        i = i + 1;
    }
    false
}

/// Whether a later card of `v` carries the same headword as `v[i]`.
fn has_later_dup(v: &Vec<Vocabcard>, i: usize) -> (r: bool)
    requires
        i < v@.len(),
    ensures
        r == has_later(views_of(v@), i as int),
{
    let n = v.len();
    let mut j: usize = i + 1;
    while j < n
        invariant
            i < j <= n,
            n == v@.len(),
            forall|q: int| i < q < j ==> views_of(v@)[q].kanji != views_of(v@)[i as int].kanji,
        decreases n - j,
    {
        proof {
            assert(views_of(v@)[j as int] == v@[j as int]@);
            assert(views_of(v@)[i as int] == v@[i as int]@);
        }
        if v[j].kanji == v[i].kanji {
            return true;
        }
        j = j + 1;
    }
    false
}

/// Whether two cards of `v` carry one headword.
fn has_duplicate_key(v: &Vec<Vocabcard>) -> (r: bool)
    ensures
        r == !entries_distinct(views_of(v@)),
{
    let n = v.len();
    let ghost vs = views_of(v@);
    let mut a: usize = 0;
    while a < n
        invariant
            a <= n,
            n == v@.len(),
            vs == views_of(v@),
            forall|x: int, y: int| 0 <= x < y < n && x < a ==> vs[x].kanji != vs[y].kanji,
        decreases n - a,
    {
        let mut b: usize = a + 1;
        while b < n
            invariant
                a < b <= n,
                n == v@.len(),
                vs == views_of(v@),
                forall|y: int| a < y < b ==> vs[a as int].kanji != vs[y].kanji,
            decreases n - b,
        {
            proof {
                assert(vs[a as int] == v@[a as int]@);
                assert(vs[b as int] == v@[b as int]@);
            }
            if v[b].kanji == v[a].kanji {
                proof {
                    assert(!entries_distinct(vs)) by {
                        if entries_distinct(vs) {
                            assert(vs[a as int].kanji != vs[b as int].kanji);
                        }
                    };
                }
                return true;
            }
            b = b + 1;
        }
        a = a + 1;
    }
    false
}

impl Carddecks {
    /// Renders the vocabulary deck as a document, one table per distinct
    /// headword, each headword's last card surviving. Every field can be
    /// escaped, so this never fails.
    pub fn to_vocab_toml(&self) -> (doc: String)
        ensures
            doc@ == doc_from(views_of(self.vocabcards@), 0),
    {
        let ghost vs = views_of(self.vocabcards@);
        let mut out: Vec<char> = Vec::new();
        let n = self.vocabcards.len();
        let mut i: usize = 0;
        while i < n
            invariant
                i <= n,
                n == self.vocabcards@.len(),
                vs == views_of(self.vocabcards@),
                doc_from(vs, 0) == out@ + doc_from(vs, i as int),
            decreases n - i,
        {
            proof {
                assert(vs[i as int] == self.vocabcards@[i as int]@);
            }
            if !has_later_dup(&self.vocabcards, i) {
                push_entry(&mut out, &self.vocabcards[i]);
                proof {
                    assert(out@ + doc_from(vs, i + 1) =~= doc_from(vs, 0));
                }
            }
            i = i + 1;
        }
        proof {
            assert(out@ =~= doc_from(vs, 0));
        }
        chars_to_string(&out)
    }

    /// Renders every card of the vocabulary deck, duplicates included, as
    /// an array-of-tables backup document. Every field can be escaped, so
    /// this never fails.
    pub fn to_vocab_toml_bak(&self) -> (doc: String)
        ensures
            doc@ == bak_text(views_of(self.vocabcards@), 0),
    {
        let ghost vs = views_of(self.vocabcards@);
        let mut out: Vec<char> = Vec::new();
        let n = self.vocabcards.len();
        let mut i: usize = 0;
        while i < n
            invariant
                i <= n,
                n == self.vocabcards@.len(),
                vs == views_of(self.vocabcards@),
                bak_text(vs, 0) == out@ + bak_text(vs, i as int),
            decreases n - i,
        {
            proof {
                assert(vs[i as int] == self.vocabcards@[i as int]@);
            }
            push_bak_header(&mut out);
            push_fields(&mut out, &self.vocabcards[i]);
            proof {
                assert(out@ + bak_text(vs, i + 1) =~= bak_text(vs, 0));
            }
            i = i + 1;
        }
        proof {
            assert(out@ =~= bak_text(vs, 0));
        }
        chars_to_string(&out)
    }

    /// Loads a document into the store: each parsed card is appended to the
    /// vocabulary deck unless its headword is already there, in which case
    /// it is skipped and reported in the returned list. A document that does
    /// not parse, or that carries two tables with one headword, leaves the
    /// store untouched.
    pub fn load_vocab_toml(&mut self, text: &str) -> (r: Result<Vec<String>, CodecError>)
        ensures
            final(self).kanjicards == old(self).kanjicards,
            match r {
                Ok(dups) => sp_doc(text@) is Some && entries_distinct(sp_doc(text@).unwrap())
                    && views_of(final(self).vocabcards@) == loaded_deck(
                    views_of(old(self).vocabcards@),
                    sp_doc(text@).unwrap(),
                ) && dups.deep_view() == loaded_dups(
                    views_of(old(self).vocabcards@),
                    sp_doc(text@).unwrap(),
                ),
                Err(e) => (sp_doc(text@) is None || !entries_distinct(sp_doc(text@).unwrap()))
                    && e == CodecError::Parse && *final(self) == *old(self),
            },
    {
        let chars = str_to_chars(text);
        let mut parsed: Vec<Vocabcard> = Vec::new();
        proof {
            assert(chars@.skip(0) =~= chars@);
        }
        let ok = px_doc(&chars, 0, &mut parsed);
        if !ok {
            return Err(CodecError::Parse);
        }
        let ghost all_es = sp_doc(text@).unwrap();
        let ghost orig_deck = views_of(old(self).vocabcards@);
        proof {
            assert(views_of(parsed@) =~= Seq::<VocabEntry>::empty() + all_es);
            assert(views_of(parsed@) =~= all_es);
        }
        if has_duplicate_key(&parsed) {
            return Err(CodecError::Parse);
        }
        proof {
            assert(entries_distinct(all_es));
        }
        let mut dups: Vec<String> = Vec::new();
        while parsed.len() > 0
            invariant
                entries_distinct(all_es),
                loaded_deck(orig_deck, all_es) == loaded_deck(
                    views_of(self.vocabcards@),
                    views_of(parsed@),
                ),
                loaded_dups(orig_deck, all_es) == dups.deep_view() + loaded_dups(
                    views_of(self.vocabcards@),
                    views_of(parsed@),
                ),
                self.kanjicards == old(self).kanjicards,
            decreases parsed@.len(),
        {
            let ghost cur = views_of(self.vocabcards@);
            let ghost es_cur = views_of(parsed@);
            proof {
                assert(es_cur[0] == parsed@[0]@);
            }
            let e = parsed.remove(0);
            proof {
                assert(views_of(parsed@) =~= es_cur.drop_first());
            }
            let dup = vocab_has_headword(&self.vocabcards, &e.kanji);
            if dup {
                let ghost before_dups = dups.deep_view();
                dups.push(e.kanji);
                proof {
                    assert(dups.deep_view() =~= before_dups.push(e.kanji@));
                    assert(dups.deep_view() + loaded_dups(cur, es_cur.drop_first()) =~= before_dups
                        + loaded_dups(cur, es_cur));
                }
            } else {
                self.vocabcards.push(e);
                proof {
                    assert(views_of(self.vocabcards@) =~= cur.push(es_cur[0]));
                }
            }
        }
        proof {
            assert(views_of(parsed@) =~= Seq::<VocabEntry>::empty());
            assert(dups.deep_view() + loaded_dups(views_of(self.vocabcards@), views_of(parsed@))
                =~= dups.deep_view());
        }
        Ok(dups)
    }
}

/// Appends the backup document's table header line.
fn push_bak_header(out: &mut Vec<char>)
    ensures
        final(out)@ == old(out)@ + bak_header(),
{
    out.push('[');
    out.push('[');
    out.push('V');
    out.push('o');
    out.push('c');
    out.push('a');
    out.push('b');
    out.push('c');
    out.push('a');
    out.push('r');
    out.push('d');
    out.push(']');
    out.push(']');
    out.push('\n');
    proof {
        assert(out@ =~= old(out)@ + bak_header());
    }
}

} // verus!
