//! The card store: one kanji deck and one vocabulary deck, with add,
//! lookup, score-alignment and sort operations.

use vstd::prelude::*;
use crate::cards::{clamped_score, DEFAULT_SCORE, Kanjicard, KanjiEntry, Vocabcard, VocabEntry};
use crate::sorting::{sort_cards, stable_sorted, Scored};
use crate::trusted::str_eq;

verus! {

/// A card kind with a natural string key.
pub trait Keyed: Scored {
    /// The natural key, for specifications.
    spec fn key_spec(&self) -> Seq<char>;

    /// The card with its score replaced and every other field kept.
    spec fn with_score_spec(&self, sc: u32) -> Self;

    /// Whether this card's key equals `key`.
    fn key_matches(&self, key: &str) -> (r: bool)
        ensures
            r == (self.key_spec() == key@),
    ;

    /// Applies `delta` to the score, clamping at zero.
    fn apply_delta(&mut self, delta: i64)
        ensures
            *final(self) == old(self).with_score_spec(
                clamped_score(old(self).score_spec(), delta as int),
            ),
    ;
}

impl Keyed for Kanjicard {
    open spec fn key_spec(&self) -> Seq<char> {
        self.kanji@
    }

    open spec fn with_score_spec(&self, sc: u32) -> Self {
        Kanjicard { score: sc, ..*self }
    }

    fn key_matches(&self, key: &str) -> (r: bool) {
        str_eq(self.kanji.as_str(), key)
    }

    fn apply_delta(&mut self, delta: i64) {
        self.update_score(delta);
    }
}

impl Keyed for Vocabcard {
    open spec fn key_spec(&self) -> Seq<char> {
        self.kanji@
    }

    open spec fn with_score_spec(&self, sc: u32) -> Self {
        Vocabcard { score: sc, ..*self }
    }

    fn key_matches(&self, key: &str) -> (r: bool) {
        str_eq(self.kanji.as_str(), key)
    }

    fn apply_delta(&mut self, delta: i64) {
        self.update_score(delta);
    }
}

/// Whether some card of `s` carries the key.
pub open spec fn has_key<T: Keyed>(s: Seq<T>, key: Seq<char>) -> bool {
    exists|i: int| 0 <= i < s.len() && s[i].key_spec() == key
}

/// The index of the first card of `s` carrying the key, or -1.
pub open spec fn find_key_index<T: Keyed>(s: Seq<T>, key: Seq<char>) -> int
    decreases s.len(),
{
    if s.len() == 0 {
        -1
    } else if s[0].key_spec() == key {
        0
    } else if find_key_index(s.drop_first(), key) == -1 {
        -1
    } else {
        find_key_index(s.drop_first(), key) + 1
    }
}

/// `find_key_index` names the first match when one exists, and -1 otherwise.
pub proof fn lemma_find_key_index<T: Keyed>(s: Seq<T>, key: Seq<char>)
    ensures
        !has_key(s, key) ==> find_key_index(s, key) == -1,
        has_key(s, key) ==> 0 <= find_key_index(s, key) < s.len(),
        has_key(s, key) ==> s[find_key_index(s, key)].key_spec() == key,
        forall|q: int| 0 <= q < find_key_index(s, key) ==> s[q].key_spec() != key,
    decreases s.len(),
{
    if s.len() == 0 {
        assert(!has_key(s, key));
    } else if s[0].key_spec() == key {
    } else {
        lemma_find_key_index(s.drop_first(), key);
        let rest = s.drop_first();
        if has_key(rest, key) {
            let j = choose|j: int| 0 <= j < rest.len() && rest[j].key_spec() == key;
            assert(s[j + 1] == rest[j]);
            assert(has_key(s, key));
            assert forall|q: int| 0 <= q < find_key_index(s, key) implies s[q].key_spec()
                != key by {
                if q > 0 {
                    assert(rest[q - 1] == s[q]);
                }
            };
        } else {
            assert forall|i: int| 0 <= i < s.len() implies s[i].key_spec() != key by {
                if i > 0 {
                    assert(rest[i - 1] == s[i]);
                    assert(!has_key(rest, key));
                }
            };
            assert(!has_key(s, key));
        }
    }
}

/// The deck after aligning the key's first card by `delta`: unchanged when
/// no card carries the key.
pub open spec fn aligned_by_key<T: Keyed>(s: Seq<T>, key: Seq<char>, delta: int) -> Seq<T> {
    if has_key(s, key) {
        let i = find_key_index(s, key);
        s.update(i, s[i].with_score_spec(clamped_score(s[i].score_spec(), delta)))
    } else {
        s
    }
}

/// The index of the first card carrying the key, if any card does.
fn find_index<T: Keyed>(v: &Vec<T>, key: &str) -> (r: Option<usize>)
    ensures
        r is Some <==> has_key(v@, key@),
        r is Some ==> r.unwrap() == find_key_index(v@, key@),
{
    let mut i: usize = 0;
    while i < v.len()
        invariant
            i <= v.len(),
            forall|q: int| 0 <= q < i ==> v@[q].key_spec() != key@,
        decreases v.len() - i,
    {
        if v[i].key_matches(key) {
            proof {
                lemma_find_key_index(v@, key@);
            }
            return Some(i);
        }
        i = i + 1;
    }
    proof {
        lemma_find_key_index(v@, key@);
    }
    None
}

/// Applies `delta` to the first card carrying the key; a no-op when none
/// does.
fn align_score<T: Keyed>(v: &mut Vec<T>, key: &str, delta: i64)
    ensures
        final(v)@ == aligned_by_key(old(v)@, key@, delta as int),
{
    let found = find_index(v, key);
    match found {
        Some(i) => {
            let ghost before = v@;
            proof {
                lemma_find_key_index(before, key@);
            }
            let mut c = v.remove(i);
            c.apply_delta(delta);
            v.insert(i, c);
            proof {
                assert(v@ =~= aligned_by_key(before, key@, delta as int));
            }
        },
        None => {},
    }
}

/// The two decks of the store.
pub struct Carddecks {
    /// The kanji deck, in insertion order until sorted.
    pub kanjicards: Vec<Kanjicard>,
    /// The vocabulary deck, in insertion order until sorted.
    pub vocabcards: Vec<Vocabcard>,
}

impl Carddecks {
    /// An empty store.
    pub fn new() -> (s: Self)
        ensures
            s.kanjicards@ =~= Seq::<Kanjicard>::empty(),
            s.vocabcards@ =~= Seq::<Vocabcard>::empty(),
    {
        Carddecks { kanjicards: Vec::new(), vocabcards: Vec::new() }
    }

    /// Appends a kanji card built from the given content, with the default
    /// score; nothing else changes. Never deduplicates.
    pub fn add_kanjicard(
        &mut self,
        kanji: &str,
        on_reading: &Vec<String>,
        kun_reading: &Vec<String>,
        level: i8,
        meaning: &str,
    )
        ensures
            final(self).kanjicards@.len() == old(self).kanjicards@.len() + 1,
            final(self).kanjicards@.drop_last() == old(self).kanjicards@,
            final(self).kanjicards@.last()@ == (KanjiEntry {
                kanji: kanji@,
                on_reading: on_reading.deep_view(),
                kun_reading: kun_reading.deep_view(),
                meaning: meaning@,
                level: level,
                score: DEFAULT_SCORE,
            }),
            final(self).vocabcards == old(self).vocabcards,
    {
        let c = Kanjicard::new(kanji, on_reading, kun_reading, level, meaning);
        self.kanjicards.push(c);
        proof {
            assert(self.kanjicards@.drop_last() =~= old(self).kanjicards@);
        }
    }

    /// Appends a word card built from the given content, with the default
    /// score; nothing else changes. Never deduplicates.
    pub fn add_vocabcard(&mut self, kanji: &str, spelling: &Vec<String>, meaning: &str)
        ensures
            final(self).vocabcards@.len() == old(self).vocabcards@.len() + 1,
            final(self).vocabcards@.drop_last() == old(self).vocabcards@,
            final(self).vocabcards@.last()@ == (VocabEntry {
                kanji: kanji@,
                spelling: spelling.deep_view(),
                meaning: meaning@,
                score: DEFAULT_SCORE,
            }),
            final(self).kanjicards == old(self).kanjicards,
    {
        let c = Vocabcard::new(kanji, spelling, meaning);
        self.vocabcards.push(c);
        proof {
            assert(self.vocabcards@.drop_last() =~= old(self).vocabcards@);
        }
    }

    /// Reorders both decks into stable ascending-score order.
    pub fn sort_decks(&mut self)
        ensures
            final(self).kanjicards@ == stable_sorted(old(self).kanjicards@),
            final(self).vocabcards@ == stable_sorted(old(self).vocabcards@),
    {
        sort_cards(&mut self.kanjicards);
        sort_cards(&mut self.vocabcards);
    }

    /// Whether the vocabulary deck already holds a card with this headword.
    pub fn vocab_find_duplicate(&mut self, kanji: &str) -> (r: bool)
        ensures
            r == has_key(old(self).vocabcards@, kanji@),
            *final(self) == *old(self),
    {
        let found = find_index(&self.vocabcards, kanji);
        found.is_some()
    }

    /// Applies `delta` to the first word card with this headword; a no-op
    /// when none exists.
    pub fn vocab_kanji_align_score(&mut self, kanji: &str, delta: i64)
        ensures
            final(self).vocabcards@ == aligned_by_key(old(self).vocabcards@, kanji@, delta as int),
            final(self).kanjicards == old(self).kanjicards,
    {
        align_score(&mut self.vocabcards, kanji, delta);
    }

    /// Applies `delta` to the first kanji card with this character; a no-op
    /// when none exists.
    pub fn kanji_kanji_align_score(&mut self, kanji: &str, delta: i64)
        ensures
            final(self).kanjicards@ == aligned_by_key(old(self).kanjicards@, kanji@, delta as int),
            final(self).vocabcards == old(self).vocabcards,
    {
        align_score(&mut self.kanjicards, kanji, delta);
    }

    /// Number of cards in the kanji deck.
    pub fn kanji_count(&self) -> (n: usize)
        ensures
            n == self.kanjicards@.len(),
    {
        self.kanjicards.len()
    }

    /// Number of cards in the vocabulary deck.
    pub fn vocab_count(&self) -> (n: usize)
        ensures
            n == self.vocabcards@.len(),
    {
        self.vocabcards.len()
    }

    /// The kanji card at position `i`.
    pub fn get_kanjicard(&self, i: usize) -> (c: &Kanjicard)
        requires
            i < self.kanjicards@.len(),
        ensures
            *c == self.kanjicards@[i as int],
    {
        &self.kanjicards[i]
    }

    /// The word card at position `i`.
    pub fn get_vocabcard(&self, i: usize) -> (c: &Vocabcard)
        requires
            i < self.vocabcards@.len(),
        ensures
            *c == self.vocabcards@[i as int],
    {
        &self.vocabcards[i]
    }
}

/// A lookup finds a headword just added, and never finds a headword that no
/// card of the deck carries.
pub proof fn lemma_lookup_after_add(s: Seq<Vocabcard>, c: Vocabcard, w: Seq<char>)
    ensures
        has_key(s.push(c), c.kanji@),
        (forall|i: int| 0 <= i < s.len() ==> s[i].kanji@ != w) ==> !has_key(s, w),
{
    assert(s.push(c)[s.len() as int] == c);
}

/// Aligning the score of a key that no card of the deck carries leaves the
/// deck exactly as it was: same length, same cards, same scores.
pub proof fn lemma_align_absent_key_is_noop<T: Keyed>(s: Seq<T>, key: Seq<char>, delta: int)
    requires
        !has_key(s, key),
    ensures
        aligned_by_key(s, key, delta) == s,
{
}

} // verus!
