//! The two card kinds and their scoring rule.
//!
//! A score is a non-negative proficiency measure held in tenths of a point,
//! so a fresh card's 10.0 points are the value 100. Score updates clamp at
//! zero from below and saturate at the type's maximum from above.

use vstd::prelude::*;

verus! {

/// Score of a freshly created card: 10.0 points, in tenths.
pub const DEFAULT_SCORE: u32 = 100;

/// The score that results from applying `delta` (in tenths of a point) to
/// `score`: clamped at zero from below, saturated at `u32::MAX` above.
pub open spec fn clamped_score(score: u32, delta: int) -> u32 {
    if score + delta < 0 {
        0u32
    } else if score + delta > u32::MAX {
        u32::MAX
    } else {
        (score + delta) as u32
    }
}

/// A flashcard for one logographic character.
pub struct Kanjicard {
    /// The character itself; the natural key within the kanji deck.
    pub kanji: String,
    /// On (Sino-Japanese) readings, in the order they were given.
    pub on_reading: Vec<String>,
    /// Kun (native) readings, in the order they were given.
    pub kun_reading: Vec<String>,
    /// Free-text gloss.
    pub meaning: String,
    /// Proficiency tier, conventionally 1 through 5; 0 means "not set".
    pub level: i8,
    /// Proficiency score in tenths of a point; never negative.
    pub score: u32,
}

/// The mathematical content of a `Kanjicard`.
pub struct KanjiEntry {
    pub kanji: Seq<char>,
    pub on_reading: Seq<Seq<char>>,
    pub kun_reading: Seq<Seq<char>>,
    pub meaning: Seq<char>,
    pub level: i8,
    pub score: u32,
}

impl View for Kanjicard {
    type V = KanjiEntry;

    open spec fn view(&self) -> KanjiEntry {
        KanjiEntry {
            kanji: self.kanji@,
            on_reading: self.on_reading.deep_view(),
            kun_reading: self.kun_reading.deep_view(),
            meaning: self.meaning@,
            level: self.level,
            score: self.score,
        }
    }
}

/// A flashcard for one written word.
pub struct Vocabcard {
    /// The written word; the natural key within the word deck and the
    /// key under which the card is persisted.
    pub kanji: String,
    /// Alternate phonetic spellings, in the order they were given.
    pub spelling: Vec<String>,
    /// Free-text gloss.
    pub meaning: String,
    /// Proficiency score in tenths of a point; never negative.
    pub score: u32,
}

/// The mathematical content of a `Vocabcard`.
pub struct VocabEntry {
    pub kanji: Seq<char>,
    pub spelling: Seq<Seq<char>>,
    pub meaning: Seq<char>,
    pub score: u32,
}

impl View for Vocabcard {
    type V = VocabEntry;

    open spec fn view(&self) -> VocabEntry {
        VocabEntry {
            kanji: self.kanji@,
            spelling: self.spelling.deep_view(),
            meaning: self.meaning@,
            score: self.score,
        }
    }
}

/// Copies a vector of strings element by element.
pub fn clone_string_vec(v: &Vec<String>) -> (r: Vec<String>)
    ensures
        r@ == v@,
{
    let mut r: Vec<String> = Vec::new();
    let mut i: usize = 0;
    while i < v.len()
        invariant
            i <= v.len(),
            r@ == v@.take(i as int),
        decreases v.len() - i,
    {
        proof {
            assert(v@.take(i + 1) =~= v@.take(i as int).push(v@[i as int]));
        }
        r.push(v[i].clone());
        i = i + 1;
    }
    proof {
        assert(v@.take(v@.len() as int) =~= v@);
    }
    r
}

impl Kanjicard {
    /// Builds a card with the given content and the default score.
    pub fn new(
        kanji: &str,
        on_reading: &Vec<String>,
        kun_reading: &Vec<String>,
        level: i8,
        meaning: &str,
    ) -> (c: Self)
        ensures
            c@ == (KanjiEntry {
                kanji: kanji@,
                on_reading: on_reading.deep_view(),
                kun_reading: kun_reading.deep_view(),
                meaning: meaning@,
                level: level,
                score: DEFAULT_SCORE,
            }),
    {
        Kanjicard {
            kanji: kanji.to_owned(),
            on_reading: clone_string_vec(on_reading),
            kun_reading: clone_string_vec(kun_reading),
            meaning: meaning.to_owned(),
            level: level,
            score: DEFAULT_SCORE,
        }
    }

    /// Adds `delta` (tenths of a point) to the score, clamping at zero;
    /// every other field is unchanged.
    pub fn update_score(&mut self, delta: i64)
        ensures
            final(self).score == clamped_score(old(self).score, delta as int),
            final(self).kanji == old(self).kanji,
            final(self).on_reading == old(self).on_reading,
            final(self).kun_reading == old(self).kun_reading,
            final(self).meaning == old(self).meaning,
            final(self).level == old(self).level,
    {
        let t: i128 = self.score as i128 + delta as i128;
        if t < 0 {
            self.score = 0;
        } else if t > u32::MAX as i128 {
            self.score = u32::MAX;
        } else {
            self.score = t as u32;
        }
    }
}

impl Vocabcard {
    /// Builds a card with the given content and the default score.
    pub fn new(kanji: &str, spelling: &Vec<String>, meaning: &str) -> (c: Self)
        ensures
            c@ == (VocabEntry {
                kanji: kanji@,
                spelling: spelling.deep_view(),
                meaning: meaning@,
                score: DEFAULT_SCORE,
            }),
    {
        Vocabcard {
            kanji: kanji.to_owned(),
            spelling: clone_string_vec(spelling),
            meaning: meaning.to_owned(),
            score: DEFAULT_SCORE,
        }
    }

    /// Adds `delta` (tenths of a point) to the score, clamping at zero;
    /// every other field is unchanged.
    pub fn update_score(&mut self, delta: i64)
        ensures
            final(self).score == clamped_score(old(self).score, delta as int),
            final(self).kanji == old(self).kanji,
            final(self).spelling == old(self).spelling,
            final(self).meaning == old(self).meaning,
    {
        let t: i128 = self.score as i128 + delta as i128;
        if t < 0 {
            self.score = 0;
        } else if t > u32::MAX as i128 {
            self.score = u32::MAX;
        } else {
            self.score = t as u32;
        }
    }
}

/// The score of a card after `update_score(delta)` is exactly the old score
/// plus the delta, clamped to zero from below; saturation above can strike
/// only when the sum passes the score type's maximum.
pub proof fn lemma_update_score_clamps(score: u32, delta: int)
    ensures
        score + delta <= u32::MAX ==> clamped_score(score, delta) == if score + delta
            >= 0 { score + delta } else { 0 },
        clamped_score(score, delta) >= 0,
{
}

} // verus!
