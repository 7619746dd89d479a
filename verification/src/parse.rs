//! The parser for the persisted vocabulary document.
//!
//! The grammar is exactly the one the encoder writes: a sequence of tables,
//! each a quoted headword in brackets followed by the four field lines. The
//! specification parsers return the parsed value and the remaining text;
//! the executable parsers mirror them one branch per branch, walking the
//! character vector by index.

use vstd::prelude::*;
use crate::cards::{Vocabcard, VocabEntry};
use crate::codec::{
    label_kanji, label_meaning, label_score, label_spelling, must_escape, views_of,
};
use crate::trusted::chars_to_string;

verus! {

pub open spec fn is_digit(c: char) -> bool {
    0x30 <= c as u32 <= 0x39
}

pub open spec fn digit_val(c: char) -> int {
    c as u32 - 0x30
}

/// An upper-case hexadecimal digit, as the encoder writes them.
pub open spec fn is_hex_digit(c: char) -> bool {
    is_digit(c) || 0x41 <= c as u32 <= 0x46
}

pub open spec fn hex_val(c: char) -> int {
    if is_digit(c) {
        digit_val(c)
    } else {
        c as u32 - 0x41 + 10
    }
}

/// The character a named escape letter stands for.
pub open spec fn named_escape(c: char) -> char {
    if c == 'b' {
        '\u{8}'
    } else if c == 't' {
        '\t'
    } else if c == 'n' {
        '\n'
    } else if c == 'f' {
        '\u{C}'
    } else {
        '\r'
    }
}

pub open spec fn is_named_escape(c: char) -> bool {
    c == 'b' || c == 't' || c == 'n' || c == 'f' || c == 'r'
}

pub open spec fn starts_with(s: Seq<char>, p: Seq<char>) -> bool {
    p.len() <= s.len() && s.take(p.len() as int) == p
}

/// Parses a quoted string body, the opening quote already consumed:
/// the unescaped content and the rest after the closing quote.
pub open spec fn sp_qstring(s: Seq<char>) -> Option<(Seq<char>, Seq<char>)>
    decreases s.len(),
{
    if s.len() == 0 {
        None
    } else if s[0] == '"' {
        Some((Seq::<char>::empty(), s.drop_first()))
    } else if s[0] == '\\' {
        if s.len() >= 2 && (s[1] == '"' || s[1] == '\\') {
            match sp_qstring(s.skip(2)) {
                Some(p) => Some((seq![s[1]] + p.0, p.1)),
                None => None,
            }
        } else if s.len() >= 2 && is_named_escape(s[1]) {
            match sp_qstring(s.skip(2)) {
                Some(p) => Some((seq![named_escape(s[1])] + p.0, p.1)),
                None => None,
            }
        } else if s.len() >= 6 && s[1] == 'u' && s[2] == '0' && s[3] == '0' && is_hex_digit(s[4])
            && is_hex_digit(s[5]) && must_escape(((16 * hex_val(s[4]) + hex_val(s[5])) as u32)
            as char) {
            match sp_qstring(s.skip(6)) {
                Some(p) => Some(
                    (seq![((16 * hex_val(s[4]) + hex_val(s[5])) as u32) as char] + p.0, p.1),
                ),
                None => None,
            }
        } else {
            None
        }
    } else if must_escape(s[0]) {
        None
    } else {
        match sp_qstring(s.drop_first()) {
            Some(p) => Some((seq![s[0]] + p.0, p.1)),
            None => None,
        }
    }
}

/// Consumes leading digits, folding them onto `acc`.
pub open spec fn sp_digits(s: Seq<char>, acc: int) -> (int, Seq<char>)
    decreases s.len(),
{
    if s.len() > 0 && is_digit(s[0]) {
        sp_digits(s.drop_first(), acc * 10 + digit_val(s[0]))
    } else {
        (acc, s)
    }
}

/// Parses a score: digits, a point, one fraction digit, read in tenths;
/// values beyond the score type are rejected.
pub open spec fn sp_score(s: Seq<char>) -> Option<(u32, Seq<char>)> {
    if s.len() == 0 || !is_digit(s[0]) {
        None
    } else {
        let q = sp_digits(s, 0).0;
        let r = sp_digits(s, 0).1;
        if r.len() >= 2 && r[0] == '.' && is_digit(r[1]) {
            let v = q * 10 + digit_val(r[1]);
            if v <= u32::MAX {
                Some((v as u32, r.skip(2)))
            } else {
                None
            }
        } else {
            None
        }
    }
}

/// Parses the quoted spellings up to and including the closing bracket,
/// the opening bracket already consumed.
pub open spec fn sp_spellings(s: Seq<char>) -> Option<(Seq<Seq<char>>, Seq<char>)>
    decreases s.len(),
{
    if s.len() == 0 {
        None
    } else if s[0] == ']' {
        Some((Seq::<Seq<char>>::empty(), s.drop_first()))
    } else if s[0] == '"' {
        match sp_qstring(s.drop_first()) {
            Some(p) => {
                let r = p.1;
                if r.len() > 0 && r[0] == ']' {
                    Some((seq![p.0], r.drop_first()))
                } else if starts_with(r, seq![',', ' ']) && r.skip(2).len() < s.len() {
                    match sp_spellings(r.skip(2)) {
                        Some(p2) => Some((seq![p.0] + p2.0, p2.1)),
                        None => None,
                    }
                } else {
                    None
                }
            },
            None => None,
        }
    } else {
        None
    }
}

pub open spec fn lit_after_key() -> Seq<char> {
    seq![']', '\n'] + label_kanji() + seq!['"']
}

pub open spec fn lit_after_kanji() -> Seq<char> {
    seq!['\n'] + label_spelling() + seq!['[']
}

pub open spec fn lit_after_spelling() -> Seq<char> {
    seq!['\n'] + label_meaning() + seq!['"']
}

pub open spec fn lit_after_meaning() -> Seq<char> {
    seq!['\n'] + label_score()
}

/// Parses one table: the parsed card's content and the rest after the
/// table's final newline. The header key is read and discarded, as the
/// card's own headword field is authoritative.
pub open spec fn sp_entry(s: Seq<char>) -> Option<(VocabEntry, Seq<char>)> {
    if !starts_with(s, seq!['[', '"']) {
        None
    } else {
        match sp_qstring(s.skip(2)) {
            None => None,
            Some(p1) => {
                let r1 = p1.1;
                if !starts_with(r1, lit_after_key()) {
                    None
                } else {
                    match sp_qstring(r1.skip(lit_after_key().len() as int)) {
                        None => None,
                        Some(p2) => {
                            let r2 = p2.1;
                            if !starts_with(r2, lit_after_kanji()) {
                                None
                            } else {
                                match sp_spellings(r2.skip(lit_after_kanji().len() as int)) {
                                    None => None,
                                    Some(p3) => {
                                        let r3 = p3.1;
                                        if !starts_with(r3, lit_after_spelling()) {
                                            None
                                        } else {
                                            match sp_qstring(
                                                r3.skip(lit_after_spelling().len() as int),
                                            ) {
                                                None => None,
                                                Some(p4) => {
                                                    let r4 = p4.1;
                                                    if !starts_with(r4, lit_after_meaning()) {
                                                        None
                                                    } else {
                                                        match sp_score(
                                                            r4.skip(
                                                                lit_after_meaning().len() as int,
                                                            ),
                                                        ) {
                                                            None => None,
                                                            Some(p5) => {
                                                                let r5 = p5.1;
                                                                if r5.len() > 0 && r5[0]
                                                                    == '\n' {
                                                                    Some(
                                                                        (
                                                                            VocabEntry {
                                                                                kanji: p2.0,
                                                                                spelling: p3.0,
                                                                                meaning: p4.0,
                                                                                score: p5.0,
                                                                            },
                                                                            r5.drop_first(),
                                                                        ),
                                                                    )
                                                                } else {
                                                                    None
                                                                }
                                                            },
                                                        }
                                                    }
                                                },
                                            }
                                        }
                                    },
                                }
                            }
                        },
                    }
                }
            },
        }
    }
}

/// Parses a whole document: a sequence of tables covering all of `s`.
pub open spec fn sp_doc(s: Seq<char>) -> Option<Seq<VocabEntry>>
    decreases s.len(),
{
    if s.len() == 0 {
        Some(Seq::<VocabEntry>::empty())
    } else {
        match sp_entry(s) {
            None => None,
            Some(p) => {
                if p.1.len() < s.len() {
                    match sp_doc(p.1) {
                        Some(es) => Some(seq![p.0] + es),
                        None => None,
                    }
                } else {
                    None
                }
            },
        }
    }
}

/// Whether `c` is an upper-case hexadecimal digit.
fn is_hex_exec(c: char) -> (r: bool)
    ensures
        r == is_hex_digit(c),
{
    ((c as u32) >= 0x30 && (c as u32) <= 0x39) || ((c as u32) >= 0x41 && (c as u32) <= 0x46)
}

/// The value of a hexadecimal digit.
fn hex_val_exec(c: char) -> (r: u32)
    requires
        is_hex_digit(c),
    ensures
        r as int == hex_val(c),
        r < 16,
{
    let u = c as u32;
    if u <= 0x39 {
        u - 0x30
    } else {
        u - 0x41 + 10
    }
}

/// The character with the given code, for codes below 0x80.
fn char_from_code(code: u32) -> (c: char)
    requires
        code < 0x80,
    ensures
        c == (code as char),
{
    (code as u8) as char
}

/// Reads a quoted string body starting at `i`, appending the content onto
/// `acc`; returns the position after the closing quote.
fn px_qstring(s: &Vec<char>, i: usize, acc: &mut Vec<char>) -> (r: Option<usize>)
    requires
        i <= s@.len(),
    ensures
        match r {
            Some(j) => {
                &&& i < j <= s@.len()
                &&& sp_qstring(s@.skip(i as int)) is Some
                &&& final(acc)@ == old(acc)@ + sp_qstring(s@.skip(i as int)).unwrap().0
                &&& s@.skip(j as int) == sp_qstring(s@.skip(i as int)).unwrap().1
            },
            None => sp_qstring(s@.skip(i as int)) is None,
        },
    decreases s@.len() - i,
{
    if i >= s.len() {
        return None;
    }
    let c = s[i];
    proof {
        assert(s@.skip(i as int)[0] == s@[i as int]);
    }
    if c == '"' {
        proof {
            assert(s@.skip(i as int).drop_first() =~= s@.skip(i + 1));
            assert(acc@ =~= acc@ + Seq::<char>::empty());
        }
        return Some(i + 1);
    }
    if c == '\\' {
        if i + 1 < s.len() {
            let c2 = s[i + 1];
            proof {
                assert(s@.skip(i as int)[1] == s@[i + 1]);
            }
            if c2 == '"' || c2 == '\\' {
                acc.push(c2);
                proof {
                    assert(s@.skip(i as int).skip(2) =~= s@.skip(i + 2));
                }
                let res = px_qstring(s, i + 2, acc);
                match res {
                    Some(j) => {
                        proof {
                            let inner = sp_qstring(s@.skip(i + 2)).unwrap().0;
                            assert(acc@ =~= old(acc)@ + (seq![s@[i + 1]] + inner));
                        }
                        return Some(j);
                    },
                    None => {
                        return None;
                    },
                }
            }
            if c2 == 'b' || c2 == 't' || c2 == 'n' || c2 == 'f' || c2 == 'r' {
                let unescaped = if c2 == 'b' {
                    '\u{8}'
                } else if c2 == 't' {
                    '\t'
                } else if c2 == 'n' {
                    '\n'
                } else if c2 == 'f' {
                    '\u{C}'
                } else {
                    '\r'
                };
                acc.push(unescaped);
                proof {
                    assert(unescaped == named_escape(s@[i + 1]));
                    assert(s@.skip(i as int).skip(2) =~= s@.skip(i + 2));
                }
                let res = px_qstring(s, i + 2, acc);
                match res {
                    Some(j) => {
                        proof {
                            let inner = sp_qstring(s@.skip(i + 2)).unwrap().0;
                            assert(acc@ =~= old(acc)@ + (seq![named_escape(s@[i + 1])] + inner));
                        }
                        return Some(j);
                    },
                    None => {
                        return None;
                    },
                }
            }
            if c2 == 'u' {
                if s.len() - i < 6 {
                    return None;
                }
                let c3 = s[i + 2];
                let c4 = s[i + 3];
                let h1 = s[i + 4];
                let h2 = s[i + 5];
                proof {
                    assert(s@.skip(i as int)[2] == s@[i + 2]);
                    assert(s@.skip(i as int)[3] == s@[i + 3]);
                    assert(s@.skip(i as int)[4] == s@[i + 4]);
                    assert(s@.skip(i as int)[5] == s@[i + 5]);
                }
                if c3 != '0' || c4 != '0' || !is_hex_exec(h1) || !is_hex_exec(h2) {
                    return None;
                }
                let code: u32 = 16 * hex_val_exec(h1) + hex_val_exec(h2);
                if !(code < 0x20 || code == 0x7F) {
                    return None;
                }
                let ch = char_from_code(code);
                acc.push(ch);
                proof {
                    assert(s@.skip(i as int).skip(6) =~= s@.skip(i + 6));
                }
                let res = px_qstring(s, i + 6, acc);
                match res {
                    Some(j) => {
                        proof {
                            let inner = sp_qstring(s@.skip(i + 6)).unwrap().0;
                            assert(acc@ =~= old(acc)@ + (seq![(code as char)] + inner));
                        }
                        return Some(j);
                    },
                    None => {
                        return None;
                    },
                }
            }
            return None;
        }
        proof {
            assert(s@.skip(i as int).len() >= 2 ==> s@.skip(i as int)[1] == s@[i + 1]);
        }
        return None;
    }
    if (c as u32) < 0x20 || (c as u32) == 0x7F {
        return None;
    }
    acc.push(c);
    proof {
        assert(s@.skip(i as int).drop_first() =~= s@.skip(i + 1));
    }
    let res = px_qstring(s, i + 1, acc);
    match res {
        Some(j) => {
            proof {
                let inner = sp_qstring(s@.skip(i + 1)).unwrap().0;
                assert(acc@ =~= old(acc)@ + (seq![s@[i as int]] + inner));
            }
            Some(j)
        },
        None => None,
    }
}

/// Whether the text at `i` starts with `pat`.
fn match_at(s: &Vec<char>, i: usize, pat: &Vec<char>) -> (r: bool)
    requires
        i <= s@.len(),
    ensures
        r == starts_with(s@.skip(i as int), pat@),
{
    if s.len() - i < pat.len() {
        return false;
    }
    let mut j: usize = 0;
    while j < pat.len()
        invariant
            j <= pat@.len(),
            i + pat@.len() <= s@.len(),
            s@.len() <= usize::MAX,
            forall|q: int| 0 <= q < j ==> s@[i + q] == pat@[q],
        decreases pat@.len() - j,
    {
        if s[i + j] != pat[j] {
            proof {
                assert(s@.skip(i as int).take(pat@.len() as int)[j as int] == s@[i + j]);
            }
            return false;
        }
        j = j + 1;
    }
    proof {
        assert(s@.skip(i as int).take(pat@.len() as int) =~= pat@);
    }
    true
}

/// Reads a score starting at `i`.
fn px_score(s: &Vec<char>, i: usize) -> (r: Option<(u32, usize)>)
    requires
        i <= s@.len(),
    ensures
        match r {
            Some(p) => {
                &&& i < p.1 <= s@.len()
                &&& sp_score(s@.skip(i as int)) == Some((p.0, s@.skip(p.1 as int)))
            },
            None => sp_score(s@.skip(i as int)) is None,
        },
{
    if i >= s.len() {
        return None;
    }
    proof {
        assert(s@.skip(i as int)[0] == s@[i as int]);
    }
    let c0 = s[i];
    if (c0 as u32) < 0x30 || (c0 as u32) > 0x39 {
        return None;
    }
    let mut j: usize = i;
    let mut acc: u64 = 0;
    let ghost mut acc_g: int = 0;
    while j < s.len() && (s[j] as u32) >= 0x30 && (s[j] as u32) <= 0x39
        invariant
            i <= j <= s@.len(),
            acc_g >= 0,
            sp_digits(s@.skip(i as int), 0) == sp_digits(s@.skip(j as int), acc_g),
            acc_g <= u32::MAX ==> acc == acc_g,
            acc_g > u32::MAX ==> acc > u32::MAX,
            acc <= 0xFFFF_FFFF_Fu64,
        decreases s@.len() - j,
    {
        let d: u32 = (s[j] as u32) - 0x30;
        proof {
            assert(s@.skip(j as int)[0] == s@[j as int]);
            assert(is_digit(s@[j as int]));
            assert(s@.skip(j as int).drop_first() =~= s@.skip(j + 1));
            assert(sp_digits(s@.skip(j as int), acc_g) == sp_digits(
                s@.skip(j + 1),
                acc_g * 10 + digit_val(s@[j as int]),
            ));
        }
        if acc <= u32::MAX as u64 {
            acc = acc * 10 + d as u64;
        }
        proof {
            acc_g = acc_g * 10 + digit_val(s@[j as int]);
        }
        j = j + 1;
    }
    proof {
        if j < s@.len() {
            assert(s@.skip(j as int)[0] == s@[j as int]);
        }
        assert(sp_digits(s@.skip(j as int), acc_g) == (acc_g, s@.skip(j as int)));
    }
    if s.len() - j < 2 {
        return None;
    }
    proof {
        assert(s@.skip(j as int)[0] == s@[j as int]);
        assert(s@.skip(j as int)[1] == s@[j + 1]);
    }
    if s[j] != '.' {
        return None;
    }
    let c2 = s[j + 1];
    if (c2 as u32) < 0x30 || (c2 as u32) > 0x39 {
        return None;
    }
    let d2: u32 = (c2 as u32) - 0x30;
    if acc > u32::MAX as u64 {
        return None;
    }
    let v64: u64 = acc * 10 + d2 as u64;
    if v64 > u32::MAX as u64 {
        return None;
    }
    proof {
        assert(s@.skip(j as int).skip(2) =~= s@.skip(j + 2));
    }
    Some((v64 as u32, j + 2))
}

/// Reads the spelling list starting at `i` (opening bracket consumed),
/// appending the spellings onto `acc`.
fn px_spellings(s: &Vec<char>, i: usize, acc: &mut Vec<String>) -> (r: Option<usize>)
    requires
        i <= s@.len(),
    ensures
        match r {
            Some(j) => {
                &&& i < j <= s@.len()
                &&& sp_spellings(s@.skip(i as int)) is Some
                &&& final(acc).deep_view() == old(acc).deep_view() + sp_spellings(
                    s@.skip(i as int),
                ).unwrap().0
                &&& s@.skip(j as int) == sp_spellings(s@.skip(i as int)).unwrap().1
            },
            None => sp_spellings(s@.skip(i as int)) is None,
        },
    decreases s@.len() - i,
{
    if i >= s.len() {
        return None;
    }
    proof {
        assert(s@.skip(i as int)[0] == s@[i as int]);
    }
    let c = s[i];
    if c == ']' {
        proof {
            assert(s@.skip(i as int).drop_first() =~= s@.skip(i + 1));
            assert(acc.deep_view() =~= acc.deep_view() + Seq::<Seq<char>>::empty());
        }
        return Some(i + 1);
    }
    if c != '"' {
        return None;
    }
    let mut item: Vec<char> = Vec::new();
    proof {
        assert(s@.skip(i as int).drop_first() =~= s@.skip(i + 1));
    }
    let q = px_qstring(s, i + 1, &mut item);
    match q {
        None => None,
        Some(j1) => {
            let ghost x = sp_qstring(s@.skip(i + 1)).unwrap().0;
            let ghost rr = sp_qstring(s@.skip(i + 1)).unwrap().1;
            proof {
                assert(item@ == x);
                assert(rr == s@.skip(j1 as int));
            }
            if j1 < s.len() && s[j1] == ']' {
                proof {
                    assert(rr[0] == s@[j1 as int]);
                }
                acc.push(chars_to_string(&item));
                proof {
                    assert(s@.skip(j1 as int).drop_first() =~= s@.skip(j1 + 1));
                    assert(acc.deep_view() =~= old(acc).deep_view() + seq![x]);
                }
                return Some(j1 + 1);
            }
            if s.len() - j1 >= 2 && s[j1] == ',' && s[j1 + 1] == ' ' {
                proof {
                    assert(rr[0] == s@[j1 as int]);
                    assert(rr[1] == s@[j1 + 1]);
                    assert(rr.take(2) =~= seq![',', ' ']);
                    assert(starts_with(rr, seq![',', ' ']));
                    assert(rr.skip(2) =~= s@.skip(j1 + 2));
                }
                acc.push(chars_to_string(&item));
                let ghost mid = acc.deep_view();
                proof {
                    assert(mid =~= old(acc).deep_view() + seq![x]);
                }
                let rest = px_spellings(s, j1 + 2, acc);
                match rest {
                    None => None,
                    Some(j2) => {
                        proof {
                            let inner = sp_spellings(s@.skip(j1 + 2)).unwrap().0;
                            assert(acc.deep_view() =~= old(acc).deep_view() + (seq![x] + inner));
                        }
                        Some(j2)
                    },
                }
            } else {
                proof {
                    if rr.len() > 0 {
                        assert(rr[0] == s@[j1 as int]);
                    }
                    if rr.len() >= 2 {
                        assert(rr[1] == s@[j1 + 1]);
                        if s@[j1 as int] == ',' && s@[j1 + 1] == ' ' {
                            assert(j1 + 1 < s@.len());
                        }
                        assert(rr.take(2)[0] == rr[0]);
                        assert(rr.take(2)[1] == rr[1]);
                    }
                    if starts_with(rr, seq![',', ' ']) {
                        assert(rr.take(2)[0] == seq![',', ' '][0]);
                        assert(rr.take(2)[1] == seq![',', ' '][1]);
                    }
                }
                None
            }
        },
    }
}

fn lit_open_vec() -> (v: Vec<char>)
    ensures
        v@ == seq!['[', '"'],
{
    let mut v: Vec<char> = Vec::new();
    v.push('[');
    v.push('"');
    proof {
        assert(v@ =~= seq!['[', '"']);
    }
    v
}

fn lit_after_key_vec() -> (v: Vec<char>)
    ensures
        v@ == lit_after_key(),
{
    let mut v: Vec<char> = Vec::new();
    v.push(']');
    v.push('\n');
    v.push('k');
    v.push('a');
    v.push('n');
    v.push('j');
    v.push('i');
    v.push(' ');
    v.push('=');
    v.push(' ');
    v.push('"');
    proof {
        assert(v@ =~= lit_after_key());
    }
    v
}

fn lit_after_kanji_vec() -> (v: Vec<char>)
    ensures
        v@ == lit_after_kanji(),
{
    let mut v: Vec<char> = Vec::new();
    v.push('\n');
    v.push('s');
    v.push('p');
    v.push('e');
    v.push('l');
    v.push('l');
    v.push('i');
    v.push('n');
    v.push('g');
    v.push(' ');
    v.push('=');
    v.push(' ');
    v.push('[');
    proof {
        assert(v@ =~= lit_after_kanji());
    }
    v
}

fn lit_after_spelling_vec() -> (v: Vec<char>)
    ensures
        v@ == lit_after_spelling(),
{
    let mut v: Vec<char> = Vec::new();
    v.push('\n');
    v.push('m');
    v.push('e');
    v.push('a');
    v.push('n');
    v.push('i');
    v.push('n');
    v.push('g');
    v.push(' ');
    v.push('=');
    v.push(' ');
    v.push('"');
    proof {
        assert(v@ =~= lit_after_spelling());
    }
    v
}

fn lit_after_meaning_vec() -> (v: Vec<char>)
    ensures
        v@ == lit_after_meaning(),
{
    let mut v: Vec<char> = Vec::new();
    v.push('\n');
    v.push('s');
    v.push('c');
    v.push('o');
    v.push('r');
    v.push('e');
    v.push(' ');
    v.push('=');
    v.push(' ');
    proof {
        assert(v@ =~= lit_after_meaning());
    }
    v
}

/// Reads one table starting at `i`, building the card it describes.
pub fn px_entry(s: &Vec<char>, i: usize) -> (r: Option<(Vocabcard, usize)>)
    requires
        i <= s@.len(),
    ensures
        match r {
            Some(p) => {
                &&& i < p.1 <= s@.len()
                &&& sp_entry(s@.skip(i as int)) == Some((p.0@, s@.skip(p.1 as int)))
            },
            None => sp_entry(s@.skip(i as int)) is None,
        },
{
    let n = s.len();
    let lit0 = lit_open_vec();
    if !match_at(s, i, &lit0) {
        return None;
    }
    proof {
        assert(s@.skip(i as int).skip(2) =~= s@.skip(i + 2));
    }
    let mut keybuf: Vec<char> = Vec::new();
    let j1 = match px_qstring(s, i + 2, &mut keybuf) {
        None => {
            return None;
        },
        Some(j) => j,
    };
    let lit1 = lit_after_key_vec();
    if !match_at(s, j1, &lit1) {
        return None;
    }
    proof {
        assert(s@.skip(j1 as int).skip(lit_after_key().len() as int) =~= s@.skip(
            j1 + lit_after_key().len(),
        ));
    }
    let mut kanjibuf: Vec<char> = Vec::new();
    let j2 = match px_qstring(s, j1 + lit1.len(), &mut kanjibuf) {
        None => {
            return None;
        },
        Some(j) => j,
    };
    let lit2 = lit_after_kanji_vec();
    if !match_at(s, j2, &lit2) {
        return None;
    }
    proof {
        assert(s@.skip(j2 as int).skip(lit_after_kanji().len() as int) =~= s@.skip(
            j2 + lit_after_kanji().len(),
        ));
    }
    let mut spvec: Vec<String> = Vec::new();
    let j3 = match px_spellings(s, j2 + lit2.len(), &mut spvec) {
        None => {
            return None;
        },
        Some(j) => j,
    };
    let lit3 = lit_after_spelling_vec();
    if !match_at(s, j3, &lit3) {
        return None;
    }
    proof {
        assert(s@.skip(j3 as int).skip(lit_after_spelling().len() as int) =~= s@.skip(
            j3 + lit_after_spelling().len(),
        ));
    }
    let mut meaningbuf: Vec<char> = Vec::new();
    let j4 = match px_qstring(s, j3 + lit3.len(), &mut meaningbuf) {
        None => {
            return None;
        },
        Some(j) => j,
    };
    let lit4 = lit_after_meaning_vec();
    if !match_at(s, j4, &lit4) {
        return None;
    }
    proof {
        assert(s@.skip(j4 as int).skip(lit_after_meaning().len() as int) =~= s@.skip(
            j4 + lit_after_meaning().len(),
        ));
    }
    let sc = match px_score(s, j4 + lit4.len()) {
        None => {
            return None;
        },
        Some(p) => p,
    };
    let j5 = sc.1;
    if j5 >= n {
        return None;
    }
    proof {
        assert(s@.skip(j5 as int)[0] == s@[j5 as int]);
    }
    if s[j5] != '\n' {
        return None;
    }
    proof {
        assert(s@.skip(j5 as int).drop_first() =~= s@.skip(j5 + 1));
    }
    let card = Vocabcard {
        kanji: chars_to_string(&kanjibuf),
        spelling: spvec,
        meaning: chars_to_string(&meaningbuf),
        score: sc.0,
    };
    proof {
        assert(card@ == sp_entry(s@.skip(i as int)).unwrap().0);
    }
    Some((card, j5 + 1))
}

/// Reads a whole document starting at `i`, appending every parsed card
/// onto `out`; false exactly when the text is not a valid document.
pub fn px_doc(s: &Vec<char>, i: usize, out: &mut Vec<Vocabcard>) -> (r: bool)
    requires
        i <= s@.len(),
    ensures
        r == (sp_doc(s@.skip(i as int)) is Some),
        r ==> views_of(final(out)@) == views_of(old(out)@) + sp_doc(s@.skip(i as int)).unwrap(),
    decreases s@.len() - i,
{
    if i >= s.len() {
        proof {
            assert(s@.skip(i as int) =~= Seq::<char>::empty());
            assert(views_of(out@) =~= views_of(out@) + Seq::<VocabEntry>::empty());
        }
        return true;
    }
    match px_entry(s, i) {
        None => false,
        Some(p) => {
            let (card, j) = p;
            let ghost e = card@;
            out.push(card);
            proof {
                assert(views_of(out@) =~= views_of(old(out)@).push(e));
            }
            let ok = px_doc(s, j, out);
            if !ok {
                return false;
            }
            proof {
                let es = sp_doc(s@.skip(j as int)).unwrap();
                assert(views_of(out@) =~= views_of(old(out)@) + (seq![e] + es));
            }
            true
        },
    }
}

} // verus!
