//! Canonical snake_case conversion of identifier-like byte strings.
//!
//! An input byte string is scanned once, left to right.  ASCII bytes are
//! classified as uppercase letters, lowercase letters, digits or separators
//! (any other ASCII byte); bytes outside ASCII are copied through unchanged
//! and never start or end a word on their own.  Separators are discarded and
//! end the current word.  A new word also starts at a lowercase-to-uppercase
//! transition, at every transition between a digit and a letter (digit runs
//! are always split from adjacent letter runs), and at the last uppercase
//! letter of an uppercase run that is followed by a lowercase letter.  Words
//! are lowercased and joined with single underscores.

use vstd::prelude::*;

verus! {

/// The byte that joins words in a canonical name.
pub const UNDERSCORE: u8 = 95;

pub open spec fn is_ascii_upper(b: u8) -> bool {
    65 <= b <= 90
}

pub open spec fn is_ascii_lower(b: u8) -> bool {
    97 <= b <= 122
}

pub open spec fn is_ascii_digit(b: u8) -> bool {
    48 <= b <= 57
}

pub open spec fn is_ascii_letter(b: u8) -> bool {
    is_ascii_upper(b) || is_ascii_lower(b)
}

/// A byte that belongs to a word: a letter, a digit, or a non-ASCII byte,
/// which is carried through without influencing word boundaries.
pub open spec fn is_word_byte(b: u8) -> bool {
    is_ascii_letter(b) || is_ascii_digit(b) || b >= 128
}

/// Every ASCII byte that is neither a letter nor a digit separates words
/// and is discarded.
pub open spec fn is_separator(b: u8) -> bool {
    !is_word_byte(b)
}

/// ASCII lowercasing; every byte but an ASCII uppercase letter is unchanged.
pub open spec fn to_lower(b: u8) -> u8 {
    if is_ascii_upper(b) {
        (b + 32) as u8
    } else {
        b
    }
}

/// Does a new word start between `s[i - 1]` and `s[i]`, both word bytes?
/// The last case is the acronym rule: in a run of uppercase letters, the
/// final letter starts the next word when a lowercase letter follows it.
pub open spec fn word_boundary(s: Seq<u8>, i: int) -> bool {
    ||| is_ascii_lower(s[i - 1]) && is_ascii_upper(s[i])
    ||| is_ascii_digit(s[i - 1]) && is_ascii_letter(s[i])
    ||| is_ascii_letter(s[i - 1]) && is_ascii_digit(s[i])
    ||| is_ascii_upper(s[i - 1]) && is_ascii_upper(s[i]) && i + 1 < s.len()
        && is_ascii_lower(s[i + 1])
}

/// Does the word byte `s[i]` start a word?
pub open spec fn starts_word(s: Seq<u8>, i: int) -> bool {
    i == 0 || is_separator(s[i - 1]) || word_boundary(s, i)
}

/// The converted suffix of `s` from position `i` on; `emitted` says whether
/// a word byte has already been written, so that the next word is preceded
/// by an underscore.
pub open spec fn conv_from(s: Seq<u8>, i: int, emitted: bool) -> Seq<u8>
    decreases s.len() - i,
{
    if i < 0 || i >= s.len() {
        Seq::empty()
    } else if is_separator(s[i]) {
        conv_from(s, i + 1, emitted)
    } else if emitted && starts_word(s, i) {
        seq![UNDERSCORE, to_lower(s[i])] + conv_from(s, i + 1, true)
    } else {
        seq![to_lower(s[i])] + conv_from(s, i + 1, true)
    }
}

/// The canonical snake_case form of a byte string.
pub open spec fn convert_spec(s: Seq<u8>) -> Seq<u8> {
    conv_from(s, 0, false)
}

/// No byte of `s` is an ASCII uppercase letter.
pub open spec fn no_uppercase(s: Seq<u8>) -> bool {
    forall|i: int| 0 <= i < s.len() ==> !is_ascii_upper(#[trigger] s[i])
}

/// Every byte of `s` is a word byte or an underscore.
pub open spec fn only_word_bytes_and_underscores(s: Seq<u8>) -> bool {
    forall|i: int| 0 <= i < s.len() ==> is_word_byte(#[trigger] s[i]) || s[i] == UNDERSCORE
}

/// `s` neither starts nor ends with an underscore.
pub open spec fn no_edge_underscore(s: Seq<u8>) -> bool {
    s.len() > 0 ==> s[0] != UNDERSCORE && s[s.len() - 1] != UNDERSCORE
}

/// `s` holds no two consecutive underscores.
pub open spec fn no_doubled_underscore(s: Seq<u8>) -> bool {
    forall|i: int|
        0 <= i && i + 1 < s.len() ==> !((#[trigger] s[i]) == UNDERSCORE && s[i + 1] == UNDERSCORE)
}

/// No digit of `s` touches a letter: digit runs and letter runs are always
/// parted by an underscore.
pub open spec fn no_digit_letter_contact(s: Seq<u8>) -> bool {
    forall|i: int|
        0 <= i && i + 1 < s.len() ==> !(is_ascii_digit(#[trigger] s[i]) && is_ascii_letter(
            s[i + 1],
        )) && !(is_ascii_letter(s[i]) && is_ascii_digit(s[i + 1]))
}

/// The shape of every canonical snake_case name: lowercase words joined by
/// single underscores, with no underscore at either edge.
pub open spec fn is_canonical(s: Seq<u8>) -> bool {
    &&& no_uppercase(s)
    &&& only_word_bytes_and_underscores(s)
    &&& no_edge_underscore(s)
    &&& no_doubled_underscore(s)
    &&& no_digit_letter_contact(s)
}

proof fn lemma_conv_from_shape(s: Seq<u8>, i: int, emitted: bool)
    requires
        0 <= i <= s.len(),
    ensures
        no_uppercase(conv_from(s, i, emitted)),
        only_word_bytes_and_underscores(conv_from(s, i, emitted)),
        conv_from(s, i, emitted).len() > 0 ==> conv_from(s, i, emitted).last() != UNDERSCORE,
        !emitted && conv_from(s, i, emitted).len() > 0 ==> conv_from(s, i, emitted)[0]
            != UNDERSCORE,
        no_doubled_underscore(conv_from(s, i, emitted)),
        no_digit_letter_contact(conv_from(s, i, emitted)),
        emitted && conv_from(s, i, emitted).len() > 0 && conv_from(s, i, emitted)[0] != UNDERSCORE
            ==> i < s.len() && is_word_byte(s[i]) && !starts_word(s, i) && conv_from(s, i, emitted)[0]
            == to_lower(s[i]),
    decreases s.len() - i,
{
    if i >= s.len() {
    } else if is_separator(s[i]) {
        lemma_conv_from_shape(s, i + 1, emitted);
        assert(starts_word(s, i + 1));
    } else {
        lemma_conv_from_shape(s, i + 1, true);
        let rest = conv_from(s, i + 1, true);
        let piece = if emitted && starts_word(s, i) {
            seq![UNDERSCORE, to_lower(s[i])]
        } else {
            seq![to_lower(s[i])]
        };
        let r = conv_from(s, i, emitted);
        assert(r == piece + rest);
        let p = piece.len() as int;
        assert(r[p - 1] == to_lower(s[i]));
        assert(is_word_byte(to_lower(s[i])));
        assert(forall|j: int| 0 <= j < rest.len() ==> #[trigger] r[p + j] == rest[j]);
        if rest.len() > 0 && rest[0] != UNDERSCORE {
            // the next emitted byte continues the current word, so the two
            // byte classes cannot clash
            assert(!word_boundary(s, i + 1));
            assert(!(is_ascii_digit(to_lower(s[i])) && is_ascii_letter(to_lower(s[i + 1])))
                && !(is_ascii_letter(to_lower(s[i])) && is_ascii_digit(to_lower(s[i + 1]))));
        }
        assert forall|j: int| 0 <= j && j + 1 < r.len() implies !((#[trigger] r[j]) == UNDERSCORE
            && r[j + 1] == UNDERSCORE) by {
            if j >= p {
                assert(r[j] == rest[j - p] && r[j + 1] == rest[j - p + 1]);
            } else if j + 1 == p {
                assert(r[j] == to_lower(s[i]));
            } else {
                assert(r[j + 1] == to_lower(s[i]));
            }
        }
        assert forall|j: int| 0 <= j && j + 1 < r.len() implies !(is_ascii_digit(
            #[trigger] r[j],
        ) && is_ascii_letter(r[j + 1])) && !(is_ascii_letter(r[j]) && is_ascii_digit(
            r[j + 1],
        )) by {
            if j >= p {
                assert(r[j] == rest[j - p] && r[j + 1] == rest[j - p + 1]);
            } else if j + 1 == p {
                assert(r[j] == to_lower(s[i]));
                assert(r[j + 1] == rest[0]);
            } else {
                assert(r[j] == UNDERSCORE);
            }
        }
        if rest.len() > 0 {
            assert(r.last() == rest.last());
        }
    }
}

/// Law: the output of `convert` is canonical — no uppercase ASCII letters,
/// no underscore at the first or the last position, no doubled underscores,
/// and digit runs always split from letter runs.
pub proof fn lemma_convert_canonical(s: Seq<u8>)
    ensures
        is_canonical(convert_spec(s)),
{
    lemma_conv_from_shape(s, 0, false);
    let r = convert_spec(s);
    if r.len() > 0 {
        assert(r[r.len() - 1] == r.last());
    }
}

/// Where the suffix conversion of a canonical string resumes: the underscore
/// before a word is re-emitted together with that word's first byte.
spec fn resume_at(s: Seq<u8>, i: int) -> int {
    if i > 0 && s[i - 1] == UNDERSCORE {
        i - 1
    } else {
        i
    }
}

proof fn lemma_conv_from_canonical_fixed(s: Seq<u8>, i: int)
    requires
        is_canonical(s),
        0 <= i <= s.len(),
    ensures
        conv_from(s, i, i > 0) == s.subrange(resume_at(s, i), s.len() as int),
    decreases s.len() - i,
{
    let len = s.len() as int;
    assert(is_separator(UNDERSCORE));
    if i == len {
        if len > 0 {
            assert(s[len - 1] != UNDERSCORE);
        }
        assert(conv_from(s, i, i > 0) =~= s.subrange(resume_at(s, i), len));
    } else if s[i] == UNDERSCORE {
        assert(i > 0);
        assert(s[i - 1] != UNDERSCORE);
        lemma_conv_from_canonical_fixed(s, i + 1);
        assert(resume_at(s, i + 1) == i);
        assert(conv_from(s, i, true) == conv_from(s, i + 1, true));
    } else {
        assert(is_word_byte(s[i]));
        assert(!is_ascii_upper(s[i]));
        assert(to_lower(s[i]) == s[i]);
        lemma_conv_from_canonical_fixed(s, i + 1);
        assert(resume_at(s, i + 1) == i + 1);
        if i == 0 {
            assert(conv_from(s, 0, false) == seq![s[0]] + s.subrange(1, len));
            assert(seq![s[0]] + s.subrange(1, len) =~= s.subrange(0, len));
        } else if s[i - 1] == UNDERSCORE {
            assert(starts_word(s, i));
            assert(conv_from(s, i, true) == seq![UNDERSCORE, s[i]] + s.subrange(i + 1, len));
            assert(seq![UNDERSCORE, s[i]] + s.subrange(i + 1, len) =~= s.subrange(i - 1, len));
        } else {
            assert(is_word_byte(s[i - 1]));
            assert(!word_boundary(s, i));
            assert(!starts_word(s, i));
            assert(conv_from(s, i, true) == seq![s[i]] + s.subrange(i + 1, len));
            assert(seq![s[i]] + s.subrange(i + 1, len) =~= s.subrange(i, len));
        }
    }
}

/// Law: a name that is already canonical comes back unchanged.
pub proof fn lemma_canonical_unchanged(s: Seq<u8>)
    requires
        is_canonical(s),
    ensures
        convert_spec(s) == s,
{
    lemma_conv_from_canonical_fixed(s, 0);
    assert(s.subrange(0, s.len() as int) =~= s);
}

/// Law: conversion is idempotent — converting a name twice gives the same
/// result as converting it once.
pub proof fn lemma_convert_idempotent(s: Seq<u8>)
    ensures
        convert_spec(convert_spec(s)) == convert_spec(s),
{
    lemma_convert_canonical(s);
    lemma_canonical_unchanged(convert_spec(s));
}

fn byte_is_word(b: u8) -> (r: bool)
    ensures
        r == is_word_byte(b),
{
    (b >= 65 && b <= 90) || (b >= 97 && b <= 122) || (b >= 48 && b <= 57) || b >= 128
}

fn byte_to_lower(b: u8) -> (r: u8)
    ensures
        r == to_lower(b),
{
    if b >= 65 && b <= 90 {
        b + 32
    } else {
        b
    }
}

fn byte_starts_word(name: &[u8], i: usize) -> (r: bool)
    requires
        i < name@.len(),
        is_word_byte(name@[i as int]),
    ensures
        r == starts_word(name@, i as int),
{
    if i == 0 {
        return true;
    }
    let p = name[i - 1];
    if !byte_is_word(p) {
        return true;
    }
    let c = name[i];
    if p >= 97 && p <= 122 && c >= 65 && c <= 90 {
        return true;
    }
    if p >= 48 && p <= 57 && ((c >= 65 && c <= 90) || (c >= 97 && c <= 122)) {
        return true;
    }
    if ((p >= 65 && p <= 90) || (p >= 97 && p <= 122)) && c >= 48 && c <= 57 {
        return true;
    }
    if p >= 65 && p <= 90 && c >= 65 && c <= 90 && i + 1 < name.len() {
        let n = name[i + 1];
        if n >= 97 && n <= 122 {
            return true;
        }
    }
    false
}

/// Rewrite one field name as a canonical snake_case name: words are cut at
/// separators, at case and digit transitions and by the acronym rule, then
/// lowercased and joined with single underscores.
pub fn convert(name: &[u8]) -> (out: Vec<u8>)
    ensures
        out@ == convert_spec(name@),
{
    let mut out: Vec<u8> = Vec::new();
    let mut emitted: bool = false;
    let mut i: usize = 0;
    while i < name.len()
        invariant
            i <= name@.len(),
            convert_spec(name@) == out@ + conv_from(name@, i as int, emitted),
        decreases name@.len() - i,
    {
        let c = name[i];
        if byte_is_word(c) {
            if emitted && byte_starts_word(name, i) {
                out.push(UNDERSCORE);
            }
            out.push(byte_to_lower(c));
            emitted = true;
            proof {
                assert(convert_spec(name@) =~= out@ + conv_from(name@, i as int + 1, true));
            }
        }
        i = i + 1;
    }
    proof {
        assert(out@ + conv_from(name@, i as int, emitted) =~= out@);
    }
    out
}

} // verus!
