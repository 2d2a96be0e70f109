//! Repair of a verb stem after its ending is gone.
//!
//! Three groups of rules are applied in order. The first removes a tense or
//! modifier marker from the last syllable, the second undoes the passive
//! auxiliary, the third restores the `ㅂ` of an irregular stem. In each group
//! the first pattern that matches rewrites the stem.

use crate::syllable::{
    has_tail, has_tail_named, is_syllable_char, lemma_named_tail, retail, tail_bieup,
    tail_name_of, tail_nieun, tail_rieul, tail_ssang_siot, with_bieup, without_tail,
};
use vstd::prelude::*;

verus! {

/// What was cut off a word to leave the verb stem.
#[derive(Clone, Copy, Debug, PartialEq, Eq, Structural)]
pub enum Cut {
    /// Nothing: the word is a verb stem that the lexicon lists.
    Nothing,
    /// An ending from a table.
    Ending,
    /// The dictionary ending.
    Citation,
    /// Nothing from a table: the word is a modifier form, and the tail of its
    /// last syllable is the ending.
    Modifier,
}

/// Whether the tail of `c` is a marker that goes after the given cut: the
/// past `ㅆ` before an ending, the past `ㅆ` or the present `ㄴ` before the
/// dictionary ending, the `ㄴ` or `ㄹ` of a modifier form.
pub open spec fn is_marked(c: char, cut: Cut) -> bool {
    match cut {
        Cut::Nothing => false,
        Cut::Ending => has_tail(c, tail_ssang_siot()),
        Cut::Citation => has_tail(c, tail_ssang_siot()) || has_tail(c, tail_nieun()),
        Cut::Modifier => has_tail(c, tail_nieun()) || has_tail(c, tail_rieul()),
    }
}

/// Whether `word` has the shape of a modifier form that is read as a verb:
/// a single syllable closed by `ㄹ`, the prospective form of an open stem; or
/// a word that ends in `운` after an open syllable, the form of a stem that
/// loses its `ㅂ`. No other word is taken for a modifier form, whatever the
/// tail of its last syllable.
pub open spec fn is_modifier_form(word: Seq<char>) -> bool {
    let n = word.len() as int;
    ||| n == 1 && has_tail(word[0], tail_rieul())
    ||| n >= 2 && word[n - 1] == '운' && has_tail(word[n - 2], 0)
}

/// Whether `c` is one of the syllables `아`, `어`, `여` that carry the past
/// marker after a closed stem.
pub open spec fn is_past_carrier(c: char) -> bool {
    c == '아' || c == '어' || c == '여'
}

/// `stem` without the marker in its last syllable. A past marker takes its
/// carrier syllable with it, and the contracted `해` goes back to `하`.
pub open spec fn without_marker(stem: Seq<char>, cut: Cut) -> Seq<char> {
    if stem.len() == 0 || !is_marked(stem.last(), cut) {
        stem
    } else {
        let opened = retail(stem.last(), 0);
        if has_tail(stem.last(), tail_ssang_siot()) && stem.len() >= 2 && is_past_carrier(opened) {
            stem.drop_last()
        } else if has_tail(stem.last(), tail_ssang_siot()) && opened == '해' {
            stem.drop_last().push('하')
        } else {
            stem.drop_last().push(opened)
        }
    }
}

/// `stem` with the passive auxiliary `당하` replaced by `하`.
pub open spec fn without_passive(stem: Seq<char>) -> Seq<char> {
    let n = stem.len() as int;
    if n >= 3 && stem[n - 2] == '당' && stem[n - 1] == '하' {
        stem.take(n - 2).push('하')
    } else {
        stem
    }
}

/// `stem` with a final `우` after an open syllable folded back into the `ㅂ`
/// that the modifier form replaced.
pub open spec fn with_bieup_restored(stem: Seq<char>, cut: Cut) -> Seq<char> {
    let n = stem.len() as int;
    if cut == Cut::Modifier && n >= 2 && stem[n - 1] == '우' && has_tail(stem[n - 2], 0) {
        stem.take(n - 2).push(retail(stem[n - 2], tail_bieup()))
    } else {
        stem
    }
}

/// The stem in the form that the dictionary lists.
pub open spec fn repaired(stem: Seq<char>, cut: Cut) -> Seq<char> {
    with_bieup_restored(without_passive(without_marker(stem, cut)), cut)
}

/// Whether the tail of `c` is a marker that goes after `cut`.
pub fn has_marker(c: char, cut: Cut) -> (r: bool)
    ensures
        r == is_marked(c, cut),
{
    proof {
        lemma_named_tail(c, tail_ssang_siot());
        lemma_named_tail(c, tail_nieun());
        lemma_named_tail(c, tail_rieul());
    }
    match cut {
        Cut::Nothing => false,
        Cut::Ending => has_tail_named(c, 'ㅆ'),
        Cut::Citation => has_tail_named(c, 'ㅆ') || has_tail_named(c, 'ㄴ'),
        Cut::Modifier => has_tail_named(c, 'ㄴ') || has_tail_named(c, 'ㄹ'),
    }
}

/// Whether `word` has the shape of a modifier form.
pub fn has_modifier_form(word: &Vec<char>) -> (r: bool)
    ensures
        r == is_modifier_form(word@),
{
    let n = word.len();
    if n == 1 {
        proof {
            lemma_named_tail(word@[0], tail_rieul());
        }
        has_tail_named(word[0], 'ㄹ')
    } else if n >= 2 {
        word[n - 1] == '운' && is_syllable_char(word[n - 2]) && tail_name_of(
            word[n - 2],
        ).is_none()
    } else {
        false
    }
}

/// Removes the marker from the last syllable of `stem`.
pub fn remove_marker(stem: Vec<char>, cut: Cut) -> (r: Vec<char>)
    ensures
        r@ == without_marker(stem@, cut),
{
    let mut stem = stem;
    let n = stem.len();
    if n == 0 {
        return stem;
    }
    let last = stem[n - 1];
    if !has_marker(last, cut) {
        return stem;
    }
    let past = has_tail_named(last, 'ㅆ');
    proof {
        lemma_named_tail(last, tail_ssang_siot());
    }
    let opened = without_tail(last);
    stem.pop();
    if past && n >= 2 && (opened == '아' || opened == '어' || opened == '여') {
    } else if past && opened == '해' {
        stem.push('하');
    } else {
        stem.push(opened);
    }
    stem
}

/// Replaces a final `당하` by `하`.
pub fn remove_passive(stem: Vec<char>) -> (r: Vec<char>)
    ensures
        r@ == without_passive(stem@),
{
    let mut stem = stem;
    let n = stem.len();
    if n >= 3 && stem[n - 2] == '당' && stem[n - 1] == '하' {
        stem.truncate(n - 2);
        stem.push('하');
    }
    stem
}

/// Folds a final `우` after an open syllable back into a tail `ㅂ`.
pub fn restore_bieup(stem: Vec<char>, cut: Cut) -> (r: Vec<char>)
    ensures
        r@ == with_bieup_restored(stem@, cut),
{
    let mut stem = stem;
    let n = stem.len();
    let modifier = match cut {
        Cut::Modifier => true,
        _ => false,
    };
    if modifier && n >= 2 && stem[n - 1] == '우' {
        let before = stem[n - 2];
        if is_syllable_char(before) && tail_name_of(before).is_none() {
            let closed = with_bieup(before);
            stem.truncate(n - 2);
            stem.push(closed);
        }
    }
    stem
}

/// Brings `stem` into the form that the dictionary lists.
pub fn repair(stem: Vec<char>, cut: Cut) -> (r: Vec<char>)
    ensures
        r@ == repaired(stem@, cut),
{
    restore_bieup(remove_passive(remove_marker(stem, cut)), cut)
}

} // verus!
