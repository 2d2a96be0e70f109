//! Composed Hangul syllables and their three slots.
//!
//! A syllable block is the code point `0xAC00 + (lead * 21 + vowel) * 28 + tail`
//! with `lead < 19`, `vowel < 21` and `tail < 28`; tail `0` means that the
//! syllable is open. The `hangeul` crate takes blocks apart and puts them
//! together again; its functions name each slot by a compatibility jamo.

use hangeul::errors::HangeulError;
use vstd::prelude::*;

verus! {

/// Tail slot named `ㄴ`.
pub open spec fn tail_nieun() -> int {
    4
}

/// Tail slot named `ㄹ`.
pub open spec fn tail_rieul() -> int {
    8
}

/// Tail slot named `ㅂ`.
pub open spec fn tail_bieup() -> int {
    17
}

/// Tail slot named `ㅆ`.
pub open spec fn tail_ssang_siot() -> int {
    20
}

/// Whether `c` is a composed Hangul syllable block.
pub open spec fn is_block(c: char) -> bool {
    0xAC00 <= c as u32 <= 0xD7A3
}

/// Position of a syllable block within the block range.
pub open spec fn block_index(c: char) -> int {
    c as u32 - 0xAC00
}

/// Lead consonant slot of a syllable, `0..19`.
pub open spec fn lead_of(c: char) -> int {
    block_index(c) / 588
}

/// Vowel slot of a syllable, `0..21`.
pub open spec fn vowel_of(c: char) -> int {
    (block_index(c) % 588) / 28
}

/// Tail consonant slot of a syllable, `0..28`; `0` for an open syllable.
pub open spec fn tail_of(c: char) -> int {
    block_index(c) % 28
}

/// The syllable block with the given slots.
pub open spec fn block(lead: int, vowel: int, tail: int) -> char {
    (0xAC00 + lead * 588 + vowel * 28 + tail) as char
}

/// Whether `c` is a syllable whose tail slot is `tail`.
pub open spec fn has_tail(c: char, tail: int) -> bool {
    is_block(c) && tail_of(c) == tail
}

/// `c` with its tail slot set to `tail`; any other character is left alone.
pub open spec fn retail(c: char, tail: int) -> char {
    if is_block(c) {
        block(lead_of(c), vowel_of(c), tail)
    } else {
        c
    }
}

/// Compatibility jamo that names lead slot `lead`.
pub open spec fn lead_jamo(lead: int) -> char {
    if lead == 0 {
        'ㄱ'
    } else if lead == 1 {
        'ㄲ'
    } else if lead == 2 {
        'ㄴ'
    } else if lead == 3 {
        'ㄷ'
    } else if lead == 4 {
        'ㄸ'
    } else if lead == 5 {
        'ㄹ'
    } else if lead == 6 {
        'ㅁ'
    } else if lead == 7 {
        'ㅂ'
    } else if lead == 8 {
        'ㅃ'
    } else if lead == 9 {
        'ㅅ'
    } else if lead == 10 {
        'ㅆ'
    } else if lead == 11 {
        'ㅇ'
    } else if lead == 12 {
        'ㅈ'
    } else if lead == 13 {
        'ㅉ'
    } else if lead == 14 {
        'ㅊ'
    } else if lead == 15 {
        'ㅋ'
    } else if lead == 16 {
        'ㅌ'
    } else if lead == 17 {
        'ㅍ'
    } else {
        'ㅎ'
    }
}

/// Compatibility jamo that names vowel slot `vowel`: `ㅏ` to `ㅣ` in code
/// point order.
pub open spec fn vowel_jamo(vowel: int) -> char {
    (0x314F + vowel) as char
}

/// Compatibility jamo that names tail slot `tail`, for `1 <= tail < 28`.
pub open spec fn tail_jamo(tail: int) -> char {
    if tail == 1 {
        'ㄱ'
    } else if tail == 2 {
        'ㄲ'
    } else if tail == 3 {
        'ㄳ'
    } else if tail == 4 {
        'ㄴ'
    } else if tail == 5 {
        'ㄵ'
    } else if tail == 6 {
        'ㄶ'
    } else if tail == 7 {
        'ㄷ'
    } else if tail == 8 {
        'ㄹ'
    } else if tail == 9 {
        'ㄺ'
    } else if tail == 10 {
        'ㄻ'
    } else if tail == 11 {
        'ㄼ'
    } else if tail == 12 {
        'ㄽ'
    } else if tail == 13 {
        'ㄾ'
    } else if tail == 14 {
        'ㄿ'
    } else if tail == 15 {
        'ㅀ'
    } else if tail == 16 {
        'ㅁ'
    } else if tail == 17 {
        'ㅂ'
    } else if tail == 18 {
        'ㅄ'
    } else if tail == 19 {
        'ㅅ'
    } else if tail == 20 {
        'ㅆ'
    } else if tail == 21 {
        'ㅇ'
    } else if tail == 22 {
        'ㅈ'
    } else if tail == 23 {
        'ㅊ'
    } else if tail == 24 {
        'ㅋ'
    } else if tail == 25 {
        'ㅌ'
    } else if tail == 26 {
        'ㅍ'
    } else {
        'ㅎ'
    }
}

/// The name of tail slot `tail`, or `None` for the empty slot.
pub open spec fn tail_name(tail: int) -> Option<char> {
    if tail == 0 {
        None
    } else {
        Some(tail_jamo(tail))
    }
}

/// The tail name behind an optional reference.
pub open spec fn given_tail(jongseong: Option<&char>) -> Option<char> {
    match jongseong {
        Some(j) => Some(*j),
        None => None,
    }
}

/// Error type of the `hangeul` crate; carried through, never inspected.
#[verifier::external_type_specification]
#[verifier::external_body]
pub struct ExHangeulError(HangeulError);

/// `hangeul::is_syllable` answers `true` exactly for the code points of the
/// syllable block range `0xAC00..=0xD7A3`.
pub assume_specification[ hangeul::is_syllable ](code: u32) -> (r: bool)
    ensures
        r == (0xAC00 <= code <= 0xD7A3),
;

/// `hangeul::decompose_char` succeeds exactly on syllable blocks and then
/// names the three slots: lead and vowel by their jamo, the tail by its jamo
/// or `None` when the syllable is open.
pub assume_specification[ hangeul::decompose_char ](c: &char) -> (r: Result<
    (char, char, Option<char>),
    HangeulError,
>)
    ensures
        r is Ok <==> is_block(*c),
        r matches Ok(parts) ==> parts == (
            lead_jamo(lead_of(*c)),
            vowel_jamo(vowel_of(*c)),
            tail_name(tail_of(*c)),
        ),
;

/// `hangeul::compose_char`, given the jamo of a lead slot, of a vowel slot and
/// of a tail slot (or `None`), returns the syllable block with those slots.
pub assume_specification[ hangeul::compose_char ](
    choseong: &char,
    jungseong: &char,
    jongseong: Option<&char>,
) -> (r: Result<char, HangeulError>)
    ensures
        (forall|lead: int, vowel: int, tail: int|
            0 <= lead < 19 && 0 <= vowel < 21 && 0 <= tail < 28 && *choseong == lead_jamo(lead)
                && *jungseong == vowel_jamo(vowel) && given_tail(jongseong) == tail_name(tail)
                ==> r == Ok::<char, HangeulError>(#[trigger] block(lead, vowel, tail))),
;

/// The slots of a syllable are in range and determine it.
pub proof fn lemma_slots(c: char)
    requires
        is_block(c),
    ensures
        0 <= lead_of(c) < 19,
        0 <= vowel_of(c) < 21,
        0 <= tail_of(c) < 28,
        block(lead_of(c), vowel_of(c), tail_of(c)) == c,
{
}

/// Setting the tail slot of a syllable gives a syllable with that tail and
/// the same lead and vowel.
pub proof fn lemma_retail(c: char, tail: int)
    requires
        is_block(c),
        0 <= tail < 28,
    ensures
        is_block(retail(c, tail)),
        lead_of(retail(c, tail)) == lead_of(c),
        vowel_of(retail(c, tail)) == vowel_of(c),
        tail_of(retail(c, tail)) == tail,
        retail(c, tail_of(c)) == c,
{
}

/// No two tail slots share a name.
pub proof fn lemma_tail_names_differ(a: int, b: int)
    requires
        0 <= a < 28,
        0 <= b < 28,
        tail_name(a) == tail_name(b),
    ensures
        a == b,
{
}

/// Whether `code_point` is that of a composed Hangul syllable block.
pub fn is_hangul_syllable(code_point: u32) -> (r: bool)
    ensures
        r == (0xAC00 <= code_point <= 0xD7A3),
{
    hangeul::is_syllable(code_point)
}

/// Whether `c` is a composed Hangul syllable block.
pub fn is_syllable_char(c: char) -> (r: bool)
    ensures
        r == is_block(c),
{
    is_hangul_syllable(c as u32)
}

/// The name of the tail slot of `c`; `None` when `c` is an open syllable or
/// no syllable at all.
pub fn tail_name_of(c: char) -> (r: Option<char>)
    ensures
        r == (if is_block(c) {
            tail_name(tail_of(c))
        } else {
            None
        }),
{
    match hangeul::decompose_char(&c) {
        Ok(parts) => parts.2,
        Err(_) => None,
    }
}

/// A syllable has a tail slot exactly if it has the name of that slot.
pub proof fn lemma_named_tail(c: char, slot: int)
    requires
        1 <= slot < 28,
    ensures
        has_tail(c, slot) <==> is_block(c) && tail_name(tail_of(c)) == Some(tail_jamo(slot)),
{
    if is_block(c) && tail_name(tail_of(c)) == tail_name(slot) {
        lemma_slots(c);
        lemma_tail_names_differ(tail_of(c), slot);
    }
}

/// Whether `c` is a syllable whose tail slot is the one named `name`.
pub fn has_tail_named(c: char, name: char) -> (r: bool)
    ensures
        r == (is_block(c) && tail_name(tail_of(c)) == Some(name)),
{
    match tail_name_of(c) {
        Some(found) => found == name,
        None => false,
    }
}

/// `c` with the tail slot named by `tail`, `None` naming the empty slot; a
/// character that is no syllable is handed back as it is.
fn with_tail(c: char, tail: Option<char>, Ghost(slot): Ghost<int>) -> (r: char)
    requires
        0 <= slot < 28,
        tail == tail_name(slot),
    ensures
        r == retail(c, slot),
{
    match hangeul::decompose_char(&c) {
        Ok(parts) => {
            let made = hangeul::compose_char(&parts.0, &parts.1, tail.as_ref());
            proof {
                lemma_slots(c);
                assert(made == Ok::<char, HangeulError>(block(lead_of(c), vowel_of(c), slot)));
            }
            match made {
                Ok(syllable) => syllable,
                Err(_) => c,
            }
        },
        Err(_) => c,
    }
}

/// `c` without its tail consonant.
pub fn without_tail(c: char) -> (r: char)
    ensures
        r == retail(c, 0),
{
    with_tail(c, None, Ghost(0))
}

/// `c` closed with the tail consonant `ㅂ`.
pub fn with_bieup(c: char) -> (r: char)
    ensures
        r == retail(c, tail_bieup()),
{
    with_tail(c, Some('ㅂ'), Ghost(17))
}

} // verus!
