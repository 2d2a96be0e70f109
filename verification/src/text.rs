//! Text as sequences of characters: conversion from and to strings, trimming
//! a sentence to its Hangul core, and splitting it into tokens.

use crate::syllable::{is_block, is_syllable_char};
use vstd::prelude::*;

verus! {

/// `String::push` appends one character to the end of the string.
pub assume_specification[ String::push ](s: &mut String, c: char)
    ensures
        final(s)@ == old(s)@.push(c),
;

/// The views of a sequence of character vectors.
pub open spec fn texts(items: Seq<Vec<char>>) -> Seq<Seq<char>> {
    items.map_values(|item: Vec<char>| item@)
}

/// The views of a sequence of strings.
pub open spec fn string_texts(items: Seq<String>) -> Seq<Seq<char>> {
    items.map_values(|item: String| item@)
}

/// The characters of `s`.
pub fn chars_of(s: &str) -> (v: Vec<char>)
    ensures
        v@ == s@,
{
    let mut v: Vec<char> = Vec::new();
    for c in it: s.chars()
        invariant
            it.seq() == s@,
            v@ == s@.take(it.index() as int),
    {
        v.push(c);
        proof {
            assert(v@ =~= s@.take(it.index() + 1));
        }
    }
    proof {
        assert(s@.take(s@.len() as int) =~= s@);
    }
    v
}

/// The string made of the characters of `v`.
pub fn string_of(v: &Vec<char>) -> (s: String)
    ensures
        s@ == v@,
{
    let mut s = String::new();
    let mut i: usize = 0;
    while i < v.len()
        invariant
            i <= v.len(),
            s@ == v@.take(i as int),
        decreases v.len() - i,
    {
        s.push(v[i]);
        i = i + 1;
        proof {
            assert(s@ =~= v@.take(i as int));
        }
    }
    proof {
        assert(v@.take(v@.len() as int) =~= v@);
    }
    s
}

/// Index of the first syllable block of `s`; `s.len()` when it has none.
pub open spec fn core_start(s: Seq<char>) -> int
    decreases s.len(),
{
    if s.len() == 0 || is_block(s[0]) {
        0
    } else {
        1 + core_start(s.drop_first())
    }
}

/// One past the index of the last syllable block of `s`; `0` when it has none.
pub open spec fn core_end(s: Seq<char>) -> int
    decreases s.len(),
{
    if s.len() == 0 || is_block(s.last()) {
        s.len() as int
    } else {
        core_end(s.drop_last())
    }
}

/// `s` without the characters before its first and after its last syllable
/// block; empty when `s` holds no syllable block.
pub open spec fn hangul_core(s: Seq<char>) -> Seq<char> {
    if core_start(s) <= core_end(s) {
        s.subrange(core_start(s), core_end(s))
    } else {
        Seq::empty()
    }
}

/// `core_start` is the one index that has a syllable block (or the end) at
/// it and none before it.
pub proof fn lemma_core_start(s: Seq<char>, a: int)
    requires
        0 <= a <= s.len(),
        forall|i: int| 0 <= i < a ==> !is_block(#[trigger] s[i]),
        a == s.len() || is_block(s[a]),
    ensures
        core_start(s) == a,
    decreases s.len(),
{
    if a > 0 {
        let rest = s.drop_first();
        assert forall|i: int| 0 <= i < a - 1 implies !is_block(#[trigger] rest[i]) by {
            assert(rest[i] == s[i + 1]);
        }
        lemma_core_start(rest, a - 1);
    }
}

/// `core_end` is the one index that has a syllable block (or the start)
/// right before it and none from it on.
pub proof fn lemma_core_end(s: Seq<char>, b: int)
    requires
        0 <= b <= s.len(),
        forall|i: int| b <= i < s.len() ==> !is_block(#[trigger] s[i]),
        b == 0 || is_block(s[b - 1]),
    ensures
        core_end(s) == b,
    decreases s.len(),
{
    if b < s.len() {
        let rest = s.drop_last();
        assert forall|i: int| b <= i < rest.len() implies !is_block(#[trigger] rest[i]) by {
            assert(rest[i] == s[i]);
        }
        lemma_core_end(rest, b);
    }
}

/// The part of `text` between `from` and `to`.
pub fn slice_of(text: &Vec<char>, from: usize, to: usize) -> (part: Vec<char>)
    requires
        from <= to <= text.len(),
    ensures
        part@ == text@.subrange(from as int, to as int),
{
    let mut part: Vec<char> = Vec::new();
    let mut i: usize = from;
    while i < to
        invariant
            from <= i <= to <= text.len(),
            part@ == text@.subrange(from as int, i as int),
        decreases to - i,
    {
        part.push(text[i]);
        i = i + 1;
        proof {
            assert(part@ =~= text@.subrange(from as int, i as int));
        }
    }
    part
}

/// Drops everything before the first and after the last Hangul syllable.
pub fn trim_to_hangul(text: &Vec<char>) -> (core: Vec<char>)
    ensures
        core@ == hangul_core(text@),
{
    let n = text.len();
    let mut a: usize = 0;
    while a < n && !is_syllable_char(text[a])
        invariant
            a <= n == text.len(),
            forall|i: int| 0 <= i < a ==> !is_block(#[trigger] text@[i]),
        decreases n - a,
    {
        a = a + 1;
    }
    let mut b: usize = n;
    while b > a && !is_syllable_char(text[b - 1])
        invariant
            a <= b <= n == text.len(),
            forall|i: int| b <= i < n ==> !is_block(#[trigger] text@[i]),
        decreases b,
    {
        b = b - 1;
    }
    proof {
        lemma_core_start(text@, a as int);
        if a < n {
            assert(is_block(text@[a as int]));
            lemma_core_end(text@, b as int);
        } else {
            lemma_core_end(text@, 0);
            assert(text@.subrange(a as int, b as int) =~= hangul_core(text@));
        }
    }
    slice_of(text, a, b)
}

/// Length of the run of characters other than the space at the start of `s`.
pub open spec fn run_len(s: Seq<char>) -> int
    decreases s.len(),
{
    if s.len() == 0 || s[0] == ' ' {
        0
    } else {
        1 + run_len(s.drop_first())
    }
}

/// A run is no longer than the text, and not empty unless the text is empty or
/// starts with a space.
pub proof fn lemma_run_len_bounds(s: Seq<char>)
    ensures
        0 <= run_len(s) <= s.len(),
        s.len() > 0 && s[0] != ' ' ==> run_len(s) >= 1,
    decreases s.len(),
{
    if s.len() > 0 && s[0] != ' ' {
        lemma_run_len_bounds(s.drop_first());
    }
}

/// The tokens of `s`: its maximal runs of characters other than the space,
/// from left to right.
pub open spec fn tokens(s: Seq<char>) -> Seq<Seq<char>>
    decreases s.len(),
{
    if s.len() == 0 {
        Seq::empty()
    } else if s[0] == ' ' {
        tokens(s.drop_first())
    } else {
        proof {
            lemma_run_len_bounds(s);
        }
        seq![s.take(run_len(s))] + tokens(s.skip(run_len(s)))
    }
}

/// `run_len` is the one index that has a space (or the end) at it and none
/// before it.
pub proof fn lemma_run_len(s: Seq<char>, n: int)
    requires
        0 <= n <= s.len(),
        forall|i: int| 0 <= i < n ==> #[trigger] s[i] != ' ',
        n == s.len() || s[n] == ' ',
    ensures
        run_len(s) == n,
    decreases s.len(),
{
    if n > 0 {
        let rest = s.drop_first();
        assert forall|i: int| 0 <= i < n - 1 implies #[trigger] rest[i] != ' ' by {
            assert(rest[i] == s[i + 1]);
        }
        lemma_run_len(rest, n - 1);
    }
}

/// Splits `text` at spaces and drops the empty pieces.
pub fn split_tokens(text: &Vec<char>) -> (found: Vec<Vec<char>>)
    ensures
        texts(found@) == tokens(text@),
{
    let n = text.len();
    let mut found: Vec<Vec<char>> = Vec::new();
    let mut i: usize = 0;
    proof {
        assert(text@.skip(0) =~= text@);
        assert(texts(found@) =~= Seq::<Seq<char>>::empty());
    }
    while i < n
        invariant
            i <= n == text.len(),
            tokens(text@) == texts(found@) + tokens(text@.skip(i as int)),
        decreases n - i,
    {
        let ghost rest = text@.skip(i as int);
        if text[i] == ' ' {
            proof {
                assert(rest.drop_first() =~= text@.skip(i + 1));
            }
            i = i + 1;
        } else {
            let mut j: usize = i + 1;
            while j < n && text[j] != ' '
                invariant
                    i < j <= n == text.len(),
                    forall|k: int| i <= k < j ==> #[trigger] text@[k] != ' ',
                decreases n - j,
            {
                j = j + 1;
            }
            let token = slice_of(text, i, j);
            proof {
                assert forall|k: int| 0 <= k < j - i implies #[trigger] rest[k] != ' ' by {
                    assert(rest[k] == text@[i + k]);
                }
                lemma_run_len(rest, j - i);
                assert(rest.take(j - i) =~= text@.subrange(i as int, j as int));
                assert(rest.skip(j - i) =~= text@.skip(j as int));
                assert(texts(found@.push(token)) =~= texts(found@) + seq![token@]);
            }
            found.push(token);
            i = j;
        }
    }
    proof {
        assert(text@.skip(n as int) =~= Seq::<char>::empty());
    }
    found
}

/// The strings of `items`.
pub fn strings_of(items: &Vec<Vec<char>>) -> (r: Vec<String>)
    ensures
        string_texts(r@) == texts(items@),
        r@.len() == items@.len(),
{
    let mut r: Vec<String> = Vec::new();
    let mut i: usize = 0;
    while i < items.len()
        invariant
            i <= items.len(),
            r@.len() == i,
            string_texts(r@) == texts(items@.take(i as int)),
        decreases items.len() - i,
    {
        let s = string_of(&items[i]);
        proof {
            assert(string_texts(r@.push(s)) =~= string_texts(r@).push(s@));
            assert(texts(items@.take(i + 1)) =~= texts(items@.take(i as int)).push(
                items@[i as int]@,
            ));
        }
        r.push(s);
        i = i + 1;
    }
    proof {
        assert(items@.take(items@.len() as int) =~= items@);
    }
    r
}

/// `sentence` without everything before its first and after its last Hangul
/// syllable.
pub fn trim_non_hangul(sentence: &str) -> (core: String)
    ensures
        core@ == hangul_core(sentence@),
{
    string_of(&trim_to_hangul(&chars_of(sentence)))
}

/// The tokens of `sentence`: it is split at every space, and the empty pieces
/// are dropped.
pub fn tokenize(sentence: &str) -> (found: Vec<String>)
    ensures
        string_texts(found@) == tokens(sentence@),
{
    strings_of(&split_tokens(&chars_of(sentence)))
}

/// The core of a text is a piece of it that holds all its syllable blocks: it
/// starts and ends with one, unless it is empty.
pub proof fn lemma_core_is_tight(s: Seq<char>)
    ensures
        0 <= core_start(s) <= s.len(),
        0 <= core_end(s) <= s.len(),
        forall|i: int| 0 <= i < core_start(s) ==> !is_block(#[trigger] s[i]),
        forall|i: int| core_end(s) <= i < s.len() ==> !is_block(#[trigger] s[i]),
        hangul_core(s).len() > 0 ==> is_block(hangul_core(s).first()) && is_block(
            hangul_core(s).last(),
        ),
    decreases s.len(),
{
    if s.len() > 0 {
        if !is_block(s[0]) {
            let rest = s.drop_first();
            lemma_core_is_tight(rest);
            assert forall|i: int| 0 <= i < core_start(s) implies !is_block(#[trigger] s[i]) by {
                if i > 0 {
                    assert(rest[i - 1] == s[i]);
                }
            }
        }
        if !is_block(s.last()) {
            let rest = s.drop_last();
            lemma_core_is_tight(rest);
            assert forall|i: int| core_end(s) <= i < s.len() implies !is_block(#[trigger] s[i]) by {
                if i < s.len() - 1 {
                    assert(rest[i] == s[i]);
                }
            }
        }
        lemma_core_edges(s);
    }
}

/// A syllable block stands at `core_start` unless the text has none, and
/// right before `core_end` unless the text has none.
proof fn lemma_core_edges(s: Seq<char>)
    ensures
        0 <= core_start(s) <= s.len(),
        0 <= core_end(s) <= s.len(),
        core_start(s) < s.len() ==> is_block(s[core_start(s)]),
        core_end(s) > 0 ==> is_block(s[core_end(s) - 1]),
        core_start(s) < s.len() ==> core_start(s) < core_end(s),
    decreases s.len(),
{
    if s.len() > 0 {
        if !is_block(s[0]) {
            let rest = s.drop_first();
            lemma_core_edges(rest);
            if core_start(rest) < rest.len() {
                assert(rest[core_start(rest)] == s[core_start(s)]);
            }
        }
        if !is_block(s.last()) {
            let rest = s.drop_last();
            lemma_core_edges(rest);
            if core_end(rest) > 0 {
                assert(rest[core_end(rest) - 1] == s[core_end(s) - 1]);
            }
        }
        if core_start(s) < s.len() {
            lemma_core_end_after(s, core_start(s));
        }
    }
}

/// `core_end` lies behind every syllable block.
proof fn lemma_core_end_after(s: Seq<char>, at: int)
    requires
        0 <= at < s.len(),
        is_block(s[at]),
    ensures
        at < core_end(s),
    decreases s.len(),
{
    if !is_block(s.last()) {
        let rest = s.drop_last();
        assert(rest[at] == s[at]);
        lemma_core_end_after(rest, at);
    }
}

/// No token is empty, and no token holds a space.
pub proof fn lemma_tokens_are_words(s: Seq<char>)
    ensures
        forall|k: int|
            0 <= k < tokens(s).len() ==> (#[trigger] tokens(s)[k]).len() > 0 && !tokens(
                s,
            )[k].contains(' '),
    decreases s.len(),
{
    if s.len() > 0 {
        if s[0] == ' ' {
            lemma_tokens_are_words(s.drop_first());
            assert(tokens(s) == tokens(s.drop_first()));
        } else {
            lemma_run_len_bounds(s);
            lemma_run_has_no_space(s);
            let rest = tokens(s.skip(run_len(s)));
            lemma_tokens_are_words(s.skip(run_len(s)));
            assert forall|k: int| 0 <= k < tokens(s).len() implies (#[trigger] tokens(s)[k]).len()
                > 0 && !tokens(s)[k].contains(' ') by {
                if k > 0 {
                    assert(tokens(s)[k] == rest[k - 1]);
                }
            }
        }
    }
}

/// No space stands within the first run of a text.
proof fn lemma_run_has_no_space(s: Seq<char>)
    ensures
        !s.take(run_len(s)).contains(' '),
    decreases s.len(),
{
    lemma_run_len_bounds(s);
    if s.len() > 0 && s[0] != ' ' {
        let rest = s.drop_first();
        lemma_run_has_no_space(rest);
        lemma_run_len_bounds(rest);
        let run = s.take(run_len(s));
        assert forall|i: int| 0 <= i < run.len() implies run[i] != ' ' by {
            if i > 0 {
                assert(run[i] == rest.take(run_len(rest))[i - 1]);
                assert(rest.take(run_len(rest)).contains(rest.take(run_len(rest))[i - 1]));
            }
        }
    }
}

} // verus!
