//! The stripper: from a token to its lemma.
//!
//! A token is read from its end. While a table lists its ending, the longest
//! such ending is removed. What is left after a verbal ending is a verb stem;
//! anything else is read by its shape alone, so that a word is read the same
//! with a particle and without one. A verb stem is repaired and cited with
//! the dictionary ending.

use crate::particles::{
    ending, find_match, longest_match, role_of, same_from, standard_rules, Found, Lexicon, Role,
    Rules,
};
use crate::repair::{has_modifier_form, is_modifier_form, repair, repaired, Cut};
use crate::syllable::{has_tail, retail, tail_rieul};
use crate::text::{
    chars_of, hangul_core, slice_of, split_tokens, string_texts, strings_of, texts, tokens,
    trim_to_hangul,
};
use vstd::prelude::*;

verus! {

/// How a token was read, as plain values.
pub enum Outcome {
    /// Nothing is left of the token.
    Dropped,
    /// The token is a noun, or a word that no rule touches.
    Noun(Seq<char>),
    /// The token is a form of a verb with this stem.
    Verb(Seq<char>, Cut),
}

/// How a token was read.
pub enum Reading {
    /// Nothing is left of the token.
    Dropped,
    /// The token is a noun, or a word that no rule touches.
    Noun(Vec<char>),
    /// The token is a form of a verb with this stem.
    Verb(Vec<char>, Cut),
}

impl View for Reading {
    type V = Outcome;

    open spec fn view(&self) -> Outcome {
        match self {
            Reading::Dropped => Outcome::Dropped,
            Reading::Noun(word) => Outcome::Noun(word@),
            Reading::Verb(stem, cut) => Outcome::Verb(stem@, *cut),
        }
    }
}

/// Whether `word` is a verb stem that the lexicon lists. A word that ends in
/// the dictionary ending is a dictionary form and never a stem.
pub open spec fn is_listed(rules: Rules, word: Seq<char>) -> bool {
    word.len() > 0 && word.last() != '다' && rules.stems.contains(word)
}

/// How `rest` is read once nothing more can be removed from it. `last` is the
/// role of the ending removed last, `None` when nothing was removed. After a
/// verbal ending what is left is a verb stem. Else it is read by its shape
/// alone, the same whether a nominal particle was removed or nothing at all: a
/// modifier form is a verb, anything else a noun.
pub open spec fn settle(rest: Seq<char>, last: Option<Role>) -> Outcome {
    match last {
        Some(Role::Verbal) | Some(Role::Citation) => Outcome::Verb(rest, Cut::Ending),
        _ => if is_modifier_form(rest) {
            Outcome::Verb(rest, Cut::Modifier)
        } else {
            Outcome::Noun(rest)
        },
    }
}

/// How `rest` is read after an ending of role `last` was removed from it.
pub open spec fn scan(rules: Rules, rest: Seq<char>, last: Option<Role>) -> Outcome
    decreases rest.len(),
{
    if rest.len() == 0 {
        Outcome::Dropped
    } else if is_listed(rules, rest) {
        Outcome::Verb(rest, Cut::Nothing)
    } else {
        match longest_match(rules, rest) {
            Some(found) => {
                let stem = rest.take(rest.len() - found.len);
                if found.role != Role::Citation {
                    scan(rules, stem, Some(found.role))
                } else if stem.len() == 0 {
                    Outcome::Dropped
                } else {
                    Outcome::Verb(stem, Cut::Citation)
                }
            },
            None => settle(rest, last),
        }
    }
}

/// The lemmas that a reading gives: none, the noun, or the repaired stem with
/// the dictionary ending.
pub open spec fn lemmas(outcome: Outcome) -> Seq<Seq<char>> {
    match outcome {
        Outcome::Dropped => Seq::empty(),
        Outcome::Noun(word) => seq![word],
        Outcome::Verb(stem, cut) => seq![repaired(stem, cut).push('다')],
    }
}

/// The lemmas of a token.
pub open spec fn stripped(rules: Rules, token: Seq<char>) -> Seq<Seq<char>> {
    lemmas(scan(rules, token, None))
}

/// The lemmas of a sequence of tokens, in the order of the tokens.
pub open spec fn stripped_all(rules: Rules, words: Seq<Seq<char>>) -> Seq<Seq<char>>
    decreases words.len(),
{
    if words.len() == 0 {
        Seq::empty()
    } else {
        stripped_all(rules, words.drop_last()) + stripped(rules, words.last())
    }
}

/// The lemmas of a sentence: those of the tokens of its Hangul core.
pub open spec fn parsed(rules: Rules, sentence: Seq<char>) -> Seq<Seq<char>> {
    stripped_all(rules, tokens(hangul_core(sentence)))
}

/// Whether `word` is one of the verb stems that `lexicon` lists.
pub fn is_listed_stem(lexicon: &Lexicon, word: &Vec<char>) -> (r: bool)
    ensures
        r == is_listed(lexicon@, word@),
{
    if word.len() == 0 || word[word.len() - 1] == '다' {
        return false;
    }
    let mut i: usize = 0;
    while i < lexicon.stems.len()
        invariant
            i <= lexicon.stems.len(),
            word@.len() > 0,
            word@.last() != '다',
            forall|k: int| 0 <= k < i ==> lexicon@.stems[k] != word@,
        decreases lexicon.stems.len() - i,
    {
        proof {
            assert(word@.skip(0) =~= word@);
            assert(lexicon@.stems[i as int] == lexicon.stems@[i as int]@);
        }
        if same_from(word, 0, &lexicon.stems[i]) {
            return true;
        }
        i = i + 1;
    }
    false
}

/// Reads `token`: removes its endings and says what is left.
pub fn read(lexicon: &Lexicon, token: &Vec<char>) -> (r: Reading)
    ensures
        r@ == scan(lexicon@, token@, None),
{
    let mut rest = slice_of(token, 0, token.len());
    let mut last: Option<Role> = None;
    proof {
        assert(rest@ =~= token@);
    }
    loop
        invariant
            scan(lexicon@, token@, None) == scan(lexicon@, rest@, last),
        decreases rest.len(),
    {
        let n = rest.len();
        if n == 0 {
            return Reading::Dropped;
        }
        if is_listed_stem(lexicon, &rest) {
            return Reading::Verb(rest, Cut::Nothing);
        }
        match find_match(lexicon, &rest) {
            Some(found) => {
                rest.truncate(n - found.len);
                match found.role {
                    Role::Citation => {
                        if rest.len() == 0 {
                            return Reading::Dropped;
                        }
                        return Reading::Verb(rest, Cut::Citation);
                    },
                    _ => {
                        last = Some(found.role);
                    },
                }
            },
            None => {
                return match last {
                    Some(Role::Verbal) | Some(Role::Citation) => Reading::Verb(rest, Cut::Ending),
                    _ => if has_modifier_form(&rest) {
                        Reading::Verb(rest, Cut::Modifier)
                    } else {
                        Reading::Noun(rest)
                    },
                };
            },
        }
    }
}

/// The lemmas of `token` under `lexicon`: none when nothing is left of it,
/// else one.
pub fn strip_with(lexicon: &Lexicon, token: &Vec<char>) -> (found: Vec<Vec<char>>)
    ensures
        texts(found@) == stripped(lexicon@, token@),
        found@.len() <= 1,
{
    let mut found: Vec<Vec<char>> = Vec::new();
    match read(lexicon, token) {
        Reading::Dropped => {},
        Reading::Noun(word) => {
            found.push(word);
        },
        Reading::Verb(stem, cut) => {
            let mut lemma = repair(stem, cut);
            lemma.push('다');
            found.push(lemma);
        },
    }
    proof {
        assert(texts(found@) =~= stripped(lexicon@, token@));
    }
    found
}

/// The lemmas of `token` under the standard lexicon: none when nothing is
/// left of it, else one.
pub fn strip(token: &str) -> (found: Vec<String>)
    ensures
        string_texts(found@) == stripped(standard_rules(), token@),
        found@.len() <= 1,
{
    let lexicon = Lexicon::standard();
    let chars = chars_of(token);
    strings_of(&strip_with(&lexicon, &chars))
}

/// The lemmas of the tokens of `sentence`, in their order.
pub fn parse_with(lexicon: &Lexicon, sentence: &Vec<char>) -> (found: Vec<Vec<char>>)
    ensures
        texts(found@) == parsed(lexicon@, sentence@),
{
    let core = trim_to_hangul(sentence);
    let words = split_tokens(&core);
    let mut found: Vec<Vec<char>> = Vec::new();
    let mut i: usize = 0;
    proof {
        assert(texts(found@) =~= stripped_all(lexicon@, texts(words@).take(0)));
    }
    while i < words.len()
        invariant
            i <= words.len(),
            texts(found@) == stripped_all(lexicon@, texts(words@).take(i as int)),
        decreases words.len() - i,
    {
        let mut more = strip_with(lexicon, &words[i]);
        proof {
            let upto = texts(words@).take(i + 1);
            assert(upto.drop_last() =~= texts(words@).take(i as int));
            assert(upto.last() == words@[i as int]@);
            assert(texts(found@ + more@) =~= texts(found@) + texts(more@));
        }
        found.append(&mut more);
        i = i + 1;
    }
    proof {
        assert(texts(words@).take(words@.len() as int) =~= texts(words@));
    }
    found
}

/// The lemmas of `s`: the sentence is trimmed to its Hangul core and split at
/// spaces, and each token is stripped. Never fails.
pub fn parse(s: &str) -> (r: Result<Vec<String>, ()>)
    ensures
        r is Ok,
        string_texts(r->Ok_0@) == parsed(standard_rules(), s@),
{
    let lexicon = Lexicon::standard();
    let chars = chars_of(s);
    Ok(strings_of(&parse_with(&lexicon, &chars)))
}

/// Whether no rule touches `token`: it is not empty, no table lists an
/// ending of it, the lexicon does not list it as a verb stem, and it has not
/// the shape of a modifier form.
pub open spec fn is_terminal(rules: Rules, token: Seq<char>) -> bool {
    &&& token.len() > 0
    &&& longest_match(rules, token) is None
    &&& !is_listed(rules, token)
    &&& !is_modifier_form(token)
}

/// A token of one character always gives one lemma, and the lemma is never
/// empty: the token itself; or, where it is a syllable closed by `ㄹ`, the
/// opened syllable with the dictionary ending; or, where the lexicon lists
/// it as a verb stem, the token with the dictionary ending. No table is
/// asked for it.
pub proof fn lemma_single_character_kept(rules: Rules, token: Seq<char>)
    requires
        token.len() == 1,
    ensures
        stripped(rules, token).len() == 1,
        stripped(rules, token)[0].len() >= 1,
        longest_match(rules, token) is None,
        stripped(rules, token)[0] == (if is_listed(rules, token) {
            token.push('다')
        } else if has_tail(token[0], tail_rieul()) {
            seq![retail(token[0], 0), '다']
        } else {
            token
        }),
{
    if !is_listed(rules, token) && has_tail(token[0], tail_rieul()) {
        assert(token.drop_last().push(retail(token[0], 0)).push('다') =~= seq![
            retail(token[0], 0),
            '다',
        ]);
    }
}

/// Stripping leaves a terminal token as it is, so stripping its lemma again
/// changes nothing. Among the tokens that are not empty and end in nothing
/// that a table lists, the terminal ones are the only ones left as they are.
pub proof fn lemma_terminal_is_fixed(rules: Rules, token: Seq<char>)
    requires
        token.len() > 0,
        longest_match(rules, token) is None,
    ensures
        is_terminal(rules, token) <==> stripped(rules, token) == seq![token],
        is_terminal(rules, token) ==> stripped(rules, stripped(rules, token)[0]) == stripped(
            rules,
            token,
        ),
{
    if !is_terminal(rules, token) {
        let lemma = stripped(rules, token)[0];
        assert(lemma.last() == '다');
        lemma_dictionary_ending_is_open();
        assert(token.last() != '다');
        assert(lemma != token);
    }
}

/// The dictionary ending is an open syllable, and not the syllable `운`.
proof fn lemma_dictionary_ending_is_open()
    ensures
        has_tail('다', 0),
        '다' != '운',
{
}

/// A word that ends in the dictionary ending is no listed stem and has not
/// the shape of a modifier form.
proof fn lemma_dictionary_form_is_plain(rules: Rules, stem: Seq<char>)
    ensures
        !is_listed(rules, stem.push('다')),
        !is_modifier_form(stem.push('다')),
{
    lemma_dictionary_ending_is_open();
}

/// A dictionary form is left as it is. Where the longest ending of the form
/// that a table lists is the dictionary ending, and its stem carries nothing
/// to repair, stripping the form gives the form.
pub proof fn lemma_citation_form_is_fixed(rules: Rules, stem: Seq<char>)
    requires
        stem.len() > 0,
        longest_match(rules, stem.push('다')) == Some(Found { len: 1, role: Role::Citation }),
        repaired(stem, Cut::Citation) == stem,
    ensures
        stripped(rules, stem.push('다')) == seq![stem.push('다')],
{
    let form = stem.push('다');
    lemma_dictionary_form_is_plain(rules, stem);
    assert(form.take(form.len() - 1) =~= stem);
}

/// A noun that stripping arrives at is terminal: no rule touches it, so a
/// second stripping leaves it as it is.
pub proof fn lemma_noun_is_terminal(rules: Rules, token: Seq<char>, last: Option<Role>)
    ensures
        scan(rules, token, last) matches Outcome::Noun(word) ==> is_terminal(rules, word)
            && stripped(rules, word) == seq![word],
    decreases token.len(),
{
    if token.len() > 0 && !is_listed(rules, token) {
        match longest_match(rules, token) {
            Some(found) => {
                if found.role != Role::Citation {
                    lemma_noun_is_terminal(
                        rules,
                        token.take(token.len() - found.len),
                        Some(found.role),
                    );
                }
            },
            None => {},
        }
    }
}

/// Stripping is idempotent on what it puts out: a lemma that ends in nothing
/// that a table lists is left as it is by a second stripping. This holds of
/// every token and of every lexicon.
pub proof fn lemma_output_is_fixed(rules: Rules, token: Seq<char>, k: int)
    requires
        0 <= k < stripped(rules, token).len(),
        longest_match(rules, stripped(rules, token)[k]) is None,
    ensures
        stripped(rules, stripped(rules, token)[k]) == seq![stripped(rules, token)[k]],
{
    match scan(rules, token, None) {
        Outcome::Dropped => {},
        Outcome::Noun(word) => {
            lemma_noun_is_terminal(rules, token, None);
        },
        Outcome::Verb(stem, cut) => {
            lemma_dictionary_form_is_plain(rules, repaired(stem, cut));
        },
    }
}

/// The longest ending wins: where the last three characters of a token are
/// an entry of the table of three syllables, that entry is the match, whatever
/// the shorter tables list; and unless the token is a listed verb stem, it is
/// read by removing exactly those three characters.
pub proof fn lemma_longest_match_first(rules: Rules, token: Seq<char>, last: Option<Role>)
    requires
        token.len() >= 3,
        role_of(rules.three, ending(token, 3)) is Some,
    ensures
        longest_match(rules, token) == Some(
            Found { len: 3, role: role_of(rules.three, ending(token, 3))->0 },
        ),
        !is_listed(rules, token) ==> scan(rules, token, last) == ({
            let role = role_of(rules.three, ending(token, 3))->0;
            let stem = token.take(token.len() - 3);
            if role != Role::Citation {
                scan(rules, stem, Some(role))
            } else if stem.len() == 0 {
                Outcome::Dropped
            } else {
                Outcome::Verb(stem, Cut::Citation)
            }
        }),
{
}

/// A match of two syllables is used only where the table of three syllables
/// has none, and a match of one syllable only where neither longer table has
/// one.
pub proof fn lemma_shorter_match_is_last_resort(rules: Rules, token: Seq<char>)
    ensures
        longest_match(rules, token) matches Some(found) ==> {
            &&& 1 <= found.len <= 3
            &&& found.len <= token.len()
            &&& found.len == 1 ==> token.len() >= 2
            &&& found.len < 3 && token.len() >= 3 ==> role_of(rules.three, ending(token, 3)) is None
            &&& found.len < 2 ==> role_of(rules.two, ending(token, 2)) is None
        },
{
}

} // verus!
