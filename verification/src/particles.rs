//! Particles and endings: the suffixes that the stripper knows, grouped by
//! their length in syllables, and the search for the longest one that ends a
//! word.

use crate::text::{chars_of, texts};
use vstd::prelude::*;

verus! {

/// What a suffix tells about the word it was attached to.
#[derive(Clone, Copy, Debug, PartialEq, Eq, Structural)]
pub enum Role {
    /// A case marker or the copula: what is left is a noun.
    Nominal,
    /// A connective or sentence-final ending: what is left is a verb stem.
    Verbal,
    /// The dictionary ending: what is left is the stem, possibly with a tense
    /// marker, and nothing more is removed from it.
    Citation,
}

/// A suffix and its role.
pub struct Particle {
    pub text: Vec<char>,
    pub role: Role,
}

/// A suffix and its role, as plain values.
pub struct Entry {
    pub text: Seq<char>,
    pub role: Role,
}

impl View for Particle {
    type V = Entry;

    open spec fn view(&self) -> Entry {
        Entry { text: self.text@, role: self.role }
    }
}

/// The suffix tables of a stripper, and the verb stems it must not cut.
pub struct Lexicon {
    /// Suffixes of one syllable.
    pub one: Vec<Particle>,
    /// Suffixes of two syllables.
    pub two: Vec<Particle>,
    /// Suffixes of three syllables.
    pub three: Vec<Particle>,
    /// Verb stems whose last syllable looks like a particle.
    pub stems: Vec<Vec<char>>,
}

/// A lexicon as plain values.
pub struct Rules {
    pub one: Seq<Entry>,
    pub two: Seq<Entry>,
    pub three: Seq<Entry>,
    pub stems: Seq<Seq<char>>,
}

/// The entries of a table.
pub open spec fn entries(table: Seq<Particle>) -> Seq<Entry> {
    table.map_values(|p: Particle| p@)
}

impl View for Lexicon {
    type V = Rules;

    open spec fn view(&self) -> Rules {
        Rules {
            one: entries(self.one@),
            two: entries(self.two@),
            three: entries(self.three@),
            stems: texts(self.stems@),
        }
    }
}

/// The role of the first entry of `table` whose text is `suffix`.
pub open spec fn role_of(table: Seq<Entry>, suffix: Seq<char>) -> Option<Role>
    decreases table.len(),
{
    if table.len() == 0 {
        None
    } else if table[0].text == suffix {
        Some(table[0].role)
    } else {
        role_of(table.drop_first(), suffix)
    }
}

/// The last `n` characters of `word`.
pub open spec fn ending(word: Seq<char>, n: int) -> Seq<char> {
    word.skip(word.len() - n)
}

/// A suffix found at the end of a word: its length and its role.
pub struct Found {
    pub len: usize,
    pub role: Role,
}

/// The longest suffix of `word` that a table lists. The table of three
/// syllables is asked first, then that of two, then that of one; the last
/// only for a word of two characters or more, so that a word of one character
/// is never matched by it.
pub open spec fn longest_match(rules: Rules, word: Seq<char>) -> Option<Found> {
    if word.len() >= 3 && role_of(rules.three, ending(word, 3)) is Some {
        Some(Found { len: 3, role: role_of(rules.three, ending(word, 3))->0 })
    } else if word.len() >= 2 && role_of(rules.two, ending(word, 2)) is Some {
        Some(Found { len: 2, role: role_of(rules.two, ending(word, 2))->0 })
    } else if word.len() >= 2 && role_of(rules.one, ending(word, 1)) is Some {
        Some(Found { len: 1, role: role_of(rules.one, ending(word, 1))->0 })
    } else {
        None
    }
}

/// Whether `text` equals `word` from index `from` on.
pub fn same_from(word: &Vec<char>, from: usize, text: &Vec<char>) -> (r: bool)
    requires
        from <= word.len(),
    ensures
        r == (word@.skip(from as int) == text@),
{
    if word.len() - from != text.len() {
        return false;
    }
    let mut i: usize = 0;
    while i < text.len()
        invariant
            from <= word.len(),
            word.len() - from == text.len(),
            i <= text.len(),
            forall|k: int| 0 <= k < i ==> word@[from + k] == text@[k],
        decreases text.len() - i,
    {
        if word[from + i] != text[i] {
            proof {
                assert(word@.skip(from as int)[i as int] != text@[i as int]);
            }
            return false;
        }
        i = i + 1;
    }
    proof {
        assert(word@.skip(from as int) =~= text@);
    }
    true
}

/// Looks up, in `table`, the part of `word` from index `from` on.
pub fn find_role(table: &Vec<Particle>, word: &Vec<char>, from: usize) -> (r: Option<Role>)
    requires
        from <= word.len(),
    ensures
        r == role_of(entries(table@), word@.skip(from as int)),
{
    let ghost all = entries(table@);
    let ghost suffix = word@.skip(from as int);
    let mut i: usize = 0;
    proof {
        assert(all.skip(0) =~= all);
    }
    while i < table.len()
        invariant
            from <= word.len(),
            i <= table.len(),
            all == entries(table@),
            suffix == word@.skip(from as int),
            role_of(all, suffix) == role_of(all.skip(i as int), suffix),
        decreases table.len() - i,
    {
        proof {
            assert(all.skip(i as int).drop_first() =~= all.skip(i + 1));
            assert(all.skip(i as int)[0] == table@[i as int]@);
        }
        if same_from(word, from, &table[i].text) {
            return Some(table[i].role);
        }
        i = i + 1;
    }
    None
}

/// Finds the longest suffix of `word` that a table of `lexicon` lists.
pub fn find_match(lexicon: &Lexicon, word: &Vec<char>) -> (r: Option<Found>)
    ensures
        r == longest_match(lexicon@, word@),
{
    let n = word.len();
    if n >= 3 {
        if let Some(role) = find_role(&lexicon.three, word, n - 3) {
            return Some(Found { len: 3, role });
        }
    }
    if n >= 2 {
        if let Some(role) = find_role(&lexicon.two, word, n - 2) {
            return Some(Found { len: 2, role });
        }
        if let Some(role) = find_role(&lexicon.one, word, n - 1) {
            return Some(Found { len: 1, role });
        }
    }
    None
}

/// The suffixes of one syllable. The first eleven entries are the basic set
/// of particles and endings. The last three are additions to it that the
/// stripper needs: the object markers `을` and `를`, and the dictionary ending
/// `다`, by which a form that is already cited is known.
pub open spec fn standard_one() -> Seq<Entry> {
    seq![
        Entry { text: seq!['지'], role: Role::Verbal },
        Entry { text: seq!['군'], role: Role::Verbal },
        Entry { text: seq!['네'], role: Role::Verbal },
        Entry { text: seq!['는'], role: Role::Nominal },
        Entry { text: seq!['은'], role: Role::Nominal },
        Entry { text: seq!['이'], role: Role::Nominal },
        Entry { text: seq!['가'], role: Role::Nominal },
        Entry { text: seq!['에'], role: Role::Nominal },
        Entry { text: seq!['랑'], role: Role::Nominal },
        Entry { text: seq!['고'], role: Role::Verbal },
        Entry { text: seq!['자'], role: Role::Verbal },
        Entry { text: seq!['을'], role: Role::Nominal },
        Entry { text: seq!['를'], role: Role::Nominal },
        Entry { text: seq!['다'], role: Role::Citation },
    ]
}

/// The suffixes of two syllables. The first eleven entries are the basic
/// set of particles and endings. The last one, the copula form `이라`, is an
/// addition to it.
pub open spec fn standard_two() -> Seq<Entry> {
    seq![
        Entry { text: seq!['고', '는'], role: Role::Verbal },
        Entry { text: seq!['니', '다'], role: Role::Verbal },
        Entry { text: seq!['구', '나'], role: Role::Verbal },
        Entry { text: seq!['군', '요'], role: Role::Verbal },
        Entry { text: seq!['께', '서'], role: Role::Nominal },
        Entry { text: seq!['한', '테'], role: Role::Nominal },
        Entry { text: seq!['에', '게'], role: Role::Nominal },
        Entry { text: seq!['에', '서'], role: Role::Nominal },
        Entry { text: seq!['이', '랑'], role: Role::Nominal },
        Entry { text: seq!['하', '고'], role: Role::Nominal },
        Entry { text: seq!['는', '데'], role: Role::Verbal },
        Entry { text: seq!['이', '라'], role: Role::Nominal },
    ]
}

/// The suffixes of three syllables.
pub open spec fn standard_three() -> Seq<Entry> {
    seq![
        Entry { text: seq!['으', '세', '요'], role: Role::Verbal },
        Entry { text: seq!['자', '마', '자'], role: Role::Verbal },
        Entry { text: seq!['습', '니', '다'], role: Role::Verbal },
    ]
}

/// Verb stems that end in the syllable of the subject particle.
pub open spec fn standard_stems() -> Seq<Seq<char>> {
    seq![
        seq!['나', '가'],
        seq!['들', '어', '가'],
        seq!['올', '라', '가'],
        seq!['내', '려', '가'],
        seq!['돌', '아', '가'],
    ]
}

/// The tables that `Lexicon::standard` builds.
pub open spec fn standard_rules() -> Rules {
    Rules {
        one: standard_one(),
        two: standard_two(),
        three: standard_three(),
        stems: standard_stems(),
    }
}

/// A particle with the given text and role.
pub fn particle(text: Vec<char>, role: Role) -> (p: Particle)
    ensures
        p@ == (Entry { text: text@, role }),
{
    Particle { text, role }
}

impl Lexicon {
    /// The lexicon of the stripper: the particles and endings it removes and
    /// the verb stems it keeps whole.
    pub fn standard() -> (lexicon: Lexicon)
        ensures
            lexicon@ == standard_rules(),
    {
        let one = vec![
            particle(vec!['지'], Role::Verbal),
            particle(vec!['군'], Role::Verbal),
            particle(vec!['네'], Role::Verbal),
            particle(vec!['는'], Role::Nominal),
            particle(vec!['은'], Role::Nominal),
            particle(vec!['이'], Role::Nominal),
            particle(vec!['가'], Role::Nominal),
            particle(vec!['에'], Role::Nominal),
            particle(vec!['랑'], Role::Nominal),
            particle(vec!['고'], Role::Verbal),
            particle(vec!['자'], Role::Verbal),
            particle(vec!['을'], Role::Nominal),
            particle(vec!['를'], Role::Nominal),
            particle(vec!['다'], Role::Citation),
        ];
        let two = vec![
            particle(vec!['고', '는'], Role::Verbal),
            particle(vec!['니', '다'], Role::Verbal),
            particle(vec!['구', '나'], Role::Verbal),
            particle(vec!['군', '요'], Role::Verbal),
            particle(vec!['께', '서'], Role::Nominal),
            particle(vec!['한', '테'], Role::Nominal),
            particle(vec!['에', '게'], Role::Nominal),
            particle(vec!['에', '서'], Role::Nominal),
            particle(vec!['이', '랑'], Role::Nominal),
            particle(vec!['하', '고'], Role::Nominal),
            particle(vec!['는', '데'], Role::Verbal),
            particle(vec!['이', '라'], Role::Nominal),
        ];
        let three = vec![
            particle(vec!['으', '세', '요'], Role::Verbal),
            particle(vec!['자', '마', '자'], Role::Verbal),
            particle(vec!['습', '니', '다'], Role::Verbal),
        ];
        let stems = vec![
            vec!['나', '가'],
            vec!['들', '어', '가'],
            vec!['올', '라', '가'],
            vec!['내', '려', '가'],
            vec!['돌', '아', '가'],
        ];
        proof {
            assert forall|i: int| 0 <= i < one@.len() implies
                one@[i]@.text =~= standard_one()[i].text by {}
            assert(entries(one@) =~~= standard_one());
            assert forall|i: int| 0 <= i < two@.len() implies
                two@[i]@.text =~= standard_two()[i].text by {}
            assert(entries(two@) =~~= standard_two());
            assert forall|i: int| 0 <= i < three@.len() implies
                three@[i]@.text =~= standard_three()[i].text by {}
            assert(entries(three@) =~~= standard_three());
            assert(texts(stems@) =~~= standard_stems());
        }
        Lexicon { one, two, three, stems }
    }
}

/// Whether `word` ends in a particle or ending of the standard lexicon, the
/// additions to the basic set included: a dictionary form such as `하다` ends
/// in one.
pub fn check_particle_ending(word: &str) -> (r: bool)
    ensures
        r == (longest_match(standard_rules(), word@) is Some),
{
    let lexicon = Lexicon::standard();
    let chars = chars_of(word);
    find_match(&lexicon, &chars).is_some()
}

} // verus!
