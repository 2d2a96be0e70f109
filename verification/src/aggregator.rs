//! The frequency aggregator: for every lemma, how often it was recorded and
//! the distinct sentences it was recorded from.

use crate::text::string_texts;
use vstd::prelude::*;
use vstd::relations::injective_on;
use vstd::set_lib::{lemma_int_range, lemma_map_size, lemma_subset_equality, set_int_range};

verus! {

/// What is known of one lemma.
pub struct VocabularyEntry {
    pub lemma: String,
    /// How many times the lemma was recorded.
    pub count: u64,
    /// The distinct sentences it was recorded from, first seen first.
    pub sentences: Vec<String>,
}

/// What is known of one lemma, as plain values.
pub struct Tally {
    pub lemma: Seq<char>,
    pub count: nat,
    pub sentences: Seq<Seq<char>>,
}

impl View for VocabularyEntry {
    type V = Tally;

    open spec fn view(&self) -> Tally {
        Tally {
            lemma: self.lemma@,
            count: self.count as nat,
            sentences: string_texts(self.sentences@),
        }
    }
}

/// The tallies of a sequence of entries.
pub open spec fn tallies(entries: Seq<VocabularyEntry>) -> Seq<Tally> {
    entries.map_values(|e: VocabularyEntry| e@)
}

/// Index of the tally of `lemma`; the length of `entries` when it has none.
pub open spec fn position(entries: Seq<Tally>, lemma: Seq<char>) -> int
    decreases entries.len(),
{
    if entries.len() == 0 || entries[0].lemma == lemma {
        0
    } else {
        1 + position(entries.drop_first(), lemma)
    }
}

/// How often `lemma` was recorded.
pub open spec fn count_of(entries: Seq<Tally>, lemma: Seq<char>) -> nat {
    if 0 <= position(entries, lemma) < entries.len() {
        entries[position(entries, lemma)].count
    } else {
        0
    }
}

/// The sentences that `lemma` was recorded from, first seen first.
pub open spec fn sentences_of(entries: Seq<Tally>, lemma: Seq<char>) -> Seq<Seq<char>> {
    if 0 <= position(entries, lemma) < entries.len() {
        entries[position(entries, lemma)].sentences
    } else {
        Seq::empty()
    }
}

/// A tally after one more sighting in `sentence`: the count goes up by one,
/// and the sentence is added unless it is already there.
pub open spec fn seen(tally: Tally, sentence: Seq<char>) -> Tally {
    Tally {
        lemma: tally.lemma,
        count: tally.count + 1,
        sentences: if tally.sentences.contains(sentence) {
            tally.sentences
        } else {
            tally.sentences.push(sentence)
        },
    }
}

/// The tallies after `lemma` was recorded from `sentence`: its tally is
/// updated in place, or a new one is added at the end.
pub open spec fn recorded(entries: Seq<Tally>, lemma: Seq<char>, sentence: Seq<char>) -> Seq<
    Tally,
> {
    let at = position(entries, lemma);
    if 0 <= at < entries.len() {
        entries.update(at, seen(entries[at], sentence))
    } else {
        entries.push(Tally { lemma, count: 1, sentences: seq![sentence] })
    }
}

/// Whether the tally at `j` stands before the one at `i` in a snapshot: it
/// has the higher count, or the same count and was first seen earlier.
pub open spec fn precedes(entries: Seq<Tally>, j: int, i: int) -> bool {
    entries[j].count > entries[i].count || (entries[j].count == entries[i].count && j < i)
}

/// How many of the first `upto` tallies stand before the one at `i`.
pub open spec fn preceding(entries: Seq<Tally>, i: int, upto: int) -> int
    decreases upto,
{
    if upto <= 0 {
        0
    } else {
        preceding(entries, i, upto - 1) + if precedes(entries, upto - 1, i) {
            1int
        } else {
            0int
        }
    }
}

/// The place of the tally at `i` in a snapshot.
pub open spec fn rank(entries: Seq<Tally>, i: int) -> int {
    preceding(entries, i, entries.len() as int)
}

/// The invariant of an aggregator: no lemma has two tallies, and every tally
/// holds at least one sentence, no sentence twice, and no more sentences than
/// sightings.
pub open spec fn well_formed(entries: Seq<Tally>) -> bool {
    &&& forall|i: int, j: int|
        0 <= i < j < entries.len() ==> (#[trigger] entries[i]).lemma
            != (#[trigger] entries[j]).lemma
    &&& forall|i: int|
        0 <= i < entries.len() ==> {
            &&& 1 <= (#[trigger] entries[i]).sentences.len() <= entries[i].count
            &&& entries[i].sentences.no_duplicates()
        }
}

/// `position` is the one index that has the lemma (or the end) at it and no
/// tally of the lemma before it.
pub proof fn lemma_position(entries: Seq<Tally>, lemma: Seq<char>, at: int)
    requires
        0 <= at <= entries.len(),
        forall|k: int| 0 <= k < at ==> (#[trigger] entries[k]).lemma != lemma,
        at == entries.len() || entries[at].lemma == lemma,
    ensures
        position(entries, lemma) == at,
    decreases entries.len(),
{
    if at > 0 {
        let rest = entries.drop_first();
        assert forall|k: int| 0 <= k < at - 1 implies (#[trigger] rest[k]).lemma != lemma by {
            assert(rest[k] == entries[k + 1]);
        }
        lemma_position(rest, lemma, at - 1);
    }
}

/// `position` is an index of `entries` or its length; it has the lemma at
/// it, and no tally of the lemma stands before it.
pub proof fn lemma_position_found(entries: Seq<Tally>, lemma: Seq<char>)
    ensures
        0 <= position(entries, lemma) <= entries.len(),
        position(entries, lemma) < entries.len() ==> entries[position(entries, lemma)].lemma
            == lemma,
        forall|k: int| 0 <= k < position(entries, lemma) ==> (#[trigger] entries[k]).lemma != lemma,
    decreases entries.len(),
{
    if entries.len() > 0 && entries[0].lemma != lemma {
        let rest = entries.drop_first();
        lemma_position_found(rest, lemma);
        assert forall|k: int| 0 <= k < position(entries, lemma) implies
            (#[trigger] entries[k]).lemma != lemma by {
            if k > 0 {
                assert(rest[k - 1] == entries[k]);
            }
        }
    }
}

/// No more tallies stand before one than there are others.
pub proof fn lemma_preceding_bounds(entries: Seq<Tally>, i: int, upto: int)
    requires
        0 <= i < entries.len(),
        0 <= upto <= entries.len(),
    ensures
        0 <= preceding(entries, i, upto) <= upto,
        upto > i ==> preceding(entries, i, upto) < upto,
    decreases upto,
{
    if upto > 0 {
        lemma_preceding_bounds(entries, i, upto - 1);
    }
}

/// Whatever stands before `j` stands before everything that `j` stands
/// before, and `j` itself does too.
pub proof fn lemma_preceding_grows(entries: Seq<Tally>, j: int, i: int, upto: int)
    requires
        0 <= i < entries.len(),
        0 <= j < entries.len(),
        0 <= upto <= entries.len(),
        precedes(entries, j, i),
    ensures
        preceding(entries, j, upto) <= preceding(entries, i, upto),
        upto > j ==> preceding(entries, j, upto) < preceding(entries, i, upto),
    decreases upto,
{
    if upto > 0 {
        lemma_preceding_grows(entries, j, i, upto - 1);
    }
}

/// The order of a snapshot: every tally has a place of its own, and one
/// tally has the earlier place exactly if it has the higher count, or the same
/// count and was first seen earlier.
pub proof fn lemma_rank_order(entries: Seq<Tally>, i: int, j: int)
    requires
        0 <= i < entries.len(),
        0 <= j < entries.len(),
    ensures
        0 <= rank(entries, i) < entries.len(),
        i != j ==> rank(entries, i) != rank(entries, j),
        rank(entries, i) < rank(entries, j) <==> precedes(entries, i, j),
{
    let n = entries.len() as int;
    lemma_preceding_bounds(entries, i, n);
    if precedes(entries, i, j) {
        lemma_preceding_grows(entries, i, j, n);
    } else if i != j {
        lemma_preceding_grows(entries, j, i, n);
    }
}

/// Every place of a snapshot is the rank of some tally.
pub proof fn lemma_rank_onto(entries: Seq<Tally>, place: int)
    requires
        0 <= place < entries.len(),
    ensures
        exists|i: int| 0 <= i < entries.len() && rank(entries, i) == place,
{
    let n = entries.len() as int;
    let places = set_int_range(0, n);
    let rank_in = |i: int| rank(entries, i);
    let taken = places.map(rank_in);
    lemma_int_range(0, n);
    assert(injective_on(rank_in, places)) by {
        assert forall|i: int, j: int|
            places.contains(i) && places.contains(j) && #[trigger] rank_in(i) == #[trigger] rank_in(
                j,
            ) implies i == j by {
            lemma_rank_order(entries, i, j);
        }
    }
    lemma_map_size(places, taken, rank_in);
    assert(taken.subset_of(places)) by {
        assert forall|p: int| taken.contains(p) implies places.contains(p) by {
            let i = choose|i: int| places.contains(i) && p == rank_in(i);
            lemma_rank_order(entries, i, i);
        }
    }
    lemma_subset_equality(taken, places);
    assert(taken.contains(place));
    let i = choose|i: int| places.contains(i) && place == rank_in(i);
    assert(0 <= i < entries.len() && rank(entries, i) == place);
}

/// A sequence that holds every tally at its rank is in the order of a
/// snapshot: of two places, the earlier one holds the tally with the higher
/// count, or with the same count and the earlier first sighting.
pub proof fn lemma_snapshot_sorted(entries: Seq<Tally>, snapshot: Seq<Tally>, a: int, b: int)
    requires
        snapshot.len() == entries.len(),
        forall|i: int| 0 <= i < entries.len() ==> snapshot[rank(entries, i)] == entries[i],
        0 <= a < b < snapshot.len(),
    ensures
        snapshot[a].count >= snapshot[b].count,
        exists|i: int, j: int|
            0 <= i < entries.len() && 0 <= j < entries.len() && snapshot[a] == entries[i]
                && snapshot[b] == entries[j] && #[trigger] precedes(entries, i, j),
{
    lemma_rank_onto(entries, a);
    lemma_rank_onto(entries, b);
    let i = choose|i: int| 0 <= i < entries.len() && rank(entries, i) == a;
    let j = choose|j: int| 0 <= j < entries.len() && rank(entries, j) == b;
    lemma_rank_order(entries, i, j);
    assert(precedes(entries, i, j));
}

/// Recording a lemma leaves every tally at its index.
proof fn lemma_recorded_position(
    entries: Seq<Tally>,
    lemma: Seq<char>,
    sentence: Seq<char>,
    other: Seq<char>,
)
    ensures
        position(entries, other) < entries.len() ==> position(
            recorded(entries, lemma, sentence),
            other,
        ) == position(entries, other),
        position(entries, lemma) == entries.len() ==> position(
            recorded(entries, lemma, sentence),
            lemma,
        ) == entries.len(),
        position(entries, other) == entries.len() && other != lemma ==> position(
            recorded(entries, lemma, sentence),
            other,
        ) == recorded(entries, lemma, sentence).len(),
{
    let after = recorded(entries, lemma, sentence);
    lemma_position_found(entries, lemma);
    lemma_position_found(entries, other);
    assert forall|k: int| 0 <= k < entries.len() implies (#[trigger] after[k]).lemma
        == entries[k].lemma by {}
    if position(entries, other) < entries.len() {
        lemma_position(after, other, position(entries, other));
    } else if other != lemma {
        lemma_position(after, other, after.len() as int);
    }
    if position(entries, lemma) == entries.len() {
        lemma_position(after, lemma, entries.len() as int);
    }
}

/// What recording changes: the count of the lemma goes up by one, and the
/// sentence joins its sentences unless it is among them; every other lemma
/// keeps its count and its sentences.
pub proof fn lemma_recorded_counts(
    entries: Seq<Tally>,
    lemma: Seq<char>,
    sentence: Seq<char>,
    other: Seq<char>,
)
    ensures
        count_of(recorded(entries, lemma, sentence), lemma) == count_of(entries, lemma) + 1,
        sentences_of(recorded(entries, lemma, sentence), lemma) == (if sentences_of(
            entries,
            lemma,
        ).contains(sentence) {
            sentences_of(entries, lemma)
        } else {
            sentences_of(entries, lemma).push(sentence)
        }),
        other != lemma ==> count_of(recorded(entries, lemma, sentence), other) == count_of(
            entries,
            other,
        ),
        other != lemma ==> sentences_of(recorded(entries, lemma, sentence), other) == sentences_of(
            entries,
            other,
        ),
{
    let after = recorded(entries, lemma, sentence);
    lemma_position_found(entries, lemma);
    lemma_position_found(entries, other);
    lemma_recorded_position(entries, lemma, sentence, lemma);
    lemma_recorded_position(entries, lemma, sentence, other);
    if position(entries, lemma) == entries.len() {
        assert(sentences_of(after, lemma) =~= Seq::<Seq<char>>::empty().push(sentence));
    }
}

/// Recording one sentence twice for a lemma counts twice and keeps the
/// sentence once.
pub proof fn lemma_recorded_twice(entries: Seq<Tally>, lemma: Seq<char>, sentence: Seq<char>)
    ensures
        count_of(recorded(recorded(entries, lemma, sentence), lemma, sentence), lemma) == count_of(
            entries,
            lemma,
        ) + 2,
        sentences_of(recorded(recorded(entries, lemma, sentence), lemma, sentence), lemma)
            == sentences_of(recorded(entries, lemma, sentence), lemma),
{
    let once = recorded(entries, lemma, sentence);
    lemma_recorded_counts(entries, lemma, sentence, lemma);
    lemma_recorded_counts(once, lemma, sentence, lemma);
    let had = sentences_of(entries, lemma);
    if !had.contains(sentence) {
        assert(had.push(sentence)[had.len() as int] == sentence);
    }
}

/// Recording keeps the invariant of an aggregator.
pub proof fn lemma_recorded_well_formed(
    entries: Seq<Tally>,
    lemma: Seq<char>,
    sentence: Seq<char>,
)
    requires
        well_formed(entries),
    ensures
        well_formed(recorded(entries, lemma, sentence)),
{
    lemma_position_found(entries, lemma);
    let at = position(entries, lemma);
    let after = recorded(entries, lemma, sentence);
    if at < entries.len() {
        let old_sentences = entries[at].sentences;
        if !old_sentences.contains(sentence) {
            let new_sentences = old_sentences.push(sentence);
            assert forall|a: int, b: int|
                0 <= a < new_sentences.len() && 0 <= b < new_sentences.len() && a
                    != b implies new_sentences[a] != new_sentences[b] by {
                if a < old_sentences.len() && b < old_sentences.len() {
                    assert(old_sentences[a] != old_sentences[b]);
                } else if a < old_sentences.len() {
                    assert(old_sentences.contains(old_sentences[a]));
                } else {
                    assert(old_sentences.contains(old_sentences[b]));
                }
            }
        }
        assert forall|i: int, j: int| 0 <= i < j < after.len() implies
            (#[trigger] after[i]).lemma != (#[trigger] after[j]).lemma by {
            assert(after[i].lemma == entries[i].lemma);
            assert(after[j].lemma == entries[j].lemma);
        }
    } else {
        assert(seq![sentence].no_duplicates());
        assert forall|i: int, j: int| 0 <= i < j < after.len() implies
            (#[trigger] after[i]).lemma != (#[trigger] after[j]).lemma by {
            if j < entries.len() {
                assert(after[j] == entries[j]);
            }
            assert(after[i] == entries[i]);
        }
    }
}

/// The tallies of the lemmas, in the order in which the lemmas were first
/// seen.
pub struct Aggregator {
    entries: Vec<VocabularyEntry>,
}

impl View for Aggregator {
    type V = Seq<Tally>;

    closed spec fn view(&self) -> Seq<Tally> {
        tallies(self.entries@)
    }
}

/// Whether `items` holds `wanted`.
pub fn holds(items: &Vec<String>, wanted: &String) -> (r: bool)
    ensures
        r == string_texts(items@).contains(wanted@),
{
    let mut i: usize = 0;
    while i < items.len()
        invariant
            i <= items.len(),
            forall|k: int| 0 <= k < i ==> string_texts(items@)[k] != wanted@,
        decreases items.len() - i,
    {
        if items[i] == *wanted {
            assert(string_texts(items@)[i as int] == wanted@);
            return true;
        }
        i = i + 1;
    }
    false
}

/// A copy of `items`.
pub fn copy_strings(items: &Vec<String>) -> (r: Vec<String>)
    ensures
        string_texts(r@) == string_texts(items@),
{
    let mut r: Vec<String> = Vec::new();
    let mut i: usize = 0;
    while i < items.len()
        invariant
            i <= items.len(),
            string_texts(r@) == string_texts(items@).take(i as int),
        decreases items.len() - i,
    {
        let s = items[i].clone();
        proof {
            assert(string_texts(r@.push(s)) =~= string_texts(r@).push(s@));
            assert(string_texts(items@).take(i + 1) =~= string_texts(items@).take(i as int).push(
                items@[i as int]@,
            ));
        }
        r.push(s);
        i = i + 1;
    }
    proof {
        assert(string_texts(items@).take(items@.len() as int) =~= string_texts(items@));
    }
    r
}

impl VocabularyEntry {
    /// A copy of the entry.
    pub fn copy(&self) -> (r: VocabularyEntry)
        ensures
            r@ == self@,
    {
        VocabularyEntry {
            lemma: self.lemma.clone(),
            count: self.count,
            sentences: copy_strings(&self.sentences),
        }
    }
}

impl Aggregator {
    /// An aggregator that has recorded nothing.
    pub fn new() -> (r: Aggregator)
        ensures
            r@ == Seq::<Tally>::empty(),
            well_formed(r@),
    {
        let r = Aggregator { entries: Vec::new() };
        proof {
            assert(r@ =~= Seq::<Tally>::empty());
        }
        r
    }

    /// The number of distinct lemmas recorded.
    pub fn len(&self) -> (n: usize)
        ensures
            n == self@.len(),
    {
        self.entries.len()
    }

    /// Index of the entry of `lemma`, or the number of entries.
    fn find(&self, lemma: &String) -> (at: usize)
        ensures
            at == position(self@, lemma@),
            at <= self.entries.len(),
            self@.len() == self.entries.len(),
    {
        let mut at: usize = 0;
        while at < self.entries.len()
            invariant
                at <= self.entries.len(),
                forall|k: int| 0 <= k < at ==> (#[trigger] self@[k]).lemma != lemma@,
            decreases self.entries.len() - at,
        {
            assert(self@[at as int] == self.entries@[at as int]@);
            if self.entries[at].lemma == *lemma {
                proof {
                    lemma_position(self@, lemma@, at as int);
                }
                return at;
            }
            at = at + 1;
        }
        proof {
            lemma_position(self@, lemma@, at as int);
        }
        at
    }

    /// How often `lemma` was recorded.
    pub fn count(&self, lemma: &str) -> (n: u64)
        ensures
            n == count_of(self@, lemma@),
    {
        let lemma = lemma.to_owned();
        let at = self.find(&lemma);
        if at < self.entries.len() {
            assert(self@[at as int] == self.entries@[at as int]@);
            self.entries[at].count
        } else {
            0
        }
    }

    /// Records one sighting of `lemma` in `sentence`: the count of the lemma
    /// goes up by one, and the sentence joins its sentences unless it is
    /// already among them.
    pub fn record(&mut self, lemma: &str, sentence: &str)
        requires
            count_of(old(self)@, lemma@) < u64::MAX,
        ensures
            final(self)@ == recorded(old(self)@, lemma@, sentence@),
            well_formed(old(self)@) ==> well_formed(final(self)@),
    {
        let lemma = lemma.to_owned();
        let sentence = sentence.to_owned();
        let at = self.find(&lemma);
        proof {
            if well_formed(self@) {
                lemma_recorded_well_formed(self@, lemma@, sentence@);
            }
        }
        if at < self.entries.len() {
            let ghost before = self.entries@;
            let mut entry = self.entries.remove(at);
            assert(entry == before[at as int]);
            assert(tallies(before)[at as int] == entry@);
            let ghost was = entry@;
            entry.count = entry.count + 1;
            if !holds(&entry.sentences, &sentence) {
                proof {
                    assert(string_texts(entry.sentences@.push(sentence)) =~= string_texts(
                        entry.sentences@,
                    ).push(sentence@));
                }
                entry.sentences.push(sentence);
            }
            assert(entry@ == seen(was, sentence@));
            self.entries.insert(at, entry);
            proof {
                assert(self.entries@ =~= before.update(at as int, entry));
                assert(tallies(self.entries@) =~= tallies(before).update(at as int, entry@));
            }
        } else {
            let ghost before = self.entries@;
            let mut sentences: Vec<String> = Vec::new();
            sentences.push(sentence);
            let entry = VocabularyEntry { lemma, count: 1, sentences };
            proof {
                assert(string_texts(entry.sentences@) =~= seq![sentence@]);
                assert(tallies(before.push(entry)) =~= tallies(before).push(entry@));
            }
            self.entries.push(entry);
        }
    }

    /// The place in a snapshot of the entry at `i`.
    fn rank_of(&self, i: usize) -> (r: usize)
        requires
            i < self.entries.len(),
        ensures
            r == rank(self@, i as int),
            r < self.entries.len(),
    {
        let n = self.entries.len();
        let mut r: usize = 0;
        let mut j: usize = 0;
        while j < n
            invariant
                j <= n == self.entries.len(),
                i < n,
                self@.len() == n,
                r == preceding(self@, i as int, j as int),
                r <= j,
            decreases n - j,
        {
            assert(self@[j as int] == self.entries@[j as int]@);
            assert(self@[i as int] == self.entries@[i as int]@);
            let theirs = self.entries[j].count;
            let ours = self.entries[i].count;
            if theirs > ours || (theirs == ours && j < i) {
                r = r + 1;
            }
            j = j + 1;
        }
        proof {
            lemma_rank_order(self@, i as int, i as int);
        }
        r
    }

    /// The entries, most recorded first; among entries recorded equally often,
    /// first seen first. Entry `i` stands at place `rank(self@, i)`.
    pub fn snapshot(&self) -> (r: Vec<VocabularyEntry>)
        ensures
            r@.len() == self@.len(),
            forall|i: int| 0 <= i < self@.len() ==> tallies(r@)[rank(self@, i)] == self@[i],
            forall|a: int, b: int|
                0 <= a < b < r@.len() ==> (#[trigger] tallies(r@)[a]).count >= (#[trigger] tallies(
                    r@,
                )[b]).count,
    {
        let n = self.entries.len();
        let mut order: Vec<usize> = Vec::new();
        let mut k: usize = 0;
        while k < n
            invariant
                k <= n,
                order@.len() == k,
                forall|p: int| 0 <= p < k ==> order@[p] == 0,
            decreases n - k,
        {
            order.push(0);
            k = k + 1;
        }
        let mut i: usize = 0;
        while i < n
            invariant
                i <= n == self.entries.len(),
                self@.len() == n,
                order@.len() == n,
                forall|p: int| 0 <= p < n ==> order@[p] < n,
                forall|q: int| 0 <= q < i ==> order@[rank(self@, q)] == q,
            decreases n - i,
        {
            let at = self.rank_of(i);
            let ghost placed = order@;
            order.set(at, i);
            proof {
                assert forall|q: int| 0 <= q < i + 1 implies order@[rank(self@, q)] == q by {
                    lemma_rank_order(self@, q, i as int);
                    if q < i {
                        assert(order@[rank(self@, q)] == placed[rank(self@, q)]);
                    }
                }
            }
            i = i + 1;
        }
        let mut r: Vec<VocabularyEntry> = Vec::new();
        let mut p: usize = 0;
        while p < n
            invariant
                p <= n == self.entries.len(),
                self@.len() == n,
                order@.len() == n,
                r@.len() == p,
                forall|q: int| 0 <= q < n ==> order@[q] < n,
                forall|q: int| 0 <= q < p ==> tallies(r@)[q] == self@[order@[q] as int],
            decreases n - p,
        {
            let entry = self.entries[order[p]].copy();
            proof {
                assert(self@[order@[p as int] as int] == self.entries@[order@[p as int] as int]@);
                assert(tallies(r@.push(entry)) =~= tallies(r@).push(entry@));
            }
            r.push(entry);
            p = p + 1;
        }
        proof {
            assert forall|q: int| 0 <= q < self@.len() implies tallies(r@)[rank(self@, q)]
                == self@[q] by {
                lemma_rank_order(self@, q, q);
            }
            assert forall|a: int, b: int| 0 <= a < b < r@.len() implies (#[trigger] tallies(
                r@,
            )[a]).count >= (#[trigger] tallies(r@)[b]).count by {
                lemma_snapshot_sorted(self@, tallies(r@), a, b);
            }
        }
        r
    }
}

} // verus!
