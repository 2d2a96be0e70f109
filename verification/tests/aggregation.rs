use hangul_vocab::aggregator::Aggregator;
use hangul_vocab::stripper::parse;

#[test]
fn two_sentences_make_two_entries_of_one_lemma() {
    let mut tally = Aggregator::new();
    tally.record("것", "무서운 것");
    tally.record("것", "살 것이고");
    let snap = tally.snapshot();
    assert_eq!(snap.len(), 1);
    assert_eq!(snap[0].lemma, "것");
    assert_eq!(snap[0].count, 2);
    assert_eq!(snap[0].sentences, vec!["무서운 것", "살 것이고"]);
}

#[test]
fn one_sentence_twice_counts_twice_and_is_kept_once() {
    let mut tally = Aggregator::new();
    tally.record("것", "무서운 것");
    tally.record("것", "무서운 것");
    let snap = tally.snapshot();
    assert_eq!(snap.len(), 1);
    assert_eq!(snap[0].count, 2);
    assert_eq!(snap[0].sentences, vec!["무서운 것"]);
    assert_eq!(tally.count("것"), 2);
}

#[test]
fn a_new_aggregator_is_empty() {
    let tally = Aggregator::new();
    assert_eq!(tally.len(), 0);
    assert_eq!(tally.count("것"), 0);
    assert!(tally.snapshot().is_empty());
}

#[test]
fn snapshot_orders_by_count_then_by_first_sighting() {
    let mut tally = Aggregator::new();
    tally.record("거리", "s1");
    tally.record("사람", "s1");
    tally.record("것", "s1");
    tally.record("영혼", "s2");
    tally.record("것", "s2");
    tally.record("사람", "s3");
    tally.record("것", "s3");
    let snap = tally.snapshot();
    let lemmas: Vec<&str> = snap.iter().map(|e| e.lemma.as_str()).collect();
    let counts: Vec<u64> = snap.iter().map(|e| e.count).collect();
    assert_eq!(lemmas, vec!["것", "사람", "거리", "영혼"]);
    assert_eq!(counts, vec![3, 2, 1, 1]);
    assert_eq!(snap[0].sentences, vec!["s1", "s2", "s3"]);
    assert_eq!(snap[1].sentences, vec!["s1", "s3"]);
    assert_eq!(tally.len(), 4);
    assert_eq!(tally.count("사람"), 2);
    assert_eq!(tally.count("없다"), 0);
}

#[test]
fn snapshot_leaves_the_aggregator_as_it_is() {
    let mut tally = Aggregator::new();
    tally.record("거리", "a");
    let first = tally.snapshot();
    tally.record("거리", "b");
    let second = tally.snapshot();
    assert_eq!(first[0].count, 1);
    assert_eq!(second[0].count, 2);
    assert_eq!(second[0].sentences, vec!["a", "b"]);
    let copy = second[0].copy();
    assert_eq!(copy.lemma, "거리");
    assert_eq!(copy.count, 2);
    assert_eq!(copy.sentences, vec!["a", "b"]);
}

#[test]
fn sentences_feed_the_aggregator() {
    let mut tally = Aggregator::new();
    for sentence in ["무서운 것", "영혼은 명계에서 살 것이고", "거리에 무서운 것이"] {
        for lemma in parse(sentence).unwrap() {
            tally.record(&lemma, sentence);
        }
    }
    let snap = tally.snapshot();
    let lemmas: Vec<&str> = snap.iter().map(|e| e.lemma.as_str()).collect();
    assert_eq!(lemmas, vec!["것", "무섭다", "영혼", "명계", "사다", "거리"]);
    assert_eq!(snap[0].count, 3);
    assert_eq!(snap[0].sentences.len(), 3);
    assert_eq!(snap[1].count, 2);
    assert_eq!(snap[1].sentences, vec!["무서운 것", "거리에 무서운 것이"]);
}
