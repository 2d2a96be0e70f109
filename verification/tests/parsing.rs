use hangul_vocab::particles::{check_particle_ending, find_match, Lexicon};
use hangul_vocab::stripper::{parse, strip};
use hangul_vocab::text::chars_of;

#[test]
fn it_parses_verb_stem() {
    assert_eq!(parse("그렇습니다").unwrap(), vec!["그렇다"]);
    assert_eq!(parse("지내고").unwrap(), vec!["지내다"]);
    assert_eq!(parse("도난당했다는 것을").unwrap(), vec!["도난하다", "것"]);
    assert_eq!(parse("이루어진다").unwrap(), vec!["이루어지다"]);
    assert_eq!(parse("나가 했습니다").unwrap(), vec!["나가다", "하다"]);
    assert_eq!(parse("무서운 것").unwrap(), vec!["무섭다", "것"]);
}

#[test]
fn it_parses_sentences() {
    assert_eq!(parse("영혼은 명계에서 살 것이고").unwrap(), vec!["영혼", "명계", "사다", "것"]);
}

#[test]
fn it_checks_particles() {
    assert_eq!(check_particle_ending("그렇습니다"), true);
    assert_eq!(check_particle_ending("지내고"), true);
    assert_eq!(check_particle_ending("사람에"), true);

    assert_eq!(check_particle_ending("거리"), false);
    assert_eq!(check_particle_ending("사람"), false);
}

#[test]
fn it_filters_particles() {
    assert_eq!(parse("거리에").unwrap(), vec!["거리"]);
    assert_eq!(parse("사람이라").unwrap(), vec!["사람"]);
}

#[test]
fn strip_removes_an_honorific_request_ending() {
    assert_eq!(strip("받으세요"), vec!["받다"]);
}

#[test]
fn strip_removes_a_formal_ending() {
    assert_eq!(strip("그렇습니다"), vec!["그렇다"]);
}

#[test]
fn strip_removes_a_connective() {
    assert_eq!(strip("지내고"), vec!["지내다"]);
}

#[test]
fn strip_restores_an_irregular_stem() {
    assert_eq!(strip("무서운"), vec!["무섭다"]);
    assert_eq!(strip("아름다운"), vec!["아름답다"]);
    // Only `운` after an open syllable is read so.
    assert_eq!(strip("행운"), vec!["행운"]);
    assert_eq!(strip("무서울"), vec!["무서울"]);
}

#[test]
fn strip_leaves_the_noun_of_a_case_marker() {
    assert_eq!(strip("거리에"), vec!["거리"]);
    assert_eq!(strip("거리에서는"), vec!["거리"]);
    assert_eq!(strip("것을"), vec!["것"]);
}

#[test]
fn strip_keeps_a_single_character() {
    assert_eq!(strip("것"), vec!["것"]);
    assert_eq!(strip("이"), vec!["이"]);
    assert_eq!(strip("다"), vec!["다"]);
    assert_eq!(strip("a"), vec!["a"]);
}

#[test]
fn strip_opens_a_single_modifier_syllable() {
    assert_eq!(strip("살"), vec!["사다"]);
    assert_eq!(strip("할"), vec!["하다"]);
    // The same after a particle, and not for another tail.
    assert_eq!(strip("살은"), vec!["사다"]);
    assert_eq!(strip("간"), vec!["간"]);
    assert_eq!(strip("서울"), vec!["서울"]);
}

#[test]
fn strip_is_stable_on_terminal_words() {
    assert_eq!(strip("거리"), vec!["거리"]);
    let again = strip(&strip("거리")[0]);
    assert_eq!(again, vec!["거리"]);
    let noun = strip(&strip("사람이라")[0]);
    assert_eq!(noun, vec!["사람"]);
}

#[test]
fn a_noun_that_stripping_puts_out_is_left_alone() {
    let first = strip("영혼은");
    assert_eq!(first, vec!["영혼"]);
    assert_eq!(strip(&first[0]), vec!["영혼"]);
    assert_eq!(strip("영혼"), vec!["영혼"]);
    assert_eq!(strip(&strip("시간은")[0]), vec!["시간"]);
    assert_eq!(strip("시간"), vec!["시간"]);
    assert_eq!(strip(&strip("얼굴을")[0]), vec!["얼굴"]);
}

#[test]
fn a_lemma_that_no_table_matches_is_left_alone() {
    let lexicon = Lexicon::standard();
    let tokens = [
        "영혼은", "시간은", "명계에서", "거리에", "사람이라", "것이고", "것을", "살", "살은", "무서운",
        "기운은", "나가는", "도난", "서울", "오늘", "hello", "것", "거리에서는", "친구한테", "말이랑",
        "문", "눈이", "일", "운", "우운", "a운", "다", "에", "은", "가운",
    ];
    for token in tokens {
        for lemma in strip(token) {
            if find_match(&lexicon, &chars_of(&lemma)).is_none() {
                assert_eq!(strip(&lemma), vec![lemma.clone()], "from {}", token);
            }
        }
    }
}

#[test]
fn strip_is_stable_on_the_lemmas_of_the_examples() {
    for lemma in ["받다", "그렇다", "지내다", "무섭다", "이루어지다", "나가다", "하다", "사다", "도난하다"] {
        assert_eq!(strip(lemma), vec![lemma]);
    }
}

#[test]
fn longest_ending_wins() {
    // "습니다" ends in "니다" and in "다" as well.
    assert_eq!(strip("했습니다"), vec!["하다"]);
    assert_eq!(strip("먹습니다"), vec!["먹다"]);
    // With only "니다" removed the lemma would be "먹습다".
    assert_ne!(strip("먹습니다"), vec!["먹습다"]);
    assert_eq!(strip("갑니다"), vec!["갑다"]);
}

#[test]
fn strip_of_nothing_is_nothing() {
    assert_eq!(strip(""), Vec::<String>::new());
}

#[test]
fn a_token_that_is_all_ending_is_dropped() {
    assert_eq!(strip("에서"), Vec::<String>::new());
    assert_eq!(strip("습니다"), Vec::<String>::new());
    assert_eq!(strip("니다"), Vec::<String>::new());
}

#[test]
fn strip_undoes_the_tense_markers() {
    assert_eq!(strip("했다"), vec!["하다"]);
    assert_eq!(strip("간다"), vec!["가다"]);
    assert_eq!(strip("갔다"), vec!["가다"]);
    assert_eq!(strip("먹었습니다"), vec!["먹다"]);
    assert_eq!(strip("받았고"), vec!["받다"]);
    assert_eq!(strip("있었다"), vec!["있다"]);
    assert_eq!(strip("하였다"), vec!["하다"]);
}

#[test]
fn strip_undoes_the_passive() {
    assert_eq!(strip("도난당했다는"), vec!["도난하다"]);
    assert_eq!(strip("도난당했습니다"), vec!["도난하다"]);
    // The auxiliary alone is a verb of its own.
    assert_eq!(strip("당하지"), vec!["당하다"]);
}

#[test]
fn strip_keeps_listed_stems_whole() {
    assert_eq!(strip("나가"), vec!["나가다"]);
    assert_eq!(strip("나가는"), vec!["나가다"]);
    assert_eq!(strip("들어가고"), vec!["들어가다"]);
    assert_eq!(strip("돌아가"), vec!["돌아가다"]);
    // Not listed: the subject marker is removed.
    assert_eq!(strip("거리가"), vec!["거리"]);
}

#[test]
fn strip_stops_at_the_dictionary_ending() {
    assert_eq!(strip("가지다"), vec!["가지다"]);
    assert_eq!(strip("이다"), vec!["이다"]);
}

#[test]
fn the_last_ending_decides_between_noun_and_verb() {
    assert_eq!(strip("것이고"), vec!["것"]);
    assert_eq!(strip("지내고는"), vec!["지내다"]);
    assert_eq!(strip("영혼은"), vec!["영혼"]);
}

#[test]
fn parse_trims_and_splits() {
    assert_eq!(parse("\"무서운 것!\"").unwrap(), vec!["무섭다", "것"]);
    assert_eq!(parse("  거리에   사람이라  ").unwrap(), vec!["거리", "사람"]);
    assert_eq!(parse("").unwrap(), Vec::<String>::new());
    assert_eq!(parse("hello, world").unwrap(), Vec::<String>::new());
    assert_eq!(parse("1. 거리에 abc 것을.").unwrap(), vec!["거리", "abc", "것"]);
}

#[test]
fn parse_drops_tokens_that_are_all_ending() {
    assert_eq!(parse("거리 에서 것").unwrap(), vec!["거리", "것"]);
}

#[test]
fn check_particle_ending_asks_the_longest_table_first() {
    assert_eq!(check_particle_ending("받으세요"), true);
    assert_eq!(check_particle_ending("에서"), true);
    assert_eq!(check_particle_ending("에"), false);
    assert_eq!(check_particle_ending(""), false);
    assert_eq!(check_particle_ending("것을"), true);
    assert_eq!(check_particle_ending("이루어진다"), true);
    assert_eq!(check_particle_ending("무서운"), false);
    assert_eq!(check_particle_ending("하다"), true);
    assert_eq!(check_particle_ending("사람이라"), true);
}
