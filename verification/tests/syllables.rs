use hangul_vocab::syllable::{
    is_hangul_syllable, is_syllable_char, tail_name_of, with_bieup, without_tail,
};
use hangul_vocab::text::{chars_of, string_of, tokenize, trim_non_hangul};

#[test]
fn syllable_range_bounds() {
    assert!(is_hangul_syllable(0xAC00));
    assert!(is_hangul_syllable(0xD7A3));
    assert!(!is_hangul_syllable(0xABFF));
    assert!(!is_hangul_syllable(0xD7A4));
    assert!(is_hangul_syllable('한' as u32));
    assert!(!is_hangul_syllable('ㄱ' as u32));
    assert!(!is_hangul_syllable('ㅏ' as u32));
    assert!(!is_hangul_syllable('a' as u32));
    assert!(!is_hangul_syllable(0));
    assert!(!is_hangul_syllable(u32::MAX));
}

#[test]
fn syllable_chars() {
    assert!(is_syllable_char('가'));
    assert!(is_syllable_char('힣'));
    assert!(!is_syllable_char('.'));
    assert!(!is_syllable_char('何'));
}

#[test]
fn tail_names() {
    assert_eq!(tail_name_of('갅'), Some('ㄵ'));
    assert_eq!(tail_name_of('운'), Some('ㄴ'));
    assert_eq!(tail_name_of('살'), Some('ㄹ'));
    assert_eq!(tail_name_of('했'), Some('ㅆ'));
    assert_eq!(tail_name_of('각'), Some('ㄱ'));
    assert_eq!(tail_name_of('갛'), Some('ㅎ'));
    assert_eq!(tail_name_of('가'), None);
    assert_eq!(tail_name_of('ㄴ'), None);
    assert_eq!(tail_name_of('x'), None);
}

#[test]
fn every_tail_slot_has_its_name() {
    let names = [
        'ㄱ', 'ㄲ', 'ㄳ', 'ㄴ', 'ㄵ', 'ㄶ', 'ㄷ', 'ㄹ', 'ㄺ', 'ㄻ', 'ㄼ', 'ㄽ', 'ㄾ', 'ㄿ', 'ㅀ', 'ㅁ', 'ㅂ',
        'ㅄ', 'ㅅ', 'ㅆ', 'ㅇ', 'ㅈ', 'ㅊ', 'ㅋ', 'ㅌ', 'ㅍ', 'ㅎ',
    ];
    for (i, name) in names.iter().enumerate() {
        let c = char::from_u32(0xAC00 + 1 + i as u32).unwrap();
        assert_eq!(tail_name_of(c), Some(*name));
    }
}

#[test]
fn tails_come_off() {
    assert_eq!(without_tail('운'), '우');
    assert_eq!(without_tail('했'), '해');
    assert_eq!(without_tail('살'), '사');
    assert_eq!(without_tail('힣'), '히');
    assert_eq!(without_tail('가'), '가');
    assert_eq!(without_tail('!'), '!');
}

#[test]
fn without_tail_keeps_lead_and_vowel_of_every_syllable() {
    for code in 0xAC00u32..=0xD7A3 {
        let c = char::from_u32(code).unwrap();
        let open = char::from_u32(code - (code - 0xAC00) % 28).unwrap();
        assert_eq!(without_tail(c), open);
        assert_eq!(with_bieup(c), char::from_u32(open as u32 + 17).unwrap());
    }
}

#[test]
fn bieup_goes_on() {
    assert_eq!(with_bieup('서'), '섭');
    assert_eq!(with_bieup('가'), '갑');
    assert_eq!(with_bieup('운'), '웁');
    assert_eq!(with_bieup('z'), 'z');
}

#[test]
fn strings_and_characters_convert() {
    assert_eq!(chars_of("무서운 것"), vec!['무', '서', '운', ' ', '것']);
    assert_eq!(chars_of(""), Vec::<char>::new());
    assert_eq!(string_of(&vec!['거', '리']), "거리");
    assert_eq!(string_of(&Vec::new()), "");
    assert_eq!(string_of(&chars_of("a것b")), "a것b");
}

#[test]
fn trimming_stops_at_the_first_and_last_syllable() {
    assert_eq!(trim_non_hangul("\"무서운 것!\""), "무서운 것");
    assert_eq!(trim_non_hangul("abc 거리 def 것 ghi"), "거리 def 것");
    assert_eq!(trim_non_hangul("거리"), "거리");
    assert_eq!(trim_non_hangul("  것  "), "것");
    assert_eq!(trim_non_hangul("12345"), "");
    assert_eq!(trim_non_hangul(""), "");
    assert_eq!(trim_non_hangul("ㄱㄴ"), "");
}

#[test]
fn tokenizing_splits_at_spaces_only() {
    assert_eq!(tokenize("영혼은 명계에서 살 것이고"), vec!["영혼은", "명계에서", "살", "것이고"]);
    assert_eq!(tokenize("  a   b "), vec!["a", "b"]);
    assert_eq!(tokenize("a\tb c"), vec!["a\tb", "c"]);
    assert_eq!(tokenize(""), Vec::<String>::new());
    assert_eq!(tokenize("   "), Vec::<String>::new());
    assert_eq!(tokenize("것"), vec!["것"]);
}
