use biotag::dict::{DictionaryBuilder, DictionaryEntry};
use biotag::tagger::TaggerBuilder;
use biotag::word::{get_next_char, get_previous_char, is_word_boundary};

#[test]
fn word_boundary_characters() {
    assert!(is_word_boundary(' '));
    assert!(is_word_boundary('\t'));
    assert!(is_word_boundary('.'));
    assert!(is_word_boundary(','));
    assert!(is_word_boundary('('));
    assert!(is_word_boundary('\u{a0}'));
    assert!(is_word_boundary('\u{2003}'));
    assert!(!is_word_boundary('a'));
    assert!(!is_word_boundary('0'));
    assert!(!is_word_boundary('\u{e9}'));
}

#[test]
fn previous_char_at_boundaries() {
    let s = "ab cd";
    assert_eq!(get_previous_char(0, s), None);
    assert_eq!(get_previous_char(1, s), Some('a'));
    assert_eq!(get_previous_char(3, s), Some(' '));
    assert_eq!(get_previous_char(5, s), Some('d'));
    assert_eq!(get_previous_char(6, s), None);
}

#[test]
fn next_char_at_boundaries() {
    let s = "ab cd";
    assert_eq!(get_next_char(0, s), Some('a'));
    assert_eq!(get_next_char(2, s), Some(' '));
    assert_eq!(get_next_char(4, s), Some('d'));
    assert_eq!(get_next_char(5, s), None);
}

#[test]
fn mid_character_offsets_scan_to_a_boundary() {
    let s = "a\u{e9}b";
    assert_eq!(get_previous_char(3, s), Some('\u{e9}'));
    assert_eq!(get_previous_char(2, s), Some('a'));
    assert_eq!(get_next_char(1, s), Some('\u{e9}'));
    assert_eq!(get_next_char(2, s), Some('b'));
    assert_eq!(get_next_char(3, s), Some('b'));
}

#[test]
fn multibyte_neighbours_are_not_word_boundaries() {
    let entries = vec![DictionaryEntry::new("diagnosis".to_string(), "CONDITION".to_string())];
    let dict = DictionaryBuilder::from_entries(entries).build();
    let tagger = TaggerBuilder::default().dictionary(&dict).build().unwrap();
    assert_eq!(tagger.find_word("\u{e9}diagnosis"), vec![]);
    assert_eq!(tagger.find_word("\u{a0}diagnosis\u{a0}"), vec![(2, 11, 0)]);
}
