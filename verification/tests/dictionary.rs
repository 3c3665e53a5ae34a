use biotag::dict::{DictionaryBuilder, DictionaryEntry};

#[test]
fn parse_line_splits_on_first_tab() {
    let e = DictionaryBuilder::parse_line("myocardial\tCONDITION").unwrap();
    assert_eq!(e.term().as_str(), "myocardial");
    assert_eq!(e.class().as_str(), "CONDITION");
}

#[test]
fn parse_line_keeps_later_tabs_in_class() {
    let e = DictionaryBuilder::parse_line("abcdefgh\tX\tY").unwrap();
    assert_eq!(e.term().as_str(), "abcdefgh");
    assert_eq!(e.class().as_str(), "X\tY");
}

#[test]
fn parse_line_drops_short_terms() {
    assert!(DictionaryBuilder::parse_line("short\tC").is_none());
    assert!(DictionaryBuilder::parse_line("1234567\tC").is_none());
    assert!(DictionaryBuilder::parse_line("12345678\tC").is_some());
}

#[test]
fn parse_line_needs_a_tab() {
    assert!(DictionaryBuilder::parse_line("noclasshere").is_none());
    assert!(DictionaryBuilder::parse_line("").is_none());
}

#[test]
fn from_lines_keeps_order_and_filters() {
    let lines = vec![
        "pneumonia\tCONDITION".to_string(),
        "flu\tCONDITION".to_string(),
        "bad line".to_string(),
        "influenza\tCONDITION".to_string(),
    ];
    let dict = DictionaryBuilder::from_lines(&lines).build();
    let terms = dict.terms();
    assert_eq!(terms, vec!["pneumonia".to_string(), "influenza".to_string()]);
    assert_eq!(dict.get_class(0), "CONDITION".to_string());
    assert_eq!(dict.entries().len(), 2);
}

#[test]
fn from_entries_keeps_short_terms() {
    let entries = vec![DictionaryEntry::new("flu".to_string(), "CONDITION".to_string())];
    let dict = DictionaryBuilder::from_entries(entries).build();
    assert_eq!(dict.terms(), vec!["flu".to_string()]);
    assert_eq!(dict.get_class(0), "CONDITION".to_string());
}
