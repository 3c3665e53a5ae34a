use biotag::automaton::MatchPolicy;
use biotag::bioes::{BIOESTag, BIOES};
use biotag::dict::{Dictionary, DictionaryBuilder, DictionaryEntry};
use biotag::iob::{IOBTag, IOB};
use biotag::tag::Tag;
use biotag::tagger::TaggerBuilder;

fn dict_of(pairs: &[(&str, &str)]) -> Dictionary {
    let mut entries = Vec::new();
    for (t, c) in pairs {
        entries.push(DictionaryEntry::new(t.to_string(), c.to_string()));
    }
    DictionaryBuilder::from_entries(entries).build()
}

fn iob_labels(tags: &IOB) -> Vec<(String, String)> {
    let mut out = Vec::new();
    for t in tags.tags() {
        match t {
            IOBTag::Beginning(c) => out.push((c.original_text.clone(), format!("B-{}", c.class))),
            IOBTag::Inside(c) => out.push((c.original_text.clone(), format!("I-{}", c.class))),
            IOBTag::Outside(c) => out.push((c.original_text.clone(), "O".to_string())),
        }
    }
    out
}

fn bioes_labels(tags: &BIOES) -> Vec<(String, String)> {
    let mut out = Vec::new();
    for t in tags.tags() {
        match t {
            BIOESTag::Beginning(c) => out.push((c.original_text.clone(), format!("B-{}", c.class))),
            BIOESTag::Inside(c) => out.push((c.original_text.clone(), format!("I-{}", c.class))),
            BIOESTag::Outside(c) => out.push((c.original_text.clone(), "O".to_string())),
            BIOESTag::End(c) => out.push((c.original_text.clone(), format!("E-{}", c.class))),
            BIOESTag::Single(c) => out.push((c.original_text.clone(), format!("S-{}", c.class))),
        }
    }
    out
}

fn pair(a: &str, b: &str) -> (String, String) {
    (a.to_string(), b.to_string())
}

#[test]
fn boundary_rejection() {
    let dict = dict_of(&[("diagnosis", "CONDITION")]);
    let tagger = TaggerBuilder::default().dictionary(&dict).build().unwrap();
    let tags = IOB::from(tagger.tag("prediagnosis report"));
    assert_eq!(iob_labels(&tags), vec![pair("prediagnosis", "O"), pair("report", "O")]);
}

#[test]
fn exact_word_match_bioes() {
    let dict = dict_of(&[("diagnosis", "CONDITION")]);
    let tagger = TaggerBuilder::default().dictionary(&dict).build().unwrap();
    let tags = BIOES::from(tagger.tag("initial diagnosis confirmed"));
    assert_eq!(
        bioes_labels(&tags),
        vec![pair("initial", "O"), pair("diagnosis", "S-CONDITION"), pair("confirmed", "O")]
    );
}

#[test]
fn exact_word_match_iob() {
    let dict = dict_of(&[("diagnosis", "CONDITION")]);
    let tagger = TaggerBuilder::default().dictionary(&dict).build().unwrap();
    let tags = IOB::from(tagger.tag("initial diagnosis confirmed"));
    assert_eq!(
        iob_labels(&tags),
        vec![pair("initial", "O"), pair("diagnosis", "B-CONDITION"), pair("confirmed", "O")]
    );
}

#[test]
fn multi_word_chunk_bioes() {
    let dict = dict_of(&[("heart attack", "CONDITION")]);
    let tagger = TaggerBuilder::default().dictionary(&dict).build().unwrap();
    let tags = BIOES::from(tagger.tag("patient had heart attack yesterday"));
    assert_eq!(
        bioes_labels(&tags),
        vec![
            pair("patient", "O"),
            pair("had", "O"),
            pair("heart", "B-CONDITION"),
            pair("attack", "E-CONDITION"),
            pair("yesterday", "O"),
        ]
    );
}

#[test]
fn multi_word_chunk_iob() {
    let dict = dict_of(&[("heart attack", "CONDITION")]);
    let tagger = TaggerBuilder::default().dictionary(&dict).build().unwrap();
    let tags = IOB::from(tagger.tag("patient had heart attack yesterday"));
    assert_eq!(
        iob_labels(&tags),
        vec![
            pair("patient", "O"),
            pair("had", "O"),
            pair("heart", "B-CONDITION"),
            pair("attack", "I-CONDITION"),
            pair("yesterday", "O"),
        ]
    );
}

#[test]
fn three_word_chunk_bioes() {
    let dict = dict_of(&[("acute heart attack", "CONDITION")]);
    let tagger = TaggerBuilder::default().dictionary(&dict).build().unwrap();
    let tags = BIOES::from(tagger.tag("an acute heart attack occurred"));
    assert_eq!(
        bioes_labels(&tags),
        vec![
            pair("an", "O"),
            pair("acute", "B-CONDITION"),
            pair("heart", "I-CONDITION"),
            pair("attack", "E-CONDITION"),
            pair("occurred", "O"),
        ]
    );
}

#[test]
fn leftmost_longest_tie_break() {
    let dict = dict_of(&[("heart", "CONDITION"), ("heart attack", "CONDITION")]);
    let tagger = TaggerBuilder::default().dictionary(&dict).build().unwrap();
    let found = tagger.find("heart attack pain");
    assert_eq!(found, vec![(0, 12, 1)]);
    let tags = IOB::from(tagger.tag("heart attack pain"));
    assert_eq!(
        iob_labels(&tags),
        vec![pair("heart", "B-CONDITION"), pair("attack", "I-CONDITION"), pair("pain", "O")]
    );
}

#[test]
fn leftmost_first_tie_break() {
    let dict = dict_of(&[("heart", "SITE"), ("heart attack", "CONDITION")]);
    let tagger = TaggerBuilder::default()
        .dictionary(&dict)
        .match_kind(MatchPolicy::LeftmostFirst)
        .build()
        .unwrap();
    let found = tagger.find("heart attack pain");
    assert_eq!(found, vec![(0, 5, 0)]);
    let tags = IOB::from(tagger.tag("heart attack pain"));
    assert_eq!(
        iob_labels(&tags),
        vec![pair("heart", "B-SITE"), pair("attack", "O"), pair("pain", "O")]
    );
}

#[test]
fn standard_policy_reports_automaton_order() {
    let dict = dict_of(&[("append", "A"), ("appendage", "B"), ("app", "C")]);
    let tagger = TaggerBuilder::default()
        .dictionary(&dict)
        .match_kind(MatchPolicy::Standard)
        .build()
        .unwrap();
    let found = tagger.find("append the app to the appendage");
    assert_eq!(found, vec![(0, 3, 2), (11, 14, 2), (22, 25, 2)]);
}

#[test]
fn case_sensitivity_disabled() {
    let dict = dict_of(&[("Flu", "CONDITION")]);
    let tagger = TaggerBuilder::default().dictionary(&dict).build().unwrap();
    let tags = IOB::from(tagger.tag("the flu spread"));
    assert_eq!(
        iob_labels(&tags),
        vec![pair("the", "O"), pair("flu", "B-CONDITION"), pair("spread", "O")]
    );
}

#[test]
fn case_sensitivity_enabled() {
    let dict = dict_of(&[("Flu", "CONDITION")]);
    let tagger =
        TaggerBuilder::default().dictionary(&dict).case_sensitive(true).build().unwrap();
    let tags = IOB::from(tagger.tag("the flu spread"));
    assert_eq!(iob_labels(&tags), vec![pair("the", "O"), pair("flu", "O"), pair("spread", "O")]);
}

#[test]
fn no_match_invariant() {
    let dict = dict_of(&[("pneumonia", "CONDITION"), ("influenza", "CONDITION")]);
    let tagger = TaggerBuilder::default().dictionary(&dict).build().unwrap();
    let tags = BIOES::from(tagger.tag("nothing of note here"));
    for (_, label) in bioes_labels(&tags) {
        assert_eq!(label, "O");
    }
    assert_eq!(bioes_labels(&tags).len(), 4);
}

#[test]
fn coverage_reconstructs_input() {
    let dict = dict_of(&[("heart attack", "CONDITION"), ("diagnosis", "FINDING")]);
    let tagger = TaggerBuilder::default().dictionary(&dict).build().unwrap();
    let input = "  a diagnosis:  heart attack, twice  ";
    let tags = IOB::from(tagger.tag(input));
    let mut rebuilt = String::new();
    let mut cursor: usize = 0;
    for t in tags.tags() {
        let (text, start, end) = match t {
            IOBTag::Beginning(c) => (&c.original_text, c.start, c.end),
            IOBTag::Inside(c) => (&c.original_text, c.start, c.end),
            IOBTag::Outside(c) => (&c.original_text, c.start, c.end),
        };
        let sep = &input[cursor..start];
        assert!(sep.chars().all(|ch| ch.is_ascii_whitespace()));
        rebuilt.push_str(sep);
        rebuilt.push_str(text);
        assert_eq!(text.as_str(), &input[start..end]);
        cursor = end;
    }
    rebuilt.push_str(&input[cursor..]);
    assert!(input[cursor..].chars().all(|ch| ch.is_ascii_whitespace()));
    assert_eq!(rebuilt, input);
}

#[test]
fn chunk_spans_are_byte_offsets() {
    let dict = dict_of(&[("diagnosis", "CONDITION")]);
    let tagger = TaggerBuilder::default().dictionary(&dict).build().unwrap();
    let tags = tagger.tag("initial diagnosis confirmed");
    let chunks: Vec<(String, usize, usize, Option<String>)> = tags
        .0
        .iter()
        .map(|t| match t {
            Tag::Tagged(c) => {
                (c.original_text.clone(), c.start, c.end, Some(c.class.clone()))
            }
            Tag::UnTagged(c) => (c.original_text.clone(), c.start, c.end, None),
        })
        .collect();
    assert_eq!(
        chunks,
        vec![
            ("initial ".to_string(), 0, 8, None),
            ("diagnosis".to_string(), 8, 17, Some("CONDITION".to_string())),
            (" confirmed".to_string(), 17, 27, None),
        ]
    );
}

#[test]
fn gap_chunk_between_matches() {
    let dict = dict_of(&[("aaa", "X"), ("bbb", "Y")]);
    let tagger = TaggerBuilder::default().dictionary(&dict).build().unwrap();
    let tags = tagger.tag("aaa-bbb");
    assert_eq!(tags.0.len(), 3);
    match &tags.0[1] {
        Tag::UnTagged(c) => {
            assert_eq!(c.original_text.as_str(), "-");
            assert_eq!((c.start, c.end), (3, 4));
        }
        _ => panic!("expected an untagged gap chunk"),
    }
}

#[test]
fn empty_input_is_one_empty_chunk() {
    let dict = dict_of(&[("diagnosis", "CONDITION")]);
    let tagger = TaggerBuilder::default().dictionary(&dict).build().unwrap();
    let tags = tagger.tag("");
    assert_eq!(tags.0.len(), 1);
    match &tags.0[0] {
        Tag::UnTagged(c) => {
            assert_eq!(c.original_text.as_str(), "");
            assert_eq!((c.start, c.end), (0, 0));
        }
        _ => panic!("expected a single untagged chunk"),
    }
    let tags = IOB::from(tagger.tag(""));
    assert_eq!(tags.tags().len(), 0);
}

#[test]
fn missing_dictionary_error() {
    let r = TaggerBuilder::default().build();
    match r {
        Err(e) => assert_eq!(e, biotag::errors::MissingDictionnary),
        Ok(_) => panic!("building without a dictionary must fail"),
    }
}

#[test]
fn punctuation_is_a_word_boundary() {
    let dict = dict_of(&[("diagnosis", "CONDITION")]);
    let tagger = TaggerBuilder::default().dictionary(&dict).build().unwrap();
    let found = tagger.find_word("(diagnosis), diagnosis; xdiagnosis");
    assert_eq!(found, vec![(1, 10, 0), (13, 22, 0)]);
}

#[test]
fn trailing_text_is_kept() {
    let dict = dict_of(&[("diagnosis", "CONDITION")]);
    let tagger = TaggerBuilder::default().dictionary(&dict).build().unwrap();
    let tags = IOB::from(tagger.tag("diagnosis was wrong"));
    assert_eq!(
        iob_labels(&tags),
        vec![pair("diagnosis", "B-CONDITION"), pair("was", "O"), pair("wrong", "O")]
    );
}
