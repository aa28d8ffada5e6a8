use cedict::Line;
use cedict::from_components;
use cedict::is_comment;
use cedict::is_metadata;
use cedict::parse_dict_entry;
use cedict::parse_line;

#[test]
fn test_parse_dict_entry() {
    let line = "睡覺 睡觉 [shui4 jiao4] /to go to bed/to sleep/";
    let entry = parse_dict_entry(line).unwrap();
    assert_eq!(entry.traditional(), "睡覺");
    assert_eq!(entry.simplified(), "睡觉");
    assert_eq!(entry.pinyin(), "shui4 jiao4");
    let defs = entry.definitions();
    assert_eq!(defs.get(0).map(|d| d.as_str()), Some("to go to bed"));
    assert_eq!(defs.get(1).map(|d| d.as_str()), Some("to sleep"));
}

#[test]
fn definition_count_and_order_preserved() {
    let line = "你好 你好 [ni3 hao3] /Hello!/Hi!/How are you?/";
    let entry = parse_dict_entry(line).unwrap();
    let defs = entry.definitions();
    assert_eq!(defs, vec!["Hello!", "Hi!", "How are you?"]);
}

#[test]
fn field_extraction() {
    let line = "愛 爱 [ai4] /to love/to be fond of/to like/";
    let entry = parse_dict_entry(line).unwrap();
    assert_eq!(entry.traditional(), "愛");
    assert_eq!(entry.simplified(), "爱");
    assert_eq!(entry.pinyin(), "ai4");
}

#[test]
fn missing_pinyin_is_incorrect() {
    assert!(matches!(parse_line("愛 爱 /to love/"), Line::Incorrect));
}

#[test]
fn empty_line_is_empty() {
    assert!(matches!(parse_line(""), Line::Empty));
}

#[test]
fn comment_detection() {
    match parse_line("# this is a comment") {
        Line::Comment(text) => assert_eq!(text, "this is a comment"),
        _ => panic!("expected a comment"),
    }
}

#[test]
fn metadata_parsing() {
    match parse_line("#! version = 1.0") {
        Line::Metadata(key, value) => {
            assert_eq!(key, "version");
            assert_eq!(value, "1.0");
        },
        _ => panic!("expected metadata"),
    }
}

#[test]
fn slash_only_blob_yields_no_definitions() {
    let entry = parse_dict_entry("愛 爱 [ai4] //").unwrap();
    assert!(entry.definitions().is_empty());
}

#[test]
fn metadata_without_separator_is_incorrect() {
    assert!(matches!(parse_line("#! just a note"), Line::Incorrect));
}

#[test]
fn metadata_without_spaces() {
    match parse_line("#!charset=UTF-8") {
        Line::Metadata(key, value) => {
            assert_eq!(key, "charset");
            assert_eq!(value, "UTF-8");
        },
        _ => panic!("expected metadata"),
    }
}

#[test]
fn bare_hash_is_an_empty_comment() {
    match parse_line("#") {
        Line::Comment(text) => assert_eq!(text, ""),
        _ => panic!("expected a comment"),
    }
}

#[test]
fn entry_line_classifies_as_entry() {
    match parse_line("愛 爱 [ai4] /to love/") {
        Line::Entry(entry) => {
            assert_eq!(entry.traditional(), "愛");
            assert_eq!(entry.definitions(), vec!["to love"]);
        },
        _ => panic!("expected an entry"),
    }
}

#[test]
fn classification_of_canonical_text_is_idempotent() {
    let entry = parse_dict_entry("愛 爱 [ai4] /to love/to like/").unwrap();
    let text = entry.to_text().to_owned();
    match parse_line(&text) {
        Line::Entry(again) => {
            assert_eq!(again.traditional(), entry.traditional());
            assert_eq!(again.simplified(), entry.simplified());
            assert_eq!(again.pinyin(), entry.pinyin());
            assert_eq!(again.definitions(), entry.definitions());
        },
        _ => panic!("canonical text must classify as an entry"),
    }
}

#[test]
fn round_trip_through_components() {
    let defs = vec![String::from("to love"), String::from("to like")];
    let entry = from_components("愛", "爱", "ai4", &defs).unwrap();
    assert_eq!(entry.to_text(), "愛 爱 [ai4] /to love/to like/");
    assert_eq!(entry.traditional(), "愛");
    assert_eq!(entry.simplified(), "爱");
    assert_eq!(entry.pinyin(), "ai4");
    assert_eq!(entry.definitions(), vec!["to love", "to like"]);
}

#[test]
fn components_breaking_the_grammar_fail() {
    let defs = vec![String::from("x")];
    assert!(from_components("a", "b", "c]d", &defs).is_none());
}

#[test]
fn missing_closing_bracket_is_incorrect() {
    assert!(matches!(parse_line("愛 爱 [ai4 /to love/"), Line::Incorrect));
}

#[test]
fn missing_slash_after_pinyin_is_incorrect() {
    assert!(matches!(parse_line("愛 爱 [ai4] to love/"), Line::Incorrect));
}

#[test]
fn single_token_line_is_incorrect() {
    assert!(matches!(parse_line("愛爱"), Line::Incorrect));
}

#[test]
fn comment_never_tokenizes_as_entry() {
    assert!(parse_dict_entry("# a [b] /c/").is_none());
    assert!(parse_dict_entry("").is_none());
}

#[test]
fn trailing_empty_definition_is_kept() {
    let entry = parse_dict_entry("a b [c] /x//").unwrap();
    assert_eq!(entry.definitions(), vec!["x", ""]);
}

#[test]
fn empty_pinyin_is_accepted() {
    let entry = parse_dict_entry("a b [] /x/").unwrap();
    assert_eq!(entry.pinyin(), "");
    assert_eq!(entry.definitions(), vec!["x"]);
}

#[test]
fn comment_and_metadata_predicates() {
    assert!(is_comment("# note"));
    assert!(is_comment("#! meta"));
    assert!(!is_comment(""));
    assert!(!is_comment("word"));
    assert!(is_metadata("#! meta"));
    assert!(!is_metadata("# note"));
    assert!(!is_metadata("#"));
}

#[test]
fn nothing_after_opening_slash_is_rejected() {
    assert!(parse_dict_entry("a b [c] /").is_none());
    assert!(matches!(parse_line("a b [c] /"), Line::Incorrect));
}

#[test]
fn comment_trim_strips_unicode_whitespace() {
    match parse_line("#\u{000B}x\u{3000}") {
        Line::Comment(text) => assert_eq!(text, "x"),
        _ => panic!("expected a comment"),
    }
}

#[test]
fn metadata_trim_strips_unicode_whitespace() {
    match parse_line("#!\u{00A0}charset =\u{2009}UTF-8\u{0085}") {
        Line::Metadata(key, value) => {
            assert_eq!(key, "charset");
            assert_eq!(value, "UTF-8");
        },
        _ => panic!("expected metadata"),
    }
}

#[test]
fn empty_traditional_is_accepted() {
    let entry = parse_dict_entry(" x [y] /d/").unwrap();
    assert_eq!(entry.traditional(), "");
    assert_eq!(entry.simplified(), "x");
    assert_eq!(entry.pinyin(), "y");
    assert_eq!(entry.definitions(), vec!["d"]);
}

#[test]
fn doubled_separator_is_incorrect() {
    assert!(matches!(parse_line("a  b [c] /d/"), Line::Incorrect));
}

#[test]
fn metadata_splits_on_first_separator_only() {
    match parse_line("#! a = b=c") {
        Line::Metadata(key, value) => {
            assert_eq!(key, "a");
            assert_eq!(value, "b=c");
        },
        _ => panic!("expected metadata"),
    }
}

#[test]
fn cloned_entry_reads_the_same() {
    let entry = parse_dict_entry("愛 爱 [ai4] /to love/").unwrap();
    let copy = entry.clone();
    assert_eq!(copy.traditional(), entry.traditional());
    assert_eq!(copy.to_text(), entry.to_text());
    assert_eq!(copy, entry);
}
