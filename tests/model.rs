use spellchecker::engine::Outcome;
use spellchecker::model::FrequencyModel;
use spellchecker::normalize::{check_line, corpus_tokens, normalize_query};

#[test]
fn counts_tokens() {
    let tokens: Vec<String> = ["the", "cat", "the", "dog", "the"].iter().map(|s| s.to_string()).collect();
    let m = FrequencyModel::from_tokens(&tokens);
    assert_eq!(m.len(), 3);
    assert_eq!(m.frequency("the"), Some(3));
    assert_eq!(m.frequency("cat"), Some(1));
    assert_eq!(m.frequency("bird"), None);
    assert!(m.contains("dog"));
    assert!(!m.contains("do"));
}

#[test]
fn empty_model() {
    let m = FrequencyModel::from_tokens(&vec![]);
    assert_eq!(m.len(), 0);
    assert!(!m.contains(""));
}

#[test]
fn insert_replaces_count() {
    let mut m = FrequencyModel::new();
    m.insert("a".to_string(), 1);
    m.insert("a".to_string(), 4);
    assert_eq!(m.frequency("a"), Some(4));
    assert_eq!(m.len(), 1);
}

#[test]
fn query_normalisation() {
    assert_eq!(normalize_query("  Hello, World!\n").unwrap(), "helloworld");
    assert_eq!(normalize_query("123").unwrap(), "");
    assert_eq!(normalize_query("ÀbC").unwrap(), "bc");
}

#[test]
fn corpus_tokenisation() {
    let t = corpus_tokens("  The cat;\tthe DOG.\n\nthe-end ").unwrap();
    assert_eq!(t, vec!["the", "cat", "the", "dog", "theend"]);
    assert_eq!(corpus_tokens("").unwrap().len(), 0);
}

#[test]
fn model_from_text() {
    let m = FrequencyModel::from_text("Hello hello HALLO, hello.").unwrap();
    assert_eq!(m.frequency("hello"), Some(3));
    assert_eq!(m.frequency("hallo"), Some(1));
    assert_eq!(m.len(), 2);
}

#[test]
fn lines_against_a_model() {
    let m = FrequencyModel::from_text("hello hello hallo").unwrap();
    assert_eq!(check_line("Hell!", &m), Some(("hell".to_string(), "hello".to_string())));
    assert_eq!(check_line("HELLO", &m), Some(("hello".to_string(), "".to_string())));
    assert_eq!(check_line("zzzzz", &m), Some(("zzzzz".to_string(), "-".to_string())));
    assert_eq!(check_line(" 42 ", &m), None);
    assert!(matches!(spellchecker::engine::correct("hallo", &m), Outcome::Valid(_)));
}
