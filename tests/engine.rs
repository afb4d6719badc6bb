use spellchecker::engine::{correct, spell_check, Outcome};
use spellchecker::model::FrequencyModel;
use spellchecker::rank::{lex_less, rank_first, WordFreq};
use std::cmp::Ordering;

fn model(entries: &[(&str, usize)]) -> FrequencyModel {
    let mut m = FrequencyModel::new();
    for (w, c) in entries {
        m.insert(w.to_string(), *c);
    }
    m
}

fn wf(word: &str, freq: usize) -> WordFreq {
    WordFreq { word: word.to_string(), freq }
}

#[test]
fn exact_match_is_valid() {
    let m = model(&[("hello", 10), ("hallo", 2)]);
    match correct("hello", &m) {
        Outcome::Valid(w) => assert_eq!(w, "hello"),
        other => panic!("unexpected {:?}", other),
    }
}

#[test]
fn ranking_prefers_frequency_then_word() {
    let c = vec![wf("cot", 5), wf("cat", 5), wf("cut", 3)];
    let t = rank_first(&c).unwrap();
    assert_eq!(c[t].word, "cat");
    let c = vec![wf("cat", 5), wf("cot", 5), wf("cut", 3)];
    assert_eq!(c[rank_first(&c).unwrap()].word, "cat");
    let c = vec![wf("cut", 3), wf("zzz", 9)];
    assert_eq!(c[rank_first(&c).unwrap()].word, "zzz");
    assert_eq!(rank_first(&vec![]), None);
}

#[test]
fn word_freq_order() {
    assert_eq!(wf("cat", 5).cmp(&wf("cot", 5)), Ordering::Less);
    assert_eq!(wf("cot", 5).cmp(&wf("cat", 5)), Ordering::Greater);
    assert_eq!(wf("cut", 3).cmp(&wf("cat", 5)), Ordering::Greater);
    assert_eq!(wf("zzz", 6).cmp(&wf("aaa", 5)), Ordering::Less);
    assert_eq!(wf("cat", 5).cmp(&wf("cat", 5)), Ordering::Equal);
}

#[test]
fn lexicographic_order() {
    assert!(lex_less("ab", "abc"));
    assert!(!lex_less("abc", "ab"));
    assert!(lex_less("abz", "ac"));
    assert!(!lex_less("same", "same"));
    assert!(lex_less("", "a"));
    assert!(!lex_less("", ""));
}

#[test]
fn suggestion_by_one_insertion() {
    let m = model(&[("hello", 10), ("hallo", 2)]);
    match correct("hell", &m) {
        Outcome::Suggestion(w) => assert_eq!(w, "hello"),
        other => panic!("unexpected {:?}", other),
    }
}

#[test]
fn no_suggestion_far_from_model() {
    let m = model(&[("hello", 10), ("hallo", 2)]);
    assert!(matches!(correct("zzzzz", &m), Outcome::NoSuggestion));
    let empty = FrequencyModel::new();
    assert!(matches!(correct("a", &empty), Outcome::NoSuggestion));
}

#[test]
fn suggestion_two_edits_away() {
    let m = model(&[("spelling", 4)]);
    match correct("speling", &m) {
        Outcome::Suggestion(w) => assert_eq!(w, "spelling"),
        other => panic!("unexpected {:?}", other),
    }
    match correct("sepling", &m) {
        Outcome::Suggestion(w) => assert_eq!(w, "spelling"),
        other => panic!("unexpected {:?}", other),
    }
    assert!(matches!(correct("sepluny", &m), Outcome::NoSuggestion));
}

#[test]
fn higher_frequency_wins_over_fewer_edits() {
    let m = model(&[("cat", 1), ("cart", 7)]);
    match correct("ct", &m) {
        Outcome::Suggestion(w) => assert_eq!(w, "cart"),
        other => panic!("unexpected {:?}", other),
    }
}

#[test]
fn equal_frequency_tie_goes_to_smaller_word() {
    let m = model(&[("cot", 5), ("cat", 5), ("cut", 3)]);
    match correct("cxt", &m) {
        Outcome::Suggestion(w) => assert_eq!(w, "cat"),
        other => panic!("unexpected {:?}", other),
    }
}

#[test]
fn empty_query() {
    let m = model(&[("a", 1)]);
    match correct("", &m) {
        Outcome::Suggestion(w) => assert_eq!(w, "a"),
        other => panic!("unexpected {:?}", other),
    }
    let m = model(&[("", 1)]);
    assert!(matches!(correct("", &m), Outcome::Valid(_)));
}

#[test]
fn correcting_twice_gives_the_same_answer() {
    let m = model(&[("hello", 10), ("hallo", 2), ("help", 10)]);
    for q in ["hell", "hello", "zzzzz", "halo"] {
        let a = spell_check(q, &m);
        let b = spell_check(q, &m);
        assert_eq!(a, b);
    }
}

#[test]
fn spell_check_pairs() {
    let m = model(&[("hello", 10), ("hallo", 2)]);
    assert_eq!(spell_check("hello", &m), ("hello".to_string(), "".to_string()));
    assert_eq!(spell_check("hell", &m), ("hell".to_string(), "hello".to_string()));
    assert_eq!(spell_check("zzzzz", &m), ("zzzzz".to_string(), "-".to_string()));
    assert_eq!(spell_check("hallo", &m), ("hallo".to_string(), "".to_string()));
}
