use prickly::corpus::{resolve, HashInput, HashInputResponse, LabelCorpus, Validity};
use prickly::input::KeyCode;

fn chars(s: &str) -> Vec<char> {
    s.chars().collect()
}

fn h40(s: &str) -> u64 {
    prc::hash40::hash40(s).0
}

fn corpus(labels: &[&str]) -> LabelCorpus {
    let entries: Vec<(u64, String)> = labels.iter().map(|l| (h40(l), l.to_string())).collect();
    LabelCorpus::from_entries(&entries)
}

#[test]
fn derived_hash_matches_the_document_hash_function() {
    // values from the hash function's own reference data
    assert_eq!(h40(""), 0);
    assert_eq!(h40("a"), 0x01e8b7be43);
    assert_eq!(h40("damage_max"), 0x0aa3cb8810);
}

#[test]
fn corpus_sorts_and_deduplicates() {
    let entries = vec![
        (7u64, String::from("beta")),
        (3u64, String::from("alpha")),
        (9u64, String::from("alpha")),
    ];
    let c = LabelCorpus::from_entries(&entries);
    assert_eq!(c.len(), 2);
    assert_eq!(c.labels, vec![String::from("alpha"), String::from("beta")]);
    // the first pair for a repeated label wins
    assert_eq!(c.hash_of(&chars("alpha")), Some(3));
    assert_eq!(c.hash_of(&chars("beta")), Some(7));
    assert_eq!(c.hash_of(&chars("gamma")), None);
}

#[test]
fn label_of_returns_first_entry_with_hash() {
    let entries = vec![(5u64, String::from("b")), (5u64, String::from("a"))];
    let c = LabelCorpus::from_entries(&entries);
    assert_eq!(c.label_of(5), Some(String::from("a")));
    assert_eq!(c.label_of(6), None);
}

#[test]
fn prefix_matches_in_ascending_order() {
    let c = corpus(&["alpha", "alphabet", "beta"]);
    let m = c.matches_prefix(&chars("alph"), 1000);
    assert_eq!(m, vec![String::from("alpha"), String::from("alphabet")]);
    assert_eq!(c.matches_prefix(&chars("z"), 1000), Vec::<String>::new());
    assert_eq!(c.matches_prefix(&chars(""), 1000).len(), 3);
}

#[test]
fn prefix_matches_caps_at_limit() {
    let c = corpus(&["aa", "ab", "ac", "ad"]);
    let m = c.matches_prefix(&chars("a"), 2);
    assert_eq!(m, vec![String::from("aa"), String::from("ab")]);
}

#[test]
fn resolve_hex_literal() {
    let c = corpus(&["alpha"]);
    assert_eq!(resolve(&chars("0x01e8b7be43"), Some(&c)), Validity::Hash(0x01e8b7be43));
    assert_eq!(resolve(&chars("0xzz"), Some(&c)), Validity::HashInvalid);
}

#[test]
fn resolve_known_label() {
    let c = corpus(&["alpha"]);
    assert_eq!(resolve(&chars("alpha"), Some(&c)), Validity::LabelExists(h40("alpha")));
}

#[test]
fn resolve_unknown_label_still_hashes() {
    let c = corpus(&["alpha"]);
    assert_eq!(resolve(&chars("a"), Some(&c)), Validity::LabelNotExists(0x01e8b7be43));
}

#[test]
fn resolve_without_corpus_degrades() {
    assert_eq!(resolve(&chars("a"), None), Validity::LabelsPoisoned(0x01e8b7be43));
    assert_eq!(resolve(&chars("0xff"), None), Validity::Hash(0xff));
}

#[test]
fn autocomplete_accepts_first_candidate() {
    // type "alph", step onto the first candidate, accept it, submit
    let c = corpus(&["alpha", "alphabet", "beta"]);
    let mut hi = HashInput::new(0, Some(&c));
    // drop the seeded literal text before typing a label
    for _ in 0..12 {
        hi.handle_key(KeyCode::Backspace, Some(&c));
    }
    for ch in "alph".chars() {
        assert_eq!(hi.handle_key(KeyCode::Char(ch), Some(&c)), HashInputResponse::Handled);
    }
    assert_eq!(hi.candidates, vec![String::from("alpha"), String::from("alphabet")]);
    assert_eq!(hi.match_num, None);
    hi.handle_key(KeyCode::Down, Some(&c));
    assert_eq!(hi.match_num, Some(0));
    hi.handle_key(KeyCode::Tab, Some(&c));
    assert_eq!(hi.text(), "alpha");
    assert_eq!(hi.handle_key(KeyCode::Enter, Some(&c)), HashInputResponse::Submit);
    assert_eq!(hi.value(), h40("alpha"));
}

#[test]
fn autocomplete_cursor_clamps_and_resets() {
    let c = corpus(&["aa", "ab"]);
    let mut hi = HashInput::new(0, Some(&c));
    for _ in 0..12 {
        hi.handle_key(KeyCode::Backspace, Some(&c));
    }
    hi.handle_key(KeyCode::Char('a'), Some(&c));
    hi.handle_key(KeyCode::Down, Some(&c));
    hi.handle_key(KeyCode::Down, Some(&c));
    hi.handle_key(KeyCode::Down, Some(&c));
    assert_eq!(hi.match_num, Some(1));
    hi.handle_key(KeyCode::Up, Some(&c));
    assert_eq!(hi.match_num, Some(0));
    hi.handle_key(KeyCode::Up, Some(&c));
    assert_eq!(hi.match_num, Some(0));
    // any text change resets the cursor
    hi.handle_key(KeyCode::Char('a'), Some(&c));
    assert_eq!(hi.match_num, None);
}

#[test]
fn hash_editor_rejects_malformed_literal() {
    let c = corpus(&[]);
    let mut hi = HashInput::new(0x12, Some(&c));
    // seeded with the literal form, then made malformed
    assert_eq!(hi.text(), "0x0000000012");
    hi.handle_key(KeyCode::Char('z'), Some(&c));
    assert_eq!(hi.handle_key(KeyCode::Enter, Some(&c)), HashInputResponse::Unhandled);
    assert_eq!(hi.value(), 0x12);
}

#[test]
fn hash_editor_seeds_with_label() {
    let c = corpus(&["alpha"]);
    let hi = HashInput::new(h40("alpha"), Some(&c));
    assert_eq!(hi.text(), "alpha");
}
