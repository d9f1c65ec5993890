use vanyline_sandbox::assoc::{is_functional, merge_prefer_right};
use vanyline_sandbox::lsp::aux::merged_initialization_options;

fn k(s: &str) -> Vec<char> {
    s.chars().collect()
}

fn sorted(mut v: Vec<(Vec<char>, i32)>) -> Vec<(String, i32)> {
    v.sort_by(|a, b| a.0.cmp(&b.0));
    v.into_iter().map(|(k, v)| (k.into_iter().collect(), v)).collect()
}

#[test]
fn spec_without_options_sets_nothing() {
    assert_eq!(merged_initialization_options(Some(vec![(k("a"), 1)]), None::<Vec<(Vec<char>, i32)>>), None);
    assert_eq!(merged_initialization_options::<i32>(None, None), None);
}

#[test]
fn spec_options_win_over_client_options() {
    let client = vec![(k("a"), 1), (k("b"), 2)];
    let spec = vec![(k("b"), 20), (k("c"), 30)];
    let merged = merged_initialization_options(Some(client), Some(spec)).unwrap();
    assert_eq!(sorted(merged), vec![("a".to_string(), 1), ("b".to_string(), 20), ("c".to_string(), 30)]);
}

#[test]
fn spec_options_alone_when_client_has_none() {
    let merged = merged_initialization_options(None, Some(vec![(k("plugins"), 7)])).unwrap();
    assert_eq!(sorted(merged), vec![("plugins".to_string(), 7)]);
}

#[test]
fn merge_keeps_keys_distinct() {
    let merged = merge_prefer_right(vec![(k("x"), 1), (k("y"), 2)], vec![(k("x"), 3), (k("x2"), 4)]);
    assert!(is_functional(&merged));
    assert_eq!(sorted(merged), vec![("x".to_string(), 3), ("x2".to_string(), 4), ("y".to_string(), 2)]);
}

#[test]
fn is_functional_detects_a_repeated_key() {
    assert!(is_functional(&vec![(k("a"), 1), (k("b"), 1)]));
    assert!(!is_functional(&vec![(k("a"), 1), (k("b"), 1), (k("a"), 2)]));
    assert!(is_functional::<i32>(&Vec::new()));
}

use vanyline_sandbox::lsp::aux::{AuxBook, AuxPending};

#[test]
fn aux_ids_start_at_one() {
    let mut b: AuxBook<String> = AuxBook::new();
    assert!(b.can_register());
    assert_eq!(b.register(AuxPending::Initialize), 1);
    assert_eq!(b.register(AuxPending::Forward("v1".to_string())), 2);
}

#[test]
fn aux_reply_takes_its_request_once() {
    let mut b: AuxBook<String> = AuxBook::new();
    let init = b.register(AuxPending::Initialize);
    let fwd = b.register(AuxPending::Forward("v7".to_string()));
    assert_eq!(b.take(fwd), Some(AuxPending::Forward("v7".to_string())));
    assert_eq!(b.take(fwd), None);
    assert_eq!(b.take(99), None);
    assert_eq!(b.take(init), Some(AuxPending::Initialize));
}

#[test]
fn aux_drain_hands_back_what_is_in_flight() {
    let mut b: AuxBook<String> = AuxBook::new();
    let a = b.register(AuxPending::Forward("a".to_string()));
    let _ = b.register(AuxPending::Initialize);
    let c = b.register(AuxPending::Forward("c".to_string()));
    assert_eq!(b.take(a), Some(AuxPending::Forward("a".to_string())));
    let mut drained = b.drain();
    drained.sort_by_key(|e| e.0);
    assert_eq!(drained, vec![(2, AuxPending::Initialize), (c, AuxPending::Forward("c".to_string()))]);
    assert!(b.drain().is_empty());
    assert_eq!(b.register(AuxPending::Initialize), 4);
}
