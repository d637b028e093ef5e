use zzh::config::extract_hosts;
use zzh::history::{extract_history, HistoryEntry};
use zzh::ranker::{attempted, dedup, listed, merge};

fn strings(items: &[&str]) -> Vec<String> {
    items.iter().map(|s| s.to_string()).collect()
}

fn entry(alias: &str, timestamp: i64) -> HistoryEntry {
    HistoryEntry { alias: alias.to_string(), timestamp }
}

#[test]
fn history_comes_first_then_the_rest_of_the_configuration() {
    let config = extract_hosts("Host a\nHost b\nHost c\n");
    let history =
        extract_history("2024-01-01T00:00:00Z b\n2024-01-02T00:00:00Z a\n").unwrap();
    assert_eq!(merge(&history, &config), strings(&["a", "b", "c"]));
}

#[test]
fn merge_keeps_the_order_it_is_given() {
    let history = vec![entry("x", 1), entry("y", 9)];
    let config = strings(&["c", "y", "a", "x", "b"]);
    assert_eq!(merge(&history, &config), strings(&["x", "y", "c", "a", "b"]));
}

#[test]
fn merge_with_nothing() {
    assert_eq!(merge(&vec![], &vec![]), Vec::<String>::new());
    assert_eq!(merge(&vec![], &strings(&["a", "b"])), strings(&["a", "b"]));
    assert_eq!(merge(&vec![entry("a", 1)], &vec![]), strings(&["a"]));
}

#[test]
fn alias_of_history_is_not_offered_again() {
    let history = vec![entry("a", 3), entry("b", 2)];
    let merged = merge(&history, &strings(&["b", "a", "a", "b"]));
    assert_eq!(merged, strings(&["a", "b"]));
}

#[test]
fn merge_keeps_what_the_configuration_repeats() {
    let history = vec![entry("a", 3)];
    let config = strings(&["c", "a", "c", "d", "c"]);
    assert_eq!(merge(&history, &config), strings(&["a", "c", "c", "d", "c"]));
}

#[test]
fn deduplicated_configuration_is_offered_once() {
    let history = vec![entry("a", 3)];
    let config = dedup(&strings(&["c", "a", "c", "d", "c"]));
    assert_eq!(config, strings(&["c", "a", "d"]));
    assert_eq!(merge(&history, &config), strings(&["a", "c", "d"]));
}

#[test]
fn dedup_keeps_first_occurrences() {
    assert_eq!(dedup(&strings(&["b", "a", "b", "a", "c"])), strings(&["b", "a", "c"]));
    assert_eq!(dedup(&vec![]), Vec::<String>::new());
    assert_eq!(dedup(&strings(&["a", "A", "a "])), strings(&["a", "A", "a "]));
}

#[test]
fn membership() {
    let history = vec![entry("a", 3), entry("b", 2)];
    assert!(attempted(&history, &"b".to_string()));
    assert!(!attempted(&history, &"c".to_string()));
    assert!(listed(&strings(&["x", "y"]), &"y".to_string()));
    assert!(!listed(&strings(&["x", "y"]), &"z".to_string()));
}
