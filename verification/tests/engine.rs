use hyprwin::client::{build_snapshot, WindowClient};
use hyprwin::config::Config;
use hyprwin::icon::IconTable;
use hyprwin::matching::{get_matches, State};

fn window(address: &str, initial_title: &str, title: &str, class: &str, mapped: bool) -> WindowClient {
    WindowClient {
        address: address.to_string(),
        initial_title: initial_title.to_string(),
        title: title.to_string(),
        initial_class: class.to_string(),
        class: class.to_string(),
        mapped,
    }
}

fn config(max_entries: usize, prefix: &str) -> Config {
    Config {
        max_entries,
        hyprctl_path: "hyprctl".to_string(),
        prefix: prefix.to_string(),
    }
}

fn browser_and_terminal() -> Vec<WindowClient> {
    vec![
        window("0xaa", "Firefox", "Firefox — Example", "firefox", true),
        window("0xbb", "Terminal", "Terminal", "kitty", true),
    ]
}

#[test]
fn query_fire_returns_single_firefox_match() {
    let state = State::new(config(10, ""), browser_and_terminal(), IconTable::new());
    let r = get_matches("fire", &state);
    assert_eq!(r.len(), 1);
    assert_eq!(r[0].id, Some(0));
    assert_eq!(r[0].title, "Firefox");
    assert_eq!(r[0].description.as_deref(), Some("Firefox — Example"));
    assert!(!r[0].use_pango);
}

#[test]
fn empty_query_returns_whole_snapshot_ignoring_cap() {
    let state = State::new(config(1, ""), browser_and_terminal(), IconTable::new());
    let r = get_matches("", &state);
    assert_eq!(r.len(), 2);
    assert_eq!(r[0].id, Some(0));
    assert_eq!(r[0].title, "Firefox");
    assert_eq!(r[1].id, Some(1));
    assert_eq!(r[1].title, "Terminal");
}

#[test]
fn input_without_prefix_returns_nothing() {
    let state = State::new(config(10, "win "), browser_and_terminal(), IconTable::new());
    assert!(get_matches("fire", &state).is_empty());
    assert!(get_matches("wi", &state).is_empty());
}

#[test]
fn prefix_is_stripped_before_matching() {
    let state = State::new(config(10, "win "), browser_and_terminal(), IconTable::new());
    let r = get_matches("win fire", &state);
    assert_eq!(r.len(), 1);
    assert_eq!(r[0].id, Some(0));
    let browse = get_matches("win ", &state);
    assert_eq!(browse.len(), 2);
}

#[test]
fn ranked_results_are_capped_by_max_entries() {
    let clients = vec![
        window("0x1", "abc", "abc", "a", true),
        window("0x2", "abd", "abd", "a", true),
    ];
    let state = State::new(config(1, ""), clients, IconTable::new());
    let r = get_matches("ab", &state);
    assert_eq!(r.len(), 1);
}

#[test]
fn equal_scores_keep_snapshot_order() {
    let clients = vec![
        window("0x1", "Same title", "Same title", "a", true),
        window("0x2", "Same title", "Same title", "b", true),
        window("0x3", "Same title", "Same title", "c", true),
    ];
    let state = State::new(config(10, ""), clients, IconTable::new());
    let r = get_matches("same", &state);
    assert_eq!(r.len(), 3);
    assert_eq!(r[0].id, Some(0));
    assert_eq!(r[1].id, Some(1));
    assert_eq!(r[2].id, Some(2));
}

#[test]
fn non_matching_window_is_excluded_entirely() {
    let clients = vec![
        window("0x1", "zzz", "zzz", "a", true),
        window("0x2", "query hit", "query hit", "b", true),
    ];
    let state = State::new(config(10, ""), clients, IconTable::new());
    let r = get_matches("query", &state);
    assert_eq!(r.len(), 1);
    assert_eq!(r[0].id, Some(1));
}

#[test]
fn smart_case_query_with_upper_case_is_case_sensitive() {
    let clients = vec![
        window("0x1", "fireplace", "fireplace", "a", true),
        window("0x2", "Firefox", "Firefox", "b", true),
    ];
    let state = State::new(config(10, ""), clients, IconTable::new());
    let sensitive = get_matches("Fire", &state);
    assert_eq!(sensitive.len(), 1);
    assert_eq!(sensitive[0].id, Some(1));
    let insensitive = get_matches("fire", &state);
    assert_eq!(insensitive.len(), 2);
}

#[test]
fn unmapped_windows_are_dropped_but_ids_keep_source_positions() {
    let clients = vec![
        window("0x1", "one", "one", "a", true),
        window("0x2", "two", "two", "b", false),
        window("0x3", "three", "three", "c", true),
    ];
    let snapshot = build_snapshot(clients);
    assert_eq!(snapshot.len(), 2);
    assert_eq!(snapshot[0].0, 0);
    assert_eq!(snapshot[0].1.initial_title, "one");
    assert_eq!(snapshot[1].0, 2);
    assert_eq!(snapshot[1].1.initial_title, "three");
}

#[test]
fn browse_shows_only_mapped_windows() {
    let clients = vec![
        window("0x1", "one", "one", "a", true),
        window("0x2", "two", "two", "b", false),
        window("0x3", "three", "three", "c", true),
    ];
    let state = State::new(config(10, ""), clients, IconTable::new());
    let r = get_matches("", &state);
    assert_eq!(r.len(), 2);
    assert_eq!(r[0].id, Some(0));
    assert_eq!(r[1].id, Some(2));
}

#[test]
fn empty_snapshot_yields_no_matches() {
    let state = State::new(config(10, ""), Vec::new(), IconTable::new());
    assert!(get_matches("", &state).is_empty());
    assert!(get_matches("fire", &state).is_empty());
}

#[test]
fn default_config_values() {
    let c = Config::default();
    assert_eq!(c.max_entries, 10);
    assert_eq!(c.hyprctl_path, "hyprctl");
    assert_eq!(c.prefix, "");
}
