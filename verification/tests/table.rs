use hyprwin::client::WindowClient;
use hyprwin::describe::description;
use hyprwin::dispatch::{focus_args, resolve_address, GRACE_PERIOD_MS};
use hyprwin::icon::{resolve_icon, IconTable};
use hyprwin::matching::{get_matches, State};
use hyprwin::config::Config;

fn window_with(
    class: &str,
    title: &str,
    initial_class: &str,
    initial_title: &str,
) -> WindowClient {
    WindowClient {
        address: "0xdead".to_string(),
        initial_title: initial_title.to_string(),
        title: title.to_string(),
        initial_class: initial_class.to_string(),
        class: class.to_string(),
        mapped: true,
    }
}

#[test]
fn mixed_case_class_resolves_icon_case_insensitively() {
    let mut table = IconTable::new();
    table.insert("firefox", "firefox-icon".to_string());
    let w = window_with("Firefox", "some page", "Firefox", "Firefox");
    assert_eq!(resolve_icon(&w, &table).as_deref(), Some("firefox-icon"));
}

#[test]
fn icon_lookup_tries_class_title_initial_class_initial_title_in_order() {
    let mut table = IconTable::new();
    table.insert("c", "icon-class".to_string());
    table.insert("t", "icon-title".to_string());
    table.insert("ic", "icon-initial-class".to_string());
    table.insert("it", "icon-initial-title".to_string());
    let w = window_with("C", "T", "IC", "IT");
    assert_eq!(resolve_icon(&w, &table).as_deref(), Some("icon-class"));

    let mut no_class = IconTable::new();
    no_class.insert("t", "icon-title".to_string());
    no_class.insert("ic", "icon-initial-class".to_string());
    no_class.insert("it", "icon-initial-title".to_string());
    assert_eq!(resolve_icon(&w, &no_class).as_deref(), Some("icon-title"));

    let mut no_title = IconTable::new();
    no_title.insert("ic", "icon-initial-class".to_string());
    no_title.insert("it", "icon-initial-title".to_string());
    assert_eq!(resolve_icon(&w, &no_title).as_deref(), Some("icon-initial-class"));

    let mut only_initial_title = IconTable::new();
    only_initial_title.insert("it", "icon-initial-title".to_string());
    assert_eq!(
        resolve_icon(&w, &only_initial_title).as_deref(),
        Some("icon-initial-title")
    );

    assert_eq!(resolve_icon(&w, &IconTable::new()), None);
}

#[test]
fn later_insert_of_same_key_replaces_earlier_icon() {
    let mut table = IconTable::new();
    table.insert("app", "old-icon".to_string());
    table.insert("App", "new-icon".to_string());
    let w = window_with("app", "app", "app", "app");
    assert_eq!(resolve_icon(&w, &table).as_deref(), Some("new-icon"));
}

#[test]
fn no_description_when_title_still_equals_initial_title() {
    let w = window_with("c", "Same", "c", "Same");
    assert_eq!(description(&w), None);
}

#[test]
fn short_changed_title_is_shown_verbatim() {
    let w = window_with("c", "Changed", "c", "Original");
    assert_eq!(description(&w).as_deref(), Some("Changed"));
}

#[test]
fn seventy_five_character_title_is_not_truncated() {
    let title = "x".repeat(75);
    let w = window_with("c", &title, "c", "Original");
    assert_eq!(description(&w).as_deref(), Some(title.as_str()));
}

#[test]
fn longer_title_is_cut_to_seventy_five_characters_plus_ellipsis() {
    let title = "x".repeat(76);
    let expected = format!("{}...", "x".repeat(75));
    let w = window_with("c", &title, "c", "Original");
    assert_eq!(description(&w).as_deref(), Some(expected.as_str()));
}

#[test]
fn query_result_carries_resolved_icon() {
    let mut table = IconTable::new();
    table.insert("kitty", "kitty-icon".to_string());
    let clients = vec![WindowClient {
        address: "0x1".to_string(),
        initial_title: "Terminal".to_string(),
        title: "Terminal".to_string(),
        initial_class: "kitty".to_string(),
        class: "Kitty".to_string(),
        mapped: true,
    }];
    let state = State::new(
        Config { max_entries: 10, hyprctl_path: "hyprctl".to_string(), prefix: String::new() },
        clients,
        table,
    );
    let r = get_matches("term", &state);
    assert_eq!(r.len(), 1);
    assert_eq!(r[0].icon.as_deref(), Some("kitty-icon"));
}

#[test]
fn resolve_address_finds_the_selected_window() {
    let clients = vec![
        WindowClient {
            address: "0xaa".to_string(),
            initial_title: "one".to_string(),
            title: "one".to_string(),
            initial_class: "a".to_string(),
            class: "a".to_string(),
            mapped: true,
        },
        WindowClient {
            address: "0xbb".to_string(),
            initial_title: "two".to_string(),
            title: "two".to_string(),
            initial_class: "b".to_string(),
            class: "b".to_string(),
            mapped: true,
        },
    ];
    let state = State::new(
        Config { max_entries: 10, hyprctl_path: "hyprctl".to_string(), prefix: String::new() },
        clients,
        IconTable::new(),
    );
    assert_eq!(resolve_address(&state, 1).as_deref(), Some("0xbb"));
    assert_eq!(resolve_address(&state, 0).as_deref(), Some("0xaa"));
    assert_eq!(resolve_address(&state, 99), None);
}

#[test]
fn focus_command_arguments_address_the_selected_window() {
    let args = focus_args("0xbb");
    assert_eq!(args.len(), 3);
    assert_eq!(args[0], "dispatch");
    assert_eq!(args[1], "focuswindow");
    assert_eq!(args[2], "address:0xbb");
}

#[test]
fn grace_period_is_150_milliseconds() {
    assert_eq!(GRACE_PERIOD_MS, 150);
}
