use trident::app::{AppState, Message};
use trident::host_list::HostListState;
use trident::search_input::SearchInputState;
use trident::parser::HostEntry;

#[test]
fn test_new_app_state() {
    let app = AppState::new();

    assert!(app.hosts.is_empty());
    assert!(app.search_query.is_empty());
    assert!(app.filtered_hosts.is_empty());
    assert_eq!(app.selected_index, 0);
    assert!(!app.is_loading);
    assert!(app.error_message.is_none());
}

#[test]
fn test_update_search_query() {
    let mut app = AppState::new();
    app.hosts = vec![
        HostEntry::new("production".to_string(), "ssh production".to_string()),
        HostEntry::new("staging".to_string(), "ssh staging".to_string()),
    ];

    app.update(Message::UpdateSearchQuery("prod".to_string()));

    assert_eq!(app.search_query, "prod");
    assert_eq!(app.filtered_hosts.len(), 1);
    assert_eq!(app.filtered_hosts[0].name, "production");
    assert_eq!(app.selected_index, 0);
}

#[test]
fn test_select_navigation() {
    let mut app = AppState::new();
    app.filtered_hosts = vec![
        HostEntry::new("host1".to_string(), "ssh host1".to_string()),
        HostEntry::new("host2".to_string(), "ssh host2".to_string()),
        HostEntry::new("host3".to_string(), "ssh host3".to_string()),
    ];

    assert_eq!(app.selected_index, 0);

    app.update(Message::SelectNext);
    assert_eq!(app.selected_index, 1);

    app.update(Message::SelectNext);
    assert_eq!(app.selected_index, 2);

    // Should wrap around
    app.update(Message::SelectNext);
    assert_eq!(app.selected_index, 0);

    // Test previous
    app.update(Message::SelectPrevious);
    assert_eq!(app.selected_index, 2);
}

#[test]
fn test_get_selected_host() {
    let mut app = AppState::new();
    app.filtered_hosts = vec![
        HostEntry::new("host1".to_string(), "ssh host1".to_string()),
        HostEntry::new("host2".to_string(), "ssh host2".to_string()),
    ];

    assert_eq!(app.get_selected_host().unwrap().name, "host1");

    app.selected_index = 1;
    assert_eq!(app.get_selected_host().unwrap().name, "host2");

    app.selected_index = 99;
    assert!(app.get_selected_host().is_none());
}

#[test]
fn test_has_hosts() {
    let mut app = AppState::new();
    assert!(!app.has_hosts());

    app.filtered_hosts = vec![HostEntry::new("host1".to_string(), "ssh host1".to_string())];
    assert!(app.has_hosts());
}

#[test]
fn test_host_list_state_operations() {
    let mut state = HostListState::new(vec![]);

    // Test empty state
    assert!(state.is_empty());
    assert!(state.get_selected_host().is_none());

    // Test with hosts
    let hosts = vec![
        HostEntry::new("host1".to_string(), "ssh host1".to_string()),
        HostEntry::new("host2".to_string(), "ssh host2".to_string()),
    ];

    state.set_hosts(hosts);
    assert!(!state.is_empty());
    assert_eq!(state.get_selected_host().unwrap().name, "host1");

    // Test selection
    state.select_next();
    assert_eq!(state.get_selected_host().unwrap().name, "host2");

    state.select_previous();
    assert_eq!(state.get_selected_host().unwrap().name, "host1");
}

#[test]
fn test_search_input_state_operations() {
    let mut state = SearchInputState::new("Test".to_string());

    // Test input handling
    state.handle_input("hello");
    assert_eq!(state.query, "hello");

    // Test backspace
    state.handle_backspace();
    assert_eq!(state.query, "hell");

    // Test suggestion
    state.set_suggestion(Some("hello world".to_string()));
    assert_eq!(state.suggestion, Some("hello world".to_string()));

    // Test accepting suggestion
    state.accept_suggestion();
    assert_eq!(state.query, "hello world");
    assert!(state.suggestion.is_none());

    // Test clear
    state.clear();
    assert!(state.query.is_empty());
    assert!(state.suggestion.is_none());
}

#[test]
fn test_apply_loaded_hosts_ends_loading() {
    let mut app = AppState::new();
    app.update(Message::RefreshHosts);
    assert!(app.is_loading);

    app.apply_loaded_hosts(vec![HostEntry::new("h1".to_string(), "ssh h1".to_string())]);
    assert!(!app.is_loading);
    assert!(app.error_message.is_none());
    assert_eq!(app.hosts.len(), 1);
    assert_eq!(app.filtered_hosts.len(), 1);
}

#[test]
fn test_apply_load_error_shows_message() {
    let mut app = AppState::new();
    app.update(Message::RefreshHosts);
    app.apply_load_error("boom".to_string());
    assert!(!app.is_loading);
    assert_eq!(app.error_message, Some("boom".to_string()));

    app.update(Message::ClearError);
    assert!(app.error_message.is_none());

    app.update(Message::ShowError("again".to_string()));
    assert_eq!(app.error_message, Some("again".to_string()));
}

#[test]
fn test_launch_action_carries_substituted_args() {
    let mut app = AppState::new();
    app.config.terminal.program = "/bin/term".to_string();
    app.config.terminal.args = vec!["-e".to_string(), "{ssh_command}".to_string()];
    app.config.ssh.ssh_binary = "/usr/bin/ssh".to_string();
    app.filtered_hosts = vec![HostEntry::new("myhost".to_string(), "ssh myhost".to_string())];

    match app.update(Message::LaunchSelectedHost) {
        trident::app::AppAction::Launch { program, args } => {
            assert_eq!(program, "/bin/term");
            assert_eq!(args, vec!["-e".to_string(), "/usr/bin/ssh myhost".to_string()]);
        }
        _ => panic!("expected a launch action"),
    }
}

#[test]
fn test_host_list_selection_wraps_within_first_eight() {
    let hosts: Vec<HostEntry> = (0..12)
        .map(|i| HostEntry::new(format!("h{i}"), format!("ssh h{i}")))
        .collect();
    let mut state = HostListState::new(hosts);
    for _ in 0..8 {
        state.select_next();
    }
    // Eight steps over eight visible rows come back to the top.
    assert_eq!(state.selected_index, 0);
    state.select_previous();
    assert_eq!(state.selected_index, 7);
}
