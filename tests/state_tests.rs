use kube_rm::{handle_event, handle_node_command, handle_pod_command};
use kube_rm::{
    AppState, Command, NodeRecord, PodRecord, QuantityEntry, ResourceRequirements, SearchConfig,
    ViewMode, MAX_WORD_BYTES, NO_FILTER,
};

fn table(data_rows: usize) -> Vec<Vec<String>> {
    let mut rows = vec![vec!["Node Name".to_string()]];
    for i in 0..data_rows {
        rows.push(vec![format!("node-{}", i)]);
    }
    rows.push(vec!["TOTAL".to_string()]);
    rows
}

fn state_with(data_rows: usize, height: usize) -> AppState {
    let mut s = AppState::new();
    s.set_rows(table(data_rows));
    s.set_visible_height(height);
    s
}

#[test]
fn new_state_starts_on_nodes_without_filter() {
    let s = AppState::new();
    assert_eq!(s.view_mode, ViewMode::Node);
    assert_eq!(s.sort_config.column, 0);
    assert_eq!(s.search_config.column, NO_FILTER);
    assert_eq!(s.search_config.get_word(), "");
    assert_eq!(s.selected_row, 0);
    assert!(s.rows.is_empty());
}

#[test]
fn switching_view_resets_selection_scroll_sort_and_filter() {
    let mut s = state_with(10, 3);
    s.selected_row = 5;
    s.scroll_offset = 4;
    s.sort_config.column = 3;
    s.search_config = SearchConfig::new(0, "default");
    assert!(handle_event(Command::NextView, &mut s));
    assert_eq!(s.view_mode, ViewMode::Pod);
    assert_eq!(s.selected_row, 0);
    assert_eq!(s.scroll_offset, 0);
    assert_eq!(s.sort_config.column, 0);
    assert_eq!(s.search_config.column, NO_FILTER);
    assert_eq!(s.search_config.get_word(), "");
    assert!(s.is_loading);
    handle_event(Command::NextView, &mut s);
    assert_eq!(s.view_mode, ViewMode::Namespace);
    handle_event(Command::NextView, &mut s);
    assert_eq!(s.view_mode, ViewMode::Node);
}

#[test]
fn toggle_view_mode_cycles() {
    let mut s = AppState::new();
    s.toggle_view_mode();
    assert_eq!(s.view_mode, ViewMode::Pod);
    s.toggle_view_mode();
    assert_eq!(s.view_mode, ViewMode::Namespace);
    s.toggle_view_mode();
    assert_eq!(s.view_mode, ViewMode::Node);
}

#[test]
fn quit_stops_and_changes_nothing() {
    let mut s = state_with(3, 2);
    assert!(!handle_event(Command::Quit, &mut s));
    assert!(!s.is_loading);
}

#[test]
fn moving_down_scrolls_one_row_at_a_time_and_stops_at_the_end() {
    let mut s = state_with(5, 2);
    handle_event(Command::Down, &mut s);
    assert_eq!((s.selected_row, s.scroll_offset), (1, 0));
    handle_event(Command::Down, &mut s);
    assert_eq!((s.selected_row, s.scroll_offset), (2, 1));
    handle_event(Command::Down, &mut s);
    handle_event(Command::Down, &mut s);
    assert_eq!((s.selected_row, s.scroll_offset), (4, 3));
    handle_event(Command::Down, &mut s);
    assert_eq!((s.selected_row, s.scroll_offset), (4, 3));
}

#[test]
fn moving_up_scrolls_back_and_stops_at_the_top() {
    let mut s = state_with(5, 2);
    s.selected_row = 2;
    s.scroll_offset = 2;
    handle_event(Command::Up, &mut s);
    assert_eq!((s.selected_row, s.scroll_offset), (1, 1));
    handle_event(Command::Up, &mut s);
    handle_event(Command::Up, &mut s);
    assert_eq!((s.selected_row, s.scroll_offset), (0, 0));
}

#[test]
fn down_with_no_data_rows_does_nothing() {
    let mut s = AppState::new();
    handle_event(Command::Down, &mut s);
    handle_event(Command::PageDown, &mut s);
    assert_eq!((s.selected_row, s.scroll_offset), (0, 0));
    s.set_rows(table(0));
    handle_event(Command::Down, &mut s);
    assert_eq!(s.selected_row, 0);
}

#[test]
fn paging_moves_by_the_window_height_within_bounds() {
    let mut s = state_with(10, 4);
    handle_event(Command::PageDown, &mut s);
    assert_eq!((s.selected_row, s.scroll_offset), (4, 4));
    handle_event(Command::PageDown, &mut s);
    handle_event(Command::PageDown, &mut s);
    assert_eq!((s.selected_row, s.scroll_offset), (9, 9));
    handle_event(Command::PageUp, &mut s);
    assert_eq!((s.selected_row, s.scroll_offset), (5, 5));
    handle_event(Command::PageUp, &mut s);
    handle_event(Command::PageUp, &mut s);
    assert_eq!((s.selected_row, s.scroll_offset), (0, 0));
}

#[test]
fn sort_column_is_clamped_per_view() {
    let mut s = AppState::new();
    for _ in 0..10 {
        handle_event(Command::SortRight, &mut s);
    }
    assert_eq!(s.sort_config.column, 6);
    for _ in 0..10 {
        handle_event(Command::SortLeft, &mut s);
    }
    assert_eq!(s.sort_config.column, 0);
    handle_event(Command::NextView, &mut s);
    for _ in 0..10 {
        handle_event(Command::SortRight, &mut s);
    }
    assert_eq!(s.sort_config.column, 7);
    handle_event(Command::NextView, &mut s);
    for _ in 0..10 {
        handle_event(Command::SortRight, &mut s);
    }
    assert_eq!(s.sort_config.column, 4);
}

#[test]
fn refresh_and_clear_filter() {
    let mut s = state_with(5, 2);
    s.selected_row = 3;
    s.scroll_offset = 2;
    handle_event(Command::Refresh, &mut s);
    assert!(s.is_loading);
    assert_eq!(s.selected_row, 3);
    s.search_config = SearchConfig::new(3, "n1");
    handle_event(Command::ClearFilter, &mut s);
    assert_eq!(s.search_config.column, NO_FILTER);
    assert_eq!(s.search_config.get_word(), "");
    assert_eq!((s.selected_row, s.scroll_offset), (0, 0));
}

#[test]
fn new_rows_keep_the_selection_when_it_still_exists() {
    let mut s = state_with(10, 3);
    s.selected_row = 8;
    s.scroll_offset = 6;
    s.set_rows(table(20));
    assert_eq!((s.selected_row, s.scroll_offset), (8, 6));
    s.set_rows(table(4));
    assert_eq!((s.selected_row, s.scroll_offset), (3, 3));
    assert!(!s.is_loading);
}

#[test]
fn smaller_window_scrolls_to_the_selection() {
    let mut s = state_with(10, 8);
    s.selected_row = 7;
    s.set_visible_height(3);
    assert_eq!(s.scroll_offset, 5);
}

#[test]
fn visible_range_skips_header_and_total() {
    let mut s = state_with(10, 3);
    assert_eq!(s.visible_range(), (1, 4));
    s.scroll_offset = 8;
    assert_eq!(s.visible_range(), (9, 11));
    assert_eq!(AppState::new().visible_range(), (0, 0));
}

#[test]
fn column_widths_shrink_evenly_on_narrow_terminals() {
    let s = AppState::new();
    assert_eq!(s.column_widths(200), vec![20, 15, 15, 15, 15, 15, 15]);
    assert_eq!(s.column_widths(80), vec![15, 10, 10, 10, 10, 10, 10]);
    assert_eq!(s.column_widths(0), vec![20, 15, 15, 15, 15, 15, 15]);
}

fn entry(resource: &str, quantity: &str) -> QuantityEntry {
    QuantityEntry { resource: resource.to_string(), quantity: quantity.to_string() }
}

fn pod(name: &str, node: &str) -> PodRecord {
    PodRecord {
        namespace: Some("default".to_string()),
        name: name.to_string(),
        phase: "Running".to_string(),
        node_name: Some(node.to_string()),
        containers: vec![ResourceRequirements {
            requests: Some(vec![entry("cpu", "100m")]),
            limits: None,
        }],
    }
}

#[test]
fn drill_down_from_a_node_filters_pods_on_that_node() {
    let nodes = vec![
        NodeRecord { name: "worker-1".to_string(), allocatable: None },
        NodeRecord { name: "worker-2".to_string(), allocatable: None },
    ];
    let pods = vec![pod("a", "worker-1"), pod("b", "worker-2"), pod("c", "worker-2"), pod("d", "worker-22")];
    let mut s = AppState::new();
    s.set_rows(handle_node_command(&nodes, &pods, Some(s.sort_config)));
    s.set_visible_height(5);
    handle_event(Command::Down, &mut s);
    assert!(handle_event(Command::DrillDown, &mut s));
    assert_eq!(s.view_mode, ViewMode::Pod);
    assert_eq!(s.search_config.column, 3);
    assert_eq!(s.search_config.get_word(), "worker-2");
    assert_eq!((s.selected_row, s.scroll_offset), (0, 0));
    assert!(s.is_loading);
    let t = handle_pod_command(&pods, Some(s.search_config.clone()), Some(s.sort_config));
    let names: Vec<&str> = t.iter().map(|r| r[1].as_str()).collect();
    assert_eq!(names, vec!["Pod Name", "b", "c", ""]);
    assert_eq!(t[3][4], "200m");
}

#[test]
fn drill_down_from_a_namespace_uses_the_namespace_column() {
    let mut s = AppState::new();
    handle_event(Command::NextView, &mut s);
    handle_event(Command::NextView, &mut s);
    s.set_rows(vec![
        vec!["Namespace".to_string()],
        vec!["kube-system".to_string()],
        vec!["TOTAL".to_string()],
    ]);
    handle_event(Command::DrillDown, &mut s);
    assert_eq!(s.view_mode, ViewMode::Pod);
    assert_eq!(s.search_config.column, 0);
    assert_eq!(s.search_config.get_word(), "kube-system");
}

#[test]
fn drill_down_does_nothing_in_pod_view_or_without_rows() {
    let mut s = AppState::new();
    handle_event(Command::DrillDown, &mut s);
    assert_eq!(s.view_mode, ViewMode::Node);
    assert!(!s.is_loading);
    handle_event(Command::NextView, &mut s);
    s.set_rows(table(3));
    handle_event(Command::DrillDown, &mut s);
    assert_eq!(s.search_config.column, NO_FILTER);
}

#[test]
fn search_word_is_capped_at_a_character_boundary() {
    let long = "x".repeat(70);
    let c = SearchConfig::new(3, &long);
    assert_eq!(c.get_word().len(), MAX_WORD_BYTES);
    let accented = format!("{}é", "x".repeat(63));
    let c = SearchConfig::new(3, &accented);
    assert_eq!(c.get_word(), "x".repeat(63));
    let mut c = SearchConfig::new(0, "a");
    c.set_word("node-7");
    assert_eq!(c.get_word(), "node-7");
    assert_eq!(c.column, 0);
}

#[test]
fn tables_asked_for_under_old_settings_are_refused() {
    let mut s = AppState::new();
    let token = s.request_token();
    assert!(s.accepts(&token));
    handle_event(Command::SortRight, &mut s);
    assert!(!s.accepts(&token));
    let fresh = s.request_token();
    handle_event(Command::NextView, &mut s);
    assert!(!s.accepts(&fresh));
    let now = s.request_token();
    s.search_config.set_word("other");
    assert!(!s.accepts(&now));
}
