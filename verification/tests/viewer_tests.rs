use jviewson::search::TextMatch;
use jviewson::viewer::{JviewsonApp, ReloadProbe, TreeHighlight, ViewTab};

fn s(x: &str) -> String {
    x.to_string()
}

const DOC: &str = "{\"tags\": [\"x\", \"alice\"], \"name\": \"Alice\"}";

fn pretty() -> String {
    s("{\n  \"name\": \"Alice\",\n  \"tags\": [\n    \"x\",\n    \"alice\"\n  ]\n}")
}

fn loaded_app(query: &str) -> JviewsonApp {
    let mut app = JviewsonApp::new();
    app.set_search_query(s(query));
    assert!(app.load_json_from_path(s("/tmp/doc.json"), Ok(s(DOC)), Some(10), false));
    app
}

#[test]
fn new_viewer_is_empty() {
    let app = JviewsonApp::default();
    assert_eq!(app.status_message(), "Open a JSON file to start.");
    assert_eq!(app.tab(), ViewTab::Tree);
    assert!(app.json_value().is_none());
    assert!(app.pretty_lines().is_empty());
    assert_eq!(app.search_summary(), None);
    assert!(!app.auto_reload());
}

#[test]
fn load_shows_document_and_runs_search() {
    let app = loaded_app("  ALICE ");
    assert_eq!(app.status_message(), "File loaded. 7 lines.");
    assert_eq!(app.current_file(), Some(s("/tmp/doc.json")));
    assert_eq!(app.selected_tree_path(), Some(s("$")));
    assert_eq!(app.pretty_lines().len(), 7);
    assert_eq!(app.tree_match_paths().to_vec(), vec![s("$.name"), s("$.tags[1]")]);
    assert_eq!(app.active_tree_match(), Some(0));
    assert_eq!(app.scroll_to_tree_path(), Some(s("$.name")));
    assert_eq!(
        app.text_matches().to_vec(),
        vec![TextMatch { line: 1, column: 11 }, TextMatch { line: 4, column: 5 }]
    );
    assert_eq!(app.text_match_lines().to_vec(), vec![1, 4]);
    assert_eq!(app.scroll_to_text_line(), Some(1));
    assert_eq!(
        app.search_summary(),
        Some(s("Tree 1/2 | Text 1/2 (Enter/F3 next, Shift+Enter/F3 prev)"))
    );
    assert!(app.tree_node_default_open("$"));
    assert!(app.tree_node_default_open("$.tags"));
    assert!(!app.tree_node_default_open("$.tags[0]"));
    assert_eq!(app.tree_node_highlight("$.name"), TreeHighlight::Active);
    assert_eq!(app.tree_node_highlight("$.tags[1]"), TreeHighlight::Hit);
    assert_eq!(app.tree_node_highlight("$.tags"), TreeHighlight::Plain);
    assert!(app.is_tree_node_selected("$"));
    assert!(app.is_tree_scroll_target("$.name"));
}

#[test]
fn root_preview_is_the_pretty_text() {
    let app = loaded_app("");
    assert_eq!(app.selected_tree_preview(), pretty());
    assert_eq!(app.search_summary(), None);
    assert!(app.tree_match_paths().is_empty());
}

#[test]
fn reload_message_differs() {
    let mut app = JviewsonApp::new();
    assert!(app.load_json_from_path(s("/tmp/doc.json"), Ok(s(DOC)), None, true));
    assert_eq!(app.status_message(), "File reloaded. 7 lines.");
    assert_eq!(app.pretty_lines().join("\n"), pretty());
}

#[test]
fn advance_cycles_through_tree_matches() {
    let mut app = loaded_app("alice");
    app.advance_match(false);
    assert_eq!(app.active_tree_match(), Some(1));
    assert_eq!(app.status_message(), "Tree match 2/2");
    assert_eq!(app.scroll_to_tree_path(), Some(s("$.tags[1]")));
    app.advance_match(false);
    assert_eq!(app.active_tree_match(), Some(0));
    assert_eq!(app.status_message(), "Tree match 1/2");
    app.advance_match(true);
    assert_eq!(app.active_tree_match(), Some(1));
    app.advance_match(false);
    assert_eq!(app.active_tree_match(), Some(0));
}

#[test]
fn advance_in_text_view_names_line_and_column() {
    let mut app = loaded_app("alice");
    app.set_tab(ViewTab::Text);
    app.advance_match(false);
    assert_eq!(app.active_text_match(), Some(1));
    assert_eq!(app.status_message(), "Text match 2/2 at line 5, column 6");
    assert_eq!(app.scroll_to_text_line(), Some(4));
    assert_eq!(app.current_text_match(), Some(TextMatch { line: 4, column: 5 }));
}

#[test]
fn no_match_messages() {
    let mut app = loaded_app("  nothing here ");
    assert_eq!(app.status_message(), "No matches for 'nothing here'.");
    app.advance_match(false);
    assert_eq!(app.status_message(), "No tree matches for 'nothing here'.");
    app.set_tab(ViewTab::Text);
    app.advance_match(true);
    assert_eq!(app.status_message(), "No text matches for 'nothing here'.");
    assert_eq!(
        app.search_summary(),
        Some(s("Tree 0/0 | Text 0/0 (Enter/F3 next, Shift+Enter/F3 prev)"))
    );
}

#[test]
fn rebuilding_twice_changes_nothing() {
    let mut app = loaded_app("alice");
    app.advance_match(false);
    app.rebuild_search_index();
    let first: Vec<TextMatch> = app.text_matches().to_vec();
    let status = app.status_message().to_string();
    app.rebuild_search_index();
    assert_eq!(app.text_matches().to_vec(), first);
    assert_eq!(app.status_message(), status);
    assert_eq!(app.active_tree_match(), Some(0));
}

#[test]
fn nearest_text_match_prefers_the_first_of_equals() {
    let mut app = loaded_app("alice");
    app.pick_text_line(3);
    assert_eq!(app.scroll_to_text_line(), Some(3));
    assert_eq!(app.active_text_match(), Some(1));
    app.activate_nearest_text_match(0);
    assert_eq!(app.active_text_match(), Some(0));
    app.activate_nearest_text_match(2);
    assert_eq!(app.active_text_match(), Some(0));
}

#[test]
fn failed_load_clears_but_keeps_file() {
    let mut app = loaded_app("alice");
    assert!(app.load_json_from_path(s("/tmp/doc.json"), Err(s("gone")), None, true));
    assert_eq!(app.status_message(), "Load failed.");
    assert_eq!(app.parse_error(), Some(s("Could not read file '/tmp/doc.json': gone")));
    assert_eq!(app.current_file(), Some(s("/tmp/doc.json")));
    assert!(app.json_value().is_none());
    assert!(app.pretty_lines().is_empty());
    assert!(app.tree_match_paths().is_empty());
    assert!(app.text_matches().is_empty());
    assert_eq!(app.selected_tree_path(), None);
    assert_eq!(app.selected_tree_preview(), "");
}

#[test]
fn reload_checks() {
    let mut app = loaded_app("");
    assert!(!app.auto_reload_due(1_000_000_000));
    app.set_auto_reload(true);
    assert!(!app.auto_reload_due(749_999_999));
    assert!(app.auto_reload_due(750_000_000));
    assert!(!app.reload_check(ReloadProbe::Modified(10)));
    assert!(app.reload_check(ReloadProbe::Modified(11)));
    assert!(!app.reload_check(ReloadProbe::ModifiedUnavailable));
    assert!(!app.reload_check(ReloadProbe::MetadataUnavailable));
    assert_eq!(app.status_message(), "Auto reload: file metadata unavailable.");
    app.note_auto_reloaded();
    assert_eq!(app.status_message(), "File auto-reloaded after modification.");
    let mut fresh = JviewsonApp::new();
    assert!(fresh.reload_check(ReloadProbe::Modified(-5)));
}

#[test]
fn selection_and_scroll_flags() {
    let mut app = loaded_app("alice");
    app.select_tree_node(s("$.tags"), s("[\n  \"x\"\n]"));
    assert_eq!(app.selected_tree_path(), Some(s("$.tags")));
    assert_eq!(app.selected_tree_preview(), "[\n  \"x\"\n]");
    app.finish_tree_scroll();
    assert_eq!(app.scroll_to_tree_path(), None);
    app.finish_text_scroll();
    assert_eq!(app.scroll_to_text_line(), None);
    assert_eq!(app.active_tree_path(), Some(s("$.name")));
}

#[test]
fn search_guard_reports_stalling_queries() {
    let mut app = JviewsonApp::new();
    app.set_search_query(s("é"));
    assert!(app.search_runs());
    assert!(!app.search_runs_on("café"));
    assert!(app.search_runs_on("cafe"));
    assert!(!app.load_json_from_path(s("/a.json"), Ok(s("[\"café\"]")), None, false));
    assert_eq!(app.status_message(), "Open a JSON file to start.");
    assert!(app.load_json_from_path(s("/a.json"), Ok(s("[\"cafe\"]")), None, false));
    assert_eq!(app.status_message(), "No matches for 'é'.");
}

#[test]
fn invalid_json_is_shown_as_error() {
    let mut app = JviewsonApp::new();
    assert!(app.load_json_from_path(s("/b.json"), Ok(s("{oops")), None, false));
    let why = serde_json::from_str::<serde_json::Value>("{oops").unwrap_err().to_string();
    assert_eq!(app.parse_error(), Some(format!("Invalid JSON in '/b.json': {why}")));
    assert_eq!(app.current_file(), None);
}
