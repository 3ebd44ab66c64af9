use codexresume::data::{SessionDbOptions, ProviderVisibility, SessionRow, SortKey};
use codexresume::picker::PickerState;
use codexresume::ui::{
    calculate_metrics, column_header, details_line, format_time_label, human_time_ago,
    list_lines, pad_or_truncate, render_empty_state_line, scope_label, search_line,
    truncate_text, ListLines, SearchLine,
};

fn row() -> SessionRow {
    SessionRow {
        thread_id: "00000000-0000-0000-0000-000000000001".to_string(),
        thread_name: None,
        preview: "hello world".to_string(),
        created_at: Some(1),
        updated_at: Some(2),
        archived: false,
        provider: "openai".to_string(),
        source: "exec".to_string(),
        cwd: "/tmp/example".to_string(),
        rollout_path: "/tmp/example.jsonl".to_string(),
        git_branch: None,
    }
}

fn now() -> i64 {
    chrono::Utc::now().timestamp()
}

fn options() -> SessionDbOptions {
    SessionDbOptions {
        provider_visibility: ProviderVisibility::All,
        include_non_interactive: false,
        include_archived: false,
        filter_cwd: Some("/tmp".to_string()),
    }
}

#[test]
fn truncate_text_adds_ellipsis() {
    assert_eq!(truncate_text("abcdef", 4), "abc…");
}

#[test]
fn format_time_label_uses_updated_at_by_default() {
    let label = format_time_label(&row(), SortKey::UpdatedAt, now());
    assert!(label.contains("ago"));
}

#[test]
fn truncate_text_edge_cases() {
    assert_eq!(truncate_text("abcdef", 0), "");
    assert_eq!(truncate_text("abcd", 4), "abcd");
    assert_eq!(truncate_text("abcde", 1), "…");
    // Wide characters take two columns each.
    assert_eq!(truncate_text("日本語テキスト", 6), "日本…");
}

#[test]
fn pad_or_truncate_pads_and_cuts() {
    assert_eq!(pad_or_truncate("ab", 5), "ab   ");
    assert_eq!(pad_or_truncate("abcdefgh", 5), "abcd…");
}

#[test]
fn human_time_ago_units() {
    assert_eq!(human_time_ago(100, 100), "0 seconds ago");
    assert_eq!(human_time_ago(100, 101), "1 second ago");
    assert_eq!(human_time_ago(200, 100), "0 seconds ago");
    assert_eq!(human_time_ago(0, 59), "59 seconds ago");
    assert_eq!(human_time_ago(0, 60), "1 minute ago");
    assert_eq!(human_time_ago(0, 3599), "59 minutes ago");
    assert_eq!(human_time_ago(0, 3600), "1 hour ago");
    assert_eq!(human_time_ago(0, 86399), "23 hours ago");
    assert_eq!(human_time_ago(0, 86400), "1 day ago");
    assert_eq!(human_time_ago(0, 10 * 86400 + 5), "10 days ago");
}

#[test]
fn format_time_label_falls_back_and_dashes() {
    let mut r = row();
    r.updated_at = None;
    r.created_at = Some(0);
    assert_eq!(format_time_label(&r, SortKey::UpdatedAt, 120), "2 minutes ago");
    r.created_at = None;
    assert_eq!(format_time_label(&r, SortKey::CreatedAt, 120), "-");
}

#[test]
fn scope_label_captions() {
    assert_eq!(scope_label(&options()), "interactive only / cwd / no archived");
    let all = SessionDbOptions {
        provider_visibility: ProviderVisibility::OnlyOpenAi,
        include_non_interactive: true,
        include_archived: true,
        filter_cwd: None,
    };
    assert_eq!(scope_label(&all), "all sources / all cwd / archived");
}

#[test]
fn metrics_and_header() {
    let m = calculate_metrics(&[], 0);
    assert_eq!((m.time_width, m.provider_width, m.id_width, m.cwd_width, m.preview_width), (10, 8, 12, 12, 80));
    let mut r = row();
    r.provider = "a-very-long-provider-name".to_string();
    r.cwd = "/a/b".to_string();
    let m = calculate_metrics(&[r], 2 + 3600 * 5);
    assert_eq!(m.time_width, 11);
    assert_eq!(m.provider_width, 14);
    assert_eq!(m.cwd_width, 12);
    let h = column_header(&m);
    assert_eq!(h.time, "Time       ");
    assert_eq!(h.session_id, "Session ID  ");
    assert_eq!(h.conversation, "Conversation");
}

#[test]
fn list_and_status_lines() {
    let mut state = PickerState::new(options());
    assert_eq!(render_empty_state_line(&state), "No sessions yet");
    state.loading = true;
    assert_eq!(render_empty_state_line(&state), "Loading sessions...");
    state.query = "x".to_string();
    assert_eq!(render_empty_state_line(&state), "Searching...");
    state.loading = false;
    assert_eq!(render_empty_state_line(&state), "No results for your search");
    assert!(matches!(search_line(&state), SearchLine::Query(ref t) if t == "Search: x"));
    state.inline_error = Some("Load failed: boom".to_string());
    assert!(matches!(search_line(&state), SearchLine::Error(ref t) if t == "Load failed: boom"));
    assert_eq!(details_line(&state), None);

    let mut r = row();
    r.archived = true;
    state.query = String::new();
    state.inline_error = None;
    assert!(matches!(search_line(&state), SearchLine::Prompt));
    state.filtered_rows = vec![r.clone(), row()];
    state.loading = true;
    let m = calculate_metrics(&state.filtered_rows, 10);
    match list_lines(&state, &m, 5, 10) {
        ListLines::Rows(lines, loading) => {
            assert_eq!(lines.len(), 2);
            assert!(lines[0].selected);
            assert!(!lines[1].selected);
            assert_eq!(lines[0].preview, "[archived] hello world");
            assert_eq!(lines[0].short_id, "00000000-000");
            assert_eq!(lines[0].time, "8 seconds ago");
            assert!(loading);
        }
        ListLines::Empty(_) => panic!("rows expected"),
    }
    assert_eq!(
        details_line(&state).unwrap(),
        "ID 00000000-0000-0000-0000-000000000001    provider=openai    source=exec    branch=-    archived=true    path=/tmp/example.jsonl"
    );
}
