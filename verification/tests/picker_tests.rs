use codexresume::data::{ProviderVisibility, SessionDbOptions, SessionPage, SessionRow, SortKey};
use codexresume::picker::{KeyCode, KeyInput, PageLoaded, PickerOutcome, PickerState, CONTROL, SHIFT};

fn row(id: &str, updated: i64) -> SessionRow {
    SessionRow {
        thread_id: id.to_string(),
        thread_name: None,
        preview: format!("preview {id}"),
        created_at: Some(1),
        updated_at: Some(updated),
        archived: false,
        provider: "openai".to_string(),
        source: "cli".to_string(),
        cwd: "/w".to_string(),
        rollout_path: "/w/r".to_string(),
        git_branch: None,
    }
}

fn state() -> PickerState {
    PickerState::new(SessionDbOptions {
        provider_visibility: ProviderVisibility::All,
        include_non_interactive: false,
        include_archived: false,
        filter_cwd: None,
    })
}

fn key(code: KeyCode) -> KeyInput {
    KeyInput { code, modifiers: 0 }
}

fn load(state: &mut PickerState, rows: Vec<SessionRow>, has_more: bool) {
    let req = state.start_initial_load().expect("first page");
    assert_eq!(req.offset, 0);
    let next = state.handle_page_loaded(PageLoaded {
        offset: req.offset,
        request_token: req.request_token,
        sort_key: req.sort_key,
        result: Ok(SessionPage { rows, has_more }),
    });
    assert!(next.is_none());
}

#[test]
fn initial_load_requests_first_page_once() {
    let mut s = state();
    let req = s.start_initial_load().unwrap();
    assert_eq!((req.offset, req.request_token, req.sort_key), (0, 0, SortKey::UpdatedAt));
    assert!(s.loading);
    assert!(s.request_next_page().is_none());
}

#[test]
fn pages_from_other_requests_are_ignored() {
    let mut s = state();
    let req = s.start_initial_load().unwrap();
    let ignored = s.handle_page_loaded(PageLoaded {
        offset: 0,
        request_token: req.request_token + 7,
        sort_key: req.sort_key,
        result: Ok(SessionPage { rows: vec![row("a", 1)], has_more: false }),
    });
    assert!(ignored.is_none());
    assert!(s.all_rows.is_empty());
    assert!(s.loading);
}

#[test]
fn navigation_keys_move_selection() {
    let mut s = state();
    load(&mut s, (0..10).map(|i| row(&format!("t{i}"), 100 - i)).collect(), false);
    assert_eq!(s.filtered_rows.len(), 10);
    assert_eq!(s.loaded_label(), "10");
    s.view_rows = 3;
    assert!(matches!(s.handle_key(key(KeyCode::Down)), PickerOutcome::Continue));
    assert_eq!(s.selected, 1);
    s.handle_key(key(KeyCode::PageDown));
    assert_eq!(s.selected, 4);
    assert_eq!(s.scroll_top, 2);
    s.handle_key(key(KeyCode::End));
    assert_eq!(s.selected, 9);
    assert_eq!(s.scroll_top, 7);
    s.handle_key(key(KeyCode::Down));
    assert_eq!(s.selected, 9);
    s.handle_key(key(KeyCode::PageUp));
    assert_eq!(s.selected, 6);
    assert_eq!(s.scroll_top, 6);
    s.handle_key(key(KeyCode::Home));
    assert_eq!((s.selected, s.scroll_top), (0, 0));
    s.handle_key(key(KeyCode::Up));
    assert_eq!(s.selected, 0);
    match s.handle_key(key(KeyCode::Enter)) {
        PickerOutcome::Submit(r) => assert_eq!(r.thread_id, "t0"),
        _ => panic!("submit expected"),
    }
}

#[test]
fn typing_filters_and_backspace_restores() {
    let mut s = state();
    load(&mut s, vec![row("alpha", 3), row("beta", 2), row("gamma", 1)], false);
    s.handle_key(KeyInput { code: KeyCode::Char('B'), modifiers: SHIFT });
    assert_eq!(s.query, "B");
    assert_eq!(s.filtered_rows.len(), 1);
    assert_eq!(s.filtered_rows[0].thread_id, "beta");
    s.handle_key(KeyInput { code: KeyCode::Char('x'), modifiers: 4 });
    assert_eq!(s.query, "B");
    s.handle_key(key(KeyCode::Backspace));
    assert_eq!(s.query, "");
    assert_eq!(s.filtered_rows.len(), 3);
}

#[test]
fn exit_keys_and_reload() {
    let mut s = state();
    assert!(matches!(s.handle_key(key(KeyCode::Esc)), PickerOutcome::Exit));
    assert!(matches!(
        s.handle_key(KeyInput { code: KeyCode::Char('c'), modifiers: CONTROL }),
        PickerOutcome::Exit
    ));
    assert!(matches!(s.handle_key(key(KeyCode::Enter)), PickerOutcome::Continue));
    assert!(matches!(s.handle_key(key(KeyCode::Tab)), PickerOutcome::Reload));
    assert_eq!(s.sort_key, SortKey::CreatedAt);
    assert!(matches!(s.handle_key(key(KeyCode::Other)), PickerOutcome::Continue));
}

#[test]
fn search_without_hits_asks_for_more_and_errors_stop_loading() {
    let mut s = state();
    let req = s.start_initial_load().unwrap();
    s.handle_key(key(KeyCode::Char('z')));
    let next = s.handle_page_loaded(PageLoaded {
        offset: req.offset,
        request_token: req.request_token,
        sort_key: req.sort_key,
        result: Ok(SessionPage { rows: vec![row("a", 1), row("b", 2)], has_more: true }),
    });
    let next = next.expect("search continues");
    assert_eq!(next.offset, 2);
    assert_eq!(s.loaded_label(), "2+");
    s.handle_page_loaded(PageLoaded {
        offset: next.offset,
        request_token: next.request_token,
        sort_key: next.sort_key,
        result: Err("disk I/O error".to_string()),
    });
    assert_eq!(s.inline_error.as_deref(), Some("Load failed: disk I/O error"));
    assert!(!s.has_more);
    assert!(!s.loading);
    assert_eq!(s.active_request_token, None);
    assert_eq!(s.next_offset, 2);
    assert_eq!(s.loaded_rows, 2);
    assert_eq!(s.all_rows.len(), 2);
    assert_eq!(s.scroll_top, 0);
    assert!(s.maybe_load_more_for_scroll().is_none());
}

#[test]
fn scrolling_near_the_end_loads_more_and_keeps_selection() {
    let mut s = state();
    load(&mut s, (0..6).map(|i| row(&format!("t{i}"), 100 - i)).collect(), true);
    s.handle_key(key(KeyCode::Down));
    let req = s.maybe_load_more_for_scroll().expect("near the end");
    assert_eq!(req.offset, 6);
    let more = s.handle_page_loaded(PageLoaded {
        offset: req.offset,
        request_token: req.request_token,
        sort_key: req.sort_key,
        result: Ok(SessionPage { rows: vec![row("newest", 1000)], has_more: false }),
    });
    assert!(more.is_none());
    assert_eq!(s.filtered_rows[0].thread_id, "newest");
    assert_eq!(s.filtered_rows[s.selected].thread_id, "t1");
    assert_eq!(s.loaded_label(), "7");
}
