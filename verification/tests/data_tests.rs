use codexresume::data::{
    epoch_opt, filter_rows, normalize_provider_label, normalize_source_label, row_to_session,
    session_cmp, session_page, apply_thread_names, ProviderVisibility, SessionDbOptions,
    SessionRow, SortKey, ThreadColumns, MAX_TIMESTAMP, MIN_TIMESTAMP, PAGE_SIZE,
};
use codexresume::query::{
    last_thread_id_query_sql, page_query_sql, threads_where_clause, SchemaError, ThreadSchema,
};
use std::cmp::Ordering;

fn session(id: &str, provider: &str, preview: &str) -> SessionRow {
    SessionRow {
        thread_id: id.to_string(),
        thread_name: None,
        preview: preview.to_string(),
        created_at: Some(10),
        updated_at: Some(20),
        archived: false,
        provider: provider.to_string(),
        source: "exec".to_string(),
        cwd: "/tmp/example".to_string(),
        rollout_path: "/tmp/example.jsonl".to_string(),
        git_branch: None,
    }
}

fn schema(columns: &[&str]) -> ThreadSchema {
    ThreadSchema { columns: columns.iter().map(|column| (*column).to_string()).collect() }
}

const OPENAI_PROVIDER_ID: &str = "openai";

#[test]
fn filter_rows_matches_provider_and_preview() {
    let rows = vec![
        session("thread-1", "openai", "fix tests"),
        session("thread-2", "apirouter", "audit contract"),
    ];

    let filtered = filter_rows(&rows, "api", SortKey::UpdatedAt);
    assert_eq!(filtered.len(), 1);
    assert_eq!(filtered[0].provider, "apirouter");

    let filtered = filter_rows(&rows, "fix", SortKey::UpdatedAt);
    assert_eq!(filtered.len(), 1);
    assert_eq!(filtered[0].preview, "fix tests");
}

#[test]
fn page_query_sql_filters_only_openai_provider_when_requested() {
    let options = SessionDbOptions {
        provider_visibility: ProviderVisibility::OnlyOpenAi,
        include_non_interactive: true,
        include_archived: true,
        filter_cwd: None,
    };
    let sql = page_query_sql(
        &schema(&["id", "created_at", "updated_at", "model_provider"]),
        &options,
        SortKey::UpdatedAt,
    )
    .sql;
    assert_eq!(
        sql.contains(&format!("WHERE model_provider = '{OPENAI_PROVIDER_ID}'")),
        true
    );

    let options = SessionDbOptions {
        provider_visibility: ProviderVisibility::All,
        include_non_interactive: true,
        include_archived: true,
        filter_cwd: None,
    };
    let sql = page_query_sql(&schema(&["id", "created_at"]), &options, SortKey::CreatedAt).sql;
    assert_eq!(sql.contains("WHERE model_provider ="), false);
    assert_eq!(sql.contains("ORDER BY created_at DESC, id DESC"), true);
}

#[test]
fn page_query_sql_falls_back_when_optional_columns_are_missing() {
    let options = SessionDbOptions {
        provider_visibility: ProviderVisibility::OnlyOpenAi,
        include_non_interactive: true,
        include_archived: true,
        filter_cwd: None,
    };
    let sql = page_query_sql(&schema(&["id"]), &options, SortKey::UpdatedAt).sql;

    assert_eq!(sql.contains("NULL AS created_at"), true);
    assert_eq!(sql.contains("NULL AS updated_at"), true);
    assert_eq!(sql.contains("'' AS model_provider"), true);
    assert_eq!(sql.contains("ORDER BY id DESC, id DESC"), true);
    assert_eq!(sql.contains("WHERE model_provider ="), false);
}

#[test]
fn page_query_sql_full_text_with_all_filters() {
    let options = SessionDbOptions {
        provider_visibility: ProviderVisibility::OnlyOpenAi,
        include_non_interactive: false,
        include_archived: false,
        filter_cwd: Some("/work".to_string()),
    };
    let all = schema(&[
        "id", "rollout_path", "created_at", "updated_at", "archived", "source",
        "model_provider", "cwd", "title", "first_user_message", "git_branch",
    ]);
    let query = page_query_sql(&all, &options, SortKey::UpdatedAt);
    let expected = "\nSELECT\n    id,\n    rollout_path,\n    created_at,\n    updated_at,\n    archived,\n    source,\n    model_provider,\n    cwd,\n    title,\n    first_user_message,\n    git_branch\nFROM threads\nWHERE model_provider = 'openai' AND archived = 0 AND source IN ('cli', 'vscode') AND cwd = ?\nORDER BY updated_at DESC, id DESC\nLIMIT ? OFFSET ?\n        ";
    assert_eq!(query.sql, expected);
    assert_eq!(query.cwd_bind, Some("/work".to_string()));
}

#[test]
fn where_clause_is_empty_without_filters() {
    let options = SessionDbOptions {
        provider_visibility: ProviderVisibility::All,
        include_non_interactive: true,
        include_archived: true,
        filter_cwd: Some("/work".to_string()),
    };
    let clause = threads_where_clause(&schema(&["id"]), &options);
    assert_eq!(clause.clause, "");
    assert_eq!(clause.cwd_bind, None);
}

#[test]
fn last_thread_query_prefers_updated_then_created_then_id() {
    let options = SessionDbOptions {
        provider_visibility: ProviderVisibility::All,
        include_non_interactive: false,
        include_archived: true,
        filter_cwd: None,
    };
    let q = last_thread_id_query_sql(&schema(&["id", "created_at", "source"]), &options);
    assert_eq!(
        q.sql,
        "\nSELECT id\nFROM threads\nWHERE source IN ('cli', 'vscode')\nORDER BY created_at DESC, id DESC\nLIMIT 1\n            "
    );
    let q = last_thread_id_query_sql(&schema(&["id"]), &options);
    assert!(q.sql.contains("ORDER BY id DESC, id DESC"));
    let q = last_thread_id_query_sql(&schema(&["id", "updated_at", "created_at"]), &options);
    assert!(q.sql.contains("ORDER BY updated_at DESC, id DESC"));
}

#[test]
fn schema_from_columns_reports_missing_table_and_id() {
    assert_eq!(ThreadSchema::from_columns(vec![]).err(), Some(SchemaError::MissingThreadsTable));
    assert_eq!(
        ThreadSchema::from_columns(vec!["title".to_string()]).err(),
        Some(SchemaError::MissingIdColumn)
    );
    let ok = ThreadSchema::from_columns(vec!["id".to_string(), "cwd".to_string()]).unwrap();
    assert!(ok.has("cwd"));
    assert!(!ok.has("title"));
    assert_eq!(ok.select_expr("title", "''"), "'' AS title");
    assert_eq!(ok.select_expr("cwd", "''"), "cwd");
    assert_eq!(SchemaError::MissingIdColumn.message(), "threads table does not contain an id column");
}

#[test]
fn sort_key_toggle_and_labels() {
    assert_eq!(SortKey::UpdatedAt.toggle(), SortKey::CreatedAt);
    assert_eq!(SortKey::CreatedAt.toggle(), SortKey::UpdatedAt);
    assert_eq!(SortKey::UpdatedAt.toggle().toggle(), SortKey::UpdatedAt);
    assert_eq!(SortKey::UpdatedAt.label(), "Updated at");
    assert_eq!(SortKey::CreatedAt.label(), "Created at");
    assert_eq!(ProviderVisibility::All.label(), "all");
    assert_eq!(ProviderVisibility::OnlyOpenAi.label(), "only openai");
}

#[test]
fn provider_and_source_labels_are_normalized() {
    assert_eq!(normalize_provider_label("  openai \n"), "openai");
    assert_eq!(normalize_provider_label("   "), "unknown");
    assert_eq!(normalize_source_label("cli"), "cli");
    assert_eq!(normalize_source_label("exec"), "exec");
    assert_eq!(normalize_source_label("vscode"), "vscode");
    assert_eq!(normalize_source_label("mcp"), "app-server");
    assert_eq!(normalize_source_label("{\"subagent\":{\"review\":1}}"), "subagent");
    assert_eq!(normalize_source_label("{\"other\":1}"), "{\"other\":1}");
    assert_eq!(normalize_source_label(" \t"), "unknown");
    assert_eq!(normalize_source_label("custom"), "custom");
}

#[test]
fn epoch_range_matches_chrono() {
    assert_eq!(epoch_opt(None), None);
    assert_eq!(epoch_opt(Some(0)), Some(0));
    assert_eq!(epoch_opt(Some(MIN_TIMESTAMP)), Some(MIN_TIMESTAMP));
    assert_eq!(epoch_opt(Some(MAX_TIMESTAMP)), Some(MAX_TIMESTAMP));
    assert_eq!(epoch_opt(Some(MIN_TIMESTAMP - 1)), None);
    assert_eq!(epoch_opt(Some(MAX_TIMESTAMP + 1)), None);
    assert!(chrono::DateTime::from_timestamp(MAX_TIMESTAMP, 0).is_some());
    assert!(chrono::DateTime::from_timestamp(MIN_TIMESTAMP - 1, 0).is_none());
}

#[test]
fn session_cmp_orders_newest_first_then_by_id() {
    let mut a = session("b", "p", "x");
    let mut b = session("a", "p", "x");
    a.updated_at = Some(30);
    b.updated_at = Some(20);
    assert_eq!(session_cmp(SortKey::UpdatedAt, &a, &b), Ordering::Less);
    assert_eq!(session_cmp(SortKey::UpdatedAt, &b, &a), Ordering::Greater);
    b.updated_at = Some(30);
    assert_eq!(session_cmp(SortKey::UpdatedAt, &b, &a), Ordering::Less);
    assert_eq!(session_cmp(SortKey::UpdatedAt, &a, &a), Ordering::Equal);
    // Sessions without an update time fall back to their creation time.
    a.updated_at = None;
    a.created_at = Some(40);
    assert_eq!(session_cmp(SortKey::UpdatedAt, &a, &b), Ordering::Less);
    // A missing time sorts after any present one.
    a.created_at = None;
    assert_eq!(session_cmp(SortKey::CreatedAt, &a, &b), Ordering::Greater);
}

#[test]
fn filter_rows_sorts_stably_and_handles_queries() {
    let mut rows = vec![
        session("c", "openai", "third"),
        session("a", "openai", "first"),
        session("b", "openai", "second"),
    ];
    rows[0].updated_at = Some(50);
    rows[2].git_branch = Some("Feature-X".to_string());
    rows[1].archived = true;
    let all = filter_rows(&rows, "   ", SortKey::UpdatedAt);
    let ids: Vec<&str> = all.iter().map(|r| r.thread_id.as_str()).collect();
    assert_eq!(ids, vec!["c", "a", "b"]);
    let by_created = filter_rows(&rows, "", SortKey::CreatedAt);
    let ids: Vec<&str> = by_created.iter().map(|r| r.thread_id.as_str()).collect();
    assert_eq!(ids, vec!["a", "b", "c"]);
    let branch = filter_rows(&rows, " feature-x ", SortKey::UpdatedAt);
    assert_eq!(branch.len(), 1);
    assert_eq!(branch[0].thread_id, "b");
    let archived = filter_rows(&rows, "ARCHIVED", SortKey::UpdatedAt);
    assert_eq!(archived.len(), 1);
    assert_eq!(archived[0].thread_id, "a");
    assert!(filter_rows(&rows, "nothing-matches", SortKey::UpdatedAt).is_empty());
    let by_cwd = filter_rows(&rows, "/TMP/EXAMPLE", SortKey::UpdatedAt);
    assert_eq!(by_cwd.len(), 3);
    let padded = filter_rows(&rows, "\t  second \n", SortKey::UpdatedAt);
    let plain = filter_rows(&rows, "second", SortKey::UpdatedAt);
    let ids = |v: &[SessionRow]| v.iter().map(|r| r.thread_id.clone()).collect::<Vec<_>>();
    assert_eq!(ids(&padded), ids(&plain));
    assert_eq!(ids(&plain), vec!["b".to_string()]);
}

#[test]
fn session_row_accessors() {
    let mut row = session("0123456789abcdef", "openai", "hello");
    assert_eq!(row.display_preview(), "hello");
    row.thread_name = Some("named".to_string());
    assert_eq!(row.display_preview(), "named");
    assert_eq!(row.short_id(), "0123456789ab");
    assert_eq!(session("short", "p", "x").short_id(), "short");
    assert_eq!(row.source_label(), "exec");
}

#[test]
fn row_to_session_picks_preview_and_labels() {
    let columns = ThreadColumns {
        id: "t1".to_string(),
        title: "A title".to_string(),
        first_user_message: "   ".to_string(),
        created_at: Some(5),
        updated_at: Some(i64::MAX),
        archived: 1,
        model_provider: "".to_string(),
        source: "mcp".to_string(),
        cwd: "/w".to_string(),
        rollout_path: "/w/r.jsonl".to_string(),
        git_branch: Some("main".to_string()),
    };
    let row = row_to_session(columns);
    assert_eq!(row.preview, "A title");
    assert_eq!(row.created_at, Some(5));
    assert_eq!(row.updated_at, None);
    assert!(row.archived);
    assert_eq!(row.provider, "unknown");
    assert_eq!(row.source, "app-server");
    let empty = row_to_session(ThreadColumns {
        id: "t2".to_string(),
        title: "".to_string(),
        first_user_message: "".to_string(),
        created_at: None,
        updated_at: None,
        archived: 0,
        model_provider: "openai".to_string(),
        source: "cli".to_string(),
        cwd: "".to_string(),
        rollout_path: "".to_string(),
        git_branch: None,
    });
    assert_eq!(empty.preview, "(no message yet)");
    assert!(!empty.archived);
}

#[test]
fn pages_and_names() {
    let rows: Vec<SessionRow> = (0..PAGE_SIZE).map(|i| session(&format!("t{i}"), "p", "x")).collect();
    assert!(session_page(rows).has_more);
    let page = session_page(vec![session("a", "p", "x"), session("b", "p", "x")]);
    assert!(!page.has_more);
    let names = vec![("b".to_string(), "Bee".to_string())];
    let named = apply_thread_names(&page.rows, &names);
    assert_eq!(named[0].thread_name, None);
    assert_eq!(named[1].thread_name, Some("Bee".to_string()));
}
