use codexresume::config::{
    config_path, discover_state_db_path, ensure_absolute, expand_home, explicit_sqlite_home,
    join_path, latest_state_db, parse_state_db_version, resolve_codex_home,
    resolve_configured_sqlite_home, resolve_paths_from_sources, resolve_sqlite_home,
    state_db_fallbacks, EnvPaths, PathOverrides,
};
use std::path::Path;

fn names(list: &[&str]) -> Vec<String> {
    list.iter().map(|s| s.to_string()).collect()
}

#[test]
fn discover_state_db_path_prefers_highest_version() {
    let files = names(&["state_4.sqlite", "state_7.sqlite", "state_5.sqlite"]);
    assert_eq!(discover_state_db_path("/db", &files), Some("/db/state_7.sqlite".to_string()));
}

#[test]
fn latest_state_db_ties_and_none() {
    assert_eq!(latest_state_db(&names(&["state_2.sqlite", "other", "state_2.sqlite"])), Some(0));
    assert_eq!(latest_state_db(&names(&["state.sqlite", "notes.txt"])), None);
    assert_eq!(discover_state_db_path("/db", &names(&[])), None);
}

#[test]
fn parse_state_db_version_cases() {
    assert_eq!(parse_state_db_version("state_5.sqlite"), Some(5));
    assert_eq!(parse_state_db_version("state_+12.sqlite"), Some(12));
    assert_eq!(parse_state_db_version("state_007.sqlite"), Some(7));
    assert_eq!(parse_state_db_version("state_4294967295.sqlite"), Some(u32::MAX));
    assert_eq!(parse_state_db_version("state_4294967296.sqlite"), None);
    assert_eq!(parse_state_db_version("state_.sqlite"), None);
    assert_eq!(parse_state_db_version("state_+.sqlite"), None);
    assert_eq!(parse_state_db_version("state_-1.sqlite"), None);
    assert_eq!(parse_state_db_version("state_1x.sqlite"), None);
    assert_eq!(parse_state_db_version("state.sqlite"), None);
    assert_eq!(parse_state_db_version("state_5.sqlite-wal"), None);
}

#[test]
fn join_and_expand_paths() {
    assert_eq!(join_path("/home/u", ".codex"), "/home/u/.codex");
    assert_eq!(join_path("/home/u/", ".codex"), "/home/u/.codex");
    assert_eq!(join_path("/home/u", "/abs"), "/abs");
    assert_eq!(join_path("", "rel"), "rel");
    assert_eq!(expand_home("~", "/home/u"), "/home/u");
    assert_eq!(expand_home("~/x/y", "/home/u"), "/home/u/x/y");
    assert_eq!(expand_home("~\\x", "/home/u"), "/home/u/x");
    assert_eq!(expand_home("~other", "/home/u"), "~other");
    assert_eq!(expand_home("/abs", "/home/u"), "/abs");
    assert_eq!(ensure_absolute("rel", &Some("/cwd".to_string())), "/cwd/rel");
    assert_eq!(ensure_absolute("/abs", &Some("/cwd".to_string())), "/abs");
    assert_eq!(ensure_absolute("rel", &None), "rel");
}

#[test]
fn resolve_paths_prefers_overrides_over_env_and_config() {
    let overrides = PathOverrides {
        codex_home: Some("/override-codex".to_string()),
        sqlite_home: Some("~/override-sqlite".to_string()),
    };
    let env = EnvPaths::from_values(Some("/env-codex".to_string()), Some("/env-sqlite".to_string()), "/home/u");
    assert_eq!(resolve_codex_home(&overrides, &env, "/home/u"), "/override-codex");
    assert_eq!(explicit_sqlite_home(&overrides, &env, "/home/u"), Some("/home/u/override-sqlite".to_string()));
    let none = PathOverrides::default();
    assert_eq!(resolve_codex_home(&none, &env, "/home/u"), "/env-codex");
    assert_eq!(explicit_sqlite_home(&none, &env, "/home/u"), Some("/env-sqlite".to_string()));
    let empty_env = EnvPaths::default();
    assert_eq!(resolve_codex_home(&none, &empty_env, "/home/u"), "/home/u/.codex");
    assert_eq!(explicit_sqlite_home(&none, &empty_env, "/home/u"), None);
    let home = "/home/u";
    let overrides = PathOverrides {
        codex_home: Some("/home/u/override-codex".to_string()),
        sqlite_home: Some("/home/u/override-sqlite".to_string()),
    };
    let env = EnvPaths {
        codex_home: Some("/home/u/.codex".to_string()),
        sqlite_home: Some("/home/u/config-sqlite".to_string()),
    };
    let config = Some("/home/u/config-sqlite".to_string());
    assert_eq!(resolve_sqlite_home(&overrides, &env, home, &config), "/home/u/override-sqlite");
    let resolved = resolve_paths_from_sources(
        &overrides,
        &env,
        home,
        &config,
        &names(&["state_5.sqlite"]),
        true,
        false,
    )
    .expect("resolve paths");
    assert_eq!(
        Path::new(&resolved.session_index_path).parent(),
        Some(Path::new("/home/u/override-codex"))
    );
    assert_eq!(
        Path::new(&resolved.state_db_path).parent(),
        Some(Path::new("/home/u/override-sqlite"))
    );
}

#[test]
fn resolve_paths_uses_config_sqlite_home_when_present() {
    assert_eq!(
        resolve_configured_sqlite_home(&Some("~/sqlite".to_string()), "/home/u/.codex", "/home/u"),
        "/home/u/sqlite"
    );
    assert_eq!(resolve_configured_sqlite_home(&None, "/home/u/.codex", "/home/u"), "/home/u/.codex");
    assert_eq!(config_path("/home/u/.codex"), "/home/u/.codex/config.toml");
    assert_eq!(
        state_db_fallbacks("/s"),
        vec!["/s/state_5.sqlite".to_string(), "/s/state.sqlite".to_string()]
    );
    let home = "/home/u";
    let none = PathOverrides::default();
    let no_env = EnvPaths::default();
    let config = Some("/home/u/sqlite".to_string());
    assert_eq!(resolve_sqlite_home(&none, &no_env, home, &config), "/home/u/sqlite");
    assert_eq!(resolve_sqlite_home(&none, &no_env, home, &None), "/home/u/.codex");
    let resolved = resolve_paths_from_sources(
        &none,
        &no_env,
        home,
        &config,
        &names(&["state_5.sqlite"]),
        true,
        false,
    )
    .expect("resolve paths");
    assert_eq!(
        Path::new(&resolved.session_index_path).parent(),
        Some(Path::new("/home/u/.codex"))
    );
    assert_eq!(
        Path::new(&resolved.state_db_path).parent(),
        Some(Path::new("/home/u/sqlite"))
    );
    assert_eq!(resolved.state_db_path, "/home/u/sqlite/state_5.sqlite");
}

#[test]
fn resolve_paths_falls_back_to_default_then_legacy_database() {
    let none = PathOverrides::default();
    let no_env = EnvPaths::default();
    let listed = names(&["notes.txt", "state.sqlite"]);
    let default = resolve_paths_from_sources(&none, &no_env, "/h", &None, &listed, true, true)
        .expect("default database");
    assert_eq!(default.state_db_path, "/h/.codex/state_5.sqlite");
    let legacy = resolve_paths_from_sources(&none, &no_env, "/h", &None, &listed, false, true)
        .expect("legacy database");
    assert_eq!(legacy.state_db_path, "/h/.codex/state.sqlite");
    assert!(resolve_paths_from_sources(&none, &no_env, "/h", &None, &listed, false, false).is_none());
    let numbered = resolve_paths_from_sources(
        &none,
        &no_env,
        "/h",
        &Some("~/db".to_string()),
        &names(&["state_9.sqlite", "state_10.sqlite"]),
        true,
        true,
    )
    .expect("numbered database");
    assert_eq!(numbered.state_db_path, "/h/db/state_10.sqlite");
    assert_eq!(numbered.session_index_path, "/h/.codex/session_index.jsonl");
}

#[test]
fn state_db_version_reads_back_written_versions() {
    for n in [0u32, 5, 42, 1000, u32::MAX] {
        assert_eq!(parse_state_db_version(&format!("state_{n}.sqlite")), Some(n));
    }
    assert_eq!(parse_state_db_version("state_x.sqlite"), None);
}
