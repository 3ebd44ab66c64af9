//! Where the Codex home, the session index and the state database are.
//! Paths are handled as text, with `/` as the separator.
use vstd::prelude::*;
use vstd::string::*;
use crate::text::{
    append_chars, chars_of, decimal, ends_with_chars, has_prefix, has_suffix,
    lemma_decimal_digits_value, parse_u32, parsed_u32, starts_with_chars, string_of, text_is,
};

verus! {

/// The file under the Codex home that may name the SQLite home.
pub const CONFIG_TOML_FILE: &'static str = "config.toml";

/// The state database's name when no numbered one exists.
pub const DEFAULT_STATE_DB_FILE: &'static str = "state_5.sqlite";

/// The state database's name in old installations.
pub const LEGACY_STATE_DB_FILE: &'static str = "state.sqlite";

/// The session index under the Codex home.
pub const SESSION_INDEX_FILE: &'static str = "session_index.jsonl";

/// Paths given on the command line.
#[derive(Clone, Debug, Default)]
pub struct PathOverrides {
    pub codex_home: Option<String>,
    pub sqlite_home: Option<String>,
}

/// Paths given by the `CODEX_HOME` and `CODEX_SQLITE_HOME` environment variables.
#[derive(Clone, Debug, Default)]
pub struct EnvPaths {
    pub codex_home: Option<String>,
    pub sqlite_home: Option<String>,
}

/// Where the state database and the session index are.
#[derive(Clone, Debug)]
pub struct ResolvedPaths {
    pub state_db_path: String,
    pub session_index_path: String,
}

/// `p` appended to `base` as `PathBuf::join` does on Unix: an absolute `p` replaces `base`;
/// otherwise a `/` separates them unless `base` is empty or already ends with one.
pub open spec fn joined_path(base: Seq<char>, p: Seq<char>) -> Seq<char> {
    if has_prefix(p, "/"@) {
        p
    } else if base.len() == 0 || base.last() == '/' {
        base + p
    } else {
        base + "/"@ + p
    }
}

/// Joins `p` onto `base`.
pub fn join_path(base: &str, p: &str) -> (r: String)
    ensures
        r@ == joined_path(base@, p@),
{
    let b = chars_of(base);
    let q = chars_of(p);
    let slash = chars_of("/");
    proof {
        reveal_strlit("/");
    }
    if starts_with_chars(q.as_slice(), slash.as_slice()) {
        return p.to_string();
    }
    let mut out = b.clone();
    if !(b.len() == 0 || b[b.len() - 1] == '/') {
        append_chars(&mut out, slash.as_slice());
    }
    append_chars(&mut out, q.as_slice());
    string_of(out.as_slice())
}

/// A path with a leading `~` replaced by the home directory: `~` itself, and `~/…` or
/// `~\…` joined onto it; any other path unchanged.
pub open spec fn expanded_home(path: Seq<char>, home: Seq<char>) -> Seq<char> {
    if path == "~"@ {
        home
    } else if has_prefix(path, "~/"@) || has_prefix(path, "~\\"@) {
        joined_path(home, path.skip(2))
    } else {
        path
    }
}

/// Expands a leading `~` in `path` to `home_dir`.
pub fn expand_home(path: &str, home_dir: &str) -> (r: String)
    ensures
        r@ == expanded_home(path@, home_dir@),
{
    proof {
        reveal_strlit("~/");
        reveal_strlit("~\\");
    }
    let p = chars_of(path);
    if text_is(p.as_slice(), "~") {
        return home_dir.to_string();
    }
    let a = chars_of("~/");
    let b = chars_of("~\\");
    if starts_with_chars(p.as_slice(), a.as_slice()) || starts_with_chars(
        p.as_slice(),
        b.as_slice(),
    ) {
        let mut rest: Vec<char> = Vec::new();
        let mut i: usize = 2;
        while i < p.len()
            invariant
                2 <= i <= p.len(),
                rest@ == p@.subrange(2, i as int),
            decreases p.len() - i,
        {
            rest.push(p[i]);
            i += 1;
        }
        assert(rest@ == p@.skip(2));
        let rest = string_of(rest.as_slice());
        return join_path(home_dir, rest.as_str());
    }
    path.to_string()
}

/// An optional path with `~` expanded.
pub open spec fn expanded_opt(path: Option<String>, home: Seq<char>) -> Option<Seq<char>> {
    match path {
        Some(p) => Some(expanded_home(p@, home)),
        None => None,
    }
}

fn expand_opt(path: &Option<String>, home_dir: &str) -> (r: Option<String>)
    ensures
        match r {
            Some(s) => expanded_opt(*path, home_dir@) == Some(s@),
            None => path.is_none(),
        },
{
    match path {
        Some(p) => Some(expand_home(p.as_str(), home_dir)),
        None => None,
    }
}

impl EnvPaths {
    /// The paths named by the values of `CODEX_HOME` and `CODEX_SQLITE_HOME`, with `~`
    /// expanded.
    pub fn from_values(codex_home: Option<String>, sqlite_home: Option<String>, home_dir: &str) -> (r:
        EnvPaths)
        ensures
            r.codex_home is Some == codex_home is Some,
            r.sqlite_home is Some == sqlite_home is Some,
            r.codex_home matches Some(c) ==> expanded_opt(codex_home, home_dir@) == Some(c@),
            r.sqlite_home matches Some(s) ==> expanded_opt(sqlite_home, home_dir@) == Some(s@),
    {
        EnvPaths {
            codex_home: expand_opt(&codex_home, home_dir),
            sqlite_home: expand_opt(&sqlite_home, home_dir),
        }
    }
}

/// The first present path among two.
pub open spec fn first_of(a: Option<String>, b: Option<String>) -> Option<String> {
    if a is Some {
        a
    } else {
        b
    }
}

/// The Codex home: the override, else the environment's, else `~/.codex`; `~` expanded.
pub open spec fn codex_home_of(overrides: PathOverrides, env: EnvPaths, home: Seq<char>) -> Seq<char> {
    match first_of(overrides.codex_home, env.codex_home) {
        Some(p) => expanded_home(p@, home),
        None => expanded_home(joined_path(home, ".codex"@), home),
    }
}

/// Resolves the Codex home.
pub fn resolve_codex_home(overrides: &PathOverrides, env_paths: &EnvPaths, home_dir: &str) -> (r:
    String)
    ensures
        r@ == codex_home_of(*overrides, *env_paths, home_dir@),
{
    match &overrides.codex_home {
        Some(p) => expand_home(p.as_str(), home_dir),
        None => match &env_paths.codex_home {
            Some(p) => expand_home(p.as_str(), home_dir),
            None => {
                let base = join_path(home_dir, ".codex");
                expand_home(base.as_str(), home_dir)
            },
        },
    }
}

/// The SQLite home given by the override or the environment (the override first), `~`
/// expanded; `None` when neither gives one and the configuration file decides.
pub open spec fn explicit_sqlite_home_of(overrides: PathOverrides, env: EnvPaths, home: Seq<char>) -> Option<
    Seq<char>,
> {
    expanded_opt(first_of(overrides.sqlite_home, env.sqlite_home), home)
}

/// The SQLite home given by the override or the environment.
pub fn explicit_sqlite_home(overrides: &PathOverrides, env_paths: &EnvPaths, home_dir: &str) -> (r:
    Option<String>)
    ensures
        match r {
            Some(s) => explicit_sqlite_home_of(*overrides, *env_paths, home_dir@) == Some(s@),
            None => explicit_sqlite_home_of(*overrides, *env_paths, home_dir@) is None,
        },
{
    match &overrides.sqlite_home {
        Some(p) => Some(expand_home(p.as_str(), home_dir)),
        None => expand_opt(&env_paths.sqlite_home, home_dir),
    }
}

/// The SQLite home when neither override nor environment gives one: the `sqlite_home` of
/// the configuration file (`~` expanded), else the Codex home.
pub open spec fn configured_sqlite_home(config_value: Option<String>, codex_home: Seq<char>, home: Seq<
    char,
>) -> Seq<char> {
    match config_value {
        Some(p) => expanded_home(p@, home),
        None => codex_home,
    }
}

/// Resolves the SQLite home from the configuration file's `sqlite_home` value.
pub fn resolve_configured_sqlite_home(
    config_value: &Option<String>,
    codex_home: &str,
    home_dir: &str,
) -> (r: String)
    ensures
        r@ == configured_sqlite_home(*config_value, codex_home@, home_dir@),
{
    match config_value {
        Some(p) => expand_home(p.as_str(), home_dir),
        None => codex_home.to_string(),
    }
}

/// The version of a numbered state database file `state_<n>.sqlite`.
pub open spec fn state_db_version(name: Seq<char>) -> Option<u32> {
    if has_prefix(name, "state_"@) && has_suffix(name.skip(6), ".sqlite"@) {
        parsed_u32(name.subrange(6, name.len() - 7))
    } else {
        None
    }
}

/// A version written into a file name `state_<n>.sqlite` reads back as that version.
pub proof fn law_state_db_version_round_trip(n: u32)
    ensures
        state_db_version("state_"@ + decimal(n as nat) + ".sqlite"@) == Some(n),
{
    reveal_strlit("state_");
    reveal_strlit(".sqlite");
    let d = decimal(n as nat);
    let name = "state_"@ + d + ".sqlite"@;
    lemma_decimal_digits_value(n as nat);
    assert(name.take(6) == "state_"@);
    assert(name.skip(6) == d + ".sqlite"@);
    assert(name.skip(6).skip(name.skip(6).len() - 7) == ".sqlite"@);
    assert(name.subrange(6, name.len() - 7) == d);
}

/// The version in a file name `state_<n>.sqlite`, where `<n>` is what `str::parse::<u32>`
/// accepts.
pub fn parse_state_db_version(file_name: &str) -> (r: Option<u32>)
    ensures
        r == state_db_version(file_name@),
{
    proof {
        reveal_strlit("state_");
        reveal_strlit(".sqlite");
    }
    let n = chars_of(file_name);
    let pre = chars_of("state_");
    let suf = chars_of(".sqlite");
    if !starts_with_chars(n.as_slice(), pre.as_slice()) {
        return None;
    }
    let mut rest: Vec<char> = Vec::new();
    let mut i: usize = 6;
    while i < n.len()
        invariant
            6 <= i <= n.len(),
            rest@ == n@.subrange(6, i as int),
        decreases n.len() - i,
    {
        rest.push(n[i]);
        i += 1;
    }
    assert(rest@ == n@.skip(6));
    if !ends_with_chars(rest.as_slice(), suf.as_slice()) {
        return None;
    }
    let mut digits: Vec<char> = Vec::new();
    let mut j: usize = 0;
    let end = rest.len() - 7;
    while j < end
        invariant
            end == rest.len() - 7,
            j <= end,
            digits@ == rest@.take(j as int),
        decreases end - j,
    {
        digits.push(rest[j]);
        j += 1;
        assert(rest@.take(j as int) == rest@.take(j - 1 as int).push(rest@[j - 1]));
    }
    assert(digits@ == n@.subrange(6, n@.len() - 7));
    parse_u32(digits.as_slice())
}

/// The version of the `i`th file name.
pub open spec fn version_at(names: Seq<String>, i: int) -> Option<u32> {
    state_db_version(names[i]@)
}

/// The index of the numbered state database with the highest version; among equal
/// versions the first listed. `None` when no file name is numbered.
pub fn latest_state_db(names: &Vec<String>) -> (r: Option<usize>)
    ensures
        match r {
            None => forall|j: int| 0 <= j < names.len() ==> version_at(names@, j) is None,
            Some(i) => {
                &&& i < names.len()
                &&& version_at(names@, i as int) is Some
                &&& forall|j: int|
                    0 <= j < names.len() && version_at(names@, j) is Some ==> version_at(
                        names@,
                        j,
                    )->0 <= version_at(names@, i as int)->0
                &&& forall|j: int|
                    0 <= j < i && version_at(names@, j) is Some ==> version_at(names@, j)->0
                        < version_at(names@, i as int)->0
            },
        },
{
    let mut best: Option<(u32, usize)> = None;
    let mut k: usize = 0;
    while k < names.len()
        invariant
            k <= names.len(),
            match best {
                None => forall|j: int| 0 <= j < k ==> version_at(names@, j) is None,
                Some((v, i)) => {
                    &&& i < k
                    &&& version_at(names@, i as int) == Some(v)
                    &&& forall|j: int|
                        0 <= j < k && version_at(names@, j) is Some ==> version_at(names@, j)->0
                            <= v
                    &&& forall|j: int|
                        0 <= j < i && version_at(names@, j) is Some ==> version_at(names@, j)->0
                            < v
                },
            },
        decreases names.len() - k,
    {
        match parse_state_db_version(names[k].as_str()) {
            Some(v) => {
                let replace = match best {
                    Some((b, _)) => b < v,
                    None => true,
                };
                if replace {
                    best = Some((v, k));
                }
            },
            None => {},
        }
        k += 1;
    }
    match best {
        Some((_, i)) => Some(i),
        None => None,
    }
}

/// The state database under `sqlite_home`, chosen among its file names: the numbered one
/// with the highest version, joined onto `sqlite_home`.
pub fn discover_state_db_path(sqlite_home: &str, file_names: &Vec<String>) -> (r: Option<String>)
    ensures
        match latest_state_db_spec(file_names@) {
            Some(i) => r matches Some(p) && p@ == joined_path(sqlite_home@, file_names@[i]@),
            None => r is None,
        },
{
    match latest_state_db(file_names) {
        Some(i) => Some(join_path(sqlite_home, file_names[i].as_str())),
        None => None,
    }
}

/// The first index holding the highest state database version, if any.
pub open spec fn latest_state_db_spec(names: Seq<String>) -> Option<int> {
    if exists|i: int| 0 <= i < names.len() && version_at(names, i) is Some {
        Some(
            choose|i: int|
                0 <= i < names.len() && version_at(names, i) is Some && (forall|j: int|
                    0 <= j < names.len() && version_at(names, j) is Some ==> version_at(names, j)->0
                        <= version_at(names, i)->0) && (forall|j: int|
                    0 <= j < i && version_at(names, j) is Some ==> version_at(names, j)->0
                        < version_at(names, i)->0),
        )
    } else {
        None
    }
}

/// The state databases looked for, in order, when no numbered one exists.
pub fn state_db_fallbacks(sqlite_home: &str) -> (r: Vec<String>)
    ensures
        r@.len() == 2,
        r@[0]@ == joined_path(sqlite_home@, DEFAULT_STATE_DB_FILE@),
        r@[1]@ == joined_path(sqlite_home@, LEGACY_STATE_DB_FILE@),
{
    let mut r: Vec<String> = Vec::new();
    r.push(join_path(sqlite_home, DEFAULT_STATE_DB_FILE));
    r.push(join_path(sqlite_home, LEGACY_STATE_DB_FILE));
    r
}

/// The configuration file under the Codex home.
pub fn config_path(codex_home: &str) -> (r: String)
    ensures
        r@ == joined_path(codex_home@, CONFIG_TOML_FILE@),
{
    join_path(codex_home, CONFIG_TOML_FILE)
}

/// The SQLite home: the override, else the environment's (`~` expanded); else the
/// `sqlite_home` of the configuration file (`~` expanded); else the Codex home.
pub open spec fn sqlite_home_of(
    overrides: PathOverrides,
    env: EnvPaths,
    home: Seq<char>,
    config_value: Option<String>,
) -> Seq<char> {
    match explicit_sqlite_home_of(overrides, env, home) {
        Some(p) => p,
        None => configured_sqlite_home(config_value, codex_home_of(overrides, env, home), home),
    }
}

/// Resolves the SQLite home; `config_value` is the configuration file's `sqlite_home`
/// (only read when neither the override nor the environment gives one).
pub fn resolve_sqlite_home(
    overrides: &PathOverrides,
    env_paths: &EnvPaths,
    home_dir: &str,
    config_value: &Option<String>,
) -> (r: String)
    ensures
        r@ == sqlite_home_of(*overrides, *env_paths, home_dir@, *config_value),
{
    match explicit_sqlite_home(overrides, env_paths, home_dir) {
        Some(p) => p,
        None => {
            let codex_home = resolve_codex_home(overrides, env_paths, home_dir);
            resolve_configured_sqlite_home(config_value, codex_home.as_str(), home_dir)
        },
    }
}

/// The state database under `sqlite_home`: the numbered one with the highest version
/// among the file names (the first listed of equal versions); else `state_5.sqlite`
/// when it is a file; else `state.sqlite` when it is a file; else none.
pub open spec fn state_db_choice(
    sqlite_home: Seq<char>,
    names: Seq<String>,
    default_exists: bool,
    legacy_exists: bool,
) -> Option<Seq<char>> {
    match latest_state_db_spec(names) {
        Some(i) => Some(joined_path(sqlite_home, names[i]@)),
        None => if default_exists {
            Some(joined_path(sqlite_home, DEFAULT_STATE_DB_FILE@))
        } else if legacy_exists {
            Some(joined_path(sqlite_home, LEGACY_STATE_DB_FILE@))
        } else {
            None
        },
    }
}

/// The resolved paths, given what the disk holds: `config_value` is the `sqlite_home` of
/// the configuration file, `file_names` the files of the SQLite home, and
/// `default_exists` / `legacy_exists` whether `state_5.sqlite` / `state.sqlite` are files
/// there. The session index lies under the Codex home; `None` when no state database is
/// found.
pub fn resolve_paths_from_sources(
    overrides: &PathOverrides,
    env_paths: &EnvPaths,
    home_dir: &str,
    config_value: &Option<String>,
    file_names: &Vec<String>,
    default_exists: bool,
    legacy_exists: bool,
) -> (r: Option<ResolvedPaths>)
    ensures
        match state_db_choice(
            sqlite_home_of(*overrides, *env_paths, home_dir@, *config_value),
            file_names@,
            default_exists,
            legacy_exists,
        ) {
            Some(db) => r matches Some(paths) && paths.state_db_path@ == db
                && paths.session_index_path@ == joined_path(
                codex_home_of(*overrides, *env_paths, home_dir@),
                SESSION_INDEX_FILE@,
            ),
            None => r is None,
        },
{
    let sqlite_home = resolve_sqlite_home(overrides, env_paths, home_dir, config_value);
    let state_db_path = match discover_state_db_path(sqlite_home.as_str(), file_names) {
        Some(p) => p,
        None => if default_exists {
            join_path(sqlite_home.as_str(), DEFAULT_STATE_DB_FILE)
        } else if legacy_exists {
            join_path(sqlite_home.as_str(), LEGACY_STATE_DB_FILE)
        } else {
            return None;
        },
    };
    let codex_home = resolve_codex_home(overrides, env_paths, home_dir);
    Some(
        ResolvedPaths {
            session_index_path: join_path(codex_home.as_str(), SESSION_INDEX_FILE),
            state_db_path,
        },
    )
}

/// A path made absolute against the current directory, when it is relative and the
/// current directory is known.
pub open spec fn absolute_path(path: Seq<char>, cwd: Option<String>) -> Seq<char> {
    if has_prefix(path, "/"@) {
        path
    } else {
        match cwd {
            Some(c) => joined_path(c@, path),
            None => path,
        }
    }
}

/// Makes `path` absolute against `cwd` (the current directory, when known).
pub fn ensure_absolute(path: &str, cwd: &Option<String>) -> (r: String)
    ensures
        r@ == absolute_path(path@, *cwd),
{
    let p = chars_of(path);
    let slash = chars_of("/");
    if starts_with_chars(p.as_slice(), slash.as_slice()) {
        return path.to_string();
    }
    match cwd {
        Some(c) => join_path(c.as_str(), path),
        None => path.to_string(),
    }
}

} // verus!
