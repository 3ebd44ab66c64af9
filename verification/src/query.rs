//! The shape of the `threads` table and the SQL that reads sessions from it.
use vstd::prelude::*;
use vstd::string::*;
use crate::data::{ProviderVisibility, SessionDbOptions, SortKey};
use crate::text::{append_str, chars_of, string_of};

verus! {

/// The columns the `threads` table has.
#[derive(Clone, Debug)]
pub struct ThreadSchema {
    pub columns: Vec<String>,
}

/// Why a state database cannot be read.
#[derive(Clone, Copy, Debug, PartialEq, Eq, Structural)]
pub enum SchemaError {
    /// The database has no `threads` table.
    MissingThreadsTable,
    /// The `threads` table has no `id` column.
    MissingIdColumn,
}

impl SchemaError {
    /// The message for this error.
    pub fn message(&self) -> (r: String)
        ensures
            r@ == match *self {
                SchemaError::MissingThreadsTable => "threads table is missing from state db"@,
                SchemaError::MissingIdColumn => "threads table does not contain an id column"@,
            },
    {
        match self {
            SchemaError::MissingThreadsTable => "threads table is missing from state db".to_string(),
            SchemaError::MissingIdColumn => "threads table does not contain an id column".to_string(),
        }
    }
}

/// The schema lists a column of this name.
pub open spec fn lists_column(schema: ThreadSchema, column: Seq<char>) -> bool {
    exists|i: int| 0 <= i < schema.columns.len() && (#[trigger] schema.columns@[i])@ == column
}

/// What a select list holds for a column: the column itself, or `fallback AS column`.
pub open spec fn select_expr_text(schema: ThreadSchema, column: Seq<char>, fallback: Seq<char>) -> Seq<
    char,
> {
    if lists_column(schema, column) {
        column
    } else {
        fallback + " AS "@ + column
    }
}

impl ThreadSchema {
    /// The schema of a table whose columns are `columns` (the names that
    /// `PRAGMA table_info(threads)` lists); refused when there are none, or no `id`.
    pub fn from_columns(columns: Vec<String>) -> (r: Result<ThreadSchema, SchemaError>)
        ensures
            columns.len() == 0 ==> r == Err::<ThreadSchema, SchemaError>(
                SchemaError::MissingThreadsTable,
            ),
            columns.len() > 0 && !lists_column(ThreadSchema { columns }, "id"@) ==> r == Err::<
                ThreadSchema,
                SchemaError,
            >(SchemaError::MissingIdColumn),
            columns.len() > 0 && lists_column(ThreadSchema { columns }, "id"@) ==> r == Ok::<
                ThreadSchema,
                SchemaError,
            >(ThreadSchema { columns }),
    {
        if columns.len() == 0 {
            return Err(SchemaError::MissingThreadsTable);
        }
        let schema = ThreadSchema { columns };
        if !schema.has("id") {
            return Err(SchemaError::MissingIdColumn);
        }
        Ok(schema)
    }

    /// Whether the table has a column of this name.
    pub fn has(&self, column: &str) -> (b: bool)
        ensures
            b == lists_column(*self, column@),
    {
        let wanted = column.to_string();
        let mut i: usize = 0;
        while i < self.columns.len()
            invariant
                i <= self.columns.len(),
                wanted@ == column@,
                forall|k: int| 0 <= k < i ==> (#[trigger] self.columns@[k])@ != column@,
            decreases self.columns.len() - i,
        {
            if self.columns[i] == wanted {
                return true;
            }
            i += 1;
        }
        false
    }

    /// The column itself when the table has it, else `fallback AS column`.
    pub fn select_expr(&self, column: &str, fallback: &str) -> (r: String)
        ensures
            r@ == select_expr_text(*self, column@, fallback@),
    {
        if self.has(column) {
            column.to_string()
        } else {
            let mut s = fallback.to_string();
            s.append(" AS ");
            s.append(column);
            s
        }
    }
}

/// A query on the `threads` table and the value its `cwd = ?` placeholder is bound to.
#[derive(Clone, Debug)]
pub struct ThreadsQuery {
    pub sql: String,
    pub cwd_bind: Option<String>,
}

/// The `WHERE` clause of a query and the value its `cwd = ?` placeholder is bound to.
#[derive(Clone, Debug)]
pub struct WhereClause {
    pub clause: String,
    pub cwd_bind: Option<String>,
}

/// `parts` joined with `sep` between neighbours.
pub open spec fn joined(parts: Seq<Seq<char>>, sep: Seq<char>) -> Seq<char>
    decreases parts.len(),
{
    if parts.len() == 0 {
        Seq::empty()
    } else if parts.len() == 1 {
        parts[0]
    } else {
        joined(parts.drop_last(), sep) + sep + parts.last()
    }
}

/// `text` as a single part when `cond` holds, else nothing.
pub open spec fn part_if(cond: bool, text: Seq<char>) -> Seq<Seq<char>> {
    if cond {
        seq![text]
    } else {
        Seq::empty()
    }
}

/// The conditions a query on the `threads` table filters by, each only where the table
/// has the column it tests: the provider for `OnlyOpenAi`, unarchived sessions unless
/// archived ones are included, interactive sources unless all are included, and the
/// working directory when one is given.
pub open spec fn where_parts(schema: ThreadSchema, options: SessionDbOptions) -> Seq<Seq<char>> {
    part_if(
        options.provider_visibility == ProviderVisibility::OnlyOpenAi && lists_column(
            schema,
            "model_provider"@,
        ),
        "model_provider = 'openai'"@,
    ) + part_if(!options.include_archived && lists_column(schema, "archived"@), "archived = 0"@)
        + part_if(
        !options.include_non_interactive && lists_column(schema, "source"@),
        "source IN ('cli', 'vscode')"@,
    ) + part_if(options.filter_cwd is Some && lists_column(schema, "cwd"@), "cwd = ?"@)
}

/// Sessions of every provider are listed unless only OpenAI's are asked for: the query
/// filters by provider exactly when `OnlyOpenAi` is asked for and the table has a
/// `model_provider` column.
pub proof fn law_provider_filter_only_when_asked(schema: ThreadSchema, options: SessionDbOptions)
    ensures
        where_parts(schema, options).contains("model_provider = 'openai'"@) <==> (
        options.provider_visibility == ProviderVisibility::OnlyOpenAi && lists_column(
            schema,
            "model_provider"@,
        )),
{
    reveal_strlit("model_provider = 'openai'");
    reveal_strlit("archived = 0");
    reveal_strlit("source IN ('cli', 'vscode')");
    reveal_strlit("cwd = ?");
    let target = "model_provider = 'openai'"@;
    let parts = where_parts(schema, options);
    let first = part_if(
        options.provider_visibility == ProviderVisibility::OnlyOpenAi && lists_column(
            schema,
            "model_provider"@,
        ),
        target,
    );
    let rest = part_if(!options.include_archived && lists_column(schema, "archived"@), "archived = 0"@)
        + part_if(
        !options.include_non_interactive && lists_column(schema, "source"@),
        "source IN ('cli', 'vscode')"@,
    ) + part_if(options.filter_cwd is Some && lists_column(schema, "cwd"@), "cwd = ?"@);
    assert(parts =~= first + rest);
    assert forall|i: int| 0 <= i < rest.len() implies (#[trigger] rest[i])[0] != target[0] by {}
    if first.len() > 0 {
        assert(parts[0] == target);
    } else {
        assert(parts =~= rest);
        if parts.contains(target) {
            let i = choose|i: int| 0 <= i < parts.len() && parts[i] == target;
            assert(rest[i][0] != target[0]);
        }
    }
}

proof fn lemma_four_parts(
    ca: bool,
    ta: Seq<char>,
    cb: bool,
    tb: Seq<char>,
    cc: bool,
    tc: Seq<char>,
    cd: bool,
    td: Seq<char>,
)
    requires
        ta.len() > 0,
        tb.len() > 0,
        tc.len() > 0,
        td.len() > 0,
        ta[0] != tb[0],
        ta[0] != tc[0],
        ta[0] != td[0],
        tb[0] != tc[0],
        tb[0] != td[0],
        tc[0] != td[0],
    ensures
        ({
            let parts = part_if(ca, ta) + part_if(cb, tb) + part_if(cc, tc) + part_if(cd, td);
            &&& parts.contains(ta) <==> ca
            &&& parts.contains(tb) <==> cb
            &&& parts.contains(tc) <==> cc
            &&& parts.contains(td) <==> cd
            &&& parts.len() == 0 <==> (!ca && !cb && !cc && !cd)
            &&& forall|i: int|
                0 <= i < parts.len() ==> #[trigger] parts[i] == ta || parts[i] == tb || parts[i]
                    == tc || parts[i] == td
        }),
{
    let pa = part_if(ca, ta);
    let pb = part_if(cb, tb);
    let pc = part_if(cc, tc);
    let pd = part_if(cd, td);
    let parts = pa + pb + pc + pd;
    assert forall|i: int| 0 <= i < parts.len() implies {
        ||| (parts[i] == ta && ca)
        ||| (parts[i] == tb && cb)
        ||| (parts[i] == tc && cc)
        ||| (parts[i] == td && cd)
    } by {
        if i < pa.len() {
            assert(parts[i] == pa[i]);
        } else if i < pa.len() + pb.len() {
            assert(parts[i] == pb[i - pa.len()]);
        } else if i < pa.len() + pb.len() + pc.len() {
            assert(parts[i] == pc[i - pa.len() - pb.len()]);
        } else {
            assert(parts[i] == pd[i - pa.len() - pb.len() - pc.len()]);
        }
    }
    if ca {
        assert(parts[0] == ta);
    }
    if cb {
        assert(parts[pa.len() as int] == tb);
    }
    if cc {
        assert(parts[(pa.len() + pb.len()) as int] == tc);
    }
    if cd {
        assert(parts[(pa.len() + pb.len() + pc.len()) as int] == td);
    }
    if parts.contains(ta) {
        let i = choose|i: int| 0 <= i < parts.len() && parts[i] == ta;
        assert(parts[i][0] == ta[0]);
    }
    if parts.contains(tb) {
        let i = choose|i: int| 0 <= i < parts.len() && parts[i] == tb;
        assert(parts[i][0] == tb[0]);
    }
    if parts.contains(tc) {
        let i = choose|i: int| 0 <= i < parts.len() && parts[i] == tc;
        assert(parts[i][0] == tc[0]);
    }
    if parts.contains(td) {
        let i = choose|i: int| 0 <= i < parts.len() && parts[i] == td;
        assert(parts[i][0] == td[0]);
    }
}

/// Each filter of a query on the `threads` table is there exactly when it is asked for
/// and the table has its column, and nothing else is filtered: unarchived sessions only
/// unless `--include-archived`, interactive sources only unless all are included, OpenAI's
/// sessions only for `--only-openai`, and the working directory only when one is given.
/// Nothing is filtered (the clause is empty) when none applies.
pub proof fn law_where_filters_exactly_what_is_asked(schema: ThreadSchema, options: SessionDbOptions)
    ensures
        where_parts(schema, options).contains("archived = 0"@) <==> (!options.include_archived
            && lists_column(schema, "archived"@)),
        where_parts(schema, options).contains("source IN ('cli', 'vscode')"@) <==> (
        !options.include_non_interactive && lists_column(schema, "source"@)),
        where_parts(schema, options).contains("model_provider = 'openai'"@) <==> (
        options.provider_visibility == ProviderVisibility::OnlyOpenAi && lists_column(
            schema,
            "model_provider"@,
        )),
        where_parts(schema, options).contains("cwd = ?"@) <==> (options.filter_cwd is Some
            && lists_column(schema, "cwd"@)),
        forall|i: int|
            0 <= i < where_parts(schema, options).len() ==> #[trigger] where_parts(
                schema,
                options,
            )[i] == "archived = 0"@ || where_parts(schema, options)[i]
                == "source IN ('cli', 'vscode')"@ || where_parts(schema, options)[i]
                == "model_provider = 'openai'"@ || where_parts(schema, options)[i] == "cwd = ?"@,
        where_text(schema, options).len() == 0 <==> !(!options.include_archived && lists_column(
            schema,
            "archived"@,
        )) && !(!options.include_non_interactive && lists_column(schema, "source"@)) && !(
        options.provider_visibility == ProviderVisibility::OnlyOpenAi && lists_column(
            schema,
            "model_provider"@,
        )) && !(options.filter_cwd is Some && lists_column(schema, "cwd"@)),
{
    reveal_strlit("model_provider = 'openai'");
    reveal_strlit("archived = 0");
    reveal_strlit("source IN ('cli', 'vscode')");
    reveal_strlit("cwd = ?");
    reveal_strlit("WHERE ");
    let ca = options.provider_visibility == ProviderVisibility::OnlyOpenAi && lists_column(
        schema,
        "model_provider"@,
    );
    let cb = !options.include_archived && lists_column(schema, "archived"@);
    let cc = !options.include_non_interactive && lists_column(schema, "source"@);
    let cd = options.filter_cwd is Some && lists_column(schema, "cwd"@);
    lemma_four_parts(
        ca,
        "model_provider = 'openai'"@,
        cb,
        "archived = 0"@,
        cc,
        "source IN ('cli', 'vscode')"@,
        cd,
        "cwd = ?"@,
    );
    assert(where_parts(schema, options) == part_if(ca, "model_provider = 'openai'"@) + part_if(
        cb,
        "archived = 0"@,
    ) + part_if(cc, "source IN ('cli', 'vscode')"@) + part_if(cd, "cwd = ?"@));
}

/// The `WHERE` clause text: empty when nothing is filtered.
pub open spec fn where_text(schema: ThreadSchema, options: SessionDbOptions) -> Seq<char> {
    let parts = where_parts(schema, options);
    if parts.len() == 0 {
        Seq::empty()
    } else {
        "WHERE "@ + joined(parts, " AND "@)
    }
}

/// The value bound to `cwd = ?`: the working directory, when the clause tests it.
pub open spec fn cwd_bind_of(schema: ThreadSchema, options: SessionDbOptions) -> Option<Seq<char>> {
    match options.filter_cwd {
        Some(cwd) => if lists_column(schema, "cwd"@) {
            Some(cwd@)
        } else {
            None
        },
        None => None,
    }
}

proof fn lemma_joined_push(parts: Seq<Seq<char>>, p: Seq<char>, sep: Seq<char>)
    ensures
        joined(parts.push(p), sep) == if parts.len() == 0 {
            p
        } else {
            joined(parts, sep) + sep + p
        },
{
    assert(parts.push(p).drop_last() == parts);
    if parts.len() == 0 {
        assert(parts.push(p)[0] == p);
    }
}

fn add_part(
    acc: &mut Vec<char>,
    count: &mut usize,
    Ghost(parts): Ghost<Seq<Seq<char>>>,
    cond: bool,
    text: &str,
) -> (new_parts: Ghost<Seq<Seq<char>>>)
    requires
        old(acc)@ == joined(parts, " AND "@),
        *old(count) == parts.len(),
        parts.len() < 4,
    ensures
        new_parts@ == parts + part_if(cond, text@),
        final(acc)@ == joined(new_parts@, " AND "@),
        *final(count) == new_parts@.len(),
        new_parts@.len() <= parts.len() + 1,
{
    if cond {
        proof {
            lemma_joined_push(parts, text@, " AND "@);
            assert(parts + seq![text@] == parts.push(text@));
        }
        if *count > 0 {
            append_str(acc, " AND ");
        }
        append_str(acc, text);
        *count = *count + 1;
        Ghost(parts.push(text@))
    } else {
        assert(parts + Seq::<Seq<char>>::empty() == parts);
        Ghost(parts)
    }
}

/// The `WHERE` clause of a query on the `threads` table.
pub fn threads_where_clause(schema: &ThreadSchema, options: &SessionDbOptions) -> (r: WhereClause)
    ensures
        r.clause@ == where_text(*schema, *options),
        match r.cwd_bind {
            Some(c) => cwd_bind_of(*schema, *options) == Some(c@),
            None => cwd_bind_of(*schema, *options) is None,
        },
{
    let mut acc: Vec<char> = Vec::new();
    let mut count: usize = 0;
    let ghost p0: Seq<Seq<char>> = Seq::empty();
    let only_openai = match options.provider_visibility {
        ProviderVisibility::OnlyOpenAi => true,
        ProviderVisibility::All => false,
    };
    let Ghost(p1) = add_part(
        &mut acc,
        &mut count,
        Ghost(p0),
        only_openai && schema.has("model_provider"),
        "model_provider = 'openai'",
    );
    let Ghost(p2) = add_part(
        &mut acc,
        &mut count,
        Ghost(p1),
        !options.include_archived && schema.has("archived"),
        "archived = 0",
    );
    let Ghost(p3) = add_part(
        &mut acc,
        &mut count,
        Ghost(p2),
        !options.include_non_interactive && schema.has("source"),
        "source IN ('cli', 'vscode')",
    );
    let has_cwd = schema.has("cwd");
    let Ghost(p4) = add_part(
        &mut acc,
        &mut count,
        Ghost(p3),
        options.filter_cwd.is_some() && has_cwd,
        "cwd = ?",
    );
    assert(p4 == where_parts(*schema, *options));
    let clause = if count == 0 {
        String::new()
    } else {
        let mut c = chars_of("WHERE ");
        let mut i: usize = 0;
        let ghost c0 = c@;
        while i < acc.len()
            invariant
                i <= acc.len(),
                c@ == c0 + acc@.take(i as int),
            decreases acc.len() - i,
        {
            c.push(acc[i]);
            i += 1;
            assert(acc@.take(i as int) == acc@.take(i - 1 as int).push(acc@[i - 1]));
        }
        assert(acc@.take(acc.len() as int) == acc@);
        string_of(c.as_slice())
    };
    let cwd_bind = match &options.filter_cwd {
        Some(cwd) => if has_cwd {
            Some(cwd.clone())
        } else {
            None
        },
        None => None,
    };
    WhereClause { clause, cwd_bind }
}

/// The column the page query orders by.
pub open spec fn page_sort_column(schema: ThreadSchema, k: SortKey) -> Seq<char> {
    match k {
        SortKey::UpdatedAt => if lists_column(schema, "updated_at"@) {
            "updated_at"@
        } else {
            "id"@
        },
        SortKey::CreatedAt => if lists_column(schema, "created_at"@) {
            "created_at"@
        } else {
            "id"@
        },
    }
}

/// The text of the query for one page of sessions; its two `?` take the page size and the
/// offset.
pub open spec fn page_sql_text(schema: ThreadSchema, options: SessionDbOptions, k: SortKey) -> Seq<
    char,
> {
    "\nSELECT\n    id,\n    "@ + select_expr_text(schema, "rollout_path"@, "''"@) + ",\n    "@
        + select_expr_text(schema, "created_at"@, "NULL"@) + ",\n    "@ + select_expr_text(
        schema,
        "updated_at"@,
        "NULL"@,
    ) + ",\n    "@ + select_expr_text(schema, "archived"@, "0"@) + ",\n    "@ + select_expr_text(
        schema,
        "source"@,
        "''"@,
    ) + ",\n    "@ + select_expr_text(schema, "model_provider"@, "''"@) + ",\n    "@
        + select_expr_text(schema, "cwd"@, "''"@) + ",\n    "@ + select_expr_text(
        schema,
        "title"@,
        "''"@,
    ) + ",\n    "@ + select_expr_text(schema, "first_user_message"@, "''"@) + ",\n    "@
        + select_expr_text(schema, "git_branch"@, "NULL"@) + "\nFROM threads\n"@ + where_text(
        schema,
        options,
    ) + "\nORDER BY "@ + page_sort_column(schema, k) + " DESC, id DESC\nLIMIT ? OFFSET ?\n        "@
}

/// The query for one page of sessions, newest first in the sort key's column.
pub fn page_query_sql(schema: &ThreadSchema, options: &SessionDbOptions, sort_key: SortKey) -> (r:
    ThreadsQuery)
    ensures
        r.sql@ == page_sql_text(*schema, *options, sort_key),
        match r.cwd_bind {
            Some(c) => cwd_bind_of(*schema, *options) == Some(c@),
            None => cwd_bind_of(*schema, *options) is None,
        },
{
    let where_clause = threads_where_clause(schema, options);
    let sort_column = match sort_key {
        SortKey::UpdatedAt => if schema.has("updated_at") {
            "updated_at"
        } else {
            "id"
        },
        SortKey::CreatedAt => if schema.has("created_at") {
            "created_at"
        } else {
            "id"
        },
    };
    let mut sql = "\nSELECT\n    id,\n    ".to_string();
    sql.append(schema.select_expr("rollout_path", "''").as_str());
    sql.append(",\n    ");
    sql.append(schema.select_expr("created_at", "NULL").as_str());
    sql.append(",\n    ");
    sql.append(schema.select_expr("updated_at", "NULL").as_str());
    sql.append(",\n    ");
    sql.append(schema.select_expr("archived", "0").as_str());
    sql.append(",\n    ");
    sql.append(schema.select_expr("source", "''").as_str());
    sql.append(",\n    ");
    sql.append(schema.select_expr("model_provider", "''").as_str());
    sql.append(",\n    ");
    sql.append(schema.select_expr("cwd", "''").as_str());
    sql.append(",\n    ");
    sql.append(schema.select_expr("title", "''").as_str());
    sql.append(",\n    ");
    sql.append(schema.select_expr("first_user_message", "''").as_str());
    sql.append(",\n    ");
    sql.append(schema.select_expr("git_branch", "NULL").as_str());
    sql.append("\nFROM threads\n");
    sql.append(where_clause.clause.as_str());
    sql.append("\nORDER BY ");
    sql.append(sort_column);
    sql.append(" DESC, id DESC\nLIMIT ? OFFSET ?\n        ");
    ThreadsQuery { sql, cwd_bind: where_clause.cwd_bind }
}

/// The column the most-recent-session query orders by.
pub open spec fn last_sort_column(schema: ThreadSchema) -> Seq<char> {
    if lists_column(schema, "updated_at"@) {
        "updated_at"@
    } else if lists_column(schema, "created_at"@) {
        "created_at"@
    } else {
        "id"@
    }
}

/// The text of the query for the id of the most recent session.
pub open spec fn last_sql_text(schema: ThreadSchema, options: SessionDbOptions) -> Seq<char> {
    "\nSELECT id\nFROM threads\n"@ + where_text(schema, options) + "\nORDER BY "@ + last_sort_column(
        schema,
    ) + " DESC, id DESC\nLIMIT 1\n            "@
}

/// The query for the id of the most recent session.
pub fn last_thread_id_query_sql(schema: &ThreadSchema, options: &SessionDbOptions) -> (r:
    ThreadsQuery)
    ensures
        r.sql@ == last_sql_text(*schema, *options),
        match r.cwd_bind {
            Some(c) => cwd_bind_of(*schema, *options) == Some(c@),
            None => cwd_bind_of(*schema, *options) is None,
        },
{
    let where_clause = threads_where_clause(schema, options);
    let sort_column = if schema.has("updated_at") {
        "updated_at"
    } else if schema.has("created_at") {
        "created_at"
    } else {
        "id"
    };
    let mut sql = "\nSELECT id\nFROM threads\n".to_string();
    sql.append(where_clause.clause.as_str());
    sql.append("\nORDER BY ");
    sql.append(sort_column);
    sql.append(" DESC, id DESC\nLIMIT 1\n            ");
    ThreadsQuery { sql, cwd_bind: where_clause.cwd_bind }
}

} // verus!
