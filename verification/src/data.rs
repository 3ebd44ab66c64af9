//! Session rows, their ordering, filtering and the labels shown for them.
use vstd::prelude::*;
use vstd::string::*;
use crate::text::{
    all_white, chars_of, contains_chars, contains_run, has_prefix, is_white, lemma_blank_is_white,
    lemma_trim_ignores_white_around,
    lowercase, starts_with_chars, string_of,
    to_lowercase, trim, trim_chars,
};

verus! {

/// The provider id of the built-in OpenAI provider.
pub const OPENAI_PROVIDER_ID: &'static str = "openai";

/// How many rows one page of the session list holds.
pub const PAGE_SIZE: usize = 25;

/// The timestamp a list is ordered by.
#[derive(Clone, Copy, Debug, PartialEq, Eq, Structural)]
pub enum SortKey {
    UpdatedAt,
    CreatedAt,
}

/// The other sort key.
pub open spec fn toggled(k: SortKey) -> SortKey {
    match k {
        SortKey::UpdatedAt => SortKey::CreatedAt,
        SortKey::CreatedAt => SortKey::UpdatedAt,
    }
}

/// The caption of a sort key.
pub open spec fn sort_key_caption(k: SortKey) -> Seq<char> {
    match k {
        SortKey::UpdatedAt => "Updated at"@,
        SortKey::CreatedAt => "Created at"@,
    }
}

/// Toggling the sort key twice gives back the sort key it started from.
pub proof fn law_toggle_twice_is_identity(k: SortKey)
    ensures
        toggled(toggled(k)) == k,
{
}

impl SortKey {
    /// Switches between the two sort keys.
    pub fn toggle(self) -> (r: Self)
        ensures
            r == toggled(self),
    {
        match self {
            SortKey::UpdatedAt => SortKey::CreatedAt,
            SortKey::CreatedAt => SortKey::UpdatedAt,
        }
    }

    /// The caption shown for this sort key.
    pub fn label(self) -> (r: &'static str)
        ensures
            r@ == sort_key_caption(self),
    {
        match self {
            SortKey::UpdatedAt => "Updated at",
            SortKey::CreatedAt => "Created at",
        }
    }
}

/// Which providers' sessions are listed.
#[derive(Clone, Copy, Debug, PartialEq, Eq, Structural)]
pub enum ProviderVisibility {
    All,
    OnlyOpenAi,
}

/// The caption of a provider visibility.
pub open spec fn visibility_caption(v: ProviderVisibility) -> Seq<char> {
    match v {
        ProviderVisibility::All => "all"@,
        ProviderVisibility::OnlyOpenAi => "only openai"@,
    }
}

impl ProviderVisibility {
    /// The caption shown for this visibility.
    pub fn label(self) -> (r: &'static str)
        ensures
            r@ == visibility_caption(self),
    {
        match self {
            ProviderVisibility::All => "all",
            ProviderVisibility::OnlyOpenAi => "only openai",
        }
    }
}

/// Which sessions the state database is asked for.
#[derive(Clone, Debug)]
pub struct SessionDbOptions {
    pub provider_visibility: ProviderVisibility,
    pub include_non_interactive: bool,
    pub include_archived: bool,
    /// Only sessions whose working directory is this path.
    pub filter_cwd: Option<String>,
}

/// One session as the picker lists it. Times are whole seconds since the Unix epoch,
/// always within the range `DateTime<Utc>` can hold.
#[derive(Clone, Debug)]
pub struct SessionRow {
    pub thread_id: String,
    pub thread_name: Option<String>,
    pub preview: String,
    pub created_at: Option<i64>,
    pub updated_at: Option<i64>,
    pub archived: bool,
    pub provider: String,
    pub source: String,
    pub cwd: String,
    pub rollout_path: String,
    pub git_branch: Option<String>,
}

/// One page of sessions; `has_more` says whether a further page may exist.
#[derive(Debug)]
pub struct SessionPage {
    pub rows: Vec<SessionRow>,
    pub has_more: bool,
}

/// The text a row is presented by: its name when it has one, else its preview.
pub open spec fn preview_text(row: SessionRow) -> Seq<char> {
    match row.thread_name {
        Some(name) => name@,
        None => row.preview@,
    }
}

/// The first twelve characters of a thread id.
pub open spec fn short_id_text(id: Seq<char>) -> Seq<char> {
    if id.len() <= 12 {
        id
    } else {
        id.take(12)
    }
}

/// A copy of an optional string.
pub fn copy_opt_string(s: &Option<String>) -> (r: Option<String>)
    ensures
        r == *s,
{
    match s {
        Some(t) => Some(t.clone()),
        None => None,
    }
}

impl SessionRow {
    /// A field-by-field copy of the row.
    pub fn duplicate(&self) -> (r: Self)
        ensures
            r == *self,
    {
        SessionRow {
            thread_id: self.thread_id.clone(),
            thread_name: copy_opt_string(&self.thread_name),
            preview: self.preview.clone(),
            created_at: self.created_at,
            updated_at: self.updated_at,
            archived: self.archived,
            provider: self.provider.clone(),
            source: self.source.clone(),
            cwd: self.cwd.clone(),
            rollout_path: self.rollout_path.clone(),
            git_branch: copy_opt_string(&self.git_branch),
        }
    }

    /// The session's name if it has one, else its preview.
    pub fn display_preview(&self) -> (r: &str)
        ensures
            r@ == preview_text(*self),
    {
        match &self.thread_name {
            Some(name) => name.as_str(),
            None => self.preview.as_str(),
        }
    }

    /// The first twelve characters of the thread id.
    pub fn short_id(&self) -> (r: String)
        ensures
            r@ == short_id_text(self.thread_id@),
    {
        let id = chars_of(self.thread_id.as_str());
        if id.len() <= 12 {
            string_of(id.as_slice())
        } else {
            let mut head: Vec<char> = Vec::new();
            let mut i: usize = 0;
            while i < 12
                invariant
                    12 < id.len(),
                    i <= 12,
                    head@ == id@.take(i as int),
                decreases 12 - i,
            {
                head.push(id[i]);
                i += 1;
                assert(id@.take(i as int) == id@.take(i - 1 as int).push(id@[i - 1]));
            }
            string_of(head.as_slice())
        }
    }

    /// The session's source label.
    pub fn source_label(&self) -> (r: &str)
        ensures
            r@ == self.source@,
    {
        self.source.as_str()
    }
}

/// Whether `a` and `b` hold the same characters.
pub fn same_chars(a: &[char], b: &[char]) -> (r: bool)
    ensures
        r == (a@ == b@),
{
    if a.len() != b.len() {
        return false;
    }
    let mut i: usize = 0;
    while i < a.len()
        invariant
            a.len() == b.len(),
            i <= a.len(),
            forall|k: int| 0 <= k < i ==> a@[k] == b@[k],
        decreases a.len() - i,
    {
        if a[i] != b[i] {
            return false;
        }
        i += 1;
    }
    assert(a@ == b@);
    true
}

// ---------------------------------------------------------------------------
// Timestamps

/// The earliest second that `chrono::DateTime<Utc>` can hold (January 1 of year -262143).
pub const MIN_TIMESTAMP: i64 = -8_334_601_228_800;

/// The last second that `chrono::DateTime<Utc>` can hold (December 31 of year 262142).
pub const MAX_TIMESTAMP: i64 = 8_210_266_876_799;

/// A second count that `chrono::DateTime<Utc>` can hold.
pub open spec fn representable(secs: int) -> bool {
    MIN_TIMESTAMP <= secs <= MAX_TIMESTAMP
}

/// `chrono::DateTime::<Utc>::from_timestamp(secs, 0)` succeeds exactly for the seconds from
/// `DateTime::<Utc>::MIN_UTC` to `DateTime::<Utc>::MAX_UTC`; this tells which.
#[verifier::external_body]
fn timestamp_representable(secs: i64) -> (b: bool)
    ensures
        b == representable(secs as int),
{
    chrono::DateTime::from_timestamp(secs, 0).is_some()
}

/// A timestamp column's value as a point in time, when it names one.
pub open spec fn epoch_value(epoch: Option<i64>) -> Option<i64> {
    match epoch {
        Some(s) => if representable(s as int) {
            Some(s)
        } else {
            None
        },
        None => None,
    }
}

/// Reads an optional seconds-since-epoch column: `None` when absent or out of range.
pub fn epoch_opt(epoch: Option<i64>) -> (r: Option<i64>)
    ensures
        r == epoch_value(epoch),
{
    match epoch {
        Some(s) => if timestamp_representable(s) {
            Some(s)
        } else {
            None
        },
        None => None,
    }
}

// ---------------------------------------------------------------------------
// Labels

/// The provider label of a raw provider column: trimmed, or `unknown` when blank.
pub open spec fn provider_label_of(raw: Seq<char>) -> Seq<char> {
    if trim(raw).len() == 0 {
        "unknown"@
    } else {
        trim(raw)
    }
}

/// Normalizes a provider column.
pub fn normalize_provider_label(raw: &str) -> (r: String)
    ensures
        r@ == provider_label_of(raw@),
{
    let chars = chars_of(raw);
    let trimmed = trim_chars(chars.as_slice());
    if trimmed.len() == 0 {
        "unknown".to_string()
    } else {
        string_of(trimmed.as_slice())
    }
}

/// The source label of a raw source column.
pub open spec fn source_label_of(raw: Seq<char>) -> Seq<char> {
    if raw == "cli"@ {
        "cli"@
    } else if raw == "exec"@ {
        "exec"@
    } else if raw == "vscode"@ {
        "vscode"@
    } else if raw == "mcp"@ {
        "app-server"@
    } else if has_prefix(raw, "{"@) && contains_run(raw, "\"subagent\""@) {
        "subagent"@
    } else if trim(raw).len() == 0 {
        "unknown"@
    } else {
        raw
    }
}

/// Normalizes a source column.
pub fn normalize_source_label(raw: &str) -> (r: String)
    ensures
        r@ == source_label_of(raw@),
{
    let chars = chars_of(raw);
    let s = chars.as_slice();
    if same_chars(s, chars_of("cli").as_slice()) {
        return "cli".to_string();
    }
    if same_chars(s, chars_of("exec").as_slice()) {
        return "exec".to_string();
    }
    if same_chars(s, chars_of("vscode").as_slice()) {
        return "vscode".to_string();
    }
    if same_chars(s, chars_of("mcp").as_slice()) {
        return "app-server".to_string();
    }
    if starts_with_chars(s, chars_of("{").as_slice()) && contains_chars(
        s,
        chars_of("\"subagent\"").as_slice(),
    ) {
        return "subagent".to_string();
    }
    let trimmed = trim_chars(s);
    if trimmed.len() == 0 {
        return "unknown".to_string();
    }
    raw.to_string()
}


// ---------------------------------------------------------------------------
// Ordering

/// Code-point lexicographic comparison of two texts (-1, 0 or 1); this is also the byte
/// order of their UTF-8 encodings, by which `String`'s `Ord` compares.
pub open spec fn text_order(a: Seq<char>, b: Seq<char>) -> int
    decreases a.len(),
{
    if a.len() == 0 {
        if b.len() == 0 {
            0
        } else {
            -1
        }
    } else if b.len() == 0 {
        1
    } else if (a[0] as u32) < (b[0] as u32) {
        -1
    } else if (a[0] as u32) > (b[0] as u32) {
        1
    } else {
        text_order(a.drop_first(), b.drop_first())
    }
}

/// Comparison of optional timestamps, absent before present (-1, 0 or 1).
pub open spec fn time_order(a: Option<i64>, b: Option<i64>) -> int {
    match (a, b) {
        (None, None) => 0,
        (None, Some(_)) => -1,
        (Some(_), None) => 1,
        (Some(x), Some(y)) => if x < y {
            -1
        } else if x > y {
            1
        } else {
            0
        },
    }
}

/// The timestamp a row is ordered by under a sort key: for `UpdatedAt` the update time,
/// falling back to the creation time.
pub open spec fn sort_time(row: SessionRow, k: SortKey) -> Option<i64> {
    match k {
        SortKey::UpdatedAt => if row.updated_at is Some {
            row.updated_at
        } else {
            row.created_at
        },
        SortKey::CreatedAt => row.created_at,
    }
}

/// The order of the session list (-1, 0 or 1): later timestamps first, then thread ids
/// in ascending order.
pub open spec fn row_order(k: SortKey, a: SessionRow, b: SessionRow) -> int {
    let c = time_order(sort_time(b, k), sort_time(a, k));
    if c != 0 {
        c
    } else {
        text_order(a.thread_id@, b.thread_id@)
    }
}

/// Every earlier row comes no later than every later row.
pub open spec fn rows_sorted(s: Seq<SessionRow>, k: SortKey) -> bool {
    forall|i: int, j: int| 0 <= i < j < s.len() ==> row_order(k, #[trigger] s[i], #[trigger] s[j]) <= 0
}

/// `x` inserted into `t` after the last row that comes no later than `x`.
pub open spec fn insert_row(t: Seq<SessionRow>, x: SessionRow, k: SortKey) -> Seq<SessionRow>
    decreases t.len(),
{
    if t.len() == 0 {
        seq![x]
    } else if row_order(k, t.last(), x) <= 0 {
        t.push(x)
    } else {
        insert_row(t.drop_last(), x, k).push(t.last())
    }
}

/// The stable sort of `s` in the order of the session list: sorted, and rows that
/// compare equal keep their relative order (as `slice::sort_by` promises).
pub open spec fn sort_rows(s: Seq<SessionRow>, k: SortKey) -> Seq<SessionRow>
    decreases s.len(),
{
    if s.len() == 0 {
        s
    } else {
        insert_row(sort_rows(s.drop_last(), k), s.last(), k)
    }
}

proof fn lemma_text_order_antisym(a: Seq<char>, b: Seq<char>)
    ensures
        text_order(a, b) == -text_order(b, a),
    decreases a.len(),
{
    if a.len() > 0 && b.len() > 0 {
        lemma_text_order_antisym(a.drop_first(), b.drop_first());
    }
}

proof fn lemma_text_order_trans(a: Seq<char>, b: Seq<char>, c: Seq<char>)
    requires
        text_order(a, b) <= 0,
        text_order(b, c) <= 0,
    ensures
        text_order(a, c) <= 0,
    decreases a.len(),
{
    if a.len() > 0 && b.len() > 0 && c.len() > 0 {
        if (a[0] as u32) == (b[0] as u32) && (b[0] as u32) == (c[0] as u32) {
            lemma_text_order_trans(a.drop_first(), b.drop_first(), c.drop_first());
        }
    }
}

/// The list order is a total preorder: reversing the arguments negates the comparison.
pub proof fn lemma_row_order_antisym(k: SortKey, a: SessionRow, b: SessionRow)
    ensures
        row_order(k, a, b) == -row_order(k, b, a),
{
    lemma_text_order_antisym(a.thread_id@, b.thread_id@);
}

/// The list order is transitive.
pub proof fn lemma_row_order_trans(k: SortKey, a: SessionRow, b: SessionRow, c: SessionRow)
    requires
        row_order(k, a, b) <= 0,
        row_order(k, b, c) <= 0,
    ensures
        row_order(k, a, c) <= 0,
{
    if time_order(sort_time(c, k), sort_time(a, k)) == 0 {
        lemma_text_order_trans(a.thread_id@, b.thread_id@, c.thread_id@);
    }
}

proof fn lemma_insert_row_bounded(t: Seq<SessionRow>, x: SessionRow, y: SessionRow, k: SortKey)
    requires
        forall|i: int| 0 <= i < t.len() ==> row_order(k, #[trigger] t[i], y) <= 0,
        row_order(k, x, y) <= 0,
    ensures
        forall|i: int|
            0 <= i < insert_row(t, x, k).len() ==> row_order(k, #[trigger] insert_row(t, x, k)[i], y)
                <= 0,
    decreases t.len(),
{
    let r = insert_row(t, x, k);
    if t.len() > 0 && row_order(k, t.last(), x) > 0 {
        let u = t.drop_last();
        assert forall|i: int| 0 <= i < u.len() implies row_order(k, #[trigger] u[i], y) <= 0 by {
            assert(u[i] == t[i]);
        }
        lemma_insert_row_bounded(u, x, y, k);
        assert(row_order(k, t[t.len() - 1], y) <= 0);
        let v = insert_row(u, x, k);
        assert forall|i: int| 0 <= i < r.len() implies row_order(k, #[trigger] r[i], y) <= 0 by {
            if i < v.len() {
                assert(r[i] == v[i]);
            }
        }
    } else {
        assert forall|i: int| 0 <= i < r.len() implies row_order(k, #[trigger] r[i], y) <= 0 by {
            if i < t.len() {
                assert(r[i] == t[i]);
            }
        }
    }
}

proof fn lemma_insert_row_len(t: Seq<SessionRow>, x: SessionRow, k: SortKey)
    ensures
        insert_row(t, x, k).len() == t.len() + 1,
    decreases t.len(),
{
    if t.len() > 0 && row_order(k, t.last(), x) > 0 {
        lemma_insert_row_len(t.drop_last(), x, k);
    }
}

proof fn lemma_insert_row_sorted(t: Seq<SessionRow>, x: SessionRow, k: SortKey)
    requires
        rows_sorted(t, k),
    ensures
        rows_sorted(insert_row(t, x, k), k),
    decreases t.len(),
{
    lemma_insert_row_len(t, x, k);
    if t.len() == 0 {
    } else if row_order(k, t.last(), x) <= 0 {
        let r = t.push(x);
        assert forall|i: int, j: int| 0 <= i < j < r.len() implies row_order(
            k,
            #[trigger] r[i],
            #[trigger] r[j],
        ) <= 0 by {
            if j == t.len() {
                if i < t.len() - 1 {
                    lemma_row_order_trans(k, t[i], t[t.len() - 1], x);
                }
            } else {
                assert(r[i] == t[i] && r[j] == t[j]);
            }
        }
    } else {
        let u = t.drop_last();
        let last = t.last();
        assert forall|i: int, j: int| 0 <= i < j < u.len() implies row_order(
            k,
            #[trigger] u[i],
            #[trigger] u[j],
        ) <= 0 by {
            assert(u[i] == t[i] && u[j] == t[j]);
        }
        lemma_insert_row_sorted(u, x, k);
        let v = insert_row(u, x, k);
        lemma_insert_row_len(u, x, k);
        assert forall|i: int| 0 <= i < u.len() implies row_order(k, #[trigger] u[i], last) <= 0 by {
            assert(u[i] == t[i]);
            assert(t[t.len() - 1] == last);
        }
        lemma_row_order_antisym(k, last, x);
        lemma_insert_row_bounded(u, x, last, k);
        let r = v.push(last);
        assert forall|i: int, j: int| 0 <= i < j < r.len() implies row_order(
            k,
            #[trigger] r[i],
            #[trigger] r[j],
        ) <= 0 by {
            if j == v.len() {
                assert(r[i] == v[i]);
            } else {
                assert(r[i] == v[i] && r[j] == v[j]);
            }
        }
    }
}

proof fn lemma_insert_row_multiset(t: Seq<SessionRow>, x: SessionRow, k: SortKey)
    ensures
        insert_row(t, x, k).to_multiset() =~= t.to_multiset().insert(x),
    decreases t.len(),
{
    t.to_multiset_ensures();
    if t.len() == 0 {
        assert(seq![x] == t.push(x));
    } else if row_order(k, t.last(), x) <= 0 {
    } else {
        let u = t.drop_last();
        lemma_insert_row_multiset(u, x, k);
        insert_row(u, x, k).to_multiset_ensures();
        u.to_multiset_ensures();
        assert(u.push(t.last()) == t);
    }
}

/// A stable sort in the list order is sorted.
pub proof fn lemma_sort_rows_sorted(s: Seq<SessionRow>, k: SortKey)
    ensures
        rows_sorted(sort_rows(s, k), k),
    decreases s.len(),
{
    if s.len() > 0 {
        lemma_sort_rows_sorted(s.drop_last(), k);
        lemma_insert_row_sorted(sort_rows(s.drop_last(), k), s.last(), k);
    }
}

/// A stable sort in the list order holds the same rows, each as often.
pub proof fn lemma_sort_rows_multiset(s: Seq<SessionRow>, k: SortKey)
    ensures
        sort_rows(s, k).to_multiset() =~= s.to_multiset(),
    decreases s.len(),
{
    if s.len() > 0 {
        lemma_sort_rows_multiset(s.drop_last(), k);
        lemma_insert_row_multiset(sort_rows(s.drop_last(), k), s.last(), k);
        s.drop_last().to_multiset_ensures();
        assert(s.drop_last().push(s.last()) == s);
    }
}

proof fn lemma_insert_row_at(t: Seq<SessionRow>, x: SessionRow, j: int, k: SortKey)
    requires
        0 <= j <= t.len(),
        forall|m: int| j <= m < t.len() ==> row_order(k, #[trigger] t[m], x) > 0,
        j == 0 || row_order(k, t[j - 1], x) <= 0,
    ensures
        insert_row(t, x, k) == t.insert(j, x),
    decreases t.len(),
{
    if t.len() == 0 {
        assert(t.insert(0, x) =~= seq![x]);
    } else if j == t.len() {
        assert(t.insert(j, x) =~= t.push(x));
    } else {
        let u = t.drop_last();
        assert(row_order(k, t[t.len() - 1], x) > 0);
        assert forall|m: int| j <= m < u.len() implies row_order(k, #[trigger] u[m], x) > 0 by {
            assert(u[m] == t[m]);
        }
        if j > 0 {
            assert(u[j - 1] == t[j - 1]);
        }
        lemma_insert_row_at(u, x, j, k);
        assert(u.insert(j, x).push(t.last()) =~= t.insert(j, x));
    }
}

/// Compares two texts in code-point order (-1, 0 or 1).
pub fn compare_text(a: &[char], b: &[char]) -> (r: i8)
    ensures
        r == text_order(a@, b@),
{
    let mut i: usize = 0;
    assert(a@.skip(0) == a@ && b@.skip(0) == b@);
    while i < a.len() && i < b.len()
        invariant
            i <= a.len(),
            i <= b.len(),
            text_order(a@, b@) == text_order(a@.skip(i as int), b@.skip(i as int)),
        decreases a.len() - i,
    {
        let x = a[i] as u32;
        let y = b[i] as u32;
        assert(a@.skip(i as int)[0] == a@[i as int]);
        assert(b@.skip(i as int)[0] == b@[i as int]);
        if x < y {
            return -1;
        }
        if x > y {
            return 1;
        }
        assert(a@.skip(i as int).drop_first() == a@.skip(i + 1));
        assert(b@.skip(i as int).drop_first() == b@.skip(i + 1));
        i += 1;
    }
    if i == a.len() && i == b.len() {
        0
    } else if i == a.len() {
        -1
    } else {
        1
    }
}

/// Compares two optional timestamps, absent before present (-1, 0 or 1).
pub fn compare_time(a: Option<i64>, b: Option<i64>) -> (r: i8)
    ensures
        r == time_order(a, b),
{
    match (a, b) {
        (None, None) => 0,
        (None, Some(_)) => -1,
        (Some(_), None) => 1,
        (Some(x), Some(y)) => if x < y {
            -1
        } else if x > y {
            1
        } else {
            0
        },
    }
}

/// The timestamp a row is ordered by.
pub fn row_sort_time(row: &SessionRow, k: SortKey) -> (r: Option<i64>)
    ensures
        r == sort_time(*row, k),
{
    match k {
        SortKey::UpdatedAt => if row.updated_at.is_some() {
            row.updated_at
        } else {
            row.created_at
        },
        SortKey::CreatedAt => row.created_at,
    }
}

/// Compares two rows in the order of the session list (-1, 0 or 1).
pub fn compare_rows(k: SortKey, a: &SessionRow, b: &SessionRow) -> (r: i8)
    ensures
        r == row_order(k, *a, *b),
{
    let c = compare_time(row_sort_time(b, k), row_sort_time(a, k));
    if c != 0 {
        c
    } else {
        let x = chars_of(a.thread_id.as_str());
        let y = chars_of(b.thread_id.as_str());
        compare_text(x.as_slice(), y.as_slice())
    }
}

/// The comparator of the session list: later timestamps first (for `UpdatedAt`, the update
/// time falling back to the creation time), then ascending thread id.
pub fn session_cmp(sort_key: SortKey, a: &SessionRow, b: &SessionRow) -> (o: std::cmp::Ordering)
    ensures
        (o == std::cmp::Ordering::Less) == (row_order(sort_key, *a, *b) < 0),
        (o == std::cmp::Ordering::Equal) == (row_order(sort_key, *a, *b) == 0),
        (o == std::cmp::Ordering::Greater) == (row_order(sort_key, *a, *b) > 0),
{
    let c = compare_rows(sort_key, a, b);
    if c < 0 {
        std::cmp::Ordering::Less
    } else if c == 0 {
        std::cmp::Ordering::Equal
    } else {
        std::cmp::Ordering::Greater
    }
}

/// Sorts rows stably in the order of the session list.
pub fn sort_session_rows(rows: &[SessionRow], k: SortKey) -> (r: Vec<SessionRow>)
    ensures
        r@ == sort_rows(rows@, k),
{
    let mut out: Vec<SessionRow> = Vec::new();
    let mut i: usize = 0;
    while i < rows.len()
        invariant
            i <= rows.len(),
            out@ == sort_rows(rows@.take(i as int), k),
        decreases rows.len() - i,
    {
        let x = rows[i].duplicate();
        let mut j: usize = out.len();
        while j > 0 && compare_rows(k, &out[j - 1], &x) > 0
            invariant
                j <= out.len(),
                forall|m: int| j <= m < out.len() ==> row_order(k, #[trigger] out@[m], x) > 0,
            decreases j,
        {
            j -= 1;
        }
        proof {
            lemma_insert_row_at(out@, x, j as int, k);
            assert(rows@.take(i + 1).drop_last() == rows@.take(i as int));
            assert(rows@.take(i + 1).last() == x);
        }
        out.insert(j, x);
        i += 1;
    }
    assert(rows@.take(rows.len() as int) == rows@);
    out
}

// ---------------------------------------------------------------------------
// Searching

/// The search term a query stands for: trimmed, then lowercased.
pub open spec fn search_term(query: Seq<char>) -> Seq<char> {
    lowercase(trim(query))
}

/// The lowercased field contains the term.
pub open spec fn field_has(field: Seq<char>, term: Seq<char>) -> bool {
    contains_run(lowercase(field), term)
}

/// An optional lowercased field is present and contains the term.
pub open spec fn opt_field_has(field: Option<String>, term: Seq<char>) -> bool {
    match field {
        Some(f) => field_has(f@, term),
        None => false,
    }
}

/// Whether a row matches a (lowercased) search term: every row matches the empty term;
/// otherwise some field of the row contains it.
pub open spec fn row_matches(row: SessionRow, term: Seq<char>) -> bool {
    ||| term.len() == 0
    ||| field_has(preview_text(row), term)
    ||| opt_field_has(row.thread_name, term)
    ||| field_has(row.provider@, term)
    ||| field_has(row.source@, term)
    ||| opt_field_has(row.git_branch, term)
    ||| (row.archived && contains_run("archived"@, term))
    ||| field_has(row.cwd@, term)
    ||| field_has(row.thread_id@, term)
}

/// The rows that match a term, in their original order.
pub open spec fn matching_rows(rows: Seq<SessionRow>, term: Seq<char>) -> Seq<SessionRow>
    decreases rows.len(),
{
    if rows.len() == 0 {
        rows
    } else if row_matches(rows.last(), term) {
        matching_rows(rows.drop_last(), term).push(rows.last())
    } else {
        matching_rows(rows.drop_last(), term)
    }
}

/// What the session list shows for a query: the matching rows, stably sorted.
pub open spec fn filtered_rows(rows: Seq<SessionRow>, query: Seq<char>, k: SortKey) -> Seq<
    SessionRow,
> {
    sort_rows(matching_rows(rows, search_term(query)), k)
}

fn field_contains(field: &str, term: &[char]) -> (b: bool)
    ensures
        b == field_has(field@, term@),
{
    let low = to_lowercase(field);
    let chars = chars_of(low.as_str());
    contains_chars(chars.as_slice(), term)
}

fn opt_field_contains(field: &Option<String>, term: &[char]) -> (b: bool)
    ensures
        b == opt_field_has(*field, term@),
{
    match field {
        Some(f) => field_contains(f.as_str(), term),
        None => false,
    }
}

/// Whether a row matches a lowercased search term.
pub fn row_matches_term(row: &SessionRow, term: &[char]) -> (b: bool)
    ensures
        b == row_matches(*row, term@),
{
    if term.len() == 0 {
        return true;
    }
    let archived = chars_of("archived");
    field_contains(row.display_preview(), term) || opt_field_contains(&row.thread_name, term)
        || field_contains(row.provider.as_str(), term) || field_contains(row.source.as_str(), term)
        || opt_field_contains(&row.git_branch, term) || (row.archived && contains_chars(
        archived.as_slice(),
        term,
    )) || field_contains(row.cwd.as_str(), term) || field_contains(row.thread_id.as_str(), term)
}

/// The rows that match `query` (trimmed and lowercased; an empty query matches all),
/// sorted stably with `session_cmp`.
pub fn filter_rows(rows: &[SessionRow], query: &str, sort_key: SortKey) -> (r: Vec<SessionRow>)
    ensures
        r@ == filtered_rows(rows@, query@, sort_key),
        trim(query@).len() == 0 ==> r@ == sort_rows(rows@, sort_key),
{
    let q = chars_of(query);
    let trimmed = trim_chars(q.as_slice());
    let trimmed_str = string_of(trimmed.as_slice());
    let low = to_lowercase(trimmed_str.as_str());
    let term = chars_of(low.as_str());
    let mut kept: Vec<SessionRow> = Vec::new();
    let mut i: usize = 0;
    while i < rows.len()
        invariant
            i <= rows.len(),
            term@ == search_term(query@),
            kept@ == matching_rows(rows@.take(i as int), term@),
        decreases rows.len() - i,
    {
        proof {
            assert(rows@.take(i + 1).drop_last() == rows@.take(i as int));
            assert(rows@.take(i + 1).last() == rows@[i as int]);
        }
        if row_matches_term(&rows[i], term.as_slice()) {
            kept.push(rows[i].duplicate());
        }
        i += 1;
    }
    assert(rows@.take(rows.len() as int) == rows@);
    proof {
        if term@.len() == 0 {
            lemma_empty_term_matches_all(rows@, term@);
        }
    }
    sort_session_rows(kept.as_slice(), sort_key)
}

proof fn lemma_empty_term_matches_all(rows: Seq<SessionRow>, term: Seq<char>)
    requires
        term.len() == 0,
    ensures
        matching_rows(rows, term) == rows,
    decreases rows.len(),
{
    if rows.len() > 0 {
        lemma_empty_term_matches_all(rows.drop_last(), term);
        assert(rows.drop_last().push(rows.last()) == rows);
    }
}

proof fn lemma_matching_rows_multiset(rows: Seq<SessionRow>, term: Seq<char>)
    ensures
        forall|r: SessionRow|
            #[trigger] matching_rows(rows, term).to_multiset().count(r) == if row_matches(r, term) {
                rows.to_multiset().count(r)
            } else {
                0
            },
    decreases rows.len(),
{
    rows.to_multiset_ensures();
    if rows.len() > 0 {
        let u = rows.drop_last();
        lemma_matching_rows_multiset(u, term);
        u.to_multiset_ensures();
        matching_rows(u, term).to_multiset_ensures();
        assert(u.push(rows.last()) == rows);
    }
}

/// What the session list shows for a query is sorted in list order: a later row never has a
/// later timestamp than an earlier one, and rows with equal timestamps are in ascending
/// thread-id order.
pub proof fn law_filtered_rows_sorted(rows: Seq<SessionRow>, query: Seq<char>, k: SortKey)
    ensures
        rows_sorted(filtered_rows(rows, query, k), k),
        forall|i: int, j: int|
            0 <= i < j < filtered_rows(rows, query, k).len() ==> time_order(
                sort_time(#[trigger] filtered_rows(rows, query, k)[j], k),
                sort_time(#[trigger] filtered_rows(rows, query, k)[i], k),
            ) <= 0,
{
    lemma_sort_rows_sorted(matching_rows(rows, search_term(query)), k);
}

/// White space around a query changes nothing: the list for `a + query + b`, with `a` and
/// `b` white space, is the list for `query`.
pub proof fn law_search_ignores_surrounding_white(
    rows: Seq<SessionRow>,
    query: Seq<char>,
    a: Seq<char>,
    b: Seq<char>,
    k: SortKey,
)
    requires
        all_white(a),
        all_white(b),
    ensures
        filtered_rows(rows, a + query + b, k) == filtered_rows(rows, query, k),
{
    lemma_trim_ignores_white_around(a, query, b);
}

/// What the session list shows for a query holds each matching row exactly as often as the
/// input does, and no other row.
pub proof fn law_filtered_rows_are_the_matches(rows: Seq<SessionRow>, query: Seq<char>, k: SortKey)
    ensures
        forall|r: SessionRow|
            #[trigger] filtered_rows(rows, query, k).to_multiset().count(r) == if row_matches(
                r,
                search_term(query),
            ) {
                rows.to_multiset().count(r)
            } else {
                0
            },
{
    lemma_sort_rows_multiset(matching_rows(rows, search_term(query)), k);
    lemma_matching_rows_multiset(rows, search_term(query));
}

/// The list is newest first: under `UpdatedAt` a row is dated by its update time, or its
/// creation time when it has none; under `CreatedAt` by its creation time. A later row is
/// never dated later than an earlier one, and undated rows come last.
pub proof fn law_list_is_newest_first(rows: Seq<SessionRow>, query: Seq<char>, k: SortKey)
    ensures
        forall|i: int, j: int|
            0 <= i < j < filtered_rows(rows, query, k).len() ==> {
                let a = #[trigger] filtered_rows(rows, query, k)[i];
                let b = #[trigger] filtered_rows(rows, query, k)[j];
                let da = match k {
                    SortKey::UpdatedAt => if a.updated_at is Some {
                        a.updated_at
                    } else {
                        a.created_at
                    },
                    SortKey::CreatedAt => a.created_at,
                };
                let db = match k {
                    SortKey::UpdatedAt => if b.updated_at is Some {
                        b.updated_at
                    } else {
                        b.created_at
                    },
                    SortKey::CreatedAt => b.created_at,
                };
                &&& da is None ==> db is None
                &&& (da is Some && db is Some) ==> db->0 <= da->0
            },
{
    law_filtered_rows_sorted(rows, query, k);
}

/// Search looks in every field of a session: a loaded row is listed for a query exactly
/// when the query's term (trimmed, lowercased) is empty, or occurs in the lowercase of its
/// name or preview, provider, source, branch, working directory or thread id, or is part
/// of `archived` for an archived session. The list holds only loaded rows.
pub proof fn law_search_looks_in_every_field(
    rows: Seq<SessionRow>,
    query: Seq<char>,
    k: SortKey,
    i: int,
)
    requires
        0 <= i < rows.len(),
    ensures
        ({
            let row = rows[i];
            let term = lowercase(trim(query));
            let listed = filtered_rows(rows, query, k).contains(row);
            &&& term.len() == 0 ==> listed
            &&& contains_run(lowercase(row.thread_id@), term) ==> listed
            &&& contains_run(lowercase(row.provider@), term) ==> listed
            &&& contains_run(lowercase(row.source@), term) ==> listed
            &&& contains_run(lowercase(row.cwd@), term) ==> listed
            &&& (row.thread_name matches Some(name) && contains_run(lowercase(name@), term))
                ==> listed
            &&& (row.thread_name is None && contains_run(lowercase(row.preview@), term))
                ==> listed
            &&& (row.git_branch matches Some(b) && contains_run(lowercase(b@), term)) ==> listed
            &&& (row.archived && contains_run("archived"@, term)) ==> listed
            &&& listed ==> {
                ||| term.len() == 0
                ||| contains_run(lowercase(row.thread_id@), term)
                ||| contains_run(lowercase(row.provider@), term)
                ||| contains_run(lowercase(row.source@), term)
                ||| contains_run(lowercase(row.cwd@), term)
                ||| (row.thread_name matches Some(name) && contains_run(lowercase(name@), term))
                ||| (row.thread_name is None && contains_run(lowercase(row.preview@), term))
                ||| (row.git_branch matches Some(b) && contains_run(lowercase(b@), term))
                ||| (row.archived && contains_run("archived"@, term))
            }
        }),
        forall|r: SessionRow| #[trigger] filtered_rows(rows, query, k).contains(r) ==> rows.contains(
            r,
        ),
{
    let f = filtered_rows(rows, query, k);
    law_filtered_rows_are_the_matches(rows, query, k);
    rows.to_multiset_ensures();
    f.to_multiset_ensures();
    assert(rows.contains(rows[i]));
    assert(f.to_multiset().count(rows[i]) == if row_matches(rows[i], search_term(query)) {
        rows.to_multiset().count(rows[i])
    } else {
        0
    });
    assert forall|r: SessionRow| #[trigger] f.contains(r) implies rows.contains(r) by {
        assert(f.to_multiset().count(r) > 0);
    }
}

// ---------------------------------------------------------------------------
// Rows of the state database

/// The columns of one row of the `threads` query, as read (absent columns already stood in
/// for by the query's fallbacks).
pub struct ThreadColumns {
    pub id: String,
    pub title: String,
    pub first_user_message: String,
    pub created_at: Option<i64>,
    pub updated_at: Option<i64>,
    pub archived: i64,
    pub model_provider: String,
    pub source: String,
    pub cwd: String,
    pub rollout_path: String,
    pub git_branch: Option<String>,
}

/// The preview of a thread: its first user message when not blank, else its title when
/// not blank, else `(no message yet)`.
pub open spec fn preview_of(first_user_message: Seq<char>, title: Seq<char>) -> Seq<char> {
    if trim(first_user_message).len() > 0 {
        first_user_message
    } else if trim(title).len() > 0 {
        title
    } else {
        "(no message yet)"@
    }
}

/// The session a row of the `threads` query describes.
pub open spec fn session_of(c: ThreadColumns, row: SessionRow) -> bool {
    &&& row.thread_id == c.id
    &&& row.thread_name is None
    &&& row.preview@ == preview_of(c.first_user_message@, c.title@)
    &&& row.created_at == epoch_value(c.created_at)
    &&& row.updated_at == epoch_value(c.updated_at)
    &&& row.archived == (c.archived != 0)
    &&& row.provider@ == provider_label_of(c.model_provider@)
    &&& row.source@ == source_label_of(c.source@)
    &&& row.cwd == c.cwd
    &&& row.rollout_path == c.rollout_path
    &&& row.git_branch == c.git_branch
}

/// The session described by one row of the `threads` query.
pub fn row_to_session(c: ThreadColumns) -> (r: SessionRow)
    ensures
        session_of(c, r),
{
    let fm = chars_of(c.first_user_message.as_str());
    let ti = chars_of(c.title.as_str());
    let preview = if trim_chars(fm.as_slice()).len() > 0 {
        c.first_user_message.clone()
    } else if trim_chars(ti.as_slice()).len() > 0 {
        c.title.clone()
    } else {
        "(no message yet)".to_string()
    };
    let provider = normalize_provider_label(c.model_provider.as_str());
    let source = normalize_source_label(c.source.as_str());
    SessionRow {
        thread_id: c.id,
        thread_name: None,
        preview,
        created_at: epoch_opt(c.created_at),
        updated_at: epoch_opt(c.updated_at),
        archived: c.archived != 0,
        provider,
        source,
        cwd: c.cwd,
        rollout_path: c.rollout_path,
        git_branch: c.git_branch,
    }
}

/// What a session row keeps of its database row: the preview is the first user message
/// when it is not blank, else the title when that is not blank, else `(no message yet)`;
/// the provider is trimmed, `unknown` when blank; `mcp` shows as `app-server`, a blank
/// source as `unknown`, the known sources and any other text (but a subagent's JSON) as
/// they are; a time is kept only when `DateTime<Utc>` can hold it; a nonzero `archived`
/// marks the session archived; id, directory, rollout path and branch are kept; there is
/// no name yet.
pub proof fn law_session_row_from_columns(c: ThreadColumns, r: SessionRow)
    requires
        session_of(c, r),
    ensures
        trim(c.first_user_message@).len() > 0 ==> r.preview@ == c.first_user_message@,
        trim(c.first_user_message@).len() == 0 && trim(c.title@).len() > 0 ==> r.preview@
            == c.title@,
        trim(c.first_user_message@).len() == 0 && trim(c.title@).len() == 0 ==> r.preview@
            == "(no message yet)"@,
        trim(c.model_provider@).len() > 0 ==> r.provider@ == trim(c.model_provider@),
        trim(c.model_provider@).len() == 0 ==> r.provider@ == "unknown"@,
        c.source@ == "mcp"@ ==> r.source@ == "app-server"@,
        c.source@ == "cli"@ || c.source@ == "exec"@ || c.source@ == "vscode"@ ==> r.source
            @ == c.source@,
        !has_prefix(c.source@, "{"@) && trim(c.source@).len() > 0 && c.source@ != "mcp"@
            ==> r.source@ == c.source@,
        trim(c.source@).len() == 0 ==> r.source@ == "unknown"@,
        c.created_at matches Some(t) ==> (r.created_at == if MIN_TIMESTAMP <= t <= MAX_TIMESTAMP {
            Some(t)
        } else {
            None
        }),
        c.created_at is None ==> r.created_at is None,
        c.updated_at matches Some(t) ==> (r.updated_at == if MIN_TIMESTAMP <= t <= MAX_TIMESTAMP {
            Some(t)
        } else {
            None
        }),
        c.updated_at is None ==> r.updated_at is None,
        r.archived <==> c.archived != 0,
        r.thread_id == c.id,
        r.thread_name is None,
        r.cwd == c.cwd,
        r.rollout_path == c.rollout_path,
        r.git_branch == c.git_branch,
{
    reveal_strlit("mcp");
    reveal_strlit("cli");
    reveal_strlit("exec");
    reveal_strlit("vscode");
    reveal_strlit("{");
    let raw = c.source@;
    lemma_blank_is_white(raw);
    if trim(raw).len() == 0 {
        assert(raw != "mcp"@ && raw != "cli"@ && raw != "exec"@ && raw != "vscode"@) by {
            if raw.len() > 0 {
                assert(all_white(raw));
                assert(is_white(raw[0]));
            }
        }
        assert(!has_prefix(raw, "{"@)) by {
            if has_prefix(raw, "{"@) {
                assert(raw[0] == raw.take(1)[0]);
                assert(is_white(raw[0]));
            }
        }
    }
}

/// A page of rows; a full page means more may follow.
pub fn session_page(rows: Vec<SessionRow>) -> (r: SessionPage)
    ensures
        r.rows == rows,
        r.has_more == (rows.len() == PAGE_SIZE),
{
    let has_more = rows.len() == PAGE_SIZE;
    SessionPage { has_more, rows }
}

/// The thread ids of the rows, in order.
pub fn thread_ids(rows: &[SessionRow]) -> (r: Vec<String>)
    ensures
        r@.len() == rows@.len(),
        forall|i: int| 0 <= i < rows@.len() ==> #[trigger] r@[i] == rows@[i].thread_id,
{
    let mut r: Vec<String> = Vec::new();
    let mut i: usize = 0;
    while i < rows.len()
        invariant
            i <= rows.len(),
            r@.len() == i,
            forall|k: int| 0 <= k < i ==> #[trigger] r@[k] == rows@[k].thread_id,
        decreases rows.len() - i,
    {
        r.push(rows[i].thread_id.clone());
        i += 1;
    }
    r
}

/// The name paired with `id`, the last such pair winning.
pub open spec fn name_for(names: Seq<(String, String)>, id: Seq<char>) -> Option<Seq<char>>
    decreases names.len(),
{
    if names.len() == 0 {
        None
    } else if names.last().0@ == id {
        Some(names.last().1@)
    } else {
        name_for(names.drop_last(), id)
    }
}

fn find_name(names: &Vec<(String, String)>, id: &String) -> (r: Option<String>)
    ensures
        match r {
            Some(n) => name_for(names@, id@) == Some(n@),
            None => name_for(names@, id@) is None,
        },
{
    let mut k: usize = names.len();
    assert(names@.take(names.len() as int) == names@);
    while k > 0
        invariant
            k <= names.len(),
            name_for(names@, id@) == name_for(names@.take(k as int), id@),
        decreases k,
    {
        proof {
            assert(names@.take(k as int).drop_last() == names@.take(k - 1));
            assert(names@.take(k as int).last() == names@[k - 1]);
        }
        if names[k - 1].0 == *id {
            return Some(names[k - 1].1.clone());
        }
        k -= 1;
    }
    None
}

/// The rows with each session's name set from the names found (none where there is none).
pub fn apply_thread_names(rows: &[SessionRow], names: &Vec<(String, String)>) -> (r: Vec<
    SessionRow,
>)
    ensures
        r@.len() == rows@.len(),
        forall|i: int|
            0 <= i < rows@.len() ==> {
                &&& (#[trigger] r@[i]) == SessionRow { thread_name: r@[i].thread_name, ..rows@[i] }
                &&& match r@[i].thread_name {
                    Some(n) => name_for(names@, rows@[i].thread_id@) == Some(n@),
                    None => name_for(names@, rows@[i].thread_id@) is None,
                }
            },
{
    let mut out: Vec<SessionRow> = Vec::new();
    let mut i: usize = 0;
    while i < rows.len()
        invariant
            i <= rows.len(),
            out@.len() == i,
            forall|k: int|
                0 <= k < i ==> {
                    &&& (#[trigger] out@[k]) == SessionRow {
                        thread_name: out@[k].thread_name,
                        ..rows@[k]
                    }
                    &&& match out@[k].thread_name {
                        Some(n) => name_for(names@, rows@[k].thread_id@) == Some(n@),
                        None => name_for(names@, rows@[k].thread_id@) is None,
                    }
                },
        decreases rows.len() - i,
    {
        let mut row = rows[i].duplicate();
        row.thread_name = find_name(names, &rows[i].thread_id);
        out.push(row);
        i += 1;
    }
    out
}

} // verus!
