//! The text the picker shows: column widths, truncation, relative times and captions.
use vstd::prelude::*;
use vstd::string::*;
use crate::data::{
    preview_text, representable, short_id_text, sort_time, SessionDbOptions, SessionRow, SortKey,
};
use crate::picker::{page_height, visible_top, PickerState};
use crate::text::{
    append_chars, append_str, chars_of, decimal, decimal_chars, pad_right, pad_right_chars,
    push_char, string_of,
};

verus! {

/// The width of the preview column.
pub const PREVIEW_WIDTH: usize = 80;

/// The width of the session id column.
pub const ID_WIDTH: usize = 12;

/// The width in terminal columns that `unicode_width::UnicodeWidthStr::width` gives a
/// string; a function of its characters alone.
pub uninterp spec fn display_width(s: Seq<char>) -> nat;

/// `UnicodeWidthStr::width`: the contract names the result `display_width(s@)`.
#[verifier::external_body]
fn str_width(s: &str) -> (w: usize)
    ensures
        w == display_width(s@),
{
    unicode_width::UnicodeWidthStr::width(s)
}

/// The width of one character written alone.
pub open spec fn char_width(c: char) -> nat {
    display_width(seq![c])
}

/// The width of a single character, as `str_width` of a one-character string.
fn width_of_char(c: char) -> (w: usize)
    ensures
        w == char_width(c),
{
    let mut s = String::new();
    push_char(&mut s, c);
    assert(s@ == seq![c]);
    str_width(s.as_str())
}

/// How many leading characters fit in `max` columns next to an ellipsis: characters
/// are taken from `i` on while the width so far plus the next one's stays below `max`.
pub open spec fn fit_count(widths: Seq<nat>, max: int, i: int, acc: int) -> int
    decreases widths.len() - i,
{
    if i < 0 || i >= widths.len() || acc + widths[i] >= max {
        if i < 0 {
            0
        } else {
            i
        }
    } else {
        fit_count(widths, max, i + 1, acc + widths[i])
    }
}

/// A text cut to `max` columns given its width and its characters' widths: empty for no
/// columns, unchanged when it fits, else the characters that fit followed by `…`.
pub open spec fn truncated(text: Seq<char>, width: nat, widths: Seq<nat>, max: nat) -> Seq<char> {
    if max == 0 {
        Seq::empty()
    } else if width <= max {
        text
    } else {
        text.take(fit_count(widths, max as int, 0, 0)).push('…')
    }
}

/// The widths of the characters of a text, each written alone.
pub open spec fn char_widths(text: Seq<char>) -> Seq<nat> {
    Seq::new(text.len(), |i: int| char_width(text[i]))
}

/// `text` cut to `max_width` columns.
pub open spec fn truncated_text(text: Seq<char>, max_width: nat) -> Seq<char> {
    truncated(text, display_width(text), char_widths(text), max_width)
}

proof fn lemma_fit_count_bounds(widths: Seq<nat>, max: int, i: int, acc: int)
    requires
        0 <= i <= widths.len(),
    ensures
        i <= fit_count(widths, max, i, acc) <= widths.len(),
    decreases widths.len() - i,
{
    if i < widths.len() && acc + widths[i] < max {
        lemma_fit_count_bounds(widths, max, i + 1, acc + widths[i]);
    }
}

/// Cuts `text` (its width `width`, its characters' widths `widths`) to `max_width` columns.
pub fn truncate_by_widths(text: &[char], width: usize, widths: &[usize], max_width: usize) -> (r:
    Vec<char>)
    requires
        widths.len() == text.len(),
    ensures
        r@ == truncated(
            text@,
            width as nat,
            Seq::new(widths@.len(), |i: int| widths@[i] as nat),
            max_width as nat,
        ),
{
    let ghost ws = Seq::new(widths@.len(), |i: int| widths@[i] as nat);
    if max_width == 0 {
        return Vec::new();
    }
    if width <= max_width {
        let mut v: Vec<char> = Vec::new();
        append_chars(&mut v, text);
        return v;
    }
    let mut out: Vec<char> = Vec::new();
    let mut used: usize = 0;
    let mut i: usize = 0;
    let mut done = false;
    while i < text.len() && !done
        invariant
            i <= text.len(),
            done ==> i < text.len() && used + ws[i as int] >= max_width,
            widths.len() == text.len(),
            ws == Seq::new(widths@.len(), |i: int| widths@[i] as nat),
            used < max_width,
            out@ == text@.take(i as int),
            fit_count(ws, max_width as int, 0, 0) == fit_count(
                ws,
                max_width as int,
                i as int,
                used as int,
            ),
        decreases text.len() - i + (if done { 0int } else { 1int }),
    {
        let next = widths[i];
        if next >= max_width - used {
            done = true;
        } else {
            out.push(text[i]);
            used = used + next;
            i += 1;
            assert(text@.take(i as int) == text@.take(i - 1 as int).push(text@[i - 1]));
        }
    }
    proof {
        lemma_fit_count_bounds(ws, max_width as int, i as int, used as int);
    }
    assert(fit_count(ws, max_width as int, i as int, used as int) == i);
    out.push('…');
    out
}

/// Cuts `text` to `max_width` columns, marking a cut with `…`.
pub fn truncate_text(text: &str, max_width: usize) -> (r: String)
    ensures
        r@ == truncated_text(text@, max_width as nat),
{
    let chars = chars_of(text);
    let width = str_width(text);
    let mut widths: Vec<usize> = Vec::new();
    let mut i: usize = 0;
    while i < chars.len()
        invariant
            i <= chars.len(),
            chars@ == text@,
            widths@.len() == i,
            forall|k: int| 0 <= k < i ==> widths@[k] == char_width(#[trigger] chars@[k]),
        decreases chars.len() - i,
    {
        widths.push(width_of_char(chars[i]));
        i += 1;
    }
    let cut = truncate_by_widths(chars.as_slice(), width, widths.as_slice(), max_width);
    assert(Seq::new(widths@.len(), |i: int| widths@[i] as nat) =~= char_widths(text@));
    string_of(cut.as_slice())
}

/// `text` cut to `width` columns, then padded with spaces to `width` characters.
pub open spec fn padded_text(text: Seq<char>, width: nat) -> Seq<char> {
    pad_right(truncated_text(text, width), width)
}

/// Cuts `text` to `width` columns, then pads it with spaces to `width` characters.
pub fn pad_or_truncate(text: &str, width: usize) -> (r: String)
    ensures
        r@ == padded_text(text@, width as nat),
{
    let cut = truncate_text(text, width);
    let c = chars_of(cut.as_str());
    let p = pad_right_chars(c.as_slice(), width);
    string_of(p.as_slice())
}

/// How a working directory is shown.
pub fn display_cwd(cwd: &str) -> (r: String)
    ensures
        r@ == cwd@,
{
    cwd.to_string()
}

/// `n` followed by a unit, singular for one.
pub open spec fn count_text(n: nat, unit: Seq<char>) -> Seq<char> {
    if n == 1 {
        decimal(n) + " "@ + unit + " ago"@
    } else {
        decimal(n) + " "@ + unit + "s ago"@
    }
}

/// How long ago `ts` was at `now` (in seconds since the epoch): whole seconds under a
/// minute, whole minutes under an hour, whole hours under a day, else whole days; a
/// time in the future counts as zero seconds.
pub open spec fn time_ago_text(ts: int, now: int) -> Seq<char> {
    let secs = if now - ts > 0 {
        now - ts
    } else {
        0
    };
    if secs < 60 {
        count_text(secs as nat, "second"@)
    } else if secs < 3600 {
        count_text((secs / 60) as nat, "minute"@)
    } else if secs < 86400 {
        count_text((secs / 3600) as nat, "hour"@)
    } else {
        count_text((secs / 86400) as nat, "day"@)
    }
}

fn count_phrase(n: u64, unit: &str) -> (r: String)
    ensures
        r@ == count_text(n as nat, unit@),
{
    let mut v = decimal_chars(n);
    append_str(&mut v, " ");
    append_str(&mut v, unit);
    if n == 1 {
        append_str(&mut v, " ago");
    } else {
        append_str(&mut v, "s ago");
    }
    string_of(v.as_slice())
}

/// How long ago `ts` was at `now`.
pub fn human_time_ago(ts: i64, now: i64) -> (r: String)
    requires
        representable(ts as int),
        representable(now as int),
    ensures
        r@ == time_ago_text(ts as int, now as int),
{
    let delta = now - ts;
    let secs: u64 = if delta > 0 {
        delta as u64
    } else {
        0
    };
    if secs < 60 {
        count_phrase(secs, "second")
    } else if secs < 3600 {
        count_phrase(secs / 60, "minute")
    } else if secs < 86400 {
        count_phrase(secs / 3600, "hour")
    } else {
        count_phrase(secs / 86400, "day")
    }
}

/// A row's time caption under a sort key: how long ago its sort time was, or `-`.
pub open spec fn time_label_text(row: SessionRow, k: SortKey, now: int) -> Seq<char> {
    match sort_time(row, k) {
        Some(t) => time_ago_text(t as int, now),
        None => "-"@,
    }
}

/// The row's time caption under a sort key.
pub fn format_time_label(row: &SessionRow, sort_key: SortKey, now: i64) -> (r: String)
    requires
        row.created_at matches Some(t) ==> representable(t as int),
        row.updated_at matches Some(t) ==> representable(t as int),
        representable(now as int),
    ensures
        r@ == time_label_text(*row, sort_key, now as int),
{
    let ts = match sort_key {
        SortKey::UpdatedAt => if row.updated_at.is_some() {
            row.updated_at
        } else {
            row.created_at
        },
        SortKey::CreatedAt => row.created_at,
    };
    match ts {
        Some(t) => human_time_ago(t, now),
        None => "-".to_string(),
    }
}

/// The scope caption: sources, working directory and archived sessions.
pub open spec fn scope_text(options: SessionDbOptions) -> Seq<char> {
    (if options.include_non_interactive {
        "all sources"@
    } else {
        "interactive only"@
    }) + " / "@ + (if options.filter_cwd is Some {
        "cwd"@
    } else {
        "all cwd"@
    }) + " / "@ + (if options.include_archived {
        "archived"@
    } else {
        "no archived"@
    })
}

/// The scope caption of the options.
pub fn scope_label(options: &SessionDbOptions) -> (r: String)
    ensures
        r@ == scope_text(*options),
{
    let mut v: Vec<char> = Vec::new();
    append_str(
        &mut v,
        if options.include_non_interactive {
            "all sources"
        } else {
            "interactive only"
        },
    );
    append_str(&mut v, " / ");
    append_str(
        &mut v,
        if options.filter_cwd.is_some() {
            "cwd"
        } else {
            "all cwd"
        },
    );
    append_str(&mut v, " / ");
    append_str(
        &mut v,
        if options.include_archived {
            "archived"
        } else {
            "no archived"
        },
    );
    string_of(v.as_slice())
}

/// The widths of the list's columns.
#[derive(Clone, Copy, Debug, PartialEq, Eq, Structural)]
pub struct ColumnMetrics {
    pub time_width: usize,
    pub provider_width: usize,
    pub id_width: usize,
    pub cwd_width: usize,
    pub preview_width: usize,
}

/// The largest of `f(rows[i])`, or `None` for no rows.
pub open spec fn max_over(widths: Seq<nat>) -> Option<nat>
    decreases widths.len(),
{
    if widths.len() == 0 {
        None
    } else {
        match max_over(widths.drop_last()) {
            Some(m) => Some(if m >= widths.last() {
                m
            } else {
                widths.last()
            }),
            None => Some(widths.last()),
        }
    }
}

/// `v` limited to `lo..=hi`.
pub open spec fn clamped(v: nat, lo: nat, hi: nat) -> nat {
    if v < lo {
        lo
    } else if v > hi {
        hi
    } else {
        v
    }
}

/// The widths of the rows' time captions (by update time).
pub open spec fn time_widths(rows: Seq<SessionRow>, now: int) -> Seq<nat> {
    Seq::new(rows.len(), |i: int| display_width(time_label_text(rows[i], SortKey::UpdatedAt, now)))
}

/// The width of the time column: the widest time caption, at least 10.
pub open spec fn time_column_width(rows: Seq<SessionRow>, now: int) -> nat {
    match max_over(time_widths(rows, now)) {
        Some(m) => if m < 10 {
            10
        } else {
            m
        },
        None => 10,
    }
}

/// The column widths for a list: the widest time caption (at least 10), the widest
/// provider (from 8 to 14), 12 for ids, the widest directory (from 12 to 28), and 80.
pub open spec fn metrics_of(rows: Seq<SessionRow>, now: int) -> ColumnMetrics {
    let providers = Seq::new(rows.len(), |i: int| display_width(rows[i].provider@));
    let cwds = Seq::new(rows.len(), |i: int| display_width(rows[i].cwd@));
    ColumnMetrics {
        time_width: time_column_width(rows, now) as usize,
        provider_width: clamped(
            match max_over(providers) {
                Some(m) => m,
                None => 8,
            },
            8,
            14,
        ) as usize,
        id_width: 12,
        cwd_width: clamped(
            match max_over(cwds) {
                Some(m) => m,
                None => 3,
            },
            12,
            28,
        ) as usize,
        preview_width: 80,
    }
}

/// All times of the rows are within what `DateTime<Utc>` holds.
pub open spec fn times_representable(rows: Seq<SessionRow>) -> bool {
    forall|i: int|
        0 <= i < rows.len() ==> ((#[trigger] rows[i]).created_at matches Some(t) ==> representable(
            t as int,
        )) && (rows[i].updated_at matches Some(t) ==> representable(t as int))
}

/// The column widths for the rows.
pub fn calculate_metrics(rows: &[SessionRow], now: i64) -> (r: ColumnMetrics)
    requires
        times_representable(rows@),
        representable(now as int),
    ensures
        r == metrics_of(rows@, now as int),
        r.time_width as nat == time_column_width(rows@, now as int),
        r.time_width >= 10,
        8 <= r.provider_width <= 14,
        r.id_width == 12,
        12 <= r.cwd_width <= 28,
        r.preview_width == 80,
        rows@.len() == 0 ==> r.time_width == 10 && r.provider_width == 8 && r.cwd_width == 12,
{
    let ghost times = time_widths(rows@, now as int);
    let ghost providers = Seq::new(rows@.len(), |i: int| display_width(rows@[i].provider@));
    let ghost cwds = Seq::new(rows@.len(), |i: int| display_width(rows@[i].cwd@));
    let mut time_max: Option<usize> = None;
    let mut provider_max: Option<usize> = None;
    let mut cwd_max: Option<usize> = None;
    let mut i: usize = 0;
    while i < rows.len()
        invariant
            i <= rows.len(),
            times_representable(rows@),
            representable(now as int),
            times == time_widths(rows@, now as int),
            providers == Seq::new(rows@.len(), |i: int| display_width(rows@[i].provider@)),
            cwds == Seq::new(rows@.len(), |i: int| display_width(rows@[i].cwd@)),
            opt_nat(time_max) == max_over(times.take(i as int)),
            opt_nat(provider_max) == max_over(providers.take(i as int)),
            opt_nat(cwd_max) == max_over(cwds.take(i as int)),
        decreases rows.len() - i,
    {
        let row = &rows[i];
        let label = format_time_label(row, SortKey::UpdatedAt, now);
        let tw = str_width(label.as_str());
        let pw = str_width(row.provider.as_str());
        let cw = str_width(display_cwd(row.cwd.as_str()).as_str());
        proof {
            assert(times.take(i + 1).drop_last() == times.take(i as int));
            assert(providers.take(i + 1).drop_last() == providers.take(i as int));
            assert(cwds.take(i + 1).drop_last() == cwds.take(i as int));
        }
        time_max = max_with(time_max, tw);
        provider_max = max_with(provider_max, pw);
        cwd_max = max_with(cwd_max, cw);
        i += 1;
    }
    assert(times.take(rows.len() as int) == times);
    assert(providers.take(rows.len() as int) == providers);
    assert(cwds.take(rows.len() as int) == cwds);
    let time_width = match time_max {
        Some(m) => if m < 10 {
            10
        } else {
            m
        },
        None => 10,
    };
    let p = match provider_max {
        Some(m) => m,
        None => 8,
    };
    let c = match cwd_max {
        Some(m) => m,
        None => 3,
    };
    ColumnMetrics {
        time_width,
        provider_width: clamp_usize(p, 8, 14),
        id_width: ID_WIDTH,
        cwd_width: clamp_usize(c, 12, 28),
        preview_width: PREVIEW_WIDTH,
    }
}

/// An optional machine number as an optional natural number.
pub open spec fn opt_nat(o: Option<usize>) -> Option<nat> {
    match o {
        Some(v) => Some(v as nat),
        None => None,
    }
}

fn max_with(m: Option<usize>, w: usize) -> (r: Option<usize>)
    ensures
        opt_nat(r) == match opt_nat(m) {
            Some(x) => Some(
                if x >= w as nat {
                    x
                } else {
                    w as nat
                },
            ),
            None => Some(w as nat),
        },
{
    match m {
        Some(x) => Some(
            if x >= w {
                x
            } else {
                w
            },
        ),
        None => Some(w),
    }
}

fn clamp_usize(v: usize, lo: usize, hi: usize) -> (r: usize)
    requires
        lo <= hi,
    ensures
        r == clamped(v as nat, lo as nat, hi as nat),
{
    if v < lo {
        lo
    } else if v > hi {
        hi
    } else {
        v
    }
}

/// The column header captions, each padded to its column's width, and the last caption.
pub struct ColumnHeader {
    pub time: String,
    pub provider: String,
    pub session_id: String,
    pub cwd: String,
    pub conversation: String,
}

/// The column header for the given widths.
pub fn column_header(metrics: &ColumnMetrics) -> (r: ColumnHeader)
    ensures
        r.time@ == pad_right("Time"@, metrics.time_width as nat),
        r.provider@ == pad_right("Provider"@, metrics.provider_width as nat),
        r.session_id@ == pad_right("Session ID"@, metrics.id_width as nat),
        r.cwd@ == pad_right("CWD"@, metrics.cwd_width as nat),
        r.conversation@ == "Conversation"@,
{
    ColumnHeader {
        time: string_of(pad_right_chars(chars_of("Time").as_slice(), metrics.time_width).as_slice()),
        provider: string_of(
            pad_right_chars(chars_of("Provider").as_slice(), metrics.provider_width).as_slice(),
        ),
        session_id: string_of(
            pad_right_chars(chars_of("Session ID").as_slice(), metrics.id_width).as_slice(),
        ),
        cwd: string_of(pad_right_chars(chars_of("CWD").as_slice(), metrics.cwd_width).as_slice()),
        conversation: "Conversation".to_string(),
    }
}

/// One line of the session list.
pub struct ListRow {
    pub selected: bool,
    pub archived: bool,
    pub time: String,
    pub provider: String,
    pub short_id: String,
    pub cwd: String,
    pub preview: String,
}

/// The text a row's preview column starts from: the preview, marked when archived.
pub open spec fn preview_column_text(row: SessionRow) -> Seq<char> {
    if row.archived {
        "[archived] "@ + preview_text(row)
    } else {
        preview_text(row)
    }
}

/// The columns of one list line.
pub open spec fn list_row_matches(
    line: ListRow,
    row: SessionRow,
    selected: bool,
    metrics: ColumnMetrics,
    k: SortKey,
    now: int,
) -> bool {
    &&& line.selected == selected
    &&& line.archived == row.archived
    &&& line.time@ == pad_right(time_label_text(row, k, now), metrics.time_width as nat)
    &&& line.provider@ == padded_text(row.provider@, metrics.provider_width as nat)
    &&& line.short_id@ == padded_text(short_id_text(row.thread_id@), metrics.id_width as nat)
    &&& line.cwd@ == padded_text(row.cwd@, metrics.cwd_width as nat)
    &&& line.preview@ == truncated_text(preview_column_text(row), metrics.preview_width as nat)
}

/// The columns of one row of the list.
pub fn list_row(
    row: &SessionRow,
    selected: bool,
    metrics: &ColumnMetrics,
    sort_key: SortKey,
    now: i64,
) -> (r: ListRow)
    requires
        row.created_at matches Some(t) ==> representable(t as int),
        row.updated_at matches Some(t) ==> representable(t as int),
        representable(now as int),
    ensures
        list_row_matches(r, *row, selected, *metrics, sort_key, now as int),
{
    let label = format_time_label(row, sort_key, now);
    let time = string_of(
        pad_right_chars(chars_of(label.as_str()).as_slice(), metrics.time_width).as_slice(),
    );
    let provider = pad_or_truncate(row.provider.as_str(), metrics.provider_width);
    let short_id = pad_or_truncate(row.short_id().as_str(), metrics.id_width);
    let cwd = pad_or_truncate(display_cwd(row.cwd.as_str()).as_str(), metrics.cwd_width);
    let mut text: Vec<char> = Vec::new();
    if row.archived {
        append_str(&mut text, "[archived] ");
    }
    append_str(&mut text, row.display_preview());
    let text = string_of(text.as_slice());
    let preview = truncate_text(text.as_str(), metrics.preview_width);
    ListRow { selected, archived: row.archived, time, provider, short_id, cwd, preview }
}

/// What stands in place of the list when nothing is listed.
pub open spec fn empty_state_text(loading: bool, query: Seq<char>) -> Seq<char> {
    if loading && query.len() == 0 {
        "Loading sessions..."@
    } else if loading {
        "Searching..."@
    } else if query.len() > 0 {
        "No results for your search"@
    } else {
        "No sessions yet"@
    }
}

/// What stands in place of an empty list.
pub fn render_empty_state_line(state: &PickerState) -> (r: &'static str)
    ensures
        r@ == empty_state_text(state.loading, state.query@),
{
    let empty = state.query.as_str().unicode_len() == 0;
    if state.loading && empty {
        "Loading sessions..."
    } else if state.loading {
        "Searching..."
    } else if !empty {
        "No results for your search"
    } else {
        "No sessions yet"
    }
}

/// The lines of the list: an empty-state message, or the visible rows followed, while
/// loading and where room is left, by a loading line.
pub enum ListLines {
    Empty(&'static str),
    Rows(Vec<ListRow>, bool),
}

/// The first visible row: the scroll position, at most the last row.
pub open spec fn window_start(scroll_top: int, len: int) -> int {
    if len == 0 {
        0
    } else if scroll_top < len - 1 {
        scroll_top
    } else {
        len - 1
    }
}

/// The number of rows a page holds: the height, at least one.
pub open spec fn page_rows(height: int) -> int {
    if height < 1 {
        1
    } else {
        height
    }
}

/// The end of the visible rows.
pub open spec fn window_end(start: int, len: int, height: int) -> int {
    if start + page_rows(height) < len {
        start + page_rows(height)
    } else {
        len
    }
}

/// The list shows the rows from the scroll position on: when the scroll position is a
/// row, the window starts there and holds as many rows as the list is high (at least one),
/// or up to the last row.
pub proof fn law_list_window_starts_at_scroll_position(scroll_top: int, n: int, height: int)
    requires
        0 <= scroll_top < n,
    ensures
        window_start(scroll_top, n) == scroll_top,
        height >= 1 && scroll_top + height <= n ==> window_end(scroll_top, n, height)
            == scroll_top + height,
        height < 1 ==> window_end(scroll_top, n, height) == scroll_top + 1,
        scroll_top + height > n ==> window_end(scroll_top, n, height) == n,
{
}

/// After the selection is kept visible in a list `view_rows` high, the selected row is
/// among the rows the list shows, and the list starts at the scroll position.
pub proof fn law_selected_row_is_shown(selected: usize, top: usize, view_rows: usize, n: int)
    requires
        selected < n,
    ensures
        ({
            let scroll = visible_top(selected as int, top as int, page_height(view_rows));
            &&& window_start(scroll, n) == scroll
            &&& scroll <= selected < window_end(scroll, n, view_rows as int)
        }),
{
}

/// The lines of the list for a list area `page_height` rows high.
pub fn list_lines(state: &PickerState, metrics: &ColumnMetrics, page_height: usize, now: i64) -> (r:
    ListLines)
    requires
        times_representable(state.filtered_rows@),
        representable(now as int),
    ensures
        state.filtered_rows.len() == 0 ==> (r matches ListLines::Empty(m) && m@ == empty_state_text(
            state.loading,
            state.query@,
        )),
        state.filtered_rows.len() > 0 ==> (r matches ListLines::Rows(rows, loading_line) && {
            let n = state.filtered_rows.len() as int;
            let start = window_start(state.scroll_top as int, n);
            let end = window_end(start, n, page_height as int);
            &&& rows.len() == end - start
            &&& forall|j: int|
                0 <= j < rows.len() ==> list_row_matches(
                    #[trigger] rows@[j],
                    state.filtered_rows@[start + j],
                    start + j == state.selected,
                    *metrics,
                    state.sort_key,
                    now as int,
                )
            &&& loading_line == (state.loading && rows.len() < page_rows(page_height as int))
        }),
{
    if state.filtered_rows.len() == 0 {
        return ListLines::Empty(render_empty_state_line(state));
    }
    let n = state.filtered_rows.len();
    let height: usize = if page_height > 1 {
        page_height
    } else {
        1
    };
    let start = if state.scroll_top < n - 1 {
        state.scroll_top
    } else {
        n - 1
    };
    let end = if height < n - start {
        start + height
    } else {
        n
    };
    let mut rows: Vec<ListRow> = Vec::new();
    let mut i: usize = start;
    while i < end
        invariant
            start <= i <= end,
            end <= n,
            n == state.filtered_rows.len(),
            times_representable(state.filtered_rows@),
            representable(now as int),
            rows.len() == i - start,
            forall|j: int|
                0 <= j < rows.len() ==> list_row_matches(
                    #[trigger] rows@[j],
                    state.filtered_rows@[start + j],
                    start + j == state.selected,
                    *metrics,
                    state.sort_key,
                    now as int,
                ),
        decreases end - i,
    {
        let row = &state.filtered_rows[i];
        assert(row == state.filtered_rows@[i as int]);
        let line = list_row(row, i == state.selected, metrics, state.sort_key, now);
        rows.push(line);
        i += 1;
    }
    let loading_line = state.loading && rows.len() < height;
    ListLines::Rows(rows, loading_line)
}

/// What the search line shows: the load error, a prompt to type, or the query.
pub enum SearchLine {
    Error(String),
    Prompt,
    Query(String),
}

/// The search line of the picker.
pub fn search_line(state: &PickerState) -> (r: SearchLine)
    ensures
        match state.inline_error {
            Some(e) => r matches SearchLine::Error(t) && t@ == e@,
            None => if state.query@.len() == 0 {
                r is Prompt
            } else {
                r matches SearchLine::Query(t) && t@ == "Search: "@ + state.query@
            },
        },
{
    match &state.inline_error {
        Some(e) => SearchLine::Error(e.clone()),
        None => {
            if state.query.as_str().unicode_len() == 0 {
                SearchLine::Prompt
            } else {
                let mut t = "Search: ".to_string();
                t.append(state.query.as_str());
                SearchLine::Query(t)
            }
        },
    }
}

/// The text of `true` or `false`.
pub open spec fn bool_text(b: bool) -> Seq<char> {
    if b {
        "true"@
    } else {
        "false"@
    }
}

/// The details of a row: id, provider, source, branch (`-` when none), archived flag,
/// and rollout path.
pub open spec fn details_text(row: SessionRow) -> Seq<char> {
    "ID "@ + row.thread_id@ + "    provider="@ + row.provider@ + "    source="@ + row.source@
        + "    branch="@ + (match row.git_branch {
        Some(b) => b@,
        None => "-"@,
    }) + "    archived="@ + bool_text(row.archived) + "    path="@ + row.rollout_path@
}

/// The details line of the selected row, or `None` when nothing is selected.
pub fn details_line(state: &PickerState) -> (r: Option<String>)
    ensures
        match r {
            Some(t) => state.selected < state.filtered_rows.len() && t@ == details_text(
                state.filtered_rows@[state.selected as int],
            ),
            None => state.selected >= state.filtered_rows.len(),
        },
{
    match state.selected_row() {
        None => None,
        Some(row) => {
            let mut v: Vec<char> = Vec::new();
            append_str(&mut v, "ID ");
            append_str(&mut v, row.thread_id.as_str());
            append_str(&mut v, "    provider=");
            append_str(&mut v, row.provider.as_str());
            append_str(&mut v, "    source=");
            append_str(&mut v, row.source_label());
            append_str(&mut v, "    branch=");
            match &row.git_branch {
                Some(b) => append_str(&mut v, b.as_str()),
                None => append_str(&mut v, "-"),
            }
            append_str(&mut v, "    archived=");
            append_str(
                &mut v,
                if row.archived {
                    "true"
                } else {
                    "false"
                },
            );
            append_str(&mut v, "    path=");
            append_str(&mut v, row.rollout_path.as_str());
            Some(string_of(v.as_slice()))
        },
    }
}

} // verus!
