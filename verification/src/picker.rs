//! The session picker's state and how keys and loaded pages change it. Loading a page is
//! an action the picker asks for; the caller performs it and hands the result back.
use vstd::prelude::*;
use vstd::string::*;
use crate::data::{
    filter_rows, filtered_rows, toggled, SessionDbOptions, SessionPage, SessionRow, SortKey,
};
use crate::text::{decimal, decimal_chars, push_char, string_of};

verus! {

/// How close to the end of the list the selection may come before the next page is asked for.
pub const LOAD_NEAR_THRESHOLD: usize = 5;

/// Removes the last character of a `String` (`String::pop`).
#[verifier::external_body]
pub(crate) fn pop_char(s: &mut String)
    ensures
        final(s)@ == if old(s)@.len() > 0 {
            old(s)@.drop_last()
        } else {
            old(s)@
        },
{
    s.pop();
}

/// A key, as the terminal reports it.
#[derive(Clone, Copy, Debug, PartialEq, Eq, Structural)]
pub enum KeyCode {
    Esc,
    Enter,
    Up,
    Down,
    PageUp,
    PageDown,
    Home,
    End,
    Backspace,
    Tab,
    Char(char),
    /// Any other key.
    Other,
}

/// A key press: the key, and the modifier bits held (`1` shift, `2` control, `4` alt, ...).
#[derive(Clone, Copy, Debug, PartialEq, Eq, Structural)]
pub struct KeyInput {
    pub code: KeyCode,
    pub modifiers: u8,
}

/// The modifier bit of the control key.
pub const CONTROL: u8 = 2;

/// The modifier bit of the shift key.
pub const SHIFT: u8 = 1;

/// What the picker does after a key.
pub enum PickerOutcome {
    /// Keep going.
    Continue,
    /// Reload from the first page.
    Reload,
    /// Resume this session.
    Submit(SessionRow),
    /// Quit without resuming.
    Exit,
}

/// A request for one page of sessions.
#[derive(Clone, Copy, Debug, PartialEq, Eq, Structural)]
pub struct PageLoadRequest {
    pub offset: usize,
    pub request_token: usize,
    pub sort_key: SortKey,
}

/// A page that was asked for, or the message of why loading it failed.
pub struct PageLoaded {
    pub offset: usize,
    pub request_token: usize,
    pub sort_key: SortKey,
    pub result: Result<SessionPage, String>,
}

/// The state of the picker.
pub struct PickerState {
    pub all_rows: Vec<SessionRow>,
    pub filtered_rows: Vec<SessionRow>,
    pub selected: usize,
    pub scroll_top: usize,
    pub view_rows: usize,
    pub query: String,
    pub sort_key: SortKey,
    pub options: SessionDbOptions,
    pub has_more: bool,
    pub loading: bool,
    pub next_offset: usize,
    pub next_request_token: usize,
    pub active_request_token: Option<usize>,
    pub inline_error: Option<String>,
    pub loaded_rows: usize,
}

/// The number of list rows a page holds: the list's height, at least one.
pub open spec fn page_height(view_rows: usize) -> int {
    if view_rows == 0 {
        1
    } else {
        view_rows as int
    }
}

/// The first visible row after making `selected` visible: scroll up to it when it is
/// above the window, down until it is the last visible row when it is below.
pub open spec fn visible_top(selected: int, top: int, height: int) -> int {
    if selected < top {
        selected
    } else if selected >= sat_add(top, height) {
        sat_sub(selected, sat_sub(height, 1))
    } else {
        top
    }
}

/// `a + b` saturated at `usize::MAX`.
pub open spec fn sat_add(a: int, b: int) -> int {
    if a + b > usize::MAX {
        usize::MAX as int
    } else {
        a + b
    }
}

/// `a - b` saturated at zero.
pub open spec fn sat_sub(a: int, b: int) -> int {
    if a < b {
        0
    } else {
        a - b
    }
}

/// The smaller of two numbers.
pub open spec fn min_of(a: int, b: int) -> int {
    if a < b {
        a
    } else {
        b
    }
}

/// The index of the first row with this thread id, if any.
pub open spec fn position_of_id(rows: Seq<SessionRow>, id: Seq<char>) -> Option<int> {
    if exists|i: int| 0 <= i < rows.len() && (#[trigger] rows[i]).thread_id@ == id {
        Some(
            choose|i: int|
                0 <= i < rows.len() && (#[trigger] rows[i]).thread_id@ == id && forall|j: int|
                    0 <= j < i ==> (#[trigger] rows[j]).thread_id@ != id,
        )
    } else {
        None
    }
}

/// The loaded-rows caption: the count, with `+` while more may come.
pub open spec fn loaded_caption(loaded: usize, has_more: bool, loading: bool) -> Seq<char> {
    if has_more || loading {
        decimal(loaded as nat) + "+"@
    } else {
        decimal(loaded as nat)
    }
}

/// The first row with this thread id, if any.
fn find_thread(rows: &Vec<SessionRow>, id: &String) -> (r: Option<usize>)
    ensures
        match r {
            Some(i) => i < rows.len() && rows@[i as int].thread_id@ == id@ && forall|j: int|
                0 <= j < i ==> (#[trigger] rows@[j]).thread_id@ != id@,
            None => forall|j: int| 0 <= j < rows.len() ==> (#[trigger] rows@[j]).thread_id@ != id@,
        },
{
    let mut i: usize = 0;
    while i < rows.len()
        invariant
            i <= rows.len(),
            forall|j: int| 0 <= j < i ==> (#[trigger] rows@[j]).thread_id@ != id@,
        decreases rows.len() - i,
    {
        if rows[i].thread_id == *id {
            return Some(i);
        }
        i += 1;
    }
    None
}

impl PickerState {
    /// The selection is a row of the list, or `0` when the list is empty.
    pub open spec fn wf(&self) -> bool {
        &&& (self.filtered_rows.len() == 0 ==> self.selected == 0)
        &&& (self.filtered_rows.len() > 0 ==> self.selected < self.filtered_rows.len())
        &&& self.loaded_rows == self.all_rows.len()
    }

    /// The state with everything else kept and the selection and scroll position given.
    pub open spec fn moved_to(&self, other: &PickerState, selected: int, top: int) -> bool {
        &&& other.selected == selected
        &&& other.scroll_top == top
        &&& other.all_rows == self.all_rows
        &&& other.filtered_rows == self.filtered_rows
        &&& other.view_rows == self.view_rows
        &&& other.query == self.query
        &&& other.sort_key == self.sort_key
        &&& other.options == self.options
        &&& other.has_more == self.has_more
        &&& other.loading == self.loading
        &&& other.next_offset == self.next_offset
        &&& other.next_request_token == self.next_request_token
        &&& other.active_request_token == self.active_request_token
        &&& other.inline_error == self.inline_error
        &&& other.loaded_rows == self.loaded_rows
    }

    /// The state after asking for the next page.
    pub open spec fn after_request(&self) -> PickerState {
        PickerState {
            inline_error: None,
            loading: true,
            next_request_token: if self.next_request_token == usize::MAX {
                0
            } else {
                (self.next_request_token + 1) as usize
            },
            active_request_token: Some(self.next_request_token),
            ..*self
        }
    }

    /// The request for the next page.
    pub open spec fn next_request(&self) -> PageLoadRequest {
        PageLoadRequest {
            offset: self.next_offset,
            request_token: self.next_request_token,
            sort_key: self.sort_key,
        }
    }

    /// A picker with nothing loaded yet, sorted by update time.
    pub fn new(options: SessionDbOptions) -> (r: Self)
        ensures
            r.wf(),
            r.all_rows@.len() == 0,
            r.filtered_rows@.len() == 0,
            r.selected == 0,
            r.scroll_top == 0,
            r.view_rows == 1,
            r.query@ == Seq::<char>::empty(),
            r.sort_key == SortKey::UpdatedAt,
            r.options == options,
            r.has_more,
            !r.loading,
            r.next_offset == 0,
            r.next_request_token == 0,
            r.active_request_token is None,
            r.inline_error is None,
            r.loaded_rows == 0,
    {
        PickerState {
            all_rows: Vec::new(),
            filtered_rows: Vec::new(),
            selected: 0,
            scroll_top: 0,
            view_rows: 1,
            query: String::new(),
            sort_key: SortKey::UpdatedAt,
            options,
            has_more: true,
            loading: false,
            next_offset: 0,
            next_request_token: 0,
            active_request_token: None,
            inline_error: None,
            loaded_rows: 0,
        }
    }

    /// The number of rows one page holds.
    pub fn page_size(&self) -> (r: usize)
        ensures
            r == page_height(self.view_rows),
    {
        if self.view_rows > 1 {
            self.view_rows
        } else {
            1
        }
    }

    /// Scrolls so that the selected row is visible.
    pub fn keep_selection_visible(&mut self)
        ensures
            old(self).moved_to(
                final(self),
                old(self).selected as int,
                visible_top(
                    old(self).selected as int,
                    old(self).scroll_top as int,
                    page_height(old(self).view_rows),
                ),
            ),
    {
        let height = self.page_size();
        if self.selected < self.scroll_top {
            self.scroll_top = self.selected;
            return;
        }
        if self.selected >= self.scroll_top.saturating_add(height) {
            self.scroll_top = self.selected.saturating_sub(height.saturating_sub(1));
        }
    }

    /// The selected row, if the list has one.
    pub fn selected_row(&self) -> (r: Option<&SessionRow>)
        ensures
            match r {
                Some(row) => self.selected < self.filtered_rows.len() && *row
                    == self.filtered_rows@[self.selected as int],
                None => self.selected >= self.filtered_rows.len(),
            },
    {
        if self.selected < self.filtered_rows.len() {
            Some(&self.filtered_rows[self.selected])
        } else {
            None
        }
    }

    /// Refilters the list, selecting the row of `selected_thread_id` when it is still
    /// listed (else the first row), and scrolls to the top of the selection.
    pub fn rebuild_filtered(&mut self, selected_thread_id: Option<String>)
        ensures
            final(self).filtered_rows@ == filtered_rows(
                old(self).all_rows@,
                old(self).query@,
                old(self).sort_key,
            ),
            final(self).selected == match selected_thread_id {
                Some(id) => match position_of_id(final(self).filtered_rows@, id@) {
                    Some(i) => i,
                    None => 0,
                },
                None => 0,
            },
            final(self).scroll_top == visible_top(
                final(self).selected as int,
                0,
                page_height(old(self).view_rows),
            ),
            final(self).all_rows == old(self).all_rows,
            final(self).view_rows == old(self).view_rows,
            final(self).query == old(self).query,
            final(self).sort_key == old(self).sort_key,
            final(self).options == old(self).options,
            final(self).has_more == old(self).has_more,
            final(self).loading == old(self).loading,
            final(self).next_offset == old(self).next_offset,
            final(self).next_request_token == old(self).next_request_token,
            final(self).active_request_token == old(self).active_request_token,
            final(self).inline_error == old(self).inline_error,
            final(self).loaded_rows == old(self).loaded_rows,
            old(self).loaded_rows == old(self).all_rows.len() ==> final(self).wf(),
    {
        self.filtered_rows = filter_rows(self.all_rows.as_slice(), self.query.as_str(), self.sort_key);
        let mut selected: usize = 0;
        match &selected_thread_id {
            Some(id) => {
                match find_thread(&self.filtered_rows, id) {
                    Some(i) => {
                        proof {
                            let rows = self.filtered_rows@;
                            assert(position_of_id(rows, id@) == Some(i as int)) by {
                                assert(rows[i as int].thread_id@ == id@);
                                let c = choose|c: int|
                                    0 <= c < rows.len() && (#[trigger] rows[c]).thread_id@ == id@
                                        && forall|j: int|
                                        0 <= j < c ==> (#[trigger] rows[j]).thread_id@ != id@;
                                if c > i {
                                    assert(rows[i as int].thread_id@ == id@);
                                }
                            }
                        }
                        selected = i;
                    },
                    None => {},
                }
            },
            None => {},
        }
        self.selected = selected;
        self.scroll_top = 0;
        self.keep_selection_visible();
    }

    /// Refilters after the query changed, selecting the first row.
    pub fn refilter(&mut self)
        ensures
            final(self).filtered_rows@ == filtered_rows(
                old(self).all_rows@,
                old(self).query@,
                old(self).sort_key,
            ),
            final(self).selected == 0,
            final(self).scroll_top == 0,
            final(self).all_rows == old(self).all_rows,
            final(self).view_rows == old(self).view_rows,
            final(self).query == old(self).query,
            final(self).sort_key == old(self).sort_key,
            final(self).options == old(self).options,
            final(self).has_more == old(self).has_more,
            final(self).loading == old(self).loading,
            final(self).next_offset == old(self).next_offset,
            final(self).next_request_token == old(self).next_request_token,
            final(self).active_request_token == old(self).active_request_token,
            final(self).inline_error == old(self).inline_error,
            final(self).loaded_rows == old(self).loaded_rows,
            old(self).loaded_rows == old(self).all_rows.len() ==> final(self).wf(),
    {
        self.rebuild_filtered(None);
    }

    /// Asks for the next page, unless one is loading or none is left: clears the error,
    /// marks the request as the active one, and gives it back.
    pub fn request_next_page(&mut self) -> (r: Option<PageLoadRequest>)
        ensures
            old(self).loading || !old(self).has_more ==> r is None && *final(self) == *old(self),
            !old(self).loading && old(self).has_more ==> r == Some(old(self).next_request())
                && *final(self) == old(self).after_request(),
    {
        if self.loading || !self.has_more {
            return None;
        }
        self.inline_error = None;
        self.loading = true;
        let request_token = self.next_request_token;
        self.next_request_token = if self.next_request_token == usize::MAX {
            0
        } else {
            self.next_request_token + 1
        };
        self.active_request_token = Some(request_token);
        Some(PageLoadRequest { offset: self.next_offset, request_token, sort_key: self.sort_key })
    }

    /// Empties the picker and asks for the first page.
    pub fn start_initial_load(&mut self) -> (r: Option<PageLoadRequest>)
        ensures
            final(self).wf(),
            final(self).all_rows@.len() == 0,
            final(self).filtered_rows@.len() == 0,
            final(self).selected == 0,
            final(self).scroll_top == 0,
            final(self).has_more,
            final(self).loading,
            final(self).next_offset == 0,
            final(self).inline_error is None,
            final(self).loaded_rows == 0,
            final(self).active_request_token == Some(old(self).next_request_token),
            r == Some(
                PageLoadRequest {
                    offset: 0,
                    request_token: old(self).next_request_token,
                    sort_key: old(self).sort_key,
                },
            ),
            final(self).sort_key == old(self).sort_key,
            final(self).query == old(self).query,
            final(self).view_rows == old(self).view_rows,
            final(self).options == old(self).options,
    {
        self.all_rows.clear();
        self.filtered_rows.clear();
        self.selected = 0;
        self.scroll_top = 0;
        self.has_more = true;
        self.loading = false;
        self.next_offset = 0;
        self.active_request_token = None;
        self.inline_error = None;
        self.loaded_rows = 0;
        self.request_next_page()
    }

    /// Asks for the next page when a search shows nothing yet and more may come.
    pub fn continue_search_if_needed(&mut self) -> (r: Option<PageLoadRequest>)
        ensures
            (old(self).loading || !old(self).has_more || old(self).query@.len() == 0 || old(
                self,
            ).filtered_rows.len() > 0) ==> r is None && *final(self) == *old(self),
            !(old(self).loading || !old(self).has_more || old(self).query@.len() == 0 || old(
                self,
            ).filtered_rows.len() > 0) ==> r == Some(old(self).next_request()) && *final(self)
                == old(self).after_request(),
    {
        if self.loading || !self.has_more || self.query.as_str().unicode_len() == 0
            || self.filtered_rows.len() > 0 {
            return None;
        }
        self.request_next_page()
    }

    /// Asks for the next page when the selection comes within five rows of the end.
    pub fn maybe_load_more_for_scroll(&mut self) -> (r: Option<PageLoadRequest>)
        requires
            old(self).wf(),
        ensures
            (old(self).loading || !old(self).has_more || old(self).filtered_rows.len() == 0 || old(
                self,
            ).filtered_rows.len() - (old(self).selected + 1) > LOAD_NEAR_THRESHOLD) ==> r is None
                && *final(self) == *old(self),
            !(old(self).loading || !old(self).has_more || old(self).filtered_rows.len() == 0 || old(
                self,
            ).filtered_rows.len() - (old(self).selected + 1) > LOAD_NEAR_THRESHOLD) ==> r == Some(
                old(self).next_request(),
            ) && *final(self) == old(self).after_request(),
    {
        if self.loading || !self.has_more || self.filtered_rows.len() == 0 {
            return None;
        }
        let remaining = self.filtered_rows.len() - (self.selected + 1);
        if remaining <= LOAD_NEAR_THRESHOLD {
            self.request_next_page()
        } else {
            None
        }
    }

    /// The state after the query became `query`: the list refiltered, the first row
    /// selected, scrolled to the top; nothing else changed.
    pub open spec fn refiltered_to(&self, other: &PickerState, query: Seq<char>, k: SortKey) -> bool {
        &&& other.query@ == query
        &&& other.filtered_rows@ == filtered_rows(self.all_rows@, query, k)
        &&& other.selected == 0
        &&& other.scroll_top == 0
        &&& other.sort_key == k
        &&& other.all_rows == self.all_rows
        &&& other.view_rows == self.view_rows
        &&& other.options == self.options
        &&& other.has_more == self.has_more
        &&& other.loading == self.loading
        &&& other.next_offset == self.next_offset
        &&& other.next_request_token == self.next_request_token
        &&& other.active_request_token == self.active_request_token
        &&& other.inline_error == self.inline_error
        &&& other.loaded_rows == self.loaded_rows
    }

    /// Handles a key press.
    pub fn handle_key(&mut self, key: KeyInput) -> (r: PickerOutcome)
        requires
            old(self).wf(),
        ensures
            final(self).wf(),
            ({
                let s = *old(self);
                let n = s.filtered_rows.len() as int;
                let sel = s.selected as int;
                let h = page_height(s.view_rows);
                let top = s.scroll_top as int;
                if key.code == KeyCode::Esc || (key.code == KeyCode::Char('c') && key.modifiers
                    & CONTROL != 0) {
                    r is Exit && *final(self) == s
                } else if key.code == KeyCode::Enter {
                    *final(self) == s && match r {
                        PickerOutcome::Submit(row) => sel < n && row == s.filtered_rows@[sel],
                        PickerOutcome::Continue => sel >= n,
                        _ => false,
                    }
                } else if key.code == KeyCode::Up {
                    r is Continue && s.moved_to(
                        final(self),
                        sat_sub(sel, 1),
                        visible_top(sat_sub(sel, 1), top, h),
                    )
                } else if key.code == KeyCode::Down {
                    let t = if n == 0 {
                        sel
                    } else {
                        min_of(sel + 1, n - 1)
                    };
                    r is Continue && s.moved_to(final(self), t, visible_top(t, top, h))
                } else if key.code == KeyCode::PageUp {
                    r is Continue && s.moved_to(
                        final(self),
                        sat_sub(sel, h),
                        visible_top(sat_sub(sel, h), top, h),
                    )
                } else if key.code == KeyCode::PageDown {
                    let t = if n == 0 {
                        sel
                    } else {
                        min_of(sel + h, n - 1)
                    };
                    r is Continue && s.moved_to(final(self), t, visible_top(t, top, h))
                } else if key.code == KeyCode::Home {
                    r is Continue && s.moved_to(final(self), 0, 0)
                } else if key.code == KeyCode::End {
                    r is Continue && if n == 0 {
                        *final(self) == s
                    } else {
                        s.moved_to(final(self), n - 1, visible_top(n - 1, top, h))
                    }
                } else if key.code == KeyCode::Backspace {
                    r is Continue && s.refiltered_to(
                        final(self),
                        if s.query@.len() > 0 {
                            s.query@.drop_last()
                        } else {
                            s.query@
                        },
                        s.sort_key,
                    )
                } else if key.code == KeyCode::Tab {
                    r is Reload && *final(self) == (PickerState { sort_key: toggled(s.sort_key), ..s })
                } else if key.code is Char && (key.modifiers == 0 || key.modifiers == SHIFT) {
                    r is Continue && s.refiltered_to(
                        final(self),
                        s.query@.push(key.code->Char_0),
                        s.sort_key,
                    )
                } else {
                    r is Continue && *final(self) == s
                }
            }),
    {
        let ctrl_c = match key.code {
            KeyCode::Char(c) => c == 'c' && key.modifiers & CONTROL != 0,
            _ => false,
        };
        if key.code == KeyCode::Esc || ctrl_c {
            return PickerOutcome::Exit;
        }
        match key.code {
            KeyCode::Enter => {
                if self.selected < self.filtered_rows.len() {
                    PickerOutcome::Submit(self.filtered_rows[self.selected].duplicate())
                } else {
                    PickerOutcome::Continue
                }
            },
            KeyCode::Up => {
                self.selected = self.selected.saturating_sub(1);
                self.keep_selection_visible();
                PickerOutcome::Continue
            },
            KeyCode::Down => {
                if self.filtered_rows.len() > 0 {
                    let next = self.selected + 1;
                    let last = self.filtered_rows.len() - 1;
                    self.selected = if next < last {
                        next
                    } else {
                        last
                    };
                }
                self.keep_selection_visible();
                PickerOutcome::Continue
            },
            KeyCode::PageUp => {
                self.selected = self.selected.saturating_sub(self.page_size());
                self.keep_selection_visible();
                PickerOutcome::Continue
            },
            KeyCode::PageDown => {
                if self.filtered_rows.len() > 0 {
                    let next = self.selected.saturating_add(self.page_size());
                    let last = self.filtered_rows.len() - 1;
                    self.selected = if next < last {
                        next
                    } else {
                        last
                    };
                }
                self.keep_selection_visible();
                PickerOutcome::Continue
            },
            KeyCode::Home => {
                self.selected = 0;
                self.scroll_top = 0;
                PickerOutcome::Continue
            },
            KeyCode::End => {
                if self.filtered_rows.len() > 0 {
                    self.selected = self.filtered_rows.len() - 1;
                    self.keep_selection_visible();
                }
                PickerOutcome::Continue
            },
            KeyCode::Backspace => {
                pop_char(&mut self.query);
                self.refilter();
                PickerOutcome::Continue
            },
            KeyCode::Tab => {
                self.sort_key = self.sort_key.toggle();
                PickerOutcome::Reload
            },
            KeyCode::Char(ch) => {
                if key.modifiers == 0 || key.modifiers == SHIFT {
                    push_char(&mut self.query, ch);
                    self.refilter();
                }
                PickerOutcome::Continue
            },
            _ => PickerOutcome::Continue,
        }
    }

    /// Takes in a page that was asked for. A page of another request or sort key is
    /// ignored. Otherwise the rows are appended and the list refiltered, keeping the
    /// selected session selected where it is still listed; then, if a search shows
    /// nothing, the next page is asked for. A failed load shows its message and stops
    /// further loading.
    pub fn handle_page_loaded(&mut self, loaded: PageLoaded) -> (r: Option<PageLoadRequest>)
        requires
            old(self).wf(),
            loaded.result matches Ok(page) ==> loaded.offset + page.rows.len() <= usize::MAX,
        ensures
            final(self).wf(),
            old(self).active_request_token != Some(loaded.request_token) || old(self).sort_key
                != loaded.sort_key ==> r is None && *final(self) == *old(self),
            old(self).active_request_token == Some(loaded.request_token) && old(self).sort_key
                == loaded.sort_key ==> {
                &&& final(self).loading == r is Some
                &&& final(self).active_request_token == match r {
                    Some(req) => Some(req.request_token),
                    None => None,
                }
                &&& final(self).query == old(self).query
                &&& final(self).sort_key == old(self).sort_key
                &&& final(self).options == old(self).options
                &&& final(self).view_rows == old(self).view_rows
                &&& match loaded.result {
                    Ok(page) => {
                        &&& final(self).all_rows@ == old(self).all_rows@ + page.rows@
                        &&& final(self).next_offset == loaded.offset + page.rows.len()
                        &&& final(self).has_more == page.has_more
                        &&& final(self).filtered_rows@ == filtered_rows(
                            final(self).all_rows@,
                            old(self).query@,
                            old(self).sort_key,
                        )
                        &&& final(self).selected == if old(self).selected < old(
                            self,
                        ).filtered_rows.len() {
                            match position_of_id(
                                final(self).filtered_rows@,
                                old(self).filtered_rows@[old(self).selected as int].thread_id@,
                            ) {
                                Some(i) => i,
                                None => 0,
                            }
                        } else {
                            0
                        }
                        &&& final(self).scroll_top == visible_top(
                            final(self).selected as int,
                            0,
                            page_height(old(self).view_rows),
                        )
                        &&& (r is Some <==> (page.has_more && old(self).query@.len() > 0
                            && final(self).filtered_rows.len() == 0))
                        &&& r matches Some(req) ==> req.offset == final(self).next_offset
                    },
                    Err(msg) => {
                        &&& final(self).inline_error matches Some(e) && e@ == "Load failed: "@
                            + msg@
                        &&& !final(self).has_more
                        &&& final(self).all_rows == old(self).all_rows
                        &&& final(self).filtered_rows == old(self).filtered_rows
                        &&& final(self).selected == old(self).selected
                        &&& final(self).scroll_top == old(self).scroll_top
                        &&& final(self).next_offset == old(self).next_offset
                        &&& final(self).loaded_rows == old(self).loaded_rows
                        &&& r is None
                    },
                }
            },
    {
        if self.active_request_token != Some(loaded.request_token) || self.sort_key
            != loaded.sort_key {
            return None;
        }
        self.loading = false;
        self.active_request_token = None;
        match loaded.result {
            Ok(page) => {
                let selected_thread_id = match self.selected_row() {
                    Some(row) => Some(row.thread_id.clone()),
                    None => None,
                };
                let SessionPage { rows, has_more } = page;
                let mut rows = rows;
                self.next_offset = loaded.offset + rows.len();
                self.has_more = has_more;
                self.all_rows.append(&mut rows);
                self.loaded_rows = self.all_rows.len();
                self.rebuild_filtered(selected_thread_id);
                self.continue_search_if_needed()
            },
            Err(err) => {
                let mut message = "Load failed: ".to_string();
                message.append(err.as_str());
                self.inline_error = Some(message);
                self.has_more = false;
                None
            },
        }
    }

    /// The loaded-rows caption.
    pub fn loaded_label(&self) -> (r: String)
        ensures
            r@ == loaded_caption(self.loaded_rows, self.has_more, self.loading),
    {
        let mut digits = decimal_chars(self.loaded_rows as u64);
        if self.has_more || self.loading {
            digits.push('+');
            proof {
                reveal_strlit("+");
            }
        }
        string_of(digits.as_slice())
    }
}

} // verus!
