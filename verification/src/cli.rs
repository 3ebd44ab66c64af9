//! Reading the command line: which arguments the wrapper consumes, which it forwards to
//! `codex resume`, and which mode it runs in.
use vstd::prelude::*;
use vstd::string::*;
use crate::data::ProviderVisibility;
use crate::text::{append_str, chars_of, has_prefix, occurs_at, string_of, text_is, text_starts};

verus! {

/// Part of one argument: the argument at `index`, from its character `skip` on
/// (`skip == 0`: the whole argument, whether or not it is valid Unicode).
#[derive(Clone, Copy, Debug, PartialEq, Eq, Structural)]
pub struct ArgSlice {
    pub index: usize,
    pub skip: usize,
}

/// Which working directory the listed sessions are limited to.
#[derive(Clone, Copy, Debug, PartialEq, Eq, Structural)]
pub enum CwdFilter {
    /// No limit (`--all`).
    AllDirectories,
    /// The directory given with `-C`/`--cd`, made absolute against the current directory.
    Requested(ArgSlice),
    /// The current directory.
    Current,
}

/// How the wrapper proceeds.
#[derive(Clone, Copy, Debug, PartialEq, Eq, Structural)]
pub enum RunModeKind {
    /// Hand every argument to `codex resume` unchanged.
    Passthrough,
    /// Let the user pick a session.
    Picker,
    /// Resume the most recent session.
    Last,
}

/// What a flag that needs a value was missing.
#[derive(Clone, Copy, Debug, PartialEq, Eq, Structural)]
pub enum ArgErrorKind {
    /// `--codex-home` or `--sqlite-home` without a path.
    MissingPathValue,
    /// A flag without its value.
    MissingValue,
    /// `-C`/`--cd` without a directory.
    MissingDirectory,
}

/// A flag at `flag_index` that lacks the value it needs.
#[derive(Clone, Copy, Debug, PartialEq, Eq, Structural)]
pub struct ArgError {
    pub kind: ArgErrorKind,
    pub flag_index: usize,
}

/// The text of argument `i`, when it exists and is valid Unicode.
pub open spec fn text_at(args: Seq<Option<String>>, i: int) -> Option<Seq<char>> {
    if 0 <= i < args.len() {
        match args[i] {
            Some(s) => Some(s@),
            None => None,
        }
    } else {
        None
    }
}

/// `s` with every leading repetition of `p` removed (`str::trim_start_matches`).
pub open spec fn strip_repeated(s: Seq<char>, p: Seq<char>) -> Seq<char>
    decreases s.len(),
{
    if p.len() > 0 && has_prefix(s, p) {
        strip_repeated(s.skip(p.len() as int), p)
    } else {
        s
    }
}

/// The slice of argument `i` after its repeated prefix `p`.
pub open spec fn after_prefix(args: Seq<Option<String>>, i: int, t: Seq<char>, p: Seq<char>) -> ArgSlice {
    ArgSlice { index: i as usize, skip: (t.len() - strip_repeated(t, p).len()) as usize }
}

/// The flags of `codex resume` that take the following argument as their value.
pub open spec fn value_flag(s: Seq<char>) -> bool {
    ||| s == "-c"@
    ||| s == "--config"@
    ||| s == "--enable"@
    ||| s == "--disable"@
    ||| s == "-i"@
    ||| s == "--image"@
    ||| s == "-m"@
    ||| s == "--model"@
    ||| s == "--local-provider"@
    ||| s == "-p"@
    ||| s == "--profile"@
    ||| s == "-s"@
    ||| s == "--sandbox"@
    ||| s == "-a"@
    ||| s == "--ask-for-approval"@
    ||| s == "--add-dir"@
}

/// The flags of `codex resume` written with their value after `=`.
pub open spec fn value_flag_with_equals(s: Seq<char>) -> bool {
    ||| has_prefix(s, "--config="@)
    ||| has_prefix(s, "--enable="@)
    ||| has_prefix(s, "--disable="@)
    ||| has_prefix(s, "--image="@)
    ||| has_prefix(s, "--model="@)
    ||| has_prefix(s, "--local-provider="@)
    ||| has_prefix(s, "--profile="@)
    ||| has_prefix(s, "--sandbox="@)
    ||| has_prefix(s, "--ask-for-approval="@)
    ||| has_prefix(s, "--add-dir="@)
    ||| has_prefix(s, "-c="@)
    ||| has_prefix(s, "-i="@)
    ||| has_prefix(s, "-m="@)
    ||| has_prefix(s, "-p="@)
    ||| has_prefix(s, "-s="@)
    ||| has_prefix(s, "-a="@)
}

/// Whether a `codex resume` flag takes the next argument as its value.
pub fn takes_value(flag: &[char]) -> (b: bool)
    ensures
        b == value_flag(flag@),
{
    text_is(flag, "-c") || text_is(flag, "--config") || text_is(flag, "--enable") || text_is(
        flag,
        "--disable",
    ) || text_is(flag, "-i") || text_is(flag, "--image") || text_is(flag, "-m") || text_is(
        flag,
        "--model",
    ) || text_is(flag, "--local-provider") || text_is(flag, "-p") || text_is(flag, "--profile")
        || text_is(flag, "-s") || text_is(flag, "--sandbox") || text_is(flag, "-a") || text_is(
        flag,
        "--ask-for-approval",
    ) || text_is(flag, "--add-dir")
}

/// Whether an argument is a `codex resume` flag with its value after `=`.
pub fn takes_value_with_equals(flag: &[char]) -> (b: bool)
    ensures
        b == value_flag_with_equals(flag@),
{
    text_starts(flag, "--config=") || text_starts(flag, "--enable=") || text_starts(
        flag,
        "--disable=",
    ) || text_starts(flag, "--image=") || text_starts(flag, "--model=") || text_starts(
        flag,
        "--local-provider=",
    ) || text_starts(flag, "--profile=") || text_starts(flag, "--sandbox=") || text_starts(
        flag,
        "--ask-for-approval=",
    ) || text_starts(flag, "--add-dir=") || text_starts(flag, "-c=") || text_starts(flag, "-i=")
        || text_starts(flag, "-m=") || text_starts(flag, "-p=") || text_starts(flag, "-s=")
        || text_starts(flag, "-a=")
}

/// How many characters `str::trim_start_matches(p)` removes from the front of `s`.
pub fn stripped_len(s: &[char], p: &[char]) -> (n: usize)
    requires
        p.len() > 0,
    ensures
        n == s.len() - strip_repeated(s@, p@).len(),
        n <= s.len(),
{
    let mut pos: usize = 0;
    assert(s@.skip(0) == s@);
    while p.len() <= s.len() - pos && occurs_at(s, p, pos)
        invariant
            p.len() > 0,
            pos <= s.len(),
            strip_repeated(s@, p@) == strip_repeated(s@.skip(pos as int), p@),
        decreases s.len() - pos,
    {
        proof {
            let t = s@.skip(pos as int);
            assert(t.take(p.len() as int) == s@.subrange(pos as int, pos + p.len()));
            assert(t.skip(p.len() as int) == s@.skip(pos + p.len()));
        }
        pos = pos + p.len();
    }
    proof {
        let t = s@.skip(pos as int);
        if p.len() <= s.len() - pos {
            assert(t.take(p.len() as int) == s@.subrange(pos as int, pos + p.len()));
        }
    }
    pos
}

/// The state of a left-to-right reading of the arguments.
pub struct ArgScan {
    pub resume: Seq<usize>,
    pub positionals: nat,
    pub provider_visibility: ProviderVisibility,
    pub codex_home: Option<ArgSlice>,
    pub sqlite_home: Option<ArgSlice>,
    pub last: bool,
    pub show_all: bool,
    pub include_non_interactive: bool,
    pub include_archived: bool,
    pub remote: bool,
    pub requested_cwd: Option<ArgSlice>,
    pub after_double_dash: bool,
}

/// The state before any argument is read.
pub open spec fn scan_start() -> ArgScan {
    ArgScan {
        resume: Seq::empty(),
        positionals: 0,
        provider_visibility: ProviderVisibility::All,
        codex_home: None,
        sqlite_home: None,
        last: false,
        show_all: false,
        include_non_interactive: false,
        include_archived: false,
        remote: false,
        requested_cwd: None,
        after_double_dash: false,
    }
}

/// The result of reading one flag: the next state and the index of the next unread
/// argument, or the error.
pub enum ScanStep {
    Next(ArgScan, int),
    Fail(ArgError),
}

/// Argument `i` forwarded to `codex resume`.
pub open spec fn forward(st: ArgScan, i: int) -> ArgScan {
    ArgScan { resume: st.resume.push(i as usize), ..st }
}

/// Argument `i` forwarded and counted as a positional argument (a session id or prompt).
pub open spec fn positional(st: ArgScan, i: int) -> ArgScan {
    ArgScan { resume: st.resume.push(i as usize), positionals: st.positionals + 1, ..st }
}

/// Reading a flag that needs the next argument as its value: `then` applied when it exists.
pub open spec fn with_value(
    args: Seq<Option<String>>,
    i: int,
    kind: ArgErrorKind,
    then: ArgScan,
) -> ScanStep {
    if i + 1 < args.len() {
        ScanStep::Next(then, i + 2)
    } else {
        ScanStep::Fail(ArgError { kind, flag_index: i as usize })
    }
}

/// Reading argument `i` (valid Unicode, text `t`) outside the part after `--`.
pub open spec fn scan_text(args: Seq<Option<String>>, i: int, t: Seq<char>, st: ArgScan) -> ScanStep {
    if t == "--"@ {
        ScanStep::Next(ArgScan { after_double_dash: true, ..forward(st, i) }, i + 1)
    } else if t == "--only-openai"@ {
        ScanStep::Next(ArgScan { provider_visibility: ProviderVisibility::OnlyOpenAi, ..st }, i + 1)
    } else if t == "--include-archived"@ {
        ScanStep::Next(ArgScan { include_archived: true, ..st }, i + 1)
    } else if t == "--codex-home"@ {
        with_value(
            args,
            i,
            ArgErrorKind::MissingPathValue,
            ArgScan { codex_home: Some(ArgSlice { index: (i + 1) as usize, skip: 0 }), ..st },
        )
    } else if t == "--sqlite-home"@ {
        with_value(
            args,
            i,
            ArgErrorKind::MissingPathValue,
            ArgScan { sqlite_home: Some(ArgSlice { index: (i + 1) as usize, skip: 0 }), ..st },
        )
    } else if has_prefix(t, "--codex-home="@) {
        ScanStep::Next(
            ArgScan { codex_home: Some(after_prefix(args, i, t, "--codex-home="@)), ..st },
            i + 1,
        )
    } else if has_prefix(t, "--sqlite-home="@) {
        ScanStep::Next(
            ArgScan { sqlite_home: Some(after_prefix(args, i, t, "--sqlite-home="@)), ..st },
            i + 1,
        )
    } else if t == "--last"@ {
        ScanStep::Next(ArgScan { last: true, ..forward(st, i) }, i + 1)
    } else if t == "--all"@ {
        ScanStep::Next(ArgScan { show_all: true, ..forward(st, i) }, i + 1)
    } else if t == "--include-non-interactive"@ {
        ScanStep::Next(ArgScan { include_non_interactive: true, ..forward(st, i) }, i + 1)
    } else if t == "--remote"@ || t == "--remote-auth-token-env"@ {
        with_value(
            args,
            i,
            ArgErrorKind::MissingValue,
            ArgScan { remote: true, ..forward(forward(st, i), i + 1) },
        )
    } else if has_prefix(t, "--remote="@) || has_prefix(t, "--remote-auth-token-env="@) {
        ScanStep::Next(ArgScan { remote: true, ..forward(st, i) }, i + 1)
    } else if t == "-C"@ || t == "--cd"@ {
        with_value(
            args,
            i,
            ArgErrorKind::MissingDirectory,
            ArgScan {
                requested_cwd: if st.requested_cwd is None {
                    Some(ArgSlice { index: (i + 1) as usize, skip: 0 })
                } else {
                    st.requested_cwd
                },
                ..forward(forward(st, i), i + 1)
            },
        )
    } else if has_prefix(t, "--cd="@) || has_prefix(t, "-C="@) {
        let p = if has_prefix(t, "--cd="@) {
            "--cd="@
        } else {
            "-C="@
        };
        ScanStep::Next(
            ArgScan {
                requested_cwd: if st.requested_cwd is None {
                    Some(after_prefix(args, i, t, p))
                } else {
                    st.requested_cwd
                },
                ..forward(st, i)
            },
            i + 1,
        )
    } else if value_flag(t) {
        with_value(args, i, ArgErrorKind::MissingValue, forward(forward(st, i), i + 1))
    } else if value_flag_with_equals(t) || has_prefix(t, "-"@) {
        ScanStep::Next(forward(st, i), i + 1)
    } else {
        ScanStep::Next(positional(st, i), i + 1)
    }
}

/// Reading argument `i`.
pub open spec fn scan_step(args: Seq<Option<String>>, i: int, st: ArgScan) -> ScanStep {
    if st.after_double_dash {
        ScanStep::Next(positional(st, i), i + 1)
    } else {
        match text_at(args, i) {
            Some(t) => scan_text(args, i, t, st),
            None => ScanStep::Next(positional(st, i), i + 1),
        }
    }
}

/// Reading the arguments from `i` on.
pub open spec fn scan_from(args: Seq<Option<String>>, i: int, st: ArgScan) -> Result<ArgScan, ArgError>
    decreases args.len() - i,
{
    if i < 0 || i >= args.len() {
        Ok(st)
    } else {
        match scan_step(args, i, st) {
            ScanStep::Next(next, j) => if i < j <= args.len() {
                scan_from(args, j, next)
            } else {
                Ok(next)
            },
            ScanStep::Fail(e) => Err(e),
        }
    }
}

/// A request that makes the wrapper print something and stop.
#[derive(Clone, Copy, Debug, PartialEq, Eq, Structural)]
pub enum InfoRequest {
    Help,
    Version,
}

/// The first `-h`/`--help`/`-V`/`--version` from argument `i` on, wherever it stands.
pub open spec fn info_request_from(args: Seq<Option<String>>, i: int) -> Option<InfoRequest>
    decreases args.len() - i,
{
    if i < 0 || i >= args.len() {
        None
    } else if text_at(args, i) == Some("-h"@) || text_at(args, i) == Some("--help"@) {
        Some(InfoRequest::Help)
    } else if text_at(args, i) == Some("-V"@) || text_at(args, i) == Some("--version"@) {
        Some(InfoRequest::Version)
    } else {
        info_request_from(args, i + 1)
    }
}

/// The arguments forwarded when the wrapper picks the session itself: without the
/// selection flags `--last`, `--all` and `--include-non-interactive`.
pub open spec fn without_selection_flags(args: Seq<Option<String>>, idx: Seq<usize>) -> Seq<usize>
    decreases idx.len(),
{
    if idx.len() == 0 {
        idx
    } else {
        let rest = without_selection_flags(args, idx.drop_last());
        let t = text_at(args, idx.last() as int);
        if t == Some("--last"@) || t == Some("--all"@) || t == Some("--include-non-interactive"@) {
            rest
        } else {
            rest.push(idx.last())
        }
    }
}

/// The mode a finished reading leads to: a remote session or a given session id or prompt
/// pass everything through; otherwise `--last` resumes the latest session, else the picker.
pub open spec fn mode_of(st: ArgScan) -> RunModeKind {
    if st.remote || st.positionals > 0 {
        RunModeKind::Passthrough
    } else if st.last {
        RunModeKind::Last
    } else {
        RunModeKind::Picker
    }
}

/// The working-directory limit of a finished reading.
pub open spec fn cwd_of(st: ArgScan) -> CwdFilter {
    if st.show_all {
        CwdFilter::AllDirectories
    } else {
        match st.requested_cwd {
            Some(s) => CwdFilter::Requested(s),
            None => CwdFilter::Current,
        }
    }
}

/// What the command line asks for.
pub struct CliPlan {
    pub mode: RunModeKind,
    /// Indices of the arguments forwarded to `codex resume`, in order.
    pub resume_args: Vec<usize>,
    pub provider_visibility: ProviderVisibility,
    pub include_non_interactive: bool,
    pub include_archived: bool,
    pub cwd: CwdFilter,
    pub codex_home: Option<ArgSlice>,
    pub sqlite_home: Option<ArgSlice>,
}

/// The outcome of reading the command line.
pub enum ParsedArgs {
    Help,
    Version,
    Run(CliPlan),
}

/// The plan of a finished reading.
pub open spec fn plan_matches(args: Seq<Option<String>>, st: ArgScan, plan: CliPlan) -> bool {
    &&& plan.mode == mode_of(st)
    &&& plan.resume_args@ == if mode_of(st) == RunModeKind::Passthrough {
        st.resume
    } else {
        without_selection_flags(args, st.resume)
    }
    &&& plan.provider_visibility == st.provider_visibility
    &&& plan.include_non_interactive == st.include_non_interactive
    &&& plan.include_archived == st.include_archived
    &&& plan.cwd == cwd_of(st)
    &&& plan.codex_home == st.codex_home
    &&& plan.sqlite_home == st.sqlite_home
}

/// The exec state of a reading.
struct ScanState {
    resume: Vec<usize>,
    positionals: usize,
    provider_visibility: ProviderVisibility,
    codex_home: Option<ArgSlice>,
    sqlite_home: Option<ArgSlice>,
    last: bool,
    show_all: bool,
    include_non_interactive: bool,
    include_archived: bool,
    remote: bool,
    requested_cwd: Option<ArgSlice>,
    after_double_dash: bool,
}

impl ScanState {
    spec fn model(&self) -> ArgScan {
        ArgScan {
            resume: self.resume@,
            positionals: self.positionals as nat,
            provider_visibility: self.provider_visibility,
            codex_home: self.codex_home,
            sqlite_home: self.sqlite_home,
            last: self.last,
            show_all: self.show_all,
            include_non_interactive: self.include_non_interactive,
            include_archived: self.include_archived,
            remote: self.remote,
            requested_cwd: self.requested_cwd,
            after_double_dash: self.after_double_dash,
        }
    }
}

/// Reads argument `i`: the index of the next unread argument, or the error.
fn scan_one(args: &Vec<Option<String>>, i: usize, st: &mut ScanState) -> (r: Result<usize, ArgError>)
    requires
        i < args.len(),
        old(st).positionals <= i,
    ensures
        match r {
            Ok(j) => scan_step(args@, i as int, old(st).model()) == ScanStep::Next(
                final(st).model(),
                j as int,
            ) && i < j <= args.len() && final(st).positionals <= j,
            Err(e) => scan_step(args@, i as int, old(st).model()) == ScanStep::Fail(e),
        },
{
    let ghost st0 = st.model();
    if st.after_double_dash {
        st.resume.push(i);
        st.positionals = st.positionals + 1;
        return Ok(i + 1);
    }
    let t: Vec<char> = match &args[i] {
        Some(s) => chars_of(s.as_str()),
        None => {
            st.resume.push(i);
            st.positionals = st.positionals + 1;
            return Ok(i + 1);
        },
    };
    assert(text_at(args@, i as int) == Some(t@));
    let t = t.as_slice();
    let has_next = i + 1 < args.len();
    if text_is(t, "--") {
        st.resume.push(i);
        st.after_double_dash = true;
        Ok(i + 1)
    } else if text_is(t, "--only-openai") {
        st.provider_visibility = ProviderVisibility::OnlyOpenAi;
        Ok(i + 1)
    } else if text_is(t, "--include-archived") {
        st.include_archived = true;
        Ok(i + 1)
    } else if text_is(t, "--codex-home") {
        if !has_next {
            return Err(ArgError { kind: ArgErrorKind::MissingPathValue, flag_index: i });
        }
        st.codex_home = Some(ArgSlice { index: i + 1, skip: 0 });
        Ok(i + 2)
    } else if text_is(t, "--sqlite-home") {
        if !has_next {
            return Err(ArgError { kind: ArgErrorKind::MissingPathValue, flag_index: i });
        }
        st.sqlite_home = Some(ArgSlice { index: i + 1, skip: 0 });
        Ok(i + 2)
    } else if text_starts(t, "--codex-home=") {
        proof {
            reveal_strlit("--codex-home=");
        }
        let p = chars_of("--codex-home=");
        let n = stripped_len(t, p.as_slice());
        st.codex_home = Some(ArgSlice { index: i, skip: n });
        Ok(i + 1)
    } else if text_starts(t, "--sqlite-home=") {
        proof {
            reveal_strlit("--sqlite-home=");
        }
        let p = chars_of("--sqlite-home=");
        let n = stripped_len(t, p.as_slice());
        st.sqlite_home = Some(ArgSlice { index: i, skip: n });
        Ok(i + 1)
    } else if text_is(t, "--last") {
        st.resume.push(i);
        st.last = true;
        Ok(i + 1)
    } else if text_is(t, "--all") {
        st.resume.push(i);
        st.show_all = true;
        Ok(i + 1)
    } else if text_is(t, "--include-non-interactive") {
        st.resume.push(i);
        st.include_non_interactive = true;
        Ok(i + 1)
    } else if text_is(t, "--remote") || text_is(t, "--remote-auth-token-env") {
        if !has_next {
            return Err(ArgError { kind: ArgErrorKind::MissingValue, flag_index: i });
        }
        st.resume.push(i);
        st.resume.push(i + 1);
        st.remote = true;
        Ok(i + 2)
    } else if text_starts(t, "--remote=") || text_starts(t, "--remote-auth-token-env=") {
        st.resume.push(i);
        st.remote = true;
        Ok(i + 1)
    } else if text_is(t, "-C") || text_is(t, "--cd") {
        if !has_next {
            return Err(ArgError { kind: ArgErrorKind::MissingDirectory, flag_index: i });
        }
        st.resume.push(i);
        st.resume.push(i + 1);
        if st.requested_cwd.is_none() {
            st.requested_cwd = Some(ArgSlice { index: i + 1, skip: 0 });
        }
        Ok(i + 2)
    } else if text_starts(t, "--cd=") || text_starts(t, "-C=") {
        proof {
            reveal_strlit("--cd=");
            reveal_strlit("-C=");
        }
        let p = if text_starts(t, "--cd=") {
            chars_of("--cd=")
        } else {
            chars_of("-C=")
        };
        let n = stripped_len(t, p.as_slice());
        st.resume.push(i);
        if st.requested_cwd.is_none() {
            st.requested_cwd = Some(ArgSlice { index: i, skip: n });
        }
        Ok(i + 1)
    } else if takes_value(t) {
        if !has_next {
            return Err(ArgError { kind: ArgErrorKind::MissingValue, flag_index: i });
        }
        st.resume.push(i);
        st.resume.push(i + 1);
        Ok(i + 2)
    } else if takes_value_with_equals(t) || text_starts(t, "-") {
        st.resume.push(i);
        Ok(i + 1)
    } else {
        st.resume.push(i);
        st.positionals = st.positionals + 1;
        Ok(i + 1)
    }
}

/// The first help or version request among the arguments.
pub fn info_request(args: &Vec<Option<String>>) -> (r: Option<InfoRequest>)
    ensures
        r == info_request_from(args@, 0),
{
    let mut i: usize = 0;
    while i < args.len()
        invariant
            i <= args.len(),
            info_request_from(args@, 0) == info_request_from(args@, i as int),
        decreases args.len() - i,
    {
        match &args[i] {
            Some(s) => {
                let t = chars_of(s.as_str());
                let t = t.as_slice();
                if text_is(t, "-h") || text_is(t, "--help") {
                    return Some(InfoRequest::Help);
                }
                if text_is(t, "-V") || text_is(t, "--version") {
                    return Some(InfoRequest::Version);
                }
            },
            None => {},
        }
        i += 1;
    }
    None
}

/// The forwarded arguments without the selection flags `--last`, `--all` and
/// `--include-non-interactive`.
pub fn strip_selection_flags(args: &Vec<Option<String>>, idx: &Vec<usize>) -> (r: Vec<usize>)
    ensures
        r@ == without_selection_flags(args@, idx@),
{
    let mut out: Vec<usize> = Vec::new();
    let mut k: usize = 0;
    while k < idx.len()
        invariant
            k <= idx.len(),
            out@ == without_selection_flags(args@, idx@.take(k as int)),
        decreases idx.len() - k,
    {
        let j = idx[k];
        proof {
            assert(idx@.take(k + 1).drop_last() == idx@.take(k as int));
            assert(idx@.take(k + 1).last() == j);
        }
        let selection = if j < args.len() {
            match &args[j] {
                Some(s) => {
                    let t = chars_of(s.as_str());
                    let t = t.as_slice();
                    text_is(t, "--last") || text_is(t, "--all") || text_is(
                        t,
                        "--include-non-interactive",
                    )
                },
                None => false,
            }
        } else {
            false
        };
        if !selection {
            out.push(j);
        }
        k += 1;
    }
    assert(idx@.take(idx.len() as int) == idx@);
    out
}

/// Reads the command line (each argument's text, `None` where it is not valid Unicode).
/// A help or version flag anywhere wins; otherwise the arguments are read left to right
/// as `scan_from` describes, and a flag missing its value is the error.
pub fn parse_args(args: &Vec<Option<String>>) -> (r: Result<ParsedArgs, ArgError>)
    ensures
        match r {
            Ok(ParsedArgs::Help) => info_request_from(args@, 0) == Some(InfoRequest::Help),
            Ok(ParsedArgs::Version) => info_request_from(args@, 0) == Some(InfoRequest::Version),
            Ok(ParsedArgs::Run(plan)) => info_request_from(args@, 0) is None && (scan_from(
                args@,
                0,
                scan_start(),
            ) matches Ok(st) && plan_matches(args@, st, plan)),
            Err(e) => info_request_from(args@, 0) is None && scan_from(args@, 0, scan_start())
                == Err::<ArgScan, ArgError>(e),
        },
{
    match info_request(args) {
        Some(InfoRequest::Help) => return Ok(ParsedArgs::Help),
        Some(InfoRequest::Version) => return Ok(ParsedArgs::Version),
        None => {},
    }
    let mut st = ScanState {
        resume: Vec::new(),
        positionals: 0,
        provider_visibility: ProviderVisibility::All,
        codex_home: None,
        sqlite_home: None,
        last: false,
        show_all: false,
        include_non_interactive: false,
        include_archived: false,
        remote: false,
        requested_cwd: None,
        after_double_dash: false,
    };
    let mut i: usize = 0;
    assert(st.model() == scan_start());
    while i < args.len()
        invariant
            i <= args.len(),
            st.positionals <= i,
            info_request_from(args@, 0) is None,
            scan_from(args@, 0, scan_start()) == scan_from(args@, i as int, st.model()),
        decreases args.len() - i,
    {
        let ghost before = st.model();
        match scan_one(args, i, &mut st) {
            Ok(j) => {
                assert(scan_from(args@, i as int, before) == scan_from(args@, j as int, st.model()));
                i = j;
            },
            Err(e) => {
                assert(scan_from(args@, i as int, before) == Err::<ArgScan, ArgError>(e));
                return Err(e);
            },
        }
    }
    let ghost fin = st.model();
    let passthrough = st.remote || st.positionals > 0;
    let mode = if passthrough {
        RunModeKind::Passthrough
    } else if st.last {
        RunModeKind::Last
    } else {
        RunModeKind::Picker
    };
    let resume_args = if passthrough {
        st.resume
    } else {
        strip_selection_flags(args, &st.resume)
    };
    let cwd = if st.show_all {
        CwdFilter::AllDirectories
    } else {
        match st.requested_cwd {
            Some(s) => CwdFilter::Requested(s),
            None => CwdFilter::Current,
        }
    };
    Ok(
        ParsedArgs::Run(
            CliPlan {
                mode,
                resume_args,
                provider_visibility: st.provider_visibility,
                include_non_interactive: st.include_non_interactive,
                include_archived: st.include_archived,
                cwd,
                codex_home: st.codex_home,
                sqlite_home: st.sqlite_home,
            },
        ),
    )
}

/// The message of an argument error.
pub open spec fn arg_error_text(args: Seq<Option<String>>, e: ArgError) -> Seq<char> {
    let flag = match text_at(args, e.flag_index as int) {
        Some(t) => t,
        None => Seq::empty(),
    };
    match e.kind {
        ArgErrorKind::MissingPathValue => flag + " requires a path value"@,
        ArgErrorKind::MissingValue => flag + " requires a value"@,
        ArgErrorKind::MissingDirectory => "-C/--cd requires a directory"@,
    }
}

/// The message of an argument error.
pub fn arg_error_message(args: &Vec<Option<String>>, e: ArgError) -> (r: String)
    ensures
        r@ == arg_error_text(args@, e),
{
    let mut v: Vec<char> = Vec::new();
    if e.flag_index < args.len() {
        match &args[e.flag_index] {
            Some(s) => append_str(&mut v, s.as_str()),
            None => {},
        }
    }
    match e.kind {
        ArgErrorKind::MissingPathValue => append_str(&mut v, " requires a path value"),
        ArgErrorKind::MissingValue => append_str(&mut v, " requires a value"),
        ArgErrorKind::MissingDirectory => {
            v = chars_of("-C/--cd requires a directory");
        },
    }
    proof {
        assert(Seq::<char>::empty() + " requires a path value"@ == " requires a path value"@);
        assert(Seq::<char>::empty() + " requires a value"@ == " requires a value"@);
    }
    string_of(v.as_slice())
}

// ---------------------------------------------------------------------------
// Laws of the command line

/// The state in which the reading from `i` (in state `st`) reads argument `p`, if it
/// reads it as a flag or positional argument (rather than as a flag's value, or not at all).
pub open spec fn state_reading(args: Seq<Option<String>>, i: int, st: ArgScan, p: int) -> Option<
    ArgScan,
>
    decreases args.len() - i,
{
    if i < 0 || i >= args.len() {
        None
    } else if p == i {
        Some(st)
    } else {
        match scan_step(args, i, st) {
            ScanStep::Next(next, j) => if i < j <= args.len() {
                state_reading(args, j, next, p)
            } else {
                None
            },
            ScanStep::Fail(_) => None,
        }
    }
}

/// The text of argument `p` when the reading from `i` reads it as a flag before `--`.
pub open spec fn read_as_flag(args: Seq<Option<String>>, i: int, st: ArgScan, p: int) -> Option<
    Seq<char>,
> {
    match state_reading(args, i, st, p) {
        Some(s) => if s.after_double_dash {
            None
        } else {
            text_at(args, p)
        },
        None => None,
    }
}

/// The text of argument `i` when read in state `st` as a flag (not after `--`).
pub open spec fn flag_here(args: Seq<Option<String>>, i: int, st: ArgScan) -> Option<Seq<char>> {
    if st.after_double_dash {
        None
    } else {
        text_at(args, i)
    }
}

/// A flag of the wrapper itself, which is never forwarded.
pub open spec fn wrapper_flag(t: Seq<char>) -> bool {
    ||| t == "--only-openai"@
    ||| t == "--include-archived"@
    ||| t == "--codex-home"@
    ||| t == "--sqlite-home"@
    ||| has_prefix(t, "--codex-home="@)
    ||| has_prefix(t, "--sqlite-home="@)
}

/// A flag that makes the wrapper hand everything to `codex resume`.
pub open spec fn remote_flag(t: Seq<char>) -> bool {
    ||| t == "--remote"@
    ||| t == "--remote-auth-token-env"@
    ||| has_prefix(t, "--remote="@)
    ||| has_prefix(t, "--remote-auth-token-env="@)
}

/// The indices are strictly increasing.
pub open spec fn increasing(s: Seq<usize>) -> bool {
    forall|a: int, b: int| 0 <= a < b < s.len() ==> s[a] < s[b]
}

proof fn lemma_step_shape(args: Seq<Option<String>>, i: int, st: ArgScan)
    requires
        0 <= i < args.len(),
        args.len() <= usize::MAX,
    ensures
        match scan_step(args, i, st) {
            ScanStep::Next(next, j) => {
                &&& i < j <= args.len()
                &&& next.resume.len() >= st.resume.len()
                &&& next.resume.take(st.resume.len() as int) == st.resume
                &&& forall|k: int|
                    st.resume.len() <= k < next.resume.len() ==> i <= #[trigger] next.resume[k] < j
                &&& forall|a: int, b: int|
                    st.resume.len() <= a < b < next.resume.len() ==> next.resume[a] < next.resume[b]
                &&& (st.remote ==> next.remote)
                &&& (st.positionals > 0 ==> next.positionals > 0)
                &&& (st.after_double_dash ==> next.after_double_dash)
                &&& (flag_here(args, i, st) is Some && wrapper_flag(flag_here(args, i, st)->0)
                    ==> next.resume == st.resume)
                &&& (flag_here(args, i, st) is Some && remote_flag(flag_here(args, i, st)->0)
                    ==> next.remote)
                &&& (flag_here(args, i, st) == Some("--codex-home"@) || flag_here(args, i, st)
                    == Some("--sqlite-home"@) ==> j == i + 2)
            },
            ScanStep::Fail(_) => true,
        },
{
    reveal_strlit("--only-openai");
    reveal_strlit("--include-archived");
    reveal_strlit("--codex-home");
    reveal_strlit("--sqlite-home");
    reveal_strlit("--codex-home=");
    reveal_strlit("--sqlite-home=");
    reveal_strlit("--remote");
    reveal_strlit("--remote-auth-token-env");
    reveal_strlit("--remote=");
    reveal_strlit("--remote-auth-token-env=");
    reveal_strlit("--");
    reveal_strlit("--last");
    reveal_strlit("--all");
    reveal_strlit("--include-non-interactive");
    reveal_strlit("-C");
    reveal_strlit("--cd");
    reveal_strlit("--cd=");
    reveal_strlit("-C=");
    reveal_strlit("-");
    assert("--sqlite-home"@[2] != "--only-openai"@[2]);
    if flag_here(args, i, st) is Some {
        let t = flag_here(args, i, st)->0;
        if t == "--remote-auth-token-env"@ {
            assert(t.take(t.len() as int) == t);
            lemma_prefix_excludes(t, t, "--codex-home="@, 2);
            lemma_prefix_excludes(t, t, "--sqlite-home="@, 2);
        }
        if has_prefix(t, "--remote="@) || has_prefix(t, "--remote-auth-token-env="@) {
            let p = if has_prefix(t, "--remote="@) {
                "--remote="@
            } else {
                "--remote-auth-token-env="@
            };
            lemma_prefix_excludes(t, p, "--only-openai"@, 2);
            lemma_prefix_excludes(t, p, "--include-archived"@, 2);
            lemma_prefix_excludes(t, p, "--codex-home"@, 2);
            lemma_prefix_excludes(t, p, "--sqlite-home"@, 2);
            lemma_prefix_excludes(t, p, "--codex-home="@, 2);
            lemma_prefix_excludes(t, p, "--sqlite-home="@, 2);
            lemma_prefix_excludes(t, p, "--last"@, 2);
            lemma_prefix_excludes(t, p, "--all"@, 2);
            lemma_prefix_excludes(t, p, "--include-non-interactive"@, 2);
            if has_prefix(t, "--remote="@) {
                lemma_prefix_excludes(t, p, "--remote-auth-token-env"@, 8);
            }
            assert(t != "--"@ && t != "--remote"@);
            assert(t != "--remote-auth-token-env"@);
        }
    }
    match scan_step(args, i, st) {
        ScanStep::Next(next, j) => {
            assert(next.resume.take(st.resume.len() as int) =~= st.resume);
        },
        ScanStep::Fail(_) => {},
    }
}

proof fn lemma_prefix_excludes(t: Seq<char>, p: Seq<char>, q: Seq<char>, k: int)
    requires
        has_prefix(t, p),
        0 <= k < p.len(),
        k < q.len(),
        p[k] != q[k],
    ensures
        t != q,
        !has_prefix(t, q),
{
    assert(t[k] == t.take(p.len() as int)[k]);
    if has_prefix(t, q) {
        assert(t[k] == t.take(q.len() as int)[k]);
    }
}

proof fn lemma_scan_laws(args: Seq<Option<String>>, i: int, st: ArgScan, fin: ArgScan)
    requires
        0 <= i <= args.len(),
        args.len() <= usize::MAX,
        forall|k: int| 0 <= k < st.resume.len() ==> #[trigger] st.resume[k] < i,
        increasing(st.resume),
        scan_from(args, i, st) == Ok::<ArgScan, ArgError>(fin),
    ensures
        fin.resume.len() >= st.resume.len(),
        fin.resume.take(st.resume.len() as int) == st.resume,
        forall|k: int| st.resume.len() <= k < fin.resume.len() ==> i <= #[trigger] fin.resume[k],
        forall|k: int| 0 <= k < fin.resume.len() ==> #[trigger] fin.resume[k] < args.len(),
        increasing(fin.resume),
        st.remote ==> fin.remote,
        st.positionals > 0 ==> fin.positionals > 0,
        forall|p: int|
            #![trigger read_as_flag(args, i, st, p)]
            read_as_flag(args, i, st, p) is Some ==> {
                let t = read_as_flag(args, i, st, p)->0;
                &&& wrapper_flag(t) ==> !fin.resume.contains(p as usize)
                &&& (t == "--codex-home"@ || t == "--sqlite-home"@) ==> !fin.resume.contains(
                    (p + 1) as usize,
                )
                &&& remote_flag(t) ==> fin.remote
            },
    decreases args.len() - i,
{
    if i >= args.len() {
        assert(fin == st);
        assert(fin.resume.take(st.resume.len() as int) == st.resume);
        assert forall|p: int| read_as_flag(args, i, st, p) is None by {}
    } else {
        lemma_step_shape(args, i, st);
        match scan_step(args, i, st) {
            ScanStep::Next(next, j) => {
                assert forall|k: int| 0 <= k < next.resume.len() implies #[trigger] next.resume[k]
                    < j by {
                    if k < st.resume.len() {
                        assert(next.resume[k] == next.resume.take(st.resume.len() as int)[k]);
                    }
                }
                assert forall|a: int, b: int| 0 <= a < b < next.resume.len() implies next.resume[a]
                    < next.resume[b] by {
                    if b < st.resume.len() {
                        assert(next.resume[a] == next.resume.take(st.resume.len() as int)[a]);
                        assert(next.resume[b] == next.resume.take(st.resume.len() as int)[b]);
                    } else if a < st.resume.len() {
                        assert(next.resume[a] == next.resume.take(st.resume.len() as int)[a]);
                    }
                }
                lemma_scan_laws(args, j, next, fin);
                assert(fin.resume.take(st.resume.len() as int) =~= st.resume) by {
                    assert forall|k: int| 0 <= k < st.resume.len() implies fin.resume[k]
                        == st.resume[k] by {
                        assert(fin.resume[k] == fin.resume.take(next.resume.len() as int)[k]);
                        assert(next.resume[k] == next.resume.take(st.resume.len() as int)[k]);
                    }
                }
                assert forall|k: int| st.resume.len() <= k < fin.resume.len() implies i
                    <= #[trigger] fin.resume[k] by {
                    if k < next.resume.len() {
                        assert(fin.resume[k] == fin.resume.take(next.resume.len() as int)[k]);
                    }
                }
                assert forall|p: int|
                    #![trigger read_as_flag(args, i, st, p)]
                    read_as_flag(args, i, st, p) is Some implies {
                        let t = read_as_flag(args, i, st, p)->0;
                        &&& wrapper_flag(t) ==> !fin.resume.contains(p as usize)
                        &&& (t == "--codex-home"@ || t == "--sqlite-home"@)
                            ==> !fin.resume.contains((p + 1) as usize)
                        &&& remote_flag(t) ==> fin.remote
                    } by {
                    let t = read_as_flag(args, i, st, p)->0;
                    if p == i {
                        assert(flag_here(args, i, st) == Some(t));
                        if wrapper_flag(t) {
                            if fin.resume.contains(p as usize) {
                                let k = choose|k: int|
                                    0 <= k < fin.resume.len() && fin.resume[k] == p as usize;
                                if k < st.resume.len() {
                                    assert(fin.resume[k] == fin.resume.take(
                                        st.resume.len() as int,
                                    )[k]);
                                } else {
                                    assert(next.resume == st.resume);
                                }
                            }
                            if t == "--codex-home"@ || t == "--sqlite-home"@ {
                                if fin.resume.contains((p + 1) as usize) {
                                    let k = choose|k: int|
                                        0 <= k < fin.resume.len() && fin.resume[k] == (p
                                            + 1) as usize;
                                    if k < st.resume.len() {
                                        assert(fin.resume[k] == fin.resume.take(
                                            st.resume.len() as int,
                                        )[k]);
                                    } else {
                                        assert(next.resume == st.resume);
                                    }
                                }
                            }
                        }
                    } else {
                        assert(state_reading(args, i, st, p) == state_reading(args, j, next, p));
                        assert(read_as_flag(args, i, st, p) == read_as_flag(args, j, next, p));
                    }
                }
            },
            ScanStep::Fail(_) => {},
        }
    }
}

/// The laws of the command line, for every argument list that reads without error: the
/// forwarded arguments keep their order and are each forwarded once; no flag of the wrapper
/// itself (`--only-openai`, `--include-archived`, `--codex-home`, `--sqlite-home`, also with
/// `=`) read as a flag before `--` is forwarded, nor the path after `--codex-home` or
/// `--sqlite-home`; and a `--remote` or `--remote-auth-token-env` read as a flag before
/// `--` passes everything through to `codex resume`.
pub proof fn law_wrapper_flags_consumed_and_remote_passes_through(
    args: Seq<Option<String>>,
    fin: ArgScan,
    p: int,
)
    requires
        args.len() <= usize::MAX,
        scan_from(args, 0, scan_start()) == Ok::<ArgScan, ArgError>(fin),
    ensures
        increasing(fin.resume),
        forall|k: int| 0 <= k < fin.resume.len() ==> #[trigger] fin.resume[k] < args.len(),
        read_as_flag(args, 0, scan_start(), p) is Some ==> {
            let t = read_as_flag(args, 0, scan_start(), p)->0;
            &&& wrapper_flag(t) ==> !fin.resume.contains(p as usize)
            &&& (t == "--codex-home"@ || t == "--sqlite-home"@) ==> !fin.resume.contains(
                (p + 1) as usize,
            )
            &&& remote_flag(t) ==> mode_of(fin) == RunModeKind::Passthrough
        },
{
    lemma_scan_laws(args, 0, scan_start(), fin);
}

/// A session id or prompt among the arguments read as such (not as a flag's value) makes
/// the wrapper pass everything through.
pub proof fn law_positional_passes_through(args: Seq<Option<String>>, fin: ArgScan, p: int)
    requires
        args.len() <= usize::MAX,
        scan_from(args, 0, scan_start()) == Ok::<ArgScan, ArgError>(fin),
        state_reading(args, 0, scan_start(), p) is Some,
        read_as_flag(args, 0, scan_start(), p) is None || !has_prefix(
            read_as_flag(args, 0, scan_start(), p)->0,
            "-"@,
        ),
    ensures
        mode_of(fin) == RunModeKind::Passthrough,
{
    lemma_positional(args, 0, scan_start(), fin, p);
}

proof fn lemma_positional(args: Seq<Option<String>>, i: int, st: ArgScan, fin: ArgScan, p: int)
    requires
        0 <= i <= args.len(),
        args.len() <= usize::MAX,
        scan_from(args, i, st) == Ok::<ArgScan, ArgError>(fin),
        state_reading(args, i, st, p) is Some,
        read_as_flag(args, i, st, p) is None || !has_prefix(read_as_flag(args, i, st, p)->0, "-"@),
    ensures
        fin.positionals > 0,
    decreases args.len() - i,
{
    reveal_strlit("-");
    if i < args.len() {
        lemma_step_shape(args, i, st);
        match scan_step(args, i, st) {
            ScanStep::Next(next, j) => {
                if p == i {
                    assert(flag_here(args, i, st) == read_as_flag(args, i, st, p));
                    lemma_positional_step(args, i, st);
                    lemma_scan_laws_positionals(args, j, next, fin);
                } else {
                    assert(state_reading(args, i, st, p) == state_reading(args, j, next, p));
                    assert(read_as_flag(args, i, st, p) == read_as_flag(args, j, next, p));
                    lemma_positional(args, j, next, fin, p);
                }
            },
            ScanStep::Fail(_) => {},
        }
    }
}

proof fn lemma_positional_step(args: Seq<Option<String>>, i: int, st: ArgScan)
    requires
        0 <= i < args.len(),
        args.len() <= usize::MAX,
        flag_here(args, i, st) is None || !has_prefix(flag_here(args, i, st)->0, "-"@),
    ensures
        scan_step(args, i, st) is Next,
        scan_step(args, i, st)->Next_0.positionals > 0,
{
    reveal_strlit("-");
    reveal_strlit("--only-openai");
    reveal_strlit("--include-archived");
    reveal_strlit("--codex-home");
    reveal_strlit("--sqlite-home");
    reveal_strlit("--codex-home=");
    reveal_strlit("--sqlite-home=");
    reveal_strlit("--remote");
    reveal_strlit("--remote-auth-token-env");
    reveal_strlit("--remote=");
    reveal_strlit("--remote-auth-token-env=");
    reveal_strlit("--");
    reveal_strlit("--last");
    reveal_strlit("--all");
    reveal_strlit("--include-non-interactive");
    reveal_strlit("-C");
    reveal_strlit("--cd");
    reveal_strlit("--cd=");
    reveal_strlit("-C=");
    reveal_strlit("-c");
    reveal_strlit("--config");
    reveal_strlit("--enable");
    reveal_strlit("--disable");
    reveal_strlit("-i");
    reveal_strlit("--image");
    reveal_strlit("-m");
    reveal_strlit("--model");
    reveal_strlit("--local-provider");
    reveal_strlit("-p");
    reveal_strlit("--profile");
    reveal_strlit("-s");
    reveal_strlit("--sandbox");
    reveal_strlit("-a");
    reveal_strlit("--ask-for-approval");
    reveal_strlit("--add-dir");
    reveal_strlit("--config=");
    reveal_strlit("--enable=");
    reveal_strlit("--disable=");
    reveal_strlit("--image=");
    reveal_strlit("--model=");
    reveal_strlit("--local-provider=");
    reveal_strlit("--profile=");
    reveal_strlit("--sandbox=");
    reveal_strlit("--ask-for-approval=");
    reveal_strlit("--add-dir=");
    reveal_strlit("-c=");
    reveal_strlit("-i=");
    reveal_strlit("-m=");
    reveal_strlit("-p=");
    reveal_strlit("-s=");
    reveal_strlit("-a=");
    if flag_here(args, i, st) is Some {
        let t = flag_here(args, i, st)->0;
        if t.len() > 0 && t[0] == '-' {
            assert(t.take(1) =~= "-"@);
        }
        assert forall|q: Seq<char>| q.len() > 0 && q[0] == '-' implies !has_prefix(t, q) && t != q by {
            if has_prefix(t, q) {
                assert(t.take(q.len() as int)[0] == t[0]);
            }
            if t == q {
                assert(t[0] == q[0]);
            }
        }
    }
}

proof fn lemma_scan_laws_positionals(args: Seq<Option<String>>, i: int, st: ArgScan, fin: ArgScan)
    requires
        0 <= i <= args.len(),
        args.len() <= usize::MAX,
        st.positionals > 0,
        scan_from(args, i, st) == Ok::<ArgScan, ArgError>(fin),
    ensures
        fin.positionals > 0,
    decreases args.len() - i,
{
    if i < args.len() {
        lemma_step_shape(args, i, st);
        match scan_step(args, i, st) {
            ScanStep::Next(next, j) => {
                lemma_scan_laws_positionals(args, j, next, fin);
            },
            ScanStep::Fail(_) => {},
        }
    }
}

/// A flag that names the working directory sessions are limited to.
pub open spec fn cwd_flag(t: Seq<char>) -> bool {
    ||| t == "-C"@
    ||| t == "--cd"@
    ||| has_prefix(t, "--cd="@)
    ||| has_prefix(t, "-C="@)
}

/// The slice a working-directory flag at `p` names (its value, or its text after the
/// repeated `--cd=` or `-C=`).
spec fn cwd_slice(args: Seq<Option<String>>, p: int, t: Seq<char>) -> ArgSlice {
    if t == "-C"@ || t == "--cd"@ {
        ArgSlice { index: (p + 1) as usize, skip: 0 }
    } else if has_prefix(t, "--cd="@) {
        after_prefix(args, p, t, "--cd="@)
    } else {
        after_prefix(args, p, t, "-C="@)
    }
}

proof fn lemma_strip_repeated(s: Seq<char>, q: Seq<char>)
    requires
        q.len() > 0,
    ensures
        strip_repeated(s, q).len() <= s.len(),
        strip_repeated(s, q) == s.skip(s.len() - strip_repeated(s, q).len()),
        !has_prefix(strip_repeated(s, q), q),
        has_prefix(s, q) ==> s.len() - strip_repeated(s, q).len() >= q.len(),
        has_prefix(s, q) && !has_prefix(s.skip(q.len() as int), q) ==> strip_repeated(s, q)
            == s.skip(q.len() as int),
    decreases s.len(),
{
    if has_prefix(s, q) {
        let rest = s.skip(q.len() as int);
        lemma_strip_repeated(rest, q);
        assert(rest.skip(rest.len() - strip_repeated(rest, q).len()) == s.skip(
            s.len() - strip_repeated(rest, q).len(),
        ));
    } else {
        assert(s.skip(0) == s);
    }
}

/// Reading a step keeps the working directory already requested, and one read anywhere but
/// at a working-directory flag read as a flag.
proof fn lemma_cwd_kept_step(args: Seq<Option<String>>, i: int, st: ArgScan)
    requires
        0 <= i < args.len(),
        st.requested_cwd is Some || !(flag_here(args, i, st) is Some && cwd_flag(
            flag_here(args, i, st)->0,
        )),
    ensures
        scan_step(args, i, st) matches ScanStep::Next(next, _) ==> next.requested_cwd
            == st.requested_cwd,
{
}

/// Reading a working-directory flag when none was requested requests what it names.
proof fn lemma_cwd_set_step(args: Seq<Option<String>>, i: int, st: ArgScan, t: Seq<char>)
    requires
        0 <= i < args.len(),
        st.requested_cwd is None,
        flag_here(args, i, st) == Some(t),
        cwd_flag(t),
    ensures
        scan_step(args, i, st) matches ScanStep::Next(next, _) ==> next.requested_cwd == Some(
            cwd_slice(args, i, t),
        ),
{
    reveal_strlit("--only-openai");
    reveal_strlit("--include-archived");
    reveal_strlit("--codex-home");
    reveal_strlit("--sqlite-home");
    reveal_strlit("--codex-home=");
    reveal_strlit("--sqlite-home=");
    reveal_strlit("--remote");
    reveal_strlit("--remote-auth-token-env");
    reveal_strlit("--remote=");
    reveal_strlit("--remote-auth-token-env=");
    reveal_strlit("--");
    reveal_strlit("--last");
    reveal_strlit("--all");
    reveal_strlit("--include-non-interactive");
    reveal_strlit("-C");
    reveal_strlit("--cd");
    reveal_strlit("--cd=");
    reveal_strlit("-C=");
    assert(scan_step(args, i, st) == scan_text(args, i, t, st));
    if has_prefix(t, "--cd="@) || has_prefix(t, "-C="@) {
        let p = if has_prefix(t, "--cd="@) {
            "--cd="@
        } else {
            "-C="@
        };
        let k: int = if has_prefix(t, "--cd="@) {
            3
        } else {
            1
        };
        lemma_prefix_excludes(t, p, "--only-openai"@, k);
        lemma_prefix_excludes(t, p, "--include-archived"@, k);
        lemma_prefix_excludes(t, p, "--codex-home"@, k);
        lemma_prefix_excludes(t, p, "--sqlite-home"@, k);
        lemma_prefix_excludes(t, p, "--codex-home="@, k);
        lemma_prefix_excludes(t, p, "--sqlite-home="@, k);
        lemma_prefix_excludes(t, p, "--last"@, k);
        lemma_prefix_excludes(t, p, "--all"@, k);
        lemma_prefix_excludes(t, p, "--include-non-interactive"@, k);
        lemma_prefix_excludes(t, p, "--remote"@, k);
        lemma_prefix_excludes(t, p, "--remote-auth-token-env"@, k);
        lemma_prefix_excludes(t, p, "--remote="@, k);
        lemma_prefix_excludes(t, p, "--remote-auth-token-env="@, k);
        if has_prefix(t, "-C="@) {
            lemma_prefix_excludes(t, "-C="@, "--cd="@, 1);
            lemma_prefix_excludes(t, "-C="@, "--cd"@, 1);
        }
        assert(t.len() >= 3);
        assert(t != "--"@);
        assert(t != "-C"@);
        assert(t != "--cd"@);
    } else {
        assert(t == "-C"@ || t == "--cd"@);
        if t == "-C"@ {
            assert(t[1] != "--"@[1]);
        }
        assert(t != "--"@);
        assert(t != "--only-openai"@);
        assert(t != "--include-archived"@);
        assert(t != "--codex-home"@);
        assert(t != "--sqlite-home"@);
        assert(!has_prefix(t, "--codex-home="@));
        assert(!has_prefix(t, "--sqlite-home="@));
        assert(t != "--last"@);
        assert(t != "--all"@);
        assert(t != "--include-non-interactive"@);
        assert(t != "--remote"@);
        assert(t != "--remote-auth-token-env"@);
        assert(!has_prefix(t, "--remote="@));
        assert(!has_prefix(t, "--remote-auth-token-env="@));
    }
}

proof fn lemma_first_cwd(
    args: Seq<Option<String>>,
    i: int,
    st: ArgScan,
    fin: ArgScan,
    p: int,
    t: Seq<char>,
)
    requires
        0 <= i <= args.len(),
        scan_from(args, i, st) == Ok::<ArgScan, ArgError>(fin),
        read_as_flag(args, i, st, p) == Some(t),
        cwd_flag(t),
        st.requested_cwd is None,
        forall|q: int|
            #![trigger read_as_flag(args, i, st, q)]
            q < p && read_as_flag(args, i, st, q) is Some ==> !cwd_flag(
                read_as_flag(args, i, st, q)->0,
            ),
    ensures
        fin.requested_cwd == Some(cwd_slice(args, p, t)),
    decreases args.len() - i,
{
    if i < args.len() {
        match scan_step(args, i, st) {
            ScanStep::Next(next, j) => {
                if p == i {
                    assert(flag_here(args, i, st) == Some(t));
                    lemma_cwd_set_step(args, i, st, t);
                    if i < j <= args.len() {
                        lemma_cwd_kept_from(args, j, next, fin);
                    }
                } else {
                    if p < i {
                        lemma_state_reading_before(args, i, st, p);
                    }
                    assert(i < j <= args.len());
                    assert(state_reading(args, i, st, p) == state_reading(args, j, next, p));
                    assert(read_as_flag(args, i, st, p) == read_as_flag(args, j, next, p));
                    assert(read_as_flag(args, i, st, i) == flag_here(args, i, st));
                    lemma_cwd_kept_step(args, i, st);
                    assert forall|q: int|
                        #![trigger read_as_flag(args, j, next, q)]
                        q < p && read_as_flag(args, j, next, q) is Some implies !cwd_flag(
                            read_as_flag(args, j, next, q)->0,
                        ) by {
                        if q != i {
                            assert(state_reading(args, i, st, q) == state_reading(
                                args,
                                j,
                                next,
                                q,
                            ));
                            assert(read_as_flag(args, i, st, q) == read_as_flag(args, j, next, q));
                        } else {
                            assert(state_reading(args, j, next, q) is None) by {
                                lemma_state_reading_before(args, j, next, q);
                            }
                        }
                    }
                    lemma_first_cwd(args, j, next, fin, p, t);
                }
            },
            ScanStep::Fail(_) => {},
        }
    }
}

proof fn lemma_state_reading_before(args: Seq<Option<String>>, i: int, st: ArgScan, q: int)
    requires
        q < i,
    ensures
        state_reading(args, i, st, q) is None,
    decreases args.len() - i,
{
    if 0 <= i < args.len() {
        match scan_step(args, i, st) {
            ScanStep::Next(next, j) => {
                if i < j <= args.len() {
                    lemma_state_reading_before(args, j, next, q);
                }
            },
            ScanStep::Fail(_) => {},
        }
    }
}

proof fn lemma_cwd_kept_from(args: Seq<Option<String>>, i: int, st: ArgScan, fin: ArgScan)
    requires
        0 <= i <= args.len(),
        st.requested_cwd is Some,
        scan_from(args, i, st) == Ok::<ArgScan, ArgError>(fin),
    ensures
        fin.requested_cwd == st.requested_cwd,
    decreases args.len() - i,
{
    if i < args.len() {
        lemma_cwd_kept_step(args, i, st);
        match scan_step(args, i, st) {
            ScanStep::Next(next, j) => {
                if i < j <= args.len() {
                    lemma_cwd_kept_from(args, j, next, fin);
                }
            },
            ScanStep::Fail(_) => {},
        }
    }
}

/// The first working-directory flag read as a flag (before `--`) limits the sessions to
/// the directory it names, unless `--all` is given: `-C D` and `--cd D` name the next
/// argument whole; `--cd=D` and `-C=D` name their own text after the prefix (written once,
/// five and three characters; repeated, all repetitions).
pub proof fn law_first_cwd_flag_limits_sessions(
    args: Seq<Option<String>>,
    fin: ArgScan,
    p: int,
    t: Seq<char>,
)
    requires
        args.len() <= usize::MAX,
        t.len() <= usize::MAX,
        scan_from(args, 0, scan_start()) == Ok::<ArgScan, ArgError>(fin),
        read_as_flag(args, 0, scan_start(), p) == Some(t),
        cwd_flag(t),
        forall|q: int|
            #![trigger read_as_flag(args, 0, scan_start(), q)]
            q < p && read_as_flag(args, 0, scan_start(), q) is Some ==> !cwd_flag(
                read_as_flag(args, 0, scan_start(), q)->0,
            ),
    ensures
        fin.requested_cwd is Some,
        !fin.show_all ==> cwd_of(fin) == CwdFilter::Requested(fin.requested_cwd->0),
        (t == "-C"@ || t == "--cd"@) ==> fin.requested_cwd == Some(
            ArgSlice { index: (p + 1) as usize, skip: 0 },
        ),
        has_prefix(t, "--cd="@) ==> {
            let s = fin.requested_cwd->0;
            &&& s.index == p
            &&& s.skip >= 5
            &&& s.skip <= t.len()
            &&& !has_prefix(t.skip(s.skip as int), "--cd="@)
            &&& !has_prefix(t.skip(5), "--cd="@) ==> s.skip == 5
        },
        has_prefix(t, "-C="@) ==> {
            let s = fin.requested_cwd->0;
            &&& s.index == p
            &&& s.skip >= 3
            &&& s.skip <= t.len()
            &&& !has_prefix(t.skip(s.skip as int), "-C="@)
            &&& !has_prefix(t.skip(3), "-C="@) ==> s.skip == 3
        },
{
    reveal_strlit("--cd=");
    reveal_strlit("-C=");
    reveal_strlit("-C");
    reveal_strlit("--cd");
    lemma_first_cwd(args, 0, scan_start(), fin, p, t);
    if p < 0 {
        lemma_state_reading_before(args, 0, scan_start(), p);
    }
    assert(text_at(args, p) == Some(t));
    lemma_strip_repeated(t, "--cd="@);
    lemma_strip_repeated(t, "-C="@);
    if has_prefix(t, "--cd="@) {
        assert(t.len() >= 5);
        assert(t != "-C"@ && t != "--cd"@);
        let r = strip_repeated(t, "--cd="@);
        assert(t.skip(t.len() - r.len()) == r);
    }
    if has_prefix(t, "-C="@) {
        assert(t.len() >= 3);
        lemma_prefix_excludes(t, "-C="@, "--cd="@, 1);
        lemma_prefix_excludes(t, "-C="@, "--cd"@, 1);
        assert(t != "-C"@);
        let r = strip_repeated(t, "-C="@);
        assert(t.skip(t.len() - r.len()) == r);
    }
}

/// The options a step has set stay set.
proof fn lemma_options_kept_step(args: Seq<Option<String>>, i: int, st: ArgScan)
    requires
        0 <= i < args.len(),
    ensures
        scan_step(args, i, st) matches ScanStep::Next(next, _) ==> {
            &&& st.show_all ==> next.show_all
            &&& st.last ==> next.last
            &&& st.include_archived ==> next.include_archived
            &&& st.include_non_interactive ==> next.include_non_interactive
            &&& st.provider_visibility == ProviderVisibility::OnlyOpenAi ==> next.provider_visibility
                == ProviderVisibility::OnlyOpenAi
        },
{
}

proof fn lemma_options_kept_from(args: Seq<Option<String>>, i: int, st: ArgScan, fin: ArgScan)
    requires
        0 <= i <= args.len(),
        scan_from(args, i, st) == Ok::<ArgScan, ArgError>(fin),
    ensures
        st.show_all ==> fin.show_all,
        st.last ==> fin.last,
        st.include_archived ==> fin.include_archived,
        st.include_non_interactive ==> fin.include_non_interactive,
        st.provider_visibility == ProviderVisibility::OnlyOpenAi ==> fin.provider_visibility
            == ProviderVisibility::OnlyOpenAi,
    decreases args.len() - i,
{
    if i < args.len() {
        lemma_options_kept_step(args, i, st);
        match scan_step(args, i, st) {
            ScanStep::Next(next, j) => {
                if i < j <= args.len() {
                    lemma_options_kept_from(args, j, next, fin);
                }
            },
            ScanStep::Fail(_) => {},
        }
    }
}

/// Reading one of the option flags sets its option.
proof fn lemma_option_set_step(args: Seq<Option<String>>, i: int, st: ArgScan, t: Seq<char>)
    requires
        0 <= i < args.len(),
        flag_here(args, i, st) == Some(t),
    ensures
        scan_step(args, i, st) matches ScanStep::Next(next, _) ==> {
            &&& t == "--all"@ ==> next.show_all
            &&& t == "--last"@ ==> next.last
            &&& t == "--include-archived"@ ==> next.include_archived
            &&& t == "--include-non-interactive"@ ==> next.include_non_interactive
            &&& t == "--only-openai"@ ==> next.provider_visibility
                == ProviderVisibility::OnlyOpenAi
        },
{
    reveal_strlit("--only-openai");
    reveal_strlit("--include-archived");
    reveal_strlit("--codex-home");
    reveal_strlit("--sqlite-home");
    reveal_strlit("--codex-home=");
    reveal_strlit("--sqlite-home=");
    reveal_strlit("--");
    reveal_strlit("--last");
    reveal_strlit("--all");
    reveal_strlit("--include-non-interactive");
    assert(scan_step(args, i, st) == scan_text(args, i, t, st));
    if t == "--all"@ || t == "--last"@ || t == "--include-archived"@ || t
        == "--include-non-interactive"@ || t == "--only-openai"@ {
        assert(t != "--"@);
        assert(t.take(t.len() as int) == t);
        if t.len() >= 13 {
            lemma_prefix_excludes(t, t, "--codex-home="@, 2);
            lemma_prefix_excludes(t, t, "--sqlite-home="@, 2);
        }
        assert(!has_prefix(t, "--codex-home="@));
        assert(!has_prefix(t, "--sqlite-home="@));
        assert(t != "--codex-home"@);
        assert(t != "--sqlite-home"@);
        if t == "--all"@ {
            assert(t != "--only-openai"@ && t != "--include-archived"@ && t != "--last"@);
        }
        if t == "--last"@ {
            assert(t != "--only-openai"@ && t != "--include-archived"@);
        }
        if t == "--include-non-interactive"@ {
            assert(t != "--only-openai"@ && t != "--include-archived"@ && t != "--last"@ && t
                != "--all"@);
        }
    }
}

proof fn lemma_option_flag(
    args: Seq<Option<String>>,
    i: int,
    st: ArgScan,
    fin: ArgScan,
    p: int,
    t: Seq<char>,
)
    requires
        0 <= i <= args.len(),
        scan_from(args, i, st) == Ok::<ArgScan, ArgError>(fin),
        read_as_flag(args, i, st, p) == Some(t),
    ensures
        t == "--all"@ ==> fin.show_all,
        t == "--last"@ ==> fin.last,
        t == "--include-archived"@ ==> fin.include_archived,
        t == "--include-non-interactive"@ ==> fin.include_non_interactive,
        t == "--only-openai"@ ==> fin.provider_visibility == ProviderVisibility::OnlyOpenAi,
    decreases args.len() - i,
{
    if i < args.len() {
        match scan_step(args, i, st) {
            ScanStep::Next(next, j) => {
                if p == i {
                    assert(flag_here(args, i, st) == Some(t));
                    lemma_option_set_step(args, i, st, t);
                    if i < j <= args.len() {
                        lemma_options_kept_from(args, j, next, fin);
                    }
                } else {
                    assert(state_reading(args, i, st, p) == state_reading(args, j, next, p));
                    assert(read_as_flag(args, i, st, p) == read_as_flag(args, j, next, p));
                    lemma_option_flag(args, j, next, fin, p, t);
                }
            },
            ScanStep::Fail(_) => {},
        }
    }
}

/// The selection flags read as flags (before `--`) do what they say: `--all` lists the
/// sessions of every directory, `--last` resumes the latest session unless everything is
/// passed through, `--include-archived` and `--include-non-interactive` include those
/// sessions, and `--only-openai` lists only OpenAI's.
pub proof fn law_selection_flags_take_effect(args: Seq<Option<String>>, fin: ArgScan, p: int)
    requires
        scan_from(args, 0, scan_start()) == Ok::<ArgScan, ArgError>(fin),
        read_as_flag(args, 0, scan_start(), p) is Some,
    ensures
        ({
            let t = read_as_flag(args, 0, scan_start(), p)->0;
            &&& t == "--all"@ ==> cwd_of(fin) == CwdFilter::AllDirectories
            &&& t == "--last"@ && !fin.remote && fin.positionals == 0 ==> mode_of(fin)
                == RunModeKind::Last
            &&& t == "--include-archived"@ ==> fin.include_archived
            &&& t == "--include-non-interactive"@ ==> fin.include_non_interactive
            &&& t == "--only-openai"@ ==> fin.provider_visibility
                == ProviderVisibility::OnlyOpenAi
        }),
{
    let t = read_as_flag(args, 0, scan_start(), p)->0;
    lemma_option_flag(args, 0, scan_start(), fin, p, t);
}

/// What is forwarded when the wrapper picks the session itself never holds a selection
/// flag (`--last`, `--all`, `--include-non-interactive`), keeps every other forwarded
/// argument, and keeps their order.
pub proof fn law_selection_flags_not_forwarded(args: Seq<Option<String>>, idx: Seq<usize>)
    ensures
        forall|k: int|
            0 <= k < without_selection_flags(args, idx).len() ==> {
                let a = #[trigger] without_selection_flags(args, idx)[k];
                &&& idx.contains(a)
                &&& text_at(args, a as int) != Some("--last"@)
                &&& text_at(args, a as int) != Some("--all"@)
                &&& text_at(args, a as int) != Some("--include-non-interactive"@)
            },
        forall|j: int|
            #![trigger idx[j]]
            0 <= j < idx.len() && text_at(args, idx[j] as int) != Some("--last"@) && text_at(
                args,
                idx[j] as int,
            ) != Some("--all"@) && text_at(args, idx[j] as int) != Some(
                "--include-non-interactive"@,
            ) ==> without_selection_flags(args, idx).contains(idx[j]),
        increasing(idx) ==> increasing(without_selection_flags(args, idx)),
    decreases idx.len(),
{
    if idx.len() > 0 {
        let u = idx.drop_last();
        law_selection_flags_not_forwarded(args, u);
        let w = without_selection_flags(args, u);
        assert forall|k: int| 0 <= k < w.len() implies idx.contains(#[trigger] w[k]) by {
            let m = choose|m: int| 0 <= m < u.len() && u[m] == w[k];
            assert(idx[m] == u[m]);
        }
        assert forall|j: int|
            #![trigger idx[j]]
            0 <= j < idx.len() && text_at(args, idx[j] as int) != Some("--last"@) && text_at(
                args,
                idx[j] as int,
            ) != Some("--all"@) && text_at(args, idx[j] as int) != Some(
                "--include-non-interactive"@,
            ) implies without_selection_flags(args, idx).contains(idx[j]) by {
            if j < u.len() {
                assert(idx[j] == u[j]);
                assert(w.contains(u[j]));
                let m = choose|m: int| 0 <= m < w.len() && w[m] == u[j];
                let t = text_at(args, idx.last() as int);
                if !(t == Some("--last"@) || t == Some("--all"@) || t == Some(
                    "--include-non-interactive"@,
                )) {
                    assert(w.push(idx.last())[m] == u[j]);
                }
            } else {
                assert(j == idx.len() - 1);
                let wl = w.push(idx.last());
                assert(wl[w.len() as int] == idx[j]);
            }
        }
        if increasing(idx) {
            assert(increasing(u));
            assert forall|k: int| 0 <= k < w.len() implies #[trigger] w[k] < idx.last() by {
                let m = choose|m: int| 0 <= m < u.len() && u[m] == w[k];
                assert(idx[m] == u[m]);
            }
        }
    }
}

} // verus!
