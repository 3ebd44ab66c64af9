use codexresume::cli::{
    arg_error_message, parse_args, strip_selection_flags, takes_value, takes_value_with_equals,
    ArgErrorKind, ArgSlice, CwdFilter, ParsedArgs, RunModeKind,
};
use codexresume::data::ProviderVisibility;

fn args(list: &[&str]) -> Vec<Option<String>> {
    list.iter().map(|s| Some(s.to_string())).collect()
}

fn plan(list: &[&str]) -> codexresume::cli::CliPlan {
    match parse_args(&args(list)) {
        Ok(ParsedArgs::Run(plan)) => plan,
        _ => panic!("a run plan was expected"),
    }
}

fn chars(s: &str) -> Vec<char> {
    s.chars().collect()
}

#[test]
fn wrapper_flags_are_consumed_and_not_forwarded() {
    let p = plan(&["--only-openai", "--include-archived", "--codex-home", "/c", "--sqlite-home=/s", "--yolo"]);
    assert_eq!(p.mode, RunModeKind::Picker);
    assert_eq!(p.resume_args, vec![5]);
    assert_eq!(p.provider_visibility, ProviderVisibility::OnlyOpenAi);
    assert!(p.include_archived);
    assert_eq!(p.codex_home, Some(ArgSlice { index: 3, skip: 0 }));
    assert_eq!(p.sqlite_home, Some(ArgSlice { index: 4, skip: 14 }));
    assert_eq!(p.cwd, CwdFilter::Current);
}

#[test]
fn last_all_and_non_interactive_select_mode_and_are_stripped() {
    let p = plan(&["--last", "--all", "--include-non-interactive", "-m", "gpt"]);
    assert_eq!(p.mode, RunModeKind::Last);
    assert_eq!(p.resume_args, vec![3, 4]);
    assert!(p.include_non_interactive);
    assert_eq!(p.cwd, CwdFilter::AllDirectories);
}

#[test]
fn session_id_or_remote_passes_everything_through() {
    let p = plan(&["--last", "abc-123"]);
    assert_eq!(p.mode, RunModeKind::Passthrough);
    assert_eq!(p.resume_args, vec![0, 1]);
    let p = plan(&["--remote", "host", "--all"]);
    assert_eq!(p.mode, RunModeKind::Passthrough);
    assert_eq!(p.resume_args, vec![0, 1, 2]);
    let p = plan(&["--remote-auth-token-env=TOKEN"]);
    assert_eq!(p.mode, RunModeKind::Passthrough);
    let p = plan(&["--model", "abc"]);
    assert_eq!(p.mode, RunModeKind::Picker);
    assert_eq!(p.resume_args, vec![0, 1]);
}

#[test]
fn double_dash_forwards_the_rest_as_positionals() {
    let p = plan(&["--yolo", "--", "--only-openai"]);
    assert_eq!(p.mode, RunModeKind::Passthrough);
    assert_eq!(p.resume_args, vec![0, 1, 2]);
    assert_eq!(p.provider_visibility, ProviderVisibility::All);
}

#[test]
fn cwd_flags_first_one_wins() {
    let p = plan(&["-C", "/a", "--cd=/b", "-C=-C=/c"]);
    assert_eq!(p.cwd, CwdFilter::Requested(ArgSlice { index: 1, skip: 0 }));
    assert_eq!(p.resume_args, vec![0, 1, 2, 3]);
    let p = plan(&["-C=-C=/c"]);
    assert_eq!(p.cwd, CwdFilter::Requested(ArgSlice { index: 0, skip: 6 }));
}

#[test]
fn codex_home_equals_strips_repeated_prefixes() {
    let p = plan(&["--codex-home=--codex-home=/x"]);
    assert_eq!(p.codex_home, Some(ArgSlice { index: 0, skip: 26 }));
}

#[test]
fn non_unicode_arguments_are_positionals() {
    let mut a = args(&["--last"]);
    a.push(None);
    match parse_args(&a) {
        Ok(ParsedArgs::Run(p)) => {
            assert_eq!(p.mode, RunModeKind::Passthrough);
            assert_eq!(p.resume_args, vec![0, 1]);
        }
        _ => panic!("a run plan was expected"),
    }
}

#[test]
fn help_and_version_win_anywhere() {
    assert!(matches!(parse_args(&args(&["--model", "--help"])), Ok(ParsedArgs::Help)));
    assert!(matches!(parse_args(&args(&["-V", "-h"])), Ok(ParsedArgs::Version)));
    assert!(matches!(parse_args(&args(&["--codex-home"])), Err(_)));
}

#[test]
fn missing_values_are_errors() {
    let a = args(&["--codex-home"]);
    let e = parse_args(&a).err().unwrap();
    assert_eq!(e.kind, ArgErrorKind::MissingPathValue);
    assert_eq!(arg_error_message(&a, e), "--codex-home requires a path value");
    let a = args(&["--yolo", "--remote"]);
    let e = parse_args(&a).err().unwrap();
    assert_eq!((e.kind, e.flag_index), (ArgErrorKind::MissingValue, 1));
    assert_eq!(arg_error_message(&a, e), "--remote requires a value");
    let a = args(&["-C"]);
    let e = parse_args(&a).err().unwrap();
    assert_eq!(arg_error_message(&a, e), "-C/--cd requires a directory");
    let a = args(&["--profile"]);
    let e = parse_args(&a).err().unwrap();
    assert_eq!(arg_error_message(&a, e), "--profile requires a value");
}

#[test]
fn value_flag_tables() {
    for f in ["-c", "--config", "--enable", "--disable", "-i", "--image", "-m", "--model",
        "--local-provider", "-p", "--profile", "-s", "--sandbox", "-a", "--ask-for-approval",
        "--add-dir"] {
        assert!(takes_value(&chars(f)), "{f}");
    }
    assert!(!takes_value(&chars("--yolo")));
    assert!(takes_value_with_equals(&chars("--model=gpt")));
    assert!(takes_value_with_equals(&chars("-a=never")));
    assert!(!takes_value_with_equals(&chars("--model")));
}

#[test]
fn strip_selection_flags_keeps_others_in_order() {
    let a = args(&["--last", "x", "--all", "y", "--include-non-interactive"]);
    assert_eq!(strip_selection_flags(&a, &vec![0, 1, 2, 3, 4]), vec![1, 3]);
}
