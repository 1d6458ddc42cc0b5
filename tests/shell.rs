use rshell::text::is_white;
use rshell::builtins::{builtin_names, classify, parse_pwd_args, pwd_output, Builtin, PwdMode};
use rshell::executor::{PipelineRun, StageAction, StdinSource, StdoutSink};
use rshell::expand::{expand_env_variables, parse_line, EnvValues};
use rshell::history::{
    accept, clear_history, entries, history_file_text, history_line, load_history_text,
    new_history, parse_history_args, run_builtin_history, trim_shell_history, HistoryCommand,
    HistoryReply, HISTSIZE,
};
use rshell::navigate::{plan_cd, record_cd, CdPlan, DirState};
use rshell::prompt::format_path;
use rshell::tokenize::tokenize;

fn strings(v: &[&str]) -> Vec<String> {
    v.iter().map(|s| s.to_string()).collect()
}

fn env() -> EnvValues {
    EnvValues {
        home: "/home/u".to_string(),
        path: "/usr/bin:/bin".to_string(),
        user: "u".to_string(),
        cwd: "/tmp".to_string(),
        lang: "C".to_string(),
    }
}

fn go_target(p: &CdPlan) -> Option<(String, bool)> {
    match p {
        CdPlan::Go { target, announce } => Some((target.clone(), *announce)),
        _ => None,
    }
}

/// Runs the executor over a pipeline, with every spawn reported as `spawned`.
fn actions(line: &str, spawned: bool) -> Vec<StageAction> {
    let segs = tokenize(line);
    let mut run = PipelineRun::new();
    let mut out = Vec::new();
    for (i, s) in segs.iter().enumerate() {
        let a = run.next_action(s, i + 1 < segs.len());
        run.advance(a, spawned);
        out.push(a);
    }
    out
}

#[test]
fn tokenize_line_without_pipe_is_one_segment() {
    let p = tokenize("ls -la   /tmp");
    assert_eq!(p.len(), 1);
    assert_eq!(p[0].command, "ls");
    assert_eq!(p[0].args, strings(&["-la", "/tmp"]));
}

#[test]
fn tokenize_three_segments_in_order() {
    let p = tokenize("a | b x |c");
    assert_eq!(p.len(), 3);
    assert_eq!(p[0].command, "a");
    assert_eq!(p[1].command, "b");
    assert_eq!(p[1].args, strings(&["x"]));
    assert_eq!(p[2].command, "c");
    assert!(p[2].args.is_empty());
}

#[test]
fn tokenize_leading_hole_reports_and_still_runs_ls() {
    let p = tokenize(" | ls");
    assert_eq!(p.len(), 2);
    assert!(p[0].is_empty());
    assert_eq!(p[0].command, "");
    assert_eq!(p[1].command, "ls");
    let a = actions(" | ls", true);
    assert_eq!(a[0], StageAction::ReportEmpty);
    assert_eq!(
        a[1],
        StageAction::Spawn { stdin: StdinSource::Inherit, stdout: StdoutSink::Inherit }
    );
}

#[test]
fn tokenize_empty_line_and_tabs() {
    let p = tokenize("");
    assert_eq!(p.len(), 1);
    assert!(p[0].is_empty());
    let q = tokenize("echo\thi\n");
    assert_eq!(q[0].command, "echo");
    assert_eq!(q[0].args, strings(&["hi"]));
    let r = tokenize("a||b");
    assert_eq!(r.len(), 3);
    assert!(r[1].is_empty());
}

#[test]
fn history_keeps_newest_entries_at_cap() {
    let mut h = new_history();
    let n = HISTSIZE + 100;
    for i in 0..n {
        accept(&mut h, &format!("cmd{}", i));
    }
    let e = entries(&h);
    assert_eq!(e.len(), HISTSIZE);
    assert_eq!(e[0], "cmd100");
    assert_eq!(e[HISTSIZE - 1], format!("cmd{}", n - 1));
    trim_shell_history(&mut h);
    assert_eq!(entries(&h).len(), HISTSIZE);
}

#[test]
fn history_ignores_lines_starting_with_space() {
    let mut h = new_history();
    accept(&mut h, " secret");
    accept(&mut h, "   ");
    accept(&mut h, "");
    assert!(entries(&h).is_empty());
    accept(&mut h, "ls -l  ");
    accept(&mut h, "\tpwd");
    assert_eq!(entries(&h), strings(&["ls -l", "pwd"]));
    assert_eq!(history_line(" x"), None);
    assert_eq!(history_line("  a b  "), None);
    assert_eq!(history_line("a b \t").unwrap(), "a b");
}

#[test]
fn history_skips_consecutive_duplicates() {
    let mut h = new_history();
    accept(&mut h, "ls");
    accept(&mut h, "ls ");
    accept(&mut h, "pwd");
    accept(&mut h, "ls");
    assert_eq!(entries(&h), strings(&["ls", "pwd", "ls"]));
}

#[test]
fn history_persist_then_load_round_trip() {
    let mut h = new_history();
    for l in ["echo a", "ls | wc", "cd /tmp", "echo a"] {
        accept(&mut h, l);
    }
    let text = history_file_text(&h);
    assert_eq!(text, "echo a\nls | wc\ncd /tmp\necho a\n");
    let mut fresh = new_history();
    load_history_text(&mut fresh, &text);
    assert_eq!(entries(&fresh), entries(&h));
}

#[test]
fn history_clear_then_persist_then_load_is_empty() {
    let mut h = new_history();
    accept(&mut h, "ls");
    let reply = run_builtin_history(&strings(&["-c"]), &mut h);
    assert!(matches!(reply, HistoryReply::Cleared));
    assert!(reply.needs_persist());
    let text = history_file_text(&h);
    assert_eq!(text, "");
    let mut fresh = new_history();
    load_history_text(&mut fresh, &text);
    assert!(entries(&fresh).is_empty());
}

#[test]
fn history_load_skips_blank_lines() {
    let mut h = new_history();
    load_history_text(&mut h, "a\n\nb\nb\nc");
    assert_eq!(entries(&h), strings(&["a", "b", "c"]));
}

#[test]
fn history_builtin_arguments() {
    assert_eq!(parse_history_args(&strings(&[])), HistoryCommand::List);
    assert_eq!(parse_history_args(&strings(&["-c"])), HistoryCommand::Clear);
    assert_eq!(parse_history_args(&strings(&["-w"])), HistoryCommand::Write);
    assert_eq!(parse_history_args(&strings(&["-x"])), HistoryCommand::Usage);
    assert_eq!(parse_history_args(&strings(&["-c", "-w"])), HistoryCommand::Usage);
    let mut h = new_history();
    accept(&mut h, "ls");
    accept(&mut h, "pwd");
    match run_builtin_history(&strings(&[]), &mut h) {
        HistoryReply::Listing(l) => {
            assert_eq!(l, vec![(1, "ls".to_string()), (2, "pwd".to_string())]);
        }
        _ => panic!("expected a listing"),
    }
    let w = run_builtin_history(&strings(&["-w"]), &mut h);
    assert!(matches!(w, HistoryReply::Written));
    let u = run_builtin_history(&strings(&["-c", "x"]), &mut h);
    assert!(matches!(u, HistoryReply::Usage));
    assert!(!u.needs_persist());
    assert_eq!(entries(&h).len(), 2);
    clear_history(&mut h);
    assert!(entries(&h).is_empty());
}

#[test]
fn cd_dash_without_previous_fails_and_changes_nothing() {
    let state = DirState { previous: None };
    let p = plan_cd(Some("-"), "/home/u", "/tmp", &state);
    assert!(matches!(p, CdPlan::NoPrevious));
    assert_eq!(state.previous, None);
}

#[test]
fn cd_home_relative_target() {
    let state = DirState { previous: None };
    let p = plan_cd(Some("~/x"), "/home/u", "/tmp", &state);
    assert_eq!(go_target(&p), Some(("/home/u/x".to_string(), false)));
    let mut st = DirState { previous: None };
    record_cd(&mut st, "/tmp".to_string(), true);
    assert_eq!(st.previous, Some("/tmp".to_string()));
}

#[test]
fn cd_targets_by_case() {
    let st = DirState { previous: Some("/var".to_string()) };
    assert!(matches!(plan_cd(None, "/home/u", "/home/u", &st), CdPlan::Stay));
    assert_eq!(go_target(&plan_cd(None, "/home/u", "/tmp", &st)), Some(("/home/u".to_string(), false)));
    assert_eq!(go_target(&plan_cd(Some("-"), "/home/u", "/tmp", &st)), Some(("/var".to_string(), true)));
    assert_eq!(go_target(&plan_cd(Some("~"), "/home/u", "/tmp", &st)), Some(("/home/u".to_string(), false)));
    assert_eq!(go_target(&plan_cd(Some("~/"), "/home/u", "/tmp", &st)), Some(("/home/u".to_string(), false)));
    assert_eq!(go_target(&plan_cd(Some("~/~/x"), "/home/u", "/tmp", &st)), Some(("/home/u/x".to_string(), false)));
    assert_eq!(go_target(&plan_cd(Some("~foo"), "/home/u", "/tmp", &st)), Some(("/home/u/~foo".to_string(), false)));
    assert_eq!(go_target(&plan_cd(Some("~/x"), "/", "/tmp", &st)), Some(("/x".to_string(), false)));
    assert_eq!(go_target(&plan_cd(Some("~//etc"), "/home/u", "/tmp", &st)), Some(("/etc".to_string(), false)));
    assert_eq!(go_target(&plan_cd(Some("src"), "/home/u", "/tmp", &st)), Some(("src".to_string(), false)));
}

#[test]
fn cd_failure_keeps_previous() {
    let mut st = DirState { previous: Some("/var".to_string()) };
    record_cd(&mut st, "/tmp".to_string(), false);
    assert_eq!(st.previous, Some("/var".to_string()));
}

#[test]
fn pipeline_failed_first_stage_does_not_block_second() {
    let a = actions("false | echo hi", true);
    assert_eq!(a[0], StageAction::Spawn { stdin: StdinSource::Inherit, stdout: StdoutSink::Pipe });
    assert_eq!(a[1], StageAction::Spawn { stdin: StdinSource::Previous, stdout: StdoutSink::Inherit });
    let b = actions("nosuchprogram | echo hi", false);
    assert_eq!(b[1], StageAction::Spawn { stdin: StdinSource::Inherit, stdout: StdoutSink::Inherit });
}

#[test]
fn pipeline_builtin_mid_chain_drops_previous_output() {
    let a = actions("ls | cd | wc", true);
    assert_eq!(a[1], StageAction::RunBuiltin(Builtin::Cd));
    assert_eq!(a[2], StageAction::Spawn { stdin: StdinSource::Inherit, stdout: StdoutSink::Inherit });
    let e = actions("ls | exit", true);
    assert_eq!(e[1], StageAction::Exit);
    let mut run = PipelineRun::new();
    assert!(!run.awaits_final());
    let segs = tokenize("ls");
    let act = run.next_action(&segs[0], false);
    run.advance(act, true);
    assert!(run.awaits_final());
}

#[test]
fn builtin_registry() {
    assert_eq!(classify("cd"), Builtin::Cd);
    assert_eq!(classify("pwd"), Builtin::Pwd);
    assert_eq!(classify("help"), Builtin::Help);
    assert_eq!(classify("exit"), Builtin::Exit);
    assert_eq!(classify("history"), Builtin::History);
    assert_eq!(classify("ls"), Builtin::External);
    assert_eq!(classify("CD"), Builtin::External);
    for n in builtin_names() {
        assert_ne!(classify(n), Builtin::External);
    }
}

#[test]
fn pwd_flags() {
    assert_eq!(parse_pwd_args(&strings(&[])), Ok(PwdMode::Physical));
    assert_eq!(parse_pwd_args(&strings(&["-L"])), Ok(PwdMode::Logical));
    assert_eq!(parse_pwd_args(&strings(&["-L", "-P"])), Ok(PwdMode::Physical));
    assert_eq!(parse_pwd_args(&strings(&["-P", "-L"])), Ok(PwdMode::Logical));
    assert_eq!(parse_pwd_args(&strings(&["-h", "-L"])), Ok(PwdMode::Help));
    assert_eq!(parse_pwd_args(&strings(&["-p"])), Err("-p".to_string()));
    assert_eq!(parse_pwd_args(&strings(&["-l"])), Err("-l".to_string()));
    assert_eq!(parse_pwd_args(&strings(&["--physical"])), Err("--physical".to_string()));
    assert_eq!(parse_pwd_args(&strings(&["--logical"])), Err("--logical".to_string()));
    assert_eq!(parse_pwd_args(&strings(&["-h", "--help"])), Err("--help".to_string()));
    assert_eq!(parse_pwd_args(&strings(&["-x"])), Err("-x".to_string()));
    assert_eq!(parse_pwd_args(&strings(&["-L", "-x", "-h"])), Err("-x".to_string()));
    assert_eq!(pwd_output(PwdMode::Help, None, "/a".to_string()), None);
    assert_eq!(pwd_output(PwdMode::Physical, Some("/l".to_string()), "/a".to_string()), Some("/a".to_string()));
    assert_eq!(pwd_output(PwdMode::Logical, Some("/l".to_string()), "/a".to_string()), Some("/l".to_string()));
    assert_eq!(pwd_output(PwdMode::Logical, None, "/a".to_string()), Some("/a".to_string()));
}

#[test]
fn expand_known_and_unknown_variables() {
    let e = env();
    assert_eq!(expand_env_variables("echo $HOME/x", &e), "echo /home/u/x");
    assert_eq!(expand_env_variables("$USER@$PWD $LANG", &e), "u@/tmp C");
    assert_eq!(expand_env_variables("$PATH", &e), "/usr/bin:/bin");
    assert_eq!(expand_env_variables("$FOO", &e), "UNKNOWN YET VARIABLE: $FOO");
    assert_eq!(expand_env_variables("a $ b", &e), "a UNKNOWN YET VARIABLE: $ b");
    assert_eq!(expand_env_variables("$USER_x", &e), "UNKNOWN YET VARIABLE: $USER_x");
    assert_eq!(expand_env_variables("plain", &e), "plain");
}

#[test]
fn parse_line_expands_then_splits() {
    let p = parse_line("  cat $HOME/f | grep x  ", &env());
    assert_eq!(p.len(), 2);
    assert_eq!(p[0].command, "cat");
    assert_eq!(p[0].args, strings(&["/home/u/f"]));
    assert_eq!(p[1].command, "grep");
}

#[test]
fn prompt_path_abbreviation() {
    assert_eq!(format_path("/home/u", "/home/u"), "");
    assert_eq!(format_path("/home/u/docs", "/home/u"), "/docs");
    assert_eq!(format_path("/home/u/projects/rust/shell", "/home/u"), "/p/r/shell");
    assert_eq!(format_path("/usr/local/bin", "/home/u"), "/u/l/bin");
    assert_eq!(format_path("/", "/home/u"), "/");
    assert_eq!(format_path("/home/user2/x", "/home/u"), "/s/x");
}

#[test]
fn whitespace_test_agrees_with_std() {
    for u in 0u32..=0x10FFFF {
        if let Some(c) = char::from_u32(u) {
            assert_eq!(is_white(c), c.is_whitespace(), "U+{:04X}", u);
        }
    }
}

#[test]
fn tokenize_splits_on_unicode_whitespace() {
    let p = tokenize("echo\u{3000}a\u{a0}b\u{2003}");
    assert_eq!(p[0].command, "echo");
    assert_eq!(p[0].args, strings(&["a", "b"]));
}
