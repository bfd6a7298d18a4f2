//! Agents: who they are, what their hooks say, and how they are started again.

use agora::adapter::claude::{stop_failure_matchers, Claude};
use agora::adapter::codex::CODEX;
use agora::adapter::grok::GROK;
use agora::adapter::resume::{
    conversation_id_of, new_conversation_id, pin_with, program_of, restart_with, splice_args,
};
use agora::adapter::scrub::{is_uuid, scrub};
use agora::adapter::shell::SHELL;
use agora::adapter::text::{clip, detect, last_line, strip_ansi, tail_lines, TAIL_LINES};
use agora::adapter::{
    adapters, find, for_host, has_hooks, hosts, identify, plan_pin, plan_restart, probe,
    unwrap_shell_c, Adapter, Agent, AgentFallback, AgentHooks, AgentIdentity, Host, ProbeRun,
    Release, RestartPlan, Version, VersionProbe,
};
use agora::codec::{compact, parse};
use agora::json::Json;
use agora::status::{AgoraEvent, DetectionResult, Status};

const ACME: Claude = Claude {
    name: "acme",
    title: "Acme Agent",
    settings: ".acme/settings.json",
};

fn j(text: &str) -> Json {
    parse(text.as_bytes()).unwrap()
}

fn at<'a>(v: &'a Json, keys: &[&str]) -> &'a Json {
    let mut v = v;
    for k in keys {
        v = match v {
            Json::Array(a) => &a[k.parse::<usize>().unwrap()],
            other => other.get(k).unwrap(),
        };
    }
    v
}

fn text_at<'a>(v: &'a Json, keys: &[&str]) -> &'a str {
    at(v, keys).as_str().unwrap()
}

fn name_of(argv: &[&str]) -> Option<&'static str> {
    identify(ACME, argv).map(|b| b.name())
}

fn d(screen: &str) -> Option<DetectionResult> {
    let tail = tail_lines(screen, TAIL_LINES);
    let refs: Vec<&str> = tail.iter().map(String::as_str).collect();
    detect(&refs)
}

#[test]
fn injected_prompts_are_not_the_users_words() {
    let injected = j(
        r#"{"hook_event_name":"UserPromptSubmit","prompt":"<task-notification>\n<task-id>x</task-id>\n</task-notification>"}"#,
    );
    assert_eq!(ACME.parse(&injected), vec![AgoraEvent::PromptInjected]);
    let reminder =
        j(r#"{"hook_event_name":"UserPromptSubmit","prompt":"  <system-reminder>\nfoo"}"#);
    assert_eq!(ACME.parse(&reminder), vec![AgoraEvent::PromptInjected]);
    let slash = j(
        r#"{"hook_event_name":"UserPromptSubmit","prompt":"<command-name>/clear</command-name>"}"#,
    );
    assert_eq!(ACME.parse(&slash), vec![AgoraEvent::PromptInjected]);
    let human = j(r#"{"hook_event_name":"UserPromptSubmit","prompt":"把 config 迁到 yaml"}"#);
    assert_eq!(
        ACME.parse(&human),
        vec![AgoraEvent::PromptSubmitted("把 config 迁到 yaml".into())]
    );
    let html = j(r#"{"hook_event_name":"UserPromptSubmit","prompt":"<div> 这个怎么居中"}"#);
    assert!(matches!(
        ACME.parse(&html)[0],
        AgoraEvent::PromptSubmitted(_)
    ));
}

#[test]
fn only_session_start_carries_the_headless_shape() {
    let prompt = j(
        r#"{"hook_event_name":"UserPromptSubmit","session_id":"s","prompt":"<prompt>","permission_mode":"default"}"#,
    );
    assert!(!ACME.is_headless(&prompt));
    let stop = j(r#"{"hook_event_name":"Stop","session_id":"s"}"#);
    assert!(!ACME.is_headless(&stop));
    let bare = j(r#"{"hook_event_name":"SessionStart","session_id":"s","source":"startup"}"#);
    assert!(ACME.is_headless(&bare));
    for key in ["model", "permission_mode", "effort", "scratchpad_dir"] {
        let p = agora::json::with(agora::json::copy(&bare), key, Json::Str("x".into()));
        assert!(!ACME.is_headless(&p), "{key}");
    }
}

#[test]
fn claude_version_is_three_valued_and_table_bounded() {
    assert_eq!(
        ACME.version("2.1.260 (Acme Agent)\n"),
        VersionProbe::Available(Version(2, 1, 260))
    );
    assert!(matches!(
        ACME.version("2.0.1 (Acme Agent)"),
        VersionProbe::Unparsable(_)
    ));
    assert!(matches!(
        ACME.version("2.1.258"),
        VersionProbe::Unparsable(_)
    ));
    assert!(matches!(ACME.version(""), VersionProbe::Unparsable(_)));
}

#[test]
fn resume_and_pin_use_the_reported_id_only() {
    let v = Version(2, 1, 258);
    assert_eq!(ACME.resume_args(v, "abc").unwrap(), vec!["--resume", "abc"]);
    assert_eq!(
        ACME.pin_args(v, "u1").unwrap(),
        vec!["--session-id", "u1"]
    );
    assert_eq!(ACME.resume_args(Version(1, 0, 0), "abc"), None);
}

#[test]
fn permission_request_summary_carries_the_tool_input() {
    let bash = j(
        r#"{"hook_event_name":"PermissionRequest","tool_name":"Bash","tool_input":{"command":"git push origin main"},"permission_suggestions":[]}"#,
    );
    assert_eq!(
        ACME.parse(&bash),
        vec![AgoraEvent::DecisionNeeded {
            tool_use_id: "Bash".into(),
            summary: "Bash: git push origin main".into()
        }]
    );
    let write = j(
        r#"{"hook_event_name":"PermissionRequest","tool_name":"Write","tool_input":{"file_path":"/work/agora/README.md","content":"..."}}"#,
    );
    assert_eq!(
        ACME.parse(&write),
        vec![AgoraEvent::DecisionNeeded {
            tool_use_id: "Write".into(),
            summary: "Write: /work/agora/README.md".into()
        }]
    );
    let bare = j(r#"{"hook_event_name":"PermissionRequest","tool_name":"Bash"}"#);
    assert_eq!(
        ACME.parse(&bare),
        vec![AgoraEvent::DecisionNeeded {
            tool_use_id: "Bash".into(),
            summary: "Bash".into()
        }]
    );
    assert_eq!(ACME.hold_key(&bash).as_deref(), Some("Bash"));
}

#[test]
fn ask_user_question_waits_until_its_own_post_tool_use() {
    let pre = j(
        r#"{"hook_event_name":"PreToolUse","tool_name":"AskUserQuestion","tool_use_id":"q1","tool_input":{"questions":[{"question":"which?"}]}}"#,
    );
    assert_eq!(
        ACME.parse(&pre),
        vec![AgoraEvent::InputNeeded {
            tool_use_id: "q1".into(),
            question: "which?".into()
        }]
    );
    let post =
        j(r#"{"hook_event_name":"PostToolUse","tool_name":"AskUserQuestion","tool_use_id":"q1"}"#);
    assert_eq!(
        ACME.parse(&post)[0],
        AgoraEvent::DecisionResolved(Some("q1".into()))
    );
    assert_eq!(ACME.hold_key(&pre), None);
}

#[test]
fn stop_failure_carries_the_error_type() {
    assert_eq!(
        ACME.parse(&j(
            r#"{"hook_event_name":"StopFailure","error_type":"rate_limit"}"#
        )),
        vec![AgoraEvent::TurnFailed("rate_limit".into())]
    );
    assert_eq!(
        ACME.parse(&j(
            r#"{"hook_event_name":"StopFailure","error":"server_error"}"#
        )),
        vec![AgoraEvent::TurnFailed("server_error".into())]
    );
    assert_eq!(stop_failure_matchers().len(), 11);
}

#[test]
fn install_spec_matches_adr_002_d4() {
    let spec = ACME.install_spec();
    let of = |e: &str| spec.iter().find(|h| h.event == e).unwrap();
    assert_eq!(of("PermissionRequest").timeout, 3600);
    assert_eq!(of("SessionEnd").timeout, 1);
    assert_eq!(of("Stop").timeout, 20);
    assert!(of("StopFailure")
        .matcher
        .as_deref()
        .unwrap()
        .contains("rate_limit"));
    assert!(spec.iter().all(|h| h.file == ".acme/settings.json"));
}

#[test]
fn codex_version_is_three_valued_and_table_bounded() {
    assert_eq!(
        CODEX.version("codex-cli 0.152.1\n"),
        VersionProbe::Available(Version(0, 152, 1))
    );
    assert!(matches!(
        CODEX.version("codex-cli 0.145.0"),
        VersionProbe::Unparsable(_)
    ));
    assert!(matches!(
        CODEX.version("0.152.1"),
        VersionProbe::Unparsable(_)
    ));
}

#[test]
fn resume_is_a_subcommand_and_there_is_no_pin() {
    let v = Version(0, 152, 1);
    assert_eq!(CODEX.resume_args(v, "abc").unwrap(), vec!["resume", "abc"]);
    assert_eq!(CODEX.pin_args(v, "u1"), None);
    assert_eq!(CODEX.resume_args(Version(0, 1, 0), "abc"), None);
}

#[test]
fn permission_request_holds_on_tool_name_and_interrupt_releases_everything() {
    let pr = j(
        r#"{"hook_event_name":"PermissionRequest","tool_name":"Bash","tool_input":{"command":"touch x"},"turn_id":"t"}"#,
    );
    assert_eq!(CODEX.hold_key(&pr).as_deref(), Some("Bash"));
    assert_eq!(
        CODEX.parse(&pr),
        vec![AgoraEvent::DecisionNeeded {
            tool_use_id: "Bash".into(),
            summary: "Bash: touch x".into()
        }]
    );
    let post = j(
        r#"{"hook_event_name":"PostToolUse","tool_name":"Bash","tool_use_id":"exec-1","tool_response":""}"#,
    );
    assert_eq!(
        CODEX.release_for(&post),
        Release::ToolUse(vec!["exec-1".into(), "Bash".into()])
    );
    let esc = j(r#"{"hook_event_name":"Interrupt","turn_id":"t"}"#);
    assert_eq!(
        CODEX.parse(&esc),
        vec![AgoraEvent::TurnFailed("interrupt".into())]
    );
    assert_eq!(CODEX.release_for(&esc), Release::Session);
    assert_eq!(CODEX.hold_key(&esc), None);
}

#[test]
fn hold_is_seconds_because_the_terminal_cannot_answer_meanwhile() {
    assert!(CODEX.hold_timeout() <= 60);
    let spec = CODEX.install_spec();
    let of = |e: &str| spec.iter().find(|h| h.event == e).unwrap();
    assert!(of("PermissionRequest").timeout > CODEX.hold_timeout() + 30);
    assert!(of("SessionEnd").timeout <= 3);
    assert!(of("Interrupt").timeout <= 3);
    assert!(spec.iter().all(|h| h.file == ".codex/hooks.json"));
    assert!(spec.iter().all(|h| h.matcher.is_none()));
    assert!(CODEX.install_hint().unwrap().contains("/hooks"));
}

#[test]
fn agent_pid_is_the_hook_parent() {
    let env = [("CLAUDE_PID".to_owned(), "42".to_owned())];
    assert_eq!(CODEX.agent_pid(&env, 777), Some(777));
    assert_eq!(CODEX.agent_pid(&env, 1), None);
    assert_eq!(ACME.agent_pid(&env, 777), Some(42));
    assert_eq!(ACME.agent_pid(&[], 777), None);
}

#[test]
fn codex_desktop_parent_is_not_the_agent_pid() {
    let desktop = [(
        "CODEX_INTERNAL_ORIGINATOR_OVERRIDE".to_owned(),
        "Codex Desktop".to_owned(),
    )];
    assert_eq!(CODEX.agent_pid(&desktop, 69509), None);
    let cli = [("CODEX_SHELL".to_owned(), "1".to_owned())];
    assert_eq!(CODEX.agent_pid(&cli, 69509), Some(69509));
}

#[test]
fn builtin_names_and_default_commands_are_portable() {
    for b in adapters(ACME) {
        assert!(!b.default_command().contains('/'), "{}", b.name());
    }
    assert_eq!(find(ACME, "acme").unwrap().default_command(), "acme");
    assert!(find(ACME, "nope").is_none());
    assert_eq!(hosts(ACME), vec!["acme", "codex", "grok"]);
    assert!(has_hooks(ACME, "acme") && !has_hooks(ACME, "shell") && !has_hooks(ACME, "fake"));
}

#[test]
fn match_process_reads_the_basename_not_the_path() {
    assert_eq!(name_of(&["acme"]), Some("acme"));
    assert_eq!(name_of(&["/opt/homebrew/bin/acme", "--foo"]), Some("acme"));
    assert_eq!(name_of(&["/usr/local/bin/codex"]), Some("codex"));
    assert_eq!(name_of(&["grok", "--resume", "abc"]), Some("grok"));
}

#[test]
fn shell_c_is_unwrapped_before_matching() {
    assert_eq!(name_of(&["sh", "-c", "acme --resume x"]), Some("acme"));
    assert_eq!(name_of(&["/bin/zsh", "-c", "codex"]), Some("codex"));
    assert_eq!(name_of(&["zsh"]), Some("shell"));
    assert_eq!(name_of(&["/bin/bash", "-l"]), Some("shell"));
    assert_eq!(
        unwrap_shell_c(&["sh", "-c", "codex --x y"]),
        vec!["codex", "--x", "y"]
    );
}

#[test]
fn arguments_that_merely_mention_an_agent_do_not_match() {
    assert_eq!(name_of(&["vim", "acme.md"]), None);
    assert_eq!(name_of(&["git", "commit", "-m", "codex"]), None);
    assert_eq!(name_of(&[]), None);
}

#[test]
fn version_finds_first_triplet() {
    assert_eq!(
        Version::find_in("2.1.260 (Acme Agent)"),
        Some(Version(2, 1, 260))
    );
    assert_eq!(
        Version::find_in("codex-cli 0.152.1"),
        Some(Version(0, 152, 1))
    );
    assert_eq!(
        Version::find_in("grok 1.0.13 (abc)"),
        Some(Version(1, 0, 13))
    );
    assert_eq!(Version::find_in("usage: foo"), None);
    assert!(Version(2, 1, 260) > Version(2, 1, 258));
    assert_eq!(Version(2, 1, 260).to_text(), "2.1.260");
    assert!(Version(2, 2, 0).at_least(Version(2, 1, 258)));
    assert!(!Version(2, 1, 257).at_least(Version(2, 1, 258)));
}

#[test]
fn probe_reports_missing_for_absent_commands() {
    let a = Agent::Claude(ACME);
    assert_eq!(probe(a, &ProbeRun::NotFound), VersionProbe::Missing);
    assert!(matches!(
        probe(a, &ProbeRun::Succeeded(String::new())),
        VersionProbe::Unparsable(_)
    ));
    assert!(matches!(
        probe(a, &ProbeRun::Refused(" no such flag\n".into())),
        VersionProbe::Unparsable(s) if s == "no such flag"
    ));
    assert!(matches!(
        probe(a, &ProbeRun::TimedOut),
        VersionProbe::Unparsable(_)
    ));
    assert!(matches!(
        probe(a, &ProbeRun::Failed("denied".into())),
        VersionProbe::Unparsable(_)
    ));
}

#[test]
fn hosts_are_found_by_name() {
    assert_eq!(for_host(ACME, "codex"), Some(Host::Codex));
    assert_eq!(for_host(ACME, "acme"), Some(Host::Claude(ACME)));
    assert_eq!(for_host(ACME, "shell"), None);
    assert_eq!(Agent::Shell.hooks(), None);
    assert_eq!(Agent::Grok.hooks(), Some(Host::Grok));
    assert_eq!(GROK.host(), "grok");
    assert_eq!(SHELL.name(), "shell");
    assert!(SHELL.resume_args(Version(9, 9, 9), "x").is_none());
}

#[test]
fn enums_survive_and_free_text_does_not() {
    let p = j(r#"{
        "hook_event_name": "PermissionRequest",
        "tool_name": "Bash",
        "permission_mode": "default",
        "prompt": "delete /Users/me/secret please",
        "error": "interrupted by user after 3s",
        "tool_input": {"command": "cat ~/.ssh/id_rsa", "description": "read key"},
        "stop_hook_active": false,
        "n": 3,
        "nothing": null
    }"#);
    let s = scrub(&p, "salt");
    assert_eq!(text_at(&s, &["hook_event_name"]), "PermissionRequest");
    assert_eq!(text_at(&s, &["tool_name"]), "Bash");
    assert_eq!(text_at(&s, &["permission_mode"]), "default");
    assert_eq!(text_at(&s, &["prompt"]), "<prompt>");
    assert_eq!(text_at(&s, &["error"]), "<error>");
    assert_eq!(text_at(&s, &["tool_input", "command"]), "<command>");
    assert_eq!(text_at(&s, &["tool_input", "description"]), "<description>");
    assert_eq!(at(&s, &["stop_hook_active"]), &j("false"));
    assert_eq!(at(&s, &["n"]), &j("3"));
    assert!(at(&s, &["nothing"]).is_null());
    assert!(!compact(&s).contains("secret"));
    assert!(!compact(&s).contains("id_rsa"));
}

#[test]
fn ids_keep_shape_and_stay_consistent_within_a_recording() {
    let sid = "a1b2c3d4-e5f6-4a7b-8c9d-0e1f2a3b4c5d";
    let pre = j(&format!(
        r#"{{"session_id":"{sid}","sessionId":"{sid}","tool_use_id":"toolu_01XYZ","call_id":"exec-abc-def"}}"#
    ));
    let post = j(&format!(
        r#"{{"session_id":"{sid}","tool_use_id":"toolu_01XYZ"}}"#
    ));
    let a = scrub(&pre, "t0");
    let b = scrub(&post, "t0");
    assert_eq!(text_at(&a, &["session_id"]), text_at(&b, &["session_id"]));
    assert_eq!(text_at(&a, &["tool_use_id"]), text_at(&b, &["tool_use_id"]));
    assert_eq!(text_at(&a, &["session_id"]), text_at(&a, &["sessionId"]));
    let scrubbed_sid = text_at(&a, &["session_id"]);
    assert!(is_uuid(scrubbed_sid) && scrubbed_sid != sid);
    assert!(text_at(&a, &["tool_use_id"]).starts_with("toolu_"));
    assert!(text_at(&a, &["call_id"]).starts_with("exec-"));
    assert_ne!(text_at(&a, &["tool_use_id"]), "toolu_01XYZ");
    assert_ne!(
        text_at(&scrub(&pre, "other"), &["session_id"]),
        text_at(&a, &["session_id"])
    );
}

#[test]
fn paths_are_hidden_whether_by_key_or_by_shape() {
    let p = j(r#"{
        "cwd": "/Users/me/code/agora",
        "transcript_path": "~/.acme/projects/x/y.jsonl",
        "anything": "/etc/passwd",
        "workspaceRoot": "/Users/me/code/agora/"
    }"#);
    let s = scrub(&p, "t0");
    assert!(text_at(&s, &["cwd"]).starts_with("/redacted/"));
    assert!(text_at(&s, &["transcript_path"]).starts_with("~/redacted/"));
    assert!(text_at(&s, &["anything"]).starts_with("/redacted/"));
    assert!(!compact(&s).contains("Users"));
}

#[test]
fn arrays_and_nesting_keep_structure() {
    let p = j(r#"{
        "tool_input": {"questions": [{"question": "A or B?", "options": [{"label": "A"}, {"label": "B"}]}]},
        "background_tasks": [],
        "permission_suggestions": [{"type": "addRules", "rules": [{"toolName": "Bash", "ruleContent": "ls"}]}]
    }"#);
    let s = scrub(&p, "t0");
    assert_eq!(
        text_at(&s, &["tool_input", "questions", "0", "question"]),
        "<question>"
    );
    assert_eq!(
        text_at(
            &s,
            &["tool_input", "questions", "0", "options", "1", "label"]
        ),
        "<label>"
    );
    assert_eq!(at(&s, &["background_tasks"]), &j("[]"));
    assert_eq!(
        text_at(&s, &["permission_suggestions", "0", "type"]),
        "addRules"
    );
    assert_eq!(
        text_at(
            &s,
            &["permission_suggestions", "0", "rules", "0", "toolName"]
        ),
        "Bash"
    );
    assert_eq!(
        text_at(
            &s,
            &["permission_suggestions", "0", "rules", "0", "ruleContent"]
        ),
        "<ruleContent>"
    );
}

#[test]
fn non_object_payloads_become_a_placeholder() {
    assert_eq!(scrub(&j("\"raw text\""), "t0"), j("\"<payload>\""));
    assert_eq!(scrub(&j("42"), "t0"), j("42"));
}

#[test]
fn only_the_last_eight_nonempty_lines_count() {
    let mut screen = String::from("Proceed? [y/N]\n");
    for i in 0..8 {
        screen.push_str(&format!("line {i}\n\n"));
    }
    assert_eq!(d(&screen), None);
    assert_eq!(tail_lines(&screen, TAIL_LINES).len(), 8);
}

#[test]
fn prompts_are_anchored_at_line_end_and_case_insensitive() {
    assert_eq!(d("Overwrite file? (Y/N)").unwrap().status, Status::Waiting);
    assert!(d("$ echo 'Do you want to proceed? no'\n$ ").is_none());
    assert_eq!(
        d("Do you want to proceed?\n❯ 1. Yes\n  2. No")
            .unwrap()
            .confidence,
        80
    );
    assert_eq!(d("What is your name?").unwrap().confidence, 70);
    assert!(d("ricky@mac agora % ").is_none());
}

#[test]
fn password_prompts_do_not_echo_the_line() {
    let r = d("sudo: unable to resolve host\n[sudo] password for ricky:").unwrap();
    assert_eq!((r.status, r.reason.as_str()), (Status::Waiting, "secret"));
    assert_eq!(d("Enter passphrase:").unwrap().reason, "secret");
}

#[test]
fn ansi_is_stripped_before_matching() {
    let r = d("\u{1b}[1;32mContinue?\u{1b}[0m").unwrap();
    assert_eq!(r.reason, "prompt: Continue?");
    assert_eq!(
        last_line("a\n\u{1b}]0;title\u{7}b\u{1b}[K\n\n", 10).as_deref(),
        Some("b")
    );
    assert_eq!(strip_ansi("\u{1b}[31mred\u{1b}[0m"), "red");
    assert_eq!(clip("abc", 5), "abc");
}

#[test]
fn a_session_goes_on_where_it_was_or_says_why_not() {
    let v = VersionProbe::Available(Version(2, 1, 260));
    match restart_with(ACME, "acme", "acme --model x", Some("abc"), &v) {
        RestartPlan::Resume {
            command,
            agent_session_id,
        } => {
            assert_eq!(command, "acme --model x --resume abc");
            assert_eq!(agent_session_id, "abc");
        }
        other => panic!("{other:?}"),
    }
    let why = |agent: &str, id: Option<&str>, v: &VersionProbe| match restart_with(
        ACME, agent, "acme", id, v,
    ) {
        RestartPlan::Original { command, reason } => {
            assert_eq!(command, "acme");
            reason
        }
        other => panic!("{other:?}"),
    };
    assert_eq!(
        why("nope", Some("abc"), &v),
        "nope 没有 Adapter，不知道怎么 resume"
    );
    assert_eq!(why("acme", None, &v), "agent 还没自报过对话 id");
    assert_eq!(why("acme", Some(" unknown "), &v), "agent 还没自报过对话 id");
    assert_eq!(
        why("acme", Some("abc"), &VersionProbe::Missing),
        "命令不在 PATH 里"
    );
    assert_eq!(
        why("acme", Some("abc"), &VersionProbe::Unparsable("hm".into())),
        "版本不可解析，不猜 resume 参数：hm"
    );
    assert_eq!(
        why(
            "acme",
            Some("abc"),
            &VersionProbe::Available(Version(1, 0, 0))
        ),
        "acme 1.0.0 不支持按对话 id resume"
    );
}

#[test]
fn the_command_is_asked_only_where_the_answer_counts() {
    let plan = plan_restart(ACME, "acme", "acme", None, |_, _| -> VersionProbe {
        panic!("asked")
    });
    assert_eq!(plan.command(), "acme");
    let plan = plan_restart(
        ACME,
        "codex",
        "/usr/bin/codex -m x",
        Some("id1"),
        |a, program| {
            assert_eq!(a, Agent::Codex);
            assert_eq!(program, "/usr/bin/codex");
            VersionProbe::Available(Version(0, 152, 1))
        },
    );
    assert_eq!(plan.command(), "/usr/bin/codex -m x resume id1");
}

#[test]
fn splicing_the_same_in_again_changes_nothing() {
    let args = ["--resume".to_owned(), "a'b".to_owned()];
    let strip = ["--session-id".to_owned()];
    let once = splice_args("acme --session-id x -v --resume old", &args, &strip);
    assert_eq!(once, "acme -v --resume 'a'\\''b'");
    assert_eq!(splice_args(&once, &args, &strip), once);
}

#[test]
fn a_new_conversation_is_fixed_where_the_agent_takes_one() {
    let v = || VersionProbe::Available(Version(2, 1, 260));
    let (line, id) = plan_pin(ACME, "acme", "acme -v", |_, _| v()).unwrap();
    assert!(is_uuid(&id));
    assert_eq!(line, format!("acme -v --session-id {id}"));
    assert!(plan_pin(ACME, "acme", "acme --resume x", |_, _| v()).is_none());
    assert!(plan_pin(ACME, "codex", "codex", |_, _| v()).is_none());
    assert!(plan_pin(ACME, "nope", "nope", |_, _| v()).is_none());
    assert_eq!(pin_with(ACME, "acme", "acme", "u", &VersionProbe::Missing), None);
}

#[test]
fn conversation_ids_are_random_uuids() {
    assert_eq!(
        conversation_id_of(&[0xff; 16]),
        "ffffffff-ffff-4fff-bfff-ffffffffffff"
    );
    let a = new_conversation_id().unwrap();
    assert!(is_uuid(&a));
    assert_ne!(a, new_conversation_id().unwrap());
}

#[test]
fn arguments_are_put_at_the_end() {
    assert_eq!(program_of("  codex -x"), "codex");
    assert_eq!(
        splice_args("codex -x", &["a".into(), "b".into()], &[]),
        "codex -x a b"
    );
    assert_eq!(
        splice_args("acme --resume old -x", &["--resume".into(), "a'b".into()], &[]),
        "acme -x --resume 'a'\\''b'"
    );
}

#[test]
fn agents_without_a_screen_reader_see_nothing() {
    assert_eq!(Agent::Claude(ACME).detect(&["Continue?"]), None);
}

#[test]
fn a_key_that_is_given_anew_is_not_given_twice() {
    let strip = ["--session-id".to_owned()];
    let out = splice_args(
        "acme --resume old --session-id u -x --resume older",
        &["--resume".into(), "new".into()],
        &strip,
    );
    assert_eq!(out, "acme -x --resume new");
}
