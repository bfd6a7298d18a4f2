//! What hooks carry and how they are answered.

use agora::adapter::hooks::{
    cwd, decision_key, event_name, first_line_capped, generic_hold_key, generic_release,
    permission_output, permission_summary, prompt_event, session_id, tool_use_id,
    PERMISSION_SUMMARY_MAX,
};
use agora::adapter::{Decision, Release};
use agora::codec::parse;
use agora::json::Json;
use agora::status::AgoraEvent;

fn j(text: &str) -> Json {
    parse(text.as_bytes()).unwrap()
}

#[test]
fn only_permission_requests_of_capable_hosts_hold() {
    let pr = j(r#"{"hook_event_name":"PermissionRequest","tool_use_id":"t1"}"#);
    assert_eq!(generic_hold_key(true, &pr).as_deref(), Some("t1"));
    assert_eq!(generic_hold_key(false, &pr), None);
    assert_eq!(
        generic_hold_key(true, &j(r#"{"hook_event_name":"Stop"}"#)),
        None
    );
    assert_eq!(
        generic_hold_key(
            true,
            &j(r#"{"hook_event_name":"PermissionRequest","tool_name":"Bash"}"#)
        )
        .as_deref(),
        Some("Bash")
    );
    assert_eq!(
        generic_hold_key(true, &j(r#"{"hook_event_name":"PermissionRequest"}"#)).as_deref(),
        Some("PermissionRequest")
    );
}

#[test]
fn releases_follow_adr_002_d5() {
    assert_eq!(
        generic_release(&j(
            r#"{"hook_event_name":"PostToolUse","tool_use_id":"t1","tool_name":"Bash"}"#
        )),
        Release::ToolUse(vec!["t1".into(), "Bash".into()])
    );
    assert_eq!(
        generic_release(&j(
            r#"{"hookEventName":"PermissionDenied","toolUseId":"t2"}"#
        )),
        Release::ToolUse(vec!["t2".into()])
    );
    assert_eq!(
        generic_release(&j(r#"{"hook_event_name":"Stop"}"#)),
        Release::Session
    );
    assert_eq!(
        generic_release(&j(r#"{"hook_event_name":"SessionEnd"}"#)),
        Release::Session
    );
    assert_eq!(
        generic_release(&j(r#"{"hook_event_name":"PreToolUse"}"#)),
        Release::Nothing
    );
}

#[test]
fn decision_output_is_the_documented_shape_or_nothing() {
    let decision = |text: &str| {
        j(text)
            .get("hookSpecificOutput")
            .and_then(|v| v.get("decision"))
            .map(agora::json::copy)
            .unwrap()
    };
    let out = permission_output(&Decision::Allow).unwrap();
    assert_eq!(decision(&out).get_str("behavior"), Some("allow"));
    let out = permission_output(&Decision::Deny {
        message: Some("no".into()),
    })
    .unwrap();
    assert_eq!(decision(&out).get_str("message"), Some("no"));
    assert_eq!(permission_output(&Decision::Unanswered), None);
}

#[test]
fn permission_summary_shows_what_the_tool_is_about_to_do() {
    let pr = j(
        r#"{"hook_event_name":"PermissionRequest","tool_name":"Bash","tool_input":{"command":"git push origin main","description":"Push"}}"#,
    );
    assert_eq!(permission_summary(&pr), "Bash: git push origin main");
    let pr = j(r#"{"tool_name":"Write","tool_input":{"file_path":"/tmp/x","content":"hi"}}"#);
    assert_eq!(permission_summary(&pr), "Write: /tmp/x");
    let pr = j(
        r#"{"tool_name":"AskUserQuestion","tool_input":{"questions":[{"question":"which?","header":"h"}]}}"#,
    );
    assert_eq!(permission_summary(&pr), "AskUserQuestion: which?");
    let pr = j(r#"{"tool_name":"mcp__x__do","tool_input":{"thing":1}}"#);
    assert_eq!(permission_summary(&pr), "mcp__x__do: {\"thing\":1}");
    assert_eq!(permission_summary(&j(r#"{"tool_name":"Bash"}"#)), "Bash");
    assert_eq!(
        permission_summary(&j(
            r#"{"tool_name":"Bash","tool_input":{"command":"  \n"}}"#
        )),
        "Bash"
    );
    assert_eq!(permission_summary(&j("{}")), "tool");
    let pr = j(r#"{"toolName":"run_terminal_command","toolInput":{"command":"ls"}}"#);
    assert_eq!(permission_summary(&pr), "run_terminal_command: ls");
}

#[test]
fn permission_summary_is_one_line_and_capped() {
    let pr = j(r#"{"tool_name":"Bash","tool_input":{"command":"echo a\necho b"}}"#);
    assert_eq!(permission_summary(&pr), "Bash: echo a…");
    let long = "x".repeat(PERMISSION_SUMMARY_MAX + 5);
    let pr = j(&format!(
        r#"{{"tool_name":"Bash","tool_input":{{"command":"{long}"}}}}"#
    ));
    let got = permission_summary(&pr);
    assert_eq!(
        got.chars().count(),
        "Bash: ".len() + PERMISSION_SUMMARY_MAX + 1
    );
    assert!(got.ends_with('…'));
    let exact: String = "中".repeat(PERMISSION_SUMMARY_MAX);
    let pr = j(&format!(
        r#"{{"tool_name":"Bash","tool_input":{{"command":"{exact}"}}}}"#
    ));
    assert!(!permission_summary(&pr).ends_with('…'));
}

#[test]
fn keys_are_read_in_both_spellings() {
    let v = j(r#"{"hookEventName":"Stop","sessionId":"s","toolUseId":"t","cwd":"/w"}"#);
    assert_eq!(event_name(&v), Some("Stop"));
    assert_eq!(session_id(&v).as_deref(), Some("s"));
    assert_eq!(tool_use_id(&v).as_deref(), Some("t"));
    assert_eq!(cwd(&v).as_deref(), Some("/w"));
    assert_eq!(decision_key(&v), "t");
}

#[test]
fn a_capped_line_says_that_more_was_there() {
    assert_eq!(first_line_capped("one\ntwo", 10), "one…");
    assert_eq!(first_line_capped("one", 3), "one");
    assert_eq!(first_line_capped("four", 3), "fou…");
}

#[test]
fn prompts_of_the_host_are_told_from_those_of_the_user() {
    assert_eq!(
        prompt_event("<system-reminder> x"),
        AgoraEvent::PromptInjected
    );
    assert_eq!(
        prompt_event("hello"),
        AgoraEvent::PromptSubmitted("hello".into())
    );
}
