//! Codex.
//!
//! While a request for permission is held the terminal shows no prompt of its own, so it is held for
//! seconds only. Hooks that the user has not trusted are skipped without a word, which is why the
//! installation ends with a hint.

use crate::adapter::claude::{
    no_events, only, session_start, session_start_events, tool_use_end_events, tool_use_ended,
};
use crate::adapter::hooks::{
    self, answer_text, cwd_of, event_name, event_of, freed_by, freed_keys, held_key, key_of,
    prompt_happening, session_of, summary_of, Answer, Decision, Release, Released,
};
use crate::adapter::{
    entries, find_variable, pair, probe_from, probed_from, program_is, variable, AgentFallback,
    AgentHooks, AgentIdentity, Entry, HookInstall, Probed, Version, VersionProbe,
};
use crate::adapter::hooks::{is_event, written};
use crate::json::{member_str, Json, JsonView};
use crate::status::{AgoraEvent, Detected, DetectionResult, Happening};
use crate::text::{self, or_else, strs, texts};
use vstd::prelude::*;

verus! {

/// Codex.
#[derive(Clone, Copy, Debug, PartialEq, Eq, Structural)]
pub struct Codex;

/// Codex.
pub const CODEX: Codex = Codex;

/// How many seconds a request is held.
pub const HOLD_TIMEOUT: u64 = 20;

/// What the user still has to do after the installation.
pub const INSTALL_HINT: &'static str =
    "Codex 未信任的 hook 会被静默跳过：请在 Codex TUI 里输入 /hooks，按 t 信任 agora 的条目（升级 agora 不用重做，条目不变）。";

/// The first version of which it is known that a conversation can be taken up.
pub open spec fn first_known() -> Version {
    Version(0, 152, 1)
}

/// One hook to be installed.
pub open spec fn entry(event: Seq<char>, timeout: int) -> Entry {
    Entry { file: ".codex/hooks.json"@, event, matcher: None, timeout }
}

/// The hooks to be installed. The one that is held is given more time than it is held for.
pub open spec fn install_table() -> Seq<Entry> {
    seq![
        entry("SessionStart"@, 20),
        entry("UserPromptSubmit"@, 20),
        entry("PreToolUse"@, 20),
        entry("PostToolUse"@, 20),
        entry("PermissionRequest"@, HOLD_TIMEOUT + 40),
        entry("Stop"@, 20),
        entry("Interrupt"@, 3),
        entry("SessionEnd"@, 3),
    ]
}

fn hook(event: &str, timeout: u64) -> (r: HookInstall)
    ensures
        r@ == entry(event@, timeout as int),
{
    HookInstall {
        file: ".codex/hooks.json".to_owned(),
        event: event.to_owned(),
        matcher: None,
        timeout,
    }
}

impl AgentIdentity for Codex {
    open spec fn label(&self) -> Seq<char> {
        "codex"@
    }

    open spec fn command_text(&self) -> Seq<char> {
        "codex"@
    }

    open spec fn programs(&self) -> Seq<Seq<char>> {
        seq!["codex"@]
    }

    open spec fn probed(&self, output: Seq<char>) -> Probed {
        probed_from(output, "codex"@, first_known())
    }

    open spec fn resuming(&self, v: Version, id: Seq<char>) -> Option<Seq<Seq<char>>> {
        if v.reaches(first_known()) {
            Some(seq!["resume"@, id])
        } else {
            None
        }
    }

    open spec fn pinning(&self, v: Version, id: Seq<char>) -> Option<Seq<Seq<char>>> {
        None
    }

    open spec fn headless(&self, prompt: Seq<char>) -> Option<Seq<Seq<char>>> {
        Some(
            seq!["exec"@, "--skip-git-repo-check"@, "--dangerously-bypass-hook-trust"@, prompt],
        )
    }

    open spec fn beginning(&self, prompt: Seq<char>) -> Option<Seq<Seq<char>>> {
        Some(seq![prompt])
    }

    fn name(&self) -> (r: &'static str) {
        "codex"
    }

    fn default_command(&self) -> (r: &'static str) {
        "codex"
    }

    fn match_process(&self, argv: &[&str]) -> (r: bool) {
        let programs: Vec<&'static str> = vec!["codex"];
        proof {
            assert(strs(programs@) =~= self.programs());
        }
        program_is(argv, &programs)
    }

    fn version(&self, output: &str) -> (r: VersionProbe) {
        probe_from(output, "codex", Version(0, 152, 1))
    }

    fn resume_args(&self, version: Version, agent_session_id: &str) -> (r: Option<Vec<String>>) {
        if version.at_least(Version(0, 152, 1)) {
            Some(pair("resume", agent_session_id))
        } else {
            None
        }
    }

    fn pin_args(&self, version: Version, new_id: &str) -> (r: Option<Vec<String>>) {
        None
    }

    fn headless_args(&self, prompt: &str) -> (r: Option<Vec<String>>) {
        let mut v: Vec<String> = Vec::new();
        v.push("exec".to_owned());
        v.push("--skip-git-repo-check".to_owned());
        v.push("--dangerously-bypass-hook-trust".to_owned());
        v.push(prompt.to_owned());
        proof {
            assert(texts(v@) =~= self.headless(prompt@)->0);
        }
        Some(v)
    }

    fn initial_prompt_args(&self, prompt: &str) -> (r: Option<Vec<String>>) {
        let mut v: Vec<String> = Vec::new();
        v.push(prompt.to_owned());
        proof {
            assert(texts(v@) =~= seq![prompt@]);
        }
        Some(v)
    }
}

impl AgentFallback for Codex {
    open spec fn seen(&self, tail: Seq<Seq<char>>) -> Option<Detected> {
        None
    }

    fn detect(&self, tail: &[&str]) -> (r: Option<DetectionResult>) {
        None
    }
}

/// What an event of Codex means.
pub open spec fn codex_meaning(v: JsonView) -> Seq<Happening> {
    let tool = or_else(member_str(v, "tool_name"@), "tool"@);
    let e = event_of(v);
    if e == Some("SessionStart"@) {
        session_start(v)
    } else if e == Some("UserPromptSubmit"@) {
        seq![prompt_happening(or_else(member_str(v, "prompt"@), Seq::empty()))]
    } else if e == Some("PreToolUse"@) {
        seq![Happening::Activity(tool)]
    } else if e == Some("PostToolUse"@) {
        tool_use_ended(freed_keys(v), tool)
    } else if e == Some("PermissionRequest"@) {
        seq![Happening::DecisionNeeded { tool_use_id: key_of(v), summary: summary_of(v) }]
    } else if e == Some("Stop"@) {
        seq![Happening::TurnEnded(member_str(v, "last_assistant_message"@))]
    } else if e == Some("Interrupt"@) {
        seq![Happening::TurnFailed("interrupt"@)]
    } else if e == Some("SessionEnd"@) {
        seq![Happening::SessionEnded(member_str(v, "reason"@))]
    } else {
        Seq::empty()
    }
}

impl AgentHooks for Codex {
    open spec fn host_text(&self) -> Seq<char> {
        "codex"@
    }

    open spec fn installs(&self) -> Seq<Entry> {
        install_table()
    }

    open spec fn via_hook(&self) -> bool {
        true
    }

    open spec fn knows_env(&self, has_grok_session: bool) -> bool {
        !has_grok_session
    }

    open spec fn conversation(&self, v: JsonView) -> Option<Seq<char>> {
        session_of(v)
    }

    open spec fn meaning(&self, v: JsonView) -> Seq<Happening> {
        codex_meaning(v)
    }

    open spec fn holding(&self, v: JsonView) -> Option<Seq<char>> {
        held_key(true, v)
    }

    open spec fn releasing(&self, v: JsonView) -> Released {
        if event_of(v) == Some("Interrupt"@) {
            Released::Session
        } else {
            freed_by(v)
        }
    }

    open spec fn output_of(&self, a: Answer) -> Option<Seq<char>> {
        answer_text(a)
    }

    open spec fn directory(&self, v: JsonView) -> Option<Seq<char>> {
        cwd_of(v)
    }

    /// The parent of the hook is the agent, except where another program runs it: there the parent
    /// outlives every session.
    open spec fn pid_of(&self, env: Seq<(String, String)>, ppid: int) -> Option<int> {
        if variable(env, "CODEX_INTERNAL_ORIGINATOR_OVERRIDE"@) is Some || ppid <= 1 {
            None
        } else {
            Some(ppid)
        }
    }

    open spec fn headless_start(&self, v: JsonView) -> bool {
        false
    }

    open spec fn hold_seconds(&self) -> int {
        HOLD_TIMEOUT as int
    }

    open spec fn hint(&self) -> Option<Seq<char>> {
        Some(INSTALL_HINT@)
    }

    fn host(&self) -> (r: &'static str) {
        "codex"
    }

    fn install_spec(&self) -> (r: Vec<HookInstall>) {
        let mut v: Vec<HookInstall> = Vec::new();
        v.push(hook("SessionStart", 20));
        v.push(hook("UserPromptSubmit", 20));
        v.push(hook("PreToolUse", 20));
        v.push(hook("PostToolUse", 20));
        v.push(hook("PermissionRequest", HOLD_TIMEOUT + 40));
        v.push(hook("Stop", 20));
        v.push(hook("Interrupt", 3));
        v.push(hook("SessionEnd", 3));
        proof {
            assert(entries(v@) =~= install_table());
        }
        v
    }

    fn decision_via_hook(&self) -> (r: bool) {
        true
    }

    fn host_matches_env(&self, has_grok_session: bool) -> (r: bool) {
        !has_grok_session
    }

    fn agent_session_id(&self, payload: &Json) -> (r: Option<String>) {
        hooks::session_id(payload)
    }

    fn parse(&self, payload: &Json) -> (r: Vec<AgoraEvent>) {
        let tool: &str = match payload.get_str("tool_name") {
            Some(s) => s,
            None => "tool",
        };
        let e = event_name(payload);
        if text::is_text(e, "SessionStart") {
            session_start_events(payload)
        } else if text::is_text(e, "UserPromptSubmit") {
            proof {
                reveal_strlit("");
                assert(""@ =~= Seq::<char>::empty());
            }
            let prompt: &str = match payload.get_str("prompt") {
                Some(s) => s,
                None => "",
            };
            only(hooks::prompt_event(prompt))
        } else if text::is_text(e, "PreToolUse") {
            only(AgoraEvent::Activity(tool.to_owned()))
        } else if text::is_text(e, "PostToolUse") {
            tool_use_end_events(hooks::release_keys(payload), tool)
        } else if text::is_text(e, "PermissionRequest") {
            only(
                AgoraEvent::DecisionNeeded {
                    tool_use_id: hooks::decision_key(payload),
                    summary: hooks::permission_summary(payload),
                },
            )
        } else if text::is_text(e, "Stop") {
            only(AgoraEvent::TurnEnded(text::owned_opt(payload.get_str("last_assistant_message"))))
        } else if text::is_text(e, "Interrupt") {
            only(AgoraEvent::TurnFailed("interrupt".to_owned()))
        } else if text::is_text(e, "SessionEnd") {
            only(AgoraEvent::SessionEnded(text::owned_opt(payload.get_str("reason"))))
        } else {
            no_events()
        }
    }

    fn hold_key(&self, payload: &Json) -> (r: Option<String>) {
        hooks::generic_hold_key(true, payload)
    }

    fn release_for(&self, payload: &Json) -> (r: Release) {
        if text::is_text(event_name(payload), "Interrupt") {
            Release::Session
        } else {
            hooks::generic_release(payload)
        }
    }

    fn decision_output(&self, decision: &Decision) -> (r: Option<String>) {
        hooks::permission_output(decision)
    }

    fn working_directory(&self, payload: &Json) -> (r: Option<String>) {
        hooks::cwd(payload)
    }

    fn agent_pid(&self, env: &[(String, String)], ppid: u32) -> (r: Option<u32>) {
        if find_variable(env, "CODEX_INTERNAL_ORIGINATOR_OVERRIDE").is_some() || ppid <= 1 {
            None
        } else {
            Some(ppid)
        }
    }

    fn is_headless(&self, payload: &Json) -> (r: bool) {
        false
    }

    fn hold_timeout(&self) -> (r: u64) {
        HOLD_TIMEOUT
    }

    fn install_hint(&self) -> (r: Option<String>) {
        Some(INSTALL_HINT.to_owned())
    }
}

/// What an event means, told by its name. A turn ends well with `Stop`, with the agent's last message, and
/// fails with `Interrupt` alone.
pub proof fn lemma_events_mean(c: Codex, v: JsonView)
    ensures
        is_event(v, "Stop"@) ==> c.meaning(v) == seq![
            Happening::TurnEnded(member_str(v, "last_assistant_message"@)),
        ],
        is_event(v, "Interrupt"@) ==> c.meaning(v) == seq![Happening::TurnFailed("interrupt"@)],
        is_event(v, "SessionEnd"@) ==> c.meaning(v) == seq![
            Happening::SessionEnded(member_str(v, "reason"@)),
        ],
        is_event(v, "SessionStart"@) ==> c.meaning(v).len() > 0 && c.meaning(v)[0] is SessionStarted,
        forall|id: Seq<char>|
            is_event(v, "SessionStart"@) && #[trigger] written(v, "session_id"@, "sessionId"@, id)
                ==> c.meaning(v) == seq![Happening::SessionStarted, Happening::SessionId(id)],
        is_event(v, "UserPromptSubmit"@) && member_str(v, "prompt"@) is Some ==> c.meaning(v) == seq![
            prompt_happening(member_str(v, "prompt"@)->0),
        ],
        is_event(v, "PreToolUse"@) && member_str(v, "tool_name"@) is Some ==> c.meaning(v) == seq![
            Happening::Activity(member_str(v, "tool_name"@)->0),
        ],
        is_event(v, "PermissionRequest"@) ==> c.meaning(v).len() == 1 && c.meaning(v)[0]
            is DecisionNeeded && c.holding(v) == Some(c.meaning(v)[0]->DecisionNeeded_tool_use_id),
        is_event(v, "Interrupt"@) || is_event(v, "Stop"@) || is_event(v, "SessionEnd"@) <==> c.releasing(v)
            is Session,
{
    hooks::lemma_event_names();
    hooks::lemma_both_spellings(v, "SessionStart"@);
    hooks::lemma_both_spellings(v, "UserPromptSubmit"@);
    hooks::lemma_both_spellings(v, "PreToolUse"@);
    hooks::lemma_both_spellings(v, "Elicitation"@);
    hooks::lemma_both_spellings(v, "ElicitationResult"@);
    hooks::lemma_both_spellings(v, "PostToolUse"@);
    hooks::lemma_both_spellings(v, "PostToolUseFailure"@);
    hooks::lemma_both_spellings(v, "PermissionDenied"@);
    hooks::lemma_both_spellings(v, "PermissionRequest"@);
    hooks::lemma_both_spellings(v, "Notification"@);
    hooks::lemma_both_spellings(v, "Stop"@);
    hooks::lemma_both_spellings(v, "StopFailure"@);
    hooks::lemma_both_spellings(v, "SessionEnd"@);
    hooks::lemma_both_spellings(v, "Interrupt"@);
    assert forall|id: Seq<char>|
        is_event(v, "SessionStart"@) && #[trigger] written(v, "session_id"@, "sessionId"@, id) implies c.meaning(
        v,
    ) == seq![Happening::SessionStarted, Happening::SessionId(id)] by {
        hooks::lemma_both_spellings(v, id);
    }
}

/// Each thing that is told has its event.
pub proof fn lemma_what_is_told_has_its_event(c: Codex, v: JsonView, k: int)
    requires
        0 <= k < c.meaning(v).len(),
    ensures
        match c.meaning(v)[k] {
            Happening::TurnFailed(_) => is_event(v, "Interrupt"@),
            Happening::TurnEnded(_) => is_event(v, "Stop"@),
            Happening::SessionEnded(_) => is_event(v, "SessionEnd"@),
            Happening::SessionStarted => is_event(v, "SessionStart"@),
            Happening::SessionId(_) => is_event(v, "SessionStart"@),
            Happening::DecisionNeeded { .. } => is_event(v, "PermissionRequest"@),
            Happening::PromptSubmitted(_) => is_event(v, "UserPromptSubmit"@),
            Happening::PromptInjected => is_event(v, "UserPromptSubmit"@),
            Happening::Idle => false,
            Happening::InputNeeded { .. } => false,
            Happening::DecisionResolved(key) => key is Some && (c.releasing(v) matches Released::ToolUse(
                keys,
            ) && keys.contains(key->0)),
            Happening::Activity(_) => is_event(v, "PreToolUse"@) || is_event(v, "PostToolUse"@),
        },
{
    hooks::lemma_event_names();
    hooks::lemma_both_spellings(v, "SessionStart"@);
    hooks::lemma_both_spellings(v, "UserPromptSubmit"@);
    hooks::lemma_both_spellings(v, "PreToolUse"@);
    hooks::lemma_both_spellings(v, "Elicitation"@);
    hooks::lemma_both_spellings(v, "ElicitationResult"@);
    hooks::lemma_both_spellings(v, "PostToolUse"@);
    hooks::lemma_both_spellings(v, "PostToolUseFailure"@);
    hooks::lemma_both_spellings(v, "PermissionDenied"@);
    hooks::lemma_both_spellings(v, "PermissionRequest"@);
    hooks::lemma_both_spellings(v, "Notification"@);
    hooks::lemma_both_spellings(v, "Stop"@);
    hooks::lemma_both_spellings(v, "StopFailure"@);
    hooks::lemma_both_spellings(v, "SessionEnd"@);
    hooks::lemma_both_spellings(v, "Interrupt"@);
    if event_of(v) == Some("PostToolUse"@) {
        let keys = freed_keys(v);
        if k < keys.len() {
            assert(c.meaning(v)[k] == Happening::DecisionResolved(Some(keys[k])));
            assert(keys.contains(keys[k]));
        }
    }
}

/// A conversation can be taken up from version 0.152.1 on and not before, by this key and with that id; it
/// cannot be given its id.
pub proof fn lemma_versions_that_take_ids(c: Codex, v: Version, id: Seq<char>)
    ensures
        c.resuming(v, id) == Some(seq!["resume"@, id]) || c.resuming(v, id) is None,
        c.pinning(v, id) is None,
        c.resuming(v, id) is Some <==> (v.0 > 0 || v.1 > 152 || (v.1 == 152 && v.2 >= 1)),
{
}

/// The parent of the hook is taken for the agent, unless another program runs it or there is none.
pub proof fn lemma_parent_is_the_agent(c: Codex, env: Seq<(String, String)>, ppid: int)
    ensures
        c.pid_of(env, ppid) is Some ==> c.pid_of(env, ppid) == Some(ppid) && ppid > 1,
        (forall|i: int|
            0 <= i < env.len() ==> (#[trigger] env[i]).0@ != "CODEX_INTERNAL_ORIGINATOR_OVERRIDE"@) && ppid
            > 1 ==> c.pid_of(env, ppid) == Some(ppid),
{
    crate::adapter::lemma_variable(env, "CODEX_INTERNAL_ORIGINATOR_OVERRIDE"@);
}

/// A prompt is handed to the agent as one word and as it is.
pub proof fn lemma_prompts_are_handed_over(c: Codex, prompt: Seq<char>)
    ensures
        c.beginning(prompt) == Some(seq![prompt]),
        c.headless(prompt) matches Some(a) && a[0] == "exec"@ && a.last() == prompt,
{
}

/// What is known of a session is its directory and its conversation, as the report writes them.
pub proof fn lemma_what_a_report_says(c: Codex, v: JsonView, s: Seq<char>)
    ensures
        c.directory(v) == Some(s) <==> crate::json::stands(v, "cwd"@, JsonView::Str(s)),
        c.conversation(v) == Some(s) <==> written(v, "session_id"@, "sessionId"@, s),
        c.knows_env(true) == false && c.knows_env(false) == true,
        !c.headless_start(v),
{
    hooks::lemma_both_spellings(v, s);
}

/// A command is taken for the agent only where it says so, and its version is one that is known.
pub proof fn lemma_which_commands_are_the_agent(c: Codex, output: Seq<char>)
    ensures
        c.probed(output) matches Probed::Available(v) ==> crate::text::occurs(
            crate::text::trimmed(output),
            "codex"@,
        ) && (v.0 > 0 || v.1 > 152 || (v.1 == 152 && v.2 >= 1)),
{
}

} // verus!
