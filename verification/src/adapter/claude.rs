//! The agent that is told by its own name, and that reads its hooks from a file of settings.
//!
//! Keys are written in `snake_case`; `session_id` is the conversation. A request for permission
//! carries no tool use, only the tool, so it is held under the tool's name.

use crate::adapter::hooks::{
    self, answer_text, cwd_of, ends_tool_use, event_name, event_of, first_question, freed_by,
    freed_keys, held_key, key_of, prompt_happening, session_of, str2, summary_of, tool_use_of,
    Answer, Decision, Release, Released, DEFAULT_HOLD_TIMEOUT,
};
use crate::adapter::{
    entries, find_variable, pair, probe_from, probed_from, program_is, variable, AgentFallback,
    AgentHooks, AgentIdentity, Entry, HookInstall, Probed, Version, VersionProbe,
};
use crate::adapter::hooks::{is_event, written};
use crate::json::{self, member, member_str, Json, JsonView};
use crate::num;
use crate::status::{happenings, AgoraEvent, Detected, DetectionResult, Happening};
use crate::text::{self, either, joined, opt_str, opt_text, or_else, strs, texts};
use vstd::prelude::*;

verus! {

/// The agent, with what it is called where it is installed.
#[derive(Clone, Copy, Debug, PartialEq, Eq)]
pub struct Claude {
    /// Its name: also that of its program and of the host that its hooks report for.
    pub name: &'static str,
    /// The words by which its version text is known as its own.
    pub title: &'static str,
    /// The file that its hooks are written in, below the home directory.
    pub settings: &'static str,
}

/// The first version of which it is known that a conversation can be taken up and its id be given.
pub open spec fn first_known() -> Version {
    Version(2, 1, 258)
}

/// The reasons for which a turn can fail.
pub open spec fn stop_failures() -> Seq<Seq<char>> {
    seq![
        "rate_limit"@,
        "authentication_failed"@,
        "billing_error"@,
        "invalid_request"@,
        "server_error"@,
        "max_output_tokens"@,
        "prompt_too_long"@,
        "network_error"@,
        "timeout"@,
        "overloaded"@,
        "unknown"@,
    ]
}

/// The reasons for which a turn can fail.
pub const STOP_FAILURE_MATCHERS: [&'static str; 11] = [
    "rate_limit",
    "authentication_failed",
    "billing_error",
    "invalid_request",
    "server_error",
    "max_output_tokens",
    "prompt_too_long",
    "network_error",
    "timeout",
    "overloaded",
    "unknown",
];

/// The reasons for which a turn can fail.
pub fn stop_failure_matchers() -> (v: Vec<String>)
    ensures
        texts(v@) == stop_failures(),
{
    let names: [&'static str; 11] = STOP_FAILURE_MATCHERS;
    proof {
        assert(strs(names@) =~= stop_failures());
    }
    crate::adapter::owned(names.as_slice())
}

/// One hook to be installed.
pub open spec fn entry(
    file: Seq<char>,
    event: Seq<char>,
    matcher: Option<Seq<char>>,
    timeout: int,
) -> Entry {
    Entry { file, event, matcher, timeout }
}

/// The hooks to be installed. A request for permission waits for a person; the end of a session
/// leaves no time.
pub open spec fn install_table(file: Seq<char>) -> Seq<Entry> {
    seq![
        entry(file, "SessionStart"@, None, 20),
        entry(file, "UserPromptSubmit"@, None, 20),
        entry(file, "PreToolUse"@, None, 20),
        entry(file, "PostToolUse"@, None, 20),
        entry(file, "PostToolUseFailure"@, None, 20),
        entry(file, "PermissionRequest"@, None, 3600),
        entry(file, "PermissionDenied"@, None, 20),
        entry(file, "Notification"@, Some("permission_prompt|idle_prompt"@), 20),
        entry(file, "Stop"@, None, 20),
        entry(file, "StopFailure"@, Some(joined(stop_failures(), "|"@)), 20),
        entry(file, "SessionEnd"@, None, 1),
    ]
}

fn hook(file: &str, event: &str, matcher: Option<String>, timeout: u64) -> (r: HookInstall)
    ensures
        r@ == entry(file@, event@, opt_text(matcher), timeout as int),
{
    HookInstall {
        file: file.to_owned(),
        event: event.to_owned(),
        matcher,
        timeout,
    }
}

impl AgentIdentity for Claude {
    open spec fn label(&self) -> Seq<char> {
        self.name@
    }

    open spec fn command_text(&self) -> Seq<char> {
        self.name@
    }

    open spec fn programs(&self) -> Seq<Seq<char>> {
        seq![self.name@]
    }

    open spec fn probed(&self, output: Seq<char>) -> Probed {
        probed_from(output, self.title@, first_known())
    }

    open spec fn resuming(&self, v: Version, id: Seq<char>) -> Option<Seq<Seq<char>>> {
        if v.reaches(first_known()) {
            Some(seq!["--resume"@, id])
        } else {
            None
        }
    }

    open spec fn pinning(&self, v: Version, id: Seq<char>) -> Option<Seq<Seq<char>>> {
        if v.reaches(first_known()) {
            Some(seq!["--session-id"@, id])
        } else {
            None
        }
    }

    open spec fn headless(&self, prompt: Seq<char>) -> Option<Seq<Seq<char>>> {
        Some(seq!["-p"@, prompt])
    }

    open spec fn beginning(&self, prompt: Seq<char>) -> Option<Seq<Seq<char>>> {
        Some(seq![prompt])
    }

    fn name(&self) -> (r: &'static str) {
        self.name
    }

    fn default_command(&self) -> (r: &'static str) {
        self.name
    }

    fn match_process(&self, argv: &[&str]) -> (r: bool) {
        let programs: Vec<&'static str> = vec![self.name];
        proof {
            assert(strs(programs@) =~= self.programs());
        }
        program_is(argv, &programs)
    }

    fn version(&self, output: &str) -> (r: VersionProbe) {
        probe_from(output, self.title, Version(2, 1, 258))
    }

    fn resume_args(&self, version: Version, agent_session_id: &str) -> (r: Option<Vec<String>>) {
        if version.at_least(Version(2, 1, 258)) {
            Some(pair("--resume", agent_session_id))
        } else {
            None
        }
    }

    fn pin_args(&self, version: Version, new_id: &str) -> (r: Option<Vec<String>>) {
        if version.at_least(Version(2, 1, 258)) {
            Some(pair("--session-id", new_id))
        } else {
            None
        }
    }

    fn headless_args(&self, prompt: &str) -> (r: Option<Vec<String>>) {
        Some(pair("-p", prompt))
    }

    fn initial_prompt_args(&self, prompt: &str) -> (r: Option<Vec<String>>) {
        let mut v: Vec<String> = Vec::new();
        v.push(prompt.to_owned());
        proof {
            assert(texts(v@) =~= seq![prompt@]);
        }
        Some(v)
    }
}

impl AgentFallback for Claude {
    open spec fn seen(&self, tail: Seq<Seq<char>>) -> Option<Detected> {
        None
    }

    fn detect(&self, tail: &[&str]) -> (r: Option<DetectionResult>) {
        None
    }
}

/// What an event asks the user: the first question of the tool's input, or else the message, or else
/// the prompt.
pub open spec fn question_of(v: JsonView) -> Seq<char> {
    or_else(
        either(first_question(member(v, "tool_input"@)), str2(v, "message"@, "prompt"@)),
        "question"@,
    )
}

fn question(payload: &Json) -> (r: String)
    ensures
        r@ == question_of(payload@),
{
    match hooks::question_in(payload.get("tool_input")) {
        Some(q) => q.to_owned(),
        None => match hooks::get_str2(payload, "message", "prompt") {
            Some(s) => s.to_owned(),
            None => "question".to_owned(),
        },
    }
}

/// What the end of a tool use means: each of its keys is released, and the tool was active.
pub open spec fn tool_use_ended(keys: Seq<Seq<char>>, tool: Seq<char>) -> Seq<Happening> {
    keys.map_values(|k: Seq<char>| Happening::DecisionResolved(Some(k))).push(
        Happening::Activity(tool),
    )
}

/// What the end of a tool use means.
pub fn tool_use_end_events(keys: Vec<String>, tool: &str) -> (out: Vec<AgoraEvent>)
    ensures
        happenings(out@) == tool_use_ended(texts(keys@), tool@),
{
    let mut out: Vec<AgoraEvent> = Vec::new();
    let mut i: usize = 0;
    let ghost all = texts(keys@).map_values(|k: Seq<char>| Happening::DecisionResolved(Some(k)));
    while i < keys.len()
        invariant
            i <= keys@.len(),
            all == texts(keys@).map_values(
                |k: Seq<char>| Happening::DecisionResolved(Some(k)),
            ),
            happenings(out@) == all.take(i as int),
        decreases keys@.len() - i,
    {
        let ghost was = happenings(out@);
        out.push(AgoraEvent::DecisionResolved(Some(keys[i].clone())));
        proof {
            assert(happenings(out@) =~= was.push(all[i as int]));
            assert(all.take(i + 1) =~= all.take(i as int).push(all[i as int]));
        }
        i += 1;
    }
    proof {
        assert(all.take(i as int) =~= all);
    }
    out.push(AgoraEvent::Activity(tool.to_owned()));
    proof {
        assert(happenings(out@) =~= tool_use_ended(texts(keys@), tool@));
    }
    out
}

/// What the start of a session means: that it started, and which conversation it is.
pub open spec fn session_start(v: JsonView) -> Seq<Happening> {
    match session_of(v) {
        Some(id) => seq![Happening::SessionStarted, Happening::SessionId(id)],
        None => seq![Happening::SessionStarted],
    }
}

/// What the start of a session means.
pub fn session_start_events(payload: &Json) -> (out: Vec<AgoraEvent>)
    ensures
        happenings(out@) == session_start(payload@),
{
    let mut out: Vec<AgoraEvent> = Vec::new();
    out.push(AgoraEvent::SessionStarted);
    match hooks::session_id(payload) {
        Some(id) => {
            out.push(AgoraEvent::SessionId(id));
        },
        None => {},
    }
    proof {
        assert(happenings(out@) =~= session_start(payload@));
    }
    out
}

/// A list of one event.
pub fn only(e: AgoraEvent) -> (out: Vec<AgoraEvent>)
    ensures
        happenings(out@) == seq![e@],
{
    let mut out: Vec<AgoraEvent> = Vec::new();
    out.push(e);
    proof {
        assert(happenings(out@) =~= seq![e@]);
    }
    out
}

/// No event.
pub fn no_events() -> (out: Vec<AgoraEvent>)
    ensures
        happenings(out@) == Seq::<Happening>::empty(),
{
    let out: Vec<AgoraEvent> = Vec::new();
    proof {
        assert(happenings(out@) =~= Seq::<Happening>::empty());
    }
    out
}

/// What an event of the agent means.
pub open spec fn claude_meaning(v: JsonView) -> Seq<Happening> {
    let tool = or_else(member_str(v, "tool_name"@), "tool"@);
    let e = event_of(v);
    if e == Some("SessionStart"@) {
        session_start(v)
    } else if e == Some("UserPromptSubmit"@) {
        seq![prompt_happening(or_else(member_str(v, "prompt"@), Seq::empty()))]
    } else if e == Some("PreToolUse"@) {
        if tool == "AskUserQuestion"@ {
            seq![
                Happening::InputNeeded {
                    tool_use_id: or_else(tool_use_of(v), tool),
                    question: question_of(v),
                },
            ]
        } else {
            seq![Happening::Activity(tool)]
        }
    } else if e == Some("Elicitation"@) {
        seq![
            Happening::InputNeeded {
                tool_use_id: or_else(tool_use_of(v), "Elicitation"@),
                question: question_of(v),
            },
        ]
    } else if e == Some("ElicitationResult"@) {
        seq![Happening::DecisionResolved(Some(or_else(tool_use_of(v), "Elicitation"@)))]
    } else if ends_tool_use(e) {
        tool_use_ended(freed_keys(v), tool)
    } else if e == Some("PermissionRequest"@) {
        seq![Happening::DecisionNeeded { tool_use_id: key_of(v), summary: summary_of(v) }]
    } else if e == Some("Notification"@) {
        if member_str(v, "notification_type"@) == Some("idle_prompt"@) {
            seq![Happening::Idle]
        } else {
            Seq::empty()
        }
    } else if e == Some("Stop"@) {
        seq![Happening::TurnEnded(member_str(v, "last_assistant_message"@))]
    } else if e == Some("StopFailure"@) {
        seq![
            Happening::TurnFailed(
                or_else(
                    either(str2(v, "error_type"@, "error"@), member_str(v, "matcher"@)),
                    "unknown"@,
                ),
            ),
        ]
    } else if e == Some("SessionEnd"@) {
        seq![Happening::SessionEnded(member_str(v, "reason"@))]
    } else {
        Seq::empty()
    }
}

/// The members that only the start of a conversation with a person has.
pub open spec fn interactive_start(v: JsonView) -> bool {
    member(v, "model"@) is Some || member(v, "scratchpad_dir"@) is Some || member(
        v,
        "permission_mode"@,
    ) is Some || member(v, "effort"@) is Some
}

fn id_or(payload: &Json, other: &str) -> (r: String)
    ensures
        r@ == or_else(tool_use_of(payload@), other@),
{
    match hooks::tool_use_id(payload) {
        Some(id) => id,
        None => other.to_owned(),
    }
}

fn text_or<'a>(o: Option<&'a str>, other: &'a str) -> (r: &'a str)
    ensures
        r@ == or_else(opt_str(o), other@),
{
    match o {
        Some(s) => s,
        None => other,
    }
}

impl AgentHooks for Claude {
    open spec fn host_text(&self) -> Seq<char> {
        self.name@
    }

    open spec fn installs(&self) -> Seq<Entry> {
        install_table(self.settings@)
    }

    open spec fn via_hook(&self) -> bool {
        true
    }

    open spec fn knows_env(&self, has_grok_session: bool) -> bool {
        !has_grok_session
    }

    open spec fn conversation(&self, v: JsonView) -> Option<Seq<char>> {
        session_of(v)
    }

    open spec fn meaning(&self, v: JsonView) -> Seq<Happening> {
        claude_meaning(v)
    }

    open spec fn holding(&self, v: JsonView) -> Option<Seq<char>> {
        held_key(true, v)
    }

    open spec fn releasing(&self, v: JsonView) -> Released {
        freed_by(v)
    }

    open spec fn output_of(&self, a: Answer) -> Option<Seq<char>> {
        answer_text(a)
    }

    open spec fn directory(&self, v: JsonView) -> Option<Seq<char>> {
        cwd_of(v)
    }

    open spec fn pid_of(&self, env: Seq<(String, String)>, ppid: int) -> Option<int> {
        match variable(env, "CLAUDE_PID"@) {
            Some(s) => match num::unsigned(text::trimmed(s), u32::MAX as nat) {
                Some(n) => Some(n as int),
                None => None,
            },
            None => None,
        }
    }

    open spec fn headless_start(&self, v: JsonView) -> bool {
        event_of(v) == Some("SessionStart"@) && !interactive_start(v)
    }

    open spec fn hold_seconds(&self) -> int {
        DEFAULT_HOLD_TIMEOUT as int
    }

    open spec fn hint(&self) -> Option<Seq<char>> {
        None
    }

    fn host(&self) -> (r: &'static str) {
        self.name
    }

    fn install_spec(&self) -> (r: Vec<HookInstall>) {
        let matchers = stop_failure_matchers();
        let mut v: Vec<HookInstall> = Vec::new();
        v.push(hook(self.settings, "SessionStart", None, 20));
        v.push(hook(self.settings, "UserPromptSubmit", None, 20));
        v.push(hook(self.settings, "PreToolUse", None, 20));
        v.push(hook(self.settings, "PostToolUse", None, 20));
        v.push(hook(self.settings, "PostToolUseFailure", None, 20));
        v.push(hook(self.settings, "PermissionRequest", None, 3600));
        v.push(hook(self.settings, "PermissionDenied", None, 20));
        v.push(hook(self.settings, "Notification", Some("permission_prompt|idle_prompt".to_owned()), 20));
        v.push(hook(self.settings, "Stop", None, 20));
        v.push(hook(self.settings, "StopFailure", Some(text::join(&matchers, "|")), 20));
        v.push(hook(self.settings, "SessionEnd", None, 1));
        proof {
            assert(entries(v@) =~= install_table(self.settings@));
        }
        v
    }

    fn decision_via_hook(&self) -> (r: bool) {
        true
    }

    fn host_matches_env(&self, has_grok_session: bool) -> (r: bool) {
        !has_grok_session
    }

    fn agent_session_id(&self, payload: &Json) -> (r: Option<String>) {
        hooks::session_id(payload)
    }

    fn parse(&self, payload: &Json) -> (r: Vec<AgoraEvent>) {
        let tool: &str = text_or(payload.get_str("tool_name"), "tool");
        let e = event_name(payload);
        if text::is_text(e, "SessionStart") {
            session_start_events(payload)
        } else if text::is_text(e, "UserPromptSubmit") {
            proof {
                reveal_strlit("");
                assert(""@ =~= Seq::<char>::empty());
            }
            only(hooks::prompt_event(text_or(payload.get_str("prompt"), "")))
        } else if text::is_text(e, "PreToolUse") {
            if text::same(tool, "AskUserQuestion") {
                only(
                    AgoraEvent::InputNeeded {
                        tool_use_id: id_or(payload, tool),
                        question: question(payload),
                    },
                )
            } else {
                only(AgoraEvent::Activity(tool.to_owned()))
            }
        } else if text::is_text(e, "Elicitation") {
            only(
                AgoraEvent::InputNeeded {
                    tool_use_id: id_or(payload, "Elicitation"),
                    question: question(payload),
                },
            )
        } else if text::is_text(e, "ElicitationResult") {
            only(AgoraEvent::DecisionResolved(Some(id_or(payload, "Elicitation"))))
        } else if hooks::is_tool_use_end(e) {
            tool_use_end_events(hooks::release_keys(payload), tool)
        } else if text::is_text(e, "PermissionRequest") {
            only(
                AgoraEvent::DecisionNeeded {
                    tool_use_id: hooks::decision_key(payload),
                    summary: hooks::permission_summary(payload),
                },
            )
        } else if text::is_text(e, "Notification") {
            if text::is_text(payload.get_str("notification_type"), "idle_prompt") {
                only(AgoraEvent::Idle)
            } else {
                no_events()
            }
        } else if text::is_text(e, "Stop") {
            only(AgoraEvent::TurnEnded(text::owned_opt(payload.get_str("last_assistant_message"))))
        } else if text::is_text(e, "StopFailure") {
            let reason: Option<&str> = match hooks::get_str2(payload, "error_type", "error") {
                Some(s) => Some(s),
                None => payload.get_str("matcher"),
            };
            only(AgoraEvent::TurnFailed(text_or(reason, "unknown").to_owned()))
        } else if text::is_text(e, "SessionEnd") {
            only(AgoraEvent::SessionEnded(text::owned_opt(payload.get_str("reason"))))
        } else {
            no_events()
        }
    }

    fn hold_key(&self, payload: &Json) -> (r: Option<String>) {
        hooks::generic_hold_key(true, payload)
    }

    fn release_for(&self, payload: &Json) -> (r: Release) {
        hooks::generic_release(payload)
    }

    fn decision_output(&self, decision: &Decision) -> (r: Option<String>) {
        hooks::permission_output(decision)
    }

    fn working_directory(&self, payload: &Json) -> (r: Option<String>) {
        hooks::cwd(payload)
    }

    fn agent_pid(&self, env: &[(String, String)], ppid: u32) -> (r: Option<u32>) {
        match find_variable(env, "CLAUDE_PID") {
            Some(s) => {
                let t = text::trim(s);
                match num::parse_unsigned(t.as_str(), 0xffff_ffff) {
                    Some(n) => Some(n as u32),
                    None => None,
                }
            },
            None => None,
        }
    }

    fn is_headless(&self, payload: &Json) -> (r: bool) {
        text::is_text(event_name(payload), "SessionStart") && payload.get("model").is_none()
            && payload.get("scratchpad_dir").is_none() && payload.get("permission_mode").is_none()
            && payload.get("effort").is_none()
    }

    fn hold_timeout(&self) -> (r: u64) {
        DEFAULT_HOLD_TIMEOUT
    }

    fn install_hint(&self) -> (r: Option<String>) {
        None
    }
}

/// What an event means, told by its name. A turn ends well with `Stop`, with the agent's last message, and
/// fails with `StopFailure` alone, for the reason given; a session starts, with the conversation it is, and
/// ends, with the reason given; a prompt, a tool and the end of its use are told; of a question and of a
/// request for permission it is told under which key it waits.
pub proof fn lemma_events_mean(c: Claude, v: JsonView)
    ensures
        is_event(v, "Stop"@) ==> c.meaning(v) == seq![
            Happening::TurnEnded(member_str(v, "last_assistant_message"@)),
        ],
        is_event(v, "StopFailure"@) ==> c.meaning(v).len() == 1 && c.meaning(v)[0] is TurnFailed,
        is_event(v, "StopFailure"@) && member_str(v, "error_type"@) is Some ==> c.meaning(v) == seq![
            Happening::TurnFailed(member_str(v, "error_type"@)->0),
        ],
        is_event(v, "StopFailure"@) && member_str(v, "error_type"@) is None && member_str(v, "error"@)
            is Some ==> c.meaning(v) == seq![Happening::TurnFailed(member_str(v, "error"@)->0)],
        is_event(v, "SessionEnd"@) ==> c.meaning(v) == seq![
            Happening::SessionEnded(member_str(v, "reason"@)),
        ],
        is_event(v, "SessionStart"@) ==> c.meaning(v).len() > 0 && c.meaning(v)[0] is SessionStarted,
        forall|id: Seq<char>|
            is_event(v, "SessionStart"@) && #[trigger] written(v, "session_id"@, "sessionId"@, id)
                ==> c.meaning(v) == seq![Happening::SessionStarted, Happening::SessionId(id)],
        is_event(v, "UserPromptSubmit"@) && member_str(v, "prompt"@) is Some ==> c.meaning(v) == seq![
            prompt_happening(member_str(v, "prompt"@)->0),
        ],
        is_event(v, "Notification"@) ==> c.meaning(v) == (if member_str(v, "notification_type"@)
            == Some("idle_prompt"@) {
            seq![Happening::Idle]
        } else {
            Seq::empty()
        }),
        is_event(v, "PreToolUse"@) && member_str(v, "tool_name"@) is Some ==> if member_str(
            v,
            "tool_name"@,
        ) == Some("AskUserQuestion"@) {
            c.meaning(v).len() == 1 && c.meaning(v)[0] is InputNeeded && (tool_use_of(v) is Some
                ==> c.meaning(v)[0]->InputNeeded_tool_use_id == tool_use_of(v)->0)
        } else {
            c.meaning(v) == seq![Happening::Activity(member_str(v, "tool_name"@)->0)]
        },
        is_event(v, "PermissionRequest"@) ==> c.meaning(v).len() == 1 && c.meaning(v)[0]
            is DecisionNeeded && c.holding(v) == Some(c.meaning(v)[0]->DecisionNeeded_tool_use_id),
        is_event(v, "Elicitation"@) ==> c.meaning(v).len() == 1 && c.meaning(v)[0] is InputNeeded,
        is_event(v, "ElicitationResult"@) ==> c.meaning(v).len() == 1 && c.meaning(v)[0]
            is DecisionResolved,
{
    hooks::lemma_event_names();
    lemma_key_words();
    hooks::lemma_both_spellings(v, "SessionStart"@);
    hooks::lemma_both_spellings(v, "UserPromptSubmit"@);
    hooks::lemma_both_spellings(v, "PreToolUse"@);
    hooks::lemma_both_spellings(v, "Elicitation"@);
    hooks::lemma_both_spellings(v, "ElicitationResult"@);
    hooks::lemma_both_spellings(v, "PostToolUse"@);
    hooks::lemma_both_spellings(v, "PostToolUseFailure"@);
    hooks::lemma_both_spellings(v, "PermissionDenied"@);
    hooks::lemma_both_spellings(v, "PermissionRequest"@);
    hooks::lemma_both_spellings(v, "Notification"@);
    hooks::lemma_both_spellings(v, "Stop"@);
    hooks::lemma_both_spellings(v, "StopFailure"@);
    hooks::lemma_both_spellings(v, "SessionEnd"@);
    hooks::lemma_both_spellings(v, "Interrupt"@);
    assert forall|id: Seq<char>|
        is_event(v, "SessionStart"@) && #[trigger] written(v, "session_id"@, "sessionId"@, id) implies c.meaning(
        v,
    ) == seq![Happening::SessionStarted, Happening::SessionId(id)] by {
        hooks::lemma_both_spellings(v, id);
    }
}

proof fn lemma_key_words()
    ensures
        "AskUserQuestion"@ != "tool"@,
{
    reveal_strlit("AskUserQuestion");
    reveal_strlit("tool");
    assert("AskUserQuestion"@.len() != "tool"@.len());
}

/// Each thing that is told has its event: a failed turn none but `StopFailure`, the end of a turn none but
/// `Stop`, the end of a session none but `SessionEnd`, a request for permission none but
/// `PermissionRequest`; and an event with another name than these tells nothing.
pub proof fn lemma_what_is_told_has_its_event(c: Claude, v: JsonView, k: int)
    requires
        0 <= k < c.meaning(v).len(),
    ensures
        match c.meaning(v)[k] {
            Happening::TurnFailed(_) => is_event(v, "StopFailure"@),
            Happening::TurnEnded(_) => is_event(v, "Stop"@),
            Happening::SessionEnded(_) => is_event(v, "SessionEnd"@),
            Happening::SessionStarted => is_event(v, "SessionStart"@),
            Happening::SessionId(_) => is_event(v, "SessionStart"@),
            Happening::DecisionNeeded { .. } => is_event(v, "PermissionRequest"@),
            Happening::PromptSubmitted(_) => is_event(v, "UserPromptSubmit"@),
            Happening::PromptInjected => is_event(v, "UserPromptSubmit"@),
            Happening::Idle => is_event(v, "Notification"@),
            Happening::InputNeeded { .. } => is_event(v, "PreToolUse"@) || is_event(v, "Elicitation"@),
            Happening::DecisionResolved(key) => key is Some && (is_event(v, "ElicitationResult"@)
                || (c.releasing(v) matches Released::ToolUse(keys) && keys.contains(key->0))),
            Happening::Activity(_) => is_event(v, "PreToolUse"@) || is_event(v, "PostToolUse"@)
                || is_event(v, "PostToolUseFailure"@) || is_event(v, "PermissionDenied"@),
        },
{
    hooks::lemma_event_names();
    hooks::lemma_both_spellings(v, "SessionStart"@);
    hooks::lemma_both_spellings(v, "UserPromptSubmit"@);
    hooks::lemma_both_spellings(v, "PreToolUse"@);
    hooks::lemma_both_spellings(v, "Elicitation"@);
    hooks::lemma_both_spellings(v, "ElicitationResult"@);
    hooks::lemma_both_spellings(v, "PostToolUse"@);
    hooks::lemma_both_spellings(v, "PostToolUseFailure"@);
    hooks::lemma_both_spellings(v, "PermissionDenied"@);
    hooks::lemma_both_spellings(v, "PermissionRequest"@);
    hooks::lemma_both_spellings(v, "Notification"@);
    hooks::lemma_both_spellings(v, "Stop"@);
    hooks::lemma_both_spellings(v, "StopFailure"@);
    hooks::lemma_both_spellings(v, "SessionEnd"@);
    hooks::lemma_both_spellings(v, "Interrupt"@);
    if ends_tool_use(event_of(v)) {
        let keys = freed_keys(v);
        if k < keys.len() {
            assert(c.meaning(v)[k] == Happening::DecisionResolved(Some(keys[k])));
            assert(keys.contains(keys[k]));
        }
    }
}

/// The end of a tool use tells that everything it releases is resolved, and then that the tool was active.
pub proof fn lemma_what_is_released_is_resolved(c: Claude, v: JsonView, key: Seq<char>)
    requires
        c.releasing(v) matches Released::ToolUse(keys) && keys.contains(key),
    ensures
        c.meaning(v).contains(Happening::DecisionResolved(Some(key))),
        c.meaning(v).last() is Activity,
{
    hooks::lemma_event_names();
    let keys = freed_keys(v);
    let i = keys.index_of(key);
    assert(c.meaning(v)[i] == Happening::DecisionResolved(Some(key)));
}

/// A conversation can be taken up, and be given its id, from version 2.1.258 on and not before; by these
/// keys and with that id.
pub proof fn lemma_versions_that_take_ids(c: Claude, v: Version, id: Seq<char>)
    ensures
        c.resuming(v, id) == Some(seq!["--resume"@, id]) || c.resuming(v, id) is None,
        c.pinning(v, id) == Some(seq!["--session-id"@, id]) || c.pinning(v, id) is None,
        c.resuming(v, id) is Some <==> c.pinning(v, id) is Some,
        c.resuming(v, id) is Some <==> (v.0 > 2 || (v.0 == 2 && (v.1 > 1 || (v.1 == 1 && v.2 >= 258)))),
{
}

/// Every event whose meaning is read is installed, each once, in the one file; only a request for
/// permission is given an hour, which is longer than it is held.
pub proof fn lemma_hooks_are_installed(c: Claude, i: int, j: int)
    requires
        0 <= i < j < c.installs().len(),
    ensures
        c.installs()[i].file == c.settings@,
        c.installs()[j].file == c.settings@,
        c.installs()[i].event != c.installs()[j].event,
        c.installs()[i].event == "PermissionRequest"@ <==> c.installs()[i].timeout > c.hold_seconds(),
        c.installs()[j].event == "PermissionRequest"@ <==> c.installs()[j].timeout > c.hold_seconds(),
        c.installs().len() == 11,
{
    hooks::lemma_event_names();
}

/// A session that starts answers one prompt and ends exactly where nothing in the report speaks of one that
/// a human sits at.
pub proof fn lemma_which_starts_are_headless(c: Claude, v: JsonView)
    ensures
        c.headless_start(v) <==> {
            &&& is_event(v, "SessionStart"@)
            &&& json::lacks(v, "model"@)
            &&& json::lacks(v, "scratchpad_dir"@)
            &&& json::lacks(v, "permission_mode"@)
            &&& json::lacks(v, "effort"@)
        },
{
    hooks::lemma_both_spellings(v, "SessionStart"@);
    json::lemma_member_read(v, "model"@);
    json::lemma_member_read(v, "scratchpad_dir"@);
    json::lemma_member_read(v, "permission_mode"@);
    json::lemma_member_read(v, "effort"@);
}

/// A prompt is handed to the agent as one word and as it is.
pub proof fn lemma_prompts_are_handed_over(c: Claude, prompt: Seq<char>)
    ensures
        c.beginning(prompt) == Some(seq![prompt]),
        c.headless(prompt) matches Some(a) && a.len() == 2 && a[0] == "-p"@ && a[1] == prompt,
{
}

/// The process of the agent is the one that its own variable names, and without one it is not known.
pub proof fn lemma_the_process_of_the_agent(c: Claude, env: Seq<(String, String)>, pid: u32, ppid: int)
    ensures
        variable(env, "CLAUDE_PID"@) == Some(num::decimal(pid as nat)) ==> c.pid_of(env, ppid) == Some(
            pid as int,
        ),
        variable(env, "CLAUDE_PID"@) is None ==> c.pid_of(env, ppid) is None,
{
    let d = num::decimal(pid as nat);
    num::lemma_decimal(pid as nat);
    assert(num::digit(d[0]) && num::digit(d[d.len() - 1]));
    assert(num::without_plus(d) == d);
    assert(text::trimmed(d) == d) by {
        text::lemma_trimmed(d);
    }
}

/// What a human is asked is the first question that is written down, or else the message that comes with it.
pub proof fn lemma_what_a_human_is_asked(v: JsonView, m: Seq<char>)
    ensures
        json::lacks(v, "tool_input"@) && json::stands(v, "message"@, JsonView::Str(m)) ==> question_of(v)
            == m,
        first_question(member(v, "tool_input"@)) == Some(m) ==> question_of(v) == m,
{
    json::lemma_member_read(v, "tool_input"@);
    json::lemma_member_read(v, "message"@);
}

/// What is known of a session that starts is its directory and its conversation, as the report writes them.
pub proof fn lemma_what_a_report_says(c: Claude, v: JsonView, s: Seq<char>)
    ensures
        c.directory(v) == Some(s) <==> json::stands(v, "cwd"@, JsonView::Str(s)),
        c.conversation(v) == Some(s) <==> written(v, "session_id"@, "sessionId"@, s),
        c.knows_env(true) == false && c.knows_env(false) == true,
{
    hooks::lemma_both_spellings(v, s);
}

/// Why a turn failed is told by what the report names first: the kind of error, the error, or what the hook
/// was matched by; where it names none of them it is not known.
pub proof fn lemma_why_a_turn_failed(c: Claude, v: JsonView, why: Seq<char>)
    requires
        is_event(v, "StopFailure"@),
    ensures
        json::stands(v, "error_type"@, JsonView::Str(why)) ==> c.meaning(v) == seq![
            Happening::TurnFailed(why),
        ],
        json::lacks(v, "error_type"@) && json::lacks(v, "error"@) && json::stands(
            v,
            "matcher"@,
            JsonView::Str(why),
        ) ==> c.meaning(v) == seq![Happening::TurnFailed(why)],
        json::lacks(v, "error_type"@) && json::lacks(v, "error"@) && json::lacks(v, "matcher"@)
            ==> c.meaning(v) == seq![Happening::TurnFailed("unknown"@)],
{
    hooks::lemma_both_spellings(v, "StopFailure"@);
    hooks::lemma_event_names();
    json::lemma_member_read(v, "error_type"@);
    json::lemma_member_read(v, "error"@);
    json::lemma_member_read(v, "matcher"@);
}

/// A command is taken for the agent only where it says so, and its version is one that is known.
pub proof fn lemma_which_commands_are_the_agent(c: Claude, output: Seq<char>)
    ensures
        c.probed(output) matches Probed::Available(v) ==> text::occurs(text::trimmed(output), c.title@) && (
        v.0 > 2 || (v.0 == 2 && (v.1 > 1 || (v.1 == 1 && v.2 >= 258)))),
{
}

} // verus!
