//! What the hooks of all hosts have in common: the shape of a decision, what an event releases, and
//! the keys of a payload. Every key is read in its two spellings, `snake_case` and `camelCase`.

use crate::adapter::text::{clipped, filled_lines};
use crate::codec::{self, compact_text, normal};
use crate::json::{self, element_of, member, member_of, member_str, str_of, Json, JsonView};
use crate::status::{AgoraEvent, Happening};
use crate::text::{self, begins, either, lines, opt_str, opt_text, or_else, strs, texts};
use vstd::prelude::*;

verus! {

/// How long a request is held for an answer, in seconds, where the host does not ask for less: the
/// time that a hook is given less a margin, so that the hook always ends first.
pub const DEFAULT_HOLD_TIMEOUT: u64 = 3300;

/// How many characters of a request its summary shows.
pub const PERMISSION_SUMMARY_MAX: usize = 200;

/// The prefixes of the environment variables that belong to an agent.
pub fn agent_env_prefixes() -> (v: Vec<&'static str>)
    ensures
        strs(v@) == seq!["CLAUDE_"@, "GROK_"@, "CODEX_"@],
{
    let v: Vec<&'static str> = vec!["CLAUDE_", "GROK_", "CODEX_"];
    proof {
        assert(strs(v@) =~= seq!["CLAUDE_"@, "GROK_"@, "CODEX_"@]);
    }
    v
}

/// The answer to a request for permission.
#[derive(Debug, PartialEq, Eq)]
pub enum Decision {
    Allow,
    Deny { message: Option<String> },
    /// The hook ends without a word and the terminal asks.
    Unanswered,
}

/// The model of a [`Decision`].
pub enum Answer {
    Allow,
    Deny { message: Option<Seq<char>> },
    Unanswered,
}

impl View for Decision {
    type V = Answer;

    open spec fn view(&self) -> Answer {
        match self {
            Decision::Allow => Answer::Allow,
            Decision::Deny { message } => Answer::Deny { message: opt_text(*message) },
            Decision::Unanswered => Answer::Unanswered,
        }
    }
}

/// What an event releases of the requests that are held.
#[derive(Debug, PartialEq, Eq)]
pub enum Release {
    /// Those held under one of these keys.
    ToolUse(Vec<String>),
    /// All those of the session.
    Session,
    Nothing,
}

/// The model of a [`Release`].
pub enum Released {
    ToolUse(Seq<Seq<char>>),
    Session,
    Nothing,
}

impl View for Release {
    type V = Released;

    open spec fn view(&self) -> Released {
        match self {
            Release::ToolUse(keys) => Released::ToolUse(texts(keys@)),
            Release::Session => Released::Session,
            Release::Nothing => Released::Nothing,
        }
    }
}

/// The text of the member `k1`, or else of `k2`.
pub open spec fn str2(v: JsonView, k1: Seq<char>, k2: Seq<char>) -> Option<Seq<char>> {
    either(member_str(v, k1), member_str(v, k2))
}

/// The text of the member `k1`, or else of `k2`.
pub fn get_str2<'a>(payload: &'a Json, k1: &str, k2: &str) -> (r: Option<&'a str>)
    ensures
        opt_str(r) == str2(payload@, k1@, k2@),
{
    match payload.get_str(k1) {
        Some(s) => Some(s),
        None => payload.get_str(k2),
    }
}

/// The name of the event.
pub open spec fn event_of(v: JsonView) -> Option<Seq<char>> {
    str2(v, "hook_event_name"@, "hookEventName"@)
}

/// The name of the event.
pub fn event_name(payload: &Json) -> (r: Option<&str>)
    ensures
        opt_str(r) == event_of(payload@),
{
    get_str2(payload, "hook_event_name", "hookEventName")
}

/// The working directory that an event names.
pub open spec fn cwd_of(v: JsonView) -> Option<Seq<char>> {
    member_str(v, "cwd"@)
}

/// The working directory that an event names.
pub fn cwd(payload: &Json) -> (r: Option<String>)
    ensures
        opt_text(r) == cwd_of(payload@),
{
    text::owned_opt(payload.get_str("cwd"))
}

/// The conversation that an event names.
pub open spec fn session_of(v: JsonView) -> Option<Seq<char>> {
    str2(v, "session_id"@, "sessionId"@)
}

/// The conversation that an event names.
pub fn session_id(payload: &Json) -> (r: Option<String>)
    ensures
        opt_text(r) == session_of(payload@),
{
    text::owned_opt(get_str2(payload, "session_id", "sessionId"))
}

/// The tool use that an event names.
pub open spec fn tool_use_of(v: JsonView) -> Option<Seq<char>> {
    either(str2(v, "tool_use_id"@, "toolUseId"@), member_str(v, "call_id"@))
}

/// The tool use that an event names.
pub fn tool_use_id(payload: &Json) -> (r: Option<String>)
    ensures
        opt_text(r) == tool_use_of(payload@),
{
    match get_str2(payload, "tool_use_id", "toolUseId") {
        Some(s) => Some(s.to_owned()),
        None => text::owned_opt(payload.get_str("call_id")),
    }
}

/// The tool that an event names.
pub open spec fn tool_of(v: JsonView) -> Option<Seq<char>> {
    str2(v, "tool_name"@, "toolName"@)
}

/// What a hook writes to answer a request for permission.
pub open spec fn answer_json(a: Answer) -> JsonView {
    let decision = match a {
        Answer::Deny { message: Some(m) } => JsonView::Object(
            seq![("behavior"@, JsonView::Str("deny"@)), ("message"@, JsonView::Str(m))],
        ),
        Answer::Deny { message: None } => JsonView::Object(
            seq![("behavior"@, JsonView::Str("deny"@))],
        ),
        _ => JsonView::Object(seq![("behavior"@, JsonView::Str("allow"@))]),
    };
    JsonView::Object(
        seq![
            (
                "hookSpecificOutput"@,
                JsonView::Object(
                    seq![
                        ("decision"@, decision),
                        ("hookEventName"@, JsonView::Str("PermissionRequest"@)),
                    ],
                ),
            ),
        ],
    )
}

/// What a hook writes to answer a request for permission; nothing where there is no answer.
pub open spec fn answer_text(a: Answer) -> Option<Seq<char>> {
    if a is Unanswered {
        None
    } else {
        Some(compact_text(normal(answer_json(a))))
    }
}

/// What a hook writes to answer a request for permission, as a value.
pub fn permission_json(decision: &Decision) -> (r: Option<Json>)
    ensures
        json::opt_view(r) == (if decision@ is Unanswered {
            None
        } else {
            Some(answer_json(decision@))
        }),
{
    let d = match decision {
        Decision::Allow => json::object1("behavior", json::string("allow")),
        Decision::Deny { message } => match message {
            Some(m) => json::object2(
                "behavior",
                json::string("deny"),
                "message",
                json::string(m.as_str()),
            ),
            None => json::object1("behavior", json::string("deny")),
        },
        Decision::Unanswered => {
            return None;
        },
    };
    Some(
        json::object1(
            "hookSpecificOutput",
            json::object2("decision", d, "hookEventName", json::string("PermissionRequest")),
        ),
    )
}

/// What a hook writes to answer a request for permission; nothing where there is no answer.
pub fn permission_output(decision: &Decision) -> (r: Option<String>)
    ensures
        opt_text(r) == answer_text(decision@),
{
    match permission_json(decision) {
        Some(j) => Some(codec::compact(&j)),
        None => None,
    }
}

/// The key that a request is held under: the tool use, or else the tool, or else the event.
pub open spec fn key_of(v: JsonView) -> Seq<char> {
    or_else(either(tool_use_of(v), tool_of(v)), "PermissionRequest"@)
}

/// The key that a request is held under.
pub fn decision_key(payload: &Json) -> (r: String)
    ensures
        r@ == key_of(payload@),
{
    match tool_use_id(payload) {
        Some(id) => id,
        None => match get_str2(payload, "tool_name", "toolName") {
            Some(s) => s.to_owned(),
            None => "PermissionRequest".to_owned(),
        },
    }
}

/// The members of a tool's input that say what it is about to do, the most telling first.
pub open spec fn primary_keys() -> Seq<Seq<char>> {
    seq![
        "command"@,
        "file_path"@,
        "notebook_path"@,
        "path"@,
        "url"@,
        "pattern"@,
        "patch"@,
        "prompt"@,
        "query"@,
        "description"@,
    ]
}

fn primary_input_keys() -> (v: Vec<&'static str>)
    ensures
        strs(v@) == primary_keys(),
{
    let v: Vec<&'static str> = vec![
        "command",
        "file_path",
        "notebook_path",
        "path",
        "url",
        "pattern",
        "patch",
        "prompt",
        "query",
        "description",
    ];
    proof {
        assert(strs(v@) =~= primary_keys());
    }
    v
}

/// The text of the first of the members `keys[i..]` that is a string.
pub open spec fn first_str(v: JsonView, keys: Seq<Seq<char>>, i: int) -> Option<Seq<char>>
    decreases keys.len() - i,
{
    if i < 0 || i >= keys.len() {
        None
    } else {
        either(member_str(v, keys[i]), first_str(v, keys, i + 1))
    }
}

/// The text of the first of the members `keys` that is a string.
pub fn find_str<'a>(payload: &'a Json, keys: &[&str]) -> (r: Option<&'a str>)
    ensures
        opt_str(r) == first_str(payload@, strs(keys@), 0),
{
    let mut i: usize = 0;
    while i < keys.len()
        invariant
            i <= keys@.len(),
            first_str(payload@, strs(keys@), 0) == first_str(payload@, strs(keys@), i as int),
        decreases keys@.len() - i,
    {
        proof {
            assert(strs(keys@)[i as int] == keys@[i as int]@);
        }
        match payload.get_str(keys[i]) {
            Some(s) => {
                return Some(s);
            },
            None => {},
        }
        i += 1;
    }
    None
}

/// The first of the questions that a tool's input asks.
pub open spec fn first_question(input: Option<JsonView>) -> Option<Seq<char>> {
    str_of(member_of(element_of(member_of(input, "questions"@), 0), "question"@))
}

/// The first of the questions that a tool's input asks.
pub fn question_in<'a>(input: Option<&'a Json>) -> (r: Option<&'a str>)
    ensures
        opt_str(r) == first_question(json::opt_ref(input)),
{
    json::text_of(json::get_of(json::first_of(json::get_of(input, "questions")), "question"))
}

/// What a tool's input says it is about to do.
pub open spec fn primary(input: JsonView) -> Option<Seq<char>> {
    match input {
        JsonView::Str(s) => Some(s),
        _ => either(first_question(Some(input)), first_str(input, primary_keys(), 0)),
    }
}

fn primary_input(input: &Json) -> (r: Option<String>)
    ensures
        opt_text(r) == primary(input@),
{
    match input.as_str() {
        Some(s) => {
            return Some(s.to_owned());
        },
        None => {},
    }
    match question_in(Some(input)) {
        Some(q) => Some(q.to_owned()),
        None => {
            let keys = primary_input_keys();
            text::owned_opt(find_str(input, &keys))
        },
    }
}

/// The first line of a text that is not empty, at most `max` characters of it; an ellipsis says
/// that there is more.
pub open spec fn first_line(s: Seq<char>, max: int) -> Seq<char> {
    let f = filled_lines(lines(s));
    if f.len() == 0 {
        Seq::empty()
    } else if f.len() > 1 || f[0].len() > max {
        clipped(f[0], max).push('…')
    } else {
        f[0]
    }
}

/// The first line of `s` that is not empty, at most `max` characters of it.
pub fn first_line_capped(s: &str, max: usize) -> (out: String)
    ensures
        out@ == first_line(s@, max as int),
{
    let all = text::lines_of(s);
    let ghost ls = lines(s@);
    let mut filled: Vec<String> = Vec::new();
    let mut i: usize = 0;
    proof {
        assert(ls.take(0) =~= Seq::<Seq<char>>::empty());
        assert(texts(filled@) =~= filled_lines(ls.take(0)));
    }
    while i < all.len()
        invariant
            ls == texts(all@),
            i <= all@.len(),
            texts(filled@) == filled_lines(ls.take(i as int)),
        decreases all@.len() - i,
    {
        let l = text::trim(all[i].as_str());
        proof {
            assert(ls.take(i + 1).drop_last() =~= ls.take(i as int));
            assert(ls.take(i + 1).last() == all@[i as int]@);
        }
        if !text::is_empty(l.as_str()) {
            let ghost was = texts(filled@);
            let ghost lv = l@;
            filled.push(l);
            proof {
                assert(texts(filled@) =~= was.push(lv));
            }
        }
        i += 1;
    }
    proof {
        assert(ls.take(i as int) =~= ls);
        assert(texts(filled@).len() == filled@.len());
    }
    if filled.len() == 0 {
        let out = String::new();
        proof {
            assert(out@ =~= Seq::<char>::empty());
        }
        return out;
    }
    proof {
        assert(texts(filled@)[0] == filled@[0]@);
    }
    let long: bool = text::chars_of(filled[0].as_str()).len() > max;
    let mut out = crate::adapter::text::clip(filled[0].as_str(), max);
    if filled.len() > 1 || long {
        out.push('…');
    }
    out
}

/// A tool and what it is about to do, given as `raw`, in one line.
pub open spec fn summary_text(tool: Seq<char>, raw: Seq<char>) -> Seq<char> {
    let arg = first_line(raw, PERMISSION_SUMMARY_MAX as int);
    if arg.len() == 0 {
        tool
    } else {
        tool + ": "@ + arg
    }
}

/// A tool and what it is about to do, given as `raw`, in one line.
pub fn summary_line(tool: &str, raw: &str) -> (out: String)
    ensures
        out@ == summary_text(tool@, raw@),
{
    let arg = first_line_capped(raw, PERMISSION_SUMMARY_MAX);
    if text::is_empty(arg.as_str()) {
        tool.to_owned()
    } else {
        text::cat3(tool, ": ", arg.as_str())
    }
}

/// The input of the tool that an event names; `null` is none.
pub open spec fn input_of(v: JsonView) -> Option<JsonView> {
    match either(member(v, "tool_input"@), member(v, "toolInput"@)) {
        Some(JsonView::Null) => None,
        r => r,
    }
}

/// What a request for permission is about: the tool, and what its input says it is about to do, or
/// else the whole of the input.
pub open spec fn summary_of(v: JsonView) -> Seq<char> {
    let tool = or_else(tool_of(v), "tool"@);
    match input_of(v) {
        None => tool,
        Some(input) => summary_text(
            tool,
            or_else(primary(input), compact_text(normal(input))),
        ),
    }
}

/// What a request for permission is about.
pub fn permission_summary(payload: &Json) -> (out: String)
    ensures
        out@ == summary_of(payload@),
{
    let tool: &str = match get_str2(payload, "tool_name", "toolName") {
        Some(s) => s,
        None => "tool",
    };
    let found = match payload.get("tool_input") {
        Some(j) => Some(j),
        None => payload.get("toolInput"),
    };
    match found {
        None => tool.to_owned(),
        Some(input) => if input.is_null() {
            tool.to_owned()
        } else {
            let raw = match primary_input(input) {
                Some(s) => s,
                None => codec::compact(input),
            };
            summary_line(tool, raw.as_str())
        },
    }
}

/// The key that an event asks to be held under: only requests for permission are held, and only of
/// hosts that take an answer from a hook.
pub open spec fn held_key(via_hook: bool, v: JsonView) -> Option<Seq<char>> {
    if via_hook && event_of(v) == Some("PermissionRequest"@) {
        Some(key_of(v))
    } else {
        None
    }
}

/// The key that an event asks to be held under.
pub fn generic_hold_key(decision_via_hook: bool, payload: &Json) -> (r: Option<String>)
    ensures
        opt_text(r) == held_key(decision_via_hook, payload@),
{
    if !decision_via_hook || !text::is_text(event_name(payload), "PermissionRequest") {
        return None;
    }
    Some(decision_key(payload))
}

/// The keys that the end of a tool use releases: the tool use and the tool.
pub open spec fn freed_keys(v: JsonView) -> Seq<Seq<char>> {
    let a = match tool_use_of(v) {
        Some(id) => seq![id],
        None => Seq::empty(),
    };
    match tool_of(v) {
        Some(name) => a.push(name),
        None => a,
    }
}

/// The keys that the end of a tool use releases.
pub fn release_keys(payload: &Json) -> (keys: Vec<String>)
    ensures
        texts(keys@) == freed_keys(payload@),
{
    let mut keys: Vec<String> = Vec::new();
    match tool_use_id(payload) {
        Some(id) => {
            keys.push(id);
        },
        None => {},
    }
    match get_str2(payload, "tool_name", "toolName") {
        Some(name) => {
            keys.push(name.to_owned());
        },
        None => {},
    }
    proof {
        assert(texts(keys@) =~= freed_keys(payload@));
    }
    keys
}

/// Whether an event ends a tool use.
pub open spec fn ends_tool_use(e: Option<Seq<char>>) -> bool {
    e == Some("PostToolUse"@) || e == Some("PostToolUseFailure"@) || e == Some(
        "PermissionDenied"@,
    )
}

/// Whether an event ends a tool use.
pub fn is_tool_use_end(e: Option<&str>) -> (r: bool)
    ensures
        r == ends_tool_use(opt_str(e)),
{
    text::is_text(e, "PostToolUse") || text::is_text(e, "PostToolUseFailure") || text::is_text(
        e,
        "PermissionDenied",
    )
}

/// What an event releases: the end of a tool use what is held for it, the end of a turn or of the
/// session all that is held.
pub open spec fn freed_by(v: JsonView) -> Released {
    let e = event_of(v);
    if ends_tool_use(e) {
        if freed_keys(v).len() == 0 {
            Released::Nothing
        } else {
            Released::ToolUse(freed_keys(v))
        }
    } else if e == Some("Stop"@) || e == Some("SessionEnd"@) {
        Released::Session
    } else {
        Released::Nothing
    }
}

/// What an event releases.
pub fn generic_release(payload: &Json) -> (r: Release)
    ensures
        r@ == freed_by(payload@),
{
    let e = event_name(payload);
    if is_tool_use_end(e) {
        let keys = release_keys(payload);
        proof {
            assert(texts(keys@).len() == keys@.len());
        }
        if keys.len() == 0 {
            Release::Nothing
        } else {
            Release::ToolUse(keys)
        }
    } else if text::is_text(e, "Stop") || text::is_text(e, "SessionEnd") {
        Release::Session
    } else {
        Release::Nothing
    }
}

/// Whether a prompt was put in by the host and not typed: it begins with one of the host's tags.
pub open spec fn injected(prompt: Seq<char>) -> bool {
    let t = text::trimmed(prompt);
    begins(t, "<task-notification>"@) || begins(t, "<system-reminder>"@) || begins(
        t,
        "<command-name>"@,
    )
}

/// What the submission of a prompt means.
pub open spec fn prompt_happening(prompt: Seq<char>) -> Happening {
    if injected(prompt) {
        Happening::PromptInjected
    } else {
        Happening::PromptSubmitted(prompt)
    }
}

/// What the submission of a prompt means.
pub fn prompt_event(prompt: &str) -> (r: AgoraEvent)
    ensures
        r@ == prompt_happening(prompt@),
{
    let t = text::trim(prompt);
    if text::starts_with(t.as_str(), "<task-notification>") || text::starts_with(
        t.as_str(),
        "<system-reminder>",
    ) || text::starts_with(t.as_str(), "<command-name>") {
        AgoraEvent::PromptInjected
    } else {
        AgoraEvent::PromptSubmitted(prompt.to_owned())
    }
}

/// Whether the text under `k1` is `s`, or, where there is none under `k1`, the one under `k2`.
pub open spec fn written(v: JsonView, k1: Seq<char>, k2: Seq<char>, s: Seq<char>) -> bool {
    json::stands(v, k1, JsonView::Str(s)) || ((forall|t: Seq<char>|
        !#[trigger] json::stands(v, k1, JsonView::Str(t))) && json::stands(v, k2, JsonView::Str(s)))
}

/// Whether an event is the one with the name `e`, in either spelling of the key.
pub open spec fn is_event(v: JsonView, e: Seq<char>) -> bool {
    written(v, "hook_event_name"@, "hookEventName"@, e)
}

proof fn lemma_written(v: JsonView, k1: Seq<char>, k2: Seq<char>, s: Seq<char>)
    ensures
        written(v, k1, k2, s) <==> str2(v, k1, k2) == Some(s),
{
    json::lemma_member_read(v, k1);
    json::lemma_member_read(v, k2);
    if member_str(v, k1) is Some {
        assert(json::stands(v, k1, JsonView::Str(member_str(v, k1)->0)));
    }
}

pub(crate) proof fn lemma_event_names()
    ensures
        "SessionStart"@ != "UserPromptSubmit"@,
        "SessionStart"@ != "PreToolUse"@,
        "SessionStart"@ != "Elicitation"@,
        "SessionStart"@ != "ElicitationResult"@,
        "SessionStart"@ != "PostToolUse"@,
        "SessionStart"@ != "PostToolUseFailure"@,
        "SessionStart"@ != "PermissionDenied"@,
        "SessionStart"@ != "PermissionRequest"@,
        "SessionStart"@ != "Notification"@,
        "SessionStart"@ != "Stop"@,
        "SessionStart"@ != "StopFailure"@,
        "SessionStart"@ != "SessionEnd"@,
        "SessionStart"@ != "Interrupt"@,
        "UserPromptSubmit"@ != "PreToolUse"@,
        "UserPromptSubmit"@ != "Elicitation"@,
        "UserPromptSubmit"@ != "ElicitationResult"@,
        "UserPromptSubmit"@ != "PostToolUse"@,
        "UserPromptSubmit"@ != "PostToolUseFailure"@,
        "UserPromptSubmit"@ != "PermissionDenied"@,
        "UserPromptSubmit"@ != "PermissionRequest"@,
        "UserPromptSubmit"@ != "Notification"@,
        "UserPromptSubmit"@ != "Stop"@,
        "UserPromptSubmit"@ != "StopFailure"@,
        "UserPromptSubmit"@ != "SessionEnd"@,
        "UserPromptSubmit"@ != "Interrupt"@,
        "PreToolUse"@ != "Elicitation"@,
        "PreToolUse"@ != "ElicitationResult"@,
        "PreToolUse"@ != "PostToolUse"@,
        "PreToolUse"@ != "PostToolUseFailure"@,
        "PreToolUse"@ != "PermissionDenied"@,
        "PreToolUse"@ != "PermissionRequest"@,
        "PreToolUse"@ != "Notification"@,
        "PreToolUse"@ != "Stop"@,
        "PreToolUse"@ != "StopFailure"@,
        "PreToolUse"@ != "SessionEnd"@,
        "PreToolUse"@ != "Interrupt"@,
        "Elicitation"@ != "ElicitationResult"@,
        "Elicitation"@ != "PostToolUse"@,
        "Elicitation"@ != "PostToolUseFailure"@,
        "Elicitation"@ != "PermissionDenied"@,
        "Elicitation"@ != "PermissionRequest"@,
        "Elicitation"@ != "Notification"@,
        "Elicitation"@ != "Stop"@,
        "Elicitation"@ != "StopFailure"@,
        "Elicitation"@ != "SessionEnd"@,
        "Elicitation"@ != "Interrupt"@,
        "ElicitationResult"@ != "PostToolUse"@,
        "ElicitationResult"@ != "PostToolUseFailure"@,
        "ElicitationResult"@ != "PermissionDenied"@,
        "ElicitationResult"@ != "PermissionRequest"@,
        "ElicitationResult"@ != "Notification"@,
        "ElicitationResult"@ != "Stop"@,
        "ElicitationResult"@ != "StopFailure"@,
        "ElicitationResult"@ != "SessionEnd"@,
        "ElicitationResult"@ != "Interrupt"@,
        "PostToolUse"@ != "PostToolUseFailure"@,
        "PostToolUse"@ != "PermissionDenied"@,
        "PostToolUse"@ != "PermissionRequest"@,
        "PostToolUse"@ != "Notification"@,
        "PostToolUse"@ != "Stop"@,
        "PostToolUse"@ != "StopFailure"@,
        "PostToolUse"@ != "SessionEnd"@,
        "PostToolUse"@ != "Interrupt"@,
        "PostToolUseFailure"@ != "PermissionDenied"@,
        "PostToolUseFailure"@ != "PermissionRequest"@,
        "PostToolUseFailure"@ != "Notification"@,
        "PostToolUseFailure"@ != "Stop"@,
        "PostToolUseFailure"@ != "StopFailure"@,
        "PostToolUseFailure"@ != "SessionEnd"@,
        "PostToolUseFailure"@ != "Interrupt"@,
        "PermissionDenied"@ != "PermissionRequest"@,
        "PermissionDenied"@ != "Notification"@,
        "PermissionDenied"@ != "Stop"@,
        "PermissionDenied"@ != "StopFailure"@,
        "PermissionDenied"@ != "SessionEnd"@,
        "PermissionDenied"@ != "Interrupt"@,
        "PermissionRequest"@ != "Notification"@,
        "PermissionRequest"@ != "Stop"@,
        "PermissionRequest"@ != "StopFailure"@,
        "PermissionRequest"@ != "SessionEnd"@,
        "PermissionRequest"@ != "Interrupt"@,
        "Notification"@ != "Stop"@,
        "Notification"@ != "StopFailure"@,
        "Notification"@ != "SessionEnd"@,
        "Notification"@ != "Interrupt"@,
        "Stop"@ != "StopFailure"@,
        "Stop"@ != "SessionEnd"@,
        "Stop"@ != "Interrupt"@,
        "StopFailure"@ != "SessionEnd"@,
        "StopFailure"@ != "Interrupt"@,
        "SessionEnd"@ != "Interrupt"@,
{
    reveal_strlit("SessionStart");
    assert("SessionStart"@.len() == 12);
    reveal_strlit("UserPromptSubmit");
    assert("UserPromptSubmit"@.len() == 16);
    reveal_strlit("PreToolUse");
    assert("PreToolUse"@.len() == 10);
    reveal_strlit("Elicitation");
    assert("Elicitation"@.len() == 11);
    reveal_strlit("ElicitationResult");
    assert("ElicitationResult"@.len() == 17);
    reveal_strlit("PostToolUse");
    assert("PostToolUse"@.len() == 11);
    reveal_strlit("PostToolUseFailure");
    assert("PostToolUseFailure"@.len() == 18);
    reveal_strlit("PermissionDenied");
    assert("PermissionDenied"@.len() == 16);
    reveal_strlit("PermissionRequest");
    assert("PermissionRequest"@.len() == 17);
    reveal_strlit("Notification");
    assert("Notification"@.len() == 12);
    reveal_strlit("Stop");
    assert("Stop"@.len() == 4);
    reveal_strlit("StopFailure");
    assert("StopFailure"@.len() == 11);
    reveal_strlit("SessionEnd");
    assert("SessionEnd"@.len() == 10);
    reveal_strlit("Interrupt");
    assert("Interrupt"@.len() == 9);
    assert("SessionStart"@[0] != "Notification"@[0]);
    assert("UserPromptSubmit"@[0] != "PermissionDenied"@[0]);
    assert("PreToolUse"@[0] != "SessionEnd"@[0]);
    assert("Elicitation"@[0] != "PostToolUse"@[0]);
    assert("Elicitation"@[0] != "StopFailure"@[0]);
    assert("ElicitationResult"@[0] != "PermissionRequest"@[0]);
    assert("PostToolUse"@[0] != "StopFailure"@[0]);
}

/// The keys of an event are read in both spellings: its name, the conversation, the tool use, the tool.
pub proof fn lemma_both_spellings(v: JsonView, s: Seq<char>)
    ensures
        event_of(v) == Some(s) <==> is_event(v, s),
        session_of(v) == Some(s) <==> written(v, "session_id"@, "sessionId"@, s),
        tool_of(v) == Some(s) <==> written(v, "tool_name"@, "toolName"@, s),
        written(v, "tool_use_id"@, "toolUseId"@, s) ==> tool_use_of(v) == Some(s),
        (forall|t: Seq<char>| !#[trigger] written(v, "tool_use_id"@, "toolUseId"@, t)) ==> (tool_use_of(v)
            == Some(s) <==> json::stands(v, "call_id"@, JsonView::Str(s))),
        json::stands(v, "cwd"@, JsonView::Str(s)) <==> cwd_of(v) == Some(s),
{
    lemma_written(v, "hook_event_name"@, "hookEventName"@, s);
    lemma_written(v, "session_id"@, "sessionId"@, s);
    lemma_written(v, "tool_name"@, "toolName"@, s);
    lemma_written(v, "tool_use_id"@, "toolUseId"@, s);
    json::lemma_member_read(v, "call_id"@);
    json::lemma_member_read(v, "cwd"@);
    if str2(v, "tool_use_id"@, "toolUseId"@) is Some {
        let t = str2(v, "tool_use_id"@, "toolUseId"@)->0;
        lemma_written(v, "tool_use_id"@, "toolUseId"@, t);
    }
}

/// The value that a path of two names leads to.
pub open spec fn at_path(v: JsonView, a: Seq<char>, b: Seq<char>, x: JsonView) -> bool {
    exists|o: JsonView| #[trigger] json::stands(v, a, o) && json::stands(o, b, x)
}

/// The behaviour that an answer tells the agent.
pub open spec fn tells(v: JsonView, behavior: Seq<char>) -> bool {
    exists|d: JsonView| #[trigger]
        at_path(v, "hookSpecificOutput"@, "decision"@, d) && json::stands(
            d,
            "behavior"@,
            JsonView::Str(behavior),
        )
}

/// An approval tells the agent to go on and nothing else does; a refusal tells it not to and nothing else
/// does. A refusal carries its message, where it has one, and an answer is given to the event that asked.
pub proof fn lemma_answers_are_told_apart(a: Answer)
    ensures
        a is Allow <==> (answer_text(a) is Some && tells(answer_json(a), "allow"@)),
        a is Deny <==> tells(answer_json(a), "deny"@),
        !(tells(answer_json(a), "allow"@) && tells(answer_json(a), "deny"@)),
        answer_text(a) is None <==> a is Unanswered,
        at_path(
            answer_json(a),
            "hookSpecificOutput"@,
            "hookEventName"@,
            JsonView::Str("PermissionRequest"@),
        ),
        forall|m: Seq<char>|
            (exists|d: JsonView| #[trigger]
                at_path(answer_json(a), "hookSpecificOutput"@, "decision"@, d) && json::stands(
                    d,
                    "message"@,
                    JsonView::Str(m),
                )) <==> a == #[trigger] refusal_with(m),
        answer_text(a) is Some ==> answer_text(a) == Some(compact_text(normal(answer_json(a)))),
{
    reveal_strlit("allow");
    reveal_strlit("deny");
    reveal_strlit("behavior");
    reveal_strlit("message");
    reveal_strlit("decision");
    reveal_strlit("hookEventName");
    let v = answer_json(a);
    let o = v->Object_0[0].1;
    let d = o->Object_0[0].1;
    json::lemma_member_read(v, "hookSpecificOutput"@);
    json::lemma_member_read(o, "decision"@);
    json::lemma_member_read(o, "hookEventName"@);
    json::lemma_member_read(d, "behavior"@);
    json::lemma_member_read(d, "message"@);
    assert("behavior"@.len() != "message"@.len());
    assert("decision"@.len() != "hookEventName"@.len());
    assert("allow"@.len() != "deny"@.len());
    assert(json::find(o->Object_0, "hookEventName"@, 0) == Some(1int)) by {
        reveal_with_fuel(json::find, 3);
    }
    assert(json::member(v, "hookSpecificOutput"@) == Some(o));
    assert(json::member(o, "decision"@) == Some(d));
    assert(json::stands(v, "hookSpecificOutput"@, o));
    assert(json::stands(o, "decision"@, d));
    assert(at_path(v, "hookSpecificOutput"@, "decision"@, d));
    assert forall|x: JsonView| #[trigger] at_path(v, "hookSpecificOutput"@, "decision"@, x) implies x == d by {
        let y = choose|y: JsonView| #[trigger] json::stands(v, "hookSpecificOutput"@, y) && json::stands(y, "decision"@, x);
        assert(y == o);
    }
    assert(json::find(d->Object_0, "message"@, 0) == (if d->Object_0.len() == 2 {
        Some(1int)
    } else {
        None
    })) by {
        reveal_with_fuel(json::find, 3);
    }
    assert(json::stands(d, "behavior"@, d->Object_0[0].1));
    assert forall|m: Seq<char>|
        (exists|x: JsonView| #[trigger]
            at_path(v, "hookSpecificOutput"@, "decision"@, x) && json::stands(
                x,
                "message"@,
                JsonView::Str(m),
            )) <==> a == #[trigger] refusal_with(m) by {
        assert(json::stands(d, "message"@, JsonView::Str(m)) <==> json::member_str(d, "message"@)
            == Some(m));
    }
    assert(json::stands(o, "hookEventName"@, JsonView::Str("PermissionRequest"@)));
}

/// A refusal with a message.
pub open spec fn refusal_with(m: Seq<char>) -> Answer {
    Answer::Deny { message: Some(m) }
}

/// A request for permission is held, and nothing else is; what it is held under is the tool use that it
/// names, or else the tool. The end of that tool use, told in either way, releases it.
pub proof fn lemma_held_until_its_tool_use_ends(v: JsonView, end: JsonView, id: Seq<char>, tool: Seq<char>)
    ensures
        held_key(true, v) is Some <==> is_event(v, "PermissionRequest"@),
        held_key(false, v) is None,
        is_event(v, "PermissionRequest"@) && written(v, "tool_use_id"@, "toolUseId"@, id) ==> held_key(
            true,
            v,
        ) == Some(id),
        is_event(v, "PermissionRequest"@) && tool_use_of(v) is None && written(
            v,
            "tool_name"@,
            "toolName"@,
            tool,
        ) ==> held_key(true, v) == Some(tool),
        (is_event(end, "PostToolUse"@) || is_event(end, "PostToolUseFailure"@) || is_event(
            end,
            "PermissionDenied"@,
        )) && (written(end, "tool_use_id"@, "toolUseId"@, id) || written(
            end,
            "tool_name"@,
            "toolName"@,
            id,
        )) ==> (freed_by(end) matches Released::ToolUse(keys) && keys.contains(id)),
        freed_by(end) matches Released::ToolUse(keys) ==> forall|k: Seq<char>|
            #[trigger] keys.contains(k) ==> tool_use_of(end) == Some(k) || tool_of(end) == Some(k),
        is_event(end, "Stop"@) || is_event(end, "SessionEnd"@) <==> freed_by(end) is Session,
        is_event(end, "PreToolUse"@) || is_event(end, "PermissionRequest"@) || is_event(
            end,
            "UserPromptSubmit"@,
        ) ==> freed_by(end) is Nothing,
{
    lemma_event_names();
    lemma_both_spellings(v, "PermissionRequest"@);
    lemma_both_spellings(v, id);
    lemma_both_spellings(v, tool);
    lemma_both_spellings(end, id);
    lemma_both_spellings(end, "PostToolUse"@);
    lemma_both_spellings(end, "PostToolUseFailure"@);
    lemma_both_spellings(end, "PermissionDenied"@);
    lemma_both_spellings(end, "Stop"@);
    lemma_both_spellings(end, "SessionEnd"@);
    lemma_both_spellings(end, "PreToolUse"@);
    lemma_both_spellings(end, "PermissionRequest"@);
    lemma_both_spellings(end, "UserPromptSubmit"@);
    let keys = freed_keys(end);
    if tool_use_of(end) == Some(id) {
        assert(keys[0] == id);
    }
    if tool_of(end) == Some(id) {
        assert(keys.last() == id);
    }
    assert forall|k: Seq<char>| #[trigger] keys.contains(k) implies tool_use_of(end) == Some(k) || tool_of(
        end,
    ) == Some(k) by {
        let j = keys.index_of(k);
        assert(keys[j] == k);
    }
}

/// A prompt that was typed is told as it was; one that begins with a tag of the host is told as put in.
pub proof fn lemma_typed_prompts_are_told(prompt: Seq<char>)
    ensures
        prompt_happening(prompt) is PromptInjected || prompt_happening(prompt)
            == Happening::PromptSubmitted(prompt),
        prompt_happening(prompt) is PromptInjected ==> text::trimmed(prompt).len() > 0 && text::trimmed(
            prompt,
        )[0] == '<',
        text::trimmed(prompt) == "<system-reminder>"@ || text::trimmed(prompt)
            == "<task-notification>"@ || text::trimmed(prompt) == "<command-name>"@
            ==> prompt_happening(prompt) is PromptInjected,
{
    reveal_strlit("<task-notification>");
    reveal_strlit("<system-reminder>");
    reveal_strlit("<command-name>");
    let t = text::trimmed(prompt);
    assert(t.take(t.len() as int) =~= t);
    if begins(t, "<task-notification>"@) {
        assert(t[0] == "<task-notification>"@[0]);
    }
    if begins(t, "<system-reminder>"@) {
        assert(t[0] == "<system-reminder>"@[0]);
    }
    if begins(t, "<command-name>"@) {
        assert(t[0] == "<command-name>"@[0]);
    }
}

/// A text is told by its first line with something on it, without the white space round it, and no longer
/// than allowed: where something was left out the line ends with an ellipsis.
pub proof fn lemma_how_a_text_is_told(s: Seq<char>, max: int)
    requires
        0 <= max,
        !s.contains('\n'),
    ensures
        text::trimmed(s).len() == 0 ==> first_line(s, max).len() == 0,
        0 < text::trimmed(s).len() <= max ==> first_line(s, max) == text::trimmed(s),
        text::trimmed(s).len() > max ==> first_line(s, max) == text::trimmed(s).take(max).push('…'),
        first_line(s, max).len() <= max + 1,
{
    text::lemma_split_whole(s, '\n');
    let one = seq![s];
    assert(text::split(s, '\n') =~= one);
    assert(one.last() == s && one.drop_last() =~= Seq::<Seq<char>>::empty());
    let none = Seq::<Seq<char>>::empty();
    assert(filled_lines(none) =~= none);
    if s.len() == 0 {
        assert(lines(s) =~= none);
        assert(s =~= Seq::<char>::empty());
        assert(text::trimmed(s).len() == 0) by {
            text::lemma_trimmed(s);
        }
    } else {
        assert(lines(s) =~= one);
        assert(one.drop_last() =~= none);
        if text::trimmed(s).len() > 0 {
            assert(filled_lines(one) =~= seq![text::trimmed(s)]);
        } else {
            assert(filled_lines(one) =~= none);
        }
    }
}

/// What is asked for is told by the name of the tool and what it is to work on.
pub proof fn lemma_how_a_request_is_told(v: JsonView, tool: Seq<char>, input: JsonView, work: Seq<char>)
    requires
        written(v, "tool_name"@, "toolName"@, tool),
        json::stands(v, "tool_input"@, input),
        input is Object,
        json::lacks(input, "questions"@),
        json::stands(input, "command"@, JsonView::Str(work)) || (json::lacks(input, "command"@)
            && json::stands(input, "file_path"@, JsonView::Str(work))),
        !work.contains('\n'),
        0 < text::trimmed(work).len() <= 200,
    ensures
        summary_of(v) == tool + ": "@ + text::trimmed(work),
{
    lemma_both_spellings(v, tool);
    json::lemma_member_read(v, "tool_input"@);
    json::lemma_member_read(input, "questions"@);
    json::lemma_member_read(input, "command"@);
    json::lemma_member_read(input, "file_path"@);
    lemma_how_a_text_is_told(work, 200);
    let k = primary_keys();
    assert(k[0] == "command"@ && k[1] == "file_path"@);
    reveal_with_fuel(first_str, 3);
    assert(input_of(v) == Some(input));
    assert(primary(input) == Some(work));
}

/// A request that names neither its use of a tool nor the tool is held under the name of its event, and told
/// as one of a tool.
pub proof fn lemma_requests_without_names(v: JsonView)
    requires
        is_event(v, "PermissionRequest"@),
        tool_use_of(v) is None,
        tool_of(v) is None,
    ensures
        held_key(true, v) == Some("PermissionRequest"@),
        json::lacks(v, "tool_input"@) && json::lacks(v, "toolInput"@) ==> summary_of(v) == "tool"@,
{
    lemma_both_spellings(v, "PermissionRequest"@);
    json::lemma_member_read(v, "tool_input"@);
    json::lemma_member_read(v, "toolInput"@);
}

/// What a tool is to work on is told wherever it alone is written, under any of the names for it.
pub proof fn lemma_names_for_what_is_worked_on(input: JsonView, k: Seq<char>, work: Seq<char>)
    requires
        input == JsonView::Object(seq![(k, JsonView::Str(work))]),
        k == "command"@ || k == "file_path"@ || k == "path"@ || k == "url"@ || k == "pattern"@ || k
            == "prompt"@ || k == "query"@ || k == "description"@ || k == "patch"@ || k == "notebook_path"@,
    ensures
        primary(input) == Some(work),
{
    lemma_question_is_no_name();
    let m = seq![(k, JsonView::Str(work))];
    assert(m[0].0 == k);
    reveal_with_fuel(json::find, 2);
    let ks = primary_keys();
    assert(ks.len() == 10);
    assert(ks[0] == "command"@ && ks[1] == "file_path"@ && ks[2] == "notebook_path"@ && ks[3] == "path"@
        && ks[4] == "url"@ && ks[5] == "pattern"@ && ks[6] == "patch"@ && ks[7] == "prompt"@ && ks[8]
        == "query"@ && ks[9] == "description"@);
    let i = choose|i: int| 0 <= i < ks.len() && #[trigger] ks[i] == k;
    assert(member_str(input, k) == Some(work));
    assert(member(input, "questions"@) is None);
    lemma_first_str_there(input, ks, 0, i, work, k);
}

proof fn lemma_first_str_there(
    v: JsonView,
    keys: Seq<Seq<char>>,
    i: int,
    at: int,
    work: Seq<char>,
    k: Seq<char>,
)
    requires
        v == JsonView::Object(seq![(k, JsonView::Str(work))]),
        0 <= i <= at < keys.len(),
        keys[at] == k,
    ensures
        first_str(v, keys, i) == Some(work),
    decreases at - i,
{
    let m = seq![(k, JsonView::Str(work))];
    assert(m[0].0 == k);
    reveal_with_fuel(json::find, 2);
    if keys[i] != k {
        lemma_first_str_there(v, keys, i + 1, at, work, k);
    }
}

proof fn lemma_question_is_no_name()
    ensures
        forall|i: int| 0 <= i < primary_keys().len() ==> #[trigger] primary_keys()[i] != "questions"@,
{
    reveal_strlit("questions");
    assert("questions"@.len() == 9 && "questions"@[0] == 'q');
    reveal_strlit("command");
    assert("command"@.len() == 7 && "command"@[0] == 'c');
    reveal_strlit("file_path");
    assert("file_path"@.len() == 9 && "file_path"@[0] == 'f');
    reveal_strlit("notebook_path");
    assert("notebook_path"@.len() == 13 && "notebook_path"@[0] == 'n');
    reveal_strlit("path");
    assert("path"@.len() == 4 && "path"@[0] == 'p');
    reveal_strlit("url");
    assert("url"@.len() == 3 && "url"@[0] == 'u');
    reveal_strlit("pattern");
    assert("pattern"@.len() == 7 && "pattern"@[0] == 'p');
    reveal_strlit("patch");
    assert("patch"@.len() == 5 && "patch"@[0] == 'p');
    reveal_strlit("prompt");
    assert("prompt"@.len() == 6 && "prompt"@[0] == 'p');
    reveal_strlit("query");
    assert("query"@.len() == 5 && "query"@[0] == 'q');
    reveal_strlit("description");
    assert("description"@.len() == 11 && "description"@[0] == 'd');
}

} // verus!
