//! Requests about sessions.

use crate::adapter::claude::Claude;
use crate::adapter::hooks::{first_line, first_line_capped, Answer, Decision};
use crate::adapter::registry::{find, named};
use crate::adapter::resume::{Restart, RestartPlan};
use crate::adapter::AgentIdentity;
use crate::api::forward::Route;
use crate::api::{ApiError, Refusal};
use crate::auth::{Principal, Who};
use crate::events::{export, exported, global, global_id, Event, News, SessionView};
use crate::hook::receiver::{NoAnswer, RespondError};
use crate::json::{self, Json, JsonView};
use crate::runtime::Size;
use crate::status::Status;
use crate::text::{self, opt_str, opt_text};
use vstd::prelude::*;

verus! {

/// What a request for a session of another node is answered.
pub open spec fn foreign(local: Seq<char>, node: Seq<char>) -> Refusal {
    Refusal {
        status: 404,
        kind: "node_unknown"@,
        message: "会话属于节点 "@ + node + "，本节点是 "@ + local
            + "：既不是本机也不是可读的 peer 视图"@,
    }
}

/// The id on this node of the session `gid`. An id without a node is one of this node.
pub open spec fn id_here(local: Seq<char>, gid: Seq<char>) -> Result<Seq<char>, Refusal> {
    match text::parted(gid, ':') {
        Some((node, id)) => if node == local {
            Ok(id)
        } else {
            Err(foreign(local, node))
        },
        None => Ok(gid),
    }
}

/// The id on this node of the session `gid`.
pub fn local_id(local: &str, gid: &str) -> (r: Result<String, ApiError>)
    ensures
        match r {
            Ok(id) => id_here(local@, gid@) == Ok::<Seq<char>, Refusal>(id@),
            Err(e) => id_here(local@, gid@) == Err::<Seq<char>, Refusal>(e@),
        },
{
    match text::split_once(gid, ':') {
        Some((node, id)) => if text::same(node.as_str(), local) {
            Ok(id)
        } else {
            let mut m = text::cat3("会话属于节点 ", node.as_str(), "，本节点是 ");
            text::push_str(&mut m, local);
            text::push_str(&mut m, "：既不是本机也不是可读的 peer 视图");
            Err(ApiError { status: 404, kind: "node_unknown", message: m })
        },
        None => Ok(gid.to_owned()),
    }
}

/// The sessions that are listed: a human sees those of this node and of all others, another node those of
/// this one only.
pub open spec fn listed(who: Who, here: Seq<JsonView>, elsewhere: Seq<JsonView>) -> Seq<JsonView> {
    match who {
        Who::Human { .. } => here + elsewhere,
        Who::Peer { .. } => here,
    }
}

/// The answer to the question what sessions there are.
pub fn list_body(
    principal: &Principal,
    here: Vec<Json>,
    elsewhere: Vec<Json>,
    unregistered: Vec<Json>,
) -> (r: Json)
    ensures
        r@ == JsonView::Object(
            seq![
                (
                    "sessions"@,
                    JsonView::Array(
                        listed(principal@, json::views(here@), json::views(elsewhere@)),
                    ),
                ),
                ("unregistered"@, JsonView::Array(json::views(unregistered@))),
            ],
        ),
{
    let ghost a = json::views(here@);
    let ghost b = json::views(elsewhere@);
    proof {
        json::lemma_views(here@);
        json::lemma_views(elsewhere@);
    }
    let mut sessions = here;
    match principal {
        Principal::Human { .. } => {
            let mut more = elsewhere;
            sessions.append(&mut more);
        },
        Principal::Peer { .. } => {},
    }
    proof {
        json::lemma_views(sessions@);
        assert(json::views(sessions@) =~= listed(principal@, a, b));
    }
    json::object2("sessions", Json::Array(sessions), "unregistered", Json::Array(unregistered))
}

/// A session in the runtime that is not entered here.
#[derive(Debug, PartialEq, Eq)]
pub struct Unregistered {
    pub runtime_ref: String,
    pub name: String,
    pub title: String,
    pub alive: bool,
    pub managed: bool,
    pub working_directory: String,
    /// The agent that it seems to be.
    pub agent_hint: Option<String>,
}

/// A text, or nothing.
pub open spec fn text_or_null(o: Option<Seq<char>>) -> JsonView {
    match o {
        Some(s) => JsonView::Str(s),
        None => JsonView::Null,
    }
}

fn opt_json(o: &Option<String>) -> (r: Json)
    ensures
        r@ == text_or_null(opt_text(*o)),
{
    match o {
        Some(s) => Json::Str(s.clone()),
        None => Json::Null,
    }
}

/// How a session that is not entered here is listed.
pub fn unregistered_row(node: &str, u: &Unregistered) -> (r: Json)
    ensures
        r@ == JsonView::Object(
            seq![
                ("agent_hint"@, text_or_null(opt_text(u.agent_hint))),
                ("alive"@, JsonView::Bool(u.alive)),
                ("managed"@, JsonView::Bool(u.managed)),
                ("name"@, JsonView::Str(u.name@)),
                ("node"@, JsonView::Str(node@)),
                ("runtime_ref"@, JsonView::Str(u.runtime_ref@)),
                ("title"@, JsonView::Str(u.title@)),
                ("working_directory"@, JsonView::Str(u.working_directory@)),
            ],
        ),
{
    let r = json::with(json::empty(), "agent_hint", opt_json(&u.agent_hint));
    let r = json::with(r, "alive", Json::Bool(u.alive));
    let r = json::with(r, "managed", Json::Bool(u.managed));
    let r = json::with(r, "name", Json::Str(u.name.clone()));
    let r = json::with(r, "node", Json::Str(node.to_owned()));
    let r = json::with(r, "runtime_ref", Json::Str(u.runtime_ref.clone()));
    let r = json::with(r, "title", Json::Str(u.title.clone()));
    let r = json::with(r, "working_directory", Json::Str(u.working_directory.clone()));
    proof {
        assert(r@->Object_0 =~= seq![
            ("agent_hint"@, text_or_null(opt_text(u.agent_hint))),
            ("alive"@, JsonView::Bool(u.alive)),
            ("managed"@, JsonView::Bool(u.managed)),
            ("name"@, JsonView::Str(u.name@)),
            ("node"@, JsonView::Str(node@)),
            ("runtime_ref"@, JsonView::Str(u.runtime_ref@)),
            ("title"@, JsonView::Str(u.title@)),
            ("working_directory"@, JsonView::Str(u.working_directory@)),
        ]);
    }
    r
}

/// Where a session that is asked for is looked up.
#[derive(Debug, PartialEq, Eq)]
pub enum Lookup {
    /// In what is known of other nodes; `retry` says that the connection is to be tried now.
    View { retry: bool },
    /// Here, under this id.
    Here(String),
}

/// The model of a [`Lookup`].
pub enum Place {
    View { retry: bool },
    Here(Seq<char>),
}

impl View for Lookup {
    type V = Place;

    open spec fn view(&self) -> Place {
        match self {
            Lookup::View { retry } => Place::View { retry: *retry },
            Lookup::Here(id) => Place::Here(id@),
        }
    }
}

/// Where the session `gid` is looked up. `route` is what the node in `gid` is to this one, `stale` whether
/// what is known of it is old.
pub open spec fn place_of(
    local: Seq<char>,
    gid: Seq<char>,
    route: Route,
    stale: bool,
    who: Who,
) -> Result<Place, Refusal> {
    if text::parted(gid, ':') is Some && route == Route::Peer && who is Human {
        Ok(Place::View { retry: stale })
    } else {
        match id_here(local, gid) {
            Ok(id) => Ok(Place::Here(id)),
            Err(e) => Err(e),
        }
    }
}

/// Where the session `gid` is looked up.
pub fn lookup(local: &str, gid: &str, route: Route, stale: bool, principal: &Principal) -> (r: Result<
    Lookup,
    ApiError,
>)
    ensures
        match r {
            Ok(l) => place_of(local@, gid@, route, stale, principal@) == Ok::<Place, Refusal>(l@),
            Err(e) => place_of(local@, gid@, route, stale, principal@) == Err::<Place, Refusal>(e@),
        },
{
    let human = match principal {
        Principal::Human { .. } => true,
        Principal::Peer { .. } => false,
    };
    if text::split_once(gid, ':').is_some() && route == Route::Peer && human {
        return Ok(Lookup::View { retry: stale });
    }
    match local_id(local, gid) {
        Ok(id) => Ok(Lookup::Here(id)),
        Err(e) => Err(e),
    }
}

/// What a request for a session is answered that another node does not have.
pub fn not_in_view(node: &str, gid: &str) -> (r: ApiError)
    ensures
        r@ == (Refusal {
            status: 404,
            kind: "not_found"@,
            message: "peer "@ + node@ + " 的视图里没有会话 "@ + gid@,
        }),
{
    let mut message = text::cat3("peer ", node, " 的视图里没有会话 ");
    text::push_str(&mut message, gid);
    ApiError { status: 404, kind: "not_found", message }
}

/// A request that does not say what it must.
pub fn bad_request(message: &str) -> (r: ApiError)
    ensures
        r@ == (Refusal { status: 400, kind: "bad_request"@, message: message@ }),
{
    ApiError { status: 400, kind: "bad_request", message: message.to_owned() }
}

/// A request for a new session.
#[derive(Debug, PartialEq, Eq)]
pub struct CreateBody {
    pub display_name: String,
    pub agent_type: String,
    pub working_directory: String,
    pub worktree: Option<String>,
    pub task_ref: Option<String>,
    pub command: Option<String>,
    pub cols: Option<u16>,
    pub rows: Option<u16>,
}

/// A session to be started.
#[derive(Debug, PartialEq, Eq)]
pub struct NewSession {
    pub display_name: String,
    pub agent_type: String,
    pub working_directory: String,
    pub worktree: Option<String>,
    pub task_ref: Option<String>,
    pub command: String,
    pub size: Size,
}

/// The command that starts an agent: the one that is asked for, else the one that is configured for it,
/// else its own, else its name.
pub open spec fn command_of(
    claude: Claude,
    asked: Option<Seq<char>>,
    configured: Option<Seq<char>>,
    agent_type: Seq<char>,
) -> Seq<char> {
    if asked is Some && text::trimmed(asked->0).len() > 0 {
        asked->0
    } else if configured is Some {
        configured->0
    } else {
        match named(claude, agent_type, 0) {
            Some(a) => a.command_text(),
            None => agent_type,
        }
    }
}

/// The command that starts an agent.
pub fn default_command(
    claude: Claude,
    asked: Option<&str>,
    configured: Option<&str>,
    agent_type: &str,
) -> (out: String)
    ensures
        out@ == command_of(claude, opt_str(asked), opt_str(configured), agent_type@),
{
    match asked {
        Some(c) => {
            if !text::is_empty(text::trim(c).as_str()) {
                return c.to_owned();
            }
        },
        None => {},
    }
    match configured {
        Some(c) => c.to_owned(),
        None => match find(claude, agent_type) {
            Some(a) => a.default_command().to_owned(),
            None => agent_type.to_owned(),
        },
    }
}

/// The size that is asked for, or the usual one.
pub open spec fn size_of(cols: Option<u16>, rows: Option<u16>) -> Size {
    match (cols, rows) {
        (Some(cols), Some(rows)) => Size { cols, rows },
        _ => Size { cols: 160, rows: 48 },
    }
}

/// The session to be started for a request; `configured` is the command that is configured for the agent.
pub fn new_session(claude: Claude, body: CreateBody, configured: Option<&str>) -> (r: Result<
    NewSession,
    ApiError,
>)
    ensures
        match r {
            Ok(n) => {
                &&& text::trimmed(body.display_name@).len() > 0
                &&& text::trimmed(body.agent_type@).len() > 0
                &&& n.display_name == body.display_name
                &&& n.agent_type == body.agent_type
                &&& n.working_directory == body.working_directory
                &&& n.worktree == body.worktree
                &&& n.task_ref == body.task_ref
                &&& n.command@ == command_of(
                    claude,
                    opt_text(body.command),
                    opt_str(configured),
                    body.agent_type@,
                )
                &&& n.size == size_of(body.cols, body.rows)
            },
            Err(e) => (text::trimmed(body.display_name@).len() == 0 || text::trimmed(
                body.agent_type@,
            ).len() == 0) && e@ == (Refusal {
                status: 400,
                kind: "bad_request"@,
                message: "display_name 与 agent_type 不能为空"@,
            }),
        },
{
    if text::is_empty(text::trim(body.display_name.as_str()).as_str()) || text::is_empty(
        text::trim(body.agent_type.as_str()).as_str(),
    ) {
        return Err(bad_request("display_name 与 agent_type 不能为空"));
    }
    let command = default_command(
        claude,
        text::borrow_opt(&body.command),
        configured,
        body.agent_type.as_str(),
    );
    let size = match (body.cols, body.rows) {
        (Some(cols), Some(rows)) => Size { cols, rows },
        _ => Size::default(),
    };
    Ok(
        NewSession {
            display_name: body.display_name,
            agent_type: body.agent_type,
            working_directory: body.working_directory,
            worktree: body.worktree,
            task_ref: body.task_ref,
            command,
            size,
        },
    )
}

/// A session to be started, with the command and the conversation that were fixed for it, if they were;
/// and that conversation.
pub fn with_pin(new: NewSession, pin: Option<(String, String)>) -> (r: (NewSession, Option<String>))
    ensures
        match pin {
            Some((command, id)) => r.0 == (NewSession { command, ..new }) && r.1 == Some(id),
            None => r.0 == new && r.1 is None,
        },
{
    match pin {
        Some((command, id)) => (
            NewSession {
                display_name: new.display_name,
                agent_type: new.agent_type,
                working_directory: new.working_directory,
                worktree: new.worktree,
                task_ref: new.task_ref,
                command,
                size: new.size,
            },
            Some(id),
        ),
        None => (new, None),
    }
}

/// A request to take over what runs under a name of the runtime.
#[derive(Debug, PartialEq, Eq)]
pub struct AdoptBody {
    pub runtime_ref: String,
    pub display_name: Option<String>,
    pub agent_type: Option<String>,
    /// The directory that the session works in.
    pub project: Option<String>,
}

/// What is to be taken over.
#[derive(Debug, PartialEq, Eq)]
pub struct AdoptSession {
    pub runtime_ref: String,
    pub display_name: Option<String>,
    pub agent_type: Option<String>,
    pub working_directory: Option<String>,
}

/// What a request asks to take over.
pub fn adoption(body: AdoptBody) -> (r: AdoptSession)
    ensures
        r == (AdoptSession {
            runtime_ref: body.runtime_ref,
            display_name: body.display_name,
            agent_type: body.agent_type,
            working_directory: body.project,
        }),
{
    AdoptSession {
        runtime_ref: body.runtime_ref,
        display_name: body.display_name,
        agent_type: body.agent_type,
        working_directory: body.project,
    }
}

/// What a session that was started or taken over is answered and told as.
pub fn announce_created(node: &str, view: &SessionView) -> (r: (Json, Event))
    ensures
        r.0@ == exported(node@, view@),
        r.1@ == (News::SessionCreated {
            id: global(node@, view@.id),
            session: exported(node@, view@),
        }),
{
    (
        export(node, view),
        Event::SessionCreated {
            id: global_id(node, view.id.as_str()),
            session: export(node, view),
        },
    )
}

/// What a session that was given another name is answered and told as.
pub fn announce_renamed(node: &str, view: &SessionView) -> (r: (Json, Event))
    ensures
        r.0@ == exported(node@, view@),
        r.1@ == (News::SessionUpdated {
            id: global(node@, view@.id),
            session: exported(node@, view@),
        }),
{
    (
        export(node, view),
        Event::SessionUpdated {
            id: global_id(node, view.id.as_str()),
            session: export(node, view),
        },
    )
}

/// A request to change a session.
#[derive(Debug, PartialEq, Eq)]
pub struct PatchBody {
    pub display_name: Option<String>,
}

/// The name that a session is to get.
pub fn new_name(body: &PatchBody) -> (r: Result<String, ApiError>)
    ensures
        match r {
            Ok(n) => body.display_name matches Some(s) && n@ == s@ && text::trimmed(s@).len() > 0,
            Err(e) => e@.status == 400 && e@.kind == "bad_request"@ && match body.display_name {
                None => e@.message == "没有可改的字段（display_name）"@,
                Some(s) => text::trimmed(s@).len() == 0 && e@.message == "display_name 不能为空"@,
            },
        },
{
    match &body.display_name {
        None => Err(bad_request("没有可改的字段（display_name）")),
        Some(s) => if text::is_empty(text::trim(s.as_str()).as_str()) {
            Err(bad_request("display_name 不能为空"))
        } else {
            Ok(s.clone())
        },
    }
}

/// A request that may say that the user agreed to it.
#[derive(Clone, Copy, Debug, PartialEq, Eq, Structural)]
pub struct ConfirmBody {
    pub confirmed: bool,
}

impl Default for ConfirmBody {
    fn default() -> (r: Self)
        ensures
            !r.confirmed,
    {
        ConfirmBody { confirmed: false }
    }
}

/// Whether a request says that the user agreed to it; one without a body does not.
pub fn confirmed(body: Option<&ConfirmBody>) -> (r: bool)
    ensures
        r == (body matches Some(b) && b.confirmed),
{
    match body {
        Some(b) => b.confirmed,
        None => false,
    }
}

/// The word for a state.
pub open spec fn status_text(s: Status) -> Seq<char> {
    match s {
        Status::Starting => "Starting"@,
        Status::Running => "Running"@,
        Status::Waiting => "Waiting"@,
        Status::TurnDone => "TurnDone"@,
        Status::Idle => "Idle"@,
        Status::Finished => "Finished"@,
        Status::Failed => "Failed"@,
        Status::Unknown => "Unknown"@,
    }
}

/// The word for a state.
pub fn status_word(s: Status) -> (r: &'static str)
    ensures
        r@ == status_text(s),
{
    match s {
        Status::Starting => "Starting",
        Status::Running => "Running",
        Status::Waiting => "Waiting",
        Status::TurnDone => "TurnDone",
        Status::Idle => "Idle",
        Status::Finished => "Finished",
        Status::Failed => "Failed",
        Status::Unknown => "Unknown",
    }
}

/// Whether an action may go ahead: one that would kill a running agent must be confirmed.
pub fn require_confirmation(would_kill: bool, confirmed: bool, action: &'static str, status: Status) -> (r:
    Result<(), ApiError>)
    ensures
        match r {
            Ok(()) => !would_kill || confirmed,
            Err(e) => would_kill && !confirmed && e@ == (Refusal {
                status: 409,
                kind: "needs_confirmation"@,
                message: action@ + " 会杀掉正在运行的 agent（状态 "@ + status_text(status)
                    + "）；确认后带 confirmed: true 重发"@,
            }),
        },
{
    if would_kill && !confirmed {
        let mut message = text::cat3(action, " 会杀掉正在运行的 agent（状态 ", status_word(status));
        text::push_str(&mut message, "）；确认后带 confirmed: true 重发");
        return Err(ApiError { status: 409, kind: "needs_confirmation", message });
    }
    Ok(())
}

/// How many characters of a reason are told.
pub const RESTART_REASON_MAX: usize = 120;

/// How a restart is told: with the conversation that was taken up, or why none was.
pub open spec fn restart_view(plan: Restart) -> JsonView {
    match plan {
        Restart::Resume { agent_session_id, .. } => JsonView::Object(
            seq![
                ("agent_session_id"@, JsonView::Str(agent_session_id)),
                ("resumed"@, JsonView::Bool(true)),
            ],
        ),
        Restart::Original { reason, .. } => JsonView::Object(
            seq![
                ("reason"@, JsonView::Str(first_line(reason, RESTART_REASON_MAX as int))),
                ("resumed"@, JsonView::Bool(false)),
            ],
        ),
    }
}

/// The answer to a restart: the session as it is told, with how it was started anew.
pub fn restart_reply(row: Json, plan: &RestartPlan) -> (r: Json)
    requires
        row@ is Object || row@ is Null,
    ensures
        r@ == JsonView::Object(
            json::with_member(
                match row@ {
                    JsonView::Object(m) => m,
                    _ => Seq::empty(),
                },
                "restart"@,
                restart_view(plan@),
            ),
        ),
{
    let how = match plan {
        RestartPlan::Resume { agent_session_id, .. } => json::object2(
            "agent_session_id",
            Json::Str(agent_session_id.clone()),
            "resumed",
            Json::Bool(true),
        ),
        RestartPlan::Original { reason, .. } => json::object2(
            "reason",
            Json::Str(first_line_capped(reason.as_str(), RESTART_REASON_MAX)),
            "resumed",
            Json::Bool(false),
        ),
    };
    match row {
        Json::Object(mut m) => {
            json::set_member(&mut m, "restart".to_owned(), how);
            Json::Object(m)
        },
        other => {
            proof {
                json::lemma_kinds(other);
            }
            let mut m: Vec<(String, Json)> = Vec::new();
            proof {
                assert(json::member_views(m@) =~= Seq::empty());
            }
            json::set_member(&mut m, "restart".to_owned(), how);
            Json::Object(m)
        },
    }
}

/// What is given to a session.
#[derive(Debug, PartialEq, Eq)]
pub enum InputBody {
    /// An answer to what it asks. `request_id` names the question, or else `tool_use_id` what it is about.
    Decision {
        decision: DecisionKind,
        message: Option<String>,
        tool_use_id: Option<String>,
        request_id: Option<String>,
    },
    /// Text for its terminal.
    Text { data: String },
}

#[derive(Clone, Copy, Debug, PartialEq, Eq, Structural)]
pub enum DecisionKind {
    Allow,
    Deny,
}

/// What is done with what is given to a session.
#[derive(Debug, PartialEq, Eq)]
pub enum Input {
    /// The question with this id is answered.
    Request { request_id: String, decision: Decision },
    /// The question about this tool is answered, or the oldest one.
    Tool { tool_use_id: Option<String>, decision: Decision },
    /// This is typed.
    Type { data: String },
}

/// The model of an [`Input`].
pub enum Given {
    Request { request_id: Seq<char>, decision: Answer },
    Tool { tool_use_id: Option<Seq<char>>, decision: Answer },
    Type { data: Seq<char> },
}

impl View for Input {
    type V = Given;

    open spec fn view(&self) -> Given {
        match self {
            Input::Request { request_id, decision } => Given::Request {
                request_id: request_id@,
                decision: decision@,
            },
            Input::Tool { tool_use_id, decision } => Given::Tool {
                tool_use_id: opt_text(*tool_use_id),
                decision: decision@,
            },
            Input::Type { data } => Given::Type { data: data@ },
        }
    }
}

/// What is done with what is given to a session.
pub open spec fn given(body: InputBody) -> Given {
    match body {
        InputBody::Decision { decision, message, tool_use_id, request_id } => {
            let answer = match decision {
                DecisionKind::Allow => Answer::Allow,
                DecisionKind::Deny => Answer::Deny { message: opt_text(message) },
            };
            match request_id {
                Some(request_id) => Given::Request { request_id: request_id@, decision: answer },
                None => Given::Tool { tool_use_id: opt_text(tool_use_id), decision: answer },
            }
        },
        InputBody::Text { data } => Given::Type { data: data@ },
    }
}

/// What is done with what is given to a session.
pub fn input(body: InputBody) -> (r: Input)
    ensures
        r@ == given(body),
{
    match body {
        InputBody::Decision { decision, message, tool_use_id, request_id } => {
            let d = match decision {
                DecisionKind::Allow => Decision::Allow,
                DecisionKind::Deny => Decision::Deny { message },
            };
            match request_id {
                Some(request_id) => Input::Request { request_id, decision: d },
                None => Input::Tool { tool_use_id, decision: d },
            }
        },
        InputBody::Text { data } => Input::Type { data },
    }
}

/// What an answer is answered that was not taken.
pub open spec fn unanswered(id: Seq<char>, e: NoAnswer) -> Refusal {
    match e {
        NoAnswer::NoPendingDecision { .. } => Refusal {
            status: 409,
            kind: "no_pending_decision"@,
            message: "会话 "@ + id + " 没有挂起的决定；在终端回答，或等它再问一次"@,
        },
        NoAnswer::Checkpoint(message) => Refusal { status: 500, kind: "hook_state"@, message },
    }
}

/// What an answer to the session `id` is answered that was not taken.
pub fn respond_failed(id: &str, e: &RespondError) -> (r: ApiError)
    ensures
        r@ == unanswered(id@, e@),
{
    match e {
        RespondError::NoPendingDecision { .. } => ApiError {
            status: 409,
            kind: "no_pending_decision",
            message: text::cat3("会话 ", id, " 没有挂起的决定；在终端回答，或等它再问一次"),
        },
        RespondError::Checkpoint(message) => ApiError {
            status: 500,
            kind: "hook_state",
            message: message.clone(),
        },
    }
}

/// The answer to a decision that was taken: the request that it answered.
pub fn answered(key: &str) -> (r: Json)
    ensures
        r@ == JsonView::Object(seq![("tool_use_id"@, JsonView::Str(key@))]),
{
    json::object1("tool_use_id", Json::Str(key.to_owned()))
}

/// Why something could not be done with a session.
#[derive(Clone, Copy, Debug, PartialEq, Eq, Structural)]
pub enum SessionError {
    NotFound,
    StillAlive,
    NoRuntime,
    NoCommand,
    AlreadyRegistered,
    /// The runtime does not have it.
    RuntimeNotFound,
    /// The runtime says that it lives.
    RuntimeStillAlive,
    /// The runtime may only read it.
    RuntimeReadOnly,
    /// The runtime failed in another way.
    Runtime,
    HookState,
    Db,
}

/// The status and the kind of the answer to a request that could not be done.
pub open spec fn session_kind(e: SessionError) -> (int, Seq<char>) {
    match e {
        SessionError::NotFound => (404, "not_found"@),
        SessionError::StillAlive => (409, "still_alive"@),
        SessionError::NoRuntime => (409, "no_runtime"@),
        SessionError::NoCommand => (409, "no_command"@),
        SessionError::AlreadyRegistered => (409, "already_registered"@),
        SessionError::RuntimeNotFound => (404, "runtime_session_not_found"@),
        SessionError::RuntimeStillAlive => (409, "still_alive"@),
        SessionError::RuntimeReadOnly => (409, "read_only"@),
        SessionError::Runtime => (502, "runtime"@),
        SessionError::HookState => (500, "hook_state"@),
        SessionError::Db => (500, "database"@),
    }
}

/// The answer to a request that could not be done; `message` is the error in words.
pub fn session_failed(e: SessionError, message: &str) -> (r: ApiError)
    ensures
        r@.status == session_kind(e).0,
        r@.kind == session_kind(e).1,
        r@.message == message@,
{
    let (status, kind): (u16, &'static str) = match e {
        SessionError::NotFound => (404, "not_found"),
        SessionError::StillAlive => (409, "still_alive"),
        SessionError::NoRuntime => (409, "no_runtime"),
        SessionError::NoCommand => (409, "no_command"),
        SessionError::AlreadyRegistered => (409, "already_registered"),
        SessionError::RuntimeNotFound => (404, "runtime_session_not_found"),
        SessionError::RuntimeStillAlive => (409, "still_alive"),
        SessionError::RuntimeReadOnly => (409, "read_only"),
        SessionError::Runtime => (502, "runtime"),
        SessionError::HookState => (500, "hook_state"),
        SessionError::Db => (500, "database"),
    };
    ApiError { status, kind, message: message.to_owned() }
}

/// Another node is shown the sessions of this one only, and cannot ask for those of a third.
pub proof fn lemma_only_own_sessions_are_shown(
    name: Seq<char>,
    local: Seq<char>,
    gid: Seq<char>,
    route: Route,
    stale: bool,
    here: Seq<JsonView>,
    elsewhere: Seq<JsonView>,
)
    ensures
        listed(Who::Peer { name }, here, elsewhere) == here,
        !(place_of(local, gid, route, stale, Who::Peer { name }) matches Ok(Place::View { .. })),
        text::parted(gid, ':') matches Some((node, id)) ==> (node != local ==> place_of(
            local,
            gid,
            route,
            stale,
            Who::Peer { name },
        ) == Err::<Place, Refusal>(foreign(local, node))),
{
}

/// A session of another node is looked for in what is known of that node, for a human and where the node is
/// known; otherwise one is looked for here, under its id on this node, and one of another node is refused as
/// not found. An id alone is one of this node.
pub proof fn lemma_where_a_session_is(
    local: Seq<char>,
    node: Seq<char>,
    id: Seq<char>,
    route: Route,
    stale: bool,
    who: Who,
)
    requires
        !node.contains(':'),
    ensures
        ({
            let p = place_of(local, crate::events::global(node, id), route, stale, who);
            &&& route is Peer && who is Human <==> p is Ok && p->Ok_0 is View
            &&& p is Ok && p->Ok_0 is View ==> p->Ok_0->retry == stale
            &&& !(route is Peer && who is Human) && node == local <==> p is Ok && p->Ok_0 is Here
            &&& p is Ok && p->Ok_0 is Here ==> p->Ok_0->Here_0 == id
            &&& p is Err ==> p->Err_0.status == 404 && p->Err_0.kind == "node_unknown"@
        }),
        !id.contains(':') ==> place_of(local, id, route, stale, who) == Ok::<Place, Refusal>(
            Place::Here(id),
        ),
{
    crate::api::forward::lemma_global_parts(node, id);
}

/// A human sees the sessions of this node and those of the others, and another node only those of this one.
pub proof fn lemma_what_is_listed(who: Who, here: Seq<JsonView>, elsewhere: Seq<JsonView>, x: JsonView)
    ensures
        listed(who, here, elsewhere).contains(x) <==> here.contains(x) || (who is Human
            && elsewhere.contains(x)),
{
    let all = here + elsewhere;
    if here.contains(x) {
        let i = here.index_of(x);
        assert(all[i] == x);
    }
    if elsewhere.contains(x) {
        let i = elsewhere.index_of(x);
        assert(all[here.len() + i] == x);
    }
    if all.contains(x) {
        let i = all.index_of(x);
        if i < here.len() {
            assert(here[i] == x);
        } else {
            assert(elsewhere[i - here.len()] == x);
        }
    }
}

/// What a session runs is what was asked for, where that is more than white space; else what is configured
/// for the agent, else what the agent itself is run with, and for an agent that is not known its name.
pub proof fn lemma_what_a_session_runs(
    claude: Claude,
    asked: Seq<char>,
    blank: Option<Seq<char>>,
    set: Seq<char>,
    configured: Option<Seq<char>>,
    agent_type: Seq<char>,
)
    requires
        exists|i: int| 0 <= i < asked.len() && !text::white(#[trigger] asked[i]),
        blank matches Some(b) ==> forall|i: int| 0 <= i < b.len() ==> text::white(#[trigger] b[i]),
    ensures
        command_of(claude, Some(asked), configured, agent_type) == asked,
        command_of(claude, blank, Some(set), agent_type) == set,
        named(claude, agent_type, 0) is None ==> command_of(claude, blank, None, agent_type) == agent_type,
        named(claude, agent_type, 0) is Some ==> command_of(claude, blank, None, agent_type) == named(
            claude,
            agent_type,
            0,
        )->0.command_text(),
{
    assert(text::trimmed(asked).len() > 0) by {
        text::lemma_trimmed(asked);
    }
    if blank is Some {
        assert(text::trimmed(blank->0).len() == 0) by {
            text::lemma_trimmed(blank->0);
        }
    }
}

/// A terminal is as large as was asked for where both sides were given, and 160 by 48 otherwise.
pub proof fn lemma_how_large(cols: u16, rows: u16, one: Option<u16>)
    ensures
        size_of(Some(cols), Some(rows)).cols == cols && size_of(Some(cols), Some(rows)).rows == rows,
        size_of(None, one) == (Size { cols: 160, rows: 48 }),
        size_of(one, None) == (Size { cols: 160, rows: 48 }),
{
}

/// The answer in what is given, where it holds one.
pub open spec fn answer_in(g: Given) -> Option<Answer> {
    match g {
        Given::Request { decision, .. } => Some(decision),
        Given::Tool { decision, .. } => Some(decision),
        Given::Type { .. } => None,
    }
}

/// What is given is what the body says: text is typed as it is, and an answer is given with its kind and its
/// message. A question that is named is the one that is answered; else it is the one about the tool that is
/// named, or the oldest.
pub proof fn lemma_what_is_given(body: InputBody)
    ensures
        match body {
            InputBody::Text { data } => given(body) == (Given::Type { data: data@ }),
            InputBody::Decision { decision, message, tool_use_id, request_id } => {
                &&& answer_in(given(body)) is Some
                &&& decision is Allow <==> answer_in(given(body))->0 is Allow
                &&& decision is Deny <==> answer_in(given(body))->0 is Deny
                &&& decision is Deny ==> answer_in(given(body))->0->message == opt_text(message)
                &&& request_id is Some <==> given(body) is Request
                &&& request_id matches Some(q) ==> given(body)->request_id == q@
                &&& request_id is None ==> given(body)->tool_use_id == opt_text(tool_use_id)
            },
        },
{
}

/// An error of a session is never told as a success. What the one who asked can see to is told as not found
/// or as a conflict, and what they cannot as a fault of the server or behind it.
pub proof fn lemma_how_errors_are_told(e: SessionError)
    ensures
        session_kind(e).0 == 404 <==> e is NotFound || e is RuntimeNotFound,
        session_kind(e).0 == 502 <==> e is Runtime,
        session_kind(e).0 == 500 <==> e is HookState || e is Db,
        session_kind(e).0 == 409 || session_kind(e).0 == 404 || session_kind(e).0 == 502
            || session_kind(e).0 == 500,
        session_kind(SessionError::StillAlive) == session_kind(SessionError::RuntimeStillAlive),
{
}

/// A question that nobody waits for the answer to is a conflict; an answer that could not be stored is a
/// fault of the server.
pub proof fn lemma_how_unanswered_is_told(id: Seq<char>, e: NoAnswer)
    ensures
        unanswered(id, e).status == 409 <==> e is NoPendingDecision,
        unanswered(id, e).status == 500 <==> e is Checkpoint,
        e matches NoAnswer::Checkpoint(why) ==> unanswered(id, e).message == why,
{
}

/// Every state has a word of its own.
pub proof fn lemma_states_are_told_apart(a: Status, b: Status)
    ensures
        status_text(a) == status_text(b) ==> a == b,
{
    reveal_strlit("Starting");
    assert("Starting"@.len() == 8 && "Starting"@[0] == 'S' && "Starting"@[1] == 't');
    reveal_strlit("Running");
    assert("Running"@.len() == 7 && "Running"@[0] == 'R' && "Running"@[1] == 'u');
    reveal_strlit("Waiting");
    assert("Waiting"@.len() == 7 && "Waiting"@[0] == 'W' && "Waiting"@[1] == 'a');
    reveal_strlit("TurnDone");
    assert("TurnDone"@.len() == 8 && "TurnDone"@[0] == 'T' && "TurnDone"@[1] == 'u');
    reveal_strlit("Idle");
    assert("Idle"@.len() == 4 && "Idle"@[0] == 'I' && "Idle"@[1] == 'd');
    reveal_strlit("Finished");
    assert("Finished"@.len() == 8 && "Finished"@[0] == 'F' && "Finished"@[1] == 'i');
    reveal_strlit("Failed");
    assert("Failed"@.len() == 6 && "Failed"@[0] == 'F' && "Failed"@[1] == 'a');
    reveal_strlit("Unknown");
    assert("Unknown"@.len() == 7 && "Unknown"@[0] == 'U' && "Unknown"@[1] == 'n');
}

/// What becomes of a restart is told: whether the conversation was taken up, and which, or else why not.
pub proof fn lemma_what_is_told_of_a_restart(plan: Restart)
    ensures
        json::member(restart_view(plan), "resumed"@) == Some(JsonView::Bool(plan is Resume)),
        plan matches Restart::Resume { agent_session_id, .. } ==> json::member(
            restart_view(plan),
            "agent_session_id"@,
        ) == Some(JsonView::Str(agent_session_id)),
        plan is Original ==> json::member(restart_view(plan), "agent_session_id"@) is None,
{
    reveal_strlit("resumed");
    reveal_strlit("agent_session_id");
    reveal_strlit("reason");
    assert("resumed"@.len() == 7);
    assert("agent_session_id"@.len() == 16);
    assert("reason"@.len() == 6);
    reveal_with_fuel(json::find, 4);
}

} // verus!
