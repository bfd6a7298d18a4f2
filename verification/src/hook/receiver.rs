//! The daemon's side: what is done with each event from the inbox, and with the requests that wait for an
//! answer.
//!
//! Reading files, the database of sessions and the hooks that wait on a socket are outside; here is what
//! is decided from what they say.

use crate::adapter::claude::Claude;
use crate::adapter::hooks::{Answer, Decision, Release, Released, DEFAULT_HOLD_TIMEOUT};
use crate::adapter::registry::{for_host, host_named, Host};
use crate::adapter::{opt_int, AgentHooks};
use crate::hook::holds::{
    abandoned, add_hold, age, ages_of, all_gone, all_held, as_gone, dropped, find_hold,
    freed_at, holds_wf, is_full, kept, lemma_by_age, lemma_kept_has, lemma_kept_wf,
    lemma_position, lemma_push_has, lemma_remove_wf, lemma_with_hold_wf, pending_holds,
    pending_of, position, take_abandoned, take_expired, take_hold, take_session, with_hold,
    Freed, Gone, Held, Hold, SessionFacts,
};
use crate::hook::inbox::{
    copy_delivery, delivery_time_secs, name_seconds, Cover, Delivery, HookError, HookFailure,
    Parcel, DONE_RETENTION,
};
use crate::order;
use crate::status::{happenings, AgoraEvent, Happening};
use crate::text::{self, either, opt_str, opt_text, or_else, same, texts};
use vstd::prelude::*;

verus! {

/// How many seconds a request is held at most.
pub const HOLD_TIMEOUT: u64 = DEFAULT_HOLD_TIMEOUT;

/// For how many milliseconds a request counts as only just held.
pub const HOLD_SETTLE: u64 = 2000;

/// How many seconds lie at least between two rounds of pruning.
pub const PRUNE_INTERVAL: u64 = 3600;

/// How many seconds a file waits before it is taken for one that nobody reads.
pub const PENDING_REPLAY_AGE: u64 = 30;

/// The reason with which a host ends a session that it clears.
pub const HOST_END_CLEAR: &'static str = "clear";

/// What takes its place where the session that goes on is another one.
pub const CLEAR_ENDS_EXTERNAL_ROW: &'static str =
    "clear (external row: the new id lands on a new row)";

/// What a `clear` becomes where the session that goes on is another one.
pub open spec fn ended_by_clear(h: Happening) -> Happening {
    if h == Happening::SessionEnded(Some(HOST_END_CLEAR@)) {
        Happening::SessionEnded(Some(CLEAR_ENDS_EXTERNAL_ROW@))
    } else {
        h
    }
}

/// A copy of an event.
pub fn copy_event(e: &AgoraEvent) -> (r: AgoraEvent)
    ensures
        r@ == e@,
{
    match e {
        AgoraEvent::SessionStarted => AgoraEvent::SessionStarted,
        AgoraEvent::SessionId(s) => AgoraEvent::SessionId(s.clone()),
        AgoraEvent::PromptSubmitted(s) => AgoraEvent::PromptSubmitted(s.clone()),
        AgoraEvent::PromptInjected => AgoraEvent::PromptInjected,
        AgoraEvent::InputNeeded { tool_use_id, question } => AgoraEvent::InputNeeded {
            tool_use_id: tool_use_id.clone(),
            question: question.clone(),
        },
        AgoraEvent::Activity(s) => AgoraEvent::Activity(s.clone()),
        AgoraEvent::DecisionResolved(o) => AgoraEvent::DecisionResolved(text::copy_opt(o)),
        AgoraEvent::DecisionNeeded { tool_use_id, summary } => AgoraEvent::DecisionNeeded {
            tool_use_id: tool_use_id.clone(),
            summary: summary.clone(),
        },
        AgoraEvent::Idle => AgoraEvent::Idle,
        AgoraEvent::TurnEnded(o) => AgoraEvent::TurnEnded(text::copy_opt(o)),
        AgoraEvent::TurnFailed(s) => AgoraEvent::TurnFailed(s.clone()),
        AgoraEvent::SessionEnded(o) => AgoraEvent::SessionEnded(text::copy_opt(o)),
    }
}

/// The events of a session that is known by its conversation alone: a `clear` ends it, since what goes on
/// is another conversation and so another session.
pub fn clear_ends_external_row(events: &[AgoraEvent]) -> (out: Vec<AgoraEvent>)
    ensures
        happenings(out@) == happenings(events@).map_values(|h: Happening| ended_by_clear(h)),
{
    let ghost goal = happenings(events@).map_values(|h: Happening| ended_by_clear(h));
    let mut out: Vec<AgoraEvent> = Vec::new();
    let mut i: usize = 0;
    while i < events.len()
        invariant
            goal == happenings(events@).map_values(|h: Happening| ended_by_clear(h)),
            i <= events@.len(),
            happenings(out@) == goal.take(i as int),
        decreases events@.len() - i,
    {
        let ghost was = happenings(out@);
        let e = match &events[i] {
            AgoraEvent::SessionEnded(Some(r)) => if same(r.as_str(), HOST_END_CLEAR) {
                AgoraEvent::SessionEnded(Some(CLEAR_ENDS_EXTERNAL_ROW.to_owned()))
            } else {
                copy_event(&events[i])
            },
            _ => copy_event(&events[i]),
        };
        proof {
            assert(e@ == ended_by_clear(events@[i as int]@));
        }
        out.push(e);
        proof {
            assert(happenings(out@) =~= was.push(goal[i as int]));
            assert(goal.take(i + 1) =~= goal.take(i as int).push(goal[i as int]));
        }
        i += 1;
    }
    proof {
        assert(goal.take(i as int) =~= goal);
    }
    out
}

/// Whether an event says that the process goes on as another conversation.
pub open spec fn is_handoff(h: Happening) -> bool {
    match h {
        Happening::SessionEnded(Some(r)) => r == "resume"@ || r == "clear"@,
        _ => false,
    }
}

/// Whether one of the events says that the process goes on as another conversation.
pub fn ends_on_identity_handoff(events: &[AgoraEvent]) -> (r: bool)
    ensures
        r == exists|i: int|
            0 <= i < happenings(events@).len() && is_handoff(#[trigger] happenings(events@)[i]),
{
    let mut i: usize = 0;
    while i < events.len()
        invariant
            i <= events@.len(),
            forall|k: int| 0 <= k < i ==> !is_handoff(#[trigger] happenings(events@)[k]),
        decreases events@.len() - i,
    {
        let hit: bool = match &events[i] {
            AgoraEvent::SessionEnded(Some(r)) => same(r.as_str(), "resume") || same(
                r.as_str(),
                "clear",
            ),
            _ => false,
        };
        proof {
            assert(happenings(events@)[i as int] == events@[i as int]@);
        }
        if hit {
            return true;
        }
        i += 1;
    }
    false
}

/// The key of the session that an event belongs to: ours where it names one, and the host with its
/// conversation otherwise.
pub open spec fn key_text(c: Cover) -> Seq<char> {
    or_else(c.agora_session_id, c.host + ":"@ + c.agent_session_id)
}

/// The key of the session that an event belongs to.
pub fn session_key(delivery: &Delivery) -> (out: String)
    ensures
        out@ == key_text(delivery@.envelope),
{
    let e = &delivery.envelope;
    match &e.agora_session_id {
        Some(id) => id.clone(),
        None => text::cat3(e.host.as_str(), ":", e.agent_session_id.as_str()),
    }
}

/// Whether a delivery comes from an earlier start of its session than the one that it is at.
pub open spec fn outdated_by(c: Cover, current: Option<i64>) -> bool {
    match (c.agora_session_id, c.agora_epoch, current) {
        (Some(_), Some(e), Some(k)) => e < k,
        _ => false,
    }
}

/// Whether an event comes from an earlier generation of its session, `current` being the generation of
/// the session where it is known.
pub fn is_stale(delivery: &Delivery, current: Option<i64>) -> (r: bool)
    ensures
        r == outdated_by(delivery@.envelope, current),
{
    match (&delivery.envelope.agora_session_id, delivery.envelope.agora_epoch, current) {
        (Some(_), Some(e), Some(c)) => e < c,
        _ => false,
    }
}

/// An event that was applied.
#[derive(Debug, PartialEq, Eq)]
pub struct Received {
    pub session_key: String,
    pub event: Option<String>,
    pub delivery: Delivery,
}

/// The model of a [`Received`].
pub struct Taken {
    pub session_key: Seq<char>,
    pub event: Option<Seq<char>>,
    pub delivery: Parcel,
}

impl View for Received {
    type V = Taken;

    open spec fn view(&self) -> Taken {
        Taken {
            session_key: self.session_key@,
            event: opt_text(self.event),
            delivery: self.delivery@,
        }
    }
}

/// The models of a list of events that were applied.
pub open spec fn all_taken(v: Seq<Received>) -> Seq<Taken> {
    v.map_values(|r: Received| r@)
}

/// A copy of an event that was applied.
pub fn copy_received(r: &Received) -> (c: Received)
    ensures
        c@ == r@,
{
    Received {
        session_key: r.session_key.clone(),
        event: text::copy_opt(&r.event),
        delivery: copy_delivery(&r.delivery),
    }
}

/// Why an answer was not taken.
#[derive(Debug, PartialEq, Eq)]
pub enum RespondError {
    Checkpoint(String),
    NoPendingDecision { session: String, tool_use_id: String },
}

/// The model of a [`RespondError`].
pub enum NoAnswer {
    Checkpoint(Seq<char>),
    NoPendingDecision { session: Seq<char>, tool_use_id: Seq<char> },
}

impl View for RespondError {
    type V = NoAnswer;

    open spec fn view(&self) -> NoAnswer {
        match self {
            RespondError::Checkpoint(s) => NoAnswer::Checkpoint(s@),
            RespondError::NoPendingDecision { session, tool_use_id } =>
                NoAnswer::NoPendingDecision { session: session@, tool_use_id: tool_use_id@ },
        }
    }
}

impl RespondError {
    /// What to tell the user.
    pub fn message(&self) -> (out: String)
        ensures
            out@ == match self@ {
                NoAnswer::Checkpoint(s) => "保存 hook 答复失败: "@ + s,
                NoAnswer::NoPendingDecision { session, tool_use_id } => "会话 "@ + session
                    + " 没有挂起的决定 "@ + tool_use_id,
            },
    {
        match self {
            RespondError::Checkpoint(s) => text::cat("保存 hook 答复失败: ", s.as_str()),
            RespondError::NoPendingDecision { session, tool_use_id } => {
                let mut out = text::cat3("会话 ", session.as_str(), " 没有挂起的决定 ");
                text::push_str(&mut out, tool_use_id.as_str());
                out
            },
        }
    }
}

/// What is done with an event when its file has been read.
#[derive(Debug, PartialEq, Eq)]
pub enum Opened {
    /// It comes from an earlier generation: the file goes, and nothing else happens.
    Stale,
    /// It is applied: this host reported it, and this is what it means.
    Apply { host: Host, events: Vec<AgoraEvent> },
}

/// What is done with an event when its file has been read: nothing where it lies outside of the inbox, and
/// nothing where its host is not known.
pub fn open_delivery(
    claude: Claude,
    path: &str,
    inside: bool,
    delivery: &Delivery,
    current: Option<i64>,
) -> (r: Result<Opened, HookError>)
    ensures
        ({
            let c = delivery@.envelope;
            let stale = outdated_by(c, current);
            if !inside {
                r matches Err(e) && e@ == HookFailure::Outside(path@)
            } else if stale {
                r matches Ok(Opened::Stale)
            } else {
                match host_named(claude, c.host) {
                    None => r matches Err(e) && e@ == HookFailure::Outside(
                        path@ + "（宿主 "@ + c.host + " 不认识）"@,
                    ),
                    Some(h) => r matches Ok(Opened::Apply { host, events }) && host == h
                        && happenings(events@) == h.meaning(delivery@.payload),
                }
            }
        }),
{
    if !inside {
        return Err(HookError::Outside(path.to_owned()));
    }
    if is_stale(delivery, current) {
        return Ok(Opened::Stale);
    }
    match for_host(claude, delivery.envelope.host.as_str()) {
        Some(host) => {
            let events = host.parse(&delivery.payload);
            Ok(Opened::Apply { host, events })
        },
        None => {
            let mut s = text::cat3(path, "（宿主 ", delivery.envelope.host.as_str());
            text::push_str(&mut s, " 不认识）");
            Err(HookError::Outside(s))
        },
    }
}

/// What the database says of a session that is looked for by its conversation.
#[derive(Debug, PartialEq, Eq)]
pub enum Lookup {
    Found(String),
    Absent,
    Failed,
}

/// What is done to find the session of an event that names none of ours.
#[derive(Debug, PartialEq, Eq)]
pub enum Locate {
    /// It has none.
    Skip,
    /// It has this one.
    Use(String),
    /// One is entered for it.
    Register,
}

/// Whether all events say that a session ended.
pub open spec fn only_ends(hs: Seq<Happening>) -> bool {
    forall|i: int| 0 <= i < hs.len() ==> (#[trigger] hs[i]) is SessionEnded
}

/// Whether all events say that a session ended.
pub(crate) fn are_only_ends(events: &[AgoraEvent]) -> (r: bool)
    ensures
        r == only_ends(happenings(events@)),
{
    let mut i: usize = 0;
    while i < events.len()
        invariant
            i <= events@.len(),
            forall|k: int| 0 <= k < i ==> (#[trigger] happenings(events@)[k]) is SessionEnded,
        decreases events@.len() - i,
    {
        proof {
            assert(happenings(events@)[i as int] == events@[i as int]@);
        }
        match &events[i] {
            AgoraEvent::SessionEnded(_) => {},
            _ => {
                proof {
                    assert(!(happenings(events@)[i as int] is SessionEnded));
                }
                return false;
            },
        }
        i += 1;
    }
    true
}

/// The session that a delivery from elsewhere goes to.
pub enum Place {
    Nowhere,
    Session(Seq<char>),
    /// To one that is entered for it.
    New,
}

/// Where a delivery goes that names a conversation and tells these things.
pub open spec fn located(conversation: Seq<char>, lookup: Lookup, hs: Seq<Happening>) -> Place {
    if conversation == "unknown"@ {
        Place::Nowhere
    } else {
        match lookup {
            Lookup::Found(id) => Place::Session(id@),
            Lookup::Absent => if only_ends(hs) {
                Place::Nowhere
            } else {
                Place::New
            },
            Lookup::Failed => Place::Nowhere,
        }
    }
}

/// What is done to find the session of an event that names none of ours. A session that is not known is
/// entered, except where the agent does not say which conversation it is, and where nothing but its end
/// is heard of it.
pub fn locate_external(delivery: &Delivery, events: &[AgoraEvent], lookup: &Lookup) -> (r: Locate)
    ensures
        match located(delivery@.envelope.agent_session_id, *lookup, happenings(events@)) {
            Place::Nowhere => r is Skip,
            Place::Session(id) => r matches Locate::Use(s) && s@ == id,
            Place::New => r is Register,
        },
{
    if same(delivery.envelope.agent_session_id.as_str(), "unknown") {
        return Locate::Skip;
    }
    match lookup {
        Lookup::Found(id) => Locate::Use(id.clone()),
        Lookup::Absent => if are_only_ends(events) {
            Locate::Skip
        } else {
            Locate::Register
        },
        Lookup::Failed => Locate::Skip,
    }
}

/// Where a session comes from.
#[derive(Clone, Copy, Debug, PartialEq, Eq, Structural)]
pub enum Origin {
    /// Started here.
    Agora,
    /// Found in the runtime and taken over.
    Adopted,
    /// Known from its hooks alone.
    External,
    /// Known from its hooks alone, and answering one prompt.
    Headless,
}

impl Origin {
    /// Whether the session is known from its hooks alone.
    pub fn is_handleless(&self) -> (r: bool)
        ensures
            r == (*self == Origin::External || *self == Origin::Headless),
    {
        *self == Origin::External || *self == Origin::Headless
    }
}

/// A session to be entered for what its hooks report.
#[derive(Debug, PartialEq, Eq)]
pub struct ExternalSession {
    pub agent_type: String,
    pub agent_session_id: String,
    pub runtime_ref: Option<String>,
    pub working_directory: Option<String>,
    /// When it began, in seconds since 1970.
    pub created_at: Option<i64>,
    pub origin: Origin,
}

/// The model of an [`ExternalSession`].
pub struct Outsider {
    pub agent_type: Seq<char>,
    pub agent_session_id: Seq<char>,
    pub runtime_ref: Option<Seq<char>>,
    pub working_directory: Option<Seq<char>>,
    pub created_at: Option<i64>,
    pub origin: Origin,
}

impl View for ExternalSession {
    type V = Outsider;

    open spec fn view(&self) -> Outsider {
        Outsider {
            agent_type: self.agent_type@,
            agent_session_id: self.agent_session_id@,
            runtime_ref: opt_text(self.runtime_ref),
            working_directory: opt_text(self.working_directory),
            created_at: self.created_at,
            origin: self.origin,
        }
    }
}

/// The session that is entered for an event, `runtime_ref` being the pane that it runs in, if it runs in
/// one. It begins with the event, not with its being read.
pub fn external_session(host: Host, delivery: &Delivery, runtime_ref: Option<String>) -> (r:
    ExternalSession)
    ensures
        r@ == (Outsider {
            agent_type: delivery@.envelope.host,
            agent_session_id: delivery@.envelope.agent_session_id,
            runtime_ref: opt_text(runtime_ref),
            working_directory: host.directory(delivery@.payload),
            created_at: Some((delivery@.envelope.received_unix_ms / 1000) as i64),
            origin: if host.headless_start(delivery@.payload) {
                Origin::Headless
            } else {
                Origin::External
            },
        }),
{
    let e = &delivery.envelope;
    ExternalSession {
        agent_type: e.host.clone(),
        agent_session_id: e.agent_session_id.clone(),
        runtime_ref,
        working_directory: host.working_directory(&delivery.payload),
        created_at: Some((e.received_unix_ms / 1000) as i64),
        origin: if host.is_headless(&delivery.payload) {
            Origin::Headless
        } else {
            Origin::External
        },
    }
}

/// The session that an event is applied to, and the key of what it holds and frees.
#[derive(Debug, PartialEq, Eq)]
pub struct Target {
    pub id: Option<String>,
    pub epoch: i64,
    pub key: String,
}

/// The session that an event is applied to: the one that it names, or else the one that was found for it.
pub fn target_of(delivery: &Delivery, located: Option<String>) -> (r: Target)
    ensures
        opt_text(r.id) == either(delivery@.envelope.agora_session_id, opt_text(located)),
        r.epoch == match (delivery@.envelope.agora_session_id, delivery@.envelope.agora_epoch) {
            (Some(_), Some(e)) => e,
            _ => 0,
        },
        r.key@ == or_else(
            either(delivery@.envelope.agora_session_id, opt_text(located)),
            key_text(delivery@.envelope),
        ),
{
    let e = &delivery.envelope;
    match &e.agora_session_id {
        Some(id) => Target {
            id: Some(id.clone()),
            epoch: match e.agora_epoch {
                Some(n) => n,
                None => 0,
            },
            key: id.clone(),
        },
        None => match located {
            Some(id) => {
                let key = id.clone();
                Target { id: Some(id), epoch: 0, key }
            },
            None => Target { id: None, epoch: 0, key: session_key(delivery) },
        },
    }
}

/// What the database says of a session that was found by its conversation.
#[derive(Clone, Copy, Debug, PartialEq, Eq, Structural)]
pub struct Row {
    pub epoch: i64,
    /// Whether it runs in a pane.
    pub has_runtime: bool,
}

/// How an event is applied.
#[derive(Debug, PartialEq, Eq)]
pub struct Application {
    /// The session is deleted instead: it is an empty shell, whose process goes on as another
    /// conversation before anything was said in it.
    pub delete: bool,
    pub epoch: i64,
    pub events: Vec<AgoraEvent>,
}

/// Whether a session is an empty shell that goes: it has no pane, nothing was said in it, and its
/// conversation goes on as another.
pub open spec fn shell_goes(hs: Seq<Happening>, bare: bool, prompt_seen: bool) -> bool {
    bare && !prompt_seen && exists|i: int| 0 <= i < hs.len() && is_handoff(#[trigger] hs[i])
}

/// How an event is applied. `row` is given for sessions that were found by their conversation; `epoch` is
/// the generation that the event names; `prompt_seen` says whether anything was said in the session yet.
pub fn application_of(
    events: &[AgoraEvent],
    row: Option<Row>,
    epoch: i64,
    prompt_seen: bool,
) -> (r: Application)
    ensures
        ({
            let hs = happenings(events@);
            let bare = row matches Some(w) && !w.has_runtime;
            &&& r.delete == shell_goes(hs, bare, prompt_seen)
            &&& r.epoch == match row {
                Some(w) => w.epoch,
                None => epoch,
            }
            &&& happenings(r.events@) == if bare {
                hs.map_values(|h: Happening| ended_by_clear(h))
            } else {
                hs
            }
        }),
{
    let bare: bool = match row {
        Some(w) => !w.has_runtime,
        None => false,
    };
    let handoff: bool = ends_on_identity_handoff(events);
    let out = if bare {
        clear_ends_external_row(events)
    } else {
        copy_events(events)
    };
    Application {
        delete: bare && !prompt_seen && handoff,
        epoch: match row {
            Some(w) => w.epoch,
            None => epoch,
        },
        events: out,
    }
}

/// A copy of a list of events.
pub fn copy_events(events: &[AgoraEvent]) -> (out: Vec<AgoraEvent>)
    ensures
        happenings(out@) == happenings(events@),
{
    let ghost goal = happenings(events@);
    let mut out: Vec<AgoraEvent> = Vec::new();
    let mut i: usize = 0;
    while i < events.len()
        invariant
            goal == happenings(events@),
            i <= events@.len(),
            happenings(out@) == goal.take(i as int),
        decreases events@.len() - i,
    {
        let ghost was = happenings(out@);
        out.push(copy_event(&events[i]));
        proof {
            assert(happenings(out@) =~= was.push(goal[i as int]));
            assert(goal.take(i + 1) =~= goal.take(i as int).push(goal[i as int]));
        }
        i += 1;
    }
    proof {
        assert(goal.take(i as int) =~= goal);
    }
    out
}

/// What applying an event came to.
#[derive(Debug, PartialEq, Eq)]
pub enum Applied {
    /// It took effect.
    Done,
    /// It had taken effect before.
    Already,
    /// There is no such session.
    NoSession,
    /// It could not be stored, for this reason.
    Failed(String),
}

/// Whether an event that was applied is taken note of: not where it had taken effect before. Where it
/// could not be stored its file stays, to be tried again.
pub fn after_apply(path: &str, applied: &Applied) -> (r: Result<bool, HookError>)
    ensures
        match *applied {
            Applied::Done => r matches Ok(b) && b,
            Applied::NoSession => r matches Ok(b) && b,
            Applied::Already => r matches Ok(b) && !b,
            Applied::Failed(why) => r matches Err(e) && e@ == (HookFailure::Io {
                path: path@,
                source: why@,
            }),
        },
{
    match applied {
        Applied::Done => Ok(true),
        Applied::NoSession => Ok(true),
        Applied::Already => Ok(false),
        Applied::Failed(why) => Err(
            HookError::Io { path: path.to_owned(), source: why.clone() },
        ),
    }
}

/// Whether a file is old enough to be taken for one that nobody reads, all times in milliseconds: by the
/// time of its last change, or else by the time in its name. One without a time, and one from the
/// future, counts as old.
pub open spec fn is_due(
    now: u64,
    limit: u64,
    modified: Option<u64>,
    name: Seq<char>,
) -> bool {
    limit == 0 || match modified {
        Some(t) => t > now || now - t >= limit,
        None => match name_seconds(name) {
            Some(s) => s * 1000 > now || now - s * 1000 >= limit,
            None => true,
        },
    }
}

/// Whether a file is old enough to be taken for one that nobody reads.
pub fn pending_file_is_due(now: u64, limit: u64, modified: Option<u64>, name: &str) -> (r: bool)
    ensures
        r == is_due(now, limit, modified, name@),
{
    if limit == 0 {
        return true;
    }
    let written: Option<u64> = match modified {
        Some(t) => Some(t),
        None => match delivery_time_secs(name) {
            Some(s) => {
                proof {
                    lemma_name_seconds_bounded(name@);
                }
                Some(s * 1000)
            },
            None => None,
        },
    };
    match written {
        Some(t) => t > now || now - t >= limit,
        None => true,
    }
}

proof fn lemma_name_seconds_bounded(name: Seq<char>)
    requires
        name_seconds(name) is Some,
    ensures
        name_seconds(name)->0 * 1000 <= u64::MAX,
{
    match text::parted(name, '-') {
        Some((a, _)) => {
            assert(crate::num::value(a) / 1000 * 1000 <= crate::num::value(a));
        },
        None => {},
    }
}

/// Of `paths` those that are in `existing`.
pub open spec fn still_there(paths: Seq<Seq<char>>, existing: Seq<Seq<char>>) -> Seq<Seq<char>>
    decreases paths.len(),
{
    if paths.len() == 0 {
        paths
    } else {
        let r = still_there(paths.drop_last(), existing);
        if existing.contains(paths.last()) {
            r.push(paths.last())
        } else {
            r
        }
    }
}

/// What the database says of the session of an archived event.
#[derive(Debug, PartialEq, Eq)]
pub struct ArchiveRow {
    pub id: String,
    pub epoch: i64,
    pub origin: Origin,
    /// Whether it runs in a pane.
    pub has_runtime: bool,
    /// Whether its state was stored.
    pub has_checkpoint: bool,
    /// Whether that was done in the first form, which took a `clear` for no end.
    pub legacy: bool,
}

/// How an archived event is applied.
#[derive(Debug, PartialEq, Eq)]
pub struct ArchiveApply {
    pub pid: Option<u32>,
    pub epoch: i64,
    pub events: Vec<AgoraEvent>,
}

/// What is done with an archived event.
#[derive(Debug, PartialEq, Eq)]
pub struct ArchiveStep {
    /// The stored state of its session is dropped first.
    pub forget: bool,
    pub apply: Option<ArchiveApply>,
}

/// The decision that was taken for a session, if one was.
pub open spec fn decided(memo: Seq<(String, bool)>, id: Seq<char>) -> Option<bool>
    decreases memo.len(),
{
    if memo.len() == 0 {
        None
    } else if memo.last().0@ == id {
        Some(memo.last().1)
    } else {
        decided(memo.drop_last(), id)
    }
}

fn find_decided(memo: &[(String, bool)], id: &str) -> (r: Option<bool>)
    ensures
        r == decided(memo@, id@),
{
    let mut n: usize = memo.len();
    proof {
        assert(memo@.take(n as int) =~= memo@);
    }
    while n > 0
        invariant
            n <= memo@.len(),
            decided(memo@, id@) == decided(memo@.take(n as int), id@),
        decreases n,
    {
        proof {
            assert(memo@.take(n as int).last() == memo@[n - 1]);
            assert(memo@.take(n as int).drop_last() =~= memo@.take(n - 1));
        }
        if same(memo[n - 1].0.as_str(), id) {
            return Some(memo[n - 1].1);
        }
        n -= 1;
    }
    None
}

/// Whether the state of a session is made up from the archive: it was not stored, or it was stored in the
/// first form and the session is known from its hooks alone.
pub open spec fn rebuilds(row: ArchiveRow) -> bool {
    !row.has_checkpoint || (is_bare(row) && row.legacy)
}

/// Whether a session is known from its hooks alone.
pub open spec fn is_bare(row: ArchiveRow) -> bool {
    (row.origin == Origin::External || row.origin == Origin::Headless) && !row.has_runtime
}

/// Whether `after` is what is known of the decisions once an event of the session `row` was met: one is
/// taken for that session where there was none, and those of other sessions stay.
pub open spec fn noted(
    before: Seq<(String, bool)>,
    after: Seq<(String, bool)>,
    row: ArchiveRow,
) -> bool {
    &&& decided(after, row.id@) == Some(or_else(decided(before, row.id@), rebuilds(row)))
    &&& forall|s: Seq<char>|
        s != row.id@ ==> #[trigger] decided(after, s) == decided(before, s)
}

/// The decision for a session is taken once: whatever events follow, of that session in whatever state it
/// is by then and of others, it stays.
pub proof fn lemma_decided_once(
    memos: Seq<Seq<(String, bool)>>,
    rows: Seq<ArchiveRow>,
    id: Seq<char>,
)
    requires
        memos.len() == rows.len() + 1,
        forall|i: int| 0 <= i < rows.len() ==> noted(memos[i], memos[i + 1], #[trigger] rows[i]),
        decided(memos[0], id) is Some,
    ensures
        decided(memos.last(), id) == decided(memos[0], id),
    decreases rows.len(),
{
    if rows.len() > 0 {
        let n = rows.len() - 1;
        assert(noted(memos[n], memos[n + 1], rows[n]));
        assert forall|i: int| 0 <= i < n implies noted(
            memos.drop_last()[i],
            memos.drop_last()[i + 1],
            #[trigger] rows.drop_last()[i],
        ) by {
            assert(rows[i] == rows.drop_last()[i]);
        }
        lemma_decided_once(memos.drop_last(), rows.drop_last(), id);
        assert(memos.drop_last().last() == memos[n]);
    }
}

/// What is done with an archived event, `row` being its session and `memo` what was decided for each
/// session so far. The decision for a session is taken once, with its first event.
pub fn archive_step(
    claude: Claude,
    memo: &mut Vec<(String, bool)>,
    delivery: &Delivery,
    row: Option<&ArchiveRow>,
) -> (r: ArchiveStep)
    ensures
        ({
            let c = delivery@.envelope;
            match (host_named(claude, c.host), row) {
                (Some(h), Some(w)) => {
                    let first = decided(old(memo)@, w.id@) is None;
                    let selected = or_else(decided(old(memo)@, w.id@), rebuilds(*w));
                    let applies = selected && (c.agora_epoch matches Some(e) ==> e == w.epoch);
                    &&& noted(old(memo)@, final(memo)@, *w)
                    &&& r.forget == (first && w.has_checkpoint && selected)
                    &&& r.apply is Some == applies
                    &&& applies ==> {
                        &&& r.apply->0.epoch == w.epoch
                        &&& opt_int(r.apply->0.pid) == (if c.agora_session_id is None {
                            h.pid_of(delivery.envelope.agent_env@, c.ppid as int)
                        } else {
                            None
                        })
                        &&& happenings(r.apply->0.events@) == if is_bare(*w) {
                            h.meaning(delivery@.payload).map_values(
                                |e: Happening| ended_by_clear(e),
                            )
                        } else {
                            h.meaning(delivery@.payload)
                        }
                    }
                },
                _ => !r.forget && r.apply is None && final(memo)@ == old(memo)@,
            }
        }),
{
    let env = &delivery.envelope;
    let (h, w) = match (for_host(claude, env.host.as_str()), row) {
        (Some(h), Some(w)) => (h, w),
        _ => {
            return ArchiveStep { forget: false, apply: None };
        },
    };
    let bare: bool = w.origin.is_handleless() && !w.has_runtime;
    let mut forget: bool = false;
    let selected: bool = match find_decided(memo, w.id.as_str()) {
        Some(b) => b,
        None => {
            let b: bool = !w.has_checkpoint || (bare && w.legacy);
            forget = w.has_checkpoint && b;
            let ghost was = memo@;
            memo.push((w.id.clone(), b));
            proof {
                assert(memo@.last().0@ == w.id@);
                assert(memo@.drop_last() =~= was);
            }
            b
        },
    };
    let other: bool = match env.agora_epoch {
        Some(e) => e != w.epoch,
        None => false,
    };
    if !selected || other {
        return ArchiveStep { forget, apply: None };
    }
    let pid: Option<u32> = if env.agora_session_id.is_none() {
        h.agent_pid(&env.agent_env, env.ppid)
    } else {
        None
    };
    let parsed = h.parse(&delivery.payload);
    let events = if bare {
        clear_ends_external_row(&parsed)
    } else {
        parsed
    };
    ArchiveStep { forget, apply: Some(ArchiveApply { pid, epoch: w.epoch, events }) }
}

/// What waiting for an answer came to.
#[derive(Debug, PartialEq, Eq)]
pub enum Waited {
    Answered(Decision),
    /// Nobody is left to answer.
    Closed,
    TimedOut,
}

/// What a hook is told: the answer, or that there is none.
pub fn wake_decision(waited: Waited) -> (r: Decision)
    ensures
        r@ == match waited {
            Waited::Answered(d) => d@,
            _ => Answer::Unanswered,
        },
{
    match waited {
        Waited::Answered(d) => d,
        Waited::Closed => Decision::Unanswered,
        Waited::TimedOut => Decision::Unanswered,
    }
}

/// The daemon's side of the hooks.
#[derive(Debug, PartialEq, Eq)]
pub struct Receiver {
    holds: Vec<Hold>,
    ledger: Vec<Received>,
    hold_timeout: u64,
    done_retention: u64,
    prune_interval: u64,
    last_prune: Option<u64>,
    pending_sweep_age: u64,
    pending_bad: Vec<String>,
    inbox_perm_warned: bool,
}

/// The model of a [`Receiver`]. Times are in milliseconds.
pub struct Reception {
    pub holds: Seq<Held>,
    pub ledger: Seq<Taken>,
    pub hold_timeout: u64,
    pub done_retention: u64,
    pub prune_interval: u64,
    pub last_prune: Option<u64>,
    pub pending_sweep_age: u64,
    pub pending_bad: Seq<Seq<char>>,
    pub inbox_perm_warned: bool,
}

impl View for Receiver {
    type V = Reception;

    closed spec fn view(&self) -> Reception {
        Reception {
            holds: all_held(self.holds@),
            ledger: all_taken(self.ledger@),
            hold_timeout: self.hold_timeout,
            done_retention: self.done_retention,
            prune_interval: self.prune_interval,
            last_prune: self.last_prune,
            pending_sweep_age: self.pending_sweep_age,
            pending_bad: texts(self.pending_bad@),
            inbox_perm_warned: self.inbox_perm_warned,
        }
    }
}

/// A request that is to be held: its tool use, for how many milliseconds, and what it is about.
#[derive(Debug, PartialEq, Eq)]
pub struct WakeRequest {
    pub tool_use_id: String,
    pub timeout: u64,
    pub summary: String,
}

/// The summary of the first request among the events from `i` on.
pub open spec fn first_summary(hs: Seq<Happening>, i: int) -> Option<Seq<char>>
    decreases hs.len() - i,
{
    if i < 0 || i >= hs.len() {
        None
    } else {
        match hs[i] {
            Happening::DecisionNeeded { summary, .. } => Some(summary),
            _ => first_summary(hs, i + 1),
        }
    }
}

fn find_summary(events: &[AgoraEvent]) -> (r: Option<String>)
    ensures
        opt_text(r) == first_summary(happenings(events@), 0),
{
    let ghost hs = happenings(events@);
    let mut i: usize = 0;
    while i < events.len()
        invariant
            hs == happenings(events@),
            i <= events@.len(),
            first_summary(hs, 0) == first_summary(hs, i as int),
        decreases events@.len() - i,
    {
        proof {
            assert(hs[i as int] == events@[i as int]@);
        }
        match &events[i] {
            AgoraEvent::DecisionNeeded { summary, .. } => {
                return Some(summary.clone());
            },
            _ => {},
        }
        i += 1;
    }
    None
}

/// The sessions of the requests, each once, in order.
pub open spec fn sessions_of(hs: Seq<Held>) -> Seq<Seq<char>>
    decreases hs.len(),
{
    if hs.len() == 0 {
        Seq::empty()
    } else {
        let r = sessions_of(hs.drop_last());
        if r.contains(hs.last().session) {
            r
        } else {
            r.insert(order::place_in(r, hs.last().session), hs.last().session)
        }
    }
}

/// The request that an answer is meant for: the one with the id that it names, or else the one under the
/// tool use that it names, or else the one of the session that is held longest.
pub open spec fn meant(
    hs: Seq<Held>,
    session: Seq<char>,
    tool_use: Option<Seq<char>>,
    request: Option<Seq<char>>,
    epoch: i64,
) -> Result<Seq<char>, Seq<char>> {
    match request {
        Some(r) => match with_request(hs, session, r, epoch, 0) {
            Some(i) => Ok(hs[i].tool_use_id),
            None => Err(r),
        },
        None => Ok(
            match tool_use {
                Some(t) => t,
                None => if pending_of(hs, session).len() > 0 {
                    pending_of(hs, session)[0]
                } else {
                    Seq::empty()
                },
            },
        ),
    }
}

/// Where the request of a session and a generation with the id `r` stands, counted from `i`.
pub open spec fn with_request(
    hs: Seq<Held>,
    s: Seq<char>,
    r: Seq<char>,
    epoch: i64,
    i: int,
) -> Option<int>
    decreases hs.len() - i,
{
    if i < 0 || i >= hs.len() {
        None
    } else if hs[i].session == s && hs[i].request_id == r && hs[i].epoch == epoch {
        Some(i)
    } else {
        with_request(hs, s, r, epoch, i + 1)
    }
}

/// Whether a request can still be answered: it is of the session's generation, it is the one that is
/// meant, its time is not up, and its hook still waits.
pub open spec fn answerable(
    h: Held,
    request: Option<Seq<char>>,
    epoch: i64,
    now: u64,
    gone: Seq<Seq<char>>,
) -> bool {
    h.epoch == epoch && (request matches Some(r) ==> r == h.request_id) && age(h, now) < h.timeout
        && !gone.contains(h.request_id)
}

/// Which request an answer reaches, by its tool use and its id; where it reaches none, the key under which
/// there is none.
pub open spec fn reply(
    hs: Seq<Held>,
    session: Seq<char>,
    tool_use: Option<Seq<char>>,
    request: Option<Seq<char>>,
    epoch: i64,
    now: u64,
    gone: Seq<Seq<char>>,
) -> Result<(Seq<char>, Seq<char>), Seq<char>> {
    match meant(hs, session, tool_use, request, epoch) {
        Err(t) => Err(t),
        Ok(key) => match position(hs, session, key, 0) {
            Some(i) => if answerable(hs[i], request, epoch, now, gone) {
                Ok((key, hs[i].request_id))
            } else {
                Err(key)
            },
            None => Err(key),
        },
    }
}

impl Receiver {
    /// A receiver that holds nothing.
    pub fn new() -> (r: Receiver)
        ensures
            holds_wf(r@.holds),
            r@.holds == Seq::<Held>::empty(),
            r@.ledger == Seq::<Taken>::empty(),
            r@.hold_timeout == HOLD_TIMEOUT * 1000,
            r@.done_retention == DONE_RETENTION * 1000,
            r@.prune_interval == PRUNE_INTERVAL * 1000,
            r@.last_prune is None,
            r@.pending_sweep_age == PENDING_REPLAY_AGE * 1000,
            r@.pending_bad == Seq::<Seq<char>>::empty(),
            !r@.inbox_perm_warned,
    {
        let r = Receiver {
            holds: Vec::new(),
            ledger: Vec::new(),
            hold_timeout: HOLD_TIMEOUT * 1000,
            done_retention: DONE_RETENTION * 1000,
            prune_interval: PRUNE_INTERVAL * 1000,
            last_prune: None,
            pending_sweep_age: PENDING_REPLAY_AGE * 1000,
            pending_bad: Vec::new(),
            inbox_perm_warned: false,
        };
        proof {
            assert(r@.holds =~= Seq::<Held>::empty());
            assert(r@.ledger =~= Seq::<Taken>::empty());
            assert(r@.pending_bad =~= Seq::<Seq<char>>::empty());
        }
        r
    }

    /// The receiver with another limit to how long a request is held, in milliseconds.
    pub fn with_hold_timeout(self, timeout: u64) -> (r: Receiver)
        ensures
            r@ == (Reception { hold_timeout: timeout, ..self@ }),
    {
        Receiver { hold_timeout: timeout, ..self }
    }

    /// The receiver with other times for pruning, in milliseconds.
    pub fn with_pruning(self, retention: u64, interval: u64) -> (r: Receiver)
        ensures
            r@ == (Reception { done_retention: retention, prune_interval: interval, ..self@ }),
    {
        Receiver { done_retention: retention, prune_interval: interval, ..self }
    }

    /// The receiver with another interval for pruning, in milliseconds.
    pub fn with_prune_interval(self, interval: u64) -> (r: Receiver)
        ensures
            r@ == (Reception { prune_interval: interval, ..self@ }),
    {
        Receiver { prune_interval: interval, ..self }
    }

    /// The receiver with another age at which a file is taken for one that nobody reads, in milliseconds.
    pub fn with_pending_sweep_age(self, age: u64) -> (r: Receiver)
        ensures
            r@ == (Reception { pending_sweep_age: age, ..self@ }),
    {
        Receiver { pending_sweep_age: age, ..self }
    }

    /// How long applied files are kept, in milliseconds.
    pub fn done_retention(&self) -> (r: u64)
        ensures
            r == self@.done_retention,
    {
        self.done_retention
    }

    /// Whether a file is old enough to be taken for one that nobody reads.
    pub fn is_due(&self, now: u64, modified: Option<u64>, name: &str) -> (r: bool)
        ensures
            r == is_due(now, self@.pending_sweep_age, modified, name@),
    {
        pending_file_is_due(now, self.pending_sweep_age, modified, name)
    }

    /// Whether it is time to prune; if so, the time is taken note of.
    pub fn maybe_prune_done(&mut self, now: u64) -> (r: bool)
        ensures
            r == prune_is_due(old(self)@.last_prune, old(self)@.prune_interval, now),
            r ==> final(self)@ == (Reception { last_prune: Some(now), ..old(self)@ }),
            !r ==> final(self)@ == old(self)@,
    {
        let due: bool = match self.last_prune {
            Some(t) => if now >= t {
                now - t >= self.prune_interval
            } else {
                self.prune_interval == 0
            },
            None => true,
        };
        if due {
            self.last_prune = Some(now);
        }
        due
    }

    /// Takes note of a file that cannot be read; whether it is the first time.
    pub fn note_bad(&mut self, path: &str) -> (first: bool)
        ensures
            first == !old(self)@.pending_bad.contains(path@),
            first ==> final(self)@ == (Reception {
                pending_bad: old(self)@.pending_bad.push(path@),
                ..old(self)@
            }),
            !first ==> final(self)@ == old(self)@,
    {
        if text::holds(&self.pending_bad, path) {
            return false;
        }
        let ghost was = texts(self.pending_bad@);
        self.pending_bad.push(path.to_owned());
        proof {
            assert(texts(self.pending_bad@) =~= was.push(path@));
        }
        true
    }

    /// Forgets the files that could not be read and are no longer there.
    pub fn forget_bad(&mut self, existing: &[String])
        ensures
            final(self)@ == (Reception {
                pending_bad: still_there(old(self)@.pending_bad, texts(existing@)),
                ..old(self)@
            }),
    {
        let ghost all = texts(self.pending_bad@);
        let mut out: Vec<String> = Vec::new();
        let mut i: usize = 0;
        proof {
            assert(all.take(0) =~= Seq::<Seq<char>>::empty());
            assert(texts(out@) =~= still_there(all.take(0), texts(existing@)));
        }
        while i < self.pending_bad.len()
            invariant
                all == texts(self.pending_bad@),
                i <= self.pending_bad@.len(),
                texts(out@) == still_there(all.take(i as int), texts(existing@)),
            decreases self.pending_bad@.len() - i,
        {
            proof {
                assert(all.take(i + 1).drop_last() =~= all.take(i as int));
                assert(all.take(i + 1).last() == self.pending_bad@[i as int]@);
            }
            if text::holds(existing, self.pending_bad[i].as_str()) {
                let ghost was = texts(out@);
                out.push(self.pending_bad[i].clone());
                proof {
                    assert(texts(out@) =~= was.push(self.pending_bad@[i as int]@));
                }
            }
            i += 1;
        }
        proof {
            assert(all.take(i as int) =~= all);
        }
        self.pending_bad = out;
    }

    /// Takes note of whether the inbox may be trusted; whether the user is to be warned: once, until it is
    /// mended.
    pub fn note_permissions(&mut self, trusted: bool) -> (warn: bool)
        ensures
            warn == (!trusted && !old(self)@.inbox_perm_warned),
            final(self)@ == (Reception { inbox_perm_warned: !trusted, ..old(self)@ }),
    {
        let warn: bool = !trusted && !self.inbox_perm_warned;
        self.inbox_perm_warned = !trusted;
        warn
    }

    /// The request that an applied event asks to be held: none where its host is not known or asks for
    /// none. It is held for as long as the host says, and no longer than the receiver does.
    pub fn wake_request(&self, claude: Claude, received: &Received) -> (r: Option<WakeRequest>)
        ensures
            match host_named(claude, received@.delivery.envelope.host) {
                None => r is None,
                Some(h) => match h.holding(received@.delivery.payload) {
                    None => r is None,
                    Some(key) => {
                        &&& r matches Some(w)
                        &&& w.tool_use_id@ == key
                        &&& w.timeout == hold_time(h.hold_seconds(), self@.hold_timeout as int)
                        &&& w.summary@ == or_else(
                            first_summary(h.meaning(received@.delivery.payload), 0),
                            key,
                        )
                    },
                },
            },
    {
        let h = match for_host(claude, received.delivery.envelope.host.as_str()) {
            Some(h) => h,
            None => {
                return None;
            },
        };
        let key = match h.hold_key(&received.delivery.payload) {
            Some(k) => k,
            None => {
                return None;
            },
        };
        let secs: u64 = h.hold_timeout();
        proof {
            assert(secs == h.hold_seconds());
            assert(h.hold_seconds() <= 3300);
        }
        let own: u64 = secs * 1000;
        let timeout: u64 = if own < self.hold_timeout {
            own
        } else {
            self.hold_timeout
        };
        let events = h.parse(&received.delivery.payload);
        let summary = match find_summary(&events) {
            Some(s) => s,
            None => key.clone(),
        };
        Some(WakeRequest { tool_use_id: key, timeout, summary })
    }

    /// Holds a request; gives the request whose place it took. Nothing changes where there is no room.
    pub fn hold(
        &mut self,
        session: &str,
        tool_use_id: &str,
        request_id: &str,
        epoch: i64,
        now: u64,
        timeout: u64,
    ) -> (r: Option<Option<String>>)
        requires
            holds_wf(old(self)@.holds),
        ensures
            holds_wf(final(self)@.holds),
            match r {
                None => is_full(old(self)@.holds, session@) && final(self)@ == old(self)@,
                Some(was) => {
                    let h = Held {
                        session: session@,
                        tool_use_id: tool_use_id@,
                        request_id: request_id@,
                        epoch,
                        since: now,
                        timeout,
                    };
                    &&& !is_full(old(self)@.holds, session@)
                    &&& final(self)@ == (Reception {
                        holds: with_hold(old(self)@.holds, h),
                        ..old(self)@
                    })
                    &&& opt_text(was) == match position(
                        old(self)@.holds,
                        session@,
                        tool_use_id@,
                        0,
                    ) {
                        Some(i) => Some(old(self)@.holds[i].request_id),
                        None => None,
                    }
                },
            },
    {
        let h = Hold {
            session: session.to_owned(),
            tool_use_id: tool_use_id.to_owned(),
            request_id: request_id.to_owned(),
            epoch,
            since: now,
            timeout,
        };
        let ghost hv = h@;
        let ghost hs = all_held(self.holds@);
        proof {
            if !is_full(hs, session@) {
                lemma_with_hold_wf(hs, hv);
            }
        }
        add_hold(&mut self.holds, h)
    }

    /// Takes the request under a key out, provided that it is the one that is meant, where one is; gives
    /// its id.
    pub fn resolve_request(&mut self, session: &str, tool_use_id: &str, request_id: Option<&str>) -> (r:
        Option<String>)
        requires
            holds_wf(old(self)@.holds),
        ensures
            holds_wf(final(self)@.holds),
            match freed_at(old(self)@.holds, session@, tool_use_id@, opt_str(request_id)) {
                Some(i) => opt_text(r) == Some(old(self)@.holds[i].request_id) && final(self)@ == (
                Reception { holds: old(self)@.holds.remove(i), ..old(self)@ }),
                None => r is None && final(self)@ == old(self)@,
            },
    {
        proof {
            let hs = all_held(self.holds@);
            lemma_position(hs, session@, tool_use_id@, 0);
            match freed_at(hs, session@, tool_use_id@, opt_str(request_id)) {
                Some(i) => {
                    lemma_remove_wf(hs, i);
                },
                None => {},
            }
        }
        take_hold(&mut self.holds, session, tool_use_id, request_id)
    }

    /// Takes all requests of a session out.
    pub fn resolve_session(&mut self, session: &str) -> (out: Vec<Freed>)
        requires
            holds_wf(old(self)@.holds),
        ensures
            holds_wf(final(self)@.holds),
            final(self)@ == (Reception {
                holds: kept(old(self)@.holds, |h: Held| h.session != session@),
                ..old(self)@
            }),
            all_gone(out@) == dropped(old(self)@.holds, |h: Held| h.session != session@),
    {
        proof {
            lemma_kept_wf(all_held(self.holds@), |h: Held| h.session != session@);
        }
        take_session(&mut self.holds, session)
    }

    /// Takes the requests out whose time is up.
    pub fn sweep_expired(&mut self, now: u64) -> (out: Vec<Freed>)
        requires
            holds_wf(old(self)@.holds),
        ensures
            holds_wf(final(self)@.holds),
            final(self)@ == (Reception {
                holds: kept(old(self)@.holds, |h: Held| age(h, now) < h.timeout),
                ..old(self)@
            }),
            all_gone(out@) == dropped(old(self)@.holds, |h: Held| age(h, now) < h.timeout),
    {
        proof {
            lemma_kept_wf(all_held(self.holds@), |h: Held| age(h, now) < h.timeout);
        }
        take_expired(&mut self.holds, now)
    }

    /// Takes the requests out that their sessions no longer wait for.
    pub fn sweep_abandoned(&mut self, now: u64, facts: &[SessionFacts]) -> (out: Vec<Freed>)
        requires
            holds_wf(old(self)@.holds),
        ensures
            holds_wf(final(self)@.holds),
            final(self)@ == (Reception {
                holds: kept(
                    old(self)@.holds,
                    |h: Held| !abandoned(h, now, HOLD_SETTLE, facts@),
                ),
                ..old(self)@
            }),
            all_gone(out@) == dropped(
                old(self)@.holds,
                |h: Held| !abandoned(h, now, HOLD_SETTLE, facts@),
            ),
    {
        proof {
            lemma_kept_wf(
                all_held(self.holds@),
                |h: Held| !abandoned(h, now, HOLD_SETTLE, facts@),
            );
        }
        take_abandoned(&mut self.holds, now, HOLD_SETTLE, facts)
    }

    /// The sessions that have requests held, each once, in order.
    pub fn sessions_held(&self) -> (out: Vec<String>)
        ensures
            texts(out@) == sessions_of(self@.holds),
    {
        let ghost hs = all_held(self.holds@);
        let mut out: Vec<String> = Vec::new();
        let mut i: usize = 0;
        proof {
            assert(hs.take(0) =~= Seq::<Held>::empty());
            assert(texts(out@) =~= sessions_of(hs.take(0)));
        }
        while i < self.holds.len()
            invariant
                hs == all_held(self.holds@),
                i <= self.holds@.len(),
                texts(out@) == sessions_of(hs.take(i as int)),
            decreases self.holds@.len() - i,
        {
            proof {
                assert(hs.take(i + 1).drop_last() =~= hs.take(i as int));
                assert(hs.take(i + 1).last() == self.holds@[i as int]@);
            }
            let s = self.holds[i].session.as_str();
            if !text::holds(&out, s) {
                let n: usize = out.len();
                let k: usize = order::place_of(&out, n, s);
                let ghost was = texts(out@);
                proof {
                    assert(was.take(n as int) =~= was);
                }
                out.insert(k, s.to_owned());
                proof {
                    assert(texts(out@) =~= was.insert(k as int, s@));
                }
            }
            i += 1;
        }
        proof {
            assert(hs.take(i as int) =~= hs);
        }
        out
    }

    /// The tool uses of a session that have requests held, those held longest first.
    pub fn pending(&self, session: &str) -> (out: Vec<String>)
        ensures
            texts(out@) == pending_of(self@.holds, session@),
    {
        pending_holds(&self.holds, session)
    }

    /// How many requests are held.
    pub fn hold_count(&self) -> (n: usize)
        ensures
            n == self@.holds.len(),
    {
        self.holds.len()
    }

    /// The request that an answer goes to: its tool use and its id. `epoch` is the session's generation,
    /// and `gone` are the requests whose hooks no longer wait.
    pub fn respond(
        &self,
        session: &str,
        tool_use_id: Option<&str>,
        request_id: Option<&str>,
        epoch: i64,
        now: u64,
        gone: &[String],
    ) -> (r: Result<(String, String), RespondError>)
        ensures
            match reply(
                self@.holds,
                session@,
                opt_str(tool_use_id),
                opt_str(request_id),
                epoch,
                now,
                texts(gone@),
            ) {
                Ok((t, q)) => r matches Ok(p) && p.0@ == t && p.1@ == q,
                Err(t) => r matches Err(e) && e@ == (NoAnswer::NoPendingDecision {
                    session: session@,
                    tool_use_id: t,
                }),
            },
    {
        let ghost hs = all_held(self.holds@);
        let key: String = match request_id {
            Some(q) => {
                let mut found: Option<String> = None;
                let mut i: usize = 0;
                while i < self.holds.len() && found.is_none()
                    invariant
                        hs == all_held(self.holds@),
                        i <= self.holds@.len(),
                        found is None ==> with_request(hs, session@, q@, epoch, 0) == with_request(
                            hs,
                            session@,
                            q@,
                            epoch,
                            i as int,
                        ),
                        found matches Some(k) ==> with_request(hs, session@, q@, epoch, 0) is Some
                            && hs[with_request(hs, session@, q@, epoch, 0)->0].tool_use_id == k@,
                    decreases self.holds@.len() - i,
                {
                    let h = &self.holds[i];
                    proof {
                        assert(hs[i as int] == self.holds@[i as int]@);
                    }
                    if same(h.session.as_str(), session) && same(h.request_id.as_str(), q)
                        && h.epoch == epoch {
                        found = Some(h.tool_use_id.clone());
                    }
                    i += 1;
                }
                match found {
                    Some(k) => k,
                    None => {
                        return Err(
                            RespondError::NoPendingDecision {
                                session: session.to_owned(),
                                tool_use_id: q.to_owned(),
                            },
                        );
                    },
                }
            },
            None => match tool_use_id {
                Some(t) => t.to_owned(),
                None => {
                    let p = self.pending(session);
                    proof {
                        assert(texts(p@).len() == p@.len());
                        if p@.len() > 0 {
                            assert(texts(p@)[0] == p@[0]@);
                        }
                    }
                    if p.len() > 0 {
                        p[0].clone()
                    } else {
                        let s = String::new();
                        proof {
                            assert(s@ =~= Seq::<char>::empty());
                        }
                        s
                    }
                },
            },
        };
        match find_hold(&self.holds, session, key.as_str()) {
            Some(i) => {
                let h = &self.holds[i];
                proof {
                    assert(hs[i as int] == self.holds@[i as int]@);
                }
                let meant: bool = match request_id {
                    Some(q) => same(q, h.request_id.as_str()),
                    None => true,
                };
                let waited: u64 = if now >= h.since {
                    now - h.since
                } else {
                    0
                };
                if h.epoch == epoch && meant && waited < h.timeout && !text::holds(
                    gone,
                    h.request_id.as_str(),
                ) {
                    let id = h.request_id.clone();
                    Ok((key, id))
                } else {
                    Err(
                        RespondError::NoPendingDecision {
                            session: session.to_owned(),
                            tool_use_id: key,
                        },
                    )
                }
            },
            None => Err(
                RespondError::NoPendingDecision {
                    session: session.to_owned(),
                    tool_use_id: key,
                },
            ),
        }
    }

    /// Frees what an event releases.
    pub fn release(&mut self, key: &str, release: &Release) -> (out: Vec<Freed>)
        requires
            holds_wf(old(self)@.holds),
        ensures
            holds_wf(final(self)@.holds),
            final(self)@ == (Reception {
                holds: released_holds(old(self)@.holds, key@, release@),
                ..old(self)@
            }),
            all_gone(out@) == released_gone(old(self)@.holds, key@, release@),
    {
        match release {
            Release::ToolUse(keys) => {
                let ghost ks = texts(keys@);
                let ghost start = self@;
                let mut out: Vec<Freed> = Vec::new();
                let mut i: usize = 0;
                proof {
                    assert(ks.take(0) =~= Seq::<Seq<char>>::empty());
                    assert(all_gone(out@) =~= keys_gone(start.holds, key@, ks.take(0)));
                }
                while i < keys.len()
                    invariant
                        ks == texts(keys@),
                        i <= keys@.len(),
                        holds_wf(self@.holds),
                        self@ == (Reception {
                            holds: keys_released(start.holds, key@, ks.take(i as int)),
                            ..start
                        }),
                        all_gone(out@) == keys_gone(start.holds, key@, ks.take(i as int)),
                    decreases keys@.len() - i,
                {
                    proof {
                        assert(ks.take(i + 1).drop_last() =~= ks.take(i as int));
                        assert(ks.take(i + 1).last() == keys@[i as int]@);
                    }
                    let ghost now = self@.holds;
                    let ghost was = all_gone(out@);
                    match self.resolve_request(key, keys[i].as_str(), None) {
                        Some(id) => {
                            proof {
                                lemma_position(now, key@, keys@[i as int]@, 0);
                            }
                            let f = Freed {
                                session: key.to_owned(),
                                tool_use_id: keys[i].clone(),
                                request_id: id,
                            };
                            let ghost fv = f@;
                            out.push(f);
                            proof {
                                assert(all_gone(out@) =~= was.push(fv));
                            }
                        },
                        None => {},
                    }
                    i += 1;
                }
                proof {
                    assert(ks.take(i as int) =~= ks);
                }
                out
            },
            Release::Session => self.resolve_session(key),
            Release::Nothing => {
                let out: Vec<Freed> = Vec::new();
                proof {
                    assert(all_gone(out@) =~= Seq::<Gone>::empty());
                }
                out
            },
        }
    }

    /// Frees what an event that was applied to the session `key` releases.
    pub fn settle(&mut self, host: Host, delivery: &Delivery, key: &str) -> (freed: Vec<Freed>)
        requires
            holds_wf(old(self)@.holds),
        ensures
            holds_wf(final(self)@.holds),
            all_gone(freed@) == released_gone(
                old(self)@.holds,
                key@,
                host.releasing(delivery@.payload),
            ),
            final(self)@ == (Reception {
                holds: released_holds(
                    old(self)@.holds,
                    key@,
                    host.releasing(delivery@.payload),
                ),
                ..old(self)@
            }),
    {
        let rel = host.release_for(&delivery.payload);
        self.release(key, &rel)
    }

    /// Enters an event in the ledger that was applied to the session `key` and whose file was put away.
    pub fn enter(&mut self, delivery: &Delivery, key: &str) -> (r: Received)
        ensures
            ({
                let t = Taken {
                    session_key: key@,
                    event: crate::adapter::hooks::event_of(delivery@.payload),
                    delivery: delivery@,
                };
                &&& r@ == t
                &&& final(self)@ == (Reception { ledger: old(self)@.ledger.push(t), ..old(self)@ })
            }),
    {
        let event = text::owned_opt(crate::adapter::hooks::event_name(&delivery.payload));
        let received = Received {
            session_key: key.to_owned(),
            event,
            delivery: copy_delivery(delivery),
        };
        let copy = copy_received(&received);
        let ghost was = all_taken(self.ledger@);
        let ghost cv = copy@;
        self.ledger.push(copy);
        proof {
            assert(all_taken(self.ledger@) =~= was.push(cv));
        }
        received
    }

    /// The events that were applied, in order.
    pub fn received(&self) -> (r: &Vec<Received>)
        ensures
            all_taken(r@) == self@.ledger,
    {
        &self.ledger
    }

    /// The events that were applied to a session, in order.
    pub fn received_for(&self, session: &str) -> (out: Vec<Received>)
        ensures
            all_taken(out@) == taken_for(self@.ledger, session@),
    {
        let ghost l = all_taken(self.ledger@);
        let mut out: Vec<Received> = Vec::new();
        let mut i: usize = 0;
        proof {
            assert(l.take(0) =~= Seq::<Taken>::empty());
            assert(all_taken(out@) =~= taken_for(l.take(0), session@));
        }
        while i < self.ledger.len()
            invariant
                l == all_taken(self.ledger@),
                i <= self.ledger@.len(),
                all_taken(out@) == taken_for(l.take(i as int), session@),
            decreases self.ledger@.len() - i,
        {
            proof {
                assert(l.take(i + 1).drop_last() =~= l.take(i as int));
                assert(l.take(i + 1).last() == self.ledger@[i as int]@);
            }
            if same(self.ledger[i].session_key.as_str(), session) {
                let ghost was = all_taken(out@);
                let c = copy_received(&self.ledger[i]);
                let ghost cv = c@;
                out.push(c);
                proof {
                    assert(all_taken(out@) =~= was.push(cv));
                }
            }
            i += 1;
        }
        proof {
            assert(l.take(i as int) =~= l);
        }
        out
    }
}

/// The events that were applied to a session.
pub open spec fn taken_for(l: Seq<Taken>, s: Seq<char>) -> Seq<Taken>
    decreases l.len(),
{
    if l.len() == 0 {
        l
    } else {
        let r = taken_for(l.drop_last(), s);
        if l.last().session_key == s {
            r.push(l.last())
        } else {
            r
        }
    }
}

/// The requests that are left when those under some keys of a session are freed.
pub open spec fn keys_released(hs: Seq<Held>, s: Seq<char>, keys: Seq<Seq<char>>) -> Seq<Held>
    decreases keys.len(),
{
    if keys.len() == 0 {
        hs
    } else {
        let r = keys_released(hs, s, keys.drop_last());
        match position(r, s, keys.last(), 0) {
            Some(i) => r.remove(i),
            None => r,
        }
    }
}

/// The requests that are freed with some keys of a session.
pub open spec fn keys_gone(hs: Seq<Held>, s: Seq<char>, keys: Seq<Seq<char>>) -> Seq<Gone>
    decreases keys.len(),
{
    if keys.len() == 0 {
        Seq::empty()
    } else {
        let r = keys_released(hs, s, keys.drop_last());
        let g = keys_gone(hs, s, keys.drop_last());
        match position(r, s, keys.last(), 0) {
            Some(i) => g.push(
                Gone { session: s, tool_use_id: keys.last(), request_id: r[i].request_id },
            ),
            None => g,
        }
    }
}

/// The requests that are left after a release.
pub open spec fn released_holds(hs: Seq<Held>, s: Seq<char>, r: Released) -> Seq<Held> {
    match r {
        Released::ToolUse(keys) => keys_released(hs, s, keys),
        Released::Session => kept(hs, |h: Held| h.session != s),
        Released::Nothing => hs,
    }
}

/// The requests that a release frees.
pub open spec fn released_gone(hs: Seq<Held>, s: Seq<char>, r: Released) -> Seq<Gone> {
    match r {
        Released::ToolUse(keys) => keys_gone(hs, s, keys),
        Released::Session => dropped(hs, |h: Held| h.session != s),
        Released::Nothing => Seq::empty(),
    }
}

/// What an event frees is of its own session: no request of another one goes with it.
pub proof fn lemma_release_stays_in_session(
    hs: Seq<Held>,
    s: Seq<char>,
    keys: Seq<Seq<char>>,
    i: int,
)
    requires
        0 <= i < hs.len(),
        hs[i].session != s,
    ensures
        keys_released(hs, s, keys).contains(hs[i]),
    decreases keys.len(),
{
    if keys.len() == 0 {
        assert(keys_released(hs, s, keys)[i] == hs[i]);
    } else {
        lemma_release_stays_in_session(hs, s, keys.drop_last(), i);
        let r = keys_released(hs, s, keys.drop_last());
        lemma_position(r, s, keys.last(), 0);
        let k = r.index_of(hs[i]);
        match position(r, s, keys.last(), 0) {
            Some(j) => {
                assert(k != j);
                let k2 = if k < j {
                    k
                } else {
                    k - 1
                };
                assert(r.remove(j)[k2] == hs[i]);
            },
            None => {
                assert(r[k] == hs[i]);
            },
        }
    }
}

proof fn lemma_with_request(hs: Seq<Held>, s: Seq<char>, q: Seq<char>, epoch: i64, i: int)
    requires
        0 <= i <= hs.len(),
    ensures
        match with_request(hs, s, q, epoch, i) {
            Some(k) => i <= k < hs.len() && hs[k].session == s && hs[k].request_id == q && hs[k].epoch
                == epoch,
            None => forall|k: int|
                i <= k < hs.len() ==> !((#[trigger] hs[k]).session == s && hs[k].request_id == q
                    && hs[k].epoch == epoch),
        },
    decreases hs.len() - i,
{
    if i < hs.len() && !(hs[i].session == s && hs[i].request_id == q && hs[i].epoch == epoch) {
        lemma_with_request(hs, s, q, epoch, i + 1);
    }
}

proof fn lemma_position_is(hs: Seq<Held>, i: int)
    requires
        holds_wf(hs),
        0 <= i < hs.len(),
    ensures
        position(hs, hs[i].session, hs[i].tool_use_id, 0) == Some(i),
{
    lemma_position(hs, hs[i].session, hs[i].tool_use_id, 0);
    let k = position(hs, hs[i].session, hs[i].tool_use_id, 0)->0;
    if k < i {
        assert(!(hs[k].session == hs[i].session && hs[k].tool_use_id == hs[i].tool_use_id));
    } else if i < k {
        assert(!(hs[i].session == hs[k].session && hs[i].tool_use_id == hs[k].tool_use_id));
    }
}

/// Whether the request `h` waits for an answer in the generation `epoch` of its session at `now`: it is of
/// that generation, less time has passed since it came than it is held for, and its hook has not gone.
pub open spec fn waits(h: Held, epoch: i64, now: int, gone: Seq<Seq<char>>) -> bool {
    h.epoch == epoch && h.since <= now < h.since + h.timeout && !gone.contains(h.request_id)
}

/// An answer reaches none but a request that waits: one of the session it is given to, the one that it
/// names by its id or else by its tool use, where it names one.
pub proof fn lemma_answers_reach_only_what_waits(
    hs: Seq<Held>,
    session: Seq<char>,
    tool_use: Option<Seq<char>>,
    request: Option<Seq<char>>,
    epoch: i64,
    now: u64,
    gone: Seq<Seq<char>>,
)
    requires
        holds_wf(hs),
        forall|i: int| 0 <= i < hs.len() ==> (#[trigger] hs[i]).since <= now,
    ensures
        reply(hs, session, tool_use, request, epoch, now, gone) matches Ok((t, q)) ==> {
            &&& exists|i: int|
                {
                    &&& 0 <= i < hs.len()
                    &&& (#[trigger] hs[i]).session == session
                    &&& hs[i].tool_use_id == t
                    &&& hs[i].request_id == q
                    &&& waits(hs[i], epoch, now as int, gone)
                }
            &&& request is Some ==> request == Some(q)
            &&& request is None && tool_use is Some ==> tool_use == Some(t)
        },
{
    match request {
        Some(q) => {
            lemma_with_request(hs, session, q, epoch, 0);
        },
        None => {},
    }
    match meant(hs, session, tool_use, request, epoch) {
        Ok(key) => {
            lemma_position(hs, session, key, 0);
            match position(hs, session, key, 0) {
                Some(i) => {
                    assert(hs[i].session == session);
                },
                None => {},
            }
        },
        Err(_) => {},
    }
}

/// A request that waits is reached: by an answer that names its tool use, by one that names its id, where
/// no other request of the session has that id, and by one that names nothing, where it is the only
/// request of its session. Once its time is up, or its hook has gone, or its session has another
/// generation, none of these reaches it.
pub proof fn lemma_what_waits_is_reached(
    hs: Seq<Held>,
    i: int,
    tool_use: Option<Seq<char>>,
    epoch: i64,
    now: u64,
    gone: Seq<Seq<char>>,
)
    requires
        holds_wf(hs),
        0 <= i < hs.len(),
        hs[i].since <= now,
    ensures
        ({
            let h = hs[i];
            let there = Ok::<(Seq<char>, Seq<char>), Seq<char>>((h.tool_use_id, h.request_id));
            let by_tool_use = reply(hs, h.session, Some(h.tool_use_id), None, epoch, now, gone);
            let by_id = reply(hs, h.session, tool_use, Some(h.request_id), epoch, now, gone);
            let by_nothing = reply(hs, h.session, None, None, epoch, now, gone);
            let only_id = forall|k: int|
                0 <= k < hs.len() && (#[trigger] hs[k]).session == h.session && hs[k].request_id
                    == h.request_id ==> k == i;
            let only_one = forall|k: int|
                0 <= k < hs.len() && (#[trigger] hs[k]).session == h.session ==> k == i;
            if waits(h, epoch, now as int, gone) {
                by_tool_use == there && (only_id ==> by_id == there) && (only_one ==> by_nothing == there)
            } else {
                by_tool_use is Err && (only_id ==> by_id is Err) && (only_one ==> by_nothing is Err)
            }
        }),
{
    let h = hs[i];
    lemma_position_is(hs, i);
    lemma_with_request(hs, h.session, h.request_id, epoch, 0);
    if forall|k: int|
        0 <= k < hs.len() && (#[trigger] hs[k]).session == h.session && hs[k].request_id == h.request_id
            ==> k == i {
        match with_request(hs, h.session, h.request_id, epoch, 0) {
            Some(k) => {
                assert(hs[k].session == h.session);
            },
            None => {
                assert(hs[i].epoch != epoch);
            },
        }
    }
    if forall|k: int| 0 <= k < hs.len() && (#[trigger] hs[k]).session == h.session ==> k == i {
        lemma_only_age(hs, hs.len() as int, i);
        assert(hs.take(hs.len() as int) =~= hs);
        let a = ages_of(hs, h.session);
        lemma_by_age(a);
        let b = crate::hook::holds::by_age(a);
        a.to_multiset_ensures();
        b.to_multiset_ensures();
        assert(a[0] == (h.since, h.tool_use_id));
        assert(b.len() == 1);
        assert(b.contains(b[0]));
        assert(a.to_multiset().count(b[0]) > 0);
        assert(a.contains(b[0]));
        assert(b[0] == a[0]);
        assert(pending_of(hs, h.session)[0] == h.tool_use_id);
    }
}

proof fn lemma_only_age(hs: Seq<Held>, n: int, i: int)
    requires
        0 <= i < hs.len(),
        0 <= n <= hs.len(),
        forall|k: int| 0 <= k < hs.len() && (#[trigger] hs[k]).session == hs[i].session ==> k == i,
    ensures
        ages_of(hs.take(n), hs[i].session) == (if i < n {
            seq![(hs[i].since, hs[i].tool_use_id)]
        } else {
            Seq::empty()
        }),
    decreases n,
{
    if n > 0 {
        lemma_only_age(hs, n - 1, i);
        assert(hs.take(n).drop_last() =~= hs.take(n - 1));
        assert(hs.take(n).last() == hs[n - 1]);
        assert(ages_of(hs.take(n), hs[i].session) =~= (if i < n {
            seq![(hs[i].since, hs[i].tool_use_id)]
        } else {
            Seq::empty()
        }));
    } else {
        assert(hs.take(n) =~= Seq::<Held>::empty());
    }
}

/// A request that was just held is there under its key, takes the place of none but the one under the same
/// key, and leaves all others as they were; held at `t0` for `timeout`, it is reached by an answer to its
/// tool use at every time from `t0` on before `t0 + timeout`, and at none from then on.
pub proof fn lemma_held_is_answered(hs: Seq<Held>, h: Held, now: u64, gone: Seq<Seq<char>>)
    requires
        holds_wf(hs),
        !is_full(hs, h.session),
        !gone.contains(h.request_id),
        h.since <= now,
    ensures
        ({
            let after = with_hold(hs, h);
            let r = reply(after, h.session, Some(h.tool_use_id), None, h.epoch, now, gone);
            &&& now < h.since + h.timeout ==> r == Ok::<(Seq<char>, Seq<char>), Seq<char>>(
                (h.tool_use_id, h.request_id),
            )
            &&& now >= h.since + h.timeout ==> r is Err
            &&& after.contains(h)
            &&& forall|k: int|
                0 <= k < hs.len() && !((#[trigger] hs[k]).session == h.session && hs[k].tool_use_id
                    == h.tool_use_id) ==> after.contains(hs[k])
            &&& forall|x: Held| #[trigger] after.contains(x) ==> x == h || hs.contains(x)
        }),
{
    let after = with_hold(hs, h);
    lemma_with_hold_wf(hs, h);
    lemma_position(hs, h.session, h.tool_use_id, 0);
    let at = match position(hs, h.session, h.tool_use_id, 0) {
        Some(i) => i,
        None => hs.len() as int,
    };
    assert(after[at] == h);
    lemma_what_waits_is_reached(after, at, None, h.epoch, now, gone);
    assert forall|k: int|
        0 <= k < hs.len() && !((#[trigger] hs[k]).session == h.session && hs[k].tool_use_id
            == h.tool_use_id) implies after.contains(hs[k]) by {
        assert(after[k] == hs[k]);
    }
    assert forall|x: Held| #[trigger] after.contains(x) implies x == h || hs.contains(x) by {
        let k = after.index_of(x);
        if k != at {
            assert(hs[k] == x);
        }
    }
}

/// A request that was taken out is no longer reached, and the others are reached as before.
pub proof fn lemma_taken_out_is_not_reached(
    hs: Seq<Held>,
    i: int,
    session: Seq<char>,
    t: Seq<char>,
    epoch: i64,
    now: u64,
    gone: Seq<Seq<char>>,
)
    requires
        holds_wf(hs),
        0 <= i < hs.len(),
    ensures
        freed_at(hs, hs[i].session, hs[i].tool_use_id, None) == Some(i),
        freed_at(hs, hs[i].session, hs[i].tool_use_id, Some(hs[i].request_id)) == Some(i),
        forall|q: Seq<char>|
            q != hs[i].request_id ==> #[trigger] freed_at(
                hs,
                hs[i].session,
                hs[i].tool_use_id,
                Some(q),
            ) is None,
        reply(hs.remove(i), hs[i].session, Some(hs[i].tool_use_id), None, epoch, now, gone) is Err,
        !(session == hs[i].session && t == hs[i].tool_use_id) ==> reply(
            hs.remove(i),
            session,
            Some(t),
            None,
            epoch,
            now,
            gone,
        ) == reply(hs, session, Some(t), None, epoch, now, gone),
{
    let w = hs.remove(i);
    lemma_remove_wf(hs, i);
    lemma_position_is(hs, i);
    lemma_position(w, hs[i].session, hs[i].tool_use_id, 0);
    match position(w, hs[i].session, hs[i].tool_use_id, 0) {
        Some(k) => {
            let k2 = if k < i {
                k
            } else {
                k + 1
            };
            assert(w[k] == hs[k2]);
            lemma_position_is(hs, k2);
        },
        None => {},
    }
    if !(session == hs[i].session && t == hs[i].tool_use_id) {
        lemma_position(hs, session, t, 0);
        lemma_position(w, session, t, 0);
        match position(hs, session, t, 0) {
            Some(k) => {
                let k2 = if k < i {
                    k
                } else {
                    k - 1
                };
                assert(w[k2] == hs[k]);
                lemma_position_is(w, k2);
            },
            None => {
                match position(w, session, t, 0) {
                    Some(k) => {
                        let k2 = if k < i {
                            k
                        } else {
                            k + 1
                        };
                        assert(w[k] == hs[k2]);
                    },
                    None => {},
                }
            },
        }
    }
}

/// An answer that names nothing goes to the request of the session that has waited longest.
pub proof fn lemma_the_longest_waiting_comes_first(hs: Seq<Held>, session: Seq<char>, k: int)
    requires
        0 <= k < hs.len(),
        hs[k].session == session,
    ensures
        meant(hs, session, None, None, 0) is Ok,
        exists|i: int|
            {
                &&& 0 <= i < hs.len()
                &&& (#[trigger] hs[i]).session == session
                &&& meant(hs, session, None, None, 0) == Ok::<Seq<char>, Seq<char>>(hs[i].tool_use_id)
                &&& hs[i].since <= hs[k].since
            },
{
    let a = ages_of(hs, session);
    let b = crate::hook::holds::by_age(a);
    lemma_by_age(a);
    lemma_age_of(hs, session, k);
    a.to_multiset_ensures();
    b.to_multiset_ensures();
    let x = (hs[k].since, hs[k].tool_use_id);
    assert(a.contains(x));
    assert(b.to_multiset().count(x) > 0);
    assert(b.contains(x));
    let j = b.index_of(x);
    assert(b.contains(b[0]));
    assert(a.to_multiset().count(b[0]) > 0);
    assert(a.contains(b[0]));
    lemma_age_from(hs, session, b[0]);
    if j > 0 {
        assert(!crate::hook::holds::sooner(b[j], b[0]));
    }
    assert(pending_of(hs, session)[0] == b[0].1);
}

proof fn lemma_age_of(hs: Seq<Held>, session: Seq<char>, k: int)
    requires
        0 <= k < hs.len(),
        hs[k].session == session,
    ensures
        ages_of(hs, session).contains((hs[k].since, hs[k].tool_use_id)),
    decreases hs.len(),
{
    let r = ages_of(hs.drop_last(), session);
    let x = (hs[k].since, hs[k].tool_use_id);
    let all = ages_of(hs, session);
    if k < hs.len() - 1 {
        lemma_age_of(hs.drop_last(), session, k);
        let j = r.index_of(x);
        assert(all[j] == x);
    } else {
        assert(all.last() == x);
    }
}

proof fn lemma_age_from(hs: Seq<Held>, session: Seq<char>, x: (u64, Seq<char>))
    requires
        ages_of(hs, session).contains(x),
    ensures
        exists|i: int|
            0 <= i < hs.len() && (#[trigger] hs[i]).session == session && hs[i].since == x.0
                && hs[i].tool_use_id == x.1,
    decreases hs.len(),
{
    if hs.len() > 0 {
        let p = hs.drop_last();
        let r = ages_of(p, session);
        let all = ages_of(hs, session);
        let j = all.index_of(x);
        if r.contains(x) {
            lemma_age_from(p, session, x);
            let i = choose|i: int|
                0 <= i < p.len() && (#[trigger] p[i]).session == session && p[i].since == x.0
                    && p[i].tool_use_id == x.1;
            assert(hs[i] == p[i]);
        } else {
            if j < r.len() {
                assert(r[j] == x);
            }
            assert(hs[hs.len() - 1].session == session);
        }
    }
}

/// Whether a request of the session `s` is among what is released.
pub open spec fn is_released(h: Held, s: Seq<char>, r: Released) -> bool {
    h.session == s && match r {
        Released::ToolUse(keys) => keys.contains(h.tool_use_id),
        Released::Session => true,
        Released::Nothing => false,
    }
}

proof fn lemma_keys_released(hs: Seq<Held>, s: Seq<char>, keys: Seq<Seq<char>>, x: Held)
    requires
        holds_wf(hs),
    ensures
        holds_wf(keys_released(hs, s, keys)),
        keys_released(hs, s, keys).contains(x) <==> hs.contains(x) && !(x.session == s
            && keys.contains(x.tool_use_id)),
        hs.contains(x) ==> (x.session == s && keys.contains(x.tool_use_id) ==> keys_gone(
            hs,
            s,
            keys,
        ).contains(as_gone(x))),
    decreases keys.len(),
{
    if keys.len() > 0 {
        let ks = keys.drop_last();
        let l = keys.last();
        let r = keys_released(hs, s, ks);
        let g = keys_gone(hs, s, ks);
        lemma_keys_released(hs, s, ks, x);
        assert(ks.push(l) =~= keys);
        lemma_push_has(ks, l, x.tool_use_id);
        lemma_position(r, s, l, 0);
        match position(r, s, l, 0) {
            Some(i) => {
                lemma_remove_wf(r, i);
                let after = r.remove(i);
                let freed = Gone { session: s, tool_use_id: l, request_id: r[i].request_id };
                lemma_push_has(g, freed, as_gone(x));
                if after.contains(x) {
                    let k = after.index_of(x);
                    let m = if k < i {
                        k
                    } else {
                        k + 1
                    };
                    assert(r[m] == x);
                    assert(!(r[m].session == s && r[m].tool_use_id == l)) by {
                        if m < i {
                            assert(!(r[m].session == r[i].session && r[m].tool_use_id
                                == r[i].tool_use_id));
                        } else {
                            assert(!(r[i].session == r[m].session && r[i].tool_use_id
                                == r[m].tool_use_id));
                        }
                    }
                }
                if r.contains(x) {
                    let k = r.index_of(x);
                    if x.session == s && x.tool_use_id == l {
                        if k < i {
                            assert(!(r[k].session == r[i].session && r[k].tool_use_id
                                == r[i].tool_use_id));
                        } else if i < k {
                            assert(!(r[i].session == r[k].session && r[i].tool_use_id
                                == r[k].tool_use_id));
                        }
                        assert(as_gone(x) == freed);
                    } else if k < i {
                        assert(after[k] == x);
                    } else {
                        assert(after[k - 1] == x);
                    }
                }
            },
            None => {
                if r.contains(x) {
                    let k = r.index_of(x);
                    assert(!(r[k].session == s && r[k].tool_use_id == l));
                }
            },
        }
    }
}

/// What is released is what is told, of the session that is told of, and nothing else: all other requests go
/// on waiting, and each that waits no longer is told as gone.
pub proof fn lemma_what_is_released(hs: Seq<Held>, s: Seq<char>, r: Released, x: Held)
    requires
        holds_wf(hs),
        hs.contains(x),
    ensures
        released_holds(hs, s, r).contains(x) <==> !is_released(x, s, r),
        is_released(x, s, r) ==> released_gone(hs, s, r).contains(as_gone(x)),
        r is Nothing ==> released_holds(hs, s, r) == hs && released_gone(hs, s, r).len() == 0,
{
    match r {
        Released::ToolUse(keys) => {
            lemma_keys_released(hs, s, keys, x);
        },
        Released::Session => {
            let keep = |h: Held| h.session != s;
            let i = hs.index_of(x);
            assert(hs[i] == x);
            lemma_kept_has(hs, keep, x, as_gone(x));
        },
        Released::Nothing => {},
    }
}

/// A sweep at `now` takes out what nobody can answer any more at that time and leaves what can be answered:
/// whatever is left and is not given up is reached by an answer, and what was taken out was reached by none.
pub proof fn lemma_a_sweep_takes_what_cannot_be_answered(
    hs: Seq<Held>,
    x: Held,
    now: u64,
    gone: Seq<Seq<char>>,
)
    requires
        holds_wf(hs),
        hs.contains(x),
        x.since <= now,
        !gone.contains(x.request_id),
    ensures
        kept(hs, |h: Held| age(h, now) < h.timeout).contains(x) <==> reply(
            hs,
            x.session,
            Some(x.tool_use_id),
            None,
            x.epoch,
            now,
            gone,
        ) is Ok,
        dropped(hs, |h: Held| age(h, now) < h.timeout).contains(as_gone(x)) <== reply(
            hs,
            x.session,
            Some(x.tool_use_id),
            None,
            x.epoch,
            now,
            gone,
        ) is Err,
{
    let keep = |h: Held| age(h, now) < h.timeout;
    let i = hs.index_of(x);
    assert(hs[i] == x);
    lemma_kept_has(hs, keep, x, as_gone(x));
    lemma_what_waits_is_reached(hs, i, None, x.epoch, now, gone);
}

/// An end that another conversation goes on from is one by `clear` or `resume`, and nothing else is. In a
/// session that ends with it no `clear` is left: the end stays, with another reason, and whatever else
/// happened stays as it is.
pub proof fn lemma_ends_that_go_on(h: Happening)
    ensures
        is_handoff(h) <==> h == Happening::SessionEnded(Some("clear"@)) || h
            == Happening::SessionEnded(Some("resume"@)),
        ended_by_clear(h) != Happening::SessionEnded(Some("clear"@)),
        h is SessionEnded <==> ended_by_clear(h) is SessionEnded,
        h != Happening::SessionEnded(Some("clear"@)) ==> ended_by_clear(h) == h,
        h == Happening::SessionEnded(Some("clear"@)) ==> !is_handoff(ended_by_clear(h)),
{
    reveal_strlit("clear");
    reveal_strlit("resume");
    reveal_strlit("clear (external row: the new id lands on a new row)");
    assert("clear"@.len() == 5);
    assert("resume"@.len() == 6);
    assert(CLEAR_ENDS_EXTERNAL_ROW@.len() == 51);
}

/// A file is due once it has lain for the time that it is left alone, and stays so; one that was changed after
/// now is due at once, so that a clock that was set back holds up nothing.
pub proof fn lemma_when_a_file_is_due(now: u64, later: u64, limit: u64, modified: u64, name: Seq<char>)
    requires
        modified <= now <= later,
    ensures
        is_due(now, limit, Some(modified), name) <==> modified + limit <= now,
        is_due(now, limit, Some(modified), name) ==> is_due(later, limit, Some(modified), name),
        now < later ==> is_due(now, limit, Some(later), name),
        is_due(now, 0, None, name),
        name_seconds(name) is Some && name_seconds(name)->0 * 1000 <= now ==> (is_due(
            now,
            limit,
            None,
            name,
        ) <==> name_seconds(name)->0 * 1000 + limit <= now),
        name_seconds(name) is None ==> is_due(now, limit, None, name),
{
}

/// The deliveries of a session are those that came under its key, all of them and in their order.
pub proof fn lemma_deliveries_of_a_session(l: Seq<Taken>, s: Seq<char>, x: Taken)
    ensures
        taken_for(l, s).contains(x) <==> l.contains(x) && x.session_key == s,
        taken_for(l.push(x), s) == (if x.session_key == s {
            taken_for(l, s).push(x)
        } else {
            taken_for(l, s)
        }),
    decreases l.len(),
{
    assert(l.push(x).drop_last() =~= l);
    if l.len() > 0 {
        let w = l.drop_last();
        lemma_deliveries_of_a_session(w, s, x);
        assert(w.push(l.last()) =~= l);
        lemma_push_has(w, l.last(), x);
        lemma_push_has(taken_for(w, s), l.last(), x);
    }
}

/// The sessions that something waits in are named each once, in order, and no other is.
pub proof fn lemma_sessions_that_wait(hs: Seq<Held>, s: Seq<char>)
    ensures
        sessions_of(hs).contains(s) <==> exists|i: int| 0 <= i < hs.len() && (#[trigger] hs[i]).session == s,
        order::sorted(sessions_of(hs)),
        sessions_of(hs).no_duplicates(),
    decreases hs.len(),
{
    if hs.len() > 0 {
        let w = hs.drop_last();
        let l = hs.last().session;
        let r = sessions_of(w);
        lemma_sessions_that_wait(w, s);
        if exists|i: int| 0 <= i < w.len() && (#[trigger] w[i]).session == s {
            let i = choose|i: int| 0 <= i < w.len() && (#[trigger] w[i]).session == s;
            assert(hs[i].session == s);
        }
        if exists|i: int| 0 <= i < hs.len() && (#[trigger] hs[i]).session == s {
            let i = choose|i: int| 0 <= i < hs.len() && (#[trigger] hs[i]).session == s;
            if i < w.len() {
                assert(w[i].session == s);
            }
        }
        assert(hs[hs.len() - 1].session == l);
        if !r.contains(l) {
            order::lemma_place_in(r, l);
            let k = order::place_in(r, l);
            let u = r.insert(k, l);
            assert(u[k] == l);
            if r.contains(s) {
                let m = r.index_of(s);
                if m < k {
                    assert(u[m] == s);
                } else {
                    assert(u[m + 1] == s);
                }
            }
            if u.contains(s) && s != l {
                let m = u.index_of(s);
                if m < k {
                    assert(r[m] == s);
                } else {
                    assert(r[m - 1] == s);
                }
            }
            assert forall|a: int, b: int| 0 <= a < b < u.len() implies u[a] != u[b] by {
                let x = if a < k {
                    a
                } else {
                    a - 1
                };
                let y = if b < k {
                    b
                } else {
                    b - 1
                };
                if a == k {
                    assert(u[b] == r[y]);
                } else if b == k {
                    assert(u[a] == r[x]);
                } else {
                    assert(u[a] == r[x] && u[b] == r[y]);
                }
            }
        }
    }
}

/// The files that could not be read and are still there are remembered, and no others.
pub proof fn lemma_what_is_still_there(paths: Seq<Seq<char>>, existing: Seq<Seq<char>>, p: Seq<char>)
    ensures
        still_there(paths, existing).contains(p) <==> paths.contains(p) && existing.contains(p),
    decreases paths.len(),
{
    if paths.len() > 0 {
        let w = paths.drop_last();
        lemma_what_is_still_there(w, existing, p);
        assert(w.push(paths.last()) =~= paths);
        lemma_push_has(w, paths.last(), p);
        lemma_push_has(still_there(w, existing), paths.last(), p);
    }
}

/// The text for a request is that of the first decision that is asked for; where none is, there is none.
pub proof fn lemma_the_first_summary(hs: Seq<Happening>, i: int)
    requires
        0 <= i <= hs.len(),
    ensures
        first_summary(hs, i) is None <==> forall|k: int|
            i <= k < hs.len() ==> !((#[trigger] hs[k]) is DecisionNeeded),
        first_summary(hs, i) is Some ==> exists|k: int|
            {
                &&& i <= k < hs.len()
                &&& (#[trigger] hs[k]) is DecisionNeeded
                &&& first_summary(hs, i) == Some(hs[k]->summary)
                &&& forall|m: int| i <= m < k ==> !((#[trigger] hs[m]) is DecisionNeeded)
            },
    decreases hs.len() - i,
{
    if i < hs.len() {
        lemma_the_first_summary(hs, i + 1);
        if hs[i] is DecisionNeeded {
            assert(first_summary(hs, i) == Some(hs[i]->summary));
        } else if first_summary(hs, i + 1) is Some {
            let k = choose|k: int|
                {
                    &&& i + 1 <= k < hs.len()
                    &&& (#[trigger] hs[k]) is DecisionNeeded
                    &&& first_summary(hs, i + 1) == Some(hs[k]->summary)
                    &&& forall|m: int| i + 1 <= m < k ==> !((#[trigger] hs[m]) is DecisionNeeded)
                };
            assert(hs[k] is DecisionNeeded);
        }
    }
}

/// The state of a session is rebuilt from the archive where none was stored, and where it was stored in the
/// first form for a session without a pane that was found by its hooks alone; in no other case.
pub proof fn lemma_whose_state_is_rebuilt(row: ArchiveRow)
    ensures
        rebuilds(row) <==> !row.has_checkpoint || (row.legacy && !row.has_runtime && (row.origin
            == Origin::External || row.origin == Origin::Headless)),
        row.origin == Origin::Agora || row.origin == Origin::Adopted ==> !is_bare(row),
        row.has_runtime ==> !is_bare(row),
{
}

/// Deliveries of one session have one key: its own id where it has one, and else the agent and its
/// conversation.
pub proof fn lemma_keys_of_deliveries(a: Cover, b: Cover)
    ensures
        a.agora_session_id matches Some(id) ==> key_text(a) == id,
        a.agora_session_id is None && b.agora_session_id is None && a.host == b.host && !a.host.contains(
            ':',
        ) ==> (key_text(a) == key_text(b) <==> a.agent_session_id == b.agent_session_id),
{
    if a.host == b.host && key_text(a) == key_text(b) && a.agora_session_id is None
        && b.agora_session_id is None {
        let p = a.host + ":"@;
        assert((p + a.agent_session_id).skip(p.len() as int) =~= a.agent_session_id);
        assert((p + b.agent_session_id).skip(p.len() as int) =~= b.agent_session_id);
    }
}

/// Whether the archive is to be gone through for what is too old, where that was last done at `last`.
pub open spec fn prune_is_due(last: Option<u64>, interval: u64, now: u64) -> bool {
    match last {
        Some(t) => (if now >= t {
            now - t
        } else {
            0
        }) >= interval,
        None => true,
    }
}

/// How long a request is held, in milliseconds, where its host waits for so many seconds.
pub open spec fn hold_time(host_seconds: int, limit: int) -> int {
    if host_seconds * 1000 < limit {
        host_seconds * 1000
    } else {
        limit
    }
}

/// A request is held for as long as its host waits, and never longer than is allowed here.
pub proof fn lemma_how_long_a_request_is_held(host_seconds: int, limit: int)
    ensures
        hold_time(host_seconds, limit) <= limit,
        hold_time(host_seconds, limit) <= host_seconds * 1000,
        hold_time(host_seconds, limit) == limit || hold_time(host_seconds, limit) == host_seconds * 1000,
{
}

/// The archive is gone through once, and then again whenever the interval has passed.
pub proof fn lemma_when_the_archive_is_gone_through(last: u64, interval: u64, now: u64)
    requires
        last <= now,
    ensures
        prune_is_due(None, interval, now),
        prune_is_due(Some(last), interval, now) <==> last + interval <= now,
{
}

/// A delivery is from an earlier start only where it says which: the one of the start that the session is at
/// is not, that of one before it is, and what is so stays so as the session is started again.
pub proof fn lemma_deliveries_of_earlier_starts(c: Cover, e: i64, now: i64, later: i64)
    requires
        now <= later,
        c.agora_session_id is Some,
        c.agora_epoch == Some(e),
    ensures
        !outdated_by(c, Some(e)),
        e < i64::MAX ==> outdated_by(c, Some((e + 1) as i64)),
        outdated_by(c, Some(now)) ==> outdated_by(c, Some(later)),
        now <= e ==> !outdated_by(c, Some(now)),
        !outdated_by(c, None),
        !outdated_by(Cover { agora_epoch: None, ..c }, Some(now)),
        !outdated_by(Cover { agora_session_id: None, ..c }, Some(now)),
{
}

/// A delivery goes to the session of its conversation where there is one; a new one is entered only for one
/// that is sure not to be there, and not for an end alone. Without a conversation it goes to none.
pub proof fn lemma_where_a_delivery_goes(conversation: Seq<char>, lookup: Lookup, hs: Seq<Happening>)
    ensures
        conversation == "unknown"@ || lookup is Failed ==> located(conversation, lookup, hs) is Nowhere,
        conversation != "unknown"@ ==> (lookup matches Lookup::Found(id) ==> located(conversation, lookup, hs)
            == Place::Session(id@)),
        located(conversation, lookup, hs) is New <==> conversation != "unknown"@ && lookup is Absent
            && exists|i: int| 0 <= i < hs.len() && !((#[trigger] hs[i]) is SessionEnded),
{
}

/// A session that something was said in, or that has a pane, is never taken away for a conversation that
/// goes on elsewhere.
pub proof fn lemma_only_empty_shells_go(hs: Seq<Happening>, bare: bool, prompt_seen: bool)
    ensures
        shell_goes(hs, bare, prompt_seen) ==> bare && !prompt_seen,
        shell_goes(hs, true, false) <==> hs.contains(Happening::SessionEnded(Some("clear"@)))
            || hs.contains(Happening::SessionEnded(Some("resume"@))),
{
    if hs.contains(Happening::SessionEnded(Some("clear"@))) {
        let i = hs.index_of(Happening::SessionEnded(Some("clear"@)));
        assert(is_handoff(hs[i]));
    }
    if hs.contains(Happening::SessionEnded(Some("resume"@))) {
        let i = hs.index_of(Happening::SessionEnded(Some("resume"@)));
        assert(is_handoff(hs[i]));
    }
    if shell_goes(hs, true, false) {
        let i = choose|i: int| 0 <= i < hs.len() && is_handoff(#[trigger] hs[i]);
        lemma_ends_that_go_on(hs[i]);
        assert(hs.contains(hs[i]));
    }
}

} // verus!
