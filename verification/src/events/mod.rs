//! What is told to those who watch: the difference between one look at the sessions and the next.

use crate::hook::receiver::Origin;
use crate::json::{self, Json, JsonView};
use crate::status::{EndCause, ProcessState, Source, Status};
use crate::text::{self, opt_text, texts};
use vstd::prelude::*;

pub mod differ;

pub use differ::{Differ, Seen};

verus! {

/// How many events a watcher may be behind before it has to look at all sessions anew.
pub const CAPACITY: usize = 256;

/// What is shown of the state of a session.
#[derive(Debug, PartialEq, Eq)]
pub struct Standing {
    pub status: Status,
    pub source: Source,
    pub reason: Option<String>,
    pub end_cause: Option<EndCause>,
    /// The word for why the state is not known.
    pub unknown_cause: Option<String>,
    pub process: ProcessState,
    pub alive: bool,
    pub detail: Option<String>,
    pub prompt: Option<String>,
    pub progress: Option<String>,
    pub preview: Option<String>,
    /// Since when the state holds, in seconds since 1970.
    pub status_since: i64,
    pub hooks_unheard: Option<String>,
}

/// The model of a [`Standing`].
pub struct Stand {
    pub status: Status,
    pub source: Source,
    pub reason: Option<Seq<char>>,
    pub end_cause: Option<EndCause>,
    pub unknown_cause: Option<Seq<char>>,
    pub process: ProcessState,
    pub alive: bool,
    pub detail: Option<Seq<char>>,
    pub prompt: Option<Seq<char>>,
    pub progress: Option<Seq<char>>,
    pub preview: Option<Seq<char>>,
    pub status_since: i64,
    pub hooks_unheard: Option<Seq<char>>,
}

impl View for Standing {
    type V = Stand;

    open spec fn view(&self) -> Stand {
        Stand {
            status: self.status,
            source: self.source,
            reason: opt_text(self.reason),
            end_cause: self.end_cause,
            unknown_cause: opt_text(self.unknown_cause),
            process: self.process,
            alive: self.alive,
            detail: opt_text(self.detail),
            prompt: opt_text(self.prompt),
            progress: opt_text(self.progress),
            preview: opt_text(self.preview),
            status_since: self.status_since,
            hooks_unheard: opt_text(self.hooks_unheard),
        }
    }
}

/// What is shown of a session besides its state. The task, the project and the pending decision are held
/// as they are written.
#[derive(Debug, PartialEq, Eq)]
pub struct Extras {
    pub task: Option<String>,
    pub project: Option<String>,
    pub agent_session_id: Option<String>,
    pub pending_decision: Option<String>,
}

/// The model of [`Extras`].
pub struct Besides {
    pub task: Option<Seq<char>>,
    pub project: Option<Seq<char>>,
    pub agent_session_id: Option<Seq<char>>,
    pub pending_decision: Option<Seq<char>>,
}

impl View for Extras {
    type V = Besides;

    open spec fn view(&self) -> Besides {
        Besides {
            task: opt_text(self.task),
            project: opt_text(self.project),
            agent_session_id: opt_text(self.agent_session_id),
            pending_decision: opt_text(self.pending_decision),
        }
    }
}

fn same_opt(a: &Option<String>, b: &Option<String>) -> (r: bool)
    ensures
        r == (opt_text(*a) == opt_text(*b)),
{
    text::same_opt(text::borrow_opt(a), text::borrow_opt(b))
}

impl Standing {
    fn duplicate(&self) -> (r: Standing)
        ensures
            r@ == self@,
    {
        Standing {
            status: self.status,
            source: self.source,
            reason: text::copy_opt(&self.reason),
            end_cause: self.end_cause,
            unknown_cause: text::copy_opt(&self.unknown_cause),
            process: self.process,
            alive: self.alive,
            detail: text::copy_opt(&self.detail),
            prompt: text::copy_opt(&self.prompt),
            progress: text::copy_opt(&self.progress),
            preview: text::copy_opt(&self.preview),
            status_since: self.status_since,
            hooks_unheard: text::copy_opt(&self.hooks_unheard),
        }
    }

    fn is_same(&self, other: &Standing) -> (r: bool)
        ensures
            r == (self@ == other@),
    {
        self.status == other.status && self.source == other.source && same_opt(
            &self.reason,
            &other.reason,
        ) && same_cause(self.end_cause, other.end_cause) && same_opt(
            &self.unknown_cause,
            &other.unknown_cause,
        ) && self.process == other.process && self.alive == other.alive && same_opt(
            &self.detail,
            &other.detail,
        ) && same_opt(&self.prompt, &other.prompt) && same_opt(&self.progress, &other.progress)
            && same_opt(&self.preview, &other.preview) && self.status_since == other.status_since
            && same_opt(&self.hooks_unheard, &other.hooks_unheard)
    }
}

fn same_cause(a: Option<EndCause>, b: Option<EndCause>) -> (r: bool)
    ensures
        r == (a == b),
{
    match (a, b) {
        (Some(x), Some(y)) => x == y,
        (None, None) => true,
        _ => false,
    }
}

impl Extras {
    fn duplicate(&self) -> (r: Extras)
        ensures
            r@ == self@,
    {
        Extras {
            task: text::copy_opt(&self.task),
            project: text::copy_opt(&self.project),
            agent_session_id: text::copy_opt(&self.agent_session_id),
            pending_decision: text::copy_opt(&self.pending_decision),
        }
    }

    fn is_same(&self, other: &Extras) -> (r: bool)
        ensures
            r == (self@ == other@),
    {
        same_opt(&self.task, &other.task) && same_opt(&self.project, &other.project) && same_opt(
            &self.agent_session_id,
            &other.agent_session_id,
        ) && same_opt(&self.pending_decision, &other.pending_decision)
    }
}

/// A session as it is looked at.
#[derive(Debug, PartialEq, Eq)]
pub struct SessionView {
    /// The id on this node.
    pub id: String,
    /// The name that the user gave, or nothing.
    pub display_name: String,
    /// The name that is shown.
    pub name: String,
    pub agent_type: String,
    pub origin: Origin,
    pub standing: Standing,
    pub extras: Extras,
    /// All of it as it is written.
    pub row: Json,
}

/// The model of a [`SessionView`].
pub struct Look {
    pub id: Seq<char>,
    pub display_name: Seq<char>,
    pub name: Seq<char>,
    pub agent_type: Seq<char>,
    pub origin: Origin,
    pub standing: Stand,
    pub extras: Besides,
    pub row: JsonView,
}

impl View for SessionView {
    type V = Look;

    open spec fn view(&self) -> Look {
        Look {
            id: self.id@,
            display_name: self.display_name@,
            name: self.name@,
            agent_type: self.agent_type@,
            origin: self.origin,
            standing: self.standing@,
            extras: self.extras@,
            row: self.row@,
        }
    }
}

/// What is told to those who watch.
#[allow(inconsistent_fields)]
#[derive(Debug, PartialEq, Eq)]
pub enum Event {
    SessionCreated { id: String, session: Json },
    SessionRemoved { id: String },
    /// Something besides the state changed: the whole session is told anew.
    SessionUpdated { id: String, session: Json },
    StatusChanged { id: String, standing: Standing },
    /// A decision that was asked for is made, and how.
    DecisionResolved { id: String, tool_use_id: String, via: &'static str },
    /// A session needs a human.
    Notification { id: Option<String>, title: String, body: String, status: Option<Status> },
    /// What is known of another node changed.
    PeerChanged { name: String, peer: Json },
    /// Events were lost: all sessions have to be looked at anew.
    Resync,
}

/// The model of an [`Event`].
#[allow(inconsistent_fields)]
pub enum News {
    SessionCreated { id: Seq<char>, session: JsonView },
    SessionRemoved { id: Seq<char> },
    SessionUpdated { id: Seq<char>, session: JsonView },
    StatusChanged { id: Seq<char>, standing: Stand },
    DecisionResolved { id: Seq<char>, tool_use_id: Seq<char>, via: Seq<char> },
    Notification {
        id: Option<Seq<char>>,
        title: Seq<char>,
        body: Seq<char>,
        status: Option<Status>,
    },
    PeerChanged { name: Seq<char>, peer: JsonView },
    Resync,
}

impl View for Event {
    type V = News;

    open spec fn view(&self) -> News {
        match self {
            Event::SessionCreated { id, session } => News::SessionCreated {
                id: id@,
                session: session@,
            },
            Event::SessionRemoved { id } => News::SessionRemoved { id: id@ },
            Event::SessionUpdated { id, session } => News::SessionUpdated {
                id: id@,
                session: session@,
            },
            Event::StatusChanged { id, standing } => News::StatusChanged {
                id: id@,
                standing: standing@,
            },
            Event::DecisionResolved { id, tool_use_id, via } => News::DecisionResolved {
                id: id@,
                tool_use_id: tool_use_id@,
                via: via@,
            },
            Event::Notification { id, title, body, status } => News::Notification {
                id: opt_text(*id),
                title: title@,
                body: body@,
                status: *status,
            },
            Event::PeerChanged { name, peer } => News::PeerChanged { name: name@, peer: peer@ },
            Event::Resync => News::Resync,
        }
    }
}

/// The models of a list of events.
pub open spec fn news(v: Seq<Event>) -> Seq<News> {
    v.map_values(|e: Event| e@)
}

impl News {
    /// What an event tells the latest of: the state of a session, a session, or a node.
    pub open spec fn key(self) -> Option<(Seq<char>, Seq<char>)> {
        match self {
            News::StatusChanged { id, .. } => Some(("status"@, id)),
            News::SessionUpdated { id, .. } => Some(("updated"@, id)),
            News::PeerChanged { name, .. } => Some(("peer"@, name)),
            _ => None,
        }
    }
}

impl Event {
    /// What an event tells the latest of.
    pub fn coalesce_key(&self) -> (r: Option<(&'static str, &str)>)
        ensures
            match r {
                Some((a, b)) => self@.key() == Some((a@, b@)),
                None => self@.key() is None,
            },
    {
        match self {
            Event::StatusChanged { id, .. } => Some(("status", id.as_str())),
            Event::SessionUpdated { id, .. } => Some(("updated", id.as_str())),
            Event::PeerChanged { name, .. } => Some(("peer", name.as_str())),
            _ => None,
        }
    }
}

/// Whether a later event tells anew what the event at `i` told.
pub open spec fn outdated(v: Seq<News>, i: int) -> bool {
    v[i].key() is Some && exists|j: int| i < j < v.len() && (#[trigger] v[j]).key() == v[i].key()
}

/// The events from `i` on that no later one tells anew, in their order.
pub open spec fn latest_from(v: Seq<News>, i: int) -> Seq<News>
    decreases v.len() - i,
{
    if i < 0 || i >= v.len() {
        Seq::empty()
    } else if outdated(v, i) {
        latest_from(v, i + 1)
    } else {
        seq![v[i]] + latest_from(v, i + 1)
    }
}

/// The events of a batch that no later one tells anew, in their order.
pub open spec fn latest(v: Seq<News>) -> Seq<News> {
    latest_from(v, 0)
}

/// Whether two events tell the latest of one thing.
fn same_key(a: &Event, b: &Event) -> (r: bool)
    ensures
        r == (a@.key() is Some && a@.key() == b@.key()),
{
    match (a.coalesce_key(), b.coalesce_key()) {
        (Some((a0, a1)), Some((b0, b1))) => text::same(a0, b0) && text::same(a1, b1),
        _ => false,
    }
}

/// Whether a later event tells anew what the event at `i` told.
fn is_outdated(events: &Vec<Event>, i: usize) -> (r: bool)
    requires
        i < events@.len(),
    ensures
        r == outdated(news(events@), i as int),
{
    let ghost all = news(events@);
    let n: usize = events.len();
    let mut j: usize = i + 1;
    while j < n
        invariant
            all == news(events@),
            n == events@.len(),
            i < j <= n,
            forall|k: int|
                i < k < j ==> !(all[i as int].key() is Some && (#[trigger] all[k]).key()
                    == all[i as int].key()),
        decreases n - j,
    {
        proof {
            assert(all[i as int] == events@[i as int]@);
            assert(all[j as int] == events@[j as int]@);
        }
        if same_key(&events[i], &events[j]) {
            return true;
        }
        j += 1;
    }
    false
}

/// Keeps of each batch what no later event tells anew.
pub fn coalesce(events: Vec<Event>) -> (out: Vec<Event>)
    ensures
        news(out@) == latest(news(events@)),
{
    let ghost all = news(events@);
    let mut stale: Vec<bool> = Vec::new();
    let mut i: usize = 0;
    while i < events.len()
        invariant
            all == news(events@),
            i <= events@.len(),
            stale@.len() == i,
            forall|k: int| 0 <= k < i ==> #[trigger] stale@[k] == outdated(all, k),
        decreases events@.len() - i,
    {
        stale.push(is_outdated(&events, i));
        i += 1;
    }
    let mut rest = events;
    let mut out: Vec<Event> = Vec::new();
    proof {
        assert(all.take(all.len() as int) =~= all);
        assert(news(out@) =~= latest_from(all, all.len() as int));
    }
    while rest.len() > 0
        invariant
            rest@.len() <= all.len(),
            stale@.len() == all.len(),
            forall|k: int| 0 <= k < all.len() ==> #[trigger] stale@[k] == outdated(all, k),
            news(rest@) == all.take(rest@.len() as int),
            news(out@) == latest_from(all, rest@.len() as int),
        decreases rest@.len(),
    {
        let n: usize = rest.len();
        let ghost before = news(rest@);
        let e = match rest.pop() {
            Some(e) => e,
            None => {
                return out;
            },
        };
        proof {
            assert(e@ == before[n - 1]);
            assert(e@ == all[n - 1]);
            assert(news(rest@) =~= all.take(n - 1));
        }
        let ghost was = news(out@);
        if !stale[n - 1] {
            out.insert(0, e);
            proof {
                assert(news(out@) =~= seq![all[n - 1]] + was);
            }
        }
    }
    out
}

/// The id of a session for everyone: the node, a colon, and the id on the node.
pub open spec fn global(node: Seq<char>, id: Seq<char>) -> Seq<char> {
    node + ":"@ + id
}

/// The id of a session for everyone.
pub fn global_id(node: &str, id: &str) -> (out: String)
    ensures
        out@ == global(node@, id@),
{
    text::cat3(node, ":", id)
}

/// A session as it is told: its id is the one for everyone, `local_id` the one on the node, and `node` the
/// node.
pub open spec fn exported(node: Seq<char>, look: Look) -> JsonView {
    match look.row {
        JsonView::Object(m) => JsonView::Object(
            json::with_member(
                json::with_member(
                    json::with_member(m, "local_id"@, JsonView::Str(look.id)),
                    "id"@,
                    JsonView::Str(global(node, look.id)),
                ),
                "node"@,
                JsonView::Str(node),
            ),
        ),
        v => v,
    }
}

/// A session as it is told.
pub fn export(node: &str, view: &SessionView) -> (r: Json)
    ensures
        r@ == exported(node@, view@),
{
    let row = json::copy(&view.row);
    match row {
        Json::Object(mut m) => {
            json::set_member(&mut m, "local_id".to_owned(), Json::Str(view.id.clone()));
            json::set_member(
                &mut m,
                "id".to_owned(),
                Json::Str(global_id(node, view.id.as_str())),
            );
            json::set_member(&mut m, "node".to_owned(), Json::Str(node.to_owned()));
            Json::Object(m)
        },
        other => {
            proof {
                json::lemma_kinds(other);
            }
            other
        },
    }
}

/// What `char::to_uppercase` of std makes of a character.
pub uninterp spec fn upper_case(c: char) -> Seq<char>;

/// `char::to_uppercase` of std: the character in upper case, by the Unicode rules, which may be more than
/// one; of an ASCII letter, the letter in upper case, and of any other ASCII character itself.
#[verifier::external_body]
fn uppercase(c: char) -> (out: String)
    ensures
        out@ == upper_case(c),
        c < '\u{80}' ==> out@ == seq![text::ascii_upper_char(c)],
{
    c.to_uppercase().to_string()
}

/// A name with its first character in upper case.
pub open spec fn label(agent_type: Seq<char>) -> Seq<char> {
    if agent_type.len() > 0 {
        upper_case(agent_type[0]) + agent_type.skip(1)
    } else {
        Seq::empty()
    }
}

/// A name with its first character in upper case.
pub fn agent_label(agent_type: &str) -> (out: String)
    ensures
        out@ == label(agent_type@),
        agent_type@.len() > 0 && agent_type@[0] < '\u{80}' ==> out@ == seq![
            text::ascii_upper_char(agent_type@[0]),
        ] + agent_type@.skip(1),
{
    let v = text::chars_of(agent_type);
    if v.len() == 0 {
        let out = String::new();
        proof {
            assert(out@ =~= Seq::<char>::empty());
        }
        return out;
    }
    let mut out = uppercase(v[0]);
    let rest = text::string_of_range(&v, 1, v.len());
    proof {
        assert(rest@ =~= agent_type@.skip(1));
    }
    text::push_str(&mut out, rest.as_str());
    out
}

/// A change of the state of a session.
#[derive(Debug, PartialEq, Eq)]
pub struct Transition<'a> {
    pub id: &'a str,
    pub agent_type: &'a str,
    pub name: &'a str,
    pub node: &'a str,
    pub origin: Origin,
    pub prev: Status,
    pub next: Status,
    pub end_cause: Option<EndCause>,
    pub detail: Option<&'a str>,
}

/// What a change of state means to a human, where it is worth a word: the session worked or was quiet, and
/// now waits, ended its turn, or is over. What the user did themselves is not worth one, and neither is a
/// session that answers one prompt.
pub open spec fn verb(
    origin: Origin,
    prev: Status,
    next: Status,
    end_cause: Option<EndCause>,
) -> Option<Seq<char>> {
    if !(prev == Status::Running || prev == Status::Idle) || end_cause == Some(
        EndCause::KilledByUser,
    ) || origin == Origin::Headless || (origin == Origin::External && next == Status::Finished
        && end_cause != Some(EndCause::ProcessGone)) {
        None
    } else {
        match next {
            Status::Waiting => Some("needs input"@),
            Status::TurnDone => Some("finished its turn"@),
            Status::Finished => Some("finished"@),
            Status::Failed => Some("failed"@),
            _ => None,
        }
    }
}

/// The first line of a text, without the white space round it.
pub open spec fn first_line(s: Option<Seq<char>>) -> Seq<char> {
    match s {
        Some(d) => if text::lines(d).len() > 0 {
            text::trimmed(text::lines(d)[0])
        } else {
            text::trimmed(""@)
        },
        None => ""@,
    }
}

/// The word to a human about a change of state, the agent named by `label`.
pub open spec fn notice(
    id: Seq<char>,
    label: Seq<char>,
    name: Seq<char>,
    node: Seq<char>,
    origin: Origin,
    prev: Status,
    next: Status,
    end_cause: Option<EndCause>,
    detail: Option<Seq<char>>,
) -> Option<News> {
    match verb(origin, prev, next, end_cause) {
        Some(v) => Some(
            News::Notification {
                id: Some(id),
                title: label + " / "@ + name + " @ "@ + node + " "@ + v,
                body: first_line(detail),
                status: Some(next),
            },
        ),
        None => None,
    }
}

fn verb_of(origin: Origin, prev: Status, next: Status, end_cause: Option<EndCause>) -> (r: Option<
    &'static str,
>)
    ensures
        text::opt_str(r) == verb(origin, prev, next, end_cause),
{
    if !(prev == Status::Running || prev == Status::Idle) || same_cause(
        end_cause,
        Some(EndCause::KilledByUser),
    ) {
        return None;
    }
    if origin == Origin::Headless {
        return None;
    }
    if origin == Origin::External && next == Status::Finished && !same_cause(
        end_cause,
        Some(EndCause::ProcessGone),
    ) {
        return None;
    }
    match next {
        Status::Waiting => Some("needs input"),
        Status::TurnDone => Some("finished its turn"),
        Status::Finished => Some("finished"),
        Status::Failed => Some("failed"),
        _ => None,
    }
}

/// The word to a human about a change of state, the agent named by `label`.
pub fn notification_with(t: &Transition<'_>, label: &str) -> (r: Option<Event>)
    ensures
        match r {
            Some(e) => notice(
                t.id@,
                label@,
                t.name@,
                t.node@,
                t.origin,
                t.prev,
                t.next,
                t.end_cause,
                text::opt_str(t.detail),
            ) == Some(e@),
            None => verb(t.origin, t.prev, t.next, t.end_cause) is None,
        },
{
    let verb = match verb_of(t.origin, t.prev, t.next, t.end_cause) {
        Some(v) => v,
        None => {
            return None;
        },
    };
    let mut title = text::cat3(label, " / ", t.name);
    text::push_str(&mut title, " @ ");
    text::push_str(&mut title, t.node);
    text::push_str(&mut title, " ");
    text::push_str(&mut title, verb);
    let body = match t.detail {
        Some(d) => {
            let v = text::lines_of(d);
            proof {
                assert(texts(v@).len() == v@.len());
            }
            if v.len() > 0 {
                proof {
                    assert(texts(v@)[0] == v@[0]@);
                }
                text::trim(v[0].as_str())
            } else {
                text::trim("")
            }
        },
        None => "".to_owned(),
    };
    Some(Event::Notification { id: Some(t.id.to_owned()), title, body, status: Some(t.next) })
}

/// The word to a human about a change of state.
pub fn notification_for(t: Transition<'_>) -> (r: Option<Event>)
    ensures
        match r {
            Some(e) => notice(
                t.id@,
                label(t.agent_type@),
                t.name@,
                t.node@,
                t.origin,
                t.prev,
                t.next,
                t.end_cause,
                text::opt_str(t.detail),
            ) == Some(e@),
            None => verb(t.origin, t.prev, t.next, t.end_cause) is None,
        },
{
    let l = agent_label(t.agent_type);
    notification_with(&t, l.as_str())
}

/// Where an event that was kept stood.
proof fn lemma_latest_from(v: Seq<News>, i: int, a: int) -> (j: int)
    requires
        0 <= i <= v.len(),
        0 <= a < latest_from(v, i).len(),
    ensures
        i <= j < v.len(),
        latest_from(v, i)[a] == v[j],
        !outdated(v, j),
    decreases v.len() - i,
{
    if outdated(v, i) {
        lemma_latest_from(v, i + 1, a)
    } else if a == 0 {
        i
    } else {
        lemma_latest_from(v, i + 1, a - 1)
    }
}

proof fn lemma_keys_differ_from(v: Seq<News>, i: int, a: int, b: int)
    requires
        0 <= i <= v.len(),
        0 <= a < b < latest_from(v, i).len(),
        latest_from(v, i)[a].key() is Some,
    ensures
        latest_from(v, i)[a].key() != latest_from(v, i)[b].key(),
    decreases v.len() - i,
{
    if outdated(v, i) {
        lemma_keys_differ_from(v, i + 1, a, b);
    } else if a == 0 {
        let j = lemma_latest_from(v, i + 1, b - 1);
        assert(latest_from(v, i)[b] == v[j]);
        if v[j].key() == v[i].key() {
            assert(outdated(v, i));
        }
    } else {
        lemma_keys_differ_from(v, i + 1, a - 1, b - 1);
    }
}

proof fn lemma_kept_from(v: Seq<News>, i: int, j: int)
    requires
        0 <= i <= j < v.len(),
        !outdated(v, j),
    ensures
        latest_from(v, i).contains(v[j]),
    decreases v.len() - i,
{
    if i == j {
        assert(latest_from(v, i)[0] == v[j]);
    } else {
        lemma_kept_from(v, i + 1, j);
        let k = latest_from(v, i + 1).index_of(v[j]);
        if outdated(v, i) {
            assert(latest_from(v, i)[k] == v[j]);
        } else {
            assert(latest_from(v, i)[k + 1] == v[j]);
        }
    }
}

proof fn lemma_nothing_outdated(v: Seq<News>, i: int)
    requires
        0 <= i <= v.len(),
        forall|j: int| 0 <= j < v.len() ==> !#[trigger] outdated(v, j),
    ensures
        latest_from(v, i) == v.skip(i),
    decreases v.len() - i,
{
    if i < v.len() {
        lemma_nothing_outdated(v, i + 1);
        assert(!outdated(v, i));
        assert(seq![v[i]] + v.skip(i + 1) =~= v.skip(i));
    } else {
        assert(v.skip(i) =~= Seq::<News>::empty());
    }
}

/// A batch that was brought down to the latest holds one event for each thing told of, each of which was
/// in the batch, and all that no later one tells anew; to bring it down again changes nothing.
pub proof fn lemma_latest(v: Seq<News>)
    ensures
        forall|a: int, b: int|
            0 <= a < b < latest(v).len() && latest(v)[a].key() is Some ==> (
            #[trigger] latest(v)[a]).key() != (#[trigger] latest(v)[b]).key(),
        forall|a: int| 0 <= a < latest(v).len() ==> v.contains(#[trigger] latest(v)[a]),
        forall|j: int| 0 <= j < v.len() && !outdated(v, j) ==> latest(v).contains(#[trigger] v[j]),
        latest(latest(v)) == latest(v),
{
    let w = latest(v);
    assert forall|a: int, b: int| 0 <= a < b < w.len() && w[a].key() is Some implies (
    #[trigger] w[a]).key() != (#[trigger] w[b]).key() by {
        lemma_keys_differ_from(v, 0, a, b);
    }
    assert forall|a: int| 0 <= a < w.len() implies v.contains(#[trigger] w[a]) by {
        let j = lemma_latest_from(v, 0, a);
        assert(v[j] == w[a]);
    }
    assert forall|j: int| 0 <= j < v.len() && !outdated(v, j) implies w.contains(
        #[trigger] v[j],
    ) by {
        lemma_kept_from(v, 0, j);
    }
    assert forall|j: int| 0 <= j < w.len() implies !#[trigger] outdated(w, j) by {
        if outdated(w, j) {
            let k = choose|k: int| j < k < w.len() && (#[trigger] w[k]).key() == w[j].key();
            assert(w[j].key() != w[k].key());
        }
    }
    lemma_nothing_outdated(w, 0);
    assert(w.skip(0) =~= w);
}

/// A human is told only of a session that worked or was quiet and now waits, ended its turn, or is over,
/// and never of one that answers one prompt or that the user killed.
pub proof fn lemma_only_what_needs_a_human(
    origin: Origin,
    prev: Status,
    next: Status,
    end_cause: Option<EndCause>,
)
    ensures
        verb(origin, prev, next, end_cause) is Some ==> {
            &&& prev == Status::Running || prev == Status::Idle
            &&& next == Status::Waiting || next == Status::TurnDone || next == Status::Finished
                || next == Status::Failed
            &&& origin != Origin::Headless
            &&& end_cause != Some(EndCause::KilledByUser)
        },
        prev == next ==> verb(origin, prev, next, end_cause) is None,
{
}

/// A human is told of a session exactly when it was at work or at rest, and now waits for input, has ended
/// its turn, is finished or has failed: not of one without a terminal, not of one that the user ended, and
/// of the end of one that was started elsewhere only where its process is gone. What is told of the four is
/// told in different words.
pub proof fn lemma_when_a_human_is_told(
    origin: Origin,
    prev: Status,
    next: Status,
    end_cause: Option<EndCause>,
)
    ensures
        verb(origin, prev, next, end_cause) is Some <==> {
            &&& prev == Status::Running || prev == Status::Idle
            &&& next == Status::Waiting || next == Status::TurnDone || next == Status::Failed || (
            next == Status::Finished && (origin == Origin::External ==> end_cause == Some(
                EndCause::ProcessGone,
            )))
            &&& origin != Origin::Headless
            &&& end_cause != Some(EndCause::KilledByUser)
        },
        verb(origin, prev, next, end_cause) matches Some(v) ==> {
            &&& next == Status::Waiting <==> v == "needs input"@
            &&& next == Status::TurnDone <==> v == "finished its turn"@
            &&& next == Status::Finished <==> v == "finished"@
            &&& next == Status::Failed <==> v == "failed"@
        },
{
    reveal_strlit("needs input");
    reveal_strlit("finished its turn");
    reveal_strlit("finished");
    reveal_strlit("failed");
    assert("needs input"@.len() == 11);
    assert("finished its turn"@.len() == 17);
    assert("finished"@.len() == 8);
    assert("failed"@.len() == 6);
}

/// What is told besides is one line without white space round it: all of a detail of one line, and of a
/// longer one what stands before the end of its first line.
pub proof fn lemma_first_line(d: Seq<char>, rest: Seq<char>)
    requires
        !d.contains('\n'),
    ensures
        first_line(Some(d)) == text::trimmed(d),
        first_line(Some(d + seq!['\n'] + rest)) == text::trimmed(d),
        first_line(None) == Seq::<char>::empty(),
{
    reveal_strlit("");
    assert(""@ =~= Seq::<char>::empty());
    text::lemma_split_whole(d, '\n');
    let one = seq![d];
    assert(text::split(d, '\n') =~= one);
    assert(one.last() == d && one.drop_last() =~= Seq::<Seq<char>>::empty());
    if d.len() == 0 {
        assert(text::lines(d).len() == 0);
        assert(d =~= ""@);
    } else {
        assert(text::lines(d)[0] == d);
    }
    text::lemma_lines_begin(d, rest);
    text::lemma_trimmed_cr(d);
}

/// Two events have one key only where they are of one kind and about one session or node: so a later one says
/// all that the earlier one said. What was made or taken away, what a human is told, and what was decided
/// have none, and are never left out.
pub proof fn lemma_what_replaces_what(a: News, b: News)
    requires
        a.key() is Some,
        a.key() == b.key(),
    ensures
        match a {
            News::StatusChanged { id, .. } => b is StatusChanged && b->StatusChanged_id == id,
            News::SessionUpdated { id, .. } => b is SessionUpdated && b->SessionUpdated_id == id,
            News::PeerChanged { name, .. } => b is PeerChanged && b->name == name,
            _ => false,
        },
{
    reveal_strlit("status");
    reveal_strlit("updated");
    reveal_strlit("peer");
    assert("status"@.len() == 6);
    assert("updated"@.len() == 7);
    assert("peer"@.len() == 4);
}

/// A session is told to others with its id on this node, the one that they know it by, and the name of this
/// node; whatever else is written of it stays as it is.
pub proof fn lemma_what_is_told_of_a_session(node: Seq<char>, look: Look, k: Seq<char>)
    requires
        look.row is Object,
    ensures
        json::member(exported(node, look), "local_id"@) == Some(JsonView::Str(look.id)),
        json::member(exported(node, look), "id"@) == Some(JsonView::Str(global(node, look.id))),
        json::member(exported(node, look), "node"@) == Some(JsonView::Str(node)),
        k != "local_id"@ && k != "id"@ && k != "node"@ ==> json::member(exported(node, look), k)
            == json::member(look.row, k),
{
    let m = look.row->Object_0;
    let a = json::with_member(m, "local_id"@, JsonView::Str(look.id));
    let b = json::with_member(a, "id"@, JsonView::Str(global(node, look.id)));
    reveal_strlit("local_id");
    reveal_strlit("id");
    reveal_strlit("node");
    assert("local_id"@.len() == 8);
    assert("id"@.len() == 2);
    assert("node"@.len() == 4);
    json::lemma_with_member(m, "local_id"@, JsonView::Str(look.id));
    json::lemma_with_member(a, "id"@, JsonView::Str(global(node, look.id)));
    json::lemma_with_member(b, "node"@, JsonView::Str(node));
}

/// An agent is named to a human as it is, but for its first letter; one without a name has none.
pub proof fn lemma_label(agent_type: Seq<char>)
    ensures
        agent_type.len() == 0 ==> label(agent_type) == Seq::<char>::empty(),
        agent_type.len() > 0 ==> label(agent_type) == upper_case(agent_type[0]) + agent_type.skip(1),
{
}

} // verus!
