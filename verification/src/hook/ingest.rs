//! The way of one report from the inbox to a session, step by step.
//!
//! The steps are taken elsewhere: they read files, ask the database and change it. Here is decided which
//! one comes next. A report is put away only once nothing more is to be done with it.

use crate::adapter::claude::Claude;
use crate::adapter::registry::{for_host, host_named};
use crate::adapter::AgentHooks;
use crate::hook::inbox::Delivery;
use crate::hook::receiver::{are_only_ends, ends_on_identity_handoff, is_handoff, only_ends, Row};
use crate::status::Happening;
use crate::text;
use vstd::prelude::*;

verus! {

/// What the way of a report depends on.
#[derive(Clone, Copy, Debug, PartialEq, Eq, Structural)]
pub struct Nature {
    /// Whether it names the session that it comes from.
    pub named: bool,
    /// The start of that session that it comes from.
    pub epoch: Option<i64>,
    /// Whether its host is known.
    pub known_host: bool,
    /// Whether it says which conversation it belongs to.
    pub known_conversation: bool,
    /// Whether it says nothing, or only that the session ended.
    pub only_ends: bool,
    /// Whether it says that the conversation goes on under another name.
    pub hands_off: bool,
    /// Whether it says which process the agent is.
    pub has_pid: bool,
}

/// Whether something that happened is a conversation that goes on under another name.
pub open spec fn hands_off(hs: Seq<Happening>) -> bool {
    exists|i: int| 0 <= i < hs.len() && is_handoff(#[trigger] hs[i])
}

/// What the way of a report depends on.
pub fn nature_of(claude: Claude, delivery: &Delivery) -> (r: Nature)
    ensures
        r.named == (delivery@.envelope.agora_session_id is Some),
        r.epoch == delivery@.envelope.agora_epoch,
        r.known_host == (host_named(claude, delivery@.envelope.host) is Some),
        r.known_conversation == (delivery@.envelope.agent_session_id != "unknown"@),
        match host_named(claude, delivery@.envelope.host) {
            Some(h) => {
                &&& r.only_ends == only_ends(h.meaning(delivery@.payload))
                &&& r.hands_off == hands_off(h.meaning(delivery@.payload))
                &&& r.has_pid == (h.pid_of(
                    delivery.envelope.agent_env@,
                    delivery@.envelope.ppid as int,
                ) is Some)
            },
            None => !r.only_ends && !r.hands_off && !r.has_pid,
        },
{
    let env = &delivery.envelope;
    let named: bool = env.agora_session_id.is_some();
    let known_conversation: bool = !text::same(env.agent_session_id.as_str(), "unknown");
    match for_host(claude, env.host.as_str()) {
        Some(h) => {
            let events = h.parse(&delivery.payload);
            Nature {
                named,
                epoch: env.agora_epoch,
                known_host: true,
                known_conversation,
                only_ends: are_only_ends(&events),
                hands_off: ends_on_identity_handoff(&events),
                has_pid: h.agent_pid(&env.agent_env, env.ppid).is_some(),
            }
        },
        None => Nature {
            named,
            epoch: env.agora_epoch,
            known_host: false,
            known_conversation,
            only_ends: false,
            hands_off: false,
            has_pid: false,
        },
    }
}

/// How the way of a report ended.
#[derive(Clone, Copy, Debug, PartialEq, Eq, Structural)]
pub enum End {
    /// Its host is not known; it was left where it is.
    UnknownHost,
    /// It could not be applied; it was left where it is.
    NotApplied,
    /// It could not be put away.
    NotMoved,
    /// It was put away without effect.
    Dropped,
    /// It was applied and put away.
    Taken,
}

/// What is to be done next with a report.
#[derive(Clone, Copy, Debug, PartialEq, Eq, Structural)]
pub enum Phase {
    /// The start that the session is at is asked for; the report comes from the start `epoch`.
    Comparing { epoch: i64 },
    /// The session of its conversation is looked for.
    Finding,
    /// A session is registered for its conversation.
    Registering,
    /// The process of the agent is noted; `fresh` says whether the session was registered just now.
    Noting { fresh: bool },
    /// Earlier sessions of the same process are ended.
    Superseding,
    /// The session that was found is looked up.
    LookingUp,
    /// It is asked whether the session ever had a prompt.
    AskingPrompt { epoch: i64 },
    /// The session is deleted.
    Deleting { epoch: i64 },
    /// The report is applied to the session, to its start `epoch`; `bare` says whether the session is
    /// known from its hooks alone.
    Applying { epoch: i64, bare: bool },
    /// What waits for the report is let go.
    Releasing,
    /// The report is put away; `taken` says whether it had its effect.
    Consuming { taken: bool },
    Ended(End),
}

/// What came of a step.
#[derive(Clone, Copy, Debug, PartialEq, Eq, Structural)]
pub enum Reply {
    /// The start that the session is at, if it is known.
    Epoch(Option<i64>),
    /// Whether there is a session; nothing where that could not be found out.
    Found(Option<bool>),
    Registered(bool),
    Noted,
    Superseded,
    /// The session that was found, if it is still there.
    Row(Option<Row>),
    Seen(bool),
    Deleted(bool),
    Applied,
    /// The report had been applied before.
    Already,
    /// There is no such session any more.
    NoSession,
    Failed,
    Released,
    Moved(bool),
}

/// Where the way goes on once the report is known not to be outdated.
pub open spec fn onward(n: Nature) -> Phase {
    if !n.known_host {
        Phase::Ended(End::UnknownHost)
    } else if n.named {
        Phase::Applying {
            epoch: match n.epoch {
                Some(e) => e,
                None => 0,
            },
            bare: false,
        }
    } else if n.known_conversation {
        Phase::Finding
    } else {
        Phase::Releasing
    }
}

/// Where the way begins.
pub open spec fn first(n: Nature) -> Phase {
    match n.epoch {
        Some(epoch) => if n.named {
            Phase::Comparing { epoch }
        } else {
            onward(n)
        },
        None => onward(n),
    }
}

/// Where the way goes on with a session that was found or registered.
pub open spec fn located(n: Nature, fresh: bool) -> Phase {
    if n.has_pid {
        Phase::Noting { fresh }
    } else {
        Phase::LookingUp
    }
}

/// What is to be done after a step. A reply to another step changes nothing.
pub open spec fn after(n: Nature, phase: Phase, reply: Reply) -> Phase {
    match (phase, reply) {
        (Phase::Comparing { epoch }, Reply::Epoch(Some(now))) => if epoch < now {
            Phase::Consuming { taken: false }
        } else {
            onward(n)
        },
        (Phase::Comparing { .. }, Reply::Epoch(None)) => onward(n),
        (Phase::Finding, Reply::Found(Some(true))) => located(n, false),
        (Phase::Finding, Reply::Found(Some(false))) => if n.only_ends {
            Phase::Releasing
        } else {
            Phase::Registering
        },
        (Phase::Finding, Reply::Found(None)) => Phase::Releasing,
        (Phase::Registering, Reply::Registered(yes)) => if yes {
            located(n, true)
        } else {
            Phase::Releasing
        },
        (Phase::Noting { fresh }, Reply::Noted) => if fresh {
            Phase::Superseding
        } else {
            Phase::LookingUp
        },
        (Phase::Superseding, Reply::Superseded) => Phase::LookingUp,
        (Phase::LookingUp, Reply::Row(None)) => Phase::Applying { epoch: 0, bare: false },
        (Phase::LookingUp, Reply::Row(Some(row))) => if !row.has_runtime && n.hands_off {
            Phase::AskingPrompt { epoch: row.epoch }
        } else {
            Phase::Applying { epoch: row.epoch, bare: !row.has_runtime }
        },
        (Phase::AskingPrompt { epoch }, Reply::Seen(yes)) => if yes {
            Phase::Applying { epoch, bare: true }
        } else {
            Phase::Deleting { epoch }
        },
        (Phase::Deleting { epoch }, Reply::Deleted(yes)) => if yes {
            Phase::Consuming { taken: false }
        } else {
            Phase::Applying { epoch, bare: true }
        },
        (Phase::Applying { .. }, Reply::Applied) => Phase::Releasing,
        (Phase::Applying { .. }, Reply::NoSession) => Phase::Releasing,
        (Phase::Applying { .. }, Reply::Already) => Phase::Consuming { taken: false },
        (Phase::Applying { .. }, Reply::Failed) => Phase::Ended(End::NotApplied),
        (Phase::Releasing, Reply::Released) => Phase::Consuming { taken: true },
        (Phase::Consuming { taken }, Reply::Moved(yes)) => if !yes {
            Phase::Ended(End::NotMoved)
        } else if taken {
            Phase::Ended(End::Taken)
        } else {
            Phase::Ended(End::Dropped)
        },
        _ => phase,
    }
}

fn go_onward(n: &Nature) -> (r: Phase)
    ensures
        r == onward(*n),
{
    if !n.known_host {
        Phase::Ended(End::UnknownHost)
    } else if n.named {
        Phase::Applying {
            epoch: match n.epoch {
                Some(e) => e,
                None => 0,
            },
            bare: false,
        }
    } else if n.known_conversation {
        Phase::Finding
    } else {
        Phase::Releasing
    }
}

fn locate(n: &Nature, fresh: bool) -> (r: Phase)
    ensures
        r == located(*n, fresh),
{
    if n.has_pid {
        Phase::Noting { fresh }
    } else {
        Phase::LookingUp
    }
}

/// Where the way of a report begins.
pub fn begin(n: &Nature) -> (r: Phase)
    ensures
        r == first(*n),
{
    match n.epoch {
        Some(epoch) => if n.named {
            Phase::Comparing { epoch }
        } else {
            go_onward(n)
        },
        None => go_onward(n),
    }
}

/// What is to be done with a report after a step.
pub fn advance(n: &Nature, phase: Phase, reply: Reply) -> (r: Phase)
    ensures
        r == after(*n, phase, reply),
{
    match (phase, reply) {
        (Phase::Comparing { epoch }, Reply::Epoch(now)) => match now {
            Some(now) => if epoch < now {
                Phase::Consuming { taken: false }
            } else {
                go_onward(n)
            },
            None => go_onward(n),
        },
        (Phase::Finding, Reply::Found(found)) => match found {
            Some(true) => locate(n, false),
            Some(false) => if n.only_ends {
                Phase::Releasing
            } else {
                Phase::Registering
            },
            None => Phase::Releasing,
        },
        (Phase::Registering, Reply::Registered(yes)) => if yes {
            locate(n, true)
        } else {
            Phase::Releasing
        },
        (Phase::Noting { fresh }, Reply::Noted) => if fresh {
            Phase::Superseding
        } else {
            Phase::LookingUp
        },
        (Phase::Superseding, Reply::Superseded) => Phase::LookingUp,
        (Phase::LookingUp, Reply::Row(row)) => match row {
            None => Phase::Applying { epoch: 0, bare: false },
            Some(row) => if !row.has_runtime && n.hands_off {
                Phase::AskingPrompt { epoch: row.epoch }
            } else {
                Phase::Applying { epoch: row.epoch, bare: !row.has_runtime }
            },
        },
        (Phase::AskingPrompt { epoch }, Reply::Seen(yes)) => if yes {
            Phase::Applying { epoch, bare: true }
        } else {
            Phase::Deleting { epoch }
        },
        (Phase::Deleting { epoch }, Reply::Deleted(yes)) => if yes {
            Phase::Consuming { taken: false }
        } else {
            Phase::Applying { epoch, bare: true }
        },
        (Phase::Applying { .. }, Reply::Applied) => Phase::Releasing,
        (Phase::Applying { .. }, Reply::NoSession) => Phase::Releasing,
        (Phase::Applying { .. }, Reply::Already) => Phase::Consuming { taken: false },
        (Phase::Applying { .. }, Reply::Failed) => Phase::Ended(End::NotApplied),
        (Phase::Releasing, Reply::Released) => Phase::Consuming { taken: true },
        (Phase::Consuming { taken }, Reply::Moved(yes)) => if !yes {
            Phase::Ended(End::NotMoved)
        } else if taken {
            Phase::Ended(End::Taken)
        } else {
            Phase::Ended(End::Dropped)
        },
        _ => phase,
    }
}

/// A report is put away only when it is outdated, when its session was deleted for it, when it had been
/// applied before, or after what waits for it was let go; and that happens only to one that was applied,
/// or that belongs to no session.
pub proof fn lemma_put_away_only_when_settled(n: Nature, phase: Phase, reply: Reply)
    ensures
        after(n, phase, reply) is Consuming && !(phase is Consuming) ==> {
            ||| (phase matches Phase::Comparing { epoch } && (reply matches Reply::Epoch(Some(now))
                && epoch < now))
            ||| phase is Deleting && reply == Reply::Deleted(true)
            ||| phase is Applying && reply == Reply::Already
            ||| phase is Releasing && reply == Reply::Released
        },
        phase is Applying && after(n, phase, reply) is Releasing ==> reply == Reply::Applied || reply
            == Reply::NoSession,
        phase is Applying && reply == Reply::Failed ==> after(n, phase, reply) == Phase::Ended(
            End::NotApplied,
        ),
        phase is Ended ==> after(n, phase, reply) == phase,
{
}

/// A session is deleted only where it has no pane, never had a prompt, and its conversation goes on under
/// another name.
pub proof fn lemma_only_empty_sessions_are_deleted(n: Nature, phase: Phase, reply: Reply)
    ensures
        after(n, phase, reply) is Deleting && !(phase is Deleting) ==> phase is AskingPrompt && reply
            == Reply::Seen(false),
        after(n, phase, reply) is AskingPrompt && !(phase is AskingPrompt) ==> (
        reply matches Reply::Row(Some(row)) && !row.has_runtime && n.hands_off),
{
}

/// Whether a step is one that a report takes which names its session.
pub open spec fn straight(phase: Phase) -> bool {
    match phase {
        Phase::Comparing { .. } => true,
        Phase::Applying { bare, .. } => !bare,
        Phase::Releasing => true,
        Phase::Consuming { .. } => true,
        Phase::Ended(_) => true,
        _ => false,
    }
}

/// A report that names its session neither registers nor deletes one, and is applied to the start that it
/// comes from.
pub proof fn lemma_named_sessions_are_taken_at_their_word(n: Nature, phase: Phase, reply: Reply)
    requires
        n.named,
    ensures
        straight(first(n)),
        straight(phase) ==> straight(after(n, phase, reply)),
        straight(phase) && after(n, phase, reply) is Applying && !(phase is Applying) ==> after(
            n,
            phase,
            reply,
        ) == onward(n),
{
}

/// How far a report still has to go.
pub open spec fn distance(phase: Phase) -> nat {
    match phase {
        Phase::Comparing { .. } => 11,
        Phase::Finding => 10,
        Phase::Registering => 9,
        Phase::Noting { .. } => 8,
        Phase::Superseding => 7,
        Phase::LookingUp => 6,
        Phase::AskingPrompt { .. } => 5,
        Phase::Deleting { .. } => 4,
        Phase::Applying { .. } => 3,
        Phase::Releasing => 2,
        Phase::Consuming { .. } => 1,
        Phase::Ended(_) => 0,
    }
}

/// The way of a report ends: each step that was taken brings it nearer to its end.
pub proof fn lemma_the_way_ends(n: Nature, phase: Phase, reply: Reply)
    ensures
        after(n, phase, reply) != phase ==> distance(after(n, phase, reply)) < distance(phase),
{
}

/// Where a report gets to when its steps are answered so, one after another.
pub open spec fn runs(n: Nature, phase: Phase, replies: Seq<Reply>) -> Phase
    decreases replies.len(),
{
    if replies.len() == 0 {
        phase
    } else {
        after(n, runs(n, phase, replies.drop_last()), replies.last())
    }
}

proof fn lemma_runs_on(n: Nature, phase: Phase, replies: Seq<Reply>, r: Reply)
    ensures
        runs(n, phase, replies.push(r)) == after(n, runs(n, phase, replies), r),
        runs(n, phase, Seq::empty()) == phase,
{
    assert(replies.push(r).drop_last() =~= replies);
}

/// A report that names its session is applied to the start that it names, and is taken where that was stored:
/// but one from an earlier start than the one that the session is at is put away without effect.
pub proof fn lemma_a_named_report(n: Nature, epoch: i64, current: Option<i64>)
    requires
        n.named,
        n.known_host,
        n.epoch == Some(epoch),
    ensures
        ({
            let asked = runs(n, first(n), seq![Reply::Epoch(current)]);
            if current matches Some(now) && epoch < now {
                &&& runs(n, first(n), seq![Reply::Epoch(current), Reply::Moved(true)]) == Phase::Ended(
                    End::Dropped,
                )
            } else {
                &&& asked == Phase::Applying { epoch, bare: false }
                &&& runs(n, asked, seq![Reply::Applied, Reply::Released, Reply::Moved(true)])
                    == Phase::Ended(End::Taken)
                &&& runs(n, asked, seq![Reply::Failed]) == Phase::Ended(End::NotApplied)
                &&& runs(n, asked, seq![Reply::Already, Reply::Moved(true)]) == Phase::Ended(End::Dropped)
            }
        }),
{
    let none = Seq::<Reply>::empty();
    let f = first(n);
    let start = Reply::Epoch(current);
    lemma_runs_on(n, f, none, start);
    lemma_runs_on(n, f, none.push(start), Reply::Moved(true));
    assert(none.push(start) =~= seq![start]);
    assert(none.push(start).push(Reply::Moved(true)) =~= seq![start, Reply::Moved(true)]);
    let asked = runs(n, f, seq![start]);
    lemma_runs_on(n, asked, none, Reply::Applied);
    let a = none.push(Reply::Applied);
    lemma_runs_on(n, asked, a, Reply::Released);
    lemma_runs_on(n, asked, a.push(Reply::Released), Reply::Moved(true));
    assert(a.push(Reply::Released).push(Reply::Moved(true)) =~= seq![
        Reply::Applied,
        Reply::Released,
        Reply::Moved(true),
    ]);
    lemma_runs_on(n, asked, none, Reply::Failed);
    assert(none.push(Reply::Failed) =~= seq![Reply::Failed]);
    lemma_runs_on(n, asked, none, Reply::Already);
    lemma_runs_on(n, asked, none.push(Reply::Already), Reply::Moved(true));
    assert(none.push(Reply::Already).push(Reply::Moved(true)) =~= seq![
        Reply::Already,
        Reply::Moved(true),
    ]);
}

/// A report that names no session is applied to that of its conversation, at the start that the session is
/// at; where there is none, one is entered for it, unless the report only tells of an end. Without a known
/// conversation it is applied to none.
pub proof fn lemma_a_report_from_elsewhere(n: Nature, row: Row)
    requires
        !n.named,
        n.known_host,
        !n.hands_off || row.has_runtime,
    ensures
        !n.known_conversation ==> first(n) is Releasing,
        n.known_conversation ==> {
            let noted = |fresh: bool|
                if n.has_pid {
                    if fresh {
                        seq![Reply::Noted, Reply::Superseded]
                    } else {
                        seq![Reply::Noted]
                    }
                } else {
                    Seq::<Reply>::empty()
                };
            let found = seq![Reply::Found(Some(true))] + noted(false) + seq![Reply::Row(Some(row))];
            let entered = seq![Reply::Found(Some(false)), Reply::Registered(true)] + noted(true) + seq![
                Reply::Row(Some(row)),
            ];
            let there = Phase::Applying { epoch: row.epoch, bare: !row.has_runtime };
            &&& runs(n, first(n), found) == there
            &&& !n.only_ends ==> runs(n, first(n), entered) == there
            &&& n.only_ends ==> runs(n, first(n), seq![Reply::Found(Some(false))]) is Releasing
        },
{
    if n.known_conversation {
        let f = first(n);
        let none = Seq::<Reply>::empty();
        lemma_runs_on(n, f, none, Reply::Found(Some(true)));
        lemma_runs_on(n, f, none, Reply::Found(Some(false)));
        let a = seq![Reply::Found(Some(true))];
        let b = seq![Reply::Found(Some(false))];
        assert(none.push(Reply::Found(Some(true))) =~= a);
        assert(none.push(Reply::Found(Some(false))) =~= b);
        lemma_runs_on(n, f, a, Reply::Noted);
        lemma_runs_on(n, f, a, Reply::Row(Some(row)));
        lemma_runs_on(n, f, a.push(Reply::Noted), Reply::Row(Some(row)));
        lemma_runs_on(n, f, b, Reply::Registered(true));
        let c = b.push(Reply::Registered(true));
        lemma_runs_on(n, f, c, Reply::Noted);
        lemma_runs_on(n, f, c, Reply::Row(Some(row)));
        lemma_runs_on(n, f, c.push(Reply::Noted), Reply::Superseded);
        lemma_runs_on(n, f, c.push(Reply::Noted).push(Reply::Superseded), Reply::Row(Some(row)));
        if n.has_pid {
            assert(seq![Reply::Found(Some(true))] + seq![Reply::Noted] + seq![Reply::Row(Some(row))]
                =~= a.push(Reply::Noted).push(Reply::Row(Some(row))));
            assert(seq![Reply::Found(Some(false)), Reply::Registered(true)] + seq![
                Reply::Noted,
                Reply::Superseded,
            ] + seq![Reply::Row(Some(row))] =~= c.push(Reply::Noted).push(Reply::Superseded).push(
                Reply::Row(Some(row)),
            ));
        } else {
            assert(seq![Reply::Found(Some(true))] + none + seq![Reply::Row(Some(row))] =~= a.push(
                Reply::Row(Some(row)),
            ));
            assert(seq![Reply::Found(Some(false)), Reply::Registered(true)] + none + seq![
                Reply::Row(Some(row)),
            ] =~= c.push(Reply::Row(Some(row))));
        }
    }
}

/// A report of a host that is not known stays where it is.
pub proof fn lemma_unknown_hosts_are_left_alone(n: Nature, current: Option<i64>)
    requires
        !n.known_host,
    ensures
        first(n) == Phase::Ended(End::UnknownHost) || (n.epoch is Some && runs(
            n,
            first(n),
            seq![Reply::Epoch(current)],
        ) == (if current is Some && n.epoch->0 < current->0 {
            Phase::Consuming { taken: false }
        } else {
            Phase::Ended(End::UnknownHost)
        })),
{
    let none = Seq::<Reply>::empty();
    lemma_runs_on(n, first(n), none, Reply::Epoch(current));
    assert(none.push(Reply::Epoch(current)) =~= seq![Reply::Epoch(current)]);
}

/// Where no session can be found, or none entered, what waits for the report is let go and the report is put
/// away; where a session was found and is gone since, the report is still applied.
pub proof fn lemma_a_report_is_never_stuck(n: Nature, fresh: bool)
    ensures
        after(n, Phase::Finding, Reply::Found(None)) is Releasing,
        after(n, Phase::Registering, Reply::Registered(false)) is Releasing,
        after(n, Phase::LookingUp, Reply::Row(None)) == (Phase::Applying { epoch: 0, bare: false }),
        after(n, Phase::Noting { fresh }, Reply::Noted) is Superseding <==> fresh,
        after(n, Phase::Consuming { taken: fresh }, Reply::Moved(false)) == Phase::Ended(End::NotMoved),
{
}

} // verus!
