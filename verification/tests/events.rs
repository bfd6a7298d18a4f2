//! What those who watch are told.

use agora::codec::parse;
use agora::events::{
    agent_label, coalesce, export, global_id, notification_for, Differ, Event, Extras, SessionView,
    Standing, Transition,
};
use agora::hook::receiver::Origin;
use agora::json::Json;
use agora::status::{EndCause, HostEndReason, ProcessState, Source, Status};

fn standing(status: Status) -> Standing {
    Standing {
        status,
        source: Source::Process,
        reason: None,
        end_cause: None,
        unknown_cause: None,
        process: ProcessState::Alive,
        alive: true,
        detail: None,
        prompt: None,
        progress: None,
        preview: None,
        status_since: 0,
        hooks_unheard: None,
    }
}

fn status(id: &str, st: Status) -> Event {
    Event::StatusChanged {
        id: id.into(),
        standing: standing(st),
    }
}

fn view(standing: Standing) -> SessionView {
    SessionView {
        id: "s1".into(),
        display_name: "shell-01".into(),
        name: "shell-01".into(),
        agent_type: "shell".into(),
        origin: Origin::Agora,
        standing,
        extras: Extras {
            task: None,
            project: None,
            agent_session_id: None,
            pending_decision: None,
        },
        row: parse(br#"{"display_name":"shell-01"}"#).unwrap(),
    }
}

fn n(origin: Origin, prev: Status, next: Status, end_cause: Option<EndCause>) -> Option<Event> {
    notification_for(Transition {
        id: "n:1",
        agent_type: "myagent",
        name: "frontend",
        node: "zuan",
        origin,
        prev,
        next,
        end_cause,
        detail: Some("Bash: rm -rf x\n第二行"),
    })
}

fn title(e: Option<Event>) -> (String, String, Option<Status>) {
    match e {
        Some(Event::Notification {
            title,
            body,
            status,
            ..
        }) => (title, body, status),
        other => panic!("{other:?}"),
    }
}

#[test]
fn coalesce_keeps_last_status_per_session_and_order_of_the_rest() {
    let batch = vec![
        status("a", Status::Starting),
        Event::SessionRemoved { id: "b".into() },
        status("a", Status::Running),
        status("c", Status::Running),
    ];
    let out = coalesce(batch);
    assert_eq!(
        out,
        vec![
            Event::SessionRemoved { id: "b".into() },
            status("a", Status::Running),
            status("c", Status::Running),
        ]
    );
}

#[test]
fn notifications_only_on_the_four_transitions_out_of_running() {
    let m = |prev, next| n(Origin::Agora, prev, next, None);
    assert_eq!(
        title(m(Status::Running, Status::Waiting)),
        (
            "Myagent / frontend @ zuan needs input".to_owned(),
            "Bash: rm -rf x".to_owned(),
            Some(Status::Waiting)
        )
    );
    assert_eq!(
        title(m(Status::Running, Status::TurnDone)).0,
        "Myagent / frontend @ zuan finished its turn"
    );
    assert_eq!(
        title(m(Status::Running, Status::Finished)).0,
        "Myagent / frontend @ zuan finished"
    );
    assert_eq!(
        title(m(Status::Running, Status::Failed)).0,
        "Myagent / frontend @ zuan failed"
    );
    for (p, q) in [
        (Status::Running, Status::Idle),
        (Status::Running, Status::Unknown),
        (Status::Running, Status::Running),
        (Status::Starting, Status::Failed),
        (Status::Waiting, Status::TurnDone),
        (Status::TurnDone, Status::Finished),
        (Status::Idle, Status::Running),
    ] {
        assert!(m(p, q).is_none(), "{p:?} → {q:?}");
    }
    assert_eq!(
        title(m(Status::Idle, Status::Failed)).0,
        "Myagent / frontend @ zuan failed"
    );
    assert_eq!(
        title(m(Status::Idle, Status::Waiting)).2,
        Some(Status::Waiting)
    );
    assert!(n(
        Origin::Agora,
        Status::Running,
        Status::Finished,
        Some(EndCause::KilledByUser)
    )
    .is_none());
}

#[test]
fn external_rows_ended_by_hook_do_not_notify_but_process_gone_does() {
    let m = |origin, cause| n(origin, Status::Running, Status::Finished, Some(cause));
    for cause in [
        EndCause::HostSessionEnd(HostEndReason::Exit),
        EndCause::HostSessionEnd(HostEndReason::Clear),
        EndCause::Superseded,
    ] {
        assert!(m(Origin::External, cause).is_none(), "{cause:?}");
    }
    assert!(m(Origin::External, EndCause::ProcessGone).is_some());
    for cause in [
        EndCause::HostSessionEnd(HostEndReason::Exit),
        EndCause::ExitCode(0),
        EndCause::ProcessGone,
    ] {
        assert!(m(Origin::Agora, cause).is_some(), "{cause:?}");
        assert!(m(Origin::Adopted, cause).is_some(), "{cause:?}");
    }
}

#[test]
fn notification_for_branches_on_end_cause_not_on_the_reason_text() {
    let m = |origin, cause, detail| {
        notification_for(Transition {
            id: "n:1",
            agent_type: "myagent",
            name: "row",
            node: "mac",
            origin,
            prev: Status::Running,
            next: Status::Finished,
            end_cause: Some(cause),
            detail,
        })
    };
    let the_same_sentence = "killed by user (exit code 143)";
    assert!(m(
        Origin::Agora,
        EndCause::KilledByUser,
        Some(the_same_sentence)
    )
    .is_none());
    assert!(m(
        Origin::Agora,
        EndCause::ExitCode(143),
        Some(the_same_sentence)
    )
    .is_some());
    assert!(m(Origin::External, EndCause::ProcessGone, None).is_some());
    assert!(m(
        Origin::External,
        EndCause::HostSessionEnd(HostEndReason::Exit),
        None
    )
    .is_none());
}

#[test]
fn idle_row_emits_no_status_changed_on_later_ticks() {
    let idle = || {
        let mut s = standing(Status::Idle);
        s.status_since = 60;
        s
    };
    let mut differ = Differ::default();
    assert!(differ.step("n", &[view(idle())]).is_empty());
    for _ in 0..3 {
        let events = differ.step("n", &[view(idle())]);
        assert!(events.is_empty(), "{events:?}");
    }
    let mut running = standing(Status::Running);
    running.status_since = 70;
    let events = differ.step("n", &[view(running)]);
    match &events[..] {
        [Event::StatusChanged { standing, .. }] => {
            assert_eq!(standing.status, Status::Running);
            assert_eq!(standing.status_since, 70);
        }
        other => panic!("{other:?}"),
    }
}

#[test]
fn a_second_look_tells_one_thing_of_each_session() {
    let named = |id: &str, st| {
        let mut v = view(standing(st));
        v.id = id.into();
        v
    };
    let mut differ = Differ::new(false);
    let first = [
        named("a", Status::Running),
        named("b", Status::Running),
        named("c", Status::Running),
        named("d", Status::Running),
    ];
    assert!(differ.step("n", &first).is_empty());
    let mut both = named("c", Status::Idle);
    both.extras.task = Some("t".into());
    let second = [
        named("e", Status::Running),
        named("b", Status::Idle),
        both,
        named("d", Status::Running),
    ];
    let told: Vec<(&str, String)> = differ
        .step("n", &second)
        .into_iter()
        .map(|e| match e {
            Event::SessionCreated { id, .. } => ("created", id),
            Event::SessionRemoved { id } => ("removed", id),
            Event::SessionUpdated { id, .. } => ("updated", id),
            Event::StatusChanged { id, .. } => ("status", id),
            other => panic!("{other:?}"),
        })
        .collect();
    assert_eq!(
        told,
        vec![
            ("created", "n:e".to_owned()),
            ("status", "n:b".to_owned()),
            ("updated", "n:c".to_owned()),
            ("removed", "n:a".to_owned()),
        ]
    );
}

#[test]
fn project_change_emits_session_updated() {
    let mut differ = Differ::default();
    assert!(differ
        .step("n", &[view(standing(Status::Running))])
        .is_empty());
    let some = || {
        let mut v = view(standing(Status::Running));
        v.extras.project = Some(r#"{"repo":"/repo","name":"repo"}"#.into());
        v
    };
    let events = differ.step("n", &[some()]);
    assert!(
        matches!(&events[..], [Event::SessionUpdated { .. }]),
        "{events:?}"
    );
    let events = differ.step("n", &[some()]);
    assert!(events.is_empty(), "{events:?}");
}

#[test]
fn a_process_tri_state_change_is_a_status_change_even_when_nothing_else_moves() {
    let mut differ = Differ::default();
    assert!(differ
        .step("n", &[view(standing(Status::Running))])
        .is_empty());
    let unknown = || {
        let mut s = standing(Status::Running);
        s.process = ProcessState::Unknown;
        s.alive = false;
        view(s)
    };
    let events = differ.step("n", &[unknown()]);
    match &events[..] {
        [Event::StatusChanged { standing, .. }] => {
            assert_eq!(standing.process, ProcessState::Unknown);
            assert!(!standing.alive);
        }
        other => panic!("{other:?}"),
    }
    assert!(differ.step("n", &[unknown()]).is_empty());
}

#[test]
fn sessions_that_come_and_go_are_told() {
    let mut differ = Differ::default();
    assert!(differ.step("n", &[]).is_empty());
    let events = differ.step("n", &[view(standing(Status::Running))]);
    match &events[..] {
        [Event::SessionCreated { id, session }] => {
            assert_eq!(id, "n:s1");
            assert_eq!(session.get_str("node"), Some("n"));
        }
        other => panic!("{other:?}"),
    }
    let events = differ.step("n", &[view(standing(Status::Waiting))]);
    assert_eq!(events.len(), 2, "{events:?}");
    assert!(matches!(events[1], Event::Notification { .. }));
    assert_eq!(
        differ.step("n", &[]),
        vec![Event::SessionRemoved { id: "n:s1".into() }]
    );
    let mut quiet = Differ::new(false);
    quiet.step("n", &[view(standing(Status::Running))]);
    assert_eq!(
        quiet.step("n", &[view(standing(Status::Waiting))]).len(),
        1
    );
}

#[test]
fn sessions_are_told_under_a_name_for_everyone() {
    assert_eq!(global_id("mac", "s1"), "mac:s1");
    let v = export("mac", &view(standing(Status::Idle)));
    assert_eq!(v.get_str("id"), Some("mac:s1"));
    assert_eq!(v.get_str("local_id"), Some("s1"));
    assert_eq!(v.get_str("display_name"), Some("shell-01"));
    assert!(matches!(v, Json::Object(_)));
    assert_eq!(agent_label("shell"), "Shell");
    assert_eq!(agent_label("ßx"), "SSx");
    assert_eq!(agent_label(""), "");
}
