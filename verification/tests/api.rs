//! What requests are answered.

use agora::adapter::claude::Claude;
use agora::adapter::{Decision, RestartPlan};
use agora::api::agents::{command_for, list};
use agora::api::changes::{
    diff_spec, parse_porcelain_v2, status_from, status_of_directory, Changes, FileStatus, GitRun,
    Reason,
};
use agora::api::events::{gather, reply_to, send, Received};
use agora::api::forward::{
    hop, is_exit_frame, node_of, pass_to_browser, pass_to_peer, session_path, transport_failed,
    Frame, Hop, Pass, Route, TransportError,
};
use agora::api::health::{health, Condition, RuntimeHealth};
use agora::api::projects::{
    forwarded, path_with_query, project_failed, tasks_body, ProjectError,
};
use agora::api::sessions::{
    adoption, announce_created, announce_renamed, answered, confirmed, input, list_body, local_id, lookup, new_name, new_session,
    not_in_view, require_confirmation, respond_failed, restart_reply, session_failed, status_word,
    unregistered_row, with_pin, AdoptBody, ConfirmBody, CreateBody, DecisionKind, Input, InputBody, Lookup,
    PatchBody, SessionError, Unregistered,
};
use agora::api::spa::{candidate_for, is_below, page_with, serve, Page};
use agora::api::terminal::{Act, Bridge, TermQuery};
use agora::api::version::{
    api_version, check, negotiate, ApiVersion, Compatibility, Incompatible, SystemInfo,
};
use agora::api::{plaintext_listen, Address, Ip, ListenError, PUBLIC_ROUTES, ROUTES};
use agora::auth::Principal;
use agora::codec::{compact, parse};
use agora::config::AgentOverride;
use agora::events::{Event, Extras, SessionView, Standing};
use agora::gateway::ClientMessage;
use agora::hook::receiver::Origin;
use agora::hook::RespondError;
use agora::json::Json;
use agora::runtime::Size;
use agora::status::{ProcessState, Source, Status};

const ACME: Claude = Claude {
    name: "acme",
    title: "Acme Agent",
    settings: ".acme/settings.json",
};

fn j(text: &str) -> Json {
    parse(text.as_bytes()).unwrap()
}

fn z(lines: &[&str]) -> String {
    lines.iter().map(|l| format!("{l}\0")).collect()
}

fn v1_0() -> ApiVersion {
    ApiVersion::new(1, 0)
}

fn human() -> Principal {
    Principal::Human { device: "d".into() }
}

fn peer() -> Principal {
    Principal::Peer { name: "p".into() }
}

#[test]
fn porcelain_v2_entries_map_to_typed_statuses_sorted_by_path() {
    let text = z(&[
        "# branch.oid 0123",
        "# branch.head main",
        "# branch.upstream origin/main",
        "# branch.ab +1 -0",
        "1 .M N... 100644 100644 100644 aaa bbb src/z.rs",
        "1 A. N... 000000 100644 100644 000 ccc staged.txt",
        "1 .D N... 100644 100644 000000 ddd ddd gone.txt",
        "1 MD N... 100644 100644 000000 eee fff both.txt",
        "2 R. N... 100644 100644 100644 ggg ggg R100 new name.txt",
        "old name.txt",
        "1 .T N... 100644 100644 120000 hhh hhh link",
        "u UU N... 100644 100644 100644 100644 iii jjj kkk conflict.txt",
        "? untracked.txt",
        "! ignored.log",
    ]);
    let c = parse_porcelain_v2(&text);
    assert_eq!(c.branch.as_deref(), Some("main"));
    assert_eq!(c.reason, None);
    let got: Vec<(&str, FileStatus)> = c
        .files
        .iter()
        .map(|f| (f.path.as_str(), f.status))
        .collect();
    assert_eq!(
        got,
        vec![
            ("both.txt", FileStatus::Deleted),
            ("conflict.txt", FileStatus::Unmerged),
            ("gone.txt", FileStatus::Deleted),
            ("link", FileStatus::Typechange),
            ("new name.txt", FileStatus::Renamed),
            ("src/z.rs", FileStatus::Modified),
            ("staged.txt", FileStatus::Added),
            ("untracked.txt", FileStatus::Untracked),
        ]
    );
}

#[test]
fn two_outputs_put_together_list_the_files_of_both() {
    let a = z(&["2 R. N... 1 1 1 g g R100 b", "old", "? d"]);
    let b = z(&["1 .M N... 1 1 1 a b c", "? d", "? a"]);
    let ab = parse_porcelain_v2(&format!("{a}{b}"));
    assert_eq!(ab, parse_porcelain_v2(&format!("{b}{a}")));
    let names: Vec<&str> = ab.files.iter().map(|f| f.path.as_str()).collect();
    assert_eq!(names, vec!["a", "b", "c", "d", "d"]);
    assert_eq!((ab.branch, ab.reason), (None, None));
}

#[test]
fn detached_head_has_no_branch_and_a_clean_tree_is_an_empty_list() {
    let c = parse_porcelain_v2(&z(&["# branch.oid 0123", "# branch.head (detached)"]));
    assert_eq!(c.branch, None);
    assert!(c.files.is_empty());
    assert_eq!(c.reason, None);
}

#[test]
fn reasons_and_statuses_serialize_snake_case() {
    let c = Changes::empty(Reason::NotARepo);
    assert_eq!(
        c.to_json(),
        j(r#"{"files":[],"branch":null,"reason":"not_a_repo"}"#)
    );
    assert_eq!(FileStatus::Typechange.name(), "typechange");
    assert_eq!(Reason::NoDirectory.name(), "no_directory");
    let c = parse_porcelain_v2(&z(&["# branch.head main", "? a"]));
    assert_eq!(
        c.to_json(),
        j(r#"{"files":[{"path":"a","status":"untracked"}],"branch":"main","reason":null}"#)
    );
}

#[test]
fn what_git_did_is_told_apart() {
    let reason = |run: GitRun| status_from(&run).reason;
    assert_eq!(reason(GitRun::NotFound), Some(Reason::NoGit));
    assert_eq!(reason(GitRun::TimedOut), Some(Reason::Timeout));
    assert_eq!(reason(GitRun::Failed), Some(Reason::Git));
    assert_eq!(
        reason(GitRun::Exited {
            code: Some(128),
            stdout: vec![]
        }),
        Some(Reason::NotARepo)
    );
    assert_eq!(
        reason(GitRun::Exited {
            code: Some(0),
            stdout: vec![]
        }),
        None
    );
    assert_eq!(
        status_of_directory(None, false).unwrap_err().reason,
        Some(Reason::NoDirectory)
    );
    assert_eq!(
        status_of_directory(Some("/w"), false).unwrap_err().reason,
        Some(Reason::NoDirectory)
    );
    assert_eq!(status_of_directory(Some("/w"), true).unwrap()[0], "git");
    assert!(diff_spec("s", None).is_err());
    assert!(diff_spec("s", Some("/w")).is_ok());
}

#[test]
fn exit_frame_is_recognized_by_top_level_type_only() {
    let ends = |text: &str| {
        let v = parse(text.as_bytes());
        is_exit_frame(v.as_ref().and_then(|v| v.get_str("type")))
    };
    assert!(ends(r#"{"type":"exit","exit":{"kind":"code","value":0}}"#));
    assert!(!ends(r#"{"type":"output","data":"{\"type\":\"exit\"}"}"#));
    assert!(!ends(r#"{"type":"status","status":"attached"}"#));
    assert!(!ends("not json"));
}

#[test]
fn only_the_type_exit_ends_a_line() {
    assert!(is_exit_frame(Some("exit")));
    assert!(!is_exit_frame(Some("exits")));
    assert!(!is_exit_frame(Some("")));
    assert!(!is_exit_frame(None));
}

#[test]
fn transport_errors_map_by_type_not_text() {
    let e = transport_failed("zuan", TransportError::Timeout, "5s");
    assert_eq!((e.status, e.kind), (502, "peer_unreachable"));
    let e = transport_failed("zuan", TransportError::FingerprintMismatch, "a b");
    assert_eq!((e.status, e.kind), (502, "peer_fingerprint_mismatch"));
    let e = transport_failed("zuan", TransportError::WsRejected(404), "x");
    assert_eq!((e.status, e.kind), (404, "peer_rejected"));
}

#[test]
fn same_major_is_compatible_whatever_the_minor() {
    assert_eq!(
        check(v1_0(), ApiVersion::new(1, 0)),
        Ok(Compatibility::Same)
    );
    assert_eq!(
        check(v1_0(), ApiVersion::new(1, 7)),
        Ok(Compatibility::PeerNewer)
    );
    assert_eq!(
        check(ApiVersion::new(1, 7), v1_0()),
        Ok(Compatibility::PeerOlder)
    );
    assert_eq!(
        v1_0().check(ApiVersion::new(1, 3)),
        Ok(Compatibility::PeerNewer)
    );
}

#[test]
fn different_major_is_incompatible_in_both_directions() {
    let v2 = ApiVersion::new(2, 0);
    assert_eq!(
        check(v1_0(), v2),
        Err(Incompatible::MajorMismatch {
            ours: v1_0(),
            theirs: v2
        })
    );
    assert_eq!(
        check(v2, v1_0()),
        Err(Incompatible::MajorMismatch {
            ours: v2,
            theirs: v1_0()
        })
    );
    assert!(check(ApiVersion::new(1, 99), v2).is_err());
}

#[test]
fn negotiate_reads_the_raw_system_body() {
    let body = j(r#"{"api_version":{"major":1,"minor":2},"version":"0.1.0","node":"mac"}"#);
    assert_eq!(negotiate(v1_0(), &body), Ok(Compatibility::PeerNewer));
    let body = j(r#"{"api_version":{"major":2,"minor":0},"version":"9.9.9","node":"mac"}"#);
    assert!(matches!(
        negotiate(v1_0(), &body),
        Err(Incompatible::MajorMismatch { .. })
    ));
}

#[test]
fn unreadable_api_version_is_incompatible_not_a_guess() {
    for body in [
        r#"{"version":"0.1.0","node":"mac"}"#,
        r#"{"api_version":1}"#,
        r#"{"api_version":"1.0"}"#,
        r#"{"api_version":{"major":-1,"minor":0}}"#,
        r#"{"api_version":{"major":1}}"#,
        r#"{"api_version":{"major":1.5,"minor":0}}"#,
        "null",
    ] {
        assert_eq!(
            negotiate(v1_0(), &j(body)),
            Err(Incompatible::Unreadable),
            "{body}"
        );
    }
}

#[test]
fn system_info_round_trips_and_serializes_as_an_object() {
    let info = SystemInfo {
        api_version: api_version(),
        version: "0.1.0".into(),
        node: "mac".into(),
    };
    let v = info.to_json();
    assert_eq!(
        v.get("api_version").unwrap(),
        &j(&format!(
            r#"{{"major":{},"minor":{}}}"#,
            api_version().major,
            api_version().minor
        ))
    );
    assert_eq!(
        ApiVersion::from_json(v.get("api_version").unwrap()),
        Some(api_version())
    );
    assert_eq!(v.get_str("version"), Some("0.1.0"));
    assert_eq!(v.get_str("node"), Some("mac"));
    assert_eq!(ApiVersion::from_json(&j("1")), None);
}

#[test]
fn display_is_major_dot_minor() {
    assert_eq!(ApiVersion::new(1, 0).to_text(), "1.0");
    assert_eq!(ApiVersion::new(12, 3).to_text(), "12.3");
    assert_eq!(
        Incompatible::MajorMismatch {
            ours: v1_0(),
            theirs: ApiVersion::new(2, 1)
        }
        .message(),
        "API 版本不兼容：本方 1.0，对方 2.1（major 不同）"
    );
}

#[test]
fn plain_text_is_for_this_machine_alone() {
    let at = |ip, text: &str| Address {
        ip,
        port: 1,
        text: text.into(),
    };
    assert!(plaintext_listen("127.0.0.1:1", Some(at(Ip::V4(127, 0, 0, 1), "127.0.0.1:1"))).is_ok());
    assert!(plaintext_listen("[::1]:1", Some(at(Ip::V6(1), "[::1]:1"))).is_ok());
    assert!(matches!(
        plaintext_listen("10.0.0.1:1", Some(at(Ip::V4(10, 0, 0, 1), "10.0.0.1:1"))),
        Err(ListenError::NotLoopback(_))
    ));
    assert!(matches!(
        plaintext_listen("x", None),
        Err(ListenError::Parse(_))
    ));
    assert!(PUBLIC_ROUTES.iter().all(|r| ROUTES.contains(r)));
}

#[test]
fn a_request_goes_one_hop_at_most() {
    assert_eq!(node_of("zuan:s1").as_deref(), Some("zuan"));
    assert_eq!(
        hop("mac", "mac:s1", Route::Local, false, &human()).unwrap(),
        Hop::Local("s1".into())
    );
    assert_eq!(
        hop("mac", "zuan:s1", Route::Peer, false, &human()).unwrap(),
        Hop::Peer { retry: false }
    );
    assert!(hop("mac", "zuan:s1", Route::Peer, false, &peer()).is_err());
    assert_eq!(
        hop("mac", "nope:s1", Route::Unknown, false, &human())
            .unwrap_err()
            .status,
        404
    );
    assert!(session_path("zuan:s1", "/kill", Some("a=1")).ends_with("/kill?a=1"));
    assert_eq!(pass_to_peer(Frame::Gone), Pass::End);
    assert_eq!(pass_to_browser(Frame::Exit), Pass::Last);
}

#[test]
fn sessions_of_other_nodes_are_not_shown_to_machines() {
    let body = list_body(
        &peer(),
        vec![j("1")],
        vec![j("2")],
        vec![j("3")],
    );
    assert_eq!(body.get("sessions").unwrap(), &j("[1]"));
    let body = list_body(
        &human(),
        vec![j("1")],
        vec![j("2")],
        vec![j("3")],
    );
    assert_eq!(body.get("sessions").unwrap(), &j("[1,2]"));
    assert_eq!(local_id("mac", "mac:s1").unwrap(), "s1");
    assert_eq!(local_id("mac", "s1").unwrap(), "s1");
    assert_eq!(local_id("mac", "zuan:s1").unwrap_err().kind, "node_unknown");
    assert_eq!(
        lookup("mac", "mac:s1", Route::Local, false, &human()).unwrap(),
        Lookup::Here("s1".into())
    );
    assert_eq!(not_in_view("zuan", "zuan:s1").status, 404);
}

fn create_body(name: &str, agent: &str, command: Option<&str>) -> CreateBody {
    CreateBody {
        display_name: name.into(),
        agent_type: agent.into(),
        working_directory: "/w".into(),
        worktree: None,
        task_ref: None,
        command: command.map(str::to_owned),
        cols: None,
        rows: None,
    }
}

#[test]
fn a_new_session_takes_the_first_command_that_is_given() {
    let c = |agent: &str, command, configured| {
        new_session(ACME, create_body("n", agent, command), configured)
            .unwrap()
            .command
    };
    assert_eq!(c("codex", Some("x"), Some("y")), "x");
    assert_eq!(c("codex", Some("  "), Some("y")), "y");
    assert_eq!(c("acme", None, None), "acme");
    assert_eq!(c("other", None, None), "other");
    let e = new_session(ACME, create_body(" ", "codex", None), None).unwrap_err();
    assert_eq!((e.status, e.kind), (400, "bad_request"));
    let n = new_session(ACME, create_body("n", "codex", None), None).unwrap();
    assert_eq!(
        n.size,
        Size {
            cols: 160,
            rows: 48
        }
    );
    let (n, id) = with_pin(n, Some(("codex --x".into(), "u".into())));
    assert_eq!((n.command.as_str(), id.as_deref()), ("codex --x", Some("u")));
    let a = adoption(AdoptBody {
        runtime_ref: "r".into(),
        display_name: None,
        agent_type: None,
        project: Some("/p".into()),
    });
    assert_eq!(a.working_directory.as_deref(), Some("/p"));
}

#[test]
fn agents_are_listed_with_their_commands() {
    let conf = [(
        "codex".to_owned(),
        AgentOverride {
            command: Some("my-codex".into()),
        },
    )];
    let body = list(ACME, &conf);
    let all = body.get("agents").unwrap().as_array().unwrap();
    assert_eq!(all.len(), 4);
    assert_eq!(all[0].get_str("name"), Some("acme"));
    assert_eq!(all[1].get_str("command"), Some("my-codex"));
    assert_eq!(command_for(&conf, "grok", "grok"), "grok");
}

#[test]
fn changes_to_a_session_are_checked() {
    let name = |n: Option<&str>| {
        new_name(&PatchBody {
            display_name: n.map(str::to_owned),
        })
    };
    assert_eq!(name(Some("x")), Ok("x".into()));
    assert_eq!(
        name(Some(" ")).unwrap_err().message,
        "display_name 不能为空"
    );
    assert_eq!(
        name(None).unwrap_err().message,
        "没有可改的字段（display_name）"
    );
    assert!(!confirmed(None));
    assert!(!confirmed(Some(&ConfirmBody::default())));
    assert!(confirmed(Some(&ConfirmBody { confirmed: true })));
    assert!(require_confirmation(true, true, "Kill", Status::Running).is_ok());
    assert!(require_confirmation(false, false, "Kill", Status::Finished).is_ok());
    let e = require_confirmation(true, false, "Kill", Status::TurnDone).unwrap_err();
    assert_eq!((e.status, e.kind), (409, "needs_confirmation"));
    assert!(e.message.contains(&format!("{:?}", Status::TurnDone)));
    assert_eq!(status_word(Status::Idle), "Idle");
}

#[test]
fn a_restart_says_how_it_went() {
    let r = restart_reply(
        j(r#"{"id":"x"}"#),
        &RestartPlan::Resume {
            command: "c".into(),
            agent_session_id: "u".into(),
        },
    );
    assert_eq!(
        r,
        j(r#"{"id":"x","restart":{"resumed":true,"agent_session_id":"u"}}"#)
    );
    let r = restart_reply(
        j("{}"),
        &RestartPlan::Original {
            command: "c".into(),
            reason: "one\ntwo".into(),
        },
    );
    assert_eq!(
        r,
        j(r#"{"restart":{"resumed":false,"reason":"one…"}}"#)
    );
}

#[test]
fn input_is_an_answer_or_text() {
    assert_eq!(
        input(InputBody::Text { data: "ls\n".into() }),
        Input::Type { data: "ls\n".into() }
    );
    assert_eq!(
        input(InputBody::Decision {
            decision: DecisionKind::Deny,
            message: Some("no".into()),
            tool_use_id: Some("t".into()),
            request_id: None,
        }),
        Input::Tool {
            tool_use_id: Some("t".into()),
            decision: Decision::Deny {
                message: Some("no".into())
            }
        }
    );
    assert_eq!(
        input(InputBody::Decision {
            decision: DecisionKind::Allow,
            message: None,
            tool_use_id: None,
            request_id: Some("r".into()),
        }),
        Input::Request {
            request_id: "r".into(),
            decision: Decision::Allow
        }
    );
    assert_eq!(answered("t"), j(r#"{"tool_use_id":"t"}"#));
    let e = respond_failed(
        "s",
        &RespondError::NoPendingDecision {
            session: "s".into(),
            tool_use_id: "t".into(),
        },
    );
    assert_eq!((e.status, e.kind), (409, "no_pending_decision"));
    let e = respond_failed("s", &RespondError::Checkpoint("x".into()));
    assert_eq!((e.status, e.kind), (500, "hook_state"));
    assert_eq!(session_failed(SessionError::NotFound, "m").status, 404);
    assert_eq!(session_failed(SessionError::Db, "m").status, 500);
}

#[test]
fn projects_are_asked_where_they_are() {
    assert_eq!(forwarded("mac", None, Route::Local, &human()), Ok(false));
    assert_eq!(
        forwarded("mac", Some("zuan"), Route::Peer, &human()),
        Ok(true)
    );
    assert!(forwarded("mac", Some("zuan"), Route::Peer, &peer()).is_err());
    assert_eq!(
        path_with_query("/api/projects", Some("a=1")),
        "/api/projects?a=1"
    );
    assert_eq!(path_with_query("/api/projects", None), "/api/projects");
    assert_eq!(project_failed(ProjectError::Unknown, "m").status, 400);
    assert_eq!(
        tasks_body(Ok(vec![])),
        j(r#"{"tasks":[],"reason":null}"#)
    );
    assert_eq!(
        tasks_body(Err("no_bd".into())),
        j(r#"{"tasks":[],"reason":"no_bd"}"#)
    );
}

#[test]
fn pages_are_told_by_their_names() {
    assert_eq!(candidate_for("/api/x"), None);
    assert!(is_below("assets/a..b.js"));
    assert!(!is_below("../agora.db"));
    assert!(!is_below("a/../../agora.db"));
    match serve("/assets/app.js", true, true) {
        Page::File { name, content_type } => {
            assert_eq!(name, "assets/app.js");
            assert!(content_type.contains("javascript"), "{content_type}");
        }
        other => panic!("{other:?}"),
    }
    match serve("/sessions", false, true) {
        Page::File { name, content_type } => {
            assert_eq!(name, "index.html");
            assert_eq!(content_type, "application/octet-stream");
        }
        other => panic!("{other:?}"),
    }
    match serve("/", true, true) {
        Page::File { name, content_type } => {
            assert_eq!(name, "index.html");
            assert!(content_type.contains("html"), "{content_type}");
        }
        other => panic!("{other:?}"),
    }
    assert_eq!(serve("/api/nope", true, true), Page::NotFound);
    assert_eq!(serve("/sessions", false, false), Page::Unavailable);
    assert_eq!(
        page_with("/x.css", true, true, "text/css"),
        Page::File {
            name: "x.css".into(),
            content_type: "text/css".into()
        }
    );
}

#[test]
fn strangers_learn_only_that_someone_is_there() {
    let c = || Condition {
        runtime: RuntimeHealth::now(None, "path"),
        database: true,
        tls: None,
        peers: j("{}"),
    };
    let stranger = health(false, c());
    let known = health(true, c());
    assert_ne!(stranger, known);
    assert!(compact(&known).len() > compact(&stranger).len());
}

#[test]
fn a_terminal_that_is_watched_takes_no_input() {
    let mut b = Bridge::new(false, 0);
    let text = |m| agora::api::terminal::Frame::Text(Some(m));
    assert_eq!(
        b.frame(text(ClientMessage::Input { data: "x".into() }), 1),
        Act::Nothing
    );
    let mut b = Bridge::new(true, 0);
    assert_eq!(
        b.frame(text(ClientMessage::Input { data: "x".into() }), 1),
        Act::Write("x".into())
    );
    assert_eq!(b.frame(text(ClientMessage::Ping), 2), Act::Pong);
    assert_eq!(
        b.frame(text(ClientMessage::Resize { cols: 9, rows: 8 }), 2),
        Act::Resize(Size { cols: 9, rows: 8 })
    );
    assert_eq!(
        b.frame(agora::api::terminal::Frame::Gone, 3),
        Act::Stop
    );
    assert_eq!(b.output("é".as_bytes()).as_deref(), Some("é"));
    assert_eq!(b.output(&[0xc3]), None);
    assert_eq!(
        TermQuery {
            cols: Some(1),
            rows: Some(2)
        }
        .size(),
        Size { cols: 1, rows: 2 }
    );
}

#[test]
fn events_are_gathered_for_a_moment() {
    let mut batch = vec![];
    assert!(gather(&mut batch, Received::Event(Event::Resync)));
    assert!(!gather(&mut batch, Received::Closed));
    assert_eq!(send(batch), vec![Event::Resync]);
    assert!(reply_to("?").is_none());
}

#[test]
fn sessions_that_come_up_are_answered_and_told() {
    let view = SessionView {
        id: "s1".into(),
        display_name: "n".into(),
        name: "n".into(),
        agent_type: "codex".into(),
        origin: Origin::Agora,
        standing: Standing {
            status: Status::Running,
            source: Source::Process,
            reason: None,
            end_cause: None,
            unknown_cause: None,
            process: ProcessState::Alive,
            alive: true,
            detail: None,
            prompt: None,
            progress: None,
            preview: None,
            status_since: 0,
            hooks_unheard: None,
        },
        extras: Extras {
            task: None,
            project: None,
            agent_session_id: None,
            pending_decision: None,
        },
        row: j("{}"),
    };
    let (body, event) = announce_created("mac", &view);
    assert_eq!(body.get_str("id"), Some("mac:s1"));
    assert_eq!(
        event,
        Event::SessionCreated {
            id: "mac:s1".into(),
            session: body
        }
    );
    let (body, event) = announce_renamed("mac", &view);
    assert_eq!(
        event,
        Event::SessionUpdated {
            id: "mac:s1".into(),
            session: body
        }
    );
    let row = unregistered_row(
        "mac",
        &Unregistered {
            runtime_ref: "tmux:agora:x".into(),
            name: "x".into(),
            title: "t".into(),
            alive: true,
            managed: false,
            working_directory: "/w".into(),
            agent_hint: Some("codex".into()),
        },
    );
    assert_eq!(row.get_str("node"), Some("mac"));
    assert_eq!(row.get_str("runtime_ref"), Some("tmux:agora:x"));
    assert_eq!(row.get("alive"), Some(&j("true")));
}
