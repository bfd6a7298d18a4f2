//! Reports of hooks: the command, the inbox, the receiver, and how hooks are installed.

use agora::adapter::claude::Claude;
use agora::adapter::replay::{
    lines_to_play, replay, time_of, Assessment, Expect, Line, Outcome, ReplayError,
};
use agora::adapter::{for_host, hosts, AgentHooks, Decision, Host, Release};
use agora::codec::{compact, parse};
use agora::hook::cmd::{
    agent_env, envelope, is_secret_name, lossy_text, parse_args, payload_of, wait_seconds,
};
use agora::hook::diff::diff;
use agora::hook::holds::{SessionFacts, MAX_HOLDS_PER_SESSION};
use agora::hook::inbox::{
    delivery_file_name, delivery_time_secs, is_expired, local_time_string, now_unix_ms,
    safe_component, DirFacts, LocalTime,
};
use agora::hook::ingest::{advance, begin, nature_of, End, Nature, Phase, Reply};
use agora::hook::install::{
    add_ours, bin_path, command, dangling_bin_link, ensure_bin_link, is_ours, read_config,
    remove_ours, resolve_link_target, run_with, Found, InstallError, Installer, LinkAction, LinkPlan, Located, Step,
};
use agora::hook::receiver::{
    after_apply, application_of, archive_step, ends_on_identity_handoff, external_session,
    locate_external, open_delivery, target_of, wake_decision, Applied, ArchiveRow, Locate, Lookup,
    Opened, Origin, Row, Waited,
};
use agora::hook::record::{header_line, read_t0, record_json, record_line};
use agora::hook::{Delivery, Envelope, HookError, Inbox, Receiver, RespondError};
use agora::json::Json;
use agora::status::{AgoraEvent, Source, Status};

const ACME: Claude = Claude {
    name: "acme",
    title: "Acme Agent",
    settings: ".acme/settings.json",
};

fn j(text: &str) -> Json {
    parse(text.as_bytes()).unwrap()
}

fn delivery(host: &str, ms: u64, sid: &str, payload: &str) -> Delivery {
    Delivery {
        envelope: Envelope {
            host: host.into(),
            agora_session_id: None,
            agora_epoch: None,
            agent_session_id: sid.into(),
            agent_env: vec![],
            runtime_env: vec![],
            ppid: 1,
            received_at: String::new(),
            received_unix_ms: ms,
        },
        payload: j(payload),
    }
}

fn located(path: &str) -> Located {
    Located {
        path: path.into(),
        canonical: Some(path.into()),
    }
}

fn installer() -> Installer {
    Installer {
        agora_home: "/a".into(),
        user_home: "/u".into(),
    }
}

#[test]
fn args_require_a_known_host() {
    let hosts = hosts(ACME);
    let args = |argv: &[&str]| parse_args(ACME, argv, "/home", None);
    assert!(args(&["--host", hosts[0], "--home", "/x"]).is_ok());
    assert!(args(&["--host", "nope"]).is_err());
    assert!(args(&["--home", "/x"]).is_err());
    assert!(args(&["--host", hosts[1], "--bogus"]).is_err());
    let a = args(&["--host", hosts[0], "--home", "/x", "--record", "/r.jsonl"]).unwrap();
    assert_eq!(a.record.as_deref(), Some("/r.jsonl"));
    let a = parse_args(ACME, &["--host", "codex"], "/home", Some("/e.jsonl")).unwrap();
    assert_eq!(a.home, "/home");
    assert_eq!(a.record.as_deref(), Some("/e.jsonl"));
}

#[test]
fn credentials_never_enter_the_envelope() {
    assert!(is_secret_name("CLAUDE_CODE_MESSAGING_TOKEN"));
    assert!(is_secret_name("CODEX_API_KEY"));
    assert!(!is_secret_name("CLAUDE_PID"));
    let env = [
        ("CODEX_API_KEY".to_owned(), "x".to_owned()),
        ("CODEX_SHELL".to_owned(), "1".to_owned()),
        ("PATH".to_owned(), "/bin".to_owned()),
    ];
    assert_eq!(
        agent_env(&env),
        vec![("CODEX_SHELL".to_owned(), "1".to_owned())]
    );
}

#[test]
fn an_envelope_says_where_a_report_comes_from() {
    let env = [
        ("AGORA_SESSION_ID".to_owned(), "s1".to_owned()),
        ("AGORA_SESSION_EPOCH".to_owned(), "3".to_owned()),
        ("PANE".to_owned(), "%1".to_owned()),
    ];
    let e = envelope(
        Host::Codex,
        &j(r#"{"session_id":"c1"}"#),
        &env,
        &["PANE"],
        7,
        "now",
        42,
    );
    assert_eq!(e.host, "codex");
    assert_eq!(e.agent_session_id, "c1");
    assert_eq!(e.runtime_env, vec![("PANE".to_owned(), "%1".to_owned())]);
    assert_eq!((e.ppid, e.received_unix_ms), (7, 42));
}

#[test]
fn a_payload_that_is_no_json_is_kept_as_text() {
    assert_eq!(payload_of(br#"{"a":1}"#), j(r#"{"a":1}"#));
    assert!(compact(&payload_of(b"plain \xff")).contains("plain"));
    assert_eq!(lossy_text(b"a\xffb"), "a\u{fffd}b");
    let pr = j(r#"{"hook_event_name":"PermissionRequest","tool_name":"Bash"}"#);
    assert_eq!(
        wait_seconds(Host::Codex, &pr),
        Host::Codex.hold_timeout() + 30
    );
    assert_eq!(wait_seconds(Host::Codex, &j("{}")), 2);
}

#[test]
fn files_sort_by_time_across_sessions_and_move_to_done() {
    let inbox = Inbox::new("/a");
    let path = |ms, sid| inbox.delivery_path(&delivery("h", ms, sid, "{}").envelope, 9);
    let (a, b, c) = (path(1, "s1"), path(2, "s2"), path(3, "s1"));
    assert_eq!(
        inbox.pending(&[b.clone(), a.clone(), c.clone()]),
        vec![a.clone(), b.clone(), c.clone()]
    );
    assert!(inbox.contains(Some(&inbox.inbox_dir()), Some(&a)));
    let target = inbox.done_target(&a).unwrap();
    assert!(target.starts_with("/a/hooks/done/h/s1/"), "{target}");
    let dir = |uid, mode| DirFacts {
        path: inbox.inbox_dir(),
        uid,
        mode,
    };
    assert_eq!(inbox.check_permissions(&[dir(5, 0o40700)], 5), Ok(()));
    assert!(matches!(
        inbox.check_permissions(&[dir(5, 0o40755)], 5),
        Err(HookError::TooOpen { .. })
    ));
    assert!(matches!(
        inbox.check_permissions(&[dir(6, 0o40700)], 5),
        Err(HookError::WrongOwner { .. })
    ));
    assert!(is_expired(100_000_000, Some(39_999_999), 60));
    assert!(!is_expired(100_000_000, Some(40_000_000), 60));
    assert!(!is_expired(100_000_000, None, 60));
    assert!(is_expired(100, Some(99), 0));
    assert!(is_expired(1, Some(-5), 0));
    assert!(!is_expired(i128::MIN, Some(i128::MIN), u64::MAX));
}

#[test]
fn foreign_paths_are_not_inside() {
    let inbox = Inbox::new("/a");
    assert!(!inbox.contains(Some(&inbox.inbox_dir()), Some("/a/agora.db")));
    assert!(!inbox.contains(None, Some("/a/hooks/inbox/h/s/1.json")));
    assert!(inbox.done_target("/a/agora.db").is_err());
}

#[test]
fn session_ids_become_safe_directory_names() {
    assert_eq!(safe_component("../x/y"), ".._x_y");
    assert_eq!(safe_component(""), "unknown");
    assert_eq!(safe_component(".."), "unknown");
    assert_eq!(safe_component("abc-DEF_1.2"), "abc-DEF_1.2");
}

#[test]
fn a_file_name_tells_when_it_was_written() {
    let name = delivery_file_name(12_345, 9);
    assert_eq!(delivery_time_secs(&name), Some(12));
    assert_eq!(delivery_time_secs("x"), None);
    assert!(now_unix_ms() > 1_700_000_000_000);
    assert_eq!(
        local_time_string(LocalTime {
            year: 2026,
            month: 9,
            day: 3,
            hour: 1,
            minute: 2,
            second: 3,
            offset: 28_800
        }),
        "2026-09-03T01:02:03+0800"
    );
}

#[test]
fn diff_marks_added_and_removed_lines() {
    let d = diff("a\nb\nc", "a\nc\nd");
    assert_eq!(d, "  a\n- b\n  c\n+ d\n");
}

#[test]
fn paths_with_spaces_are_quoted() {
    let c = command("/Users/x y/.agora", "h");
    assert!(c.starts_with("if [ -x '/Users/x y/.agora/bin/agora' ]; then"));
    assert!(is_ours("/Users/x y/.agora", &c));
    assert!(!is_ours("/Users/z/.agora", &c));
}

#[test]
fn bin_link_plan_distinguishes_ok_create_and_repoint() {
    let inst = installer();
    let exe = located("/t/agora-current");
    let link = located("/a/bin/agora");
    assert_eq!(bin_path("/a"), "/a/bin/agora");
    let plan = inst.bin_link_plan(&link, &exe, &Found::Nothing);
    assert_eq!(plan, LinkPlan::Create(link.path.clone()));
    assert!(plan.describe(&exe.path, false, false).starts_with("将建立 "));
    let right = Found::Link {
        target: exe.path.clone(),
        resolved: located("/t/agora-current"),
    };
    let plan = inst.bin_link_plan(&link, &exe, &right);
    assert_eq!(plan, LinkPlan::Current(link.path.clone()));
    assert!(plan.is_ok());
    let wrong = Found::Link {
        target: "/t/agora-old".into(),
        resolved: located("/t/agora-old"),
    };
    let plan = inst.bin_link_plan(&link, &exe, &wrong);
    assert_eq!(
        plan,
        LinkPlan::Repoint {
            link: link.path.clone(),
            from: Some("/t/agora-old".into())
        }
    );
    assert!(plan.describe(&exe.path, true, true).contains("原指向"));
    assert!(!plan.describe(&exe.path, true, true).contains("已不存在"));
    assert!(plan.describe(&exe.path, true, false).contains("已不存在"));
    let plan = inst.bin_link_plan(&link, &exe, &Found::Other);
    assert_eq!(
        plan,
        LinkPlan::Repoint {
            link: link.path.clone(),
            from: None
        }
    );
    assert!(plan.describe(&exe.path, false, false).contains("普通文件"));
    assert_eq!(
        ensure_bin_link(&link, &exe, &Found::Nothing),
        LinkAction::Create
    );
    assert_eq!(ensure_bin_link(&link, &exe, &right), LinkAction::Keep);
    assert_eq!(
        ensure_bin_link(&link, &exe, &Found::Other),
        LinkAction::Replace
    );
}

#[test]
fn bin_link_plan_treats_the_link_itself_as_already_pointing() {
    let inst = installer();
    let x = "/private/t/agora-current";
    let link = Located {
        path: "/a/bin/agora".into(),
        canonical: Some(x.into()),
    };
    let found = Found::Link {
        target: "/t/agora-current".into(),
        resolved: Located {
            path: "/t/agora-current".into(),
            canonical: Some(x.into()),
        },
    };
    let plan = inst.bin_link_plan(&link, &link, &found);
    assert_eq!(plan, LinkPlan::Current(link.path.clone()));
    assert!(plan.describe(&link.path, false, true).contains("已指向"));
    assert_eq!(ensure_bin_link(&link, &link, &found), LinkAction::Keep);
    let y = located("/t/agora-next");
    assert!(matches!(
        inst.bin_link_plan(&link, &y, &found),
        LinkPlan::Repoint { .. }
    ));
    assert_eq!(ensure_bin_link(&link, &y, &found), LinkAction::Replace);
    let gone = Found::Link {
        target: y.path.clone(),
        resolved: Located {
            path: y.path.clone(),
            canonical: None,
        },
    };
    let nowhere = Located {
        path: link.path.clone(),
        canonical: None,
    };
    assert!(matches!(
        inst.bin_link_plan(&nowhere, &located(x), &gone),
        LinkPlan::Repoint { from: Some(_), .. }
    ));
}

#[test]
fn a_link_that_was_made_is_kept() {
    let inst = installer();
    let exe = located("/t/agora");
    let absent = Located {
        path: bin_path("/a"),
        canonical: None,
    };
    assert_eq!(
        ensure_bin_link(&absent, &exe, &Found::Nothing),
        LinkAction::Create
    );
    assert_eq!(
        ensure_bin_link(&absent, &exe, &Found::Other),
        LinkAction::Replace
    );
    let link = Located {
        path: bin_path("/a"),
        canonical: Some("/t/agora".into()),
    };
    let made = Found::Link {
        target: "/t/agora".into(),
        resolved: located(&resolve_link_target("/a", "/t/agora")),
    };
    for program in [&exe, &link] {
        assert_eq!(ensure_bin_link(&link, program, &made), LinkAction::Keep);
        assert_eq!(
            inst.bin_link_plan(&link, program, &made),
            LinkPlan::Current(bin_path("/a"))
        );
    }
    let doubled = Located {
        path: "/t//agora".into(),
        canonical: None,
    };
    assert_eq!(ensure_bin_link(&absent, &doubled, &made), LinkAction::Keep);
}

#[test]
fn dangling_bin_link_only_flags_a_link_whose_target_is_gone() {
    assert_eq!(dangling_bin_link("/a", None, false), None);
    assert_eq!(dangling_bin_link("/a", Some("/t/x"), true), None);
    assert_eq!(
        dangling_bin_link("/a", Some("/t/x"), false),
        Some(("/a/bin/agora".to_owned(), "/t/x".to_owned()))
    );
    assert_eq!(
        dangling_bin_link("/a", Some("real"), false),
        Some(("/a/bin/agora".to_owned(), "real".to_owned()))
    );
    assert_eq!(resolve_link_target("/a", "real"), "/a/bin/real");
}

#[test]
fn installing_twice_changes_nothing_and_uninstalling_takes_it_back() {
    let theirs = j(r#"{"model":"x","hooks":{"Stop":[{"hooks":[{"type":"command","command":"mine"}]}]}}"#);
    let spec = Host::Claude(ACME).install_spec();
    let once = add_ours(&theirs, &spec, "/a", "acme");
    assert_ne!(once, theirs);
    assert_eq!(add_ours(&once, &spec, "/a", "acme"), once);
    assert_eq!(remove_ours(&once, "/a"), theirs);
    assert_eq!(remove_ours(&theirs, "/a"), theirs);
}

#[test]
fn installing_twice_changes_nothing_whatever_numbers_stand_in_the_file() {
    let inst = installer();
    let odd = r#"{"x":1.5,"y":[1e300,{"z":-0.25}]}"#;
    let p = inst.plan_install(Host::Codex, Some(odd)).unwrap();
    assert!(!p.is_noop());
    let again = inst.plan_install(Host::Codex, Some(&p.contents())).unwrap();
    assert!(again.is_noop());
}

#[test]
fn plans_name_the_file_and_refuse_what_is_no_object() {
    let inst = installer();
    let p = inst.plan_install(Host::Claude(ACME), None).unwrap();
    assert_eq!(p.file, "/u/.acme/settings.json");
    assert!(!p.is_noop());
    assert!(p.diff().contains("+ "));
    let again = inst
        .plan_install(Host::Claude(ACME), Some(&p.contents()))
        .unwrap();
    assert!(again.is_noop());
    let back = inst
        .plan_uninstall(Host::Claude(ACME), Some(&p.contents()))
        .unwrap();
    assert_eq!(back.after, j(r#"{"hooks":{}}"#));
    assert!(matches!(
        inst.plan_install(Host::Codex, Some("[1]")),
        Err(InstallError::NotAnObject { .. })
    ));
    assert!(matches!(
        read_config("/f", Some("{")),
        Err(InstallError::NotAnObject { .. })
    ));
    let steps = run_with(true, true, Host::Codex, &p, false, "link");
    assert!(!steps.contains(&Step::WriteFile) && !steps.contains(&Step::EnsureLink));
    let steps = run_with(true, false, Host::Codex, &p, false, "link");
    assert!(steps.contains(&Step::WriteFile) && steps.contains(&Step::EnsureLink));
}

#[test]
fn install_arguments_are_read() {
    let args =
        |argv: &[&str]| agora::hook::install::parse_args(ACME, argv, "/home", Some("/me"));
    let a = args(&["install", "codex", "--dry-run"]).unwrap();
    assert!(a.dry_run);
    assert_eq!(
        (a.agora_home.as_str(), a.user_home.as_str()),
        ("/home", "/me")
    );
    assert!(matches!(args(&["install"]), Err(InstallError::Usage(_))));
    assert!(matches!(
        args(&["remove", "codex"]),
        Err(InstallError::Usage(_))
    ));
    assert!(matches!(
        args(&["install", "codex", "--x"]),
        Err(InstallError::Usage(_))
    ));
    assert!(agora::hook::install::host_for(ACME, "codex").is_ok());
    assert!(agora::hook::install::host_for(ACME, "shell").is_err());
}

#[test]
fn lines_are_relative_to_the_header_and_replayable() {
    let host = for_host(ACME, hosts(ACME)[0]).unwrap();
    let sid = "11111111-2222-4333-8444-555555555555";
    let first = j(&format!(
        r#"{{"hook_event_name":"SessionStart","session_id":"{sid}","cwd":"/Users/x/y","source":"startup"}}"#
    ));
    let second = j(&format!(
        r#"{{"hook_event_name":"PermissionRequest","session_id":"{sid}","tool_name":"Bash","tool_input":{{"command":"rm -rf /"}}}}"#
    ));
    let header = header_line(host, 1_000_000, "0.1.0", "now");
    assert!(header.starts_with("# recorded host="), "{header}");
    assert!(header.contains("t0=1000000"), "{header}");
    let t0 = read_t0(&header).unwrap();
    assert_eq!(t0, 1_000_000);
    let text = format!(
        "{}{}",
        record_line(host, &first, t0, 1_000_000),
        record_line(host, &second, t0, 1_003_500)
    );
    let a = record_json(host, &first, t0, 1_000_000);
    let b = record_json(host, &second, t0, 1_003_500);
    assert_eq!(a.get("at").unwrap(), &j("0"));
    assert_eq!(b.get("at").unwrap(), &j("3"));
    assert_eq!(a.get("hold").unwrap(), &j("false"));
    assert_eq!(
        b.get("hold").unwrap(),
        &Json::Bool(host.hold_key(&second).is_some())
    );
    let id = |v: &Json| {
        v.get("payload")
            .unwrap()
            .get_str("session_id")
            .unwrap()
            .to_owned()
    };
    assert_eq!(id(&a), id(&b));
    assert_ne!(id(&a), sid);
    assert!(!text.contains("rm -rf"));
    assert!(!text.contains("/Users/x"));
    let all = format!("{header}{text}");
    let lines: Vec<(usize, Result<Line, String>)> = lines_to_play(&all)
        .into_iter()
        .map(|(n, raw)| {
            let v = j(&raw);
            let read = Line {
                payload: v.get("payload").map(agora::json::copy),
                respond: None,
                at: v.get("at").map(|t| compact(t).parse().unwrap()),
                hold: v.get("hold").map(|h| h == &Json::Bool(true)),
                expect: None,
            };
            (n, Ok(read))
        })
        .collect();
    assert_eq!(lines.iter().map(|l| l.0).collect::<Vec<_>>(), vec![2, 3]);
    let outcomes = [outcome(Status::Idle), outcome(Status::Waiting)];
    assert_eq!(replay(host, &lines, &outcomes).unwrap().len(), 2);
}

fn line(payload: &str, expect: Option<Expect>) -> Line {
    Line {
        payload: Some(j(payload)),
        respond: None,
        at: None,
        hold: None,
        expect,
    }
}

fn outcome(status: Status) -> Outcome {
    Outcome {
        current: Assessment {
            status,
            source: Source::Hook,
            confidence: 100,
            reason: None,
        },
        detail: None,
        prompt: None,
    }
}

#[test]
fn a_recording_is_held_to_what_it_expects() {
    let stop = r#"{"hook_event_name":"Stop"}"#;
    let want = |status| {
        Some(Expect {
            status,
            source: None,
            min_confidence: None,
            detail: None,
            prompt: None,
        })
    };
    let lines = [(1, Ok(line(stop, want(Status::TurnDone))))];
    assert_eq!(
        replay(Host::Codex, &lines, &[outcome(Status::TurnDone)])
            .unwrap()
            .len(),
        1
    );
    assert!(matches!(
        replay(Host::Codex, &lines, &[outcome(Status::Running)]),
        Err(ReplayError::Mismatch {
            line: 1,
            what: "status",
            ..
        })
    ));
    let mut held = line(stop, None);
    held.hold = Some(true);
    assert!(matches!(
        replay(Host::Codex, &[(2, Ok(held))], &[outcome(Status::TurnDone)]),
        Err(ReplayError::Hold {
            line: 2,
            expected: true,
            actual: false
        })
    ));
    let mut empty = line(stop, None);
    empty.payload = None;
    assert!(matches!(
        replay(Host::Codex, &[(3, Ok(empty))], &[outcome(Status::TurnDone)]),
        Err(ReplayError::Empty { line: 3 })
    ));
    assert_eq!(
        replay(
            Host::Codex,
            &[(4, Err("not json".into()))],
            &[outcome(Status::TurnDone)]
        ),
        Err(ReplayError::Parse {
            line: 4,
            source: "not json".into()
        })
    );
    for (min, text) in [(80, "≥ 0.8"), (75, "≥ 0.75"), (7, "≥ 0.07"), (100, "≥ 1")] {
        let mut sure = line(stop, want(Status::TurnDone));
        sure.expect.as_mut().unwrap().min_confidence = Some(min);
        let mut came = outcome(Status::TurnDone);
        came.current.confidence = min - 1;
        match replay(Host::Codex, &[(5, Ok(sure))], &[came]) {
            Err(ReplayError::Mismatch { what, expected, .. }) => {
                assert_eq!((what, expected.as_str()), ("confidence", text));
            }
            other => panic!("{other:?}"),
        }
    }
}

#[test]
fn deliveries_are_opened_or_refused() {
    let d = delivery("codex", 1, "c1", r#"{"hook_event_name":"Interrupt"}"#);
    match open_delivery(ACME, "/p", true, &d, None).unwrap() {
        Opened::Apply { host, events } => {
            assert_eq!(host, Host::Codex);
            assert_eq!(events, vec![AgoraEvent::TurnFailed("interrupt".into())]);
        }
        other => panic!("{other:?}"),
    }
    assert!(matches!(
        open_delivery(ACME, "/p", false, &d, None),
        Err(HookError::Outside(_))
    ));
    let d = delivery("nope", 1, "c1", "{}");
    assert!(open_delivery(ACME, "/p", true, &d, None).is_err());
    let mut d = delivery("codex", 1, "c1", "{}");
    d.envelope.agora_session_id = Some("s".into());
    d.envelope.agora_epoch = Some(1);
    assert_eq!(
        open_delivery(ACME, "/p", true, &d, Some(2)).unwrap(),
        Opened::Stale
    );
}

#[test]
fn sessions_of_others_are_found_or_registered() {
    let d = delivery("codex", 5_000, "c1", r#"{"cwd":"/w"}"#);
    let started = [AgoraEvent::SessionStarted];
    assert_eq!(
        locate_external(&d, &started, &Lookup::Found("s9".into())),
        Locate::Use("s9".into())
    );
    assert_eq!(
        locate_external(&d, &started, &Lookup::Absent),
        Locate::Register
    );
    assert_eq!(
        locate_external(&d, &started, &Lookup::Failed),
        Locate::Skip
    );
    let e = external_session(Host::Codex, &d, None);
    assert_eq!(e.agent_session_id, "c1");
    assert_eq!(e.agent_type, "codex");
    assert_eq!(e.working_directory.as_deref(), Some("/w"));
    let t = target_of(&d, Some("s9".into()));
    assert_eq!(t.id.as_deref(), Some("s9"));
    let a = application_of(
        &started,
        Some(Row {
            epoch: 4,
            has_runtime: true,
        }),
        4,
        false,
    );
    assert_eq!(a.epoch, 4);
    assert!(!a.delete);
    assert!(!ends_on_identity_handoff(&started));
    assert_eq!(after_apply("/p", &Applied::Done), Ok(true));
    assert!(after_apply("/p", &Applied::Failed("x".into())).is_err());
}

#[test]
fn an_archive_is_replayed_once_for_a_session() {
    let mut memo = Vec::new();
    let d = delivery("codex", 1, "c1", r#"{"hook_event_name":"Interrupt"}"#);
    let row = ArchiveRow {
        id: "s".into(),
        epoch: 1,
        origin: Origin::External,
        has_runtime: false,
        has_checkpoint: true,
        legacy: true,
    };
    let first = archive_step(ACME, &mut memo, &d, Some(&row));
    assert!(first.forget && first.apply.is_some());
    let second = archive_step(ACME, &mut memo, &d, Some(&row));
    assert!(!second.forget && second.apply.is_some());
    let other = ArchiveRow {
        id: "other".into(),
        origin: row.origin,
        has_runtime: row.has_runtime,
        epoch: row.epoch,
        has_checkpoint: true,
        legacy: false,
    };
    assert!(archive_step(ACME, &mut memo, &d, Some(&other)).apply.is_none());
    let applied = ArchiveRow {
        id: row.id.clone(),
        origin: row.origin,
        has_runtime: row.has_runtime,
        epoch: row.epoch,
        has_checkpoint: true,
        legacy: false,
    };
    assert!(archive_step(ACME, &mut memo, &d, Some(&applied)).apply.is_some());
    let none = archive_step(ACME, &mut memo, &d, None);
    assert!(!none.forget && none.apply.is_none());
}

#[test]
fn holds_are_answered_replaced_and_let_go() {
    let mut r = Receiver::new();
    assert_eq!(r.hold("s", "t", "r1", 1, 0, 1000), Some(None));
    assert_eq!(
        r.hold("s", "t", "r2", 1, 0, 1000),
        Some(Some("r1".to_owned()))
    );
    assert_eq!(r.pending("s"), vec!["t"]);
    assert_eq!(r.hold_count(), 1);
    assert_eq!(r.resolve_request("s", "t", Some("r1")), None);
    assert_eq!(
        r.resolve_request("s", "t", Some("r2")),
        Some("r2".to_owned())
    );
    let mut i = 0;
    while i < MAX_HOLDS_PER_SESSION {
        assert!(r
            .hold("s", &format!("t{i}"), &format!("q{i}"), 1, 0, 10)
            .is_some());
        i += 1;
    }
    assert_eq!(r.hold("s", "more", "q", 1, 0, 10), None);
    assert_eq!(r.sweep_expired(10).len(), MAX_HOLDS_PER_SESSION);
    r.hold("s", "t", "r3", 1, 0, 100_000);
    let facts = [SessionFacts {
        session: "s".into(),
        epoch: 1,
        keys: vec!["t".into()],
    }];
    assert!(r.sweep_abandoned(50_000, &facts).is_empty());
    let facts = [SessionFacts {
        session: "s".into(),
        epoch: 1,
        keys: vec![],
    }];
    assert_eq!(r.sweep_abandoned(50_000, &facts).len(), 1);
    r.hold("s", "t", "r4", 1, 0, 1000);
    let freed = r.release("s", &Release::ToolUse(vec!["t".into()]));
    assert_eq!(freed.len(), 1);
    r.hold("s", "t", "r5", 1, 0, 1000);
    assert_eq!(r.release("s", &Release::Session).len(), 1);
    assert!(r.release("s", &Release::Nothing).is_empty());
    assert!(matches!(
        r.respond("s", None, None, 1, 0, &[]),
        Err(RespondError::NoPendingDecision { .. })
    ));
    assert_eq!(wake_decision(Waited::TimedOut), Decision::Unanswered);
    assert_eq!(
        wake_decision(Waited::Answered(Decision::Allow)),
        Decision::Allow
    );
}

#[test]
fn the_receiver_keeps_a_book_and_sweeps_in_time() {
    let mut r = Receiver::new();
    let d = delivery("codex", 1, "c1", r#"{"hook_event_name":"Stop"}"#);
    r.hold("key", "t", "r1", 1, 0, 1000);
    assert_eq!(r.settle(Host::Codex, &d, "key").len(), 1);
    assert!(r.received().is_empty());
    let got = r.enter(&d, "key");
    assert_eq!(got.event.as_deref(), Some("Stop"));
    assert_eq!(r.received().len(), 1);
    assert_eq!(r.received_for("key").len(), 1);
    assert!(r.maybe_prune_done(0));
    assert!(!r.maybe_prune_done(1));
    assert!(r.note_bad("/x"));
    assert!(!r.note_bad("/x"));
    r.forget_bad(&[]);
    assert!(r.note_bad("/x"));
    assert!(r.note_permissions(false));
    assert!(!r.note_permissions(false));
    assert!(!r.note_permissions(true));
    assert!(r.note_permissions(false));
    let held = delivery(
        "codex",
        1,
        "c1",
        r#"{"hook_event_name":"PermissionRequest","tool_name":"Bash"}"#,
    );
    let got = r.enter(&held, "key");
    let w = r.wake_request(ACME, &got).unwrap();
    assert_eq!(w.tool_use_id, "Bash");
    assert_eq!(w.timeout, Host::Codex.hold_timeout() * 1000);
}

fn way(n: &Nature, replies: &[Reply]) -> Phase {
    let mut p = begin(n);
    for r in replies {
        p = advance(n, p, *r);
    }
    p
}

#[test]
fn a_report_of_a_stranger_registers_a_session() {
    let d = delivery(
        "codex",
        1,
        "c1",
        r#"{"hook_event_name":"SessionStart","session_id":"c1"}"#,
    );
    let n = nature_of(ACME, &d);
    assert!(!n.named && n.known_host && n.known_conversation && !n.only_ends);
    let row = Row {
        epoch: 3,
        has_runtime: false,
    };
    let mut replies = vec![Reply::Found(Some(false)), Reply::Registered(true)];
    if n.has_pid {
        replies.push(Reply::Noted);
        replies.push(Reply::Superseded);
    }
    assert_eq!(way(&n, &replies), Phase::LookingUp);
    replies.push(Reply::Row(Some(row)));
    assert_eq!(
        way(&n, &replies),
        Phase::Applying {
            epoch: 3,
            bare: true
        }
    );
    replies.extend([Reply::Applied, Reply::Released, Reply::Moved(true)]);
    assert_eq!(way(&n, &replies), Phase::Ended(End::Taken));
}

#[test]
fn a_report_that_could_not_be_applied_stays() {
    let mut d = delivery("codex", 1, "c1", r#"{"hook_event_name":"Stop"}"#);
    d.envelope.agora_session_id = Some("s".into());
    d.envelope.agora_epoch = Some(2);
    let n = nature_of(ACME, &d);
    assert_eq!(begin(&n), Phase::Comparing { epoch: 2 });
    assert_eq!(
        way(&n, &[Reply::Epoch(Some(3))]),
        Phase::Consuming { taken: false }
    );
    assert_eq!(
        way(&n, &[Reply::Epoch(Some(2)), Reply::Failed]),
        Phase::Ended(End::NotApplied)
    );
    assert_eq!(
        way(
            &n,
            &[Reply::Epoch(None), Reply::Already, Reply::Moved(true)]
        ),
        Phase::Ended(End::Dropped)
    );
    assert_eq!(
        way(
            &n,
            &[
                Reply::Epoch(None),
                Reply::NoSession,
                Reply::Released,
                Reply::Moved(false)
            ]
        ),
        Phase::Ended(End::NotMoved)
    );
    let d = delivery("nope", 1, "c1", "{}");
    assert_eq!(begin(&nature_of(ACME, &d)), Phase::Ended(End::UnknownHost));
}

#[test]
fn a_session_that_only_changed_its_name_is_deleted() {
    let d = delivery(
        "acme",
        1,
        "c1",
        r#"{"hook_event_name":"SessionEnd","reason":"clear"}"#,
    );
    let n = nature_of(ACME, &d);
    assert!(n.only_ends && n.hands_off && !n.has_pid);
    assert_eq!(way(&n, &[Reply::Found(Some(false))]), Phase::Releasing);
    let row = |has_runtime| {
        Reply::Row(Some(Row {
            epoch: 1,
            has_runtime,
        }))
    };
    let found = Reply::Found(Some(true));
    assert_eq!(
        way(&n, &[found, row(true)]),
        Phase::Applying {
            epoch: 1,
            bare: false
        }
    );
    assert_eq!(
        way(&n, &[found, row(false), Reply::Seen(true)]),
        Phase::Applying {
            epoch: 1,
            bare: true
        }
    );
    assert_eq!(
        way(&n, &[found, row(false), Reply::Seen(false)]),
        Phase::Deleting { epoch: 1 }
    );
    assert_eq!(
        way(
            &n,
            &[
                found,
                row(false),
                Reply::Seen(false),
                Reply::Deleted(true),
                Reply::Moved(true)
            ]
        ),
        Phase::Ended(End::Dropped)
    );
}

#[test]
fn the_receiver_is_set_up_by_what_is_configured() {
    let mut r = Receiver::new()
        .with_hold_timeout(5_000)
        .with_pruning(100, 10)
        .with_prune_interval(20)
        .with_pending_sweep_age(7);
    assert_eq!(r.done_retention(), 100);
    assert!(r.maybe_prune_done(0));
    assert!(!r.maybe_prune_done(19));
    assert!(r.maybe_prune_done(20));
    assert!(!r.is_due(100, Some(99), "x"));
    assert!(r.is_due(100, Some(93), "x"));
    r.hold("b", "t", "r1", 1, 0, 10);
    r.hold("a", "t", "r2", 1, 0, 10);
    r.hold("a", "u", "r3", 1, 0, 10);
    assert_eq!(r.sessions_held(), vec!["a", "b"]);
}

#[test]
fn lines_of_a_recording_have_their_times() {
    let mut l = line("{}", None);
    assert_eq!(time_of(&l, 5), 5);
    l.at = Some(9);
    assert_eq!(time_of(&l, 5), 9);
}
