//! What is asked for on the command line, and how the daemon begins and is replaced.

use agora::api::version::api_version;
use agora::auth::peer_token::PeerToken;
use agora::cli::peer::{self, issued_hint, opens_database, revoked_hint, table_lines, Outcome, PeerCommand};
use agora::cli::tls::{self, exit_code, fingerprint, mode_of, rotate_key, Certificate, Mode, TlsCommand};
use agora::cli::upgrade::{
    advance, exit_code_of, health_ok, health_request, is_active, launchd_program_path, launchd_target,
    parse_args, pid_in, read_answer, report, same_binary_path, service_manager_program,
    staged_path, systemd_exec_start_path, unit_serves, End, Phase, PidFile, Probe, Progress, Refused, Report,
    RestartOutcome, Situation, Step, UpgradeError,
};
use agora::config::TlsSection;
use agora::fake_agent::{
    file_lines, instruction, instructions, read_reply, script, Instruction, Script,
};
use agora::local::{
    begin_home, bind, ensure_home, is_heard, resolve_home, BindStep, HomeError, HomeFacts,
    HomeStep, SocketCleanup, SocketError,
};
use agora::startup::{self, bind_failure_text, device_lines, runtime_is_known, Came, Command};

#[test]
fn probe_reports_this_binarys_schema_and_api_version() {
    let p = Probe::current(7);
    assert_eq!(p.schema_version, 7);
    assert_eq!(p.api_version, api_version().to_text());
}

#[test]
fn args_need_from_and_accept_no_restart() {
    assert!(matches!(parse_args(&[]), Err(UpgradeError::Usage(_))));
    assert!(matches!(
        parse_args(&["--bogus"]),
        Err(UpgradeError::Usage(_))
    ));
    let o = parse_args(&["--from", "/x/agora"]).unwrap();
    assert_eq!(o.from, "/x/agora");
    assert!(o.restart);
    let o = parse_args(&["--no-restart", "--from", "/x/agora"]).unwrap();
    assert!(!o.restart);
}

#[test]
fn refusals_exit_2_and_failures_exit_1() {
    assert_eq!(UpgradeError::Usage(String::new()).exit_code(), 2);
    assert_eq!(
        UpgradeError::SchemaTooOld {
            found: 5,
            supported: 1
        }
        .exit_code(),
        2
    );
    assert_eq!(
        UpgradeError::ProbeFailed {
            path: String::new(),
            reason: String::new()
        }
        .exit_code(),
        1
    );
}

#[test]
fn the_probe_hook_picks_the_injected_binary_and_treats_empty_as_unset() {
    assert_eq!(service_manager_program(None, "systemctl"), "systemctl");
    assert_eq!(service_manager_program(Some(""), "launchctl"), "launchctl");
    assert_eq!(
        service_manager_program(Some("/tmp/probes/systemctl"), "systemctl"),
        "/tmp/probes/systemctl"
    );
}

#[test]
fn systemd_unit_is_matched_by_exec_start_path_not_just_active() {
    let shown = "ExecStart={ path=/home/u/.agora/bin/agora ; argv[]=/home/u/.agora/bin/agora serve ; ignore_errors=no ; start_time=[n/a] ; stop_time=[n/a] ; pid=0 ; code=(null) ; status=0/0 }\n";
    let program = systemd_exec_start_path(shown).unwrap();
    assert_eq!(program, "/home/u/.agora/bin/agora");
    assert!(same_binary_path(
        &program,
        "/home/u/.agora/bin/agora",
        None,
        None
    ));
    assert!(!same_binary_path(
        &program,
        "/tmp/agora-test/up-7/bin/agora",
        None,
        None
    ));
    assert_eq!(systemd_exec_start_path("ExecStart=\n"), None);
    assert_eq!(systemd_exec_start_path("Environment=AGORA_HOME=/x\n"), None);
}

#[test]
fn launchd_program_line_is_parsed_from_print_output() {
    let printed = "gui/501/dev.agora.daemon = {\n\tactive count = 1\n\tpath = /Users/u/Library/LaunchAgents/dev.agora.daemon.plist\n\tstate = running\n\tprogram = /Users/u/.agora/bin/agora\n\targuments = {\n\t\t/Users/u/.agora/bin/agora\n\t\tserve\n\t}\n}\n";
    assert_eq!(
        launchd_program_path(printed).as_deref(),
        Some("/Users/u/.agora/bin/agora")
    );
    assert_eq!(
        launchd_program_path("gui/501/x = {\n\tstate = running\n}\n"),
        None
    );
    assert_eq!(launchd_target(501), "gui/501/dev.agora.daemon");
}

#[test]
fn same_binary_path_canonicalizes_parent_but_not_the_link_itself() {
    assert!(same_binary_path(
        "/alias/bin/agora",
        "/home/bin/agora",
        Some("/home/bin/agora"),
        Some("/home/bin/agora")
    ));
    assert!(!same_binary_path(
        "/other/bin/agora",
        "/home/bin/agora",
        Some("/other/bin/agora"),
        Some("/home/bin/agora")
    ));
    assert!(same_binary_path("/h//bin/agora", "/h/bin/./agora", None, None));
}

#[test]
fn staging_is_content_addressed_and_reused() {
    let a = staged_path("/h", b"#!/bin/sh\nexit 0\n");
    let sha = agora::auth::sha256_hex("#!/bin/sh\nexit 0\n");
    assert_eq!(a, format!("/h/versions/{}/agora", &sha[..12]));
    assert_eq!(staged_path("/h", b"#!/bin/sh\nexit 0\n"), a);
    assert_ne!(staged_path("/h", b"other"), a);
}

#[test]
fn pid_file_is_private_and_removed_only_by_its_owner() {
    let pf = PidFile::new("/h", 77);
    assert_eq!(pf.path(), "/h/agora.pid");
    assert_eq!(pid_in(&pf.text()), Some(77));
    assert!(!pf.is_own(Some("424242\n")));
    assert!(pf.is_own(Some(&pf.text())));
    assert!(!pf.is_own(None));
    assert_eq!(pid_in("x"), None);
}

#[test]
fn run_exit_codes() {
    assert_eq!(exit_code(tls::parse(&[]), true), 2);
    assert_eq!(exit_code(tls::parse(&["frobnicate"]), true), 2);
    assert_eq!(exit_code(tls::parse(&["fingerprint"]), true), 0);
    assert_eq!(exit_code(tls::parse(&["rotate-key"]), true), 0);
    assert_eq!(exit_code(TlsCommand::Fingerprint, false), 1);
    let mut bad = TlsSection::default();
    assert_eq!(mode_of(&bad), Some(Mode::SelfSigned));
    bad.mode = "self-ca".into();
    assert_eq!(mode_of(&bad), None);
    bad.mode = "external".into();
    assert_eq!(mode_of(&bad), Some(Mode::External));
    assert_eq!(fingerprint(Mode::SelfSigned), Certificate::LoadOrGenerate);
    assert_eq!(fingerprint(Mode::External), Certificate::Load);
    assert_eq!(rotate_key(Mode::SelfSigned), Certificate::Generate);
    assert_eq!(rotate_key(Mode::External), Certificate::Refuse);
}

#[test]
fn an_upgrade_goes_step_by_step() {
    let s = Situation {
        restart: true,
        launchd: false,
        old_pid: Some(9),
    };
    let mut p = Phase::Placing;
    for step in [
        Step::Placed { created: true },
        Step::Probed { schema: 3 },
        Step::Schema { found: 3 },
        Step::Linked,
        Step::Serves(false),
        Step::Alive(true),
        Step::Signalled,
        Step::Alive(false),
        Step::Spawned,
        Step::Health {
            pid: Some(10),
            ok: true,
        },
    ] {
        p = advance(&s, p, step, 0);
    }
    assert_eq!(
        p,
        Phase::Ended(End::Done {
            restart: RestartOutcome::Spawned { old_pid: 9 },
            pid: Some(10)
        })
    );
    let p = advance(
        &s,
        Phase::Consulting {
            created: true,
            schema: 2,
        },
        Step::Schema { found: 3 },
        0,
    );
    assert!(matches!(p, Phase::Discarding { .. }), "{p:?}");
}

#[test]
fn answers_over_http_are_read() {
    assert_eq!(
        read_answer("HTTP/1.1 200 OK\r\nA: b\r\n\r\n{}"),
        Some((200, "{}".to_owned()))
    );
    assert_eq!(read_answer("nonsense"), None);
    assert!(health_request("/api/health", "127.0.0.1:1").starts_with("GET /api/health HTTP/1.1\r\n"));
    assert!(!health_ok(500, "{}"));
    assert!(is_active(true, "active\n") && !is_active(false, "active\n"));
    assert!(!unit_serves(true, Some("/x"), false));
    let r = Report {
        probe: Probe::current(1),
        staged: "/s".into(),
        link: "/l".into(),
        previous: None,
        restart: RestartOutcome::Skipped,
        pid: None,
    };
    assert_eq!(report(&r), "(无链接) → /s，daemon pid 未重启");
}

#[test]
fn an_upgrade_says_what_it_has_done() {
    let placed = Progress::Placed {
        staged: "/h/versions/x/agora".into(),
        probe: Probe {
            schema_version: 3,
            api_version: "1.2".into(),
        },
    };
    assert_eq!(
        placed.message(),
        "新二进制就位：/h/versions/x/agora（schema 3，api 1.2）"
    );
    let linked = Progress::Linked {
        link: "/h/bin/agora".into(),
        previous: None,
        exe: "/x".into(),
    };
    assert_eq!(linked.message(), "/h/bin/agora: (无) → /x");
    let spawned = Progress::Spawned {
        old_pid: 7,
        link: "/l".into(),
        log: "/g".into(),
    };
    assert_eq!(
        spawned.message(),
        "已停掉 pid 7，以 /l serve 重新启动（日志 /g）"
    );
    assert_eq!(
        Progress::Ready { pid: 8 }.message(),
        "daemon 就绪：pid 8（/api/health 200）"
    );
    assert!(Progress::Skipped.message().contains("--no-restart"));
    assert!(Progress::NotRunning.message().contains("未在运行"));
    assert!(Progress::Systemd.message().starts_with("已 systemctl --user restart "));
    let launchd = Progress::Launchd {
        target: "gui/1/x".into(),
    };
    assert_eq!(launchd.message(), "已 launchctl kickstart -k gui/1/x");
}

#[test]
fn peers_are_managed_by_name() {
    assert_eq!(
        peer::parse(&["token", "create", "zuan", "--rotate"]),
        PeerCommand::Create {
            name: "zuan".into(),
            rotate: true
        }
    );
    assert_eq!(peer::parse(&["token", "list"]), PeerCommand::List);
    assert_eq!(
        peer::parse(&["token", "revoke", "zuan"]),
        PeerCommand::Revoke {
            name: "zuan".into()
        }
    );
    assert_eq!(peer::parse(&[]), PeerCommand::Usage);
    assert!(issued_hint("zuan", false).contains("zuan"));
    assert!(revoked_hint("zuan").contains("zuan"));
    let row = PeerToken {
        name: "zuan".into(),
        created_at: "2026-09-03T00:00:00Z".into(),
        last_used_at: None,
        revoked_at: None,
    };
    assert!(table_lines(&[row]).iter().any(|l| l.contains("zuan")));
}

#[test]
fn a_wrong_peer_command_opens_nothing_and_ends_with_two() {
    for args in [&["token", "create"][..], &[], &["x"], &["token", "list", "y"]] {
        let asked = peer::parse(args);
        assert_eq!(asked, PeerCommand::Usage);
        assert!(!opens_database(&asked));
        assert_eq!(peer::exit_code(&asked, Outcome::Done), 2);
    }
    let asked = peer::parse(&["token", "create", "zuan"]);
    assert!(opens_database(&asked));
    assert_eq!(peer::exit_code(&asked, Outcome::Done), 0);
    assert_eq!(peer::exit_code(&asked, Outcome::Failed), 1);
    assert_eq!(peer::exit_code(&asked, Outcome::HomeRefused), 2);
}

#[test]
fn scripts_of_the_stand_in_are_read() {
    assert_eq!(script(&[]), Script::Usage);
    assert_eq!(instruction("exit 3"), Instruction::Exit(3));
    assert_eq!(instruction("print hi"), Instruction::Print("hi".into()));
    assert_eq!(instruction("read"), Instruction::Read);
    assert!(matches!(instruction("dance"), Instruction::Unknown(_)));
    let lines = file_lines("# note\n\nread\n");
    assert!(instructions(&lines).contains(&Instruction::Read));
    let (_, end) = read_reply(Err("eof"));
    assert!(end.is_some());
}

#[test]
fn a_home_is_private() {
    assert_eq!(resolve_home(Some("/x"), Some("/u")), "/x");
    assert_eq!(resolve_home(None, Some("/u")), "/u/.agora");
    assert_eq!(begin_home("/h", 100, true), Ok(HomeStep::Inspect));
    assert_eq!(begin_home("/h", 100, false), Ok(HomeStep::Create));
    assert!(matches!(
        begin_home("/h", 3, true),
        Err(HomeError::PathTooLong { .. })
    ));
    let facts = |owner, mode| HomeFacts { owner, mode };
    assert_eq!(ensure_home("/h", facts(5, 0o40700), 5), Ok(()));
    assert!(matches!(
        ensure_home("/h", facts(6, 0o40700), 5),
        Err(HomeError::WrongOwner { .. })
    ));
    assert!(matches!(
        ensure_home("/h", facts(5, 0o40701), 5),
        Err(HomeError::TooOpen { .. })
    ));
}

#[test]
fn a_socket_is_taken_over_only_from_the_dead() {
    assert_eq!(bind("/s", false, false), Ok(BindStep::Bind));
    assert_eq!(bind("/s", true, false), Ok(BindStep::Replace));
    assert!(matches!(
        bind("/s", true, true),
        Err(SocketError::AlreadyRunning(_))
    ));
    let c = SocketCleanup { dev: 1, ino: 2 };
    assert!(c.remove(Some((1, 2))));
    assert!(!c.remove(Some((1, 3))));
    assert!(!c.remove(None));
    assert!(is_heard(5, 5) && !is_heard(6, 5));
}

#[test]
fn the_daemon_binds_before_it_touches_anything() {
    let mut p = startup::Phase::Home;
    let mut seen = vec![];
    while !matches!(p, startup::Phase::Serve | startup::Phase::Ended { .. }) {
        seen.push(p);
        p = startup::advance(p, true, Came::Done);
    }
    let at = |x| seen.iter().position(|p| *p == x).unwrap();
    assert!(at(startup::Phase::BindHttp) < at(startup::Phase::Open));
    assert!(matches!(
        startup::advance(startup::Phase::BindHttp, false, Came::Failed),
        startup::Phase::Ended { code } if code != 0
    ));
    assert_eq!(startup::command(&[]), Command::Serve);
    assert_eq!(startup::command(&["url"]), Command::Url);
    assert_eq!(startup::command(&["nonsense"]), Command::Usage);
    assert!(runtime_is_known("tmux") && !runtime_is_known("x"));
    assert!(bind_failure_text("/s", "127.0.0.1:1", true, "in use").contains("127.0.0.1:1"));
    assert!(!device_lines(&[]).iter().any(|l| l.contains("Z")));
}

#[test]
fn an_upgrade_that_did_not_end_well_says_so() {
    assert_eq!(
        exit_code_of(End::Done {
            restart: RestartOutcome::Skipped,
            pid: None
        }),
        0
    );
    assert_eq!(
        exit_code_of(End::Refused(Refused::SchemaTooOld {
            found: 2,
            supported: 1
        })),
        2
    );
    assert_eq!(exit_code_of(End::Stuck { pid: 1 }), 1);
    assert_eq!(exit_code_of(End::NoAnswer), 1);
}
