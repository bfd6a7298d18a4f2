//! `agora upgrade`: another program takes the place of this one, and the daemon is started anew.

use crate::api::version::{api_version, version_text, ApiVersion, API_MAJOR, API_MINOR};
use crate::codec;
use crate::digest;
use crate::json;
use crate::num;
use crate::paths::{is_same_path, join_path, joined_path, same_path};
use crate::text::{self, opt_text, strs};
use vstd::prelude::*;
use vstd::utf8::encode_utf8;

verus! {

/// The file with the process id of the daemon.
pub const PID_FILE: &'static str = "agora.pid";

/// The directory of the programs, each under the hash of what it holds.
pub const VERSIONS_DIR: &'static str = "versions";

/// The file that a daemon writes to that was started without a service manager.
pub const DAEMON_LOG: &'static str = "daemon.log";

pub const SYSTEMD_UNIT: &'static str = "agora.service";

pub const LAUNCHD_LABEL: &'static str = "dev.agora.daemon";

/// The variable that names another program in place of `systemctl`.
pub const SYSTEMCTL_ENV: &'static str = "AGORA_UPGRADE_SYSTEMCTL";

/// The variable that names another program in place of `launchctl`.
pub const LAUNCHCTL_ENV: &'static str = "AGORA_UPGRADE_LAUNCHCTL";

/// How many milliseconds the daemon gets to end.
pub const STOP_TIMEOUT: u64 = 10_000;

/// How many milliseconds the new daemon gets to answer.
pub const HEALTH_TIMEOUT: u64 = 15_000;

/// What a program says of itself: the version of the database that it knows, and of the interface that it
/// speaks.
#[derive(Debug, PartialEq, Eq)]
pub struct Probe {
    pub schema_version: i64,
    pub api_version: String,
}

impl Probe {
    /// What this program says of itself.
    pub fn current(schema_version: i64) -> (r: Probe)
        ensures
            r.schema_version == schema_version,
            r.api_version@ == version_text(ApiVersion { major: API_MAJOR, minor: API_MINOR }),
    {
        Probe { schema_version, api_version: api_version().to_text() }
    }
}

/// Why an upgrade does not come about.
#[derive(Debug, PartialEq, Eq)]
pub enum UpgradeError {
    Usage(String),
    Io { path: String, source: String },
    ProbeFailed { path: String, reason: String },
    ProbeUnreadable { path: String, reason: String },
    SchemaTooOld { found: i64, supported: i64 },
    Db(String),
    Link(String),
    Exec(String),
    Restart { what: String, status: String, stderr: String },
    /// The daemon did not end; the time is in seconds.
    DaemonStuck { pid: u32, waited: u64 },
    /// The new daemon did not answer; the time is in seconds.
    HealthTimeout { addr: String, waited: u64, log: String },
}

/// The model of an [`UpgradeError`].
pub enum Trouble {
    Usage(Seq<char>),
    Io { path: Seq<char>, source: Seq<char> },
    ProbeFailed { path: Seq<char>, reason: Seq<char> },
    ProbeUnreadable { path: Seq<char>, reason: Seq<char> },
    SchemaTooOld { found: int, supported: int },
    Db(Seq<char>),
    Link(Seq<char>),
    Exec(Seq<char>),
    Restart { what: Seq<char>, status: Seq<char>, stderr: Seq<char> },
    DaemonStuck { pid: nat, waited: nat },
    HealthTimeout { addr: Seq<char>, waited: nat, log: Seq<char> },
}

impl View for UpgradeError {
    type V = Trouble;

    open spec fn view(&self) -> Trouble {
        match self {
            UpgradeError::Usage(s) => Trouble::Usage(s@),
            UpgradeError::Io { path, source } => Trouble::Io { path: path@, source: source@ },
            UpgradeError::ProbeFailed { path, reason } => Trouble::ProbeFailed {
                path: path@,
                reason: reason@,
            },
            UpgradeError::ProbeUnreadable { path, reason } => Trouble::ProbeUnreadable {
                path: path@,
                reason: reason@,
            },
            UpgradeError::SchemaTooOld { found, supported } => Trouble::SchemaTooOld {
                found: *found as int,
                supported: *supported as int,
            },
            UpgradeError::Db(s) => Trouble::Db(s@),
            UpgradeError::Link(s) => Trouble::Link(s@),
            UpgradeError::Exec(s) => Trouble::Exec(s@),
            UpgradeError::Restart { what, status, stderr } => Trouble::Restart {
                what: what@,
                status: status@,
                stderr: stderr@,
            },
            UpgradeError::DaemonStuck { pid, waited } => Trouble::DaemonStuck {
                pid: *pid as nat,
                waited: *waited as nat,
            },
            UpgradeError::HealthTimeout { addr, waited, log } => Trouble::HealthTimeout {
                addr: addr@,
                waited: *waited as nat,
                log: log@,
            },
        }
    }
}

/// The text of a trouble.
pub open spec fn trouble_text(t: Trouble) -> Seq<char> {
    match t {
        Trouble::Usage(s) => s,
        Trouble::Io { path, source } => path + ": "@ + source,
        Trouble::ProbeFailed { path, reason } => "新二进制 "@ + path + " 跑不起 `upgrade --probe`: "@ + reason,
        Trouble::ProbeUnreadable { path, reason } => "新二进制 "@ + path
            + " 的 probe 输出不是能读的 JSON: "@ + reason,
        Trouble::SchemaTooOld { found, supported } => "新版本不认识这个库：库的 user_version 是 "@
            + num::decimal_int(found) + "，新二进制只认识到 "@ + num::decimal_int(supported) + "；链接未动"@,
        Trouble::Db(s) => "读库版本失败: "@ + s,
        Trouble::Link(s) => s,
        Trouble::Exec(s) => s,
        Trouble::Restart { what, status, stderr } => what + " 失败（"@ + status + "）: "@ + stderr
            + "；链接已重指，daemon 仍是旧版本"@,
        Trouble::DaemonStuck { pid, waited } => "daemon（pid "@ + num::decimal(pid) + "）在 "@
            + num::decimal(waited)
            + "s 内没有退出；链接已重指，daemon 仍是旧版本，手动停掉它再起 `agora serve`"@,
        Trouble::HealthTimeout { addr, waited, log } => "重启后 daemon 在 "@ + num::decimal(waited)
            + "s 内没有在 "@ + addr + " 上以新 pid 答 /api/health；链接已重指，看 "@ + log,
    }
}

/// The exit code for a trouble: 2 where nothing was touched, otherwise 1.
pub open spec fn trouble_code(t: Trouble) -> int {
    match t {
        Trouble::Usage(_) => 2,
        Trouble::SchemaTooOld { .. } => 2,
        _ => 1,
    }
}

impl UpgradeError {
    /// The exit code: 2 where nothing was touched, otherwise 1.
    pub fn exit_code(&self) -> (r: i32)
        ensures
            r == trouble_code(self@),
    {
        match self {
            UpgradeError::Usage(_) => 2,
            UpgradeError::SchemaTooOld { .. } => 2,
            _ => 1,
        }
    }

    /// The text of a trouble.
    pub fn message(&self) -> (out: String)
        ensures
            out@ == trouble_text(self@),
    {
        match self {
            UpgradeError::Usage(s) => s.clone(),
            UpgradeError::Io { path, source } => text::cat3(path.as_str(), ": ", source.as_str()),
            UpgradeError::ProbeFailed { path, reason } => {
                let mut out = text::cat3("新二进制 ", path.as_str(), " 跑不起 `upgrade --probe`: ");
                text::push_str(&mut out, reason.as_str());
                out
            },
            UpgradeError::ProbeUnreadable { path, reason } => {
                let mut out = text::cat3(
                    "新二进制 ",
                    path.as_str(),
                    " 的 probe 输出不是能读的 JSON: ",
                );
                text::push_str(&mut out, reason.as_str());
                out
            },
            UpgradeError::SchemaTooOld { found, supported } => {
                let mut out = text::cat3(
                    "新版本不认识这个库：库的 user_version 是 ",
                    num::to_decimal_int(*found).as_str(),
                    "，新二进制只认识到 ",
                );
                text::push_str(&mut out, num::to_decimal_int(*supported).as_str());
                text::push_str(&mut out, "；链接未动");
                out
            },
            UpgradeError::Db(s) => text::cat("读库版本失败: ", s.as_str()),
            UpgradeError::Link(s) => s.clone(),
            UpgradeError::Exec(s) => s.clone(),
            UpgradeError::Restart { what, status, stderr } => {
                let mut out = text::cat3(what.as_str(), " 失败（", status.as_str());
                text::push_str(&mut out, "）: ");
                text::push_str(&mut out, stderr.as_str());
                text::push_str(&mut out, "；链接已重指，daemon 仍是旧版本");
                out
            },
            UpgradeError::DaemonStuck { pid, waited } => {
                let mut out = text::cat3(
                    "daemon（pid ",
                    num::to_decimal(*pid as u64).as_str(),
                    "）在 ",
                );
                text::push_str(&mut out, num::to_decimal(*waited).as_str());
                text::push_str(
                    &mut out,
                    "s 内没有退出；链接已重指，daemon 仍是旧版本，手动停掉它再起 `agora serve`",
                );
                out
            },
            UpgradeError::HealthTimeout { addr, waited, log } => {
                let mut out = text::cat3(
                    "重启后 daemon 在 ",
                    num::to_decimal(*waited).as_str(),
                    "s 内没有在 ",
                );
                text::push_str(&mut out, addr.as_str());
                text::push_str(&mut out, " 上以新 pid 答 /api/health；链接已重指，看 ");
                text::push_str(&mut out, log.as_str());
                out
            },
        }
    }
}

pub const USAGE: &'static str =
    "用法: agora upgrade --from <新二进制路径> [--no-restart] | agora upgrade --probe";

/// What a command line asks for.
#[derive(Debug, PartialEq, Eq)]
pub struct Options {
    pub from: String,
    pub restart: bool,
}

/// What the words from `i` on ask for, after the ones before have.
pub open spec fn options_from(
    argv: Seq<Seq<char>>,
    i: int,
    from: Option<Seq<char>>,
    restart: bool,
) -> Result<(Seq<char>, bool), Seq<char>>
    decreases argv.len() + 1 - i,
{
    if i < 0 || i >= argv.len() {
        match from {
            Some(f) => Ok((f, restart)),
            None => Err("缺 --from\n"@ + USAGE@),
        }
    } else if argv[i] == "--from"@ {
        options_from(
            argv,
            i + 2,
            if i + 1 < argv.len() {
                Some(argv[i + 1])
            } else {
                None
            },
            restart,
        )
    } else if argv[i] == "--no-restart"@ {
        options_from(argv, i + 1, from, false)
    } else {
        Err("未知参数 "@ + argv[i] + "\n"@ + USAGE@)
    }
}

/// What a command line asks for.
pub fn parse_args(argv: &[&str]) -> (r: Result<Options, UpgradeError>)
    ensures
        match r {
            Ok(o) => options_from(strs(argv@), 0, None, true) == Ok::<(Seq<char>, bool), Seq<char>>(
                (o.from@, o.restart),
            ),
            Err(e) => e@ is Usage && options_from(strs(argv@), 0, None, true) == Err::<
                (Seq<char>, bool),
                Seq<char>,
            >(e@->Usage_0),
        },
{
    let mut from: Option<String> = None;
    let mut restart = true;
    let mut i: usize = 0;
    let ghost all = strs(argv@);
    while i < argv.len()
        invariant
            all == strs(argv@),
            options_from(all, 0, None, true) == options_from(all, i as int, opt_text(from), restart),
        decreases argv@.len() - i,
    {
        proof {
            assert(all[i as int] == argv@[i as int]@);
        }
        if text::same(argv[i], "--from") {
            if i + 1 < argv.len() {
                proof {
                    assert(all[i + 1] == argv@[i + 1]@);
                }
                from = Some(argv[i + 1].to_owned());
                i += 2;
            } else {
                from = None;
                proof {
                    assert(options_from(all, i + 2, None, restart) == options_from(
                        all,
                        i + 1,
                        None,
                        restart,
                    ));
                }
                i += 1;
            }
        } else if text::same(argv[i], "--no-restart") {
            restart = false;
            i += 1;
        } else {
            let mut s = text::cat3("未知参数 ", argv[i], "\n");
            text::push_str(&mut s, USAGE);
            return Err(UpgradeError::Usage(s));
        }
    }
    match from {
        Some(f) => Ok(Options { from: f, restart }),
        None => Err(UpgradeError::Usage(text::cat("缺 --from\n", USAGE))),
    }
}

/// How the daemon was started anew, or why not.
#[derive(Clone, Copy, Debug, PartialEq, Eq, Structural)]
pub enum RestartOutcome {
    /// It was not asked for.
    Skipped,
    /// There was none.
    NotRunning,
    Systemd,
    Launchd,
    /// The one that ran was ended, and another one started.
    Spawned { old_pid: u32 },
}

/// What an upgrade did.
#[derive(Debug, PartialEq, Eq)]
pub struct Report {
    /// What the program said of itself.
    pub probe: Probe,
    /// Where the program was put.
    pub staged: String,
    pub link: String,
    /// Where the link led before.
    pub previous: Option<String>,
    pub restart: RestartOutcome,
    /// The process id of the new daemon, if one was started.
    pub pid: Option<u32>,
}

/// What was found out before an upgrade.
#[derive(Clone, Copy, Debug, PartialEq, Eq, Structural)]
pub struct Situation {
    /// Whether the daemon is to be started anew.
    pub restart: bool,
    /// Whether there is launchd here.
    pub launchd: bool,
    /// The process id in the file of the daemon.
    pub old_pid: Option<u32>,
}

/// Why the new program is not used.
#[derive(Clone, Copy, Debug, PartialEq, Eq, Structural)]
pub enum Refused {
    ProbeFailed,
    ProbeUnreadable,
    SchemaTooOld { found: i64, supported: i64 },
}

/// How an upgrade ends.
#[allow(inconsistent_fields)]
#[derive(Clone, Copy, Debug, PartialEq, Eq, Structural)]
pub enum End {
    Done { restart: RestartOutcome, pid: Option<u32> },
    Refused(Refused),
    /// A step failed before the link was touched.
    FailedBefore,
    /// A step failed after it.
    FailedAfter,
    /// The daemon did not end.
    Stuck { pid: u32 },
    /// The new daemon did not answer.
    NoAnswer,
}

/// Where an upgrade stands: each phase is named by what is being done.
#[derive(Clone, Copy, Debug, PartialEq, Eq, Structural)]
pub enum Phase {
    /// The new program is read and put under its hash.
    Placing,
    /// It is asked what it knows. `created` says whether it was not there before.
    Probing { created: bool },
    /// The version of the database is read.
    Consulting { created: bool, schema: i64 },
    /// What was put there is taken away again.
    Discarding { why: Refused },
    /// The link is led to it.
    Linking,
    /// systemd is asked whether it runs the daemon of this home.
    AskingSystemd,
    RestartingSystemd,
    /// launchd is asked the same.
    AskingLaunchd,
    RestartingLaunchd,
    /// Whether the daemon runs is looked up.
    Looking { pid: u32 },
    /// It is told to end.
    Stopping { pid: u32 },
    /// It is waited for its end, since a time in milliseconds.
    Waiting { pid: u32, since: u64 },
    /// Another one is started.
    Spawning { pid: u32 },
    /// It is waited for an answer of the new one, since a time in milliseconds.
    Greeting { how: RestartOutcome, since: u64 },
    Ended(End),
}

/// What came of what was being done.
#[derive(Clone, Copy, Debug, PartialEq, Eq, Structural)]
pub enum Step {
    Placed { created: bool },
    ProbeFailed,
    ProbeUnreadable,
    Probed { schema: i64 },
    Schema { found: i64 },
    Discarded,
    Linked,
    Serves(bool),
    Restarted,
    Alive(bool),
    Signalled,
    Spawned,
    /// The process id in the file, and whether the daemon answers.
    Health { pid: Option<u32>, ok: bool },
    Failed,
}

/// Whether the link may have been touched.
pub open spec fn touched(phase: Phase) -> bool {
    match phase {
        Phase::Placing => false,
        Phase::Probing { .. } => false,
        Phase::Consulting { .. } => false,
        Phase::Discarding { .. } => false,
        Phase::Ended(e) => !(e is Refused) && e != End::FailedBefore,
        _ => true,
    }
}

/// How long it has been since a time.
pub open spec fn elapsed(since: u64, now: u64) -> int {
    if now >= since {
        now - since
    } else {
        0
    }
}

/// Where a program that is refused leads to: it is taken away again unless it was there before.
pub open spec fn refuse(created: bool, why: Refused) -> Phase {
    if created {
        Phase::Discarding { why }
    } else {
        Phase::Ended(End::Refused(why))
    }
}

/// What follows once no service manager runs the daemon: the one in the file is ended, if it runs.
pub open spec fn by_hand(s: Situation) -> Phase {
    match s.old_pid {
        Some(pid) => Phase::Looking { pid },
        None => Phase::Ended(End::Done { restart: RestartOutcome::NotRunning, pid: None }),
    }
}

/// Where an upgrade stands after a step. A step that answers something else changes nothing.
pub open spec fn after(s: Situation, phase: Phase, step: Step, now: u64) -> Phase {
    match (phase, step) {
        (Phase::Ended(_), _) => phase,
        (Phase::Placing, Step::Placed { created }) => Phase::Probing { created },
        (Phase::Probing { created }, Step::ProbeFailed) => refuse(created, Refused::ProbeFailed),
        (Phase::Probing { created }, Step::ProbeUnreadable) => refuse(
            created,
            Refused::ProbeUnreadable,
        ),
        (Phase::Probing { created }, Step::Probed { schema }) => Phase::Consulting {
            created,
            schema,
        },
        (Phase::Consulting { created, schema }, Step::Schema { found }) => if schema < found {
            refuse(created, Refused::SchemaTooOld { found, supported: schema })
        } else {
            Phase::Linking
        },
        (Phase::Discarding { why }, _) => Phase::Ended(End::Refused(why)),
        (Phase::Linking, Step::Linked) => if s.restart {
            Phase::AskingSystemd
        } else {
            Phase::Ended(End::Done { restart: RestartOutcome::Skipped, pid: None })
        },
        (Phase::AskingSystemd, Step::Serves(yes)) => if yes {
            Phase::RestartingSystemd
        } else if s.launchd {
            Phase::AskingLaunchd
        } else {
            by_hand(s)
        },
        (Phase::RestartingSystemd, Step::Restarted) => Phase::Greeting {
            how: RestartOutcome::Systemd,
            since: now,
        },
        (Phase::AskingLaunchd, Step::Serves(yes)) => if yes {
            Phase::RestartingLaunchd
        } else {
            by_hand(s)
        },
        (Phase::RestartingLaunchd, Step::Restarted) => Phase::Greeting {
            how: RestartOutcome::Launchd,
            since: now,
        },
        (Phase::Looking { pid }, Step::Alive(yes)) => if yes {
            Phase::Stopping { pid }
        } else {
            Phase::Ended(End::Done { restart: RestartOutcome::NotRunning, pid: None })
        },
        (Phase::Stopping { pid }, Step::Signalled) => Phase::Waiting { pid, since: now },
        (Phase::Waiting { pid, since }, Step::Alive(yes)) => if !yes {
            Phase::Spawning { pid }
        } else if elapsed(since, now) >= STOP_TIMEOUT {
            Phase::Ended(End::Stuck { pid })
        } else {
            phase
        },
        (Phase::Spawning { pid }, Step::Spawned) => Phase::Greeting {
            how: RestartOutcome::Spawned { old_pid: pid },
            since: now,
        },
        (Phase::Greeting { how, since }, Step::Health { pid, ok }) => if ok && pid is Some && pid
            != s.old_pid {
            Phase::Ended(End::Done { restart: how, pid })
        } else if elapsed(since, now) >= HEALTH_TIMEOUT {
            Phase::Ended(End::NoAnswer)
        } else {
            phase
        },
        (_, Step::Failed) => Phase::Ended(
            if touched(phase) {
                End::FailedAfter
            } else {
                End::FailedBefore
            },
        ),
        _ => phase,
    }
}

/// The exit code of an end: 0 where all was done, 2 where the new program does not know the database,
/// otherwise 1.
pub open spec fn end_code(e: End) -> int {
    match e {
        End::Done { .. } => 0,
        End::Refused(Refused::SchemaTooOld { .. }) => 2,
        _ => 1,
    }
}

fn refuse_as(created: bool, why: Refused) -> (r: Phase)
    ensures
        r == refuse(created, why),
{
    if created {
        Phase::Discarding { why }
    } else {
        Phase::Ended(End::Refused(why))
    }
}

fn go_by_hand(s: &Situation) -> (r: Phase)
    ensures
        r == by_hand(*s),
{
    match s.old_pid {
        Some(pid) => Phase::Looking { pid },
        None => Phase::Ended(End::Done { restart: RestartOutcome::NotRunning, pid: None }),
    }
}

fn elapsed_since(since: u64, now: u64) -> (r: u64)
    ensures
        r == elapsed(since, now),
{
    if now >= since {
        now - since
    } else {
        0
    }
}

fn same_pid(a: Option<u32>, b: Option<u32>) -> (r: bool)
    ensures
        r == (a == b),
{
    match (a, b) {
        (Some(x), Some(y)) => x == y,
        (None, None) => true,
        _ => false,
    }
}

/// Where an upgrade stands after a step at the time `now` in milliseconds.
pub fn advance(s: &Situation, phase: Phase, step: Step, now: u64) -> (r: Phase)
    ensures
        r == after(*s, phase, step, now),
{
    match (phase, step) {
        (Phase::Ended(_), _) => phase,
        (Phase::Placing, Step::Placed { created }) => Phase::Probing { created },
        (Phase::Probing { created }, Step::ProbeFailed) => refuse_as(created, Refused::ProbeFailed),
        (Phase::Probing { created }, Step::ProbeUnreadable) => refuse_as(
            created,
            Refused::ProbeUnreadable,
        ),
        (Phase::Probing { created }, Step::Probed { schema }) => Phase::Consulting {
            created,
            schema,
        },
        (Phase::Consulting { created, schema }, Step::Schema { found }) => if schema < found {
            refuse_as(created, Refused::SchemaTooOld { found, supported: schema })
        } else {
            Phase::Linking
        },
        (Phase::Discarding { why }, _) => Phase::Ended(End::Refused(why)),
        (Phase::Linking, Step::Linked) => if s.restart {
            Phase::AskingSystemd
        } else {
            Phase::Ended(End::Done { restart: RestartOutcome::Skipped, pid: None })
        },
        (Phase::AskingSystemd, Step::Serves(yes)) => if yes {
            Phase::RestartingSystemd
        } else if s.launchd {
            Phase::AskingLaunchd
        } else {
            go_by_hand(s)
        },
        (Phase::RestartingSystemd, Step::Restarted) => Phase::Greeting {
            how: RestartOutcome::Systemd,
            since: now,
        },
        (Phase::AskingLaunchd, Step::Serves(yes)) => if yes {
            Phase::RestartingLaunchd
        } else {
            go_by_hand(s)
        },
        (Phase::RestartingLaunchd, Step::Restarted) => Phase::Greeting {
            how: RestartOutcome::Launchd,
            since: now,
        },
        (Phase::Looking { pid }, Step::Alive(yes)) => if yes {
            Phase::Stopping { pid }
        } else {
            Phase::Ended(End::Done { restart: RestartOutcome::NotRunning, pid: None })
        },
        (Phase::Stopping { pid }, Step::Signalled) => Phase::Waiting { pid, since: now },
        (Phase::Waiting { pid, since }, Step::Alive(yes)) => if !yes {
            Phase::Spawning { pid }
        } else if elapsed_since(since, now) >= STOP_TIMEOUT {
            Phase::Ended(End::Stuck { pid })
        } else {
            phase
        },
        (Phase::Spawning { pid }, Step::Spawned) => Phase::Greeting {
            how: RestartOutcome::Spawned { old_pid: pid },
            since: now,
        },
        (Phase::Greeting { how, since }, Step::Health { pid, ok }) => if ok && pid.is_some()
            && !same_pid(pid, s.old_pid) {
            Phase::Ended(End::Done { restart: how, pid })
        } else if elapsed_since(since, now) >= HEALTH_TIMEOUT {
            Phase::Ended(End::NoAnswer)
        } else {
            phase
        },
        (_, Step::Failed) => {
            let before = match phase {
                Phase::Placing => true,
                Phase::Probing { .. } => true,
                Phase::Consulting { .. } => true,
                _ => false,
            };
            if before {
                Phase::Ended(End::FailedBefore)
            } else {
                Phase::Ended(End::FailedAfter)
            }
        },
        _ => phase,
    }
}

/// The exit code of an end.
pub fn exit_code_of(e: End) -> (r: i32)
    ensures
        r == end_code(e),
{
    match e {
        End::Done { .. } => 0,
        End::Refused(Refused::SchemaTooOld { .. }) => 2,
        _ => 1,
    }
}

/// Where the program with some bytes is put: under the first twelve digits of their hash.
pub open spec fn place_for(home: Seq<char>, bytes: Seq<u8>) -> Seq<char> {
    joined_path(
        joined_path(
            joined_path(home, VERSIONS_DIR@),
            num::hex(digest::sha256(bytes)).take(12),
        ),
        "agora"@,
    )
}

/// Where the program with some bytes is put.
pub fn staged_path(home: &str, bytes: &[u8]) -> (out: String)
    ensures
        out@ == place_for(home@, bytes@),
{
    let h = digest::hash(bytes);
    let hex = num::to_hex(&h);
    proof {
        num::lemma_hex_len(h@);
    }
    let v = text::chars_of(hex.as_str());
    let short = text::string_of_range(&v, 0, 12);
    proof {
        assert(short@ =~= hex@.take(12));
    }
    let dir = join_path(join_path(home, VERSIONS_DIR).as_str(), short.as_str());
    join_path(dir.as_str(), "agora")
}

/// The program of a service manager: another one where the variable names one.
pub fn service_manager_program(injected: Option<&str>, default: &str) -> (out: String)
    ensures
        out@ == (match injected {
            Some(p) => if p@.len() > 0 {
                p@
            } else {
                default@
            },
            None => default@,
        }),
{
    match injected {
        Some(p) => if !text::is_empty(p) {
            p.to_owned()
        } else {
            default.to_owned()
        },
        None => default.to_owned(),
    }
}

/// The first of some lines, from `i` on, that begins with `p`.
pub open spec fn line_with(v: Seq<Seq<char>>, p: Seq<char>, i: int) -> Option<Seq<char>>
    decreases v.len() - i,
{
    if i < 0 || i >= v.len() {
        None
    } else if text::begins(v[i], p) {
        Some(v[i])
    } else {
        line_with(v, p, i + 1)
    }
}

/// What stands before the first `p` in `s`, or all of it.
pub open spec fn up_to(s: Seq<char>, p: Seq<char>) -> Seq<char> {
    match text::parted_by(s, p) {
        Some((a, _)) => a,
        None => s,
    }
}

/// The program in the output of `systemctl show -p ExecStart`.
pub open spec fn exec_start(shown: Seq<char>) -> Option<Seq<char>> {
    match line_with(text::lines(shown), "ExecStart="@, 0) {
        Some(line) => match text::parted_by(line, "path="@) {
            Some((_, rest)) => {
                let path = text::trimmed(up_to(rest, " ;"@));
                if path.len() > 0 {
                    Some(path)
                } else {
                    None
                }
            },
            None => None,
        },
        None => None,
    }
}

/// The program in the output of `systemctl show -p ExecStart`.
pub fn systemd_exec_start_path(show_output: &str) -> (r: Option<String>)
    ensures
        opt_text(r) == exec_start(show_output@),
{
    let lines = text::lines_of(show_output);
    let ghost all = text::lines(show_output@);
    let mut i: usize = 0;
    while i < lines.len()
        invariant
            text::texts(lines@) == all,
            all == text::lines(show_output@),
            i <= lines@.len(),
            line_with(all, "ExecStart="@, 0) == line_with(all, "ExecStart="@, i as int),
        decreases lines@.len() - i,
    {
        let line = lines[i].as_str();
        proof {
            assert(all[i as int] == line@);
        }
        if text::starts_with(line, "ExecStart=") {
            return match text::split_once_by(line, "path=") {
                Some((_, rest)) => {
                    let front = match text::split_once_by(rest.as_str(), " ;") {
                        Some((a, _)) => a,
                        None => rest,
                    };
                    let path = text::trim(front.as_str());
                    if text::is_empty(path.as_str()) {
                        None
                    } else {
                        Some(path)
                    }
                },
                None => None,
            };
        }
        i += 1;
    }
    None
}

/// What follows `p` in the first line, from `i` on, that begins with it once the white space round it is
/// taken off.
pub open spec fn after_in_line(v: Seq<Seq<char>>, p: Seq<char>, i: int) -> Option<Seq<char>>
    decreases v.len() - i,
{
    if i < 0 || i >= v.len() {
        None
    } else {
        match text::after_prefix(text::trimmed(v[i]), p) {
            Some(rest) => Some(rest),
            None => after_in_line(v, p, i + 1),
        }
    }
}

/// The program in the output of `launchctl print`.
pub open spec fn program_in(printed: Seq<char>) -> Option<Seq<char>> {
    match after_in_line(text::lines(printed), "program = "@, 0) {
        Some(rest) => if text::trimmed(rest).len() > 0 {
            Some(text::trimmed(rest))
        } else {
            None
        },
        None => None,
    }
}

/// The program in the output of `launchctl print`.
pub fn launchd_program_path(print_output: &str) -> (r: Option<String>)
    ensures
        opt_text(r) == program_in(print_output@),
{
    let lines = text::lines_of(print_output);
    let ghost all = text::lines(print_output@);
    let mut i: usize = 0;
    while i < lines.len()
        invariant
            text::texts(lines@) == all,
            all == text::lines(print_output@),
            i <= lines@.len(),
            after_in_line(all, "program = "@, 0) == after_in_line(all, "program = "@, i as int),
        decreases lines@.len() - i,
    {
        proof {
            assert(all[i as int] == lines@[i as int]@);
        }
        let line = text::trim(lines[i].as_str());
        match text::strip_prefix(line.as_str(), "program = ") {
            Some(rest) => {
                let path = text::trim(rest.as_str());
                return if text::is_empty(path.as_str()) {
                    None
                } else {
                    Some(path)
                };
            },
            None => {},
        }
        i += 1;
    }
    None
}

/// Whether two paths lead to one place: they are the same part by part, or they are once the directories
/// they stand in are written out. `a_real` and `b_real` are the paths written out that way, where that can be done.
pub fn same_binary_path(a: &str, b: &str, a_real: Option<&str>, b_real: Option<&str>) -> (r: bool)
    ensures
        r == (same_path(a@, b@) || (a_real matches Some(x) && b_real matches Some(y) && same_path(
            x@,
            y@,
        ))),
{
    if is_same_path(a, b) {
        return true;
    }
    match (a_real, b_real) {
        (Some(x), Some(y)) => is_same_path(x, y),
        _ => false,
    }
}

/// Whether a service manager runs the daemon of this home: it runs one, and does not say that it is
/// another program. `program` is what it says, `same` whether that is this home's.
pub fn unit_serves(running: bool, program: Option<&str>, same: bool) -> (r: bool)
    ensures
        r == (running && (program is None || same)),
{
    running && (program.is_none() || same)
}

/// Whether `systemctl is-active` says that the unit runs.
pub fn is_active(success: bool, stdout: &str) -> (r: bool)
    ensures
        r == (success && text::trimmed(stdout@) == "active"@),
{
    success && text::same(text::trim(stdout).as_str(), "active")
}

/// What launchd calls the daemon of a user.
pub fn launchd_target(uid: u32) -> (out: String)
    ensures
        out@ == "gui/"@ + num::decimal(uid as nat) + "/"@ + LAUNCHD_LABEL@,
{
    let mut out = text::cat3("gui/", num::to_decimal(uid as u64).as_str(), "/");
    text::push_str(&mut out, LAUNCHD_LABEL);
    out
}

/// The process id in the file of the daemon.
pub open spec fn pid_of(content: Seq<char>) -> Option<nat> {
    num::unsigned(text::trimmed(content), u32::MAX as nat)
}

/// The process id in the file of the daemon.
pub fn pid_in(content: &str) -> (r: Option<u32>)
    ensures
        match r {
            Some(n) => pid_of(content@) == Some(n as nat),
            None => pid_of(content@) is None,
        },
{
    match num::parse_unsigned(text::trim(content).as_str(), 0xffff_ffff) {
        Some(n) => Some(n as u32),
        None => None,
    }
}

/// What the daemon writes to the file with its process id.
pub fn pid_line(pid: u32) -> (out: String)
    ensures
        out@ == num::decimal(pid as nat) + "\n"@,
{
    text::cat(num::to_decimal(pid as u64).as_str(), "\n")
}

/// Whether the daemon takes the file with a process id away when it ends: it is its own.
pub fn owns_pid_file(content: Option<&str>, pid: u32) -> (r: bool)
    ensures
        r == (content matches Some(s) && pid_of(s@) == Some(pid as nat)),
{
    match content {
        Some(s) => match pid_in(s) {
            Some(n) => n == pid,
            None => false,
        },
        None => false,
    }
}

/// The file in which a daemon says that it runs.
#[derive(Debug, PartialEq, Eq)]
pub struct PidFile {
    path: String,
    pid: u32,
}

/// The model of a [`PidFile`].
pub struct Claim {
    pub path: Seq<char>,
    pub pid: nat,
}

impl View for PidFile {
    type V = Claim;

    closed spec fn view(&self) -> Claim {
        Claim { path: self.path@, pid: self.pid as nat }
    }
}

impl PidFile {
    /// The file of the daemon with the process id `pid`, below its home.
    pub fn new(home: &str, pid: u32) -> (r: PidFile)
        ensures
            r@ == (Claim { path: joined_path(home@, PID_FILE@), pid: pid as nat }),
    {
        PidFile { path: join_path(home, PID_FILE), pid }
    }

    /// Where the file is.
    pub fn path(&self) -> (r: &str)
        ensures
            r@ == self@.path,
    {
        self.path.as_str()
    }

    /// What the file holds.
    pub fn text(&self) -> (out: String)
        ensures
            out@ == num::decimal(self@.pid) + "\n"@,
    {
        pid_line(self.pid)
    }

    /// Whether the file is taken away when the daemon ends, `content` being what it holds then: it is
    /// while it names this daemon.
    pub fn is_own(&self, content: Option<&str>) -> (r: bool)
        ensures
            r == (content matches Some(s) && pid_of(s@) == Some(self@.pid)),
    {
        owns_pid_file(content, self.pid)
    }
}

/// The status of an answer over HTTP: its second word.
pub open spec fn status_of(raw: Seq<char>) -> Option<nat> {
    let w = text::words(raw);
    if w.len() > 1 {
        num::unsigned(w[1], u16::MAX as nat)
    } else {
        None
    }
}

/// The body of an answer over HTTP: what follows the first empty line.
pub open spec fn body_of(raw: Seq<char>) -> Seq<char> {
    match text::parted_by(raw, "\r\n\r\n"@) {
        Some((_, b)) => b,
        None => ""@,
    }
}

/// The status and the body of an answer over HTTP; nothing where it is none.
pub fn read_answer(raw: &str) -> (r: Option<(u16, String)>)
    ensures
        match r {
            Some((status, body)) => status_of(raw@) == Some(status as nat) && body@ == body_of(raw@),
            None => status_of(raw@) is None,
        },
{
    let w = text::split_whitespace(raw);
    proof {
        assert(text::texts(w@).len() == w@.len());
    }
    if w.len() < 2 {
        return None;
    }
    proof {
        assert(text::texts(w@)[1] == w@[1]@);
    }
    match num::parse_unsigned(w[1].as_str(), 0xffff) {
        Some(n) => {
            let body = match text::split_once_by(raw, "\r\n\r\n") {
                Some((_, b)) => b,
                None => "".to_owned(),
            };
            Some((n as u16, body))
        },
        None => None,
    }
}

/// Whether an answer says that the daemon is well.
pub open spec fn well(status: nat, body: Seq<char>) -> bool {
    status == 200 && match codec::read_text(encode_utf8(body)) {
        Some(v) => json::member_str(v, "status"@) == Some("ok"@),
        None => false,
    }
}

/// Whether an answer says that the daemon is well.
pub fn health_ok(status: u16, body: &str) -> (r: bool)
    ensures
        r == well(status as nat, body@),
{
    if status != 200 {
        return false;
    }
    match codec::parse(body.as_bytes()) {
        Some(v) => text::is_text(v.get_str("status"), "ok"),
        None => false,
    }
}

/// The question whether the daemon is well.
pub fn health_request(path: &str, addr: &str) -> (out: String)
    ensures
        out@ == "GET "@ + path@ + " HTTP/1.1\r\nHost: "@ + addr@ + "\r\nConnection: close\r\n\r\n"@,
{
    let mut out = text::cat3("GET ", path, " HTTP/1.1\r\nHost: ");
    text::push_str(&mut out, addr);
    text::push_str(&mut out, "\r\nConnection: close\r\n\r\n");
    out
}

/// What has just been done in an upgrade.
#[derive(Debug, PartialEq, Eq)]
pub enum Progress {
    Placed { staged: String, probe: Probe },
    Linked { link: String, previous: Option<String>, exe: String },
    /// No restart was asked for.
    Skipped,
    /// No daemon runs.
    NotRunning,
    Systemd,
    Launchd { target: String },
    Spawned { old_pid: u32, link: String, log: String },
    Ready { pid: u32 },
}

/// What is said of a step that was done.
pub open spec fn progress_text(p: Progress) -> Seq<char> {
    match p {
        Progress::Placed { staged, probe } => "新二进制就位："@ + staged@ + "（schema "@
            + num::decimal_int(probe.schema_version as int) + "，api "@ + probe.api_version@ + "）"@,
        Progress::Linked { link, previous, exe } => link@ + ": "@ + (match previous {
            Some(p) => p@,
            None => "(无)"@,
        }) + " → "@ + exe@,
        Progress::Skipped => "未重启（--no-restart）；daemon 下次启动即新版本"@,
        Progress::NotRunning => "daemon 未在运行，下次启动即新版本"@,
        Progress::Systemd => "已 systemctl --user restart "@ + SYSTEMD_UNIT@,
        Progress::Launchd { target } => "已 launchctl kickstart -k "@ + target@,
        Progress::Spawned { old_pid, link, log } => "已停掉 pid "@ + num::decimal(old_pid as nat)
            + "，以 "@ + link@ + " serve 重新启动（日志 "@ + log@ + "）"@,
        Progress::Ready { pid } => "daemon 就绪：pid "@ + num::decimal(pid as nat)
            + "（/api/health 200）"@,
    }
}

impl Progress {
    /// What is said of a step that was done.
    pub fn message(&self) -> (out: String)
        ensures
            out@ == progress_text(*self),
    {
        match self {
            Progress::Placed { staged, probe } => {
                let mut out = text::cat3("新二进制就位：", staged.as_str(), "（schema ");
                text::push_str(&mut out, num::to_decimal_int(probe.schema_version).as_str());
                text::push_str(&mut out, "，api ");
                text::push_str(&mut out, probe.api_version.as_str());
                text::push_str(&mut out, "）");
                out
            },
            Progress::Linked { link, previous, exe } => {
                let mut out = text::cat(link.as_str(), ": ");
                text::push_str(
                    &mut out,
                    match previous {
                        Some(p) => p.as_str(),
                        None => "(无)",
                    },
                );
                text::push_str(&mut out, " → ");
                text::push_str(&mut out, exe.as_str());
                out
            },
            Progress::Skipped => "未重启（--no-restart）；daemon 下次启动即新版本".to_owned(),
            Progress::NotRunning => "daemon 未在运行，下次启动即新版本".to_owned(),
            Progress::Systemd => text::cat("已 systemctl --user restart ", SYSTEMD_UNIT),
            Progress::Launchd { target } => text::cat(
                "已 launchctl kickstart -k ",
                target.as_str(),
            ),
            Progress::Spawned { old_pid, link, log } => {
                let mut out = text::cat3(
                    "已停掉 pid ",
                    num::to_decimal(*old_pid as u64).as_str(),
                    "，以 ",
                );
                text::push_str(&mut out, link.as_str());
                text::push_str(&mut out, " serve 重新启动（日志 ");
                text::push_str(&mut out, log.as_str());
                text::push_str(&mut out, "）");
                out
            },
            Progress::Ready { pid } => text::cat3(
                "daemon 就绪：pid ",
                num::to_decimal(*pid as u64).as_str(),
                "（/api/health 200）",
            ),
        }
    }
}

/// What is said when all was done.
pub fn report(r: &Report) -> (out: String)
    ensures
        out@ == (match r.previous {
            Some(p) => p@,
            None => "(无链接)"@,
        }) + " → "@ + r.staged@ + "，daemon pid "@ + (match r.pid {
            Some(n) => num::decimal(n as nat),
            None => "未重启"@,
        }),
{
    let mut out = text::cat3(
        match &r.previous {
            Some(p) => p.as_str(),
            None => "(无链接)",
        },
        " → ",
        r.staged.as_str(),
    );
    text::push_str(&mut out, "，daemon pid ");
    match r.pid {
        Some(n) => text::push_str(&mut out, num::to_decimal(n as u64).as_str()),
        None => text::push_str(&mut out, "未重启"),
    }
    out
}

/// The link is led to a program only after it said that it knows the database as it is.
pub proof fn lemma_link_needs_a_known_schema(s: Situation, phase: Phase, step: Step, now: u64)
    requires
        after(s, phase, step, now) == Phase::Linking,
        phase != Phase::Linking,
    ensures
        phase matches Phase::Consulting { schema, .. } && step matches Step::Schema { found } && found
            <= schema,
{
}

/// A refusal leaves the link alone: an upgrade that ends with the exit code 2, or with any refusal, has
/// not touched it, and once it has been touched there is no refusal any more.
pub proof fn lemma_refusal_leaves_the_link(s: Situation, phase: Phase, step: Step, now: u64)
    ensures
        touched(phase) ==> touched(after(s, phase, step, now)),
        after(s, phase, step, now) matches Phase::Ended(e) && (e is Refused || end_code(e) == 2)
            ==> !touched(phase),
{
}

/// A daemon is told to end only where no service manager runs it, and only the one that the file names,
/// after it was seen to run.
pub proof fn lemma_no_signal_without_a_look(s: Situation, phase: Phase, step: Step, now: u64)
    requires
        after(s, phase, step, now) is Stopping,
        !(phase is Stopping),
    ensures
        phase matches Phase::Looking { pid } && step == Step::Alive(true) && after(
            s,
            phase,
            step,
            now,
        ) == (Phase::Stopping { pid }),
{
}

/// It is looked for the daemon that the file names only once every service manager that there is has said
/// that it does not run it.
pub proof fn lemma_service_managers_come_first(s: Situation, phase: Phase, step: Step, now: u64)
    requires
        after(s, phase, step, now) is Looking,
        !(phase is Looking),
    ensures
        step == Step::Serves(false),
        phase == Phase::AskingLaunchd || (phase == Phase::AskingSystemd && !s.launchd),
        s.old_pid == Some(after(s, phase, step, now)->Looking_pid),
{
}

/// An upgrade that ends well with a new daemon ends with another process id than the old one.
pub proof fn lemma_new_daemon_is_another(s: Situation, phase: Phase, step: Step, now: u64)
    requires
        after(s, phase, step, now) matches Phase::Ended(End::Done { pid: Some(_), .. }),
        !(phase is Ended),
    ensures
        after(s, phase, step, now) matches Phase::Ended(End::Done { pid, .. }) && pid != s.old_pid,
{
}

/// What a daemon writes to the file with its process id is read back.
pub proof fn lemma_pid_reads_back(pid: u32)
    ensures
        pid_of(num::decimal(pid as nat) + "\n"@) == Some(pid as nat),
{
    reveal_strlit("\n");
    num::lemma_decimal(pid as nat);
    let d = num::decimal(pid as nat);
    let s = d + "\n"@;
    assert(num::digit(d[0]) && num::digit(d[d.len() - 1]));
    assert(s.last() == '\n');
    assert(s.drop_last() =~= d);
    assert(text::trimmed_start(s) == s);
    assert(text::trimmed_end(s) == text::trimmed_end(d));
    assert(text::trimmed_end(d) == d);
    assert(text::trimmed(s) == d);
    assert(num::without_plus(d) == d);
}

/// An upgrade goes its way: a program that knows the database is linked, one that does not is refused, and
/// what was put there for it is taken away again. Without a restart the upgrade is done with the link.
pub proof fn lemma_the_way_of_an_upgrade(
    s: Situation,
    created: bool,
    schema: i64,
    found: i64,
    now: u64,
)
    ensures
        after(s, Phase::Placing, Step::Placed { created }, now) == (Phase::Probing { created }),
        after(s, Phase::Probing { created }, Step::Probed { schema }, now) == (Phase::Consulting {
            created,
            schema,
        }),
        found <= schema ==> after(s, Phase::Consulting { created, schema }, Step::Schema { found }, now)
            == Phase::Linking,
        schema < found ==> {
            let p = after(s, Phase::Consulting { created, schema }, Step::Schema { found }, now);
            let why = Refused::SchemaTooOld { found, supported: schema };
            &&& created ==> p == (Phase::Discarding { why }) && after(s, p, Step::Discarded, now)
                == Phase::Ended(End::Refused(why))
            &&& !created ==> p == Phase::Ended(End::Refused(why))
            &&& end_code(End::Refused(why)) == 2
        },
        after(s, Phase::Linking, Step::Linked, now) is Ended <==> !s.restart,
        end_code(End::Done { restart: RestartOutcome::Skipped, pid: None }) == 0,
        end_code(End::FailedBefore) != 0 && end_code(End::FailedAfter) != 0 && end_code(End::NoAnswer) != 0,
{
}

/// A daemon that was told to end is waited for, for ten seconds and no longer, and another one is started as
/// soon as it is gone; a new one is waited for, for fifteen, and greeted as soon as it answers.
pub proof fn lemma_how_long_is_waited(
    s: Situation,
    pid: u32,
    new: u32,
    how: RestartOutcome,
    since: u64,
    now: u64,
)
    requires
        since <= now,
    ensures
        after(s, Phase::Waiting { pid, since }, Step::Alive(false), now) == (Phase::Spawning { pid }),
        now < since + 10_000 ==> after(s, Phase::Waiting { pid, since }, Step::Alive(true), now)
            is Waiting,
        now >= since + 10_000 ==> after(s, Phase::Waiting { pid, since }, Step::Alive(true), now)
            == Phase::Ended(End::Stuck { pid }),
        s.old_pid != Some(new) ==> after(
            s,
            Phase::Greeting { how, since },
            Step::Health { pid: Some(new), ok: true },
            now,
        ) == Phase::Ended(End::Done { restart: how, pid: Some(new) }),
        now < since + 15_000 ==> after(
            s,
            Phase::Greeting { how, since },
            Step::Health { pid: Some(new), ok: false },
            now,
        ) is Greeting,
        now >= since + 15_000 ==> after(
            s,
            Phase::Greeting { how, since },
            Step::Health { pid: Some(new), ok: false },
            now,
        ) == Phase::Ended(End::NoAnswer),
{
}

/// A daemon that a service manager runs is restarted by it, and one that runs by itself is ended first.
pub proof fn lemma_who_restarts_the_daemon(s: Situation, pid: u32, now: u64)
    requires
        s.restart,
    ensures
        after(s, Phase::AskingSystemd, Step::Serves(true), now) == Phase::RestartingSystemd,
        after(s, Phase::RestartingSystemd, Step::Restarted, now) == (Phase::Greeting {
            how: RestartOutcome::Systemd,
            since: now,
        }),
        s.launchd ==> after(s, Phase::AskingSystemd, Step::Serves(false), now) == Phase::AskingLaunchd,
        after(s, Phase::AskingLaunchd, Step::Serves(true), now) == Phase::RestartingLaunchd,
        s.old_pid == Some(pid) && !s.launchd ==> after(
            s,
            Phase::AskingSystemd,
            Step::Serves(false),
            now,
        ) == (Phase::Looking { pid }),
        s.old_pid == Some(pid) ==> after(s, Phase::AskingLaunchd, Step::Serves(false), now) == (
        Phase::Looking { pid }),
        after(s, Phase::Looking { pid }, Step::Alive(false), now) is Ended,
        after(s, Phase::Stopping { pid }, Step::Signalled, now) == (Phase::Waiting { pid, since: now }),
        after(s, Phase::Spawning { pid }, Step::Spawned, now) == (Phase::Greeting {
            how: RestartOutcome::Spawned { old_pid: pid },
            since: now,
        }),
{
}

/// The program has to be named; a restart is made unless it is declined, in whatever order.
pub proof fn lemma_upgrade_options(from: Seq<char>, word: Seq<char>)
    requires
        word != "--from"@ && word != "--no-restart"@,
    ensures
        options_from(seq!["--from"@, from], 0, None, true) == Ok::<(Seq<char>, bool), Seq<char>>(
            (from, true),
        ),
        options_from(seq!["--from"@, from, "--no-restart"@], 0, None, true) == Ok::<
            (Seq<char>, bool),
            Seq<char>,
        >((from, false)),
        options_from(seq!["--no-restart"@, "--from"@, from], 0, None, true) == Ok::<
            (Seq<char>, bool),
            Seq<char>,
        >((from, false)),
        options_from(Seq::empty(), 0, None, true) is Err,
        options_from(seq!["--no-restart"@], 0, None, true) is Err,
        options_from(seq!["--from"@, from, word], 0, None, true) is Err,
{
    reveal_strlit("--from");
    reveal_strlit("--no-restart");
    assert("--from"@.len() == 6);
    assert("--no-restart"@.len() == 12);
    reveal_with_fuel(options_from, 4);
}

/// The exit code tells whether the upgrade was made, and a wrong line and a database that the new program
/// does not know from whatever else went wrong.
pub proof fn lemma_what_the_code_tells(t: Trouble, e: End)
    ensures
        trouble_code(t) == 2 <==> t is Usage || t is SchemaTooOld,
        trouble_code(t) == 1 || trouble_code(t) == 2,
        end_code(e) == 0 <==> e is Done,
        end_code(e) == 2 <==> (e matches End::Refused(Refused::SchemaTooOld { .. })),
{
}

/// The status and the body of an answer are read from its text: the status is the second word, and the body
/// all behind the empty line.
pub proof fn lemma_an_answer_is_read(proto: Seq<char>, n: u16, rest: Seq<char>)
    requires
        text::is_word(proto),
    ensures
        status_of(proto + seq![' '] + num::decimal(n as nat) + seq![' '] + rest) == Some(n as nat),
{
    let d = num::decimal(n as nat);
    num::lemma_decimal(n as nat);
    assert(num::digit(d[0]));
    assert(num::without_plus(d) == d);
    assert forall|i: int| 0 <= i < d.len() implies !text::white(#[trigger] d[i]) by {
        assert(num::digit(d[i]));
    }
    text::lemma_words_joined(proto + seq![' '] + d, rest);
    text::lemma_words_joined(proto, d);
    text::lemma_word(proto);
    text::lemma_word(d);
    let w = text::words(proto + seq![' '] + d + seq![' '] + rest);
    assert(w =~= seq![proto, d] + text::words(rest));
    assert(w[1] == d);
}

/// A daemon is well exactly where it answers so, with the status for it.
pub proof fn lemma_when_a_daemon_is_well(status: nat, body: Seq<char>)
    ensures
        well(status, body) ==> status == 200,
        well(200, body) <==> (codec::read_text(encode_utf8(body)) is Some && json::stands(
            codec::read_text(encode_utf8(body))->0,
            "status"@,
            json::JsonView::Str("ok"@),
        )),
{
    if let Some(v) = codec::read_text(encode_utf8(body)) {
        json::lemma_member_read(v, "status"@);
    }
}

/// The program of a service is the path that the manager tells.
pub proof fn lemma_the_program_of_a_service(path: Seq<char>, rest: Seq<char>)
    requires
        text::is_word(path),
        !rest.contains('\n'),
    ensures
        exec_start("ExecStart={ path="@ + path + " ;"@ + rest) == Some(path),
        program_in("program = "@ + path) == Some(path),
{
    lemma_no_line_ends(path);
    reveal_strlit("ExecStart={ path=");
    reveal_strlit("ExecStart=");
    reveal_strlit("path=");
    reveal_strlit(" ;");
    reveal_strlit("program = ");
    let l = "ExecStart={ path="@ + path + " ;"@ + rest;
    assert(!l.contains('\n')) by {
        if l.contains('\n') {
            let i = l.index_of('\n');
            if i < 17 {
            } else if i < 17 + path.len() {
                assert(path[i - 17] == '\n');
            } else if i >= 19 + path.len() {
                assert(rest[i - 19 - path.len()] == '\n');
            }
        }
    }
    lemma_one_line_of(l);
    assert(l.subrange(0, 10) =~= "ExecStart="@);
    let a = "ExecStart={ "@;
    reveal_strlit("ExecStart={ ");
    assert(a.len() == 12);
    assert(l =~= a + "path="@ + (path + " ;"@ + rest));
    assert forall|i: int| 0 <= i < 12 implies #[trigger] a[i] != 'p' by {
    }
    text::lemma_parted_by(a, "path="@, path + " ;"@ + rest);
    assert(!path.contains(' ')) by {
        if path.contains(' ') {
            let i = path.index_of(' ');
            assert(text::white(path[i]));
        }
    }
    text::lemma_parted_by(path, " ;"@, rest);
    assert(text::trimmed(path) == path) by {
        text::lemma_trimmed(path);
    }
    let m = "program = "@ + path;
    assert(!m.contains('\n')) by {
        if m.contains('\n') {
            let i = m.index_of('\n');
            if i >= 10 {
                assert(path[i - 10] == '\n');
            }
        }
    }
    lemma_one_line_of(m);
    assert(m[0] == 'p' && m.last() == path.last());
    assert(!text::white(path[path.len() - 1]));
    assert(text::trimmed(m) == m) by {
        text::lemma_trimmed(m);
    }
    text::lemma_begin_and_end("program = "@, path);
}

proof fn lemma_no_line_ends(path: Seq<char>)
    requires
        text::is_word(path),
    ensures
        !path.contains('\n'),
{
    if path.contains('\n') {
        let i = path.index_of('\n');
        assert(text::white(path[i]));
    }
}

proof fn lemma_one_line_of(s: Seq<char>)
    requires
        !s.contains('\n'),
        s.len() > 0,
    ensures
        text::lines(s) == seq![s],
{
    text::lemma_split_whole(s, '\n');
    let one = seq![s];
    assert(text::split(s, '\n') =~= one);
    assert(one.last() == s && one.drop_last() =~= Seq::<Seq<char>>::empty());
    assert(text::lines(s) =~= one);
}

/// A path that is told is never empty.
pub proof fn lemma_programs_have_names(shown: Seq<char>)
    ensures
        exec_start(shown) matches Some(p) ==> p.len() > 0,
        program_in(shown) matches Some(p) ==> p.len() > 0,
{
}

} // verus!
