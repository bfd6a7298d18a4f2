//! The program: what its command line asks for, and in what order the daemon starts.

use crate::auth::{Device, Paired};
use crate::num;
use crate::order;
use crate::text::{self, strs, texts, widened};
use vstd::prelude::*;

verus! {

/// The runtime that the program brings along.
pub const RUNTIME_KIND: &'static str = "tmux";

pub const USAGE: &'static str =
    "用法: agora [serve | url | open | auth devices | auth revoke <id>|--all | hook --host <h> --home <dir> [--record <file>] | hooks install|uninstall <agent> | peer token create <name> [--rotate]|list|revoke <name> | tls fingerprint|rotate-key | upgrade --from <新二进制> [--no-restart] | upgrade --probe | fake-agent <script>|-e <inline>]";

/// What a command line asks for. The words after the command are left to it.
#[derive(Debug, PartialEq, Eq)]
pub enum Command {
    Serve,
    Url,
    Open,
    AuthDevices,
    AuthRevoke { target: String },
    Hook,
    Hooks,
    Peer,
    Tls,
    UpgradeProbe,
    Upgrade,
    FakeAgent,
    Usage,
}

/// The model of a [`Command`].
pub enum Wish {
    Serve,
    Url,
    Open,
    AuthDevices,
    AuthRevoke { target: Seq<char> },
    Hook,
    Hooks,
    Peer,
    Tls,
    UpgradeProbe,
    Upgrade,
    FakeAgent,
    Usage,
}

impl View for Command {
    type V = Wish;

    open spec fn view(&self) -> Wish {
        match self {
            Command::Serve => Wish::Serve,
            Command::Url => Wish::Url,
            Command::Open => Wish::Open,
            Command::AuthDevices => Wish::AuthDevices,
            Command::AuthRevoke { target } => Wish::AuthRevoke { target: target@ },
            Command::Hook => Wish::Hook,
            Command::Hooks => Wish::Hooks,
            Command::Peer => Wish::Peer,
            Command::Tls => Wish::Tls,
            Command::UpgradeProbe => Wish::UpgradeProbe,
            Command::Upgrade => Wish::Upgrade,
            Command::FakeAgent => Wish::FakeAgent,
            Command::Usage => Wish::Usage,
        }
    }
}

/// What a command line asks for.
pub open spec fn wish(argv: Seq<Seq<char>>) -> Wish {
    if argv.len() == 0 {
        Wish::Serve
    } else if argv[0] == "serve"@ && argv.len() == 1 {
        Wish::Serve
    } else if argv[0] == "url"@ && argv.len() == 1 {
        Wish::Url
    } else if argv[0] == "open"@ && argv.len() == 1 {
        Wish::Open
    } else if argv[0] == "auth"@ && argv.len() == 2 && argv[1] == "devices"@ {
        Wish::AuthDevices
    } else if argv[0] == "auth"@ && argv.len() == 3 && argv[1] == "revoke"@ {
        Wish::AuthRevoke { target: argv[2] }
    } else if argv[0] == "hook"@ {
        Wish::Hook
    } else if argv[0] == "hooks"@ {
        Wish::Hooks
    } else if argv[0] == "peer"@ {
        Wish::Peer
    } else if argv[0] == "tls"@ {
        Wish::Tls
    } else if argv[0] == "upgrade"@ {
        if argv.len() == 2 && argv[1] == "--probe"@ {
            Wish::UpgradeProbe
        } else {
            Wish::Upgrade
        }
    } else if argv[0] == "fake-agent"@ {
        Wish::FakeAgent
    } else {
        Wish::Usage
    }
}

/// What a command line asks for.
pub fn command(argv: &[&str]) -> (r: Command)
    ensures
        r@ == wish(strs(argv@)),
{
    proof {
        assert(strs(argv@).len() == argv@.len());
        assert forall|i: int| 0 <= i < argv@.len() implies #[trigger] strs(argv@)[i] == argv@[i]@ by {
        }
    }
    if argv.len() == 0 {
        return Command::Serve;
    }
    let first = argv[0];
    if text::same(first, "serve") && argv.len() == 1 {
        Command::Serve
    } else if text::same(first, "url") && argv.len() == 1 {
        Command::Url
    } else if text::same(first, "open") && argv.len() == 1 {
        Command::Open
    } else if text::same(first, "auth") && argv.len() == 2 && text::same(argv[1], "devices") {
        Command::AuthDevices
    } else if text::same(first, "auth") && argv.len() == 3 && text::same(argv[1], "revoke") {
        Command::AuthRevoke { target: argv[2].to_owned() }
    } else if text::same(first, "hook") {
        Command::Hook
    } else if text::same(first, "hooks") {
        Command::Hooks
    } else if text::same(first, "peer") {
        Command::Peer
    } else if text::same(first, "tls") {
        Command::Tls
    } else if text::same(first, "upgrade") {
        if argv.len() == 2 && text::same(argv[1], "--probe") {
            Command::UpgradeProbe
        } else {
            Command::Upgrade
        }
    } else if text::same(first, "fake-agent") {
        Command::FakeAgent
    } else {
        Command::Usage
    }
}

/// Where the daemon stands when it starts: each phase is named by what is being done.
#[derive(Clone, Copy, Debug, PartialEq, Eq, Structural)]
pub enum Phase {
    /// The home directory is made sure of.
    Home,
    /// The configuration is read.
    Config,
    /// The kind of runtime and what is configured for it are looked at.
    Runtime,
    /// The listener in the clear is bound.
    BindHttp,
    /// The certificate is read or made, where another listener is configured.
    Certificate,
    /// The other listener is bound.
    BindTls,
    /// The socket is bound.
    BindSocket,
    /// The runtime is started, and the database opened.
    Open,
    /// What the runtime has is held against what is entered here, and the inbox is emptied.
    Reconcile,
    /// The other nodes are entered.
    Peers,
    /// Requests are answered.
    Serve,
    Ended { code: i32 },
}

/// What came of what was being done.
#[derive(Clone, Copy, Debug, PartialEq, Eq, Structural)]
pub enum Came {
    Done,
    Failed,
}

/// Where the daemon stands after a phase. `tls` says whether another listener is configured. What is wrong
/// with the configuration ends it with the code 2, anything else with 1, and to reconcile may fail.
pub open spec fn after(phase: Phase, tls: bool, came: Came) -> Phase {
    match (phase, came) {
        (Phase::Ended { .. }, _) => phase,
        (Phase::Home, Came::Done) => Phase::Config,
        (Phase::Home, Came::Failed) => Phase::Ended { code: 2 },
        (Phase::Config, Came::Done) => Phase::Runtime,
        (Phase::Config, Came::Failed) => Phase::Ended { code: 2 },
        (Phase::Runtime, Came::Done) => Phase::BindHttp,
        (Phase::Runtime, Came::Failed) => Phase::Ended { code: 2 },
        (Phase::BindHttp, Came::Done) => if tls {
            Phase::Certificate
        } else {
            Phase::BindSocket
        },
        (Phase::BindHttp, Came::Failed) => Phase::Ended { code: 1 },
        (Phase::Certificate, Came::Done) => Phase::BindTls,
        (Phase::Certificate, Came::Failed) => Phase::Ended { code: 2 },
        (Phase::BindTls, Came::Done) => Phase::BindSocket,
        (Phase::BindTls, Came::Failed) => Phase::Ended { code: 1 },
        (Phase::BindSocket, Came::Done) => Phase::Open,
        (Phase::BindSocket, Came::Failed) => Phase::Ended { code: 1 },
        (Phase::Open, Came::Done) => Phase::Reconcile,
        (Phase::Open, Came::Failed) => Phase::Ended { code: 1 },
        (Phase::Reconcile, _) => Phase::Peers,
        (Phase::Peers, Came::Done) => Phase::Serve,
        (Phase::Peers, Came::Failed) => Phase::Ended { code: 2 },
        (Phase::Serve, Came::Done) => Phase::Ended { code: 0 },
        (Phase::Serve, Came::Failed) => Phase::Ended { code: 1 },
    }
}

/// Where the daemon stands after a phase.
pub fn advance(phase: Phase, tls: bool, came: Came) -> (r: Phase)
    ensures
        r == after(phase, tls, came),
{
    match (phase, came) {
        (Phase::Ended { .. }, _) => phase,
        (Phase::Home, Came::Done) => Phase::Config,
        (Phase::Home, Came::Failed) => Phase::Ended { code: 2 },
        (Phase::Config, Came::Done) => Phase::Runtime,
        (Phase::Config, Came::Failed) => Phase::Ended { code: 2 },
        (Phase::Runtime, Came::Done) => Phase::BindHttp,
        (Phase::Runtime, Came::Failed) => Phase::Ended { code: 2 },
        (Phase::BindHttp, Came::Done) => if tls {
            Phase::Certificate
        } else {
            Phase::BindSocket
        },
        (Phase::BindHttp, Came::Failed) => Phase::Ended { code: 1 },
        (Phase::Certificate, Came::Done) => Phase::BindTls,
        (Phase::Certificate, Came::Failed) => Phase::Ended { code: 2 },
        (Phase::BindTls, Came::Done) => Phase::BindSocket,
        (Phase::BindTls, Came::Failed) => Phase::Ended { code: 1 },
        (Phase::BindSocket, Came::Done) => Phase::Open,
        (Phase::BindSocket, Came::Failed) => Phase::Ended { code: 1 },
        (Phase::Open, Came::Done) => Phase::Reconcile,
        (Phase::Open, Came::Failed) => Phase::Ended { code: 1 },
        (Phase::Reconcile, _) => Phase::Peers,
        (Phase::Peers, Came::Done) => Phase::Serve,
        (Phase::Peers, Came::Failed) => Phase::Ended { code: 2 },
        (Phase::Serve, Came::Done) => Phase::Ended { code: 0 },
        (Phase::Serve, Came::Failed) => Phase::Ended { code: 1 },
    }
}

/// Whether the runtime is the one that the program brings along.
pub fn runtime_is_known(kind: &str) -> (r: bool)
    ensures
        r == (kind@ == RUNTIME_KIND@),
{
    text::same(kind, RUNTIME_KIND)
}

/// Where the daemon stands after some phases, each of which came to something.
pub open spec fn run(tls: bool, steps: Seq<Came>) -> Phase
    decreases steps.len(),
{
    if steps.len() == 0 {
        Phase::Home
    } else {
        after(run(tls, steps.drop_last()), tls, steps.last())
    }
}

/// Whether a phase touches what another daemon of the same home may be using.
pub open spec fn touches(phase: Phase) -> bool {
    phase == Phase::Open || phase == Phase::Reconcile || phase == Phase::Peers || phase
        == Phase::Serve
}

/// Whether all that is listened at is bound in the first `n` steps.
pub open spec fn bound(tls: bool, steps: Seq<Came>) -> bool {
    exists|n: int|
        0 <= n < steps.len() && run(tls, #[trigger] steps.take(n)) == Phase::BindSocket && steps[n]
            == Came::Done
}

/// A second daemon of the same home ends before it touches anything: nothing is touched before all
/// listeners, and the socket last of them, have been bound.
pub proof fn lemma_bound_before_touched(tls: bool, steps: Seq<Came>)
    requires
        touches(run(tls, steps)),
    ensures
        bound(tls, steps),
    decreases steps.len(),
{
    if steps.len() > 0 {
        let w = steps.drop_last();
        let n = w.len() as int;
        assert(steps.take(n) =~= w);
        if touches(run(tls, w)) {
            lemma_bound_before_touched(tls, w);
            let k = choose|k: int|
                0 <= k < w.len() && run(tls, #[trigger] w.take(k)) == Phase::BindSocket && w[k]
                    == Came::Done;
            assert(steps.take(k) =~= w.take(k));
            assert(steps[k] == w[k]);
        } else {
            assert(run(tls, steps.take(n)) == Phase::BindSocket);
            assert(steps[n] == Came::Done);
        }
    }
}

/// The socket is bound only after the listener in the clear is, and after the other one where it is
/// configured.
pub proof fn lemma_socket_is_last(phase: Phase, tls: bool, came: Came)
    requires
        after(phase, tls, came) == Phase::BindSocket,
    ensures
        came == Came::Done,
        phase == Phase::BindTls || (phase == Phase::BindHttp && !tls),
{
}

/// What is said where the listener in the clear cannot be bound: that a daemon runs already, or that the
/// port is taken. `answers` says whether a daemon answers at the socket, and `reason` is the error in
/// words.
pub fn bind_failure_text(socket: &str, addr: &str, answers: bool, reason: &str) -> (out: String)
    ensures
        out@ == (if answers {
            "已有实例在跑："@ + socket@ + " 有 daemon 应答，"@ + addr@ + " 也已被占用；要重启请先停掉它"@
        } else {
            reason@ + "；端口被别的程序占用？改 config.yaml 的 server.listen"@
        }),
{
    if answers {
        let mut out = text::cat3("已有实例在跑：", socket, " 有 daemon 应答，");
        text::push_str(&mut out, addr);
        text::push_str(&mut out, " 也已被占用；要重启请先停掉它");
        out
    } else {
        text::cat(reason, "；端口被别的程序占用？改 config.yaml 的 server.listen")
    }
}

/// How many of the devices may still be used.
pub open spec fn usable(v: Seq<Paired>) -> nat
    decreases v.len(),
{
    if v.len() == 0 {
        0
    } else if v.last().revoked_at is None {
        usable(v.drop_last()) + 1
    } else {
        usable(v.drop_last())
    }
}

/// How many of the devices may still be used.
pub fn paired_devices(devices: &[Device]) -> (n: usize)
    ensures
        n == usable(order::models(devices@)),
{
    let ghost all = order::models(devices@);
    let mut n: usize = 0;
    let mut i: usize = 0;
    proof {
        assert(all.take(0) =~= Seq::<Paired>::empty());
    }
    while i < devices.len()
        invariant
            all == order::models(devices@),
            n <= i <= devices@.len(),
            n == usable(all.take(i as int)),
        decreases devices@.len() - i,
    {
        proof {
            assert(all.take(i + 1).drop_last() =~= all.take(i as int));
            assert(all.take(i + 1).last() == devices@[i as int]@);
        }
        if devices[i].revoked_at.is_none() {
            n += 1;
        }
        i += 1;
    }
    proof {
        assert(all.take(i as int) =~= all);
    }
    n
}

/// A line of the table of devices: six columns, the first five of a fixed width.
pub open spec fn line(
    a: Seq<char>,
    b: Seq<char>,
    c: Seq<char>,
    d: Seq<char>,
    e: Seq<char>,
    f: Seq<char>,
) -> Seq<char> {
    widened(a, 10) + " "@ + widened(b, 22) + " "@ + widened(c, 8) + " "@ + widened(d, 20) + " "@
        + widened(e, 20) + " "@ + f
}

fn line_of(a: &str, b: &str, c: &str, d: &str, e: &str, f: &str) -> (out: String)
    ensures
        out@ == line(a@, b@, c@, d@, e@, f@),
{
    let mut out = text::cat(text::widen(a, 10).as_str(), " ");
    text::push_str(&mut out, text::widen(b, 22).as_str());
    text::push_str(&mut out, " ");
    text::push_str(&mut out, text::widen(c, 8).as_str());
    text::push_str(&mut out, " ");
    text::push_str(&mut out, text::widen(d, 20).as_str());
    text::push_str(&mut out, " ");
    text::push_str(&mut out, text::widen(e, 20).as_str());
    text::push_str(&mut out, " ");
    text::push_str(&mut out, f);
    out
}

/// The line of a device.
pub open spec fn device_line(d: Paired) -> Seq<char> {
    line(
        d.id,
        d.name,
        d.paired_via,
        d.created_at,
        d.last_seen_at,
        if d.revoked_at is Some {
            "revoked"@
        } else {
            "active"@
        },
    )
}

/// The lines of the table of devices.
pub open spec fn device_table(v: Seq<Paired>) -> Seq<Seq<char>> {
    if v.len() == 0 {
        seq!["没有已配对设备；运行 `agora open` 配对本机浏览器"@]
    } else {
        seq![line("ID"@, "NAME"@, "VIA"@, "PAIRED"@, "LAST_SEEN"@, "STATE"@)] + v.map_values(
            |d: Paired| device_line(d),
        )
    }
}

/// The table of devices, line by line.
pub fn device_lines(devices: &[Device]) -> (out: Vec<String>)
    ensures
        texts(out@) == device_table(order::models(devices@)),
{
    let ghost all = order::models(devices@);
    let mut out: Vec<String> = Vec::new();
    if devices.len() == 0 {
        out.push("没有已配对设备；运行 `agora open` 配对本机浏览器".to_owned());
        proof {
            assert(texts(out@) =~= device_table(all));
        }
        return out;
    }
    out.push(line_of("ID", "NAME", "VIA", "PAIRED", "LAST_SEEN", "STATE"));
    let ghost head = seq![line("ID"@, "NAME"@, "VIA"@, "PAIRED"@, "LAST_SEEN"@, "STATE"@)];
    let ghost want = all.map_values(|d: Paired| device_line(d));
    let mut i: usize = 0;
    proof {
        assert(texts(out@) =~= head + want.take(0));
    }
    while i < devices.len()
        invariant
            i <= devices@.len(),
            all == order::models(devices@),
            want == all.map_values(|d: Paired| device_line(d)),
            texts(out@) == head + want.take(i as int),
        decreases devices@.len() - i,
    {
        let d = &devices[i];
        let ghost was = texts(out@);
        let state = if d.revoked_at.is_some() {
            "revoked"
        } else {
            "active"
        };
        let l = line_of(
            d.id.as_str(),
            d.name.as_str(),
            d.paired_via.as_str(),
            d.created_at.as_str(),
            d.last_seen_at.as_str(),
            state,
        );
        out.push(l);
        proof {
            assert(all[i as int] == d@);
            assert(l@ == want[i as int]);
            assert(texts(out@) =~= was.push(l@));
            assert(want.take(i + 1) =~= want.take(i as int).push(want[i as int]));
            assert((head + want.take(i as int)).push(l@) =~= head + want.take(i + 1));
        }
        i += 1;
    }
    proof {
        assert(want.take(i as int) =~= want);
    }
    out
}

/// What is said when devices were revoked: how many where all were to be.
pub fn revoked_text(target: &str, count: usize) -> (out: String)
    ensures
        out@ == (if target@ == "--all"@ {
            "已吊销 "@ + num::decimal(count as nat) + " 台设备"@
        } else {
            "已吊销 "@ + target@
        }),
{
    if text::same(target, "--all") {
        text::cat3("已吊销 ", num::to_decimal(count as u64).as_str(), " 台设备")
    } else {
        text::cat("已吊销 ", target)
    }
}

/// A start goes on as long as each step is done, and ends at the first that is not, but for what the runtime
/// has, which may be looked at later. What the configuration is at fault for ends with 2, and what the
/// machine is at fault for with 1; with 0 ends only what was serving.
pub proof fn lemma_how_a_start_ends(phase: Phase, tls: bool, came: Came)
    requires
        !(phase is Ended),
    ensures
        after(phase, tls, Came::Failed) is Ended <==> phase != Phase::Reconcile,
        after(phase, tls, Came::Done) is Ended <==> phase == Phase::Serve,
        after(phase, tls, Came::Failed) == (Phase::Ended { code: 2 }) <==> phase == Phase::Home || phase
            == Phase::Config || phase == Phase::Runtime || phase == Phase::Certificate || phase
            == Phase::Peers,
        after(phase, tls, came) == (Phase::Ended { code: 0 }) <==> phase == Phase::Serve && came
            == Came::Done,
        after(phase, tls, came) matches Phase::Ended { code } ==> code == 0 || code == 1 || code == 2,
{
}

proof fn lemma_run_on(tls: bool, steps: Seq<Came>, came: Came)
    ensures
        run(tls, steps.push(came)) == after(run(tls, steps), tls, came),
{
    assert(steps.push(came).drop_last() =~= steps);
}

/// Where every step is done requests are answered in the end: after the listeners and the socket are bound,
/// and the certificate is read where another listener is configured.
pub proof fn lemma_all_goes_well(tls: bool)
    ensures
        run(tls, Seq::new(if tls { 10nat } else { 8nat }, |i: int| Came::Done)) == Phase::Serve,
        run(tls, Seq::new(4, |i: int| Came::Done)) == (if tls {
            Phase::Certificate
        } else {
            Phase::BindSocket
        }),
{
    let d = |n: nat| Seq::new(n, |i: int| Came::Done);
    assert(d(0) =~= Seq::<Came>::empty());
    assert forall|n: nat| #[trigger] d(n).push(Came::Done) == d(n + 1) by {
        assert(d(n).push(Came::Done) =~= d(n + 1));
    }
    lemma_run_on(tls, d(0), Came::Done);
    lemma_run_on(tls, d(1), Came::Done);
    lemma_run_on(tls, d(2), Came::Done);
    lemma_run_on(tls, d(3), Came::Done);
    lemma_run_on(tls, d(4), Came::Done);
    lemma_run_on(tls, d(5), Came::Done);
    lemma_run_on(tls, d(6), Came::Done);
    lemma_run_on(tls, d(7), Came::Done);
    lemma_run_on(tls, d(8), Came::Done);
    lemma_run_on(tls, d(9), Came::Done);
}

/// Every command is asked for by its word, and a line that is none is answered with the usage; to serve is
/// what a line without words asks for.
pub proof fn lemma_every_command_has_its_word(argv: Seq<Seq<char>>)
    ensures
        wish(argv) is Serve <==> argv.len() == 0 || argv == seq!["serve"@],
        wish(argv) is Url <==> argv == seq!["url"@],
        wish(argv) is Open <==> argv == seq!["open"@],
        wish(argv) is AuthDevices <==> argv == seq!["auth"@, "devices"@],
        wish(argv) is AuthRevoke <==> argv.len() == 3 && argv[0] == "auth"@ && argv[1] == "revoke"@,
        wish(argv) matches Wish::AuthRevoke { target } ==> target == argv[2],
        wish(argv) is Hook <==> argv.len() > 0 && argv[0] == "hook"@,
        wish(argv) is Hooks <==> argv.len() > 0 && argv[0] == "hooks"@,
        wish(argv) is Peer <==> argv.len() > 0 && argv[0] == "peer"@,
        wish(argv) is Tls <==> argv.len() > 0 && argv[0] == "tls"@,
        wish(argv) is UpgradeProbe <==> argv == seq!["upgrade"@, "--probe"@],
        wish(argv) is Upgrade || wish(argv) is UpgradeProbe <==> argv.len() > 0 && argv[0] == "upgrade"@,
        wish(argv) is FakeAgent <==> argv.len() > 0 && argv[0] == "fake-agent"@,
{
    lemma_words_differ();
    if argv.len() == 1 {
        assert(argv =~= seq![argv[0]]);
    }
    if argv.len() == 2 {
        assert(argv =~= seq![argv[0], argv[1]]);
    }
    assert(seq!["serve"@][0] == "serve"@);
    assert(seq!["url"@][0] == "url"@);
    assert(seq!["open"@][0] == "open"@);
    assert(seq!["auth"@, "devices"@][0] == "auth"@ && seq!["auth"@, "devices"@][1] == "devices"@);
    assert(seq!["upgrade"@, "--probe"@][0] == "upgrade"@ && seq!["upgrade"@, "--probe"@][1] == "--probe"@);
}

proof fn lemma_words_differ()
    ensures
        "serve"@ != "url"@,
        "serve"@ != "open"@,
        "serve"@ != "auth"@,
        "serve"@ != "hook"@,
        "serve"@ != "hooks"@,
        "serve"@ != "peer"@,
        "serve"@ != "tls"@,
        "serve"@ != "upgrade"@,
        "serve"@ != "fake-agent"@,
        "url"@ != "open"@,
        "url"@ != "auth"@,
        "url"@ != "hook"@,
        "url"@ != "hooks"@,
        "url"@ != "peer"@,
        "url"@ != "tls"@,
        "url"@ != "upgrade"@,
        "url"@ != "fake-agent"@,
        "open"@ != "auth"@,
        "open"@ != "hook"@,
        "open"@ != "hooks"@,
        "open"@ != "peer"@,
        "open"@ != "tls"@,
        "open"@ != "upgrade"@,
        "open"@ != "fake-agent"@,
        "auth"@ != "hook"@,
        "auth"@ != "hooks"@,
        "auth"@ != "peer"@,
        "auth"@ != "tls"@,
        "auth"@ != "upgrade"@,
        "auth"@ != "fake-agent"@,
        "hook"@ != "hooks"@,
        "hook"@ != "peer"@,
        "hook"@ != "tls"@,
        "hook"@ != "upgrade"@,
        "hook"@ != "fake-agent"@,
        "hooks"@ != "peer"@,
        "hooks"@ != "tls"@,
        "hooks"@ != "upgrade"@,
        "hooks"@ != "fake-agent"@,
        "peer"@ != "tls"@,
        "peer"@ != "upgrade"@,
        "peer"@ != "fake-agent"@,
        "tls"@ != "upgrade"@,
        "tls"@ != "fake-agent"@,
        "upgrade"@ != "fake-agent"@,
{
    reveal_strlit("serve");
    assert("serve"@.len() == 5);
    reveal_strlit("url");
    assert("url"@.len() == 3);
    reveal_strlit("open");
    assert("open"@.len() == 4);
    reveal_strlit("auth");
    assert("auth"@.len() == 4);
    reveal_strlit("hook");
    assert("hook"@.len() == 4);
    reveal_strlit("hooks");
    assert("hooks"@.len() == 5);
    reveal_strlit("peer");
    assert("peer"@.len() == 4);
    reveal_strlit("tls");
    assert("tls"@.len() == 3);
    reveal_strlit("upgrade");
    assert("upgrade"@.len() == 7);
    reveal_strlit("fake-agent");
    assert("fake-agent"@.len() == 10);
    assert("serve"@[0] != "hooks"@[0]);
    assert("url"@[0] != "tls"@[0]);
    assert("open"@[0] != "auth"@[0]);
    assert("open"@[0] != "hook"@[0]);
    assert("open"@[0] != "peer"@[0]);
    assert("auth"@[0] != "hook"@[0]);
    assert("auth"@[0] != "peer"@[0]);
    assert("hook"@[0] != "peer"@[0]);
}

/// The devices that can be used are counted, and the others are not; the table has a line for each, of either
/// kind, below its head.
pub proof fn lemma_devices_are_counted(v: Seq<Paired>, d: Paired)
    ensures
        usable(v.push(d)) == usable(v) + (if d.revoked_at is None {
            1nat
        } else {
            0
        }),
        usable(Seq::empty()) == 0,
        device_table(v.push(d)).len() == v.len() + 2,
        device_table(v.push(d)).last() == device_line(d),
{
    assert(v.push(d).drop_last() =~= v);
}

/// Of a device it is told whether it may still be used.
pub proof fn lemma_a_device_is_told(d: Paired)
    ensures
        d.revoked_at is None ==> crate::text::finishes(device_line(d), " active"@),
        d.revoked_at is Some ==> crate::text::finishes(device_line(d), " revoked"@),
        crate::text::begins(device_line(d), d.id),
{
    reveal_strlit(" ");
    reveal_strlit(" active");
    reveal_strlit("active");
    reveal_strlit(" revoked");
    reveal_strlit("revoked");
    assert(" "@ + "active"@ =~= " active"@);
    assert(" "@ + "revoked"@ =~= " revoked"@);
    let state = if d.revoked_at is Some {
        "revoked"@
    } else {
        "active"@
    };
    let p = widened(d.id, 10) + " "@ + widened(d.name, 22) + " "@ + widened(d.paired_via, 8) + " "@
        + widened(d.created_at, 20) + " "@ + widened(d.last_seen_at, 20);
    assert(device_line(d) =~= p + (" "@ + state));
    crate::text::lemma_begin_and_end(p, " "@ + state);
    crate::text::lemma_widened(d.id, 10);
    let w = widened(d.id, 10);
    let l = device_line(d);
    assert(l.subrange(0, d.id.len() as int) =~= w.take(d.id.len() as int));
}

} // verus!
