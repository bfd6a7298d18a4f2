//! `agora hook`: what runs inside the agent. It must never hold the agent up: whatever fails, it ends
//! without a word, and the agent's own prompt is still there.

use crate::hook::holds::lemma_push_has;
use crate::adapter::claude::Claude;
use crate::adapter::hooks::agent_env_prefixes;
use crate::adapter::registry::{for_host, host_named, host_names, hosts, Host};
use crate::adapter::{find_variable, variable, AgentHooks};
use crate::codec::{self, read_text};
use crate::gateway::utf8::{decoded, lemma_decoded_of_valid, REPLACEMENT, Utf8Stream};
use crate::hook::inbox::{pairs, Cover, Envelope};
use crate::json::{Json, JsonView};
use crate::num;
use crate::text::{
    self, ascii_upper, begins, either, joined, occurs, opt_str, opt_text, or_else, same, strs,
};
use vstd::prelude::*;

verus! {

/// How many seconds an event that is not held waits for the daemon to have read it.
pub const ACK_TIMEOUT: u64 = 2;

/// How many seconds longer than the daemon the hook waits for an answer.
pub const HOLD_MARGIN: u64 = 30;

/// How the command is used.
pub open spec fn usage_text(claude: Claude) -> Seq<char> {
    "用法: agora hook --host <"@ + joined(host_names(claude), "|"@)
        + "> --home <AGORA_HOME> [--record <file>]"@
}

fn usage(claude: Claude) -> (out: String)
    ensures
        out@ == usage_text(claude),
{
    let names = crate::adapter::owned(&hosts(claude));
    text::cat3(
        "用法: agora hook --host <",
        text::join(&names, "|").as_str(),
        "> --home <AGORA_HOME> [--record <file>]",
    )
}

/// What the command was told.
#[derive(Debug, PartialEq, Eq)]
pub struct Args {
    pub host: String,
    pub home: String,
    /// The file that events are recorded in.
    pub record: Option<String>,
}

/// What the arguments from `i` on give as host, home and record; or the first that is not known. Of one
/// given twice the later counts, and one without its value counts as not given.
pub open spec fn options_of(
    argv: Seq<Seq<char>>,
    i: int,
    host: Option<Seq<char>>,
    home: Option<Seq<char>>,
    record: Option<Seq<char>>,
) -> Result<(Option<Seq<char>>, Option<Seq<char>>, Option<Seq<char>>), Seq<char>>
    decreases argv.len() + 1 - i,
{
    let next = if i + 1 < argv.len() {
        Some(argv[i + 1])
    } else {
        None
    };
    if i < 0 || i >= argv.len() {
        Ok((host, home, record))
    } else if argv[i] == "--host"@ {
        options_of(argv, i + 2, next, home, record)
    } else if argv[i] == "--home"@ {
        options_of(argv, i + 2, host, next, record)
    } else if argv[i] == "--record"@ {
        options_of(argv, i + 2, host, home, next)
    } else {
        Err(argv[i])
    }
}

/// An environment variable that is set to something.
pub open spec fn set_to(v: Option<Seq<char>>) -> Option<Seq<char>> {
    match v {
        Some(s) => if s.len() > 0 {
            Some(s)
        } else {
            None
        },
        None => None,
    }
}

/// What the command was told, `default_home` being the home where none is given and `env_record` the
/// environment's file to record in.
pub fn parse_args(
    claude: Claude,
    argv: &[&str],
    default_home: &str,
    env_record: Option<&str>,
) -> (r: Result<Args, String>)
    ensures
        match options_of(strs(argv@), 0, None, None, None) {
            Err(other) => r matches Err(e) && e@ == "未知参数 "@ + other + "\n"@ + usage_text(claude),
            Ok((None, _, _)) => r matches Err(e) && e@ == "缺 --host\n"@ + usage_text(claude),
            Ok((Some(host), home, record)) => if host_named(claude, host) is None {
                r matches Err(e) && e@ == "不认识的宿主 "@ + host + "\n"@ + usage_text(claude)
            } else {
                &&& r matches Ok(a)
                &&& a.host@ == host
                &&& a.home@ == or_else(home, default_home@)
                &&& opt_text(a.record) == either(record, set_to(opt_str(env_record)))
            },
        },
{
    let ghost a = strs(argv@);
    let n: usize = argv.len();
    let mut host: Option<String> = None;
    let mut home: Option<String> = None;
    let mut record: Option<String> = None;
    let mut i: usize = 0;
    while i < n
        invariant
            a == strs(argv@),
            n == argv@.len(),
            i <= n,
            options_of(a, 0, None, None, None) == options_of(
                a,
                i as int,
                opt_text(host),
                opt_text(home),
                opt_text(record),
            ),
        decreases n - i,
    {
        proof {
            assert(a[i as int] == argv@[i as int]@);
            if i + 1 < n {
                assert(a[i + 1] == argv@[i + 1]@);
            }
        }
        let more: bool = n - i > 1;
        let next: Option<String> = if more {
            Some(argv[i + 1].to_owned())
        } else {
            None
        };
        let ghost nv = opt_text(next);
        let ghost (h0, m0, r0) = (opt_text(host), opt_text(home), opt_text(record));
        if same(argv[i], "--host") {
            host = next;
        } else if same(argv[i], "--home") {
            home = next;
        } else if same(argv[i], "--record") {
            record = next;
        } else {
            let mut why = text::cat3("未知参数 ", argv[i], "\n");
            text::push_str(&mut why, usage(claude).as_str());
            return Err(why);
        }
        proof {
            assert(options_of(a, i as int, h0, m0, r0) == options_of(
                a,
                i + 2,
                opt_text(host),
                opt_text(home),
                opt_text(record),
            ));
            if !more {
                assert(options_of(a, i + 2, opt_text(host), opt_text(home), opt_text(record))
                    == options_of(a, n as int, opt_text(host), opt_text(home), opt_text(record)));
            }
        }
        if more {
            i += 2;
        } else {
            i = n;
        }
    }
    let host = match host {
        Some(h) => h,
        None => {
            return Err(text::cat("缺 --host\n", usage(claude).as_str()));
        },
    };
    if for_host(claude, host.as_str()).is_none() {
        let mut why = text::cat3("不认识的宿主 ", host.as_str(), "\n");
        text::push_str(&mut why, usage(claude).as_str());
        return Err(why);
    }
    let home = match home {
        Some(h) => h,
        None => default_home.to_owned(),
    };
    let record = match record {
        Some(r) => Some(r),
        None => match env_record {
            Some(s) => if text::is_empty(s) {
                None
            } else {
                Some(s.to_owned())
            },
            None => None,
        },
    };
    Ok(Args { host, home, record })
}

/// The words that mark the name of a variable as that of a credential.
pub open spec fn secret_marks() -> Seq<Seq<char>> {
    seq!["TOKEN"@, "SECRET"@, "PASSWORD"@, "API_KEY"@, "CREDENTIAL"@]
}

/// Whether a variable's name says that it holds a credential.
pub open spec fn secret_name(name: Seq<char>) -> bool {
    exists|i: int|
        0 <= i < secret_marks().len() && occurs(ascii_upper(name), #[trigger] secret_marks()[i])
}

/// Whether a variable's name says that it holds a credential.
pub fn is_secret_name(name: &str) -> (r: bool)
    ensures
        r == secret_name(name@),
{
    let n = text::to_ascii_uppercase(name);
    proof {
        let m = secret_marks();
        assert(m[0] == "TOKEN"@ && m[1] == "SECRET"@ && m[2] == "PASSWORD"@ && m[3] == "API_KEY"@
            && m[4] == "CREDENTIAL"@);
    }
    text::contains(n.as_str(), "TOKEN") || text::contains(n.as_str(), "SECRET") || text::contains(
        n.as_str(),
        "PASSWORD",
    ) || text::contains(n.as_str(), "API_KEY") || text::contains(n.as_str(), "CREDENTIAL")
}

/// Whether a variable belongs to an agent.
pub open spec fn agents_own(name: Seq<char>) -> bool {
    begins(name, "CLAUDE_"@) || begins(name, "GROK_"@) || begins(name, "CODEX_"@)
}

/// The agent's own variables, without credentials.
pub open spec fn agent_variables(env: Seq<(Seq<char>, Seq<char>)>) -> Seq<(Seq<char>, Seq<char>)>
    decreases env.len(),
{
    if env.len() == 0 {
        env
    } else {
        let r = agent_variables(env.drop_last());
        if agents_own(env.last().0) && !secret_name(env.last().0) {
            r.push(env.last())
        } else {
            r
        }
    }
}

fn is_agents_own(name: &str) -> (r: bool)
    ensures
        r == agents_own(name@),
{
    let prefixes = agent_env_prefixes();
    proof {
        let p = strs(prefixes@);
        assert(p.len() == 3);
        assert(p[0] == prefixes@[0]@ && p[1] == prefixes@[1]@ && p[2] == prefixes@[2]@);
    }
    text::starts_with(name, prefixes[0]) || text::starts_with(name, prefixes[1])
        || text::starts_with(name, prefixes[2])
}

/// The agent's own variables, without credentials.
pub fn agent_env(env: &[(String, String)]) -> (out: Vec<(String, String)>)
    ensures
        pairs(out@) == agent_variables(pairs(env@)),
{
    let ghost all = pairs(env@);
    let mut out: Vec<(String, String)> = Vec::new();
    let mut i: usize = 0;
    proof {
        assert(all.take(0) =~= Seq::<(Seq<char>, Seq<char>)>::empty());
        assert(pairs(out@) =~= agent_variables(all.take(0)));
    }
    while i < env.len()
        invariant
            all == pairs(env@),
            i <= env@.len(),
            pairs(out@) == agent_variables(all.take(i as int)),
        decreases env@.len() - i,
    {
        proof {
            assert(all.take(i + 1).drop_last() =~= all.take(i as int));
            assert(all.take(i + 1).last() == (env@[i as int].0@, env@[i as int].1@));
        }
        if is_agents_own(env[i].0.as_str()) && !is_secret_name(env[i].0.as_str()) {
            let ghost was = pairs(out@);
            out.push((env[i].0.clone(), env[i].1.clone()));
            proof {
                assert(pairs(out@) =~= was.push((env@[i as int].0@, env@[i as int].1@)));
            }
        }
        i += 1;
    }
    proof {
        assert(all.take(i as int) =~= all);
    }
    out
}

/// No credential gets into an envelope.
pub proof fn lemma_no_credentials(env: Seq<(Seq<char>, Seq<char>)>)
    ensures
        forall|i: int|
            0 <= i < agent_variables(env).len() ==> !secret_name(
                (#[trigger] agent_variables(env)[i]).0,
            ),
    decreases env.len(),
{
    if env.len() > 0 {
        lemma_no_credentials(env.drop_last());
        let r = agent_variables(env.drop_last());
        assert forall|i: int| 0 <= i < agent_variables(env).len() implies !secret_name(
            (#[trigger] agent_variables(env)[i]).0,
        ) by {
            if i < r.len() {
                assert(agent_variables(env)[i] == r[i]);
            }
        }
    }
}

/// Of the variables named from `i` on those that are set.
pub open spec fn variables_named(
    env: Seq<(String, String)>,
    names: Seq<Seq<char>>,
    i: int,
) -> Seq<(Seq<char>, Seq<char>)>
    decreases names.len() - i,
{
    if i < 0 || i >= names.len() {
        Seq::empty()
    } else {
        let r = variables_named(env, names, i + 1);
        match variable(env, names[i]) {
            Some(v) => seq![(names[i], v)] + r,
            None => r,
        }
    }
}

fn pick_variables(env: &[(String, String)], names: &[&str]) -> (out: Vec<(String, String)>)
    ensures
        pairs(out@) == variables_named(env@, strs(names@), 0),
{
    let ghost ns = strs(names@);
    let mut out: Vec<(String, String)> = Vec::new();
    let mut i: usize = 0;
    proof {
        assert(pairs(out@) + variables_named(env@, ns, 0) =~= variables_named(env@, ns, 0));
    }
    while i < names.len()
        invariant
            ns == strs(names@),
            i <= names@.len(),
            variables_named(env@, ns, 0) == pairs(out@) + variables_named(env@, ns, i as int),
        decreases names@.len() - i,
    {
        proof {
            assert(ns[i as int] == names@[i as int]@);
        }
        let ghost was = pairs(out@);
        match find_variable(env, names[i]) {
            Some(v) => {
                out.push((names[i].to_owned(), v.to_owned()));
                proof {
                    assert(pairs(out@) =~= was.push((names@[i as int]@, v@)));
                    assert(was + (seq![(ns[i as int], v@)] + variables_named(env@, ns, i + 1))
                        =~= pairs(out@) + variables_named(env@, ns, i + 1));
                }
            },
            None => {},
        }
        i += 1;
    }
    proof {
        assert(pairs(out@) + variables_named(env@, ns, i as int) =~= pairs(out@));
    }
    out
}

/// The envelope of an event: what the hook's environment says of the session, the agent and the pane. A
/// variable named twice counts once.
pub open spec fn envelope_of(
    host: Host,
    payload: JsonView,
    env: Seq<(String, String)>,
    pane_vars: Seq<Seq<char>>,
    ppid: u32,
    received_at: Seq<char>,
    now_ms: u64,
) -> Cover {
    Cover {
        host: host.host_text(),
        agora_session_id: variable(env, "AGORA_SESSION_ID"@),
        agora_epoch: match variable(env, "AGORA_EPOCH"@) {
            Some(s) => match num::signed(s) {
                Some(n) => Some(n as i64),
                None => None,
            },
            None => None,
        },
        agent_session_id: or_else(host.conversation(payload), "unknown"@),
        agent_env: agent_variables(pairs(env)),
        runtime_env: variables_named(env, pane_vars, 0),
        ppid,
        received_at,
        received_unix_ms: now_ms,
    }
}

/// The envelope of an event.
pub fn envelope(
    host: Host,
    payload: &Json,
    env: &[(String, String)],
    pane_vars: &[&str],
    ppid: u32,
    received_at: &str,
    now_ms: u64,
) -> (r: Envelope)
    ensures
        r@ == envelope_of(host, payload@, env@, strs(pane_vars@), ppid, received_at@, now_ms),
{
    let agora_epoch: Option<i64> = match find_variable(env, "AGORA_EPOCH") {
        Some(s) => {
            let v = text::chars_of(s);
            num::parse_signed_chars(&v)
        },
        None => None,
    };
    let agent_session_id = match host.agent_session_id(payload) {
        Some(id) => id,
        None => "unknown".to_owned(),
    };
    Envelope {
        host: host.host().to_owned(),
        agora_session_id: text::owned_opt(find_variable(env, "AGORA_SESSION_ID")),
        agora_epoch,
        agent_session_id,
        agent_env: agent_env(env),
        runtime_env: pick_variables(env, pane_vars),
        ppid,
        received_at: received_at.to_owned(),
        received_unix_ms: now_ms,
    }
}

/// The text of bytes, with a mark in place of each run that is no text.
pub open spec fn lossy(bytes: Seq<u8>) -> Seq<char> {
    let d = decoded(bytes);
    if d.1.len() > 0 {
        d.0.push(REPLACEMENT)
    } else {
        d.0
    }
}

/// The text of bytes, with a mark in place of each run that is no text.
pub fn lossy_text(bytes: &[u8]) -> (out: String)
    ensures
        out@ == lossy(bytes@),
{
    let mut s = Utf8Stream::default();
    proof {
        assert(s@ + bytes@ =~= bytes@);
    }
    let mut out = s.push(bytes);
    if s.carry().len() > 0 {
        out.push(REPLACEMENT);
    }
    out
}

/// What the agent reported: the value of a JSON text, or any other text as a string.
pub open spec fn payload_view(raw: Seq<u8>) -> JsonView {
    match read_text(raw) {
        Some(v) => v,
        None => JsonView::Str(lossy(raw)),
    }
}

/// What the agent reported.
pub fn payload_of(raw: &[u8]) -> (r: Json)
    ensures
        r@ == payload_view(raw@),
{
    match codec::parse(raw) {
        Some(j) => j,
        None => Json::Str(lossy_text(raw)),
    }
}

/// How many seconds the hook waits for the daemon: for an event that is held longer than the daemon holds
/// it, so that the daemon gives up first.
pub fn wait_seconds(host: Host, payload: &Json) -> (r: u64)
    ensures
        r == (if host.holding(payload@) is Some {
            host.hold_seconds() + HOLD_MARGIN
        } else {
            ACK_TIMEOUT as int
        }),
{
    if host.hold_key(payload).is_some() {
        let t: u64 = host.hold_timeout();
        proof {
            assert(t == host.hold_seconds());
            assert(host.hold_seconds() <= 3300);
        }
        t + HOLD_MARGIN
    } else {
        ACK_TIMEOUT
    }
}

/// The variables that are passed on are the agent's own that hold no secret, all of them and no others.
pub proof fn lemma_which_variables_are_passed_on(
    env: Seq<(Seq<char>, Seq<char>)>,
    x: (Seq<char>, Seq<char>),
)
    ensures
        agent_variables(env).contains(x) <==> {
            &&& env.contains(x)
            &&& begins(x.0, "CLAUDE_"@) || begins(x.0, "CODEX_"@) || begins(x.0, "GROK_"@)
            &&& !occurs(ascii_upper(x.0), "TOKEN"@)
            &&& !occurs(ascii_upper(x.0), "SECRET"@)
            &&& !occurs(ascii_upper(x.0), "PASSWORD"@)
            &&& !occurs(ascii_upper(x.0), "API_KEY"@)
            &&& !occurs(ascii_upper(x.0), "CREDENTIAL"@)
        },
    decreases env.len(),
{
    let m = secret_marks();
    assert(m.len() == 5);
    assert(m[0] == "TOKEN"@ && m[1] == "SECRET"@ && m[2] == "PASSWORD"@ && m[3] == "API_KEY"@ && m[4]
        == "CREDENTIAL"@);
    if env.len() > 0 {
        let w = env.drop_last();
        lemma_which_variables_are_passed_on(w, x);
        assert(w.push(env.last()) =~= env);
        lemma_push_has(w, env.last(), x);
        lemma_push_has(agent_variables(w), env.last(), x);
    }
}

/// A variable that is asked for is passed on with its value where it is set, and left out where it is not.
pub proof fn lemma_named_variables(
    env: Seq<(String, String)>,
    names: Seq<Seq<char>>,
    i: int,
    x: (Seq<char>, Seq<char>),
)
    requires
        0 <= i <= names.len(),
    ensures
        variables_named(env, names, i).contains(x) <==> exists|k: int|
            i <= k < names.len() && (#[trigger] names[k]) == x.0 && variable(env, names[k]) == Some(x.1),
    decreases names.len() - i,
{
    if i < names.len() {
        lemma_named_variables(env, names, i + 1, x);
        let r = variables_named(env, names, i + 1);
        if let Some(v) = variable(env, names[i]) {
            let all = seq![(names[i], v)] + r;
            assert(all[0] == (names[i], v));
            if r.contains(x) {
                let k = r.index_of(x);
                assert(all[k + 1] == x);
            }
            if all.contains(x) {
                let k = all.index_of(x);
                if k > 0 {
                    assert(r[k - 1] == x);
                }
            }
        }
        if exists|k: int|
            i <= k < names.len() && (#[trigger] names[k]) == x.0 && variable(env, names[k]) == Some(x.1) {
            let k = choose|k: int|
                i <= k < names.len() && (#[trigger] names[k]) == x.0 && variable(env, names[k]) == Some(
                    x.1,
                );
            if k == i {
                assert(variables_named(env, names, i)[0] == x);
            }
        }
    }
}

/// The host and the home may stand in either order, and the file to record in may be left out; a word that is
/// no option is refused.
pub proof fn lemma_options(
    host: Seq<char>,
    home: Seq<char>,
    record: Seq<char>,
    word: Seq<char>,
)
    requires
        word != "--host"@ && word != "--home"@ && word != "--record"@,
    ensures
        options_of(seq!["--host"@, host, "--home"@, home], 0, None, None, None) == Ok::<
            (Option<Seq<char>>, Option<Seq<char>>, Option<Seq<char>>),
            Seq<char>,
        >((Some(host), Some(home), None)),
        options_of(seq!["--home"@, home, "--host"@, host], 0, None, None, None) == Ok::<
            (Option<Seq<char>>, Option<Seq<char>>, Option<Seq<char>>),
            Seq<char>,
        >((Some(host), Some(home), None)),
        options_of(
            seq!["--record"@, record, "--host"@, host, "--home"@, home],
            0,
            None,
            None,
            None,
        ) == Ok::<(Option<Seq<char>>, Option<Seq<char>>, Option<Seq<char>>), Seq<char>>(
            (Some(host), Some(home), Some(record)),
        ),
        options_of(seq!["--host"@, host, word], 0, None, None, None) == Err::<
            (Option<Seq<char>>, Option<Seq<char>>, Option<Seq<char>>),
            Seq<char>,
        >(word),
{
    reveal_strlit("--host");
    reveal_strlit("--home");
    reveal_strlit("--record");
    assert("--host"@.len() == 6 && "--host"@[4] == 's');
    assert("--home"@.len() == 6 && "--home"@[4] == 'm');
    assert("--record"@.len() == 8);
    reveal_with_fuel(options_of, 5);
}

/// What an agent wrote is taken as JSON where it is, and as the text that it is otherwise.
pub proof fn lemma_what_was_written(raw: Seq<u8>)
    ensures
        read_text(raw) matches Some(v) ==> payload_view(raw) == v,
        read_text(raw) is None && vstd::utf8::valid_utf8(raw) ==> payload_view(raw) == JsonView::Str(
            vstd::utf8::decode_utf8(raw),
        ),
{
    if vstd::utf8::valid_utf8(raw) {
        lemma_decoded_of_valid(raw);
    }
}

/// A report names the session that started the agent and the start that it was, where the environment does,
/// and the conversation that the agent names, or none.
pub proof fn lemma_what_a_report_names(
    host: Host,
    payload: JsonView,
    env: Seq<(String, String)>,
    panes: Seq<Seq<char>>,
    ppid: u32,
    at: Seq<char>,
    ms: u64,
    epoch: i64,
)
    ensures
        ({
            let c = envelope_of(host, payload, env, panes, ppid, at, ms);
            &&& c.agora_session_id == variable(env, "AGORA_SESSION_ID"@)
            &&& variable(env, "AGORA_EPOCH"@) == Some(num::decimal_int(epoch as int)) ==> c.agora_epoch
                == Some(epoch)
            &&& variable(env, "AGORA_EPOCH"@) is None ==> c.agora_epoch is None
            &&& host.conversation(payload) matches Some(id) ==> c.agent_session_id == id
            &&& host.conversation(payload) is None ==> c.agent_session_id == "unknown"@
            &&& c.host == host.host_text() && c.ppid == ppid && c.received_unix_ms == ms
        }),
{
    num::lemma_signed_reads_back(epoch);
}

/// A variable that is set to nothing counts as not set.
pub proof fn lemma_set_to(s: Seq<char>)
    ensures
        set_to(None) is None,
        set_to(Some(Seq::empty())) is None,
        s.len() > 0 ==> set_to(Some(s)) == Some(s),
{
}

} // verus!
