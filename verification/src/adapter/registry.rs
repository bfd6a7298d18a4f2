//! The agents that are built in.

use crate::adapter::claude::Claude;
use crate::adapter::codex::Codex;
use crate::adapter::grok::Grok;
use crate::adapter::hooks::{Answer, Decision, Release, Released};
use crate::adapter::shell::Shell;
use crate::adapter::{
    runs_one_of, AgentFallback, AgentHooks, AgentIdentity, Entry, HookInstall, ProbeRun, Probed,
    Version, VersionProbe,
};
use crate::json::{Json, JsonView};
use crate::status::{AgoraEvent, Detected, DetectionResult, Happening};
use crate::text::{self, strs, trimmed};
use vstd::prelude::*;

verus! {

/// An agent that is built in.
#[derive(Clone, Copy, Debug, PartialEq, Eq)]
pub enum Agent {
    Claude(Claude),
    Codex,
    Grok,
    Shell,
}

/// An agent that reports through hooks.
#[derive(Clone, Copy, Debug, PartialEq, Eq)]
pub enum Host {
    Claude(Claude),
    Codex,
    Grok,
}

/// The choice to give the command oneself: no adapter belongs to it.
pub const CUSTOM: &'static str = "custom";

/// The agents, in the order in which they are tried.
pub open spec fn all_of(claude: Claude) -> Seq<Agent> {
    seq![Agent::Claude(claude), Agent::Codex, Agent::Grok, Agent::Shell]
}

/// The agents, in the order in which they are tried.
pub fn adapters(claude: Claude) -> (r: [Agent; 4])
    ensures
        r@ == all_of(claude),
{
    let r = [Agent::Claude(claude), Agent::Codex, Agent::Grok, Agent::Shell];
    proof {
        assert(r@ =~= all_of(claude));
    }
    r
}

impl AgentIdentity for Agent {
    open spec fn label(&self) -> Seq<char> {
        match self {
            Agent::Claude(c) => c.label(),
            Agent::Codex => Codex.label(),
            Agent::Grok => Grok.label(),
            Agent::Shell => Shell.label(),
        }
    }

    open spec fn command_text(&self) -> Seq<char> {
        match self {
            Agent::Claude(c) => c.command_text(),
            Agent::Codex => Codex.command_text(),
            Agent::Grok => Grok.command_text(),
            Agent::Shell => Shell.command_text(),
        }
    }

    open spec fn programs(&self) -> Seq<Seq<char>> {
        match self {
            Agent::Claude(c) => c.programs(),
            Agent::Codex => Codex.programs(),
            Agent::Grok => Grok.programs(),
            Agent::Shell => Shell.programs(),
        }
    }

    open spec fn probed(&self, output: Seq<char>) -> Probed {
        match self {
            Agent::Claude(c) => c.probed(output),
            Agent::Codex => Codex.probed(output),
            Agent::Grok => Grok.probed(output),
            Agent::Shell => Shell.probed(output),
        }
    }

    open spec fn resuming(&self, v: Version, id: Seq<char>) -> Option<Seq<Seq<char>>> {
        match self {
            Agent::Claude(c) => c.resuming(v, id),
            Agent::Codex => Codex.resuming(v, id),
            Agent::Grok => Grok.resuming(v, id),
            Agent::Shell => Shell.resuming(v, id),
        }
    }

    open spec fn pinning(&self, v: Version, id: Seq<char>) -> Option<Seq<Seq<char>>> {
        match self {
            Agent::Claude(c) => c.pinning(v, id),
            Agent::Codex => Codex.pinning(v, id),
            Agent::Grok => Grok.pinning(v, id),
            Agent::Shell => Shell.pinning(v, id),
        }
    }

    open spec fn headless(&self, prompt: Seq<char>) -> Option<Seq<Seq<char>>> {
        match self {
            Agent::Claude(c) => c.headless(prompt),
            Agent::Codex => Codex.headless(prompt),
            Agent::Grok => Grok.headless(prompt),
            Agent::Shell => Shell.headless(prompt),
        }
    }

    open spec fn beginning(&self, prompt: Seq<char>) -> Option<Seq<Seq<char>>> {
        match self {
            Agent::Claude(c) => c.beginning(prompt),
            Agent::Codex => Codex.beginning(prompt),
            Agent::Grok => Grok.beginning(prompt),
            Agent::Shell => Shell.beginning(prompt),
        }
    }

    fn name(&self) -> (r: &'static str) {
        match self {
            Agent::Claude(c) => c.name(),
            Agent::Codex => Codex.name(),
            Agent::Grok => Grok.name(),
            Agent::Shell => Shell.name(),
        }
    }

    fn default_command(&self) -> (r: &'static str) {
        match self {
            Agent::Claude(c) => c.default_command(),
            Agent::Codex => Codex.default_command(),
            Agent::Grok => Grok.default_command(),
            Agent::Shell => Shell.default_command(),
        }
    }

    fn match_process(&self, argv: &[&str]) -> (r: bool) {
        match self {
            Agent::Claude(c) => c.match_process(argv),
            Agent::Codex => Codex.match_process(argv),
            Agent::Grok => Grok.match_process(argv),
            Agent::Shell => Shell.match_process(argv),
        }
    }

    fn version(&self, output: &str) -> (r: VersionProbe) {
        match self {
            Agent::Claude(c) => c.version(output),
            Agent::Codex => Codex.version(output),
            Agent::Grok => Grok.version(output),
            Agent::Shell => Shell.version(output),
        }
    }

    fn resume_args(&self, version: Version, agent_session_id: &str) -> (r: Option<Vec<String>>) {
        match self {
            Agent::Claude(c) => c.resume_args(version, agent_session_id),
            Agent::Codex => Codex.resume_args(version, agent_session_id),
            Agent::Grok => Grok.resume_args(version, agent_session_id),
            Agent::Shell => Shell.resume_args(version, agent_session_id),
        }
    }

    fn pin_args(&self, version: Version, new_id: &str) -> (r: Option<Vec<String>>) {
        match self {
            Agent::Claude(c) => c.pin_args(version, new_id),
            Agent::Codex => Codex.pin_args(version, new_id),
            Agent::Grok => Grok.pin_args(version, new_id),
            Agent::Shell => Shell.pin_args(version, new_id),
        }
    }

    fn headless_args(&self, prompt: &str) -> (r: Option<Vec<String>>) {
        match self {
            Agent::Claude(c) => c.headless_args(prompt),
            Agent::Codex => Codex.headless_args(prompt),
            Agent::Grok => Grok.headless_args(prompt),
            Agent::Shell => Shell.headless_args(prompt),
        }
    }

    fn initial_prompt_args(&self, prompt: &str) -> (r: Option<Vec<String>>) {
        match self {
            Agent::Claude(c) => c.initial_prompt_args(prompt),
            Agent::Codex => Codex.initial_prompt_args(prompt),
            Agent::Grok => Grok.initial_prompt_args(prompt),
            Agent::Shell => Shell.initial_prompt_args(prompt),
        }
    }
}

impl AgentFallback for Agent {
    open spec fn seen(&self, tail: Seq<Seq<char>>) -> Option<Detected> {
        None
    }

    fn detect(&self, tail: &[&str]) -> (r: Option<DetectionResult>) {
        match self {
            Agent::Claude(c) => c.detect(tail),
            Agent::Codex => Codex.detect(tail),
            Agent::Grok => Grok.detect(tail),
            Agent::Shell => Shell.detect(tail),
        }
    }
}

/// An agent: who it is, and through what it reports.
pub trait Adapter: AgentIdentity + AgentFallback {
    /// The host whose hooks it reports through.
    spec fn reports(&self) -> Option<Host>;

    fn hooks(&self) -> (r: Option<Host>)
        ensures
            r == self.reports(),
    ;
}

impl Adapter for Agent {
    open spec fn reports(&self) -> Option<Host> {
        match self {
            Agent::Claude(c) => Some(Host::Claude(*c)),
            Agent::Codex => Some(Host::Codex),
            Agent::Grok => Some(Host::Grok),
            Agent::Shell => None,
        }
    }

    fn hooks(&self) -> (r: Option<Host>) {
        match self {
            Agent::Claude(c) => Some(Host::Claude(*c)),
            Agent::Codex => Some(Host::Codex),
            Agent::Grok => Some(Host::Grok),
            Agent::Shell => None,
        }
    }
}

impl AgentHooks for Host {
    open spec fn host_text(&self) -> Seq<char> {
        match self {
            Host::Claude(c) => c.host_text(),
            Host::Codex => Codex.host_text(),
            Host::Grok => Grok.host_text(),
        }
    }

    open spec fn installs(&self) -> Seq<Entry> {
        match self {
            Host::Claude(c) => c.installs(),
            Host::Codex => Codex.installs(),
            Host::Grok => Grok.installs(),
        }
    }

    open spec fn via_hook(&self) -> bool {
        match self {
            Host::Claude(c) => c.via_hook(),
            Host::Codex => Codex.via_hook(),
            Host::Grok => Grok.via_hook(),
        }
    }

    open spec fn knows_env(&self, has_grok_session: bool) -> bool {
        match self {
            Host::Claude(c) => c.knows_env(has_grok_session),
            Host::Codex => Codex.knows_env(has_grok_session),
            Host::Grok => Grok.knows_env(has_grok_session),
        }
    }

    open spec fn conversation(&self, v: JsonView) -> Option<Seq<char>> {
        match self {
            Host::Claude(c) => c.conversation(v),
            Host::Codex => Codex.conversation(v),
            Host::Grok => Grok.conversation(v),
        }
    }

    open spec fn meaning(&self, v: JsonView) -> Seq<Happening> {
        match self {
            Host::Claude(c) => c.meaning(v),
            Host::Codex => Codex.meaning(v),
            Host::Grok => Grok.meaning(v),
        }
    }

    open spec fn holding(&self, v: JsonView) -> Option<Seq<char>> {
        match self {
            Host::Claude(c) => c.holding(v),
            Host::Codex => Codex.holding(v),
            Host::Grok => Grok.holding(v),
        }
    }

    open spec fn releasing(&self, v: JsonView) -> Released {
        match self {
            Host::Claude(c) => c.releasing(v),
            Host::Codex => Codex.releasing(v),
            Host::Grok => Grok.releasing(v),
        }
    }

    open spec fn output_of(&self, a: Answer) -> Option<Seq<char>> {
        match self {
            Host::Claude(c) => c.output_of(a),
            Host::Codex => Codex.output_of(a),
            Host::Grok => Grok.output_of(a),
        }
    }

    open spec fn directory(&self, v: JsonView) -> Option<Seq<char>> {
        match self {
            Host::Claude(c) => c.directory(v),
            Host::Codex => Codex.directory(v),
            Host::Grok => Grok.directory(v),
        }
    }

    open spec fn pid_of(&self, env: Seq<(String, String)>, ppid: int) -> Option<int> {
        match self {
            Host::Claude(c) => c.pid_of(env, ppid),
            Host::Codex => Codex.pid_of(env, ppid),
            Host::Grok => Grok.pid_of(env, ppid),
        }
    }

    open spec fn headless_start(&self, v: JsonView) -> bool {
        match self {
            Host::Claude(c) => c.headless_start(v),
            Host::Codex => Codex.headless_start(v),
            Host::Grok => Grok.headless_start(v),
        }
    }

    open spec fn hold_seconds(&self) -> int {
        match self {
            Host::Claude(c) => c.hold_seconds(),
            Host::Codex => Codex.hold_seconds(),
            Host::Grok => Grok.hold_seconds(),
        }
    }

    open spec fn hint(&self) -> Option<Seq<char>> {
        match self {
            Host::Claude(c) => c.hint(),
            Host::Codex => Codex.hint(),
            Host::Grok => Grok.hint(),
        }
    }

    fn host(&self) -> (r: &'static str) {
        match self {
            Host::Claude(c) => c.host(),
            Host::Codex => Codex.host(),
            Host::Grok => Grok.host(),
        }
    }

    fn install_spec(&self) -> (r: Vec<HookInstall>) {
        match self {
            Host::Claude(c) => c.install_spec(),
            Host::Codex => Codex.install_spec(),
            Host::Grok => Grok.install_spec(),
        }
    }

    fn decision_via_hook(&self) -> (r: bool) {
        match self {
            Host::Claude(c) => c.decision_via_hook(),
            Host::Codex => Codex.decision_via_hook(),
            Host::Grok => Grok.decision_via_hook(),
        }
    }

    fn host_matches_env(&self, has_grok_session: bool) -> (r: bool) {
        match self {
            Host::Claude(c) => c.host_matches_env(has_grok_session),
            Host::Codex => Codex.host_matches_env(has_grok_session),
            Host::Grok => Grok.host_matches_env(has_grok_session),
        }
    }

    fn agent_session_id(&self, payload: &Json) -> (r: Option<String>) {
        match self {
            Host::Claude(c) => c.agent_session_id(payload),
            Host::Codex => Codex.agent_session_id(payload),
            Host::Grok => Grok.agent_session_id(payload),
        }
    }

    fn parse(&self, payload: &Json) -> (r: Vec<AgoraEvent>) {
        match self {
            Host::Claude(c) => c.parse(payload),
            Host::Codex => Codex.parse(payload),
            Host::Grok => Grok.parse(payload),
        }
    }

    fn hold_key(&self, payload: &Json) -> (r: Option<String>) {
        match self {
            Host::Claude(c) => c.hold_key(payload),
            Host::Codex => Codex.hold_key(payload),
            Host::Grok => Grok.hold_key(payload),
        }
    }

    fn release_for(&self, payload: &Json) -> (r: Release) {
        match self {
            Host::Claude(c) => c.release_for(payload),
            Host::Codex => Codex.release_for(payload),
            Host::Grok => Grok.release_for(payload),
        }
    }

    fn decision_output(&self, decision: &Decision) -> (r: Option<String>) {
        match self {
            Host::Claude(c) => c.decision_output(decision),
            Host::Codex => Codex.decision_output(decision),
            Host::Grok => Grok.decision_output(decision),
        }
    }

    fn working_directory(&self, payload: &Json) -> (r: Option<String>) {
        match self {
            Host::Claude(c) => c.working_directory(payload),
            Host::Codex => Codex.working_directory(payload),
            Host::Grok => Grok.working_directory(payload),
        }
    }

    fn agent_pid(&self, env: &[(String, String)], ppid: u32) -> (r: Option<u32>) {
        match self {
            Host::Claude(c) => c.agent_pid(env, ppid),
            Host::Codex => Codex.agent_pid(env, ppid),
            Host::Grok => Grok.agent_pid(env, ppid),
        }
    }

    fn is_headless(&self, payload: &Json) -> (r: bool) {
        match self {
            Host::Claude(c) => c.is_headless(payload),
            Host::Codex => Codex.is_headless(payload),
            Host::Grok => Grok.is_headless(payload),
        }
    }

    fn hold_timeout(&self) -> (r: u64) {
        match self {
            Host::Claude(c) => c.hold_timeout(),
            Host::Codex => Codex.hold_timeout(),
            Host::Grok => Grok.hold_timeout(),
        }
    }

    fn install_hint(&self) -> (r: Option<String>) {
        match self {
            Host::Claude(c) => c.install_hint(),
            Host::Codex => Codex.install_hint(),
            Host::Grok => Grok.install_hint(),
        }
    }
}

/// The first of the agents from `i` on with the name `name`.
pub open spec fn named(claude: Claude, name: Seq<char>, i: int) -> Option<Agent>
    decreases 4 - i,
{
    if i < 0 || i >= 4 {
        None
    } else if all_of(claude)[i].label() == name {
        Some(all_of(claude)[i])
    } else {
        named(claude, name, i + 1)
    }
}

/// The agent with the name `name`.
pub fn find(claude: Claude, name: &str) -> (r: Option<Agent>)
    ensures
        r == named(claude, name@, 0),
{
    let all: [Agent; 4] = adapters(claude);
    let mut i: usize = 0;
    while i < 4
        invariant
            all@ == all_of(claude),
            i <= 4,
            named(claude, name@, 0) == named(claude, name@, i as int),
        decreases 4 - i,
    {
        if text::same(all[i].name(), name) {
            return Some(all[i]);
        }
        i += 1;
    }
    None
}

/// The first of the agents from `i` on that a command line runs.
pub open spec fn running(claude: Claude, argv: Seq<Seq<char>>, i: int) -> Option<Agent>
    decreases 4 - i,
{
    if i < 0 || i >= 4 {
        None
    } else if runs_one_of(argv, all_of(claude)[i].programs()) {
        Some(all_of(claude)[i])
    } else {
        running(claude, argv, i + 1)
    }
}

/// The agent that a command line runs.
pub fn identify(claude: Claude, argv: &[&str]) -> (r: Option<Agent>)
    ensures
        r == running(claude, strs(argv@), 0),
{
    let all: [Agent; 4] = adapters(claude);
    let mut i: usize = 0;
    while i < 4
        invariant
            all@ == all_of(claude),
            i <= 4,
            running(claude, strs(argv@), 0) == running(claude, strs(argv@), i as int),
        decreases 4 - i,
    {
        if all[i].match_process(argv) {
            return Some(all[i]);
        }
        i += 1;
    }
    None
}

/// Whether the agent with the name `agent_type` reports through hooks; one that is not known does
/// not.
pub fn has_hooks(claude: Claude, agent_type: &str) -> (r: bool)
    ensures
        r == match named(claude, agent_type@, 0) {
            Some(a) => a.reports() is Some,
            None => false,
        },
{
    match find(claude, agent_type) {
        Some(a) => a.hooks().is_some(),
        None => false,
    }
}

/// The names of the hosts.
pub open spec fn host_names(claude: Claude) -> Seq<Seq<char>> {
    seq![claude.name@, "codex"@, "grok"@]
}

/// The names of the hosts.
pub fn hosts(claude: Claude) -> (r: Vec<&'static str>)
    ensures
        strs(r@) == host_names(claude),
{
    let mut r: Vec<&'static str> = Vec::new();
    r.push(Host::Claude(claude).host());
    r.push(Host::Codex.host());
    r.push(Host::Grok.host());
    proof {
        assert(strs(r@) =~= host_names(claude));
    }
    r
}

/// The host with the name `host`.
pub open spec fn host_named(claude: Claude, host: Seq<char>) -> Option<Host> {
    if host == claude.name@ {
        Some(Host::Claude(claude))
    } else if host == "codex"@ {
        Some(Host::Codex)
    } else if host == "grok"@ {
        Some(Host::Grok)
    } else {
        None
    }
}

/// The host with the name `host`.
pub fn for_host(claude: Claude, host: &str) -> (r: Option<Host>)
    ensures
        r == host_named(claude, host@),
{
    if text::same(host, Host::Claude(claude).host()) {
        Some(Host::Claude(claude))
    } else if text::same(host, Host::Codex.host()) {
        Some(Host::Codex)
    } else if text::same(host, Host::Grok.host()) {
        Some(Host::Grok)
    } else {
        None
    }
}

/// What running `<command> --version` says of an agent.
pub fn probe(adapter: Agent, run: &ProbeRun) -> (r: VersionProbe)
    ensures
        r@ == match *run {
            ProbeRun::Succeeded(out) => adapter.probed(out@),
            ProbeRun::Refused(err) => Probed::Unparsable(trimmed(err@)),
            ProbeRun::NotFound => Probed::Missing,
            ProbeRun::TimedOut => Probed::Unparsable("--version timed out"@),
            ProbeRun::Failed(why) => Probed::Unparsable(why@),
        },
{
    match run {
        ProbeRun::Succeeded(out) => adapter.version(out.as_str()),
        ProbeRun::Refused(err) => VersionProbe::Unparsable(text::trim(err.as_str())),
        ProbeRun::NotFound => VersionProbe::Missing,
        ProbeRun::TimedOut => VersionProbe::Unparsable("--version timed out".to_owned()),
        ProbeRun::Failed(why) => VersionProbe::Unparsable(why.clone()),
    }
}

/// An agent is found under its own name, and under no other name.
pub proof fn lemma_agents_have_names(claude: Claude, name: Seq<char>, i: int)
    requires
        0 <= i <= 4,
    ensures
        match named(claude, name, i) {
            Some(a) => a.label() == name && all_of(claude).contains(a),
            None => forall|k: int| i <= k < 4 ==> (#[trigger] all_of(claude)[k]).label() != name,
        },
    decreases 4 - i,
{
    if i < 4 {
        lemma_agents_have_names(claude, name, i + 1);
        assert(all_of(claude).contains(all_of(claude)[i]));
    }
}

/// A host is found under its own name and under no other, and is the one that the agent of that name reports
/// through.
pub proof fn lemma_hosts_have_names(claude: Claude, host: Seq<char>)
    ensures
        host_named(claude, host) matches Some(h) ==> h.host_text() == host,
        host_named(claude, host) is Some <==> host_names(claude).contains(host),
        forall|a: Agent|
            (#[trigger] a.reports()) matches Some(h) ==> h.host_text() == a.label(),
        Agent::Shell.reports() is None,
{
    let n = host_names(claude);
    assert(n[0] == claude.name@ && n[1] == "codex"@ && n[2] == "grok"@);
}

/// A process is taken for an agent only where it runs one of that agent's programs.
pub proof fn lemma_which_agent_runs(claude: Claude, argv: Seq<Seq<char>>, i: int)
    requires
        0 <= i <= 4,
    ensures
        match running(claude, argv, i) {
            Some(a) => runs_one_of(argv, a.programs()),
            None => forall|k: int| i <= k < 4 ==> !runs_one_of(
                argv,
                (#[trigger] all_of(claude)[k]).programs(),
            ),
        },
    decreases 4 - i,
{
    if i < 4 {
        lemma_which_agent_runs(claude, argv, i + 1);
    }
}

/// What is asked of a host is answered by the host itself.
pub proof fn lemma_hosts_answer_for_themselves(c: Claude, v: JsonView, a: Answer)
    ensures
        Host::Claude(c).meaning(v) == c.meaning(v),
        Host::Codex.meaning(v) == Codex.meaning(v),
        Host::Grok.meaning(v) == Seq::<Happening>::empty(),
        Host::Claude(c).holding(v) == c.holding(v),
        Host::Codex.holding(v) == Codex.holding(v),
        Host::Claude(c).releasing(v) == c.releasing(v),
        Host::Codex.releasing(v) == Codex.releasing(v),
        Host::Claude(c).output_of(a) == c.output_of(a),
        Host::Codex.output_of(a) == Codex.output_of(a),
        Host::Grok.output_of(a) is None,
        Host::Claude(c).conversation(v) == c.conversation(v),
        Host::Codex.conversation(v) == Codex.conversation(v),
        Host::Claude(c).headless_start(v) == c.headless_start(v),
        Host::Codex.headless_start(v) == Codex.headless_start(v),
        Host::Claude(c).hold_seconds() == c.hold_seconds(),
        Host::Codex.hold_seconds() == Codex.hold_seconds(),
{
}

/// What is asked of an agent is answered by the agent itself; a shell takes up no conversation, and is given
/// no prompt.
pub proof fn lemma_agents_answer_for_themselves(c: Claude, v: Version, s: Seq<char>)
    ensures
        Agent::Claude(c).label() == c.label() && Agent::Codex.label() == "codex"@ && Agent::Grok.label()
            == "grok"@ && Agent::Shell.label() == "shell"@,
        Agent::Claude(c).resuming(v, s) == c.resuming(v, s),
        Agent::Codex.resuming(v, s) == Codex.resuming(v, s),
        Agent::Grok.resuming(v, s) is None && Agent::Shell.resuming(v, s) is None,
        Agent::Claude(c).pinning(v, s) == c.pinning(v, s),
        Agent::Codex.pinning(v, s) is None && Agent::Grok.pinning(v, s) is None
            && Agent::Shell.pinning(v, s) is None,
        Agent::Claude(c).headless(s) == c.headless(s) && Agent::Codex.headless(s) == Codex.headless(s),
        Agent::Grok.headless(s) is None && Agent::Shell.headless(s) is None,
        Agent::Claude(c).beginning(s) == c.beginning(s) && Agent::Codex.beginning(s) == Codex.beginning(s),
        Agent::Grok.beginning(s) is None && Agent::Shell.beginning(s) is None,
        Agent::Claude(c).probed(s) == c.probed(s) && Agent::Codex.probed(s) == Codex.probed(s)
            && Agent::Grok.probed(s) == Grok.probed(s),
        Agent::Claude(c).programs() == c.programs() && Agent::Codex.programs() == Codex.programs()
            && Agent::Grok.programs() == Grok.programs() && Agent::Shell.programs() == Shell.programs(),
{
}

} // verus!
