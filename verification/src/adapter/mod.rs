//! Adapters: everything that is particular to one agent.
//!
//! An agent has an identity ([`AgentIdentity`]), may report through hooks ([`AgentHooks`]) and may be
//! read off its screen ([`AgentFallback`]). The rest of the crate knows agents only through these.

pub mod claude;
pub mod codex;
pub mod grok;
pub mod hooks;
pub mod registry;
pub mod replay;
pub mod resume;
pub mod scrub;
pub mod shell;
pub mod text;

pub use hooks::{Decision, Release};
pub use registry::{
    adapters, find, for_host, has_hooks, hosts, identify, probe, Adapter, Agent, Host, CUSTOM,
};
pub use resume::{plan_pin, plan_restart, RestartPlan};

use crate::adapter::hooks::{Answer, Released};
use crate::json::{Json, JsonView};
use crate::num;
use crate::status::{happenings, AgoraEvent, Detected, DetectionResult, Happening};
use crate::text::{chars_of, opt_text, same, split, strs, texts, trimmed, words};
use vstd::prelude::*;

verus! {

/// A version `x.y.z`.
#[derive(Clone, Copy, Debug, PartialEq, Eq, PartialOrd, Ord, Structural)]
pub struct Version(pub u32, pub u32, pub u32);

/// `s` with blanks in place of round brackets.
pub open spec fn without_brackets(s: Seq<char>) -> Seq<char> {
    s.map_values(
        |c: char|
            if c == '(' || c == ')' {
                ' '
            } else {
                c
            },
    )
}

/// The version that a word is: three numbers with points between them.
pub open spec fn version_of(word: Seq<char>) -> Option<Version> {
    let p = split(word, '.');
    if p.len() == 3 {
        match (
            num::unsigned(p[0], u32::MAX as nat),
            num::unsigned(p[1], u32::MAX as nat),
            num::unsigned(p[2], u32::MAX as nat),
        ) {
            (Some(a), Some(b), Some(c)) => Some(Version(a as u32, b as u32, c as u32)),
            _ => None,
        }
    } else {
        None
    }
}

/// The first of the words from `i` on that is a version.
pub open spec fn first_version(ws: Seq<Seq<char>>, i: int) -> Option<Version>
    decreases ws.len() - i,
{
    if i < 0 || i >= ws.len() {
        None
    } else {
        match version_of(ws[i]) {
            Some(v) => Some(v),
            None => first_version(ws, i + 1),
        }
    }
}

/// The first version in a text.
pub open spec fn version_in(s: Seq<char>) -> Option<Version> {
    first_version(words(without_brackets(s)), 0)
}

fn read_version(word: &str) -> (r: Option<Version>)
    ensures
        r == version_of(word@),
{
    let p = crate::text::split_char(word, '.');
    proof {
        assert(texts(p@).len() == p@.len());
    }
    if p.len() != 3 {
        return None;
    }
    proof {
        assert(texts(p@)[0] == p@[0]@ && texts(p@)[1] == p@[1]@ && texts(p@)[2] == p@[2]@);
    }
    match (
        num::parse_unsigned(p[0].as_str(), 0xffff_ffff),
        num::parse_unsigned(p[1].as_str(), 0xffff_ffff),
        num::parse_unsigned(p[2].as_str(), 0xffff_ffff),
    ) {
        (Some(a), Some(b), Some(c)) => Some(Version(a as u32, b as u32, c as u32)),
        _ => None,
    }
}

impl Version {
    /// The first version in a text.
    pub fn find_in(s: &str) -> (r: Option<Version>)
        ensures
            r == version_in(s@),
    {
        let v = chars_of(s);
        let mut plain: Vec<char> = Vec::new();
        let mut i: usize = 0;
        while i < v.len()
            invariant
                v@ == s@,
                i <= v@.len(),
                plain@ == without_brackets(s@).take(i as int),
            decreases v@.len() - i,
        {
            let c: char = if v[i] == '(' || v[i] == ')' {
                ' '
            } else {
                v[i]
            };
            plain.push(c);
            proof {
                assert(without_brackets(s@).take(i + 1) =~= without_brackets(s@).take(
                    i as int,
                ).push(c));
            }
            i += 1;
        }
        proof {
            assert(without_brackets(s@).take(i as int) =~= without_brackets(s@));
        }
        let line = crate::text::string_of(&plain);
        let ws = crate::text::split_whitespace(line.as_str());
        let ghost w = texts(ws@);
        let mut k: usize = 0;
        while k < ws.len()
            invariant
                w == texts(ws@),
                w == words(without_brackets(s@)),
                k <= ws@.len(),
                first_version(w, 0) == first_version(w, k as int),
            decreases ws@.len() - k,
        {
            proof {
                assert(w[k as int] == ws@[k as int]@);
            }
            match read_version(ws[k].as_str()) {
                Some(v) => {
                    return Some(v);
                },
                None => {},
            }
            k += 1;
        }
        None
    }

    /// The text of the version.
    pub open spec fn spelled(self) -> Seq<char> {
        num::decimal(self.0 as nat) + seq!['.'] + num::decimal(self.1 as nat) + seq!['.']
            + num::decimal(self.2 as nat)
    }

    /// The text of the version.
    pub fn to_text(&self) -> (out: String)
        ensures
            out@ == self.spelled(),
    {
        let mut out = num::to_decimal(self.0 as u64);
        out.push('.');
        crate::text::push_str(&mut out, num::to_decimal(self.1 as u64).as_str());
        out.push('.');
        crate::text::push_str(&mut out, num::to_decimal(self.2 as u64).as_str());
        proof {
            assert(out@ =~= self.spelled());
        }
        out
    }

    /// Whether the version is `min` or a later one.
    pub open spec fn reaches(self, min: Version) -> bool {
        self.0 > min.0 || (self.0 == min.0 && (self.1 > min.1 || (self.1 == min.1 && self.2
            >= min.2)))
    }

    /// Whether the version is `min` or a later one.
    pub fn at_least(&self, min: Version) -> (r: bool)
        ensures
            r == self.reaches(min),
    {
        self.0 > min.0 || (self.0 == min.0 && (self.1 > min.1 || (self.1 == min.1 && self.2
            >= min.2)))
    }
}

/// What asking a command for its version came to.
#[derive(Debug, PartialEq, Eq)]
pub enum VersionProbe {
    Available(Version),
    /// The command is there, but what it says is not what the adapter knows, or its version is older
    /// than any that the adapter knows.
    Unparsable(String),
    Missing,
}

/// The model of a [`VersionProbe`].
pub enum Probed {
    Available(Version),
    Unparsable(Seq<char>),
    Missing,
}

impl View for VersionProbe {
    type V = Probed;

    open spec fn view(&self) -> Probed {
        match self {
            VersionProbe::Available(v) => Probed::Available(*v),
            VersionProbe::Unparsable(s) => Probed::Unparsable(s@),
            VersionProbe::Missing => Probed::Missing,
        }
    }
}

/// The texts of an optional list of strings.
pub open spec fn opt_texts(o: Option<Vec<String>>) -> Option<Seq<Seq<char>>> {
    match o {
        Some(v) => Some(texts(v@)),
        None => None,
    }
}

/// What a version table answers for an agent whose first known version is `min`: a text without
/// `mark` is not that agent's.
pub open spec fn probed_from(output: Seq<char>, mark: Seq<char>, min: Version) -> Probed {
    let t = trimmed(output);
    if !crate::text::occurs(t, mark) {
        Probed::Unparsable(t)
    } else {
        match version_in(t) {
            Some(v) => if v.reaches(min) {
                Probed::Available(v)
            } else {
                Probed::Unparsable(
                    v.spelled() + " 低于版本表首项 "@ + min.spelled() + "，能力未验证"@,
                )
            },
            None => Probed::Unparsable(t),
        }
    }
}

/// What a version table answers for an agent whose first known version is `min`.
pub fn probe_from(output: &str, mark: &str, min: Version) -> (r: VersionProbe)
    ensures
        r@ == probed_from(output@, mark@, min),
{
    let t = crate::text::trim(output);
    if !crate::text::contains(t.as_str(), mark) {
        return VersionProbe::Unparsable(t);
    }
    match Version::find_in(t.as_str()) {
        Some(v) => if v.at_least(min) {
            VersionProbe::Available(v)
        } else {
            let mut s = v.to_text();
            crate::text::push_str(&mut s, " 低于版本表首项 ");
            crate::text::push_str(&mut s, min.to_text().as_str());
            crate::text::push_str(&mut s, "，能力未验证");
            VersionProbe::Unparsable(s)
        },
        None => VersionProbe::Unparsable(t),
    }
}

/// A list of two strings.
pub fn pair(a: &str, b: &str) -> (v: Vec<String>)
    ensures
        texts(v@) == seq![a@, b@],
{
    let mut v: Vec<String> = Vec::new();
    v.push(a.to_owned());
    v.push(b.to_owned());
    proof {
        assert(texts(v@) =~= seq![a@, b@]);
    }
    v
}

/// Who an agent is and how it is started.
pub trait AgentIdentity {
    /// The name of the agent.
    spec fn label(&self) -> Seq<char>;

    /// The command that starts it.
    spec fn command_text(&self) -> Seq<char>;

    /// The programs that are it.
    spec fn programs(&self) -> Seq<Seq<char>>;

    /// What it makes of the output of its command with `--version`.
    spec fn probed(&self, output: Seq<char>) -> Probed;

    /// The arguments that take up the conversation `id`.
    spec fn resuming(&self, v: Version, id: Seq<char>) -> Option<Seq<Seq<char>>>;

    /// The arguments that give a new conversation the id `id`.
    spec fn pinning(&self, v: Version, id: Seq<char>) -> Option<Seq<Seq<char>>>;

    /// The arguments that answer one prompt and end.
    spec fn headless(&self, prompt: Seq<char>) -> Option<Seq<Seq<char>>>;

    /// The arguments that begin a conversation with a prompt.
    spec fn beginning(&self, prompt: Seq<char>) -> Option<Seq<Seq<char>>>;

    fn name(&self) -> (r: &'static str)
        ensures
            r@ == self.label(),
    ;

    fn default_command(&self) -> (r: &'static str)
        ensures
            r@ == self.command_text(),
    ;

    fn match_process(&self, argv: &[&str]) -> (r: bool)
        ensures
            r == runs_one_of(strs(argv@), self.programs()),
    ;

    fn version(&self, output: &str) -> (r: VersionProbe)
        ensures
            r@ == self.probed(output@),
    ;

    fn resume_args(&self, version: Version, agent_session_id: &str) -> (r: Option<Vec<String>>)
        ensures
            opt_texts(r) == self.resuming(version, agent_session_id@),
    ;

    fn pin_args(&self, version: Version, new_id: &str) -> (r: Option<Vec<String>>)
        ensures
            opt_texts(r) == self.pinning(version, new_id@),
    ;

    fn headless_args(&self, prompt: &str) -> (r: Option<Vec<String>>)
        ensures
            opt_texts(r) == self.headless(prompt@),
    ;

    fn initial_prompt_args(&self, prompt: &str) -> (r: Option<Vec<String>>)
        ensures
            opt_texts(r) == self.beginning(prompt@),
    ;
}

/// One hook to be entered in an agent's configuration: the file under the user's home directory, the
/// event, what it is matched with, and how many seconds the hook is given.
#[derive(Debug, PartialEq, Eq)]
pub struct HookInstall {
    pub file: String,
    pub event: String,
    pub matcher: Option<String>,
    pub timeout: u64,
}

/// The model of a [`HookInstall`].
pub struct Entry {
    pub file: Seq<char>,
    pub event: Seq<char>,
    pub matcher: Option<Seq<char>>,
    pub timeout: int,
}

impl View for HookInstall {
    type V = Entry;

    open spec fn view(&self) -> Entry {
        Entry {
            file: self.file@,
            event: self.event@,
            matcher: opt_text(self.matcher),
            timeout: self.timeout as int,
        }
    }
}

/// The models of a list of hooks.
pub open spec fn entries(v: Seq<HookInstall>) -> Seq<Entry> {
    v.map_values(|h: HookInstall| h@)
}

/// The value of the variable `k` in an environment.
pub open spec fn variable(env: Seq<(String, String)>, k: Seq<char>) -> Option<Seq<char>>
    decreases env.len(),
{
    if env.len() == 0 {
        None
    } else if env[0].0@ == k {
        Some(env[0].1@)
    } else {
        variable(env.skip(1), k)
    }
}

/// The value of the variable `k` in an environment.
pub fn find_variable<'a>(env: &'a [(String, String)], k: &str) -> (r: Option<&'a str>)
    ensures
        crate::text::opt_str(r) == variable(env@, k@),
{
    let mut i: usize = 0;
    proof {
        assert(env@.skip(0) =~= env@);
    }
    while i < env.len()
        invariant
            i <= env@.len(),
            variable(env@, k@) == variable(env@.skip(i as int), k@),
        decreases env@.len() - i,
    {
        if same(env[i].0.as_str(), k) {
            return Some(env[i].1.as_str());
        }
        proof {
            assert(env@.skip(i as int).skip(1) =~= env@.skip(i + 1));
        }
        i += 1;
    }
    None
}

/// A number that is optional.
pub open spec fn opt_int(o: Option<u32>) -> Option<int> {
    match o {
        Some(n) => Some(n as int),
        None => None,
    }
}

/// What an agent reports through hooks.
pub trait AgentHooks {
    /// The name of the host.
    spec fn host_text(&self) -> Seq<char>;

    /// The hooks to be installed.
    spec fn installs(&self) -> Seq<Entry>;

    /// Whether the host takes an answer from a hook.
    spec fn via_hook(&self) -> bool;

    /// Whether the host is the one that runs the hook.
    spec fn knows_env(&self, has_grok_session: bool) -> bool;

    /// The conversation that an event names.
    spec fn conversation(&self, v: JsonView) -> Option<Seq<char>>;

    /// What an event means.
    spec fn meaning(&self, v: JsonView) -> Seq<Happening>;

    /// The key that an event asks to be held under.
    spec fn holding(&self, v: JsonView) -> Option<Seq<char>>;

    /// What an event releases.
    spec fn releasing(&self, v: JsonView) -> Released;

    /// What a hook writes as an answer.
    spec fn output_of(&self, a: Answer) -> Option<Seq<char>>;

    /// The working directory that an event names.
    spec fn directory(&self, v: JsonView) -> Option<Seq<char>>;

    /// The process of the agent.
    spec fn pid_of(&self, env: Seq<(String, String)>, ppid: int) -> Option<int>;

    /// Whether an event begins a session that answers one prompt and ends.
    spec fn headless_start(&self, v: JsonView) -> bool;

    /// How many seconds a request is held.
    spec fn hold_seconds(&self) -> int;

    /// What the user still has to do after the installation.
    spec fn hint(&self) -> Option<Seq<char>>;

    fn host(&self) -> (r: &'static str)
        ensures
            r@ == self.host_text(),
    ;

    fn install_spec(&self) -> (r: Vec<HookInstall>)
        ensures
            entries(r@) == self.installs(),
    ;

    fn decision_via_hook(&self) -> (r: bool)
        ensures
            r == self.via_hook(),
    ;

    fn host_matches_env(&self, has_grok_session: bool) -> (r: bool)
        ensures
            r == self.knows_env(has_grok_session),
    ;

    fn agent_session_id(&self, payload: &Json) -> (r: Option<String>)
        ensures
            opt_text(r) == self.conversation(payload@),
    ;

    fn parse(&self, payload: &Json) -> (r: Vec<AgoraEvent>)
        ensures
            happenings(r@) == self.meaning(payload@),
    ;

    fn hold_key(&self, payload: &Json) -> (r: Option<String>)
        ensures
            opt_text(r) == self.holding(payload@),
    ;

    fn release_for(&self, payload: &Json) -> (r: Release)
        ensures
            r@ == self.releasing(payload@),
    ;

    fn decision_output(&self, decision: &Decision) -> (r: Option<String>)
        ensures
            opt_text(r) == self.output_of(decision@),
    ;

    fn working_directory(&self, payload: &Json) -> (r: Option<String>)
        ensures
            opt_text(r) == self.directory(payload@),
    ;

    fn agent_pid(&self, env: &[(String, String)], ppid: u32) -> (r: Option<u32>)
        ensures
            opt_int(r) == self.pid_of(env@, ppid as int),
    ;

    fn is_headless(&self, payload: &Json) -> (r: bool)
        ensures
            r == self.headless_start(payload@),
    ;

    fn hold_timeout(&self) -> (r: u64)
        ensures
            r == self.hold_seconds(),
    ;

    fn install_hint(&self) -> (r: Option<String>)
        ensures
            opt_text(r) == self.hint(),
    ;
}

/// What an agent's screen says.
pub trait AgentFallback {
    /// What the last lines of the screen say.
    spec fn seen(&self, tail: Seq<Seq<char>>) -> Option<Detected>;

    fn detect(&self, tail: &[&str]) -> (r: Option<DetectionResult>)
        ensures
            match r {
                Some(d) => self.seen(strs(tail@)) == Some(d@),
                None => self.seen(strs(tail@)) is None,
            },
    ;
}

/// The parts of a path that name something: not the empty ones and not `.`.
pub open spec fn path_parts(p: Seq<Seq<char>>) -> Seq<Seq<char>>
    decreases p.len(),
{
    if p.len() == 0 {
        p
    } else {
        let r = path_parts(p.drop_last());
        if p.last().len() == 0 || p.last() == seq!['.'] {
            r
        } else {
            r.push(p.last())
        }
    }
}

/// The last part of a path, or the whole of a path that ends in none.
pub open spec fn base_of(program: Seq<char>) -> Seq<char> {
    let p = path_parts(split(program, '/'));
    if p.len() == 0 || p.last() == seq!['.', '.'] {
        program
    } else {
        p.last()
    }
}

/// The last part of a path, or the whole of a path that ends in none.
pub fn basename(program: &str) -> (out: String)
    ensures
        out@ == base_of(program@),
{
    let p = crate::text::split_char(program, '/');
    let ghost t = texts(p@);
    let mut last: Option<String> = None;
    let mut i: usize = 0;
    proof {
        reveal_strlit(".");
        reveal_strlit("..");
        assert("."@ =~= seq!['.']);
        assert(".."@ =~= seq!['.', '.']);
        assert(t.take(0) =~= Seq::<Seq<char>>::empty());
    }
    while i < p.len()
        invariant
            t == texts(p@),
            "."@ == seq!['.'],
            i <= p@.len(),
            opt_text(last) == (if path_parts(t.take(i as int)).len() == 0 {
                None
            } else {
                Some(path_parts(t.take(i as int)).last())
            }),
        decreases p@.len() - i,
    {
        proof {
            assert(t.take(i + 1).drop_last() =~= t.take(i as int));
            assert(t.take(i + 1).last() == p@[i as int]@);
        }
        if !crate::text::is_empty(p[i].as_str()) && !same(p[i].as_str(), ".") {
            last = Some(p[i].clone());
        }
        i += 1;
    }
    proof {
        assert(t.take(i as int) =~= t);
    }
    match last {
        Some(s) => if same(s.as_str(), "..") {
            program.to_owned()
        } else {
            s
        },
        None => program.to_owned(),
    }
}

/// The programs that run a command given as one argument.
pub open spec fn shells() -> Seq<Seq<char>> {
    seq!["sh"@, "bash"@, "zsh"@, "fish"@, "dash"@, "ksh"@]
}

fn is_shell(program: &str) -> (r: bool)
    ensures
        r == shells().contains(program@),
{
    proof {
        let s = shells();
        assert(s[0] == "sh"@ && s[1] == "bash"@ && s[2] == "zsh"@ && s[3] == "fish"@ && s[4]
            == "dash"@ && s[5] == "ksh"@);
    }
    same(program, "sh") || same(program, "bash") || same(program, "zsh") || same(program, "fish")
        || same(program, "dash") || same(program, "ksh")
}

/// Where the first `-c` stands among the arguments from `i` on.
pub open spec fn dash_c(argv: Seq<Seq<char>>, i: int) -> int
    decreases argv.len() - i,
{
    if i < 0 || i >= argv.len() || argv[i] == "-c"@ {
        i
    } else {
        dash_c(argv, i + 1)
    }
}

/// The command that a shell was given with `-c`, as words; any other command as it is.
pub open spec fn unwrapped(argv: Seq<Seq<char>>) -> Seq<Seq<char>> {
    if argv.len() > 0 && shells().contains(base_of(argv[0])) && dash_c(argv, 0) + 1 < argv.len() {
        words(argv[dash_c(argv, 0) + 1])
    } else {
        argv
    }
}

/// The command that a shell was given with `-c`, as words; any other command as it is.
pub fn unwrap_shell_c(argv: &[&str]) -> (out: Vec<String>)
    ensures
        texts(out@) == unwrapped(strs(argv@)),
{
    let ghost a = strs(argv@);
    if argv.len() > 0 {
        proof {
            assert(a[0] == argv@[0]@);
        }
        let base = basename(argv[0]);
        if is_shell(base.as_str()) {
            let mut i: usize = 0;
            while i < argv.len()
                invariant
                    a == strs(argv@),
                    i <= argv@.len(),
                    dash_c(a, 0) == dash_c(a, i as int),
                    argv@.len() > 0,
                    shells().contains(base_of(a[0])),
                decreases argv@.len() - i,
            {
                proof {
                    assert(a[i as int] == argv@[i as int]@);
                }
                if same(argv[i], "-c") {
                    if i + 1 < argv.len() {
                        proof {
                            assert(a[i + 1] == argv@[i + 1]@);
                        }
                        return crate::text::split_whitespace(argv[i + 1]);
                    }
                    return owned(argv);
                }
                i += 1;
            }
        }
    }
    owned(argv)
}

/// A copy of a list of borrowed strings.
pub fn owned(v: &[&str]) -> (out: Vec<String>)
    ensures
        texts(out@) == strs(v@),
{
    let mut out: Vec<String> = Vec::new();
    let mut i: usize = 0;
    while i < v.len()
        invariant
            i <= v@.len(),
            texts(out@) == strs(v@).take(i as int),
        decreases v@.len() - i,
    {
        let ghost was = texts(out@);
        out.push(v[i].to_owned());
        proof {
            assert(texts(out@) =~= was.push(v@[i as int]@));
            assert(strs(v@).take(i + 1) =~= was.push(v@[i as int]@));
        }
        i += 1;
    }
    proof {
        assert(strs(v@).take(i as int) =~= strs(v@));
    }
    out
}

/// Whether a command line runs one of `programs`: the path of the program does not count, nor does
/// what the arguments mention.
pub open spec fn runs_one_of(argv: Seq<Seq<char>>, programs: Seq<Seq<char>>) -> bool {
    let a = unwrapped(argv);
    a.len() > 0 && programs.contains(base_of(a[0]))
}

/// Whether a command line runs one of `programs`.
pub fn program_is(argv: &[&str], programs: &[&str]) -> (r: bool)
    ensures
        r == runs_one_of(strs(argv@), strs(programs@)),
{
    let a = unwrap_shell_c(argv);
    proof {
        assert(texts(a@).len() == a@.len());
    }
    if a.len() == 0 {
        return false;
    }
    proof {
        assert(texts(a@)[0] == a@[0]@);
    }
    let base = basename(a[0].as_str());
    let mut i: usize = 0;
    while i < programs.len()
        invariant
            i <= programs@.len(),
            unwrapped(strs(argv@)).len() > 0,
            base@ == base_of(unwrapped(strs(argv@))[0]),
            forall|k: int| 0 <= k < i ==> #[trigger] strs(programs@)[k] != base@,
        decreases programs@.len() - i,
    {
        if same(base.as_str(), programs[i]) {
            proof {
                assert(strs(programs@)[i as int] == base@);
            }
            return true;
        }
        i += 1;
    }
    false
}

/// What running a command with `--version` came to.
#[derive(Debug, PartialEq, Eq)]
pub enum ProbeRun {
    /// It succeeded, with this output.
    Succeeded(String),
    /// It failed, and this is the end of what it said.
    Refused(String),
    /// There is no such command.
    NotFound,
    TimedOut,
    /// It could not be run, for this reason.
    Failed(String),
}

/// A variable has the value that it is first given, and none where it is not given at all.
pub proof fn lemma_variable(env: Seq<(String, String)>, k: Seq<char>)
    ensures
        match variable(env, k) {
            Some(x) => exists|i: int|
                {
                    &&& 0 <= i < env.len()
                    &&& (#[trigger] env[i]).0@ == k
                    &&& env[i].1@ == x
                    &&& forall|j: int| 0 <= j < i ==> (#[trigger] env[j]).0@ != k
                },
            None => forall|i: int| 0 <= i < env.len() ==> (#[trigger] env[i]).0@ != k,
        },
    decreases env.len(),
{
    if env.len() > 0 && env[0].0@ != k {
        let rest = env.skip(1);
        lemma_variable(rest, k);
        match variable(rest, k) {
            Some(x) => {
                let i = choose|i: int|
                    {
                        &&& 0 <= i < rest.len()
                        &&& (#[trigger] rest[i]).0@ == k
                        &&& rest[i].1@ == x
                        &&& forall|j: int| 0 <= j < i ==> (#[trigger] rest[j]).0@ != k
                    };
                assert(env[i + 1] == rest[i]);
                assert forall|j: int| 0 <= j < i + 1 implies (#[trigger] env[j]).0@ != k by {
                    if j > 0 {
                        assert(env[j] == rest[j - 1]);
                    }
                }
            },
            None => {
                assert forall|j: int| 0 <= j < env.len() implies (#[trigger] env[j]).0@ != k by {
                    if j > 0 {
                        assert(env[j] == rest[j - 1]);
                    }
                }
            },
        }
    }
}

/// A version that is written out reads back as itself.
pub proof fn lemma_version_reads_back(v: Version)
    ensures
        version_of(v.spelled()) == Some(v),
{
    let a = num::decimal(v.0 as nat);
    let b = num::decimal(v.1 as nat);
    let c = num::decimal(v.2 as nat);
    lemma_part_reads_back(v.0);
    lemma_part_reads_back(v.1);
    lemma_part_reads_back(v.2);
    crate::text::lemma_split_joined(a + seq!['.'] + b, '.', c);
    crate::text::lemma_split_joined(a, '.', b);
    crate::text::lemma_split_whole(a, '.');
    crate::text::lemma_split_whole(b, '.');
    crate::text::lemma_split_whole(c, '.');
    assert(split(v.spelled(), '.') =~= seq![a, b, c]);
}

proof fn lemma_part_reads_back(n: u32)
    ensures
        num::unsigned(num::decimal(n as nat), u32::MAX as nat) == Some(n as nat),
        !num::decimal(n as nat).contains('.'),
{
    let d = num::decimal(n as nat);
    num::lemma_decimal(n as nat);
    assert(num::digit(d[0]));
    assert(num::without_plus(d) == d);
    if d.contains('.') {
        let i = d.index_of('.');
        assert(num::digit(d[i]));
    }
}

/// Versions stand in one order: of two at least one reaches the other, both reach each other only where they
/// are the same, and what reaches one reaches all that it reaches. A later part counts only where the ones
/// before it are the same.
pub proof fn lemma_versions_in_order(a: Version, b: Version, c: Version)
    ensures
        a.reaches(b) || b.reaches(a),
        a.reaches(b) && b.reaches(a) <==> a == b,
        a.reaches(b) && b.reaches(c) ==> a.reaches(c),
        a.0 > b.0 ==> a.reaches(b),
        a.0 == b.0 && a.1 > b.1 ==> a.reaches(b),
{
}

/// A command is taken for the agent where what it says has the agent's mark and a version that is known.
pub proof fn lemma_what_a_probe_finds(output: Seq<char>, mark: Seq<char>, min: Version)
    ensures
        probed_from(output, mark, min) matches Probed::Available(v) ==> {
            &&& crate::text::occurs(trimmed(output), mark)
            &&& version_in(trimmed(output)) == Some(v)
            &&& v.reaches(min)
        },
        crate::text::occurs(trimmed(output), mark) && version_in(trimmed(output)) is Some && version_in(
            trimmed(output),
        )->0.reaches(min) ==> probed_from(output, mark, min) is Available,
        !(probed_from(output, mark, min) is Missing),
{
}

/// The name of a program is what stands behind the last slash.
pub proof fn lemma_base(dir: Seq<char>, name: Seq<char>)
    requires
        name.len() > 0,
        !name.contains('/'),
        name != seq!['.'],
        name != seq!['.', '.'],
    ensures
        base_of(name) == name,
        base_of(dir + seq!['/'] + name) == name,
{
    crate::text::lemma_split_joined(dir, '/', name);
    crate::text::lemma_split_whole(name, '/');
    let d = split(dir, '/');
    let all = d + seq![name];
    assert(all.drop_last() =~= d);
    assert(path_parts(all) == path_parts(d).push(name));
    let one = seq![name];
    let none = Seq::<Seq<char>>::empty();
    assert(one.drop_last() =~= none);
    assert(path_parts(one) == path_parts(none).push(name));
}

/// What a shell was told to run is what counts, and not the shell; any other command counts as it is.
pub proof fn lemma_what_is_run(dir: Seq<char>, name: Seq<char>, line: Seq<char>, argv: Seq<Seq<char>>)
    requires
        name.len() > 0,
        !name.contains('/'),
        name != seq!['.'],
        name != seq!['.', '.'],
    ensures
        shells().contains(name) ==> unwrapped(seq![dir + seq!['/'] + name, "-c"@, line]) == words(line),
        argv.len() > 0 && argv[0] == dir + seq!['/'] + name && !shells().contains(name) ==> unwrapped(argv)
            == argv,
        argv.len() > 0 && argv[0] == dir + seq!['/'] + name && !shells().contains(name) ==> (forall|
            programs: Seq<Seq<char>>,
        |
            #[trigger] runs_one_of(argv, programs) <==> programs.contains(name)),
        shells().contains("sh"@) && shells().contains("bash"@) && shells().contains("zsh"@)
            && shells().contains("fish"@),
{
    lemma_base(dir, name);
    let p = dir + seq!['/'] + name;
    let a = seq![p, "-c"@, line];
    reveal_with_fuel(dash_c, 3);
    assert(a[0] == p && a[1] == "-c"@ && a[2] == line);
    let s = shells();
    assert(s[0] == "sh"@ && s[1] == "bash"@ && s[2] == "zsh"@ && s[3] == "fish"@);
    if p == "-c"@ {
        reveal_strlit("-c");
        assert(p[dir.len() as int] == '/');
    }
}

/// A version is found where it is written, alone or behind a name, with or without brackets round it.
pub proof fn lemma_a_version_is_found(name: Seq<char>, v: Version)
    requires
        crate::text::is_word(name),
        !name.contains('(') && !name.contains(')') && !name.contains('.'),
    ensures
        version_in(v.spelled()) == Some(v),
        version_in(name + seq![' '] + v.spelled()) == Some(v),
        version_in(name + seq![' '] + (seq!['('] + v.spelled() + seq![')'])) == Some(v),
        version_in(v.spelled() + seq![' '] + (seq!['('] + name + seq![')'])) == Some(v),
        version_in(name) is None,
{
    let s = v.spelled();
    lemma_version_reads_back(v);
    lemma_spelled_is_word(v);
    lemma_plain_word(s);
    lemma_plain_word(name);
    crate::text::lemma_word(s);
    crate::text::lemma_word(name);
    crate::text::lemma_split_whole(name, '.');
    assert(split(name, '.').len() == 1);
    let b = without_brackets(name + seq![' '] + s);
    assert(b =~= name + seq![' '] + s);
    crate::text::lemma_words_joined(name, s);
    let c = without_brackets(name + seq![' '] + (seq!['('] + s + seq![')']));
    let blank = Seq::<char>::empty();
    assert(c =~= name + seq![' '] + (blank + seq![' '] + (s + seq![' '] + blank)));
    crate::text::lemma_words_joined(name, blank + seq![' '] + (s + seq![' '] + blank));
    crate::text::lemma_words_joined(blank, s + seq![' '] + blank);
    crate::text::lemma_words_joined(s, blank);
    assert(words(blank) =~= Seq::<Seq<char>>::empty());
    assert(words(c) =~= seq![name, s]);
    assert(words(b) =~= seq![name, s]);
    let d = without_brackets(s + seq![' '] + (seq!['('] + name + seq![')']));
    assert(d =~= s + seq![' '] + (blank + seq![' '] + (name + seq![' '] + blank)));
    crate::text::lemma_words_joined(s, blank + seq![' '] + (name + seq![' '] + blank));
    crate::text::lemma_words_joined(blank, name + seq![' '] + blank);
    crate::text::lemma_words_joined(name, blank);
    assert(words(d) =~= seq![s, name]);
    reveal_with_fuel(first_version, 3);
    assert(version_of(name) is None);
    assert(seq![name, s][0] == name && seq![name, s][1] == s);
    assert(seq![s, name][0] == s);
    assert(seq![s][0] == s);
    assert(seq![name][0] == name);
}

proof fn lemma_plain_word(s: Seq<char>)
    requires
        !s.contains('(') && !s.contains(')'),
    ensures
        without_brackets(s) == s,
{
    assert forall|i: int| 0 <= i < s.len() implies without_brackets(s)[i] == s[i] by {
        assert(s.contains(s[i]));
    }
    assert(without_brackets(s) =~= s);
}

proof fn lemma_spelled_is_word(v: Version)
    ensures
        crate::text::is_word(v.spelled()),
        !v.spelled().contains('(') && !v.spelled().contains(')'),
{
    let s = v.spelled();
    let a = num::decimal(v.0 as nat);
    let b = num::decimal(v.1 as nat);
    let c = num::decimal(v.2 as nat);
    num::lemma_decimal(v.0 as nat);
    num::lemma_decimal(v.1 as nat);
    num::lemma_decimal(v.2 as nat);
    assert forall|i: int| 0 <= i < s.len() implies num::digit(#[trigger] s[i]) || s[i] == '.' by {
        let n = a.len() as int;
        let m = b.len() as int;
        if i < n {
            assert(s[i] == a[i]);
        } else if n < i < n + 1 + m {
            assert(s[i] == b[i - n - 1]);
        } else if i > n + 1 + m {
            assert(s[i] == c[i - n - m - 2]);
        }
    }
    assert forall|i: int| 0 <= i < s.len() implies !crate::text::white(#[trigger] s[i]) by {
        assert(num::digit(s[i]) || s[i] == '.');
    }
    if s.contains('(') {
        let i = s.index_of('(');
        assert(num::digit(s[i]) || s[i] == '.');
    }
    if s.contains(')') {
        let i = s.index_of(')');
        assert(num::digit(s[i]) || s[i] == '.');
    }
}

/// A shell that was told to run something, and not what, counts as it is, and so does one that was not told.
pub proof fn lemma_shells_alone(sh: Seq<char>, word: Seq<char>)
    ensures
        unwrapped(seq![sh, "-c"@]) == seq![sh, "-c"@],
        word != "-c"@ && sh != "-c"@ ==> unwrapped(seq![sh, word]) == seq![sh, word],
        sh != "-c"@ ==> unwrapped(seq![sh]) == seq![sh],
        unwrapped(Seq::empty()) == Seq::<Seq<char>>::empty(),
{
    let a = seq![sh, "-c"@];
    let b = seq![sh, word];
    let c = seq![sh];
    reveal_with_fuel(dash_c, 4);
    assert(a[0] == sh && a[1] == "-c"@ && b[0] == sh && b[1] == word && c[0] == sh);
    if sh == "-c"@ {
        lemma_no_shell_is_a_dash();
    }
}

proof fn lemma_no_shell_is_a_dash()
    ensures
        !shells().contains(base_of("-c"@)),
{
    reveal_strlit("-c");
    assert("-c"@[0] == '-' && "-c"@.len() == 2);
    assert(!"-c"@.contains('/'));
    lemma_base(Seq::empty(), "-c"@);
    let s = shells();
    reveal_strlit("sh");
    reveal_strlit("bash");
    reveal_strlit("zsh");
    reveal_strlit("fish");
    reveal_strlit("dash");
    reveal_strlit("ksh");
    assert("sh"@[0] == 's' && "bash"@.len() == 4 && "zsh"@.len() == 3 && "fish"@.len() == 4 && "dash"@.len()
        == 4 && "ksh"@.len() == 3);
    assert(s[0] == "sh"@ && s[1] == "bash"@ && s[2] == "zsh"@ && s[3] == "fish"@ && s[4] == "dash"@ && s[5]
        == "ksh"@);
    assert forall|i: int| 0 <= i < s.len() implies #[trigger] s[i] != "-c"@ by {
    }
}

} // verus!
