//! The configuration of a node: its defaults, and what makes one acceptable.

use crate::api::{self, Address, ListenError, ListenFault};
use crate::auth::AuthConfig;
use crate::json::{self, Json, JsonView};
use crate::num;
use crate::text;
use vstd::prelude::*;

verus! {

pub const CONFIG_FILE: &'static str = "config.yaml";

/// The kind of runtime that stands for the one that the program brings along.
pub const DEFAULT_RUNTIME_KIND: &'static str = "default";

/// Why a configuration is not accepted.
#[derive(Debug, PartialEq, Eq)]
pub enum ConfigError {
    Read { path: String, source: String },
    Parse { path: String, source: String },
    Listen(ListenError),
    TlsListenParse(String),
    SamePort(u16),
    Duration { field: &'static str, value: String },
    NodeId(String),
}

/// The model of a [`ConfigError`].
pub enum ConfigFault {
    Read { path: Seq<char>, source: Seq<char> },
    Parse { path: Seq<char>, source: Seq<char> },
    Listen(ListenFault),
    TlsListenParse(Seq<char>),
    SamePort(u16),
    Duration { field: Seq<char>, value: Seq<char> },
    NodeId(Seq<char>),
}

impl View for ConfigError {
    type V = ConfigFault;

    open spec fn view(&self) -> ConfigFault {
        match self {
            ConfigError::Read { path, source } => ConfigFault::Read { path: path@, source: source@ },
            ConfigError::Parse { path, source } => ConfigFault::Parse {
                path: path@,
                source: source@,
            },
            ConfigError::Listen(e) => ConfigFault::Listen(e@),
            ConfigError::TlsListenParse(s) => ConfigFault::TlsListenParse(s@),
            ConfigError::SamePort(p) => ConfigFault::SamePort(*p),
            ConfigError::Duration { field, value } => ConfigFault::Duration {
                field: field@,
                value: value@,
            },
            ConfigError::NodeId(s) => ConfigFault::NodeId(s@),
        }
    }
}

/// The text of a fault.
pub open spec fn config_fault_text(f: ConfigFault) -> Seq<char> {
    match f {
        ConfigFault::Read { path, source } => "读取 "@ + path + " 失败: "@ + source,
        ConfigFault::Parse { path, source } => "解析 "@ + path + " 失败: "@ + source,
        ConfigFault::Listen(e) => "server.listen: "@ + api::listen_fault_text(e),
        ConfigFault::TlsListenParse(s) => "server.tls_listen 无法解析: "@ + s,
        ConfigFault::SamePort(p) => "server.tls_listen 与 server.listen 端口相同（"@ + num::decimal(
            p as nat,
        ) + "）：两个监听器必须不同端口"@,
        ConfigFault::Duration { field, value } => field + ": 时长 "@ + text::debug_text(value)
            + " 不合法，形态如 5s / 2m / 24h / 30d"@,
        ConfigFault::NodeId(s) => "node.id 不能为空，且只能含字母、数字、`-`、`_`（得到 "@ + text::debug_text(s)
            + "）"@,
    }
}

impl ConfigError {
    /// The text of a fault.
    pub fn message(&self) -> (out: String)
        ensures
            out@ == config_fault_text(self@),
    {
        match self {
            ConfigError::Read { path, source } => {
                let mut out = text::cat3("读取 ", path.as_str(), " 失败: ");
                text::push_str(&mut out, source.as_str());
                out
            },
            ConfigError::Parse { path, source } => {
                let mut out = text::cat3("解析 ", path.as_str(), " 失败: ");
                text::push_str(&mut out, source.as_str());
                out
            },
            ConfigError::Listen(e) => text::cat("server.listen: ", e.message().as_str()),
            ConfigError::TlsListenParse(s) => text::cat(
                "server.tls_listen 无法解析: ",
                s.as_str(),
            ),
            ConfigError::SamePort(p) => text::cat3(
                "server.tls_listen 与 server.listen 端口相同（",
                num::to_decimal(*p as u64).as_str(),
                "）：两个监听器必须不同端口",
            ),
            ConfigError::Duration { field, value } => {
                let mut out = text::cat3(field, ": 时长 ", text::debug(value.as_str()).as_str());
                text::push_str(&mut out, " 不合法，形态如 5s / 2m / 24h / 30d");
                out
            },
            ConfigError::NodeId(s) => text::cat3(
                "node.id 不能为空，且只能含字母、数字、`-`、`_`（得到 ",
                text::debug(s.as_str()).as_str(),
                "）",
            ),
        }
    }
}

#[derive(Debug, PartialEq, Eq)]
pub struct ServerSection {
    pub listen: String,
    pub tls_listen: Option<String>,
    pub public_url: Option<String>,
}

impl Default for ServerSection {
    fn default() -> (r: Self)
        ensures
            r.listen@ == "127.0.0.1:7680"@,
            r.tls_listen is None,
            r.public_url is None,
    {
        ServerSection { listen: "127.0.0.1:7680".to_owned(), tls_listen: None, public_url: None }
    }
}

#[derive(Debug, PartialEq, Eq)]
pub struct NodeSection {
    /// What the ids of this node's sessions begin with.
    pub id: String,
}

impl Default for NodeSection {
    fn default() -> (r: Self)
        ensures
            r.id@ == "local"@,
    {
        NodeSection { id: "local".to_owned() }
    }
}

#[derive(Debug, PartialEq, Eq)]
pub struct PeerSection {
    pub name: String,
    pub url: String,
    pub token_file: String,
    pub cert_fingerprint: String,
}

/// Which runtime is used, and what is configured for each, as it is written.
#[derive(Debug, PartialEq, Eq)]
pub struct RuntimeSection {
    pub kind: String,
    pub sections: Vec<(String, Json)>,
}

impl Default for RuntimeSection {
    fn default() -> (r: Self)
        ensures
            r.kind@ == DEFAULT_RUNTIME_KIND@,
            r.sections@.len() == 0,
    {
        RuntimeSection { kind: DEFAULT_RUNTIME_KIND.to_owned(), sections: Vec::new() }
    }
}

impl RuntimeSection {
    /// What is configured for a runtime, or nothing.
    pub fn section(&self, kind: &str) -> (r: Json)
        ensures
            r@ == (match json::find(json::member_views(self.sections@), kind@, 0) {
                Some(i) => json::member_views(self.sections@)[i].1,
                None => JsonView::Object(Seq::empty()),
            }),
    {
        proof {
            json::lemma_member_views(self.sections@);
        }
        match json::find_member(&self.sections, kind) {
            Some(i) => json::copy(&self.sections[i].1),
            None => {
                let r = Json::Object(Vec::new());
                proof {
                    assert(r@->Object_0 =~= Seq::empty());
                }
                r
            },
        }
    }
}

#[derive(Debug, PartialEq, Eq)]
pub struct TerminalSection {
    pub scrollback: u32,
}

impl Default for TerminalSection {
    fn default() -> (r: Self)
        ensures
            r.scrollback == 10_000,
    {
        TerminalSection { scrollback: 10_000 }
    }
}

#[derive(Debug, PartialEq, Eq)]
pub struct StatusSection {
    pub idle_after: String,
    pub detector_interval: String,
}

impl Default for StatusSection {
    fn default() -> (r: Self)
        ensures
            r.idle_after@ == "60s"@,
            r.detector_interval@ == "2s"@,
    {
        StatusSection { idle_after: "60s".to_owned(), detector_interval: "2s".to_owned() }
    }
}

#[derive(Debug, PartialEq, Eq)]
pub struct HooksSection {
    pub silence_after: String,
    pub hold_timeout: String,
    pub hold_per_session: u32,
    pub hold_per_node: u32,
    pub inbox_retention: String,
}

impl Default for HooksSection {
    fn default() -> (r: Self)
        ensures
            r.silence_after@ == "10m"@,
            r.hold_timeout@ == "55m"@,
            r.hold_per_session == 8,
            r.hold_per_node == 256,
            r.inbox_retention@ == "24h"@,
    {
        HooksSection {
            silence_after: "10m".to_owned(),
            hold_timeout: "55m".to_owned(),
            hold_per_session: 8,
            hold_per_node: 256,
            inbox_retention: "24h".to_owned(),
        }
    }
}

#[derive(Debug, PartialEq, Eq)]
pub struct NotificationsSection {
    pub enabled: bool,
}

impl Default for NotificationsSection {
    fn default() -> (r: Self)
        ensures
            r.enabled,
    {
        NotificationsSection { enabled: true }
    }
}

#[derive(Debug, PartialEq, Eq)]
pub struct TlsExternal {
    pub cert_file: Option<String>,
    pub key_file: Option<String>,
    pub renew_command: Option<Vec<String>>,
    pub renew_before: String,
}

impl Default for TlsExternal {
    fn default() -> (r: Self)
        ensures
            r.cert_file is None,
            r.key_file is None,
            r.renew_command is None,
            r.renew_before@ == "720h"@,
    {
        TlsExternal {
            cert_file: None,
            key_file: None,
            renew_command: None,
            renew_before: "720h".to_owned(),
        }
    }
}

#[derive(Debug, PartialEq, Eq)]
pub struct TlsSection {
    pub mode: String,
    pub external: TlsExternal,
}

impl Default for TlsSection {
    fn default() -> (r: Self)
        ensures
            r.mode@ == "self-signed"@,
            r.external.cert_file is None,
            r.external.key_file is None,
            r.external.renew_command is None,
            r.external.renew_before@ == "720h"@,
    {
        TlsSection { mode: "self-signed".to_owned(), external: TlsExternal::default() }
    }
}

#[derive(Debug, PartialEq, Eq)]
pub struct AuthSection {
    pub pair_ttl: String,
    pub pair_pending_max: usize,
    pub session_idle: String,
    pub session_max: String,
}

impl Default for AuthSection {
    fn default() -> (r: Self)
        ensures
            r.pair_ttl@ == "5m"@,
            r.pair_pending_max == 4,
            r.session_idle@ == "30d"@,
            r.session_max@ == "365d"@,
    {
        AuthSection {
            pair_ttl: "5m".to_owned(),
            pair_pending_max: 4,
            session_idle: "30d".to_owned(),
            session_max: "365d".to_owned(),
        }
    }
}

#[derive(Debug, PartialEq, Eq)]
pub struct AgentOverride {
    /// The command that starts the agent, in place of its own.
    pub command: Option<String>,
}

impl Default for AgentOverride {
    fn default() -> (r: Self)
        ensures
            r.command is None,
    {
        AgentOverride { command: None }
    }
}

/// A configuration as it is written.
#[derive(Debug, PartialEq, Eq)]
pub struct Config {
    pub server: ServerSection,
    pub node: NodeSection,
    pub peers: Vec<PeerSection>,
    pub runtime: RuntimeSection,
    pub terminal: TerminalSection,
    pub status: StatusSection,
    pub hooks: HooksSection,
    pub notifications: NotificationsSection,
    pub tls: TlsSection,
    pub auth: AuthSection,
    pub project_roots: Vec<String>,
    pub worktree_root: String,
    /// What is configured for each agent, by its name.
    pub agents: Vec<(String, AgentOverride)>,
}

/// Whether each section is as it is where nothing is written.
pub open spec fn all_defaults(c: Config) -> bool {
    &&& c.server.listen@ == "127.0.0.1:7680"@ && c.server.tls_listen is None
        && c.server.public_url is None
    &&& c.node.id@ == "local"@
    &&& c.peers@.len() == 0
    &&& c.runtime.kind@ == DEFAULT_RUNTIME_KIND@ && c.runtime.sections@.len() == 0
    &&& c.terminal.scrollback == 10_000
    &&& c.status.idle_after@ == "60s"@ && c.status.detector_interval@ == "2s"@
    &&& c.hooks.silence_after@ == "10m"@ && c.hooks.hold_timeout@ == "55m"@
        && c.hooks.hold_per_session == 8 && c.hooks.hold_per_node == 256
        && c.hooks.inbox_retention@ == "24h"@
    &&& c.notifications.enabled
    &&& c.tls.mode@ == "self-signed"@ && c.tls.external.cert_file is None
        && c.tls.external.key_file is None && c.tls.external.renew_command is None
        && c.tls.external.renew_before@ == "720h"@
    &&& c.auth.pair_ttl@ == "5m"@ && c.auth.pair_pending_max == 4 && c.auth.session_idle@ == "30d"@
        && c.auth.session_max@ == "365d"@
    &&& c.project_roots@.len() == 0
    &&& c.worktree_root@ == "../{repo}-wt"@
    &&& c.agents@.len() == 0
}

impl Default for Config {
    fn default() -> (r: Self)
        ensures
            all_defaults(r),
    {
        Config {
            server: ServerSection::default(),
            node: NodeSection::default(),
            peers: Vec::new(),
            runtime: RuntimeSection::default(),
            terminal: TerminalSection::default(),
            status: StatusSection::default(),
            hooks: HooksSection::default(),
            notifications: NotificationsSection::default(),
            tls: TlsSection::default(),
            auth: AuthSection::default(),
            project_roots: Vec::new(),
            worktree_root: "../{repo}-wt".to_owned(),
            agents: Vec::new(),
        }
    }
}

/// A configuration that is used; the times are in seconds.
#[derive(Debug, PartialEq, Eq)]
pub struct Settings {
    pub listen: Address,
    pub tls_listen: Option<Address>,
    pub node_id: String,
    pub detector_interval: u64,
    pub idle_after: u64,
    pub auth: AuthConfig,
    pub raw: Config,
}

/// How many of the characters from `i` on are digits.
pub open spec fn digits_from(s: Seq<char>, i: int) -> int
    decreases s.len() - i,
{
    if 0 <= i < s.len() && num::digit(s[i]) {
        1 + digits_from(s, i + 1)
    } else {
        0
    }
}

/// How many seconds a unit has.
pub open spec fn unit_seconds(unit: Seq<char>) -> Option<nat> {
    if unit == "s"@ {
        Some(1)
    } else if unit == "m"@ {
        Some(60)
    } else if unit == "h"@ {
        Some(3600)
    } else if unit == "d"@ {
        Some(86_400)
    } else {
        None
    }
}

/// How many seconds a text stands for: a number and a unit with nothing between them.
pub open spec fn seconds_in(value: Seq<char>) -> Option<nat> {
    let v = text::trimmed(value);
    let k = digits_from(v, 0);
    if k < v.len() {
        match (num::unsigned(v.take(k), u64::MAX as nat), unit_seconds(v.skip(k))) {
            (Some(n), Some(m)) => Some(n * m),
            _ => None,
        }
    } else {
        None
    }
}

/// Whether the seconds that a text stands for fit in 64 bits.
pub open spec fn fits(value: Seq<char>) -> bool {
    seconds_in(value) matches Some(n) ==> n <= u64::MAX
}

proof fn lemma_digits_from(s: Seq<char>, i: int)
    requires
        0 <= i <= s.len(),
    ensures
        0 <= digits_from(s, i) <= s.len() - i,
    decreases s.len() - i,
{
    if i < s.len() && num::digit(s[i]) {
        lemma_digits_from(s, i + 1);
    }
}

fn unit_of(unit: &str) -> (r: Option<u64>)
    ensures
        match r {
            Some(m) => unit_seconds(unit@) == Some(m as nat) && m <= 86_400,
            None => unit_seconds(unit@) is None,
        },
{
    if text::same(unit, "s") {
        Some(1)
    } else if text::same(unit, "m") {
        Some(60)
    } else if text::same(unit, "h") {
        Some(3600)
    } else if text::same(unit, "d") {
        Some(86_400)
    } else {
        None
    }
}

/// The number and the seconds of the unit that a text is made of.
fn number_and_unit(value: &str) -> (r: Option<(u64, u64)>)
    ensures
        match r {
            Some((n, m)) => seconds_in(value@) == Some((n * m) as nat) && m <= 86_400,
            None => seconds_in(value@) is None,
        },
{
    let t = text::trim(value);
    let v = text::chars_of(t.as_str());
    let mut k: usize = 0;
    proof {
        lemma_digits_from(v@, 0);
    }
    while k < v.len() && '0' <= v[k] && v[k] <= '9'
        invariant
            k <= v@.len(),
            digits_from(v@, 0) == k + digits_from(v@, k as int),
        decreases v@.len() - k,
    {
        k += 1;
    }
    if k >= v.len() {
        return None;
    }
    let number = text::string_of_range(&v, 0, k);
    let unit = text::string_of_range(&v, k, v.len());
    proof {
        assert(number@ =~= t@.take(k as int));
        assert(unit@ =~= t@.skip(k as int));
    }
    match (num::parse_unsigned(number.as_str(), u64::MAX), unit_of(unit.as_str())) {
        (Some(n), Some(m)) => Some((n, m)),
        _ => None,
    }
}

/// Whether the seconds that a text stands for fit in 64 bits.
pub fn duration_fits(value: &str) -> (r: bool)
    ensures
        r == fits(value@),
{
    match number_and_unit(value) {
        Some((n, m)) => {
            proof {
                assert(0 <= n * m <= u64::MAX * 86_400) by (nonlinear_arith)
                    requires
                        0 <= n <= u64::MAX,
                        0 <= m <= 86_400,
                ;
            }
            let p: u128 = n as u128 * m as u128;
            p <= 0xffff_ffff_ffff_ffff
        },
        None => true,
    }
}

/// How many seconds a text stands for: `5s`, `2m`, `24h`, `30d`. `field` is what it is written for.
pub fn parse_duration(field: &'static str, value: &str) -> (r: Result<u64, ConfigError>)
    requires
        fits(value@),
    ensures
        match r {
            Ok(n) => seconds_in(value@) == Some(n as nat),
            Err(e) => seconds_in(value@) is None && e@ == (ConfigFault::Duration {
                field: field@,
                value: value@,
            }),
        },
{
    match number_and_unit(value) {
        Some((n, m)) => Ok(n * m),
        None => Err(ConfigError::Duration { field, value: value.to_owned() }),
    }
}

/// Whether a text may be the id of a node.
pub open spec fn node_name(s: Seq<char>) -> bool {
    s.len() > 0 && forall|i: int| 0 <= i < s.len() ==> crate::digest::base64_char(#[trigger] s[i])
}

/// The texts that stand for a time, with what they are written for, in the order in which they are read.
pub open spec fn durations(c: Config) -> Seq<(Seq<char>, Seq<char>)> {
    seq![
        ("auth.pair_ttl"@, c.auth.pair_ttl@),
        ("auth.session_idle"@, c.auth.session_idle@),
        ("auth.session_max"@, c.auth.session_max@),
        ("status.detector_interval"@, c.status.detector_interval@),
        ("status.idle_after"@, c.status.idle_after@),
        ("hooks.silence_after"@, c.hooks.silence_after@),
        ("hooks.hold_timeout"@, c.hooks.hold_timeout@),
        ("hooks.inbox_retention"@, c.hooks.inbox_retention@),
        ("tls.external.renew_before"@, c.tls.external.renew_before@),
    ]
}

/// The first of some texts, from `i` on, that stands for no time.
pub open spec fn first_bad(v: Seq<(Seq<char>, Seq<char>)>, i: int) -> Option<ConfigFault>
    decreases v.len() - i,
{
    if i < 0 || i >= v.len() {
        None
    } else if seconds_in(v[i].1) is None {
        Some(ConfigFault::Duration { field: v[i].0, value: v[i].1 })
    } else {
        first_bad(v, i + 1)
    }
}

/// Why a configuration is not accepted: its addresses, its ports, its id and its times are looked at in
/// this order. `listen` and `tls` are what its addresses write, where they write one.
pub open spec fn fault(c: Config, listen: Option<Address>, tls: Option<Address>) -> Option<
    ConfigFault,
> {
    match api::listen_fault(c.server.listen@, listen) {
        Some(f) => Some(ConfigFault::Listen(f)),
        None => if c.server.tls_listen is Some && tls is None {
            Some(ConfigFault::TlsListenParse(c.server.tls_listen->Some_0@))
        } else if c.server.tls_listen is Some && tls->Some_0.port == listen->Some_0.port {
            Some(ConfigFault::SamePort(tls->Some_0.port))
        } else if !node_name(text::trimmed(c.node.id@)) {
            Some(ConfigFault::NodeId(c.node.id@))
        } else {
            first_bad(durations(c), 0)
        },
    }
}

/// Whether all texts that stand for a time stand for one of at most 64 bits.
pub open spec fn durations_fit(c: Config) -> bool {
    forall|i: int| 0 <= i < 9 ==> fits(#[trigger] durations(c)[i].1)
}

/// Whether `r` is `c`, but for the runtime that stands for the one the program brings along.
pub open spec fn settled(r: Config, c: Config, kind: Seq<char>) -> bool {
    &&& r.server == c.server && r.node == c.node && r.peers == c.peers && r.terminal == c.terminal
        && r.status == c.status && r.hooks == c.hooks && r.notifications == c.notifications
        && r.tls == c.tls && r.auth == c.auth && r.project_roots == c.project_roots
        && r.worktree_root == c.worktree_root && r.agents == c.agents
    &&& r.runtime.sections == c.runtime.sections
    &&& r.runtime.kind@ == (if c.runtime.kind@ == DEFAULT_RUNTIME_KIND@ {
        kind
    } else {
        c.runtime.kind@
    })
}

/// Whether `s` is what a configuration comes to.
pub open spec fn settles(
    s: Settings,
    c: Config,
    listen: Option<Address>,
    tls: Option<Address>,
    kind: Seq<char>,
) -> bool {
    &&& Some(s.listen) == listen
    &&& s.tls_listen == (if c.server.tls_listen is Some {
        tls
    } else {
        None
    })
    &&& s.node_id@ == text::trimmed(c.node.id@)
    &&& seconds_in(c.status.detector_interval@) == Some(s.detector_interval as nat)
    &&& seconds_in(c.status.idle_after@) == Some(s.idle_after as nat)
    &&& seconds_in(c.auth.pair_ttl@) == Some(s.auth.pair_ttl as nat)
    &&& s.auth.pair_pending_max == c.auth.pair_pending_max
    &&& seconds_in(c.auth.session_idle@) == Some(s.auth.session_idle as nat)
    &&& seconds_in(c.auth.session_max@) == Some(s.auth.session_max as nat)
    &&& !s.auth.cookie_secure
    &&& settled(s.raw, c, kind)
}

fn is_node_name(s: &str) -> (r: bool)
    ensures
        r == node_name(s@),
{
    let v = text::chars_of(s);
    let mut i: usize = 0;
    while i < v.len()
        invariant
            v@ == s@,
            i <= v@.len(),
            forall|j: int| 0 <= j < i ==> crate::digest::base64_char(#[trigger] v@[j]),
        decreases v@.len() - i,
    {
        let c: char = v[i];
        if !(('A' <= c && c <= 'Z') || ('a' <= c && c <= 'z') || ('0' <= c && c <= '9') || c == '-'
            || c == '_') {
            return false;
        }
        i += 1;
    }
    v.len() > 0
}

impl Config {
    /// Whether all texts that stand for a time stand for one of at most 64 bits.
    pub fn durations_fit(&self) -> (r: bool)
        ensures
            r == durations_fit(*self),
    {
        let r = duration_fits(self.auth.pair_ttl.as_str()) && duration_fits(
            self.auth.session_idle.as_str(),
        ) && duration_fits(self.auth.session_max.as_str()) && duration_fits(
            self.status.detector_interval.as_str(),
        ) && duration_fits(self.status.idle_after.as_str()) && duration_fits(
            self.hooks.silence_after.as_str(),
        ) && duration_fits(self.hooks.hold_timeout.as_str()) && duration_fits(
            self.hooks.inbox_retention.as_str(),
        ) && duration_fits(self.tls.external.renew_before.as_str());
        proof {
            let d = durations(*self);
            if durations_fit(*self) {
                assert(fits(d[0].1) && fits(d[1].1) && fits(d[2].1) && fits(d[3].1) && fits(d[4].1)
                    && fits(d[5].1) && fits(d[6].1) && fits(d[7].1) && fits(d[8].1));
            }
        }
        r
    }

    /// The settings that a configuration comes to, or why it is not accepted. `listen` and `tls` are what
    /// its addresses write, where they write one.
    pub fn validate(
        self,
        default_runtime_kind: &str,
        listen: Option<Address>,
        tls: Option<Address>,
    ) -> (r: Result<Settings, ConfigError>)
        requires
            durations_fit(self),
        ensures
            match r {
                Ok(s) => fault(self, listen, tls) is None && settles(
                    s,
                    self,
                    listen,
                    tls,
                    default_runtime_kind@,
                ),
                Err(e) => fault(self, listen, tls) == Some(e@),
            },
    {
        let ghost d = durations(self);
        proof {
            reveal_with_fuel(first_bad, 10);
            assert(fits(d[0].1) && fits(d[1].1) && fits(d[2].1) && fits(d[3].1) && fits(d[4].1)
                && fits(d[5].1) && fits(d[6].1) && fits(d[7].1) && fits(d[8].1));
        }
        let kind = if text::same(self.runtime.kind.as_str(), DEFAULT_RUNTIME_KIND) {
            default_runtime_kind.to_owned()
        } else {
            self.runtime.kind.clone()
        };
        let listen = match api::plaintext_listen(self.server.listen.as_str(), listen) {
            Ok(a) => a,
            Err(e) => {
                return Err(ConfigError::Listen(e));
            },
        };
        let tls_listen = match &self.server.tls_listen {
            None => None,
            Some(s) => match tls {
                None => {
                    return Err(ConfigError::TlsListenParse(s.clone()));
                },
                Some(addr) => {
                    if addr.port == listen.port {
                        return Err(ConfigError::SamePort(addr.port));
                    }
                    Some(addr)
                },
            },
        };
        let id = text::trim(self.node.id.as_str());
        if !is_node_name(id.as_str()) {
            return Err(ConfigError::NodeId(self.node.id.clone()));
        }
        let pair_ttl: u64 = parse_duration("auth.pair_ttl", self.auth.pair_ttl.as_str())?;
        let session_idle: u64 = parse_duration(
            "auth.session_idle",
            self.auth.session_idle.as_str(),
        )?;
        let session_max: u64 = parse_duration("auth.session_max", self.auth.session_max.as_str())?;
        let detector_interval: u64 = parse_duration(
            "status.detector_interval",
            self.status.detector_interval.as_str(),
        )?;
        let idle_after: u64 = parse_duration(
            "status.idle_after",
            self.status.idle_after.as_str(),
        )?;
        parse_duration("hooks.silence_after", self.hooks.silence_after.as_str())?;
        parse_duration("hooks.hold_timeout", self.hooks.hold_timeout.as_str())?;
        parse_duration("hooks.inbox_retention", self.hooks.inbox_retention.as_str())?;
        parse_duration("tls.external.renew_before", self.tls.external.renew_before.as_str())?;
        let auth = AuthConfig {
            pair_ttl,
            pair_pending_max: self.auth.pair_pending_max,
            session_idle,
            session_max,
            cookie_secure: false,
        };
        let runtime = RuntimeSection { kind, sections: self.runtime.sections };
        let raw = Config {
            server: self.server,
            node: self.node,
            peers: self.peers,
            runtime,
            terminal: self.terminal,
            status: self.status,
            hooks: self.hooks,
            notifications: self.notifications,
            tls: self.tls,
            auth: self.auth,
            project_roots: self.project_roots,
            worktree_root: self.worktree_root,
            agents: self.agents,
        };
        Ok(Settings { listen, tls_listen, node_id: id, detector_interval, idle_after, auth, raw })
    }
}

/// What came of reading the file with the configuration.
#[derive(Debug, PartialEq, Eq)]
pub enum Reading {
    Missing,
    Failed(String),
    Text(String),
}

/// What to begin with.
#[derive(Debug, PartialEq, Eq)]
pub enum Beginning {
    /// The defaults.
    Defaults,
    /// What this text writes.
    Written(String),
}

/// What to begin with: the defaults where there is no file or it is blank, and otherwise what it writes.
pub fn begin(path: &str, reading: Reading) -> (r: Result<Beginning, ConfigError>)
    ensures
        match reading {
            Reading::Missing => r matches Ok(Beginning::Defaults),
            Reading::Failed(source) => r matches Err(e) && e@ == (ConfigFault::Read {
                path: path@,
                source: source@,
            }),
            Reading::Text(t) => if text::trimmed(t@).len() == 0 {
                r matches Ok(Beginning::Defaults)
            } else {
                r matches Ok(Beginning::Written(s)) && s@ == t@
            },
        },
{
    match reading {
        Reading::Missing => Ok(Beginning::Defaults),
        Reading::Failed(source) => Err(ConfigError::Read { path: path.to_owned(), source }),
        Reading::Text(t) => if text::is_empty(text::trim(t.as_str()).as_str()) {
            Ok(Beginning::Defaults)
        } else {
            Ok(Beginning::Written(t))
        },
    }
}

/// What is accepted listens in the clear on this machine only, and elsewhere at another port.
pub proof fn lemma_accepted_listens_safely(c: Config, listen: Option<Address>, tls: Option<Address>)
    requires
        fault(c, listen, tls) is None,
    ensures
        listen matches Some(a) && api::loopback(a.ip),
        c.server.tls_listen is Some ==> tls is Some && tls->Some_0.port != listen->Some_0.port,
{
}

proof fn lemma_time(value: Seq<char>, n: nat, digits: Seq<char>, unit: Seq<char>, m: nat)
    requires
        value == digits + unit,
        num::all_digits(digits),
        digits.len() > 0,
        num::value(digits) == n,
        n * m <= u64::MAX,
        m >= 1,
        unit_seconds(unit) == Some(m),
        unit.len() == 1,
        !num::digit(unit[0]),
        !text::white(unit[0]),
    ensures
        seconds_in(value) == Some(n * m),
{
    lemma_digits_counted(digits, unit, 0);
    assert(!text::white(digits[0])) by {
        assert(num::digit(digits[0]));
    }
    assert(value[0] == digits[0]);
    assert(value.last() == unit[0]);
    assert(text::trimmed(value) == value);
    assert(value.take(digits.len() as int) =~= digits);
    assert(value.skip(digits.len() as int) =~= unit);
    assert(num::without_plus(digits) == digits) by {
        assert(num::digit(digits[0]));
    }
    assert(n <= n * m) by (nonlinear_arith)
        requires
            m >= 1,
            n >= 0,
    ;
}

proof fn lemma_digits_counted(digits: Seq<char>, unit: Seq<char>, i: int)
    requires
        num::all_digits(digits),
        0 <= i <= digits.len(),
        unit.len() == 1,
        !num::digit(unit[0]),
    ensures
        digits_from(digits + unit, i) == digits.len() - i,
    decreases digits.len() - i,
{
    if i < digits.len() {
        assert((digits + unit)[i] == digits[i]);
        assert(num::digit(digits[i]));
        lemma_digits_counted(digits, unit, i + 1);
    } else {
        assert((digits + unit)[i] == unit[0]);
    }
}

/// A time that is written with any of the units is read as what it is.
pub proof fn lemma_written_time_is_read(n: nat)
    requires
        n * 86_400 <= u64::MAX,
    ensures
        seconds_in(num::decimal(n) + "s"@) == Some(n),
        seconds_in(num::decimal(n) + "m"@) == Some(n * 60),
        seconds_in(num::decimal(n) + "h"@) == Some(n * 3600),
        seconds_in(num::decimal(n) + "d"@) == Some(n * 86_400),
{
    reveal_strlit("s");
    reveal_strlit("m");
    reveal_strlit("h");
    reveal_strlit("d");
    num::lemma_decimal(n);
    let d = num::decimal(n);
    assert("m"@[0] != "s"@[0]);
    assert("h"@[0] != "s"@[0] && "h"@[0] != "m"@[0]);
    assert("d"@[0] != "s"@[0] && "d"@[0] != "m"@[0] && "d"@[0] != "h"@[0]);
    lemma_time(d + "s"@, n, d, "s"@, 1);
    lemma_time(d + "m"@, n, d, "m"@, 60);
    lemma_time(d + "h"@, n, d, "h"@, 3600);
    lemma_time(d + "d"@, n, d, "d"@, 86_400);
}

proof fn lemma_all_read(v: Seq<(Seq<char>, Seq<char>)>, i: int)
    requires
        0 <= i <= v.len(),
    ensures
        first_bad(v, i) is None <==> forall|k: int|
            i <= k < v.len() ==> seconds_in((#[trigger] v[k]).1) is Some,
    decreases v.len() - i,
{
    if i < v.len() {
        lemma_all_read(v, i + 1);
    }
}

/// A configuration is accepted exactly where the listener in the clear leads back to this machine, the other
/// listener, where there is one, has an address with another port, the node has a name of letters, digits,
/// dashes and underscores, and all times can be read.
pub proof fn lemma_what_is_accepted(c: Config, listen: Option<Address>, tls: Option<Address>)
    ensures
        fault(c, listen, tls) is None <==> {
            let name = text::trimmed(c.node.id@);
            &&& listen is Some && api::listen_fault(c.server.listen@, listen) is None
            &&& c.server.tls_listen is Some ==> tls is Some && tls->0.port != listen->0.port
            &&& name.len() > 0
            &&& forall|i: int|
                0 <= i < name.len() ==> ('a' <= #[trigger] name[i] <= 'z' || 'A' <= name[i] <= 'Z' || '0'
                    <= name[i] <= '9' || name[i] == '-' || name[i] == '_')
            &&& seconds_in(c.auth.pair_ttl@) is Some && seconds_in(c.auth.session_idle@) is Some
                && seconds_in(c.auth.session_max@) is Some
            &&& seconds_in(c.status.detector_interval@) is Some && seconds_in(c.status.idle_after@) is Some
            &&& seconds_in(c.hooks.silence_after@) is Some && seconds_in(c.hooks.hold_timeout@) is Some
                && seconds_in(c.hooks.inbox_retention@) is Some
            &&& seconds_in(c.tls.external.renew_before@) is Some
        },
{
    let d = durations(c);
    lemma_all_read(d, 0);
    assert(d.len() == 9);
    assert(d[0].1 == c.auth.pair_ttl@ && d[1].1 == c.auth.session_idle@ && d[2].1 == c.auth.session_max@);
    assert(d[3].1 == c.status.detector_interval@ && d[4].1 == c.status.idle_after@);
    assert(d[5].1 == c.hooks.silence_after@ && d[6].1 == c.hooks.hold_timeout@ && d[7].1
        == c.hooks.inbox_retention@);
    assert(d[8].1 == c.tls.external.renew_before@);
    let name = text::trimmed(c.node.id@);
    assert(node_name(name) <==> name.len() > 0 && forall|i: int|
        0 <= i < name.len() ==> ('a' <= #[trigger] name[i] <= 'z' || 'A' <= name[i] <= 'Z' || '0'
            <= name[i] <= '9' || name[i] == '-' || name[i] == '_'));
}

/// A number without a unit is no time.
pub proof fn lemma_a_time_has_a_unit(n: nat)
    ensures
        seconds_in(num::decimal(n)) is None,
        unit_seconds(Seq::empty()) is None,
{
    num::lemma_decimal(n);
    let d = num::decimal(n);
    assert(num::digit(d[0]) && num::digit(d[d.len() - 1]));
    assert(text::trimmed(d) == d) by {
        text::lemma_trimmed(d);
    }
    assert(d + Seq::<char>::empty() =~= d);
    lemma_digits_to_the_end(d, 0);
    reveal_strlit("s");
    reveal_strlit("m");
    reveal_strlit("h");
    reveal_strlit("d");
    assert("s"@.len() == 1 && "m"@.len() == 1 && "h"@.len() == 1 && "d"@.len() == 1);
}

proof fn lemma_digits_to_the_end(s: Seq<char>, i: int)
    requires
        0 <= i <= s.len(),
        num::all_digits(s),
    ensures
        digits_from(s, i) == s.len() - i,
    decreases s.len() - i,
{
    if i < s.len() {
        assert(num::digit(s[i]));
        lemma_digits_to_the_end(s, i + 1);
    }
}

proof fn lemma_the_first_bad(v: Seq<(Seq<char>, Seq<char>)>, i: int, k: int)
    requires
        0 <= i <= k < v.len(),
        seconds_in(v[k].1) is None,
        forall|j: int| i <= j < k ==> seconds_in((#[trigger] v[j]).1) is Some,
    ensures
        first_bad(v, i) == Some(ConfigFault::Duration { field: v[k].0, value: v[k].1 }),
    decreases k - i,
{
    if i < k {
        lemma_the_first_bad(v, i + 1, k);
    }
}

/// A time that cannot be read is told by where it stands and what stands there.
pub proof fn lemma_which_time_is_at_fault(c: Config, k: int)
    requires
        0 <= k < 9,
        seconds_in(durations(c)[k].1) is None,
        forall|j: int| 0 <= j < k ==> seconds_in((#[trigger] durations(c)[j]).1) is Some,
    ensures
        first_bad(durations(c), 0) == Some(
            if k == 0 {
                ConfigFault::Duration { field: "auth.pair_ttl"@, value: c.auth.pair_ttl@ }
            } else if k == 1 {
                ConfigFault::Duration { field: "auth.session_idle"@, value: c.auth.session_idle@ }
            } else if k == 2 {
                ConfigFault::Duration { field: "auth.session_max"@, value: c.auth.session_max@ }
            } else if k == 3 {
                ConfigFault::Duration { field: "status.detector_interval"@, value: c.status.detector_interval@ }
            } else if k == 4 {
                ConfigFault::Duration { field: "status.idle_after"@, value: c.status.idle_after@ }
            } else if k == 5 {
                ConfigFault::Duration { field: "hooks.silence_after"@, value: c.hooks.silence_after@ }
            } else if k == 6 {
                ConfigFault::Duration { field: "hooks.hold_timeout"@, value: c.hooks.hold_timeout@ }
            } else if k == 7 {
                ConfigFault::Duration { field: "hooks.inbox_retention"@, value: c.hooks.inbox_retention@ }
            } else {
                ConfigFault::Duration { field: "tls.external.renew_before"@, value: c.tls.external.renew_before@ }
            },
        ),
{
    lemma_the_first_bad(durations(c), 0, k);
}

} // verus!
