//! The home directory of a node, and the socket in it: who may use them, and what is said there.

use crate::adapter::hooks::{Answer, Decision};
use crate::auth::{denial_text, is_token, live, without_last, Auth, Denial, Link, PairedVia};
use crate::hook::inbox::{octal, to_octal};
use crate::num;
use crate::paths::{join_path, joined_path};
use crate::text::{self, opt_str};
use vstd::prelude::*;
use vstd::utf8::encode_utf8;

verus! {

pub const SOCKET_FILE: &'static str = "agora.sock";

/// Why a home directory is not used.
#[derive(Debug, PartialEq, Eq)]
pub enum HomeError {
    Create { path: String, source: String },
    Stat { path: String, source: String },
    WrongOwner { path: String, owner: u32, me: u32 },
    TooOpen { path: String, mode: u32 },
    PathTooLong { path: String, len: usize, max: usize },
}

/// The model of a [`HomeError`].
pub enum HomeFault {
    Create { path: Seq<char>, source: Seq<char> },
    Stat { path: Seq<char>, source: Seq<char> },
    WrongOwner { path: Seq<char>, owner: u32, me: u32 },
    TooOpen { path: Seq<char>, mode: u32 },
    PathTooLong { path: Seq<char>, len: nat, max: nat },
}

impl View for HomeError {
    type V = HomeFault;

    open spec fn view(&self) -> HomeFault {
        match self {
            HomeError::Create { path, source } => HomeFault::Create { path: path@, source: source@ },
            HomeError::Stat { path, source } => HomeFault::Stat { path: path@, source: source@ },
            HomeError::WrongOwner { path, owner, me } => HomeFault::WrongOwner {
                path: path@,
                owner: *owner,
                me: *me,
            },
            HomeError::TooOpen { path, mode } => HomeFault::TooOpen { path: path@, mode: *mode },
            HomeError::PathTooLong { path, len, max } => HomeFault::PathTooLong {
                path: path@,
                len: *len as nat,
                max: *max as nat,
            },
        }
    }
}

/// The text of a fault, with what to do about it.
pub open spec fn home_fault_text(f: HomeFault) -> Seq<char> {
    match f {
        HomeFault::Create { path, source } => "无法创建 AGORA_HOME "@ + path + ": "@ + source,
        HomeFault::Stat { path, source } => "无法读取 AGORA_HOME "@ + path + ": "@ + source,
        HomeFault::WrongOwner { path, owner, me } => "AGORA_HOME "@ + path + " 不属于当前用户（uid "@
            + num::decimal(owner as nat) + " ≠ "@ + num::decimal(me as nat)
            + "）；请换目录或 chown -R "@ + num::decimal(me as nat) + " "@ + path,
        HomeFault::TooOpen { path, mode } => "AGORA_HOME "@ + path + " 权限过宽（"@ + octal(mode as nat)
            + "）：其他用户能读到凭据与 socket；请执行 chmod 700 "@ + path,
        HomeFault::PathTooLong { path, len, max } => "AGORA_HOME "@ + path + " 太长：socket 路径 "@
            + num::decimal(len) + " 字节超过系统上限 "@ + num::decimal(max)
            + "；请用 AGORA_HOME 指向更短的目录"@,
    }
}

impl HomeError {
    /// The text of a fault, with what to do about it.
    pub fn message(&self) -> (out: String)
        ensures
            out@ == home_fault_text(self@),
    {
        match self {
            HomeError::Create { path, source } => {
                let mut out = text::cat3("无法创建 AGORA_HOME ", path.as_str(), ": ");
                text::push_str(&mut out, source.as_str());
                out
            },
            HomeError::Stat { path, source } => {
                let mut out = text::cat3("无法读取 AGORA_HOME ", path.as_str(), ": ");
                text::push_str(&mut out, source.as_str());
                out
            },
            HomeError::WrongOwner { path, owner, me } => {
                let mine = num::to_decimal(*me as u64);
                let mut out = text::cat3("AGORA_HOME ", path.as_str(), " 不属于当前用户（uid ");
                text::push_str(&mut out, num::to_decimal(*owner as u64).as_str());
                text::push_str(&mut out, " ≠ ");
                text::push_str(&mut out, mine.as_str());
                text::push_str(&mut out, "）；请换目录或 chown -R ");
                text::push_str(&mut out, mine.as_str());
                text::push_str(&mut out, " ");
                text::push_str(&mut out, path.as_str());
                out
            },
            HomeError::TooOpen { path, mode } => {
                let mut out = text::cat3("AGORA_HOME ", path.as_str(), " 权限过宽（");
                text::push_str(&mut out, to_octal(*mode).as_str());
                text::push_str(&mut out, "）：其他用户能读到凭据与 socket；请执行 chmod 700 ");
                text::push_str(&mut out, path.as_str());
                out
            },
            HomeError::PathTooLong { path, len, max } => {
                let mut out = text::cat3("AGORA_HOME ", path.as_str(), " 太长：socket 路径 ");
                text::push_str(&mut out, num::to_decimal(*len as u64).as_str());
                text::push_str(&mut out, " 字节超过系统上限 ");
                text::push_str(&mut out, num::to_decimal(*max as u64).as_str());
                text::push_str(&mut out, "；请用 AGORA_HOME 指向更短的目录");
                out
            },
        }
    }
}

/// The home directory: the one that is named, else one in the user's, else one here. `named` and `user`
/// are what the environment says.
pub fn resolve_home(named: Option<&str>, user: Option<&str>) -> (out: String)
    ensures
        out@ == (match (named, user) {
            (Some(h), _) => h@,
            (None, Some(u)) => joined_path(u@, ".agora"@),
            (None, None) => ".agora"@,
        }),
{
    match named {
        Some(h) => h.to_owned(),
        None => match user {
            Some(u) => join_path(u, ".agora"),
            None => ".agora".to_owned(),
        },
    }
}

/// What is known of a home directory that is there.
#[derive(Clone, Copy, Debug, PartialEq, Eq, Structural)]
pub struct HomeFacts {
    pub owner: u32,
    pub mode: u32,
}

/// How long the path of the socket in a home directory is, in bytes.
pub open spec fn socket_len(path: Seq<char>) -> nat {
    encode_utf8(joined_path(path, SOCKET_FILE@)).len()
}

/// Why a path is no home directory, before it is looked at.
pub open spec fn path_fault(path: Seq<char>, max: nat) -> Option<HomeFault> {
    if socket_len(path) > max {
        Some(HomeFault::PathTooLong { path, len: socket_len(path), max })
    } else {
        None
    }
}

/// Why a directory is not used as home: it is another's, or open to others.
pub open spec fn facts_fault(path: Seq<char>, facts: HomeFacts, me: u32) -> Option<HomeFault> {
    if facts.owner != me {
        Some(HomeFault::WrongOwner { path, owner: facts.owner, me })
    } else if (facts.mode & 0o777) & 0o077 != 0 {
        Some(HomeFault::TooOpen { path, mode: facts.mode & 0o777 })
    } else {
        None
    }
}

/// How a home directory is made sure of: each step is named by what is being done.
#[derive(Clone, Copy, Debug, PartialEq, Eq, Structural)]
pub enum HomeStep {
    /// It is made, for its owner alone.
    Create,
    /// It is looked at.
    Inspect,
}

/// What to do first: a directory that is not there is made. `max` is how long the path of a socket may be.
pub fn begin_home(path: &str, max: usize, exists: bool) -> (r: Result<HomeStep, HomeError>)
    ensures
        match r {
            Ok(s) => path_fault(path@, max as nat) is None && s == (if exists {
                HomeStep::Inspect
            } else {
                HomeStep::Create
            }),
            Err(e) => path_fault(path@, max as nat) == Some(e@),
        },
{
    let socket = join_path(path, SOCKET_FILE);
    let len: usize = socket.as_str().as_bytes().len();
    if len > max {
        return Err(HomeError::PathTooLong { path: path.to_owned(), len, max });
    }
    if exists {
        Ok(HomeStep::Inspect)
    } else {
        Ok(HomeStep::Create)
    }
}

/// Whether a directory is used as home, by what is known of it. `me` is the user that runs this.
pub fn ensure_home(path: &str, facts: HomeFacts, me: u32) -> (r: Result<(), HomeError>)
    ensures
        match r {
            Ok(()) => facts_fault(path@, facts, me) is None,
            Err(e) => facts_fault(path@, facts, me) == Some(e@),
        },
{
    if facts.owner != me {
        return Err(HomeError::WrongOwner { path: path.to_owned(), owner: facts.owner, me });
    }
    let mode: u32 = facts.mode & 0o777;
    if mode & 0o077 != 0 {
        return Err(HomeError::TooOpen { path: path.to_owned(), mode });
    }
    Ok(())
}

/// What is asked for on the socket.
#[derive(Debug, PartialEq, Eq)]
pub enum Request {
    Ping,
    Pair { origin: Option<String> },
    /// A report was put into the inbox.
    Hook { path: String },
}

/// What is answered.
#[derive(Debug, PartialEq, Eq)]
pub enum Response {
    Pong,
    Pair { url: String },
    Hook { decision: Decision },
    Error { message: String },
}

/// The model of a [`Response`].
pub enum Reply {
    Pong,
    Pair { url: Seq<char> },
    Hook { decision: Answer },
    Error { message: Seq<char> },
}

impl View for Response {
    type V = Reply;

    open spec fn view(&self) -> Reply {
        match self {
            Response::Pong => Reply::Pong,
            Response::Pair { url } => Reply::Pair { url: url@ },
            Response::Hook { decision } => Reply::Hook { decision: decision@ },
            Response::Error { message } => Reply::Error { message: message@ },
        }
    }
}

/// The link for a token, to the site that was asked for or else to this node.
pub open spec fn link_text(origin: Option<Seq<char>>, own: Seq<char>, token: Seq<char>) -> Seq<char> {
    without_last(text::or_else(origin, own), '/') + "/#pair="@ + token
}

/// Answers the wish for a link: one is made unless there are as many as there may be. `own` is the address
/// of this node, `now` the time by which links end; the new one ends after the time that links are given.
pub fn answer_pair(auth: &mut Auth, origin: Option<&str>, own: &str, now: u64) -> (r: Response)
    requires
        now + old(auth)@.cfg.pair_ttl * 1000 <= u64::MAX,
    ensures
        final(auth)@.cfg == old(auth)@.cfg,
        final(auth)@.devices == old(auth)@.devices,
        ({
            let l = live(old(auth)@.pending, now as int);
            if l.len() >= old(auth)@.cfg.pair_pending_max {
                final(auth)@.pending == l && r@ == (Reply::Error {
                    message: denial_text(
                        Denial::PairPendingLimit(old(auth)@.cfg.pair_pending_max as nat),
                    ),
                })
            } else {
                match r@ {
                    Reply::Pair { url } => exists|token: Seq<char>|
                        {
                            &&& is_token(token)
                            &&& final(auth)@.pending == l.push(
                                Link {
                                    token,
                                    expires_at: now + old(auth)@.cfg.pair_ttl * 1000,
                                    via: PairedVia::Socket,
                                },
                            )
                            &&& url == #[trigger] link_text(opt_str(origin), own@, token)
                        },
                    Reply::Error { message } => message == denial_text(Denial::NoRandom)
                        && final(auth)@.pending == old(auth)@.pending,
                    _ => false,
                }
            }
        }),
{
    match auth.mint_pair_token(PairedVia::Socket, now) {
        Ok(token) => {
            let url = Auth::pair_link(
                match origin {
                    Some(o) => o,
                    None => own,
                },
                token.as_str(),
            );
            assert(url@ == link_text(opt_str(origin), own@, token@));
            Response::Pair { url }
        },
        Err(e) => Response::Error { message: e.message() },
    }
}

/// Why the socket is not used.
#[derive(Debug, PartialEq, Eq)]
pub enum SocketError {
    AlreadyRunning(String),
    Io { path: String, source: String },
    NotRunning(String),
    Protocol(String),
}

/// The model of a [`SocketError`].
pub enum SocketFault {
    AlreadyRunning(Seq<char>),
    Io { path: Seq<char>, source: Seq<char> },
    NotRunning(Seq<char>),
    Protocol(Seq<char>),
}

impl View for SocketError {
    type V = SocketFault;

    open spec fn view(&self) -> SocketFault {
        match self {
            SocketError::AlreadyRunning(p) => SocketFault::AlreadyRunning(p@),
            SocketError::Io { path, source } => SocketFault::Io { path: path@, source: source@ },
            SocketError::NotRunning(p) => SocketFault::NotRunning(p@),
            SocketError::Protocol(s) => SocketFault::Protocol(s@),
        }
    }
}

impl SocketError {
    /// The text of a fault.
    pub fn message(&self) -> (out: String)
        ensures
            out@ == (match self@ {
                SocketFault::AlreadyRunning(p) => "另一个 daemon 已在 "@ + p + " 上监听"@,
                SocketFault::Io { path, source } => "socket "@ + path + ": "@ + source,
                SocketFault::NotRunning(p) => "daemon 未运行（"@ + p + " 连不上）；先启动 agora"@,
                SocketFault::Protocol(s) => "应答不是合法 JSON: "@ + s,
            }),
    {
        match self {
            SocketError::AlreadyRunning(p) => text::cat3(
                "另一个 daemon 已在 ",
                p.as_str(),
                " 上监听",
            ),
            SocketError::Io { path, source } => {
                let mut out = text::cat3("socket ", path.as_str(), ": ");
                text::push_str(&mut out, source.as_str());
                out
            },
            SocketError::NotRunning(p) => text::cat3(
                "daemon 未运行（",
                p.as_str(),
                " 连不上）；先启动 agora",
            ),
            SocketError::Protocol(s) => text::cat("应答不是合法 JSON: ", s.as_str()),
        }
    }
}

/// How the socket is bound.
#[derive(Clone, Copy, Debug, PartialEq, Eq, Structural)]
pub enum BindStep {
    /// It is bound.
    Bind,
    /// A file that nobody listens at is taken away first.
    Replace,
}

/// How the socket is bound: where another daemon listens nothing is touched. `exists` says whether there is
/// a file, `answers` whether someone listens there.
pub fn bind(path: &str, exists: bool, answers: bool) -> (r: Result<BindStep, SocketError>)
    ensures
        match r {
            Ok(s) => !(exists && answers) && s == (if exists {
                BindStep::Replace
            } else {
                BindStep::Bind
            }),
            Err(e) => exists && answers && e@ == SocketFault::AlreadyRunning(path@),
        },
{
    if !exists {
        Ok(BindStep::Bind)
    } else if answers {
        Err(SocketError::AlreadyRunning(path.to_owned()))
    } else {
        Ok(BindStep::Replace)
    }
}

/// The file of the socket that was bound here.
#[derive(Clone, Copy, Debug, PartialEq, Eq, Structural)]
pub struct SocketCleanup {
    pub dev: u64,
    pub ino: u64,
}

impl SocketCleanup {
    /// Whether the file that is there in the end is taken away: it is the one that was bound here. `found`
    /// is the device and the number of the file that is there.
    pub fn remove(&self, found: Option<(u64, u64)>) -> (r: bool)
        ensures
            r == (found == Some((self.dev, self.ino))),
    {
        match found {
            Some((dev, ino)) => dev == self.dev && ino == self.ino,
            None => false,
        }
    }
}

/// Whether the one at the other end of the socket is heard: it is the same user.
pub fn is_heard(uid: u32, me: u32) -> (r: bool)
    ensures
        r == (uid == me),
{
    uid == me
}

/// What is answered to what is no request.
pub fn not_a_request(reason: &str) -> (r: Response)
    ensures
        r@ == (Reply::Error { message: "请求不是合法 JSON: "@ + reason@ }),
{
    Response::Error { message: text::cat("请求不是合法 JSON: ", reason) }
}

/// A home directory that is used is this user's and nobody else's.
pub proof fn lemma_home_is_private(path: Seq<char>, facts: HomeFacts, me: u32)
    requires
        facts_fault(path, facts, me) is None,
    ensures
        facts.owner == me,
        facts.mode & 0o077 == 0,
{
    let m = facts.mode;
    assert((m & 0o777) & 0o077 == 0 ==> m & 0o077 == 0) by (bit_vector);
}

/// A home is taken where it belongs to the user and lets nobody else in, and no other is.
pub proof fn lemma_which_homes_are_taken(path: Seq<char>, facts: HomeFacts, me: u32)
    ensures
        facts_fault(path, facts, me) is None <==> facts.owner == me && facts.mode % 64 == 0,
{
    let mode = facts.mode;
    assert((mode & 0o777) & 0o077 == 0 <==> mode % 64 == 0) by (bit_vector);
}

/// A home is refused where the path of the socket in it is longer than the system takes, by a byte or more.
pub proof fn lemma_how_long_a_home_may_be(path: Seq<char>, max: nat)
    ensures
        path_fault(path, max) is None <==> socket_len(path) <= max,
        path_fault(path, socket_len(path)) is None,
{
}

} // verus!
