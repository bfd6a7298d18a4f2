//! The interface over HTTP: what each request is answered.

pub mod agents;
pub mod auth;
pub mod changes;
pub mod events;
pub mod forward;
pub mod health;
pub mod projects;
pub mod sessions;
pub mod spa;
pub mod terminal;
pub mod version;

pub use health::RuntimeHealth;
pub use version::api_version;

use crate::auth::{denial_text, AuthError, Denial};
use crate::json::{self, Json, JsonView};
use crate::text;
use vstd::prelude::*;

verus! {

/// An address of the internet protocol.
#[derive(Clone, Copy, Debug, PartialEq, Eq, Structural)]
pub enum Ip {
    V4(u8, u8, u8, u8),
    V6(u128),
}

/// Where to listen: an address, a port, and both as they are written.
#[derive(Debug, PartialEq, Eq)]
pub struct Address {
    pub ip: Ip,
    pub port: u16,
    pub text: String,
}

/// Whether an address leads back to this machine: one that begins with 127, or the one that is 1.
pub open spec fn loopback(ip: Ip) -> bool {
    match ip {
        Ip::V4(a, _, _, _) => a == 127,
        Ip::V6(n) => n == 1,
    }
}

impl Ip {
    /// Whether an address leads back to this machine.
    pub fn is_loopback(&self) -> (r: bool)
        ensures
            r == loopback(*self),
    {
        match self {
            Ip::V4(a, _, _, _) => *a == 127,
            Ip::V6(n) => *n == 1,
        }
    }
}

/// Why an address is not listened at.
#[derive(Debug, PartialEq, Eq)]
pub enum ListenError {
    /// It is no address.
    Parse(String),
    /// It does not lead back to this machine, and what is sent there is sent in the clear.
    NotLoopback(Address),
}

/// The model of a [`ListenError`].
pub enum ListenFault {
    Parse(Seq<char>),
    NotLoopback(Seq<char>),
}

impl View for ListenError {
    type V = ListenFault;

    open spec fn view(&self) -> ListenFault {
        match self {
            ListenError::Parse(s) => ListenFault::Parse(s@),
            ListenError::NotLoopback(a) => ListenFault::NotLoopback(a.text@),
        }
    }
}

/// The text of a fault.
pub open spec fn listen_fault_text(f: ListenFault) -> Seq<char> {
    match f {
        ListenFault::Parse(s) => "listen 地址无法解析: "@ + s,
        ListenFault::NotLoopback(a) => "明文监听器 "@ + a
            + " 不是 loopback 地址：凭据会明文上网；非 loopback 请配置 server.tls_listen"@,
    }
}

impl ListenError {
    /// The text of a fault.
    pub fn message(&self) -> (out: String)
        ensures
            out@ == listen_fault_text(self@),
    {
        match self {
            ListenError::Parse(s) => text::cat("listen 地址无法解析: ", s.as_str()),
            ListenError::NotLoopback(a) => text::cat3(
                "明文监听器 ",
                a.text.as_str(),
                " 不是 loopback 地址：凭据会明文上网；非 loopback 请配置 server.tls_listen",
            ),
        }
    }
}

/// Why an address is not listened at in the clear.
pub open spec fn listen_fault(addr: Seq<char>, parsed: Option<Address>) -> Option<ListenFault> {
    match parsed {
        None => Some(ListenFault::Parse(addr)),
        Some(a) => if loopback(a.ip) {
            None
        } else {
            Some(ListenFault::NotLoopback(a.text@))
        },
    }
}

/// The address to listen at in the clear: one that leads back to this machine. `parsed` is what `addr`
/// writes, where it writes an address.
pub fn plaintext_listen(addr: &str, parsed: Option<Address>) -> (r: Result<Address, ListenError>)
    ensures
        match r {
            Ok(a) => parsed == Some(a) && loopback(a.ip),
            Err(e) => listen_fault(addr@, parsed) == Some(e@) && (e matches ListenError::NotLoopback(a)
                ==> parsed == Some(a)),
        },
{
    match parsed {
        None => Err(ListenError::Parse(addr.to_owned())),
        Some(a) => if a.ip.is_loopback() {
            Ok(a)
        } else {
            Err(ListenError::NotLoopback(a))
        },
    }
}

/// The requests that are answered: a method, and a path with the names of its parameters.
pub const ROUTES: [(&'static str, &'static str); 18] = [
    ("GET", "/api/health"),
    ("GET", "/api/system"),
    ("GET", "/api/sessions"),
    ("POST", "/api/sessions"),
    ("POST", "/api/sessions/adopt"),
    ("GET", "/api/sessions/{id}"),
    ("PATCH", "/api/sessions/{id}"),
    ("DELETE", "/api/sessions/{id}"),
    ("POST", "/api/sessions/{id}/kill"),
    ("POST", "/api/sessions/{id}/restart"),
    ("POST", "/api/sessions/{id}/cleanup"),
    ("GET", "/api/sessions/{id}/terminal"),
    ("GET", "/api/events"),
    ("POST", "/api/auth/pair"),
    ("POST", "/api/auth/pair/new"),
    ("POST", "/api/auth/logout"),
    ("GET", "/api/auth/devices"),
    ("DELETE", "/api/auth/devices/{id}"),
];

/// The requests that anyone may make.
pub const PUBLIC_ROUTES: [(&'static str, &'static str); 2] = [
    ("GET", "/api/health"),
    ("POST", "/api/auth/pair"),
];

/// A request that is refused: the HTTP status, the kind of the refusal, and its text.
#[derive(Debug, PartialEq, Eq)]
pub struct ApiError {
    pub status: u16,
    pub kind: &'static str,
    pub message: String,
}

/// The model of an [`ApiError`].
pub struct Refusal {
    pub status: int,
    pub kind: Seq<char>,
    pub message: Seq<char>,
}

impl View for ApiError {
    type V = Refusal;

    open spec fn view(&self) -> Refusal {
        Refusal { status: self.status as int, kind: self.kind@, message: self.message@ }
    }
}

/// What a request is answered that was refused for who made it.
pub open spec fn denied(d: Denial) -> Refusal {
    let (status, kind) = match d {
        Denial::Unauthenticated => (401, "unauthenticated"@),
        Denial::BearerRequiresTls => (401, "bearer_requires_tls"@),
        Denial::CrossOrigin => (403, "cross_origin"@),
        Denial::PairInvalid => (401, "pair_invalid"@),
        Denial::PairPendingLimit(_) => (429, "pair_pending_limit"@),
        Denial::DeviceNotFound(_) => (404, "device_not_found"@),
        Denial::Db(_) => (500, "database"@),
        Denial::NoRandom => (500, "internal"@),
    };
    Refusal { status, kind, message: denial_text(d) }
}

impl ApiError {
    /// What a request is answered that was refused for who made it.
    pub fn from_auth(e: &AuthError) -> (r: ApiError)
        ensures
            r@ == denied(e@),
    {
        let (status, kind): (u16, &'static str) = match e {
            AuthError::Unauthenticated => (401, "unauthenticated"),
            AuthError::BearerRequiresTls => (401, "bearer_requires_tls"),
            AuthError::CrossOrigin => (403, "cross_origin"),
            AuthError::PairInvalid => (401, "pair_invalid"),
            AuthError::PairPendingLimit(_) => (429, "pair_pending_limit"),
            AuthError::DeviceNotFound(_) => (404, "device_not_found"),
            AuthError::Db(_) => (500, "database"),
            AuthError::NoRandom => (500, "internal"),
        };
        ApiError { status, kind, message: e.message() }
    }

    /// The body of the answer: the kind as `error`, and the text as `message`.
    pub fn body(&self) -> (r: Json)
        ensures
            r@ == JsonView::Object(
                seq![("error"@, JsonView::Str(self@.kind)), ("message"@, JsonView::Str(self@.message))],
            ),
    {
        json::object2(
            "error",
            Json::Str(self.kind.to_owned()),
            "message",
            Json::Str(self.message.clone()),
        )
    }
}

/// Only addresses that lead back to this machine may be listened at in the clear: of the old kind those that
/// begin with 127, of the new kind the one.
pub proof fn lemma_where_may_be_listened(addr: Seq<char>, a: Address)
    ensures
        listen_fault(addr, None) is Some,
        listen_fault(addr, Some(a)) is None <==> match a.ip {
            Ip::V4(x, _, _, _) => x == 127,
            Ip::V6(n) => n == 1,
        },
{
}

/// What is denied is never told as a success: who is not known is told so with 401, who may not with 403, too
/// much with 429, what is not there with 404, and only a fault of the server as such.
pub proof fn lemma_how_denials_are_told(d: Denial)
    ensures
        denied(d).status == 401 <==> d is Unauthenticated || d is BearerRequiresTls || d is PairInvalid,
        denied(d).status == 403 <==> d is CrossOrigin,
        denied(d).status == 404 <==> d is DeviceNotFound,
        denied(d).status == 429 <==> d is PairPendingLimit,
        denied(d).status == 500 <==> d is Db || d is NoRandom,
        denied(d).message == denial_text(d),
{
}

} // verus!
