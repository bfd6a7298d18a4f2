//! One step from node to node: a request for a session of another node is sent on to it, once.

use crate::api::{ApiError, Refusal};
use crate::auth::{Principal, Who};
use crate::text::{self, opt_str};
use vstd::prelude::*;

verus! {

/// What a node is to this one.
#[derive(Clone, Copy, Debug, PartialEq, Eq, Structural)]
pub enum Route {
    Local,
    Peer,
    Unknown,
}

/// Where a request goes.
#[derive(Debug, PartialEq, Eq)]
pub enum Hop {
    /// It stays here, with the id on this node.
    Local(String),
    /// It is sent on; `retry` says that the connection is to be tried now.
    Peer { retry: bool },
}

/// The model of a [`Hop`].
pub enum Way {
    Local(Seq<char>),
    Peer { retry: bool },
}

impl View for Hop {
    type V = Way;

    open spec fn view(&self) -> Way {
        match self {
            Hop::Local(id) => Way::Local(id@),
            Hop::Peer { retry } => Way::Peer { retry: *retry },
        }
    }
}

/// What a request for a session of an unknown node is answered.
pub open spec fn node_unknown(local: Seq<char>, node: Seq<char>) -> Refusal {
    Refusal {
        status: 404,
        kind: "node_unknown"@,
        message: "会话属于节点 "@ + node + "，本节点是 "@ + local + "，它也不是已配置的 peer"@,
    }
}

/// What another node's request for a session of a third node is answered.
pub open spec fn second_hop(local: Seq<char>, node: Seq<char>, from: Seq<char>) -> Refusal {
    Refusal {
        status: 404,
        kind: "node_unknown"@,
        message: "会话属于节点 "@ + node + "；这个请求来自 peer "@ + from + "，本节点 "@ + local
            + " 不做第二跳（ADR-004 一跳）"@,
    }
}

/// Where a request for the session `gid` goes. `route` is what the node in `gid` is to this one, `stale`
/// whether what is known of it is old. An id without a node is one of this node.
pub open spec fn way(
    local: Seq<char>,
    gid: Seq<char>,
    route: Route,
    stale: bool,
    who: Who,
) -> Result<Way, Refusal> {
    match text::parted(gid, ':') {
        None => Ok(Way::Local(gid)),
        Some((node, id)) => match route {
            Route::Local => Ok(Way::Local(id)),
            Route::Peer => match who {
                Who::Peer { name } => Err(second_hop(local, node, name)),
                Who::Human { .. } => Ok(Way::Peer { retry: stale }),
            },
            Route::Unknown => Err(node_unknown(local, node)),
        },
    }
}

/// The node in the id of a session, where there is one.
pub fn node_of(gid: &str) -> (r: Option<String>)
    ensures
        text::opt_text(r) == (match text::parted(gid@, ':') {
            Some((node, _)) => Some(node),
            None => None,
        }),
{
    match text::split_once(gid, ':') {
        Some((node, _)) => Some(node),
        None => None,
    }
}

/// The answer to a request for a session of an unknown node.
pub(crate) fn refuse_unknown(local: &str, node: &str) -> (r: ApiError)
    ensures
        r@ == node_unknown(local@, node@),
{
    let mut message = text::cat3("会话属于节点 ", node, "，本节点是 ");
    text::push_str(&mut message, local);
    text::push_str(&mut message, "，它也不是已配置的 peer");
    ApiError { status: 404, kind: "node_unknown", message }
}

/// The answer to another node's request for a session of a third node.
pub(crate) fn refuse_second_hop(local: &str, node: &str, from: &str) -> (r: ApiError)
    ensures
        r@ == second_hop(local@, node@, from@),
{
    let mut message = text::cat3("会话属于节点 ", node, "；这个请求来自 peer ");
    text::push_str(&mut message, from);
    text::push_str(&mut message, "，本节点 ");
    text::push_str(&mut message, local);
    text::push_str(&mut message, " 不做第二跳（ADR-004 一跳）");
    ApiError { status: 404, kind: "node_unknown", message }
}

/// Where a request for the session `gid` goes.
pub fn hop(local: &str, gid: &str, route: Route, stale: bool, principal: &Principal) -> (r: Result<
    Hop,
    ApiError,
>)
    ensures
        match r {
            Ok(h) => way(local@, gid@, route, stale, principal@) == Ok::<Way, Refusal>(h@),
            Err(e) => way(local@, gid@, route, stale, principal@) == Err::<Way, Refusal>(e@),
        },
{
    match text::split_once(gid, ':') {
        None => Ok(Hop::Local(gid.to_owned())),
        Some((node, id)) => match route {
            Route::Local => Ok(Hop::Local(id)),
            Route::Peer => match principal {
                Principal::Peer { name } => Err(
                    refuse_second_hop(local, node.as_str(), name.as_str()),
                ),
                Principal::Human { .. } => Ok(Hop::Peer { retry: stale }),
            },
            Route::Unknown => Err(refuse_unknown(local, node.as_str())),
        },
    }
}

/// The path of a request for a session, as it is sent on.
pub open spec fn path_text(gid: Seq<char>, suffix: Seq<char>, query: Option<Seq<char>>) -> Seq<char> {
    "/api/sessions/"@ + gid + suffix + (match query {
        Some(q) => "?"@ + q,
        None => ""@,
    })
}

/// The path of a request for a session, as it is sent on.
pub fn session_path(gid: &str, suffix: &str, query: Option<&str>) -> (out: String)
    ensures
        out@ == path_text(gid@, suffix@, opt_str(query)),
{
    let mut out = text::cat3("/api/sessions/", gid, suffix);
    let tail = match query {
        Some(q) => text::cat("?", q),
        None => "".to_owned(),
    };
    text::push_str(&mut out, tail.as_str());
    out
}

/// Why a request could not be sent on.
#[derive(Clone, Copy, Debug, PartialEq, Eq, Structural)]
pub enum TransportError {
    /// The other node showed another certificate than it should.
    FingerprintMismatch,
    Config,
    Tls,
    /// It refused, with this status.
    WsRejected(u16),
    Timeout,
    Unreachable,
    Protocol,
}

/// The status and the kind of the answer to a request that could not be sent on. Another certificate is a
/// kind of its own, and never passes for a node that is away.
pub open spec fn transport_kind(e: TransportError) -> (int, Seq<char>) {
    match e {
        TransportError::FingerprintMismatch => (502, "peer_fingerprint_mismatch"@),
        TransportError::Config => (502, "peer_config"@),
        TransportError::Tls => (502, "peer_config"@),
        TransportError::WsRejected(status) => (status as int, "peer_rejected"@),
        TransportError::Timeout => (502, "peer_unreachable"@),
        TransportError::Unreachable => (502, "peer_unreachable"@),
        TransportError::Protocol => (502, "peer_unreachable"@),
    }
}

/// The answer to a request that could not be sent on to `peer`; `reason` is the error in words.
pub fn transport_failed(peer: &str, err: TransportError, reason: &str) -> (r: ApiError)
    ensures
        r@.status == transport_kind(err).0,
        r@.kind == transport_kind(err).1,
        r@.message == "转发到 peer "@ + peer@ + " 失败: "@ + reason@,
{
    let (status, kind): (u16, &'static str) = match err {
        TransportError::FingerprintMismatch => (502, "peer_fingerprint_mismatch"),
        TransportError::Config => (502, "peer_config"),
        TransportError::Tls => (502, "peer_config"),
        TransportError::WsRejected(status) => (status, "peer_rejected"),
        TransportError::Timeout => (502, "peer_unreachable"),
        TransportError::Unreachable => (502, "peer_unreachable"),
        TransportError::Protocol => (502, "peer_unreachable"),
    };
    let mut message = text::cat3("转发到 peer ", peer, " 失败: ");
    text::push_str(&mut message, reason);
    ApiError { status, kind, message }
}

/// The answer to a request that failed in this node itself.
pub fn internal(message: &str) -> (r: ApiError)
    ensures
        r@ == (Refusal { status: 500, kind: "internal"@, message: message@ }),
{
    ApiError { status: 500, kind: "internal", message: message.to_owned() }
}

/// Whether a text between nodes says that the session ended. `kind` is the type that the text gives for
/// itself, where it can be read for one; what stands in its parts does not count.
pub fn is_exit_frame(kind: Option<&str>) -> (r: bool)
    ensures
        r == (opt_str(kind) == Some("exit"@)),
{
    text::is_text(kind, "exit")
}

/// What comes from one of the two ends.
#[derive(Clone, Copy, Debug, PartialEq, Eq, Structural)]
pub enum Frame {
    /// Nothing more, or an error.
    Gone,
    /// A part of a message, which is for the one who reads it only.
    Raw,
    Close,
    /// A text that says that the session ended.
    Exit,
    /// Anything else.
    Other,
}

/// What is done with it.
#[derive(Clone, Copy, Debug, PartialEq, Eq, Structural)]
pub enum Pass {
    /// It is passed on, and the line stays.
    On,
    /// It is passed on, and the line ends.
    Last,
    /// Nothing, and the line stays.
    Skip,
    /// Nothing, and the line ends.
    End,
}

/// What is done with a frame of the browser.
pub open spec fn from_browser(f: Frame) -> Pass {
    match f {
        Frame::Gone => Pass::End,
        Frame::Close => Pass::Last,
        _ => Pass::On,
    }
}

/// What is done with a frame of the other node.
pub open spec fn from_peer(f: Frame) -> Pass {
    match f {
        Frame::Gone => Pass::End,
        Frame::Raw => Pass::Skip,
        Frame::Close => Pass::Last,
        Frame::Exit => Pass::Last,
        Frame::Other => Pass::On,
    }
}

/// What is done with a frame of the browser.
pub fn pass_to_peer(f: Frame) -> (r: Pass)
    ensures
        r == from_browser(f),
{
    match f {
        Frame::Gone => Pass::End,
        Frame::Close => Pass::Last,
        _ => Pass::On,
    }
}

/// What is done with a frame of the other node.
pub fn pass_to_browser(f: Frame) -> (r: Pass)
    ensures
        r == from_peer(f),
{
    match f {
        Frame::Gone => Pass::End,
        Frame::Raw => Pass::Skip,
        Frame::Close => Pass::Last,
        Frame::Exit => Pass::Last,
        Frame::Other => Pass::On,
    }
}

/// A request is sent on once: what comes from another node stays here or is refused, whatever nodes this
/// one knows.
pub proof fn lemma_one_hop(
    local: Seq<char>,
    gid: Seq<char>,
    route: Route,
    stale: bool,
    name: Seq<char>,
)
    ensures
        !(way(local, gid, route, stale, Who::Peer { name }) matches Ok(Way::Peer { .. })),
{
}

/// A session of this node is reached by its id with the node and without it alike.
pub proof fn lemma_local_either_way(local: Seq<char>, id: Seq<char>, stale: bool, who: Who)
    requires
        !id.contains(':'),
        !local.contains(':'),
    ensures
        way(local, id, Route::Local, stale, who) == Ok::<Way, Refusal>(Way::Local(id)),
        way(local, crate::events::global(local, id), Route::Local, stale, who) == Ok::<
            Way,
            Refusal,
        >(Way::Local(id)),
{
    reveal_strlit(":");
    let g = crate::events::global(local, id);
    assert(g[local.len() as int] == ':');
    assert(g.contains(':'));
    g.index_of_first_ensures(':');
    let i = g.index_of_first(':')->0;
    if i < local.len() {
        assert(g[i] == local[i]);
        assert(local.contains(':'));
    }
    assert(i == local.len());
    assert(g.skip(i + 1) =~= id);
}

/// The name of a session on a node is the node, a colon and its id there.
pub(crate) proof fn lemma_global_parts(node: Seq<char>, id: Seq<char>)
    requires
        !node.contains(':'),
    ensures
        text::parted(crate::events::global(node, id), ':') == Some((node, id)),
{
    reveal_strlit(":");
    assert(":"@ =~= seq![':']);
    text::lemma_parted(node, ':', id);
}

/// A request for a session of another node goes to that node where it is one that is known, and comes from a
/// human; from another node it is refused, and so is one for a node that is not known, whoever asks. What is
/// refused is refused as not found.
pub proof fn lemma_where_a_request_goes(
    local: Seq<char>,
    node: Seq<char>,
    id: Seq<char>,
    route: Route,
    stale: bool,
    who: Who,
)
    requires
        !node.contains(':'),
    ensures
        ({
            let w = way(local, crate::events::global(node, id), route, stale, who);
            &&& route is Local <==> w is Ok && w->Ok_0 is Local
            &&& w is Ok && w->Ok_0 is Local ==> w->Ok_0->Local_0 == id
            &&& route is Peer && who is Human <==> w is Ok && w->Ok_0 is Peer
            &&& w is Ok && w->Ok_0 is Peer ==> w->Ok_0->retry == stale
            &&& w is Err ==> w->Err_0.status == 404 && w->Err_0.kind == "node_unknown"@
        }),
{
    lemma_global_parts(node, id);
}

/// What is asked of another node is what was asked here: the same session, what is to be done with it, and
/// the same query.
pub proof fn lemma_path(gid: Seq<char>, suffix: Seq<char>, q: Seq<char>)
    ensures
        path_text(gid, suffix, Some(q)) == path_text(gid, suffix, None) + "?"@ + q,
        path_text(gid, suffix, None) == "/api/sessions/"@ + gid + suffix,
{
    reveal_strlit("");
    assert(""@ =~= Seq::<char>::empty());
    assert("/api/sessions/"@ + gid + suffix + ""@ =~= "/api/sessions/"@ + gid + suffix);
    assert("/api/sessions/"@ + gid + suffix + ("?"@ + q) =~= "/api/sessions/"@ + gid + suffix + "?"@ + q);
}

/// A refusal of the other node is told with its own status; whatever else goes wrong on the way is told as a
/// bad gateway, and a certificate that is not the expected one has a word of its own.
pub proof fn lemma_what_goes_wrong_on_the_way(e: TransportError)
    ensures
        e matches TransportError::WsRejected(status) ==> transport_kind(e).0 == status,
        !(e is WsRejected) ==> transport_kind(e).0 == 502,
        e is FingerprintMismatch <==> transport_kind(e).1 == "peer_fingerprint_mismatch"@,
        e is Timeout || e is Unreachable || e is Protocol <==> transport_kind(e).1
            == "peer_unreachable"@,
        e is Config || e is Tls <==> transport_kind(e).1 == "peer_config"@,
        e is WsRejected <==> transport_kind(e).1 == "peer_rejected"@,
{
    reveal_strlit("peer_fingerprint_mismatch");
    reveal_strlit("peer_unreachable");
    reveal_strlit("peer_config");
    reveal_strlit("peer_rejected");
    assert("peer_fingerprint_mismatch"@.len() == 25);
    assert("peer_unreachable"@.len() == 16);
    assert("peer_config"@.len() == 11);
    assert("peer_rejected"@.len() == 13);
}

/// A line between a browser and another node ends where either side is gone or says goodbye, and where the
/// other node says that the session ended; until then it stays. A goodbye and an end are passed on, and a
/// side that is gone has nothing to pass on.
pub proof fn lemma_when_a_line_ends(f: Frame)
    ensures
        from_browser(f) is End || from_browser(f) is Last <==> f is Gone || f is Close,
        from_peer(f) is End || from_peer(f) is Last <==> f is Gone || f is Close || f is Exit,
        from_browser(f) is On || from_browser(f) is Last <==> !(f is Gone),
        from_peer(f) is On || from_peer(f) is Last <==> !(f is Gone) && !(f is Raw),
{
}

} // verus!
