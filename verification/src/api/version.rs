//! The version of the interface that a node speaks, and whether two nodes understand each other.

use crate::json::{self, Json, JsonView, Numeral};
use crate::num;
use crate::text;
use vstd::prelude::*;

verus! {

/// A version of the interface.
#[derive(Clone, Copy, Debug, PartialEq, Eq, Structural)]
pub struct ApiVersion {
    pub major: u32,
    pub minor: u32,
}

/// The major version that this node speaks.
pub const API_MAJOR: u32 = 1;

/// The minor version that this node speaks.
pub const API_MINOR: u32 = 1;

/// The version that this node speaks.
pub fn api_version() -> (r: ApiVersion)
    ensures
        r == (ApiVersion { major: API_MAJOR, minor: API_MINOR }),
{
    ApiVersion { major: API_MAJOR, minor: API_MINOR }
}

/// What a node says of itself.
#[derive(Debug, PartialEq, Eq)]
pub struct SystemInfo {
    pub api_version: ApiVersion,
    pub version: String,
    pub node: String,
}

/// How the minor version of a node that is understood stands to this one's.
#[derive(Clone, Copy, Debug, PartialEq, Eq, Structural)]
pub enum Compatibility {
    Same,
    PeerNewer,
    PeerOlder,
}

/// Why a node is not understood.
#[derive(Clone, Copy, Debug, PartialEq, Eq, Structural)]
pub enum Incompatible {
    MajorMismatch { ours: ApiVersion, theirs: ApiVersion },
    Unreadable,
}

/// The member `k` of an object as a number of 32 bits.
pub open spec fn part(v: JsonView, k: Seq<char>) -> Option<u32> {
    match json::member(v, k) {
        Some(JsonView::Int(n)) => if 0 <= n <= u32::MAX {
            Some(n as u32)
        } else {
            None
        },
        _ => None,
    }
}

/// The version that an object writes.
pub open spec fn version_of(v: JsonView) -> Option<ApiVersion> {
    match (part(v, "major"@), part(v, "minor"@)) {
        (Some(major), Some(minor)) => Some(ApiVersion { major, minor }),
        _ => None,
    }
}

/// Whether two versions are understood, and how they stand: the major version decides alone whether, the
/// minor version how.
pub open spec fn compared(ours: ApiVersion, theirs: ApiVersion) -> Result<
    Compatibility,
    Incompatible,
> {
    if ours.major != theirs.major {
        Err(Incompatible::MajorMismatch { ours, theirs })
    } else if theirs.minor == ours.minor {
        Ok(Compatibility::Same)
    } else if theirs.minor > ours.minor {
        Ok(Compatibility::PeerNewer)
    } else {
        Ok(Compatibility::PeerOlder)
    }
}

/// What comes of a node's answer to the question what it is.
pub open spec fn negotiated(ours: ApiVersion, body: JsonView) -> Result<
    Compatibility,
    Incompatible,
> {
    match json::member(body, "api_version"@) {
        Some(v) => match version_of(v) {
            Some(theirs) => compared(ours, theirs),
            None => Err(Incompatible::Unreadable),
        },
        None => Err(Incompatible::Unreadable),
    }
}

/// The text of a version.
pub open spec fn version_text(v: ApiVersion) -> Seq<char> {
    num::decimal(v.major as nat) + "."@ + num::decimal(v.minor as nat)
}

/// The member `k` of an object as a number of 32 bits.
fn part_of(v: &Json, k: &str) -> (r: Option<u32>)
    ensures
        r == part(v@, k@),
{
    match v.get(k) {
        Some(Json::Number(Numeral::Unsigned(n))) => if *n <= 0xffff_ffff {
            Some(*n as u32)
        } else {
            None
        },
        Some(Json::Number(Numeral::Negative(n))) => if 0 <= *n && *n <= 0xffff_ffff {
            Some(*n as u32)
        } else {
            None
        },
        _ => None,
    }
}

impl ApiVersion {
    pub fn new(major: u32, minor: u32) -> (r: Self)
        ensures
            r == (ApiVersion { major, minor }),
    {
        ApiVersion { major, minor }
    }

    /// The version that `value` writes: an object with the numbers `major` and `minor`.
    pub fn from_json(value: &Json) -> (r: Option<ApiVersion>)
        ensures
            r == version_of(value@),
    {
        match (part_of(value, "major"), part_of(value, "minor")) {
            (Some(major), Some(minor)) => Some(ApiVersion { major, minor }),
            _ => None,
        }
    }

    /// Whether this version understands `theirs`, and how they stand.
    pub fn check(self, theirs: ApiVersion) -> (r: Result<Compatibility, Incompatible>)
        ensures
            r == compared(self, theirs),
    {
        check(self, theirs)
    }

    /// The two numbers with a point between them.
    pub fn to_text(&self) -> (out: String)
        ensures
            out@ == version_text(*self),
    {
        let major = num::to_decimal(self.major as u64);
        let minor = num::to_decimal(self.minor as u64);
        text::cat3(major.as_str(), ".", minor.as_str())
    }
}

impl Incompatible {
    /// The text of the refusal.
    pub open spec fn words(self) -> Seq<char> {
        match self {
            Incompatible::MajorMismatch { ours, theirs } => "API 版本不兼容：本方 "@ + version_text(ours)
                + "，对方 "@ + version_text(theirs) + "（major 不同）"@,
            Incompatible::Unreadable => "对方没有报告可识别的 API 版本"@,
        }
    }

    /// The text of the refusal.
    pub fn message(&self) -> (out: String)
        ensures
            out@ == self.words(),
    {
        match self {
            Incompatible::MajorMismatch { ours, theirs } => {
                let a = ours.to_text();
                let b = theirs.to_text();
                let mut out = text::cat3("API 版本不兼容：本方 ", a.as_str(), "，对方 ");
                text::push_str(&mut out, b.as_str());
                text::push_str(&mut out, "（major 不同）");
                out
            },
            Incompatible::Unreadable => "对方没有报告可识别的 API 版本".to_owned(),
        }
    }
}

/// Whether `ours` understands `theirs`, and how they stand.
pub fn check(ours: ApiVersion, theirs: ApiVersion) -> (r: Result<Compatibility, Incompatible>)
    ensures
        r == compared(ours, theirs),
{
    if ours.major != theirs.major {
        Err(Incompatible::MajorMismatch { ours, theirs })
    } else if theirs.minor == ours.minor {
        Ok(Compatibility::Same)
    } else if theirs.minor > ours.minor {
        Ok(Compatibility::PeerNewer)
    } else {
        Ok(Compatibility::PeerOlder)
    }
}

/// Whether `ours` understands the node that answered `system_body`.
pub fn negotiate(ours: ApiVersion, system_body: &Json) -> (r: Result<Compatibility, Incompatible>)
    ensures
        r == negotiated(ours, system_body@),
{
    match system_body.get("api_version") {
        Some(v) => match ApiVersion::from_json(v) {
            Some(theirs) => check(ours, theirs),
            None => Err(Incompatible::Unreadable),
        },
        None => Err(Incompatible::Unreadable),
    }
}

/// The model of a [`SystemInfo`] as a JSON object.
pub open spec fn info_view(info: SystemInfo) -> JsonView {
    JsonView::Object(
        seq![
            (
                "api_version"@,
                JsonView::Object(
                    seq![
                        ("major"@, JsonView::Int(info.api_version.major as int)),
                        ("minor"@, JsonView::Int(info.api_version.minor as int)),
                    ],
                ),
            ),
            ("node"@, JsonView::Str(info.node@)),
            ("version"@, JsonView::Str(info.version@)),
        ],
    )
}

impl SystemInfo {
    /// The object that a node answers with.
    pub fn to_json(&self) -> (r: Json)
        ensures
            r@ == info_view(*self),
    {
        let major = Json::Number(Numeral::Unsigned(self.api_version.major as u64));
        let minor = Json::Number(Numeral::Unsigned(self.api_version.minor as u64));
        let v = Json::Object(vec![("major".to_owned(), major), ("minor".to_owned(), minor)]);
        let r = Json::Object(
            vec![
                ("api_version".to_owned(), v),
                ("node".to_owned(), Json::Str(self.node.clone())),
                ("version".to_owned(), Json::Str(self.version.clone())),
            ],
        );
        proof {
            json::lemma_member_views(v->Object_0@);
            json::lemma_member_views(r->Object_0@);
            assert(v@->Object_0 =~= info_view(*self)->Object_0[0].1->Object_0);
            assert(r@->Object_0 =~= info_view(*self)->Object_0);
        }
        r
    }
}

/// Two nodes with one major version understand each other whatever their minor versions are, two with
/// different ones never do, and the two sides agree on it.
pub proof fn lemma_major_decides(a: ApiVersion, b: ApiVersion)
    ensures
        compared(a, b) is Ok <==> a.major == b.major,
        compared(a, b) is Ok <==> compared(b, a) is Ok,
        compared(a, b) == Ok::<Compatibility, Incompatible>(Compatibility::PeerNewer) <==> compared(b, a)
            == Ok::<Compatibility, Incompatible>(Compatibility::PeerOlder),
{
}

/// What a node says of itself is read back by any node.
pub proof fn lemma_info_is_negotiated(ours: ApiVersion, info: SystemInfo)
    ensures
        negotiated(ours, info_view(info)) == compared(ours, info.api_version),
{
    reveal_strlit("major");
    reveal_strlit("minor");
    let m = info_view(info)->Object_0;
    assert(json::find(m, "api_version"@, 0) == Some(0int));
    let v = m[0].1->Object_0;
    assert("major"@[1] != "minor"@[1]);
    assert(json::find(v, "major"@, 0) == Some(0int));
    assert(json::find(v, "minor"@, 1) == Some(1int));
    assert(json::find(v, "minor"@, 0) == Some(1int));
}

} // verus!
