//! Machine tokens: what a node shows when it asks another one. The node that is asked keeps their hashes only.

use crate::auth::{self, hashed, token_form, AuthError, Denial};
use crate::clock;
use crate::digest;
use crate::hook::inbox::{octal, to_octal};
use crate::num;
use crate::order::{self, Listed};
use crate::text;
use vstd::prelude::*;
use vstd::utf8::encode_utf8;

verus! {

/// What a token begins with.
pub const PREFIX: &'static str = "apt_";

/// How long the secret at the end of a token is.
pub const SECRET_LEN: usize = 43;

/// How long the name of a peer may be.
pub const NAME_MAX: usize = 64;

/// How many seconds lie at least between two notes that a token was used.
pub const LAST_USED_INTERVAL_SECS: u64 = 3600;

/// Why a token is not issued or revoked.
#[derive(Debug, PartialEq, Eq)]
pub enum PeerTokenError {
    InvalidName(String),
    Exists(String),
    NotFound(String),
    /// The system has no random bytes to give.
    NoRandom,
}

/// The model of a [`PeerTokenError`].
pub enum TokenFault {
    InvalidName(Seq<char>),
    Exists(Seq<char>),
    NotFound(Seq<char>),
    NoRandom,
}

impl View for PeerTokenError {
    type V = TokenFault;

    open spec fn view(&self) -> TokenFault {
        match self {
            PeerTokenError::InvalidName(n) => TokenFault::InvalidName(n@),
            PeerTokenError::Exists(n) => TokenFault::Exists(n@),
            PeerTokenError::NotFound(n) => TokenFault::NotFound(n@),
            PeerTokenError::NoRandom => TokenFault::NoRandom,
        }
    }
}

/// The text of a refusal.
pub open spec fn fault_text(f: TokenFault) -> Seq<char> {
    match f {
        TokenFault::InvalidName(n) => "peer 名 "@ + text::debug_text(n) + " 不合法：1–64 个字母、数字、- 或 _"@,
        TokenFault::Exists(n) => "peer "@ + n + " 已有有效的 token；要换新的用 --rotate（旧的立即失效）"@,
        TokenFault::NotFound(n) => "没有为 peer "@ + n + " 签发过 token"@,
        TokenFault::NoRandom => "系统随机源不可用"@,
    }
}

impl PeerTokenError {
    /// The text of a refusal.
    pub fn message(&self) -> (out: String)
        ensures
            out@ == fault_text(self@),
    {
        match self {
            PeerTokenError::InvalidName(n) => text::cat3(
                "peer 名 ",
                text::debug(n.as_str()).as_str(),
                " 不合法：1–64 个字母、数字、- 或 _",
            ),
            PeerTokenError::Exists(n) => text::cat3(
                "peer ",
                n.as_str(),
                " 已有有效的 token；要换新的用 --rotate（旧的立即失效）",
            ),
            PeerTokenError::NotFound(n) => text::cat3("没有为 peer ", n.as_str(), " 签发过 token"),
            PeerTokenError::NoRandom => "系统随机源不可用".to_owned(),
        }
    }
}

/// What the table says of a token.
#[derive(Debug, PartialEq, Eq)]
pub struct PeerToken {
    pub name: String,
    pub created_at: String,
    pub last_used_at: Option<String>,
    pub revoked_at: Option<String>,
}

/// The model of a [`PeerToken`].
pub struct Issued {
    pub name: Seq<char>,
    pub created_at: Seq<char>,
    pub last_used_at: Option<Seq<char>>,
    pub revoked_at: Option<Seq<char>>,
}

impl View for PeerToken {
    type V = Issued;

    open spec fn view(&self) -> Issued {
        Issued {
            name: self.name@,
            created_at: self.created_at@,
            last_used_at: text::opt_text(self.last_used_at),
            revoked_at: text::opt_text(self.revoked_at),
        }
    }
}

impl Listed for PeerToken {
    open spec fn keys(v: Issued) -> (Seq<char>, Seq<char>) {
        (v.name, ""@)
    }

    fn first_key(&self) -> &str {
        self.name.as_str()
    }

    fn second_key(&self) -> &str {
        ""
    }

    fn duplicate(&self) -> (r: PeerToken) {
        PeerToken {
            name: self.name.clone(),
            created_at: self.created_at.clone(),
            last_used_at: text::copy_opt(&self.last_used_at),
            revoked_at: text::copy_opt(&self.revoked_at),
        }
    }
}

/// A row of the table of tokens.
#[derive(Debug, PartialEq, Eq)]
pub struct PeerRow {
    pub token: PeerToken,
    pub token_sha256: String,
}

/// The model of a [`PeerRow`].
pub struct TokenRow {
    pub token: Issued,
    pub hash: Seq<char>,
}

impl View for PeerRow {
    type V = TokenRow;

    open spec fn view(&self) -> TokenRow {
        TokenRow { token: self.token@, hash: self.token_sha256@ }
    }
}

/// The rows of a table.
pub open spec fn rows(v: Seq<PeerRow>) -> Seq<TokenRow> {
    v.map_values(|r: PeerRow| r@)
}

/// Where the row of a peer stands, counted from `i`.
pub open spec fn peer_at(v: Seq<TokenRow>, name: Seq<char>, i: int) -> Option<int>
    decreases v.len() - i,
{
    if i < 0 || i >= v.len() {
        None
    } else if v[i].token.name == name {
        Some(i)
    } else {
        peer_at(v, name, i + 1)
    }
}

/// Whether a text may name a peer: 1 to 64 letters, digits, hyphens and underscores.
pub open spec fn valid_name(s: Seq<char>) -> bool {
    0 < s.len() <= NAME_MAX && forall|i: int| 0 <= i < s.len() ==> digest::base64_char(#[trigger] s[i])
}

/// The name in a token: what stands between the prefix and the 43 characters of the secret, with an
/// underscore before these.
pub open spec fn named(token: Seq<char>) -> Option<Seq<char>> {
    match text::after_prefix(token, PREFIX@) {
        Some(rest) => {
            let cut = rest.len() - SECRET_LEN - 1;
            if cut >= 0 && rest[cut] == '_' && valid_name(rest.take(cut)) && token_form(
                rest.skip(cut + 1),
            ) {
                Some(rest.take(cut))
            } else {
                None
            }
        },
        None => None,
    }
}

/// The token of a peer with a secret.
pub open spec fn token_text(name: Seq<char>, secret: Seq<char>) -> Seq<char> {
    PREFIX@ + name + "_"@ + secret
}

fn is_base64_char(c: char) -> (r: bool)
    ensures
        r == digest::base64_char(c),
{
    ('A' <= c && c <= 'Z') || ('a' <= c && c <= 'z') || ('0' <= c && c <= '9') || c == '-' || c == '_'
}

/// Whether `v[from..to]` holds nothing but letters, digits, hyphens and underscores.
fn all_base64(v: &[char], from: usize, to: usize) -> (r: bool)
    requires
        from <= to <= v@.len(),
    ensures
        r == (forall|i: int| from <= i < to ==> digest::base64_char(#[trigger] v@[i])),
{
    let mut i: usize = from;
    while i < to
        invariant
            from <= i <= to <= v@.len(),
            forall|j: int| from <= j < i ==> digest::base64_char(#[trigger] v@[j]),
        decreases to - i,
    {
        if !is_base64_char(v[i]) {
            return false;
        }
        i += 1;
    }
    true
}

/// Whether a text may name a peer.
pub fn is_valid_name(name: &str) -> (r: bool)
    ensures
        r == valid_name(name@),
{
    let v = text::chars_of(name);
    v.len() > 0 && v.len() <= NAME_MAX && all_base64(&v, 0, v.len())
}

/// The name in a token, where it has the form of one.
pub fn parse(token: &str) -> (r: Option<String>)
    ensures
        text::opt_text(r) == named(token@),
{
    let rest = match text::strip_prefix(token, PREFIX) {
        Some(s) => s,
        None => {
            return None;
        },
    };
    let v = text::chars_of(rest.as_str());
    if v.len() < SECRET_LEN + 1 {
        return None;
    }
    let cut: usize = v.len() - SECRET_LEN - 1;
    if v[cut] != '_' {
        return None;
    }
    let good = cut > 0 && cut <= NAME_MAX && all_base64(&v, 0, cut) && all_base64(
        &v,
        cut + 1,
        v.len(),
    );
    let name = text::string_of_range(&v, 0, cut);
    proof {
        let a = rest@.take(cut as int);
        let b = rest@.skip(cut + 1);
        assert(name@ =~= a);
        if good {
            assert forall|i: int| 0 <= i < a.len() implies digest::base64_char(#[trigger] a[i]) by {
                assert(a[i] == v@[i]);
            }
            assert forall|i: int| 0 <= i < b.len() implies digest::base64_char(#[trigger] b[i]) by {
                assert(b[i] == v@[cut + 1 + i]);
            }
        } else if valid_name(a) && token_form(b) {
            assert forall|i: int| 0 <= i < cut implies digest::base64_char(#[trigger] v@[i]) by {
                assert(a[i] == v@[i]);
            }
            assert forall|i: int| cut + 1 <= i < v@.len() implies digest::base64_char(
                #[trigger] v@[i],
            ) by {
                assert(b[i - cut - 1] == v@[i]);
            }
        }
    }
    if good {
        Some(name)
    } else {
        None
    }
}

/// The token of a peer with a secret.
pub fn mint_with(name: &str, secret: &str) -> (out: String)
    ensures
        out@ == token_text(name@, secret@),
{
    let mut out = text::cat3(PREFIX, name, "_");
    text::push_str(&mut out, secret);
    out
}

/// A new token for a peer, with a secret made of chance.
pub fn mint(name: &str) -> (r: Option<String>)
    ensures
        r matches Some(t) ==> exists|secret: Seq<char>|
            auth::is_token(secret) && t@ == #[trigger] token_text(name@, secret),
{
    match auth::random_token() {
        Some(secret) => Some(mint_with(name, secret.as_str())),
        None => None,
    }
}

/// Whether two hashes are the same. The time this takes depends on their lengths only.
pub fn ct_eq(a: &str, b: &str) -> (r: bool)
    ensures
        r == (a@ == b@),
{
    let x = a.as_bytes();
    let y = b.as_bytes();
    proof {
        vstd::utf8::encode_utf8_decode_utf8(a@);
        vstd::utf8::encode_utf8_decode_utf8(b@);
    }
    if x.len() != y.len() {
        return false;
    }
    let mut diff: u8 = 0;
    let mut i: usize = 0;
    while i < x.len()
        invariant
            i <= x@.len(),
            x@.len() == y@.len(),
            diff == 0 <==> (forall|j: int| 0 <= j < i ==> x@[j] == y@[j]),
        decreases x@.len() - i,
    {
        let p: u8 = x[i];
        let q: u8 = y[i];
        let d: u8 = diff;
        proof {
            assert((d | (p ^ q)) == 0 <==> (d == 0 && p == q)) by (bit_vector);
        }
        diff = d | (p ^ q);
        i += 1;
    }
    proof {
        if diff == 0 {
            assert(x@ =~= y@);
        }
    }
    diff == 0
}

/// Where the row of a peer stands.
fn find_peer(v: &Vec<PeerRow>, name: &str) -> (r: Option<usize>)
    ensures
        match r {
            Some(i) => peer_at(rows(v@), name@, 0) == Some(i as int) && i < v@.len(),
            None => peer_at(rows(v@), name@, 0) is None,
        },
{
    let mut i: usize = 0;
    while i < v.len()
        invariant
            i <= v@.len(),
            peer_at(rows(v@), name@, 0) == peer_at(rows(v@), name@, i as int),
        decreases v@.len() - i,
    {
        proof {
            assert(rows(v@)[i as int] == v@[i as int]@);
        }
        if text::same(v[i].token.name.as_str(), name) {
            return Some(i);
        }
        i += 1;
    }
    None
}

/// The row of a token that is issued at a time.
pub open spec fn issued(name: Seq<char>, token: Seq<char>, at: Seq<char>) -> TokenRow {
    TokenRow {
        token: Issued { name, created_at: at, last_used_at: None, revoked_at: None },
        hash: hashed(token),
    }
}

/// The table with a row for a peer, in place of the one that the peer had.
pub open spec fn with_row(v: Seq<TokenRow>, row: TokenRow) -> Seq<TokenRow> {
    match peer_at(v, row.token.name, 0) {
        Some(i) => v.update(i, row),
        None => v.push(row),
    }
}

/// Whether a token may be issued: the name is one, and the peer has no valid token unless that one is to
/// be replaced.
pub open spec fn refused(v: Seq<TokenRow>, name: Seq<char>, rotate: bool) -> Option<TokenFault> {
    if !valid_name(name) {
        Some(TokenFault::InvalidName(name))
    } else {
        match peer_at(v, name, 0) {
            Some(i) => if v[i].token.revoked_at is None && !rotate {
                Some(TokenFault::Exists(name))
            } else {
                None
            },
            None => None,
        }
    }
}

/// Says why no token may be issued to a peer.
fn check_issue(table: &Vec<PeerRow>, name: &str, rotate: bool) -> (r: Result<(), PeerTokenError>)
    ensures
        match r {
            Ok(()) => refused(rows(table@), name@, rotate) is None,
            Err(e) => refused(rows(table@), name@, rotate) == Some(e@),
        },
{
    if !is_valid_name(name) {
        return Err(PeerTokenError::InvalidName(name.to_owned()));
    }
    match find_peer(table, name) {
        Some(i) => {
            if table[i].token.revoked_at.is_none() && !rotate {
                return Err(PeerTokenError::Exists(name.to_owned()));
            }
        },
        None => {},
    }
    Ok(())
}

/// Issues a token to a peer; the table keeps its hash only.
pub fn create_with(table: &mut Vec<PeerRow>, name: &str, rotate: bool, token: &str, now: i64) -> (r:
    Result<(), PeerTokenError>)
    ensures
        match r {
            Ok(()) => refused(rows(old(table)@), name@, rotate) is None && rows(final(table)@)
                == with_row(
                rows(old(table)@),
                issued(name@, token@, clock::time_text(now as int)),
            ),
            Err(e) => refused(rows(old(table)@), name@, rotate) == Some(e@) && rows(final(table)@)
                == rows(old(table)@),
        },
{
    match check_issue(table, name, rotate) {
        Ok(()) => {},
        Err(e) => {
            return Err(e);
        },
    }
    let row = PeerRow {
        token: PeerToken {
            name: name.to_owned(),
            created_at: clock::format_utc_secs(now),
            last_used_at: None,
            revoked_at: None,
        },
        token_sha256: auth::sha256_hex(token),
    };
    let ghost was = rows(table@);
    let ghost new = row@;
    match find_peer(table, name) {
        Some(i) => {
            table.set(i, row);
            proof {
                assert(rows(table@) =~= was.update(i as int, new));
            }
        },
        None => {
            table.push(row);
            proof {
                assert(rows(table@) =~= was.push(new));
            }
        },
    }
    Ok(())
}

/// Issues a new token to a peer, and hands it out this once.
pub fn create(table: &mut Vec<PeerRow>, name: &str, rotate: bool, now: i64) -> (r: Result<
    String,
    PeerTokenError,
>)
    ensures
        match r {
            Ok(token) => refused(rows(old(table)@), name@, rotate) is None && (exists|
                secret: Seq<char>,
            |
                auth::is_token(secret) && token@ == #[trigger] token_text(name@, secret)) && rows(
                final(table)@,
            ) == with_row(rows(old(table)@), issued(name@, token@, clock::time_text(now as int))),
            Err(e) => (match refused(rows(old(table)@), name@, rotate) {
                Some(f) => e@ == f,
                None => e@ is NoRandom,
            }) && rows(final(table)@) == rows(old(table)@),
        },
{
    match check_issue(table, name, rotate) {
        Ok(()) => {},
        Err(e) => {
            return Err(e);
        },
    }
    match mint(name) {
        Some(token) => match create_with(table, name, rotate, token.as_str(), now) {
            Ok(()) => Ok(token),
            Err(e) => Err(e),
        },
        None => Err(PeerTokenError::NoRandom),
    }
}

/// A row that is revoked since a time.
pub open spec fn withdrawn(row: TokenRow, at: Seq<char>) -> TokenRow {
    TokenRow { token: Issued { revoked_at: Some(at), ..row.token }, ..row }
}

/// A row with the note that it was used at a time.
pub open spec fn used(row: TokenRow, at: Seq<char>) -> TokenRow {
    TokenRow { token: Issued { last_used_at: Some(at), ..row.token }, ..row }
}

/// Revokes the token of a peer; one that is revoked already stays as it is.
pub fn revoke(table: &mut Vec<PeerRow>, name: &str, now: i64) -> (r: Result<(), PeerTokenError>)
    ensures
        match peer_at(rows(old(table)@), name@, 0) {
            Some(i) => r is Ok && rows(final(table)@) == (
            if rows(old(table)@)[i].token.revoked_at is None {
                rows(old(table)@).update(
                    i,
                    withdrawn(rows(old(table)@)[i], clock::time_text(now as int)),
                )
            } else {
                rows(old(table)@)
            }),
            None => r matches Err(e) && e@ == TokenFault::NotFound(name@) && rows(final(table)@)
                == rows(old(table)@),
        },
{
    match find_peer(table, name) {
        Some(i) => {
            let ghost was = rows(table@);
            let row = &table[i];
            if row.token.revoked_at.is_none() {
                let mut token = row.token.duplicate();
                token.revoked_at = Some(clock::format_utc_secs(now));
                let new = PeerRow { token, token_sha256: row.token_sha256.clone() };
                table.set(i, new);
                proof {
                    assert(rows(table@) =~= was.update(i as int, new@));
                }
            }
            Ok(())
        },
        None => Err(PeerTokenError::NotFound(name.to_owned())),
    }
}

/// What the table says of each token, by the names of the peers.
pub fn list(table: &Vec<PeerRow>) -> (r: Vec<PeerToken>)
    ensures
        order::listed::<PeerToken>(order::models(r@)),
        order::models(r@).to_multiset() == rows(table@).map_values(
            |w: TokenRow| w.token,
        ).to_multiset(),
{
    let mut all: Vec<PeerToken> = Vec::new();
    let mut i: usize = 0;
    let ghost want = rows(table@).map_values(|w: TokenRow| w.token);
    proof {
        assert(order::models(all@) =~= want.take(0));
    }
    while i < table.len()
        invariant
            i <= table@.len(),
            want == rows(table@).map_values(|w: TokenRow| w.token),
            order::models(all@) == want.take(i as int),
        decreases table@.len() - i,
    {
        let t = table[i].token.duplicate();
        let ghost was = order::models(all@);
        all.push(t);
        proof {
            assert(order::models(all@) =~= was.push(t@));
            assert(want.take(i + 1) =~= want.take(i as int).push(want[i as int]));
        }
        i += 1;
    }
    proof {
        assert(want.take(i as int) =~= want);
    }
    order::list(&all)
}

/// Where the first white space in `s` stands, counted from `i`.
pub open spec fn white_at(s: Seq<char>, i: int) -> Option<int>
    decreases s.len() - i,
{
    if i < 0 || i >= s.len() {
        None
    } else if text::white(s[i]) {
        Some(i)
    } else {
        white_at(s, i + 1)
    }
}

/// The token in the value of an `Authorization` header: what follows the word `Bearer`, in whatever case.
pub open spec fn bearer(header: Seq<char>) -> Option<Seq<char>> {
    let s = text::trimmed(header);
    match white_at(s, 0) {
        Some(i) => if text::ascii_lower(s.take(i)) == "bearer"@ {
            Some(text::trimmed(s.skip(i + 1)))
        } else {
            None
        },
        None => None,
    }
}

/// The token in the value of an `Authorization` header.
pub fn bearer_token(header: &str) -> (r: Option<String>)
    ensures
        text::opt_text(r) == bearer(header@),
{
    let s = text::trim(header);
    let v = text::chars_of(s.as_str());
    let mut i: usize = 0;
    while i < v.len()
        invariant
            v@ == s@,
            s@ == text::trimmed(header@),
            i <= v@.len(),
            white_at(s@, 0) == white_at(s@, i as int),
        decreases v@.len() - i,
    {
        if text::is_white(v[i]) {
            let scheme = text::string_of_range(&v, 0, i);
            let rest = text::string_of_range(&v, i + 1, v.len());
            proof {
                assert(scheme@ =~= s@.take(i as int));
                assert(rest@ =~= s@.skip(i + 1));
            }
            if text::same(text::to_ascii_lowercase(scheme.as_str()).as_str(), "bearer") {
                return Some(text::trim(rest.as_str()));
            }
            return None;
        }
        i += 1;
    }
    None
}

/// Where the row of the peer stands that a header shows the valid token of.
pub open spec fn shown(v: Seq<TokenRow>, header: Seq<char>) -> Option<int> {
    match bearer(header) {
        Some(token) => match named(token) {
            Some(name) => match peer_at(v, name, 0) {
                Some(i) => if v[i].hash == hashed(token) && v[i].token.revoked_at is None {
                    Some(i)
                } else {
                    None
                },
                None => None,
            },
            None => None,
        },
        None => None,
    }
}

/// Whether the use of a token is noted at `now`: it was not for an hour, or never.
pub open spec fn use_is_due(row: TokenRow, now: int) -> bool {
    match row.token.last_used_at {
        Some(t) => match auth::age(t, now) {
            Some(n) => n >= LAST_USED_INTERVAL_SECS,
            None => true,
        },
        None => true,
    }
}

/// The name of the peer that a header shows the valid token of; its use is noted where that is due.
pub fn authenticate(table: &mut Vec<PeerRow>, authorization: &str, now: i64) -> (r: Result<
    String,
    AuthError,
>)
    ensures
        match shown(rows(old(table)@), authorization@) {
            Some(i) => r matches Ok(name) && name@ == rows(old(table)@)[i].token.name && rows(
                final(table)@,
            ) == (if use_is_due(rows(old(table)@)[i], now as int) {
                rows(old(table)@).update(
                    i,
                    used(rows(old(table)@)[i], clock::time_text(now as int)),
                )
            } else {
                rows(old(table)@)
            }),
            None => r matches Err(e) && e@ == Denial::Unauthenticated && rows(final(table)@) == rows(
                old(table)@,
            ),
        },
{
    let token = match bearer_token(authorization) {
        Some(t) => t,
        None => {
            return Err(AuthError::Unauthenticated);
        },
    };
    let name = match parse(token.as_str()) {
        Some(n) => n,
        None => {
            return Err(AuthError::Unauthenticated);
        },
    };
    let i: usize = match find_peer(table, name.as_str()) {
        Some(i) => i,
        None => {
            return Err(AuthError::Unauthenticated);
        },
    };
    let ghost was = rows(table@);
    let row = &table[i];
    proof {
        lemma_peer_at(was, name@, 0);
        assert(was[i as int] == row@);
    }
    let hash = auth::sha256_hex(token.as_str());
    if !ct_eq(hash.as_str(), row.token_sha256.as_str()) {
        return Err(AuthError::Unauthenticated);
    }
    if row.token.revoked_at.is_some() {
        return Err(AuthError::Unauthenticated);
    }
    let due = match &row.token.last_used_at {
        Some(t) => match clock::age_at(t.as_str(), now) {
            Some(n) => n >= LAST_USED_INTERVAL_SECS,
            None => true,
        },
        None => true,
    };
    if due {
        let mut t = row.token.duplicate();
        t.last_used_at = Some(clock::format_utc_secs(now));
        let new = PeerRow { token: t, token_sha256: row.token_sha256.clone() };
        table.set(i, new);
        proof {
            assert(rows(table@) =~= was.update(i as int, new@));
        }
    }
    Ok(name)
}

proof fn lemma_peer_at(v: Seq<TokenRow>, name: Seq<char>, i: int)
    requires
        0 <= i <= v.len(),
    ensures
        match peer_at(v, name, i) {
            Some(j) => i <= j < v.len() && v[j].token.name == name,
            None => forall|l: int| i <= l < v.len() ==> (#[trigger] v[l]).token.name != name,
        },
    decreases v.len() - i,
{
    if i < v.len() && v[i].token.name != name {
        lemma_peer_at(v, name, i + 1);
    }
}

/// Why the file with a token is not used.
#[derive(Debug, PartialEq, Eq)]
pub enum TokenFileError {
    Read { path: String, source: String },
    WrongOwner { path: String, owner: u32, me: u32 },
    TooOpen { path: String, mode: u32 },
    Malformed { path: String },
}

/// The model of a [`TokenFileError`].
pub enum FileFault {
    Read { path: Seq<char>, source: Seq<char> },
    WrongOwner { path: Seq<char>, owner: u32, me: u32 },
    TooOpen { path: Seq<char>, mode: u32 },
    Malformed { path: Seq<char> },
}

impl View for TokenFileError {
    type V = FileFault;

    open spec fn view(&self) -> FileFault {
        match self {
            TokenFileError::Read { path, source } => FileFault::Read {
                path: path@,
                source: source@,
            },
            TokenFileError::WrongOwner { path, owner, me } => FileFault::WrongOwner {
                path: path@,
                owner: *owner,
                me: *me,
            },
            TokenFileError::TooOpen { path, mode } => FileFault::TooOpen {
                path: path@,
                mode: *mode,
            },
            TokenFileError::Malformed { path } => FileFault::Malformed { path: path@ },
        }
    }
}

/// `n` in octal, with zeros in front up to three digits.
pub open spec fn octal3(n: nat) -> Seq<char> {
    num::zeros(3 - octal(n).len()) + octal(n)
}

fn to_octal3(n: u32) -> (out: String)
    ensures
        out@ == octal3(n as nat),
{
    let o = to_octal(n);
    let k: usize = text::chars_of(o.as_str()).len();
    let mut out = String::new();
    let mut i: usize = k;
    proof {
        assert(out@ =~= num::zeros(0));
    }
    while i < 3
        invariant
            k <= i,
            k < 3 ==> i <= 3,
            k >= 3 ==> i == k,
            out@ == num::zeros(i - k),
        decreases 3 - i,
    {
        out.push('0');
        i += 1;
        proof {
            assert(out@ =~= num::zeros(i - k));
        }
    }
    proof {
        assert(num::zeros(3 - k) =~= out@);
    }
    text::push_str(&mut out, o.as_str());
    out
}

/// The text of a fault.
pub open spec fn file_fault_text(f: FileFault) -> Seq<char> {
    match f {
        FileFault::Read { path, source } => "token_file "@ + path + " 读不到: "@ + source,
        FileFault::WrongOwner { path, owner, me } => "token_file "@ + path + " 属于 uid "@ + num::decimal(
            owner as nat,
        ) + "，不是当前用户 "@ + num::decimal(me as nat),
        FileFault::TooOpen { path, mode } => "token_file "@ + path + " 权限过宽（"@ + octal3(mode as nat)
            + "）：group / other 不得有任何位；请执行 chmod 600 "@ + path,
        FileFault::Malformed { path } => "token_file "@ + path
            + " 的内容不是机器 token（应为一行 apt_<name>_<43 字符>）"@,
    }
}

impl TokenFileError {
    /// The text of a fault.
    pub fn message(&self) -> (out: String)
        ensures
            out@ == file_fault_text(self@),
    {
        match self {
            TokenFileError::Read { path, source } => {
                let mut out = text::cat3("token_file ", path.as_str(), " 读不到: ");
                text::push_str(&mut out, source.as_str());
                out
            },
            TokenFileError::WrongOwner { path, owner, me } => {
                let mut out = text::cat3("token_file ", path.as_str(), " 属于 uid ");
                text::push_str(&mut out, num::to_decimal(*owner as u64).as_str());
                text::push_str(&mut out, "，不是当前用户 ");
                text::push_str(&mut out, num::to_decimal(*me as u64).as_str());
                out
            },
            TokenFileError::TooOpen { path, mode } => {
                let mut out = text::cat3("token_file ", path.as_str(), " 权限过宽（");
                text::push_str(&mut out, to_octal3(*mode).as_str());
                text::push_str(&mut out, "）：group / other 不得有任何位；请执行 chmod 600 ");
                text::push_str(&mut out, path.as_str());
                out
            },
            TokenFileError::Malformed { path } => text::cat3(
                "token_file ",
                path.as_str(),
                " 的内容不是机器 token（应为一行 apt_<name>_<43 字符>）",
            ),
        }
    }
}

/// Whether the file with a token may be read: it is ours, and nobody else has a right to it.
pub open spec fn file_refused(path: Seq<char>, owner: u32, me: u32, mode: u32) -> Option<FileFault> {
    if owner != me {
        Some(FileFault::WrongOwner { path, owner, me })
    } else if (mode & 0o777) & 0o077 != 0 {
        Some(FileFault::TooOpen { path, mode: mode & 0o777 })
    } else {
        None
    }
}

/// Says why the file with a token may not be read. `owner` and `mode` are what the file has, `me` is the
/// user that runs this.
pub fn check_token_file(path: &str, owner: u32, me: u32, mode: u32) -> (r: Result<(), TokenFileError>)
    ensures
        match r {
            Ok(()) => file_refused(path@, owner, me, mode) is None,
            Err(e) => file_refused(path@, owner, me, mode) == Some(e@),
        },
{
    if owner != me {
        return Err(TokenFileError::WrongOwner { path: path.to_owned(), owner, me });
    }
    let bits: u32 = mode & 0o777;
    if bits & 0o077 != 0 {
        return Err(TokenFileError::TooOpen { path: path.to_owned(), mode: bits });
    }
    Ok(())
}

/// The token that a file holds.
pub fn token_in_file(path: &str, content: &str) -> (r: Result<String, TokenFileError>)
    ensures
        match r {
            Ok(t) => t@ == text::trimmed(content@) && named(t@) is Some,
            Err(e) => named(text::trimmed(content@)) is None && e@ == (FileFault::Malformed {
                path: path@,
            }),
        },
{
    let token = text::trim(content);
    match parse(token.as_str()) {
        Some(_) => Ok(token),
        None => Err(TokenFileError::Malformed { path: path.to_owned() }),
    }
}

/// The name in a token is read back exactly, whatever underscores it and the secret hold.
pub proof fn lemma_name_reads_back(name: Seq<char>, secret: Seq<char>)
    requires
        valid_name(name),
        token_form(secret),
    ensures
        named(token_text(name, secret)) == Some(name),
{
    reveal_strlit("apt_");
    reveal_strlit("_");
    let t = token_text(name, secret);
    let rest = name + "_"@ + secret;
    assert(t =~= PREFIX@ + rest);
    assert(text::begins(t, PREFIX@)) by {
        assert(t.subrange(0, 4) =~= PREFIX@);
    }
    assert(t.skip(4) =~= rest);
    let cut = rest.len() - SECRET_LEN - 1;
    assert(cut == name.len());
    assert(rest.take(cut) =~= name);
    assert(rest.skip(cut + 1) =~= secret);
    assert(rest[cut] == '_');
}

proof fn lemma_peer_found(v: Seq<TokenRow>, row: TokenRow, name: Seq<char>, k: int, i: int)
    requires
        0 <= i <= v.len(),
        0 <= k < v.len(),
        v[k].token.name == row.token.name,
    ensures
        peer_at(v.update(k, row), name, i) == peer_at(v, name, i),
    decreases v.len() - i,
{
    if i < v.len() {
        lemma_peer_found(v, row, name, k, i + 1);
    }
}

proof fn lemma_peer_pushed(v: Seq<TokenRow>, row: TokenRow, i: int)
    requires
        0 <= i <= v.len(),
        peer_at(v, row.token.name, i) is None,
    ensures
        peer_at(v.push(row), row.token.name, i) == Some(v.len() as int),
    decreases v.len() - i,
{
    if i < v.len() {
        assert(v.push(row)[i] == v[i]);
        lemma_peer_pushed(v, row, i + 1);
    }
}

/// A header with a token.
pub open spec fn header_of(token: Seq<char>) -> Seq<char> {
    "Bearer "@ + token
}

proof fn lemma_not_white(c: char)
    requires
        digest::base64_char(c),
    ensures
        !text::white(c),
{
}

/// What a header with a token shows is the token.
pub proof fn lemma_header_shows_token(name: Seq<char>, secret: Seq<char>)
    requires
        valid_name(name),
        token_form(secret),
    ensures
        bearer(header_of(token_text(name, secret))) == Some(token_text(name, secret)),
{
    reveal_strlit("apt_");
    reveal_strlit("_");
    reveal_strlit("Bearer ");
    reveal_strlit("bearer");
    let t = token_text(name, secret);
    let h = header_of(t);
    assert forall|i: int| 0 <= i < t.len() implies !text::white(#[trigger] t[i]) by {
        if i < 4 {
            assert(t[i] == PREFIX@[i]);
        } else if i < 4 + name.len() {
            assert(t[i] == name[i - 4]);
            lemma_not_white(name[i - 4]);
        } else if i == 4 + name.len() {
            assert(t[i] == '_');
        } else {
            assert(t[i] == secret[i - 5 - name.len()]);
            lemma_not_white(secret[i - 5 - name.len()]);
        }
    }
    assert(h[0] == 'B');
    assert(h.last() == t.last());
    assert(!text::white(t[t.len() - 1]));
    assert(text::trimmed(h) == h);
    assert(t[0] == PREFIX@[0]);
    assert(text::trimmed(t) == t);
    assert(white_at(h, 6) == Some(6int)) by {
        assert(h[6] == ' ');
    }
    assert(h[0] == 'B' && h[1] == 'e' && h[2] == 'a' && h[3] == 'r' && h[4] == 'e' && h[5] == 'r');
    reveal_with_fuel(white_at, 8);
    assert(white_at(h, 0) == Some(6int));
    assert(h.skip(7) =~= t);
    assert(text::ascii_lower(h.take(6)) =~= "bearer"@);
}

/// A token that was just issued is accepted from the peer that it was issued to.
pub proof fn lemma_issued_is_accepted(
    v: Seq<TokenRow>,
    name: Seq<char>,
    secret: Seq<char>,
    at: Seq<char>,
)
    requires
        valid_name(name),
        token_form(secret),
    ensures
        ({
            let token = token_text(name, secret);
            let after = with_row(v, issued(name, token, at));
            shown(after, header_of(token)) matches Some(i) && after[i].token.name == name
        }),
{
    let token = token_text(name, secret);
    let row = issued(name, token, at);
    lemma_name_reads_back(name, secret);
    lemma_header_shows_token(name, secret);
    lemma_peer_at(v, name, 0);
    match peer_at(v, name, 0) {
        Some(i) => {
            lemma_peer_found(v, row, name, i, 0);
        },
        None => {
            lemma_peer_pushed(v, row, 0);
        },
    }
}

/// A token is refused from the moment that it is revoked.
pub proof fn lemma_revoked_is_refused(v: Seq<TokenRow>, header: Seq<char>, at: Seq<char>)
    requires
        shown(v, header) is Some,
    ensures
        ({
            let i = shown(v, header)->0;
            shown(v.update(i, withdrawn(v[i], at)), header) is None
        }),
{
    let name = named(bearer(header)->0)->0;
    let i = shown(v, header)->0;
    lemma_peer_at(v, name, 0);
    lemma_peer_found(v, withdrawn(v[i], at), name, i, 0);
}

/// A token is refused from the moment that another one with another hash is issued in its place.
pub proof fn lemma_replaced_is_refused(
    v: Seq<TokenRow>,
    header: Seq<char>,
    token: Seq<char>,
    at: Seq<char>,
)
    requires
        shown(v, header) is Some,
        hashed(bearer(header)->0) != hashed(token),
    ensures
        shown(with_row(v, issued(v[shown(v, header)->0].token.name, token, at)), header) is None,
{
    let name = named(bearer(header)->0)->0;
    let i = shown(v, header)->0;
    lemma_peer_at(v, name, 0);
    lemma_peer_found(v, issued(name, token, at), name, i, 0);
}

/// Where no token was issued none is accepted.
pub proof fn lemma_nothing_issued(header: Seq<char>)
    ensures
        shown(Seq::empty(), header) is None,
{
}

/// A machine is let in only with a token that names it, that was issued to it last, and that is not
/// withdrawn.
pub proof fn lemma_who_is_let_in(v: Seq<TokenRow>, header: Seq<char>)
    ensures
        shown(v, header) matches Some(i) ==> {
            &&& 0 <= i < v.len()
            &&& v[i].token.revoked_at is None
            &&& valid_name(v[i].token.name)
            &&& bearer(header) matches Some(t) && v[i].hash == hashed(t) && exists|secret: Seq<char>|
                token_form(secret) && t == #[trigger] token_text(v[i].token.name, secret)
        },
{
    if let Some(i) = shown(v, header) {
        let t = bearer(header)->0;
        let name = named(t)->0;
        lemma_peer_at(v, name, 0);
        let rest = text::after_prefix(t, PREFIX@)->0;
        let cut = rest.len() - SECRET_LEN - 1;
        let secret = rest.skip(cut + 1);
        reveal_strlit("_");
        assert("_"@ =~= seq!['_']);
        assert(t.subrange(0, PREFIX@.len() as int) == PREFIX@);
        assert(t =~= PREFIX@ + rest);
        assert(rest =~= rest.take(cut) + seq!['_'] + secret);
        assert(t =~= token_text(name, secret));
    }
}

/// A line with a token is the word `bearer`, in letters of either case, white space and the token; no other
/// line shows one.
pub proof fn lemma_bearer(scheme: Seq<char>, token: Seq<char>)
    requires
        text::is_word(scheme),
        text::is_word(token),
    ensures
        bearer(scheme + seq![' '] + token) == (if text::ascii_lower(scheme) == "bearer"@ {
            Some(token)
        } else {
            None
        }),
        bearer(token) is None,
{
    let h = scheme + seq![' '] + token;
    assert(text::trimmed(token) == token) by {
        text::lemma_trimmed(token);
    }
    assert(h[0] == scheme[0] && h.last() == token.last());
    assert(!text::white(scheme[0]) && !text::white(token[token.len() - 1]));
    assert(text::trimmed(h) == h) by {
        text::lemma_trimmed(h);
    }
    assert forall|k: int| 0 <= k < scheme.len() implies !text::white(#[trigger] h[k]) by {
        assert(h[k] == scheme[k]);
    }
    assert(h[scheme.len() as int] == ' ');
    lemma_first_white(h, 0, scheme.len() as int);
    lemma_no_white(token, 0);
    assert(h.take(scheme.len() as int) =~= scheme);
    assert(h.skip(scheme.len() as int + 1) =~= token);
}

proof fn lemma_first_white(s: Seq<char>, i: int, k: int)
    requires
        0 <= i <= k < s.len(),
        text::white(s[k]),
        forall|m: int| i <= m < k ==> !text::white(#[trigger] s[m]),
    ensures
        white_at(s, i) == Some(k),
    decreases k - i,
{
    if i < k {
        lemma_first_white(s, i + 1, k);
    }
}

proof fn lemma_no_white(s: Seq<char>, i: int)
    requires
        0 <= i <= s.len(),
        forall|m: int| i <= m < s.len() ==> !text::white(#[trigger] s[m]),
    ensures
        white_at(s, i) is None,
    decreases s.len() - i,
{
    if i < s.len() {
        lemma_no_white(s, i + 1);
    }
}

/// A token is issued under every name of at most 64 letters, digits, dashes and underscores that has no
/// valid token, and to one that has one only where it is to be replaced.
pub proof fn lemma_when_a_token_is_issued(v: Seq<TokenRow>, name: Seq<char>, rotate: bool)
    requires
        forall|i: int, j: int|
            0 <= i < j < v.len() ==> (#[trigger] v[i]).token.name != (#[trigger] v[j]).token.name,
    ensures
        refused(v, name, rotate) is None <==> {
            &&& 0 < name.len() <= 64
            &&& forall|k: int|
                0 <= k < name.len() ==> ('a' <= #[trigger] name[k] <= 'z' || 'A' <= name[k] <= 'Z'
                    || '0' <= name[k] <= '9' || name[k] == '-' || name[k] == '_')
            &&& rotate || forall|i: int|
                0 <= i < v.len() && (#[trigger] v[i]).token.name == name
                    ==> v[i].token.revoked_at is Some
        },
        refused(v, name, rotate) == Some(TokenFault::Exists(name)) ==> exists|i: int|
            0 <= i < v.len() && (#[trigger] v[i]).token.name == name && v[i].token.revoked_at is None,
{
    lemma_peer_at(v, name, 0);
    assert(valid_name(name) <==> 0 < name.len() <= 64 && forall|k: int|
        0 <= k < name.len() ==> ('a' <= #[trigger] name[k] <= 'z' || 'A' <= name[k] <= 'Z' || '0'
            <= name[k] <= '9' || name[k] == '-' || name[k] == '_'));
    if let Some(i) = peer_at(v, name, 0) {
        assert(v[i].token.name == name);
        assert forall|j: int| 0 <= j < v.len() && (#[trigger] v[j]).token.name == name implies j == i by {
            if j < i {
                assert(v[j].token.name != v[i].token.name);
            } else if i < j {
                assert(v[i].token.name != v[j].token.name);
            }
        }
    }
}

/// The use of a token is written down the first time, and then again once an hour has passed since.
pub proof fn lemma_when_a_use_is_written_down(row: TokenRow, used: int, now: int)
    requires
        0 <= used <= crate::clock::LAST_SECOND,
    ensures
        row.token.last_used_at is None ==> use_is_due(row, now),
        row.token.last_used_at == Some(crate::clock::time_text(used)) ==> (use_is_due(row, now)
            <==> now >= used + 3600),
{
    crate::clock::lemma_written_time_reads_back(used);
}

/// A file with a token is read only where it belongs to the user and nobody else may do anything with it.
pub proof fn lemma_which_files_are_read(path: Seq<char>, owner: u32, me: u32, mode: u32)
    ensures
        file_refused(path, owner, me, mode) is None <==> owner == me && mode % 64 == 0,
        file_refused(path, owner, me, mode) is Some ==> (owner != me <==> file_refused(
            path,
            owner,
            me,
            mode,
        )->0 is WrongOwner),
{
    assert((mode & 0o777) & 0o077 == 0 <==> mode % 64 == 0) by (bit_vector);
}

} // verus!
