//! Who may use a node: devices are paired by links that work once, and hold sessions.

pub mod peer_token;

use crate::clock;
use crate::digest;
use crate::entropy;
use crate::num;
use crate::order::{self, Listed};
use crate::text;
use vstd::prelude::*;
use vstd::utf8::encode_utf8;

verus! {

pub const COOKIE_NAME: &'static str = "agora_session";

/// How many bytes of chance a token holds.
pub const TOKEN_BYTES: usize = 32;

/// How long a token is.
pub const TOKEN_LENGTH: usize = 43;

/// How many seconds lie at least between two notes that a session was used.
pub const TOUCH_INTERVAL_SECS: u64 = 3600;

/// The rules for links and sessions; the times are in seconds.
#[derive(Clone, Copy, Debug, PartialEq, Eq, Structural)]
pub struct AuthConfig {
    /// How long a link works.
    pub pair_ttl: u64,
    /// How many unused links there may be.
    pub pair_pending_max: usize,
    /// How long a session lasts without use.
    pub session_idle: u64,
    /// How long a session lasts at most.
    pub session_max: u64,
    /// Whether a browser may send the cookie over TLS only.
    pub cookie_secure: bool,
}

impl Default for AuthConfig {
    fn default() -> (r: Self)
        ensures
            r == (AuthConfig {
                pair_ttl: 300,
                pair_pending_max: 4,
                session_idle: 2_592_000,
                session_max: 31_536_000,
                cookie_secure: false,
            }),
    {
        AuthConfig {
            pair_ttl: 300,
            pair_pending_max: 4,
            session_idle: 2_592_000,
            session_max: 31_536_000,
            cookie_secure: false,
        }
    }
}

/// Who a request comes from.
#[derive(Debug, PartialEq, Eq)]
pub enum Principal {
    Human { device: String },
    Peer { name: String },
}

/// The model of a [`Principal`].
pub enum Who {
    Human { device: Seq<char> },
    Peer { name: Seq<char> },
}

impl View for Principal {
    type V = Who;

    open spec fn view(&self) -> Who {
        match self {
            Principal::Human { device } => Who::Human { device: device@ },
            Principal::Peer { name } => Who::Peer { name: name@ },
        }
    }
}

impl Principal {
    /// The name of a principal in the log.
    pub fn log_id(&self) -> (r: String)
        ensures
            r@ == (match self@ {
                Who::Human { device } => "human:"@ + device,
                Who::Peer { name } => "peer:"@ + name,
            }),
    {
        match self {
            Principal::Human { device } => text::cat("human:", device.as_str()),
            Principal::Peer { name } => text::cat("peer:", name.as_str()),
        }
    }
}

/// A session that was recognised, and whether that moved the end of its time.
#[derive(Debug, PartialEq, Eq)]
pub struct SessionAuth {
    pub principal: Principal,
    pub renewed: bool,
}

/// Where the link came from that a device was paired with.
#[derive(Clone, Copy, Debug, PartialEq, Eq, Structural)]
pub enum PairedVia {
    Socket,
    Session,
}

impl PairedVia {
    pub open spec fn word(self) -> Seq<char> {
        match self {
            PairedVia::Socket => "socket"@,
            PairedVia::Session => "session"@,
        }
    }

    pub fn as_str(self) -> (r: &'static str)
        ensures
            r@ == self.word(),
    {
        match self {
            PairedVia::Socket => "socket",
            PairedVia::Session => "session",
        }
    }
}

/// Why a request is refused.
#[derive(Debug, PartialEq, Eq)]
pub enum AuthError {
    Unauthenticated,
    /// A request that changes something came from another site.
    CrossOrigin,
    /// A machine token came in the clear.
    BearerRequiresTls,
    /// The link is unknown, used, or too old.
    PairInvalid,
    /// There are as many unused links as there may be.
    PairPendingLimit(usize),
    DeviceNotFound(String),
    /// The table refused a row.
    Db(String),
    /// The system has no random bytes to give.
    NoRandom,
}

/// The model of an [`AuthError`].
pub enum Denial {
    Unauthenticated,
    CrossOrigin,
    BearerRequiresTls,
    PairInvalid,
    PairPendingLimit(nat),
    DeviceNotFound(Seq<char>),
    Db(Seq<char>),
    NoRandom,
}

impl View for AuthError {
    type V = Denial;

    open spec fn view(&self) -> Denial {
        match self {
            AuthError::Unauthenticated => Denial::Unauthenticated,
            AuthError::CrossOrigin => Denial::CrossOrigin,
            AuthError::BearerRequiresTls => Denial::BearerRequiresTls,
            AuthError::PairInvalid => Denial::PairInvalid,
            AuthError::PairPendingLimit(n) => Denial::PairPendingLimit(*n as nat),
            AuthError::DeviceNotFound(id) => Denial::DeviceNotFound(id@),
            AuthError::Db(s) => Denial::Db(s@),
            AuthError::NoRandom => Denial::NoRandom,
        }
    }
}

/// The text of a refusal.
pub open spec fn denial_text(d: Denial) -> Seq<char> {
    match d {
        Denial::Unauthenticated => "unauthenticated"@,
        Denial::CrossOrigin => "cross-origin request rejected"@,
        Denial::BearerRequiresTls => "bearer token requires the TLS listener"@,
        Denial::PairInvalid => "pair token invalid"@,
        Denial::PairPendingLimit(n) => "too many pending pair links ("@ + num::decimal(n)
            + "); use or wait for one to expire"@,
        Denial::DeviceNotFound(id) => "device not found: "@ + id,
        Denial::Db(s) => s,
        Denial::NoRandom => "系统随机源不可用"@,
    }
}

impl AuthError {
    /// The text of a refusal.
    pub fn message(&self) -> (out: String)
        ensures
            out@ == denial_text(self@),
    {
        match self {
            AuthError::Unauthenticated => "unauthenticated".to_owned(),
            AuthError::CrossOrigin => "cross-origin request rejected".to_owned(),
            AuthError::BearerRequiresTls => "bearer token requires the TLS listener".to_owned(),
            AuthError::PairInvalid => "pair token invalid".to_owned(),
            AuthError::PairPendingLimit(n) => {
                let d = num::to_decimal(*n as u64);
                text::cat3(
                    "too many pending pair links (",
                    d.as_str(),
                    "); use or wait for one to expire",
                )
            },
            AuthError::DeviceNotFound(id) => text::cat("device not found: ", id.as_str()),
            AuthError::Db(s) => s.clone(),
            AuthError::NoRandom => "系统随机源不可用".to_owned(),
        }
    }
}

/// A paired device.
#[derive(Debug, PartialEq, Eq)]
pub struct Device {
    pub id: String,
    pub name: String,
    pub paired_via: String,
    pub paired_from_addr: Option<String>,
    pub created_at: String,
    pub last_seen_at: String,
    pub revoked_at: Option<String>,
}

/// The model of a [`Device`].
pub struct Paired {
    pub id: Seq<char>,
    pub name: Seq<char>,
    pub paired_via: Seq<char>,
    pub paired_from_addr: Option<Seq<char>>,
    pub created_at: Seq<char>,
    pub last_seen_at: Seq<char>,
    pub revoked_at: Option<Seq<char>>,
}

impl View for Device {
    type V = Paired;

    open spec fn view(&self) -> Paired {
        Paired {
            id: self.id@,
            name: self.name@,
            paired_via: self.paired_via@,
            paired_from_addr: text::opt_text(self.paired_from_addr),
            created_at: self.created_at@,
            last_seen_at: self.last_seen_at@,
            revoked_at: text::opt_text(self.revoked_at),
        }
    }
}

impl Listed for Device {
    open spec fn keys(v: Paired) -> (Seq<char>, Seq<char>) {
        (v.created_at, v.id)
    }

    fn first_key(&self) -> &str {
        self.created_at.as_str()
    }

    fn second_key(&self) -> &str {
        self.id.as_str()
    }

    fn duplicate(&self) -> (r: Device) {
        Device {
            id: self.id.clone(),
            name: self.name.clone(),
            paired_via: self.paired_via.clone(),
            paired_from_addr: text::copy_opt(&self.paired_from_addr),
            created_at: self.created_at.clone(),
            last_seen_at: self.last_seen_at.clone(),
            revoked_at: text::copy_opt(&self.revoked_at),
        }
    }
}

/// A row of the table of devices: the device, and the hash of its session token.
#[derive(Debug, PartialEq, Eq)]
pub struct DeviceRow {
    pub device: Device,
    pub session_sha256: String,
}

/// The model of a [`DeviceRow`].
pub struct Row {
    pub device: Paired,
    pub session: Seq<char>,
}

impl View for DeviceRow {
    type V = Row;

    open spec fn view(&self) -> Row {
        Row { device: self.device@, session: self.session_sha256@ }
    }
}

/// An unused link; the time is in milliseconds of a clock that only goes forward.
#[derive(Debug, PartialEq, Eq)]
pub struct PendingPair {
    pub token: String,
    pub expires_at: u64,
    pub via: PairedVia,
}

/// The model of a [`PendingPair`].
pub struct Link {
    pub token: Seq<char>,
    pub expires_at: int,
    pub via: PairedVia,
}

impl View for PendingPair {
    type V = Link;

    open spec fn view(&self) -> Link {
        Link { token: self.token@, expires_at: self.expires_at as int, via: self.via }
    }
}

/// The links that still work at `now`.
pub open spec fn live(v: Seq<Link>, now: int) -> Seq<Link>
    decreases v.len(),
{
    if v.len() == 0 {
        v
    } else if v.last().expires_at > now {
        live(v.drop_last(), now).push(v.last())
    } else {
        live(v.drop_last(), now)
    }
}

/// Where the first link with a token stands, counted from `i`.
pub open spec fn link_at(v: Seq<Link>, token: Seq<char>, i: int) -> Option<int>
    decreases v.len() - i,
{
    if i < 0 || i >= v.len() {
        None
    } else if v[i].token == token {
        Some(i)
    } else {
        link_at(v, token, i + 1)
    }
}

/// `v` without its element `i`, the last one in its place.
pub open spec fn taken_out(v: Seq<Link>, i: int) -> Seq<Link> {
    v.update(i, v.last()).drop_last()
}

/// Whether no two links have one token.
pub open spec fn links_differ(v: Seq<Link>) -> bool {
    forall|i: int, j: int|
        0 <= i < j < v.len() ==> (#[trigger] v[i]).token != (#[trigger] v[j]).token
}

/// The rows of a table.
pub open spec fn rows(v: Seq<DeviceRow>) -> Seq<Row> {
    v.map_values(|r: DeviceRow| r@)
}

/// Where the first row with a session hash stands, counted from `i`.
pub open spec fn session_at(v: Seq<Row>, hash: Seq<char>, i: int) -> Option<int>
    decreases v.len() - i,
{
    if i < 0 || i >= v.len() {
        None
    } else if v[i].session == hash {
        Some(i)
    } else {
        session_at(v, hash, i + 1)
    }
}

/// Where the row of a device stands, counted from `i`.
pub open spec fn device_at(v: Seq<Row>, id: Seq<char>, i: int) -> Option<int>
    decreases v.len() - i,
{
    if i < 0 || i >= v.len() {
        None
    } else if v[i].device.id == id {
        Some(i)
    } else {
        device_at(v, id, i + 1)
    }
}

/// Whether each device has one row, and each session one device.
pub open spec fn sound(v: Seq<Row>) -> bool {
    forall|i: int, j: int|
        0 <= i < j < v.len() ==> (#[trigger] v[i]).device.id != (#[trigger] v[j]).device.id
            && v[i].session != v[j].session
}

/// Whether the id or the session token of a new device is that of another one.
pub open spec fn is_taken(v: Seq<Row>, id: Seq<char>, session: Seq<char>) -> bool {
    device_at(v, id, 0) is Some || session_at(v, hashed(session), 0) is Some
}

/// Whether there is an id or a session token, in the form in which they are made, that is taken.
pub open spec fn some_is_taken(v: Seq<Row>) -> bool {
    exists|id: Seq<char>, session: Seq<char>|
        id_form(id) && is_token(session) && #[trigger] is_taken(v, id, session)
}

/// The hash that stands for a token in a table, in hexadecimal.
pub open spec fn hashed(token: Seq<char>) -> Seq<char> {
    num::hex(digest::sha256(encode_utf8(token)))
}

/// How many seconds before `now` a time was; none where it is no time.
pub open spec fn age(ts: Seq<char>, now: int) -> Option<int> {
    match clock::seconds_of(encode_utf8(ts)) {
        Some(t) => Some(
            if now > t {
                now - t
            } else {
                0
            },
        ),
        None => None,
    }
}

/// What comes of a session: nothing where it was revoked, not used for too long, or is too old, and
/// otherwise whether its use is noted. A time that cannot be read is taken to be as long ago as can be.
pub open spec fn verdict(cfg: AuthConfig, row: Row, now: int) -> Option<bool> {
    let idle = text::or_else(age(row.device.last_seen_at, now), u64::MAX as int);
    let total = text::or_else(age(row.device.created_at, now), u64::MAX as int);
    if row.device.revoked_at is None && idle <= cfg.session_idle && total <= cfg.session_max {
        Some(idle >= TOUCH_INTERVAL_SECS)
    } else {
        None
    }
}

/// The text that names a device by what its browser says of itself.
pub open spec fn name_of(ua: Seq<char>) -> Seq<char> {
    let browser = if text::occurs(ua, "Edg/"@) {
        "Edge"@
    } else if text::occurs(ua, "OPR/"@) {
        "Opera"@
    } else if text::occurs(ua, "Firefox/"@) {
        "Firefox"@
    } else if text::occurs(ua, "Chrome/"@) || text::occurs(ua, "CriOS/"@) {
        "Chrome"@
    } else if text::occurs(ua, "Safari/"@) {
        "Safari"@
    } else if text::occurs(ua, "curl/"@) {
        "curl"@
    } else {
        "browser"@
    };
    let os = if text::occurs(ua, "iPhone"@) || text::occurs(ua, "iPad"@) {
        "iOS"@
    } else if text::occurs(ua, "Android"@) {
        "Android"@
    } else if text::occurs(ua, "Macintosh"@) {
        "macOS"@
    } else if text::occurs(ua, "Windows"@) {
        "Windows"@
    } else if text::occurs(ua, "Linux"@) {
        "Linux"@
    } else {
        "unknown OS"@
    };
    browser + " on "@ + os
}

/// A name for a device, by what its browser says of itself.
pub fn device_name(ua: &str) -> (out: String)
    ensures
        out@ == name_of(ua@),
{
    let browser = if text::contains(ua, "Edg/") {
        "Edge"
    } else if text::contains(ua, "OPR/") {
        "Opera"
    } else if text::contains(ua, "Firefox/") {
        "Firefox"
    } else if text::contains(ua, "Chrome/") || text::contains(ua, "CriOS/") {
        "Chrome"
    } else if text::contains(ua, "Safari/") {
        "Safari"
    } else if text::contains(ua, "curl/") {
        "curl"
    } else {
        "browser"
    };
    let os = if text::contains(ua, "iPhone") || text::contains(ua, "iPad") {
        "iOS"
    } else if text::contains(ua, "Android") {
        "Android"
    } else if text::contains(ua, "Macintosh") {
        "macOS"
    } else if text::contains(ua, "Windows") {
        "Windows"
    } else if text::contains(ua, "Linux") {
        "Linux"
    } else {
        "unknown OS"
    };
    text::cat3(browser, " on ", os)
}

/// Whether a text has the form of a token: 43 characters of URL-safe Base64.
pub open spec fn token_form(s: Seq<char>) -> bool {
    s.len() == TOKEN_LENGTH && forall|i: int|
        0 <= i < s.len() ==> digest::base64_char(#[trigger] s[i])
}

/// Whether a text is a token that is made of 32 bytes.
pub open spec fn is_token(s: Seq<char>) -> bool {
    token_form(s) && exists|b: Seq<u8>| b.len() == TOKEN_BYTES && s == #[trigger] digest::base64_url(b)
}

/// The token that is made of 32 bytes: their URL-safe Base64.
pub fn token_of(bytes: &[u8]) -> (out: String)
    requires
        bytes@.len() == TOKEN_BYTES,
    ensures
        out@ == digest::base64_url(bytes@),
        token_form(out@),
{
    digest::encode_url(bytes)
}

/// A new token, made of chance; nothing where the system has no random bytes to give.
pub fn random_token() -> (r: Option<String>)
    ensures
        r matches Some(t) ==> is_token(t@),
{
    match entropy::random_bytes(TOKEN_BYTES) {
        Some(b) => Some(token_of(&b)),
        None => None,
    }
}

/// Whether a text has the form of a device id: eight hexadecimal digits.
pub open spec fn id_form(s: Seq<char>) -> bool {
    exists|b: Seq<u8>| b.len() == 4 && s == #[trigger] num::hex(b)
}

/// A new device id, made of chance.
fn random_id() -> (r: Option<String>)
    ensures
        r matches Some(t) ==> id_form(t@),
{
    match entropy::random_bytes(4) {
        Some(b) => Some(num::to_hex(&b)),
        None => None,
    }
}

/// The hash that stands for a token in a table.
pub fn sha256_hex(s: &str) -> (out: String)
    ensures
        out@ == hashed(s@),
{
    let h = digest::hash(s.as_bytes());
    num::to_hex(&h)
}

/// `s` without the characters `c` at its end.
pub open spec fn without_last(s: Seq<char>, c: char) -> Seq<char>
    decreases s.len(),
{
    if s.len() > 0 && s.last() == c {
        without_last(s.drop_last(), c)
    } else {
        s
    }
}

/// The rules, the unused links, and the table of devices.
#[derive(Debug, PartialEq, Eq)]
pub struct Auth {
    cfg: AuthConfig,
    pending: Vec<PendingPair>,
    devices: Vec<DeviceRow>,
}

/// The model of an [`Auth`].
pub struct Ledger {
    pub cfg: AuthConfig,
    pub pending: Seq<Link>,
    pub devices: Seq<Row>,
}

impl View for Auth {
    type V = Ledger;

    closed spec fn view(&self) -> Ledger {
        Ledger {
            cfg: self.cfg,
            pending: order::models(self.pending@),
            devices: rows(self.devices@),
        }
    }
}

/// A copy of the links that still work.
fn live_links(v: &Vec<PendingPair>, now: u64) -> (out: Vec<PendingPair>)
    ensures
        order::models(out@) == live(order::models(v@), now as int),
        out@.len() <= v@.len(),
{
    let mut out: Vec<PendingPair> = Vec::new();
    let mut i: usize = 0;
    let ghost all = order::models(v@);
    proof {
        assert(all.take(0) =~= Seq::<Link>::empty());
        assert(order::models(out@) =~= live(all.take(0), now as int));
    }
    while i < v.len()
        invariant
            all == order::models(v@),
            i <= v@.len(),
            out@.len() <= i,
            order::models(out@) == live(all.take(i as int), now as int),
        decreases v@.len() - i,
    {
        let ghost was = order::models(out@);
        proof {
            assert(all.take(i + 1).drop_last() =~= all.take(i as int));
            assert(all.take(i + 1).last() == v@[i as int]@);
        }
        if v[i].expires_at > now {
            let p = PendingPair {
                token: v[i].token.clone(),
                expires_at: v[i].expires_at,
                via: v[i].via,
            };
            out.push(p);
            proof {
                assert(order::models(out@) =~= was.push(p@));
            }
        }
        i += 1;
    }
    proof {
        assert(all.take(i as int) =~= all);
    }
    out
}

/// Where the first link with a token stands.
fn find_link(v: &Vec<PendingPair>, token: &str) -> (r: Option<usize>)
    ensures
        match r {
            Some(i) => link_at(order::models(v@), token@, 0) == Some(i as int) && i < v@.len(),
            None => link_at(order::models(v@), token@, 0) is None,
        },
{
    let mut i: usize = 0;
    while i < v.len()
        invariant
            i <= v@.len(),
            link_at(order::models(v@), token@, 0) == link_at(order::models(v@), token@, i as int),
        decreases v@.len() - i,
    {
        proof {
            assert(order::models(v@)[i as int] == v@[i as int]@);
        }
        if text::same(v[i].token.as_str(), token) {
            return Some(i);
        }
        i += 1;
    }
    None
}

/// Where the first row with a session hash stands.
fn find_session(v: &Vec<DeviceRow>, hash: &str) -> (r: Option<usize>)
    ensures
        match r {
            Some(i) => session_at(rows(v@), hash@, 0) == Some(i as int) && i < v@.len(),
            None => session_at(rows(v@), hash@, 0) is None,
        },
{
    let mut i: usize = 0;
    while i < v.len()
        invariant
            i <= v@.len(),
            session_at(rows(v@), hash@, 0) == session_at(rows(v@), hash@, i as int),
        decreases v@.len() - i,
    {
        proof {
            assert(rows(v@)[i as int] == v@[i as int]@);
        }
        if text::same(v[i].session_sha256.as_str(), hash) {
            return Some(i);
        }
        i += 1;
    }
    None
}

/// Where the row of a device stands.
fn find_device(v: &Vec<DeviceRow>, id: &str) -> (r: Option<usize>)
    ensures
        match r {
            Some(i) => device_at(rows(v@), id@, 0) == Some(i as int) && i < v@.len(),
            None => device_at(rows(v@), id@, 0) is None,
        },
{
    let mut i: usize = 0;
    while i < v.len()
        invariant
            i <= v@.len(),
            device_at(rows(v@), id@, 0) == device_at(rows(v@), id@, i as int),
        decreases v@.len() - i,
    {
        proof {
            assert(rows(v@)[i as int] == v@[i as int]@);
        }
        if text::same(v[i].device.id.as_str(), id) {
            return Some(i);
        }
        i += 1;
    }
    None
}

/// A row with the note that it was used at a time.
pub open spec fn seen(row: Row, at: Seq<char>) -> Row {
    Row { device: Paired { last_seen_at: at, ..row.device }, ..row }
}

/// A row that is revoked since a time.
pub open spec fn withdrawn(row: Row, at: Seq<char>) -> Row {
    Row { device: Paired { revoked_at: Some(at), ..row.device }, ..row }
}

/// The rows after all that were not revoked have been.
pub open spec fn all_withdrawn(v: Seq<Row>, at: Seq<char>) -> Seq<Row> {
    v.map_values(
        |r: Row|
            if r.device.revoked_at is None {
                withdrawn(r, at)
            } else {
                r
            },
    )
}

/// How many rows are not revoked.
pub open spec fn valid_count(v: Seq<Row>) -> nat
    decreases v.len(),
{
    if v.len() == 0 {
        0
    } else if v.last().device.revoked_at is None {
        valid_count(v.drop_last()) + 1
    } else {
        valid_count(v.drop_last())
    }
}

/// The row of a device that is paired at a time.
pub open spec fn new_row(
    id: Seq<char>,
    session: Seq<char>,
    user_agent: Option<Seq<char>>,
    from: Option<Seq<char>>,
    via: PairedVia,
    at: Seq<char>,
) -> Row {
    Row {
        device: Paired {
            id,
            name: name_of(text::or_else(user_agent, ""@)),
            paired_via: via.word(),
            paired_from_addr: from,
            created_at: at,
            last_seen_at: at,
            revoked_at: None,
        },
        session: hashed(session),
    }
}

/// The link that is made at a time: it works for the time that links work.
pub open spec fn new_link(cfg: AuthConfig, via: PairedVia, token: Seq<char>, now: int) -> Link {
    Link { token, expires_at: now + cfg.pair_ttl * 1000, via }
}

/// What is left of the links, and where the one with a token came from, when it is used at `now`.
pub open spec fn claimed(pending: Seq<Link>, token: Seq<char>, now: int) -> (
    Seq<Link>,
    Option<PairedVia>,
) {
    let l = live(pending, now);
    match link_at(l, token, 0) {
        Some(i) => (taken_out(l, i), Some(l[i].via)),
        None => (l, None),
    }
}

proof fn lemma_session_at(v: Seq<Row>, hash: Seq<char>, i: int)
    requires
        0 <= i <= v.len(),
    ensures
        match session_at(v, hash, i) {
            Some(j) => i <= j < v.len() && v[j].session == hash,
            None => forall|l: int| i <= l < v.len() ==> (#[trigger] v[l]).session != hash,
        },
    decreases v.len() - i,
{
    if i < v.len() && v[i].session != hash {
        lemma_session_at(v, hash, i + 1);
    }
}

proof fn lemma_device_at(v: Seq<Row>, id: Seq<char>, i: int)
    requires
        0 <= i <= v.len(),
    ensures
        match device_at(v, id, i) {
            Some(j) => i <= j < v.len() && v[j].device.id == id,
            None => forall|l: int| i <= l < v.len() ==> (#[trigger] v[l]).device.id != id,
        },
    decreases v.len() - i,
{
    if i < v.len() && v[i].device.id != id {
        lemma_device_at(v, id, i + 1);
    }
}

proof fn lemma_link_at(v: Seq<Link>, token: Seq<char>, i: int)
    requires
        0 <= i <= v.len(),
    ensures
        match link_at(v, token, i) {
            Some(j) => i <= j < v.len() && v[j].token == token && forall|l: int|
                i <= l < j ==> (#[trigger] v[l]).token != token,
            None => forall|l: int| i <= l < v.len() ==> (#[trigger] v[l]).token != token,
        },
    decreases v.len() - i,
{
    if i < v.len() && v[i].token != token {
        lemma_link_at(v, token, i + 1);
    }
}

impl Auth {
    /// No links, and a table as it was read.
    pub fn new(devices: Vec<DeviceRow>, cfg: AuthConfig) -> (r: Self)
        ensures
            r@ == (Ledger { cfg, pending: Seq::empty(), devices: rows(devices@) }),
    {
        let r = Auth { cfg, pending: Vec::new(), devices };
        proof {
            assert(order::models(r.pending@) =~= Seq::<Link>::empty());
        }
        r
    }

    pub fn config(&self) -> (r: &AuthConfig)
        ensures
            *r == self@.cfg,
    {
        &self.cfg
    }

    /// The table, to be written where it is kept.
    pub fn rows(&self) -> (r: &Vec<DeviceRow>)
        ensures
            rows(r@) == self@.devices,
    {
        &self.devices
    }

    /// Puts the table as it was read anew in place of the one that is held.
    pub fn reload(&mut self, devices: Vec<DeviceRow>)
        ensures
            final(self)@ == (Ledger { devices: rows(devices@), ..old(self)@ }),
    {
        self.devices = devices;
    }

    /// Adds a link with the token `token`, unless there are as many as there may be.
    pub fn mint_with(&mut self, via: PairedVia, token: &str, now: u64) -> (r: Result<(), AuthError>)
        requires
            now + old(self)@.cfg.pair_ttl * 1000 <= u64::MAX,
        ensures
            final(self)@.cfg == old(self)@.cfg,
            final(self)@.devices == old(self)@.devices,
            ({
                let l = live(old(self)@.pending, now as int);
                match r {
                    Ok(()) => l.len() < old(self)@.cfg.pair_pending_max && final(self)@.pending
                        == l.push(
                        new_link(old(self)@.cfg, via, token@, now as int),
                    ),
                    Err(e) => l.len() >= old(self)@.cfg.pair_pending_max && final(self)@.pending == l
                        && e@ == Denial::PairPendingLimit(old(self)@.cfg.pair_pending_max as nat),
                }
            }),
    {
        self.pending = live_links(&self.pending, now);
        let ghost l = order::models(self.pending@);
        if self.pending.len() >= self.cfg.pair_pending_max {
            return Err(AuthError::PairPendingLimit(self.cfg.pair_pending_max));
        }
        let expires_at: u64 = now + self.cfg.pair_ttl * 1000;
        let p = PendingPair { token: token.to_owned(), expires_at, via };
        self.pending.push(p);
        proof {
            assert(order::models(self.pending@) =~= l.push(p@));
        }
        Ok(())
    }

    /// Adds a link with a new token, unless there are as many as there may be.
    pub fn mint_pair_token(&mut self, via: PairedVia, now: u64) -> (r: Result<String, AuthError>)
        requires
            now + old(self)@.cfg.pair_ttl * 1000 <= u64::MAX,
        ensures
            final(self)@.cfg == old(self)@.cfg,
            final(self)@.devices == old(self)@.devices,
            ({
                let l = live(old(self)@.pending, now as int);
                match r {
                    Ok(token) => l.len() < old(self)@.cfg.pair_pending_max && is_token(token@)
                        && final(self)@.pending == l.push(
                        new_link(old(self)@.cfg, via, token@, now as int),
                    ),
                    Err(e) => if l.len() >= old(self)@.cfg.pair_pending_max {
                        final(self)@.pending == l && e@ == Denial::PairPendingLimit(
                            old(self)@.cfg.pair_pending_max as nat,
                        )
                    } else {
                        final(self)@.pending == old(self)@.pending && e@ == Denial::NoRandom
                    },
                }
            }),
    {
        let l = live_links(&self.pending, now);
        if l.len() >= self.cfg.pair_pending_max {
            self.pending = l;
            return Err(AuthError::PairPendingLimit(self.cfg.pair_pending_max));
        }
        match random_token() {
            Some(token) => match self.mint_with(via, token.as_str(), now) {
                Ok(()) => Ok(token),
                Err(e) => Err(e),
            },
            None => Err(AuthError::NoRandom),
        }
    }

    /// The link with a token: the token stands in the fragment, which a browser does not send.
    pub fn pair_link(origin: &str, token: &str) -> (out: String)
        ensures
            out@ == without_last(origin@, '/') + "/#pair="@ + token@,
    {
        let v = text::chars_of(origin);
        let mut n: usize = v.len();
        proof {
            assert(origin@.take(n as int) =~= origin@);
        }
        while n > 0 && v[n - 1] == '/'
            invariant
                v@ == origin@,
                n <= v@.len(),
                without_last(origin@, '/') == without_last(origin@.take(n as int), '/'),
            decreases n,
        {
            proof {
                assert(origin@.take(n as int).drop_last() =~= origin@.take(n - 1));
            }
            n -= 1;
        }
        let front = text::string_of_range(&v, 0, n);
        proof {
            assert(front@ =~= origin@.take(n as int));
        }
        text::cat3(front.as_str(), "/#pair=", token)
    }

    /// Uses up the link with a token: says where it came from.
    fn claim(&mut self, token: &str, now: u64) -> (r: Option<PairedVia>)
        ensures
            final(self)@.cfg == old(self)@.cfg,
            final(self)@.devices == old(self)@.devices,
            (final(self)@.pending, r) == claimed(old(self)@.pending, token@, now as int),
    {
        self.pending = live_links(&self.pending, now);
        let ghost l = order::models(self.pending@);
        match find_link(&self.pending, token) {
            Some(i) => {
                let p = self.pending.swap_remove(i);
                proof {
                    assert(p@ == l[i as int]);
                    assert(order::models(self.pending@) =~= taken_out(l, i as int));
                }
                Some(p.via)
            },
            None => None,
        }
    }

    /// Adds the row of a device with the id `id` and the session token `session`, unless there is one with
    /// that id or that session.
    fn enroll(
        &mut self,
        id: &str,
        session: &str,
        user_agent: Option<&str>,
        from_addr: Option<&str>,
        via: PairedVia,
        now: i64,
    ) -> (r: Result<Device, AuthError>)
        ensures
            final(self)@.cfg == old(self)@.cfg,
            final(self)@.pending == old(self)@.pending,
            ({
                let row = new_row(
                    id@,
                    session@,
                    text::opt_str(user_agent),
                    text::opt_str(from_addr),
                    via,
                    clock::time_text(now as int),
                );
                let taken = device_at(old(self)@.devices, id@, 0) is Some || session_at(
                    old(self)@.devices,
                    hashed(session@),
                    0,
                ) is Some;
                match r {
                    Ok(d) => !taken && d@ == row.device && final(self)@.devices == old(self)@.devices.push(row),
                    Err(e) => taken && e@ is Db && final(self)@.devices == old(self)@.devices,
                }
            }),
    {
        let hash = sha256_hex(session);
        if find_device(&self.devices, id).is_some() || find_session(
            &self.devices,
            hash.as_str(),
        ).is_some() {
            return Err(AuthError::Db("UNIQUE constraint failed: devices".to_owned()));
        }
        let ua = match user_agent {
            Some(s) => s,
            None => "",
        };
        let at = clock::format_utc_secs(now);
        let device = Device {
            id: id.to_owned(),
            name: device_name(ua),
            paired_via: via.as_str().to_owned(),
            paired_from_addr: text::owned_opt(from_addr),
            created_at: at.clone(),
            last_seen_at: at,
            revoked_at: None,
        };
        let copy = device.duplicate();
        let row = DeviceRow { device, session_sha256: hash };
        let ghost was = rows(self.devices@);
        self.devices.push(row);
        proof {
            assert(rows(self.devices@) =~= was.push(row@));
        }
        Ok(copy)
    }

    /// Pairs a device by a link: the link is used up, and the device gets the id `id` and the session token
    /// `session`. `ticks` is the time by which links end, `now` the time of day.
    pub fn redeem_with(
        &mut self,
        token: &str,
        user_agent: Option<&str>,
        from_addr: Option<&str>,
        ticks: u64,
        now: i64,
        id: &str,
        session: &str,
    ) -> (r: Result<Device, AuthError>)
        ensures
            final(self)@.cfg == old(self)@.cfg,
            final(self)@.pending == claimed(old(self)@.pending, token@, ticks as int).0,
            match claimed(old(self)@.pending, token@, ticks as int).1 {
                Some(via) => {
                    let row = new_row(
                        id@,
                        session@,
                        text::opt_str(user_agent),
                        text::opt_str(from_addr),
                        via,
                        clock::time_text(now as int),
                    );
                    let taken = device_at(old(self)@.devices, id@, 0) is Some || session_at(
                        old(self)@.devices,
                        hashed(session@),
                        0,
                    ) is Some;
                    match r {
                        Ok(d) => !taken && d@ == row.device && final(self)@.devices == old(self)@.devices.push(row),
                        Err(e) => taken && e@ is Db && final(self)@.devices == old(self)@.devices,
                    }
                },
                None => r matches Err(e) && e@ == Denial::PairInvalid && final(self)@.devices == old(self)@.devices,
            },
    {
        match self.claim(token, ticks) {
            Some(via) => self.enroll(id, session, user_agent, from_addr, via, now),
            None => Err(AuthError::PairInvalid),
        }
    }

    /// Pairs a device by a link, with a new id and a new session token, which is handed out this once.
    pub fn redeem(
        &mut self,
        token: &str,
        user_agent: Option<&str>,
        from_addr: Option<&str>,
        ticks: u64,
        now: i64,
    ) -> (r: Result<(Device, String), AuthError>)
        ensures
            final(self)@.cfg == old(self)@.cfg,
            final(self)@.pending == claimed(old(self)@.pending, token@, ticks as int).0,
            match claimed(old(self)@.pending, token@, ticks as int).1 {
                Some(via) => match r {
                    Ok((d, session)) => is_token(session@) && id_form(d@.id) && device_at(
                        old(self)@.devices,
                        d@.id,
                        0,
                    ) is None && session_at(old(self)@.devices, hashed(session@), 0) is None
                        && new_row(
                        d@.id,
                        session@,
                        text::opt_str(user_agent),
                        text::opt_str(from_addr),
                        via,
                        clock::time_text(now as int),
                    ).device == d@ && final(self)@.devices == old(self)@.devices.push(
                        new_row(
                            d@.id,
                            session@,
                            text::opt_str(user_agent),
                            text::opt_str(from_addr),
                            via,
                            clock::time_text(now as int),
                        ),
                    ),
                    Err(e) => final(self)@.devices == old(self)@.devices && (e@ == Denial::NoRandom || (
                    e@ is Db && some_is_taken(old(self)@.devices))),
                },
                None => r matches Err(e) && e@ == Denial::PairInvalid && final(self)@.devices == old(self)@.devices,
            },
    {
        match self.claim(token, ticks) {
            Some(via) => match (random_token(), random_id()) {
                (Some(session), Some(id)) => match self.enroll(
                    id.as_str(),
                    session.as_str(),
                    user_agent,
                    from_addr,
                    via,
                    now,
                ) {
                    Ok(d) => Ok((d, session)),
                    Err(e) => {
                        assert(is_taken(old(self)@.devices, id@, session@));
                        Err(e)
                    },
                },
                _ => Err(AuthError::NoRandom),
            },
            None => Err(AuthError::PairInvalid),
        }
    }

    /// Recognises the session with a token, and notes its use where that is due.
    pub fn authenticate_session(&mut self, token: &str, now: i64) -> (r: Result<
        SessionAuth,
        AuthError,
    >)
        ensures
            final(self)@.cfg == old(self)@.cfg,
            final(self)@.pending == old(self)@.pending,
            match session_at(old(self)@.devices, hashed(token@), 0) {
                Some(i) => match verdict(old(self)@.cfg, old(self)@.devices[i], now as int) {
                    Some(renewed) => r matches Ok(a) && a.renewed == renewed && a.principal@
                        == (Who::Human { device: old(self)@.devices[i].device.id }) && final(self)@.devices == (if renewed {
                        old(self)@.devices.update(
                            i,
                            seen(old(self)@.devices[i], clock::time_text(now as int)),
                        )
                    } else {
                        old(self)@.devices
                    }),
                    None => r matches Err(e) && e@ == Denial::Unauthenticated && final(self)@.devices
                        == old(self)@.devices,
                },
                None => r matches Err(e) && e@ == Denial::Unauthenticated && final(self)@.devices
                    == old(self)@.devices,
            },
    {
        let hash = sha256_hex(token);
        let i: usize = match find_session(&self.devices, hash.as_str()) {
            Some(i) => i,
            None => {
                return Err(AuthError::Unauthenticated);
            },
        };
        let ghost was = rows(self.devices@);
        let row = &self.devices[i];
        proof {
            assert(was[i as int] == row@);
        }
        if row.device.revoked_at.is_some() {
            return Err(AuthError::Unauthenticated);
        }
        let idle: u64 = match clock::age_at(row.device.last_seen_at.as_str(), now) {
            Some(n) => n,
            None => u64::MAX,
        };
        let total: u64 = match clock::age_at(row.device.created_at.as_str(), now) {
            Some(n) => n,
            None => u64::MAX,
        };
        if idle > self.cfg.session_idle || total > self.cfg.session_max {
            return Err(AuthError::Unauthenticated);
        }
        let id = row.device.id.clone();
        let renewed = idle >= TOUCH_INTERVAL_SECS;
        if renewed {
            let mut device = row.device.duplicate();
            device.last_seen_at = clock::format_utc_secs(now);
            let new = DeviceRow { device, session_sha256: row.session_sha256.clone() };
            self.devices.set(i, new);
            proof {
                assert(rows(self.devices@) =~= was.update(i as int, new@));
            }
        }
        Ok(SessionAuth { principal: Principal::Human { device: id }, renewed })
    }

    /// The devices, by the time of their pairing.
    pub fn list_devices(&self) -> (r: Vec<Device>)
        ensures
            order::listed::<Device>(order::models(r@)),
            order::models(r@).to_multiset() == self@.devices.map_values(
                |w: Row| w.device,
            ).to_multiset(),
    {
        let mut all: Vec<Device> = Vec::new();
        let mut i: usize = 0;
        let ghost want = self@.devices.map_values(|w: Row| w.device);
        proof {
            assert(order::models(all@) =~= want.take(0));
        }
        while i < self.devices.len()
            invariant
                i <= self.devices@.len(),
                want == rows(self.devices@).map_values(|w: Row| w.device),
                order::models(all@) == want.take(i as int),
            decreases self.devices@.len() - i,
        {
            let d = self.devices[i].device.duplicate();
            let ghost was = order::models(all@);
            all.push(d);
            proof {
                assert(order::models(all@) =~= was.push(d@));
                assert(want.take(i + 1) =~= want.take(i as int).push(want[i as int]));
            }
            i += 1;
        }
        proof {
            assert(want.take(i as int) =~= want);
        }
        order::list(&all)
    }

    /// The device with an id.
    pub fn device(&self, id: &str) -> (r: Option<Device>)
        ensures
            match r {
                Some(d) => device_at(self@.devices, id@, 0) is Some && d@ == self@.devices[device_at(
                    self@.devices,
                    id@,
                    0,
                )->0].device,
                None => device_at(self@.devices, id@, 0) is None,
            },
    {
        match find_device(&self.devices, id) {
            Some(i) => Some(self.devices[i].device.duplicate()),
            None => None,
        }
    }

    /// Revokes a device; one that is revoked already stays as it is.
    pub fn revoke(&mut self, id: &str, now: i64) -> (r: Result<(), AuthError>)
        ensures
            final(self)@.cfg == old(self)@.cfg,
            final(self)@.pending == old(self)@.pending,
            match device_at(old(self)@.devices, id@, 0) {
                Some(i) => r is Ok && final(self)@.devices == (
                if old(self)@.devices[i].device.revoked_at is None {
                    old(self)@.devices.update(
                        i,
                        withdrawn(old(self)@.devices[i], clock::time_text(now as int)),
                    )
                } else {
                    old(self)@.devices
                }),
                None => r matches Err(e) && e@ == Denial::DeviceNotFound(id@) && final(self)@.devices
                    == old(self)@.devices,
            },
    {
        match find_device(&self.devices, id) {
            Some(i) => {
                let ghost was = rows(self.devices@);
                let row = &self.devices[i];
                if row.device.revoked_at.is_none() {
                    let mut device = row.device.duplicate();
                    device.revoked_at = Some(clock::format_utc_secs(now));
                    let new = DeviceRow { device, session_sha256: row.session_sha256.clone() };
                    self.devices.set(i, new);
                    proof {
                        assert(rows(self.devices@) =~= was.update(i as int, new@));
                    }
                }
                Ok(())
            },
            None => Err(AuthError::DeviceNotFound(id.to_owned())),
        }
    }

    /// Revokes all devices; says how many that were.
    pub fn revoke_all(&mut self, now: i64) -> (r: usize)
        ensures
            final(self)@.cfg == old(self)@.cfg,
            final(self)@.pending == old(self)@.pending,
            final(self)@.devices == all_withdrawn(
                old(self)@.devices,
                clock::time_text(now as int),
            ),
            r == valid_count(old(self)@.devices),
    {
        let ghost was = rows(self.devices@);
        let ghost at = clock::time_text(now as int);
        let mut i: usize = 0;
        let mut n: usize = 0;
        while i < self.devices.len()
            invariant
                self.cfg == old(self).cfg,
                self.pending == old(self).pending,
                was == old(self)@.devices,
                at == clock::time_text(now as int),
                self.devices@.len() == was.len(),
                i <= was.len(),
                n <= i,
                n == valid_count(was.take(i as int)),
                forall|j: int|
                    0 <= j < i ==> rows(self.devices@)[j] == #[trigger] all_withdrawn(was, at)[j],
                forall|j: int| i <= j < was.len() ==> rows(self.devices@)[j] == #[trigger] was[j],
            decreases was.len() - i,
        {
            proof {
                assert(was.take(i + 1).drop_last() =~= was.take(i as int));
                assert(was.take(i + 1).last() == was[i as int]);
                assert(rows(self.devices@)[i as int] == was[i as int]);
            }
            let row = &self.devices[i];
            if row.device.revoked_at.is_none() {
                let ghost before = rows(self.devices@);
                let mut device = row.device.duplicate();
                device.revoked_at = Some(clock::format_utc_secs(now));
                let new = DeviceRow { device, session_sha256: row.session_sha256.clone() };
                self.devices.set(i, new);
                proof {
                    assert(rows(self.devices@) =~= before.update(i as int, new@));
                }
                n += 1;
            }
            i += 1;
        }
        proof {
            assert(was.take(i as int) =~= was);
            assert(rows(self.devices@) =~= all_withdrawn(was, at));
        }
        n
    }

    /// How many links still work.
    pub fn pending_count(&mut self, now: u64) -> (r: usize)
        ensures
            final(self)@.cfg == old(self)@.cfg,
            final(self)@.devices == old(self)@.devices,
            final(self)@.pending == live(old(self)@.pending, now as int),
            r == final(self)@.pending.len(),
    {
        self.pending = live_links(&self.pending, now);
        self.pending.len()
    }
}

/// Where a link that still works stood before.
proof fn lemma_live_from(v: Seq<Link>, now: int, i: int) -> (j: int)
    requires
        0 <= i < live(v, now).len(),
    ensures
        0 <= j < v.len(),
        live(v, now)[i] == v[j],
        v[j].expires_at > now,
    decreases v.len(),
{
    let w = v.drop_last();
    if i < live(w, now).len() {
        let j = lemma_live_from(w, now, i);
        assert(v[j] == w[j]);
        j
    } else {
        v.len() - 1
    }
}

proof fn lemma_live_differ(v: Seq<Link>, now: int)
    requires
        links_differ(v),
    ensures
        links_differ(live(v, now)),
    decreases v.len(),
{
    if v.len() > 0 {
        let w = v.drop_last();
        assert forall|i: int, j: int| 0 <= i < j < w.len() implies (#[trigger] w[i]).token != (
        #[trigger] w[j]).token by {
            assert(v[i] == w[i] && v[j] == w[j]);
        }
        lemma_live_differ(w, now);
        let l = live(v, now);
        let m = live(w, now);
        assert forall|i: int, j: int| 0 <= i < j < l.len() implies (#[trigger] l[i]).token != (
        #[trigger] l[j]).token by {
            if j < m.len() {
                assert(l[i] == m[i] && l[j] == m[j]);
            } else {
                let k = lemma_live_from(w, now, i);
                assert(l[i] == v[k] && l[j] == v[v.len() - 1]);
            }
        }
    }
}

/// Using a link keeps the tokens of the others different, and so does a link with a token that none of
/// them has.
pub proof fn lemma_links_stay_different(pending: Seq<Link>, token: Seq<char>, now: int, link: Link)
    requires
        links_differ(pending),
    ensures
        links_differ(claimed(pending, token, now).0),
        link_at(live(pending, now), link.token, 0) is None ==> links_differ(
            live(pending, now).push(link),
        ),
{
    lemma_live_differ(pending, now);
    let l = live(pending, now);
    lemma_link_at(l, token, 0);
    lemma_link_at(l, link.token, 0);
    match link_at(l, token, 0) {
        Some(i) => {
            let t = taken_out(l, i);
            assert forall|a: int, b: int| 0 <= a < b < t.len() implies (#[trigger] t[a]).token != (
            #[trigger] t[b]).token by {
                let x = if a == i { l.len() - 1 } else { a };
                let y = if b == i { l.len() - 1 } else { b };
                assert(t[a] == l[x] && t[b] == l[y]);
            }
        },
        None => {},
    }
}

/// A link works once: a token that was tried is refused from then on.
pub proof fn lemma_link_works_once(pending: Seq<Link>, token: Seq<char>, now: int, later: int)
    requires
        links_differ(pending),
    ensures
        claimed(claimed(pending, token, now).0, token, later).1 is None,
{
    lemma_live_differ(pending, now);
    let l = live(pending, now);
    lemma_link_at(l, token, 0);
    let t = claimed(pending, token, now).0;
    assert forall|a: int| 0 <= a < t.len() implies (#[trigger] t[a]).token != token by {
        match link_at(l, token, 0) {
            Some(i) => {
                let x = if a == i { l.len() - 1 } else { a };
                assert(t[a] == l[x]);
                if x < i {
                    assert(l[x].token != l[i].token);
                } else {
                    assert(l[i].token != l[x].token);
                }
            },
            None => {
                assert(t[a] == l[a]);
            },
        }
    }
    let u = live(t, later);
    lemma_link_at(u, token, 0);
    match link_at(u, token, 0) {
        Some(i) => {
            let j = lemma_live_from(t, later, i);
            assert(t[j].token == token);
        },
        None => {},
    }
}

/// A link works no longer than it may: at the end of its time its token is refused.
pub proof fn lemma_link_ends(pending: Seq<Link>, token: Seq<char>, now: int)
    requires
        forall|i: int|
            0 <= i < pending.len() && (#[trigger] pending[i]).token == token
                ==> pending[i].expires_at <= now,
    ensures
        claimed(pending, token, now).1 is None,
{
    let l = live(pending, now);
    lemma_link_at(l, token, 0);
    match link_at(l, token, 0) {
        Some(i) => {
            let j = lemma_live_from(pending, now, i);
            assert(pending[j].token == token);
        },
        None => {},
    }
}

proof fn lemma_session_found(v: Seq<Row>, w: Seq<Row>, hash: Seq<char>, i: int)
    requires
        v.len() == w.len(),
        0 <= i <= v.len(),
        forall|j: int| 0 <= j < v.len() ==> (#[trigger] v[j]).session == w[j].session,
    ensures
        session_at(v, hash, i) == session_at(w, hash, i),
    decreases v.len() - i,
{
    if i < v.len() {
        assert(v[i].session == w[i].session);
        lemma_session_found(v, w, hash, i + 1);
    }
}

/// A revoked device is refused at once and for good: the token of its session is no longer recognised.
pub proof fn lemma_revoked_is_refused(
    devices: Seq<Row>,
    cfg: AuthConfig,
    id: Seq<char>,
    token: Seq<char>,
    at: Seq<char>,
    later: int,
)
    requires
        device_at(devices, id, 0) is Some,
        session_at(devices, hashed(token), 0) == device_at(devices, id, 0),
    ensures
        ({
            let i = device_at(devices, id, 0)->0;
            let after = devices.update(i, withdrawn(devices[i], at));
            session_at(after, hashed(token), 0) == Some(i) && verdict(cfg, after[i], later) is None
        }),
{
    lemma_device_at(devices, id, 0);
    let i = device_at(devices, id, 0)->0;
    let after = devices.update(i, withdrawn(devices[i], at));
    lemma_session_found(devices, after, hashed(token), 0);
}

/// After all devices were revoked no token is recognised.
pub proof fn lemma_all_revoked_are_refused(
    devices: Seq<Row>,
    cfg: AuthConfig,
    token: Seq<char>,
    at: Seq<char>,
    later: int,
)
    ensures
        session_at(all_withdrawn(devices, at), hashed(token), 0) matches Some(i) ==> verdict(
            cfg,
            all_withdrawn(devices, at)[i],
            later,
        ) is None,
        valid_count(all_withdrawn(devices, at)) == 0,
{
    lemma_session_at(all_withdrawn(devices, at), hashed(token), 0);
    lemma_none_valid(devices, at);
}

proof fn lemma_none_valid(devices: Seq<Row>, at: Seq<char>)
    ensures
        valid_count(all_withdrawn(devices, at)) == 0,
    decreases devices.len(),
{
    if devices.len() > 0 {
        lemma_none_valid(devices.drop_last(), at);
        assert(all_withdrawn(devices, at).drop_last() =~= all_withdrawn(devices.drop_last(), at));
    }
}

proof fn lemma_session_after(v: Seq<Row>, row: Row, hash: Seq<char>, i: int)
    requires
        0 <= i <= v.len(),
        session_at(v, hash, i) is None,
    ensures
        session_at(v.push(row), hash, i) == (if row.session == hash {
            Some(v.len() as int)
        } else {
            None
        }),
    decreases v.len() - i,
{
    if i < v.len() {
        assert(v.push(row)[i] == v[i]);
        lemma_session_after(v, row, hash, i + 1);
    } else {
        assert(session_at(v.push(row), hash, i + 1) is None);
    }
}

/// What a pairing hands out is recognised: the session token of a device that was just paired.
pub proof fn lemma_paired_is_recognised(
    devices: Seq<Row>,
    cfg: AuthConfig,
    id: Seq<char>,
    session: Seq<char>,
    user_agent: Option<Seq<char>>,
    from: Option<Seq<char>>,
    via: PairedVia,
    now: int,
)
    requires
        sound(devices),
        device_at(devices, id, 0) is None,
        session_at(devices, hashed(session), 0) is None,
        0 <= now <= clock::LAST_SECOND,
    ensures
        ({
            let row = new_row(id, session, user_agent, from, via, clock::time_text(now));
            let after = devices.push(row);
            sound(after) && session_at(after, hashed(session), 0) == Some(devices.len() as int)
                && verdict(cfg, row, now) == Some(false)
        }),
{
    let row = new_row(id, session, user_agent, from, via, clock::time_text(now));
    let after = devices.push(row);
    clock::lemma_written_time_reads_back(now);
    lemma_session_after(devices, row, hashed(session), 0);
    lemma_session_at(devices, hashed(session), 0);
    lemma_device_at(devices, id, 0);
    assert forall|i: int, j: int| 0 <= i < j < after.len() implies (
    #[trigger] after[i]).device.id != (#[trigger] after[j]).device.id && after[i].session
        != after[j].session by {
        assert(after[i] == devices[i]);
        if j < devices.len() {
            assert(after[j] == devices[j]);
        }
    }
}

/// Use keeps a session alive: noted at `now`, it is recognised for as long as a session may go unused, up
/// to the most that a session lasts.
pub proof fn lemma_use_keeps_alive(cfg: AuthConfig, row: Row, now: int, later: int)
    requires
        0 <= now <= clock::LAST_SECOND,
        now <= later <= now + cfg.session_idle,
        row.device.revoked_at is None,
        age(row.device.created_at, later) matches Some(n) && n <= cfg.session_max,
    ensures
        verdict(cfg, seen(row, clock::time_text(now)), later) is Some,
{
    clock::lemma_written_time_reads_back(now);
}

/// A session holds while it is not withdrawn, was used within the time that it lasts without use, and was
/// begun within the time that it lasts at most. The time of its last use is written anew once an hour has
/// passed since.
pub proof fn lemma_how_long_a_session_lasts(cfg: AuthConfig, row: Row, begun: int, used: int, now: int)
    requires
        0 <= begun <= clock::LAST_SECOND,
        0 <= used <= clock::LAST_SECOND,
        row.device.created_at == clock::time_text(begun),
        row.device.last_seen_at == clock::time_text(used),
    ensures
        verdict(cfg, row, now) is Some <==> {
            &&& row.device.revoked_at is None
            &&& now <= used + cfg.session_idle
            &&& now <= begun + cfg.session_max
        },
        verdict(cfg, row, now) matches Some(renewed) ==> (renewed <==> now >= used + 3600),
{
    clock::lemma_written_time_reads_back(begun);
    clock::lemma_written_time_reads_back(used);
}

proof fn lemma_live_has(v: Seq<Link>, now: int, x: Link)
    ensures
        live(v, now).contains(x) <==> v.contains(x) && x.expires_at > now,
    decreases v.len(),
{
    if v.len() > 0 {
        let w = v.drop_last();
        let l = live(w, now);
        lemma_live_has(w, now, x);
        if w.contains(x) {
            let i = w.index_of(x);
            assert(v[i] == x);
        }
        if v.contains(x) && x != v.last() {
            let i = v.index_of(x);
            assert(w[i] == x);
        }
        if v.last().expires_at > now {
            if l.contains(x) {
                let i = l.index_of(x);
                assert(l.push(v.last())[i] == x);
            }
            if x == v.last() {
                assert(l.push(x)[l.len() as int] == x);
            }
            if l.push(v.last()).contains(x) && x != v.last() {
                let i = l.push(v.last()).index_of(x);
                assert(l[i] == x);
            }
        }
    }
}

/// A link pairs a device until it ends, once, in the way in which it was made; at its end and after it, and
/// where there is no such link, nothing is paired. Whatever is shown, the other links that have not ended
/// stay, and no other link does.
pub proof fn lemma_what_a_link_does(pending: Seq<Link>, token: Seq<char>, now: int, x: Link)
    requires
        links_differ(pending),
    ensures
        x.token == token && pending.contains(x) ==> claimed(pending, token, now).1 == (
        if now < x.expires_at {
            Some(x.via)
        } else {
            None
        }),
        claimed(pending, token, now).1 is Some ==> exists|i: int|
            0 <= i < pending.len() && (#[trigger] pending[i]).token == token && now
                < pending[i].expires_at,
        claimed(pending, token, now).0.contains(x) <==> {
            &&& pending.contains(x)
            &&& now < x.expires_at
            &&& x.token != token
        },
{
    let l = live(pending, now);
    let after = claimed(pending, token, now).0;
    lemma_live_differ(pending, now);
    lemma_live_has(pending, now, x);
    lemma_link_at(l, token, 0);
    match link_at(l, token, 0) {
        Some(i) => {
            let j = lemma_live_from(pending, now, i);
            assert(pending[j].token == token);
            if pending.contains(x) && x.token == token {
                let k = pending.index_of(x);
                if k != j {
                    assert(pending[k].token != pending[j].token);
                }
            }
            if after.contains(x) {
                let k = after.index_of(x);
                assert(after[k] == if k == i {
                    l.last()
                } else {
                    l[k]
                });
                let m = if k == i {
                    l.len() - 1
                } else {
                    k
                };
                assert(l[m] == x);
                assert(m != i);
                assert(l[m].token != l[i].token);
            }
            if l.contains(x) && x.token != token {
                let k = l.index_of(x);
                if k == l.len() - 1 {
                    assert(after[i] == x);
                } else {
                    assert(after[k] == x);
                }
            }
        },
        None => {
            if l.contains(x) {
                let k = l.index_of(x);
                assert(l[k].token != token);
            }
        },
    }
}

proof fn lemma_last_goes(s: Seq<char>, c: char, n: nat)
    requires
        s.len() > 0 ==> s.last() != c,
    ensures
        without_last(s + Seq::new(n, |i: int| c), c) == s,
    decreases n,
{
    let t = s + Seq::new(n, |i: int| c);
    if n == 0 {
        assert(t =~= s);
    } else {
        lemma_last_goes(s, c, (n - 1) as nat);
        assert(t.drop_last() =~= s + Seq::new((n - 1) as nat, |i: int| c));
        assert(t.last() == c);
    }
}

/// A link leads to the site, whether or not its address was given with slashes at its end, and shows the
/// token behind the sign for what stays in the browser.
pub proof fn lemma_where_a_link_leads(origin: Seq<char>, n: nat, token: Seq<char>)
    requires
        origin.len() > 0 ==> origin.last() != '/',
    ensures
        without_last(origin + Seq::new(n, |i: int| '/'), '/') + "/#pair="@ + token == origin + "/#pair="@
            + token,
{
    lemma_last_goes(origin, '/', n);
}

/// A device is named after the browser and the system that it says it is: of several marks the one that only
/// one browser has counts before those that many have.
pub proof fn lemma_how_a_device_is_named(ua: Seq<char>)
    ensures
        text::occurs(ua, "Edg/"@) ==> text::begins(name_of(ua), "Edge on "@),
        !text::occurs(ua, "Edg/"@) && text::occurs(ua, "OPR/"@) ==> text::begins(name_of(ua), "Opera on "@),
        !text::occurs(ua, "Edg/"@) && !text::occurs(ua, "OPR/"@) && text::occurs(ua, "Firefox/"@)
            ==> text::begins(name_of(ua), "Firefox on "@),
        !text::occurs(ua, "Edg/"@) && !text::occurs(ua, "OPR/"@) && !text::occurs(ua, "Firefox/"@) && (
        text::occurs(ua, "Chrome/"@) || text::occurs(ua, "CriOS/"@)) ==> text::begins(
            name_of(ua),
            "Chrome on "@,
        ),
        text::occurs(ua, "iPhone"@) || text::occurs(ua, "iPad"@) ==> text::finishes(name_of(ua), " on iOS"@),
        !text::occurs(ua, "iPhone"@) && !text::occurs(ua, "iPad"@) && text::occurs(ua, "Android"@)
            ==> text::finishes(name_of(ua), " on Android"@),
        !text::occurs(ua, "iPhone"@) && !text::occurs(ua, "iPad"@) && !text::occurs(ua, "Android"@)
            && text::occurs(ua, "Macintosh"@) ==> text::finishes(name_of(ua), " on macOS"@),
{
    reveal_strlit(" on ");
    reveal_strlit("Edge");
    reveal_strlit("Edge on ");
    assert("Edge"@ + " on "@ =~= "Edge on "@);
    reveal_strlit("Opera");
    reveal_strlit("Opera on ");
    assert("Opera"@ + " on "@ =~= "Opera on "@);
    reveal_strlit("Firefox");
    reveal_strlit("Firefox on ");
    assert("Firefox"@ + " on "@ =~= "Firefox on "@);
    reveal_strlit("Chrome");
    reveal_strlit("Chrome on ");
    assert("Chrome"@ + " on "@ =~= "Chrome on "@);
    reveal_strlit("iOS");
    reveal_strlit(" on iOS");
    assert(" on "@ + "iOS"@ =~= " on iOS"@);
    reveal_strlit("Android");
    reveal_strlit(" on Android");
    assert(" on "@ + "Android"@ =~= " on Android"@);
    reveal_strlit("macOS");
    reveal_strlit(" on macOS");
    assert(" on "@ + "macOS"@ =~= " on macOS"@);
    let n = name_of(ua);
    assert forall|b: Seq<char>, o: Seq<char>| n == #[trigger] (b + " on "@ + o) implies text::begins(
        n,
        b + " on "@,
    ) && text::finishes(n, " on "@ + o) by {
        assert(n =~= (b + " on "@) + o);
        assert(n =~= b + (" on "@ + o));
        text::lemma_begin_and_end(b + " on "@, o);
        text::lemma_begin_and_end(b, " on "@ + o);
    }
}

/// A link that was made pairs a device in the way that it was made for, for as long as links work and no
/// longer; the links that were there before and have not ended are there still.
pub proof fn lemma_a_link_works_for_its_time(
    pending: Seq<Link>,
    cfg: AuthConfig,
    via: PairedVia,
    token: Seq<char>,
    made: int,
    now: int,
    x: Link,
)
    requires
        links_differ(pending),
        link_at(live(pending, made), token, 0) is None,
        made <= now,
    ensures
        ({
            let after = live(pending, made).push(new_link(cfg, via, token, made));
            &&& links_differ(after)
            &&& claimed(after, token, now).1 == (if now < made + cfg.pair_ttl * 1000 {
                Some(via)
            } else {
                None
            })
            &&& after.contains(x) && x.token != token <==> pending.contains(x) && made < x.expires_at
                && x.token != token
        }),
{
    let l = live(pending, made);
    let link = new_link(cfg, via, token, made);
    let after = l.push(link);
    lemma_links_stay_different(pending, token, made, link);
    assert(after[l.len() as int] == link);
    assert(after.contains(link));
    lemma_what_a_link_does(after, token, now, link);
    lemma_live_has(pending, made, x);
    if l.contains(x) {
        let i = l.index_of(x);
        assert(after[i] == x);
    }
    if after.contains(x) && x.token != token {
        let i = after.index_of(x);
        assert(l[i] == x);
    }
}

/// How a device was paired has a word of its own.
pub proof fn lemma_words_for_pairing(a: PairedVia, b: PairedVia)
    ensures
        a.word() == b.word() ==> a == b,
        PairedVia::Socket.word() == "socket"@,
{
    reveal_strlit("socket");
    reveal_strlit("session");
    assert("socket"@.len() == 6);
    assert("session"@.len() == 7);
}

/// A device that was paired just now is what was shown of it, may be used, and was seen when it was paired.
pub proof fn lemma_a_new_device(
    id: Seq<char>,
    session: Seq<char>,
    ua: Seq<char>,
    from: Option<Seq<char>>,
    via: PairedVia,
    at: Seq<char>,
)
    ensures
        ({
            let r = new_row(id, session, Some(ua), from, via, at);
            &&& r.device.id == id && r.session == hashed(session)
            &&& r.device.name == name_of(ua) && r.device.paired_from_addr == from
            &&& r.device.created_at == at && r.device.last_seen_at == at && r.device.revoked_at is None
        }),
        new_row(id, session, None, from, via, at) == new_row(id, session, Some(""@), from, via, at),
        id_form(id) ==> id.len() == 8,
{
    if id_form(id) {
        let b = choose|b: Seq<u8>| b.len() == 4 && id == #[trigger] num::hex(b);
        num::lemma_hex_len(b);
    }
}

} // verus!
