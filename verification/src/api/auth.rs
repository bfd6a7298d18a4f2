//! Who a request comes from, by what its head says.

use crate::api::{denied, ApiError};
use crate::auth::{
    self, hashed, session_at, Auth, AuthError, Denial, Device, PairedVia, Principal, Row, SessionAuth, Who,
};
use crate::text::{self, opt_str, opt_text, texts};
use vstd::prelude::*;

verus! {

/// What the head of a request says; a line that is no plain text is left out.
#[derive(Debug, PartialEq, Eq)]
pub struct Head {
    pub method: String,
    /// The lines with cookies.
    pub cookies: Vec<String>,
    pub sec_fetch_site: Option<String>,
    pub origin: Option<String>,
    pub host: Option<String>,
    /// Whether there is a line with a machine token.
    pub authorization: bool,
}

/// The value of a cookie, where a piece of a line is that cookie.
pub open spec fn cookie_in(piece: Seq<char>, name: Seq<char>) -> Option<Seq<char>> {
    match text::parted(text::trimmed(piece), '=') {
        Some((k, v)) => if k == name {
            Some(v)
        } else {
            None
        },
        None => None,
    }
}

/// The value of the first cookie of a name among the pieces from `i` on.
pub open spec fn cookie_among(pieces: Seq<Seq<char>>, name: Seq<char>, i: int) -> Option<Seq<char>>
    decreases pieces.len() - i,
{
    if i < 0 || i >= pieces.len() {
        None
    } else {
        text::either(cookie_in(pieces[i], name), cookie_among(pieces, name, i + 1))
    }
}

/// The value of the first cookie of a name in the lines from `i` on.
pub open spec fn cookie_from(lines: Seq<Seq<char>>, name: Seq<char>, i: int) -> Option<Seq<char>>
    decreases lines.len() - i,
{
    if i < 0 || i >= lines.len() {
        None
    } else {
        text::either(
            cookie_among(text::split(lines[i], ';'), name, 0),
            cookie_from(lines, name, i + 1),
        )
    }
}

fn cookie_of_line(line: &str, name: &str) -> (r: Option<String>)
    ensures
        opt_text(r) == cookie_among(text::split(line@, ';'), name@, 0),
{
    let pieces = text::split_char(line, ';');
    let ghost all = text::split(line@, ';');
    let mut i: usize = 0;
    while i < pieces.len()
        invariant
            texts(pieces@) == all,
            all == text::split(line@, ';'),
            i <= pieces@.len(),
            cookie_among(all, name@, 0) == cookie_among(all, name@, i as int),
        decreases pieces@.len() - i,
    {
        proof {
            assert(all[i as int] == pieces@[i as int]@);
        }
        match text::split_once(text::trim(pieces[i].as_str()).as_str(), '=') {
            Some((k, v)) => {
                if text::same(k.as_str(), name) {
                    return Some(v);
                }
            },
            None => {},
        }
        i += 1;
    }
    None
}

/// The value of the first cookie of a name.
pub fn cookie_value(cookies: &[String], name: &str) -> (r: Option<String>)
    ensures
        opt_text(r) == cookie_from(texts(cookies@), name@, 0),
{
    let ghost all = texts(cookies@);
    let mut i: usize = 0;
    while i < cookies.len()
        invariant
            all == texts(cookies@),
            i <= cookies@.len(),
            cookie_from(all, name@, 0) == cookie_from(all, name@, i as int),
        decreases cookies@.len() - i,
    {
        proof {
            assert(all[i as int] == cookies@[i as int]@);
        }
        match cookie_of_line(cookies[i].as_str(), name) {
            Some(v) => {
                return Some(v);
            },
            None => {},
        }
        i += 1;
    }
    None
}

/// The part of an origin that names the site: what follows `://`, or all of it.
pub open spec fn authority(origin: Seq<char>) -> Seq<char> {
    match text::parted_by(origin, "://"@) {
        Some((_, a)) => a,
        None => origin,
    }
}

/// Whether a request comes from this site: the browser says so, or the site in its origin is the host that
/// it asks, whatever the case of the letters. A request that says neither does not.
pub open spec fn from_here(
    sec_fetch_site: Option<Seq<char>>,
    origin: Option<Seq<char>>,
    host: Option<Seq<char>>,
) -> bool {
    ||| sec_fetch_site matches Some(s) && text::ascii_lower(s) == "same-origin"@
    ||| origin matches Some(o) && host matches Some(h) && text::ascii_lower(authority(o))
        == text::ascii_lower(h)
}

fn same_letters(a: &str, b: &str) -> (r: bool)
    ensures
        r == (text::ascii_lower(a@) == text::ascii_lower(b@)),
{
    text::same(text::to_ascii_lowercase(a).as_str(), text::to_ascii_lowercase(b).as_str())
}

/// Whether a request comes from this site.
pub fn same_origin(head: &Head) -> (r: bool)
    ensures
        r == from_here(
            opt_text(head.sec_fetch_site),
            opt_text(head.origin),
            opt_text(head.host),
        ),
{
    match &head.sec_fetch_site {
        Some(s) => {
            if text::same(text::to_ascii_lowercase(s.as_str()).as_str(), "same-origin") {
                return true;
            }
        },
        None => {},
    }
    match (&head.origin, &head.host) {
        (Some(o), Some(h)) => match text::split_once_by(o.as_str(), "://") {
            Some((_, a)) => same_letters(a.as_str(), h.as_str()),
            None => same_letters(o.as_str(), h.as_str()),
        },
        _ => false,
    }
}

/// Whether a method only reads.
pub open spec fn reads(method: Seq<char>) -> bool {
    method == "GET"@ || method == "HEAD"@ || method == "OPTIONS"@
}

/// Whether a method only reads.
pub fn is_safe(method: &str) -> (r: bool)
    ensures
        r == reads(method@),
{
    text::same(method, "GET") || text::same(method, "HEAD") || text::same(method, "OPTIONS")
}

/// Where the row of the session stands that a request shows.
pub open spec fn row_shown(head: Head, rows: Seq<Row>) -> Option<int> {
    match cookie_from(texts(head.cookies@), auth::COOKIE_NAME@, 0) {
        Some(token) => session_at(rows, hashed(token), 0),
        None => None,
    }
}

/// Why a request is not let in, where it is not: `known` says whether it shows a session that holds, and
/// `here` whether it comes from this site.
pub open spec fn kept_out(method: Seq<char>, authorization: bool, known: bool, here: bool) -> Option<
    Denial,
> {
    if authorization {
        Some(Denial::BearerRequiresTls)
    } else if !known {
        Some(Denial::Unauthenticated)
    } else if reads(method) || here {
        None
    } else {
        Some(Denial::CrossOrigin)
    }
}

/// Who a request comes from: the device whose session its cookie shows, unless it also shows a machine
/// token, or would change something for another site.
pub fn principal(auth: &mut Auth, head: &Head, now: i64) -> (r: Result<SessionAuth, AuthError>)
    ensures
        final(auth)@.cfg == old(auth)@.cfg,
        final(auth)@.pending == old(auth)@.pending,
        match kept_out(
            head.method@,
            head.authorization,
            row_shown(*head, old(auth)@.devices) matches Some(k) && auth::verdict(
                old(auth)@.cfg,
                old(auth)@.devices[k],
                now as int,
            ) is Some,
            from_here(opt_text(head.sec_fetch_site), opt_text(head.origin), opt_text(head.host)),
        ) {
            Some(d) => r matches Err(e) && e@ == d,
            None => r is Ok,
        },
        ({
            let i = row_shown(*head, old(auth)@.devices);
            let here = from_here(
                opt_text(head.sec_fetch_site),
                opt_text(head.origin),
                opt_text(head.host),
            );
            if head.authorization {
                r matches Err(e) && e@ == Denial::BearerRequiresTls && final(auth)@ == old(auth)@
            } else if i is None || auth::verdict(
                old(auth)@.cfg,
                old(auth)@.devices[i->0],
                now as int,
            ) is None {
                r matches Err(e) && e@ == Denial::Unauthenticated && final(auth)@ == old(auth)@
            } else {
                let renewed = auth::verdict(
                    old(auth)@.cfg,
                    old(auth)@.devices[i->0],
                    now as int,
                )->0;
                &&& final(auth)@.devices == (if renewed {
                    old(auth)@.devices.update(
                        i->0,
                        auth::seen(
                            old(auth)@.devices[i->0],
                            crate::clock::time_text(now as int),
                        ),
                    )
                } else {
                    old(auth)@.devices
                })
                &&& if reads(head.method@) || here {
                    r matches Ok(a) && a.renewed == renewed && a.principal@ == (Who::Human {
                        device: old(auth)@.devices[i->0].device.id,
                    })
                } else {
                    r matches Err(e) && e@ == Denial::CrossOrigin
                }
            }
        }),
{
    if head.authorization {
        return Err(AuthError::BearerRequiresTls);
    }
    let token = match cookie_value(&head.cookies, auth::COOKIE_NAME) {
        Some(t) => t,
        None => {
            return Err(AuthError::Unauthenticated);
        },
    };
    match auth.authenticate_session(token.as_str(), now) {
        Ok(a) => {
            if !is_safe(head.method.as_str()) && !same_origin(head) {
                return Err(AuthError::CrossOrigin);
            }
            Ok(a)
        },
        Err(e) => Err(e),
    }
}

/// The cookie that a browser gets: scripts do not see it, and other sites do not make the browser send it.
pub open spec fn cookie_text(session: Seq<char>, secure: bool) -> Seq<char> {
    auth::COOKIE_NAME@ + "="@ + session + "; HttpOnly; SameSite=Lax; Path=/"@ + (if secure {
        "; Secure"@
    } else {
        ""@
    })
}

/// The cookie that a browser gets.
pub fn session_cookie(session: &str, secure: bool) -> (out: String)
    ensures
        out@ == cookie_text(session@, secure),
{
    let mut out = text::cat3(auth::COOKIE_NAME, "=", session);
    text::push_str(&mut out, "; HttpOnly; SameSite=Lax; Path=/");
    text::push_str(
        &mut out,
        if secure {
            "; Secure"
        } else {
            ""
        },
    );
    out
}

/// The cookie that takes the other one away.
pub const CLEAR_COOKIE: &'static str =
    "agora_session=; HttpOnly; SameSite=Lax; Path=/; Max-Age=0";

/// The site that a new link leads to: the host that was asked.
pub fn pair_origin(host: Option<&str>) -> (out: String)
    ensures
        out@ == "http://"@ + text::or_else(opt_str(host), "127.0.0.1"@),
{
    text::cat(
        "http://",
        match host {
            Some(h) => h,
            None => "127.0.0.1",
        },
    )
}

/// A request for a session, with the token of a link.
#[derive(Debug, PartialEq, Eq)]
pub struct PairBody {
    pub token: String,
}

/// What a request for a session is answered: the device, and the cookie that goes with it.
#[derive(Debug, PartialEq, Eq)]
pub struct PairReply {
    pub device: Device,
    pub cookie: String,
}

/// Gives a browser a session for a link, which is used up by it. `ticks` is the time that links are held
/// to, in milliseconds, and `now` that of the calendar, in seconds.
pub fn pair(
    auth: &mut Auth,
    body: &PairBody,
    user_agent: Option<&str>,
    from_addr: Option<&str>,
    ticks: u64,
    now: i64,
) -> (r: Result<PairReply, ApiError>)
    ensures
        final(auth)@.cfg == old(auth)@.cfg,
        final(auth)@.pending == auth::claimed(old(auth)@.pending, body.token@, ticks as int).0,
        match auth::claimed(old(auth)@.pending, body.token@, ticks as int).1 {
            None => r matches Err(e) && e@ == denied(Denial::PairInvalid) && final(auth)@.devices
                == old(auth)@.devices,
            Some(via) => match r {
                Ok(p) => exists|session: Seq<char>|
                    {
                        &&& auth::is_token(session)
                        &&& final(auth)@.devices == old(auth)@.devices.push(
                            #[trigger] auth::new_row(
                                p.device@.id,
                                session,
                                opt_str(user_agent),
                                opt_str(from_addr),
                                via,
                                crate::clock::time_text(now as int),
                            ),
                        )
                        &&& final(auth)@.devices.last().device == p.device@
                        &&& p.cookie@ == cookie_text(session, old(auth)@.cfg.cookie_secure)
                    },
                Err(e) => final(auth)@.devices == old(auth)@.devices && exists|d: Denial|
                    (d == Denial::NoRandom || (d is Db && auth::some_is_taken(old(auth)@.devices)))
                        && e@ == #[trigger] denied(d),
            },
        },
{
    match auth.redeem(body.token.as_str(), user_agent, from_addr, ticks, now) {
        Ok((device, session)) => {
            let cookie = session_cookie(session.as_str(), auth.config().cookie_secure);
            proof {
                let via = auth::claimed(old(auth)@.pending, body.token@, ticks as int).1->0;
                let row = auth::new_row(
                    device@.id,
                    session@,
                    opt_str(user_agent),
                    opt_str(from_addr),
                    via,
                    crate::clock::time_text(now as int),
                );
                assert(auth@.devices.last() == row);
            }
            Ok(PairReply { device, cookie })
        },
        Err(e) => {
            let refusal = ApiError::from_auth(&e);
            proof {
                assert(refusal@ == denied(e@));
            }
            Err(refusal)
        },
    }
}

/// A link for one more device.
#[derive(Debug, PartialEq, Eq)]
pub struct PairLink {
    pub url: String,
}

/// Makes a link for one more device, which leads to the host that was asked.
pub fn pair_new(auth: &mut Auth, host: Option<&str>, now: u64) -> (r: Result<PairLink, ApiError>)
    requires
        now + old(auth)@.cfg.pair_ttl * 1000 <= u64::MAX,
    ensures
        final(auth)@.cfg == old(auth)@.cfg,
        final(auth)@.devices == old(auth)@.devices,
        ({
            let l = auth::live(old(auth)@.pending, now as int);
            if l.len() >= old(auth)@.cfg.pair_pending_max {
                r matches Err(e) && e@ == denied(
                    Denial::PairPendingLimit(old(auth)@.cfg.pair_pending_max as nat),
                ) && final(auth)@.pending == l
            } else {
                match r {
                    Ok(p) => {
                        let link = final(auth)@.pending.last();
                        &&& final(auth)@.pending == l.push(link)
                        &&& auth::is_token(link.token)
                        &&& link.expires_at == now + old(auth)@.cfg.pair_ttl * 1000
                        &&& link.via == PairedVia::Session
                        &&& p.url@ == auth::without_last(
                            "http://"@ + text::or_else(opt_str(host), "127.0.0.1"@),
                            '/',
                        ) + "/#pair="@ + link.token
                    },
                    Err(e) => final(auth)@.pending == old(auth)@.pending && e@ == denied(
                        Denial::NoRandom,
                    ),
                }
            }
        }),
{
    match auth.mint_pair_token(PairedVia::Session, now) {
        Ok(token) => Ok(
            PairLink { url: Auth::pair_link(pair_origin(host).as_str(), token.as_str()) },
        ),
        Err(e) => Err(ApiError::from_auth(&e)),
    }
}

/// Ends the session of the device that asks; a machine has none to end. The answer takes the cookie away.
pub fn logout(auth: &mut Auth, principal: &Principal, now: i64) -> (r: Result<&'static str, ApiError>)
    ensures
        final(auth)@.cfg == old(auth)@.cfg,
        final(auth)@.pending == old(auth)@.pending,
        match principal@ {
            Who::Human { device } => match auth::device_at(old(auth)@.devices, device, 0) {
                Some(i) => r matches Ok(c) && c@ == CLEAR_COOKIE@ && final(auth)@.devices == (
                if old(auth)@.devices[i].device.revoked_at is None {
                    old(auth)@.devices.update(
                        i,
                        auth::withdrawn(
                            old(auth)@.devices[i],
                            crate::clock::time_text(now as int),
                        ),
                    )
                } else {
                    old(auth)@.devices
                }),
                None => r matches Err(e) && e@ == denied(Denial::DeviceNotFound(device))
                    && final(auth)@.devices == old(auth)@.devices,
            },
            _ => r matches Ok(c) && c@ == CLEAR_COOKIE@ && final(auth)@.devices
                == old(auth)@.devices,
        },
{
    match principal {
        Principal::Human { device } => match auth.revoke(device.as_str(), now) {
            Ok(()) => Ok(CLEAR_COOKIE),
            Err(e) => Err(ApiError::from_auth(&e)),
        },
        _ => Ok(CLEAR_COOKIE),
    }
}

/// A request that does not say where it comes from counts as one of another site.
pub proof fn lemma_silence_is_another_site(host: Option<Seq<char>>)
    ensures
        !from_here(None, None, host),
{
}

proof fn lemma_scheme_goes(scheme: Seq<char>, rest: Seq<char>, i: int)
    requires
        0 <= i <= scheme.len(),
        !scheme.contains(':'),
    ensures
        text::first_at(scheme + "://"@ + rest, "://"@, i) == Some(scheme.len() as int),
    decreases scheme.len() - i,
{
    let p = "://"@;
    let s = scheme + p + rest;
    reveal_strlit("://");
    if i == scheme.len() {
        assert(s.subrange(i, i + p.len()) =~= p);
    } else {
        assert(!text::occurs_at(s, p, i)) by {
            if text::occurs_at(s, p, i) {
                assert(s.subrange(i, i + p.len())[0] == p[0]);
                assert(s[i] == scheme[i]);
                assert(scheme.contains(':'));
            }
        }
        lemma_scheme_goes(scheme, rest, i + 1);
    }
}

/// A request comes from this site exactly where the browser says so, or where the site that it names after
/// the scheme is the host that was asked, in letters of either case.
pub proof fn lemma_which_requests_come_from_here(
    site: Seq<char>,
    scheme: Seq<char>,
    from: Seq<char>,
    host: Seq<char>,
)
    requires
        !scheme.contains(':'),
    ensures
        from_here(Some(site), None, Some(host)) <==> text::ascii_lower(site) == "same-origin"@,
        from_here(None, Some(scheme + "://"@ + from), Some(host)) <==> text::ascii_lower(from)
            == text::ascii_lower(host),
        from_here(None, Some(scheme + "://"@ + host), Some(host)),
        from_here(None, Some(scheme + "://"@ + host), None) == false,
{
    lemma_scheme_goes(scheme, from, 0);
    lemma_scheme_goes(scheme, host, 0);
    reveal_strlit("://");
    assert((scheme + "://"@ + from).skip(scheme.len() as int + 3) =~= from);
    assert((scheme + "://"@ + host).skip(scheme.len() as int + 3) =~= host);
}

/// The cookie that is set is the one that is read: of what is set, the part before the first semicolon is
/// what a browser sends back, alone or behind other cookies.
pub proof fn lemma_cookie_comes_back(session: Seq<char>, secure: bool, others: Seq<char>)
    requires
        text::is_word(session),
        !session.contains(';'),
        cookie_among(text::split(others, ';'), auth::COOKIE_NAME@, 0) is None,
    ensures
        ({
            let sent = text::split(cookie_text(session, secure), ';')[0];
            &&& cookie_from(seq![sent], auth::COOKIE_NAME@, 0) == Some(session)
            &&& cookie_from(seq![others, sent], auth::COOKIE_NAME@, 0) == Some(session)
            &&& cookie_from(seq![others + "; "@ + sent], auth::COOKIE_NAME@, 0) == Some(session)
            &&& cookie_from(seq![others], auth::COOKIE_NAME@, 0) is None
        }),
{
    let name = auth::COOKIE_NAME@;
    let c = name + "="@ + session;
    reveal_strlit("agora_session");
    reveal_strlit("=");
    reveal_strlit("; ");
    reveal_strlit("; HttpOnly; SameSite=Lax; Path=/");
    assert("="@ =~= seq!['=']);
    assert(name.len() == 13);
    let whole = cookie_text(session, secure);
    let rest = whole.skip(c.len() as int + 1);
    assert(whole[c.len() as int] == ';');
    assert(whole =~= c + seq![';'] + rest);
    assert(!c.contains(';')) by {
        if c.contains(';') {
            let i = c.index_of(';');
            if i >= 14 {
                assert(session[i - 14] == ';');
            }
        }
    }
    text::lemma_split_first(c, ';', rest);
    text::lemma_split_whole(c, ';');
    assert(!text::white(session[session.len() - 1]));
    lemma_own_cookie(c, session);
    lemma_own_cookie(seq![' '] + c, session);
    assert(cookie_among(seq![c], name, 0) == Some(session));
    lemma_line_alone(c, session);
    let none = cookie_from(seq![others], name, 1);
    assert(seq![others][0] == others);
    assert(cookie_from(seq![others], name, 0) is None);
    let two = seq![others, c];
    assert(cookie_from(two, name, 1) == Some(session)) by {
        assert(two[1] == c);
    }
    assert(two[0] == others);
    text::lemma_split_joined(others, ';', seq![' '] + c);
    assert(others + seq![';'] + (seq![' '] + c) =~= others + "; "@ + c);
    assert(!(seq![' '] + c).contains(';')) by {
        if (seq![' '] + c).contains(';') {
            let i = (seq![' '] + c).index_of(';');
            if i > 0 {
                assert(c[i - 1] == ';');
            }
        }
    }
    text::lemma_split_whole(seq![' '] + c, ';');
    lemma_among_behind(text::split(others, ';'), seq![' '] + c, name, 0);
    lemma_line_alone(others + "; "@ + c, session);
}

proof fn lemma_line_alone(line: Seq<char>, session: Seq<char>)
    requires
        cookie_among(text::split(line, ';'), auth::COOKIE_NAME@, 0) == Some(session),
    ensures
        cookie_from(seq![line], auth::COOKIE_NAME@, 0) == Some(session),
{
    assert(seq![line][0] == line);
}

proof fn lemma_among_behind(pieces: Seq<Seq<char>>, piece: Seq<char>, name: Seq<char>, i: int)
    requires
        0 <= i <= pieces.len(),
        cookie_among(pieces, name, i) is None,
    ensures
        cookie_among(pieces + seq![piece], name, i) == cookie_in(piece, name),
    decreases pieces.len() - i,
{
    let all = pieces + seq![piece];
    if i < pieces.len() {
        assert(all[i] == pieces[i]);
        lemma_among_behind(pieces, piece, name, i + 1);
    } else {
        assert(all[i] == piece);
        assert(cookie_among(all, name, i + 1) is None);
    }
}

proof fn lemma_own_cookie(piece: Seq<char>, session: Seq<char>)
    requires
        text::is_word(session),
        piece == auth::COOKIE_NAME@ + "="@ + session || piece == seq![' '] + (auth::COOKIE_NAME@ + "="@
            + session),
    ensures
        cookie_in(piece, auth::COOKIE_NAME@) == Some(session),
{
    let name = auth::COOKIE_NAME@;
    let c = name + "="@ + session;
    reveal_strlit("agora_session");
    reveal_strlit("=");
    assert("="@ =~= seq!['=']);
    assert(name.len() == 13);
    assert(c[0] == 'a' && c.last() == session.last());
    assert(!text::white(session[session.len() - 1]));
    assert(text::trimmed(c) == c) by {
        text::lemma_trimmed(c);
    }
    assert(text::trimmed(piece) == c) by {
        let d = seq![' '] + c;
        assert(d[0] == ' ');
        assert(d.skip(1) =~= c);
        assert(text::trimmed_start(d) == text::trimmed_start(c));
    }
    assert(c[13] == '=');
    assert(c.contains('='));
    assert forall|i: int| 0 <= i < 13 implies #[trigger] c[i] != '=' by {
        assert(c[i] == name[i]);
    }
    let k = c.index_of_first('=').unwrap();
    c.index_of_first_ensures('=');
    assert(k == 13);
    assert(c.take(13) =~= name);
    assert(c.skip(14) =~= session);
}

/// What only reads may come from any site; what makes, changes or takes away may not.
pub proof fn lemma_which_methods_read(method: Seq<char>)
    ensures
        reads("GET"@) && reads("HEAD"@) && reads("OPTIONS"@),
        !reads("POST"@) && !reads("PUT"@) && !reads("PATCH"@) && !reads("DELETE"@),
{
    reveal_strlit("GET");
    assert("GET"@.len() == 3 && "GET"@[0] == 'G');
    reveal_strlit("HEAD");
    assert("HEAD"@.len() == 4 && "HEAD"@[0] == 'H');
    reveal_strlit("OPTIONS");
    assert("OPTIONS"@.len() == 7 && "OPTIONS"@[0] == 'O');
    reveal_strlit("POST");
    assert("POST"@.len() == 4 && "POST"@[0] == 'P');
    reveal_strlit("PUT");
    assert("PUT"@.len() == 3 && "PUT"@[0] == 'P');
    reveal_strlit("PATCH");
    assert("PATCH"@.len() == 5 && "PATCH"@[0] == 'P');
    reveal_strlit("DELETE");
    assert("DELETE"@.len() == 6 && "DELETE"@[0] == 'D');
}

/// Nobody is let in whose session does not hold, whatever they ask; one whose session holds may read from any
/// site, and do anything else from this one only. A machine token is refused here, whatever comes with it.
pub proof fn lemma_who_is_kept_out(method: Seq<char>, authorization: bool, known: bool, here: bool)
    ensures
        kept_out(method, authorization, false, here) is Some,
        kept_out(method, true, known, here) == Some(Denial::BearerRequiresTls),
        kept_out(method, false, false, here) == Some(Denial::Unauthenticated),
        kept_out(method, false, true, true) is None,
        kept_out("GET"@, false, true, false) is None,
        kept_out("POST"@, false, true, false) == Some(Denial::CrossOrigin),
        kept_out("DELETE"@, false, true, false) == Some(Denial::CrossOrigin),
        kept_out("PATCH"@, false, true, false) == Some(Denial::CrossOrigin),
        kept_out(method, authorization, known, here) is None ==> known && !authorization && (here || reads(
            method,
        )),
{
    lemma_which_methods_read(method);
}

} // verus!
