//! Who may ask: devices, links, and the tokens of other machines.

use agora::api::auth::{
    cookie_value, is_safe, logout, pair, pair_new, principal, same_origin, session_cookie, Head,
    PairBody, CLEAR_COOKIE,
};
use agora::api::ApiError;
use agora::auth::peer_token::{
    self, authenticate, bearer_token, check_token_file, create, ct_eq, is_valid_name, mint, parse,
    token_in_file, PeerTokenError, TokenFileError, PREFIX, SECRET_LEN,
};
use agora::auth::{
    device_name, random_token, token_of, Auth, AuthConfig, AuthError, PairedVia, Principal, COOKIE_NAME,
};
use agora::local::{answer_pair, Response};

fn auth() -> Auth {
    Auth::new(vec![], AuthConfig::default())
}

fn head(method: &str, token: &str) -> Head {
    Head {
        method: method.into(),
        cookies: vec![format!("{COOKIE_NAME}={token}")],
        sec_fetch_site: None,
        origin: None,
        host: Some("127.0.0.1:7680".into()),
        authorization: false,
    }
}

#[test]
fn cookie_parsing_finds_ours_among_others() {
    let h = ["a=1; agora_session=tok; b=2".to_owned()];
    assert_eq!(cookie_value(&h, COOKIE_NAME).as_deref(), Some("tok"));
    assert_eq!(cookie_value(&h, "nope"), None);
}

#[test]
fn same_origin_compares_authority_with_host() {
    let mut h = head("POST", "");
    assert!(!same_origin(&h));
    h.origin = Some("http://127.0.0.1:7680".into());
    assert!(same_origin(&h));
    h.origin = Some("http://evil.example".into());
    assert!(!same_origin(&h));
    h.sec_fetch_site = Some("same-origin".into());
    assert!(same_origin(&h));
}

#[test]
fn tokens_are_256_bit_urlsafe() {
    let t = random_token().unwrap();
    assert_eq!(t.len(), 43);
    assert!(t
        .chars()
        .all(|c| c.is_ascii_alphanumeric() || c == '-' || c == '_'));
    assert_ne!(t, random_token().unwrap());
}

#[test]
fn names_from_user_agent() {
    assert_eq!(
        device_name("Mozilla/5.0 (Macintosh; Intel Mac OS X 14_6) AppleWebKit/537.36 (KHTML, like Gecko) Chrome/128.0 Safari/537.36"),
        "Chrome on macOS"
    );
    assert_eq!(device_name(""), "browser on unknown OS");
}

#[test]
fn pair_link_puts_token_in_fragment() {
    assert_eq!(
        Auth::pair_link("http://127.0.0.1:7680/", "abc"),
        "http://127.0.0.1:7680/#pair=abc"
    );
}

#[test]
fn shape_is_prefix_name_underscore_43() {
    let t = mint("zuan").unwrap();
    assert!(t.starts_with("apt_zuan_"));
    assert_eq!(t.len(), PREFIX.len() + "zuan".len() + 1 + SECRET_LEN);
    assert_eq!(parse(&t).as_deref(), Some("zuan"));
    assert_ne!(mint("zuan").unwrap(), t);
}

#[test]
fn names_with_underscores_parse_back_exactly() {
    for name in ["a_b", "a", "_", "zuan-2_x", "A_"] {
        let t = mint(name).unwrap();
        assert_eq!(parse(&t).as_deref(), Some(name), "{t}");
    }
    let secret_with_underscores = "_".repeat(SECRET_LEN);
    assert_eq!(
        parse(&format!("apt_a_{secret_with_underscores}")).as_deref(),
        Some("a")
    );
}

#[test]
fn malformed_tokens_do_not_parse() {
    let secret = "x".repeat(SECRET_LEN);
    let short = &secret[1..];
    for bad in [
        String::new(),
        "apt_".into(),
        "apt__".into(),
        format!("apt_{secret}"),
        format!("apt__{secret}"),
        format!("apt_zuan{secret}"),
        format!("apt_zuan_{short}"),
        format!("apt_zu an_{secret}"),
        format!("apt_zuan_{short}="),
        format!("APT_zuan_{secret}"),
    ] {
        assert_eq!(parse(&bad), None, "{bad:?}");
    }
    assert_eq!(parse(&format!("apt_é{secret}")), None);
}

#[test]
fn constant_time_eq_is_plain_equality() {
    assert!(ct_eq("abc", "abc"));
    assert!(!ct_eq("abc", "abd"));
    assert!(!ct_eq("abc", "ab"));
    assert!(ct_eq("", ""));
}

#[test]
fn a_link_gives_one_session_which_is_recognised_until_it_is_revoked() {
    let mut a = auth();
    let link = pair_new(&mut a, Some("127.0.0.1:7680"), 0).unwrap().url;
    let token = link
        .strip_prefix("http://127.0.0.1:7680/#pair=")
        .unwrap()
        .to_owned();
    assert_eq!(a.pending_count(0), 1);
    let body = PairBody {
        token: token.clone(),
    };
    let reply = pair(&mut a, &body, Some(""), Some("127.0.0.1"), 1, 1_788_393_600).unwrap();
    assert_eq!(reply.device.name, "browser on unknown OS");
    assert_eq!(reply.device.created_at, "2026-09-03T00:00:00Z");
    assert_eq!(
        pair(&mut a, &body, None, None, 1, 0).unwrap_err().kind,
        "pair_invalid"
    );
    let session = reply
        .cookie
        .strip_prefix("agora_session=")
        .unwrap()
        .split(';')
        .next()
        .unwrap()
        .to_owned();
    let now = 1_788_393_700;
    let who = principal(&mut a, &head("GET", &session), now).unwrap();
    assert_eq!(
        who.principal,
        Principal::Human {
            device: reply.device.id.clone()
        }
    );
    assert_eq!(
        principal(&mut a, &head("POST", &session), now),
        Err(AuthError::CrossOrigin)
    );
    assert_eq!(
        principal(&mut a, &head("GET", "nope"), now),
        Err(AuthError::Unauthenticated)
    );
    let mut machine = head("GET", &session);
    machine.authorization = true;
    assert_eq!(
        principal(&mut a, &machine, now),
        Err(AuthError::BearerRequiresTls)
    );
    assert_eq!(logout(&mut a, &who.principal, now), Ok(CLEAR_COOKIE));
    assert_eq!(
        principal(&mut a, &head("GET", &session), now),
        Err(AuthError::Unauthenticated)
    );
    assert_eq!(
        a.revoke("nobody", now),
        Err(AuthError::DeviceNotFound("nobody".into()))
    );
    assert_eq!(a.list_devices().len(), 1);
    assert_eq!(a.revoke_all(now), 0);
}

#[test]
fn links_end_and_are_few() {
    let mut a = auth();
    let ttl = a.config().pair_ttl * 1000;
    let token = a.mint_pair_token(PairedVia::Socket, 0).unwrap();
    assert_eq!(
        a.redeem(&token, None, None, ttl, 0).unwrap_err(),
        AuthError::PairInvalid
    );
    for _ in 0..4 {
        a.mint_pair_token(PairedVia::Socket, 0).unwrap();
    }
    assert_eq!(
        a.mint_pair_token(PairedVia::Socket, 0),
        Err(AuthError::PairPendingLimit(4))
    );
    let full = pair_new(&mut a, None, 0).unwrap_err();
    assert_eq!((full.status, full.kind), (429, "pair_pending_limit"));
    assert!(matches!(
        answer_pair(&mut a, None, "http://x", 0),
        Response::Error { .. }
    ));
    match answer_pair(&mut a, Some("http://y/"), "http://x", ttl) {
        Response::Pair { url } => assert!(url.starts_with("http://y/#pair="), "{url}"),
        other => panic!("{other:?}"),
    }
}

#[test]
fn a_link_from_the_socket_lasts_as_long_as_links_do() {
    let mut a = auth();
    let ttl = a.config().pair_ttl * 1000;
    let began = 10 * ttl;
    let link = |a: &mut Auth| match answer_pair(a, None, "http://x", began) {
        Response::Pair { url } => url.strip_prefix("http://x/#pair=").unwrap().to_owned(),
        other => panic!("{other:?}"),
    };
    let token = link(&mut a);
    let (d, _) = a.redeem(&token, None, None, began + ttl - 1, 0).unwrap();
    assert_eq!(d.paired_via, PairedVia::Socket.as_str());
    assert!(a.redeem(&token, None, None, began + 1, 0).is_err());
    let token = link(&mut a);
    assert_eq!(
        a.redeem(&token, None, None, began + ttl, 0).unwrap_err(),
        AuthError::PairInvalid
    );
}

#[test]
fn a_token_is_the_text_of_its_bytes() {
    assert_eq!(token_of(&[0; 32]), "A".repeat(43));
    assert_eq!(token_of(&[255; 32]), format!("{}8", "_".repeat(42)));
}

#[test]
fn sessions_grow_old() {
    let mut a = auth();
    let token = a.mint_pair_token(PairedVia::Session, 0).unwrap();
    let (_, session) = a.redeem(&token, None, None, 0, 0).unwrap();
    let idle = a.config().session_idle as i64;
    let max = a.config().session_max as i64;
    assert!(a.authenticate_session(&session, 10).is_ok());
    assert!(a.authenticate_session(&session, idle + 4000).is_err());
    let mut t = 0;
    while t < max {
        assert!(a.authenticate_session(&session, t).is_ok(), "{t}");
        t += idle / 2;
    }
    assert!(a.authenticate_session(&session, max + 1).is_err());
}

#[test]
fn cookies_are_for_this_site_alone() {
    assert_eq!(
        session_cookie("s", false),
        "agora_session=s; HttpOnly; SameSite=Lax; Path=/"
    );
    assert_eq!(
        session_cookie("s", true),
        "agora_session=s; HttpOnly; SameSite=Lax; Path=/; Secure"
    );
    assert!(is_safe("GET") && !is_safe("POST"));
}

#[test]
fn machine_tokens_are_issued_replaced_and_revoked() {
    let mut table = Vec::new();
    let t = create(&mut table, "zuan", false, 0).unwrap();
    assert_eq!(
        create(&mut table, "zuan", false, 0),
        Err(PeerTokenError::Exists("zuan".into()))
    );
    assert_eq!(
        create(&mut table, "a b", false, 0),
        Err(PeerTokenError::InvalidName("a b".into()))
    );
    let shown = |t: &str| format!("Bearer {t}");
    assert_eq!(bearer_token(&shown(&t)), Some(t.clone()));
    assert_eq!(bearer_token("Basic x"), None);
    assert_eq!(authenticate(&mut table, &shown(&t), 5), Ok("zuan".into()));
    let u = create(&mut table, "zuan", true, 6).unwrap();
    assert_eq!(
        authenticate(&mut table, &shown(&t), 7),
        Err(AuthError::Unauthenticated)
    );
    assert_eq!(authenticate(&mut table, &shown(&u), 7), Ok("zuan".into()));
    assert_eq!(peer_token::revoke(&mut table, "zuan", 8), Ok(()));
    assert_eq!(
        authenticate(&mut table, &shown(&u), 9),
        Err(AuthError::Unauthenticated)
    );
    assert_eq!(
        peer_token::revoke(&mut table, "other", 8),
        Err(PeerTokenError::NotFound("other".into()))
    );
    assert_eq!(peer_token::list(&table).len(), 1);
    assert!(is_valid_name("a-b_1") && !is_valid_name("") && !is_valid_name(&"x".repeat(65)));
}

#[test]
fn a_file_with_a_token_is_private() {
    let t = mint("zuan").unwrap();
    assert_eq!(check_token_file("/f", 5, 5, 0o100600), Ok(()));
    assert!(matches!(
        check_token_file("/f", 6, 5, 0o100600),
        Err(TokenFileError::WrongOwner { .. })
    ));
    assert!(matches!(
        check_token_file("/f", 5, 5, 0o100640),
        Err(TokenFileError::TooOpen { .. })
    ));
    assert_eq!(token_in_file("/f", &format!("{t}\n")), Ok(t));
    assert!(matches!(
        token_in_file("/f", "x"),
        Err(TokenFileError::Malformed { .. })
    ));
}

#[test]
fn refusals_have_a_status_and_a_kind() {
    for (e, status, kind) in [
        (AuthError::Unauthenticated, 401, "unauthenticated"),
        (AuthError::CrossOrigin, 403, "cross_origin"),
        (AuthError::BearerRequiresTls, 401, "bearer_requires_tls"),
        (AuthError::PairInvalid, 401, "pair_invalid"),
        (AuthError::PairPendingLimit(4), 429, "pair_pending_limit"),
        (
            AuthError::DeviceNotFound("x".into()),
            404,
            "device_not_found",
        ),
        (AuthError::Db("x".into()), 500, "database"),
        (AuthError::NoRandom, 500, "internal"),
    ] {
        let r = ApiError::from_auth(&e);
        assert_eq!((r.status, r.kind), (status, kind));
        assert_eq!(r.body().get_str("error"), Some(kind));
    }
}

#[test]
fn a_session_is_given_under_an_id_that_is_free() {
    let mut a = auth();
    assert_eq!(a.mint_with(PairedVia::Session, "t1", 0), Ok(()));
    assert_eq!(a.mint_with(PairedVia::Session, "t2", 0), Ok(()));
    let d = a
        .redeem_with("t1", Some("curl/8"), None, 1, 0, "id1", "s1")
        .unwrap();
    assert_eq!(d.id, "id1");
    assert_eq!(d.name, "curl on unknown OS");
    assert_eq!(d.paired_via, PairedVia::Session.as_str());
    assert!(matches!(
        a.redeem_with("t2", None, None, 1, 0, "id1", "s2"),
        Err(AuthError::Db(_))
    ));
    assert_eq!(a.device("id1"), Some(d));
    assert_eq!(a.device("nope"), None);
    assert!(a.authenticate_session("s1", 1).is_ok());
    let who = Principal::Human {
        device: "id1".into(),
    };
    assert!(who.log_id().contains("id1"));
}
