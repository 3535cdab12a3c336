use finplan_server::auth::activity::record;
use finplan_server::auth::legacy::{
    claims_for, create_token, create_token_at, expiry_after, new_claims_at, hash_password as bcrypt_hash_password,
    token_for, LATEST_SECS, verify_password as bcrypt_verify_password,
    verify_token,
};
use finplan_server::auth::protection::{origin_permitted, throttle_applies, AttemptWindows};
use finplan_server::auth::recovery::{check_token, mail_route, reset_hash};
use finplan_server::auth::routes::{
    blank_to_none, check_confirmation, check_login, check_preferences, check_revoked,
    logout_tokens, normalize_profile, validate_date, Accent, ThemeMode, UpdatePreferences,
    UpdateUserProfile, DUMMY_HASH,
};
use finplan_server::auth::session::{
    build_cookie, clear_cookie, extract_token, generate_token, hash_token, user_agent_of,
};
use finplan_server::auth::{hash_password, normalize_email, verify_password};
use finplan_server::error::ApiError;

#[test]
fn token_hash_is_base64url_of_sha256() {
    // SHA-256 of the empty string, unpadded URL-safe base64.
    assert_eq!(hash_token(""), "47DEQpj8HBSa-_TImW-5JCeuQeRkm5NMpJWZG3hSuFU");
    assert_eq!(hash_token("abc"), "ungWv48Bz-pBQUDeXa4iI7ADYaOWF3qctBD_YfIAFa0");
    assert_ne!(hash_token("abc"), hash_token("abd"));
}

#[test]
fn generated_tokens_are_fresh_and_hashed() {
    let a = generate_token();
    let b = generate_token();
    assert_eq!(a.token.len(), 43);
    assert_ne!(a.token, b.token);
    assert_eq!(a.token_hash, hash_token(&a.token));
}

#[test]
fn session_cookie_shapes() {
    assert_eq!(
        build_cookie("tok", false),
        "finplan_session=tok; Path=/; HttpOnly; SameSite=Lax; Max-Age=2592000"
    );
    assert_eq!(
        build_cookie("tok", true),
        "finplan_session=tok; Path=/; HttpOnly; SameSite=Lax; Max-Age=2592000; Secure"
    );
    assert_eq!(clear_cookie(false), "finplan_session=; Path=/; HttpOnly; SameSite=Lax; Max-Age=0");
    assert_eq!(
        clear_cookie(true),
        "finplan_session=; Path=/; HttpOnly; SameSite=Lax; Max-Age=0; Secure"
    );
}

#[test]
fn token_is_read_from_cookie_then_bearer() {
    assert_eq!(extract_token(Some("a=1; finplan_session=xyz; b=2"), None).as_deref(), Some("xyz"));
    assert_eq!(extract_token(Some("finplan_session=; x=y"), Some("Bearer  abc ")).as_deref(), Some("abc"));
    assert_eq!(extract_token(None, Some("Bearer abc")).as_deref(), Some("abc"));
    assert_eq!(extract_token(None, Some("Basic abc")), None);
    assert_eq!(extract_token(None, Some("Bearer    ")), None);
    assert_eq!(extract_token(None, None), None);
    assert_eq!(
        logout_tokens("finplan_session=a; other=1;  finplan_session=b ; finplan_session="),
        vec!["a".to_string(), "b".to_string()]
    );
}

#[test]
fn user_agent_is_clipped() {
    assert_eq!(user_agent_of(Some("")), None);
    assert_eq!(user_agent_of(None), None);
    assert_eq!(user_agent_of(Some("curl/8")).as_deref(), Some("curl/8"));
    let long = "é".repeat(400);
    assert_eq!(user_agent_of(Some(&long)).unwrap().chars().count(), 300);
}

#[test]
fn passwords_hash_and_verify() {
    let hash = hash_password("correct horse battery").ok().unwrap();
    assert!(hash.starts_with("$argon2id$"));
    assert!(verify_password("correct horse battery", &hash));
    assert!(!verify_password("wrong horse battery", &hash));
    assert!(!verify_password("anything", "not a phc string"));
    assert!(!verify_password("anything", DUMMY_HASH));
}

#[test]
fn password_length_rules() {
    match hash_password("short") {
        Err(ApiError::BadRequest(m)) => assert_eq!(m, "password must be at least 10 characters"),
        _ => panic!("expected a refusal"),
    }
    let long = "x".repeat(1025);
    match hash_password(&long) {
        Err(ApiError::BadRequest(m)) => assert_eq!(m, "password must be at most 1024 bytes"),
        _ => panic!("expected a refusal"),
    }
    assert!(!verify_password(&long, DUMMY_HASH));
    // Ten characters that take more bytes are still ten characters.
    assert!(hash_password("éééééééééé").is_ok());
}

#[test]
fn emails_are_normalized_and_checked() {
    assert_eq!(normalize_email("  Alice@Example.COM ").ok().unwrap(), "alice@example.com");
    for bad in ["", "a@b", "@example.com", "alice@", "alice@@example.com", "alice.example.com", "a@b@c.d"] {
        match normalize_email(bad) {
            Err(ApiError::BadRequest(m)) => assert_eq!(m, "invalid email address"),
            _ => panic!("accepted {bad}"),
        }
    }
    let long = format!("{}@example.com", "a".repeat(250));
    assert!(normalize_email(&long).is_err());
}

#[test]
fn account_routes_checks() {
    assert!(check_confirmation("a", "a").is_ok());
    assert!(matches!(check_confirmation("a", "b"), Err(ApiError::BadRequest(_))));
    assert!(check_login(true, true).is_ok());
    assert!(matches!(check_login(false, true), Err(ApiError::Forbidden(_))));
    assert!(matches!(check_login(true, false), Err(ApiError::Forbidden(_))));
    assert!(matches!(check_revoked(0), Err(ApiError::NotFound("session"))));
    assert!(check_revoked(1).is_ok());
    assert_eq!(blank_to_none(Some("  x ".to_string())).as_deref(), Some("x"));
    assert_eq!(blank_to_none(Some("   ".to_string())), None);
    assert_eq!(blank_to_none(None), None);
}

#[test]
fn preference_bounds() {
    let mut p = UpdatePreferences {
        default_iterations: 1000,
        default_duration_years: 30,
        auto_run: true,
        theme_mode: ThemeMode::Dark,
        accent: Accent::Blue,
    };
    assert!(check_preferences(&p, 50_000).is_ok());
    p.default_iterations = 60_000;
    match check_preferences(&p, 50_000) {
        Err(ApiError::BadRequest(m)) => assert_eq!(m, "default iterations must be between 1 and 50000"),
        _ => panic!("expected a refusal"),
    }
    p.default_iterations = 0;
    assert!(check_preferences(&p, 50_000).is_err());
    p.default_iterations = 10;
    p.default_duration_years = 121;
    match check_preferences(&p, 50_000) {
        Err(ApiError::BadRequest(m)) => assert_eq!(m, "default duration must be between 1 and 120 years"),
        _ => panic!("expected a refusal"),
    }
}

#[test]
fn birth_dates_are_canonical() {
    assert_eq!(validate_date("2024-02-29").ok().unwrap(), "2024-02-29");
    match validate_date("2023-02-29") {
        Err(ApiError::BadRequest(m)) => assert!(m.starts_with("invalid birth_date '2023-02-29': ")),
        _ => panic!("expected a refusal"),
    }
    let (name, birth) = normalize_profile(UpdateUserProfile {
        display_name: Some("  Ann ".to_string()),
        birth_date: Some(" 1980-05-01 ".to_string()),
    })
    .ok()
    .unwrap();
    assert_eq!(name.as_deref(), Some("Ann"));
    assert_eq!(birth.as_deref(), Some("1980-05-01"));
}

#[test]
fn account_attempts_are_limited_per_minute() {
    let mut w = AttemptWindows::new();
    for _ in 0..10 {
        assert!(w.account_attempt("a@example.com", 1_000).is_ok());
    }
    match w.account_attempt("a@example.com", 1_500) {
        Err(ApiError::Conflict(m)) => assert_eq!(m, "Too many attempts. Retry in one minute."),
        _ => panic!("expected a refusal"),
    }
    // A different account has its own window.
    assert!(w.account_attempt("b@example.com", 1_500).is_ok());
    // A minute later the window has expired.
    assert!(w.account_attempt("a@example.com", 61_000).is_ok());
}

#[test]
fn peer_attempts_are_limited_and_capped() {
    let mut w = AttemptWindows::new();
    for _ in 0..30 {
        assert!(!w.peer_attempt("1.2.3.4", 0));
    }
    assert!(w.peer_attempt("1.2.3.4", 10));
    let mut w = AttemptWindows::new();
    for i in 0..4096 {
        assert!(!w.peer_attempt(&format!("peer{i}"), 0));
    }
    assert!(w.peer_attempt("newcomer", 0));
    assert!(!w.peer_attempt("peer7", 0));
    assert!(!w.peer_attempt("newcomer", 60_000));
}

#[test]
fn origin_rules() {
    let trusted = vec!["https://app.example".to_string()];
    assert!(origin_permitted("GET", true, Some("https://evil"), &trusted, None, true, true));
    assert!(origin_permitted("POST", true, Some("https://app.example"), &trusted, None, true, true));
    assert!(!origin_permitted("POST", true, Some("https://evil"), &trusted, None, false, false));
    assert!(!origin_permitted("POST", true, None, &trusted, None, false, false));
    assert!(origin_permitted("POST", false, None, &trusted, None, true, false));
    assert!(!origin_permitted("POST", false, None, &trusted, None, true, true));
    assert!(origin_permitted("POST", false, None, &trusted, Some("Bearer x"), false, true));
    assert!(!origin_permitted("POST", false, None, &trusted, Some("Bearer x"), true, true));
    assert!(throttle_applies(true, "POST", "/api/auth/login"));
    assert!(!throttle_applies(false, "POST", "/api/auth/login"));
    assert!(!throttle_applies(true, "GET", "/api/auth/me"));
    assert!(!throttle_applies(true, "POST", "/api/scenarios"));
}

#[test]
fn activity_fields_are_allowlisted_and_recorded_once() {
    let allowed: &'static [&'static str] = &["topic", "message"];
    let mut fields: Vec<&'static str> = Vec::new();
    record(&mut fields, allowed, "message");
    record(&mut fields, allowed, "secret");
    record(&mut fields, allowed, "message");
    record(&mut fields, allowed, "topic");
    assert_eq!(fields, vec!["message", "topic"]);
}

#[test]
fn recovery_decisions() {
    assert_eq!(mail_route(false, Some("/tmp/mail"), false).ok().unwrap(), Some("/tmp/mail"));
    assert_eq!(mail_route(true, Some("/tmp/mail"), true).ok().unwrap(), None);
    match mail_route(true, Some("/tmp/mail"), false) {
        Err(ApiError::Conflict(m)) => assert_eq!(m, "Email delivery is not configured. Contact the service operator."),
        _ => panic!("expected a refusal"),
    }
    assert!(check_token(true, 1).is_ok());
    assert!(check_token(false, 1).is_err());
    assert!(check_token(true, 0).is_err());
    assert_eq!(reset_hash(Some("h")).ok().unwrap(), "h");
    assert!(reset_hash(None).is_err());
}

#[test]
fn legacy_bcrypt_and_claims() {
    let hash = bcrypt_hash_password("hunter2hunter2").ok().unwrap();
    assert_eq!(hash.len(), 60);
    assert!(hash.starts_with("$2b$12$"));
    assert!(bcrypt_verify_password("hunter2hunter2", &hash).ok().unwrap());
    assert!(!bcrypt_verify_password("nope", &hash).ok().unwrap());
    match bcrypt_verify_password("x", "garbage") {
        Err(ApiError::Internal(m)) => assert!(m.starts_with("Failed to verify password: ")),
        _ => panic!("expected an error"),
    }
    let c = claims_for("user-1", 1_700_000_000);
    assert_eq!(c.sub, "user-1");
    assert_eq!(c.exp, 1_700_000_000);
}

#[test]
fn legacy_tokens_read_back_under_their_secret() {
    let token = create_token("user-7", "s3cret").unwrap();
    assert_eq!(token.split('.').count(), 3);
    let c = verify_token(&token, "s3cret").unwrap();
    assert_eq!(c.sub, "user-7");
    // Seven days out, give or take the test's own run time.
    let now = std::time::SystemTime::now().duration_since(std::time::UNIX_EPOCH).unwrap().as_secs() as usize;
    assert!(c.exp >= now + 7 * 24 * 3600 - 60 && c.exp <= now + 7 * 24 * 3600 + 60);
    assert!(matches!(verify_token(&token, "other"), Err(ApiError::Unauthorized)));
    assert!(matches!(verify_token("not.a.token", "s3cret"), Err(ApiError::Unauthorized)));
    // A token whose expiry has passed is refused.
    let old = token_for(&claims_for("user-7", 1_000_000), "s3cret").unwrap();
    assert!(matches!(verify_token(&old, "s3cret"), Err(ApiError::Unauthorized)));
    let later = token_for(&claims_for("user-8", 4_000_000_000), "s3cret").unwrap();
    let c = verify_token(&later, "s3cret").unwrap();
    assert_eq!((c.sub.as_str(), c.exp), ("user-8", 4_000_000_000));
}

#[test]
fn tokens_expire_seven_days_after_they_are_made() {
    assert_eq!(expiry_after(0), Some(604_800));
    assert_eq!(expiry_after(1_700_000_000), Some(1_700_604_800));
    assert_eq!(expiry_after(LATEST_SECS - 604_800), Some(LATEST_SECS));
    assert_eq!(expiry_after(LATEST_SECS - 604_799), None);
    let c = new_claims_at("user-3", 1_700_000_000).unwrap();
    assert_eq!((c.sub.as_str(), c.exp), ("user-3", 1_700_604_800));
    match new_claims_at("user-3", i64::MAX) {
        Err(ApiError::Internal(m)) => assert_eq!(m, "valid timestamp"),
        _ => panic!("expected no expiry"),
    }
    let token = create_token_at("user-3", "k", 4_000_000_000).unwrap();
    let c = verify_token(&token, "k").unwrap();
    assert_eq!((c.sub.as_str(), c.exp), ("user-3", 4_000_604_800));
}
