use finplan_server::error::{on_unique_violation, ApiError, DbFailure};
use finplan_server::text::{
    contains_text, count_char, format_i64, format_u64, parse_i64, same_text, split_char,
    strip_all_prefix, strip_prefix, trim,
};

#[test]
fn trimming_follows_unicode_white_space() {
    assert_eq!(trim("  a b \t\n"), "a b");
    assert_eq!(trim("\u{3000}x\u{a0}"), "x");
    assert_eq!(trim("   "), "");
    assert_eq!(trim(""), "");
}

#[test]
fn integers_parse_like_std() {
    for text in ["0", "42", "-7", "+15", "9223372036854775807", "-9223372036854775808", "007"] {
        assert_eq!(parse_i64(text), text.parse::<i64>().ok(), "{text}");
    }
    for text in ["", "-", "+", "1a", " 1", "9223372036854775808", "-9223372036854775809", "٣"] {
        assert_eq!(parse_i64(text), None, "{text}");
    }
}

#[test]
fn integers_print_like_std() {
    for n in [0u64, 7, 10, 99, 100, 12345, u64::MAX] {
        assert_eq!(format_u64(n), n.to_string());
    }
    for n in [0i64, -1, 42, -99, i64::MIN, i64::MAX] {
        assert_eq!(format_i64(n), n.to_string());
    }
}

#[test]
fn small_string_helpers() {
    assert!(same_text("abc", "abc"));
    assert!(!same_text("abc", "abd"));
    assert_eq!(count_char("a@b@c", '@'), 2);
    assert!(contains_text("there is no cash here", "no cash"));
    assert!(!contains_text("cash", "no cash"));
    assert!(contains_text("x", ""));
    assert_eq!(strip_prefix("Bearer abc", "Bearer "), Some("abc"));
    assert_eq!(strip_prefix("bearer abc", "Bearer "), None);
    assert_eq!(strip_all_prefix("/api//api/scenarios", "/api/"), "scenarios");
    assert_eq!(strip_all_prefix("/api/api/x", "/api/"), "api/x");
    assert_eq!(split_char("a;;b", ';'), vec!["a", "", "b"]);
    assert_eq!(split_char("", ';'), vec![""]);
}

#[test]
fn error_statuses_and_codes() {
    let cases: Vec<(ApiError, u16, &str)> = vec![
        (ApiError::bad_request("x"), 400, "bad_request"),
        (ApiError::Unauthorized, 401, "unauthorized"),
        (ApiError::Forbidden("f".into()), 403, "forbidden"),
        (ApiError::NotFound("scenario"), 404, "not_found"),
        (ApiError::Conflict("c".into()), 409, "conflict"),
        (ApiError::unprocessable("u"), 422, "unprocessable"),
        (ApiError::Database(DbFailure::Other("db".into())), 500, "internal"),
        (ApiError::internal("i"), 500, "internal"),
        (ApiError::Database(DbFailure::ForeignKeyViolation("fk".into())), 400, "bad_request"),
    ];
    for (e, status, code) in cases {
        assert_eq!(e.status(), status);
        assert_eq!(e.code(), code);
    }
}

#[test]
fn error_bodies_hide_internal_detail() {
    let nf = ApiError::NotFound("scenario").body();
    assert_eq!(nf.error.code, "not_found");
    assert_eq!(nf.error.message, "scenario not found");
    let db = ApiError::Database(DbFailure::Other("disk I/O".into()));
    assert_eq!(db.describe(), "database error: disk I/O");
    assert_eq!(db.body().error.message, "internal server error");
    assert_eq!(ApiError::internal("oops").body().error.message, "internal server error");
    let fk = ApiError::Database(DbFailure::ForeignKeyViolation("FOREIGN KEY".into()));
    assert!(fk.is_dangling_reference());
    assert_eq!(fk.body().error.message, "a referenced account, asset or event does not exist");
    assert_eq!(ApiError::Unauthorized.body().error.message, "authentication required");
    assert_eq!(ApiError::bad_request("bad").body().error.message, "bad");
}

#[test]
fn unique_violations_become_conflicts() {
    match on_unique_violation(DbFailure::UniqueViolation("UNIQUE".into()), "name taken") {
        ApiError::Conflict(m) => assert_eq!(m, "name taken"),
        _ => panic!("expected a conflict"),
    }
    assert!(matches!(
        on_unique_violation(DbFailure::Other("x".into()), "name taken"),
        ApiError::Database(DbFailure::Other(_))
    ));
}
