use notedock::api::{ApiErrorBody, ErrorCode};
use notedock::auth::{
    bearer_token, configured_hash, hash_password, login_check, new_token, setup_check, setup_stored, token_hash,
    verify_password,
};
use notedock::config::{cors_origins, password_source, session_ttl_days, PasswordSource, DEFAULT_BIND, DEFAULT_DB_PATH};
use notedock::error::AppError;
use notedock::notes::{
    client_id, created_status, delete_outcome, note_summary, note_title, resolve_note_id, sync_cursor, visible,
    PAGE_LIMIT, PREVIEW_CHARS,
};

fn bad(m: &str) -> AppError {
    AppError::BadRequest(m.to_owned())
}

#[test]
fn errors_answer_with_status_and_code() {
    assert_eq!(
        bad("nope").response(),
        (400, ApiErrorBody { code: ErrorCode::BadRequest, message: "nope".into() })
    );
    assert_eq!(
        AppError::Unauthorized.response(),
        (401, ApiErrorBody { code: ErrorCode::Unauthorized, message: "missing or invalid credentials".into() })
    );
    assert_eq!(
        AppError::NotFound.response(),
        (404, ApiErrorBody { code: ErrorCode::NotFound, message: "no such note".into() })
    );
    assert_eq!(
        AppError::Internal("disk on fire".into()).response(),
        (500, ApiErrorBody { code: ErrorCode::Internal, message: "internal error".into() })
    );
    assert_eq!(AppError::Internal("disk on fire".into()).message(), "disk on fire");
    assert_eq!(AppError::NotFound.message(), "no such note");
}

#[test]
fn bearer_tokens_are_read_from_the_header() {
    assert_eq!(bearer_token(Some("Bearer abc")), Some("abc".to_owned()));
    assert_eq!(bearer_token(Some("Bearer   abc  ")), Some("abc".to_owned()));
    assert_eq!(bearer_token(Some("Bearer    ")), None);
    assert_eq!(bearer_token(Some("Basic abc")), None);
    assert_eq!(bearer_token(Some("bearer abc")), None);
    assert_eq!(bearer_token(None), None);
}

#[test]
fn token_hashes_are_hex_sha256() {
    assert_eq!(token_hash("abc"), "ba7816bf8f01cfea414140de5dae2223b00361a396177a9cb410ff61f20015ad");
    assert_eq!(token_hash(""), "e3b0c44298fc1c149afbf4c8996fb92427ae41e4649b934ca495991b7852b855");
}

#[test]
fn new_tokens_are_64_lowercase_hex() {
    let a = new_token();
    let b = new_token();
    assert_eq!(a.chars().count(), 64);
    assert!(a.chars().all(|c| c.is_ascii_digit() || ('a'..='f').contains(&c)));
    assert_ne!(a, b);
    for half in [&a[..32], &a[32..]] {
        assert_eq!(half.as_bytes()[12], b'4');
        assert!(b"89ab".contains(&half.as_bytes()[16]));
    }
}

#[test]
fn a_hashed_password_verifies_and_nothing_else_does() {
    let phc = hash_password("correct horse").expect("hash");
    assert!(phc.starts_with("$argon2id$"));
    assert!(verify_password("correct horse", &phc));
    assert!(!verify_password("wrong", &phc));
    assert!(!verify_password("correct horse", "not a phc string"));
    assert_eq!(login_check(Some(&phc), "correct horse"), Ok(()));
    assert_eq!(login_check(Some(&phc), "wrong"), Err(AppError::Unauthorized));
    assert_eq!(login_check(None, "x"), Err(bad("尚未设置密码，请先打开 Web 端完成初始化")));
}

#[test]
fn the_configured_hash_wins_unless_blank() {
    assert_eq!(configured_hash("$argon2id$x"), Some("$argon2id$x".to_owned()));
    assert_eq!(configured_hash("   "), None);
    assert_eq!(configured_hash(""), None);
}

#[test]
fn setup_needs_eight_characters_and_no_password_yet() {
    assert_eq!(setup_check("短密码", false), Err(bad("密码至少需要 8 个字符")));
    assert_eq!(setup_check("八个汉字的密码呀", false), Ok(()));
    assert_eq!(setup_check("12345678", true), Err(bad("密码已经设置，请直接登录")));
    assert_eq!(setup_stored(0), Err(bad("密码已经设置，请直接登录")));
    assert_eq!(setup_stored(1), Ok(()));
}

#[test]
fn create_with_a_client_id_keeps_it() {
    let id = "01a05c05-4658-76b0-bcf4-e06354b030c1";
    assert_eq!(resolve_note_id(Some(id)), Ok(id.to_owned()));
    assert_eq!(resolve_note_id(Some("  01a05c05-4658-76b0-bcf4-e06354b030c1 ")), Ok(id.to_owned()));
    assert_eq!(resolve_note_id(Some("")), Err(bad("id 必须是 UUID")));
    assert_eq!(resolve_note_id(Some("01A05C05-4658-76B0-BCF4-E06354B030C1")), Ok(id.to_owned()));
    assert_eq!(resolve_note_id(Some("01a05c05465876b0bcf4e06354b030c1")), Ok(id.to_owned()));
}

#[test]
fn create_rejects_an_id_that_is_not_a_uuid() {
    assert_eq!(resolve_note_id(Some("../../etc/passwd")), Err(bad("id 必须是 UUID")));
    assert_eq!(client_id(None), Err(bad("id 必须是 UUID")));
    assert_eq!(client_id(Some("x".into())), Ok("x".to_owned()));
}

#[test]
fn a_server_allocated_id_is_a_hyphenated_uuid() {
    let a = resolve_note_id(None).unwrap();
    let b = resolve_note_id(None).unwrap();
    assert_eq!(a.len(), 36);
    assert_eq!(a.matches('-').count(), 4);
    let groups: Vec<usize> = a.split('-').map(str::len).collect();
    assert_eq!(groups, vec![8, 4, 4, 4, 12]);
    assert_eq!(a.as_bytes()[14], b'7');
    assert!(b"89ab".contains(&a.as_bytes()[19]));
    assert_eq!(a, a.to_lowercase());
    assert_ne!(a, b);
}

#[test]
fn created_means_201_and_a_retry_means_200() {
    assert_eq!(created_status(1), 201);
    assert_eq!(created_status(0), 200);
    assert_eq!(note_title("  会议记录 "), "会议记录");
}

#[test]
fn delete_is_idempotent() {
    assert_eq!(delete_outcome(1, true), Ok(true));
    assert_eq!(delete_outcome(0, true), Ok(false));
    assert_eq!(delete_outcome(0, false), Err(AppError::NotFound));
}

#[test]
fn the_sync_cursor_holds_steady_when_nothing_is_new() {
    assert_eq!(sync_cursor(Some(17), 40), 17);
    assert_eq!(sync_cursor(None, 40), 40);
    assert_eq!(sync_cursor(None, 0), 0);
}

#[test]
fn rows_read_as_summaries() {
    let n = note_summary(
        "id".into(),
        "第一行会变成标题".into(),
        "第一行会变成标题\n第二行只进预览",
        3,
        "t".into(),
        None,
    );
    assert_eq!(n.preview, "第一行会变成标题 第二行只进预览");
    assert!(!n.deleted);
    let gone = note_summary("id".into(), "".into(), "", 4, "t".into(), Some("t".into()));
    assert!(gone.deleted);
    assert_eq!(visible(gone), Err(AppError::NotFound));
    assert_eq!(visible(n.clone()), Ok(n));
    let long: String = "字".repeat(200);
    let cut = note_summary("id".into(), "".into(), &long, 1, "t".into(), None);
    assert_eq!(cut.preview.chars().count(), PREVIEW_CHARS + 1);
    assert!(cut.preview.ends_with('…'));
    assert_eq!(PAGE_LIMIT, 500);
}

#[test]
fn cors_origins_default_to_the_dev_server() {
    assert_eq!(
        cors_origins(None),
        vec!["http://localhost:5173".to_owned(), "http://127.0.0.1:5173".to_owned()]
    );
    assert_eq!(cors_origins(Some(" https://a.example , ,https://b.example,")), vec![
        "https://a.example".to_owned(),
        "https://b.example".to_owned()
    ]);
    assert!(cors_origins(Some("")).is_empty());
}

#[test]
fn the_password_comes_from_the_hash_then_the_plaintext() {
    assert_eq!(password_source(Some("$argon2id$h"), Some("pw")), Ok(PasswordSource::Hash("$argon2id$h".into())));
    assert_eq!(password_source(Some("  "), Some("pw")), Ok(PasswordSource::Plain("pw".into())));
    assert_eq!(password_source(None, Some("pw")), Ok(PasswordSource::Plain("pw".into())));
    assert!(password_source(None, Some("   ")).is_err());
    assert_eq!(
        password_source(None, None),
        Err("set NOTEDOCK_PASSWORD_HASH (or NOTEDOCK_PASSWORD for local dev). Generate a hash with `notedock-server hash-password <password>`".to_owned())
    );
}

#[test]
fn session_lifetime_is_whole_days() {
    assert_eq!(session_ttl_days(None), Ok(30));
    assert_eq!(DEFAULT_BIND, "[::]:8080");
    assert_eq!(DEFAULT_DB_PATH, "data/notedock.db");
    assert_eq!(session_ttl_days(Some("7")), Ok(7));
    assert_eq!(session_ttl_days(Some("seven")), Err("NOTEDOCK_SESSION_TTL_DAYS must be an integer".to_owned()));
}
