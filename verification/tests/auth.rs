use ks_notes::auth::{
    bearer_token, clear_session_cookie, constant_time_eq, cookie_from_headers, csrf_header_ok,
    ct_eq, hash_password, new_api_token, new_uid, new_uuid, random_token, require_admin,
    require_csrf_field, session_cookie, uid_from_indices, uuid_from_bytes, session_token, token_hash, verify_password, SessionUser,
    API_TOKEN_PREFIX, SESSION_COOKIE,
};
use ks_notes::error::AppError;
use ks_notes::markdown::{extract_attachment_refs, extract_memo_refs};
use ks_notes::models::{Role, User};

fn session(role: Role, csrf: &str) -> SessionUser {
    SessionUser {
        user: User { id: 1, username: "ann".to_string(), role },
        csrf_token: csrf.to_string(),
    }
}

#[test]
fn token_hash_is_lowercase_hex_sha256() {
    assert_eq!(
        token_hash("abc"),
        "ba7816bf8f01cfea414140de5dae2223b00361a396177a9cb410ff61f20015ad"
    );
    assert_eq!(
        token_hash(""),
        "e3b0c44298fc1c149afbf4c8996fb92427ae41e4649b934ca495991b7852b855"
    );
    assert_ne!(token_hash("ksn_a"), token_hash("ksn_b"));
}

#[test]
fn random_tokens_are_43_url_safe_characters() {
    let a = random_token();
    let b = random_token();
    assert_eq!(a.len(), 43);
    assert!(a.chars().all(|c| c.is_ascii_alphanumeric() || c == '-' || c == '_'));
    assert_ne!(a, b);
}

#[test]
fn api_tokens_carry_the_prefix_and_are_accepted_as_bearer() {
    let t = new_api_token();
    assert!(t.starts_with(API_TOKEN_PREFIX));
    assert_eq!(t.len(), 4 + 43);
    let header = format!("Bearer {t}");
    assert_eq!(bearer_token(Some(header.as_str())), Some(t));
}

#[test]
fn bearer_token_needs_scheme_and_prefix() {
    assert_eq!(bearer_token(None), None);
    assert_eq!(bearer_token(Some("Bearer ksn_abc")), Some("ksn_abc".to_string()));
    assert_eq!(bearer_token(Some("Bearer   ksn_abc  ")), Some("ksn_abc".to_string()));
    assert_eq!(bearer_token(Some("Bearer abc")), None);
    assert_eq!(bearer_token(Some("Basic ksn_abc")), None);
    assert_eq!(bearer_token(Some("bearer ksn_abc")), None);
    assert_eq!(bearer_token(Some("Bearer ")), None);
}

#[test]
fn uids_are_twelve_base62_characters() {
    let u = new_uid();
    assert_eq!(u.len(), 12);
    assert!(u.chars().all(|c| c.is_ascii_alphanumeric()));
    assert_ne!(new_uid(), new_uid());
}

#[test]
fn uuids_are_version_4_and_link_back() {
    let u = new_uuid();
    assert_eq!(u.len(), 36);
    let parts: Vec<&str> = u.split('-').collect();
    assert_eq!(parts.iter().map(|p| p.len()).collect::<Vec<_>>(), vec![8, 4, 4, 4, 12]);
    assert!(u.chars().all(|c| c == '-' || c.is_ascii_digit() || ('a'..='f').contains(&c)));
    assert_eq!(&u[14..15], "4");
    assert!(matches!(&u[19..20], "8" | "9" | "a" | "b"));
    let token = format!("see {{{{memo:{u}}}}}");
    assert_eq!(extract_memo_refs(&token), vec![u]);
}

#[test]
fn new_uid_links_back_as_attachment() {
    let u = new_uid();
    let token = format!("{{{{attach:{u}}}}}");
    assert_eq!(extract_attachment_refs(&token), vec![u]);
}

#[test]
fn constant_time_comparisons() {
    assert!(ct_eq(b"abc", b"abc"));
    assert!(!ct_eq(b"abc", b"abd"));
    assert!(!ct_eq(b"abc", b"ab"));
    assert!(ct_eq(b"", b""));
    assert!(constant_time_eq("tok", "tok"));
    assert!(!constant_time_eq("tok", "Tok"));
}

#[test]
fn session_cookie_attributes() {
    assert_eq!(SESSION_COOKIE, "ks_session");
    assert_eq!(
        session_cookie("tok", false, 60),
        "ks_session=tok; Path=/; HttpOnly; SameSite=Lax; Max-Age=60"
    );
    assert_eq!(
        session_cookie("tok", true, 2592000),
        "ks_session=tok; Path=/; HttpOnly; SameSite=Lax; Max-Age=2592000; Secure"
    );
    assert_eq!(
        clear_session_cookie(true),
        "ks_session=; Path=/; HttpOnly; SameSite=Lax; Max-Age=0; Secure"
    );
}

#[test]
fn cookie_header_lookup() {
    let h = Some("theme=dark; ks_session=xyz; other=1");
    assert_eq!(cookie_from_headers(h, "ks_session"), Some("xyz".to_string()));
    assert_eq!(cookie_from_headers(h, "theme"), Some("dark".to_string()));
    assert_eq!(cookie_from_headers(h, "missing"), None);
    assert_eq!(cookie_from_headers(None, "ks_session"), None);
    assert_eq!(cookie_from_headers(Some("a=b=c"), "a"), Some("b=c".to_string()));
    assert_eq!(cookie_from_headers(Some("novalue; a=1"), "a"), Some("1".to_string()));
    assert_eq!(cookie_from_headers(Some("x=1; x=2"), "x"), Some("1".to_string()));
}

#[test]
fn session_cookie_round_trip() {
    let t = random_token();
    let set = session_cookie(&t, false, 60);
    let sent = set.split(';').next().unwrap();
    assert_eq!(cookie_from_headers(Some(sent), SESSION_COOKIE), Some(t));
}

#[test]
fn empty_session_cookie_is_no_session() {
    assert_eq!(session_token(Some(String::new())), None);
    assert_eq!(session_token(None), None);
    assert_eq!(session_token(Some("t".to_string())), Some("t".to_string()));
}

#[test]
fn csrf_checks() {
    let s = session(Role::User, "csrf123");
    assert!(require_csrf_field(&s, "csrf123").is_ok());
    assert!(matches!(require_csrf_field(&s, "nope"), Err(AppError::Forbidden)));
    assert!(csrf_header_ok(Some("csrf123"), &s));
    assert!(!csrf_header_ok(None, &s));
    assert!(!csrf_header_ok(Some(""), &s));
    assert!(csrf_header_ok(None, &session(Role::User, "")));
}

#[test]
fn admin_guard() {
    assert!(require_admin(&session(Role::Admin, "x")).is_ok());
    assert!(matches!(require_admin(&session(Role::User, "x")), Err(AppError::Forbidden)));
}

#[test]
fn password_hash_verifies_only_the_same_password() {
    let h = hash_password("hunter22").unwrap();
    assert!(h.starts_with("$argon2id$"));
    assert!(verify_password("hunter22", &h));
    assert!(!verify_password("hunter23", &h));
    assert!(!verify_password("hunter22", "not a hash"));
    let h2 = hash_password("hunter22").unwrap();
    assert_ne!(h, h2);
}

#[test]
fn uuid_from_bytes_sets_version_and_variant() {
    assert_eq!(uuid_from_bytes(&[0u8; 16]), "00000000-0000-4000-8000-000000000000");
    assert_eq!(uuid_from_bytes(&[0xffu8; 16]), "ffffffff-ffff-4fff-bfff-ffffffffffff");
}

#[test]
fn uid_from_indices_maps_the_alphabet() {
    let ix: Vec<usize> = (0..12).collect();
    assert_eq!(uid_from_indices(&ix), "0123456789AB");
    assert_eq!(uid_from_indices(&vec![61usize; 12]), "zzzzzzzzzzzz");
}

#[test]
fn hash_password_succeeds_and_verifies() {
    let h = hash_password("x").unwrap();
    assert!(h.starts_with("$argon2id$"));
    assert!(verify_password("x", &h));
    assert!(!verify_password("y", &h));
}
