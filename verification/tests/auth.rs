use crypto_cta_manager::auth::{
    check_role_change, clear_session_cookie, encode_password_record, extract_session_cookie,
    pbkdf2_sha256, permitted_source_ids, registration_role, requested_source_ids,
    session_cookie, session_token_from_bytes, token_hash, validate_password, validate_role,
    validate_username, verify_password, AuthError, AuthUser, PASSWORD_ITERATIONS,
};

#[test]
fn session_cookie_parser_ignores_other_cookies() {
    assert_eq!(
        extract_session_cookie(Some("theme=dark; cta_session=abc123; flag=yes")),
        Some("abc123".to_string())
    );
    assert_eq!(extract_session_cookie(Some("theme=dark")), None);
}

#[test]
fn password_records_verify_and_reject_changes() {
    let salt = [7_u8; 16];
    let encoded = encode_password_record("correct horse battery staple", &salt).unwrap();
    assert!(encoded.starts_with("pbkdf2-sha256$120000$"));
    assert!(verify_password("correct horse battery staple", &encoded));
    assert!(!verify_password("wrong horse battery staple", &encoded));
    assert!(!verify_password("short", &encoded));
}

#[test]
fn password_records_reject_bad_fields() {
    let salt = [1_u8; 16];
    let encoded = encode_password_record("hunter2hunter2", &salt).unwrap();
    let parts: Vec<&str> = encoded.split('$').collect();
    assert_eq!(parts.len(), 4);
    let low = format!("{}${}${}${}", parts[0], "9999", parts[2], parts[3]);
    assert!(!verify_password("hunter2hunter2", &low));
    let algo = format!("{}${}${}${}", "pbkdf2-sha1", parts[1], parts[2], parts[3]);
    assert!(!verify_password("hunter2hunter2", &algo));
    let padded = format!("{}${}${}=${}", parts[0], parts[1], parts[2], parts[3]);
    assert!(!verify_password("hunter2hunter2", &padded));
    assert!(!verify_password("hunter2hunter2", "no-dollars-here"));
    assert_eq!(encode_password_record("short", &salt), Err(AuthError::PasswordTooShort));
}

#[test]
fn pbkdf2_matches_rfc7914_vector() {
    let out = pbkdf2_sha256(b"passwd", b"salt", 1);
    assert_eq!(
        out[..8].to_vec(),
        vec![0x55, 0xac, 0x04, 0x6e, 0x56, 0xe3, 0x08, 0x9f]
    );
    assert_eq!(pbkdf2_sha256(b"passwd", b"salt", 0), out);
    assert_eq!(PASSWORD_ITERATIONS, 120_000);
}

#[test]
fn username_and_password_rules() {
    assert_eq!(validate_username("  alice@desk.1 ").unwrap(), "alice@desk.1");
    assert_eq!(validate_username("ab"), Err(AuthError::UsernameLength));
    assert_eq!(validate_username("bad name"), Err(AuthError::UsernameChars));
    assert_eq!(validate_username("aé"), Err(AuthError::UsernameChars));
    assert_eq!(validate_password("1234567"), Err(AuthError::PasswordTooShort));
    assert_eq!(validate_password(&"x".repeat(257)), Err(AuthError::PasswordTooLong));
    assert_eq!(validate_password("éééé"), Ok(()));
}

#[test]
fn cookies_round_trip_a_session_token() {
    let token = session_token_from_bytes(&[9_u8; 32]);
    assert_eq!(token.len(), 43);
    let cookie = session_cookie(&token);
    assert_eq!(
        cookie,
        format!("cta_session={token}; Path=/; Max-Age=604800; HttpOnly; SameSite=Strict")
    );
    assert_eq!(extract_session_cookie(Some(&cookie)), Some(token));
    assert_eq!(
        clear_session_cookie(),
        "cta_session=; Path=/; Max-Age=0; HttpOnly; SameSite=Strict"
    );
    assert_eq!(extract_session_cookie(None), None);
    assert_eq!(token_hash("abc").len(), 32);
}

#[test]
fn roles_and_permissions() {
    let admin = AuthUser { user_id: 1, username: "a".into(), role: "admin".into() };
    assert!(admin.is_admin());
    assert_eq!(registration_role(false), "admin");
    assert_eq!(registration_role(true), "user");
    assert!(validate_role("user").is_ok());
    assert_eq!(validate_role("root"), Err(AuthError::InvalidRole));
    assert_eq!(check_role_change("admin", "user", 1), Err(AuthError::LastAdministrator));
    assert!(check_role_change("admin", "user", 2).is_ok());
    let configured = vec!["s1".to_string(), "s2".to_string()];
    let ids = requested_source_ids(&vec![" s1".into(), "s1".into(), "s2".into()], &configured)
        .unwrap();
    assert_eq!(ids, vec!["s1".to_string(), "s2".to_string()]);
    assert_eq!(
        requested_source_ids(&vec!["s3".into()], &configured),
        Err(AuthError::UnknownSource)
    );
    assert_eq!(permitted_source_ids(true, &vec![], &configured), configured);
    assert_eq!(
        permitted_source_ids(false, &vec!["s2".into(), "s9".into()], &configured),
        vec!["s2".to_string()]
    );
}
