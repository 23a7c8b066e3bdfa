use mcpanel::auth::{encode_password, judge_login, login, may_list, AuthOutcome};

#[test]
fn encodes_hmac_sha256_in_base64() {
    assert_eq!(
        encode_password("what do ya want for nothing?", "Jefe"),
        "W9zBRr9gdU5qBCQmCJV1x1oAPwidJzmDnexYuWTsOEM="
    );
    assert_eq!(encode_password("pw", "k"), "TJ5ptoudKpNUU824k1sDwKY4j1YzkTxIUdHmqP6e4dQ=");
}

#[test]
fn login_with_the_right_password() {
    let token = Some(encode_password("pw", "k"));
    let key = Some("k".to_string());
    assert_eq!(
        login(&token, &key, "pw"),
        AuthOutcome::Created("TJ5ptoudKpNUU824k1sDwKY4j1YzkTxIUdHmqP6e4dQ=".to_string())
    );
}

#[test]
fn login_with_a_wrong_password() {
    let token = Some(encode_password("pw", "k"));
    let key = Some("k".to_string());
    assert_eq!(login(&token, &key, "nope"), AuthOutcome::Unauthorized);
}

#[test]
fn login_without_a_token_or_key() {
    assert_eq!(login(&None, &Some("k".to_string()), "pw"), AuthOutcome::NotImplemented);
    assert_eq!(login(&Some("t".to_string()), &None, "pw"), AuthOutcome::NotImplemented);
}

#[test]
fn judge_compares_the_encoded_password() {
    let token = Some("abc".to_string());
    assert_eq!(judge_login(&token, true, "abc"), AuthOutcome::Created("abc".to_string()));
    assert_eq!(judge_login(&token, true, "abd"), AuthOutcome::Unauthorized);
    assert_eq!(judge_login(&token, false, "abc"), AuthOutcome::NotImplemented);
}

#[test]
fn listing_needs_the_token_when_one_is_set() {
    let token = Some("abc".to_string());
    assert!(may_list(&None, &None));
    assert!(may_list(&None, &Some("x".to_string())));
    assert!(!may_list(&token, &None));
    assert!(!may_list(&token, &Some("abd".to_string())));
    assert!(may_list(&token, &Some("abc".to_string())));
}
