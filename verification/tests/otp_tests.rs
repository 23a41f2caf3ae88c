use mail_sitter::otp::{get_otp_via_mail, normalize_otp};

#[test]
fn test_duckduckgo_mail_reges() {
    let mail = "To continue, open this link in your browser:\r\n\r\nhttps://duckduckgo.com/email/login?otp=unstamped-matching-onboard-proofs&user=0xhack1984\r\n\r\nOr, enter this one-time passphrase in your open DuckDuckGo tab:\r\n\r\nunstamped matching onboard proofs\r\n\r\nIf you didn’t expect this email, someone may have accidentally entered your Duck\r\nAddress when attempting to enable Email Protection in their browser. If needed,\r\nyou can reach us at support@duck.com.\r\n";
    assert_eq!(
        get_otp_via_mail(mail),
        Some("unstamped matching onboard proofs".to_string())
    )
}

#[test]
fn extract_returns_none_without_marker() {
    let mail = "Hello,\r\n\r\nplain words here\r\n\r\nbye\r\n";
    assert_eq!(get_otp_via_mail(mail), None);
}

#[test]
fn extract_returns_none_without_closed_block() {
    let mail = "your one-time passphrase is coming\r\n\r\nwords without closing blank line";
    assert_eq!(get_otp_via_mail(mail), None);
}

#[test]
fn extract_returns_none_on_empty_body() {
    assert_eq!(get_otp_via_mail(""), None);
}

#[test]
fn extract_trims_but_keeps_internal_whitespace() {
    let mail = "enter this one-time passphrase now:\r\n\r\n  brave  little   words \r\n\r\nregards\r\n";
    assert_eq!(
        get_otp_via_mail(mail),
        Some("brave  little   words".to_string())
    );
}

#[test]
fn extract_skips_block_with_foreign_characters() {
    let mail = "enter this one-time passphrase now:\r\n\r\nsee: https://example.com/x?y=1\r\n\r\nbrave little words\r\n\r\nregards\r\n";
    assert_eq!(get_otp_via_mail(mail), Some("brave little words".to_string()));
}

#[test]
fn extract_takes_first_passphrase_block() {
    let mail = "one-time passphrase:\r\n\r\nfirst good block\r\n\r\nsecond good block\r\n\r\n";
    assert_eq!(get_otp_via_mail(mail), Some("first good block".to_string()));
}

#[test]
fn normalize_url_form() {
    assert_eq!(
        normalize_otp("https://x/y?otp=a-b-c-d&user=z"),
        Some("a-b-c-d".to_string())
    );
}

#[test]
fn normalize_passphrase_form() {
    assert_eq!(normalize_otp("a b c d"), Some("a-b-c-d".to_string()));
}

#[test]
fn normalize_url_form_without_trailing_query() {
    assert_eq!(
        normalize_otp("https://x/y?otp=last-value"),
        Some("last-value".to_string())
    );
}

#[test]
fn normalize_url_without_otp_key_fails() {
    assert_eq!(normalize_otp("https://x/y?user=z"), None);
}

#[test]
fn normalize_plain_word_is_unchanged() {
    assert_eq!(normalize_otp("already-joined"), Some("already-joined".to_string()));
}
