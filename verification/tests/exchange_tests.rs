use mail_sitter::config::ConfigValue;
use mail_sitter::email::Email;
use mail_sitter::exchange::{
    alias_address_of, issue_alias_outcome, otp_from_messages, Client, DashboardResponse,
    ExchangeError, ExchangeState, LoginResponse,
};

fn obj(entries: Vec<(&str, ConfigValue)>) -> ConfigValue {
    ConfigValue::Object(
        entries.into_iter().map(|(k, v)| (k.to_string(), v)).collect(),
    )
}

fn s(v: &str) -> ConfigValue {
    ConfigValue::Str(v.to_string())
}

#[test]
fn new_client_is_logged_in_only_with_both_tokens() {
    let c = Client::new("user1".to_string(), None, None);
    assert!(!c.logged_in);
    assert_eq!(c.state, ExchangeState::Unauthenticated);
    let c = Client::new("user1".to_string(), Some("t".to_string()), None);
    assert!(!c.logged_in);
    let c = Client::new(
        "user1".to_string(),
        Some("t".to_string()),
        Some("a".to_string()),
    );
    assert!(c.logged_in);
}

#[test]
fn otp_request_outcome_sets_state() {
    let mut c = Client::new("user1".to_string(), None, None);
    c.apply_otp_request(true);
    assert_eq!(c.state, ExchangeState::OtpRequested);
    c.apply_otp_request(false);
    assert_eq!(c.state, ExchangeState::BotChallenge);
    assert!(c.token.is_none());
}

#[test]
fn redemption_403_fails_and_keeps_access_token() {
    // An HTTP 403 on redemption is a RedemptionFailure and must not
    // touch a previously stored access token.
    let mut c = Client::new(
        "user1".to_string(),
        Some("old-session".to_string()),
        Some("old-access".to_string()),
    );
    let r = c.apply_login_response(Err(403));
    assert!(matches!(r, Err(ExchangeError::RedemptionFailure(403))));
    assert_eq!(c.access_token, Some("old-access".to_string()));
    assert_eq!(c.token, Some("old-session".to_string()));
    assert_eq!(c.state, ExchangeState::Unauthenticated);
}

#[test]
fn successful_exchange_escalates_monotonically() {
    let mut c = Client::new("user1".to_string(), None, None);
    c.apply_otp_request(true);
    let login = LoginResponse {
        status: "authenticated".to_string(),
        token: "session-1".to_string(),
        user: "user1".to_string(),
    };
    assert!(c.apply_login_response(Ok(login)).is_ok());
    assert_eq!(c.token, Some("session-1".to_string()));
    assert_eq!(c.state, ExchangeState::SessionEstablished);
    assert!(!c.logged_in);

    let dash_value = obj(vec![
        ("invites", ConfigValue::List(vec![])),
        ("stats", obj(vec![("addresses_generated", ConfigValue::Int(7))])),
        (
            "user",
            obj(vec![
                ("access_token", s("access-1")),
                ("cohort", s("alpha")),
                ("email", s("real@example.org")),
                ("username", s("user1")),
            ]),
        ),
    ]);
    let dash = DashboardResponse::from_value(&dash_value).expect("dashboard should parse");
    assert!(c.apply_dashboard_response(Ok(dash)).is_ok());
    assert_eq!(c.access_token, Some("access-1".to_string()));
    assert_eq!(c.real_email, Some("real@example.org".to_string()));
    assert_eq!(c.generated_addresses, Some(7));
    assert!(c.logged_in);
    assert_eq!(c.state, ExchangeState::FullyAuthenticated);
}

#[test]
fn dashboard_failure_is_fatal_and_changes_nothing() {
    let mut c = Client::new("user1".to_string(), Some("session-1".to_string()), None);
    let r = c.apply_dashboard_response(Err(500));
    assert!(matches!(r, Err(ExchangeError::SessionFailure(500))));
    assert_eq!(c.token, Some("session-1".to_string()));
    assert!(c.access_token.is_none());
    assert!(!c.logged_in);
}

#[test]
fn login_response_parses_from_document() {
    let v = obj(vec![
        ("status", s("authenticated")),
        ("token", s("tok-9")),
        ("user", s("user1")),
    ]);
    let lr = LoginResponse::from_value(&v).expect("should parse");
    assert_eq!(lr.status, "authenticated");
    assert_eq!(lr.token, "tok-9");
    assert_eq!(lr.user, "user1");

    let bad = obj(vec![("status", s("authenticated"))]);
    assert!(LoginResponse::from_value(&bad).is_none());
}

#[test]
fn dashboard_rejects_wrong_shapes() {
    let v = obj(vec![
        ("invites", ConfigValue::List(vec![ConfigValue::Int(1)])),
        ("stats", obj(vec![("addresses_generated", ConfigValue::Int(7))])),
        (
            "user",
            obj(vec![
                ("access_token", s("a")),
                ("cohort", s("c")),
                ("email", s("e")),
                ("username", s("u")),
            ]),
        ),
    ]);
    assert!(DashboardResponse::from_value(&v).is_none());

    let v = obj(vec![
        ("invites", ConfigValue::List(vec![s("friend@example.org")])),
        ("stats", obj(vec![("addresses_generated", ConfigValue::Int(1 << 40))])),
        (
            "user",
            obj(vec![
                ("access_token", s("a")),
                ("cohort", s("c")),
                ("email", s("e")),
                ("username", s("u")),
            ]),
        ),
    ]);
    assert!(DashboardResponse::from_value(&v).is_none());
}

#[test]
fn alias_issuance_outcomes() {
    let body = obj(vec![("address", s("crisp-otter"))]);
    assert_eq!(alias_address_of(&body), Some("crisp-otter".to_string()));
    assert_eq!(
        issue_alias_outcome(Ok(body)),
        Ok("crisp-otter".to_string())
    );
    assert_eq!(
        issue_alias_outcome(Err(429)),
        Err(ExchangeError::IssuanceFailure(429))
    );
    let empty = obj(vec![]);
    assert_eq!(
        issue_alias_outcome(Ok(empty)),
        Err(ExchangeError::IssuanceFailure(0))
    );
}

#[test]
fn otp_is_taken_from_newest_message_only() {
    let older = Email {
        from: "support@duck.com".to_string(),
        subject: "login".to_string(),
        body: "one-time passphrase:\r\n\r\nstale words here\r\n\r\n".to_string(),
    };
    let newer = Email {
        from: "support@duck.com".to_string(),
        subject: "login".to_string(),
        body: "one-time passphrase:\r\n\r\nfresh words here\r\n\r\n".to_string(),
    };
    let r = otp_from_messages(&vec![older, newer]);
    assert_eq!(r, Ok("fresh words here".to_string()));
}

#[test]
fn unparsable_body_surfaces_as_parse_failure() {
    let noise = Email {
        from: "support@duck.com".to_string(),
        subject: "welcome".to_string(),
        body: "no marker in here\r\n\r\nwords\r\n\r\n".to_string(),
    };
    match otp_from_messages(&vec![noise]) {
        Err(ExchangeError::ParseFailure(b)) => {
            assert_eq!(b, "no marker in here\r\n\r\nwords\r\n\r\n");
        },
        _ => panic!("expected a parse failure carrying the body"),
    }
}

#[test]
fn client_round_trips_through_config() {
    let c = Client::new(
        "user1".to_string(),
        Some("t1".to_string()),
        Some("a1".to_string()),
    );
    let cfg = c.to_config();
    assert_eq!(cfg.username, "user1");
    assert_eq!(cfg.token, Some("t1".to_string()));
    assert_eq!(cfg.access_token, Some("a1".to_string()));
    let c2 = Client::from_config(cfg);
    assert_eq!(c2.username, "user1");
    assert!(c2.logged_in);
}
