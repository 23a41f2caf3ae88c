use mail_sitter::config::{merge_configs, ConfigValue, DdConfig};
use mail_sitter::email::{split_smtp, Email, EmailConfig, MimePart, SmtpSplitError};

fn obj(entries: Vec<(&str, ConfigValue)>) -> ConfigValue {
    ConfigValue::Object(
        entries.into_iter().map(|(k, v)| (k.to_string(), v)).collect(),
    )
}

fn s(v: &str) -> ConfigValue {
    ConfigValue::Str(v.to_string())
}

fn get_str(v: &ConfigValue, key: &str) -> Option<String> {
    match v.get(key) {
        Some(ConfigValue::Str(x)) => Some(x.clone()),
        _ => None,
    }
}

#[test]
fn credential_save_then_load_round_trips_and_merges() {
    // An existing stored file with an older credential and an unrelated
    // key: saving a new credential over it reproduces the new fields on
    // load and leaves the unrelated key untouched.
    let mut existing = obj(vec![
        ("username", s("old-user")),
        ("token", s("old-token")),
        ("custom", s("keep-me")),
    ]);
    let cred = DdConfig::new("user1".to_string(), Some("t1".to_string()), None);
    let saved = cred.to_value();
    merge_configs(&mut existing, &saved);

    let loaded = DdConfig::from_value(&existing).expect("merged file should parse");
    assert_eq!(loaded.username, "user1");
    assert_eq!(loaded.token, Some("t1".to_string()));
    assert_eq!(loaded.access_token, None);
    assert_eq!(get_str(&existing, "custom"), Some("keep-me".to_string()));
}

#[test]
fn merge_into_missing_file_keeps_the_record() {
    let mut doc = ConfigValue::Null;
    let cred = DdConfig::new(
        "user1".to_string(),
        Some("t1".to_string()),
        Some("a1".to_string()),
    );
    let saved = cred.to_value();
    merge_configs(&mut doc, &saved);
    let loaded = DdConfig::from_value(&doc).expect("should parse");
    assert_eq!(loaded.username, "user1");
    assert_eq!(loaded.token, Some("t1".to_string()));
    assert_eq!(loaded.access_token, Some("a1".to_string()));
}

#[test]
fn merge_is_recursive_on_nested_objects() {
    let mut a = obj(vec![("nested", obj(vec![("x", ConfigValue::Int(1))]))]);
    let b = obj(vec![("nested", obj(vec![("y", ConfigValue::Int(2))]))]);
    merge_configs(&mut a, &b);
    let nested = a.get("nested").expect("nested survives");
    assert!(matches!(nested.get("x"), Some(ConfigValue::Int(1))));
    assert!(matches!(nested.get("y"), Some(ConfigValue::Int(2))));
}

#[test]
fn merge_replaces_scalars_and_appends_new_keys() {
    let mut a = obj(vec![("k", s("old")), ("other", ConfigValue::Bool(true))]);
    let b = obj(vec![("k", s("new")), ("fresh", ConfigValue::Int(3))]);
    merge_configs(&mut a, &b);
    assert_eq!(get_str(&a, "k"), Some("new".to_string()));
    assert!(matches!(a.get("other"), Some(ConfigValue::Bool(true))));
    assert!(matches!(a.get("fresh"), Some(ConfigValue::Int(3))));
}

#[test]
fn from_value_rejects_wrong_shapes() {
    assert!(DdConfig::from_value(&ConfigValue::Null).is_none());
    let missing_user = obj(vec![("token", s("t"))]);
    assert!(DdConfig::from_value(&missing_user).is_none());
    let bad_token = obj(vec![("username", s("u")), ("token", ConfigValue::Int(3))]);
    assert!(DdConfig::from_value(&bad_token).is_none());
    let null_token = obj(vec![("username", s("u")), ("token", ConfigValue::Null)]);
    let c = DdConfig::from_value(&null_token).expect("null token reads as absent");
    assert_eq!(c.token, None);
}

#[test]
fn split_smtp_parses_and_rejects() {
    assert_eq!(
        split_smtp("imap.example.org:993"),
        Ok(("imap.example.org".to_string(), 993))
    );
    assert_eq!(split_smtp("hostonly"), Err(SmtpSplitError::BadFormat));
    assert_eq!(split_smtp("a:b:c"), Err(SmtpSplitError::BadFormat));
    assert_eq!(split_smtp("host:"), Err(SmtpSplitError::BadPort));
    assert_eq!(split_smtp("host:9x3"), Err(SmtpSplitError::BadPort));
    assert_eq!(split_smtp("host:70000"), Err(SmtpSplitError::BadPort));
    assert_eq!(split_smtp("host:0"), Ok(("host".to_string(), 0)));
    assert_eq!(split_smtp("host:65535"), Ok(("host".to_string(), 65535)));
}

#[test]
fn email_config_holds_fields() {
    let c = EmailConfig::new(
        "me@example.org".to_string(),
        "SECRET-REDACTED".to_string(),
        "imap.example.org:993".to_string(),
    );
    assert_eq!(c.email, "me@example.org");
    assert_eq!(c.smtp, "imap.example.org:993");
}

#[test]
fn plain_top_part_is_used_directly() {
    let top = MimePart {
        mimetype: "text/plain; charset=utf-8".to_string(),
        body: "direct body".to_string(),
    };
    let subparts = vec![MimePart {
        mimetype: "text/plain".to_string(),
        body: "ignored".to_string(),
    }];
    let e = Email::from_parts("a@b".to_string(), "subj".to_string(), &top, &subparts);
    assert_eq!(e.body, "direct body");
    assert_eq!(e.from, "a@b");
    assert_eq!(e.subject, "subj");
}

#[test]
fn multipart_body_concatenates_plain_parts_in_order() {
    let top = MimePart {
        mimetype: "multipart/alternative".to_string(),
        body: String::new(),
    };
    let subparts = vec![
        MimePart { mimetype: "text/plain".to_string(), body: "one ".to_string() },
        MimePart { mimetype: "text/html".to_string(), body: "<p>skip</p>".to_string() },
        MimePart { mimetype: "text/plain; charset=us-ascii".to_string(), body: "two".to_string() },
    ];
    let e = Email::from_parts("a@b".to_string(), "subj".to_string(), &top, &subparts);
    assert_eq!(e.body, "one two");
}
