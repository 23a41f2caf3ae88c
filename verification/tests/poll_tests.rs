use mail_sitter::email::Email;
use mail_sitter::poll::{PollAction, PollEvent, PollQuery, PollState, poll_step};

fn mail(body: &str) -> Email {
    Email {
        from: "support@duck.com".to_string(),
        subject: "login".to_string(),
        body: body.to_string(),
    }
}

#[test]
fn zero_deadline_still_costs_one_attempt() {
    // With deadline 0 and interval 0, the first (empty) attempt is made
    // and only then does the loop give up.
    let q = PollQuery::new("UNSEEN".to_string(), 0, 0);
    let mut st = PollState::new();
    let act = poll_step(&q, &mut st, PollEvent::Messages(vec![]), 0);
    match act {
        PollAction::GiveUp(f) => assert!(f.last_error.is_none()),
        _ => panic!("expected a timeout after the first empty attempt"),
    }
}

#[test]
fn delivers_immediately_on_nonempty_result() {
    // A non-empty search result is delivered at once, long before the
    // deadline would elapse.
    let q = PollQuery::new("UNSEEN".to_string(), 30_000, 500);
    let mut st = PollState::new();
    let act = poll_step(&q, &mut st, PollEvent::Messages(vec![mail("hi")]), 3);
    match act {
        PollAction::Deliver(v) => {
            assert_eq!(v.len(), 1);
            assert_eq!(v[0].body, "hi");
        },
        _ => panic!("expected immediate delivery"),
    }
}

#[test]
fn transient_error_is_retried_then_reported() {
    // A failing search is retryable while the deadline lasts; when the
    // deadline passes, the timeout carries the last error seen.
    let q = PollQuery::new("UNSEEN".to_string(), 10, 1);
    let mut st = PollState::new();
    let act = poll_step(&q, &mut st, PollEvent::Failed("connection reset".to_string()), 1);
    assert!(matches!(act, PollAction::Sleep));
    let act = poll_step(&q, &mut st, PollEvent::Messages(vec![]), 10);
    match act {
        PollAction::GiveUp(f) => {
            assert_eq!(f.last_error, Some("connection reset".to_string()));
        },
        _ => panic!("expected a timeout carrying the last error"),
    }
}

#[test]
fn empty_result_before_deadline_sleeps() {
    let q = PollQuery::new("UNSEEN".to_string(), 30_000, 500);
    let mut st = PollState::new();
    let act = poll_step(&q, &mut st, PollEvent::Messages(vec![]), 2_000);
    assert!(matches!(act, PollAction::Sleep));
}

#[test]
fn delivery_wins_even_past_deadline() {
    // A non-empty result observed on the attempt that also exceeds the
    // deadline is still delivered, never turned into a timeout.
    let q = PollQuery::new("UNSEEN".to_string(), 5, 1);
    let mut st = PollState::new();
    let act = poll_step(&q, &mut st, PollEvent::Messages(vec![mail("late")]), 99);
    assert!(matches!(act, PollAction::Deliver(_)));
}
