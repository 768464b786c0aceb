use server_web::route::payment::stripe::webhook::auth::{
    authenticate, compute_signature, hex_encode, parse_stripe_signature_header, signatures_match,
};
use server_web::route::payment::stripe::webhook::data_structure::{
    Event, EventData, EventObject, EventType, ScheduleObject, SubscriptionObject,
    SubscriptionPhase, SubscriptionStatus,
};
use server_web::route::payment::stripe::webhook::main::{
    process_event, process_webhook, webhook_status, LIVEMODE_EXPECTED, NON_LIVEMODE_EXPECTED,
};
use server_web::route::payment::stripe::webhook::subscription_update::{
    apply_outcome, subscription_changed, SubscriptionChange, SubscriptionStore,
};
use server_web::route::EndpointProcessingError;

#[test]
fn signature_is_hex_hmac_sha256() {
    assert_eq!(
        compute_signature("The quick brown fox jumps over the lazy dog", b"key"),
        "f7bc83f430538424b13298e6aa6fb143ef4d59a14946175997479dbc2d1a3cd8"
    );
    assert_eq!(hex_encode(&[0x00, 0x0f, 0xa0, 0xff]), "000fa0ff");
}

#[test]
fn header_is_read_into_pairs() {
    let values = parse_stripe_signature_header(" t=12 , v1 = abc ").unwrap();
    assert_eq!(
        values,
        vec![("t".to_string(), "12".to_string()), ("v1".to_string(), "abc".to_string())]
    );
    let values = parse_stripe_signature_header("t=1,t=2").unwrap();
    assert_eq!(values, vec![("t".to_string(), "2".to_string())]);
    assert_eq!(parse_stripe_signature_header(""), Err(()));
    assert_eq!(parse_stripe_signature_header("t=1,v1"), Err(()));
    assert_eq!(parse_stripe_signature_header("t=1=2"), Err(()));
}

fn signed_header(t: &str, body: &str, secret: &[u8]) -> String {
    let sig = compute_signature(&format!("{}.{}", t, body), secret);
    format!("t={},v1={}", t, sig)
}

fn is_unparsable(r: &Result<(), EndpointProcessingError>) -> bool {
    matches!(r, Err(EndpointProcessingError::RequestUnparsable))
}

#[test]
fn signed_calls_are_accepted() {
    let body = "{\"livemode\":false}";
    let header = signed_header("1614556800", body, b"whsec_test");
    assert!(authenticate(Some(&header), body, b"whsec_test").is_ok());
}

#[test]
fn unsigned_calls_are_refused() {
    let body = "{\"livemode\":false}";
    let header = signed_header("1614556800", body, b"whsec_test");
    assert!(matches!(
        authenticate(Some(&header), "{\"livemode\":true}", b"whsec_test"),
        Err(EndpointProcessingError::Unauthorized)
    ));
    assert!(matches!(
        authenticate(Some(&header), body, b"other secret"),
        Err(EndpointProcessingError::Unauthorized)
    ));
    assert!(is_unparsable(&authenticate(None, body, b"whsec_test")));
    assert!(is_unparsable(&authenticate(Some("garbage"), body, b"whsec_test")));
    assert!(is_unparsable(&authenticate(Some("v1=abc"), body, b"whsec_test")));
    assert!(is_unparsable(&authenticate(Some("t=1"), body, b"whsec_test")));
}

fn subscription(status: SubscriptionStatus) -> EventObject {
    EventObject::Subscription(SubscriptionObject {
        id: "sub_1".to_string(),
        customer: "cus_1".to_string(),
        status,
        current_period_start: 100,
        current_period_end: 200,
    })
}

fn schedule(status: SubscriptionStatus, phase: Option<SubscriptionPhase>) -> EventObject {
    EventObject::Schedule(ScheduleObject {
        id: "sched_1".to_string(),
        current_phase: phase,
        customer: "cus_2".to_string(),
        status,
    })
}

fn is_record(c: &SubscriptionChange, who: &str, s: i64, e: i64) -> bool {
    match c {
        SubscriptionChange::Record { customer, start, end } => customer == who && *start == s && *end == e,
        _ => false,
    }
}

#[test]
fn subscription_events_map_to_changes() {
    assert!(is_record(&subscription_changed(&subscription(SubscriptionStatus::Active)), "cus_1", 100, 200));
    assert!(is_record(&subscription_changed(&subscription(SubscriptionStatus::Trialing)), "cus_1", 100, 200));
    assert!(matches!(
        subscription_changed(&subscription(SubscriptionStatus::Canceled)),
        SubscriptionChange::Remove { .. }
    ));
    assert!(matches!(
        subscription_changed(&subscription(SubscriptionStatus::NotStarted)),
        SubscriptionChange::RemoveIfPresent { .. }
    ));
    let phase = SubscriptionPhase { start_date: 10, end_date: 20 };
    assert!(is_record(&subscription_changed(&schedule(SubscriptionStatus::Active, Some(phase))), "cus_2", 10, 20));
    assert!(matches!(
        subscription_changed(&schedule(SubscriptionStatus::Active, None)),
        SubscriptionChange::Reject
    ));
    assert!(matches!(
        subscription_changed(&schedule(SubscriptionStatus::Trialing, None)),
        SubscriptionChange::Remove { .. }
    ));
    assert!(matches!(
        subscription_changed(&schedule(SubscriptionStatus::Released, Some(phase))),
        SubscriptionChange::Remove { .. }
    ));
}

#[test]
fn store_outcomes() {
    let rec = SubscriptionChange::Record { customer: "c".to_string(), start: 1, end: 2 };
    assert!(apply_outcome(&rec, Ok(())).is_ok());
    assert!(matches!(
        apply_outcome(&rec, Err("db down".to_string())),
        Err(EndpointProcessingError::Processing(m)) if m == "db down"
    ));
    let lenient = SubscriptionChange::RemoveIfPresent { customer: "c".to_string() };
    assert!(apply_outcome(&lenient, Err("no row".to_string())).is_ok());
    assert!(matches!(
        apply_outcome(&SubscriptionChange::Reject, Ok(())),
        Err(EndpointProcessingError::RequestNonsensical)
    ));
}

fn event(livemode: bool, event_type: Option<EventType>) -> Event {
    Event {
        event_type,
        data: EventData { object: subscription(SubscriptionStatus::Active) },
        livemode,
    }
}

#[test]
fn events_must_match_the_build() {
    let e = event(true, Some(EventType::CustomerSubscriptionUpdated));
    assert!(matches!(
        process_event(true, &e),
        Err(EndpointProcessingError::Processing(m)) if m == NON_LIVEMODE_EXPECTED
    ));
    let e = event(false, Some(EventType::CustomerSubscriptionUpdated));
    assert!(matches!(
        process_event(false, &e),
        Err(EndpointProcessingError::Processing(m)) if m == LIVEMODE_EXPECTED
    ));
    assert!(matches!(process_event(true, &e), Ok(Some(SubscriptionChange::Record { .. }))));
    let e = event(false, None);
    assert!(matches!(process_event(true, &e), Ok(None)));
}

#[test]
fn webhook_changes_nothing_without_authentication() {
    let e = event(false, Some(EventType::CustomerSubscriptionCreated));
    let body = "body";
    assert!(matches!(
        process_webhook(Some("t=1,v1=00"), body, b"s", true, &e),
        Err(EndpointProcessingError::Unauthorized)
    ));
    let header = signed_header("5", body, b"s");
    assert!(matches!(
        process_webhook(Some(&header), body, b"s", true, &e),
        Ok(Some(SubscriptionChange::Record { .. }))
    ));
}

#[test]
fn webhook_answers_by_outcome() {
    assert_eq!(webhook_status(&Ok(())), 200);
    assert_eq!(webhook_status(&Err(EndpointProcessingError::Unauthorized)), 401);
    assert_eq!(webhook_status(&Err(EndpointProcessingError::RequestUnparsable)), 400);
    assert_eq!(webhook_status(&Err(EndpointProcessingError::RequestNonsensical)), 400);
    assert_eq!(
        webhook_status(&Err(EndpointProcessingError::Processing("db down".to_string()))),
        500
    );
}

#[test]
fn signatures_compare_whole() {
    let sig = compute_signature("1.{}", b"whsec");
    assert_eq!(sig.len(), 64);
    assert!(sig.chars().all(|c| c.is_ascii_digit() || ('a'..='f').contains(&c)));
    assert!(signatures_match(&sig, &sig.clone()));
    assert!(!signatures_match("abc", "abd"));
    assert!(!signatures_match("abc", "ab"));
    assert!(signatures_match("", ""));
}

#[test]
fn header_refused_iff_a_segment_is_not_one_pair() {
    for bad in ["", "t=1,", "t=1,v1", "t=1=2"] {
        assert_eq!(parse_stripe_signature_header(bad), Err(()));
    }
    let values = parse_stripe_signature_header("v1=a, t=5 ,v1=b").unwrap();
    assert_eq!(
        values,
        vec![("v1".to_string(), "b".to_string()), ("t".to_string(), "5".to_string())]
    );
}

#[test]
fn store_carries_out_changes() {
    let mut store = SubscriptionStore::new();
    let rec = SubscriptionChange::Record { customer: "cus_a".to_string(), start: 10, end: 20 };
    assert_eq!(store.carry_out(&rec), Ok(()));
    let other = SubscriptionChange::Record { customer: "cus_b".to_string(), start: 1, end: 2 };
    assert_eq!(store.carry_out(&other), Ok(()));
    assert_eq!(store.get("cus_a"), Some((10, 20)));
    let again = SubscriptionChange::Record { customer: "cus_a".to_string(), start: 30, end: 40 };
    assert_eq!(store.carry_out(&again), Ok(()));
    assert_eq!(store.get("cus_a"), Some((30, 40)));
    let rm = SubscriptionChange::Remove { customer: "cus_a".to_string() };
    assert_eq!(store.carry_out(&rm), Ok(()));
    assert_eq!(store.get("cus_a"), None);
    assert_eq!(store.get("cus_b"), Some((1, 2)));
    let stored = store.carry_out(&rm);
    assert_eq!(stored, Err("no subscription for cus_a".to_string()));
    assert!(matches!(apply_outcome(&rm, stored.clone()), Err(EndpointProcessingError::Processing(m)) if m == "no subscription for cus_a"));
    let soft = SubscriptionChange::RemoveIfPresent { customer: "cus_a".to_string() };
    let stored = store.carry_out(&soft);
    assert!(stored.is_err());
    assert!(apply_outcome(&soft, stored).is_ok());
    assert_eq!(store.carry_out(&SubscriptionChange::Reject), Ok(()));
    assert_eq!(store.get("cus_b"), Some((1, 2)));
}
