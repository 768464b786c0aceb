use server_web::route::api::blank_correction;
use server_web::route::payment::index::price_for_tier;
use server_web::route::payment::stripe::checkout::{cancel_url, success_url};
use server_web::route::payment::stripe::deserialize_stripe_res::StripeAPIError;
use server_web::route::payment::stripe::status::{find_current_subscription, SubscriptionStatus};
use server_web::route::user::signin::{admin_signin, password_matches, signin, StoredCredentials};
use server_web::route::user::signup::index::{
    get_signup_key, signup_reply, signup_status, signup_validate_form, SignupReply, Tier,
    UserCreationError,
};
use server_web::route::payment::stripe::customer::{deletion_outcome, DeletionOutcome, DeletionReply};
use server_web::route::{url, url_on, EndpointProcessingError, RootPath, BASE_URL};
use server_web::util::{FormData, FormField};

#[test]
fn urls() {
    assert_eq!(url("/payment/success/"), "https://orto.ai/payment/success");
    assert_eq!(url("editor"), "https://orto.ai/editor");
    assert_eq!(url("//"), "https://orto.ai/");
    assert_eq!(url_on("http://local.host:8000", "/a/b/"), "http://local.host:8000/a/b");
    assert_eq!(BASE_URL, "https://orto.ai");
    assert_eq!(success_url(BASE_URL), "https://orto.ai/payment/success");
    assert_eq!(cancel_url(BASE_URL), "https://orto.ai/payment/cancel");
    let root = RootPath::new("./public".to_string());
    assert_eq!(root.to_text(), "./public");
    assert_eq!(root.into_string(), "./public");
}

#[test]
fn endpoint_error_messages() {
    assert_eq!(EndpointProcessingError::Unauthorized.message(), "User was not authorized");
    assert_eq!(
        EndpointProcessingError::RequestUnparsable.message(),
        "Request did not match expected structure"
    );
    assert_eq!(EndpointProcessingError::RequestNonsensical.message(), "Did not expect request");
    assert_eq!(
        EndpointProcessingError::Processing("boom".to_string()).message(),
        "Encountered error during processing: boom"
    );
}

#[test]
fn tier_prices() {
    assert_eq!(price_for_tier("student"), Some("price_1IC9WtLKbmf1O8QW4FgBWQS6".to_string()));
    assert_eq!(price_for_tier("business"), Some("price_1IC9WtLKbmf1O8QW4FgBWQS6".to_string()));
    assert_eq!(price_for_tier("gold"), None);
    assert_eq!(Tier::variants(), vec!["student", "private", "business"]);
}

#[test]
fn stripe_error_text() {
    let e = StripeAPIError {
        error_type: "invalid_request_error".to_string(),
        code: "resource_missing".to_string(),
        decline_code: None,
        message: "No such customer".to_string(),
        param: "id".to_string(),
    };
    assert_eq!(
        e.describe(),
        "Got code resource_missing for error type invalid_request_error with message: No such customer"
    );
}

#[test]
fn current_subscription_is_found() {
    let data = vec![
        SubscriptionStatus { current_period_start: 50, current_period_end: 90, start_date: 10 },
        SubscriptionStatus { current_period_start: 90, current_period_end: 200, start_date: 10 },
        SubscriptionStatus { current_period_start: 95, current_period_end: 300, start_date: 10 },
    ];
    let found = find_current_subscription(&data, 100).unwrap();
    assert_eq!(found.current_period_end, 200);
    assert!(find_current_subscription(&data, 400).is_none());
    assert!(find_current_subscription(&data, 90).is_some());
    assert!(find_current_subscription(&vec![], 1).is_none());
}

#[test]
fn signing_in() {
    let hash = bcrypt::hash("hunter22", 4).unwrap();
    assert_eq!(password_matches("hunter22", &hash), Some(true));
    assert_eq!(password_matches("hunter23", &hash), Some(false));
    assert_eq!(password_matches("hunter22", "not a hash"), None);
    let verified = StoredCredentials { id: 7, password: hash.clone(), verified: true };
    let unverified = StoredCredentials { id: 8, password: hash.clone(), verified: false };
    assert!(matches!(signin(Some(&verified), "hunter22"), Ok(7)));
    assert!(matches!(signin(Some(&verified), "wrong"), Err(EndpointProcessingError::Unauthorized)));
    assert!(matches!(signin(Some(&unverified), "hunter22"), Err(EndpointProcessingError::Unauthorized)));
    assert!(matches!(signin(None, "hunter22"), Err(EndpointProcessingError::Unauthorized)));
    assert!(matches!(admin_signin(Some(&unverified), "hunter22"), Ok(8)));
    let broken = StoredCredentials { id: 9, password: "x".to_string(), verified: true };
    assert!(matches!(signin(Some(&broken), "hunter22"), Err(EndpointProcessingError::Processing(_))));
}

fn text(s: &str) -> FormField {
    FormField::String(s.to_string())
}

fn full_form(tier: &str) -> FormData {
    let mut form = FormData::new();
    for (k, v) in [
        ("email", "ada@example.com"),
        ("password", "correcthorse"),
        ("tier", tier),
        ("fullname", "Ada"),
        ("address", "Street 1"),
        ("city", "Aarhus"),
        ("zip", "8000"),
        ("country", "DK"),
        ("terms", "on"),
    ] {
        form.insert(k.to_string(), text(v));
    }
    form
}

#[test]
fn signup_form_validation() {
    assert!(signup_validate_form(&full_form("private")).is_empty());
    let report = signup_validate_form(&full_form("student"));
    assert_eq!(report, vec![("studentid".to_string(), vec!["Field is required".to_string()])]);
    let report = signup_validate_form(&full_form("business"));
    assert_eq!(report, vec![("cvr".to_string(), vec!["Field is required".to_string()])]);
    let report = signup_validate_form(&full_form("gold"));
    assert_eq!(
        report,
        vec![(
            "tier".to_string(),
            vec!["Expected a selection from: student, private, business".to_string()]
        )]
    );
    let mut form = full_form("student");
    form.insert("studentid".to_string(), FormField::Binary(vec![0u8; 6 * 1024 * 1024]));
    form.insert("password".to_string(), text("short"));
    let report = signup_validate_form(&form);
    assert_eq!(
        report,
        vec![
            ("password".to_string(), vec!["Input too short, expected at least 8 characters".to_string()]),
            ("studentid".to_string(), vec!["File too large, expected at most 5MiB".to_string()]),
        ]
    );
    let report = signup_validate_form(&FormData::new());
    assert_eq!(report.len(), 9);
}

#[test]
fn signup_cookie() {
    let cookies = vec![
        ("session".to_string(), "a".to_string()),
        ("signup_session_key".to_string(), "key123".to_string()),
    ];
    assert_eq!(get_signup_key(&cookies), Some("a".to_string()));
    assert_eq!(get_signup_key(&vec![]), None);
    let only_signup = vec![("signup_session_key".to_string(), "key123".to_string())];
    assert_eq!(get_signup_key(&only_signup), None);
}

#[test]
fn user_creation_error_text() {
    assert_eq!(UserCreationError::UserAlreadyExists.describe(), "User already exists");
    assert_eq!(UserCreationError::InternalError("x".to_string()).describe(), "Internal Error: x");
    assert_eq!(
        UserCreationError::from_endpoint(EndpointProcessingError::Unauthorized).describe(),
        "User was not authorized"
    );
    let report = vec![("email".to_string(), vec!["Field is required".to_string(), "Email is not valid".to_string()])];
    assert_eq!(
        UserCreationError::FormError(report).describe(),
        "Form error: {\"email\": [\"Field is required\", \"Email is not valid\"]}"
    );
}

#[test]
fn blank_corrections() {
    assert_eq!(blank_correction("  \n"), Some("[]".to_string()));
    assert_eq!(blank_correction("Hej"), None);
}

#[test]
fn form_errors_are_escaped_like_debug() {
    let name = "a\"b\\c\nd\u{1b}\u{85}é'".to_string();
    let report = vec![(name.clone(), vec!["tab\there\0".to_string()])];
    let expected = format!("Form error: {{{:?}: [{:?}]}}", name, "tab\there\0");
    assert_eq!(UserCreationError::FormError(report).describe(), expected);
    assert_eq!(expected, "Form error: {\"a\\\"b\\\\c\\nd\\u{1b}\\u{85}é'\": [\"tab\\there\\0\"]}");
}

#[test]
fn signup_replies() {
    assert!(matches!(signup_reply(Ok("K".to_string())), SignupReply::Continue { key } if key == "K"));
    let fresh = signup_reply(Err(UserCreationError::UserAlreadyExists));
    assert!(matches!(fresh, SignupReply::ContinueWithFreshKey));
    assert_eq!(signup_status(&fresh), 200);
    let form = signup_reply(Err(UserCreationError::FormError(vec![("email".to_string(), vec!["x".to_string()])])));
    assert!(matches!(&form, SignupReply::FormErrors(e) if e.len() == 1 && e[0].0 == "email"));
    assert_eq!(signup_status(&form), 400);
    let failed = signup_reply(Err(UserCreationError::InternalError("db".to_string())));
    assert!(matches!(failed, SignupReply::Failed));
    assert_eq!(signup_status(&failed), 500);
    assert_eq!(signup_status(&SignupReply::Continue { key: "K".to_string() }), 200);
}

fn stripe_error(code: &str) -> StripeAPIError {
    StripeAPIError {
        error_type: "invalid_request_error".to_string(),
        code: code.to_string(),
        decline_code: None,
        message: "m".to_string(),
        param: "id".to_string(),
    }
}

#[test]
fn customer_deletion_outcomes() {
    assert_eq!(deletion_outcome(&DeletionReply::Succeeded { deleted: true }), DeletionOutcome::Deleted);
    assert_eq!(deletion_outcome(&DeletionReply::Succeeded { deleted: false }), DeletionOutcome::NotDeleted);
    let missing = deletion_outcome(&DeletionReply::Failed { error: stripe_error("resource_missing") });
    assert_eq!(missing, DeletionOutcome::NothingToDelete);
    assert!(missing.is_ok());
    let refused = deletion_outcome(&DeletionReply::Failed { error: stripe_error("api_key_expired") });
    assert_eq!(refused, DeletionOutcome::Refused);
    assert!(!refused.is_ok());
}

#[test]
fn signup_report_shape() {
    let mut form = FormData::new();
    form.insert("tier".to_string(), FormField::String("student".to_string()));
    form.insert("password".to_string(), FormField::String("abc".to_string()));
    form.insert("unrelated".to_string(), FormField::String("x".to_string()));
    let report = signup_validate_form(&form);
    let allowed = [
        "email", "password", "tier", "fullname", "address", "city", "zip", "country", "terms", "studentid",
    ];
    assert!(report.iter().all(|(k, _)| allowed.contains(&k.as_str())));
    let get = |n: &str| report.iter().find(|(k, _)| k == n).map(|(_, v)| v.clone());
    assert_eq!(get("password"), Some(vec!["Input too short, expected at least 8 characters".to_string()]));
    assert_eq!(get("studentid"), Some(vec!["Field is required".to_string()]));
    assert_eq!(get("email"), Some(vec!["Field is required".to_string()]));
    assert_eq!(get("tier"), None);
    assert_eq!(get("cvr"), None);
    let mut biz = FormData::new();
    biz.insert("tier".to_string(), FormField::String("business".to_string()));
    let report = signup_validate_form(&biz);
    assert!(report.iter().any(|(k, v)| k == "cvr" && v == &vec!["Field is required".to_string()]));
    assert!(report.iter().all(|(k, _)| k != "studentid"));
}
