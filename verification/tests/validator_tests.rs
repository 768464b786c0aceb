use server_web::validator::v::{
    email, file_size, irange, length, one_of, required, urange, url, BinaryUnit, GiB, KiB, MiB,
    TiB, B, EMAIL_REGEX,
};
use server_web::validator::{Validator, ValidatorFn};

fn bytes(s: &str) -> Vec<u8> {
    s.as_bytes().to_vec()
}

#[test]
fn required_rejects_absent_and_blank() {
    assert_eq!(required(None), Some("Field is required".to_string()));
    assert_eq!(required(Some(&bytes("   \t\n"))), Some("Field is required".to_string()));
    assert_eq!(required(Some(&bytes("\u{3000}\u{a0}"))), Some("Field is required".to_string()));
    assert_eq!(required(Some(&bytes(""))), Some("Field is required".to_string()));
    assert_eq!(required(Some(&bytes("  x "))), None);
    // bytes that are not UTF-8 are not blank
    assert_eq!(required(Some(&vec![0xff, 0xfe])), None);
}

#[test]
fn email_checks_address() {
    assert!(!EMAIL_REGEX.is_empty());
    assert_eq!(email(None), None);
    assert_eq!(email(Some(&bytes("someone@example.com"))), None);
    assert_eq!(email(Some(&bytes("not an address"))), Some("Email is not valid".to_string()));
    assert_eq!(email(Some(&vec![0xff, b'@', b'a'])), Some("Email is not valid utf-8".to_string()));
}

#[test]
fn url_checks_address() {
    assert_eq!(url(None), None);
    assert_eq!(url(Some(&bytes("https://orto.ai/editor"))), None);
    assert_eq!(
        url(Some(&bytes("no scheme here"))),
        Some("relative URL without a base".to_string())
    );
    assert_eq!(url(Some(&vec![0xc3])), Some("URL is not valid utf-8".to_string()));
}

#[test]
fn one_of_lists_choices() {
    let variants = vec!["student".to_string(), "private".to_string(), "business".to_string()];
    assert_eq!(one_of(None, &variants), None);
    assert_eq!(one_of(Some(&bytes("private")), &variants), None);
    assert_eq!(
        one_of(Some(&bytes("free")), &variants),
        Some("Expected a selection from: student, private, business".to_string())
    );
    assert_eq!(
        one_of(Some(&vec![0xff]), &variants),
        Some("Selection is not valid utf-8".to_string())
    );
}

#[test]
fn length_bounds() {
    assert_eq!(length(None, 8, 0), None);
    assert_eq!(
        length(Some(&bytes("short")), 8, 0),
        Some("Input too short, expected at least 8 characters".to_string())
    );
    assert_eq!(length(Some(&bytes("long enough")), 8, 0), None);
    assert_eq!(
        length(Some(&bytes("toolong")), 0, 5),
        Some("Input too long, expected at most 5 characters".to_string())
    );
    assert_eq!(
        length(Some(&bytes("ab")), 3, 5),
        Some("Input too short, expected between 3 and 5 characters".to_string())
    );
    assert_eq!(
        length(Some(&bytes("abcdef")), 3, 5),
        Some("Input too long, expected between 3 and 5 characters".to_string())
    );
    assert_eq!(length(Some(&bytes("abcd")), 3, 5), None);
    assert_eq!(length(Some(&bytes("anything at all")), 0, 0), None);
}

#[test]
fn binary_prefixes() {
    assert_eq!(0usize.get_binary_prefix(), (0, "B"));
    assert_eq!(1024usize.get_binary_prefix(), (1024, "B"));
    assert_eq!(1025usize.get_binary_prefix(), (1, "KiB"));
    assert_eq!(MiB(5).get_binary_prefix(), (5, "MiB"));
    assert_eq!(TiB(3000).get_binary_prefix(), (3000, "TiB"));
    assert_eq!(B(7), 7);
    assert_eq!(KiB(2), 2048);
    assert_eq!(MiB(1), 1048576);
    assert_eq!(GiB(1), 1073741824);
    assert_eq!(3usize.KiB(), 3072);
    assert_eq!(3usize.B(), 3);
}

#[test]
fn file_size_bounds() {
    let file = vec![0u8; 2048];
    assert_eq!(file_size(None, 0, MiB(5)), None);
    assert_eq!(file_size(Some(&file), 0, MiB(5)), None);
    assert_eq!(
        file_size(Some(&file), 0, 1025),
        Some("File too large, expected at most 1KiB".to_string())
    );
    assert_eq!(
        file_size(Some(&file), 4096, 0),
        Some("File too small, expected at least 4KiB".to_string())
    );
    assert_eq!(
        file_size(Some(&file), 100, 1000),
        Some("File too large, expected between 100B and 1000B".to_string())
    );
    assert_eq!(
        file_size(Some(&file), 4096, MiB(5)),
        Some("File too small, expected between 4KiB and 5MiB".to_string())
    );
}

#[test]
fn integer_ranges() {
    assert_eq!(irange(None, -5, 5), None);
    assert_eq!(irange(Some(&bytes("-3")), -5, 5), None);
    assert_eq!(irange(Some(&bytes("+5")), -5, 5), None);
    assert_eq!(
        irange(Some(&bytes("-6")), -5, 5),
        Some("Value too small, expected between -5 and 5".to_string())
    );
    assert_eq!(
        irange(Some(&bytes("17")), -5, 5),
        Some("Value too large, expected between -5 and 5".to_string())
    );
    assert_eq!(irange(Some(&bytes("1x")), -5, 5), Some("Expected an integer".to_string()));
    assert_eq!(irange(Some(&bytes("-")), -5, 5), Some("Expected an integer".to_string()));
    assert_eq!(irange(Some(&bytes("")), -5, 5), Some("Expected an integer".to_string()));
    assert_eq!(
        irange(Some(&bytes("99999999999999999999999")), -5, 5),
        Some("Expected an integer".to_string())
    );
    let min = isize::MIN.to_string();
    assert_eq!(irange(Some(&bytes(&min)), isize::MIN, 0), None);
    assert_eq!(urange(Some(&bytes("7")), 1, 10), None);
    assert_eq!(urange(Some(&bytes("-0")), 0, 10), Some("Expected an integer".to_string()));
    assert_eq!(urange(Some(&bytes("+0")), 0, 10), None);
    assert_eq!(
        urange(Some(&bytes("0")), 1, 10),
        Some("Value too small, expected between 1 and 10".to_string())
    );
    assert_eq!(
        urange(Some(&bytes("11")), 1, 10),
        Some("Value too large, expected between 1 and 10".to_string())
    );
    let max = usize::MAX.to_string();
    assert_eq!(urange(Some(&bytes(&max)), 0, usize::MAX), None);
}

#[test]
fn validator_reports_failing_fields_in_order() {
    let mut validator = Validator::new();
    validator
        .field("email", &[ValidatorFn::Required, ValidatorFn::Email])
        .field("password", &[ValidatorFn::Required, ValidatorFn::Length(8, 0)])
        .field("age", &[ValidatorFn::URange(18, 130)]);
    let fields = vec![
        ("email".to_string(), bytes("nope")),
        ("password".to_string(), bytes("longenough")),
    ];
    let report = validator.check(&fields);
    assert_eq!(
        report,
        vec![("email".to_string(), vec!["Email is not valid".to_string()])]
    );
    let empty: Vec<(String, Vec<u8>)> = vec![];
    let report = validator.check(&empty);
    assert_eq!(
        report,
        vec![
            ("email".to_string(), vec!["Field is required".to_string()]),
            ("password".to_string(), vec!["Field is required".to_string()]),
        ]
    );
}

#[test]
fn validator_field_replaces_earlier_checks() {
    let mut validator = Validator::new();
    validator.field("name", &[ValidatorFn::Required]);
    validator.field("name", &[ValidatorFn::Length(0, 2)]);
    let fields = vec![("name".to_string(), bytes("abc"))];
    assert_eq!(
        validator.check(&fields),
        vec![(
            "name".to_string(),
            vec!["Input too long, expected at most 2 characters".to_string()]
        )]
    );
    let none: Vec<(String, Vec<u8>)> = vec![];
    assert!(validator.check(&none).is_empty());
}

#[test]
fn validator_all_pass_gives_empty_report() {
    let mut validator = Validator::new();
    validator.field("a", &[ValidatorFn::Required]);
    validator.field("b", &[ValidatorFn::IRange(0, 9)]);
    let fields = vec![("a".to_string(), bytes("x")), ("b".to_string(), bytes("3"))];
    assert!(validator.check(&fields).is_empty());
}

#[test]
fn validator_reports_per_name() {
    let fields = vec![("a".to_string(), bytes("")), ("z".to_string(), bytes(""))];
    let mut validator = Validator::new();
    assert!(validator.check(&fields).is_empty());
    validator.field("a", &[ValidatorFn::Required, ValidatorFn::Length(3, 0)]);
    validator.field("b", &[ValidatorFn::Required]);
    let before = validator.check(&fields);
    let b_before = before.iter().find(|(n, _)| n == "b").cloned();
    // re-registering `a` changes only what is said of `a`
    validator.field("a", &[ValidatorFn::Length(0, 5)]);
    let after = validator.check(&fields);
    assert!(after.iter().all(|(n, _)| n != "a"));
    assert_eq!(after.iter().find(|(n, _)| n == "b").cloned(), b_before);
    // `z` was never registered and is never reported
    assert!(after.iter().all(|(n, _)| n != "z"));
}
