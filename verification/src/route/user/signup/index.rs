//! Signing up for a paid account: validating the signup form.
use vstd::prelude::*;

use crate::entries::{entries_view, entry_named, get_entry};
use crate::route::{endpoint_error_text, EndpointProcessingError, Failure};
use crate::text::{decimal, debug_escaped, owned, push_debug_escaped, str_eq, views};
use crate::util::{form_bytes, FieldValue, FormData};
use crate::validator::v::{blank_bytes, join, join_strings, size_text, MiB};
use crate::validator::{
    check_outcome, distinct_names, failures, lemma_entry_named_absent, lemma_entry_named_at, lemma_failures_first,
    lemma_report_per_name, lemma_with_field_new, lookup, reported_for, checks_view, report, result_view, values_view, with_field, Check, Validator, ValidatorFn,
    ValidatorResult,
};

verus! {

/// A submitted signup form.
pub struct UserCreationRequest {
    pub email: String,
    pub password: String,
    pub tier: String,
    pub fullname: String,
    pub cvr: Option<String>,
    pub studentid: Option<Vec<u8>>,
    pub address: String,
    pub city: String,
    pub zip: String,
    pub country: String,
    pub terms: Option<String>,
}

/// Why a signup failed.
pub enum UserCreationError {
    EndpointError(EndpointProcessingError),
    FormError(ValidatorResult),
    InternalError(String),
    UserAlreadyExists,
}

pub type UserCreationResult<T> = Result<T, UserCreationError>;

/// `"s"`, escaped as `{:?}` writes a string.
pub open spec fn quoted(s: Seq<char>) -> Seq<char> {
    "\""@ + debug_escaped(s) + "\""@
}

/// A failing field as `"name": ["message", ...]`.
pub open spec fn field_errors_text(name: Seq<char>, messages: Seq<Seq<char>>) -> Seq<char> {
    quoted(name) + ": ["@ + join(quoted_all(messages), ", "@) + "]"@
}

pub open spec fn quoted_all(messages: Seq<Seq<char>>) -> Seq<Seq<char>>
    decreases messages.len(),
{
    if messages.len() == 0 {
        Seq::empty()
    } else {
        quoted_all(messages.drop_last()).push(quoted(messages.last()))
    }
}

pub open spec fn fields_errors_parts(r: Seq<(Seq<char>, Seq<Seq<char>>)>) -> Seq<Seq<char>>
    decreases r.len(),
{
    if r.len() == 0 {
        Seq::empty()
    } else {
        fields_errors_parts(r.drop_last()).push(field_errors_text(r.last().0, r.last().1))
    }
}

/// The failing fields as `{"name": [...], ...}`.
pub open spec fn form_errors_text(r: Seq<(Seq<char>, Seq<Seq<char>>)>) -> Seq<char> {
    "{"@ + join(fields_errors_parts(r), ", "@) + "}"@
}

pub open spec fn user_creation_error_text(e: UserCreationError) -> Seq<char> {
    match e {
        UserCreationError::EndpointError(x) => endpoint_error_text(x@),
        UserCreationError::FormError(r) => "Form error: "@ + form_errors_text(result_view(r@)),
        UserCreationError::InternalError(m) => "Internal Error: "@ + m@,
        UserCreationError::UserAlreadyExists => "User already exists"@,
    }
}

fn quote(s: &str) -> (r: String)
    ensures
        r@ == quoted(s@),
{
    let mut out = owned("\"");
    push_debug_escaped(&mut out, s);
    out.append("\"");
    out
}

fn field_errors(name: &str, messages: &Vec<String>) -> (r: String)
    ensures
        r@ == field_errors_text(name@, views(messages@)),
{
    let mut quoted_messages: Vec<String> = Vec::new();
    let n = messages.len();
    let mut i: usize = 0;
    while i < n
        invariant
            i <= n == messages.len(),
            quoted_messages@.len() == i,
            views(quoted_messages@) == quoted_all(views(messages@).take(i as int)),
        decreases n - i,
    {
        let ghost prev = views(quoted_messages@);
        quoted_messages.push(quote(messages[i].as_str()));
        assert forall|k: int| 0 <= k < i implies views(quoted_messages@)[k] == prev[k] by {}
        assert(views(messages@)[i as int] == messages@[i as int]@);
        assert(views(messages@).take(i + 1).drop_last() =~= views(messages@).take(i as int));
        assert(views(quoted_messages@) =~= quoted_all(views(messages@).take(i + 1)));
        i += 1;
    }
    assert(views(messages@).take(n as int) =~= views(messages@));
    let mut out = quote(name);
    out.append(": [");
    let list = join_strings(&quoted_messages, ", ");
    out.append(list.as_str());
    out.append("]");
    out
}

impl UserCreationError {
    /// The error's description (its `Display`); form errors are listed by field.
    pub fn describe(&self) -> (r: String)
        ensures
            r@ == user_creation_error_text(*self),
    {
        match self {
            UserCreationError::EndpointError(e) => e.message(),
            UserCreationError::FormError(r) => {
                let mut parts: Vec<String> = Vec::new();
                let n = r.len();
                let mut i: usize = 0;
                while i < n
                    invariant
                        i <= n == r.len(),
                        parts@.len() == i,
                        views(parts@) == fields_errors_parts(result_view(r@).take(i as int)),
                    decreases n - i,
                {
                    let ghost prev = views(parts@);
                    parts.push(field_errors(r[i].0.as_str(), &r[i].1));
                    assert forall|k: int| 0 <= k < i implies views(parts@)[k] == prev[k] by {}
                    assert(result_view(r@)[i as int] == (r@[i as int].0@, views(r@[i as int].1@)));
                    assert(result_view(r@).take(i + 1).drop_last() =~= result_view(r@).take(i as int));
                    assert(views(parts@) =~= fields_errors_parts(result_view(r@).take(i + 1)));
                    i += 1;
                }
                assert(result_view(r@).take(n as int) =~= result_view(r@));
                let mut out = owned("Form error: {");
                let list = join_strings(&parts, ", ");
                out.append(list.as_str());
                out.append("}");
                proof {
                    reveal_strlit("Form error: {");
                    reveal_strlit("Form error: ");
                    reveal_strlit("{");
                }
                assert(out@ =~= user_creation_error_text(*self));
                out
            },
            UserCreationError::InternalError(m) => {
                let mut out = owned("Internal Error: ");
                out.append(m.as_str());
                out
            },
            UserCreationError::UserAlreadyExists => owned("User already exists"),
        }
    }

    /// A processing failure of the endpoint.
    pub fn from_endpoint(e: EndpointProcessingError) -> (r: UserCreationError)
        ensures
            r matches UserCreationError::EndpointError(x) && x@ == e@,
    {
        UserCreationError::EndpointError(e)
    }
}

/// The subscription tiers a customer can sign up for.
#[allow(non_camel_case_types)]
pub enum Tier {
    student,
    private,
    business,
}

pub open spec fn tier_names() -> Seq<Seq<char>> {
    seq!["student"@, "private"@, "business"@]
}

impl Tier {
    /// The names of the tiers, in order.
    pub fn variants() -> (r: Vec<String>)
        ensures
            views(r@) == tier_names(),
    {
        let mut v: Vec<String> = Vec::new();
        v.push(owned("student"));
        v.push(owned("private"));
        v.push(owned("business"));
        assert(views(v@) =~= tier_names());
        v
    }
}

/// The checks of the signup form; which extra field is needed depends on the tier.
pub open spec fn signup_checks(tier: Option<FieldValue>) -> Seq<(Seq<char>, Seq<Check>)> {
    let base = with_field(
        with_field(
            with_field(
                with_field(
                    with_field(
                        with_field(
                            with_field(
                                with_field(
                                    with_field(
                                        Seq::empty(),
                                        "email"@,
                                        seq![Check::Required, Check::Email],
                                    ),
                                    "password"@,
                                    seq![Check::Required, Check::Length(8, 0)],
                                ),
                                "tier"@,
                                seq![Check::Required, Check::OneOf(tier_names())],
                            ),
                            "fullname"@,
                            seq![Check::Required],
                        ),
                        "address"@,
                        seq![Check::Required],
                    ),
                    "city"@,
                    seq![Check::Required],
                ),
                "zip"@,
                seq![Check::Required],
            ),
            "country"@,
            seq![Check::Required],
        ),
        "terms"@,
        seq![Check::Required],
    );
    match tier {
        Some(FieldValue::Text(t)) => if t == "student"@ {
            with_field(base, "studentid"@, seq![Check::Required, Check::FileSize(0, 5 * 1024 * 1024)])
        } else if t == "business"@ {
            with_field(base, "cvr"@, seq![Check::Required])
        } else {
            base
        },
        _ => base,
    }
}

fn register(validator: &mut Validator, name: &str, checks: Vec<ValidatorFn>)
    ensures
        final(validator)@ == with_field(old(validator)@, name@, checks_view(checks@)),
{
    let _ = validator.field(name, checks.as_slice());
}

/// Validates the signup form: the reports of the failing fields.
pub fn signup_validate_form(req: &FormData) -> (r: ValidatorResult)
    ensures
        result_view(r@) == report(signup_checks(entry_named(req@, "tier"@)), form_bytes(req@)),
{
    let mut validator = Validator::new();
    let c = vec![ValidatorFn::Required, ValidatorFn::Email];
    assert(checks_view(c@) =~= seq![Check::Required, Check::Email]);
    register(&mut validator, "email", c);
    let c = vec![ValidatorFn::Required, ValidatorFn::Length(8, 0)];
    assert(checks_view(c@) =~= seq![Check::Required, Check::Length(8, 0)]);
    register(&mut validator, "password", c);
    let c = vec![ValidatorFn::Required, ValidatorFn::OneOf(Tier::variants())];
    assert(checks_view(c@) =~= seq![Check::Required, Check::OneOf(tier_names())]);
    register(&mut validator, "tier", c);
    let c = vec![ValidatorFn::Required];
    assert(checks_view(c@) =~= seq![Check::Required]);
    register(&mut validator, "fullname", c);
    let c = vec![ValidatorFn::Required];
    assert(checks_view(c@) =~= seq![Check::Required]);
    register(&mut validator, "address", c);
    let c = vec![ValidatorFn::Required];
    assert(checks_view(c@) =~= seq![Check::Required]);
    register(&mut validator, "city", c);
    let c = vec![ValidatorFn::Required];
    assert(checks_view(c@) =~= seq![Check::Required]);
    register(&mut validator, "zip", c);
    let c = vec![ValidatorFn::Required];
    assert(checks_view(c@) =~= seq![Check::Required]);
    register(&mut validator, "country", c);
    let c = vec![ValidatorFn::Required];
    assert(checks_view(c@) =~= seq![Check::Required]);
    register(&mut validator, "terms", c);
    let ghost base = validator@;
    assert(base == signup_checks(None));
    let tier = match req.get("tier") {
        Some(t) => t.string(),
        None => None,
    };
    match tier {
        Some(t) => {
            if str_eq(t, "student") {
                let c = vec![ValidatorFn::Required, ValidatorFn::FileSize(0, MiB(5))];
                assert(checks_view(c@) =~= seq![Check::Required, Check::FileSize(0, 5 * 1024 * 1024)]);
                register(&mut validator, "studentid", c);
            } else if str_eq(t, "business") {
                let c = vec![ValidatorFn::Required];
                assert(checks_view(c@) =~= seq![Check::Required]);
                register(&mut validator, "cvr", c);
            }
        },
        None => {},
    }
    assert(validator@ == signup_checks(entry_named(req@, "tier"@)));
    let fields = req.values();
    validator.check(&fields)
}

/// The query of the signup page.
pub struct SignupTierQuery {
    pub tier: Option<String>,
}

/// Asks for the confirmation e-mail to be sent again.
pub struct ResendQuery {
    pub resend: Option<String>,
}

/// The name of the cookie that carries the current session.
pub const SESSION_COOKIE: &'static str = "session";

/// Get current `session` cookie if one exists.
pub fn get_signup_key(cookies: &Vec<(String, String)>) -> (r: Option<String>)
    ensures
        match entry_named(entries_view(cookies@), "session"@) {
            Some(v) => r matches Some(k) && k@ == v,
            None => r is None,
        },
{
    proof {
        reveal_strlit("session");
    }
    match get_entry(cookies, SESSION_COOKIE) {
        Some(v) => Some(v.clone()),
        None => None,
    }
}

/// The name of the cookie that carries the signup session's key.
pub const SIGNUP_COOKIE: &'static str = "signup_session_key";

/// The message shown on the e-mail field when signing up failed unexpectedly.
pub const SIGNUP_FAILED_MESSAGE: &'static str =
    "An unexpected error happened while signing-up. Please try again later";

/// How the signup endpoint answers.
pub enum SignupReply {
    /// The "continue" page, setting the signup cookie to the new session's key.
    Continue { key: String },
    /// The "continue" page, setting the signup cookie to a freshly generated key:
    /// the address is taken, which the answer does not reveal.
    ContinueWithFreshKey,
    /// The signup page again, showing the form errors.
    FormErrors(ValidatorResult),
    /// The signup page again, showing `SIGNUP_FAILED_MESSAGE` on the e-mail field.
    Failed,
}

/// The reply to a signup attempt whose outcome is `r` (the new signup session's
/// key on success).
pub fn signup_reply(r: UserCreationResult<String>) -> (s: SignupReply)
    ensures
        match r {
            Ok(k) => s matches SignupReply::Continue { key } && key@ == k@,
            Err(UserCreationError::UserAlreadyExists) => s is ContinueWithFreshKey,
            Err(UserCreationError::FormError(e)) => s matches SignupReply::FormErrors(x) && result_view(x@) == result_view(e@),
            Err(_) => s is Failed,
        },
{
    match r {
        Ok(key) => SignupReply::Continue { key },
        Err(UserCreationError::UserAlreadyExists) => SignupReply::ContinueWithFreshKey,
        Err(UserCreationError::FormError(e)) => SignupReply::FormErrors(e),
        Err(_) => SignupReply::Failed,
    }
}

pub open spec fn signup_status_spec(s: SignupReply) -> u16 {
    match s {
        SignupReply::Continue { .. } | SignupReply::ContinueWithFreshKey => 200,
        SignupReply::FormErrors(_) => 400,
        SignupReply::Failed => 500,
    }
}

/// The HTTP status of a signup reply: 200 to continue, 400 for form errors, 500
/// for an unexpected failure.
pub fn signup_status(s: &SignupReply) -> (r: u16)
    ensures
        r == signup_status_spec(*s),
{
    match s {
        SignupReply::Continue { .. } => 200,
        SignupReply::ContinueWithFreshKey => 200,
        SignupReply::FormErrors(_) => 400,
        SignupReply::Failed => 500,
    }
}


/// The fields of the signup form, in the order they are checked.
pub open spec fn signup_table(tier: Option<FieldValue>) -> Seq<(Seq<char>, Seq<Check>)> {
    let base = seq![
        ("email"@, seq![Check::Required, Check::Email]),
        ("password"@, seq![Check::Required, Check::Length(8, 0)]),
        ("tier"@, seq![Check::Required, Check::OneOf(tier_names())]),
        ("fullname"@, seq![Check::Required]),
        ("address"@, seq![Check::Required]),
        ("city"@, seq![Check::Required]),
        ("zip"@, seq![Check::Required]),
        ("country"@, seq![Check::Required]),
        ("terms"@, seq![Check::Required]),
    ];
    if tier == Some(FieldValue::Text("student"@)) {
        base.push(("studentid"@, seq![Check::Required, Check::FileSize(0, 5 * 1024 * 1024)]))
    } else if tier == Some(FieldValue::Text("business"@)) {
        base.push(("cvr"@, seq![Check::Required]))
    } else {
        base
    }
}

proof fn lemma_signup_names()
    ensures
        "email"@ =~= seq!['e', 'm', 'a', 'i', 'l'],
        "password"@ =~= seq!['p', 'a', 's', 's', 'w', 'o', 'r', 'd'],
        "tier"@ =~= seq!['t', 'i', 'e', 'r'],
        "fullname"@ =~= seq!['f', 'u', 'l', 'l', 'n', 'a', 'm', 'e'],
        "address"@ =~= seq!['a', 'd', 'd', 'r', 'e', 's', 's'],
        "city"@ =~= seq!['c', 'i', 't', 'y'],
        "zip"@ =~= seq!['z', 'i', 'p'],
        "country"@ =~= seq!['c', 'o', 'u', 'n', 't', 'r', 'y'],
        "terms"@ =~= seq!['t', 'e', 'r', 'm', 's'],
        "studentid"@ =~= seq!['s', 't', 'u', 'd', 'e', 'n', 't', 'i', 'd'],
        "cvr"@ =~= seq!['c', 'v', 'r'],
{
    reveal_strlit("email");
    reveal_strlit("password");
    reveal_strlit("tier");
    reveal_strlit("fullname");
    reveal_strlit("address");
    reveal_strlit("city");
    reveal_strlit("zip");
    reveal_strlit("country");
    reveal_strlit("terms");
    reveal_strlit("studentid");
    reveal_strlit("cvr");
}

/// The signup checks are the table above, with no name twice.
proof fn lemma_signup_checks_table(tier: Option<FieldValue>)
    ensures
        signup_checks(tier) == signup_table(tier),
        distinct_names(signup_table(tier)),
{
    lemma_signup_names();
    let t = signup_table(tier);
    let e0 = Seq::<(Seq<char>, Seq<Check>)>::empty();
    lemma_with_field_new(e0, "email"@, seq![Check::Required, Check::Email]);
    let e1 = with_field(e0, "email"@, seq![Check::Required, Check::Email]);
    lemma_with_field_new(e1, "password"@, seq![Check::Required, Check::Length(8, 0)]);
    let e2 = with_field(e1, "password"@, seq![Check::Required, Check::Length(8, 0)]);
    lemma_with_field_new(e2, "tier"@, seq![Check::Required, Check::OneOf(tier_names())]);
    let e3 = with_field(e2, "tier"@, seq![Check::Required, Check::OneOf(tier_names())]);
    lemma_with_field_new(e3, "fullname"@, seq![Check::Required]);
    let e4 = with_field(e3, "fullname"@, seq![Check::Required]);
    lemma_with_field_new(e4, "address"@, seq![Check::Required]);
    let e5 = with_field(e4, "address"@, seq![Check::Required]);
    lemma_with_field_new(e5, "city"@, seq![Check::Required]);
    let e6 = with_field(e5, "city"@, seq![Check::Required]);
    lemma_with_field_new(e6, "zip"@, seq![Check::Required]);
    let e7 = with_field(e6, "zip"@, seq![Check::Required]);
    lemma_with_field_new(e7, "country"@, seq![Check::Required]);
    let e8 = with_field(e7, "country"@, seq![Check::Required]);
    lemma_with_field_new(e8, "terms"@, seq![Check::Required]);
    let e9 = with_field(e8, "terms"@, seq![Check::Required]);
    lemma_with_field_new(e9, "studentid"@, seq![Check::Required, Check::FileSize(0, 5 * 1024 * 1024)]);
    lemma_with_field_new(e9, "cvr"@, seq![Check::Required]);
    assert(distinct_names(t));
}


/// `name` is a field of the signup form for `tier`: the nine common fields, plus
/// `studentid` for students and `cvr` for businesses.
pub open spec fn is_signup_field(tier: Option<FieldValue>, name: Seq<char>) -> bool {
    exists|k: int| 0 <= k < signup_table(tier).len() && #[trigger] signup_table(tier)[k].0 == name
}

/// The report of the signup form names only fields of the form for the given tier;
/// every such field that is missing is reported with "Field is required" first; a
/// password that is given but shorter than 8 bytes is reported as too short; a
/// student's id file over 5 MiB is reported as too large. For every name, the
/// messages are those of that field's failing checks (`reported_for`).
pub proof fn lemma_signup_report(
    tier: Option<FieldValue>,
    fields: Seq<(Seq<char>, Seq<u8>)>,
    name: Seq<char>,
)
    ensures
        ({
            let r = report(signup_checks(tier), fields);
            &&& entry_named(r, name) == reported_for(signup_table(tier), fields, name)
            &&& (entry_named(r, name) is Some ==> is_signup_field(tier, name))
            &&& (is_signup_field(tier, name) && lookup(fields, name) is None ==> (entry_named(
                r,
                name,
            ) is Some && entry_named(r, name)->0.len() > 0 && entry_named(r, name)->0[0]
                == "Field is required"@))
            &&& (name == "password"@ && lookup(fields, name) is Some && !blank_bytes(
                lookup(fields, name)->0,
            ) && lookup(fields, name)->0.len() < 8 ==> entry_named(r, name) == Some(
                seq!["Input too short, expected at least 8 characters"@],
            ))
            &&& (tier == Some(FieldValue::Text("student"@)) && name == "studentid"@ && lookup(
                fields,
                name,
            ) is Some && !blank_bytes(lookup(fields, name)->0) && lookup(fields, name)->0.len() > 5
                * 1024 * 1024 ==> entry_named(r, name) == Some(
                seq!["File too large, expected at most "@ + size_text(5 * 1024 * 1024)],
            ))
        }),
{
    lemma_signup_checks_table(tier);
    lemma_signup_names();
    let t = signup_table(tier);
    let r = report(signup_checks(tier), fields);
    lemma_report_per_name(t, fields, name);
    if name == "password"@ {
        assert(t[1].0 == name);
    }
    if is_signup_field(tier, name) {
        let k = choose|k: int| 0 <= k < t.len() && #[trigger] t[k].0 == name;
        lemma_entry_named_at(t, k);
        let checks = t[k].1;
        assert(checks[0] == Check::Required);
        let input = lookup(fields, name);
        if input is None {
            lemma_failures_first(checks, input);
        }
        if name == "password"@ && input is Some && !blank_bytes(input->0) && input->0.len() < 8 {
            assert(k == 1);
            reveal_strlit("Input too short, expected at least ");
            reveal_strlit(" characters");
            reveal_strlit("Input too short, expected at least 8 characters");
            let m = "Input too short, expected at least "@ + decimal(8) + " characters"@;
            assert(decimal(8) =~= seq!['8']);
            assert(m =~= "Input too short, expected at least 8 characters"@);
            assert(checks =~= seq![Check::Required, Check::Length(8, 0)]);
            assert(checks.drop_last() =~= seq![Check::Required]);
            assert(seq![Check::Required].drop_last() =~= Seq::<Check>::empty());
            assert(check_outcome(Check::Required, input) is None);
            assert(failures(Seq::<Check>::empty(), input) == Seq::<Seq<char>>::empty());
            assert(seq![Check::Required].last() == Check::Required);
            assert(failures(seq![Check::Required], input) == Seq::<Seq<char>>::empty());
            assert(failures(checks, input) =~= seq![m]);
        }
        if tier == Some(FieldValue::Text("student"@)) && name == "studentid"@ && input is Some
            && !blank_bytes(input->0) && input->0.len() > 5 * 1024 * 1024 {
            assert(k == 9);
            let m = "File too large, expected at most "@ + size_text(5 * 1024 * 1024);
            assert(checks =~= seq![Check::Required, Check::FileSize(0, 5 * 1024 * 1024)]);
            assert(checks.drop_last() =~= seq![Check::Required]);
            assert(seq![Check::Required].drop_last() =~= Seq::<Check>::empty());
            assert(check_outcome(Check::Required, input) is None);
            assert(failures(Seq::<Check>::empty(), input) == Seq::<Seq<char>>::empty());
            assert(seq![Check::Required].last() == Check::Required);
            assert(failures(seq![Check::Required], input) == Seq::<Seq<char>>::empty());
            assert(failures(checks, input) =~= seq![m]);
        }
    } else {
        assert forall|j: int| 0 <= j < t.len() implies #[trigger] t[j].0 != name by {}
        lemma_entry_named_absent(t, name);
    }
}

} // verus!
