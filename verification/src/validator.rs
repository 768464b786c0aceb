//! Declarative validation of submitted form fields.
//!
//! A [`Validator`] holds, for each field name, the list of checks the field must
//! pass. [`Validator::check`] runs them on the submitted values and reports, for
//! every field with at least one failing check, the messages of the failing checks.
use vstd::prelude::*;
use vstd::utf8::*;

pub mod v;

use crate::entries::{entry_named, first_named, lemma_entry_named_with_entry_other, lemma_entry_named_with_entry_same, lemma_first_named_unique, with_entry};
use crate::pattern::{regex_compiles, regex_is_match};
use v::url_parse_failure;
use crate::text::{decimal, decimal_int, str_eq, views};
use v::{
    email, email_spec, file_size, file_size_spec, input_view, irange, irange_spec, length,
    length_spec, message_view, one_of, one_of_spec, required, required_spec, url, url_spec,
    urange, urange_spec, all_digits, blank_bytes, digits_value, is_digit, join, size_text,
    EMAIL_REGEX,
};

verus! {

pub type ValidationError = String;

pub type ValidationResult = Option<ValidationError>;

/// For each field that failed, its name and the messages of its failing checks,
/// in the order the fields were registered.
pub type ValidatorResult = Vec<(String, Vec<ValidationError>)>;

/// Submitted field values by name.
pub type FieldValues = Vec<(String, Vec<u8>)>;

/// One of the checks of module [`v`], with its parameters.
pub enum ValidatorFn {
    Required,
    Email,
    Url,
    /// The value must be one of these.
    OneOf(Vec<String>),
    /// Byte length between `min` and `max` (0 for no bound).
    Length(usize, usize),
    /// File size between `min` and `max` bytes (0 for no bound).
    FileSize(usize, usize),
    /// Integer between `min` and `max`.
    IRange(isize, isize),
    /// Non-negative integer between `min` and `max`.
    URange(usize, usize),
}

/// The mathematical content of a [`ValidatorFn`].
pub enum Check {
    Required,
    Email,
    Url,
    OneOf(Seq<Seq<char>>),
    Length(nat, nat),
    FileSize(nat, nat),
    IRange(int, int),
    URange(nat, nat),
}

impl View for ValidatorFn {
    type V = Check;

    open spec fn view(&self) -> Check {
        match self {
            ValidatorFn::Required => Check::Required,
            ValidatorFn::Email => Check::Email,
            ValidatorFn::Url => Check::Url,
            ValidatorFn::OneOf(vs) => Check::OneOf(views(vs@)),
            ValidatorFn::Length(a, b) => Check::Length(*a as nat, *b as nat),
            ValidatorFn::FileSize(a, b) => Check::FileSize(*a as nat, *b as nat),
            ValidatorFn::IRange(a, b) => Check::IRange(*a as int, *b as int),
            ValidatorFn::URange(a, b) => Check::URange(*a as nat, *b as nat),
        }
    }
}

/// The outcome of one check on a field's bytes.
pub open spec fn check_outcome(c: Check, input: Option<Seq<u8>>) -> Option<Seq<char>> {
    match c {
        Check::Required => required_spec(input),
        Check::Email => email_spec(input),
        Check::Url => url_spec(input),
        Check::OneOf(vs) => one_of_spec(input, vs),
        Check::Length(a, b) => length_spec(input, a, b),
        Check::FileSize(a, b) => file_size_spec(input, a, b),
        Check::IRange(a, b) => irange_spec(input, a, b),
        Check::URange(a, b) => urange_spec(input, a, b),
    }
}

/// The messages of the failing checks among `checks`, in order.
pub open spec fn failures(checks: Seq<Check>, input: Option<Seq<u8>>) -> Seq<Seq<char>>
    decreases checks.len(),
{
    if checks.len() == 0 {
        Seq::<Seq<char>>::empty()
    } else {
        let prev = failures(checks.drop_last(), input);
        match check_outcome(checks.last(), input) {
            Some(m) => prev.push(m),
            None => prev,
        }
    }
}

/// The value of the first field named `name`.
pub open spec fn lookup(fields: Seq<(Seq<char>, Seq<u8>)>, name: Seq<char>) -> Option<Seq<u8>>
    decreases fields.len(),
{
    if fields.len() == 0 {
        None
    } else if fields[0].0 == name {
        Some(fields[0].1)
    } else {
        lookup(fields.drop_first(), name)
    }
}

/// The report of [`Validator::check`] for the registered `entries`.
pub open spec fn report(
    entries: Seq<(Seq<char>, Seq<Check>)>,
    fields: Seq<(Seq<char>, Seq<u8>)>,
) -> Seq<(Seq<char>, Seq<Seq<char>>)>
    decreases entries.len(),
{
    if entries.len() == 0 {
        Seq::empty()
    } else {
        let prev = report(entries.drop_last(), fields);
        let (name, checks) = entries.last();
        let errs = failures(checks, lookup(fields, name));
        if errs.len() > 0 {
            prev.push((name, errs))
        } else {
            prev
        }
    }
}

/// `k` is the position of the first entry named `name`.
pub open spec fn is_first_named<T>(entries: Seq<(Seq<char>, T)>, name: Seq<char>, k: int) -> bool {
    &&& 0 <= k < entries.len()
    &&& entries[k].0 == name
    &&& forall|j: int| 0 <= j < k ==> #[trigger] entries[j].0 != name
}

/// Registers `checks` for `name`, replacing an earlier registration of that name.
pub open spec fn with_field(
    entries: Seq<(Seq<char>, Seq<Check>)>,
    name: Seq<char>,
    checks: Seq<Check>,
) -> Seq<(Seq<char>, Seq<Check>)> {
    if exists|k: int| is_first_named(entries, name, k) {
        let k = choose|k: int| is_first_named(entries, name, k);
        entries.update(k, (name, checks))
    } else {
        entries.push((name, checks))
    }
}

/// No name is registered twice.
pub open spec fn distinct_names<T>(entries: Seq<(Seq<char>, T)>) -> bool {
    forall|i: int, j: int|
        0 <= i < entries.len() && 0 <= j < entries.len() && i != j ==> #[trigger] entries[i].0
            != #[trigger] entries[j].0
}

pub open spec fn values_view(fields: Seq<(String, Vec<u8>)>) -> Seq<(Seq<char>, Seq<u8>)> {
    fields.map_values(|p: (String, Vec<u8>)| (p.0@, p.1@))
}

pub open spec fn result_view(r: Seq<(String, Vec<String>)>) -> Seq<(Seq<char>, Seq<Seq<char>>)> {
    r.map_values(|p: (String, Vec<String>)| (p.0@, views(p.1@)))
}

pub open spec fn checks_view(v: Seq<ValidatorFn>) -> Seq<Check> {
    v.map_values(|f: ValidatorFn| f@)
}

impl ValidatorFn {
    /// Runs the check on a field's bytes.
    pub fn apply(&self, input: Option<&Vec<u8>>) -> (r: ValidationResult)
        ensures
            message_view(r) == check_outcome(self@, input_view(input)),
    {
        match self {
            ValidatorFn::Required => required(input),
            ValidatorFn::Email => email(input),
            ValidatorFn::Url => url(input),
            ValidatorFn::OneOf(vs) => one_of(input, vs),
            ValidatorFn::Length(a, b) => length(input, *a, *b),
            ValidatorFn::FileSize(a, b) => file_size(input, *a, *b),
            ValidatorFn::IRange(a, b) => irange(input, *a, *b),
            ValidatorFn::URange(a, b) => urange(input, *a, *b),
        }
    }

    /// A copy of this check.
    pub fn duplicate(&self) -> (r: ValidatorFn)
        ensures
            r@ == self@,
    {
        match self {
            ValidatorFn::Required => ValidatorFn::Required,
            ValidatorFn::Email => ValidatorFn::Email,
            ValidatorFn::Url => ValidatorFn::Url,
            ValidatorFn::OneOf(vs) => {
                let mut copy: Vec<String> = Vec::new();
                let n = vs.len();
                let mut i: usize = 0;
                while i < n
                    invariant
                        i <= n == vs.len(),
                        copy@.len() == i,
                        views(copy@) == views(vs@).take(i as int),
                    decreases n - i,
                {
                    let c = vs[i].clone();
                    assert(c@ == vs@[i as int]@);
                    copy.push(c);
                    assert(views(copy@).len() == i + 1);
                    assert(views(copy@)[i as int] == views(vs@)[i as int]);
                    assert(views(copy@) =~= views(vs@).take(i + 1));
                    i += 1;
                }
                assert(views(vs@).take(n as int) =~= views(vs@));
                ValidatorFn::OneOf(copy)
            },
            ValidatorFn::Length(a, b) => ValidatorFn::Length(*a, *b),
            ValidatorFn::FileSize(a, b) => ValidatorFn::FileSize(*a, *b),
            ValidatorFn::IRange(a, b) => ValidatorFn::IRange(*a, *b),
            ValidatorFn::URange(a, b) => ValidatorFn::URange(*a, *b),
        }
    }
}

/// The value of the first field named `name`, if any.
pub fn get_field<'a>(fields: &'a FieldValues, name: &str) -> (r: Option<&'a Vec<u8>>)
    ensures
        input_view(r) == lookup(values_view(fields@), name@),
{
    let n = fields.len();
    let mut i: usize = 0;
    assert(values_view(fields@).skip(0) =~= values_view(fields@));
    while i < n
        invariant
            i <= n == fields.len(),
            lookup(values_view(fields@), name@) == lookup(values_view(fields@).skip(i as int), name@),
        decreases n - i,
    {
        let ghost rest = values_view(fields@).skip(i as int);
        assert(rest[0] == (fields@[i as int].0@, fields@[i as int].1@));
        if str_eq(fields[i].0.as_str(), name) {
            return Some(&fields[i].1);
        }
        assert(rest.drop_first() =~= values_view(fields@).skip(i + 1));
        i += 1;
    }
    None
}

/// Checks for form fields, by field name.
pub struct Validator {
    validators: Vec<(String, Vec<ValidatorFn>)>,
}

impl View for Validator {
    type V = Seq<(Seq<char>, Seq<Check>)>;

    closed spec fn view(&self) -> Self::V {
        self.validators@.map_values(|p: (String, Vec<ValidatorFn>)| (p.0@, checks_view(p.1@)))
    }
}

impl Validator {
    /// A validator with no fields.
    pub fn new() -> (r: Self)
        ensures
            r@ == Seq::<(Seq<char>, Seq<Check>)>::empty(),
            distinct_names(r@),
    {
        let r = Validator { validators: Vec::new() };
        assert(r@ =~= Seq::<(Seq<char>, Seq<Check>)>::empty());
        r
    }

    /// Registers `validation` as the checks of field `name`, replacing the checks
    /// registered for it before.
    pub fn field(&mut self, name: &str, validation: &[ValidatorFn]) -> (r: &mut Self)
        ensures
            r@ == with_field(old(self)@, name@, checks_view(validation@)),
            distinct_names(old(self)@) ==> distinct_names(r@),
            *final(self) == *final(r),
    {
        proof {
            if distinct_names(old(self)@) {
                lemma_with_field_distinct(old(self)@, name@, checks_view(validation@));
            }
        }
        let mut checks: Vec<ValidatorFn> = Vec::new();
        let m = validation.len();
        let mut j: usize = 0;
        while j < m
            invariant
                j <= m == validation@.len(),
                checks@.len() == j,
                checks_view(checks@) == checks_view(validation@).take(j as int),
            decreases m - j,
        {
            let c = validation[j].duplicate();
            assert(c@ == validation@[j as int]@);
            checks.push(c);
            assert(checks_view(checks@)[j as int] == checks_view(validation@)[j as int]);
            assert(checks_view(checks@) =~= checks_view(validation@).take(j + 1));
            j += 1;
        }
        assert(checks_view(validation@).take(m as int) =~= checks_view(validation@));
        let ghost before = self@;
        let n = self.validators.len();
        let mut i: usize = 0;
        while i < n
            invariant
                i <= n == self.validators.len(),
                before == self@,
                before == old(self)@,
                checks_view(checks@) == checks_view(validation@),
                forall|k: int| 0 <= k < i ==> #[trigger] before[k].0 != name@,
            decreases n - i,
        {
            if str_eq(self.validators[i].0.as_str(), name) {
                let entry = (name.to_owned(), checks);
                self.validators.set(i, entry);
                proof {
                    assert(before[i as int].0 == name@);
                    assert(is_first_named(before, name@, i as int));
                    let k = choose|k: int| is_first_named(before, name@, k);
                    assert(k == i as int) by {
                        if k < i {
                            assert(before[k].0 != name@);
                        } else if k > i {
                            assert(before[i as int].0 != name@);
                        }
                    }
                }
                assert(self@ =~= with_field(before, name@, checks_view(validation@)));
                return self;
            }
            i += 1;
        }
        self.validators.push((name.to_owned(), checks));
        assert(self@ =~= with_field(before, name@, checks_view(validation@)));
        self
    }

    /// Runs every registered check on the submitted `fields`.
    pub fn check(&self, fields: &FieldValues) -> (r: ValidatorResult)
        ensures
            result_view(r@) == report(self@, values_view(fields@)),
    {
        let mut errors: ValidatorResult = Vec::new();
        let n = self.validators.len();
        let mut i: usize = 0;
        assert(self@.take(0) =~= Seq::<(Seq<char>, Seq<Check>)>::empty());
        assert(result_view(errors@) =~= Seq::<(Seq<char>, Seq<Seq<char>>)>::empty());
        while i < n
            invariant
                i <= n == self.validators.len(),
                result_view(errors@) == report(self@.take(i as int), values_view(fields@)),
            decreases n - i,
        {
            let (field, validators) = (&self.validators[i].0, &self.validators[i].1);
            let value = get_field(fields, field.as_str());
            let mut result: Vec<String> = Vec::new();
            let m = validators.len();
            let mut j: usize = 0;
            assert(checks_view(validators@).take(0) =~= Seq::<Check>::empty());
            while j < m
                invariant
                    j <= m == validators.len(),
                    views(result@) == failures(
                        checks_view(validators@).take(j as int),
                        input_view(value),
                    ),
                decreases m - j,
            {
                let outcome = validators[j].apply(value);
                let ghost cs = checks_view(validators@).take(j + 1);
                assert(cs.drop_last() =~= checks_view(validators@).take(j as int));
                assert(cs.last() == validators@[j as int]@);
                match outcome {
                    Some(message) => {
                        result.push(message);
                        assert(views(result@) =~= failures(cs, input_view(value)));
                    },
                    None => {},
                }
                j += 1;
            }
            assert(checks_view(validators@).take(m as int) =~= checks_view(validators@));
            let ghost t = self@.take(i + 1);
            assert(t.drop_last() =~= self@.take(i as int));
            assert(t.last() == (field@, checks_view(validators@)));
            if result.len() > 0 {
                errors.push((field.clone(), result));
                assert(result_view(errors@) =~= report(t, values_view(fields@)));
            }
            i += 1;
        }
        assert(self@.take(n as int) =~= self@);
        errors
    }
}

/// Registering a field again replaces its checks: only the last registration counts.
pub proof fn lemma_field_replaces(
    entries: Seq<(Seq<char>, Seq<Check>)>,
    name: Seq<char>,
    first: Seq<Check>,
    second: Seq<Check>,
)
    ensures
        with_field(with_field(entries, name, first), name, second) == with_field(
            entries,
            name,
            second,
        ),
{
    let e1 = with_field(entries, name, first);
    if exists|k: int| is_first_named(entries, name, k) {
        let k = choose|k: int| is_first_named(entries, name, k);
        assert(is_first_named(e1, name, k));
        let j = choose|j: int| is_first_named(e1, name, j);
        assert(j == k) by {
            if j < k {
                assert(e1[j].0 == entries[j].0);
            } else if j > k {
                assert(e1[k].0 != name);
            }
        }
        assert(with_field(e1, name, second) =~= with_field(entries, name, second));
    } else {
        let k = entries.len() as int;
        assert forall|j: int| 0 <= j < k implies #[trigger] e1[j].0 != name by {
            if e1[j].0 == name {
                crate::entries::lemma_some_first_named(entries, name, j);
                let m = choose|m: int| crate::entries::first_named(entries, name, m);
                assert(is_first_named(entries, name, m));
            }
        }
        assert(is_first_named(e1, name, k));
        let j = choose|j: int| is_first_named(e1, name, j);
        assert(j == k) by {
            if j < k {
                assert(e1[j].0 != name);
            }
        }
        assert(with_field(e1, name, second) =~= with_field(entries, name, second));
    }
}

/// Registering fields never registers a name twice.
pub proof fn lemma_with_field_distinct(
    entries: Seq<(Seq<char>, Seq<Check>)>,
    name: Seq<char>,
    checks: Seq<Check>,
)
    requires
        distinct_names(entries),
    ensures
        distinct_names(with_field(entries, name, checks)),
{
    let e = with_field(entries, name, checks);
    if exists|k: int| is_first_named(entries, name, k) {
        let k = choose|k: int| is_first_named(entries, name, k);
        assert forall|i: int, j: int|
            0 <= i < e.len() && 0 <= j < e.len() && i != j implies #[trigger] e[i].0 != #[trigger] e[j].0 by {
            if i != k && j != k {
                assert(entries[i].0 != entries[j].0);
            } else if i == k {
                assert(entries[k].0 != entries[j].0);
            } else {
                assert(entries[i].0 != entries[k].0);
            }
        }
    } else {
        assert forall|i: int, j: int|
            0 <= i < e.len() && 0 <= j < e.len() && i != j implies #[trigger] e[i].0 != #[trigger] e[j].0 by {
            let n = entries.len() as int;
            if i < n && j < n {
                assert(entries[i].0 != entries[j].0);
            } else if i == n && j < n {
                if entries[j].0 == name {
                    crate::entries::lemma_some_first_named(entries, name, j);
                    let m = choose|m: int| crate::entries::first_named(entries, name, m);
                    assert(is_first_named(entries, name, m));
                }
            } else if j == n && i < n {
                if entries[i].0 == name {
                    crate::entries::lemma_some_first_named(entries, name, i);
                    let m = choose|m: int| crate::entries::first_named(entries, name, m);
                    assert(is_first_named(entries, name, m));
                }
            }
        }
    }
}

/// The report is empty exactly when every registered field passes all its checks.
pub proof fn lemma_report_empty_iff_all_pass(
    entries: Seq<(Seq<char>, Seq<Check>)>,
    fields: Seq<(Seq<char>, Seq<u8>)>,
)
    ensures
        report(entries, fields).len() == 0 <==> forall|k: int|
            0 <= k < entries.len() ==> failures(#[trigger] entries[k].1, lookup(fields, entries[k].0)).len()
                == 0,
    decreases entries.len(),
{
    if entries.len() > 0 {
        lemma_report_empty_iff_all_pass(entries.drop_last(), fields);
        lemma_report_grows(entries.drop_last(), fields);
        let last = entries.len() - 1;
        let d = entries.drop_last();
        assert(entries[last] == entries.last());
        let all = forall|k: int|
            0 <= k < entries.len() ==> failures(#[trigger] entries[k].1, lookup(fields, entries[k].0)).len() == 0;
        let all_prev = forall|k: int|
            0 <= k < d.len() ==> failures(#[trigger] d[k].1, lookup(fields, d[k].0)).len() == 0;
        if all {
            assert forall|k: int| 0 <= k < d.len() implies failures(#[trigger] d[k].1, lookup(fields, d[k].0)).len() == 0 by {
                assert(d[k] == entries[k]);
                assert(failures(entries[k].1, lookup(fields, entries[k].0)).len() == 0);
            }
            assert(failures(entries[last].1, lookup(fields, entries[last].0)).len() == 0);
        }
        if all_prev && failures(entries.last().1, lookup(fields, entries.last().0)).len() == 0 {
            assert forall|k: int| 0 <= k < entries.len() implies failures(#[trigger] entries[k].1, lookup(fields, entries[k].0)).len() == 0 by {
                if k < last {
                    assert(d[k] == entries[k]);
                    assert(failures(d[k].1, lookup(fields, d[k].0)).len() == 0);
                }
            }
        }
        if !all_prev {
            let k = choose|k: int| 0 <= k < d.len() && !(failures(#[trigger] d[k].1, lookup(fields, d[k].0)).len() == 0);
            assert(d[k] == entries[k]);
            assert(failures(entries[k].1, lookup(fields, entries[k].0)).len() != 0);
        }
    }
}

proof fn lemma_report_grows(entries: Seq<(Seq<char>, Seq<Check>)>, fields: Seq<(Seq<char>, Seq<u8>)>)
    ensures
        report(entries, fields).len() <= entries.len(),
    decreases entries.len(),
{
    if entries.len() > 0 {
        lemma_report_grows(entries.drop_last(), fields);
    }
}

/// Each reported field is a registered field with at least one failing check, and
/// its messages are exactly those of its failing checks.
pub proof fn lemma_report_entries(
    entries: Seq<(Seq<char>, Seq<Check>)>,
    fields: Seq<(Seq<char>, Seq<u8>)>,
    i: int,
)
    requires
        0 <= i < report(entries, fields).len(),
    ensures
        exists|k: int|
            0 <= k < entries.len() && #[trigger] entries[k].0 == report(entries, fields)[i].0
                && report(entries, fields)[i].1 == failures(entries[k].1, lookup(fields, entries[k].0))
                && report(entries, fields)[i].1.len() > 0,
    decreases entries.len(),
{
    let prev = report(entries.drop_last(), fields);
    if i < prev.len() {
        lemma_report_entries(entries.drop_last(), fields, i);
        let k = choose|k: int|
            0 <= k < entries.drop_last().len() && #[trigger] entries.drop_last()[k].0 == prev[i].0
                && prev[i].1 == failures(entries.drop_last()[k].1, lookup(fields, entries.drop_last()[k].0))
                && prev[i].1.len() > 0;
        assert(entries[k] == entries.drop_last()[k]);
    } else {
        assert(entries[entries.len() - 1] == entries.last());
    }
}


/// What the report says of one field: its messages when a registered check fails.
pub open spec fn reported_for(
    entries: Seq<(Seq<char>, Seq<Check>)>,
    fields: Seq<(Seq<char>, Seq<u8>)>,
    name: Seq<char>,
) -> Option<Seq<Seq<char>>> {
    match entry_named(entries, name) {
        Some(checks) => if failures(checks, lookup(fields, name)).len() > 0 {
            Some(failures(checks, lookup(fields, name)))
        } else {
            None
        },
        None => None,
    }
}

proof fn lemma_entry_named_push_other<T>(entries: Seq<(Seq<char>, T)>, n: Seq<char>, v: T, name: Seq<char>)
    requires
        n != name,
    ensures
        entry_named(entries.push((n, v)), name) == entry_named(entries, name),
{
    let e = entries.push((n, v));
    if exists|k: int| first_named(entries, name, k) {
        let k = choose|k: int| first_named(entries, name, k);
        assert(first_named(e, name, k)) by {
            assert forall|j: int| 0 <= j < k implies #[trigger] e[j].0 != name by {
                assert(entries[j].0 != name);
            }
        }
        lemma_first_named_unique(e, name, k);
    } else if exists|k: int| first_named(e, name, k) {
        let k = choose|k: int| first_named(e, name, k);
        assert(k < entries.len());
        assert(first_named(entries, name, k)) by {
            assert forall|j: int| 0 <= j < k implies #[trigger] entries[j].0 != name by {
                assert(e[j].0 != name);
            }
        }
    }
}

proof fn lemma_entry_named_push_new<T>(entries: Seq<(Seq<char>, T)>, name: Seq<char>, v: T)
    requires
        forall|j: int| 0 <= j < entries.len() ==> #[trigger] entries[j].0 != name,
    ensures
        entry_named(entries.push((name, v)), name) == Some(v),
        entry_named(entries, name) is None,
{
    let e = entries.push((name, v));
    let k = entries.len() as int;
    assert(first_named(e, name, k)) by {
        assert forall|j: int| 0 <= j < k implies #[trigger] e[j].0 != name by {
            assert(e[j] == entries[j]);
        }
    }
    lemma_first_named_unique(e, name, k);
    if exists|m: int| first_named(entries, name, m) {
        let m = choose|m: int| first_named(entries, name, m);
        assert(entries[m].0 != name);
    }
}

/// Registering by `with_field` is setting an entry of the table.
proof fn lemma_with_field_is_with_entry(
    entries: Seq<(Seq<char>, Seq<Check>)>,
    name: Seq<char>,
    checks: Seq<Check>,
)
    ensures
        with_field(entries, name, checks) == with_entry(entries, name, checks),
{
    assert(forall|k: int| is_first_named(entries, name, k) == first_named(entries, name, k));
}

/// For every name, the report of a validator without repeated names holds the
/// messages of that field's failing checks, in the order the checks were given,
/// exactly when the name is registered and one of its checks fails; fields that
/// were never registered are not reported.
pub proof fn lemma_report_per_name(
    entries: Seq<(Seq<char>, Seq<Check>)>,
    fields: Seq<(Seq<char>, Seq<u8>)>,
    name: Seq<char>,
)
    requires
        distinct_names(entries),
    ensures
        entry_named(report(entries, fields), name) == reported_for(entries, fields, name),
    decreases entries.len(),
{
    let r = report(entries, fields);
    if entries.len() == 0 {
        assert(!(exists|k: int| first_named(r, name, k)));
        assert(!(exists|k: int| first_named(entries, name, k)));
    } else {
        let d = entries.drop_last();
        let last = entries.len() - 1;
        assert(entries[last] == entries.last());
        assert(distinct_names(d)) by {
            assert forall|i: int, j: int|
                0 <= i < d.len() && 0 <= j < d.len() && i != j implies #[trigger] d[i].0 != #[trigger] d[j].0 by {
                assert(d[i] == entries[i] && d[j] == entries[j]);
            }
        }
        lemma_report_per_name(d, fields, name);
        let prev = report(d, fields);
        let (n, checks) = entries.last();
        let errs = failures(checks, lookup(fields, n));
        assert(entries =~= d.push((n, checks)));
        if n == name {
            assert forall|j: int| 0 <= j < d.len() implies #[trigger] d[j].0 != name by {
                assert(d[j] == entries[j]);
                assert(entries[j].0 != entries[last].0);
            }
            lemma_entry_named_push_new(d, name, checks);
            assert forall|j: int| 0 <= j < prev.len() implies #[trigger] prev[j].0 != name by {
                lemma_report_entries(d, fields, j);
                let k = choose|k: int|
                    0 <= k < d.len() && #[trigger] d[k].0 == prev[j].0
                        && prev[j].1 == failures(d[k].1, lookup(fields, d[k].0))
                        && prev[j].1.len() > 0;
                assert(d[k].0 != name);
            }
            if errs.len() > 0 {
                lemma_entry_named_push_new(prev, name, errs);
            } else {
                lemma_entry_named_push_new(prev, name, errs);
            }
        } else {
            lemma_entry_named_push_other(d, n, checks, name);
            if errs.len() > 0 {
                lemma_entry_named_push_other(prev, n, errs, name);
            }
        }
    }
}

/// Registering checks for `name` replaces what the report says of `name` by what
/// those checks alone give, and leaves what it says of every other name as it was.
pub proof fn lemma_field_then_report(
    entries: Seq<(Seq<char>, Seq<Check>)>,
    name: Seq<char>,
    checks: Seq<Check>,
    fields: Seq<(Seq<char>, Seq<u8>)>,
    other: Seq<char>,
)
    requires
        distinct_names(entries),
    ensures
        entry_named(report(with_field(entries, name, checks), fields), name) == (if failures(
            checks,
            lookup(fields, name),
        ).len() > 0 {
            Some(failures(checks, lookup(fields, name)))
        } else {
            None
        }),
        other != name ==> entry_named(report(with_field(entries, name, checks), fields), other)
            == entry_named(report(entries, fields), other),
{
    let e = with_field(entries, name, checks);
    lemma_with_field_distinct(entries, name, checks);
    lemma_with_field_is_with_entry(entries, name, checks);
    lemma_report_per_name(e, fields, name);
    lemma_entry_named_with_entry_same(entries, name, checks);
    if other != name {
        lemma_report_per_name(e, fields, other);
        lemma_report_per_name(entries, fields, other);
        lemma_entry_named_with_entry_other(entries, name, checks, other);
    }
}


/// Registering a name that is not there yet adds it at the end.
pub proof fn lemma_with_field_new(entries: Seq<(Seq<char>, Seq<Check>)>, name: Seq<char>, checks: Seq<Check>)
    requires
        forall|j: int| 0 <= j < entries.len() ==> #[trigger] entries[j].0 != name,
    ensures
        with_field(entries, name, checks) == entries.push((name, checks)),
{
    if exists|k: int| is_first_named(entries, name, k) {
        let k = choose|k: int| is_first_named(entries, name, k);
        assert(entries[k].0 != name);
    }
}

/// In a table without repeated names, each entry is what its name looks up.
pub proof fn lemma_entry_named_at<T>(entries: Seq<(Seq<char>, T)>, k: int)
    requires
        distinct_names(entries),
        0 <= k < entries.len(),
    ensures
        entry_named(entries, entries[k].0) == Some(entries[k].1),
{
    assert(first_named(entries, entries[k].0, k)) by {
        assert forall|j: int| 0 <= j < k implies #[trigger] entries[j].0 != entries[k].0 by {
            assert(entries[j].0 != entries[k].0);
        }
    }
    lemma_first_named_unique(entries, entries[k].0, k);
}

/// A name that no entry has looks up nothing.
pub proof fn lemma_entry_named_absent<T>(entries: Seq<(Seq<char>, T)>, name: Seq<char>)
    requires
        forall|j: int| 0 <= j < entries.len() ==> #[trigger] entries[j].0 != name,
    ensures
        entry_named(entries, name) is None,
{
    if exists|k: int| first_named(entries, name, k) {
        let k = choose|k: int| first_named(entries, name, k);
        assert(entries[k].0 != name);
    }
}

/// When the first check fails, its message comes first.
pub proof fn lemma_failures_first(checks: Seq<Check>, input: Option<Seq<u8>>)
    requires
        checks.len() > 0,
        check_outcome(checks[0], input) is Some,
    ensures
        failures(checks, input).len() > 0,
        failures(checks, input)[0] == check_outcome(checks[0], input)->0,
    decreases checks.len(),
{
    if checks.len() > 1 {
        let d = checks.drop_last();
        assert(d[0] == checks[0]);
        lemma_failures_first(d, input);
        let prev = failures(d, input);
        match check_outcome(checks.last(), input) {
            Some(m) => {
                assert(failures(checks, input) == prev.push(m));
                assert(prev.push(m)[0] == prev[0]);
            },
            None => {
                assert(failures(checks, input) == prev);
            },
        }
    } else {
        assert(checks.drop_last().len() == 0);
        assert(failures(checks.drop_last(), input) == Seq::<Seq<char>>::empty());
        assert(checks.last() == checks[0]);
        let m = check_outcome(checks[0], input)->0;
        assert(failures(checks, input) == Seq::<Seq<char>>::empty().push(m));
    }
}


/// The bytes of a signed literal: an optional `-` followed by the digits `d`.
pub open spec fn signed_literal(negative: bool, d: Seq<u8>) -> Seq<u8> {
    if negative {
        seq![45u8] + d
    } else {
        d
    }
}

/// An absent field passes the range checks; a present one written in decimal
/// passes when its value lies between the bounds (both included), is too small
/// below the lower bound and too large above the upper one, and the message names
/// the lower bound first (a value below the lower bound is too small even when the
/// bounds are crossed); bytes that are no number fail with "Expected an integer".
pub proof fn lemma_range_checks(min: nat, max: nat, d: Seq<u8>, bad: Seq<u8>)
    requires
        d.len() > 0,
        all_digits(d),
        digits_value(d) <= usize::MAX,
        bad.len() > 0,
        !is_digit(bad[0]),
        bad[0] != 43,
    ensures
        ({
            let v = digits_value(d);
            let outcome = check_outcome(Check::URange(min, max), Some(d));
            &&& check_outcome(Check::URange(min, max), None) is None
            &&& (min <= v <= max ==> outcome is None)
            &&& (v < min ==> outcome == Some(
                "Value too small, expected between "@ + decimal(min) + " and "@ + decimal(max),
            ))
            &&& (min <= v && v > max ==> outcome == Some(
                "Value too large, expected between "@ + decimal(min) + " and "@ + decimal(max),
            ))
            &&& check_outcome(Check::URange(min, max), Some(bad)) == Some("Expected an integer"@)
        }),
{
    assert(!is_digit(43u8) && !is_digit(45u8));
    assert(is_digit(d[0]));
    assert(d[0] != 43 && d[0] != 45);
    if bad.len() == 1 {
    } else {
        if bad[0] != 45 {
            assert(!all_digits(bad));
        }
    }
}

/// The signed range check, likewise: a present field written as an optional `-`
/// and decimal digits passes when its value lies between the bounds (both
/// included), and otherwise names the lower bound first in its message.
pub proof fn lemma_signed_range_check(min: int, max: int, negative: bool, d: Seq<u8>)
    requires
        d.len() > 0,
        all_digits(d),
        digits_value(d) <= isize::MAX,
    ensures
        ({
            let x = if negative { -(digits_value(d) as int) } else { digits_value(d) as int };
            let outcome = check_outcome(Check::IRange(min, max), Some(signed_literal(negative, d)));
            &&& check_outcome(Check::IRange(min, max), None) is None
            &&& (min <= x <= max ==> outcome is None)
            &&& (x < min ==> outcome == Some(
                "Value too small, expected between "@ + decimal_int(min) + " and "@ + decimal_int(max),
            ))
            &&& (min <= x && x > max ==> outcome == Some(
                "Value too large, expected between "@ + decimal_int(min) + " and "@ + decimal_int(max),
            ))
        }),
{
    assert(is_digit(d[0]));
    assert(d[0] != 43 && d[0] != 45);
    if negative {
        let b = seq![45u8] + d;
        assert(b.drop_first() =~= d);
        assert(b.len() > 1);
    }
}

/// The length check counts bytes: a present field of fewer than `min` bytes is too
/// short, one of more than `max` bytes (when `max` is not zero) too long, and any
/// other passes; the messages name the bounds. An absent field passes.
pub proof fn lemma_length_check(min: nat, max: nat, b: Seq<u8>)
    ensures
        check_outcome(Check::Length(min, max), None) is None,
        max == 0 && b.len() < min ==> check_outcome(Check::Length(min, max), Some(b)) == Some(
            "Input too short, expected at least "@ + decimal(min) + " characters"@,
        ),
        min == 0 && max != 0 && b.len() > max ==> check_outcome(Check::Length(min, max), Some(b))
            == Some("Input too long, expected at most "@ + decimal(max) + " characters"@),
        min != 0 && max != 0 && b.len() < min ==> check_outcome(Check::Length(min, max), Some(b))
            == Some(
            "Input too short, expected between "@ + decimal(min) + " and "@ + decimal(max)
                + " characters"@,
        ),
        min != 0 && max != 0 && b.len() > max && b.len() >= min ==> check_outcome(
            Check::Length(min, max),
            Some(b),
        ) == Some(
            "Input too long, expected between "@ + decimal(min) + " and "@ + decimal(max)
                + " characters"@,
        ),
        min <= b.len() && (max == 0 || b.len() <= max) ==> check_outcome(
            Check::Length(min, max),
            Some(b),
        ) is None,
{
}

/// A field is required to be present and not blank: absent or blank bytes fail
/// with "Field is required", anything else passes.
pub proof fn lemma_required_check(b: Seq<u8>)
    ensures
        check_outcome(Check::Required, None) == Some("Field is required"@),
        blank_bytes(b) ==> check_outcome(Check::Required, Some(b)) == Some("Field is required"@),
        !blank_bytes(b) ==> check_outcome(Check::Required, Some(b)) is None,
{
}


/// The checks on text: a selection passes exactly when the submitted text is one
/// of the variants and otherwise lists them; an e-mail address passes exactly when
/// it matches the address pattern; a URL passes as the URL parser decides. Bytes
/// that are not UTF-8 fail each of them, and an absent field passes them all.
pub proof fn lemma_text_checks(t: Seq<char>, variants: Seq<Seq<char>>, b: Seq<u8>)
    ensures
        check_outcome(Check::OneOf(variants), Some(encode_utf8(t))) == if variants.contains(t) {
            None
        } else {
            Some("Expected a selection from: "@ + join(variants, ", "@))
        },
        check_outcome(Check::Email, Some(encode_utf8(t))) == if regex_compiles(EMAIL_REGEX@)
            && regex_is_match(EMAIL_REGEX@, t) {
            None
        } else {
            Some("Email is not valid"@)
        },
        check_outcome(Check::Url, Some(encode_utf8(t))) == url_parse_failure(t),
        !valid_utf8(b) ==> check_outcome(Check::OneOf(variants), Some(b)) == Some(
            "Selection is not valid utf-8"@,
        ),
        !valid_utf8(b) ==> check_outcome(Check::Email, Some(b)) == Some("Email is not valid utf-8"@),
        !valid_utf8(b) ==> check_outcome(Check::Url, Some(b)) == Some("URL is not valid utf-8"@),
        check_outcome(Check::OneOf(variants), None) is None,
        check_outcome(Check::Email, None) is None,
        check_outcome(Check::Url, None) is None,
{
    encode_utf8_valid_utf8(t);
    encode_utf8_decode_utf8(t);
}

/// The file-size check counts bytes: fewer than `min` is too small, more than
/// `max` (when `max` is not zero) too large, anything else passes; the messages
/// write the bounds with binary units. An absent field passes.
pub proof fn lemma_file_size_check(min: nat, max: nat, b: Seq<u8>)
    ensures
        check_outcome(Check::FileSize(min, max), None) is None,
        max == 0 && b.len() < min ==> check_outcome(Check::FileSize(min, max), Some(b)) == Some(
            "File too small, expected at least "@ + size_text(min),
        ),
        min == 0 && max != 0 && b.len() > max ==> check_outcome(Check::FileSize(min, max), Some(b))
            == Some("File too large, expected at most "@ + size_text(max)),
        min != 0 && max != 0 && b.len() < min ==> check_outcome(Check::FileSize(min, max), Some(b))
            == Some("File too small, expected between "@ + size_text(min) + " and "@ + size_text(max)),
        min != 0 && max != 0 && b.len() > max && b.len() >= min ==> check_outcome(
            Check::FileSize(min, max),
            Some(b),
        ) == Some("File too large, expected between "@ + size_text(min) + " and "@ + size_text(max)),
        min <= b.len() && (max == 0 || b.len() <= max) ==> check_outcome(
            Check::FileSize(min, max),
            Some(b),
        ) is None,
{
}

} // verus!
