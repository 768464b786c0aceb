//! The individual field checks. Each takes the raw bytes of a form field
//! (`None` when the field is absent) and answers `None` when the field passes,
//! or `Some(message)` describing why it fails.
use vstd::prelude::*;
use vstd::utf8::*;

use crate::pattern::{compile, is_match, regex_compiles, regex_is_match};
use crate::text::{all_ws, decimal, decimal_int, is_blank, owned, push_decimal, push_decimal_isize, str_eq, views};

use super::ValidationResult;

verus! {

/// The expression an e-mail address must match (RFC 5322, simplified).
pub const EMAIL_REGEX: &'static str = r#"(?:[a-z0-9!#$%&'*+/=?^_`{|}~-]+(?:\.[a-z0-9!#$%&'*+/=?^_`{|}~-]+)*|"(?:[\x01-\x08\x0b\x0c\x0e-\x1f\x21\x23-\x5b\x5d-\x7f]|\\[\x01-\x09\x0b\x0c\x0e-\x7f])*")@(?:(?:[a-z0-9](?:[a-z0-9-]*[a-z0-9])?\.)+[a-z0-9](?:[a-z0-9-]*[a-z0-9])?|\[(?:(?:25[0-5]|2[0-4][0-9]|[01]?[0-9][0-9]?)\.){3}(?:25[0-5]|2[0-4][0-9]|[01]?[0-9][0-9]?|[a-z0-9-]*[a-z0-9]:(?:[\x01-\x08\x0b\x0c\x0e-\x1f\x21-\x5a\x53-\x7f]|\\[\x01-\x09\x0b\x0c\x0e-\x7f])+)\])"#;

/// The view of an optional message.
pub open spec fn message_view(r: ValidationResult) -> Option<Seq<char>> {
    match r {
        Some(m) => Some(m@),
        None => None,
    }
}

/// The bytes of an optional field.
pub open spec fn input_view(input: Option<&Vec<u8>>) -> Option<Seq<u8>> {
    match input {
        Some(b) => Some(b@),
        None => None,
    }
}

/// The text of `bytes` when they are valid UTF-8.
pub open spec fn utf8_text(bytes: Seq<u8>) -> Option<Seq<char>> {
    if valid_utf8(bytes) {
        Some(decode_utf8(bytes))
    } else {
        None
    }
}

/// A field is blank when it decodes to text made only of whitespace. Bytes that are
/// not UTF-8 hold at least one replacement character, which is not whitespace.
pub open spec fn blank_bytes(bytes: Seq<u8>) -> bool {
    valid_utf8(bytes) && all_ws(decode_utf8(bytes))
}

// ---------------------------------------------------------------- required

pub open spec fn required_spec(input: Option<Seq<u8>>) -> Option<Seq<char>> {
    match input {
        Some(b) if !blank_bytes(b) => None,
        _ => Some("Field is required"@),
    }
}

/// Calls `std::str::from_utf8`: `Some` exactly for valid UTF-8, with the decoded text.
#[verifier::external_body]
pub fn utf8_str(bytes: &[u8]) -> (r: Option<&str>)
    ensures
        r is Some <==> valid_utf8(bytes@),
        r matches Some(s) ==> s@ == decode_utf8(bytes@),
{
    std::str::from_utf8(bytes).ok()
}

/// The field must be present and hold something other than whitespace.
pub fn required(input: Option<&Vec<u8>>) -> (r: ValidationResult)
    ensures
        message_view(r) == required_spec(input_view(input)),
{
    match input {
        Some(input) => match utf8_str(input.as_slice()) {
            Some(text) => {
                if is_blank(text) {
                    Some(owned("Field is required"))
                } else {
                    None
                }
            },
            None => None,
        },
        None => Some(owned("Field is required")),
    }
}

// ---------------------------------------------------------------- email

pub open spec fn email_spec(input: Option<Seq<u8>>) -> Option<Seq<char>> {
    match input {
        None => None,
        Some(b) => match utf8_text(b) {
            None => Some("Email is not valid utf-8"@),
            Some(text) => if regex_compiles(EMAIL_REGEX@) && regex_is_match(EMAIL_REGEX@, text) {
                None
            } else {
                Some("Email is not valid"@)
            },
        },
    }
}

/// An absent field passes; a present one must be UTF-8 and match [`EMAIL_REGEX`].
pub fn email(input: Option<&Vec<u8>>) -> (r: ValidationResult)
    ensures
        message_view(r) == email_spec(input_view(input)),
{
    match input {
        Some(input) => match utf8_str(input.as_slice()) {
            Some(text) => match compile(EMAIL_REGEX) {
                Some(matcher) => {
                    if is_match(&matcher, text) {
                        None
                    } else {
                        Some(owned("Email is not valid"))
                    }
                },
                None => Some(owned("Email is not valid")),
            },
            None => Some(owned("Email is not valid utf-8")),
        },
        None => None,
    }
}

// ---------------------------------------------------------------- url

/// What `url::Url::parse` reports for `text`: `None` when it parses, otherwise the
/// error's `Display` text.
pub uninterp spec fn url_parse_failure(text: Seq<char>) -> Option<Seq<char>>;

/// Calls `url::Url::parse` and renders its error with `to_string`. Trusted: the
/// outcome is the one named `url_parse_failure`; the URL grammar is not written out.
#[verifier::external_body]
pub fn url_parse_message(text: &str) -> (r: Option<String>)
    ensures
        r is None <==> url_parse_failure(text@) is None,
        r matches Some(m) ==> url_parse_failure(text@) == Some(m@),
{
    match url::Url::parse(text) {
        Ok(_) => None,
        Err(e) => Some(e.to_string()),
    }
}

pub open spec fn url_spec(input: Option<Seq<u8>>) -> Option<Seq<char>> {
    match input {
        None => None,
        Some(b) => match utf8_text(b) {
            None => Some("URL is not valid utf-8"@),
            Some(text) => url_parse_failure(text),
        },
    }
}

/// An absent field passes; a present one must be UTF-8 and parse as a URL.
pub fn url(input: Option<&Vec<u8>>) -> (r: ValidationResult)
    ensures
        message_view(r) == url_spec(input_view(input)),
{
    match input {
        Some(input) => match utf8_str(input.as_slice()) {
            Some(text) => url_parse_message(text),
            None => Some(owned("URL is not valid utf-8")),
        },
        None => None,
    }
}

// ---------------------------------------------------------------- one_of

/// `parts` joined with `sep` between consecutive parts.
pub open spec fn join(parts: Seq<Seq<char>>, sep: Seq<char>) -> Seq<char>
    decreases parts.len(),
{
    if parts.len() == 0 {
        Seq::<char>::empty()
    } else if parts.len() == 1 {
        parts[0]
    } else {
        join(parts.drop_last(), sep) + sep + parts.last()
    }
}

/// `parts.join(sep)`.
pub fn join_strings(parts: &Vec<String>, sep: &str) -> (r: String)
    ensures
        r@ == join(views(parts@), sep@),
{
    let mut out = String::new();
    let n = parts.len();
    let ghost whole = views(parts@);
    let mut i: usize = 0;
    assert(views(parts@).take(0) =~= Seq::<Seq<char>>::empty());
    while i < n
        invariant
            i <= n == parts.len(),
            whole == views(parts@),
            out@ == join(whole.take(i as int), sep@),
        decreases n - i,
    {
        assert(whole.take(i + 1).drop_last() =~= whole.take(i as int));
        assert(whole.take(i + 1).last() == parts@[i as int]@);
        if i > 0 {
            out.append(sep);
        } else {
            assert(whole.take(1) =~= seq![parts@[0]@]);
            assert(out@ =~= Seq::<char>::empty());
        }
        out.append(parts[i].as_str());
        i += 1;
    }
    assert(whole.take(n as int) =~= whole);
    out
}

pub open spec fn one_of_spec(input: Option<Seq<u8>>, variants: Seq<Seq<char>>) -> Option<Seq<char>> {
    match input {
        None => None,
        Some(b) => match utf8_text(b) {
            None => Some("Selection is not valid utf-8"@),
            Some(text) => if variants.contains(text) {
                None
            } else {
                Some("Expected a selection from: "@ + join(variants, ", "@))
            },
        },
    }
}

/// Whether `text` is one of `variants`.
pub fn contains_str(variants: &Vec<String>, text: &str) -> (r: bool)
    ensures
        r == views(variants@).contains(text@),
{
    let n = variants.len();
    let mut i: usize = 0;
    while i < n
        invariant
            i <= n == variants.len(),
            forall|k: int| 0 <= k < i ==> variants@[k]@ != text@,
        decreases n - i,
    {
        if str_eq(variants[i].as_str(), text) {
            assert(views(variants@)[i as int] == text@);
            return true;
        }
        i += 1;
    }
    assert(!views(variants@).contains(text@)) by {
        if views(variants@).contains(text@) {
            let k = choose|k: int| 0 <= k < views(variants@).len() && views(variants@)[k] == text@;
            assert(variants@[k]@ == text@);
        }
    }
    false
}

/// An absent field passes; a present one must be UTF-8 and equal one of `variants`.
pub fn one_of(input: Option<&Vec<u8>>, variants: &Vec<String>) -> (r: ValidationResult)
    ensures
        message_view(r) == one_of_spec(input_view(input), views(variants@)),
{
    match input {
        Some(input) => match utf8_str(input.as_slice()) {
            Some(text) => {
                if contains_str(variants, text) {
                    None
                } else {
                    let mut msg = owned("Expected a selection from: ");
                    let list = join_strings(variants, ", ");
                    msg.append(list.as_str());
                    Some(msg)
                }
            },
            None => Some(owned("Selection is not valid utf-8")),
        },
        None => None,
    }
}

// ---------------------------------------------------------------- length

pub open spec fn length_spec(input: Option<Seq<u8>>, min: nat, max: nat) -> Option<Seq<char>> {
    match input {
        None => None,
        Some(b) => {
            let length = b.len();
            if max == 0 {
                if length < min {
                    Some("Input too short, expected at least "@ + decimal(min) + " characters"@)
                } else {
                    None
                }
            } else if min == 0 {
                if length > max {
                    Some("Input too long, expected at most "@ + decimal(max) + " characters"@)
                } else {
                    None
                }
            } else if length < min {
                Some(
                    "Input too short, expected between "@ + decimal(min) + " and "@ + decimal(max)
                        + " characters"@,
                )
            } else if length > max {
                Some(
                    "Input too long, expected between "@ + decimal(min) + " and "@ + decimal(max)
                        + " characters"@,
                )
            } else {
                None
            }
        },
    }
}

/// An absent field passes; a present one must hold between `min` and `max` bytes.
/// A `max` of zero means no upper bound, a `min` of zero no lower bound.
pub fn length(input: Option<&Vec<u8>>, min: usize, max: usize) -> (r: ValidationResult)
    ensures
        message_view(r) == length_spec(input_view(input), min as nat, max as nat),
{
    match input {
        Some(input) => {
            let length = input.len();
            if max == 0 {
                if length < min {
                    let mut m = owned("Input too short, expected at least ");
                    push_decimal(&mut m, min);
                    m.append(" characters");
                    Some(m)
                } else {
                    None
                }
            } else if min == 0 {
                if length > max {
                    let mut m = owned("Input too long, expected at most ");
                    push_decimal(&mut m, max);
                    m.append(" characters");
                    Some(m)
                } else {
                    None
                }
            } else if length < min {
                let mut m = owned("Input too short, expected between ");
                push_decimal(&mut m, min);
                m.append(" and ");
                push_decimal(&mut m, max);
                m.append(" characters");
                Some(m)
            } else if length > max {
                let mut m = owned("Input too long, expected between ");
                push_decimal(&mut m, min);
                m.append(" and ");
                push_decimal(&mut m, max);
                m.append(" characters");
                Some(m)
            } else {
                None
            }
        },
        None => None,
    }
}

// ---------------------------------------------------------------- binary units

/// The largest unit index.
pub open spec fn last_unit() -> nat {
    4
}

/// The name of the binary unit with index `p`.
pub open spec fn unit_name(p: nat) -> Seq<char> {
    if p == 0 {
        "B"@
    } else if p == 1 {
        "KiB"@
    } else if p == 2 {
        "MiB"@
    } else if p == 3 {
        "GiB"@
    } else {
        "TiB"@
    }
}

/// Divides `value` by 1024 while it is above 1024 and a larger unit exists;
/// answers the reduced value and the index of its unit.
pub open spec fn binary_prefix_from(value: nat, prefix: nat) -> (nat, nat)
    decreases 4 - prefix,
{
    if value > 1024 && prefix < 4 {
        binary_prefix_from(value / 1024, prefix + 1)
    } else {
        (value, prefix)
    }
}

pub open spec fn binary_prefix(value: nat) -> (nat, Seq<char>) {
    let (v, p) = binary_prefix_from(value, 0);
    (v, unit_name(p))
}

fn unit_str(p: usize) -> (r: &'static str)
    requires
        p <= 4,
    ensures
        r@ == unit_name(p as nat),
{
    if p == 0 {
        "B"
    } else if p == 1 {
        "KiB"
    } else if p == 2 {
        "MiB"
    } else if p == 3 {
        "GiB"
    } else {
        "TiB"
    }
}

/// Sizes in bytes, written in binary units.
#[allow(non_snake_case)]
pub trait BinaryUnit: Sized {
    /// The number of bytes this value stands for.
    spec fn bytes(self) -> nat;

    /// The size in the largest unit (up to TiB) that keeps it above 1024,
    /// with that unit's name.
    fn get_binary_prefix(self) -> (r: (usize, &'static str))
        ensures
            (r.0 as nat, r.1@) == binary_prefix(self.bytes()),
    ;

    fn B(self) -> (r: usize)
        requires
            self.bytes() <= usize::MAX,
        ensures
            r == self.bytes(),
    ;

    fn KiB(self) -> (r: usize)
        requires
            self.bytes() * 1024 <= usize::MAX,
        ensures
            r == self.bytes() * 1024,
    ;

    fn MiB(self) -> (r: usize)
        requires
            self.bytes() * 1024 * 1024 <= usize::MAX,
        ensures
            r == self.bytes() * 1024 * 1024,
    ;

    fn GiB(self) -> (r: usize)
        requires
            self.bytes() * 1024 * 1024 * 1024 <= usize::MAX,
        ensures
            r == self.bytes() * 1024 * 1024 * 1024,
    ;

    fn TiB(self) -> (r: usize)
        requires
            self.bytes() * 1024 * 1024 * 1024 * 1024 <= usize::MAX,
        ensures
            r == self.bytes() * 1024 * 1024 * 1024 * 1024,
    ;
}

#[allow(non_snake_case)]
impl BinaryUnit for usize {
    open spec fn bytes(self) -> nat {
        self as nat
    }

    fn get_binary_prefix(self) -> (r: (usize, &'static str)) {
        let mut prefix: usize = 0;
        let mut value: usize = self;
        while value > 1024 && prefix < 4
            invariant
                prefix <= 4,
                binary_prefix_from(value as nat, prefix as nat) == binary_prefix_from(self as nat, 0),
            decreases 4 - prefix,
        {
            prefix += 1;
            value /= 1024;
        }
        (value, unit_str(prefix))
    }

    fn B(self) -> (r: usize) {
        B(self)
    }

    fn KiB(self) -> (r: usize) {
        KiB(self)
    }

    fn MiB(self) -> (r: usize) {
        MiB(self)
    }

    fn GiB(self) -> (r: usize) {
        GiB(self)
    }

    fn TiB(self) -> (r: usize) {
        TiB(self)
    }
}

#[allow(non_snake_case)]
pub fn B(size: usize) -> (r: usize)
    ensures
        r == size,
{
    size
}

#[allow(non_snake_case)]
pub fn KiB(size: usize) -> (r: usize)
    requires
        size * 1024 <= usize::MAX,
    ensures
        r == size * 1024,
{
    B(size) * 1024
}

#[allow(non_snake_case)]
pub fn MiB(size: usize) -> (r: usize)
    requires
        size * 1024 * 1024 <= usize::MAX,
    ensures
        r == size * 1024 * 1024,
{
    KiB(size) * 1024
}

#[allow(non_snake_case)]
pub fn GiB(size: usize) -> (r: usize)
    requires
        size * 1024 * 1024 * 1024 <= usize::MAX,
    ensures
        r == size * 1024 * 1024 * 1024,
{
    MiB(size) * 1024
}

#[allow(non_snake_case)]
pub fn TiB(size: usize) -> (r: usize)
    requires
        size * 1024 * 1024 * 1024 * 1024 <= usize::MAX,
    ensures
        r == size * 1024 * 1024 * 1024 * 1024,
{
    GiB(size) * 1024
}

// ---------------------------------------------------------------- file_size

/// A size followed directly by its unit, e.g. `5MiB`.
pub open spec fn size_text(n: nat) -> Seq<char> {
    decimal(binary_prefix(n).0) + binary_prefix(n).1
}

pub open spec fn file_size_spec(input: Option<Seq<u8>>, min: nat, max: nat) -> Option<Seq<char>> {
    match input {
        None => None,
        Some(b) => {
            let size = b.len();
            if max == 0 {
                if size < min {
                    Some("File too small, expected at least "@ + size_text(min))
                } else {
                    None
                }
            } else if min == 0 {
                if size > max {
                    Some("File too large, expected at most "@ + size_text(max))
                } else {
                    None
                }
            } else if size < min {
                Some(
                    "File too small, expected between "@ + size_text(min) + " and "@ + size_text(
                        max,
                    ),
                )
            } else if size > max {
                Some(
                    "File too large, expected between "@ + size_text(min) + " and "@ + size_text(
                        max,
                    ),
                )
            } else {
                None
            }
        },
    }
}

fn push_size(out: &mut String, n: usize)
    ensures
        final(out)@ == old(out)@ + size_text(n as nat),
{
    let (v, unit) = n.get_binary_prefix();
    push_decimal(out, v);
    out.append(unit);
    assert(final(out)@ =~= old(out)@ + size_text(n as nat));
}

/// An absent field passes; a present one must hold between `min` and `max` bytes.
/// A `max` of zero means no upper bound, a `min` of zero no lower bound.
/// Sizes in messages are written in binary units.
pub fn file_size(input: Option<&Vec<u8>>, min: usize, max: usize) -> (r: ValidationResult)
    ensures
        message_view(r) == file_size_spec(input_view(input), min as nat, max as nat),
{
    match input {
        Some(input) => {
            let size = input.len();
            if max == 0 {
                if size < min {
                    let mut m = owned("File too small, expected at least ");
                    push_size(&mut m, min);
                    assert(m@ =~= "File too small, expected at least "@ + size_text(min as nat));
                    Some(m)
                } else {
                    None
                }
            } else if min == 0 {
                if size > max {
                    let mut m = owned("File too large, expected at most ");
                    push_size(&mut m, max);
                    Some(m)
                } else {
                    None
                }
            } else if size < min {
                let mut m = owned("File too small, expected between ");
                push_size(&mut m, min);
                m.append(" and ");
                push_size(&mut m, max);
                Some(m)
            } else if size > max {
                let mut m = owned("File too large, expected between ");
                push_size(&mut m, min);
                m.append(" and ");
                push_size(&mut m, max);
                Some(m)
            } else {
                None
            }
        },
        None => None,
    }
}

// ---------------------------------------------------------------- integers

pub open spec fn is_digit(b: u8) -> bool {
    48 <= b <= 57
}

pub open spec fn all_digits(d: Seq<u8>) -> bool {
    forall|i: int| 0 <= i < d.len() ==> #[trigger] is_digit(d[i])
}

/// The number written by the decimal digits `d`.
pub open spec fn digits_value(d: Seq<u8>) -> nat
    decreases d.len(),
{
    if d.len() == 0 {
        0
    } else {
        digits_value(d.drop_last()) * 10 + (d.last() - 48) as nat
    }
}

/// The sign and the digits of an integer literal, as `str::parse` reads them:
/// an optional `+` (or `-` for signed types) that must be followed by something.
pub open spec fn sign_and_digits(b: Seq<u8>, signed: bool) -> Option<(bool, Seq<u8>)> {
    if b.len() == 0 {
        None
    } else if (b[0] == 43 || b[0] == 45) && b.len() == 1 {
        None
    } else if b[0] == 43 {
        Some((false, b.drop_first()))
    } else if b[0] == 45 && signed {
        Some((true, b.drop_first()))
    } else {
        Some((false, b))
    }
}

/// `str::parse::<isize>` on the bytes `b`.
pub open spec fn parse_isize(b: Seq<u8>) -> Option<int> {
    match sign_and_digits(b, true) {
        None => None,
        Some((negative, d)) => if !all_digits(d) {
            None
        } else if negative {
            if -(digits_value(d) as int) >= isize::MIN {
                Some(-(digits_value(d) as int))
            } else {
                None
            }
        } else if digits_value(d) <= isize::MAX {
            Some(digits_value(d) as int)
        } else {
            None
        },
    }
}

/// `str::parse::<usize>` on the bytes `b`.
pub open spec fn parse_usize(b: Seq<u8>) -> Option<int> {
    match sign_and_digits(b, false) {
        None => None,
        Some((_, d)) => if all_digits(d) && digits_value(d) <= usize::MAX {
            Some(digits_value(d) as int)
        } else {
            None
        },
    }
}

proof fn lemma_digits_value_prefix(d: Seq<u8>, k: int)
    requires
        0 <= k <= d.len(),
        all_digits(d),
    ensures
        digits_value(d.take(k)) <= digits_value(d),
    decreases d.len() - k,
{
    if k < d.len() {
        lemma_digits_value_prefix(d, k + 1);
        assert(d.take(k + 1).drop_last() =~= d.take(k));
        assert(is_digit(d[k]));
    } else {
        assert(d.take(k) =~= d);
    }
}

/// Reads the decimal digits `d[from..]` into a number no larger than `limit`;
/// `None` when a byte is not a digit or the number exceeds `limit`.
fn read_digits(d: &[u8], from: usize, limit: usize) -> (r: Option<usize>)
    requires
        from <= d@.len(),
    ensures
        ({
            let ds = d@.skip(from as int);
            match r {
                Some(v) => all_digits(ds) && v == digits_value(ds) && v <= limit,
                None => !(all_digits(ds) && digits_value(ds) <= limit),
            }
        }),
{
    let ghost ds = d@.skip(from as int);
    let n = d.len();
    let mut i = from;
    let mut acc: usize = 0;
    assert(ds.take(0) =~= Seq::<u8>::empty());
    while i < n
        invariant
            from <= i <= n == d@.len(),
            ds == d@.skip(from as int),
            all_digits(ds.take(i - from)),
            acc == digits_value(ds.take(i - from)),
            acc <= limit,
        decreases n - i,
    {
        let b = d[i];
        assert(ds[i - from] == b);
        if b < 48 || b > 57 {
            assert(!is_digit(ds[i - from]));
            return None;
        }
        let ghost next = ds.take(i - from + 1);
        assert(next.drop_last() =~= ds.take(i - from));
        assert(next.last() == b);
        assert(all_digits(next)) by {
            assert forall|k: int| 0 <= k < next.len() implies #[trigger] is_digit(next[k]) by {
                if k < next.len() - 1 {
                    assert(next[k] == ds.take(i - from)[k]);
                }
            }
        }
        let digit = (b - 48) as usize;
        if digit > limit || acc > (limit - digit) / 10 {
            proof {
                if digit <= limit {
                    assert(acc * 10 + digit > limit) by (nonlinear_arith)
                        requires
                            acc > (limit - digit) / 10,
                            digit <= limit,
                    {
                    }
                }
                if all_digits(ds) {
                    lemma_digits_value_prefix(ds, i - from + 1);
                }
            }
            return None;
        }
        proof {
            assert(acc * 10 + digit <= limit) by (nonlinear_arith)
                requires
                    acc <= (limit - digit) / 10,
                    digit <= limit,
            {
            }
        }
        acc = acc * 10 + digit;
        i += 1;
    }
    assert(ds.take(n - from) =~= ds);
    Some(acc)
}

pub open spec fn isize_view(r: Option<isize>) -> Option<int> {
    match r {
        Some(v) => Some(v as int),
        None => None,
    }
}

pub open spec fn usize_view(r: Option<usize>) -> Option<int> {
    match r {
        Some(v) => Some(v as int),
        None => None,
    }
}

/// `str::parse::<isize>` on raw bytes.
pub fn parse_isize_bytes(b: &[u8]) -> (r: Option<isize>)
    ensures
        isize_view(r) == parse_isize(b@),
{
    let n = b.len();
    if n == 0 {
        return None;
    }
    if (b[0] == 43 || b[0] == 45) && n == 1 {
        return None;
    }
    let negative = b[0] == 45;
    let from: usize = if b[0] == 43 || b[0] == 45 { 1 } else { 0 };
    assert(from == 0 ==> b@.skip(0) =~= b@);
    assert(from == 1 ==> b@.skip(1) =~= b@.drop_first());
    if negative {
        let limit: usize = (isize::MAX as usize) + 1;
        match read_digits(b, from, limit) {
            Some(m) => {
                if m == limit {
                    Some(isize::MIN)
                } else {
                    Some(-(m as isize))
                }
            },
            None => None,
        }
    } else {
        match read_digits(b, from, isize::MAX as usize) {
            Some(m) => Some(m as isize),
            None => None,
        }
    }
}

/// `str::parse::<usize>` on raw bytes.
pub fn parse_usize_bytes(b: &[u8]) -> (r: Option<usize>)
    ensures
        usize_view(r) == parse_usize(b@),
{
    let n = b.len();
    if n == 0 {
        return None;
    }
    if (b[0] == 43 || b[0] == 45) && n == 1 {
        return None;
    }
    let from: usize = if b[0] == 43 { 1 } else { 0 };
    assert(from == 0 ==> b@.skip(0) =~= b@);
    assert(from == 1 ==> b@.skip(1) =~= b@.drop_first());
    read_digits(b, from, usize::MAX)
}

pub open spec fn range_message(small: bool, min: Seq<char>, max: Seq<char>) -> Seq<char> {
    if small {
        "Value too small, expected between "@ + min + " and "@ + max
    } else {
        "Value too large, expected between "@ + min + " and "@ + max
    }
}

pub open spec fn irange_spec(input: Option<Seq<u8>>, min: int, max: int) -> Option<Seq<char>> {
    match input {
        None => None,
        Some(b) => match parse_isize(b) {
            None => Some("Expected an integer"@),
            Some(v) => if v < min {
                Some(range_message(true, decimal_int(min), decimal_int(max)))
            } else if v > max {
                Some(range_message(false, decimal_int(min), decimal_int(max)))
            } else {
                None
            },
        },
    }
}

/// An absent field passes; a present one must be an integer between `min` and `max`.
pub fn irange(input: Option<&Vec<u8>>, min: isize, max: isize) -> (r: ValidationResult)
    ensures
        message_view(r) == irange_spec(input_view(input), min as int, max as int),
{
    match input {
        Some(input) => match parse_isize_bytes(input.as_slice()) {
            None => Some(owned("Expected an integer")),
            Some(v) => {
                if v < min {
                    let mut m = owned("Value too small, expected between ");
                    push_decimal_isize(&mut m, min);
                    m.append(" and ");
                    push_decimal_isize(&mut m, max);
                    Some(m)
                } else if v > max {
                    let mut m = owned("Value too large, expected between ");
                    push_decimal_isize(&mut m, min);
                    m.append(" and ");
                    push_decimal_isize(&mut m, max);
                    Some(m)
                } else {
                    None
                }
            },
        },
        None => None,
    }
}

pub open spec fn urange_spec(input: Option<Seq<u8>>, min: nat, max: nat) -> Option<Seq<char>> {
    match input {
        None => None,
        Some(b) => match parse_usize(b) {
            None => Some("Expected an integer"@),
            Some(v) => if v < min {
                Some(range_message(true, decimal(min), decimal(max)))
            } else if v > max {
                Some(range_message(false, decimal(min), decimal(max)))
            } else {
                None
            },
        },
    }
}

/// An absent field passes; a present one must be a non-negative integer between `min` and `max`.
pub fn urange(input: Option<&Vec<u8>>, min: usize, max: usize) -> (r: ValidationResult)
    ensures
        message_view(r) == urange_spec(input_view(input), min as nat, max as nat),
{
    match input {
        Some(input) => match parse_usize_bytes(input.as_slice()) {
            None => Some(owned("Expected an integer")),
            Some(v) => {
                if v < min {
                    let mut m = owned("Value too small, expected between ");
                    push_decimal(&mut m, min);
                    m.append(" and ");
                    push_decimal(&mut m, max);
                    Some(m)
                } else if v > max {
                    let mut m = owned("Value too large, expected between ");
                    push_decimal(&mut m, min);
                    m.append(" and ");
                    push_decimal(&mut m, max);
                    Some(m)
                } else {
                    None
                }
            },
        },
        None => None,
    }
}

} // verus!
