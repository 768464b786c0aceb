//! Character-level text operations used throughout the server:
//! trimming, splitting, comparing, replacing and decimal formatting.
use vstd::prelude::*;

verus! {

/// Unicode `White_Space` property, the set that `char::is_whitespace` tests.
pub open spec fn is_ws(c: char) -> bool {
    ||| ('\u{9}' <= c && c <= '\u{d}')
    ||| c == ' '
    ||| c == '\u{85}'
    ||| c == '\u{a0}'
    ||| c == '\u{1680}'
    ||| ('\u{2000}' <= c && c <= '\u{200a}')
    ||| c == '\u{2028}'
    ||| c == '\u{2029}'
    ||| c == '\u{202f}'
    ||| c == '\u{205f}'
    ||| c == '\u{3000}'
}

/// Which characters a strip operation removes.
#[derive(Clone, Copy, Debug, PartialEq, Eq)]
pub enum Strip {
    /// Unicode whitespace.
    Whitespace,
    /// Exactly the given character.
    Char(char),
}

pub open spec fn strips(class: Strip, c: char) -> bool {
    match class {
        Strip::Whitespace => is_ws(c),
        Strip::Char(d) => c == d,
    }
}

/// `s` without the leading characters of `class`.
pub open spec fn strip_start(s: Seq<char>, class: Strip) -> Seq<char>
    decreases s.len(),
{
    if s.len() > 0 && strips(class, s[0]) {
        strip_start(s.drop_first(), class)
    } else {
        s
    }
}

/// `s` without the trailing characters of `class`.
pub open spec fn strip_end(s: Seq<char>, class: Strip) -> Seq<char>
    decreases s.len(),
{
    if s.len() > 0 && strips(class, s.last()) {
        strip_end(s.drop_last(), class)
    } else {
        s
    }
}

/// `s` without leading and trailing characters of `class`.
pub open spec fn strip(s: Seq<char>, class: Strip) -> Seq<char> {
    strip_end(strip_start(s, class), class)
}

/// `s` without leading and trailing whitespace (`str::trim`).
pub open spec fn trim(s: Seq<char>) -> Seq<char> {
    strip(s, Strip::Whitespace)
}

/// Every character of `s` is whitespace.
pub open spec fn all_ws(s: Seq<char>) -> bool {
    forall|i: int| 0 <= i < s.len() ==> #[trigger] is_ws(s[i])
}

pub fn is_whitespace(c: char) -> (r: bool)
    ensures
        r == is_ws(c),
{
    ('\u{9}' <= c && c <= '\u{d}') || c == ' ' || c == '\u{85}' || c == '\u{a0}' || c == '\u{1680}'
        || ('\u{2000}' <= c && c <= '\u{200a}') || c == '\u{2028}' || c == '\u{2029}' || c
        == '\u{202f}' || c == '\u{205f}' || c == '\u{3000}'
}

fn strips_exec(class: Strip, c: char) -> (r: bool)
    ensures
        r == strips(class, c),
{
    match class {
        Strip::Whitespace => is_whitespace(c),
        Strip::Char(d) => c == d,
    }
}

/// Appends one character to a string (`String::push`).
#[verifier::external_body]
pub(crate) fn push_char(s: &mut String, c: char)
    ensures
        final(s)@ == old(s)@.push(c),
{
    s.push(c);
}

/// The characters of a string slice, in order.
pub fn chars_of(s: &str) -> (r: Vec<char>)
    ensures
        r@ == s@,
{
    let mut out: Vec<char> = Vec::new();
    for c in it: s.chars()
        invariant
            it.seq() == s@,
            out@ == s@.take(it.index() as int),
    {
        out.push(c);
    }
    assert(out@ =~= s@);
    out
}

/// A string made of `v[from..to]`.
pub fn string_of_range(v: &Vec<char>, from: usize, to: usize) -> (r: String)
    requires
        from <= to <= v.len(),
    ensures
        r@ == v@.subrange(from as int, to as int),
{
    let mut out = String::new();
    let mut i = from;
    while i < to
        invariant
            from <= i <= to <= v.len(),
            out@ == v@.subrange(from as int, i as int),
        decreases to - i,
    {
        push_char(&mut out, v[i]);
        i += 1;
        assert(out@ =~= v@.subrange(from as int, i as int));
    }
    out
}

proof fn lemma_strip_start_skip(s: Seq<char>, class: Strip, i: int)
    requires
        0 <= i <= s.len(),
        forall|k: int| 0 <= k < i ==> strips(class, #[trigger] s[k]),
    ensures
        strip_start(s, class) == strip_start(s.skip(i), class),
    decreases i,
{
    if i > 0 {
        assert(s.skip(1) =~= s.drop_first());
        lemma_strip_start_skip(s.drop_first(), class, i - 1);
        assert(s.drop_first().skip(i - 1) =~= s.skip(i));
    } else {
        assert(s.skip(0) =~= s);
    }
}

proof fn lemma_strip_end_take(s: Seq<char>, class: Strip, j: int)
    requires
        0 <= j <= s.len(),
        forall|k: int| j <= k < s.len() ==> strips(class, #[trigger] s[k]),
    ensures
        strip_end(s, class) == strip_end(s.take(j), class),
    decreases s.len() - j,
{
    if j < s.len() {
        lemma_strip_end_take(s.drop_last(), class, j);
        assert(s.drop_last().take(j) =~= s.take(j));
    } else {
        assert(s.take(j) =~= s);
    }
}

/// The positions `from..to` of the characters that remain after stripping `class`.
pub fn strip_bounds(v: &Vec<char>, class: Strip) -> (r: (usize, usize))
    ensures
        r.0 <= r.1 <= v.len(),
        strip(v@, class) == v@.subrange(r.0 as int, r.1 as int),
{
    let n = v.len();
    let mut i: usize = 0;
    while i < n && strips_exec(class, v[i])
        invariant
            i <= n == v.len(),
            forall|k: int| 0 <= k < i ==> strips(class, #[trigger] v@[k]),
        decreases n - i,
    {
        i += 1;
    }
    proof {
        lemma_strip_start_skip(v@, class, i as int);
    }
    let ghost rest = v@.skip(i as int);
    assert(strip_start(rest, class) == rest);
    let mut j: usize = n;
    while j > i && strips_exec(class, v[j - 1])
        invariant
            i <= j <= n == v.len(),
            rest == v@.skip(i as int),
            forall|k: int| j <= k < n ==> strips(class, #[trigger] v@[k]),
        decreases j - i,
    {
        j -= 1;
    }
    proof {
        assert forall|k: int| (j - i) <= k < rest.len() implies strips(class, #[trigger] rest[k]) by {
            assert(rest[k] == v@[k + i]);
        }
        lemma_strip_end_take(rest, class, (j - i) as int);
        assert(rest.take((j - i) as int) =~= v@.subrange(i as int, j as int));
        let t = rest.take((j - i) as int);
        if t.len() > 0 {
            assert(t.last() == v@[j - 1]);
        }
    }
    (i, j)
}

/// `s` with the characters of `class` removed from both ends.
pub fn strip_str(s: &str, class: Strip) -> (r: String)
    ensures
        r@ == strip(s@, class),
{
    let v = chars_of(s);
    let (i, j) = strip_bounds(&v, class);
    string_of_range(&v, i, j)
}

/// `str::trim`.
pub fn trim_str(s: &str) -> (r: String)
    ensures
        r@ == trim(s@),
{
    strip_str(s, Strip::Whitespace)
}

proof fn lemma_strip_start_empty(s: Seq<char>, class: Strip)
    ensures
        strip_start(s, class).len() == 0 <==> (forall|i: int|
            0 <= i < s.len() ==> strips(class, #[trigger] s[i])),
    decreases s.len(),
{
    if s.len() > 0 {
        lemma_strip_start_empty(s.drop_first(), class);
        if strips(class, s[0]) {
            assert forall|i: int|
                (forall|k: int| 0 <= k < s.len() - 1 ==> strips(class, #[trigger] s.drop_first()[k]))
                    && 0 <= i < s.len() implies strips(class, #[trigger] s[i]) by {
                if i > 0 {
                    assert(s[i] == s.drop_first()[i - 1]);
                }
            }
            assert forall|k: int|
                (forall|i: int| 0 <= i < s.len() ==> strips(class, #[trigger] s[i]))
                    && 0 <= k < s.len() - 1 implies strips(class, #[trigger] s.drop_first()[k]) by {
                assert(s.drop_first()[k] == s[k + 1]);
            }
        }
    }
}

proof fn lemma_strip_end_of_nonstripped_start(s: Seq<char>, class: Strip)
    requires
        s.len() > 0,
        !strips(class, s[0]),
    ensures
        strip_end(s, class).len() > 0,
    decreases s.len(),
{
    if strips(class, s.last()) {
        assert(s.len() > 1);
        lemma_strip_end_of_nonstripped_start(s.drop_last(), class);
    }
}

/// The stripped string is empty exactly when every character is stripped.
pub proof fn lemma_strip_empty(s: Seq<char>, class: Strip)
    ensures
        strip(s, class).len() == 0 <==> (forall|i: int|
            0 <= i < s.len() ==> strips(class, #[trigger] s[i])),
{
    lemma_strip_start_empty(s, class);
    lemma_strip_start_prefix_free(s, class);
    let t = strip_start(s, class);
    if t.len() > 0 {
        lemma_strip_end_of_nonstripped_start(t, class);
    }
}

proof fn lemma_strip_start_prefix_free(s: Seq<char>, class: Strip)
    ensures
        strip_start(s, class).len() > 0 ==> !strips(class, strip_start(s, class)[0]),
    decreases s.len(),
{
    if s.len() > 0 && strips(class, s[0]) {
        lemma_strip_start_prefix_free(s.drop_first(), class);
    }
}

/// The trimmed string is empty exactly when every character is whitespace.
pub proof fn lemma_trim_empty(s: Seq<char>)
    ensures
        trim(s).len() == 0 <==> all_ws(s),
{
    lemma_strip_empty(s, Strip::Whitespace);
}

/// `s.trim().is_empty()`.
pub fn is_blank(s: &str) -> (r: bool)
    ensures
        r == (trim(s@).len() == 0),
        r == all_ws(s@),
{
    proof {
        lemma_trim_empty(s@);
    }
    let v = chars_of(s);
    let n = v.len();
    let mut i: usize = 0;
    while i < n
        invariant
            i <= n == v.len(),
            v@ == s@,
            forall|k: int| 0 <= k < i ==> #[trigger] is_ws(v@[k]),
        decreases n - i,
    {
        if !is_whitespace(v[i]) {
            assert(!is_ws(s@[i as int]));
            proof {
                lemma_trim_empty(s@);
            }
            return false;
        }
        i += 1;
    }
    proof {
        lemma_trim_empty(s@);
    }
    true
}

/// String equality on views.
pub fn str_eq(a: &str, b: &str) -> (r: bool)
    ensures
        r == (a@ == b@),
{
    let x = a.to_owned();
    let y = b.to_owned();
    x == y
}

/// `str.to_owned()`.
pub fn owned(s: &str) -> (r: String)
    ensures
        r@ == s@,
{
    s.to_owned()
}


/// The views of a sequence of strings.
pub open spec fn views(v: Seq<String>) -> Seq<Seq<char>> {
    v.map_values(|p: String| p@)
}

/// `str::split(sep)`: the pieces of `s` between occurrences of `sep`, in order.
/// There is always at least one piece.
pub open spec fn split(s: Seq<char>, sep: char) -> Seq<Seq<char>>
    decreases s.len(),
{
    if s.len() == 0 {
        seq![Seq::<char>::empty()]
    } else {
        let init = split(s.drop_last(), sep);
        if s.last() == sep {
            init.push(Seq::<char>::empty())
        } else {
            init.update(init.len() - 1, init.last().push(s.last()))
        }
    }
}

pub proof fn lemma_split_nonempty(s: Seq<char>, sep: char)
    ensures
        split(s, sep).len() >= 1,
    decreases s.len(),
{
    if s.len() > 0 {
        lemma_split_nonempty(s.drop_last(), sep);
    }
}

/// A piece produced by `split` never holds the separator.
pub proof fn lemma_split_pieces_free(s: Seq<char>, sep: char)
    ensures
        forall|k: int, j: int|
            0 <= k < split(s, sep).len() && 0 <= j < split(s, sep)[k].len() ==> split(s, sep)[k][j]
                != sep,
    decreases s.len(),
{
    if s.len() > 0 {
        lemma_split_pieces_free(s.drop_last(), sep);
        lemma_split_nonempty(s.drop_last(), sep);
    }
}

/// Splitting a string without the separator gives the string itself.
pub proof fn lemma_split_free(s: Seq<char>, sep: char)
    requires
        forall|j: int| 0 <= j < s.len() ==> s[j] != sep,
    ensures
        split(s, sep) == seq![s],
    decreases s.len(),
{
    if s.len() > 0 {
        lemma_split_free(s.drop_last(), sep);
        assert(s.drop_last().push(s.last()) =~= s);
    } else {
        assert(s =~= Seq::<char>::empty());
    }
}

/// Splitting `a + [sep] + b` splits `a` and `b` separately.
pub proof fn lemma_split_concat(a: Seq<char>, b: Seq<char>, sep: char)
    ensures
        split(a + seq![sep] + b, sep) == split(a, sep) + split(b, sep),
    decreases b.len(),
{
    let s = a + seq![sep] + b;
    if b.len() == 0 {
        assert(s.drop_last() =~= a);
        assert(split(b, sep) =~= seq![Seq::<char>::empty()]);
        assert(split(a, sep).push(Seq::<char>::empty()) =~= split(a, sep) + split(b, sep));
    } else {
        lemma_split_concat(a, b.drop_last(), sep);
        assert(s.drop_last() =~= a + seq![sep] + b.drop_last());
        lemma_split_nonempty(b.drop_last(), sep);
        lemma_split_nonempty(a, sep);
        let x = split(a, sep);
        let y = split(b.drop_last(), sep);
        if b.last() == sep {
            assert((x + y).push(Seq::<char>::empty()) =~= x + y.push(Seq::<char>::empty()));
        } else {
            assert((x + y).update((x + y).len() - 1, (x + y).last().push(b.last())) =~= x + y.update(
                y.len() - 1,
                y.last().push(b.last()),
            ));
        }
    }
}

/// `s.split(sep)` collected into owned strings.
pub fn split_str(s: &str, sep: char) -> (r: Vec<String>)
    ensures
        views(r@) == split(s@, sep),
{
    let v = chars_of(s);
    let n = v.len();
    let mut pieces: Vec<String> = Vec::new();
    let mut cur = String::new();
    let mut i: usize = 0;
    assert(v@.take(0) =~= Seq::<char>::empty());
    assert(views(pieces@).push(cur@) =~= split(v@.take(0), sep));
    while i < n
        invariant
            i <= n == v.len(),
            v@ == s@,
            views(pieces@).push(cur@) == split(v@.take(i as int), sep),
        decreases n - i,
    {
        let c = v[i];
        let ghost before = views(pieces@).push(cur@);
        proof {
            assert(v@.take(i + 1).drop_last() =~= v@.take(i as int));
            assert(v@.take(i + 1).last() == c);
            lemma_split_nonempty(v@.take(i as int), sep);
        }
        if c == sep {
            let done = cur;
            pieces.push(done);
            cur = String::new();
            assert(views(pieces@).push(cur@) =~= before.push(Seq::<char>::empty()));
        } else {
            push_char(&mut cur, c);
            assert(views(pieces@).push(cur@) =~= before.update(before.len() - 1, before.last().push(c)));
        }
        i += 1;
    }
    pieces.push(cur);
    assert(v@.take(n as int) =~= s@);
    assert(views(pieces@) =~= split(s@, sep));
    pieces
}

/// `s.replace(pat, rep)` for a nonempty pattern: every non-overlapping
/// occurrence of `pat`, found from the left, becomes `rep`.
pub open spec fn replace(s: Seq<char>, pat: Seq<char>, rep: Seq<char>) -> Seq<char>
    decreases s.len(),
{
    if s.len() == 0 {
        Seq::<char>::empty()
    } else if pat.len() > 0 && pat.len() <= s.len() && s.take(pat.len() as int) == pat {
        rep + replace(s.skip(pat.len() as int), pat, rep)
    } else {
        seq![s[0]] + replace(s.drop_first(), pat, rep)
    }
}

fn matches_at(v: &Vec<char>, i: usize, p: &Vec<char>) -> (r: bool)
    requires
        i <= v.len(),
    ensures
        r == (p.len() <= v.len() - i && v@.subrange(i as int, i + p.len()) == p@),
{
    if p.len() > v.len() - i {
        return false;
    }
    let m = p.len();
    let mut k: usize = 0;
    while k < m
        invariant
            m == p.len() <= v.len() - i,
            k <= m,
            forall|j: int| 0 <= j < k ==> v@[i + j] == p@[j],
        decreases m - k,
    {
        if v[i + k] != p[k] {
            assert(v@.subrange(i as int, i + p.len())[k as int] != p@[k as int]);
            return false;
        }
        k += 1;
    }
    assert(v@.subrange(i as int, i + p.len()) =~= p@);
    true
}

/// `s.replace(pat, rep)`.
pub fn replace_str(s: &str, pat: &str, rep: &str) -> (r: String)
    requires
        pat@.len() > 0,
    ensures
        r@ == replace(s@, pat@, rep@),
{
    let v = chars_of(s);
    let p = chars_of(pat);
    let n = v.len();
    let mut out = String::new();
    let mut i: usize = 0;
    assert(v@.skip(0) =~= v@);
    while i < n
        invariant
            i <= n == v.len(),
            v@ == s@,
            p@ == pat@,
            p@.len() > 0,
            replace(s@, pat@, rep@) == out@ + replace(v@.skip(i as int), pat@, rep@),
        decreases n - i,
    {
        let ghost rest = v@.skip(i as int);
        if matches_at(&v, i, &p) {
            assert(rest.take(p@.len() as int) =~= v@.subrange(i as int, i + p.len()));
            assert(rest.skip(p@.len() as int) =~= v@.skip(i + p.len()));
            out.append(pat_rep(rep));
            i += p.len();
        } else {
            assert(rest.take(p@.len() as int) =~= v@.subrange(i as int, i + p.len())
                || p@.len() > rest.len());
            assert(rest.drop_first() =~= v@.skip(i + 1));
            assert(rest[0] == v@[i as int]);
            push_char(&mut out, v[i]);
            i += 1;
        }
    }
    assert(v@.skip(n as int) =~= Seq::<char>::empty());
    assert(out@ + Seq::<char>::empty() =~= out@);
    out
}

#[inline(always)]
fn pat_rep<'a>(rep: &'a str) -> (r: &'a str)
    ensures
        r@ == rep@,
{
    rep
}

/// The decimal digit for `d < 10`.
pub open spec fn digit(d: nat) -> char {
    if d == 0 { '0' }
    else if d == 1 { '1' }
    else if d == 2 { '2' }
    else if d == 3 { '3' }
    else if d == 4 { '4' }
    else if d == 5 { '5' }
    else if d == 6 { '6' }
    else if d == 7 { '7' }
    else if d == 8 { '8' }
    else { '9' }
}

/// The decimal representation of `n`, as `Display` writes it.
pub open spec fn decimal(n: nat) -> Seq<char>
    decreases n,
{
    if n < 10 {
        seq![digit(n)]
    } else {
        decimal(n / 10).push(digit(n % 10))
    }
}

/// The decimal representation of a signed integer.
pub open spec fn decimal_int(x: int) -> Seq<char> {
    if x < 0 {
        seq!['-'] + decimal((-x) as nat)
    } else {
        decimal(x as nat)
    }
}

fn digit_exec(d: usize) -> (c: char)
    requires
        d < 10,
    ensures
        c == digit(d as nat),
{
    if d == 0 { '0' }
    else if d == 1 { '1' }
    else if d == 2 { '2' }
    else if d == 3 { '3' }
    else if d == 4 { '4' }
    else if d == 5 { '5' }
    else if d == 6 { '6' }
    else if d == 7 { '7' }
    else if d == 8 { '8' }
    else { '9' }
}

/// Appends the decimal representation of `n`.
pub fn push_decimal(out: &mut String, n: usize)
    ensures
        final(out)@ == old(out)@ + decimal(n as nat),
    decreases n,
{
    if n >= 10 {
        push_decimal(out, n / 10);
    }
    push_char(out, digit_exec(n % 10));
    proof {
        if n >= 10 {
            assert(old(out)@ + decimal(n as nat) =~= old(out)@ + decimal((n / 10) as nat) + seq![digit((n % 10) as nat)]);
        } else {
            assert(old(out)@ + decimal(n as nat) =~= old(out)@.push(digit((n % 10) as nat)));
        }
    }
}

/// Appends the decimal representation of a signed integer.
pub fn push_decimal_isize(out: &mut String, x: isize)
    ensures
        final(out)@ == old(out)@ + decimal_int(x as int),
{
    if x < 0 {
        push_char(out, '-');
        let m: usize = ((-(x + 1)) as usize) + 1;
        push_decimal(out, m);
        assert(final(out)@ =~= old(out)@ + decimal_int(x as int));
    } else {
        push_decimal(out, x as usize);
    }
}

/// `n.to_string()`.
pub fn decimal_string(n: usize) -> (r: String)
    ensures
        r@ == decimal(n as nat),
{
    let mut out = String::new();
    push_decimal(&mut out, n);
    assert(out@ =~= decimal(n as nat));
    out
}

/// A decimal representation is nonempty and made of digits only.
pub proof fn lemma_decimal_digits(n: nat)
    ensures
        decimal(n).len() >= 1,
        n >= 10 ==> decimal(n).len() >= 2,
        forall|i: int| 0 <= i < decimal(n).len() ==> '0' <= #[trigger] decimal(n)[i] <= '9',
    decreases n,
{
    if n >= 10 {
        lemma_decimal_digits(n / 10);
        let p = decimal(n / 10);
        assert forall|i: int| 0 <= i < decimal(n).len() implies '0' <= #[trigger] decimal(n)[i] <= '9' by {
            if i < p.len() {
                assert(decimal(n)[i] == p[i]);
            }
        }
    }
}

/// Different numbers have different decimal representations.
pub proof fn lemma_decimal_injective(a: nat, b: nat)
    requires
        decimal(a) == decimal(b),
    ensures
        a == b,
    decreases a,
{
    lemma_decimal_digits(a);
    lemma_decimal_digits(b);
    if a >= 10 && b >= 10 {
        assert(decimal(a).drop_last() =~= decimal(a / 10));
        assert(decimal(b).drop_last() =~= decimal(b / 10));
        lemma_decimal_injective(a / 10, b / 10);
        assert(decimal(a).last() == digit(a % 10));
        assert(decimal(b).last() == digit(b % 10));
    } else if a < 10 && b < 10 {
        assert(decimal(a)[0] == digit(a));
        assert(decimal(b)[0] == digit(b));
    }
}

/// Two texts joined at a character that the first parts do not hold split back
/// into the same parts.
pub proof fn lemma_join_unique(x1: Seq<char>, y1: Seq<char>, x2: Seq<char>, y2: Seq<char>, sep: char)
    requires
        x1 + seq![sep] + y1 == x2 + seq![sep] + y2,
        forall|i: int| 0 <= i < x1.len() ==> #[trigger] x1[i] != sep,
        forall|i: int| 0 <= i < x2.len() ==> #[trigger] x2[i] != sep,
    ensures
        x1 == x2,
        y1 == y2,
{
    let s1 = x1 + seq![sep] + y1;
    let s2 = x2 + seq![sep] + y2;
    if x1.len() < x2.len() {
        assert(s1[x1.len() as int] == sep);
        assert(s2[x1.len() as int] == x2[x1.len() as int]);
    } else if x2.len() < x1.len() {
        assert(s2[x2.len() as int] == sep);
        assert(s1[x2.len() as int] == x1[x2.len() as int]);
    }
    assert(x1 =~= s1.take(x1.len() as int));
    assert(x2 =~= s2.take(x2.len() as int));
    assert(y1 =~= s1.skip(x1.len() + 1int));
    assert(y2 =~= s2.skip(x2.len() + 1int));
}

/// The lowercase hexadecimal digit for `d < 16`.
pub open spec fn hex_digit(d: nat) -> char {
    if d < 10 {
        digit(d)
    } else if d == 10 {
        'a'
    } else if d == 11 {
        'b'
    } else if d == 12 {
        'c'
    } else if d == 13 {
        'd'
    } else if d == 14 {
        'e'
    } else {
        'f'
    }
}

/// Two lowercase hexadecimal digits per byte, high half first.
pub open spec fn hex_lower(bytes: Seq<u8>) -> Seq<char>
    decreases bytes.len(),
{
    if bytes.len() == 0 {
        Seq::<char>::empty()
    } else {
        hex_lower(bytes.drop_last()).push(hex_digit((bytes.last() / 16) as nat)).push(
            hex_digit((bytes.last() % 16) as nat),
        )
    }
}

/// `n` in lowercase hexadecimal without leading zeros.
pub open spec fn hex_nat(n: nat) -> Seq<char>
    decreases n,
{
    if n < 16 {
        seq![hex_digit(n)]
    } else {
        hex_nat(n / 16).push(hex_digit(n % 16))
    }
}

fn hex_digit_exec(d: u32) -> (c: char)
    requires
        d < 16,
    ensures
        c == hex_digit(d as nat),
{
    if d == 0 { '0' }
    else if d == 1 { '1' }
    else if d == 2 { '2' }
    else if d == 3 { '3' }
    else if d == 4 { '4' }
    else if d == 5 { '5' }
    else if d == 6 { '6' }
    else if d == 7 { '7' }
    else if d == 8 { '8' }
    else if d == 9 { '9' }
    else if d == 10 { 'a' }
    else if d == 11 { 'b' }
    else if d == 12 { 'c' }
    else if d == 13 { 'd' }
    else if d == 14 { 'e' }
    else { 'f' }
}

/// Appends `n` in lowercase hexadecimal without leading zeros.
fn push_hex_nat(out: &mut String, n: u32)
    ensures
        final(out)@ == old(out)@ + hex_nat(n as nat),
    decreases n,
{
    if n >= 16 {
        push_hex_nat(out, n / 16);
    }
    push_char(out, hex_digit_exec(n % 16));
    proof {
        if n >= 16 {
            assert(old(out)@ + hex_nat(n as nat) =~= old(out)@ + hex_nat((n / 16) as nat) + seq![hex_digit((n % 16) as nat)]);
        } else {
            assert(old(out)@ + hex_nat(n as nat) =~= old(out)@.push(hex_digit((n % 16) as nat)));
        }
    }
}

/// A control character: U+0000 to U+001F and U+007F to U+009F.
pub open spec fn is_control(c: char) -> bool {
    (c as u32) < 0x20 || (0x7f <= (c as u32) && (c as u32) <= 0x9f)
}

/// How `{:?}` writes one character of a string: backslash escapes for `\0`, tab,
/// carriage return, newline, the backslash and the double quote, `\u{..}` for other
/// control characters, and the character itself otherwise.
pub open spec fn debug_char(c: char) -> Seq<char> {
    if c == '\0' {
        seq!['\\', '0']
    } else if c == '\t' {
        seq!['\\', 't']
    } else if c == '\r' {
        seq!['\\', 'r']
    } else if c == '\n' {
        seq!['\\', 'n']
    } else if c == '\\' {
        seq!['\\', '\\']
    } else if c == '"' {
        seq!['\\', '"']
    } else if is_control(c) {
        seq!['\\', 'u', '{'] + hex_nat(c as u32 as nat) + seq!['}']
    } else {
        seq![c]
    }
}

/// The characters of `s` as `{:?}` writes them, without the surrounding quotes.
pub open spec fn debug_escaped(s: Seq<char>) -> Seq<char>
    decreases s.len(),
{
    if s.len() == 0 {
        Seq::empty()
    } else {
        debug_escaped(s.drop_last()) + debug_char(s.last())
    }
}

fn push_debug_char(out: &mut String, c: char)
    ensures
        final(out)@ == old(out)@ + debug_char(c),
{
    let code: u32 = c as u32;
    if c == '\0' {
        push_char(out, '\\');
        push_char(out, '0');
    } else if c == '\t' {
        push_char(out, '\\');
        push_char(out, 't');
    } else if c == '\r' {
        push_char(out, '\\');
        push_char(out, 'r');
    } else if c == '\n' {
        push_char(out, '\\');
        push_char(out, 'n');
    } else if c == '\\' {
        push_char(out, '\\');
        push_char(out, '\\');
    } else if c == '"' {
        push_char(out, '\\');
        push_char(out, '"');
    } else if code < 0x20 || (0x7f <= code && code <= 0x9f) {
        push_char(out, '\\');
        push_char(out, 'u');
        push_char(out, '{');
        push_hex_nat(out, code);
        push_char(out, '}');
    } else {
        push_char(out, c);
    }
    assert(final(out)@ =~= old(out)@ + debug_char(c));
}

/// Appends the characters of `s` as `{:?}` writes them inside its quotes.
pub fn push_debug_escaped(out: &mut String, s: &str)
    ensures
        final(out)@ == old(out)@ + debug_escaped(s@),
{
    let cs = chars_of(s);
    let n = cs.len();
    let mut i: usize = 0;
    let ghost start = out@;
    while i < n
        invariant
            i <= n == cs.len(),
            cs@ == s@,
            out@ == start + debug_escaped(s@.take(i as int)),
        decreases n - i,
    {
        push_debug_char(out, cs[i]);
        assert(s@.take(i + 1).drop_last() =~= s@.take(i as int));
        assert(out@ =~= start + debug_escaped(s@.take(i + 1)));
        i += 1;
    }
    assert(s@.take(n as int) =~= s@);
}

/// A hexadecimal digit as `hex_lower` writes it.
pub open spec fn is_hex_char(c: char) -> bool {
    ('0' <= c && c <= '9') || ('a' <= c && c <= 'f')
}

pub proof fn lemma_hex_lower_chars(bytes: Seq<u8>)
    ensures
        hex_lower(bytes).len() == 2 * bytes.len(),
        forall|i: int| 0 <= i < hex_lower(bytes).len() ==> is_hex_char(#[trigger] hex_lower(bytes)[i]),
    decreases bytes.len(),
{
    if bytes.len() > 0 {
        lemma_hex_lower_chars(bytes.drop_last());
        let prev = hex_lower(bytes.drop_last());
        let hi = (bytes.last() / 16) as nat;
        let lo = (bytes.last() % 16) as nat;
        assert(is_hex_char(hex_digit(hi)));
        assert(is_hex_char(hex_digit(lo)));
        let h = hex_lower(bytes);
        assert(h == prev.push(hex_digit(hi)).push(hex_digit(lo)));
        assert forall|i: int| 0 <= i < h.len() implies is_hex_char(#[trigger] h[i]) by {
            if i < prev.len() {
                assert(h[i] == prev[i]);
            }
        }
    }
}

/// `pat` occurs in `t`.
pub open spec fn occurs(t: Seq<char>, pat: Seq<char>) -> bool {
    exists|p: int| 0 <= p && p + pat.len() <= t.len() && #[trigger] t.subrange(p, p + pat.len()) == pat
}

proof fn lemma_replace_prefix_unchanged(u: Seq<char>, pat: Seq<char>, rep: Seq<char>, j: int)
    requires
        pat.len() > 0,
        rep.len() > 0,
        0 <= j <= replace(u, pat, rep).len(),
        forall|i: int| 0 <= i < j ==> #[trigger] replace(u, pat, rep)[i] != rep[0],
    ensures
        j <= u.len(),
        replace(u, pat, rep).take(j) == u.take(j),
    decreases u.len(),
{
    let t = replace(u, pat, rep);
    if j == 0 {
        assert(t.take(0) =~= u.take(0));
    } else {
        assert(u.len() > 0);
        if pat.len() <= u.len() && u.take(pat.len() as int) == pat {
            assert(t[0] == rep[0]);
        } else {
            let r = replace(u.drop_first(), pat, rep);
            assert(t == seq![u[0]] + r);
            assert forall|i: int| 0 <= i < j - 1 implies #[trigger] r[i] != rep[0] by {
                assert(r[i] == t[i + 1]);
            }
            lemma_replace_prefix_unchanged(u.drop_first(), pat, rep, j - 1);
            assert(t.take(j) =~= seq![u[0]] + r.take(j - 1));
            assert(u.take(j) =~= seq![u[0]] + u.drop_first().take(j - 1));
        }
    }
}

/// Replacing every occurrence leaves none behind, when the replacement cannot
/// start a new one: `pat` does not begin with a character of `rep`, and `rep`
/// does not begin with a character of `pat`.
pub proof fn lemma_replace_removes(s: Seq<char>, pat: Seq<char>, rep: Seq<char>)
    requires
        pat.len() > 0,
        rep.len() > 0,
        forall|i: int| 0 <= i < rep.len() ==> #[trigger] rep[i] != pat[0],
        forall|i: int| 0 <= i < pat.len() ==> #[trigger] pat[i] != rep[0],
    ensures
        !occurs(replace(s, pat, rep), pat),
    decreases s.len(),
{
    let t = replace(s, pat, rep);
    let m = pat.len() as int;
    if s.len() == 0 {
        assert(t.len() == 0);
    } else if pat.len() <= s.len() && s.take(m) == pat {
        let r = replace(s.skip(m), pat, rep);
        lemma_replace_removes(s.skip(m), pat, rep);
        assert(t == rep + r);
        if occurs(t, pat) {
            let p = choose|p: int| 0 <= p && p + pat.len() <= t.len() && #[trigger] t.subrange(p, p + pat.len()) == pat;
            if p < rep.len() {
                assert(t.subrange(p, p + m)[0] == t[p]);
                assert(t[p] == rep[p]);
            } else {
                let q = p - rep.len();
                assert(r.subrange(q, q + m) =~= t.subrange(p, p + m));
            }
        }
    } else {
        let r = replace(s.drop_first(), pat, rep);
        lemma_replace_removes(s.drop_first(), pat, rep);
        assert(t == seq![s[0]] + r);
        if occurs(t, pat) {
            let p = choose|p: int| 0 <= p && p + pat.len() <= t.len() && #[trigger] t.subrange(p, p + pat.len()) == pat;
            if p >= 1 {
                assert(r.subrange(p - 1, p - 1 + m) =~= t.subrange(p, p + m));
            } else {
                assert(r.take(m - 1) =~= pat.skip(1)) by {
                    assert forall|i: int| 0 <= i < m - 1 implies r.take(m - 1)[i] == pat.skip(1)[i] by {
                        assert(t.subrange(0, m)[i + 1] == pat[i + 1]);
                        assert(t[i + 1] == r[i]);
                    }
                }
                assert forall|i: int| 0 <= i < m - 1 implies #[trigger] r[i] != rep[0] by {
                    assert(r.take(m - 1)[i] == pat[i + 1]);
                }
                lemma_replace_prefix_unchanged(s.drop_first(), pat, rep, m - 1);
                assert(s.take(m) =~= pat) by {
                    assert forall|i: int| 0 <= i < m implies s.take(m)[i] == pat[i] by {
                        if i == 0 {
                            assert(t.subrange(0, m)[0] == t[0]);
                        } else {
                            assert(s.drop_first().take(m - 1)[i - 1] == s[i]);
                        }
                    }
                }
            }
        }
    }
}

} // verus!
