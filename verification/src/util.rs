//! Template helpers and submitted form data.
use vstd::prelude::*;
use vstd::utf8::*;

use crate::entries::{entry_named, first_named, lemma_first_named_unique, unique_names, with_entry};
use crate::text::{lemma_decimal_digits, lemma_decimal_injective, lemma_join_unique, lemma_replace_removes, occurs, decimal, is_blank, owned, push_decimal, replace, replace_str, str_eq, trim};
use crate::validator::v::utf8_str;
use crate::validator::{values_view, FieldValues};

verus! {

/// Renders versioned links to static assets.
///
/// * Cold cache resets every minor version change.
/// * Hot cache resets every patch version change.
/// * Both caches reset on major version change.
#[derive(Clone, Copy)]
pub struct AssetHelper {
    pub v_major: usize,
    pub v_minor: usize,
    pub v_patch: usize,
}

pub open spec fn preload_text(type_: Seq<char>, as_: Seq<char>, src: Seq<char>) -> Seq<char> {
    "<link rel='preload' type='"@ + type_ + "' as='"@ + as_ + "' href='"@ + src
        + "' crossorigin='anonymous'>"@
}

/// `major.minor`
pub open spec fn minor_version(h: AssetHelper) -> Seq<char> {
    decimal(h.v_major as nat) + "."@ + decimal(h.v_minor as nat)
}

/// `major.minor.patch`
pub open spec fn patch_version(h: AssetHelper) -> Seq<char> {
    minor_version(h) + "."@ + decimal(h.v_patch as nat)
}

/// A script or link tag for `src` carrying `version` in its query.
pub open spec fn versioned_text(type_: Seq<char>, src: Seq<char>, version: Seq<char>) -> Seq<char> {
    if type_ == "script"@ {
        "<script src='"@ + src + "?v="@ + version + "'></script>"@
    } else {
        "<link rel='"@ + type_ + "' href='"@ + src + "?v="@ + version + "' />"@
    }
}

/// The node the `asset` helper writes, or the helper's error message.
pub open spec fn asset_node(
    h: AssetHelper,
    asset_type: Option<Seq<char>>,
    type_: Option<Seq<char>>,
    as_: Option<Seq<char>>,
    src: Option<Seq<char>>,
) -> Result<Seq<char>, Seq<char>> {
    match asset_type {
        None => Err("asset: specify type: preload | hot | cold"@),
        Some(kind) => if kind == "preload"@ {
            match (type_, as_, src) {
                (None, _, _) => Err("asset: preload: specify 'type' - mime type of asset"@),
                (Some(_), None, _) => Err("asset: preload: specify 'as' - html link 'as'"@),
                (Some(_), Some(_), None) => Err("asset: preload: specify 'src'"@),
                (Some(t), Some(a), Some(s)) => Ok(preload_text(t, a, s)),
            }
        } else if kind == "cold"@ || kind == "hot"@ {
            match (type_, src) {
                (None, _) => Err("asset: hot|cold: specify 'type' - stylesheet | script"@),
                (Some(_), None) => Err("asset: hot|cold: specify 'src'"@),
                (Some(t), Some(s)) => if kind == "cold"@ {
                    Ok(versioned_text(t, s, minor_version(h)))
                } else {
                    Ok(versioned_text(t, s, patch_version(h)))
                },
            }
        } else {
            Err("asset: specify type: preload | hot | cold"@)
        },
    }
}

pub open spec fn str_opt(s: Option<&str>) -> Option<Seq<char>> {
    match s {
        Some(x) => Some(x@),
        None => None,
    }
}

pub open spec fn string_result(r: Result<String, String>) -> Result<Seq<char>, Seq<char>> {
    match r {
        Ok(x) => Ok(x@),
        Err(e) => Err(e@),
    }
}

impl AssetHelper {
    /// Preload asset, is not versioned
    pub fn preload(&self, type_: &str, as_: &str, src: &str) -> (r: String)
        ensures
            r@ == preload_text(type_@, as_@, src@),
    {
        let mut out = owned("<link rel='preload' type='");
        out.append(type_);
        out.append("' as='");
        out.append(as_);
        out.append("' href='");
        out.append(src);
        out.append("' crossorigin='anonymous'>");
        out
    }

    fn versioned(&self, type_: &str, src: &str, with_patch: bool) -> (r: String)
        ensures
            r@ == versioned_text(
                type_@,
                src@,
                if with_patch {
                    patch_version(*self)
                } else {
                    minor_version(*self)
                },
            ),
    {
        let is_script = str_eq(type_, "script");
        let mut out = if is_script {
            owned("<script src='")
        } else {
            let mut o = owned("<link rel='");
            o.append(type_);
            o.append("' href='");
            o
        };
        out.append(src);
        out.append("?v=");
        push_decimal(&mut out, self.v_major);
        out.append(".");
        push_decimal(&mut out, self.v_minor);
        if with_patch {
            out.append(".");
            push_decimal(&mut out, self.v_patch);
        }
        if is_script {
            out.append("'></script>");
        } else {
            out.append("' />");
        }
        out
    }

    /// Cold asset, resets for every Minor version
    pub fn cold(&self, type_: &str, src: &str) -> (r: String)
        ensures
            r@ == versioned_text(type_@, src@, minor_version(*self)),
    {
        self.versioned(type_, src, false)
    }

    /// Hot asset, resets for every Patch version
    pub fn hot(&self, type_: &str, src: &str) -> (r: String)
        ensures
            r@ == versioned_text(type_@, src@, patch_version(*self)),
    {
        self.versioned(type_, src, true)
    }

    /// What `{{asset kind type=.. as=.. src=..}}` writes: the first parameter picks
    /// the kind (`preload`, `cold` or `hot`), the named ones fill the node.
    pub fn node(
        &self,
        asset_type: Option<&str>,
        type_: Option<&str>,
        as_: Option<&str>,
        src: Option<&str>,
    ) -> (r: Result<String, String>)
        ensures
            string_result(r) == asset_node(*self, str_opt(asset_type), str_opt(type_), str_opt(as_), str_opt(src)),
    {
        let kind = match asset_type {
            Some(k) => k,
            None => return Err(owned("asset: specify type: preload | hot | cold")),
        };
        if str_eq(kind, "preload") {
            match (type_, as_, src) {
                (None, _, _) => Err(owned("asset: preload: specify 'type' - mime type of asset")),
                (Some(_), None, _) => Err(owned("asset: preload: specify 'as' - html link 'as'")),
                (Some(_), Some(_), None) => Err(owned("asset: preload: specify 'src'")),
                (Some(t), Some(a), Some(s)) => Ok(self.preload(t, a, s)),
            }
        } else if str_eq(kind, "cold") || str_eq(kind, "hot") {
            match (type_, src) {
                (None, _) => Err(owned("asset: hot|cold: specify 'type' - stylesheet | script")),
                (Some(_), None) => Err(owned("asset: hot|cold: specify 'src'")),
                (Some(t), Some(s)) => {
                    if str_eq(kind, "cold") {
                        Ok(self.cold(t, s))
                    } else {
                        Ok(self.hot(t, s))
                    }
                },
            }
        } else {
            Err(owned("asset: specify type: preload | hot | cold"))
        }
    }
}

proof fn lemma_middle_unique(p: Seq<char>, v1: Seq<char>, v2: Seq<char>, q: Seq<char>)
    requires
        p + v1 + q == p + v2 + q,
    ensures
        v1 == v2,
{
    let s1 = p + v1 + q;
    let s2 = p + v2 + q;
    assert(s1.len() == s2.len());
    assert(v1 =~= s1.subrange(p.len() as int, (p.len() + v1.len()) as int));
    assert(v2 =~= s2.subrange(p.len() as int, (p.len() + v2.len()) as int));
}

/// The version text of a link determines the link and back.
proof fn lemma_versioned_text_unique(type_: Seq<char>, src: Seq<char>, v1: Seq<char>, v2: Seq<char>)
    ensures
        versioned_text(type_, src, v1) == versioned_text(type_, src, v2) <==> v1 == v2,
{
    if versioned_text(type_, src, v1) == versioned_text(type_, src, v2) {
        if type_ == "script"@ {
            lemma_middle_unique("<script src='"@ + src + "?v="@, v1, v2, "'></script>"@);
        } else {
            lemma_middle_unique("<link rel='"@ + type_ + "' href='"@ + src + "?v="@, v1, v2, "' />"@);
        }
    }
}

proof fn lemma_no_dot(n: nat)
    ensures
        forall|i: int| 0 <= i < decimal(n).len() ==> #[trigger] decimal(n)[i] != '.',
{
    lemma_decimal_digits(n);
    assert forall|i: int| 0 <= i < decimal(n).len() implies #[trigger] decimal(n)[i] != '.' by {
        assert('0' <= decimal(n)[i] <= '9');
    }
}

/// `major.minor` names the two numbers it is made of.
proof fn lemma_minor_version_unique(h1: AssetHelper, h2: AssetHelper)
    ensures
        minor_version(h1) == minor_version(h2) <==> (h1.v_major == h2.v_major && h1.v_minor
            == h2.v_minor),
{
    reveal_strlit(".");
    if minor_version(h1) == minor_version(h2) {
        lemma_no_dot(h1.v_major as nat);
        lemma_no_dot(h2.v_major as nat);
        assert(minor_version(h1) =~= decimal(h1.v_major as nat) + seq!['.'] + decimal(h1.v_minor as nat));
        assert(minor_version(h2) =~= decimal(h2.v_major as nat) + seq!['.'] + decimal(h2.v_minor as nat));
        lemma_join_unique(
            decimal(h1.v_major as nat),
            decimal(h1.v_minor as nat),
            decimal(h2.v_major as nat),
            decimal(h2.v_minor as nat),
            '.',
        );
        lemma_decimal_injective(h1.v_major as nat, h2.v_major as nat);
        lemma_decimal_injective(h1.v_minor as nat, h2.v_minor as nat);
    }
}

/// `major.minor.patch` names the three numbers it is made of.
proof fn lemma_patch_version_unique(h1: AssetHelper, h2: AssetHelper)
    ensures
        patch_version(h1) == patch_version(h2) <==> (h1.v_major == h2.v_major && h1.v_minor
            == h2.v_minor && h1.v_patch == h2.v_patch),
{
    reveal_strlit(".");
    if patch_version(h1) == patch_version(h2) {
        lemma_no_dot(h1.v_major as nat);
        lemma_no_dot(h2.v_major as nat);
        lemma_no_dot(h1.v_minor as nat);
        lemma_no_dot(h2.v_minor as nat);
        let d = seq!['.'];
        let (a1, b1, c1) = (decimal(h1.v_major as nat), decimal(h1.v_minor as nat), decimal(h1.v_patch as nat));
        let (a2, b2, c2) = (decimal(h2.v_major as nat), decimal(h2.v_minor as nat), decimal(h2.v_patch as nat));
        assert(patch_version(h1) =~= a1 + d + (b1 + d + c1));
        assert(patch_version(h2) =~= a2 + d + (b2 + d + c2));
        lemma_join_unique(a1, b1 + d + c1, a2, b2 + d + c2, '.');
        lemma_join_unique(b1, c1, b2, c2, '.');
        lemma_decimal_injective(h1.v_major as nat, h2.v_major as nat);
        lemma_decimal_injective(h1.v_minor as nat, h2.v_minor as nat);
        lemma_decimal_injective(h1.v_patch as nat, h2.v_patch as nat);
    }
}

/// The cold link of an asset changes exactly when the major or the minor version
/// does: across patch releases clients keep the copy they cached.
pub proof fn lemma_cold_link_tracks_minor(
    h1: AssetHelper,
    h2: AssetHelper,
    type_: Seq<char>,
    src: Seq<char>,
)
    ensures
        versioned_text(type_, src, minor_version(h1)) == versioned_text(
            type_,
            src,
            minor_version(h2),
        ) <==> (h1.v_major == h2.v_major && h1.v_minor == h2.v_minor),
{
    lemma_versioned_text_unique(type_, src, minor_version(h1), minor_version(h2));
    lemma_minor_version_unique(h1, h2);
}

/// The hot link of an asset changes exactly when any of the major, minor or patch
/// version does.
pub proof fn lemma_hot_link_tracks_patch(
    h1: AssetHelper,
    h2: AssetHelper,
    type_: Seq<char>,
    src: Seq<char>,
)
    ensures
        versioned_text(type_, src, patch_version(h1)) == versioned_text(
            type_,
            src,
            patch_version(h2),
        ) <==> (h1.v_major == h2.v_major && h1.v_minor == h2.v_minor && h1.v_patch
            == h2.v_patch),
{
    lemma_versioned_text_unique(type_, src, patch_version(h1), patch_version(h2));
    lemma_patch_version_unique(h1, h2);
}

/// Embeds the contents of a file into a template.
#[derive(Clone, Copy)]
pub struct EmbedHelper;

pub open spec fn stylesheet_text(src: Seq<char>, body: Seq<char>) -> Seq<char> {
    "<style data-src='"@ + src + "'>\n"@ + body + "\n</style>"@
}

pub open spec fn script_text(src: Seq<char>, body: Seq<char>) -> Seq<char> {
    "<script data-src='"@ + src + "'>\n"@ + replace(body, "</script>"@, "&lt;/script&gt;"@)
        + "\n</script>"@
}

pub open spec fn plain_text(src: Seq<char>, body: Seq<char>) -> Seq<char> {
    "<!-- \\/ "@ + src + " \\/ -->\n"@ + body + "\n<!-- /\\ "@ + src + " /\\ -->"@
}

/// The node the `embed` helper writes for a file `src` holding `body`, or its error.
pub open spec fn embed_node(type_: Option<Seq<char>>, src: Seq<char>, body: Seq<char>) -> Result<
    Seq<char>,
    Seq<char>,
> {
    match type_ {
        None => Ok(plain_text(src, body)),
        Some(t) => if t == "stylesheet"@ {
            Ok(stylesheet_text(src, body))
        } else if t == "script"@ {
            Ok(script_text(src, body))
        } else {
            Err(
                "embed: unknown type `"@ + t
                    + "`, expected: stylesheet | script. Omit type for plain embed"@,
            )
        },
    }
}

impl EmbedHelper {
    pub fn stylesheet(&self, src: &str, body: &str) -> (r: String)
        ensures
            r@ == stylesheet_text(src@, body@),
    {
        let mut out = owned("<style data-src='");
        out.append(src);
        out.append("'>\n");
        out.append(body);
        out.append("\n</style>");
        out
    }

    /// The body's closing script tags are escaped so the script cannot end early.
    pub fn script(&self, src: &str, body: &str) -> (r: String)
        ensures
            r@ == script_text(src@, body@),
    {
        proof {
            reveal_strlit("</script>");
        }
        let escaped = replace_str(body, "</script>", "&lt;/script&gt;");
        let mut out = owned("<script data-src='");
        out.append(src);
        out.append("'>\n");
        out.append(escaped.as_str());
        out.append("\n</script>");
        out
    }

    pub fn plain(&self, src: &str, body: &str) -> (r: String)
        ensures
            r@ == plain_text(src@, body@),
    {
        let mut out = owned("<!-- \\/ ");
        out.append(src);
        out.append(" \\/ -->\n");
        out.append(body);
        out.append("\n<!-- /\\ ");
        out.append(src);
        out.append(" /\\ -->");
        out
    }

    /// What `{{embed type=.. src=..}}` writes once the file `src` has been read as `body`.
    pub fn node(&self, type_: Option<&str>, src: &str, body: &str) -> (r: Result<String, String>)
        ensures
            string_result(r) == embed_node(str_opt(type_), src@, body@),
    {
        match type_ {
            None => Ok(self.plain(src, body)),
            Some(t) => {
                if str_eq(t, "stylesheet") {
                    Ok(self.stylesheet(src, body))
                } else if str_eq(t, "script") {
                    Ok(self.script(src, body))
                } else {
                    let mut e = owned("embed: unknown type `");
                    e.append(t);
                    e.append("`, expected: stylesheet | script. Omit type for plain embed");
                    Err(e)
                }
            },
        }
    }
}

/// Where a request's form is read from.
#[derive(Debug, PartialEq, Eq, Structural)]
pub enum FormSource {
    /// The query string of a `GET` request.
    Query,
    /// An `application/x-www-form-urlencoded` body.
    UrlEncoded,
    /// A `multipart/form-data` body.
    Multipart,
    /// Any other content type: the request is refused as a bad request.
    Unsupported,
}

pub open spec fn form_source_spec(is_get: bool, content_type: Seq<char>) -> FormSource {
    if is_get {
        FormSource::Query
    } else if content_type == "application/x-www-form-urlencoded"@ {
        FormSource::UrlEncoded
    } else if content_type == "multipart/form-data"@ {
        FormSource::Multipart
    } else {
        FormSource::Unsupported
    }
}

/// The message of a request whose content type carries no form.
pub const INVALID_CONTENT_TYPE: &'static str = "invalid content type";

/// Where the form of a request is read from: the query of a `GET` request,
/// otherwise the body by its content type (the media type alone, without
/// parameters).
pub fn form_source(is_get: bool, content_type: &str) -> (r: FormSource)
    ensures
        r == form_source_spec(is_get, content_type@),
{
    if is_get {
        FormSource::Query
    } else if str_eq(content_type, "application/x-www-form-urlencoded") {
        FormSource::UrlEncoded
    } else if str_eq(content_type, "multipart/form-data") {
        FormSource::Multipart
    } else {
        FormSource::Unsupported
    }
}

/// Writes absolute links to pages of the site.
#[derive(Clone, Copy)]
pub struct UrlHelper;

/// A submitted form field: a file's bytes, or text.
pub enum FormField {
    Binary(Vec<u8>),
    String(String),
}

/// The mathematical content of a [`FormField`].
pub enum FieldValue {
    Binary(Seq<u8>),
    Text(Seq<char>),
}

impl View for FormField {
    type V = FieldValue;

    open spec fn view(&self) -> FieldValue {
        match self {
            FormField::Binary(b) => FieldValue::Binary(b@),
            FormField::String(s) => FieldValue::Text(s@),
        }
    }
}

/// The bytes of a field: a file as it is, text in UTF-8.
pub open spec fn field_bytes(f: FieldValue) -> Seq<u8> {
    match f {
        FieldValue::Binary(b) => b,
        FieldValue::Text(s) => encode_utf8(s),
    }
}

impl FormField {
    pub fn binary(&self) -> (r: &[u8])
        ensures
            r@ == field_bytes(self@),
    {
        match self {
            Self::Binary(f) => f.as_slice(),
            Self::String(s) => s.as_str().as_bytes(),
        }
    }

    pub fn string(&self) -> (r: Option<&str>)
        ensures
            match self@ {
                FieldValue::Text(s) => r matches Some(x) && x@ == s,
                FieldValue::Binary(_) => r is None,
            },
    {
        match self {
            Self::String(s) => Some(s.as_str()),
            _ => None,
        }
    }

    pub fn is_file(&self) -> (r: bool)
        ensures
            r == (self@ is Binary),
    {
        match self {
            Self::Binary(_) => true,
            _ => false,
        }
    }

    pub fn is_string(self) -> (r: bool)
        ensures
            r == (self@ is Text),
    {
        !self.is_file()
    }

    /// A copy of this field.
    pub fn duplicate(&self) -> (r: FormField)
        ensures
            r@ == self@,
    {
        match self {
            Self::Binary(b) => Self::Binary(b.clone()),
            Self::String(s) => Self::String(s.clone()),
        }
    }
}

/// Every field of a form as bytes.
pub open spec fn form_bytes(entries: Seq<(Seq<char>, FieldValue)>) -> Seq<(Seq<char>, Seq<u8>)> {
    entries.map_values(|p: (Seq<char>, FieldValue)| (p.0, field_bytes(p.1)))
}

/// Kept by a query string or url-encoded form: text that is not blank.
pub open spec fn kept_by_form(f: FieldValue) -> bool {
    f matches FieldValue::Text(s) && trim(s).len() != 0
}

/// The form built from `pairs` by [`FormData::from_form`].
pub open spec fn form_from_pairs(pairs: Seq<(Seq<char>, FieldValue)>) -> Seq<(Seq<char>, FieldValue)>
    decreases pairs.len(),
{
    if pairs.len() == 0 {
        Seq::empty()
    } else {
        let prev = form_from_pairs(pairs.drop_last());
        let (name, value) = pairs.last();
        if kept_by_form(value) {
            with_entry(prev, name, value)
        } else {
            prev
        }
    }
}

/// How a multipart part changes the form: text parts that are not files are kept
/// unless blank, anything else is kept as bytes unless empty.
pub open spec fn with_part(
    entries: Seq<(Seq<char>, FieldValue)>,
    name: Seq<char>,
    data: Seq<u8>,
    is_file: bool,
) -> Seq<(Seq<char>, FieldValue)> {
    if valid_utf8(data) && !is_file {
        if trim(decode_utf8(data)).len() != 0 {
            with_entry(entries, name, FieldValue::Text(decode_utf8(data)))
        } else {
            entries
        }
    } else if data.len() != 0 {
        with_entry(entries, name, FieldValue::Binary(data))
    } else {
        entries
    }
}

pub open spec fn pairs_view(pairs: Seq<(String, FormField)>) -> Seq<(Seq<char>, FieldValue)> {
    pairs.map_values(|p: (String, FormField)| (p.0@, p.1@))
}

/// Submitted form fields by name; no name occurs twice.
pub struct FormData(Vec<(String, FormField)>);

impl View for FormData {
    type V = Seq<(Seq<char>, FieldValue)>;

    closed spec fn view(&self) -> Self::V {
        pairs_view(self.0@)
    }
}

impl FormData {
    pub closed spec fn wf(&self) -> bool {
        unique_names(self@)
    }

    /// An empty form.
    pub fn new() -> (r: FormData)
        ensures
            r@ == Seq::<(Seq<char>, FieldValue)>::empty(),
            r.wf(),
    {
        let r = FormData(Vec::new());
        assert(r@ =~= Seq::<(Seq<char>, FieldValue)>::empty());
        r
    }

    /// The fields, by name.
    pub fn into_inner(self) -> (r: Vec<(String, FormField)>)
        ensures
            pairs_view(r@) == self@,
    {
        self.0
    }

    /// The field named `name`.
    pub fn get(&self, name: &str) -> (r: Option<&FormField>)
        ensures
            match entry_named(self@, name@) {
                Some(v) => r matches Some(f) && f@ == v,
                None => r is None,
            },
    {
        let n = self.0.len();
        let mut i: usize = 0;
        while i < n
            invariant
                i <= n == self.0.len(),
                forall|k: int| 0 <= k < i ==> #[trigger] self@[k].0 != name@,
            decreases n - i,
        {
            assert(self@[i as int] == (self.0@[i as int].0@, self.0@[i as int].1@));
            if str_eq(self.0[i].0.as_str(), name) {
                proof {
                    assert(first_named(self@, name@, i as int));
                    let k = choose|k: int| first_named(self@, name@, k);
                    assert(k == i) by {
                        if k < i {
                            assert(self@[k].0 != name@);
                        } else if k > i {
                            assert(self@[i as int].0 != name@);
                        }
                    }
                }
                return Some(&self.0[i].1);
            }
            i += 1;
        }
        None
    }

    /// Sets the field `name`, replacing a field of the same name.
    pub fn insert(&mut self, name: String, value: FormField)
        requires
            old(self).wf(),
        ensures
            final(self).wf(),
            final(self)@ == with_entry(old(self)@, name@, value@),
    {
        let ghost before = self@;
        let n = self.0.len();
        let mut i: usize = 0;
        while i < n
            invariant
                i <= n == self.0.len(),
                before == self@,
                before == old(self)@,
                unique_names(before),
                forall|k: int| 0 <= k < i ==> #[trigger] before[k].0 != name@,
            decreases n - i,
        {
            assert(before[i as int] == (self.0@[i as int].0@, self.0@[i as int].1@));
            if str_eq(self.0[i].0.as_str(), name.as_str()) {
                proof {
                    assert(first_named(before, name@, i as int));
                    let k = choose|k: int| first_named(before, name@, k);
                    assert(k == i) by {
                        if k < i {
                            assert(before[k].0 != name@);
                        } else if k > i {
                            assert(before[i as int].0 != name@);
                        }
                    }
                }
                self.0.set(i, (name, value));
                assert(self@ =~= with_entry(before, name@, value@));
                return;
            }
            i += 1;
        }
        self.0.push((name, value));
        assert(self@ =~= with_entry(before, name@, value@));
    }

    /// The form made of the non-blank text fields of a query string or url-encoded
    /// body; files and blank fields are dropped.
    pub fn from_form(pairs: Vec<(String, FormField)>) -> (r: FormData)
        ensures
            r.wf(),
            r@ == form_from_pairs(pairs_view(pairs@)),
    {
        let mut form = FormData::new();
        let n = pairs.len();
        let mut i: usize = 0;
        assert(pairs_view(pairs@).take(0) =~= Seq::<(Seq<char>, FieldValue)>::empty());
        while i < n
            invariant
                i <= n == pairs.len(),
                form.wf(),
                form@ == form_from_pairs(pairs_view(pairs@).take(i as int)),
            decreases n - i,
        {
            let ghost t = pairs_view(pairs@).take(i + 1);
            assert(t.drop_last() =~= pairs_view(pairs@).take(i as int));
            assert(t.last() == (pairs@[i as int].0@, pairs@[i as int].1@));
            match pairs[i].1.string() {
                Some(v) => {
                    if !is_blank(v) {
                        form.insert(pairs[i].0.clone(), FormField::String(v.to_owned()));
                    }
                },
                None => {},
            }
            i += 1;
        }
        assert(pairs_view(pairs@).take(n as int) =~= pairs_view(pairs@));
        form
    }

    /// Adds one part of a multipart body. Text parts that are not files are kept as
    /// text unless blank; other parts are kept as bytes unless empty. A later part
    /// replaces an earlier one of the same name.
    pub fn add_part(&mut self, name: String, data: Vec<u8>, is_file: bool)
        requires
            old(self).wf(),
        ensures
            final(self).wf(),
            final(self)@ == with_part(old(self)@, name@, data@, is_file),
    {
        let text = match utf8_str(data.as_slice()) {
            Some(t) => {
                if !is_file {
                    Some(owned(t))
                } else {
                    None
                }
            },
            None => None,
        };
        match text {
            Some(t) => {
                if !is_blank(t.as_str()) {
                    self.insert(name, FormField::String(t));
                }
            },
            None => {
                if data.len() != 0 {
                    self.insert(name, FormField::Binary(data));
                }
            },
        }
    }

    /// Every field as bytes (text in UTF-8), for checking with a
    /// [`crate::validator::Validator`].
    pub fn values(&self) -> (r: FieldValues)
        ensures
            values_view(r@) == form_bytes(self@),
    {
        let mut out: FieldValues = Vec::new();
        let n = self.0.len();
        let mut i: usize = 0;
        while i < n
            invariant
                i <= n == self.0.len(),
                out@.len() == i,
                forall|k: int|
                    0 <= k < i ==> (#[trigger] out@[k]).0@ == self@[k].0 && out@[k].1@
                        == field_bytes(self@[k].1),
            decreases n - i,
        {
            assert(self@[i as int] == (self.0@[i as int].0@, self.0@[i as int].1@));
            let bytes = vstd::slice::slice_to_vec(self.0[i].1.binary());
            out.push((self.0[i].0.clone(), bytes));
            i += 1;
        }
        assert(values_view(out@) =~= form_bytes(self@));
        out
    }

    /// The text of field `name`, or the empty string when it is absent or a file.
    pub fn text_or_empty(&self, name: &str) -> (r: String)
        ensures
            r@ == match entry_named(self@, name@) {
                Some(FieldValue::Text(t)) => t,
                _ => Seq::<char>::empty(),
            },
    {
        proof {
            reveal_strlit("");
        }
        match self.get(name) {
            Some(f) => match f.string() {
                Some(t) => owned(t),
                None => owned(""),
            },
            None => owned(""),
        }
    }
}

/// Why converting form data into a typed request failed.
pub enum RemapError {
    SerializationError(String),
    DeserializationError(String),
}

pub open spec fn remap_error_text(e: RemapError) -> Seq<char> {
    match e {
        RemapError::SerializationError(m) => "Serialization error: "@ + m@,
        RemapError::DeserializationError(m) => "Deserialization error: "@ + m@,
    }
}

impl RemapError {
    /// The error's description (its `Display`).
    pub fn describe(&self) -> (r: String)
        ensures
            r@ == remap_error_text(*self),
    {
        match self {
            RemapError::SerializationError(m) => {
                let mut out = owned("Serialization error: ");
                out.append(m.as_str());
                out
            },
            RemapError::DeserializationError(m) => {
                let mut out = owned("Deserialization error: ");
                out.append(m.as_str());
                out
            },
        }
    }
}

/// Every value of `entries` satisfies `kept_by_form`.
pub open spec fn all_kept(entries: Seq<(Seq<char>, FieldValue)>) -> bool {
    forall|k: int| 0 <= k < entries.len() ==> kept_by_form(#[trigger] entries[k].1)
}

proof fn lemma_with_entry_values<T>(entries: Seq<(Seq<char>, T)>, name: Seq<char>, value: T, k: int)
    requires
        0 <= k < with_entry(entries, name, value).len(),
    ensures
        with_entry(entries, name, value)[k].1 == value || (k < entries.len()
            && with_entry(entries, name, value)[k].1 == entries[k].1),
{
}

/// A form read from a query string or an url-encoded body holds only text fields
/// that are not blank.
pub proof fn lemma_form_fields_not_blank(pairs: Seq<(Seq<char>, FieldValue)>)
    ensures
        all_kept(form_from_pairs(pairs)),
    decreases pairs.len(),
{
    if pairs.len() > 0 {
        lemma_form_fields_not_blank(pairs.drop_last());
        let prev = form_from_pairs(pairs.drop_last());
        let (name, value) = pairs.last();
        if kept_by_form(value) {
            let e = with_entry(prev, name, value);
            assert forall|k: int| 0 <= k < e.len() implies kept_by_form(#[trigger] e[k].1) by {
                lemma_with_entry_values(prev, name, value, k);
            }
        }
    }
}

/// The value a multipart part carries: text for a part that is not a file and is
/// valid UTF-8, its bytes otherwise.
pub open spec fn part_value(data: Seq<u8>, is_file: bool) -> FieldValue {
    if valid_utf8(data) && !is_file {
        FieldValue::Text(decode_utf8(data))
    } else {
        FieldValue::Binary(data)
    }
}

/// A multipart field is kept when its text is not blank or its bytes not empty.
pub open spec fn kept_part(f: FieldValue) -> bool {
    match f {
        FieldValue::Text(t) => trim(t).len() != 0,
        FieldValue::Binary(b) => b.len() != 0,
    }
}

/// The form built from the parts (name, bytes, whether it is a file) of a
/// multipart body, one [`FormData::add_part`] after another.
pub open spec fn form_from_parts(parts: Seq<(Seq<char>, Seq<u8>, bool)>) -> Seq<(Seq<char>, FieldValue)>
    decreases parts.len(),
{
    if parts.len() == 0 {
        Seq::empty()
    } else {
        let (name, data, is_file) = parts.last();
        with_part(form_from_parts(parts.drop_last()), name, data, is_file)
    }
}

/// Part `k` is kept and named `name`.
pub open spec fn kept_part_named(parts: Seq<(Seq<char>, Seq<u8>, bool)>, k: int, name: Seq<char>) -> bool {
    parts[k].0 == name && kept_part(part_value(parts[k].1, parts[k].2))
}

/// A multipart form holds, for each name, the value of the last kept part of that
/// name, and only kept values: no blank text and no empty bytes.
pub proof fn lemma_multipart_form(parts: Seq<(Seq<char>, Seq<u8>, bool)>, name: Seq<char>)
    ensures
        ({
            let form = form_from_parts(parts);
            &&& forall|k: int| 0 <= k < form.len() ==> kept_part(#[trigger] form[k].1)
            &&& (entry_named(form, name) is Some <==> exists|k: int|
                0 <= k < parts.len() && #[trigger] kept_part_named(parts, k, name))
            &&& (entry_named(form, name) matches Some(v) ==> exists|k: int|
                0 <= k < parts.len() && #[trigger] kept_part_named(parts, k, name)
                    && v == part_value(parts[k].1, parts[k].2) && forall|j: int|
                    k < j < parts.len() ==> !#[trigger] kept_part_named(parts, j, name))
        }),
    decreases parts.len(),
{
    let form = form_from_parts(parts);
    if parts.len() == 0 {
        assert(!(exists|k: int| crate::entries::first_named(form, name, k)));
    } else {
        let d = parts.drop_last();
        let n = parts.len() - 1;
        let prev = form_from_parts(d);
        lemma_multipart_form(d, name);
        let (pname, data, is_file) = parts.last();
        let value = part_value(data, is_file);
        assert(parts[n] == parts.last());
        assert forall|k: int| 0 <= k < n implies #[trigger] kept_part_named(parts, k, name)
            == kept_part_named(d, k, name) by {
            assert(parts[k] == d[k]);
        }
        if kept_part(value) {
            assert(form == with_entry(prev, pname, value));
            assert forall|k: int| 0 <= k < form.len() implies kept_part(#[trigger] form[k].1) by {
                lemma_with_entry_values(prev, pname, value, k);
            }
            if pname == name {
                crate::entries::lemma_entry_named_with_entry_same(prev, pname, value);
                assert(kept_part_named(parts, n, name));
            } else {
                crate::entries::lemma_entry_named_with_entry_other(prev, pname, value, name);
                assert(!kept_part_named(parts, n, name));
            }
        } else {
            assert(form == prev);
            assert(!kept_part_named(parts, n, name));
        }
        if !kept_part_named(parts, n, name) {
            assert(entry_named(form, name) == entry_named(prev, name));
            if entry_named(form, name) is Some {
                let v = entry_named(form, name)->0;
                let k = choose|k: int|
                    0 <= k < d.len() && #[trigger] kept_part_named(d, k, name)
                        && v == part_value(d[k].1, d[k].2) && forall|j: int|
                        k < j < d.len() ==> !#[trigger] kept_part_named(d, j, name);
                assert(parts[k] == d[k]);
                assert(kept_part_named(parts, k, name));
                assert forall|j: int| k < j < parts.len() implies !#[trigger] kept_part_named(parts, j, name) by {
                    if j < n {
                        assert(kept_part_named(parts, j, name) == kept_part_named(d, j, name));
                    }
                }
            } else {
                assert forall|k: int| 0 <= k < parts.len() implies !#[trigger] kept_part_named(parts, k, name) by {
                    if k < n {
                        assert(kept_part_named(parts, k, name) == kept_part_named(d, k, name));
                    }
                }
            }
        }
    }
}

proof fn lemma_window(x: Seq<char>, y: Seq<char>, z: Seq<char>, p: int, n: int)
    requires
        0 <= n,
        x.len() <= p,
        p + n <= x.len() + y.len(),
    ensures
        (x + y + z).subrange(p, p + n) == y.subrange(p - x.len(), p - x.len() + n),
{
    assert((x + y + z).subrange(p, p + n) =~= y.subrange(p - x.len(), p - x.len() + n));
}

/// An embedded script cannot end before its closing tag: its body holds no
/// `</script>`.
pub proof fn lemma_script_body_closed(body: Seq<char>)
    ensures
        !occurs(replace(body, "</script>"@, "&lt;/script&gt;"@), "</script>"@),
{
    reveal_strlit("</script>");
    reveal_strlit("&lt;/script&gt;");
    let pat = "</script>"@;
    let rep = "&lt;/script&gt;"@;
    assert(pat =~= seq!['<', '/', 's', 'c', 'r', 'i', 'p', 't', '>']);
    assert(rep =~= seq!['&', 'l', 't', ';', '/', 's', 'c', 'r', 'i', 'p', 't', '&', 'g', 't', ';']);
    lemma_replace_removes(body, pat, rep);
}


/// An embedded script has exactly one `</script>`, its own closing tag at the end,
/// when the file name holds none: the body cannot close it early.
pub proof fn lemma_script_closes_once(src: Seq<char>, body: Seq<char>)
    requires
        !occurs(src, "</script>"@),
    ensures
        ({
            let t = script_text(src, body);
            &&& t.len() >= 9
            &&& t.subrange(t.len() - 9, t.len() as int) == "</script>"@
            &&& forall|p: int|
                0 <= p && p + 9 <= t.len() && #[trigger] t.subrange(p, p + 9) == "</script>"@
                    ==> p == t.len() - 9
        }),
{
    reveal_strlit("</script>");
    reveal_strlit("<script data-src='");
    reveal_strlit("'>\n");
    reveal_strlit("\n</script>");
    reveal_strlit("&lt;/script&gt;");
    let pat = "</script>"@;
    assert(pat =~= seq!['<', '/', 's', 'c', 'r', 'i', 'p', 't', '>']);
    let a = "<script data-src='"@;
    assert(a =~= seq!['<', 's', 'c', 'r', 'i', 'p', 't', ' ', 'd', 'a', 't', 'a', '-', 's', 'r', 'c', '=', '\'']);
    let b = "'>\n"@;
    assert(b =~= seq!['\'', '>', '\n']);
    let c = "\n</script>"@;
    assert(c =~= seq!['\n', '<', '/', 's', 'c', 'r', 'i', 'p', 't', '>']);
    let e = replace(body, pat, "&lt;/script&gt;"@);
    lemma_script_body_closed(body);
    let t = script_text(src, body);
    assert(t =~= a + src + b + e + c);
    let n = t.len();
    let la = a.len() as int;
    let ls = src.len() as int;
    let le = e.len() as int;
    assert(n == la + ls + 3 + le + 10);
    assert(t.subrange(n - 9, n as int) =~= pat);
    assert forall|k: int| 0 <= k < 9 implies pat[k] != '\'' && pat[k] != '\n' && (k > 0 ==> pat[k] != '<') by {
        if k == 0 {} else if k == 1 {} else if k == 2 {} else if k == 3 {} else if k == 4 {}
        else if k == 5 {} else if k == 6 {} else if k == 7 {} else {}
    }
    assert forall|p: int|
        0 <= p && p + 9 <= n && #[trigger] t.subrange(p, p + 9) == pat implies p == n - 9 by {
        let w = t.subrange(p, p + 9);
        assert(t[p] == w[0]);
        assert(t[p] == '<');
        if p < la {
            assert(t[p] == a[p]);
            if p == 0 {
                assert(t[1] == a[1]);
                assert(w[1] == t[1]);
            }
        } else if p < la + ls {
            if p + 9 <= la + ls {
                lemma_window(a, src, b + e + c, p, 9);
                assert(a + src + (b + e + c) =~= t);
                assert(src.subrange(p - la, p - la + 9) == pat);
            } else {
                let q = la + ls;
                assert(t[q] == '\'');
                assert(w[q - p] == t[q]);
            }
        } else if p < la + ls + 3 {
            assert(t[p] == b[p - la - ls]);
        } else if p < la + ls + 3 + le {
            if p + 9 <= la + ls + 3 + le {
                lemma_window(a + src + b, e, c, p, 9);
                assert(e.subrange(p - (la + ls + 3), p - (la + ls + 3) + 9) == pat);
            } else {
                let q = la + ls + 3 + le;
                assert(t[q] == '\n');
                assert(w[q - p] == t[q]);
            }
        } else {
            assert(t[p] == c[p - (la + ls + 3 + le)]);
        }
    }
}


/// What the `asset` helper writes, stated with its literal text: a preload link
/// carries the given type, `as` and source each in its own attribute; a cold link
/// carries `major.minor`, a hot one `major.minor.patch`, as a script tag for the
/// type `script` and a link of that `rel` otherwise; a kind without its required
/// attributes, or an unknown kind, is an error.
pub proof fn lemma_asset_node_text(
    h: AssetHelper,
    t: Seq<char>,
    a: Seq<char>,
    s: Seq<char>,
    as_opt: Option<Seq<char>>,
    kind: Seq<char>,
)
    ensures
        asset_node(h, Some("preload"@), Some(t), Some(a), Some(s)) == Ok::<Seq<char>, Seq<char>>(
            "<link rel='preload' type='"@ + t + "' as='"@ + a + "' href='"@ + s
                + "' crossorigin='anonymous'>"@,
        ),
        asset_node(h, Some("cold"@), Some(t), as_opt, Some(s)) == Ok::<Seq<char>, Seq<char>>(
            if t == "script"@ {
                "<script src='"@ + s + "?v="@ + decimal(h.v_major as nat) + "."@ + decimal(
                    h.v_minor as nat,
                ) + "'></script>"@
            } else {
                "<link rel='"@ + t + "' href='"@ + s + "?v="@ + decimal(h.v_major as nat) + "."@
                    + decimal(h.v_minor as nat) + "' />"@
            },
        ),
        asset_node(h, Some("hot"@), Some(t), as_opt, Some(s)) == Ok::<Seq<char>, Seq<char>>(
            if t == "script"@ {
                "<script src='"@ + s + "?v="@ + decimal(h.v_major as nat) + "."@ + decimal(
                    h.v_minor as nat,
                ) + "."@ + decimal(h.v_patch as nat) + "'></script>"@
            } else {
                "<link rel='"@ + t + "' href='"@ + s + "?v="@ + decimal(h.v_major as nat) + "."@
                    + decimal(h.v_minor as nat) + "."@ + decimal(h.v_patch as nat) + "' />"@
            },
        ),
        asset_node(h, Some("preload"@), None, as_opt, Some(s)) is Err,
        asset_node(h, Some("preload"@), Some(t), None, Some(s)) is Err,
        asset_node(h, Some("preload"@), Some(t), as_opt, None) is Err,
        asset_node(h, Some("cold"@), None, as_opt, Some(s)) is Err,
        asset_node(h, Some("hot"@), Some(t), as_opt, None) is Err,
        kind != "preload"@ && kind != "cold"@ && kind != "hot"@ ==> asset_node(
            h,
            Some(kind),
            Some(t),
            Some(a),
            Some(s),
        ) == Err::<Seq<char>, Seq<char>>("asset: specify type: preload | hot | cold"@),
        asset_node(h, None, Some(t), Some(a), Some(s)) is Err,
{
    reveal_strlit("preload");
    reveal_strlit("cold");
    reveal_strlit("hot");
    assert("preload"@ != "cold"@) by {
        assert("preload"@.len() != "cold"@.len());
    }
    assert("preload"@ != "hot"@) by {
        assert("preload"@.len() != "hot"@.len());
    }
    assert("cold"@ != "hot"@) by {
        assert("cold"@.len() != "hot"@.len());
    }
    let hot_v = patch_version(h);
    assert(hot_v =~= decimal(h.v_major as nat) + "."@ + decimal(h.v_minor as nat) + "."@ + decimal(
        h.v_patch as nat,
    ));
    if t == "script"@ {
        assert(versioned_text(t, s, minor_version(h)) =~= "<script src='"@ + s + "?v="@ + decimal(
            h.v_major as nat,
        ) + "."@ + decimal(h.v_minor as nat) + "'></script>"@);
        assert(versioned_text(t, s, hot_v) =~= "<script src='"@ + s + "?v="@ + decimal(
            h.v_major as nat,
        ) + "."@ + decimal(h.v_minor as nat) + "."@ + decimal(h.v_patch as nat) + "'></script>"@);
    } else {
        assert(versioned_text(t, s, minor_version(h)) =~= "<link rel='"@ + t + "' href='"@ + s
            + "?v="@ + decimal(h.v_major as nat) + "."@ + decimal(h.v_minor as nat) + "' />"@);
        assert(versioned_text(t, s, hot_v) =~= "<link rel='"@ + t + "' href='"@ + s + "?v="@
            + decimal(h.v_major as nat) + "."@ + decimal(h.v_minor as nat) + "."@ + decimal(
            h.v_patch as nat,
        ) + "' />"@);
    }
}

/// What the `embed` helper writes around a file's body, stated with its literal
/// text: a style tag for `stylesheet`, a script tag (with the body's closing tags
/// escaped) for `script`, comment markers naming the file when no type is given,
/// and an error naming any other type.
pub proof fn lemma_embed_node_text(t: Seq<char>, src: Seq<char>, body: Seq<char>)
    ensures
        embed_node(Some("stylesheet"@), src, body) == Ok::<Seq<char>, Seq<char>>(
            "<style data-src='"@ + src + "'>\n"@ + body + "\n</style>"@,
        ),
        embed_node(Some("script"@), src, body) == Ok::<Seq<char>, Seq<char>>(
            "<script data-src='"@ + src + "'>\n"@ + replace(body, "</script>"@, "&lt;/script&gt;"@)
                + "\n</script>"@,
        ),
        embed_node(None, src, body) == Ok::<Seq<char>, Seq<char>>(
            "<!-- \\/ "@ + src + " \\/ -->\n"@ + body + "\n<!-- /\\ "@ + src + " /\\ -->"@,
        ),
        t != "stylesheet"@ && t != "script"@ ==> embed_node(Some(t), src, body) == Err::<
            Seq<char>,
            Seq<char>,
        >("embed: unknown type `"@ + t + "`, expected: stylesheet | script. Omit type for plain embed"@),
{
    reveal_strlit("stylesheet");
    reveal_strlit("script");
    assert("stylesheet"@ != "script"@) by {
        assert("stylesheet"@.len() != "script"@.len());
    }
}


/// Pair `k` is named `name` and carries text that is not blank.
pub open spec fn text_pair_named(pairs: Seq<(Seq<char>, FieldValue)>, k: int, name: Seq<char>) -> bool {
    &&& pairs[k].0 == name
    &&& pairs[k].1 is Text
    &&& trim(pairs[k].1->Text_0).len() != 0
}

/// A query string or url-encoded form keeps, for each name, the text of the last
/// pair of that name whose text is not blank, whatever its length; a name has a
/// field exactly when such a pair exists; blank text and files are dropped, and
/// every field kept is text that is not blank.
pub proof fn lemma_form_from_pairs(pairs: Seq<(Seq<char>, FieldValue)>, name: Seq<char>)
    ensures
        ({
            let form = form_from_pairs(pairs);
            &&& forall|k: int|
                0 <= k < form.len() ==> (#[trigger] form[k].1 is Text && trim(
                    form[k].1->Text_0,
                ).len() != 0)
            &&& (entry_named(form, name) is Some <==> exists|k: int|
                0 <= k < pairs.len() && #[trigger] text_pair_named(pairs, k, name))
            &&& (entry_named(form, name) matches Some(v) ==> exists|k: int|
                0 <= k < pairs.len() && #[trigger] text_pair_named(pairs, k, name) && v
                    == pairs[k].1 && forall|j: int|
                    k < j < pairs.len() ==> !#[trigger] text_pair_named(pairs, j, name))
        }),
    decreases pairs.len(),
{
    let form = form_from_pairs(pairs);
    lemma_form_fields_not_blank(pairs);
    assert forall|k: int| 0 <= k < form.len() implies (#[trigger] form[k].1 is Text && trim(
        form[k].1->Text_0,
    ).len() != 0) by {
        assert(kept_by_form(form[k].1));
    }
    if pairs.len() == 0 {
        assert(!(exists|k: int| crate::entries::first_named(form, name, k)));
    } else {
        let d = pairs.drop_last();
        let n = pairs.len() - 1;
        let prev = form_from_pairs(d);
        lemma_form_from_pairs(d, name);
        let (pname, value) = pairs.last();
        assert(pairs[n] == pairs.last());
        assert forall|k: int| 0 <= k < n implies #[trigger] text_pair_named(pairs, k, name)
            == text_pair_named(d, k, name) by {
            assert(pairs[k] == d[k]);
        }
        assert(kept_by_form(value) == (value is Text && trim(value->Text_0).len() != 0));
        if kept_by_form(value) {
            assert(form == with_entry(prev, pname, value));
            if pname == name {
                crate::entries::lemma_entry_named_with_entry_same(prev, pname, value);
                assert(text_pair_named(pairs, n, name));
            } else {
                crate::entries::lemma_entry_named_with_entry_other(prev, pname, value, name);
                assert(!text_pair_named(pairs, n, name));
            }
        } else {
            assert(form == prev);
            assert(!text_pair_named(pairs, n, name));
        }
        if !text_pair_named(pairs, n, name) {
            assert(entry_named(form, name) == entry_named(prev, name));
            if entry_named(form, name) is Some {
                let v = entry_named(form, name)->0;
                let k = choose|k: int|
                    0 <= k < d.len() && #[trigger] text_pair_named(d, k, name) && v == d[k].1
                        && forall|j: int| k < j < d.len() ==> !#[trigger] text_pair_named(d, j, name);
                assert(pairs[k] == d[k]);
                assert(text_pair_named(pairs, k, name));
                assert forall|j: int| k < j < pairs.len() implies !#[trigger] text_pair_named(pairs, j, name) by {
                    if j < n {
                        assert(text_pair_named(pairs, j, name) == text_pair_named(d, j, name));
                    }
                }
            } else {
                assert forall|k: int| 0 <= k < pairs.len() implies !#[trigger] text_pair_named(pairs, k, name) by {
                    if k < n {
                        assert(text_pair_named(pairs, k, name) == text_pair_named(d, k, name));
                    }
                }
            }
        }
    }
}

} // verus!
