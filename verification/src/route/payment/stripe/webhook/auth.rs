//! Authentication of Stripe webhook calls by their `Stripe-Signature` header.
//! See <https://stripe.com/docs/webhooks/signatures>.
use vstd::prelude::*;
use vstd::utf8::*;

use hmac::{Hmac, Mac, NewMac};
use sha2::Sha256;

use crate::entries::{first_named, entries_view, entry_named, get_entry, insert_entry, unique_names, with_entry};
use crate::route::{outcome, EndpointProcessingError, Failure};
use crate::text::{chars_of, hex_lower, is_hex_char, lemma_hex_lower_chars, owned, split, split_str, trim, trim_str, views};

verus! {

/// An HMAC-SHA256 computation in progress (`hmac::Hmac<sha2::Sha256>`). Verus cannot
/// declare that type (its bounds name traits of the `digest` crate), so it is held
/// here, opaque; the names below say what it holds.
#[verifier::external_body]
pub struct MacState {
    inner: Hmac<Sha256>,
}

/// The key an HMAC-SHA256 state was made with.
pub uninterp spec fn mac_key(state: MacState) -> Seq<u8>;

/// The bytes fed to an HMAC-SHA256 state so far.
pub uninterp spec fn mac_message(state: MacState) -> Seq<u8>;

/// The HMAC-SHA256 tag of `message` under `key`.
pub uninterp spec fn hmac_sha256(key: Seq<u8>, message: Seq<u8>) -> Seq<u8>;

/// Calls `<Hmac<Sha256> as NewMac>::new_varkey`, which accepts keys of any length
/// (longer ones are hashed first) and so never fails. Trusted: the new state holds
/// `key` and has been fed nothing.
#[verifier::external_body]
fn hmac_new(key: &[u8]) -> (r: MacState)
    ensures
        mac_key(r) == key@,
        mac_message(r) == Seq::<u8>::empty(),
{
    MacState { inner: Hmac::<Sha256>::new_varkey(key).expect("HMAC can take key of any size") }
}

/// Calls `Mac::update`. Trusted: the state keeps its key and `data` is appended
/// to the bytes fed so far.
#[verifier::external_body]
fn hmac_update(state: &mut MacState, data: &[u8])
    ensures
        mac_key(*final(state)) == mac_key(*old(state)),
        mac_message(*final(state)) == mac_message(*old(state)) + data@,
{
    state.inner.update(data);
}

/// Calls `Mac::finalize` and takes the tag's bytes. Trusted: the tag is the one named
/// `hmac_sha256` for the state's key and fed bytes, and is 32 bytes long (SHA-256's
/// output size); HMAC and SHA-256 themselves are not written out.
#[verifier::external_body]
fn hmac_finalize(state: MacState) -> (r: Vec<u8>)
    ensures
        r@ == hmac_sha256(mac_key(state), mac_message(state)),
        r@.len() == 32,
{
    state.inner.finalize().into_bytes().to_vec()
}

/// Calls `hex::encode`, which writes each byte as two lowercase hexadecimal digits,
/// high half first. Trusted: the result is `hex_lower` of the bytes.
#[verifier::external_body]
pub fn hex_encode(data: &[u8]) -> (r: String)
    ensures
        r@ == hex_lower(data@),
{
    hex::encode(data)
}

/// The signature Stripe sends for `payload` under the shared `secret`.
pub open spec fn signature_of(payload: Seq<char>, secret: Seq<u8>) -> Seq<char> {
    hex_lower(hmac_sha256(secret, encode_utf8(payload)))
}

/// Determine the expected signature from stripe based on a shared secret, and the
/// SHA256 HMAC of the request/webhook: the tag's lowercase hex digits.
pub fn compute_signature(payload: &str, secret: &[u8]) -> (r: String)
    ensures
        r@ == signature_of(payload@, secret@),
        r@.len() == 64,
        forall|i: int| 0 <= i < r@.len() ==> is_hex_char(#[trigger] r@[i]),
{
    let mut mac = hmac_new(secret);
    hmac_update(&mut mac, payload.as_bytes());
    let result = hmac_finalize(mac);
    let r = hex_encode(result.as_slice());
    proof {
        lemma_hex_lower_chars(result@);
    }
    r
}

/// Compares two signatures character by character without stopping at the first
/// difference, so the time taken does not tell how long a prefix matched (only the
/// lengths are compared first).
pub fn signatures_match(expected: &str, received: &str) -> (r: bool)
    ensures
        r == (expected@ == received@),
{
    let a = chars_of(expected);
    let b = chars_of(received);
    if a.len() != b.len() {
        return false;
    }
    let n = a.len();
    let mut same = true;
    let mut i: usize = 0;
    while i < n
        invariant
            n == a.len() == b.len(),
            i <= n,
            same == (forall|j: int| 0 <= j < i ==> a@[j] == b@[j]),
        decreases n - i,
    {
        let equal = a[i] == b[i];
        same = if equal { same } else { false };
        i += 1;
    }
    assert(same == (a@ =~= b@));
    same
}

/// The table built from the `key=value` pieces of a header, or `None` when a piece
/// does not split into exactly two parts at `=`.
pub open spec fn header_entries(pieces: Seq<Seq<char>>) -> Option<Seq<(Seq<char>, Seq<char>)>>
    decreases pieces.len(),
{
    if pieces.len() == 0 {
        Some(Seq::empty())
    } else {
        match header_entries(pieces.drop_last()) {
            None => None,
            Some(prev) => {
                let parts = split(pieces.last(), '=');
                if parts.len() != 2 {
                    None
                } else {
                    Some(with_entry(prev, trim(parts[0]), trim(parts[1])))
                }
            },
        }
    }
}

/// A `Stripe-Signature` header `t=..,v1=..` read as a table; later keys replace
/// earlier ones.
pub open spec fn signature_header(header: Seq<char>) -> Option<Seq<(Seq<char>, Seq<char>)>> {
    header_entries(split(trim(header), ','))
}

pub open spec fn header_view(r: Result<Vec<(String, String)>, ()>) -> Option<
    Seq<(Seq<char>, Seq<char>)>,
> {
    match r {
        Ok(v) => Some(entries_view(v@)),
        Err(_) => None,
    }
}

/// Reads the `key=value` pairs, separated by commas, of a `Stripe-Signature` header.
pub fn parse_stripe_signature_header(header: &str) -> (r: Result<Vec<(String, String)>, ()>)
    ensures
        header_view(r) == signature_header(header@),
        r matches Ok(v) ==> unique_names(entries_view(v@)),
{
    let trimmed = trim_str(header);
    let signature = split_str(trimmed.as_str(), ',');
    let ghost pieces = views(signature@);
    let mut values: Vec<(String, String)> = Vec::new();
    let n = signature.len();
    let mut i: usize = 0;
    assert(pieces.take(0) =~= Seq::<Seq<char>>::empty());
    assert(entries_view(values@) =~= Seq::<(Seq<char>, Seq<char>)>::empty());
    while i < n
        invariant
            i <= n == signature.len(),
            pieces == views(signature@),
            pieces == split(trim(header@), ','),
            header_entries(pieces.take(i as int)) == Some(entries_view(values@)),
            unique_names(entries_view(values@)),
        decreases n - i,
    {
        let ghost t = pieces.take(i + 1);
        assert(t.drop_last() =~= pieces.take(i as int));
        assert(t.last() == signature@[i as int]@);
        let pair = split_str(signature[i].as_str(), '=');
        if pair.len() != 2 {
            proof {
                assert(views(pair@).len() == pair@.len());
                lemma_header_entries_none(pieces, (i + 1) as int);
            }
            return Err(());
        }
        let key = trim_str(pair[0].as_str());
        let value = trim_str(pair[1].as_str());
        assert(views(pair@)[0] == pair@[0]@ && views(pair@)[1] == pair@[1]@);
        insert_entry(&mut values, key, value);
        i += 1;
    }
    assert(pieces.take(n as int) =~= pieces);
    Ok(values)
}

/// Once a prefix of the pieces is refused, so is every longer prefix.
proof fn lemma_header_entries_none(pieces: Seq<Seq<char>>, k: int)
    requires
        0 <= k <= pieces.len(),
        header_entries(pieces.take(k)) is None,
    ensures
        header_entries(pieces) is None,
    decreases pieces.len() - k,
{
    if k < pieces.len() {
        let t = pieces.take(k + 1);
        assert(t.drop_last() =~= pieces.take(k));
        lemma_header_entries_none(pieces, k + 1);
    } else {
        assert(pieces.take(k) =~= pieces);
    }
}

/// The trimmed key of a `key=value` segment.
pub open spec fn segment_key(piece: Seq<char>) -> Seq<char> {
    trim(split(piece, '=')[0])
}

/// The trimmed value of a `key=value` segment.
pub open spec fn segment_value(piece: Seq<char>) -> Seq<char> {
    trim(split(piece, '=')[1])
}

proof fn lemma_header_entries_none_iff(pieces: Seq<Seq<char>>)
    ensures
        header_entries(pieces) is None <==> exists|k: int|
            0 <= k < pieces.len() && #[trigger] split(pieces[k], '=').len() != 2,
    decreases pieces.len(),
{
    if pieces.len() > 0 {
        let d = pieces.drop_last();
        lemma_header_entries_none_iff(d);
        let n = pieces.len() - 1;
        if header_entries(pieces) is None {
            if header_entries(d) is None {
                let k = choose|k: int| 0 <= k < d.len() && #[trigger] split(d[k], '=').len() != 2;
                assert(pieces[k] == d[k]);
            } else {
                assert(split(pieces[n], '=').len() != 2);
            }
        } else {
            assert forall|k: int| 0 <= k < pieces.len() implies #[trigger] split(pieces[k], '=').len() == 2 by {
                if k < n {
                    assert(pieces[k] == d[k]);
                }
            }
        }
    }
}

proof fn lemma_header_entries_lookup(pieces: Seq<Seq<char>>, name: Seq<char>)
    requires
        header_entries(pieces) is Some,
    ensures
        ({
            let values = header_entries(pieces)->0;
            &&& values.len() <= pieces.len()
            &&& (entry_named(values, name) is Some <==> exists|k: int|
                0 <= k < pieces.len() && #[trigger] segment_key(pieces[k]) == name)
            &&& (entry_named(values, name) matches Some(v) ==> exists|k: int|
                0 <= k < pieces.len() && #[trigger] segment_key(pieces[k]) == name
                    && segment_value(pieces[k]) == v && forall|j: int|
                    k < j < pieces.len() ==> #[trigger] segment_key(pieces[j]) != name)
        }),
    decreases pieces.len(),
{
    let values = header_entries(pieces)->0;
    if pieces.len() == 0 {
        assert(values.len() == 0);
        assert(!(exists|k: int| first_named(values, name, k)));
    } else {
        let d = pieces.drop_last();
        let n = pieces.len() - 1;
        let prev = header_entries(d)->0;
        lemma_header_entries_lookup(d, name);
        let key = segment_key(pieces[n]);
        let value = segment_value(pieces[n]);
        assert(values == with_entry(prev, key, value));
        assert(values.len() <= prev.len() + 1);
        if name == key {
            crate::entries::lemma_entry_named_with_entry_same(prev, key, value);
            assert(segment_key(pieces[n]) == name);
        } else {
            crate::entries::lemma_entry_named_with_entry_other(prev, key, value, name);
            if entry_named(values, name) is Some {
                let v = entry_named(values, name)->0;
                let k = choose|k: int|
                    0 <= k < d.len() && #[trigger] segment_key(d[k]) == name
                        && segment_value(d[k]) == v && forall|j: int|
                        k < j < d.len() ==> #[trigger] segment_key(d[j]) != name;
                assert(pieces[k] == d[k]);
                assert forall|j: int| k < j < pieces.len() implies #[trigger] segment_key(pieces[j]) != name by {
                    if j < n {
                        assert(pieces[j] == d[j]);
                    }
                }
            } else {
                assert forall|k: int| 0 <= k < pieces.len() implies #[trigger] segment_key(pieces[k]) != name by {
                    if k < n {
                        assert(pieces[k] == d[k]);
                    }
                }
            }
        }
    }
}

/// A `Stripe-Signature` header is refused exactly when one of its comma-separated
/// segments does not split into two parts at `=` (has no `=` or more than one).
pub proof fn lemma_signature_header_refused_iff(header: Seq<char>)
    ensures
        signature_header(header) is None <==> exists|k: int|
            0 <= k < split(trim(header), ',').len() && #[trigger] split(
                split(trim(header), ',')[k],
                '=',
            ).len() != 2,
{
    lemma_header_entries_none_iff(split(trim(header), ','));
}

/// A read header has at most one entry per segment; a key has a value exactly
/// when some segment has that key, and the value is that of the last such segment.
pub proof fn lemma_signature_header_last_wins(header: Seq<char>, name: Seq<char>)
    requires
        signature_header(header) is Some,
    ensures
        ({
            let pieces = split(trim(header), ',');
            let values = signature_header(header)->0;
            &&& values.len() <= pieces.len()
            &&& (entry_named(values, name) is Some <==> exists|k: int|
                0 <= k < pieces.len() && #[trigger] segment_key(pieces[k]) == name)
            &&& (entry_named(values, name) matches Some(v) ==> exists|k: int|
                0 <= k < pieces.len() && #[trigger] segment_key(pieces[k]) == name
                    && segment_value(pieces[k]) == v && forall|j: int|
                    k < j < pieces.len() ==> #[trigger] segment_key(pieces[j]) != name)
        }),
{
    lemma_header_entries_lookup(split(trim(header), ','), name);
}

/// The outcome of authenticating a webhook call whose `Stripe-Signature` header is
/// `header` (`None` when absent or not text) and whose body is `body`.
pub open spec fn authentication(header: Option<Seq<char>>, body: Seq<char>, secret: Seq<u8>) -> Result<
    (),
    Failure,
> {
    match header {
        None => Err(Failure::RequestUnparsable),
        Some(h) => match signature_header(h) {
            None => Err(Failure::RequestUnparsable),
            Some(values) => match (entry_named(values, "t"@), entry_named(values, "v1"@)) {
                (Some(t), Some(v1)) => if signature_of(t + "."@ + body, secret) == v1 {
                    Ok(())
                } else {
                    Err(Failure::Unauthorized)
                },
                _ => Err(Failure::RequestUnparsable),
            },
        },
    }
}

/// Implements Webhook payload verification, in accordance with official Stripe docs:
/// the header's `v1` value must be the signature of `"{t}.{body}"`.
pub fn authenticate(signature_header: Option<&str>, body_content: &str, secret: &[u8]) -> (r: Result<
    (),
    EndpointProcessingError,
>)
    ensures
        outcome(r) == authentication(
            match signature_header {
                Some(h) => Some(h@),
                None => None,
            },
            body_content@,
            secret@,
        ),
{
    let signature_header = match signature_header {
        Some(v) => v,
        None => return Err(EndpointProcessingError::RequestUnparsable),
    };
    let parsed_header = match parse_stripe_signature_header(signature_header) {
        Ok(v) => v,
        Err(_) => return Err(EndpointProcessingError::RequestUnparsable),
    };
    let received_timestamp = match get_entry(&parsed_header, "t") {
        Some(v) => v,
        None => return Err(EndpointProcessingError::RequestUnparsable),
    };
    let received_signature = match get_entry(&parsed_header, "v1") {
        Some(v) => v,
        None => return Err(EndpointProcessingError::RequestUnparsable),
    };
    let mut payload = owned(received_timestamp.as_str());
    payload.append(".");
    payload.append(body_content);
    let expected_signature = compute_signature(payload.as_str(), secret);
    if signatures_match(expected_signature.as_str(), received_signature.as_str()) {
        Ok(())
    } else {
        Err(EndpointProcessingError::Unauthorized)
    }
}

proof fn lemma_trim_unchanged(s: Seq<char>)
    requires
        s.len() > 0,
        !crate::text::is_ws(s[0]),
        !crate::text::is_ws(s.last()),
    ensures
        trim(s) == s,
{
    assert(crate::text::strip_start(s, crate::text::Strip::Whitespace) == s);
}

/// A call signed the way Stripe signs it is accepted: for a timestamp `t`
/// (without `,` or `=`, and without surrounding whitespace) the header
/// `t={t},v1={signature of "{t}.{body}"}` authenticates `body`.
pub proof fn lemma_signed_call_accepted(t: Seq<char>, body: Seq<char>, secret: Seq<u8>)
    requires
        t.len() > 0,
        trim(t) == t,
        forall|i: int| 0 <= i < t.len() ==> #[trigger] t[i] != ',' && t[i] != '=',
    ensures
        authentication(
            Some("t="@ + t + ",v1="@ + signature_of(t + "."@ + body, secret)),
            body,
            secret,
        ) == Ok::<(), Failure>(()),
{
    reveal_strlit("t=");
    reveal_strlit(",v1=");
    reveal_strlit("t");
    reveal_strlit("v1");
    reveal_strlit("v1=");
    let sig = signature_of(t + "."@ + body, secret);
    let tag = hmac_sha256(secret, encode_utf8(t + "."@ + body));
    lemma_hex_lower_chars(tag);
    let a = "t="@ + t;
    let b = "v1="@ + sig;
    let h = "t="@ + t + ",v1="@ + sig;
    assert(h =~= a + seq![','] + b);
    // the header has no surrounding whitespace
    if sig.len() > 0 {
        assert(is_hex_char(sig[sig.len() - 1]));
        assert(h.last() == sig.last());
    } else {
        assert(h.last() == '=');
    }
    lemma_trim_unchanged(h);
    // it splits into the two pairs
    assert forall|i: int| 0 <= i < a.len() implies #[trigger] a[i] != ',' by {
        if i >= 2 {
            assert(a[i] == t[i - 2]);
        }
    }
    assert forall|i: int| 0 <= i < b.len() implies #[trigger] b[i] != ',' by {
        if i >= 3 {
            assert(b[i] == sig[i - 3]);
            assert(is_hex_char(sig[i - 3]));
        }
    }
    crate::text::lemma_split_concat(a, b, ',');
    crate::text::lemma_split_free(a, ',');
    crate::text::lemma_split_free(b, ',');
    let pieces = split(trim(h), ',');
    assert(pieces =~= seq![a, b]);
    // each pair splits at its `=`
    let tk = seq!['t'];
    let vk = seq!['v', '1'];
    assert(a =~= tk + seq!['='] + t);
    assert(b =~= vk + seq!['='] + sig);
    crate::text::lemma_split_concat(tk, t, '=');
    crate::text::lemma_split_concat(vk, sig, '=');
    crate::text::lemma_split_free(tk, '=');
    crate::text::lemma_split_free(vk, '=');
    crate::text::lemma_split_free(t, '=');
    assert forall|i: int| 0 <= i < sig.len() implies #[trigger] sig[i] != '=' by {
        assert(is_hex_char(sig[i]));
    }
    crate::text::lemma_split_free(sig, '=');
    assert(split(a, '=') =~= seq![tk, t]);
    assert(split(b, '=') =~= seq![vk, sig]);
    lemma_trim_unchanged(tk);
    lemma_trim_unchanged(vk);
    if sig.len() > 0 {
        assert(is_hex_char(sig[0]));
        lemma_trim_unchanged(sig);
    } else {
        assert(trim(sig) =~= sig);
    }
    assert(pieces.drop_last() =~= seq![a]);
    assert(seq![a].drop_last() =~= Seq::<Seq<char>>::empty());
    let e0 = Seq::<(Seq<char>, Seq<char>)>::empty();
    let e1 = with_entry(e0, tk, t);
    let e2 = with_entry(e1, vk, sig);
    assert(header_entries(Seq::<Seq<char>>::empty()) == Some(e0));
    assert(seq![a].last() == a);
    assert(split(a, '=')[0] == tk && split(a, '=')[1] == t);
    assert(header_entries(seq![a]) == Some(e1));
    assert(pieces.last() == b);
    assert(split(b, '=')[0] == vk && split(b, '=')[1] == sig);
    assert(header_entries(pieces) == Some(e2));
    assert("t"@ =~= tk);
    assert("v1"@ =~= vk);
    assert(tk != vk) by {
        assert(tk.len() != vk.len());
    }
    crate::entries::lemma_entry_named_with_entry_same(e1, vk, sig);
    crate::entries::lemma_entry_named_with_entry_other(e1, vk, sig, tk);
    crate::entries::lemma_entry_named_with_entry_same(e0, tk, t);
}

/// A call is accepted only when its header's `v1` is the signature of
/// `"{t}.{body}"` under the shared secret.
pub proof fn lemma_accepted_only_if_signed(header: Seq<char>, body: Seq<char>, secret: Seq<u8>)
    requires
        authentication(Some(header), body, secret) is Ok,
    ensures
        signature_header(header) matches Some(values) && entry_named(values, "t"@) matches Some(
            t,
        ) && entry_named(values, "v1"@) == Some(signature_of(t + "."@ + body, secret)),
{
}

} // verus!
