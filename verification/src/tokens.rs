//! Invitation tokens for the closed test: which tokens and e-mail addresses are
//! on the lists, and the invitation e-mail. The lists themselves are files, read
//! by the caller.
use vstd::prelude::*;
use vstd::utf8::*;

use crypto::digest::Digest;

use crate::text::{hex_lower, is_blank, owned, str_eq, trim, trim_str};

verus! {

#[verifier::external_type_specification]
#[verifier::external_body]
pub struct ExCryptoSha256(crypto::sha2::Sha256);

/// The bytes fed to a SHA-256 computation (of the `rust-crypto` crate) so far.
pub uninterp spec fn digest_input(d: crypto::sha2::Sha256) -> Seq<u8>;

/// The SHA-256 digest of `data`.
pub uninterp spec fn sha256(data: Seq<u8>) -> Seq<u8>;

/// Whether a SHA-256 computation has produced its digest. A finished computation
/// takes no more input (`input` asserts that it is not finished).
pub uninterp spec fn digest_finished(d: crypto::sha2::Sha256) -> bool;

/// The most bytes a SHA-256 computation of `rust-crypto` takes in all: it counts
/// the bits fed in a `u64` and panics on overflow.
pub open spec fn sha256_capacity() -> nat {
    0x1fff_ffff_ffff_ffff
}

/// Calls `crypto::sha2::Sha256::new`. Trusted: nothing has been fed yet and the
/// computation is not finished.
#[verifier::external_body]
fn sha256_new() -> (r: crypto::sha2::Sha256)
    ensures
        digest_input(r) == Seq::<u8>::empty(),
        !digest_finished(r),
{
    crypto::sha2::Sha256::new()
}

/// Calls `Digest::input_str`, which feeds the string's UTF-8 bytes. It panics on a
/// finished computation and when the count of bits fed overflows a `u64`; those
/// inputs are left out. Trusted: the bytes are appended to those fed so far.
#[verifier::external_body]
fn sha256_input_str(d: &mut crypto::sha2::Sha256, input: &str)
    requires
        !digest_finished(*old(d)),
        digest_input(*old(d)).len() + encode_utf8(input@).len() <= sha256_capacity(),
    ensures
        digest_input(*final(d)) == digest_input(*old(d)) + encode_utf8(input@),
        !digest_finished(*final(d)),
{
    d.input_str(input);
}

/// Calls `Digest::result_str`, which finishes the computation (once; finishing
/// again changes nothing) and writes the digest as lowercase hexadecimal
/// (`rustc_serialize::hex::ToHex`). Trusted: the text is `hex_lower` of the digest
/// named `sha256` of the bytes fed, and the computation is finished afterwards.
#[verifier::external_body]
fn sha256_result_str(d: &mut crypto::sha2::Sha256) -> (r: String)
    ensures
        r@ == hex_lower(sha256(digest_input(*old(d)))),
        digest_input(*final(d)) == digest_input(*old(d)),
        digest_finished(*final(d)),
{
    d.result_str()
}

/// `entry` is on the list: some line, trimmed, equals it.
pub open spec fn listed(entry: Seq<char>, lines: Seq<Seq<char>>) -> bool {
    exists|i: int| 0 <= i < lines.len() && trim(#[trigger] lines[i]) == entry
}

pub open spec fn lines_view(lines: Seq<String>) -> Seq<Seq<char>> {
    lines.map_values(|l: String| l@)
}

/// Whether some line of the list, trimmed, equals `entry`.
pub fn is_listed(entry: &str, lines: &Vec<String>) -> (r: bool)
    ensures
        r == listed(entry@, lines_view(lines@)),
{
    let n = lines.len();
    let mut i: usize = 0;
    while i < n
        invariant
            i <= n == lines.len(),
            forall|k: int| 0 <= k < i ==> trim(#[trigger] lines_view(lines@)[k]) != entry@,
        decreases n - i,
    {
        let t = trim_str(lines[i].as_str());
        assert(lines_view(lines@)[i as int] == lines@[i as int]@);
        if str_eq(t.as_str(), entry) {
            return true;
        }
        i += 1;
    }
    false
}

/// Whether `token` is one of the sold tokens (the lines of the token file).
pub fn is_invited(token: &str, lines: &Vec<String>) -> (r: bool)
    ensures
        r == listed(token@, lines_view(lines@)),
{
    is_listed(token, lines)
}

/// Whether a token may be sold for the invitation `id`: it must not be blank and
/// must be one of the issued invitation ids (the lines of the id file).
pub fn may_sell_token(id: &str, lines: &Vec<String>) -> (r: bool)
    ensures
        r == (trim(id@).len() != 0 && listed(id@, lines_view(lines@))),
{
    if is_blank(id) {
        return false;
    }
    is_listed(id, lines)
}

/// A character of nanoid's URL-safe alphabet: `_`, `~`, digits and ASCII letters.
pub open spec fn is_safe_char(c: char) -> bool {
    c == '_' || c == '~' || ('0' <= c && c <= '9') || ('a' <= c && c <= 'z') || ('A' <= c
        && c <= 'Z')
}

/// A token as nanoid makes them: 21 characters of the URL-safe alphabet.
pub open spec fn token_shape(t: Seq<char>) -> bool {
    t.len() == 21 && forall|i: int| 0 <= i < 21 ==> is_safe_char(#[trigger] t[i])
}

/// Calls `nanoid::simple`, which draws 21 characters from `nanoid::alphabet::SAFE`
/// with the operating system's random numbers. Trusted: the token has that shape;
/// which token comes out is chance and is not stated.
#[verifier::external_body]
fn new_token() -> (t: String)
    ensures
        token_shape(t@),
{
    nanoid::simple()
}

/// A fresh invitation id to mail out; the caller records it in the id file.
pub fn token_id_for_mail() -> (t: String)
    ensures
        token_shape(t@),
{
    new_token()
}

/// The token sold for the invitation `id`: `fresh` when the id may be sold, none
/// otherwise.
pub fn sold_token(id: &str, lines: &Vec<String>, fresh: String) -> (r: Option<String>)
    ensures
        match r {
            Some(t) => trim(id@).len() != 0 && listed(id@, lines_view(lines@)) && t@ == fresh@,
            None => !(trim(id@).len() != 0 && listed(id@, lines_view(lines@))),
        },
{
    if may_sell_token(id, lines) {
        Some(fresh)
    } else {
        None
    }
}

/// Sells a token for the invitation `id` when it may be sold (see
/// [`may_sell_token`]): a new random token, which the caller records in the token
/// file.
pub fn sell_token(id: &str, lines: &Vec<String>) -> (r: Option<String>)
    ensures
        r is Some <==> (trim(id@).len() != 0 && listed(id@, lines_view(lines@))),
        r matches Some(t) ==> token_shape(t@),
{
    if may_sell_token(id, lines) {
        Some(new_token())
    } else {
        None
    }
}

/// The lowercase hexadecimal SHA-256 digest of an address, as the address list stores it.
pub open spec fn address_digest(email: Seq<char>) -> Seq<char> {
    hex_lower(sha256(encode_utf8(email)))
}

/// The digest under which `email` is kept on the address list.
pub fn email_hash(email: &str) -> (r: String)
    requires
        encode_utf8(email@).len() <= sha256_capacity(),
    ensures
        r@ == address_digest(email@),
{
    let mut hasher = sha256_new();
    sha256_input_str(&mut hasher, email);
    sha256_result_str(&mut hasher)
}

/// Whether an invitation may be sent to `email`: its digest is on the address list.
pub fn may_send_token_to(email: &str, lines: &Vec<String>) -> (r: bool)
    requires
        encode_utf8(email@).len() <= sha256_capacity(),
    ensures
        r == listed(address_digest(email@), lines_view(lines@)),
{
    let digest = email_hash(email);
    is_listed(digest.as_str(), lines)
}

pub const INVITATION_SUBJECT: &'static str = "Adgang til testing af staveværktøj.";

pub open spec fn invitation_text_spec(token: Seq<char>) -> Seq<char> {
    "Velkommen til Orto AI's lukkede alfa-test!\n\nKlik på linket for at få adgang til Orto: https://orto.ai/editor?token="@
        + token
        + "\n\nLinket gemmer en nøgle til siden i den browser, og det vil kræve et nyt link for hver browser.\nTusind tak for at deltage. Vi ser frem til din feedback."@
}

/// The body of the invitation e-mail carrying `token`.
pub fn invitation_text(token: &str) -> (r: String)
    ensures
        r@ == invitation_text_spec(token@),
{
    let mut out = owned(
        "Velkommen til Orto AI's lukkede alfa-test!\n\nKlik på linket for at få adgang til Orto: https://orto.ai/editor?token=",
    );
    out.append(token);
    out.append(
        "\n\nLinket gemmer en nøgle til siden i den browser, og det vil kræve et nyt link for hver browser.\nTusind tak for at deltage. Vi ser frem til din feedback.",
    );
    out
}

} // verus!
