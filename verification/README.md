# server_web

The logic of the orto.ai web backend, written in Verus: form validation,
template helpers, sign-in and sign-up decisions, invitation lists, static-asset
rules and the Stripe webhook (signature check and subscription changes). Every
function in `src/` carries a `requires`/`ensures` contract that Verus proves.

Layout:

- `src/text.rs` — strings as `Seq<char>`: trimming, splitting, replacing,
  decimal and hexadecimal output, with their lemmas.
- `src/entries.rs` — ordered name/value tables (later names replace earlier).
- `src/pattern.rs` — regular expressions, through the `regex` crate.
- `src/validator.rs`, `src/validator/v.rs` — field checks and the validator.
- `src/util.rs` — the `asset` and `embed` template helpers and submitted forms.
- `src/web.rs` — which static file a request may reach, and its caching.
- `src/tokens.rs` — invitation tokens and address digests.
- `src/route/` — what each route decides; `payment/stripe/webhook/` holds the
  webhook's authentication and event handling.
- `tests/` — tests on concrete values.
- `app/` — the actix-web server around the library: HTTP, files, e-mail and
  the Stripe API. Verus does not read it.

Calls into outside crates (`regex`, `url`, `hmac`, `sha2`, `hex`, `bcrypt`,
`rust-crypto`, `chrono`, `nanoid`) go through small trusted wrappers whose doc comments say what is
believed of them without proof.
