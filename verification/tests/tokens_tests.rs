use server_web::tokens::{
    email_hash, invitation_text, is_invited, is_listed, may_send_token_to, may_sell_token, sell_token, sold_token,
    token_id_for_mail,
};
use server_web::text::{decimal_string, split_str, trim_str};
use server_web::web::{asset_lookup, candidate_path, last_modified, mime_shortcut, within_root, Asset, AssetLookup};

fn lines(v: &[&str]) -> Vec<String> {
    v.iter().map(|s| s.to_string()).collect()
}

#[test]
fn token_lists() {
    let tokens = lines(&["abc  ", "  def", ""]);
    assert!(is_invited("abc", &tokens));
    assert!(is_invited("def", &tokens));
    assert!(!is_invited("ab", &tokens));
    assert!(is_listed("", &tokens));
    assert!(may_sell_token("def", &tokens));
    assert!(!may_sell_token("  ", &tokens));
    assert!(!may_sell_token("xyz", &tokens));
}

#[test]
fn email_digests() {
    assert_eq!(email_hash("abc"), "ba7816bf8f01cfea414140de5dae2223b00361a396177a9cb410ff61f20015ad");
    let list = lines(&["ba7816bf8f01cfea414140de5dae2223b00361a396177a9cb410ff61f20015ad\n"]);
    assert!(may_send_token_to("abc", &list));
    assert!(!may_send_token_to("abd", &list));
}

#[test]
fn invitation_mail() {
    let t = invitation_text("TOKEN");
    assert!(t.starts_with("Velkommen til Orto AI's lukkede alfa-test!"));
    assert!(t.contains("https://orto.ai/editor?token=TOKEN\n\n"));
    assert!(t.ends_with("Vi ser frem til din feedback."));
}

#[test]
fn text_operations() {
    assert_eq!(trim_str("\u{2003} a b \n"), "a b");
    assert_eq!(split_str("a,,b,", ','), vec!["a", "", "b", ""]);
    assert_eq!(split_str("", ','), vec![""]);
    assert_eq!(decimal_string(0), "0");
    assert_eq!(decimal_string(1234567890), "1234567890");
}

#[test]
fn static_assets() {
    assert_eq!(candidate_path("/srv/public", "css/a.css"), "/srv/public/css/a.css");
    assert_eq!(within_root("/srv/public", "/srv/public/css/a.css"), Some("/srv/public/css/a.css".to_string()));
    assert_eq!(within_root("/srv/public", "/etc/passwd"), None);
    assert_eq!(within_root("/srv/public", "/srv"), None);
    assert_eq!(within_root("/srv/www", "/srv/www2/f"), None);
    assert_eq!(within_root("/srv/www", "/srv/www"), Some("/srv/www".to_string()));
    assert_eq!(within_root("/srv/www/", "/srv/www/f"), Some("/srv/www/f".to_string()));
    assert_eq!(mime_shortcut("js"), Some("application/javascript".to_string()));
    assert_eq!(mime_shortcut("json"), Some("application/json".to_string()));
    assert_eq!(mime_shortcut("css"), Some("text/css".to_string()));
    assert_eq!(mime_shortcut("png"), None);
    let mtime = "Tue, 15 Nov 1994 12:45:26 GMT";
    assert_eq!(asset_lookup(Some(mtime), mtime, true), AssetLookup::UseCached);
    assert_eq!(asset_lookup(Some(mtime), "later", false), AssetLookup::Evict);
    assert_eq!(asset_lookup(Some(mtime), "later", true), AssetLookup::Load);
    assert_eq!(asset_lookup(None, mtime, true), AssetLookup::Load);
    assert_eq!(asset_lookup(None, mtime, false), AssetLookup::Missing);
    let a = Asset::new(vec![1], "text/css", mtime);
    assert_eq!(a.mime, "text/css");
    assert_eq!(a.mtime, mtime);
}

fn safe_token(t: &str) -> bool {
    t.chars().count() == 21
        && t.chars().all(|c| c == '_' || c == '~' || c.is_ascii_digit() || c.is_ascii_alphabetic())
}

#[test]
fn tokens_are_sold_for_listed_ids() {
    let lines = vec!["  abc  ".to_string(), "def".to_string()];
    assert_eq!(sold_token("abc", &lines, "T".to_string()), Some("T".to_string()));
    assert_eq!(sold_token("xyz", &lines, "T".to_string()), None);
    assert_eq!(sold_token("   ", &vec!["".to_string()], "T".to_string()), None);
    let t = sell_token("def", &lines).unwrap();
    assert!(safe_token(&t));
    assert_eq!(sell_token("nope", &lines), None);
    assert!(safe_token(&token_id_for_mail()));
}

#[test]
fn last_modified_is_an_http_date() {
    assert_eq!(last_modified(784_903_526), Some("Tue, 15 Nov 1994 12:45:26 GMT".to_string()));
    assert_eq!(last_modified(0), Some("Thu, 01 Jan 1970 00:00:00 GMT".to_string()));
    assert_eq!(last_modified(86_400 * 4), Some("Mon, 05 Jan 1970 00:00:00 GMT".to_string()));
    assert_eq!(last_modified(u64::MAX), None);
}
