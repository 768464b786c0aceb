use server_web::util::{
    form_source, AssetHelper, EmbedHelper, FormData, FormField, FormSource, RemapError,
    INVALID_CONTENT_TYPE,
};

#[test]
fn form_field_views() {
    let text = FormField::String("héllo".to_string());
    let file = FormField::Binary(vec![1, 2, 3]);
    assert_eq!(text.binary(), "héllo".as_bytes());
    assert_eq!(file.binary(), &[1, 2, 3]);
    assert_eq!(text.string(), Some("héllo"));
    assert_eq!(file.string(), None);
    assert!(file.is_file());
    assert!(!text.is_file());
    assert!(FormField::String("x".to_string()).is_string());
    assert!(!FormField::Binary(vec![]).is_string());
}

#[test]
fn url_encoded_forms_keep_non_blank_text() {
    let form = FormData::from_form(vec![
        ("a".to_string(), FormField::String("one".to_string())),
        ("b".to_string(), FormField::String("   ".to_string())),
        ("c".to_string(), FormField::Binary(vec![1])),
        ("a".to_string(), FormField::String("two".to_string())),
    ]);
    assert_eq!(form.get("a").and_then(|f| f.string()), Some("two"));
    assert!(form.get("b").is_none());
    assert!(form.get("c").is_none());
    assert_eq!(form.text_or_empty("a"), "two");
    assert_eq!(form.text_or_empty("zzz"), "");
    let inner = form.into_inner();
    assert_eq!(inner.len(), 1);
}

#[test]
fn multipart_parts() {
    let mut form = FormData::new();
    form.add_part("name".to_string(), b"Ada".to_vec(), false);
    form.add_part("blank".to_string(), b"  ".to_vec(), false);
    form.add_part("empty_file".to_string(), vec![], true);
    form.add_part("file".to_string(), b"text in a file".to_vec(), true);
    form.add_part("raw".to_string(), vec![0xff, 0x00], false);
    assert_eq!(form.get("name").and_then(|f| f.string()), Some("Ada"));
    assert!(form.get("blank").is_none());
    assert!(form.get("empty_file").is_none());
    assert!(form.get("file").unwrap().is_file());
    assert_eq!(form.get("raw").unwrap().binary(), &[0xff, 0x00]);
    let values = form.values();
    assert_eq!(values.len(), 3);
    assert_eq!(values[0], ("name".to_string(), b"Ada".to_vec()));
}

#[test]
fn insert_then_get() {
    let mut form = FormData::new();
    form.insert("k".to_string(), FormField::String("v1".to_string()));
    form.insert("k".to_string(), FormField::String("v2".to_string()));
    assert_eq!(form.get("k").and_then(|f| f.string()), Some("v2"));
    assert_eq!(form.values().len(), 1);
}

#[test]
fn asset_links() {
    let h = AssetHelper { v_major: 1, v_minor: 4, v_patch: 12 };
    assert_eq!(
        h.preload("font/woff2", "font", "/static/a.woff2"),
        "<link rel='preload' type='font/woff2' as='font' href='/static/a.woff2' crossorigin='anonymous'>"
    );
    assert_eq!(h.cold("script", "/a.js"), "<script src='/a.js?v=1.4'></script>");
    assert_eq!(h.cold("stylesheet", "/a.css"), "<link rel='stylesheet' href='/a.css?v=1.4' />");
    assert_eq!(h.hot("script", "/a.js"), "<script src='/a.js?v=1.4.12'></script>");
    assert_eq!(h.hot("stylesheet", "/a.css"), "<link rel='stylesheet' href='/a.css?v=1.4.12' />");
}

#[test]
fn asset_helper_nodes() {
    let h = AssetHelper { v_major: 2, v_minor: 0, v_patch: 5 };
    assert_eq!(h.node(None, None, None, None), Err("asset: specify type: preload | hot | cold".to_string()));
    assert_eq!(h.node(Some("warm"), Some("script"), None, Some("/a.js")), Err("asset: specify type: preload | hot | cold".to_string()));
    assert_eq!(
        h.node(Some("preload"), None, Some("font"), Some("/x")),
        Err("asset: preload: specify 'type' - mime type of asset".to_string())
    );
    assert_eq!(
        h.node(Some("preload"), Some("t"), None, Some("/x")),
        Err("asset: preload: specify 'as' - html link 'as'".to_string())
    );
    assert_eq!(
        h.node(Some("preload"), Some("t"), Some("a"), None),
        Err("asset: preload: specify 'src'".to_string())
    );
    assert_eq!(
        h.node(Some("hot"), None, None, Some("/x")),
        Err("asset: hot|cold: specify 'type' - stylesheet | script".to_string())
    );
    assert_eq!(h.node(Some("cold"), Some("script"), None, None), Err("asset: hot|cold: specify 'src'".to_string()));
    assert_eq!(h.node(Some("cold"), Some("script"), None, Some("/a.js")), Ok("<script src='/a.js?v=2.0'></script>".to_string()));
    assert_eq!(h.node(Some("hot"), Some("script"), None, Some("/a.js")), Ok("<script src='/a.js?v=2.0.5'></script>".to_string()));
}

#[test]
fn embeds() {
    let e = EmbedHelper;
    assert_eq!(e.stylesheet("a.css", "b{}"), "<style data-src='a.css'>\nb{}\n</style>");
    assert_eq!(
        e.script("a.js", "x = '</script>'; y = '</script>';"),
        "<script data-src='a.js'>\nx = '&lt;/script&gt;'; y = '&lt;/script&gt;';\n</script>"
    );
    assert_eq!(e.plain("p.html", "<p>"), "<!-- \\/ p.html \\/ -->\n<p>\n<!-- /\\ p.html /\\ -->");
    assert_eq!(e.node(None, "p", "b"), Ok(e.plain("p", "b")));
    assert_eq!(e.node(Some("stylesheet"), "p", "b"), Ok(e.stylesheet("p", "b")));
    assert_eq!(e.node(Some("script"), "p", "b"), Ok(e.script("p", "b")));
    assert_eq!(
        e.node(Some("module"), "p", "b"),
        Err("embed: unknown type `module`, expected: stylesheet | script. Omit type for plain embed".to_string())
    );
}

#[test]
fn remap_errors() {
    assert_eq!(RemapError::SerializationError("x".to_string()).describe(), "Serialization error: x");
    assert_eq!(RemapError::DeserializationError("y".to_string()).describe(), "Deserialization error: y");
}

#[test]
fn caches_reset_by_release_kind() {
    let base = AssetHelper { v_major: 1, v_minor: 4, v_patch: 12 };
    let patch = AssetHelper { v_major: 1, v_minor: 4, v_patch: 13 };
    let minor = AssetHelper { v_major: 1, v_minor: 5, v_patch: 12 };
    let major = AssetHelper { v_major: 2, v_minor: 4, v_patch: 12 };
    // a patch release keeps the cold link and changes the hot one
    assert_eq!(base.cold("script", "/a.js"), patch.cold("script", "/a.js"));
    assert_ne!(base.hot("script", "/a.js"), patch.hot("script", "/a.js"));
    // minor and major releases change both
    assert_ne!(base.cold("stylesheet", "/a.css"), minor.cold("stylesheet", "/a.css"));
    assert_ne!(base.hot("stylesheet", "/a.css"), minor.hot("stylesheet", "/a.css"));
    assert_ne!(base.cold("script", "/a.js"), major.cold("script", "/a.js"));
    assert_ne!(base.hot("script", "/a.js"), major.hot("script", "/a.js"));
    // versions are not confused across their dots
    let a = AssetHelper { v_major: 1, v_minor: 11, v_patch: 0 };
    let b = AssetHelper { v_major: 11, v_minor: 1, v_patch: 0 };
    assert_ne!(a.cold("script", "/a.js"), b.cold("script", "/a.js"));
}

#[test]
fn embedded_script_closes_once() {
    let e = EmbedHelper;
    let out = e.script("a.js", "x</script>y");
    assert_eq!(out, "<script data-src='a.js'>\nx&lt;/script&gt;y\n</script>");
    assert_eq!(out.matches("</script>").count(), 1);
    assert!(out.ends_with("</script>"));
    let out = e.script("b.js", "</scr</script>ipt>");
    assert_eq!(out.matches("</script>").count(), 1);
}

#[test]
fn multipart_keeps_last_kept_part() {
    let mut form = FormData::new();
    form.add_part("a".to_string(), b"x".to_vec(), false);
    form.add_part("a".to_string(), vec![1], true);
    form.add_part("a".to_string(), b"   ".to_vec(), false);
    form.add_part("b".to_string(), vec![], true);
    form.add_part("c".to_string(), vec![0xff, 0xfe], false);
    assert_eq!(form.get("a").map(|f| f.binary().to_vec()), Some(vec![1]));
    assert!(form.get("a").unwrap().is_file());
    assert!(form.get("b").is_none());
    assert!(form.get("c").unwrap().is_file());
}

#[test]
fn form_sources() {
    assert_eq!(form_source(true, "multipart/form-data"), FormSource::Query);
    assert_eq!(form_source(false, "application/x-www-form-urlencoded"), FormSource::UrlEncoded);
    assert_eq!(form_source(false, "multipart/form-data"), FormSource::Multipart);
    assert_eq!(form_source(false, "application/json"), FormSource::Unsupported);
    assert_eq!(form_source(false, ""), FormSource::Unsupported);
    assert_eq!(INVALID_CONTENT_TYPE, "invalid content type");
}
