use cache_buster::digest::{hash_bytes, ContentHasher};
use cache_buster::index::AssetIndex;
use cache_buster::matcher::{asset_attributes, match_asset, plan_absolute_link, rewrite_relative, update_asset, LinkRewrite};
use cache_buster::paths::{
    ends_with, extension, hashed_filename, is_excluded, is_html_document, normalize_path, starts_with,
};
use cache_buster::weburl::BaseUrl;

fn index_of(entries: &[(&str, &str)]) -> AssetIndex {
    let mut index = AssetIndex::new();
    for (p, h) in entries {
        index.insert(p.to_string(), h.to_string());
    }
    index
}

fn site() -> BaseUrl {
    BaseUrl::parse("https://example.com").unwrap()
}

#[test]
fn root_relative_script_is_rewritten_and_renamed() {
    let index = index_of(&[("assets/app.js", "abc123")]);
    assert_eq!(match_asset("/assets/app.js", &site(), "assets", &index), "/assets/app_abc123.js");
    assert_eq!(match_asset("assets/app.js", &site(), "assets", &index), "assets/app_abc123.js");
    let renames = index.renames();
    assert_eq!(renames, vec![("assets/app.js".to_string(), "assets/app_abc123.js".to_string())]);
}

#[test]
fn absolute_link_on_own_host_is_rewritten() {
    let index = index_of(&[("assets/logo.png", "deadbeef")]);
    assert_eq!(
        match_asset("https://example.com/assets/logo.png", &site(), "assets", &index),
        "https://example.com/assets/logo_deadbeef.png"
    );
    assert_eq!(
        match_asset("https://other.com/assets/logo.png", &site(), "assets", &index),
        "https://other.com/assets/logo.png"
    );
}

#[test]
fn absolute_link_keeps_query_and_fragment() {
    let index = index_of(&[("assets/logo.png", "deadbeef")]);
    assert_eq!(
        match_asset("https://example.com/assets/logo.png?v=2#top", &site(), "assets", &index),
        "https://example.com/assets/logo_deadbeef.png?v=2#top"
    );
}

#[test]
fn absolute_link_host_is_compared_after_url_parsing() {
    // The URL parser lowercases hosts, so the comparison of the parsed hosts
    // sees `Example.com` and `example.com` as the same.
    let index = index_of(&[("assets/logo.png", "deadbeef")]);
    assert_eq!(
        match_asset("http://Example.com/assets/logo.png", &site(), "assets", &index),
        "http://example.com/assets/logo_deadbeef.png"
    );
    assert_eq!(
        match_asset("https://example.org/assets/logo.png", &site(), "assets", &index),
        "https://example.org/assets/logo.png"
    );
}

#[test]
fn absolute_link_to_unindexed_asset_is_unchanged() {
    let index = index_of(&[("assets/logo.png", "deadbeef")]);
    assert_eq!(
        match_asset("https://example.com/assets/other.png", &site(), "assets", &index),
        "https://example.com/assets/other.png"
    );
}

#[test]
fn excluded_extension_is_never_rewritten() {
    let excluded = vec!["map".to_string()];
    assert!(is_excluded("assets/app.js.map", &excluded));
    assert!(!is_excluded("assets/app.js", &excluded));
    let index = index_of(&[("assets/app.js", "abc123")]);
    assert_eq!(match_asset("/assets/app.js.map", &site(), "assets", &index), "/assets/app.js.map");
    assert_eq!(index.renames().len(), 1);
}

#[test]
fn file_without_extension_is_hashed_without_trailing_dot() {
    let excluded = vec!["map".to_string()];
    assert!(!is_excluded("assets/LICENSE", &excluded));
    assert_eq!(extension("assets/LICENSE"), None);
    assert_eq!(hashed_filename("assets/LICENSE", "0f0f"), "assets/LICENSE_0f0f");
    let index = index_of(&[("assets/LICENSE", "0f0f")]);
    assert_eq!(update_asset("assets/LICENSE", &index), "assets/LICENSE_0f0f");
}

#[test]
fn malformed_absolute_url_is_unchanged() {
    let index = index_of(&[("assets/logo.png", "deadbeef")]);
    assert_eq!(match_asset("http://[bad", &site(), "assets", &index), "http://[bad");
    assert_eq!(match_asset("https://[bad/assets/logo.png", &site(), "", &index), "https://[bad/assets/logo.png");
}

#[test]
fn non_asset_strings_pass_through() {
    let index = index_of(&[("assets/logo.png", "deadbeef")]);
    for s in ["/images/x.png", "images/x.png", "", "/", "mailto:a@b.c", "https://example.com/images/x.png"] {
        assert_eq!(match_asset(s, &site(), "assets", &index), s);
    }
}

#[test]
fn unindexed_path_under_root_is_unchanged() {
    let index = index_of(&[("assets/logo.png", "deadbeef")]);
    assert_eq!(match_asset("/assets/missing.png", &site(), "assets", &index), "/assets/missing.png");
    assert_eq!(update_asset("assets/missing.png", &index), "assets/missing.png");
}

#[test]
fn renamed_name_equals_rewritten_reference() {
    let index = index_of(&[("assets/css/site.css", "77aa"), ("assets/app.js", "abc123")]);
    for (from, to) in index.renames() {
        assert_eq!(match_asset(&from, &site(), "assets", &index), to);
        assert_eq!(match_asset(&format!("/{}", from), &site(), "assets", &index), format!("/{}", to));
        assert_eq!(update_asset(&from, &index), to);
    }
}

#[test]
fn hashed_filename_formats() {
    assert_eq!(hashed_filename("assets/app.js", "abc123"), "assets/app_abc123.js");
    assert_eq!(hashed_filename("assets/app.js.map", "ff"), "assets/app.js_ff.map");
    assert_eq!(hashed_filename("app.js", "ff"), "app_ff.js");
    assert_eq!(hashed_filename("assets/.htaccess", "ff"), "assets/.htaccess_ff");
    assert_eq!(hashed_filename("assets/a.b/c", "ff"), "assets/a.b/c_ff");
    assert_eq!(hashed_filename("assets/x.", "ff"), "assets/x_ff.");
    // Determinism: the same inputs give the same name.
    assert_eq!(hashed_filename("assets/app.js", "abc123"), hashed_filename("assets/app.js", "abc123"));
}

#[test]
fn extension_cases() {
    assert_eq!(extension("a/b.tar.gz"), Some("gz"));
    assert_eq!(extension("a/.hidden"), None);
    assert_eq!(extension("a/.hidden.js"), Some("js"));
    assert_eq!(extension("a.d/file"), None);
}

#[test]
fn normalize_path_strips_one_separator() {
    assert_eq!(normalize_path("/assets"), "assets");
    assert_eq!(normalize_path("assets"), "assets");
    assert_eq!(normalize_path(normalize_path("assets/x")), "assets/x");
    assert_eq!(normalize_path("//assets"), "/assets");
    assert_eq!(normalize_path(""), "");
    assert_eq!(normalize_path("/"), "");
}

#[test]
fn prefix_and_suffix_tests() {
    assert!(starts_with("assets/app.js", "assets"));
    assert!(starts_with("abc", ""));
    assert!(!starts_with("ass", "assets"));
    assert!(ends_with("index.html", ".html"));
    assert!(!ends_with("l", ".html"));
    assert!(is_html_document("index.html"));
    assert!(is_html_document("old.htm"));
    assert!(!is_html_document("style.css"));
    assert!(!is_html_document("page.html.bak"));
}

#[test]
fn hashing_is_stable_and_chunking_does_not_matter() {
    let data = b"console.log('hello');\n".to_vec();
    let whole = hash_bytes(&data);
    let mut h = ContentHasher::new();
    h.update(&data[..5]);
    h.update(&data[5..]);
    assert_eq!(h.finish(), whole);
    assert_eq!(hash_bytes(&data), whole);
    assert_eq!(whole.len(), 40);
    assert_ne!(hash_bytes(b"console.log('hello!');\n"), whole);
}

#[test]
fn hashing_known_digests() {
    assert_eq!(hash_bytes(b"abc"), "a9993e364706816aba3e25717850c26c9cd0d89d");
    assert_eq!(hash_bytes(b""), "da39a3ee5e6b4b0d3255bfef95601890afd80709");
}

#[test]
fn index_insert_replaces_and_gets() {
    let mut index = AssetIndex::new();
    assert_eq!(index.get("assets/a.js"), None);
    index.insert("assets/a.js".to_string(), "11".to_string());
    index.insert("assets/a.js".to_string(), "22".to_string());
    assert_eq!(index.get("assets/a.js").map(|s| s.as_str()), Some("22"));
    assert_eq!(index.renames().len(), 1);
}

#[test]
fn plan_absolute_link_decisions() {
    let index = index_of(&[("assets/logo.png", "deadbeef")]);
    match plan_absolute_link(Some("example.com"), "/assets/logo.png", &site(), "assets", &index) {
        LinkRewrite::NewPath(p) => assert_eq!(p, "/assets/logo_deadbeef.png"),
        _ => panic!("expected a new path"),
    }
    assert!(matches!(
        plan_absolute_link(Some("example.com"), "/assets/none.png", &site(), "assets", &index),
        LinkRewrite::Unchanged
    ));
    assert!(matches!(
        plan_absolute_link(Some("other.com"), "/assets/logo.png", &site(), "assets", &index),
        LinkRewrite::NotSiteAsset
    ));
    assert!(matches!(
        plan_absolute_link(None, "/assets/logo.png", &site(), "assets", &index),
        LinkRewrite::NotSiteAsset
    ));
    assert!(matches!(
        plan_absolute_link(Some("example.com"), "/img/logo.png", &site(), "assets", &index),
        LinkRewrite::NotSiteAsset
    ));
}

#[test]
fn rewrite_relative_keeps_leading_separator() {
    let index = index_of(&[("assets/logo.png", "deadbeef")]);
    assert_eq!(rewrite_relative("/assets/logo.png", "assets", &index), "/assets/logo_deadbeef.png");
    assert_eq!(rewrite_relative("assets/logo.png", "assets", &index), "assets/logo_deadbeef.png");
    assert_eq!(rewrite_relative("/img/logo.png", "assets", &index), "/img/logo.png");
}

#[test]
fn base_url_parsing() {
    assert!(BaseUrl::parse("not a url").is_none());
    assert_eq!(site().host(), Some("example.com"));
    assert_eq!(BaseUrl::parse("file:///tmp/site").unwrap().host(), None);
}

#[test]
fn asset_attribute_table() {
    assert_eq!(
        asset_attributes(),
        vec![("script[src]", "src"), ("link[rel='stylesheet'][href]", "href"), ("img[src]", "src")]
    );
}
