use polymarket_scraper::discovery::{discover_build_id, extract_build_id_from_html, DEFAULT_BUILD_ID};

#[test]
fn build_id_from_next_data() {
    let html = r#"<html><script id="__NEXT_DATA__" type="application/json">{"props":{},"buildId":"abcDEF123456"}</script></html>"#;
    assert_eq!(extract_build_id_from_html(html), Some("abcDEF123456".to_string()));
}

#[test]
fn build_id_from_static_path() {
    let html = r#"<link href="/_next/static/css/app.css"/><script src="/_next/static/chunks/main.js"></script><script src="/_next/static/XyZ123456789abc/_buildManifest.js"></script>"#;
    assert_eq!(extract_build_id_from_html(html), Some("XyZ123456789abc".to_string()));
}

#[test]
fn short_static_segments_are_rejected() {
    let html = r#"<script src="/_next/static/short/x.js"></script>"#;
    assert_eq!(extract_build_id_from_html(html), None);
}

#[test]
fn next_data_without_build_id_falls_back_to_paths() {
    let html = r#"<script id="__NEXT_DATA__">{"page":"/"}</script><script src="/_next/static/LongEnoughBuild1/a.js"></script>"#;
    assert_eq!(extract_build_id_from_html(html), Some("LongEnoughBuild1".to_string()));
}

#[test]
fn discovery_falls_back_to_default() {
    assert_eq!(discover_build_id(None), DEFAULT_BUILD_ID);
    assert_eq!(discover_build_id(Some("<html>nothing here</html>")), DEFAULT_BUILD_ID);
    assert_eq!(discover_build_id(Some("")), DEFAULT_BUILD_ID);
    assert_eq!(
        discover_build_id(Some(r#"<script>__NEXT_DATA__ = {"buildId":"found-it"}</script>"#)),
        "found-it"
    );
}
