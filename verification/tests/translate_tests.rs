use amber_core::translate::strip_text_quotes;
use amber_core::translate::translate_computation;
use amber_core::translate::ArithOp;
use amber_core::translate::TranslateMetadata;

#[test]
fn strip_removes_surrounding_quotes_only() {
    let mut s = "\"abc\"".to_string();
    strip_text_quotes(&mut s);
    assert_eq!(s.as_str(), "abc");

    let mut bare = "abc".to_string();
    strip_text_quotes(&mut bare);
    assert_eq!(bare.as_str(), "abc");

    let mut lone = "\"".to_string();
    strip_text_quotes(&mut lone);
    assert_eq!(lone.as_str(), "\"");

    let mut half = "\"abc".to_string();
    strip_text_quotes(&mut half);
    assert_eq!(half.as_str(), "\"abc");
}

#[test]
fn backend_composes_operands_around_the_tag() {
    let mut meta = TranslateMetadata::new();
    let r = translate_computation(
        &mut meta,
        ArithOp::Add,
        Some("1".to_string()),
        Some("2".to_string()),
    );
    assert_eq!(r.as_str(), "$((1 + 2))");
    let one_sided = translate_computation(&mut meta, ArithOp::Sub, None, Some("2".to_string()));
    assert_eq!(one_sided.as_str(), "$(( - 2))");
}

#[test]
fn gen_subprocess_wraps_the_snippet() {
    let meta = TranslateMetadata::new();
    assert_eq!(meta.gen_subprocess("echo hi").as_str(), "$(echo hi)");
}
