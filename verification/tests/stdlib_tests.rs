use amber_core::stdlib::resolve;

fn table() -> Vec<(String, String)> {
    vec![
        ("math.ab".to_string(), "fun sum() {}".to_string()),
        ("text.ab".to_string(), "fun trim() {}".to_string()),
    ]
}

#[test]
fn resolve_finds_module_by_bare_name() {
    let modules = table();
    assert_eq!(resolve(&modules, "math").as_deref(), Some("fun sum() {}"));
    assert_eq!(resolve(&modules, "text").as_deref(), Some("fun trim() {}"));
}

#[test]
fn resolve_appends_the_source_suffix() {
    let modules = table();
    // The stored key already carries the suffix; asking with it doubles it.
    assert_eq!(resolve(&modules, "math.ab"), None);
}

#[test]
fn resolve_absent_module_is_none() {
    let modules = table();
    assert_eq!(resolve(&modules, "regex"), None);
    assert_eq!(resolve(&Vec::new(), "math"), None);
}

#[test]
fn resolve_first_match_wins() {
    let mut modules = table();
    modules.push(("math.ab".to_string(), "shadowed".to_string()));
    assert_eq!(resolve(&modules, "math").as_deref(), Some("fun sum() {}"));
}
