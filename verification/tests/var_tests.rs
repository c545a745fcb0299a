use amber_core::context::VariableDecl;
use amber_core::token::Position;
use amber_core::token::PositionInfo;
use amber_core::types::Type;

fn decl(is_empty: bool) -> VariableDecl {
    VariableDecl::new(
        "name".to_string(),
        Type::Text,
        None,
        false,
        is_empty,
        PositionInfo { path: None, position: Position::Pos(1, 1), start: 0, len: 4 },
    )
}

#[test]
fn empty_flag_round_trips() {
    let d = decl(true);
    assert_eq!(d.is_empty(), Ok(true));
    assert!(d.set_is_empty(false).is_ok());
    assert_eq!(d.is_empty(), Ok(false));
}

#[test]
fn empty_flag_is_shared_across_copies() {
    let original = decl(true);
    let copy = original.duplicate();
    assert_eq!(copy.is_empty(), Ok(true));
    // A write through the copy is observed through the original: the cell is
    // one shared point of truth, not a per-copy field.
    assert!(copy.set_is_empty(false).is_ok());
    assert_eq!(original.is_empty(), Ok(false));
    assert!(original.set_is_empty(true).is_ok());
    assert_eq!(copy.is_empty(), Ok(true));
}

#[test]
fn duplicate_keeps_the_declaration_fields() {
    let d = decl(false);
    let c = d.duplicate();
    assert_eq!(c.name.as_str(), "name");
    assert!(matches!(c.kind, Type::Text));
    assert_eq!(c.global_id, None);
    assert!(!c.is_ref);
    assert_eq!(c.declared_at, d.declared_at);
}
