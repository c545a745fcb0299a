use amber_core::context::FunctionDecl;
use amber_core::context::ScopeUnit;
use amber_core::context::VariableDecl;
use amber_core::token::Position;
use amber_core::token::PositionInfo;
use amber_core::types::Type;

fn pos() -> PositionInfo {
    PositionInfo { path: None, position: Position::Pos(1, 1), start: 0, len: 1 }
}

fn fun(name: &str, id: usize) -> FunctionDecl {
    FunctionDecl {
        name: name.to_string(),
        arg_names: Vec::new(),
        arg_types: Vec::new(),
        arg_refs: Vec::new(),
        arg_optionals: Vec::new(),
        returns: Type::Null,
        is_args_typed: false,
        is_public: false,
        is_failable: false,
        id,
    }
}

fn var(name: &str, kind: Type) -> VariableDecl {
    VariableDecl::new(name.to_string(), kind, None, false, false, pos())
}

#[test]
fn add_fun_detects_duplicates_but_replaces() {
    let mut scope = ScopeUnit::new();
    assert!(scope.add_fun(fun("main", 1)));
    assert!(!scope.add_fun(fun("main", 2)));
    // The stored declaration is the latest insertion regardless.
    assert_eq!(scope.get_fun("main").unwrap().id, 2);
    assert_eq!(scope.get_fun_names().len(), 1);
}

#[test]
fn add_fun_distinct_names_both_held() {
    let mut scope = ScopeUnit::new();
    assert!(scope.add_fun(fun("foo", 1)));
    assert!(scope.add_fun(fun("bar", 2)));
    assert_eq!(scope.get_fun("foo").unwrap().id, 1);
    assert_eq!(scope.get_fun("bar").unwrap().id, 2);
    assert_eq!(scope.get_fun_names().len(), 2);
}

#[test]
fn add_var_overwrites_same_name() {
    let mut scope = ScopeUnit::new();
    scope.add_var(var("x", Type::Text));
    scope.add_var(var("x", Type::Num));
    let got = scope.get_var("x").unwrap();
    assert!(matches!(got.kind, Type::Num));
    assert_eq!(scope.get_var_names().len(), 1);
    assert_eq!(scope.get_all_vars().len(), 1);
}

#[test]
fn get_var_absent_is_none() {
    let scope = ScopeUnit::new();
    assert!(scope.get_var("nope").is_none());
    assert!(scope.get_fun("nope").is_none());
    assert!(scope.get_var_names().is_empty());
    assert!(scope.get_fun_names().is_empty());
}

#[test]
fn into_interface_keeps_every_field() {
    let mut f = fun("pow", 7);
    f.is_public = true;
    f.is_failable = true;
    let i = f.into_interface();
    assert_eq!(i.id, Some(7));
    assert_eq!(i.name.as_str(), "pow");
    assert!(i.is_public);
    assert!(i.is_failable);
    assert!(matches!(i.returns, Type::Null));
}
