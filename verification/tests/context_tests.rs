use amber_core::context::Context;
use amber_core::context::ScopeUnit;
use amber_core::context::VariableDecl;
use amber_core::token::Position;
use amber_core::token::PositionInfo;
use amber_core::token::Token;
use amber_core::types::Type;

fn toks(words: &[&str]) -> Vec<Token> {
    let mut out = Vec::new();
    for (k, w) in words.iter().enumerate() {
        out.push(Token { word: w.to_string(), pos: (1, k + 1), start: k });
    }
    out
}

fn pos_at(row: usize, col: usize) -> PositionInfo {
    PositionInfo { path: None, position: Position::Pos(row, col), start: 0, len: 1 }
}

#[test]
fn new_context_starts_clean() {
    let ctx = Context::new(Some("main.ab".to_string()), toks(&["let"]));
    assert_eq!(ctx.index, 0);
    assert_eq!(ctx.expr.len(), 1);
    assert!(ctx.scopes.is_empty());
    assert!(ctx.trace.is_empty());
    assert!(!ctx.is_fun_ctx);
    assert!(!ctx.is_loop_ctx);
    assert!(!ctx.is_main_ctx);
    assert!(!ctx.is_unsafe_ctx);
    assert!(ctx.pub_funs.is_empty());
    assert!(ctx.fun_ret_type.is_none());
    assert!(ctx.cc_flags.is_empty());
}

#[test]
fn function_invocation_resets_cursor_swaps_stream_keeps_scopes() {
    let mut ctx = Context::new(None, toks(&["a", "b", "c"]));
    ctx.set_index(2);
    let mut scope = ScopeUnit::new();
    scope.add_var(VariableDecl::new(
        "x".to_string(),
        Type::Text,
        None,
        false,
        true,
        pos_at(1, 1),
    ));
    ctx.scopes.push(scope);
    ctx.is_loop_ctx = true;

    let derived = ctx.function_invocation(toks(&["body"]));
    assert_eq!(derived.index, 0);
    assert_eq!(derived.expr.len(), 1);
    assert_eq!(derived.expr[0].word.as_str(), "body");
    assert!(derived.is_fun_ctx);
    // The scope stack contents are left unchanged.
    assert_eq!(derived.scopes.len(), 1);
    assert!(derived.scopes[0].get_var("x").is_some());
    // The other flags are untouched.
    assert!(derived.is_loop_ctx);
    assert!(!derived.is_main_ctx);
}

#[test]
fn file_import_appends_one_trace_entry_per_call() {
    let ctx = Context::new(None, toks(&["x"]));
    let first = pos_at(3, 7);
    let derived = ctx.file_import(&[], first.clone());
    assert_eq!(derived.trace.len(), 1);
    assert_eq!(derived.trace[0], first);

    let second = pos_at(9, 2);
    let prior = derived.trace.clone();
    let twice = derived.file_import(&prior, second.clone());
    assert_eq!(twice.trace.len(), 2);
    assert_eq!(twice.trace[0], first);
    assert_eq!(twice.trace[1], second);
    // No cursor or scope mutation happens on import.
    assert_eq!(twice.index, 0);
    assert_eq!(twice.expr[0].word.as_str(), "x");
    assert!(twice.scopes.is_empty());
}

#[test]
fn get_var_resolves_innermost_first() {
    let mut ctx = Context::new(None, toks(&[]));
    let mut outer = ScopeUnit::new();
    outer.add_var(VariableDecl::new(
        "x".to_string(),
        Type::Text,
        None,
        false,
        false,
        pos_at(1, 1),
    ));
    outer.add_var(VariableDecl::new(
        "y".to_string(),
        Type::Bool,
        None,
        false,
        false,
        pos_at(1, 2),
    ));
    let mut inner = ScopeUnit::new();
    inner.add_var(VariableDecl::new(
        "x".to_string(),
        Type::Num,
        None,
        false,
        false,
        pos_at(2, 1),
    ));
    ctx.scopes.push(outer);
    ctx.scopes.push(inner);

    // The innermost declaration shadows the outer one.
    assert!(matches!(ctx.get_var("x").unwrap().kind, Type::Num));
    // A name only declared outside is still found.
    assert!(matches!(ctx.get_var("y").unwrap().kind, Type::Bool));
    assert!(ctx.get_var("z").is_none());
}

#[test]
fn get_fun_resolves_innermost_first() {
    let mut ctx = Context::new(None, toks(&[]));
    let mut outer = ScopeUnit::new();
    outer.add_fun(amber_core::context::FunctionDecl {
        name: "f".to_string(),
        arg_names: Vec::new(),
        arg_types: Vec::new(),
        arg_refs: Vec::new(),
        arg_optionals: Vec::new(),
        returns: Type::Null,
        is_args_typed: false,
        is_public: false,
        is_failable: false,
        id: 1,
    });
    let mut inner = ScopeUnit::new();
    inner.add_fun(amber_core::context::FunctionDecl {
        name: "f".to_string(),
        arg_names: Vec::new(),
        arg_types: Vec::new(),
        arg_refs: Vec::new(),
        arg_optionals: Vec::new(),
        returns: Type::Null,
        is_args_typed: false,
        is_public: false,
        is_failable: false,
        id: 2,
    });
    ctx.scopes.push(outer);
    ctx.scopes.push(inner);
    assert_eq!(ctx.get_fun("f").unwrap().id, 2);
    assert!(ctx.get_fun("g").is_none());
}

#[test]
fn expect_word_advances_only_on_match() {
    let mut ctx = Context::new(None, toks(&["==", "5"]));
    assert!(ctx.expect_word("==").is_ok());
    assert_eq!(ctx.index, 1);
    assert!(ctx.expect_word("==").is_err());
    assert_eq!(ctx.index, 1);
}
