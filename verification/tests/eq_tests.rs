use amber_core::context::Context;
use amber_core::expression::Expr;
use amber_core::token::Failure;
use amber_core::token::Token;
use amber_core::translate::ArithOp;
use amber_core::translate::translate_computation;
use amber_core::translate::TranslateMetadata;
use amber_core::types::Type;
use amber_core::types::Typed;

fn toks(words: &[&str]) -> Vec<Token> {
    let mut out = Vec::new();
    for (k, w) in words.iter().enumerate() {
        out.push(Token { word: w.to_string(), pos: (1, k + 1), start: k });
    }
    out
}

#[test]
fn eq_static_type_is_always_bool() {
    let eq = amber_core::expression::Eq::new();
    assert!(matches!(eq.get_type(), Type::Bool));
}

#[test]
fn equal_text_literals_translate_to_string_test() {
    let mut ctx = Context::new(None, toks(&["\"abc\"", "==", "\"abc\""]));
    let mut eq = amber_core::expression::Eq::new();
    eq.parse(&mut ctx).expect("two text literals type-check");
    assert_eq!(ctx.index, 3);
    let mut meta = TranslateMetadata::new();
    let snippet = eq.translate(&mut meta);
    // The node emits the negated test; the surrounding evaluation convention
    // inverts the reported status back to "equal" semantics, so on equal
    // contents this snippet prints the truthy value.
    assert_eq!(snippet.as_str(), "$([ \"_abc\" != \"_abc\" ]; echo $?)");
}

#[test]
fn num_comparison_delegates_to_arithmetic_backend() {
    let mut ctx = Context::new(None, toks(&["1", "==", "2"]));
    let mut eq = amber_core::expression::Eq::new();
    eq.parse(&mut ctx).expect("two numbers type-check");
    let mut meta = TranslateMetadata::new();
    let snippet = eq.translate(&mut meta);
    let mut meta2 = TranslateMetadata::new();
    let backend = translate_computation(
        &mut meta2,
        ArithOp::Eq,
        Some("1".to_string()),
        Some("2".to_string()),
    );
    assert_eq!(snippet, backend);
    assert_eq!(snippet.as_str(), "$((1 == 2))");
}

#[test]
fn mismatched_operand_types_fail_loudly() {
    let mut ctx = Context::new(None, toks(&["\"abc\"", "==", "1"]));
    let mut eq = amber_core::expression::Eq::new();
    match eq.parse(&mut ctx) {
        Err(Failure::Loud(m)) => {
            assert_eq!(
                m.message.as_deref(),
                Some("Cannot compare two values of different types 'Text' == 'Num'")
            );
        }
        other => panic!("expected a loud failure, got {:?}", other),
    }
}

#[test]
fn eq_without_operator_is_quiet() {
    let mut ctx = Context::new(None, toks(&["1", "+", "2"]));
    let mut eq = amber_core::expression::Eq::new();
    assert!(matches!(eq.parse(&mut ctx), Err(Failure::Quiet(_))));
}

#[test]
fn expr_parse_falls_back_to_atom() {
    let mut ctx = Context::new(None, toks(&["true"]));
    let e = Expr::parse(&mut ctx).unwrap();
    assert!(matches!(e, Expr::BoolLit(true)));
    assert_eq!(ctx.index, 1);

    let mut ctx2 = Context::new(None, toks(&["42"]));
    let e2 = Expr::parse(&mut ctx2).unwrap();
    assert!(matches!(&e2, Expr::NumLit(s) if s.as_str() == "42"));
    assert!(matches!(e2.get_type(), Type::Num));
}

#[test]
fn eq_node_nests_on_the_right() {
    // true == (1 == 1): the right side is parsed at full precedence.
    let mut ctx = Context::new(None, toks(&["true", "==", "1", "==", "1"]));
    let e = Expr::parse(&mut ctx).unwrap();
    assert_eq!(ctx.index, 5);
    assert!(matches!(e, Expr::Eq(_)));
    let mut meta = TranslateMetadata::new();
    assert_eq!(e.translate(&mut meta).as_str(), "$((1 == $((1 == 1))))");
}

#[test]
fn eq_document_is_empty() {
    let ctx = Context::new(None, toks(&[]));
    let eq = amber_core::expression::Eq::new();
    assert_eq!(eq.document(&ctx).as_str(), "");
}
