use amber_core::context::Context;
use amber_core::token::Failure;
use amber_core::token::Token;
use amber_core::types::equals;
use amber_core::types::parse_type;
use amber_core::types::try_parse_type;
use amber_core::types::Type;

fn toks(words: &[&str]) -> Vec<Token> {
    let mut out = Vec::new();
    let mut col = 1;
    for (k, w) in words.iter().enumerate() {
        out.push(Token { word: w.to_string(), pos: (1, col), start: k });
        col += 1;
    }
    out
}

fn boxed(items: Vec<Type>) -> Vec<Box<Type>> {
    items.into_iter().map(Box::new).collect()
}

#[test]
fn default_type_is_null() {
    assert!(matches!(Type::default(), Type::Null));
}

#[test]
fn render_primitives() {
    assert_eq!(Type::Text.render().as_str(), "Text");
    assert_eq!(Type::Bool.render().as_str(), "Bool");
    assert_eq!(Type::Num.render().as_str(), "Num");
    assert_eq!(Type::Null.render().as_str(), "Null");
    assert_eq!(Type::Generic.render().as_str(), "Generic");
}

#[test]
fn render_compound() {
    assert_eq!(Type::Array(Box::new(Type::Text)).render().as_str(), "[Text]");
    assert_eq!(Type::Failable(Box::new(Type::Text)).render().as_str(), "Text?");
    let u = Type::Union(boxed(vec![Type::Text, Type::Num]));
    assert_eq!(u.render().as_str(), "Text | Num");
}

#[test]
fn equals_reflexive_non_union() {
    for t in [
        Type::Text,
        Type::Bool,
        Type::Num,
        Type::Null,
        Type::Generic,
        Type::Array(Box::new(Type::Text)),
        Type::Failable(Box::new(Type::Text)),
    ] {
        assert!(equals(&t, &t), "{} should equal itself", t.render());
    }
}

#[test]
fn equals_empty_union_not_reflexive() {
    let e = Type::Union(vec![]);
    assert!(!equals(&e, &e));
}

#[test]
fn equals_symmetric_pairs() {
    let u = Type::Union(boxed(vec![Type::Text, Type::Num]));
    assert!(equals(&u, &Type::Text));
    assert!(equals(&Type::Text, &u));
    assert!(!equals(&u, &Type::Bool));
    assert!(!equals(&Type::Bool, &u));
    assert!(equals(&Type::Num, &Type::Num));
    assert!(!equals(&Type::Num, &Type::Text));
    assert!(!equals(&Type::Text, &Type::Num));
}

#[test]
fn equals_overlap_is_not_transitive() {
    let a = Type::Union(boxed(vec![Type::Text, Type::Num]));
    let b = Type::Union(boxed(vec![Type::Num, Type::Bool]));
    let c = Type::Union(boxed(vec![Type::Bool, Type::Text]));
    assert!(equals(&a, &b));
    assert!(equals(&b, &c));
    // Here a and c happen to share Text, so the relation holds of them too.
    assert!(equals(&a, &c));
    // A bridging middle union shows the genuine failure of transitivity.
    let only_text = Type::Union(boxed(vec![Type::Text]));
    let bridge = Type::Union(boxed(vec![Type::Text, Type::Num]));
    let only_num = Type::Union(boxed(vec![Type::Num]));
    assert!(equals(&only_text, &bridge));
    assert!(equals(&bridge, &only_num));
    assert!(!equals(&only_text, &only_num));
}

#[test]
fn parse_text_yields_text() {
    let mut ctx = Context::new(None, toks(&["Text"]));
    let t = try_parse_type(&mut ctx).unwrap();
    assert!(matches!(t, Type::Text));
    assert_eq!(ctx.index, 1);
}

#[test]
fn parse_array_of_text() {
    let mut ctx = Context::new(None, toks(&["[", "Text", "]"]));
    let t = try_parse_type(&mut ctx).unwrap();
    assert!(matches!(&t, Type::Array(inner) if matches!(**inner, Type::Text)));
}

#[test]
fn parse_nested_array_is_loud() {
    let mut ctx = Context::new(None, toks(&["[", "[", "Text", "]", "]"]));
    match try_parse_type(&mut ctx) {
        Err(Failure::Loud(m)) => {
            assert_eq!(
                m.message.as_deref(),
                Some("Arrays cannot be nested due to the Bash limitations")
            );
        }
        other => panic!("expected a loud failure, got {:?}", other),
    }
}

#[test]
fn parse_string_suggests_text() {
    let mut ctx = Context::new(None, toks(&["String"]));
    match try_parse_type(&mut ctx) {
        Err(Failure::Loud(m)) => {
            assert_eq!(
                m.message.as_deref(),
                Some("'String' is not a valid data type. Did you mean 'Text'?")
            );
        }
        other => panic!("expected a loud failure, got {:?}", other),
    }
}

#[test]
fn parse_boolean_suggests_bool() {
    let mut ctx = Context::new(None, toks(&["Boolean"]));
    match try_parse_type(&mut ctx) {
        Err(Failure::Loud(m)) => {
            assert_eq!(
                m.message.as_deref(),
                Some("'Boolean' is not a valid data type. Did you mean 'Bool'?")
            );
        }
        other => panic!("expected a loud failure, got {:?}", other),
    }
}

#[test]
fn parse_list_suggests_brackets_with_comment() {
    let mut ctx = Context::new(None, toks(&["List"]));
    match try_parse_type(&mut ctx) {
        Err(Failure::Loud(m)) => {
            assert_eq!(
                m.message.as_deref(),
                Some("'List'<T> is not a valid data type. Did you mean '[T]'?")
            );
            assert_eq!(
                m.comment.as_deref(),
                Some("Where 'T' is the type of the array elements")
            );
        }
        other => panic!("expected a loud failure, got {:?}", other),
    }
}

#[test]
fn parse_union_of_text_and_num() {
    let mut ctx = Context::new(None, toks(&["Text", "|", "Num"]));
    let t = try_parse_type(&mut ctx).unwrap();
    assert_eq!(t.render().as_str(), "Text | Num");
    assert!(t.is_union());
    assert!(equals(&t, &Type::Union(boxed(vec![Type::Text, Type::Num]))));
}

#[test]
fn parse_failable_text() {
    let mut ctx = Context::new(None, toks(&["Text", "?"]));
    let t = try_parse_type(&mut ctx).unwrap();
    assert!(matches!(&t, Type::Failable(inner) if matches!(**inner, Type::Text)));
}

#[test]
fn parse_unknown_word_is_quiet() {
    let mut ctx = Context::new(None, toks(&["frobnicate"]));
    match try_parse_type(&mut ctx) {
        Err(Failure::Quiet(_)) => {}
        other => panic!("expected a quiet failure, got {:?}", other),
    }
    assert_eq!(ctx.index, 0);
}

#[test]
fn parse_type_reports_expected_data_type() {
    let mut ctx = Context::new(None, toks(&["frobnicate"]));
    match parse_type(&mut ctx) {
        Err(Failure::Loud(m)) => {
            assert_eq!(m.message.as_deref(), Some("Expected a data type"));
        }
        other => panic!("expected a loud failure, got {:?}", other),
    }
}

#[test]
fn render_round_trips_through_grammar() {
    let cases: Vec<(Type, Vec<&str>)> = vec![
        (Type::Text, vec!["Text"]),
        (Type::Bool, vec!["Bool"]),
        (Type::Num, vec!["Num"]),
        (Type::Null, vec!["Null"]),
        (Type::Array(Box::new(Type::Text)), vec!["[", "Text", "]"]),
        (Type::Failable(Box::new(Type::Text)), vec!["Text", "?"]),
        (
            Type::Union(boxed(vec![Type::Text, Type::Num])),
            vec!["Text", "|", "Num"],
        ),
    ];
    for (original, words) in cases {
        // The token words are the canonical rendering split into lexemes.
        assert_eq!(original.render().replace(' ', ""), words.concat().replace(' ', ""));
        let mut ctx = Context::new(None, toks(&words));
        let reparsed = try_parse_type(&mut ctx).unwrap();
        assert!(
            equals(&reparsed, &original),
            "{} did not round-trip",
            original.render()
        );
        assert_eq!(reparsed.render(), original.render());
    }
}
