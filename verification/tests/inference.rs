use scribe::parser::{parse_yul_syntax, try_parse_yul_syntax};
use scribe::type_inference::{infer_types, try_infer_types};
use scribe::types::{Expr, ExprLiteral, ExprLiteralNumber, YulType};

#[test]
fn inference_is_idempotent() {
    let ast = try_parse_yul_syntax(
        "let x:u32 := 1
        let y := add(x, 2)
        function f(a:u32) -> b:u32 { b := a }
        if lt(y, 3) { y := 4 }",
    )
    .unwrap();
    let once = try_infer_types(&ast).unwrap();
    let twice = try_infer_types(&once).unwrap();
    assert_eq!(once, twice);
}

#[test]
fn inference_defaults_to_u256() {
    let ast = parse_yul_syntax("let x := 5");
    let typed = infer_types(&ast);
    match &typed[0] {
        Expr::DeclareVariable(d) => {
            assert_eq!(d.typed_identifiers[0].identifier, "x");
            assert_eq!(d.typed_identifiers[0].yul_type, YulType::U256);
            match d.rhs.as_deref() {
                Some(Expr::Literal(ExprLiteral::Number(ExprLiteralNumber { inferred_type, value }))) => {
                    assert_eq!(*inferred_type, Some(YulType::U256));
                    assert_eq!(value.limb0, 5);
                }
                _ => panic!("expected a number"),
            }
        }
        _ => panic!("expected a declaration"),
    }
}

#[test]
fn inference_gives_a_typed_variable_its_type() {
    let ast = parse_yul_syntax("let x:u32 := 5");
    let typed = infer_types(&ast);
    match &typed[0] {
        Expr::DeclareVariable(d) => match d.rhs.as_deref() {
            Some(Expr::Literal(ExprLiteral::Number(n))) => assert_eq!(n.inferred_type, Some(YulType::U32)),
            _ => panic!("expected a number"),
        },
        _ => panic!("expected a declaration"),
    }
}

#[test]
fn inference_keeps_the_statements() {
    let ast = parse_yul_syntax("let x := 1\nx := 2\nx");
    let typed = infer_types(&ast);
    assert_eq!(typed.len(), 3);
    assert!(matches!(typed[0], Expr::DeclareVariable(_)));
    assert!(matches!(typed[1], Expr::Assignment(_)));
    match &typed[2] {
        Expr::Variable(v) => {
            assert_eq!(v.identifier, "x");
            assert_eq!(v.inferred_type, Some(YulType::U256));
        }
        _ => panic!("expected a variable"),
    }
}
