use scribe::optimizer::{walk_ast, ForLoopToRepeatVisitor};
use scribe::types::{
    Expr, ExprAssignment, ExprBlock, ExprDeclareVariable, ExprForLoop, ExprFunctionCall, ExprLiteral,
    ExprLiteralNumber, ExprRepeat, ExprVariableReference, TypedIdentifier, YulType,
};
use scribe::u256::U256;

fn number(v: u64) -> Expr {
    Expr::Literal(ExprLiteral::Number(ExprLiteralNumber {
        inferred_type: None,
        value: U256 { limb0: v, limb1: 0, limb2: 0, limb3: 0 },
    }))
}

fn var(name: &str) -> Expr {
    Expr::Variable(ExprVariableReference { identifier: name.to_string(), inferred_type: None })
}

fn call(name: &str, args: Vec<Expr>) -> Expr {
    Expr::FunctionCall(ExprFunctionCall {
        function_name: name.to_string(),
        exprs: Box::new(args),
        inferred_return_types: vec![],
        inferred_param_types: vec![],
    })
}

fn counted_loop(start: u64, cond: &str, bound: u64, step: Expr, body: Vec<Expr>) -> Expr {
    Expr::ForLoop(ExprForLoop {
        init_block: Box::new(ExprBlock {
            exprs: vec![Expr::DeclareVariable(ExprDeclareVariable {
                typed_identifiers: vec![TypedIdentifier { identifier: "i".to_string(), yul_type: YulType::U32 }],
                rhs: Some(Box::new(number(start))),
            })],
        }),
        conditional: Box::new(call(cond, vec![var("i"), number(bound)])),
        after_block: Box::new(ExprBlock {
            exprs: vec![Expr::Assignment(ExprAssignment {
                identifiers: vec!["i".to_string()],
                inferred_types: vec![],
                rhs: Box::new(step),
            })],
        }),
        interior_block: Box::new(ExprBlock { exprs: body }),
    })
}

fn repeat(iterations: u32, body: Vec<Expr>) -> Expr {
    Expr::Repeat(ExprRepeat { interior_block: Box::new(ExprBlock { exprs: body }), iterations })
}

fn rewrite(e: Expr) -> Vec<Expr> {
    walk_ast(vec![e], &mut ForLoopToRepeatVisitor {})
}

#[test]
fn for_loop_counting_up_by_add_starts_at_the_let_value() {
    // i = 2, 4, 6, 8
    let l = counted_loop(2, "lt", 10, call("add", vec![var("i"), number(2)]), vec![call("mstore", vec![number(1), number(2)])]);
    assert_eq!(rewrite(l), vec![repeat(4, vec![call("mstore", vec![number(1), number(2)])])]);
    // i = 0, 3, 6, 9: the count rounds up
    assert_eq!(rewrite(counted_loop(0, "lt", 10, call("add", vec![number(3), var("i")]), vec![])), vec![repeat(4, vec![])]);
    // already past the bound
    assert_eq!(rewrite(counted_loop(12, "lt", 10, call("add", vec![var("i"), number(1)]), vec![])), vec![repeat(0, vec![])]);
}

#[test]
fn for_loop_counting_down_by_sub() {
    // i = 10, 7, 4
    assert_eq!(rewrite(counted_loop(10, "gt", 2, call("sub", vec![var("i"), number(3)]), vec![])), vec![repeat(3, vec![])]);
}

#[test]
fn for_loop_by_mul_and_div() {
    // i = 1, 3, 9, 27, 81
    assert_eq!(rewrite(counted_loop(1, "lt", 100, call("mul", vec![var("i"), number(3)]), vec![])), vec![repeat(5, vec![])]);
    // i = 100, 50, 25, 12, 6, 3
    assert_eq!(rewrite(counted_loop(100, "gt", 1, call("div", vec![var("i"), number(2)]), vec![])), vec![repeat(6, vec![])]);
}

#[test]
fn for_loop_that_cannot_be_counted_is_kept() {
    let keep = |l: fn() -> Expr| assert_eq!(rewrite(l()), vec![l()]);
    // another condition
    keep(|| counted_loop(0, "eq", 10, call("add", vec![var("i"), number(2)]), vec![]));
    // multiplying from zero never ends
    keep(|| counted_loop(0, "lt", 10, call("mul", vec![var("i"), number(2)]), vec![]));
    // a zero step never ends
    keep(|| counted_loop(0, "lt", 10, call("add", vec![var("i"), number(0)]), vec![]));
    // counting up while looking for a smaller value
    keep(|| counted_loop(0, "gt", 10, call("add", vec![var("i"), number(1)]), vec![]));
    // a step past zero
    keep(|| counted_loop(5, "gt", 0, call("sub", vec![var("i"), number(3)]), vec![]));
}

#[test]
fn walk_keeps_plain_statements() {
    let out = walk_ast(vec![call("add", vec![number(1), var("x")]), var("y")], &mut ForLoopToRepeatVisitor {});
    assert_eq!(out, vec![call("add", vec![number(1), var("x")]), var("y")]);
}

#[test]
fn visit_leaves_other_expressions() {
    assert_eq!(ForLoopToRepeatVisitor {}.visit_expr(var("x")), Some(var("x")));
    let l = counted_loop(2, "lt", 10, call("add", vec![var("i"), number(2)]), vec![]);
    assert_eq!(ForLoopToRepeatVisitor {}.visit_expr(l), Some(repeat(4, vec![])));
}

fn loop_with_after(after: Expr) -> Expr {
    Expr::ForLoop(ExprForLoop {
        init_block: Box::new(ExprBlock {
            exprs: vec![Expr::DeclareVariable(ExprDeclareVariable {
                typed_identifiers: vec![TypedIdentifier { identifier: "i".to_string(), yul_type: YulType::U32 }],
                rhs: Some(Box::new(number(0))),
            })],
        }),
        conditional: Box::new(call("lt", vec![var("i"), number(10)])),
        after_block: Box::new(ExprBlock { exprs: vec![after] }),
        interior_block: Box::new(ExprBlock { exprs: vec![var("y")] }),
    })
}

#[test]
fn for_loop_whose_after_statement_is_no_assignment_becomes_that_statement() {
    let out = rewrite(loop_with_after(call("mstore", vec![number(1), var("i")])));
    assert_eq!(out, vec![call("mstore", vec![number(1), var("i")])]);
}

#[test]
fn for_loop_assigned_by_no_step_call_repeats_zero_times() {
    let assign = |rhs: Expr| {
        Expr::Assignment(ExprAssignment { identifiers: vec!["i".to_string()], inferred_types: vec![], rhs: Box::new(rhs) })
    };
    assert_eq!(rewrite(loop_with_after(assign(number(5)))), vec![repeat(0, vec![var("y")])]);
    assert_eq!(rewrite(loop_with_after(assign(call("shl", vec![var("i"), number(1)])))), vec![repeat(0, vec![var("y")])]);
}
