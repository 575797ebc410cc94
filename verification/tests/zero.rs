use scribe::types::{
    Expr, ExprAssignment, ExprBlock, ExprDeclareVariable, ExprForLoop, ExprFunctionCall,
    ExprFunctionDefinition, ExprIfStatement, ExprLiteral, ExprLiteralNumber, ExprRepeat,
    ExprVariableReference, TypedIdentifier, YulType,
};
use scribe::u256::U256;
use scribe::zero_generator::{
    transpile_program, GeneralInstruction, ImmediateOrMacro, Instruction, LocalOrImmediate,
    PseudoInstruction,
};

fn u32_literal(v: u32) -> Expr {
    Expr::Literal(ExprLiteral::Number(ExprLiteralNumber {
        inferred_type: Some(YulType::U32),
        value: U256::from_u32(v),
    }))
}

fn block(exprs: Vec<Expr>) -> ExprBlock {
    ExprBlock { exprs }
}

fn move32_imm(v: u32, dst: u32) -> GeneralInstruction {
    GeneralInstruction::Real(Instruction::Move32 {
        val: LocalOrImmediate::Immediate(ImmediateOrMacro::Immediate(v)),
        dst,
    })
}

fn move32_local(src: u32, dst: u32) -> GeneralInstruction {
    GeneralInstruction::Real(Instruction::Move32 { val: LocalOrImmediate::Local(src), dst })
}

fn label(l: &str) -> GeneralInstruction {
    GeneralInstruction::Pseudo(PseudoInstruction::Label { label: l.to_string() })
}

fn jump(l: &str) -> GeneralInstruction {
    GeneralInstruction::Pseudo(PseudoInstruction::Jump {
        addr: ImmediateOrMacro::AddrOf(l.to_string()),
    })
}

fn jump_if(l: &str) -> GeneralInstruction {
    GeneralInstruction::Pseudo(PseudoInstruction::JumpIf {
        cond: LocalOrImmediate::Local(4096),
        addr: ImmediateOrMacro::AddrOf(l.to_string()),
    })
}

fn declare(name: &str, t: YulType, rhs: Option<Expr>) -> Expr {
    Expr::DeclareVariable(ExprDeclareVariable {
        typed_identifiers: vec![TypedIdentifier { identifier: name.to_string(), yul_type: t }],
        rhs: rhs.map(Box::new),
    })
}

#[test]
fn zero_declaration_and_assignment_use_the_scope_offsets() {
    let program = vec![Expr::Block(block(vec![
        declare("x", YulType::U32, Some(u32_literal(5))),
        declare("y", YulType::U32, None),
        Expr::Assignment(ExprAssignment {
            identifiers: vec!["y".to_string()],
            inferred_types: vec![Some(YulType::U32)],
            rhs: Box::new(Expr::Variable(ExprVariableReference {
                identifier: "x".to_string(),
                inferred_type: Some(YulType::U32),
            })),
        }),
    ]))];
    let out = transpile_program(program).unwrap();
    assert_eq!(
        out,
        vec![move32_imm(5, 4096), move32_local(4096, 0), move32_local(0, 4096), move32_local(4096, 1)]
    );
}

#[test]
fn zero_u256_variables_take_eight_words() {
    let program = vec![Expr::Block(block(vec![
        declare("a", YulType::U256, None),
        declare("b", YulType::U32, None),
        Expr::Variable(ExprVariableReference { identifier: "a".to_string(), inferred_type: None }),
        Expr::Variable(ExprVariableReference { identifier: "b".to_string(), inferred_type: None }),
    ]))];
    let out = transpile_program(program).unwrap();
    assert_eq!(
        out,
        vec![
            GeneralInstruction::Real(Instruction::Move256 { val: 0, dst: 4096 }),
            move32_local(8, 4096),
        ]
    );
}

#[test]
fn zero_declaration_at_top_level_is_refused() {
    assert!(transpile_program(vec![declare("x", YulType::U32, Some(u32_literal(1)))]).is_none());
}

#[test]
fn zero_u256_literal_is_written_as_eight_words() {
    let value = U256 { limb0: (1u64 << 32) + 3, limb1: 5, limb2: 0, limb3: 1 << 63 };
    let program = vec![Expr::Literal(ExprLiteral::Number(ExprLiteralNumber { inferred_type: None, value }))];
    let out = transpile_program(program).unwrap();
    assert_eq!(
        out,
        vec![
            move32_imm(3, 4096),
            move32_imm(1, 4097),
            move32_imm(5, 4098),
            move32_imm(0, 4099),
            move32_imm(0, 4100),
            move32_imm(0, 4101),
            move32_imm(0, 4102),
            move32_imm(1 << 31, 4103),
        ]
    );
}

#[test]
fn zero_u32_literal_that_does_not_fit_is_refused() {
    let value = U256 { limb0: 1u64 << 32, limb1: 0, limb2: 0, limb3: 0 };
    let program = vec![Expr::Literal(ExprLiteral::Number(ExprLiteralNumber {
        inferred_type: Some(YulType::U32),
        value,
    }))];
    assert!(transpile_program(program).is_none());
}

#[test]
fn zero_string_literal_is_refused() {
    let program = vec![Expr::Literal(ExprLiteral::String("a".to_string()))];
    assert!(transpile_program(program).is_none());
}

#[test]
fn zero_if_jumps_past_its_body() {
    let program = vec![Expr::IfStatement(ExprIfStatement {
        first_expr: Box::new(u32_literal(0)),
        second_expr: Box::new(block(vec![u32_literal(9)])),
    })];
    let out = transpile_program(program).unwrap();
    assert_eq!(out, vec![move32_imm(0, 4096), jump_if("if0"), move32_imm(9, 4096), label("if0")]);
}

#[test]
fn zero_for_loop_with_break() {
    let program = vec![Expr::ForLoop(ExprForLoop {
        init_block: Box::new(block(vec![])),
        conditional: Box::new(u32_literal(1)),
        after_block: Box::new(block(vec![])),
        interior_block: Box::new(block(vec![Expr::Break])),
    })];
    let out = transpile_program(program).unwrap();
    assert_eq!(
        out,
        vec![
            label("pre0"),
            move32_imm(1, 4096),
            jump_if("post0"),
            jump("post0"),
            label("after0"),
            jump("pre0"),
            label("post0"),
        ]
    );
}

#[test]
fn zero_repeat_counts_with_a_fresh_variable() {
    let program = vec![
        Expr::Repeat(ExprRepeat { interior_block: Box::new(block(vec![Expr::Continue])), iterations: 3 }),
        Expr::Repeat(ExprRepeat { interior_block: Box::new(block(vec![])), iterations: 1 }),
    ];
    let out = transpile_program(program).unwrap();
    let var = |n: &str| LocalOrImmediate::Immediate(ImmediateOrMacro::AddrOf(n.to_string()));
    assert_eq!(
        out,
        vec![
            label("pre0"),
            GeneralInstruction::Pseudo(PseudoInstruction::Init { name: "var0".to_string() }),
            GeneralInstruction::Real(Instruction::JumpGE {
                x: var("var0"),
                y: LocalOrImmediate::Immediate(ImmediateOrMacro::Immediate(3)),
                addr: ImmediateOrMacro::AddrOf("post0".to_string()),
            }),
            jump("after0"),
            label("after0"),
            GeneralInstruction::Pseudo(PseudoInstruction::Incr { x: var("var0") }),
            jump("pre0"),
            label("post0"),
            label("pre1"),
            GeneralInstruction::Pseudo(PseudoInstruction::Init { name: "var1".to_string() }),
            GeneralInstruction::Real(Instruction::JumpGE {
                x: var("var1"),
                y: LocalOrImmediate::Immediate(ImmediateOrMacro::Immediate(1)),
                addr: ImmediateOrMacro::AddrOf("post1".to_string()),
            }),
            label("after1"),
            GeneralInstruction::Pseudo(PseudoInstruction::Incr { x: var("var1") }),
            jump("pre1"),
            label("post1"),
        ]
    );
}

#[test]
fn zero_break_outside_a_loop_is_refused() {
    assert!(transpile_program(vec![Expr::Break]).is_none());
    assert!(transpile_program(vec![Expr::Continue]).is_none());
}

fn call(name: &str, args: Vec<Expr>, returns: usize) -> Expr {
    Expr::FunctionCall(ExprFunctionCall {
        function_name: name.to_string(),
        exprs: Box::new(args),
        inferred_return_types: vec![Some(YulType::U32); returns],
        inferred_param_types: vec![],
    })
}

#[test]
fn zero_function_definition_and_call() {
    let program = vec![
        Expr::FunctionDefinition(ExprFunctionDefinition {
            function_name: "f".to_string(),
            params: vec![],
            returns: vec![],
            block: block(vec![]),
        }),
        call("f", vec![u32_literal(7), u32_literal(8)], 1),
    ];
    let out = transpile_program(program).unwrap();
    let callee_write = |i: u32| {
        GeneralInstruction::Real(Instruction::CalleeWrite { index: i, val: LocalOrImmediate::Local(4096) })
    };
    assert_eq!(
        out,
        vec![
            jump("end_of_f"),
            label("f"),
            GeneralInstruction::Real(Instruction::Ret),
            label("end_of_f"),
            move32_imm(7, 4096),
            callee_write(0),
            move32_imm(8, 4096),
            callee_write(1),
            GeneralInstruction::Real(Instruction::Call { addr: ImmediateOrMacro::AddrOf("f".to_string()) }),
            callee_write(0),
        ]
    );
}

#[test]
fn zero_call_with_two_results_is_refused() {
    assert!(transpile_program(vec![call("g", vec![], 2)]).is_none());
}

#[test]
fn zero_call_without_result_writes_nothing_back() {
    let out = transpile_program(vec![call("g", vec![], 0)]).unwrap();
    assert_eq!(
        out,
        vec![GeneralInstruction::Real(Instruction::Call { addr: ImmediateOrMacro::AddrOf("g".to_string()) })]
    );
}

#[test]
fn zero_program_of_leading_statements_is_a_prefix() {
    let first = || {
        vec![
            u32_literal(1),
            Expr::Repeat(ExprRepeat { interior_block: Box::new(block(vec![Expr::Break])), iterations: 2 }),
        ]
    };
    let part = transpile_program(first()).unwrap();
    let mut whole_program = first();
    whole_program.push(u32_literal(2));
    whole_program.push(Expr::Repeat(ExprRepeat { interior_block: Box::new(block(vec![])), iterations: 1 }));
    let whole = transpile_program(whole_program).unwrap();
    assert!(whole.len() > part.len());
    assert_eq!(&whole[..part.len()], &part[..]);
}
