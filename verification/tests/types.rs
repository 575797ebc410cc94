use scribe::miden_generator::{stack_debug_text, StackValue};
use scribe::types::{
    format_inferred_types, inferred_type_to_string, Expr, ExprFunctionCall, ExprLiteral, ExprLiteralNumber,
    ExprVariableReference, TypedIdentifier, YulType,
};
use scribe::u256::U256;
use scribe::utils::{convert_u256_to_pushes, join_u32s_to_u256, split_u256_to_u32s};

#[test]
fn yul_type_widths() {
    assert_eq!(YulType::U32.miden_stack_width(), 1);
    assert_eq!(YulType::U256.miden_stack_width(), 8);
    assert_eq!(YulType::U32.miden_memory_addresses(), 1);
    assert_eq!(YulType::U256.miden_memory_addresses(), 2);
}

#[test]
fn yul_type_names() {
    assert_eq!(YulType::from_annotation("u32"), YulType::U32);
    assert_eq!(YulType::from_annotation("u256"), YulType::U256);
    assert_eq!(YulType::U32.to_string(), "u32");
    assert_eq!(YulType::U256.to_string(), "u256");
    let t = TypedIdentifier { identifier: "x".to_string(), yul_type: YulType::U256 };
    assert_eq!(t.to_string(), "x:u256");
}

#[test]
fn inferred_type_texts() {
    assert_eq!(inferred_type_to_string(&Some(YulType::U32)), "u32");
    assert_eq!(inferred_type_to_string(&None), "unknown");
    assert_eq!(format_inferred_types(&vec![Some(YulType::U32), None, Some(YulType::U256)]), "u32, unknown, u256");
    assert_eq!(format_inferred_types(&vec![]), "");
}

#[test]
fn inferred_type_of_expressions() {
    let lit = Expr::Literal(ExprLiteral::Number(ExprLiteralNumber {
        inferred_type: Some(YulType::U32),
        value: U256::from_u32(3),
    }));
    assert_eq!(lit.get_inferred_type(), Some(YulType::U32));
    let call = Expr::FunctionCall(ExprFunctionCall {
        function_name: "f".to_string(),
        exprs: Box::new(vec![]),
        inferred_return_types: vec![Some(YulType::U256), Some(YulType::U32)],
        inferred_param_types: vec![],
    });
    assert_eq!(call.get_inferred_type(), Some(YulType::U256));
    let v = Expr::Variable(ExprVariableReference { identifier: "v".to_string(), inferred_type: None });
    assert_eq!(v.get_inferred_type(), None);
}

#[test]
fn u256_splits_into_words_most_significant_first() {
    let x = U256 { limb0: (7u64 << 32) + 1, limb1: 2, limb2: 0, limb3: 3u64 << 32 };
    assert_eq!(split_u256_to_u32s(&x), vec![3, 0, 0, 0, 0, 2, 7, 1]);
}

#[test]
fn u256_joins_from_words_most_significant_first() {
    let x = join_u32s_to_u256(vec![3, 0, 0, 0, 0, 2, 7, 1]);
    assert_eq!(x, U256 { limb0: (7u64 << 32) + 1, limb1: 2, limb2: 0, limb3: 3u64 << 32 });
    // Only the first eight words count; fewer words are the low end.
    assert_eq!(join_u32s_to_u256(vec![0, 0, 0, 0, 0, 0, 0, 5, 9]), U256::from_u32(5));
    assert_eq!(join_u32s_to_u256(vec![1, 2]), U256 { limb0: (1u64 << 32) + 2, limb1: 0, limb2: 0, limb3: 0 });
}

#[test]
fn u256_pushes_least_significant_word_first() {
    let x = U256 { limb0: (7u64 << 32) + 1, limb1: 0, limb2: 0, limb3: 0 };
    let words = [1u32, 7, 0, 0, 0, 0, 0, 0];
    let expected = words.iter().map(|w| format!("push.{:<10}", w)).collect::<Vec<_>>().join(" ");
    assert_eq!(convert_u256_to_pushes(&x), expected);
}

#[test]
fn stack_debug_text_lists_the_slots() {
    let stack = vec![
        StackValue {
            typed_identifier: Some(TypedIdentifier { identifier: "x".to_string(), yul_type: YulType::U32 }),
            yul_type: YulType::U32,
        },
        StackValue { typed_identifier: None, yul_type: YulType::U256 },
    ];
    assert_eq!(stack_debug_text(&stack), "\nx:u32\nUNKNOWN:u256\n");
}

#[test]
fn split_and_join() {
    for x in [
        U256 { limb0: 0, limb1: 0, limb2: 0, limb3: 0 },
        U256 { limb0: u64::MAX, limb1: 1, limb2: (5u64 << 32) + 9, limb3: u64::MAX - 3 },
        U256 { limb0: 0x1234_5678_9abc_def0, limb1: 42, limb2: 0, limb3: 1 << 63 },
    ] {
        assert_eq!(join_u32s_to_u256(split_u256_to_u32s(&x)), x);
    }
    for v in [vec![0u32; 8], vec![1, 2, 3, 4, 5, 6, 7, 8], vec![u32::MAX, 0, u32::MAX, 0, 7, u32::MAX, 1, 2]] {
        assert_eq!(split_u256_to_u32s(&join_u32s_to_u256(v.clone())), v);
    }
}
