use scribe::ast_tree::expressions_to_tree;
use scribe::parser::try_parse_yul_syntax;
use scribe::type_inference::try_infer_types;

fn parse_to_tree(yul: &str) -> String {
    let ast = try_parse_yul_syntax(yul).unwrap();
    let ast_with_inferred_types = try_infer_types(&ast).unwrap();
    expressions_to_tree(&ast_with_inferred_types).unwrap()
}

#[test]
fn parse_var_declaration() {
    assert_eq!(
        parse_to_tree(
            "let x := 1
            let y := 2"
        ),
        "AST\n├╼ declare - x:u256\n│ └╼ 1:u256\n└╼ declare - y:u256\n  └╼ 2:u256"
    );
}

#[test]
fn parse_var_declaration_with_types() {
    assert_eq!(
        parse_to_tree(
            "let x:u32 := 1
            let y:u256 := 2
            let z := 2
            "
        ),
        "AST\n├╼ declare - x:u32\n│ └╼ 1:u32\n├╼ declare - y:u256\n│ └╼ 2:u256\n└╼ declare - z:u256\n  └╼ 2:u256"
    );
}

#[test]
fn parse_function_call() {
    assert_eq!(parse_to_tree("add(1,2)"), "AST\n└╼ add(u256, u256): \n  ├╼ 1:u256\n  └╼ 2:u256");
}

#[test]
fn parse_var_and_add() {
    assert_eq!(parse_to_tree("let x := add(1,2)"), "AST\n└╼ declare - x:u256\n  └╼ add(u256, u256): u256\n    ├╼ 1:u256\n    └╼ 2:u256");
}

#[test]
fn parse_fibonnaci() {
    assert_eq!(
        parse_to_tree(
            "
    let f := 1
    let s := 1
    let next
    for { let i := 0 } lt(i, 10) { i := add(i, 1)}
    {
      if lt(i, 2) {
        mstore(i, 1)
      }
      if gt(i, 1) {
        next := add(s, f)
        f := s
        s := next
        mstore(i, s)
      }
    }"
        ),
        "AST\n├╼ declare - f:u256\n│ └╼ 1:u256\n├╼ declare - s:u256\n│ └╼ 1:u256\n├╼ declare - next:u256\n└╼ for loop\n  ├╼ init block\n  │ └╼ declare - i:u256\n  │   └╼ 0:u256\n  ├╼ conditional\n  │ └╼ lt(u256, u256): u256\n  │   ├╼ var - i:u256\n  │   └╼ 10:u256\n  ├╼ after block\n  │ └╼ assign - i:u256\n  │   └╼ add(u256, u256): u256\n  │     ├╼ var - i:u256\n  │     └╼ 1:u256\n  └╼ interior block\n    ├╼ if statement\n    │ └╼ conditional\n    │   ├╼ lt(u256, u256): u256\n    │   │ ├╼ var - i:u256\n    │   │ └╼ 2:u256\n    │   └╼ mstore(u256, u256): u256\n    │     ├╼ var - i:u256\n    │     └╼ 1:u256\n    └╼ if statement\n      └╼ conditional\n        ├╼ gt(u256, u256): u256\n        │ ├╼ var - i:u256\n        │ └╼ 1:u256\n        ├╼ assign - next:u256\n        │ └╼ add(u256, u256): u256\n        │   ├╼ var - s:u256\n        │   └╼ var - f:u256\n        ├╼ assign - f:u256\n        │ └╼ var - s:u256\n        ├╼ assign - s:u256\n        │ └╼ var - next:u256\n        └╼ mstore(u256, u256): u256\n          ├╼ var - i:u256\n          └╼ var - s:u256"
    );
}

#[test]
fn parse_if() {
    assert_eq!(
        parse_to_tree(
            "
            if lt(i, 2) {
               mstore(i, 1)
            }
            "
        ),
        "AST\n└╼ if statement\n  └╼ conditional\n    ├╼ lt(unknown, u256): \n    │ ├╼ var - i:unknown\n    │ └╼ 2:u256\n    └╼ mstore(unknown, u256): \n      ├╼ var - i:unknown\n      └╼ 1:u256"
    );
}

#[test]
fn parse_cruft() {
    let yul = r###"
    object "fib" {
      code {
      }
    }

        "###;
    assert_eq!(parse_to_tree(yul), "AST");
}

#[test]
fn parse_function_def_with_return() {
    assert_eq!(
        parse_to_tree(
            "
            function allocate_unbounded() -> memPtr {
                memPtr := mload(64)
            }"
        ),
        "AST\n└╼ function definition - allocate_unbounded\n  ├╼ params\n  ├╼ returns\n  │ └╼ memPtr:u256\n  └╼ body\n    └╼ assign - memPtr:u256\n      └╼ mload(u32): u256\n        └╼ 64:u32"
    );
}

#[test]
fn parse_function_def_without_return() {
    assert_eq!(
        parse_to_tree(
            "
            function allocate_unbounded()  {
                let memPtr := mload(64)
            }"
        ),
        "AST\n└╼ function definition - allocate_unbounded\n  ├╼ params\n  ├╼ returns\n  └╼ body\n    └╼ declare - memPtr:u256\n      └╼ mload(u32): u256\n        └╼ 64:u32"
    );
}

#[test]
fn parse_switch_statement() {
    assert_eq!(
        parse_to_tree(
            "
            let x := 5
            let y := 8
            switch x
                case 3 {
                    y := 5
                }
                case 5 {
                    y := 12
                    let z := 15
                }
                case 8 {
                    y := 15
                }
            y"
        ),
        "AST\n├╼ declare - x:u256\n│ └╼ 5:u256\n├╼ declare - y:u256\n│ └╼ 8:u256\n├╼ switch\n│ ├╼ var - x:u256\n│ ├╼ case\n│ │ └╼ assign - y:u256\n│ │   └╼ 5:u256\n│ ├╼ case\n│ │ ├╼ assign - y:u256\n│ │ │ └╼ 12:u256\n│ │ └╼ declare - z:u256\n│ │   └╼ 15:u256\n│ └╼ case\n│   └╼ assign - y:u256\n│     └╼ 15:u256\n└╼ var - y:u256"
    );
}

#[test]
fn parse_accepts_grammar_text_and_refuses_the_rest() {
    assert_eq!(scribe::parser::parse_yul_syntax("let x := 1").len(), 1);
    assert!(try_parse_yul_syntax("add(1,").is_none());
}

#[test]
fn add_to_tree_adds_the_expression_under_the_current_branch() {
    let ast = try_parse_yul_syntax("let x:u32 := add(1, 2)").unwrap();
    let ast = try_infer_types(&ast).unwrap();
    let tree = debug_tree::TreeBuilder::new();
    tree.set_config_override(debug_tree::TreeConfig::new());
    let mut t = tree;
    ast[0].add_to_tree(&mut t);
    assert_eq!(t.string(), "declare - x:u32\n└╼ add(u32, u32): u32\n  ├╼ 1:u32\n  └╼ 2:u32");
}
