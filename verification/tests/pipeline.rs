use scribe::ast_optimization::optimize_ast;
use scribe::miden_generator::transpile_program;
use scribe::parser::try_parse_yul_syntax;
use scribe::prototype::parse_value;
use scribe::type_inference::try_infer_types;

/// Parses, types and generates Miden assembly, keeping the non-empty lines.
fn compile_example(yul_code: &str) -> Option<String> {
    let parsed = try_parse_yul_syntax(yul_code)?;
    let ast = optimize_ast(parsed);
    let ast = try_infer_types(&ast)?;
    let miden_code = transpile_program(ast, "")?;
    Some(
        miden_code
            .split('\n')
            .filter(|line| !line.contains("use std") && !line.trim().is_empty())
            .collect::<Vec<_>>()
            .join("\n"),
    )
}

#[test]
fn test_parse_value() {
    let res = parse_value("$");
    let unwrapped_res = res.unwrap();
    println!("{}", unwrapped_res);
}

// The Yul of this example assigns with `=`, which is not Yul: it is refused.
#[test]
fn lifetime_variable_life() {
    let out = compile_example(
        "
    // Test mstore and mload
    mstore(0x20, 67677686778768)
    let b:u256 := mload(0x20)
    let c:u256 := add(b, 1000)
    mstore(0x20, c)
    let d:u256 = mload(0x20)
    // assert the value of d
    d
        ",
    );
    assert!(out.is_none());
}

// `div` has no `u256` instruction: the example is refused.
#[test]
fn lifetime_test_folding() {
    let out = compile_example(
        "
        let a:u256 := add(100, 5)
        let b:u256 := mul(a, 10)
        let c:u256 := div(b, 5)
        let d:u256 := sub(c, 1)
        // Assert this folds into a single PUSH statement
        ",
    );
    assert!(out.is_none());
}

#[test]
fn lifetime_test_lifetime() {
    let out = compile_example(
        "
    let a:u256 := 3485488493484388458349458
    let b:u256 := 43589348589349845838993489493
    let c:u256 = add(a, b)
    let d:u256 = add(a, c)
        ",
    );
    assert!(out.is_none());
}

#[test]
fn memory_memory_test() {
    let out = compile_example(
        "
        // populate memory
        mstore(0x20, 1)
        mstore(0x21, 2)
        mstore(0x22, 3)

        // declare variables - we read from memory to make sure constant folding doesn't kick in
        let a:u256 := mload(0x20)
        let b:u256 := mload(0x21)
        let c:u256 := mload(0x22)

        // perform some operations with the variables
        b := add(b, 100)
        c := add(c, a)
        c := add(c, b)
        ",
    )
    .unwrap();
    assert!(out.starts_with("# end std lib #\nbegin"));
    assert!(out.ends_with("\nend"));
    assert!(out.contains("exec.u256add_unsafe"));
    assert!(out.contains("popw.mem"));
}

#[test]
fn milestone_2_variable_life() {
    let out = compile_example(
        "
    // Test mstore and mload
    mstore(0x20, 67677686778768)
    let b:u256 := mload(0x20)
    let c:u256 := add(b, 1000)
    mstore(0x20, c)
    let d:u256 = mload(0x20)
    // assert the value of d
    d
        ",
    );
    assert!(out.is_none());
}

#[test]
fn milestone_2_test_folding() {
    let out = compile_example(
        "
        let a:u256 := add(100, 5)
        let b:u256 := mul(a, 10)
        let c:u256 := div(b, 5)
        let d:u256 := sub(c, 1)
        // Assert this folds into a single PUSH statement
        ",
    );
    assert!(out.is_none());
}

#[test]
fn milestone_2_test_lifetime() {
    let out = compile_example(
        "
    let a:u256 := 3485488493484388458349458
    let b:u256 := 43589348589349845838993489493
    let c:u256 = add(a, b)
    let d:u256 = add(a, c)
        ",
    );
    assert!(out.is_none());
}

#[test]
fn milestone_2_memory_test() {
    let out = compile_example(
        "
        // populate memory
        mstore(0x20, 1)
        mstore(0x21, 2)
        mstore(0x22, 3)

        // declare variables - we read from memory to make sure constant folding doesn't kick in
        let a:u256 := mload(0x20)
        let b:u256 := mload(0x21)
        let c:u256 := mload(0x22)

        // perform some operations with the variables
        b := add(b, 100)
        c := add(c, a)
        c := add(c, b)
        ",
    )
    .unwrap();
    assert!(out.starts_with("# end std lib #\nbegin"));
    assert!(out.ends_with("\nend"));
}

#[test]
fn u32_addition_program() {
    let out = compile_example("let x:u32 := 1\nlet y:u32 := 2\nlet z:u32 := add(x, y)").unwrap();
    let expected = "# end std lib #
begin
    # Assigning to x #
        # u32 literal 1 #
        push.1
    # Assigning to y #
        # u32 literal 2 #
        push.2
    # Assigning to z #
        # add() #
        # pushing x to the top #
            dup.1
        # pushing y to the top #
            dup.1
        add
end";
    assert_eq!(out, expected);
}

#[test]
fn branch_leaves_the_stack_as_before() {
    let out = compile_example(
        "let x:u32 := 1\nlet y:u32 := 2\nif lt(x, y) { x := 3 }\nlet z:u32 := add(x, y)",
    )
    .unwrap();
    assert_eq!(out, "# end std lib #\nbegin\n    # Assigning to x #\n        # u32 literal 1 #\n        push.1\n    # Assigning to y #\n        # u32 literal 2 #\n        push.2\n    # lt() #\n    # pushing x to the top #\n        dup.1\n    # pushing y to the top #\n        dup.1\n    lt\n    if.true\n        # Assigning to x #\n            # u32 literal 3 #\n            push.3\n        # cleaning up after branch #\n            # pushing x to the top #\n            # pushing y to the top #\n                swap\n    end\n    # Assigning to z #\n        # add() #\n        # pushing x to the top #\n            dup.1\n        # pushing y to the top #\n            dup.1\n        add\nend");
}

#[test]
fn u32_bitwise_comparison_and_shift_operations() {
    let out = compile_example(
        "let a:u32 := 6\nlet b:u32 := 3\nlet c:u32 := xor(a, b)\nlet d:u32 := gte(a, b)\nlet e:u32 := lte(a, b)\nlet f:u32 := shl(b, a)\nlet g:u32 := shr(b, a)",
    )
    .unwrap();
    assert!(out.contains("\n        u32checked_xor\n"));
    assert!(out.contains("\n        gte\n"));
    assert!(out.contains("\n        lte\n"));
    assert!(out.contains("\n        swap u32checked_shl\n"));
    assert!(out.contains("\n        swap u32checked_shr\n"));
}

#[test]
fn u256_comparisons_leave_one_u32() {
    for (op, proc_name) in [("gt", "u256gt"), ("gte", "u256gte"), ("lte", "u256lte"), ("eq", "u256eq"), ("lt", "u256lt")] {
        let yul = format!("let a:u256 := 6\nlet b:u256 := 3\nlet c:u32 := {}(a, b)\nlet d:u32 := add(c, c)", op);
        let out = compile_example(&yul).unwrap();
        assert!(out.contains(&format!("exec.{}_unsafe", proc_name)));
        // `c` is the one value on top: adding it to itself duplicates the top twice.
        assert!(out.ends_with("# pushing c to the top #\n            dup.0\n        # pushing c to the top #\n            dup.1\n        add\nend"), "{}", out);
    }
}

#[test]
fn u256_iszero_takes_its_one_argument() {
    let out = compile_example("let a:u256 := 6\nlet z:u32 := iszero(a)\nlet y:u32 := add(z, z)").unwrap();
    assert!(out.contains("exec.u256iszero_unsafe"));
    assert!(out.ends_with("# pushing z to the top #\n            dup.0\n        # pushing z to the top #\n            dup.1\n        add\nend"), "{}", out);
}

#[test]
fn user_function_results_are_pushed_on_top() {
    let out = compile_example(
        "function f() -> r:u32 { let r:u32 := 5 }\nlet a:u32 := 1\nlet x:u32 := f()\nlet y:u32 := add(x, a)",
    )
    .unwrap();
    assert!(out.contains("exec.f"));
    assert!(
        out.ends_with("# pushing x to the top #\n            dup.0\n        # pushing a to the top #\n            dup.2\n        add\nend"),
        "{}",
        out
    );
}

/// Runs push, dup, memory, arithmetic and comparison instructions on a
/// stack of field elements (top last) and a memory; comments do nothing.
fn run_u32_program(lines: &[&str]) -> (Vec<u128>, std::collections::HashMap<u128, u128>) {
    let p: u128 = 0xffff_ffff_0000_0001;
    let mut stack: Vec<u128> = Vec::new();
    let mut memory: std::collections::HashMap<u128, u128> = std::collections::HashMap::new();
    for line in lines {
        let t = line.trim();
        if t.is_empty() || t.starts_with('#') {
            continue;
        }
        for w in t.split(' ') {
            if let Some(n) = w.strip_prefix("push.") {
                if n == "mem" {
                    let a = stack.pop().unwrap();
                    stack.push(*memory.get(&a).unwrap_or(&0));
                } else {
                    stack.push(n.parse::<u128>().unwrap() % p);
                }
                continue;
            }
            if w == "pop.mem" {
                let a = stack.pop().unwrap();
                let v = stack.pop().unwrap();
                memory.insert(a, v);
                continue;
            }
            if let Some(n) = w.strip_prefix("dup.") {
                let n: usize = n.parse().unwrap();
                let v = stack[stack.len() - 1 - n];
                stack.push(v);
                continue;
            }
            if let Some(n) = w.strip_prefix("mul.") {
                let a = stack.pop().unwrap();
                stack.push(a * n.parse::<u128>().unwrap() % p);
                continue;
            }
            let b = stack.pop().unwrap();
            let a = stack.pop().unwrap();
            let v = match w {
                "add" => (a + b) % p,
                "sub" => (a + p - b) % p,
                "mul" => (a * b) % p,
                "lt" => (a < b) as u128,
                "gt" => (a > b) as u128,
                "eq" => (a == b) as u128,
                other => panic!("instruction not covered: {}", other),
            };
            stack.push(v);
        }
    }
    (stack, memory)
}

/// The stack that [`run_u32_program`] leaves.
fn run_u32_lines(lines: &[&str]) -> Vec<u128> {
    run_u32_program(lines).0
}

#[test]
fn u32_expression_lines_push_the_yul_value() {
    let out = compile_example("let x:u32 := sub(mul(add(2, 3), 7), lt(4, 9))").unwrap();
    let lines: Vec<&str> = out.lines().collect();
    // The assignment's lines, between `begin` and `end`, after its comment.
    assert_eq!(lines[2].trim(), "# Assigning to x #");
    let body = &lines[3..lines.len() - 1];
    assert_eq!(run_u32_lines(body), vec![34]);
}

#[test]
fn u32_comparison_lines_push_the_yul_value() {
    let out = compile_example("let x:u32 := eq(gt(8, 5), 1)").unwrap();
    let lines: Vec<&str> = out.lines().collect();
    let body = &lines[3..lines.len() - 1];
    assert_eq!(run_u32_lines(body), vec![1]);
}

#[test]
fn u32_declarations_leave_their_yul_values() {
    let out = compile_example("let a:u32 := 5\nlet b:u32 := add(a, 3)\nlet c:u32 := mul(b, a)\nlet d:u32 := gt(c, b)").unwrap();
    let lines: Vec<&str> = out.lines().collect();
    let begin = lines.iter().position(|l| *l == "begin").unwrap();
    assert_eq!(*lines.last().unwrap(), "end");
    let body = &lines[begin + 1..lines.len() - 1];
    assert_eq!(run_u32_lines(body), vec![5, 8, 40, 1]);
}

#[test]
fn u32_memory_statements_store_and_load_yul_values() {
    let out = compile_example("let a:u32 := 7\nmstore(3, a)\nlet b:u32 := mload(3)\nlet c:u32 := add(b, mload(5))").unwrap();
    let lines: Vec<&str> = out.lines().collect();
    let begin = lines.iter().position(|l| *l == "begin").unwrap();
    let body = &lines[begin + 1..lines.len() - 1];
    let (stack, memory) = run_u32_program(body);
    assert_eq!(stack, vec![7, 7, 7]);
    assert_eq!(memory.get(&(2 * 3 + 1024)), Some(&7));
    assert_eq!(memory.len(), 1);
}

#[test]
fn u32_assignments_leave_the_new_value_where_the_variable_is_read() {
    let out = compile_example("let a:u32 := 7\nlet b:u32 := 2\na := mul(a, b)\nlet c:u32 := sub(a, b)").unwrap();
    let lines: Vec<&str> = out.lines().collect();
    let begin = lines.iter().position(|l| *l == "begin").unwrap();
    let body = &lines[begin + 1..lines.len() - 1];
    // The earlier slot of `a` stays below; reads of `a` copy the new one.
    assert_eq!(run_u32_lines(body), vec![7, 2, 14, 12]);
}
