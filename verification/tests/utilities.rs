use scribe::test_utilities::{compile_yul, miden_to_u256, output_matches, trim_to_program, MidenResult};
use scribe::u256::U256;

fn stack(top: &[u64]) -> Vec<u64> {
    let mut s = top.to_vec();
    while s.len() < 16 {
        s.push(0);
    }
    s
}

#[test]
fn miden_to_u256_reads_eight_words_least_significant_first() {
    let v = miden_to_u256(&stack(&[1, 2, 3, 0, 0, 0, 0, 9]));
    assert_eq!(v, U256 { limb0: 1 + (2 << 32), limb1: 3, limb2: 0, limb3: 9 << 32 });
}

#[test]
fn miden_to_u256_keeps_the_low_32_bits_of_each_element() {
    let v = miden_to_u256(&stack(&[(1u64 << 32) + 5, 0xffff_ffff]));
    assert_eq!(v, U256 { limb0: 5 + (0xffff_ffffu64 << 32), limb1: 0, limb2: 0, limb3: 0 });
}

#[test]
fn miden_to_u256_ignores_elements_below_the_eighth() {
    let v = miden_to_u256(&stack(&[0, 0, 0, 0, 0, 0, 0, 0, 77]));
    assert_eq!(v, U256 { limb0: 0, limb1: 0, limb2: 0, limb3: 0 });
}

#[test]
fn miden_to_u256_of_a_short_stack() {
    let v = miden_to_u256(&vec![7]);
    assert_eq!(v, U256 { limb0: 7, limb1: 0, limb2: 0, limb3: 0 });
}

#[test]
fn output_matches_a_u32_on_top() {
    assert!(output_matches(&MidenResult::U32(3), &stack(&[3, 4])));
    assert!(!output_matches(&MidenResult::U32(4), &stack(&[3, 4])));
    assert!(output_matches(&MidenResult::U32(3), &stack(&[(5u64 << 32) + 3])));
}

#[test]
fn output_matches_a_u256_on_top() {
    let expected = U256 { limb0: 1 + (2 << 32), limb1: 0, limb2: 0, limb3: 0 };
    assert!(output_matches(&MidenResult::U256(expected), &stack(&[1, 2])));
    assert!(!output_matches(&MidenResult::U256(expected), &stack(&[2, 1])));
}

#[test]
fn trim_keeps_the_lines_from_begin() {
    let code = "proc.a\n    add\nend\nbegin\n    push.1\nend";
    assert_eq!(trim_to_program(code), "# ...std lib... #\nbegin\n    push.1\nend");
}

#[test]
fn trim_without_begin_keeps_only_the_marker() {
    assert_eq!(trim_to_program("proc.a\nend"), "# ...std lib... #\n");
}

#[test]
fn trim_keeps_from_the_first_begin() {
    assert_eq!(trim_to_program("begin\nx\nbegin"), "# ...std lib... #\nbegin\nx\nbegin");
}

#[test]
fn compile_yul_generates_a_program_after_the_procedures() {
    let out = compile_yul("let x:u32 := 1\nlet y:u32 := 2\nlet z:u32 := add(x, y)", "proc.p\nend").unwrap();
    assert!(out.starts_with("\nproc.p\nend\n"));
    assert!(out.contains("# end std lib #"));
    let trimmed = trim_to_program(&out);
    assert!(trimmed.starts_with("# ...std lib... #\nbegin\n"));
    assert!(!trimmed.contains("proc.p"));
    assert!(trimmed.contains("push.1"));
    assert!(trimmed.contains("push.2"));
    assert!(trimmed.trim_end().ends_with("end"));
}

#[test]
fn compile_yul_refuses_what_does_not_parse() {
    assert!(compile_yul("let x := ", "").is_none());
}
