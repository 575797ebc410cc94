use scribe::prototype::{add, declare_var, parse_value, Context, OpAdd, OpDeclareVariable, Scanner, YulOp};
use scribe::scope::StrMap;

#[test]
fn lib_test_add() {
    let mut program = "begin\npush.0\npush.0\npush.0".to_string();
    let ops = vec![
        YulOp::DeclareVariable(OpDeclareVariable { identifier: "foo".to_string(), value: 12 }),
        YulOp::DeclareVariable(OpDeclareVariable { identifier: "bar".to_string(), value: 15 }),
        YulOp::Add(OpAdd { first_var: "foo".to_string(), second_var: "bar".to_string() }),
    ];
    let mut context = Context { variables: StrMap::new(), next_open_memory_address: 0 };

    for op in ops {
        match op {
            YulOp::Add(op) => add(&mut program, &op, &mut context),
            YulOp::DeclareVariable(op) => declare_var(&mut program, &op, &mut context),
        }
    }
    scribe::prototype::add_line(&mut program, "end");

    println!("{}", program);
    assert_eq!(
        program,
        "begin\npush.0\npush.0\npush.0\npush.12\nmem.store.0\npush.15\nmem.store.1\nmem.load.0\nmem.load.1\nadd\nend"
    );
    assert_eq!(context.next_open_memory_address, 2);
}

#[test]
fn parse_value_of_other_characters() {
    assert_eq!(parse_value("#"), Some("#"));
    assert_eq!(parse_value("a$"), None);
    assert_eq!(parse_value(""), None);
}

#[test]
fn scanner_advances_only_on_a_match() {
    let mut scanner = Scanner::new("ab");
    assert_eq!(scanner.transform(|c| if *c == 'b' { Some(1) } else { None }), None);
    assert_eq!(scanner.transform(|c| if *c == 'a' { Some(2) } else { None }), Some(2));
    assert_eq!(scanner.transform(|c| if *c == 'b' { Some(3) } else { None }), Some(3));
    assert_eq!(scanner.transform(|_| Some(4)), None);
}
