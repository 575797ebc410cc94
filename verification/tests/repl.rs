use scribe::repl::{ReplAction, ReplState, RunOutcome};

fn texts(lines: &[String]) -> Vec<&str> {
    lines.iter().map(|l| l.as_str()).collect()
}

#[test]
fn repl_starts_with_the_stack_pushed() {
    let state = ReplState::new(Some("1,2,3"));
    assert_eq!(texts(&state.lines), vec!["push.3 push.2 push.1"]);
    let empty = ReplState::new(None);
    assert!(empty.lines.is_empty());
}

#[test]
fn repl_round_builds_the_program() {
    let mut state = ReplState::new(None);
    assert!(matches!(state.handle_input("push.4"), ReplAction::Added));
    assert!(matches!(state.handle_input("push.5 push.7 mul"), ReplAction::Added));
    let run = state.start_round("proc.f\nend", "proc.g\nend");
    assert_eq!(run, "proc.f\nend\nproc.g\nend\nbegin\n    push.4\n    push.5 push.7 mul\nend");
    match state.handle_input("program") {
        ReplAction::ShowProgram(p) => assert_eq!(p, "begin\n    push.4\n    push.5 push.7 mul\nend"),
        _ => panic!("expected the program"),
    }
}

#[test]
fn repl_shows_the_stack_of_the_last_run() {
    let mut state = ReplState::new(None);
    state.handle_input("push.4");
    state.start_round("", "");
    let mut stack = vec![35, 4];
    stack.resize(16, 0);
    assert!(state.record_run(RunOutcome::Stack(stack)).is_none());
    match state.handle_input("stack") {
        ReplAction::ShowStack(s) => assert_eq!(s, "\n35 4 0 0 0 0 0 0 0 0 0 0 0 0 0 0"),
        _ => panic!("expected the stack"),
    }
    match state.handle_input("res") {
        ReplAction::ShowStack(s) => assert_eq!(s, "\n35 4 0 0 0 0 0 0 0 0 0 0 0 0 0 0"),
        _ => panic!("expected the stack"),
    }
}

#[test]
fn repl_drops_an_instruction_that_fails() {
    let mut state = ReplState::new(None);
    state.handle_input("push.1");
    state.handle_input("bogus");
    state.start_round("", "");
    let shown = state.record_run(RunOutcome::Failed("AssemblyError".to_string()));
    assert_eq!(shown.as_deref(), Some("Error running program: AssemblyError"));
    assert_eq!(texts(&state.lines), vec!["push.1"]);
}

#[test]
fn repl_run_without_instructions_records_nothing() {
    let mut state = ReplState::new(None);
    state.start_round("", "");
    assert!(state.record_run(RunOutcome::Failed("e".to_string())).is_none());
    assert_eq!(state.result, "");
}

#[test]
fn repl_undo_removes_the_last_instruction() {
    let mut state = ReplState::new(None);
    state.handle_input("push.1");
    state.handle_input("push.2");
    match state.handle_input("undo") {
        ReplAction::Undid(l) => assert_eq!(l, "push.2"),
        _ => panic!("expected undo"),
    }
    assert_eq!(texts(&state.lines), vec!["push.1"]);
}

#[test]
fn repl_help_lists_the_commands() {
    let mut state = ReplState::new(None);
    match state.handle_input("help") {
        ReplAction::ShowHelp(h) => assert_eq!(
            h,
            "Available commands:\n\nstack: display the stack\nundo: remove the last instruction\nprogram: display the program"
        ),
        _ => panic!("expected help"),
    }
    assert!(state.lines.is_empty());
}
