//! What the System Zero code generator does, as mathematical functions of
//! its state.
//!
//! System Zero code is a list of instructions over memory: each expression
//! leaves its value at the evaluation address, variables live at offsets of
//! the scope of the block that declares them, and control flow goes through
//! labels and jumps. A state with `failed` set stands for a generator that
//! stopped on an input it cannot handle; every step keeps it.
use vstd::prelude::*;
use crate::types::{YulType, STyped, SExpr, SLiteral};
use crate::u256::{U256, nat_to_dec};
use crate::utils::word_le;

verus! {

/// A constant, or the address of a label or variable.
pub enum SImm {
    AddrOf(Seq<char>),
    Immediate(u32),
}

/// A memory address, or a constant.
pub enum SLoc {
    Local(u32),
    Immediate(SImm),
}

/// An instruction, as a mathematical value.
pub enum SInstr {
    Ret,
    CalleeWrite { index: u32, val: SLoc },
    Call { addr: SImm },
    Move32 { val: SLoc, dst: u32 },
    Move256 { val: u32, dst: u32 },
    JumpGE { x: SLoc, y: SLoc, addr: SImm },
    Label { label: Seq<char> },
    Jump { addr: SImm },
    JumpIf { cond: SLoc, addr: SImm },
    Init { name: Seq<char> },
    Incr { x: SLoc },
}

/// The generator's state.
pub struct ZState {
    pub instructions: Seq<SInstr>,
    pub scopes: Seq<Map<Seq<char>, (YulType, u32)>>,
    pub label_count: u64,
    pub variable_count: u64,
    pub loops: Seq<(Seq<char>, Seq<char>, Seq<char>)>,
    pub failed: bool,
}

/// Where each expression leaves its value.
pub open spec fn evaluation_address() -> u32 {
    4096
}

pub open spec fn z_fail(st: ZState) -> ZState {
    ZState { failed: true, ..st }
}

pub open spec fn z_add(st: ZState, i: SInstr) -> ZState {
    if st.failed {
        st
    } else {
        ZState { instructions: st.instructions.push(i), ..st }
    }
}

pub open spec fn z_initial() -> ZState {
    ZState {
        instructions: Seq::empty(),
        scopes: Seq::empty(),
        label_count: 0,
        variable_count: 0,
        loops: Seq::empty(),
        failed: false,
    }
}

/// The address of a variable: its entry in the innermost scope that holds it.
pub open spec fn z_lookup(scopes: Seq<Map<Seq<char>, (YulType, u32)>>, name: Seq<char>) -> Option<(YulType, u32)>
    decreases scopes.len(),
{
    if scopes.len() == 0 {
        None
    } else if scopes.last().contains_key(name) {
        Some(scopes.last()[name])
    } else {
        z_lookup(scopes.drop_last(), name)
    }
}

/// The memory a variable of type `t` takes: 1 for a `u32`, 8 for a `u256`.
pub open spec fn z_width(t: YulType) -> nat {
    match t {
        YulType::U32 => 1,
        YulType::U256 => 8,
    }
}

/// The scope of a block's declarations: each declared variable, in order,
/// at the next offset from 0; `None` when the offsets pass `u32::MAX`.
pub open spec fn scope_of(vars: Seq<STyped>) -> Option<(Map<Seq<char>, (YulType, u32)>, nat)>
    decreases vars.len(),
{
    if vars.len() == 0 {
        Some((Map::empty(), 0))
    } else {
        match scope_of(vars.drop_last()) {
            Some((m, offset)) => if offset + z_width(vars.last().yul_type) > u32::MAX {
                None
            } else {
                Some((
                    m.insert(vars.last().name, (vars.last().yul_type, offset as u32)),
                    offset + z_width(vars.last().yul_type),
                ))
            },
            None => None,
        }
    }
}

/// The variables a block declares at its top level, in order.
pub open spec fn declared_vars(es: Seq<SExpr>) -> Seq<STyped>
    decreases es.len(),
{
    if es.len() == 0 {
        Seq::empty()
    } else {
        declared_vars(es.drop_last()) + match es.last() {
            SExpr::DeclareVariable { vars, rhs: _ } => vars,
            _ => Seq::empty(),
        }
    }
}

pub open spec fn push_scope(st: ZState, m: Map<Seq<char>, (YulType, u32)>) -> ZState {
    if st.failed {
        st
    } else {
        ZState { scopes: st.scopes.push(m), ..st }
    }
}

pub open spec fn pop_scope(st: ZState) -> ZState {
    if st.failed {
        st
    } else if st.scopes.len() == 0 {
        z_fail(st)
    } else {
        ZState { scopes: st.scopes.drop_last(), ..st }
    }
}

/// A fresh label `prefix` + the label count, which then grows.
pub open spec fn next_count(st: ZState) -> ZState {
    if st.failed {
        st
    } else if st.label_count == u64::MAX {
        z_fail(st)
    } else {
        ZState { label_count: (st.label_count + 1) as u64, ..st }
    }
}

/// The labels of a loop numbered `n`.
pub open spec fn loop_labels(n: u64) -> (Seq<char>, Seq<char>, Seq<char>) {
    ("pre"@ + nat_to_dec(n as nat), "after"@ + nat_to_dec(n as nat), "post"@ + nat_to_dec(n as nat))
}

pub open spec fn push_loop(st: ZState, l: (Seq<char>, Seq<char>, Seq<char>)) -> ZState {
    if st.failed {
        st
    } else {
        ZState { loops: st.loops.push(l), ..st }
    }
}

pub open spec fn pop_loop(st: ZState) -> ZState {
    if st.failed || st.loops.len() == 0 {
        st
    } else {
        ZState { loops: st.loops.drop_last(), ..st }
    }
}

/// A number literal: a `u32` is moved to the evaluation address (it must fit
/// in 32 bits); any other number is moved there as eight 32-bit words, the
/// least significant first.
pub open spec fn z_literal(st: ZState, l: SLiteral) -> ZState {
    match l {
        SLiteral::Number { inferred_type, value } => if inferred_type == Some(YulType::U32) {
            if value.value() > u32::MAX {
                z_fail(st)
            } else {
                z_add(
                    st,
                    SInstr::Move32 {
                        val: SLoc::Immediate(SImm::Immediate(value.value() as u32)),
                        dst: evaluation_address(),
                    },
                )
            }
        } else {
            z_words(st, value, 8)
        },
        _ => z_fail(st),
    }
}

/// The first `n` words of `value`, each moved to its place from the
/// evaluation address on.
pub open spec fn z_words(st: ZState, value: U256, n: nat) -> ZState
    decreases n,
{
    if n == 0 {
        st
    } else {
        z_add(
            z_words(st, value, (n - 1) as nat),
            SInstr::Move32 {
                val: SLoc::Immediate(SImm::Immediate(word_le(value, n - 1) as u32)),
                dst: (evaluation_address() + n - 1) as u32,
            },
        )
    }
}

/// A variable's value is moved to the evaluation address.
pub open spec fn z_variable(st: ZState, name: Seq<char>) -> ZState {
    match z_lookup(st.scopes, name) {
        Some((YulType::U32, address)) => z_add(
            st,
            SInstr::Move32 { val: SLoc::Local(address), dst: evaluation_address() },
        ),
        Some((YulType::U256, address)) => z_add(st, SInstr::Move256 { val: address, dst: evaluation_address() }),
        None => z_fail(st),
    }
}

/// The offset of `name` in the innermost scope.
pub open spec fn current_offset(st: ZState, name: Seq<char>) -> Option<u32> {
    if st.scopes.len() == 0 || !st.scopes.last().contains_key(name) {
        None
    } else {
        Some(st.scopes.last()[name].1)
    }
}

/// `x := rhs`: the value is moved to the variable's offset in the innermost
/// scope.
pub open spec fn z_assignment(st: ZState, e: SExpr) -> ZState
    decreases e, 2nat,
{
    match e {
        SExpr::Assignment { names, types: _, rhs } => if names.len() != 1 {
            z_fail(st)
        } else {
            match current_offset(st, names[0]) {
                Some(offset) => z_add(
                    z_op(st, *rhs),
                    SInstr::Move32 { val: SLoc::Local(evaluation_address()), dst: offset },
                ),
                None => z_fail(st),
            }
        },
        _ => z_fail(st),
    }
}

/// `let x := rhs`: the value, when there is one, is moved to the variable's
/// offset in the innermost scope.
pub open spec fn z_declaration(st: ZState, e: SExpr) -> ZState
    decreases e, 2nat,
{
    match e {
        SExpr::DeclareVariable { vars, rhs } => if vars.len() != 1 {
            z_fail(st)
        } else {
            match current_offset(st, vars[0].name) {
                Some(offset) => match rhs {
                    Some(r) => z_add(
                        z_op(st, *r),
                        SInstr::Move32 { val: SLoc::Local(evaluation_address()), dst: offset },
                    ),
                    None => st,
                },
                None => z_fail(st),
            }
        },
        _ => z_fail(st),
    }
}

/// The arguments of a call, each evaluated and written to the callee's next
/// slot.
pub open spec fn z_args(st: ZState, args: Seq<SExpr>) -> ZState
    decreases args, 0nat,
{
    if st.failed || args.len() == 0 {
        st
    } else if args.len() - 1 > u32::MAX {
        z_fail(st)
    } else {
        z_add(
            z_op(z_args(st, args.drop_last()), args.last()),
            SInstr::CalleeWrite { index: (args.len() - 1) as u32, val: SLoc::Local(evaluation_address()) },
        )
    }
}

/// A call: its arguments, the call, and (for one return value) the write of
/// the result. More than one return value cannot be generated.
pub open spec fn z_call(st: ZState, e: SExpr) -> ZState
    decreases e, 2nat,
{
    match e {
        SExpr::FunctionCall { name, args, return_types, param_types: _ } => {
            let st1 = z_add(z_args(st, args), SInstr::Call { addr: SImm::AddrOf(name) });
            if return_types.len() >= 2 {
                z_fail(z_args(st, args))
            } else if return_types.len() == 1 {
                z_add(st1, SInstr::CalleeWrite { index: 0, val: SLoc::Local(evaluation_address()) })
            } else {
                st1
            }
        },
        _ => z_fail(st),
    }
}

/// A function definition: a jump past it, its label, its body, a return,
/// and the label after it.
pub open spec fn z_function(st: ZState, e: SExpr) -> ZState
    decreases e, 2nat,
{
    match e {
        SExpr::FunctionDefinition { name, params: _, rets: _, block } => {
            let end = "end_of_"@ + name;
            let st1 = z_add(z_add(st, SInstr::Jump { addr: SImm::AddrOf(end) }), SInstr::Label { label: name });
            z_add(z_add(z_seq(st1, block), SInstr::Ret), SInstr::Label { label: end })
        },
        _ => z_fail(st),
    }
}

/// `if cond { body }`: a jump on the condition to a fresh label placed after
/// the body.
pub open spec fn z_if(st: ZState, e: SExpr) -> ZState
    decreases e, 2nat,
{
    match e {
        SExpr::IfStatement { cond, body } => {
            let st1 = z_op(st, *cond);
            let dest = "if"@ + nat_to_dec(st1.label_count as nat);
            let st2 = z_add(
                next_count(st1),
                SInstr::JumpIf { cond: SLoc::Local(evaluation_address()), addr: SImm::AddrOf(dest) },
            );
            z_add(z_block(st2, body), SInstr::Label { label: dest })
        },
        _ => z_fail(st),
    }
}

/// `for { init } cond { after } { body }`: the condition at the `pre` label
/// jumps to `post`; the body, then the after block at `after`, then a jump
/// back to `pre`.
pub open spec fn z_for(st: ZState, e: SExpr) -> ZState
    decreases e, 2nat,
{
    match e {
        SExpr::ForLoop { init, cond, after, body } => {
            let st1 = z_block(st, init);
            let labels = loop_labels(st1.label_count);
            let st2 = z_op(z_add(next_count(st1), SInstr::Label { label: labels.0 }), *cond);
            let st3 = z_add(
                st2,
                SInstr::JumpIf { cond: SLoc::Local(evaluation_address()), addr: SImm::AddrOf(labels.2) },
            );
            let st4 = pop_loop(z_block(push_loop(st3, labels), body));
            let st5 = z_block(z_add(st4, SInstr::Label { label: labels.1 }), after);
            z_add(z_add(st5, SInstr::Jump { addr: SImm::AddrOf(labels.0) }), SInstr::Label { label: labels.2 })
        },
        _ => z_fail(st),
    }
}

/// A block repeated `n` times: a counter variable compared with `n` at the
/// `pre` label, incremented at the `after` label.
pub open spec fn z_repeat(st: ZState, e: SExpr) -> ZState
    decreases e, 2nat,
{
    match e {
        SExpr::Repeat { body, iterations } => {
            let labels = loop_labels(st.label_count);
            let st1 = z_add(next_count(st), SInstr::Label { label: labels.0 });
            let counter = "var"@ + nat_to_dec(st1.variable_count as nat);
            let st2 = if st1.failed {
                st1
            } else if st1.variable_count == u64::MAX {
                z_fail(st1)
            } else {
                ZState { variable_count: (st1.variable_count + 1) as u64, ..st1 }
            };
            let st3 = z_add(
                z_add(st2, SInstr::Init { name: counter }),
                SInstr::JumpGE {
                    x: SLoc::Immediate(SImm::AddrOf(counter)),
                    y: SLoc::Immediate(SImm::Immediate(iterations)),
                    addr: SImm::AddrOf(labels.2),
                },
            );
            let st4 = pop_loop(z_block(push_loop(st3, labels), body));
            let st5 = z_add(
                z_add(st4, SInstr::Label { label: labels.1 }),
                SInstr::Incr { x: SLoc::Immediate(SImm::AddrOf(counter)) },
            );
            z_add(z_add(st5, SInstr::Jump { addr: SImm::AddrOf(labels.0) }), SInstr::Label { label: labels.2 })
        },
        _ => z_fail(st),
    }
}

/// `break`: a jump to the innermost loop's `post` label.
pub open spec fn z_break(st: ZState) -> ZState {
    if st.loops.len() == 0 {
        z_fail(st)
    } else {
        z_add(st, SInstr::Jump { addr: SImm::AddrOf(st.loops.last().2) })
    }
}

/// `continue`: a jump to the innermost loop's `after` label.
pub open spec fn z_continue(st: ZState) -> ZState {
    if st.loops.len() == 0 {
        z_fail(st)
    } else {
        z_add(st, SInstr::Jump { addr: SImm::AddrOf(st.loops.last().1) })
    }
}

/// Generates one expression or statement.
pub open spec fn z_op(st: ZState, e: SExpr) -> ZState
    decreases e, 3nat,
{
    if st.failed {
        st
    } else {
        match e {
            SExpr::Literal(l) => z_literal(st, l),
            SExpr::FunctionDefinition { .. } => z_function(st, e),
            SExpr::FunctionCall { .. } => z_call(st, e),
            SExpr::IfStatement { .. } => z_if(st, e),
            SExpr::Assignment { .. } => z_assignment(st, e),
            SExpr::DeclareVariable { .. } => z_declaration(st, e),
            SExpr::ForLoop { .. } => z_for(st, e),
            SExpr::Block(es) => z_block(st, es),
            SExpr::Switch { .. } => st,
            SExpr::Variable { name, inferred_type: _ } => z_variable(st, name),
            SExpr::Repeat { .. } => z_repeat(st, e),
            SExpr::Break => z_break(st),
            SExpr::Continue => z_continue(st),
            SExpr::Leave => z_fail(st),
            SExpr::Case(_) => z_fail(st),
        }
    }
}

/// A block: a scope of its declarations for the time of its statements.
pub open spec fn z_block(st: ZState, es: Seq<SExpr>) -> ZState
    decreases es, 1nat,
{
    if st.failed {
        st
    } else {
        match scope_of(declared_vars(es)) {
            Some((m, _)) => pop_scope(z_seq(push_scope(st, m), es)),
            None => z_fail(st),
        }
    }
}

/// Statements in order.
pub open spec fn z_seq(st: ZState, es: Seq<SExpr>) -> ZState
    decreases es, 0nat,
{
    if st.failed || es.len() == 0 {
        st
    } else {
        z_op(z_seq(st, es.drop_last()), es.last())
    }
}

/// The instructions generated for a program, or `None` when the generator
/// cannot handle it.
pub open spec fn spec_zero_program(ast: Seq<SExpr>) -> Option<Seq<SInstr>> {
    let st = z_seq(z_initial(), ast);
    if st.failed {
        None
    } else {
        Some(st.instructions)
    }
}

/// `b`'s instructions start with `a`'s.
pub open spec fn appends(a: ZState, b: ZState) -> bool {
    &&& a.instructions.len() <= b.instructions.len()
    &&& forall|i: int| 0 <= i < a.instructions.len() ==> #[trigger] b.instructions[i] == a.instructions[i]
}

proof fn lemma_words_appends(st: ZState, value: U256, n: nat)
    ensures
        appends(st, z_words(st, value, n)),
    decreases n,
{
    if n > 0 {
        lemma_words_appends(st, value, (n - 1) as nat);
    }
}

proof fn lemma_seq_appends(st: ZState, es: Seq<SExpr>)
    ensures
        appends(st, z_seq(st, es)),
    decreases es, 0nat,
{
    if !st.failed && es.len() > 0 {
        lemma_seq_appends(st, es.drop_last());
        lemma_op_appends(z_seq(st, es.drop_last()), es.last());
    }
}

proof fn lemma_args_appends(st: ZState, args: Seq<SExpr>)
    ensures
        appends(st, z_args(st, args)),
    decreases args, 0nat,
{
    if !st.failed && args.len() > 0 {
        lemma_args_appends(st, args.drop_last());
        lemma_op_appends(z_args(st, args.drop_last()), args.last());
    }
}

proof fn lemma_block_appends(st: ZState, es: Seq<SExpr>)
    ensures
        appends(st, z_block(st, es)),
    decreases es, 1nat,
{
    if !st.failed {
        match scope_of(declared_vars(es)) {
            Some((m, _)) => {
                lemma_seq_appends(push_scope(st, m), es);
            },
            None => {},
        }
    }
}

proof fn lemma_op_appends(st: ZState, e: SExpr)
    ensures
        appends(st, z_op(st, e)),
    decreases e, 3nat,
{
    if !st.failed {
        match e {
            SExpr::Literal(l) => {
                match l {
                    SLiteral::Number { inferred_type, value } => {
                        lemma_words_appends(st, value, 8);
                    },
                    _ => {},
                }
            },
            SExpr::FunctionDefinition { name, params, rets, block } => {
                let end = "end_of_"@ + name;
                let st1 = z_add(z_add(st, SInstr::Jump { addr: SImm::AddrOf(end) }), SInstr::Label { label: name });
                lemma_seq_appends(st1, block);
            },
            SExpr::FunctionCall { name, args, return_types, param_types } => {
                lemma_args_appends(st, args);
            },
            SExpr::IfStatement { cond, body } => {
                lemma_op_appends(st, *cond);
                let st1 = z_op(st, *cond);
                let dest = "if"@ + nat_to_dec(st1.label_count as nat);
                let st2 = z_add(
                    next_count(st1),
                    SInstr::JumpIf { cond: SLoc::Local(evaluation_address()), addr: SImm::AddrOf(dest) },
                );
                lemma_block_appends(st2, body);
            },
            SExpr::Assignment { names, types, rhs } => {
                lemma_op_appends(st, *rhs);
            },
            SExpr::DeclareVariable { vars, rhs } => {
                match rhs {
                    Some(r) => {
                        lemma_op_appends(st, *r);
                    },
                    None => {},
                }
            },
            SExpr::ForLoop { init, cond, after, body } => {
                lemma_block_appends(st, init);
                let st1 = z_block(st, init);
                let labels = loop_labels(st1.label_count);
                let sa = z_add(next_count(st1), SInstr::Label { label: labels.0 });
                lemma_op_appends(sa, *cond);
                let st2 = z_op(sa, *cond);
                let st3 = z_add(
                    st2,
                    SInstr::JumpIf { cond: SLoc::Local(evaluation_address()), addr: SImm::AddrOf(labels.2) },
                );
                lemma_block_appends(push_loop(st3, labels), body);
                let st4 = pop_loop(z_block(push_loop(st3, labels), body));
                lemma_block_appends(z_add(st4, SInstr::Label { label: labels.1 }), after);
            },
            SExpr::Block(es) => {
                lemma_block_appends(st, es);
            },
            SExpr::Repeat { body, iterations } => {
                let labels = loop_labels(st.label_count);
                let st1 = z_add(next_count(st), SInstr::Label { label: labels.0 });
                let counter = "var"@ + nat_to_dec(st1.variable_count as nat);
                let st2 = if st1.failed {
                    st1
                } else if st1.variable_count == u64::MAX {
                    z_fail(st1)
                } else {
                    ZState { variable_count: (st1.variable_count + 1) as u64, ..st1 }
                };
                let st3 = z_add(
                    z_add(st2, SInstr::Init { name: counter }),
                    SInstr::JumpGE {
                        x: SLoc::Immediate(SImm::AddrOf(counter)),
                        y: SLoc::Immediate(SImm::Immediate(iterations)),
                        addr: SImm::AddrOf(labels.2),
                    },
                );
                lemma_block_appends(push_loop(st3, labels), body);
            },
            _ => {},
        }
    }
}

/// The innermost loops are as they were, unless generation failed.
pub open spec fn keeps_loops(a: ZState, b: ZState) -> bool {
    b.failed || b.loops == a.loops
}

proof fn lemma_words_loops(st: ZState, value: U256, n: nat)
    ensures
        keeps_loops(st, z_words(st, value, n)),
    decreases n,
{
    if n > 0 {
        lemma_words_loops(st, value, (n - 1) as nat);
    }
}

proof fn lemma_seq_loops(st: ZState, es: Seq<SExpr>)
    ensures
        keeps_loops(st, z_seq(st, es)),
    decreases es, 0nat,
{
    if !st.failed && es.len() > 0 {
        lemma_seq_loops(st, es.drop_last());
        lemma_op_loops(z_seq(st, es.drop_last()), es.last());
    }
}

proof fn lemma_args_loops(st: ZState, args: Seq<SExpr>)
    ensures
        keeps_loops(st, z_args(st, args)),
    decreases args, 0nat,
{
    if !st.failed && args.len() > 0 {
        lemma_args_loops(st, args.drop_last());
        lemma_op_loops(z_args(st, args.drop_last()), args.last());
    }
}

proof fn lemma_block_loops(st: ZState, es: Seq<SExpr>)
    ensures
        keeps_loops(st, z_block(st, es)),
    decreases es, 1nat,
{
    if !st.failed {
        match scope_of(declared_vars(es)) {
            Some((m, _)) => {
                lemma_seq_loops(push_scope(st, m), es);
            },
            None => {},
        }
    }
}

proof fn lemma_op_loops(st: ZState, e: SExpr)
    ensures
        keeps_loops(st, z_op(st, e)),
    decreases e, 3nat,
{
    if !st.failed {
        match e {
            SExpr::Literal(l) => {
                match l {
                    SLiteral::Number { inferred_type, value } => {
                        lemma_words_loops(st, value, 8);
                    },
                    _ => {},
                }
            },
            SExpr::FunctionDefinition { name, params, rets, block } => {
                let end = "end_of_"@ + name;
                let st1 = z_add(z_add(st, SInstr::Jump { addr: SImm::AddrOf(end) }), SInstr::Label { label: name });
                lemma_seq_loops(st1, block);
            },
            SExpr::FunctionCall { name, args, return_types, param_types } => {
                lemma_args_loops(st, args);
            },
            SExpr::IfStatement { cond, body } => {
                lemma_op_loops(st, *cond);
                let st1 = z_op(st, *cond);
                let dest = "if"@ + nat_to_dec(st1.label_count as nat);
                let st2 = z_add(
                    next_count(st1),
                    SInstr::JumpIf { cond: SLoc::Local(evaluation_address()), addr: SImm::AddrOf(dest) },
                );
                lemma_block_loops(st2, body);
            },
            SExpr::Assignment { names, types, rhs } => {
                lemma_op_loops(st, *rhs);
            },
            SExpr::DeclareVariable { vars, rhs } => {
                match rhs {
                    Some(r) => {
                        lemma_op_loops(st, *r);
                    },
                    None => {},
                }
            },
            SExpr::ForLoop { init, cond, after, body } => {
                lemma_block_loops(st, init);
                let st1 = z_block(st, init);
                let labels = loop_labels(st1.label_count);
                let sa = z_add(next_count(st1), SInstr::Label { label: labels.0 });
                lemma_op_loops(sa, *cond);
                let st2 = z_op(sa, *cond);
                let st3 = z_add(
                    st2,
                    SInstr::JumpIf { cond: SLoc::Local(evaluation_address()), addr: SImm::AddrOf(labels.2) },
                );
                lemma_block_loops(push_loop(st3, labels), body);
                assert(st3.loops.push(labels).drop_last() =~= st3.loops);
                let st4 = pop_loop(z_block(push_loop(st3, labels), body));
                lemma_block_loops(z_add(st4, SInstr::Label { label: labels.1 }), after);
            },
            SExpr::Block(es) => {
                lemma_block_loops(st, es);
            },
            SExpr::Repeat { body, iterations } => {
                let labels = loop_labels(st.label_count);
                let st1 = z_add(next_count(st), SInstr::Label { label: labels.0 });
                let counter = "var"@ + nat_to_dec(st1.variable_count as nat);
                let st2 = if st1.failed {
                    st1
                } else if st1.variable_count == u64::MAX {
                    z_fail(st1)
                } else {
                    ZState { variable_count: (st1.variable_count + 1) as u64, ..st1 }
                };
                let st3 = z_add(
                    z_add(st2, SInstr::Init { name: counter }),
                    SInstr::JumpGE {
                        x: SLoc::Immediate(SImm::AddrOf(counter)),
                        y: SLoc::Immediate(SImm::Immediate(iterations)),
                        addr: SImm::AddrOf(labels.2),
                    },
                );
                lemma_block_loops(push_loop(st3, labels), body);
                assert(st3.loops.push(labels).drop_last() =~= st3.loops);
            },
            _ => {},
        }
    }
}

/// Statements in order, split anywhere: the second part is generated from
/// the state the first part leaves.
proof fn lemma_seq_split(st: ZState, a: Seq<SExpr>, b: Seq<SExpr>)
    ensures
        z_seq(st, a + b) == z_seq(z_seq(st, a), b),
    decreases b.len(),
{
    if b.len() == 0 {
        assert(a + b =~= a);
    } else {
        assert((a + b).drop_last() =~= a + b.drop_last());
        assert((a + b).last() == b.last());
        lemma_seq_split(st, a, b.drop_last());
        let sa = z_seq(st, a);
        if st.failed {
            assert(sa == st);
        } else if sa.failed {
            assert(z_seq(sa, b.drop_last()) == sa);
            assert(z_op(sa, b.last()) == sa);
        }
    }
}

proof fn lemma_seq_failed(st: ZState, es: Seq<SExpr>)
    requires
        st.failed,
    ensures
        z_seq(st, es) == st,
{
}

/// Generating a program is generating its statements one after the other:
/// whenever a program can be generated, so can each of its leading parts,
/// and the instructions for a leading part are the start of the
/// instructions for the whole program.
pub proof fn law_zero_program_prefix(a: Seq<SExpr>, b: Seq<SExpr>)
    requires
        spec_zero_program(a + b) is Some,
    ensures
        spec_zero_program(a) is Some,
        spec_zero_program(a).unwrap().is_prefix_of(spec_zero_program(a + b).unwrap()),
{
    let st = z_seq(z_initial(), a);
    lemma_seq_split(z_initial(), a, b);
    if st.failed {
        lemma_seq_failed(st, b);
    }
    lemma_seq_appends(st, b);
    let p = z_seq(st, b).instructions;
    assert(st.instructions =~= p.subrange(0, st.instructions.len() as int));
}

/// `continue` goes on with the after block: in a `for` loop whose body ends
/// with `continue`, the jump generated for that `continue` goes to the label
/// placed right after it, after the body, where the loop's after block
/// starts, and not back to the condition.
pub proof fn law_continue_goes_to_after_block(
    st: ZState,
    init: Seq<SExpr>,
    cond: SExpr,
    after: Seq<SExpr>,
    b: Seq<SExpr>,
)
    requires
        !z_for(st, SExpr::ForLoop { init, cond: Box::new(cond), after, body: b.push(SExpr::Continue) }).failed,
    ensures
        ({
            let r = z_for(st, SExpr::ForLoop { init, cond: Box::new(cond), after, body: b.push(SExpr::Continue) });
            exists|j: int|
                st.instructions.len() <= j && j + 1 < r.instructions.len() && (#[trigger] r.instructions[j] matches SInstr::Jump {
                    addr: SImm::AddrOf(l),
                } && r.instructions[j + 1] == (SInstr::Label { label: l }))
        }),
{
    let body = b.push(SExpr::Continue);
    let r = z_for(st, SExpr::ForLoop { init, cond: Box::new(cond), after, body });
    let st1 = z_block(st, init);
    lemma_block_appends(st, init);
    let labels = loop_labels(st1.label_count);
    let sa = z_add(next_count(st1), SInstr::Label { label: labels.0 });
    lemma_op_appends(sa, cond);
    let st2 = z_op(sa, cond);
    let st3 = z_add(st2, SInstr::JumpIf { cond: SLoc::Local(evaluation_address()), addr: SImm::AddrOf(labels.2) });
    let ps = push_loop(st3, labels);
    assert(body.drop_last() =~= b);
    assert(body.last() == SExpr::Continue);
    assert(declared_vars(body) =~= declared_vars(b));
    let (m, w) = scope_of(declared_vars(body))->0;
    let ps2 = push_scope(ps, m);
    lemma_seq_appends(ps2, b);
    lemma_seq_loops(ps2, b);
    let sb = z_seq(ps2, b);
    let sc = z_op(sb, SExpr::Continue);
    assert(z_seq(ps2, body) == sc);
    let j = sb.instructions.len() as int;
    let st4 = pop_loop(pop_scope(sc));
    let st5a = z_add(st4, SInstr::Label { label: labels.1 });
    lemma_block_appends(st5a, after);
    let st5 = z_block(st5a, after);
    assert(r == z_add(z_add(st5, SInstr::Jump { addr: SImm::AddrOf(labels.0) }), SInstr::Label { label: labels.2 }));
    assert(!sb.failed);
    assert(sb.loops.last() == labels);
    assert(st5a.instructions[j] == (SInstr::Jump { addr: SImm::AddrOf(labels.1) }));
    assert(st5a.instructions[j + 1] == (SInstr::Label { label: labels.1 }));
    assert(r.instructions[j] == st5.instructions[j]);
    assert(r.instructions[j + 1] == st5.instructions[j + 1]);
}

} // verus!
