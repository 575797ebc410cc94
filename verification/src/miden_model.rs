//! What the Miden code generator does, as mathematical functions of its state.
//!
//! The generator keeps a model of the Miden stack (which variable each
//! stack slot holds), the memory addresses it gave to variables, the
//! identifiers in scope, the user functions and the branches it is inside,
//! and appends the generated assembly text to `program`. Each function below
//! says how one step changes that state. A state with `failed` set stands for
//! a generator that stopped on an input it cannot handle; every step keeps it.
use vstd::prelude::*;
use crate::types::{YulType, STyped, SExpr, SLiteral, SCase, spec_stack_width, spec_memory_addresses,
    yul_type_text};
use crate::u256::{U256, nat_to_dec};
use crate::utils::spec_u256_pushes;

verus! {

/// One slot of the modelled stack: the variable it holds, if known, and its type.
pub struct SValue {
    pub id: Option<STyped>,
    pub ty: YulType,
}

/// A branch being generated: the variables assigned in it and the stack
/// before it.
pub struct SBranch {
    pub modified: Seq<STyped>,
    pub before: Seq<SValue>,
}

/// The procedures of the `u256` library that the program uses (recorded
/// for later use; nothing reads them yet).
#[derive(Clone, Copy, Debug, PartialEq, Eq, Structural)]
pub struct IncludedProcs {
    pub u256add_unsafe: bool,
    pub u256and_unsafe: bool,
    pub u256div_by_one: bool,
    pub u256eq_unsafe: bool,
    pub u256gt_unsafe: bool,
    pub u256gte_unsafe: bool,
    pub u256iszero_unsafe: bool,
    pub u256lt_unsafe: bool,
    pub u256lte_unsafe: bool,
    pub u256mul_unsafe: bool,
    pub u256or_unsafe: bool,
    pub u256shl_unsafe: bool,
    pub u256shr_unsafe: bool,
    pub u256sub_unsafe: bool,
    pub u256xor_unsafe: bool,
}

/// The generator's state.
pub struct TState {
    pub variables: Map<STyped, u32>,
    pub indentation: u32,
    pub next_open_memory_address: u32,
    pub stack: Seq<SValue>,
    pub program: Seq<char>,
    pub user_functions: Map<Seq<char>, Seq<SValue>>,
    pub scoped_identifiers: Map<Seq<char>, STyped>,
    pub branches: Seq<SBranch>,
    pub accept_overflow: bool,
    pub memory_offset: u64,
    pub procs: IncludedProcs,
    pub failed: bool,
}

/// The state with `failed` set.
pub open spec fn fail(st: TState) -> TState {
    TState { failed: true, ..st }
}

/// `n` spaces.
pub open spec fn spaces(n: nat) -> Seq<char> {
    Seq::new(n, |i: int| ' ')
}

/// The number of stack elements the slots take.
pub open spec fn stack_size(s: Seq<SValue>) -> nat
    decreases s.len(),
{
    if s.len() == 0 {
        0
    } else {
        stack_size(s.drop_last()) + spec_stack_width(s.last().ty)
    }
}

/// A slot holding an unknown value of type `t`.
pub open spec fn unknown(t: YulType) -> SValue {
    SValue { id: None, ty: t }
}

/// A slot holding variable `t`.
pub open spec fn holding(t: STyped) -> SValue {
    SValue { id: Some(t), ty: t.yul_type }
}

pub open spec fn indent(st: TState) -> TState {
    if st.failed {
        st
    } else if st.indentation + 4 > u32::MAX {
        fail(st)
    } else {
        TState { indentation: (st.indentation + 4) as u32, ..st }
    }
}

pub open spec fn outdent(st: TState) -> TState {
    if st.failed {
        st
    } else if st.indentation < 4 {
        fail(st)
    } else {
        TState { indentation: (st.indentation - 4) as u32, ..st }
    }
}

/// A new line, indented, holding `text`.
pub open spec fn add_line(st: TState, text: Seq<char>) -> TState {
    if st.failed {
        st
    } else {
        TState { program: st.program + seq!['\n'] + spaces(st.indentation as nat) + text, ..st }
    }
}

/// An empty line.
pub open spec fn newline(st: TState) -> TState {
    if st.failed {
        st
    } else {
        TState { program: st.program + seq!['\n'], ..st }
    }
}

/// A comment line, `# text #`.
pub open spec fn add_comment(st: TState, text: Seq<char>) -> TState {
    add_line(st, "# "@ + text + " #"@)
}

pub open spec fn add_unknown(st: TState, t: YulType) -> TState {
    if st.failed {
        st
    } else {
        TState { stack: seq![unknown(t)] + st.stack, ..st }
    }
}

/// The top slot now holds variable `t`.
pub open spec fn top_is_var(st: TState, t: STyped) -> TState {
    if st.failed {
        st
    } else if st.stack.len() == 0 {
        fail(st)
    } else {
        TState { stack: st.stack.update(0, SValue { id: Some(t), ..st.stack[0] }), ..st }
    }
}

/// The top `n` slots are consumed by an instruction.
pub open spec fn consume(st: TState, n: nat) -> TState {
    if st.failed {
        st
    } else if st.stack.len() < n {
        fail(st)
    } else {
        TState { stack: st.stack.skip(n as int), ..st }
    }
}

/// `text` repeated `n` times as lines.
pub open spec fn add_lines(st: TState, text: Seq<char>, n: nat) -> TState
    decreases n,
{
    if n == 0 {
        st
    } else {
        add_line(add_lines(st, text, (n - 1) as nat), text)
    }
}

/// The instructions that copy the value at `offset` to the top.
pub open spec fn dup_from_offset(st: TState, offset: u32, t: YulType) -> TState {
    if st.failed {
        st
    } else {
        match t {
            YulType::U32 => add_line(st, "dup."@ + nat_to_dec(offset as nat)),
            YulType::U256 => if offset + 7 > u32::MAX {
                fail(st)
            } else if offset == 0 {
                add_line(add_line(st, "dupw.1"@), "dupw.1"@)
            } else if offset == 4 {
                add_line(add_line(st, "dupw.2"@), "dupw.2"@)
            } else if offset == 8 {
                add_line(add_line(st, "dupw.3"@), "dupw.3"@)
            } else {
                add_lines(st, "dup."@ + nat_to_dec((offset + 7) as nat), 8)
            },
        }
    }
}

/// The instructions that move the value at `offset` to the top.
pub open spec fn move_from_offset(st: TState, offset: u32, t: YulType) -> TState {
    if st.failed {
        st
    } else {
        match t {
            YulType::U32 => if offset == 0 {
                st
            } else if offset == 1 {
                add_line(st, "swap"@)
            } else {
                add_line(st, "movup."@ + nat_to_dec(offset as nat))
            },
            YulType::U256 => if offset == 1 {
                add_line(st, "movdn.8"@)
            } else if offset == 8 {
                add_line(add_line(st, "movupw.3"@), "movupw.3"@)
            } else if offset + 7 > u32::MAX {
                fail(st)
            } else {
                add_lines(st, "movup."@ + nat_to_dec((offset + 7) as nat), 8)
            },
        }
    }
}

/// The name of the variable a slot holds, or `unknown`.
pub open spec fn slot_name(v: SValue) -> Seq<char> {
    match v.id {
        Some(t) => t.name,
        None => "unknown"@,
    }
}

/// The address at which the top value is stored when none is given: the
/// address of its variable, or a fresh one (recorded for its variable).
/// The fresh address is taken even when an address is given.
pub open spec fn allocate(st: TState, v: SValue) -> (TState, u32) {
    match v.id {
        Some(t) => if st.variables.contains_key(t) {
            (st, st.variables[t])
        } else if st.next_open_memory_address + spec_memory_addresses(v.ty) > u32::MAX {
            (fail(st), 0)
        } else {
            (
                TState {
                    variables: st.variables.insert(t, st.next_open_memory_address),
                    next_open_memory_address: (st.next_open_memory_address + spec_memory_addresses(v.ty)) as u32,
                    ..st
                },
                st.next_open_memory_address,
            )
        },
        None => if st.next_open_memory_address + spec_memory_addresses(v.ty) > u32::MAX {
            (fail(st), 0)
        } else {
            (
                TState {
                    next_open_memory_address: (st.next_open_memory_address + spec_memory_addresses(v.ty)) as u32,
                    ..st
                },
                st.next_open_memory_address,
            )
        },
    }
}

/// Pops the top value into memory, at `address` or else at its allocated
/// address; returns the address used.
pub open spec fn pop_top_to_memory(st: TState, address: Option<u32>) -> (TState, u32) {
    if st.failed {
        (st, 0)
    } else if st.stack.len() == 0 {
        (fail(st), 0)
    } else {
        let v = st.stack[0];
        let (st1, allocated) = allocate(st, v);
        let a = match address {
            Some(a) => a,
            None => allocated,
        };
        let st2 = add_comment(st1, "popping "@ + slot_name(v) + " from top of stack to memory"@);
        let st3 = TState { stack: st2.stack.skip(1), ..st2 };
        let st4 = match v.ty {
            YulType::U32 => add_line(st3, "pop.mem."@ + nat_to_dec(a as nat)),
            YulType::U256 => if a + 1 > u32::MAX {
                fail(st3)
            } else {
                add_line(add_line(st3, "popw.mem."@ + nat_to_dec(a as nat)), "popw.mem."@ + nat_to_dec((a + 1) as nat))
            },
        };
        (newline(st4), a)
    }
}

/// Loads a value of type `t` from `address` onto the top.
pub open spec fn push_from_memory(st: TState, address: u32, t: YulType) -> TState {
    if st.failed {
        st
    } else {
        let st1 = match t {
            YulType::U32 => add_line(st, "push.mem."@ + nat_to_dec(address as nat)),
            YulType::U256 => if address + 1 > u32::MAX {
                fail(st)
            } else {
                add_line(add_line(st, "pushw.mem."@ + nat_to_dec((address + 1) as nat)), "pushw.mem."@ + nat_to_dec(address as nat))
            },
        };
        newline(add_unknown(st1, t))
    }
}

/// Loads variable `t` from its memory address onto the top.
pub open spec fn load_from_memory(st: TState, t: STyped) -> TState {
    if st.failed {
        st
    } else {
        let st1 = add_comment(st, "push "@ + t.name + " from memory to top of stack"@);
        if !st1.variables.contains_key(t) {
            fail(st1)
        } else {
            top_is_var(push_from_memory(st1, st1.variables[t], t.yul_type), t)
        }
    }
}

/// Moves the bottom slot's variable to the top and stores it in memory.
pub open spec fn pop_bottom_to_memory(st: TState) -> TState {
    if st.failed {
        st
    } else if st.stack.len() == 0 || st.stack.last().id is None {
        fail(st)
    } else {
        let v = st.stack.last();
        let above = stack_size(st.stack.drop_last());
        if above > u32::MAX {
            fail(st)
        } else {
            let st1 = add_comment(
                st,
                "Moving "@ + v.id->0.name + " to top of stack, "@ + nat_to_dec(above) + " values above"@,
            );
            let st2 = move_from_offset(st1, above as u32, v.ty);
            let st3 = if st2.failed { st2 } else { TState { stack: seq![v] + st2.stack.drop_last(), ..st2 } };
            pop_top_to_memory(st3, None).0
        }
    }
}

/// Stores bottom variables to memory until a value of type `t` fits in the
/// 16 accessible stack elements, unless overflow is accepted or the bottom
/// slot is unknown.
#[verifier::opaque]
pub open spec fn prepare_for(st: TState, t: YulType) -> TState
    decreases st.stack.len(),
{
    if st.failed || st.accept_overflow {
        st
    } else if stack_size(st.stack) + spec_stack_width(t) > 16 {
        let st1 = add_comment(st, "stack would be too large after "@ + yul_type_text(t) + ", popping to memory"@);
        if st1.stack.len() == 0 {
            fail(st1)
        } else if st1.stack.last().id is None {
            st1
        } else {
            let st2 = outdent(pop_bottom_to_memory(indent(st1)));
            if st2.failed || st2.stack.len() >= st.stack.len() {
                fail(st2)
            } else {
                prepare_for(st2, t)
            }
        }
    } else {
        st
    }
}

/// The index of the first slot holding `t`, if any.
pub open spec fn find_slot(s: Seq<SValue>, t: STyped) -> Option<nat>
    decreases s.len(),
{
    if s.len() == 0 {
        None
    } else if s[0].id == Some(t) {
        Some(0)
    } else {
        match find_slot(s.skip(1), t) {
            Some(i) => Some(i + 1),
            None => None,
        }
    }
}

/// Brings variable `t` to the top: copied (`dup`) or moved from the stack, or
/// loaded from memory when no slot holds it.
#[verifier::opaque]
pub open spec fn move_identifier_to_top(st: TState, t: STyped, dup: bool) -> TState {
    if st.failed {
        st
    } else {
        let st1 = prepare_for(st, t.yul_type);
        if st1.failed {
            st1
        } else {
            match find_slot(st1.stack, t) {
                Some(i) => {
                    let offset = stack_size(st1.stack.take(i as int));
                    if offset > u32::MAX {
                        fail(st1)
                    } else {
                        let v = st1.stack[i as int];
                        let st2 = indent(add_comment(st1, "pushing "@ + t.name + " to the top"@));
                        let st3 = if dup {
                            dup_from_offset(add_unknown(st2, t.yul_type), offset as u32, v.ty)
                        } else {
                            move_from_offset(
                                if st2.failed {
                                    st2
                                } else {
                                    TState { stack: seq![holding(t)] + st2.stack.remove(i as int), ..st2 }
                                },
                                offset as u32,
                                v.ty,
                            )
                        };
                        outdent(st3)
                    }
                },
                None => if stack_size(st1.stack) > u32::MAX {
                    fail(st1)
                } else {
                    load_from_memory(st1, t)
                },
            }
        }
    }
}

/// Stores variable `t` in memory.
pub open spec fn update_identifier_in_memory(st: TState, t: STyped) -> TState {
    pop_top_to_memory(move_identifier_to_top(st, t, false), None).0
}

/// Brings each variable of `target` to the top, from its last slot to its
/// first, then keeps as many slots as `target` has.
pub open spec fn target_moves(st: TState, target: Seq<SValue>) -> TState
    decreases target.len(),
{
    if target.len() == 0 || st.failed {
        st
    } else if target.last().id is None {
        fail(st)
    } else {
        target_moves(move_identifier_to_top(st, target.last().id->0, false), target.drop_last())
    }
}

#[verifier::opaque]
pub open spec fn target_stack(st: TState, target: Seq<SValue>) -> TState {
    let st1 = target_moves(st, target);
    if st1.failed {
        st1
    } else if st1.stack.len() <= target.len() {
        st1
    } else {
        TState { stack: st1.stack.take(target.len() as int), ..st1 }
    }
}

pub open spec fn begin_branch(st: TState) -> TState {
    if st.failed {
        st
    } else {
        TState { branches: st.branches.push(SBranch { modified: Seq::empty(), before: st.stack }), ..st }
    }
}

/// `t` is held by some slot of `s`.
pub open spec fn slot_holds(s: Seq<SValue>, t: STyped) -> bool {
    exists|i: int| 0 <= i < s.len() && s[i].id == Some(t)
}

/// Stores to memory the variables of `modified` (from the first) that the
/// stack before the branch did not hold.
pub open spec fn store_modified(st: TState, modified: Seq<STyped>, before: Seq<SValue>) -> TState
    decreases modified.len(),
{
    if modified.len() == 0 {
        st
    } else {
        let st1 = store_modified(st, modified.drop_last(), before);
        if slot_holds(before, modified.last()) {
            st1
        } else {
            update_identifier_in_memory(st1, modified.last())
        }
    }
}

#[verifier::opaque]
pub open spec fn end_branch(st: TState) -> TState {
    if st.failed {
        st
    } else if st.branches.len() == 0 {
        fail(st)
    } else {
        let b = st.branches.last();
        let st1 = TState { branches: st.branches.drop_last(), ..st };
        let st2 = indent(add_comment(st1, "cleaning up after branch"@));
        outdent(target_stack(store_modified(st2, b.modified, b.before), b.before))
    }
}

/// Records that `t` is assigned in the innermost branch, if any.
pub open spec fn note_modified(st: TState, t: STyped) -> TState {
    if st.failed || st.branches.len() == 0 {
        st
    } else {
        let b = st.branches.last();
        if b.modified.contains(t) {
            st
        } else {
            TState {
                branches: st.branches.update(
                    st.branches.len() - 1,
                    SBranch { modified: b.modified.push(t), ..b },
                ),
                ..st
            }
        }
    }
}

/// Pushes a number as a `u32`.
#[verifier::opaque]
pub open spec fn push_u32(st: TState, value: U256) -> TState {
    let st1 = prepare_for(st, YulType::U32);
    let st2 = add_unknown(st1, YulType::U32);
    let st3 = add_comment(st2, "u32 literal "@ + nat_to_dec(value.value()));
    newline(add_line(st3, "push."@ + nat_to_dec(value.value())))
}

/// Pushes a number as a `u256`: eight elements.
#[verifier::opaque]
pub open spec fn push_u256(st: TState, value: U256) -> TState {
    let st1 = prepare_for(st, YulType::U256);
    let st2 = add_comment(st1, "u256 literal: "@ + nat_to_dec(value.value()));
    let st3 = add_unknown(st2, YulType::U256);
    newline(add_line(st3, spec_u256_pushes(value)))
}

/// Drops the top value.
pub open spec fn drop_top(st: TState) -> TState {
    let st1 = add_comment(st, "dropping top stack value"@);
    if st1.failed {
        st1
    } else if st1.stack.len() == 0 {
        fail(st1)
    } else {
        let v = st1.stack[0];
        let st2 = TState { stack: st1.stack.skip(1), ..st1 };
        newline(
            match v.ty {
                YulType::U32 => add_line(st2, "drop"@),
                YulType::U256 => add_line(add_line(st2, "dropw"@), "dropw"@),
            },
        )
    }
}

/// Stores the return values at addresses 0, 2, 4, ...
pub open spec fn store_returns(st: TState, n: nat) -> TState
    decreases n,
{
    if n == 0 {
        st
    } else {
        let st1 = store_returns(st, (n - 1) as nat);
        if 2 * (n - 1) > u32::MAX {
            fail(st1)
        } else {
            pop_top_to_memory(st1, Some((2 * (n - 1)) as u32)).0
        }
    }
}

/// The lines that drop `size` elements: `dropw` while more than three remain,
/// then `drop`.
pub open spec fn drop_elements(st: TState, size: nat) -> TState
    decreases size,
{
    if size == 0 {
        st
    } else if size > 3 {
        drop_elements(add_line(st, "dropw"@), (size - 4) as nat)
    } else {
        drop_elements(add_line(st, "drop"@), (size - 1) as nat)
    }
}

/// Loads the return values back: the first from the highest address, the
/// last from address 0.
pub open spec fn load_returns(st: TState, rets: Seq<STyped>, n: nat) -> TState
    decreases rets.len(),
{
    if rets.len() == 0 {
        st
    } else {
        let st1 = load_returns(st, rets.drop_last(), n);
        if 2 * (n - rets.len()) > u32::MAX || rets.len() > n {
            fail(st1)
        } else {
            push_from_memory(st1, (2 * (n - rets.len())) as u32, rets.last().yul_type)
        }
    }
}

/// Leaves only the return values on the stack: stores them in memory, drops
/// every element, and loads them back.
pub open spec fn drop_after_returns(st: TState, rets: Seq<STyped>) -> TState {
    let st1 = store_returns(st, rets.len());
    if st.failed {
        st
    } else if st1.failed {
        st1
    } else if stack_size(st1.stack) > u32::MAX {
        fail(st1)
    } else {
        let st2 = drop_elements(st1, stack_size(st1.stack));
        let st3 = if st2.failed { st2 } else { TState { stack: Seq::empty(), ..st2 } };
        load_returns(st3, rets, rets.len())
    }
}

/// Pushes a user function's final stack on top of the current one.
pub open spec fn add_function_stack(st: TState, fs: Seq<SValue>) -> TState {
    if st.failed {
        st
    } else {
        TState { stack: fs + st.stack, ..st }
    }
}


/// A state with nothing generated yet: empty stack, memory and program,
/// with user memory placed at `memory_offset`.
pub open spec fn initial_state(memory_offset: u64) -> TState {
    TState {
        variables: Map::empty(),
        indentation: 0,
        next_open_memory_address: 0,
        stack: Seq::empty(),
        program: Seq::empty(),
        user_functions: Map::empty(),
        scoped_identifiers: Map::empty(),
        branches: Seq::empty(),
        accept_overflow: false,
        memory_offset,
        procs: no_procs(),
        failed: false,
    }
}

/// No procedure used.
pub open spec fn no_procs() -> IncludedProcs {
    IncludedProcs {
        u256add_unsafe: false,
        u256and_unsafe: false,
        u256div_by_one: false,
        u256eq_unsafe: false,
        u256gt_unsafe: false,
        u256gte_unsafe: false,
        u256iszero_unsafe: false,
        u256lt_unsafe: false,
        u256lte_unsafe: false,
        u256mul_unsafe: false,
        u256or_unsafe: false,
        u256shl_unsafe: false,
        u256shr_unsafe: false,
        u256sub_unsafe: false,
        u256xor_unsafe: false,
    }
}

/// The `u256` operations on two values that have a library procedure.
pub open spec fn is_u256_binop(name: Seq<char>) -> bool {
    name == "add"@ || name == "mul"@ || name == "sub"@ || name == "and"@ || name == "or"@ || name == "xor"@
}

/// The `u256` comparisons that have a library procedure.
pub open spec fn is_u256_comparison(name: Seq<char>) -> bool {
    name == "iszero"@ || name == "eq"@ || name == "lt"@ || name == "gt"@ || name == "gte"@ || name == "lte"@
}

/// The number of values a `u256` comparison takes: one for `iszero`, two
/// for the others.
pub open spec fn comparison_arity(name: Seq<char>) -> nat {
    if name == "iszero"@ {
        1
    } else {
        2
    }
}

/// The `u256` shifts that have a library procedure.
pub open spec fn is_u256_shift(name: Seq<char>) -> bool {
    name == "shl"@ || name == "shr"@
}

/// The `u32` operations on two values.
pub open spec fn is_u32_binop(name: Seq<char>) -> bool {
    name == "add"@ || name == "sub"@ || name == "mul"@ || name == "div"@ || name == "gt"@ || name == "lt"@
        || name == "eq"@ || name == "and"@ || name == "or"@ || name == "xor"@ || name == "gte"@ || name
        == "lte"@ || name == "shl"@ || name == "shr"@
}

/// The Miden instructions of a `u32` operation on two values: the
/// instruction of the same name, except bitwise `xor`, and the shifts,
/// whose operands (shift first, value on top) are swapped for Miden's
/// value-below-shift order.
pub open spec fn u32_instruction(name: Seq<char>) -> Seq<char> {
    if name == "xor"@ {
        "u32checked_xor"@
    } else if name == "shl"@ {
        "swap u32checked_shl"@
    } else if name == "shr"@ {
        "swap u32checked_shr"@
    } else {
        name
    }
}

/// Marks the procedure that a `u256` operation on two values uses.
pub open spec fn binop_procs(p: IncludedProcs, name: Seq<char>) -> IncludedProcs {
    if name == "add"@ {
        IncludedProcs { u256add_unsafe: true, ..p }
    } else if name == "mul"@ {
        IncludedProcs { u256mul_unsafe: true, ..p }
    } else if name == "sub"@ {
        IncludedProcs { u256sub_unsafe: true, ..p }
    } else if name == "and"@ {
        IncludedProcs { u256and_unsafe: true, ..p }
    } else if name == "or"@ {
        IncludedProcs { u256or_unsafe: true, ..p }
    } else {
        IncludedProcs { u256xor_unsafe: true, ..p }
    }
}

/// Marks the procedure that a `u256` comparison uses: its own.
pub open spec fn comparison_procs(p: IncludedProcs, name: Seq<char>) -> IncludedProcs {
    if name == "iszero"@ {
        IncludedProcs { u256iszero_unsafe: true, ..p }
    } else if name == "eq"@ {
        IncludedProcs { u256eq_unsafe: true, ..p }
    } else if name == "lt"@ {
        IncludedProcs { u256lt_unsafe: true, ..p }
    } else if name == "gt"@ {
        IncludedProcs { u256gt_unsafe: true, ..p }
    } else if name == "gte"@ {
        IncludedProcs { u256gte_unsafe: true, ..p }
    } else {
        IncludedProcs { u256lte_unsafe: true, ..p }
    }
}

/// Marks the procedure that a `u256` shift uses.
pub open spec fn shift_procs(p: IncludedProcs, name: Seq<char>) -> IncludedProcs {
    if name == "shl"@ {
        IncludedProcs { u256shl_unsafe: true, ..p }
    } else {
        IncludedProcs { u256shr_unsafe: true, ..p }
    }
}

pub open spec fn set_procs(st: TState, p: IncludedProcs) -> TState {
    if st.failed {
        st
    } else {
        TState { procs: p, ..st }
    }
}

pub open spec fn set_overflow(st: TState, accept: bool) -> TState {
    if st.failed {
        st
    } else {
        TState { accept_overflow: accept, ..st }
    }
}

pub open spec fn bind(st: TState, t: STyped) -> TState {
    if st.failed {
        st
    } else {
        TState { scoped_identifiers: st.scoped_identifiers.insert(t.name, t), ..st }
    }
}

/// The type an expression evaluates to, as inference recorded it: that of a
/// number literal, of a call's first return value or of a variable.
pub open spec fn expr_type(e: SExpr) -> Option<YulType> {
    match e {
        SExpr::Literal(SLiteral::Number { inferred_type, value: _ }) => inferred_type,
        SExpr::FunctionCall { name: _, args: _, return_types, param_types: _ } => if return_types.len() > 0 {
            return_types[0]
        } else {
            None
        },
        SExpr::Variable { name: _, inferred_type } => inferred_type,
        _ => None,
    }
}

/// A number literal is pushed as a `u256` when it was inferred to be one, as
/// a `u32` otherwise; other literals cannot be generated.
pub open spec fn t_literal(st: TState, l: SLiteral) -> TState {
    match l {
        SLiteral::Number { inferred_type, value } => if inferred_type == Some(YulType::U256) {
            push_u256(st, value)
        } else {
            push_u32(st, value)
        },
        _ => fail(st),
    }
}

/// The start of an assignment to the single variable `names[0]`, which must
/// be in scope.
pub open spec fn assign_begin(st: TState, names: Seq<Seq<char>>) -> TState {
    if st.failed {
        st
    } else if names.len() != 1 || !st.scoped_identifiers.contains_key(names[0]) {
        fail(st)
    } else {
        let t = st.scoped_identifiers[names[0]];
        note_modified(indent(add_comment(st, "Assigning to "@ + t.name)), t)
    }
}

/// The end of an assignment: the value on top is now variable `t`.
pub open spec fn assign_end(st: TState, t: STyped) -> TState {
    outdent(top_is_var(st, t))
}

/// A call of a user function: its arguments, then `exec.name`; its final
/// stack is added below.
pub open spec fn t_user_call(st: TState, name: Seq<char>, args: Seq<SExpr>) -> TState
    decreases args, 1nat,
{
    add_function_stack(add_line(t_block(st, args), "exec."@ + name), st.user_functions[name])
}

/// A `u256` operation of the library: its arguments, then
/// `exec.u256<name>_unsafe`, which consumes `consumed` values and leaves one
/// of type `result`.
pub open spec fn t_u256_op(st: TState, name: Seq<char>, args: Seq<SExpr>, consumed: nat, result: YulType) -> TState
    decreases args, 1nat,
{
    add_unknown(consume(add_line(t_block(st, args), "exec.u256"@ + name + "_unsafe"@), consumed), result)
}

/// `mstore(address, value)`: the value, then the address, scaled and moved
/// past the memory offset; a `u256` takes two words.
pub open spec fn t_mstore(st: TState, args: Seq<SExpr>) -> TState
    decreases args, 1nat,
{
    let offset = nat_to_dec(st.memory_offset as nat);
    if args.len() < 2 {
        fail(st)
    } else {
        let st1 = t_op(t_op(st, args[1]), args[0]);
        match expr_type(args[1]) {
            Some(YulType::U32) => consume(add_line(add_line(st1, "mul.2 push."@ + offset + " add"@), "pop.mem"@), 2),
            Some(YulType::U256) => consume(
                add_line(
                    add_line(add_line(st1, "mul.2 push."@ + offset + " add dup movdn.5"@), "popw.mem"@),
                    "add.1 popw.mem"@,
                ),
                2,
            ),
            None => fail(st1),
        }
    }
}

/// `mload(address)`: the address, scaled and moved past the memory offset,
/// then a load of the type the call returns.
pub open spec fn t_mload(st: TState, args: Seq<SExpr>, return_types: Seq<Option<YulType>>) -> TState
    decreases args, 1nat,
{
    let offset = nat_to_dec(st.memory_offset as nat);
    if args.len() < 1 {
        fail(st)
    } else {
        let st1 = t_op(st, args[0]);
        if return_types.len() == 0 {
            fail(st1)
        } else {
            match return_types[0] {
                Some(YulType::U32) => add_unknown(
                    consume(add_line(add_line(st1, "mul.2 push."@ + offset + " add"@), "push.mem"@), 1),
                    YulType::U32,
                ),
                Some(YulType::U256) => add_unknown(
                    consume(
                        add_line(
                            add_line(add_line(st1, "mul.2 push."@ + offset + " add dup"@), "add.1 pushw.mem"@),
                            "movup.4 pushw.mem"@,
                        ),
                        1,
                    ),
                    YulType::U256,
                ),
                None => fail(st1),
            }
        }
    }
}

/// A `u32` operation on two values: its Miden instructions, which take the
/// two values and leave one.
pub open spec fn t_u32_op(st: TState, name: Seq<char>, args: Seq<SExpr>) -> TState
    decreases args, 1nat,
{
    add_line(add_unknown(consume(t_block(st, args), 2), YulType::U32), u32_instruction(name))
}

/// `iszero` of a `u32`: a comparison with 0.
pub open spec fn t_u32_iszero(st: TState, args: Seq<SExpr>) -> TState
    decreases args, 1nat,
{
    add_unknown(consume(add_line(add_line(t_block(st, args), "push.0"@), "eq"@), 1), YulType::U32)
}

/// A call of a user function, or of a Miden operation chosen by the
/// operation's name and the type of its first argument.
pub open spec fn t_call(
    st: TState,
    name: Seq<char>,
    args: Seq<SExpr>,
    return_types: Seq<Option<YulType>>,
    param_types: Seq<Option<YulType>>,
) -> TState
    decreases args, 2nat,
{
    let st0 = add_comment(st, name + "()"@);
    if st0.failed {
        st0
    } else if st0.user_functions.contains_key(name) {
        t_user_call(st0, name, args)
    } else if param_types.len() == 0 {
        fail(st0)
    } else {
        let p = param_types[0];
        if p == Some(YulType::U256) && is_u256_binop(name) {
            let st1 = t_u256_op(st0, name, args, 2, YulType::U256);
            set_procs(st1, binop_procs(st1.procs, name))
        } else if p == Some(YulType::U32) && name == "mstore"@ {
            t_mstore(st0, args)
        } else if p == Some(YulType::U32) && name == "mload"@ {
            t_mload(st0, args, return_types)
        } else if p == Some(YulType::U256) && is_u256_comparison(name) {
            let st1 = t_u256_op(st0, name, args, comparison_arity(name), YulType::U32);
            set_procs(st1, comparison_procs(st1.procs, name))
        } else if p == Some(YulType::U256) && is_u256_shift(name) {
            let st1 = t_u256_op(st0, name, args, 1, YulType::U256);
            set_procs(st1, shift_procs(st1.procs, name))
        } else if p != Some(YulType::U256) && is_u32_binop(name) {
            t_u32_op(st0, name, args)
        } else if p != Some(YulType::U256) && name == "iszero"@ {
            t_u32_iszero(st0, args)
        } else {
            fail(st0)
        }
    }
}

/// The name under which a switch keeps whether a case matched.
pub open spec fn switch_matched() -> STyped {
    STyped { name: "switch_matched"@, yul_type: YulType::U32 }
}

/// The test of a case of a switch: a copy of the switch value `target`,
/// the case's literal, and their comparison, which leaves 1 when they are
/// equal.
pub open spec fn case_test(st: TState, literal: SLiteral, ty: Option<YulType>, target: STyped) -> TState {
    let st0 = move_identifier_to_top(st, target, true);
    let st1 = t_literal(set_overflow(st0, true), literal);
    if ty == Some(YulType::U256) {
        add_line(st1, "exec.u256eq_unsafe"@)
    } else {
        add_line(st1, "eq"@)
    }
}

/// One case of a switch: a copy of the switch value `target` is compared
/// with the case's literal and, when equal, the flag `switch_matched` is set
/// and the case's block runs.
pub open spec fn t_case(st: TState, c: SCase, ty: Option<YulType>, target: STyped) -> TState
    decreases c, 1nat,
{
    let st2 = case_test(st, c.literal, ty, target);
    let st3 = indent(add_line(begin_branch(set_overflow(consume(st2, 2), false)), "if.true"@));
    let st4 = assign_begin(st3, seq![switch_matched().name]);
    let st5 = if st4.failed {
        st4
    } else {
        assign_end(push_u32(st4, U256 { limb0: 1, limb1: 0, limb2: 0, limb3: 0 }), st3.scoped_identifiers[switch_matched().name])
    };
    add_line(outdent(end_branch(t_block(st5, c.block))), "end"@)
}

/// The cases of a switch, in order.
pub open spec fn t_cases(st: TState, cases: Seq<SCase>, ty: Option<YulType>, target: STyped) -> TState
    decreases cases, 0nat,
{
    if st.failed || cases.len() == 0 {
        st
    } else {
        t_case(t_cases(st, cases.drop_last(), ty, target), cases.last(), ty, target)
    }
}

/// A switch: a flag for whether a case matched, the switch value kept as a
/// variable, the cases, and the default case run when none matched.
pub open spec fn t_switch(st: TState, e: SExpr) -> TState
    decreases e, 2nat,
{
    match e {
        SExpr::Switch { default_case, inferred_type, scrutinee, cases } => {
            let matched = switch_matched();
            let st1 = bind(add_line(st, Seq::empty()), matched);
            let st2 = prepare_for(add_comment(st1, "keeping track of whether we've hit any cases"@), YulType::U32);
            let st3 = top_is_var(add_unknown(add_line(st2, "push.0"@), YulType::U32), matched);
            let st4 = t_op(st3, *scrutinee);
            match inferred_type {
                None => fail(st4),
                Some(ty) => {
                    let target = STyped { name: "switch"@, yul_type: ty };
                    let st5 = top_is_var(bind(st4, target), target);
                    let st6 = t_cases(st5, cases, inferred_type, target);
                    let st7 = match default_case {
                        None => st6,
                        Some(b) => {
                            let s1 = move_identifier_to_top(add_comment(st6, "default case"@), matched, true);
                            let s2 = begin_branch(add_line(consume(add_line(s1, "not"@), 1), "if.true"@));
                            add_line(end_branch(t_block(s2, b)), "end"@)
                        },
                    };
                    add_line(st7, Seq::empty())
                },
            }
        },
        _ => fail(st),
    }
}

/// `x := rhs`: the value of `rhs` becomes the variable's.
pub open spec fn t_assignment(st: TState, e: SExpr) -> TState
    decreases e, 2nat,
{
    match e {
        SExpr::Assignment { names, types: _, rhs } => {
            let st1 = assign_begin(st, names);
            if st1.failed {
                st1
            } else {
                assign_end(t_op(st1, *rhs), st.scoped_identifiers[names[0]])
            }
        },
        _ => fail(st),
    }
}

/// `let x := rhs`: one variable, brought into scope, holding the value of
/// `rhs` when there is one.
pub open spec fn t_declaration(st: TState, e: SExpr) -> TState
    decreases e, 2nat,
{
    match e {
        SExpr::DeclareVariable { vars, rhs } => if vars.len() != 1 {
            fail(st)
        } else {
            let st1 = indent(add_comment(bind(st, vars[0]), "Assigning to "@ + vars[0].name));
            let st2 = match rhs {
                Some(r) => top_is_var(t_op(st1, *r), vars[0]),
                None => st1,
            };
            outdent(st2)
        },
        _ => fail(st),
    }
}

/// `for { init } cond { after } { body }`: a `while.true` loop whose
/// condition is evaluated before it and again at the end of each round.
pub open spec fn t_for(st: TState, e: SExpr) -> TState
    decreases e, 2nat,
{
    match e {
        SExpr::ForLoop { init, cond, after, body } => {
            let st1 = t_op(add_comment(t_block(st, init), "-- conditional --"@), *cond);
            let st2 = begin_branch(indent(consume(add_line(st1, "while.true"@), 1)));
            let st3 = newline(outdent(t_block(indent(add_comment(st2, "-- interior block --"@)), body)));
            let st4 = newline(t_block(indent(add_comment(st3, "-- after block --"@)), after));
            let st5 = indent(add_comment(newline(outdent(end_branch(st4))), "-- conditional --"@));
            let st6 = outdent(consume(newline(outdent(t_op(st5, *cond))), 1));
            newline(add_line(st6, "end"@))
        },
        _ => fail(st),
    }
}

/// `if cond { body }`
pub open spec fn t_if(st: TState, e: SExpr) -> TState
    decreases e, 2nat,
{
    match e {
        SExpr::IfStatement { cond, body } => {
            let st1 = begin_branch(indent(add_line(consume(t_op(st, *cond), 1), "if.true"@)));
            add_line(outdent(end_branch(t_block(st1, body))), "end"@)
        },
        _ => fail(st),
    }
}

/// A block repeated a fixed number of times; at the end of each round the
/// stack is laid out as before it.
pub open spec fn t_repeat(st: TState, e: SExpr) -> TState
    decreases e, 2nat,
{
    match e {
        SExpr::Repeat { body, iterations } => {
            let st1 = indent(add_line(st, "repeat."@ + nat_to_dec(iterations as nat)));
            add_line(outdent(target_stack(t_block(st1, body), st.stack)), "end"@)
        },
        _ => fail(st),
    }
}

/// A reference to a variable in scope: a copy of its value is brought to
/// the top.
pub open spec fn t_variable(st: TState, name: Seq<char>) -> TState {
    if st.scoped_identifiers.contains_key(name) {
        move_identifier_to_top(st, st.scoped_identifiers[name], true)
    } else {
        fail(st)
    }
}

/// Generates one expression or statement.
pub open spec fn t_op(st: TState, e: SExpr) -> TState
    decreases e, 3nat,
{
    if st.failed {
        st
    } else {
        match e {
            SExpr::Literal(l) => t_literal(st, l),
            SExpr::Assignment { .. } => t_assignment(st, e),
            SExpr::DeclareVariable { .. } => t_declaration(st, e),
            SExpr::ForLoop { .. } => t_for(st, e),
            SExpr::Variable { name, inferred_type: _ } => t_variable(st, name),
            SExpr::Block(es) => t_block(st, es),
            SExpr::IfStatement { .. } => t_if(st, e),
            SExpr::FunctionCall { name, args, return_types, param_types } => t_call(
                st,
                name,
                args,
                return_types,
                param_types,
            ),
            SExpr::Repeat { .. } => t_repeat(st, e),
            SExpr::FunctionDefinition { .. } => st,
            SExpr::Break => st,
            SExpr::Continue => st,
            SExpr::Leave => st,
            SExpr::Switch { .. } => t_switch(st, e),
            SExpr::Case(_) => fail(st),
        }
    }
}

/// Generates a sequence of statements, in order.
pub open spec fn t_block(st: TState, es: Seq<SExpr>) -> TState
    decreases es, 0nat,
{
    if st.failed || es.len() == 0 {
        st
    } else {
        t_op(t_block(st, es.drop_last()), es.last())
    }
}


/// Brings a copy of each variable of `ts` to the top, in order.
pub open spec fn dup_all(st: TState, ts: Seq<STyped>) -> TState
    decreases ts.len(),
{
    if st.failed || ts.len() == 0 {
        st
    } else {
        move_identifier_to_top(dup_all(st, ts.drop_last()), ts.last(), true)
    }
}

/// Brings each variable of `ts` into scope, in order.
pub open spec fn bind_all(st: TState, ts: Seq<STyped>) -> TState
    decreases ts.len(),
{
    if st.failed || ts.len() == 0 {
        st
    } else {
        bind(bind_all(st, ts.drop_last()), ts.last())
    }
}

/// Takes the names of `ts` out of scope.
pub open spec fn unbind_all(m: Map<Seq<char>, STyped>, ts: Seq<STyped>) -> Map<Seq<char>, STyped>
    decreases ts.len(),
{
    if ts.len() == 0 {
        m
    } else {
        unbind_all(m, ts.drop_last()).remove(ts.last().name)
    }
}

/// Slots holding the variables of `ts`, in order.
pub open spec fn param_stack(ts: Seq<STyped>) -> Seq<SValue> {
    ts.map_values(|t: STyped| holding(t))
}

/// The start of a user function's procedure: its parameters on the stack
/// and in scope, and the line `proc.name.n`, `n` twice their number.
pub open spec fn function_prologue(st: TState, name: Seq<char>, params: Seq<STyped>) -> TState {
    let st1 = bind_all(TState { stack: param_stack(params), ..st }, params);
    indent(add_line(st1, "proc."@ + name + "."@ + nat_to_dec(2 * params.len())))
}

/// The end of a user function's procedure: only the return values are left
/// on the stack; that stack is recorded as the function's, and the
/// parameters leave scope.
pub open spec fn function_epilogue(st: TState, name: Seq<char>, params: Seq<STyped>, rets: Seq<STyped>) -> TState {
    let st3 = drop_after_returns(st, rets);
    let st4 = if st3.failed {
        st3
    } else {
        add_line(outdent(TState { stack: Seq::empty(), ..st3 }), "end"@)
    };
    if st4.failed {
        st4
    } else {
        TState {
            user_functions: st4.user_functions.insert(name, st3.stack),
            scoped_identifiers: unbind_all(st4.scoped_identifiers, params),
            ..st4
        }
    }
}

/// A user function becomes a procedure: its body is generated between the
/// prologue and the epilogue, and the return values are copied to the top.
pub open spec fn t_function_declaration(
    st: TState,
    name: Seq<char>,
    params: Seq<STyped>,
    rets: Seq<STyped>,
    block: Seq<SExpr>,
) -> TState {
    if st.failed {
        st
    } else if 2 * params.len() > u64::MAX {
        fail(st)
    } else {
        function_epilogue(dup_all(t_block(function_prologue(st, name, params), block), rets), name, params, rets)
    }
}

/// Generates the user functions of a program, in order.
pub open spec fn declare_functions(st: TState, ast: Seq<SExpr>) -> TState
    decreases ast.len(),
{
    if st.failed || ast.len() == 0 {
        st
    } else {
        let st1 = declare_functions(st, ast.drop_last());
        match ast.last() {
            SExpr::FunctionDefinition { name, params, rets, block } => t_function_declaration(
                st1,
                name,
                params,
                rets,
                block,
            ),
            _ => st1,
        }
    }
}

/// Where user memory starts.
pub open spec fn user_memory_offset() -> u64 {
    1024
}

/// The state after the whole program is generated: the library procedures
/// `procs`, the user functions, then the statements between `begin` and
/// `end`.
pub open spec fn transpiled(ast: Seq<SExpr>, procs: Seq<char>) -> TState {
    let st1 = add_line(add_line(initial_state(user_memory_offset()), procs + seq!['\n']), "# end std lib #"@);
    let st2 = indent(add_line(declare_functions(st1, ast), "begin"@));
    add_line(outdent(t_block(st2, ast)), "end"@)
}

/// The Miden program generated from `ast`, or `None` when the generator
/// cannot handle it.
pub open spec fn spec_transpile_program(ast: Seq<SExpr>, procs: Seq<char>) -> Option<Seq<char>> {
    let st = transpiled(ast, procs);
    if st.failed {
        None
    } else {
        Some(st.program)
    }
}


/// Adding lines changes only the program.
pub proof fn lemma_add_lines(st: TState, line: Seq<char>, n: nat)
    ensures
        add_lines(st, line, n) == (TState { program: add_lines(st, line, n).program, failed: add_lines(st, line, n).failed, ..st }),
        st.failed ==> add_lines(st, line, n).failed,
    decreases n,
{
    if n > 0 {
        lemma_add_lines(st, line, (n - 1) as nat);
    }
}

/// Moving a value keeps whether overflow is accepted.
pub proof fn lemma_move_keeps_overflow(st: TState, offset: u32, t: YulType)
    ensures
        move_from_offset(st, offset, t).accept_overflow == st.accept_overflow,
{
    if !st.failed && t == YulType::U256 && offset != 1 && offset != 8 && offset + 7 <= u32::MAX {
        lemma_add_lines(st, "movup."@ + nat_to_dec((offset + 7) as nat), 8);
    }
}

/// Storing the bottom variable in memory keeps whether overflow is accepted.
pub proof fn lemma_pop_bottom_keeps_overflow(st: TState)
    ensures
        pop_bottom_to_memory(st).accept_overflow == st.accept_overflow,
{
    if !st.failed && st.stack.len() > 0 && st.stack.last().id is Some {
        let v = st.stack.last();
        let above = stack_size(st.stack.drop_last());
        if above <= u32::MAX {
            let st1 = add_comment(
                st,
                "Moving "@ + v.id->0.name + " to top of stack, "@ + nat_to_dec(above) + " values above"@,
            );
            lemma_move_keeps_overflow(st1, above as u32, v.ty);
        }
    }
}

/// Making room for a value leaves it room: unless overflow is accepted, the
/// stack and the value fit in the 16 reachable elements afterwards, or the
/// bottom value is unknown and so cannot be stored in memory.
pub proof fn law_prepare_makes_room(st: TState, t: YulType)
    requires
        !st.accept_overflow,
        !prepare_for(st, t).failed,
    ensures
        stack_size(prepare_for(st, t).stack) + spec_stack_width(t) <= 16 || (prepare_for(st, t).stack.len() > 0
            && prepare_for(st, t).stack.last().id is None),
    decreases st.stack.len(),
{
    reveal(prepare_for);
    if !st.failed && stack_size(st.stack) + spec_stack_width(t) > 16 {
        let st1 = add_comment(st, "stack would be too large after "@ + yul_type_text(t) + ", popping to memory"@);
        if st1.stack.len() > 0 && !(st1.stack.last().id is None) {
            let st2 = outdent(pop_bottom_to_memory(indent(st1)));
            lemma_pop_bottom_keeps_overflow(indent(st1));
            if !st2.failed && st2.stack.len() < st.stack.len() {
                law_prepare_makes_room(st2, t);
            }
        }
    }
}

/// Every stored variable's memory lies below the next open address.
pub open spec fn memory_well_formed(st: TState) -> bool {
    forall|t: STyped| #[trigger]
        st.variables.contains_key(t) ==> st.variables[t] + spec_memory_addresses(t.yul_type)
            <= st.next_open_memory_address
}

/// A value stored for the first time gets the next open address, which lies
/// past the memory of every variable stored before, and the memory stays
/// well formed. This needs the value's slot to have its variable's type.
pub proof fn law_allocation_is_fresh(st: TState, v: SValue)
    requires
        memory_well_formed(st),
        !allocate(st, v).0.failed,
        v.id matches Some(t) ==> t.yul_type == v.ty,
    ensures
        memory_well_formed(allocate(st, v).0),
        (v.id is None || !st.variables.contains_key(v.id->0)) ==> allocate(st, v).1 == st.next_open_memory_address
            && allocate(st, v).0.next_open_memory_address == st.next_open_memory_address + spec_memory_addresses(v.ty)
            && forall|t: STyped| #[trigger]
            st.variables.contains_key(t) ==> st.variables[t] + spec_memory_addresses(t.yul_type) <= allocate(st, v).1,
        (v.id matches Some(t) && st.variables.contains_key(t)) ==> allocate(st, v).1 == st.variables[v.id->0],
{
}

/// Moving a value changes neither the stack nor the branches.
proof fn lemma_move_keeps_stack(st: TState, offset: u32, t: YulType)
    ensures
        move_from_offset(st, offset, t).stack == st.stack,
{
    if !st.failed && t == YulType::U256 && offset != 1 && offset != 8 && offset + 7 <= u32::MAX {
        lemma_add_lines(st, "movup."@ + nat_to_dec((offset + 7) as nat), 8);
    }
}

/// Storing the bottom variable in memory removes the bottom slot.
proof fn lemma_pop_bottom_stack(st: TState)
    requires
        !pop_bottom_to_memory(st).failed,
    ensures
        st.stack.len() > 0,
        pop_bottom_to_memory(st).stack == st.stack.drop_last(),
{
    let v = st.stack.last();
    let above = stack_size(st.stack.drop_last());
    let st1 = add_comment(
        st,
        "Moving "@ + v.id->0.name + " to top of stack, "@ + nat_to_dec(above) + " values above"@,
    );
    lemma_move_keeps_stack(st1, above as u32, v.ty);
    let st2 = move_from_offset(st1, above as u32, v.ty);
    let st3 = if st2.failed { st2 } else { TState { stack: seq![v] + st2.stack.drop_last(), ..st2 } };
    assert((seq![v] + st.stack.drop_last()).skip(1) =~= st.stack.drop_last());
    assert(pop_top_to_memory(st3, None).0.stack == st3.stack.skip(1));
}

/// The stack sizes of prefixes grow with their length.
proof fn lemma_stack_size_prefix(s: Seq<SValue>, i: int, j: int)
    requires
        0 <= i <= j <= s.len(),
    ensures
        stack_size(s.take(i)) <= stack_size(s.take(j)),
    decreases j - i,
{
    if i < j {
        assert(s.take(j).drop_last() =~= s.take(j - 1));
        lemma_stack_size_prefix(s, i, j - 1);
    }
}

/// The stack size of two runs of slots, one after the other.
pub proof fn lemma_stack_size_append(a: Seq<SValue>, b: Seq<SValue>)
    ensures
        stack_size(a + b) == stack_size(a) + stack_size(b),
    decreases b.len(),
{
    if b.len() == 0 {
        assert(a + b =~= a);
    } else {
        assert((a + b).drop_last() =~= a + b.drop_last());
        lemma_stack_size_append(a, b.drop_last());
    }
}

/// Making room only removes bottom slots, and never the first `m` when
/// they and the new value fit in the 16 reachable elements.
proof fn lemma_prepare_keeps_top(st: TState, t: YulType, m: int)
    requires
        !prepare_for(st, t).failed,
        0 <= m <= st.stack.len(),
        stack_size(st.stack.take(m)) + spec_stack_width(t) <= 16,
    ensures
        m <= prepare_for(st, t).stack.len() <= st.stack.len(),
        prepare_for(st, t).stack == st.stack.take(prepare_for(st, t).stack.len() as int),
    decreases st.stack.len(),
{
    reveal(prepare_for);
    if !st.failed && !st.accept_overflow && stack_size(st.stack) + spec_stack_width(t) > 16 {
        let st1 = add_comment(st, "stack would be too large after "@ + yul_type_text(t) + ", popping to memory"@);
        if st1.stack.len() > 0 && !(st1.stack.last().id is None) {
            let st2 = outdent(pop_bottom_to_memory(indent(st1)));
            lemma_pop_bottom_stack(indent(st1));
            assert(st2.stack == st.stack.drop_last());
            if m == st.stack.len() {
                assert(st.stack.take(m) =~= st.stack);
            }
            assert(st2.stack.take(m) =~= st.stack.take(m));
            lemma_prepare_keeps_top(st2, t, m);
            let k = prepare_for(st2, t).stack.len() as int;
            assert(st.stack.drop_last().take(k) =~= st.stack.take(k));
        }
    } else {
        assert(st.stack.take(st.stack.len() as int) =~= st.stack);
    }
}

/// The first slot holding `t`.
proof fn lemma_find_slot_model(s: Seq<SValue>, t: STyped)
    ensures
        find_slot(s, t) matches Some(i) ==> i < s.len() && s[i as int].id == Some(t) && forall|j: int|
            0 <= j < i ==> s[j].id != Some(t),
        find_slot(s, t) is None ==> forall|j: int| 0 <= j < s.len() ==> s[j].id != Some(t),
    decreases s.len(),
{
    if s.len() > 0 && s[0].id != Some(t) {
        lemma_find_slot_model(s.skip(1), t);
        assert forall|j: int| 1 <= j < s.len() implies s[j] == s.skip(1)[j - 1] by {}
    }
}

/// Moving a variable to the top puts it there, above the top `m` slots it
/// was not in, when they and it fit in the 16 reachable elements.
proof fn lemma_move_to_top_keeps(st: TState, t: STyped, m: int)
    requires
        !move_identifier_to_top(st, t, false).failed,
        0 <= m <= st.stack.len(),
        forall|j: int| 0 <= j < m ==> st.stack[j].id != Some(t),
        stack_size(st.stack.take(m)) + spec_stack_width(t.yul_type) <= 16,
    ensures
        move_identifier_to_top(st, t, false).stack.len() >= m + 1,
        move_identifier_to_top(st, t, false).stack.take(m + 1) == seq![holding(t)] + st.stack.take(m),
{
    reveal(move_identifier_to_top);
    let st1 = prepare_for(st, t.yul_type);
    lemma_prepare_keeps_top(st, t.yul_type, m);
    let k = st1.stack.len() as int;
    assert(st1.stack.take(m) =~= st.stack.take(m));
    lemma_find_slot_model(st1.stack, t);
    let r = move_identifier_to_top(st, t, false);
    match find_slot(st1.stack, t) {
        Some(i) => {
            let offset = stack_size(st1.stack.take(i as int));
            let v = st1.stack[i as int];
            let st2 = indent(add_comment(st1, "pushing "@ + t.name + " to the top"@));
            let st2b = TState { stack: seq![holding(t)] + st2.stack.remove(i as int), ..st2 };
            lemma_move_keeps_stack(st2b, offset as u32, v.ty);
            assert(i >= m);
            assert(r.stack == seq![holding(t)] + st1.stack.remove(i as int));
            assert((seq![holding(t)] + st1.stack.remove(i as int)).take(m + 1) =~= seq![holding(t)] + st.stack.take(m));
        },
        None => {
            let st1a = add_comment(st1, "push "@ + t.name + " from memory to top of stack"@);
            let pushed = push_from_memory(st1a, st1a.variables[t], t.yul_type);
            assert(pushed.stack == seq![unknown(t.yul_type)] + st1.stack);
            assert(r.stack == pushed.stack.update(0, SValue { id: Some(t), ..pushed.stack[0] }));
            assert(r.stack.take(m + 1) =~= seq![holding(t)] + st.stack.take(m));
        },
    }
}

/// The slots hold distinct variables.
pub open spec fn distinct_slots(s: Seq<SValue>) -> bool {
    forall|i: int, j: int| 0 <= i < s.len() && 0 <= j < s.len() && i != j ==> s[i].id != s[j].id
}

/// Each slot holding a variable has that variable's type.
pub open spec fn typed_slots(s: Seq<SValue>) -> bool {
    forall|i: int| 0 <= i < s.len() ==> (#[trigger] s[i].id matches Some(t) ==> s[i] == holding(t))
}

/// Bringing the variables of `target` to the top, the last first, lays them
/// out above the slots `placed` already on top.
proof fn lemma_target_moves_layout(st: TState, target: Seq<SValue>, placed: Seq<SValue>)
    requires
        !target_moves(st, target).failed,
        st.stack.len() >= placed.len(),
        st.stack.take(placed.len() as int) == placed,
        distinct_slots(target + placed),
        typed_slots(target + placed),
        stack_size(target + placed) <= 16,
    ensures
        target_moves(st, target).stack.len() >= target.len() + placed.len(),
        target_moves(st, target).stack.take((target.len() + placed.len()) as int) == target + placed,
    decreases target.len(),
{
    let all = target + placed;
    if target.len() == 0 {
        assert(all =~= placed);
    } else {
        let last = target.last();
        let n = target.len();
        assert(all[n - 1] == last);
        let t = last.id->0;
        assert(last == holding(t));
        let st1 = move_identifier_to_top(st, t, false);
        if st1.failed {
            assert(target_moves(st1, target.drop_last()) == st1) by {
                lemma_target_moves_failed(st1, target.drop_last());
            }
        }
        assert forall|j: int| 0 <= j < placed.len() implies st.stack[j].id != Some(t) by {
            assert(st.stack.take(placed.len() as int)[j] == st.stack[j]);
            assert(all[n + j] == placed[j]);
        }
        let placed1 = seq![last] + placed;
        assert(all.skip(n - 1) =~= placed1);
        assert(all =~= all.take(n - 1) + placed1);
        lemma_stack_size_append(all.take(n - 1), placed1);
        lemma_stack_size_append(seq![last], placed);
        assert(stack_size(seq![last]) == spec_stack_width(last.ty)) by {
            assert(seq![last].drop_last() =~= Seq::<SValue>::empty());
            assert(seq![last].last() == last);
            assert(stack_size(seq![last].drop_last()) == 0);
        }
        lemma_move_to_top_keeps(st, t, placed.len() as int);
        assert(st1.stack.take(placed1.len() as int) == placed1);
        assert(target.drop_last() + placed1 =~= all);
        lemma_target_moves_layout(st1, target.drop_last(), placed1);
    }
}

proof fn lemma_target_moves_failed(st: TState, target: Seq<SValue>)
    requires
        st.failed,
    ensures
        target_moves(st, target) == st,
{
}

/// Ending a branch lays the stack out as it was when the branch began:
/// each variable back in its slot, in the same order, and nothing below
/// them. This holds when the slots before the branch held distinct
/// variables, each slot with its variable's type, within the 16 reachable
/// elements.
pub proof fn law_branch_restores_stack(st: TState)
    requires
        !end_branch(st).failed,
        st.branches.len() > 0,
        distinct_slots(st.branches.last().before),
        typed_slots(st.branches.last().before),
        stack_size(st.branches.last().before) <= 16,
    ensures
        end_branch(st).stack == st.branches.last().before,
{
    reveal(end_branch);
    reveal(target_stack);
    let b = st.branches.last();
    let st1 = TState { branches: st.branches.drop_last(), ..st };
    let st2 = indent(add_comment(st1, "cleaning up after branch"@));
    let st3 = store_modified(st2, b.modified, b.before);
    let moved = target_moves(st3, b.before);
    assert(b.before + Seq::<SValue>::empty() =~= b.before);
    assert(st3.stack.take(0) =~= Seq::<SValue>::empty());
    lemma_target_moves_layout(st3, b.before, Seq::<SValue>::empty());
    assert(moved.stack.take(b.before.len() as int) == b.before);
    if moved.stack.len() <= b.before.len() {
        assert(moved.stack =~= moved.stack.take(b.before.len() as int));
    }
}

/// Storing the top value in memory at the address it is given gives it the
/// address its variable already has, leaving the allocation as it was, or
/// else the next open address, past the memory of every stored variable,
/// which then moves on by the value's size and is recorded for its
/// variable; the memory stays well formed, so no two variables share an
/// address. The value leaves the stack, and the lines added are a comment
/// and `pop.mem.a` for a `u32`, `popw.mem.a` and `popw.mem.a+1` for a
/// `u256`. This needs the slot to have its variable's type.
pub proof fn law_pop_top_allocation(st: TState)
    requires
        memory_well_formed(st),
        !pop_top_to_memory(st, None).0.failed,
        st.stack.len() > 0 && (st.stack[0].id matches Some(t) ==> t.yul_type == st.stack[0].ty),
    ensures
        memory_well_formed(pop_top_to_memory(st, None).0),
        pop_top_to_memory(st, None).0.stack == st.stack.skip(1),
        (st.stack[0].id is None || !st.variables.contains_key(st.stack[0].id->0)) ==> pop_top_to_memory(st, None).1
            == st.next_open_memory_address && forall|t: STyped| #[trigger]
            st.variables.contains_key(t) ==> st.variables[t] + spec_memory_addresses(t.yul_type) <= pop_top_to_memory(
                st,
                None,
            ).1,
        (st.stack[0].id matches Some(t) && st.variables.contains_key(t)) ==> pop_top_to_memory(st, None).1
            == st.variables[st.stack[0].id->0] && pop_top_to_memory(st, None).0.variables == st.variables
            && pop_top_to_memory(st, None).0.next_open_memory_address == st.next_open_memory_address,
        (st.stack[0].id is None || !st.variables.contains_key(st.stack[0].id->0)) ==> pop_top_to_memory(
            st,
            None,
        ).0.next_open_memory_address == st.next_open_memory_address + spec_memory_addresses(st.stack[0].ty)
            && pop_top_to_memory(st, None).0.variables == match st.stack[0].id {
            Some(t) => st.variables.insert(t, st.next_open_memory_address),
            None => st.variables,
        },
        ({
            let (r, a) = pop_top_to_memory(st, None);
            let sp = spaces(st.indentation as nat);
            let head = st.program + seq!['\n'] + sp + ("# "@ + ("popping "@ + slot_name(st.stack[0])
                + " from top of stack to memory"@) + " #"@);
            r.program == match st.stack[0].ty {
                YulType::U32 => head + seq!['\n'] + sp + ("pop.mem."@ + nat_to_dec(a as nat)) + seq!['\n'],
                YulType::U256 => head + seq!['\n'] + sp + ("popw.mem."@ + nat_to_dec(a as nat)) + seq!['\n'] + sp + (
                "popw.mem."@ + nat_to_dec((a + 1) as nat)) + seq!['\n'],
            }
        }),
{
    let v = st.stack[0];
    law_allocation_is_fresh(st, v);
    let (st1, a) = allocate(st, v);
    assert(pop_top_to_memory(st, None).0.variables == st1.variables);
    assert(pop_top_to_memory(st, None).0.next_open_memory_address == st1.next_open_memory_address);
    let (r, a2) = pop_top_to_memory(st, None);
    let sp = spaces(st.indentation as nat);
    let c = "# "@ + ("popping "@ + slot_name(v) + " from top of stack to memory"@) + " #"@;
    let head = st.program + seq!['\n'] + sp + c;
    match v.ty {
        YulType::U32 => {
            assert(r.program =~= head + seq!['\n'] + sp + ("pop.mem."@ + nat_to_dec(a2 as nat)) + seq!['\n']);
        },
        YulType::U256 => {
            assert(r.program =~= head + seq!['\n'] + sp + ("popw.mem."@ + nat_to_dec(a2 as nat)) + seq!['\n'] + sp
                + ("popw.mem."@ + nat_to_dec((a2 + 1) as nat)) + seq!['\n']);
        },
    }
}

} // verus!
