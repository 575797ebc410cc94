//! What generated Miden code computes, for `u32` values.
//!
//! The lines of a program run on a machine with a stack of field elements
//! and a memory: comments and empty lines do nothing, and the other lines
//! run their space-separated instructions in order. `push.n` pushes `n`,
//! `dup.n` copies the element `n` places down to the top, `mul.n`
//! multiplies the top by `n`, `pop.mem` stores the second element at the
//! address on top, `push.mem` replaces the address on top by what memory
//! holds there, and the arithmetic and comparison instructions take the top
//! two elements (the second one first) and push the result, computed modulo
//! the Miden field's prime. A `u32` expression of literals, variables,
//! `mload` and the operations `add`, `sub`, `mul`, `lt`, `gt` and `eq` is
//! worth what Yul computes when every value on the way is a `u32`. The laws
//! below show that the generated lines push exactly that value, and that a
//! straight-line program of `u32` declarations, assignments and `mstore`
//! calls leaves each variable's Yul value in the stack slot the generator
//! keeps for it and Yul's memory at twice each address past the memory
//! offset.
use vstd::prelude::*;
use crate::types::{YulType, SExpr, SLiteral, STyped, spec_stack_width};
use crate::u256::U256;
use crate::u256::{nat_to_dec, dec_value, all_dec_digits, is_dec_digit, dec_digit_char, dec_digit_value};
use crate::parser::{find_char, lemma_find_char};
use crate::repl::split_on;
use crate::miden_model::{TState, SValue, case_test, set_overflow, t_literal, find_slot, declare_functions, initial_state, user_memory_offset,
    transpiled, spec_transpile_program, assign_begin, bind, top_is_var, move_identifier_to_top, dup_from_offset, indent, outdent,
    t_op, t_call, t_block, t_u32_op, t_mload, t_mstore, expr_type, push_u32, prepare_for, add_line, add_comment,
    add_unknown, newline, consume, unknown, spaces, stack_size, is_u256_binop, u32_instruction,
    lemma_stack_size_append};
use vstd::arithmetic::div_mod::lemma_small_mod;

verus! {

/// The prime of the Miden field.
pub open spec fn field_prime() -> int {
    0xffff_ffff_0000_0001
}

/// A line without its leading spaces.
pub open spec fn strip_spaces(l: Seq<char>) -> Seq<char>
    decreases l.len(),
{
    if l.len() > 0 && l[0] == ' ' {
        strip_spaces(l.drop_first())
    } else {
        l
    }
}

/// The machine that runs the lines: its stack of field elements, top
/// first, and its memory.
pub struct MState {
    pub stack: Seq<int>,
    pub memory: Map<int, int>,
}

/// The element at address `a`; memory starts out as zeros.
pub open spec fn mem_at(m: Map<int, int>, a: int) -> int {
    if m.contains_key(a) {
        m[a]
    } else {
        0
    }
}

/// The machine with stack `s`.
pub open spec fn with_stack(vm: MState, s: Seq<int>) -> MState {
    MState { stack: s, ..vm }
}

/// The top two elements, the second one first, replaced by `f` of them.
pub open spec fn binary(vm: MState, f: spec_fn(int, int) -> int) -> Option<MState> {
    let s = vm.stack;
    if s.len() < 2 {
        None
    } else {
        Some(with_stack(vm, seq![f(s[1], s[0])] + s.skip(2)))
    }
}

/// What one instruction does; `None` for one this semantics does not
/// cover. `pop.mem` stores the second element at the address on top and
/// pops both; `push.mem` replaces the address on top by the element stored
/// there.
pub open spec fn run_word(w: Seq<char>, vm: MState) -> Option<MState> {
    let s = vm.stack;
    let p = field_prime();
    if w.len() > 5 && w.take(5) == "push."@ && all_dec_digits(w.skip(5)) {
        Some(with_stack(vm, seq![dec_value(w.skip(5)) as int % p] + s))
    } else if w.len() > 4 && w.take(4) == "dup."@ && all_dec_digits(w.skip(4)) {
        let n = dec_value(w.skip(4));
        if n < 16 && n < s.len() {
            Some(with_stack(vm, seq![s[n as int]] + s))
        } else {
            None
        }
    } else if w.len() > 4 && w.take(4) == "mul."@ && all_dec_digits(w.skip(4)) {
        if s.len() > 0 {
            Some(with_stack(vm, seq![(s[0] * dec_value(w.skip(4))) % p] + s.skip(1)))
        } else {
            None
        }
    } else if w == "pop.mem"@ {
        if s.len() >= 2 {
            Some(MState { stack: s.skip(2), memory: vm.memory.insert(s[0], s[1]) })
        } else {
            None
        }
    } else if w == "push.mem"@ {
        if s.len() >= 1 {
            Some(with_stack(vm, seq![mem_at(vm.memory, s[0])] + s.skip(1)))
        } else {
            None
        }
    } else if w == "add"@ {
        binary(vm, |a: int, b: int| (a + b) % p)
    } else if w == "sub"@ {
        binary(vm, |a: int, b: int| (a - b) % p)
    } else if w == "mul"@ {
        binary(vm, |a: int, b: int| (a * b) % p)
    } else if w == "lt"@ {
        binary(vm, |a: int, b: int| if a < b { 1 } else { 0 })
    } else if w == "gt"@ {
        binary(vm, |a: int, b: int| if a > b { 1 } else { 0 })
    } else if w == "eq"@ {
        binary(vm, |a: int, b: int| if a == b { 1 } else { 0 })
    } else {
        None
    }
}

/// The instructions run in order.
pub open spec fn run_words(ws: Seq<Seq<char>>, vm: MState) -> Option<MState>
    decreases ws.len(),
{
    if ws.len() == 0 {
        Some(vm)
    } else {
        match run_words(ws.drop_last(), vm) {
            Some(vm1) => run_word(ws.last(), vm1),
            None => None,
        }
    }
}

/// What one line does: nothing for a comment or an empty line, else its
/// space-separated instructions in order.
pub open spec fn run_line(l: Seq<char>, vm: MState) -> Option<MState> {
    let t = strip_spaces(l);
    if t.len() == 0 || t[0] == '#' {
        Some(vm)
    } else {
        run_words(split_on(t, ' '), vm)
    }
}

/// The lines run in order.
pub open spec fn run_lines(ls: Seq<Seq<char>>, vm: MState) -> Option<MState>
    decreases ls.len(),
{
    if ls.len() == 0 {
        Some(vm)
    } else {
        match run_lines(ls.drop_last(), vm) {
            Some(vm1) => run_line(ls.last(), vm1),
            None => None,
        }
    }
}

/// The lines of a program's text.
pub open spec fn program_lines(st: TState) -> Seq<Seq<char>> {
    split_on(st.program, '\n')
}

/// The operations this semantics covers.
pub open spec fn is_u32_arith(name: Seq<char>) -> bool {
    name == "add"@ || name == "sub"@ || name == "mul"@ || name == "lt"@ || name == "gt"@ || name == "eq"@
}

/// A `u32` expression: a `u32` number literal, a variable, one of the
/// covered operations on two `u32` expressions whose first argument is
/// typed `u32`, or `mload` of a `u32` address that returns a `u32`.
pub open spec fn u32_expr(e: SExpr) -> bool
    decreases e,
{
    match e {
        SExpr::Literal(SLiteral::Number { inferred_type, value: _ }) => inferred_type == Some(YulType::U32),
        SExpr::Variable { name: _, inferred_type: _ } => true,
        SExpr::FunctionCall { name, args, return_types, param_types } => if name == "mload"@ {
            args.len() == 1 && param_types.len() > 0 && param_types[0] == Some(YulType::U32) && return_types.len()
                > 0 && return_types[0] == Some(YulType::U32) && u32_expr(args[0])
        } else {
            is_u32_arith(name) && args.len() == 2 && param_types.len() > 0 && param_types[0] == Some(YulType::U32)
                && u32_expr(args[0]) && u32_expr(args[1])
        },
        _ => false,
    }
}

/// The value of a `u32` expression as Yul computes it, the variables having
/// the values `env` gives them and memory holding `mem`, when every value
/// on the way is a `u32`.
pub open spec fn yul_value(e: SExpr, env: Map<Seq<char>, int>, mem: Map<int, int>) -> Option<int>
    decreases e,
{
    match e {
        SExpr::Literal(SLiteral::Number { inferred_type: _, value }) => if value.value() <= u32::MAX {
            Some(value.value() as int)
        } else {
            None
        },
        SExpr::Variable { name, inferred_type: _ } => if env.contains_key(name) && 0 <= env[name] <= u32::MAX {
            Some(env[name])
        } else {
            None
        },
        SExpr::FunctionCall { name, args, return_types: _, param_types: _ } => if name == "mload"@ {
            if args.len() != 1 {
                None
            } else {
                match yul_value(args[0], env, mem) {
                    Some(a) => if 0 <= mem_at(mem, a) <= u32::MAX {
                        Some(mem_at(mem, a))
                    } else {
                        None
                    },
                    None => None,
                }
            }
        } else if args.len() != 2 {
            None
        } else {
            match (yul_value(args[0], env, mem), yul_value(args[1], env, mem)) {
                (Some(a), Some(b)) => {
                    let v = if name == "add"@ {
                        a + b
                    } else if name == "sub"@ {
                        a - b
                    } else if name == "mul"@ {
                        a * b
                    } else if name == "lt"@ {
                        if a < b { 1 } else { 0 }
                    } else if name == "gt"@ {
                        if a > b { 1 } else { 0 }
                    } else {
                        if a == b { 1 } else { 0 }
                    };
                    if 0 <= v <= u32::MAX {
                        Some(v)
                    } else {
                        None
                    }
                },
                _ => None,
            }
        },
        _ => None,
    }
}

/// The stack elements an expression needs while it is computed.
pub open spec fn expr_height(e: SExpr) -> nat
    decreases e,
{
    match e {
        SExpr::FunctionCall { name: _, args, return_types: _, param_types: _ } => if args.len() == 2 {
            let a = expr_height(args[0]);
            let b = 1 + expr_height(args[1]);
            if a > b {
                a
            } else {
                b
            }
        } else if args.len() == 1 {
            expr_height(args[0])
        } else {
            1
        },
        _ => 1,
    }
}

/// No user function has the name of a covered operation, `mload` or
/// `mstore`.
pub open spec fn no_user_arith(st: TState) -> bool {
    forall|n: Seq<char>|
        is_u32_arith(n) || n == "mload"@ || n == "mstore"@ ==> !#[trigger] st.user_functions.contains_key(n)
}

/// Run-time memory holds, at twice each `u32` address past `offset`, what
/// Yul's memory `mem` holds at that address.
pub open spec fn mem_agrees(mem: Map<int, int>, m: Map<int, int>, offset: int) -> bool {
    forall|a: int| 0 <= a <= u32::MAX ==> mem_at(m, 2 * a + offset) == #[trigger] mem_at(mem, a)
}

/// A text without the character `c`.
pub open spec fn lacks(t: Seq<char>, c: char) -> bool {
    forall|i: int| 0 <= i < t.len() ==> t[i] != c
}

/// A text without line breaks.
pub open spec fn no_newline(t: Seq<char>) -> bool {
    lacks(t, '\n')
}

/// Finding a character in a text that a longer one starts with, followed by
/// that character.
proof fn lemma_find_char_prefix(a: Seq<char>, s: Seq<char>, j: int, c: char)
    requires
        0 <= j <= a.len(),
        a.len() < s.len(),
        s.take(a.len() as int) == a,
        s[a.len() as int] == c,
    ensures
        find_char(s, j, c) == find_char(a, j, c),
    decreases a.len() - j,
{
    assert(s.take(a.len() as int)[j] == s[j] || j == a.len());
    if j < a.len() {
        assert(s[j] == a[j]);
        if a[j] != c {
            lemma_find_char_prefix(a, s, j + 1, c);
        }
    }
}

/// The fields of a text without the separator: the text alone.
proof fn lemma_split_single(t: Seq<char>, c: char)
    requires
        lacks(t, c),
    ensures
        split_on(t, c) == seq![t],
{
    lemma_find_char(t, 0, c);
}

/// Splitting two texts joined by the separator: the fields of the first,
/// then those of the second.
proof fn lemma_split_append(a: Seq<char>, b: Seq<char>, c: char)
    ensures
        split_on(a + seq![c] + b, c) == split_on(a, c) + split_on(b, c),
    decreases a.len(),
{
    let s = a + seq![c] + b;
    assert(s.take(a.len() as int) =~= a);
    assert(s[a.len() as int] == c);
    lemma_find_char_prefix(a, s, 0, c);
    lemma_find_char(a, 0, c);
    let i = find_char(a, 0, c);
    if i >= a.len() {
        assert(s.skip(a.len() as int + 1) =~= b);
        assert(split_on(a, c) == seq![a]);
        assert(split_on(s, c) =~= seq![a] + split_on(b, c));
    } else {
        assert(s.take(i) =~= a.take(i));
        assert(s.skip(i + 1) =~= a.skip(i + 1) + seq![c] + b);
        lemma_split_append(a.skip(i + 1), b, c);
        assert(split_on(s, c) =~= split_on(a, c) + split_on(b, c));
    }
}

/// Adding a line adds it, indented, to the program's lines.
proof fn lemma_add_line_lines(st: TState, text: Seq<char>)
    requires
        !st.failed,
        no_newline(text),
    ensures
        program_lines(add_line(st, text)) == program_lines(st).push(spaces(st.indentation as nat) + text),
{
    let t = spaces(st.indentation as nat) + text;
    assert(no_newline(t));
    lemma_split_single(t, '\n');
    lemma_split_append(st.program, t, '\n');
    assert(st.program + seq!['\n'] + spaces(st.indentation as nat) + text =~= st.program + seq!['\n'] + t);
}

/// An empty line adds an empty line.
proof fn lemma_newline_lines(st: TState)
    requires
        !st.failed,
    ensures
        program_lines(newline(st)) == program_lines(st).push(Seq::<char>::empty()),
{
    lemma_split_single(Seq::<char>::empty(), '\n');
    lemma_split_append(st.program, Seq::<char>::empty(), '\n');
    assert(st.program + seq!['\n'] =~= st.program + seq!['\n'] + Seq::<char>::empty());
}

/// Leading spaces are stripped.
proof fn lemma_strip(k: nat, t: Seq<char>)
    requires
        t.len() == 0 || t[0] != ' ',
    ensures
        strip_spaces(spaces(k) + t) == t,
    decreases k,
{
    if k > 0 {
        assert((spaces(k) + t).drop_first() =~= spaces((k - 1) as nat) + t);
        lemma_strip((k - 1) as nat, t);
    } else {
        assert(spaces(0) + t =~= t);
    }
}

/// Decimal notation reads back as its number.
proof fn lemma_dec_roundtrip(n: nat)
    ensures
        all_dec_digits(nat_to_dec(n)),
        dec_value(nat_to_dec(n)) == n,
        nat_to_dec(n).len() > 0,
        no_newline(nat_to_dec(n)),
        lacks(nat_to_dec(n), ' '),
    decreases n,
{
    let d = dec_digit_char(n % 10);
    assert(is_dec_digit(d) && dec_digit_value(d) == n % 10);
    if n < 10 {
        assert(nat_to_dec(n).drop_last() =~= Seq::<char>::empty());
        assert(nat_to_dec(n).last() == d);
        assert(dec_value(Seq::<char>::empty()) == 0);
    } else {
        lemma_dec_roundtrip(n / 10);
        assert(nat_to_dec(n).drop_last() =~= nat_to_dec(n / 10));
        assert(nat_to_dec(n).last() == d);
        assert(n == (n / 10) * 10 + n % 10);
    }
}

/// Running two runs of lines is running the first, then the second.
proof fn lemma_run_append(a: Seq<Seq<char>>, b: Seq<Seq<char>>, vm: MState)
    ensures
        run_lines(a + b, vm) == match run_lines(a, vm) {
            Some(vm1) => run_lines(b, vm1),
            None => None,
        },
    decreases b.len(),
{
    if b.len() == 0 {
        assert(a + b =~= a);
    } else {
        assert((a + b).drop_last() =~= a + b.drop_last());
        assert((a + b).last() == b.last());
        lemma_run_append(a, b.drop_last(), vm);
    }
}

/// Running one line.
proof fn lemma_run_one(l: Seq<char>, vm: MState)
    ensures
        run_lines(seq![l], vm) == run_line(l, vm),
{
    assert(seq![l].drop_last() =~= Seq::<Seq<char>>::empty());
    assert(run_lines(Seq::<Seq<char>>::empty(), vm) == Some(vm));
    assert(seq![l].last() == l);
}

/// Running two runs of instructions is running the first, then the
/// second.
proof fn lemma_run_words_append(a: Seq<Seq<char>>, b: Seq<Seq<char>>, vm: MState)
    ensures
        run_words(a + b, vm) == match run_words(a, vm) {
            Some(vm1) => run_words(b, vm1),
            None => None,
        },
    decreases b.len(),
{
    if b.len() == 0 {
        assert(a + b =~= a);
    } else {
        assert((a + b).drop_last() =~= a + b.drop_last());
        assert((a + b).last() == b.last());
        lemma_run_words_append(a, b.drop_last(), vm);
    }
}

/// Running one instruction.
proof fn lemma_run_word_one(w: Seq<char>, vm: MState)
    ensures
        run_words(seq![w], vm) == run_word(w, vm),
{
    assert(seq![w].drop_last() =~= Seq::<Seq<char>>::empty());
    assert(run_words(Seq::<Seq<char>>::empty(), vm) == Some(vm));
    assert(seq![w].last() == w);
}

/// An indented line of one instruction runs that instruction.
proof fn lemma_word_line(k: nat, w: Seq<char>, vm: MState)
    requires
        w.len() > 0,
        w[0] != '#' && w[0] != ' ',
        lacks(w, ' '),
    ensures
        run_line(spaces(k) + w, vm) == run_word(w, vm),
{
    lemma_strip(k, w);
    lemma_split_single(w, ' ');
    lemma_run_word_one(w, vm);
}

/// An indented comment does nothing.
proof fn lemma_comment_line(k: nat, c: Seq<char>, vm: MState)
    requires
        c.len() > 0,
        c[0] == '#',
    ensures
        run_lines(seq![spaces(k) + c], vm) == Some(vm),
{
    lemma_strip(k, c);
    lemma_run_one(spaces(k) + c, vm);
}

/// A slot pushed on top adds its width to the stack size.
proof fn lemma_stack_size_push(v: SValue, s: Seq<SValue>)
    ensures
        stack_size(seq![v] + s) == spec_stack_width(v.ty) + stack_size(s),
{
    lemma_stack_size_append(seq![v], s);
    assert(seq![v].drop_last() =~= Seq::<SValue>::empty());
    assert(stack_size(Seq::<SValue>::empty()) == 0);
    assert(seq![v].last() == v);
}

/// The generator's model of the stack and scope agrees with the variables'
/// values `env`: every slot holds a `u32`; a slot that holds a variable
/// holds one in scope under its name, with a value in `env`; and each
/// variable of `env` is a `u32` in scope that some slot holds, named without
/// line breaks, whose value is a `u32`.
pub open spec fn model_ok(stack: Seq<SValue>, scope: Map<Seq<char>, STyped>, env: Map<Seq<char>, int>) -> bool {
    &&& forall|i: int| 0 <= i < stack.len() ==> (#[trigger] stack[i]).ty == YulType::U32
    &&& forall|i: int|
        0 <= i < stack.len() && (#[trigger] stack[i]).id is Some ==> env.contains_key(stack[i].id->0.name)
            && scope.contains_key(stack[i].id->0.name) && scope[stack[i].id->0.name] == stack[i].id->0
    &&& forall|n: Seq<char>|
        #[trigger] env.contains_key(n) ==> scope.contains_key(n) && scope[n] == (STyped {
            name: n,
            yul_type: YulType::U32,
        }) && find_slot(stack, scope[n]) is Some && 0 <= env[n] <= u32::MAX && no_newline(n)
}

/// A run-time stack `s` holds each variable's value in the first slot of
/// the model that holds the variable, the one its reads copy.
pub open spec fn agrees(
    stack: Seq<SValue>,
    scope: Map<Seq<char>, STyped>,
    env: Map<Seq<char>, int>,
    s: Seq<int>,
) -> bool {
    &&& stack.len() <= s.len()
    &&& forall|n: Seq<char>|
        #[trigger] env.contains_key(n) ==> (find_slot(stack, scope[n]) matches Some(i) && s[i as int] == env[n])
}

/// What generating an expression of value `v` does: it adds the lines
/// `ls`, which push `v` on any machine whose stack agrees with the model and
/// whose memory with Yul's `mem`, and one `u32` slot to the modelled stack,
/// and keeps the rest of the state that later lines depend on.
pub open spec fn pushes_value(
    st: TState,
    r: TState,
    ls: Seq<Seq<char>>,
    v: int,
    env: Map<Seq<char>, int>,
    mem: Map<int, int>,
) -> bool {
    &&& !r.failed
    &&& r.stack == seq![unknown(YulType::U32)] + st.stack
    &&& r.indentation == st.indentation
    &&& r.user_functions == st.user_functions
    &&& r.scoped_identifiers == st.scoped_identifiers
    &&& r.accept_overflow == st.accept_overflow
    &&& r.memory_offset == st.memory_offset
    &&& r.branches == st.branches
    &&& program_lines(r) == program_lines(st) + ls
    &&& forall|vm: MState|
        agrees(st.stack, st.scoped_identifiers, env, vm.stack) && mem_agrees(mem, vm.memory, st.memory_offset as int) ==> run_lines(
            ls,
            vm,
        ) == Some(with_stack(vm, seq![v] + vm.stack))
}

/// The first slot holding `t`, when there is one, holds `t`.
proof fn lemma_find_slot_found(s: Seq<SValue>, t: STyped)
    ensures
        find_slot(s, t) matches Some(i) ==> i < s.len() && s[i as int].id == Some(t),
    decreases s.len(),
{
    if s.len() > 0 && s[0].id != Some(t) {
        lemma_find_slot_found(s.skip(1), t);
    }
}

/// Finding a slot below a pushed one.
proof fn lemma_find_slot_push(v: SValue, s: Seq<SValue>, t: STyped)
    ensures
        find_slot(seq![v] + s, t) == if v.id == Some(t) {
            Some(0nat)
        } else {
            match find_slot(s, t) {
                Some(i) => Some(i + 1),
                None => None,
            }
        },
{
    assert((seq![v] + s).skip(1) =~= s);
    assert((seq![v] + s)[0] == v);
}

/// Slots of `u32`s take one element each.
proof fn lemma_stack_size_u32(s: Seq<SValue>)
    requires
        forall|i: int| 0 <= i < s.len() ==> (#[trigger] s[i]).ty == YulType::U32,
    ensures
        stack_size(s) == s.len(),
    decreases s.len(),
{
    if s.len() > 0 {
        assert(s.last() == s[s.len() - 1]);
        assert forall|i: int| 0 <= i < s.drop_last().len() implies (#[trigger] s.drop_last()[i]).ty
            == YulType::U32 by {
            assert(s.drop_last()[i] == s[i]);
        }
        lemma_stack_size_u32(s.drop_last());
    }
}

/// The model stays in agreement when an unknown `u32` is pushed.
proof fn lemma_model_push_unknown(stack: Seq<SValue>, scope: Map<Seq<char>, STyped>, env: Map<Seq<char>, int>)
    requires
        model_ok(stack, scope, env),
    ensures
        model_ok(seq![unknown(YulType::U32)] + stack, scope, env),
{
    let ns = seq![unknown(YulType::U32)] + stack;
    assert forall|i: int| 0 <= i < ns.len() implies (#[trigger] ns[i]).ty == YulType::U32 by {
        if i > 0 {
            assert(ns[i] == stack[i - 1]);
        }
    }
    assert forall|i: int| 0 <= i < ns.len() && (#[trigger] ns[i]).id is Some implies env.contains_key(
        ns[i].id->0.name,
    ) && scope.contains_key(ns[i].id->0.name) && scope[ns[i].id->0.name] == ns[i].id->0 by {
        assert(i > 0);
        assert(ns[i] == stack[i - 1]);
    }
    assert forall|n: Seq<char>| #[trigger] env.contains_key(n) implies find_slot(ns, scope[n]) is Some by {
        lemma_find_slot_push(unknown(YulType::U32), stack, scope[n]);
    }
}

/// A stack that agrees stays in agreement with a value pushed for an
/// unknown slot.
proof fn lemma_agrees_push_unknown(
    stack: Seq<SValue>,
    scope: Map<Seq<char>, STyped>,
    env: Map<Seq<char>, int>,
    s: Seq<int>,
    v: int,
)
    requires
        agrees(stack, scope, env, s),
    ensures
        agrees(seq![unknown(YulType::U32)] + stack, scope, env, seq![v] + s),
{
    assert forall|n: Seq<char>| #[trigger] env.contains_key(n) implies (find_slot(
        seq![unknown(YulType::U32)] + stack,
        scope[n],
    ) matches Some(i) && (seq![v] + s)[i as int] == env[n]) by {
        lemma_find_slot_push(unknown(YulType::U32), stack, scope[n]);
        lemma_find_slot_found(stack, scope[n]);
    }
}

/// The lines of a `u32` literal push its number.
proof fn lemma_u32_literal(st: TState, value: U256, env: Map<Seq<char>, int>, mem: Map<int, int>) -> (ls: Seq<
    Seq<char>,
>)
    requires
        !st.failed,
        st.accept_overflow || stack_size(st.stack) + 1 <= 16,
        value.value() <= u32::MAX,
    ensures
        pushes_value(st, push_u32(st, value), ls, value.value() as int, env, mem),
{
    reveal(push_u32);
    reveal(prepare_for);
    let n = value.value();
    let st1 = prepare_for(st, YulType::U32);
    assert(st1 == st);
    let st2 = add_unknown(st1, YulType::U32);
    let d = nat_to_dec(n);
    lemma_dec_roundtrip(n);
    reveal_strlit("u32 literal ");
    reveal_strlit("# ");
    reveal_strlit(" #");
    reveal_strlit("push.");
    let c = "# "@ + ("u32 literal "@ + d) + " #"@;
    assert(no_newline(c));
    lemma_add_line_lines(st2, c);
    let st3 = add_comment(st2, "u32 literal "@ + d);
    let p = "push."@ + d;
    assert(no_newline(p));
    assert(lacks(p, ' '));
    lemma_add_line_lines(st3, p);
    let st4 = add_line(st3, p);
    lemma_newline_lines(st4);
    let sp = spaces(st.indentation as nat);
    let ls = seq![sp + c] + seq![sp + p] + seq![Seq::<char>::empty()];
    assert(program_lines(push_u32(st, value)) =~= program_lines(st) + ls);
    lemma_strip(st.indentation as nat, c);
    lemma_strip(st.indentation as nat, p);
    assert(c[0] == '#');
    assert(p.take(5) =~= "push."@);
    assert(p.skip(5) =~= d);
    lemma_small_mod(n, field_prime() as nat);
    assert forall|vm: MState|
        agrees(st.stack, st.scoped_identifiers, env, vm.stack) && mem_agrees(mem, vm.memory, st.memory_offset as int) implies run_lines(
        ls,
        vm,
    ) == Some(
        with_stack(vm, seq![n as int] + vm.stack),
    ) by {
        lemma_run_append(seq![sp + c] + seq![sp + p], seq![Seq::<char>::empty()], vm);
        lemma_run_append(seq![sp + c], seq![sp + p], vm);
        lemma_comment_line(st.indentation as nat, c, vm);
        lemma_run_one(sp + p, vm);
        lemma_word_line(st.indentation as nat, p, vm);
        lemma_run_one(Seq::<char>::empty(), with_stack(vm, seq![n as int] + vm.stack));
    }
    lemma_stack_size_push(unknown(YulType::U32), st.stack);
    ls
}

/// The lines bringing a copy of variable `t` to the top copy the element of
/// its first slot.
proof fn lemma_dup_to_top(st: TState, t: STyped) -> (ls: Seq<Seq<char>>)
    requires
        !st.failed,
        t.yul_type == YulType::U32,
        no_newline(t.name),
        find_slot(st.stack, t) is Some,
        forall|i: int| 0 <= i < st.stack.len() ==> (#[trigger] st.stack[i]).ty == YulType::U32,
        stack_size(st.stack) + 1 <= 16,
        st.indentation + 4 <= u32::MAX,
    ensures
        ({
            let r = move_identifier_to_top(st, t, true);
            &&& !r.failed
            &&& r.stack == seq![unknown(YulType::U32)] + st.stack
            &&& r.indentation == st.indentation
            &&& r.user_functions == st.user_functions
            &&& r.scoped_identifiers == st.scoped_identifiers
            &&& r.accept_overflow == st.accept_overflow
            &&& r.memory_offset == st.memory_offset
            &&& r.branches == st.branches
            &&& program_lines(r) == program_lines(st) + ls
            &&& forall|vm: MState|
                st.stack.len() <= vm.stack.len() ==> run_lines(ls, vm) == Some(
                    with_stack(vm, seq![vm.stack[find_slot(st.stack, t)->0 as int]] + vm.stack),
                )
        }),
{
    reveal(move_identifier_to_top);
    reveal(prepare_for);
    let st1 = prepare_for(st, t.yul_type);
    assert(st1 == st);
    lemma_find_slot_found(st.stack, t);
    let i = find_slot(st.stack, t)->0;
    lemma_stack_size_u32(st.stack);
    assert forall|k: int| 0 <= k < st.stack.take(i as int).len() implies (#[trigger] st.stack.take(
        i as int,
    )[k]).ty == YulType::U32 by {
        assert(st.stack.take(i as int)[k] == st.stack[k]);
    }
    lemma_stack_size_u32(st.stack.take(i as int));
    let offset = stack_size(st.stack.take(i as int));
    assert(offset == i);
    reveal_strlit("pushing ");
    reveal_strlit(" to the top");
    reveal_strlit("# ");
    reveal_strlit(" #");
    reveal_strlit("dup.");
    let c = "# "@ + ("pushing "@ + t.name + " to the top"@) + " #"@;
    assert(no_newline(c));
    lemma_add_line_lines(st, c);
    let st2 = indent(add_comment(st1, "pushing "@ + t.name + " to the top"@));
    let st2u = add_unknown(st2, YulType::U32);
    let d = nat_to_dec(i);
    lemma_dec_roundtrip(i);
    let p = "dup."@ + d;
    assert(no_newline(p));
    lemma_add_line_lines(st2u, p);
    let st3 = dup_from_offset(st2u, offset as u32, st.stack[i as int].ty);
    assert(st3 == add_line(st2u, p));
    let r = outdent(st3);
    assert(r == move_identifier_to_top(st, t, true));
    let sp = spaces(st.indentation as nat);
    let sp4 = spaces((st.indentation + 4) as nat);
    let ls = seq![sp + c] + seq![sp4 + p];
    assert(program_lines(r) =~= program_lines(st) + ls);
    lemma_strip(st.indentation as nat, c);
    lemma_strip((st.indentation + 4) as nat, p);
    assert(c[0] == '#');
    assert(p.take(4) =~= "dup."@);
    assert(p.skip(4) =~= d);
    reveal_strlit("push.");
    assert(p.take(5)[0] == 'd');
    assert("push."@[0] == 'p');
    assert(lacks(p, ' '));
    assert forall|vm: MState| st.stack.len() <= vm.stack.len() implies run_lines(ls, vm) == Some(
        with_stack(vm, seq![vm.stack[i as int]] + vm.stack),
    ) by {
        lemma_run_append(seq![sp + c], seq![sp4 + p], vm);
        lemma_comment_line(st.indentation as nat, c, vm);
        lemma_run_one(sp4 + p, vm);
        lemma_word_line((st.indentation + 4) as nat, p, vm);
    }
    ls
}

/// The lines reading a variable copy its value to the top.
proof fn lemma_u32_variable(
    st: TState,
    name: Seq<char>,
    it: Option<YulType>,
    env: Map<Seq<char>, int>,
    mem: Map<int, int>,
) -> (ls: Seq<Seq<char>>)
    requires
        !st.failed,
        model_ok(st.stack, st.scoped_identifiers, env),
        env.contains_key(name),
        stack_size(st.stack) + 1 <= 16,
        st.indentation + 4 <= u32::MAX,
    ensures
        pushes_value(st, t_op(st, SExpr::Variable { name, inferred_type: it }), ls, env[name], env, mem),
{
    let t = st.scoped_identifiers[name];
    assert(t_op(st, SExpr::Variable { name, inferred_type: it }) == move_identifier_to_top(st, t, true));
    let ls = lemma_dup_to_top(st, t);
    lemma_find_slot_found(st.stack, t);
    let i = find_slot(st.stack, t)->0;
    assert forall|vm: MState|
        agrees(st.stack, st.scoped_identifiers, env, vm.stack) && mem_agrees(mem, vm.memory, st.memory_offset as int) implies run_lines(
        ls,
        vm,
    ) == Some(with_stack(vm, seq![env[name]] + vm.stack)) by {
        assert(vm.stack[i as int] == env[name]);
    }
    ls
}

/// The covered operations' names are none of the other operations', and
/// are single words.
proof fn lemma_arith_name(name: Seq<char>)
    requires
        is_u32_arith(name),
    ensures
        name != "xor"@,
        name != "shl"@,
        name != "shr"@,
        name != "mstore"@,
        name != "mload"@,
        name != "iszero"@,
        name != "pop.mem"@,
        name != "push.mem"@,
        no_newline(name),
        lacks(name, ' '),
        0 < name.len() <= 3,
        name[0] != '#' && name[0] != ' ',
{
    reveal_strlit("add");
    reveal_strlit("sub");
    reveal_strlit("mul");
    reveal_strlit("lt");
    reveal_strlit("gt");
    reveal_strlit("eq");
    reveal_strlit("mstore");
    reveal_strlit("mload");
    reveal_strlit("iszero");
    reveal_strlit("xor");
    reveal_strlit("shl");
    reveal_strlit("shr");
    assert("xor"@[0] == 'x');
    assert("shl"@[1] == 'h');
    assert("shr"@[1] == 'h');
    assert("mstore"@.len() == 6);
    assert("mload"@.len() == 5);
    assert("iszero"@.len() == 6);
    reveal_strlit("pop.mem");
    reveal_strlit("push.mem");
    assert("pop.mem"@.len() == 7);
    assert("push.mem"@.len() == 8);
    assert(name[0] == 'a' || name[0] == 's' || name[0] == 'm' || name[0] == 'l' || name[0] == 'g' || name[0] == 'e');
    assert(name[0] == 's' ==> name[1] == 'u');
}

/// The line that turns a `u32` address on top into its place in memory,
/// twice the address past `offset`.
proof fn lemma_address_line(k: nat, offset: nat, vm: MState)
    requires
        vm.stack.len() >= 1,
        0 <= vm.stack[0] <= u32::MAX,
        offset + 2 * u32::MAX < field_prime(),
    ensures
        no_newline("mul.2 push."@ + nat_to_dec(offset) + " add"@),
        run_line(spaces(k) + ("mul.2 push."@ + nat_to_dec(offset) + " add"@), vm) == Some(
            with_stack(vm, seq![2 * vm.stack[0] + offset] + vm.stack.skip(1)),
        ),
{
    reveal_strlit("mul.2 push.");
    reveal_strlit(" add");
    reveal_strlit("mul.2");
    reveal_strlit("mul.");
    reveal_strlit("2");
    reveal_strlit("push.");
    reveal_strlit("dup.");
    reveal_strlit("add");
    reveal_strlit("pop.mem");
    reveal_strlit("push.mem");
    let d = nat_to_dec(offset);
    lemma_dec_roundtrip(offset);
    let l = "mul.2 push."@ + d + " add"@;
    let w1 = "mul.2"@;
    let w2 = "push."@ + d;
    let w3 = "add"@;
    assert(l =~= w1 + seq![' '] + (w2 + seq![' '] + w3));
    assert(no_newline(l));
    lemma_split_append(w1, w2 + seq![' '] + w3, ' ');
    lemma_split_append(w2, w3, ' ');
    lemma_split_single(w1, ' ');
    assert(lacks(w2, ' '));
    lemma_split_single(w2, ' ');
    lemma_split_single(w3, ' ');
    assert(split_on(l, ' ') =~= seq![w1] + seq![w2] + seq![w3]);
    lemma_strip(k, l);
    let a = vm.stack[0];
    let p = field_prime();
    lemma_run_words_append(seq![w1] + seq![w2], seq![w3], vm);
    lemma_run_words_append(seq![w1], seq![w2], vm);
    lemma_run_word_one(w1, vm);
    assert(w1.take(4) =~= "mul."@);
    assert(w1.skip(4) =~= "2"@);
    assert("2"@.drop_last() =~= Seq::<char>::empty());
    assert("2"@.last() == '2');
    assert(dec_value(Seq::<char>::empty()) == 0);
    assert(dec_digit_value('2') == 2);
    assert(dec_value("2"@) == 2);
    assert(w1.take(4)[0] == 'm' && "dup."@[0] == 'd');
    lemma_small_mod((a * 2) as nat, p as nat);
    let vm1 = with_stack(vm, seq![a * 2] + vm.stack.skip(1));
    assert(run_word(w1, vm) == Some(vm1));
    lemma_run_word_one(w2, vm1);
    assert(w2.take(5) =~= "push."@);
    assert(w2.skip(5) =~= d);
    lemma_small_mod(offset, p as nat);
    let vm2 = with_stack(vm1, seq![offset as int] + vm1.stack);
    assert(run_word(w2, vm1) == Some(vm2));
    lemma_run_word_one(w3, vm2);
    lemma_small_mod((a * 2 + offset) as nat, p as nat);
    assert(vm2.stack.skip(2) =~= vm.stack.skip(1));
    assert(run_word(w3, vm2) == Some(with_stack(vm, seq![2 * a + offset] + vm.stack.skip(1))));
}

/// Generating `mload(a)`: a comment, the address, then the lines that
/// load from its place in memory.
proof fn lemma_mload_unfold(st: TState, e: SExpr)
    requires
        !st.failed,
        u32_expr(e),
        e is FunctionCall,
        e->FunctionCall_name == "mload"@,
        no_user_arith(st),
    ensures
        t_op(st, e) == add_unknown(
            consume(
                add_line(
                    add_line(
                        t_op(add_comment(st, "mload"@ + "()"@), e->FunctionCall_args[0]),
                        "mul.2 push."@ + nat_to_dec(st.memory_offset as nat) + " add"@,
                    ),
                    "push.mem"@,
                ),
                1,
            ),
            YulType::U32,
        ),
{
    reveal_strlit("mload");
    reveal_strlit("mstore");
    let name = e->FunctionCall_name;
    let args = e->FunctionCall_args;
    let rt = e->FunctionCall_return_types;
    let pt = e->FunctionCall_param_types;
    let st0 = add_comment(st, name + "()"@);
    assert(!st0.user_functions.contains_key(name));
    assert("mload"@ != "mstore"@);
    assert(t_op(st, e) == t_call(st, name, args, rt, pt));
    assert(t_call(st, name, args, rt, pt) == t_mload(st0, args, rt));
}

/// Generating `mstore(a, v)`: a comment, the value, the address, then the
/// lines that store the value at the address's place in memory.
proof fn lemma_mstore_unfold(st: TState, d: SExpr)
    requires
        !st.failed,
        u32_statement(d),
        d is FunctionCall,
        no_user_arith(st),
    ensures
        t_op(st, d) == consume(
            add_line(
                add_line(
                    t_op(t_op(add_comment(st, "mstore"@ + "()"@), d->FunctionCall_args[1]), d->FunctionCall_args[0]),
                    "mul.2 push."@ + nat_to_dec(st.memory_offset as nat) + " add"@,
                ),
                "pop.mem"@,
            ),
            2,
        ),
{
    reveal_strlit("mstore");
    reveal_strlit("add");
    reveal_strlit("sub");
    reveal_strlit("mul");
    reveal_strlit("and");
    reveal_strlit("or");
    reveal_strlit("xor");
    let name = d->FunctionCall_name;
    let args = d->FunctionCall_args;
    let rt = d->FunctionCall_return_types;
    let pt = d->FunctionCall_param_types;
    let st0 = add_comment(st, name + "()"@);
    assert(!st0.user_functions.contains_key(name));
    assert(!is_u256_binop(name)) by {
        assert(name.len() == 6);
    }
    assert(t_op(st, d) == t_call(st, name, args, rt, pt));
    assert(t_call(st, name, args, rt, pt) == t_mstore(st0, args));
}

/// The lines of a covered `u32` expression push its value.
#[verifier::rlimit(50)]
proof fn lemma_u32_expr(st: TState, e: SExpr, env: Map<Seq<char>, int>, mem: Map<int, int>) -> (ls: Seq<Seq<char>>)
    requires
        !st.failed,
        u32_expr(e),
        yul_value(e, env, mem) is Some,
        no_user_arith(st),
        model_ok(st.stack, st.scoped_identifiers, env),
        stack_size(st.stack) + expr_height(e) <= 16,
        st.indentation + 4 <= u32::MAX,
        st.memory_offset + 2 * u32::MAX < field_prime(),
    ensures
        pushes_value(st, t_op(st, e), ls, yul_value(e, env, mem)->0, env, mem),
    decreases e,
{
    match e {
        SExpr::Literal(SLiteral::Number { inferred_type, value }) => {
            lemma_u32_literal(st, value, env, mem)
        },
        SExpr::Variable { name, inferred_type } => {
            lemma_u32_variable(st, name, inferred_type, env, mem)
        },
        SExpr::FunctionCall { name, args, return_types, param_types } => {
            reveal_strlit("add");
            reveal_strlit("sub");
            reveal_strlit("mul");
            reveal_strlit("lt");
            reveal_strlit("gt");
            reveal_strlit("eq");
            reveal_strlit("()");
            reveal_strlit("# ");
            reveal_strlit(" #");
            reveal_strlit("mload");
            reveal_strlit("mstore");
            let c = "# "@ + (name + "()"@) + " #"@;
            let sp = spaces(st.indentation as nat);
            if name == "mload"@ {
                let a = args[0];
                assert(no_newline(c));
                lemma_add_line_lines(st, c);
                let st0 = add_comment(st, name + "()"@);
                lemma_mload_unfold(st, e);
                let la = lemma_u32_expr(st0, a, env, mem);
                let sa = t_op(st0, a);
                let off = nat_to_dec(st.memory_offset as nat);
                let l1 = "mul.2 push."@ + off + " add"@;
                reveal_strlit("push.mem");
                assert(no_newline("push.mem"@));
                lemma_address_line(st.indentation as nat, st.memory_offset as nat, MState {
                    stack: seq![0],
                    memory: Map::empty(),
                });
                lemma_add_line_lines(sa, l1);
                lemma_add_line_lines(add_line(sa, l1), "push.mem"@);
                let r = add_unknown(consume(add_line(add_line(sa, l1), "push.mem"@), 1), YulType::U32);
                assert(r.stack =~= seq![unknown(YulType::U32)] + st.stack);
                let ls = seq![sp + c] + la + seq![sp + l1] + seq![sp + "push.mem"@];
                assert(program_lines(r) =~= program_lines(st) + ls);
                assert(c[0] == '#');
                let va = yul_value(a, env, mem)->0;
                let v = yul_value(e, env, mem)->0;
                assert forall|vm: MState|
                    agrees(st.stack, st.scoped_identifiers, env, vm.stack) && mem_agrees(mem, vm.memory, st.memory_offset as int) implies run_lines(
                    ls,
                    vm,
                ) == Some(with_stack(vm, seq![v] + vm.stack)) by {
                    lemma_run_append(seq![sp + c] + la + seq![sp + l1], seq![sp + "push.mem"@], vm);
                    lemma_run_append(seq![sp + c] + la, seq![sp + l1], vm);
                    lemma_run_append(seq![sp + c], la, vm);
                    lemma_comment_line(st.indentation as nat, c, vm);
                    let vma = with_stack(vm, seq![va] + vm.stack);
                    assert(run_lines(la, vm) == Some(vma));
                    lemma_run_one(sp + l1, vma);
                    lemma_address_line(st.indentation as nat, st.memory_offset as nat, vma);
                    assert(vma.stack.skip(1) =~= vm.stack);
                    let vmb = with_stack(vm, seq![2 * va + st.memory_offset] + vm.stack);
                    assert(run_line(sp + l1, vma) == Some(vmb));
                    lemma_run_one(sp + "push.mem"@, vmb);
                    assert(lacks("push.mem"@, ' '));
                    lemma_word_line(st.indentation as nat, "push.mem"@, vmb);
                    reveal_strlit("push.");
                    reveal_strlit("dup.");
                    reveal_strlit("mul.");
                    reveal_strlit("pop.mem");
                    assert("push.mem"@.skip(5)[0] == 'm');
                    assert(!all_dec_digits("push.mem"@.skip(5)));
                    assert("push.mem"@.take(4) != "dup."@ && "push.mem"@.take(4) != "mul."@) by {
                        assert("push.mem"@.take(4)[0] == 'p');
                    }
                    assert("push.mem"@ != "pop.mem"@);
                    assert(vmb.stack.skip(1) =~= vm.stack);
                    assert(mem_at(vm.memory, 2 * va + st.memory_offset) == mem_at(mem, va));
                }
                ls
            } else {
                let a = args[0];
                let b = args[1];
                lemma_arith_name(name);
                assert(no_newline(c));
                lemma_add_line_lines(st, c);
                let st0 = add_comment(st, name + "()"@);
                assert(!st0.user_functions.contains_key(name));
                assert(u32_instruction(name) == name);
                assert(args.drop_last() =~= seq![a]);
                assert(seq![a].drop_last() =~= Seq::<SExpr>::empty());
                assert(t_block(st0, Seq::<SExpr>::empty()) == st0);
                assert(t_block(st0, seq![a]) == t_op(st0, a));
                assert(t_block(st0, args) == t_op(t_op(st0, a), b));
                let la = lemma_u32_expr(st0, a, env, mem);
                let sa = t_op(st0, a);
                lemma_stack_size_push(unknown(YulType::U32), st.stack);
                lemma_model_push_unknown(st.stack, st.scoped_identifiers, env);
                let lb = lemma_u32_expr(sa, b, env, mem);
                let sb = t_op(sa, b);
                let va = yul_value(a, env, mem)->0;
                let vb = yul_value(b, env, mem)->0;
                let sc = add_unknown(consume(sb, 2), YulType::U32);
                assert(sb.stack.skip(2) =~= st.stack);
                lemma_add_line_lines(sc, name);
                let r = t_u32_op(st0, name, args);
                assert(t_op(st, e) == r);
                let ls = seq![sp + c] + la + lb + seq![sp + name];
                assert(program_lines(r) =~= program_lines(st) + ls);
                assert(c[0] == '#');
                let v = yul_value(e, env, mem)->0;
                assert(0 <= v <= u32::MAX);
                assert forall|vm: MState|
                    agrees(st.stack, st.scoped_identifiers, env, vm.stack) && mem_agrees(mem, vm.memory, st.memory_offset as int) implies run_lines(
                    ls,
                    vm,
                ) == Some(with_stack(vm, seq![v] + vm.stack)) by {
                    lemma_run_append(seq![sp + c] + la + lb, seq![sp + name], vm);
                    lemma_run_append(seq![sp + c] + la, lb, vm);
                    lemma_run_append(seq![sp + c], la, vm);
                    lemma_comment_line(st.indentation as nat, c, vm);
                    lemma_agrees_push_unknown(st.stack, st.scoped_identifiers, env, vm.stack, va);
                    let vma = with_stack(vm, seq![va] + vm.stack);
                    assert(run_lines(la, vm) == Some(vma));
                    let vmb = with_stack(vma, seq![vb] + vma.stack);
                    assert(run_lines(lb, vma) == Some(vmb));
                    lemma_run_one(sp + name, vmb);
                    lemma_word_line(st.indentation as nat, name, vmb);
                    assert(vmb.stack =~= seq![vb, va] + vm.stack);
                    assert(vmb.stack.skip(2) =~= vm.stack);
                    if name == "mul"@ {
                        assert(0 <= va * vb) by (nonlinear_arith)
                            requires
                                0 <= va,
                                0 <= vb,
                        ;
                        lemma_small_mod((va * vb) as nat, field_prime() as nat);
                    } else if name == "add"@ {
                        lemma_small_mod((va + vb) as nat, field_prime() as nat);
                    } else if name == "sub"@ {
                        lemma_small_mod((va - vb) as nat, field_prime() as nat);
                    }
                }
                ls
            }
        },
        _ => { Seq::empty() },
    }
}

/// A `u32` statement: a declaration `let x := e` of one new `u32` variable,
/// whose value is a covered `u32` expression, an assignment `x := e` to one
/// variable of such a value, or `mstore(a, v)` of covered `u32`
/// expressions, the value typed `u32`.
pub open spec fn u32_statement(d: SExpr) -> bool {
    match d {
        SExpr::DeclareVariable { vars, rhs } => vars.len() == 1 && vars[0].yul_type == YulType::U32 && no_newline(
            vars[0].name,
        ) && (rhs matches Some(r) && u32_expr(*r)),
        SExpr::Assignment { names, types: _, rhs } => names.len() == 1 && u32_expr(*rhs),
        SExpr::FunctionCall { name, args, return_types: _, param_types } => name == "mstore"@ && args.len() == 2
            && param_types.len() > 0 && param_types[0] == Some(YulType::U32) && expr_type(args[1]) == Some(
            YulType::U32,
        ) && u32_expr(args[0]) && u32_expr(args[1]),
        _ => false,
    }
}

/// What a Yul program's statements act on: the variables' values and
/// memory.
pub struct YState {
    pub vars: Map<Seq<char>, int>,
    pub mem: Map<int, int>,
}

/// One statement as Yul runs it: a declaration gives a variable not
/// declared before the value of its expression, an assignment gives it to
/// a declared variable, and `mstore(a, v)` stores `v` at address `a`. The
/// values must stay `u32`s.
pub open spec fn yul_step(d: SExpr, y: YState) -> Option<YState> {
    match d {
        SExpr::DeclareVariable { vars, rhs: Some(r) } => if vars.len() == 1 && !y.vars.contains_key(vars[0].name) {
            match yul_value(*r, y.vars, y.mem) {
                Some(v) => Some(YState { vars: y.vars.insert(vars[0].name, v), mem: y.mem }),
                None => None,
            }
        } else {
            None
        },
        SExpr::Assignment { names, types: _, rhs } => if names.len() == 1 && y.vars.contains_key(names[0]) {
            match yul_value(*rhs, y.vars, y.mem) {
                Some(v) => Some(YState { vars: y.vars.insert(names[0], v), mem: y.mem }),
                None => None,
            }
        } else {
            None
        },
        SExpr::FunctionCall { name, args, return_types: _, param_types: _ } => if name == "mstore"@ && args.len()
            == 2 {
            match (yul_value(args[0], y.vars, y.mem), yul_value(args[1], y.vars, y.mem)) {
                (Some(a), Some(v)) => Some(YState { vars: y.vars, mem: y.mem.insert(a, v) }),
                _ => None,
            }
        } else {
            None
        },
        _ => None,
    }
}

/// Straight-line statements as Yul runs them, in order.
pub open spec fn yul_run(ds: Seq<SExpr>, y: YState) -> Option<YState>
    decreases ds.len(),
{
    if ds.len() == 0 {
        Some(y)
    } else {
        match yul_run(ds.drop_last(), y) {
            Some(y1) => yul_step(ds.last(), y1),
            None => None,
        }
    }
}

/// The slots the statements add to the stack: one per declaration or
/// assignment (the assigned variable's earlier slot stays below).
pub open spec fn growth(ds: Seq<SExpr>) -> nat
    decreases ds.len(),
{
    if ds.len() == 0 {
        0
    } else {
        growth(ds.drop_last()) + match ds.last() {
            SExpr::DeclareVariable { .. } => 1nat,
            SExpr::Assignment { .. } => 1nat,
            _ => 0nat,
        }
    }
}

/// The stack elements a statement needs while it runs: those of the
/// declared or assigned value, or of `mstore`'s value and then its address
/// above it.
pub open spec fn stmt_height(d: SExpr) -> nat {
    match d {
        SExpr::DeclareVariable { vars: _, rhs: Some(r) } => expr_height(*r),
        SExpr::Assignment { names: _, types: _, rhs } => expr_height(*rhs),
        SExpr::FunctionCall { name: _, args, return_types: _, param_types: _ } => if args.len() == 2 {
            let v = expr_height(args[1]);
            let a = 1 + expr_height(args[0]);
            if v > a {
                v
            } else {
                a
            }
        } else {
            0
        },
        _ => 0,
    }
}

/// Each statement's values fit in the 16 reachable stack elements, above
/// `base` slots and the variables declared before it.
pub open spec fn stmts_fit(ds: Seq<SExpr>, base: nat) -> bool
    decreases ds.len(),
{
    ds.len() == 0 || (stmts_fit(ds.drop_last(), base) && base + growth(ds.drop_last()) + stmt_height(ds.last())
        <= 16)
}

/// The model agrees with the values once a new variable is bound in scope.
proof fn lemma_model_bind(stack: Seq<SValue>, scope: Map<Seq<char>, STyped>, env: Map<Seq<char>, int>, x: STyped)
    requires
        model_ok(stack, scope, env),
        !env.contains_key(x.name),
    ensures
        model_ok(stack, scope.insert(x.name, x), env),
{
    let sc = scope.insert(x.name, x);
    assert forall|i: int| 0 <= i < stack.len() && (#[trigger] stack[i]).id is Some implies env.contains_key(
        stack[i].id->0.name,
    ) && sc.contains_key(stack[i].id->0.name) && sc[stack[i].id->0.name] == stack[i].id->0 by {
        assert(stack[i].id->0.name != x.name);
    }
    assert forall|n: Seq<char>| #[trigger] env.contains_key(n) implies sc.contains_key(n) && sc[n] == (STyped {
        name: n,
        yul_type: YulType::U32,
    }) && find_slot(stack, sc[n]) is Some by {
        assert(n != x.name);
    }
}

/// The lines of a declaration `let x := e` push the value of `e`, which
/// the model then holds as `x`.
proof fn lemma_u32_declaration(st: TState, d: SExpr, env: Map<Seq<char>, int>, mem: Map<int, int>) -> (ls: Seq<
    Seq<char>,
>)
    requires
        !st.failed,
        u32_statement(d),
        d is DeclareVariable,
        d->DeclareVariable_rhs matches Some(r) && yul_value(*r, env, mem) is Some && stack_size(st.stack)
            + expr_height(*r) <= 16,
        !env.contains_key(d->DeclareVariable_vars[0].name),
        no_user_arith(st),
        model_ok(st.stack, st.scoped_identifiers, env),
        st.indentation + 8 <= u32::MAX,
        st.memory_offset + 2 * u32::MAX < field_prime(),
    ensures
        ({
            let x = d->DeclareVariable_vars[0];
            let v = yul_value(*d->DeclareVariable_rhs->0, env, mem)->0;
            let r = t_op(st, d);
            &&& !r.failed
            &&& r.stack == seq![SValue { id: Some(x), ty: YulType::U32 }] + st.stack
            &&& r.indentation == st.indentation
            &&& r.user_functions == st.user_functions
            &&& r.memory_offset == st.memory_offset
            &&& r.branches == st.branches
            &&& r.scoped_identifiers == st.scoped_identifiers.insert(x.name, x)
            &&& program_lines(r) == program_lines(st) + ls
            &&& forall|vm: MState|
                agrees(st.stack, st.scoped_identifiers, env, vm.stack) && mem_agrees(mem, vm.memory, st.memory_offset as int) ==> run_lines(
                    ls,
                    vm,
                ) == Some(with_stack(vm, seq![v] + vm.stack))
        }),
{
    let x = d->DeclareVariable_vars[0];
    let e = *d->DeclareVariable_rhs->0;
    let v = yul_value(e, env, mem)->0;
    reveal_strlit("Assigning to ");
    reveal_strlit("# ");
    reveal_strlit(" #");
    let c = "# "@ + ("Assigning to "@ + x.name) + " #"@;
    assert(no_newline(c));
    let sb = bind(st, x);
    lemma_add_line_lines(sb, c);
    let st1 = indent(add_comment(sb, "Assigning to "@ + x.name));
    lemma_model_bind(st.stack, st.scoped_identifiers, env, x);
    let le = lemma_u32_expr(st1, e, env, mem);
    let r1 = t_op(st1, e);
    let r2 = top_is_var(r1, x);
    assert(r2.stack =~= seq![SValue { id: Some(x), ty: YulType::U32 }] + st.stack);
    let r = outdent(r2);
    assert(t_op(st, d) == r);
    let sp = spaces(st.indentation as nat);
    let ls = seq![sp + c] + le;
    assert(program_lines(r) =~= program_lines(st) + ls);
    assert(c[0] == '#');
    assert forall|vm: MState|
        agrees(st.stack, st.scoped_identifiers, env, vm.stack) && mem_agrees(mem, vm.memory, st.memory_offset as int) implies run_lines(
        ls,
        vm,
    ) == Some(with_stack(vm, seq![v] + vm.stack)) by {
        lemma_run_append(seq![sp + c], le, vm);
        lemma_comment_line(st.indentation as nat, c, vm);
        lemma_agrees_bind(st.stack, st.scoped_identifiers, env, vm.stack, x);
    }
    ls
}

/// The lines of `mstore(a, v)` store the value of `v` where Yul's memory
/// keeps address `a`, and leave the stack as it was.
proof fn lemma_u32_mstore(st: TState, d: SExpr, env: Map<Seq<char>, int>, mem: Map<int, int>) -> (ls: Seq<
    Seq<char>,
>)
    requires
        !st.failed,
        u32_statement(d),
        d is FunctionCall,
        yul_value(d->FunctionCall_args[0], env, mem) is Some,
        yul_value(d->FunctionCall_args[1], env, mem) is Some,
        stack_size(st.stack) + stmt_height(d) <= 16,
        no_user_arith(st),
        model_ok(st.stack, st.scoped_identifiers, env),
        st.indentation + 4 <= u32::MAX,
        st.memory_offset + 2 * u32::MAX < field_prime(),
    ensures
        ({
            let a = yul_value(d->FunctionCall_args[0], env, mem)->0;
            let v = yul_value(d->FunctionCall_args[1], env, mem)->0;
            let r = t_op(st, d);
            &&& !r.failed
            &&& r.stack == st.stack
            &&& r.indentation == st.indentation
            &&& r.user_functions == st.user_functions
            &&& r.memory_offset == st.memory_offset
            &&& r.branches == st.branches
            &&& r.scoped_identifiers == st.scoped_identifiers
            &&& program_lines(r) == program_lines(st) + ls
            &&& forall|vm: MState|
                agrees(st.stack, st.scoped_identifiers, env, vm.stack) && mem_agrees(mem, vm.memory, st.memory_offset as int) ==> (run_lines(
                    ls,
                    vm,
                ) matches Some(vm2) && vm2.stack == vm.stack && mem_agrees(
                    mem.insert(a, v),
                    vm2.memory,
                    st.memory_offset as int,
                ))
        }),
{
    let name = d->FunctionCall_name;
    let args = d->FunctionCall_args;
    let ea = args[0];
    let ev = args[1];
    reveal_strlit("mstore");
    reveal_strlit("()");
    reveal_strlit("# ");
    reveal_strlit(" #");
    reveal_strlit("pop.mem");
    reveal_strlit("push.");
    reveal_strlit("dup.");
    reveal_strlit("mul.");
    reveal_strlit("add");
    reveal_strlit("sub");
    reveal_strlit("mul");
    reveal_strlit("and");
    reveal_strlit("or");
    reveal_strlit("xor");
    let c = "# "@ + (name + "()"@) + " #"@;
    assert(no_newline(c));
    lemma_add_line_lines(st, c);
    let st0 = add_comment(st, name + "()"@);
    lemma_mstore_unfold(st, d);
    let lv = lemma_u32_expr(st0, ev, env, mem);
    let sv = t_op(st0, ev);
    lemma_stack_size_push(unknown(YulType::U32), st.stack);
    lemma_model_push_unknown(st.stack, st.scoped_identifiers, env);
    let la = lemma_u32_expr(sv, ea, env, mem);
    let sa = t_op(sv, ea);
    let off = nat_to_dec(st.memory_offset as nat);
    let l1 = "mul.2 push."@ + off + " add"@;
    lemma_address_line(st.indentation as nat, st.memory_offset as nat, MState { stack: seq![0], memory: Map::empty() });
    assert(no_newline("pop.mem"@));
    lemma_add_line_lines(sa, l1);
    lemma_add_line_lines(add_line(sa, l1), "pop.mem"@);
    let r = consume(add_line(add_line(sa, l1), "pop.mem"@), 2);
    assert(r.stack =~= st.stack);
    let sp = spaces(st.indentation as nat);
    let ls = seq![sp + c] + lv + la + seq![sp + l1] + seq![sp + "pop.mem"@];
    assert(program_lines(r) =~= program_lines(st) + ls);
    assert(c[0] == '#');
    let a = yul_value(ea, env, mem)->0;
    let v = yul_value(ev, env, mem)->0;
    let off_i = st.memory_offset as int;
    assert forall|vm: MState| agrees(st.stack, st.scoped_identifiers, env, vm.stack) && mem_agrees(mem, vm.memory, off_i) implies (run_lines(
        ls,
        vm,
    ) matches Some(vm2) && vm2.stack == vm.stack && mem_agrees(mem.insert(a, v), vm2.memory, off_i)) by {
        lemma_run_append(seq![sp + c] + lv + la + seq![sp + l1], seq![sp + "pop.mem"@], vm);
        lemma_run_append(seq![sp + c] + lv + la, seq![sp + l1], vm);
        lemma_run_append(seq![sp + c] + lv, la, vm);
        lemma_run_append(seq![sp + c], lv, vm);
        lemma_comment_line(st.indentation as nat, c, vm);
        let vmv = with_stack(vm, seq![v] + vm.stack);
        assert(run_lines(lv, vm) == Some(vmv));
        lemma_agrees_push_unknown(st.stack, st.scoped_identifiers, env, vm.stack, v);
        let vma = with_stack(vmv, seq![a] + vmv.stack);
        assert(run_lines(la, vmv) == Some(vma));
        lemma_run_one(sp + l1, vma);
        lemma_address_line(st.indentation as nat, st.memory_offset as nat, vma);
        let vmb = with_stack(vm, seq![2 * a + off_i] + (seq![v] + vm.stack));
        assert(vma.stack.skip(1) =~= seq![v] + vm.stack);
        assert(run_line(sp + l1, vma) == Some(vmb));
        lemma_run_one(sp + "pop.mem"@, vmb);
        assert(lacks("pop.mem"@, ' '));
        lemma_word_line(st.indentation as nat, "pop.mem"@, vmb);
        assert("pop.mem"@.take(5) != "push."@) by {
            assert("pop.mem"@.take(5)[1] == 'o');
        }
        assert("pop.mem"@.take(4) != "dup."@ && "pop.mem"@.take(4) != "mul."@) by {
            assert("pop.mem"@.take(4)[0] == 'p');
        }
        let vm2 = MState { stack: vm.stack, memory: vm.memory.insert(2 * a + off_i, v) };
        assert(vmb.stack.skip(2) =~= vm.stack);
        assert(run_word("pop.mem"@, vmb) == Some(vm2));
        assert forall|b: int| 0 <= b <= u32::MAX implies mem_at(vm2.memory, 2 * b + off_i) == #[trigger] mem_at(
            mem.insert(a, v),
            b,
        ) by {
            if b != a {
                assert(mem_at(vm.memory, 2 * b + off_i) == mem_at(mem, b));
            }
        }
    }
    ls
}

/// A stack that agrees still does once a new variable is bound in scope.
proof fn lemma_agrees_bind(
    stack: Seq<SValue>,
    scope: Map<Seq<char>, STyped>,
    env: Map<Seq<char>, int>,
    s: Seq<int>,
    x: STyped,
)
    requires
        agrees(stack, scope, env, s),
        !env.contains_key(x.name),
    ensures
        agrees(stack, scope.insert(x.name, x), env, s),
{
    assert forall|n: Seq<char>| #[trigger] env.contains_key(n) implies (find_slot(
        stack,
        scope.insert(x.name, x)[n],
    ) matches Some(i) && s[i as int] == env[n]) by {
        assert(n != x.name);
    }
}

/// The model and a run-time stack agree with the values once the new
/// variable `x`, bound in scope, holds the top slot with value `v`.
proof fn lemma_model_declare(
    stack: Seq<SValue>,
    scope: Map<Seq<char>, STyped>,
    env: Map<Seq<char>, int>,
    x: STyped,
    v: int,
    s: Seq<int>,
)
    requires
        model_ok(stack, scope, env),
        !env.contains_key(x.name),
        x.yul_type == YulType::U32,
        no_newline(x.name),
        0 <= v <= u32::MAX,
    ensures
        model_ok(seq![SValue { id: Some(x), ty: YulType::U32 }] + stack, scope.insert(x.name, x), env.insert(x.name, v)),
        agrees(stack, scope, env, s) ==> agrees(
            seq![SValue { id: Some(x), ty: YulType::U32 }] + stack,
            scope.insert(x.name, x),
            env.insert(x.name, v),
            seq![v] + s,
        ),
{
    let top = SValue { id: Some(x), ty: YulType::U32 };
    let ns = seq![top] + stack;
    let sc = scope.insert(x.name, x);
    let ev = env.insert(x.name, v);
    assert forall|i: int| 0 <= i < ns.len() implies (#[trigger] ns[i]).ty == YulType::U32 by {
        if i > 0 {
            assert(ns[i] == stack[i - 1]);
        }
    }
    assert forall|i: int| 0 <= i < ns.len() && (#[trigger] ns[i]).id is Some implies ev.contains_key(
        ns[i].id->0.name,
    ) && sc.contains_key(ns[i].id->0.name) && sc[ns[i].id->0.name] == ns[i].id->0 by {
        if i > 0 {
            assert(ns[i] == stack[i - 1]);
            assert(stack[i - 1].id->0.name != x.name);
        }
    }
    assert forall|n: Seq<char>| #[trigger] ev.contains_key(n) implies sc.contains_key(n) && sc[n] == (STyped {
        name: n,
        yul_type: YulType::U32,
    }) && find_slot(ns, sc[n]) is Some && 0 <= ev[n] <= u32::MAX && no_newline(n) by {
        lemma_find_slot_push(top, stack, sc[n]);
        if n != x.name {
            assert(env.contains_key(n));
        }
    }
    if agrees(stack, scope, env, s) {
        assert forall|n: Seq<char>| #[trigger] ev.contains_key(n) implies (find_slot(ns, sc[n]) matches Some(i) && (seq![
            v,
        ] + s)[i as int] == ev[n]) by {
            lemma_find_slot_push(top, stack, sc[n]);
            if n != x.name {
                assert(env.contains_key(n));
                assert(sc[n] == scope[n]);
                assert(scope[n].name == n);
                lemma_find_slot_found(stack, scope[n]);
            }
        }
    }
}

/// The model and a run-time stack agree with the values once variable `n`,
/// assigned value `v`, holds the top slot; its earlier slot stays below.
proof fn lemma_model_assign(
    stack: Seq<SValue>,
    scope: Map<Seq<char>, STyped>,
    env: Map<Seq<char>, int>,
    n: Seq<char>,
    v: int,
    s: Seq<int>,
)
    requires
        model_ok(stack, scope, env),
        env.contains_key(n),
        0 <= v <= u32::MAX,
    ensures
        model_ok(seq![SValue { id: Some(scope[n]), ty: YulType::U32 }] + stack, scope, env.insert(n, v)),
        agrees(stack, scope, env, s) ==> agrees(
            seq![SValue { id: Some(scope[n]), ty: YulType::U32 }] + stack,
            scope,
            env.insert(n, v),
            seq![v] + s,
        ),
{
    let t = scope[n];
    let top = SValue { id: Some(t), ty: YulType::U32 };
    let ns = seq![top] + stack;
    let ev = env.insert(n, v);
    assert forall|i: int| 0 <= i < ns.len() implies (#[trigger] ns[i]).ty == YulType::U32 by {
        if i > 0 {
            assert(ns[i] == stack[i - 1]);
        }
    }
    assert forall|i: int| 0 <= i < ns.len() && (#[trigger] ns[i]).id is Some implies ev.contains_key(
        ns[i].id->0.name,
    ) && scope.contains_key(ns[i].id->0.name) && scope[ns[i].id->0.name] == ns[i].id->0 by {
        if i > 0 {
            assert(ns[i] == stack[i - 1]);
        }
    }
    assert forall|m: Seq<char>| #[trigger] ev.contains_key(m) implies scope.contains_key(m) && scope[m] == (STyped {
        name: m,
        yul_type: YulType::U32,
    }) && find_slot(ns, scope[m]) is Some && 0 <= ev[m] <= u32::MAX && no_newline(m) by {
        lemma_find_slot_push(top, stack, scope[m]);
        if m != n {
            assert(env.contains_key(m));
        }
    }
    if agrees(stack, scope, env, s) {
        assert forall|m: Seq<char>| #[trigger] ev.contains_key(m) implies (find_slot(ns, scope[m]) matches Some(i) && (seq![
            v,
        ] + s)[i as int] == ev[m]) by {
            lemma_find_slot_push(top, stack, scope[m]);
            if m != n {
                assert(env.contains_key(m));
                assert(scope[m].name == m);
                lemma_find_slot_found(stack, scope[m]);
            }
        }
    }
}

/// The lines of an assignment `x := e` push the value of `e`, which the
/// model then holds as `x`.
proof fn lemma_u32_assignment(st: TState, d: SExpr, env: Map<Seq<char>, int>, mem: Map<int, int>) -> (ls: Seq<
    Seq<char>,
>)
    requires
        !st.failed,
        u32_statement(d),
        d is Assignment,
        yul_value(*d->Assignment_rhs, env, mem) is Some,
        stack_size(st.stack) + expr_height(*d->Assignment_rhs) <= 16,
        env.contains_key(d->Assignment_names[0]),
        no_user_arith(st),
        model_ok(st.stack, st.scoped_identifiers, env),
        st.indentation + 8 <= u32::MAX,
        st.memory_offset + 2 * u32::MAX < field_prime(),
        st.branches.len() == 0,
    ensures
        ({
            let n = d->Assignment_names[0];
            let v = yul_value(*d->Assignment_rhs, env, mem)->0;
            let r = t_op(st, d);
            &&& !r.failed
            &&& r.stack == seq![SValue { id: Some(st.scoped_identifiers[n]), ty: YulType::U32 }] + st.stack
            &&& r.indentation == st.indentation
            &&& r.user_functions == st.user_functions
            &&& r.memory_offset == st.memory_offset
            &&& r.branches == st.branches
            &&& r.scoped_identifiers == st.scoped_identifiers
            &&& program_lines(r) == program_lines(st) + ls
            &&& forall|vm: MState|
                agrees(st.stack, st.scoped_identifiers, env, vm.stack) && mem_agrees(
                    mem,
                    vm.memory,
                    st.memory_offset as int,
                ) ==> run_lines(ls, vm) == Some(with_stack(vm, seq![v] + vm.stack))
        }),
{
    let names = d->Assignment_names;
    let n = names[0];
    let e = *d->Assignment_rhs;
    let t = st.scoped_identifiers[n];
    let v = yul_value(e, env, mem)->0;
    reveal_strlit("Assigning to ");
    reveal_strlit("# ");
    reveal_strlit(" #");
    assert(t.name == n);
    let c = "# "@ + ("Assigning to "@ + t.name) + " #"@;
    assert(no_newline(c));
    lemma_add_line_lines(st, c);
    let st1 = indent(add_comment(st, "Assigning to "@ + t.name));
    assert(assign_begin(st, names) == st1);
    let le = lemma_u32_expr(st1, e, env, mem);
    let r1 = t_op(st1, e);
    let r2 = top_is_var(r1, t);
    assert(r2.stack =~= seq![SValue { id: Some(t), ty: YulType::U32 }] + st.stack);
    let r = outdent(r2);
    assert(t_op(st, d) == r);
    let sp = spaces(st.indentation as nat);
    let ls = seq![sp + c] + le;
    assert(program_lines(r) =~= program_lines(st) + ls);
    assert(c[0] == '#');
    assert forall|vm: MState|
        agrees(st.stack, st.scoped_identifiers, env, vm.stack) && mem_agrees(mem, vm.memory, st.memory_offset as int) implies run_lines(
        ls,
        vm,
    ) == Some(with_stack(vm, seq![v] + vm.stack)) by {
        lemma_run_append(seq![sp + c], le, vm);
        lemma_comment_line(st.indentation as nat, c, vm);
    }
    ls
}

/// The lines of straight-line `u32` statements leave on the stack, above
/// what was there, the declared variables' values, and in memory what Yul
/// stores, as the model says.
proof fn lemma_u32_statements(st: TState, ds: Seq<SExpr>, y: YState) -> (ls: Seq<Seq<char>>)
    requires
        !st.failed,
        forall|k: int| 0 <= k < ds.len() ==> u32_statement(#[trigger] ds[k]),
        yul_run(ds, y) is Some,
        stmts_fit(ds, st.stack.len()),
        no_user_arith(st),
        model_ok(st.stack, st.scoped_identifiers, y.vars),
        st.indentation + 8 <= u32::MAX,
        st.memory_offset + 2 * u32::MAX < field_prime(),
        st.branches.len() == 0,
    ensures
        ({
            let r = t_block(st, ds);
            let y2 = yul_run(ds, y)->0;
            &&& !r.failed
            &&& r.branches == st.branches
            &&& r.indentation == st.indentation
            &&& r.user_functions == st.user_functions
            &&& r.memory_offset == st.memory_offset
            &&& r.stack.len() == st.stack.len() + growth(ds)
            &&& r.stack.skip(growth(ds) as int) == st.stack
            &&& model_ok(r.stack, r.scoped_identifiers, y2.vars)
            &&& program_lines(r) == program_lines(st) + ls
            &&& forall|vm: MState|
                agrees(st.stack, st.scoped_identifiers, y.vars, vm.stack) && mem_agrees(y.mem, vm.memory, st.memory_offset as int) ==> (
                run_lines(ls, vm) matches Some(vm2) && agrees(r.stack, r.scoped_identifiers, y2.vars, vm2.stack) && mem_agrees(
                    y2.mem,
                    vm2.memory,
                    st.memory_offset as int,
                ) && vm2.stack.skip(growth(ds) as int) == vm.stack)
        }),
    decreases ds.len(),
{
    let off_i = st.memory_offset as int;
    if ds.len() == 0 {
        assert(st.stack.skip(0) =~= st.stack);
        assert(program_lines(st) + Seq::<Seq<char>>::empty() =~= program_lines(st));
        assert forall|vm: MState|
            agrees(st.stack, st.scoped_identifiers, y.vars, vm.stack) && mem_agrees(y.mem, vm.memory, off_i) implies (run_lines(
            Seq::<Seq<char>>::empty(),
            vm,
        ) matches Some(vm2) && agrees(st.stack, st.scoped_identifiers, y.vars, vm2.stack) && mem_agrees(y.mem, vm2.memory, off_i)
            && vm2.stack.skip(0) == vm.stack) by {
            assert(vm.stack.skip(0) =~= vm.stack);
        }
        Seq::empty()
    } else {
        let dl = ds.drop_last();
        let d = ds.last();
        assert forall|k: int| 0 <= k < dl.len() implies u32_statement(#[trigger] dl[k]) by {
            assert(dl[k] == ds[k]);
        }
        assert(u32_statement(ds[ds.len() - 1]));
        let l0 = lemma_u32_statements(st, dl, y);
        let r0 = t_block(st, dl);
        let y1 = yul_run(dl, y)->0;
        let y2 = yul_run(ds, y)->0;
        lemma_stack_size_u32(r0.stack);
        let r = t_op(r0, d);
        assert(t_block(st, ds) == r);
        match d {
            SExpr::DeclareVariable { vars, rhs } => {
                let x = vars[0];
                let e = *rhs->0;
                let l1 = lemma_u32_declaration(r0, d, y1.vars, y1.mem);
                let v = yul_value(e, y1.vars, y1.mem)->0;
                lemma_model_declare(r0.stack, r0.scoped_identifiers, y1.vars, x, v, Seq::<int>::empty());
                assert(r.stack.skip(growth(ds) as int) =~= r0.stack.skip(growth(dl) as int));
                let ls = l0 + l1;
                assert(program_lines(r) =~= program_lines(st) + ls);
                assert forall|vm: MState|
                    agrees(st.stack, st.scoped_identifiers, y.vars, vm.stack) && mem_agrees(y.mem, vm.memory, off_i) implies (run_lines(
                    ls,
                    vm,
                ) matches Some(vm2) && agrees(r.stack, r.scoped_identifiers, y2.vars, vm2.stack) && mem_agrees(y2.mem, vm2.memory, off_i)
                    && vm2.stack.skip(growth(ds) as int) == vm.stack) by {
                    lemma_run_append(l0, l1, vm);
                    let vm1 = run_lines(l0, vm)->0;
                    lemma_model_declare(r0.stack, r0.scoped_identifiers, y1.vars, x, v, vm1.stack);
                    assert((seq![v] + vm1.stack).skip(growth(ds) as int) =~= vm1.stack.skip(growth(dl) as int));
                }
                ls
            },
            SExpr::Assignment { names, types, rhs } => {
                let n = names[0];
                let l1 = lemma_u32_assignment(r0, d, y1.vars, y1.mem);
                let v = yul_value(*rhs, y1.vars, y1.mem)->0;
                lemma_model_assign(r0.stack, r0.scoped_identifiers, y1.vars, n, v, Seq::<int>::empty());
                assert(r.stack.skip(growth(ds) as int) =~= r0.stack.skip(growth(dl) as int));
                let ls = l0 + l1;
                assert(program_lines(r) =~= program_lines(st) + ls);
                assert forall|vm: MState|
                    agrees(st.stack, st.scoped_identifiers, y.vars, vm.stack) && mem_agrees(y.mem, vm.memory, off_i) implies (run_lines(
                    ls,
                    vm,
                ) matches Some(vm2) && agrees(r.stack, r.scoped_identifiers, y2.vars, vm2.stack) && mem_agrees(y2.mem, vm2.memory, off_i)
                    && vm2.stack.skip(growth(ds) as int) == vm.stack) by {
                    lemma_run_append(l0, l1, vm);
                    let vm1 = run_lines(l0, vm)->0;
                    lemma_model_assign(r0.stack, r0.scoped_identifiers, y1.vars, n, v, vm1.stack);
                    assert((seq![v] + vm1.stack).skip(growth(ds) as int) =~= vm1.stack.skip(growth(dl) as int));
                }
                ls
            },
            _ => {
                let l1 = lemma_u32_mstore(r0, d, y1.vars, y1.mem);
                assert(r.stack.skip(growth(ds) as int) =~= r0.stack.skip(growth(dl) as int));
                let ls = l0 + l1;
                assert(program_lines(r) =~= program_lines(st) + ls);
                assert forall|vm: MState|
                    agrees(st.stack, st.scoped_identifiers, y.vars, vm.stack) && mem_agrees(y.mem, vm.memory, off_i) implies (run_lines(
                    ls,
                    vm,
                ) matches Some(vm2) && agrees(r.stack, r.scoped_identifiers, y2.vars, vm2.stack) && mem_agrees(y2.mem, vm2.memory, off_i)
                    && vm2.stack.skip(growth(ds) as int) == vm.stack) by {
                    lemma_run_append(l0, l1, vm);
                }
                ls
            },
        }
    }
}

/// Generated code computes what Yul computes, for an expression. For a
/// `u32` expression of number literals, variables, `mload` and `add`,
/// `sub`, `mul`, `lt`, `gt` and `eq` whose values all stay `u32`s,
/// generated where the model of the stack agrees with the variables' values
/// `env`, its values fit in the 16 reachable stack elements and no user
/// function takes an operation's name, the generator keeps every line it
/// had and adds lines that, run on any machine holding the variables'
/// values where the model says and Yul's memory `mem` past the memory
/// offset, push exactly the value Yul gives the expression and change
/// nothing else; its model of the stack gains one `u32` slot.
pub proof fn law_u32_expression_computes_yul_value(
    st: TState,
    e: SExpr,
    env: Map<Seq<char>, int>,
    mem: Map<int, int>,
)
    requires
        !st.failed,
        u32_expr(e),
        yul_value(e, env, mem) is Some,
        no_user_arith(st),
        model_ok(st.stack, st.scoped_identifiers, env),
        stack_size(st.stack) + expr_height(e) <= 16,
        st.indentation + 4 <= u32::MAX,
        st.memory_offset + 2 * u32::MAX < field_prime(),
    ensures
        !t_op(st, e).failed,
        t_op(st, e).stack == seq![unknown(YulType::U32)] + st.stack,
        program_lines(st).len() <= program_lines(t_op(st, e)).len(),
        program_lines(t_op(st, e)).take(program_lines(st).len() as int) == program_lines(st),
        forall|vm: MState|
            agrees(st.stack, st.scoped_identifiers, env, vm.stack) && mem_agrees(mem, vm.memory, st.memory_offset as int) ==> run_lines(
                #[trigger] program_lines(t_op(st, e)).skip(program_lines(st).len() as int),
                vm,
            ) == Some(with_stack(vm, seq![yul_value(e, env, mem)->0] + vm.stack)),
{
    let ls = lemma_u32_expr(st, e, env, mem);
    let n = program_lines(st).len() as int;
    assert((program_lines(st) + ls).take(n) =~= program_lines(st));
    assert((program_lines(st) + ls).skip(n) =~= ls);
}

/// Each variable of `env` has a slot on the stack of `st`, and the run-time
/// stack `s` holds its value there.
pub open spec fn holds_values(st: TState, env: Map<Seq<char>, int>, s: Seq<int>) -> bool {
    forall|n: Seq<char>|
        #[trigger] env.contains_key(n) ==> {
            let i = find_slot(st.stack, st.scoped_identifiers[n]);
            &&& i is Some
            &&& s[i->0 as int] == env[n]
        }
}

/// A stack that agrees with a model holds each variable's value in its
/// slot.
proof fn lemma_holds_values(st: TState, env: Map<Seq<char>, int>, s: Seq<int>)
    requires
        model_ok(st.stack, st.scoped_identifiers, env),
        agrees(st.stack, st.scoped_identifiers, env, s),
    ensures
        holds_values(st, env, s),
{
    assert forall|n: Seq<char>| #[trigger] env.contains_key(n) implies ({
        let i = find_slot(st.stack, st.scoped_identifiers[n]);
        &&& i is Some
        &&& s[i->0 as int] == env[n]
    }) by {
        lemma_find_slot_found(st.stack, st.scoped_identifiers[n]);
        let i = find_slot(st.stack, st.scoped_identifiers[n])->0;
        assert(st.stack[i as int].id is Some);
    }
}

/// Generated code computes what Yul computes, for straight-line statements.
/// For declarations `let x := e` of new `u32` variables, assignments
/// `x := e` and `mstore(a, v)` calls outside any branch, whose expressions
/// are covered `u32` expressions and whose values all stay `u32`s,
/// generated where the model agrees with the variables' values, the values
/// fit in the 16 reachable stack elements and no user function takes an
/// operation's name, the generator keeps every line it had and adds lines
/// that, run on any machine holding the variables' values where the model
/// says and Yul's memory past the memory offset, leave it with one more
/// element per declaration or assignment above its stack, the value Yul
/// gives each variable, those declared and those before, in the slot the
/// model keeps for it, and the memory Yul ends with.
pub proof fn law_u32_statements_compute_yul_values(st: TState, ds: Seq<SExpr>, y: YState)
    requires
        !st.failed,
        forall|k: int| 0 <= k < ds.len() ==> u32_statement(#[trigger] ds[k]),
        yul_run(ds, y) is Some,
        stmts_fit(ds, st.stack.len()),
        no_user_arith(st),
        model_ok(st.stack, st.scoped_identifiers, y.vars),
        st.indentation + 8 <= u32::MAX,
        st.memory_offset + 2 * u32::MAX < field_prime(),
        st.branches.len() == 0,
    ensures
        !t_block(st, ds).failed,
        program_lines(st).len() <= program_lines(t_block(st, ds)).len(),
        program_lines(t_block(st, ds)).take(program_lines(st).len() as int) == program_lines(st),
        forall|vm: MState|
            agrees(st.stack, st.scoped_identifiers, y.vars, vm.stack) && mem_agrees(y.mem, vm.memory, st.memory_offset as int) ==> (
            run_lines(#[trigger] program_lines(t_block(st, ds)).skip(program_lines(st).len() as int), vm) matches Some(
                vm2,
            ) && vm2.stack.len() == vm.stack.len() + growth(ds) && vm2.stack.skip(growth(ds) as int) == vm.stack
                && holds_values(t_block(st, ds), yul_run(ds, y)->0.vars, vm2.stack) && mem_agrees(
                yul_run(ds, y)->0.mem,
                vm2.memory,
                st.memory_offset as int,
            )),
{
    let ls = lemma_u32_statements(st, ds, y);
    let r = t_block(st, ds);
    let y2 = yul_run(ds, y)->0;
    let m = program_lines(st).len() as int;
    assert((program_lines(st) + ls).take(m) =~= program_lines(st));
    assert((program_lines(st) + ls).skip(m) =~= ls);
    assert forall|vm: MState|
        agrees(st.stack, st.scoped_identifiers, y.vars, vm.stack) && mem_agrees(y.mem, vm.memory, st.memory_offset as int) implies (run_lines(
        #[trigger] program_lines(r).skip(m),
        vm,
    ) matches Some(vm2) && vm2.stack.len() == vm.stack.len() + growth(ds) && vm2.stack.skip(growth(ds) as int)
        == vm.stack && holds_values(r, y2.vars, vm2.stack) && mem_agrees(y2.mem, vm2.memory, st.memory_offset as int)) by {
        let vm2 = run_lines(ls, vm)->0;
        assert(vm2.stack.skip(growth(ds) as int).len() == vm.stack.len());
        lemma_holds_values(r, y2.vars, vm2.stack);
    }
}

/// The functions of a program without function definitions leave the state
/// as it is.
proof fn lemma_no_functions(st: TState, ds: Seq<SExpr>)
    requires
        forall|k: int| 0 <= k < ds.len() ==> u32_statement(#[trigger] ds[k]),
    ensures
        declare_functions(st, ds) == st,
    decreases ds.len(),
{
    if !st.failed && ds.len() > 0 {
        assert forall|k: int| 0 <= k < ds.drop_last().len() implies u32_statement(#[trigger] ds.drop_last()[k]) by {
            assert(ds.drop_last()[k] == ds[k]);
        }
        lemma_no_functions(st, ds.drop_last());
        assert(u32_statement(ds[ds.len() - 1]));
    }
}

/// The index, in a generated program's lines, of the first line of its
/// statements: the one after `begin`.
pub open spec fn statements_start(ast: Seq<SExpr>, procs: Seq<char>) -> int {
    let st1 = add_line(add_line(initial_state(user_memory_offset()), procs + seq!['\n']), "# end std lib #"@);
    program_lines(add_line(declare_functions(st1, ast), "begin"@)).len() as int
}

/// Generated programs compute what Yul computes. A program of declarations
/// `let x := e` of new `u32` variables, assignments `x := e` and
/// `mstore(a, v)` calls, whose expressions are covered `u32` expressions
/// whose values all stay `u32`s and fit in the 16 reachable stack elements,
/// is generated; its statements stand between a line `begin` and the last
/// line, `end`; and run on a machine with an empty stack and memory, they
/// leave one element per declaration or assignment, each variable's value
/// as Yul gives it in the slot the generator's model keeps for it, and at
/// twice each address past the user memory offset what Yul's memory holds
/// there.
pub proof fn law_u32_program_computes_yul_values(ds: Seq<SExpr>, procs: Seq<char>)
    requires
        forall|k: int| 0 <= k < ds.len() ==> u32_statement(#[trigger] ds[k]),
        yul_run(ds, YState { vars: Map::empty(), mem: Map::empty() }) is Some,
        stmts_fit(ds, 0),
    ensures
        spec_transpile_program(ds, procs) is Some,
        ({
            let ls = split_on(spec_transpile_program(ds, procs)->0, '\n');
            let m = statements_start(ds, procs);
            let y = yul_run(ds, YState { vars: Map::empty(), mem: Map::empty() })->0;
            &&& 0 < m < ls.len()
            &&& ls[m - 1] == "begin"@
            &&& ls.last() == "end"@
            &&& run_lines(ls.subrange(m, ls.len() - 1), MState { stack: Seq::empty(), memory: Map::empty() }) matches Some(
                vm,
            ) && vm.stack.len() == growth(ds) && holds_values(transpiled(ds, procs), y.vars, vm.stack) && mem_agrees(
                y.mem,
                vm.memory,
                user_memory_offset() as int,
            )
        }),
{
    let y0 = YState { vars: Map::empty(), mem: Map::empty() };
    let st1 = add_line(add_line(initial_state(user_memory_offset()), procs + seq!['\n']), "# end std lib #"@);
    lemma_no_functions(st1, ds);
    reveal_strlit("begin");
    reveal_strlit("end");
    assert(no_newline("begin"@));
    assert(no_newline("end"@));
    lemma_add_line_lines(st1, "begin"@);
    let sb = add_line(st1, "begin"@);
    let st2 = indent(sb);
    assert(model_ok(st2.stack, st2.scoped_identifiers, y0.vars));
    assert(no_user_arith(st2));
    let ls = lemma_u32_statements(st2, ds, y0);
    let r = t_block(st2, ds);
    let r1 = outdent(r);
    lemma_add_line_lines(r1, "end"@);
    let fin = add_line(r1, "end"@);
    assert(fin == transpiled(ds, procs));
    let lines = program_lines(fin);
    let m = statements_start(ds, procs);
    assert(m == program_lines(st2).len());
    assert(spaces(0) + "end"@ =~= "end"@);
    assert(spaces(0) + "begin"@ =~= "begin"@);
    assert(lines =~= program_lines(st2) + ls + seq!["end"@]);
    assert(lines.subrange(m, lines.len() - 1) =~= ls);
    let vm0 = MState { stack: Seq::empty(), memory: Map::empty() };
    assert(agrees(st2.stack, st2.scoped_identifiers, y0.vars, vm0.stack));
    assert(mem_agrees(y0.mem, vm0.memory, st2.memory_offset as int));
    let vm = run_lines(ls, vm0)->0;
    assert(vm.stack.skip(growth(ds) as int).len() == 0);
    let y = yul_run(ds, y0)->0;
    lemma_holds_values(r, y.vars, vm.stack);
}

/// A `u32` switch enters a case exactly when its value equals the case's
/// literal: the lines that test a case, run on a machine whose stack holds
/// the switch value in the slot the model keeps for it, push 1 when that
/// value equals the literal and 0 when it does not, and change nothing
/// else; the generator keeps every line it had.
pub proof fn law_u32_case_test_compares_for_equality(st: TState, literal: SLiteral, target: STyped, vm: MState)
    requires
        !st.failed,
        target.yul_type == YulType::U32,
        no_newline(target.name),
        find_slot(st.stack, target) is Some,
        forall|i: int| 0 <= i < st.stack.len() ==> (#[trigger] st.stack[i]).ty == YulType::U32,
        stack_size(st.stack) + 1 <= 16,
        st.indentation + 4 <= u32::MAX,
        literal matches SLiteral::Number { inferred_type, value } && inferred_type != Some(YulType::U256)
            && value.value() <= u32::MAX,
        st.stack.len() <= vm.stack.len(),
    ensures
        !case_test(st, literal, Some(YulType::U32), target).failed,
        program_lines(st).len() <= program_lines(case_test(st, literal, Some(YulType::U32), target)).len(),
        program_lines(case_test(st, literal, Some(YulType::U32), target)).take(program_lines(st).len() as int)
            == program_lines(st),
        run_lines(
            program_lines(case_test(st, literal, Some(YulType::U32), target)).skip(program_lines(st).len() as int),
            vm,
        ) == Some(
            with_stack(
                vm,
                seq![
                    if vm.stack[find_slot(st.stack, target)->0 as int] == literal->Number_value.value() {
                        1int
                    } else {
                        0int
                    },
                ] + vm.stack,
            ),
        ),
{
    let value = literal->Number_value;
    let lit = value.value() as int;
    let i = find_slot(st.stack, target)->0 as int;
    let v = vm.stack[i];
    let l1 = lemma_dup_to_top(st, target);
    let st0 = move_identifier_to_top(st, target, true);
    let so = set_overflow(st0, true);
    let env = Map::<Seq<char>, int>::empty();
    let off = so.memory_offset as int;
    let mem = Map::<int, int>::new(|a: int| true, |a: int| mem_at(vm.memory, 2 * a + off));
    let l2 = lemma_u32_literal(so, value, env, mem);
    let st1 = push_u32(so, value);
    assert(t_literal(so, literal) == st1);
    reveal_strlit("eq");
    assert(no_newline("eq"@));
    lemma_add_line_lines(st1, "eq"@);
    let r = add_line(st1, "eq"@);
    assert(case_test(st, literal, Some(YulType::U32), target) == r);
    let sp = spaces(st.indentation as nat);
    let ls = l1 + l2 + seq![sp + "eq"@];
    let n = program_lines(st).len() as int;
    assert(program_lines(r) =~= program_lines(st) + ls);
    assert((program_lines(st) + ls).take(n) =~= program_lines(st));
    assert((program_lines(st) + ls).skip(n) =~= ls);
    let vm1 = with_stack(vm, seq![v] + vm.stack);
    lemma_run_append(l1 + l2, seq![sp + "eq"@], vm);
    lemma_run_append(l1, l2, vm);
    assert(run_lines(l1, vm) == Some(vm1));
    assert(agrees(so.stack, so.scoped_identifiers, env, vm1.stack));
    assert(mem_agrees(mem, vm1.memory, off));
    let vm2 = with_stack(vm1, seq![lit] + vm1.stack);
    assert(run_lines(l2, vm1) == Some(vm2));
    lemma_run_one(sp + "eq"@, vm2);
    assert(lacks("eq"@, ' '));
    lemma_word_line(st.indentation as nat, "eq"@, vm2);
    reveal_strlit("push.");
    reveal_strlit("dup.");
    reveal_strlit("mul.");
    reveal_strlit("pop.mem");
    reveal_strlit("push.mem");
    reveal_strlit("add");
    reveal_strlit("sub");
    reveal_strlit("mul");
    reveal_strlit("lt");
    reveal_strlit("gt");
    assert("eq"@ != "add"@ && "eq"@ != "sub"@ && "eq"@ != "mul"@ && "eq"@ != "lt"@ && "eq"@ != "gt"@) by {
        assert("eq"@[0] == 'e');
    }
    assert(vm2.stack.skip(2) =~= vm.stack);
}

} // verus!
