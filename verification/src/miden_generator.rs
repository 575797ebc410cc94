//! Generation of Miden assembly from a typed Yul syntax tree.
//!
//! The generator tracks where each variable lives: in a slot of the Miden
//! stack (of which only the top 16 elements can be reached) or at a memory
//! address. Every step is proved to do what the model in `miden_model`
//! says; a step that the model marks as failed is reported as `false`.
use vstd::prelude::*;
use crate::types::{Expr, ExprLiteral, ExprBlock, ExprCase, ExprFunctionCall, ExprSwitch, ExprForLoop,
    ExprFunctionDefinition, ExprAssignment, ExprDeclareVariable, ExprIfStatement, ExprRepeat,
    TypedIdentifier, YulType, STyped, SExpr, SLiteral, SCase, typed_view, typeds_view, expr_view,
    exprs_view, cases_view, literal_view, names_view, clone_typed, yul_type_text, spec_stack_width,
    spec_memory_addresses, lemma_exprs_view, lemma_cases_view};
use crate::miden_model::{SValue, SBranch, IncludedProcs, TState, initial_state, spaces, stack_size,
    unknown, holding, indent, outdent, add_line, newline, add_comment, add_unknown, top_is_var,
    consume, add_lines, dup_from_offset, move_from_offset, slot_name, allocate, pop_top_to_memory,
    push_from_memory, load_from_memory, pop_bottom_to_memory, prepare_for, find_slot,
    move_identifier_to_top, update_identifier_in_memory, target_moves, target_stack, begin_branch,
    slot_holds, store_modified, end_branch, note_modified, push_u32, push_u256, drop_top,
    store_returns, drop_elements, load_returns, drop_after_returns, add_function_stack, t_literal, lemma_add_lines,
    t_op, t_case, t_user_call, t_u256_op, t_mstore, t_mload, t_u32_op, t_u32_iszero, t_assignment, t_declaration, t_for, t_if, t_repeat, t_variable, t_block, t_call, t_cases, t_switch, assign_begin, assign_end, bind, expr_type, switch_matched,
    is_u256_binop, is_u256_comparison, is_u256_shift, is_u32_binop, binop_procs, comparison_procs,
    shift_procs, set_procs, set_overflow, dup_all, bind_all, unbind_all, param_stack,
    t_function_declaration, function_prologue, function_epilogue, declare_functions, transpiled, spec_transpile_program, user_memory_offset};
use crate::scope::StrMap;
use crate::text::{append_u64, push_char, str_eq, string_from, copy_string};
use crate::u256::{U256, nat_to_dec};
use crate::utils::{convert_u256_to_pushes, spec_u256_pushes};

verus! {

/// A slot of the stack: the variable it holds, if known, and its type.
pub struct StackValue {
    pub typed_identifier: Option<TypedIdentifier>,
    pub yul_type: YulType,
}

pub open spec fn opt_typed_view(t: Option<TypedIdentifier>) -> Option<STyped> {
    match t {
        Some(t) => Some(typed_view(t)),
        None => None,
    }
}

pub open spec fn slot_view(v: StackValue) -> SValue {
    SValue { id: opt_typed_view(v.typed_identifier), ty: v.yul_type }
}

pub open spec fn stack_view(s: Seq<StackValue>) -> Seq<SValue> {
    s.map_values(|v: StackValue| slot_view(v))
}

/// A stack slot as a debugging line: its variable's name (`UNKNOWN` when it
/// holds none), a colon, its type, and a line break.
pub open spec fn slot_debug_line(v: SValue) -> Seq<char> {
    (match v.id {
        Some(t) => t.name,
        None => "UNKNOWN"@,
    }) + ":"@ + yul_type_text(v.ty) + "\n"@
}

/// The stack as debugging text: a line break, then one line per slot, from
/// the top.
pub open spec fn spec_stack_debug_text(s: Seq<SValue>) -> Seq<char>
    decreases s.len(),
{
    if s.len() == 0 {
        "\n"@
    } else {
        spec_stack_debug_text(s.drop_last()) + slot_debug_line(s.last())
    }
}

/// The stack as debugging text.
pub fn stack_debug_text(stack: &Vec<StackValue>) -> (r: String)
    ensures
        r@ == spec_stack_debug_text(stack_view(stack@)),
{
    let ghost sv = stack_view(stack@);
    let mut r = string_from("\n");
    let mut i: usize = 0;
    proof {
        assert(sv.take(0) =~= Seq::<SValue>::empty());
    }
    while i < stack.len()
        invariant
            i <= stack.len(),
            sv == stack_view(stack@),
            r@ == spec_stack_debug_text(sv.take(i as int)),
        decreases stack.len() - i,
    {
        proof {
            assert(sv.take(i + 1).drop_last() =~= sv.take(i as int));
            assert(sv.take(i + 1).last() == slot_view(stack@[i as int]));
        }
        let ghost r0 = r@;
        match &stack[i].typed_identifier {
            Some(t) => r.append(t.identifier.as_str()),
            None => r.append("UNKNOWN"),
        }
        r.append(":");
        let ty = stack[i].yul_type.to_string();
        r.append(ty.as_str());
        r.append("\n");
        proof {
            assert(r@ =~= r0 + slot_debug_line(sv[i as int]));
        }
        i = i + 1;
    }
    proof {
        assert(sv.take(stack.len() as int) =~= sv);
    }
    r
}

/// A branch being generated: the variables assigned in it (each once) and
/// the stack before it.
pub struct Branch {
    pub modified_identifiers: Vec<TypedIdentifier>,
    pub stack_before: Vec<StackValue>,
}

pub open spec fn branch_view(b: Branch) -> SBranch {
    SBranch { modified: typeds_view(b.modified_identifiers@), before: stack_view(b.stack_before@) }
}

/// The memory address of each variable stored, a later entry hiding an
/// earlier one for the same variable.
pub open spec fn address_map(s: Seq<(TypedIdentifier, u32)>) -> Map<STyped, u32>
    decreases s.len(),
{
    if s.len() == 0 {
        Map::empty()
    } else {
        address_map(s.drop_last()).insert(typed_view(s.last().0), s.last().1)
    }
}

/// The generator's state.
pub struct Transpiler {
    variables: Vec<(TypedIdentifier, u32)>,
    indentation: u32,
    next_open_memory_address: u32,
    stack: Vec<StackValue>,
    program: String,
    user_functions: StrMap<Vec<StackValue>>,
    scoped_identifiers: StrMap<TypedIdentifier>,
    branches: Vec<Branch>,
    accept_overflow: bool,
    memory_offset: u64,
    procs_used: IncludedProcs,
}

impl View for Transpiler {
    type V = TState;

    closed spec fn view(&self) -> TState {
        TState {
            variables: address_map(self.variables@),
            indentation: self.indentation,
            next_open_memory_address: self.next_open_memory_address,
            stack: stack_view(self.stack@),
            program: self.program@,
            user_functions: self.user_functions@.map_values(|v: Vec<StackValue>| stack_view(v@)),
            scoped_identifiers: self.scoped_identifiers@.map_values(|t: TypedIdentifier| typed_view(t)),
            branches: self.branches@.map_values(|b: Branch| branch_view(b)),
            accept_overflow: self.accept_overflow,
            memory_offset: self.memory_offset,
            procs: self.procs_used,
            failed: false,
        }
    }
}

fn copy_typed_option(t: &Option<TypedIdentifier>) -> (r: Option<TypedIdentifier>)
    ensures
        opt_typed_view(r) == opt_typed_view(*t),
{
    match t {
        Some(t) => Some(clone_typed(t)),
        None => None,
    }
}

fn copy_slot(v: &StackValue) -> (r: StackValue)
    ensures
        slot_view(r) == slot_view(*v),
{
    StackValue { typed_identifier: copy_typed_option(&v.typed_identifier), yul_type: v.yul_type }
}

fn copy_stack(s: &Vec<StackValue>) -> (r: Vec<StackValue>)
    ensures
        stack_view(r@) == stack_view(s@),
{
    let mut r: Vec<StackValue> = Vec::new();
    let mut i: usize = 0;
    while i < s.len()
        invariant
            i <= s.len(),
            r@.len() == i,
            forall|j: int| 0 <= j < i ==> slot_view(#[trigger] r@[j]) == slot_view(s@[j]),
        decreases s.len() - i,
    {
        r.push(copy_slot(&s[i]));
        i = i + 1;
    }
    proof {
        assert(stack_view(r@) =~= stack_view(s@));
    }
    r
}

fn same_typed(a: &TypedIdentifier, b: &TypedIdentifier) -> (r: bool)
    ensures
        r == (typed_view(*a) == typed_view(*b)),
{
    str_eq(a.identifier.as_str(), b.identifier.as_str()) && a.yul_type == b.yul_type
}

fn holds(v: &StackValue, t: &TypedIdentifier) -> (r: bool)
    ensures
        r == (slot_view(*v).id == Some(typed_view(*t))),
{
    match &v.typed_identifier {
        Some(x) => same_typed(x, t),
        None => false,
    }
}

proof fn lemma_address_map_suffix(s: Seq<(TypedIdentifier, u32)>, i: int, k: STyped)
    requires
        0 <= i <= s.len(),
        forall|j: int| i <= j < s.len() ==> typed_view((#[trigger] s[j]).0) != k,
    ensures
        address_map(s).contains_key(k) == address_map(s.take(i)).contains_key(k),
        address_map(s).contains_key(k) ==> address_map(s)[k] == address_map(s.take(i))[k],
    decreases s.len() - i,
{
    if i < s.len() {
        assert(s.drop_last().take(i) =~= s.take(i));
        lemma_address_map_suffix(s.drop_last(), i, k);
        assert(s[s.len() - 1] == s.last());
    } else {
        assert(s.take(i) =~= s);
    }
}

impl Transpiler {
    /// A generator with nothing generated yet.
    fn new(memory_offset: u64) -> (r: Self)
        ensures
            r@ == initial_state(memory_offset),
    {
        let r = Transpiler {
            variables: Vec::new(),
            indentation: 0,
            next_open_memory_address: 0,
            stack: Vec::new(),
            program: String::new(),
            user_functions: StrMap::new(),
            scoped_identifiers: StrMap::new(),
            branches: Vec::new(),
            accept_overflow: false,
            memory_offset,
            procs_used: IncludedProcs {
                u256add_unsafe: false,
                u256and_unsafe: false,
                u256div_by_one: false,
                u256eq_unsafe: false,
                u256gt_unsafe: false,
                u256gte_unsafe: false,
                u256iszero_unsafe: false,
                u256lt_unsafe: false,
                u256lte_unsafe: false,
                u256mul_unsafe: false,
                u256or_unsafe: false,
                u256shl_unsafe: false,
                u256shr_unsafe: false,
                u256sub_unsafe: false,
                u256xor_unsafe: false,
            },
        };
        proof {
            assert(r@.variables =~= Map::<STyped, u32>::empty());
            assert(r@.stack =~= Seq::<SValue>::empty());
            assert(r@.user_functions =~= Map::<Seq<char>, Seq<SValue>>::empty());
            assert(r@.scoped_identifiers =~= Map::<Seq<char>, STyped>::empty());
            assert(r@.branches =~= Seq::<SBranch>::empty());
        }
        r
    }

    /// The address of variable `t`, if it has one.
    fn address_of(&self, t: &TypedIdentifier) -> (r: Option<u32>)
        ensures
            r is Some <==> self@.variables.contains_key(typed_view(*t)),
            r matches Some(a) ==> a == self@.variables[typed_view(*t)],
    {
        let mut i = self.variables.len();
        while i > 0
            invariant
                i <= self.variables.len(),
                forall|j: int|
                    i <= j < self.variables.len() ==> typed_view((#[trigger] self.variables@[j]).0) != typed_view(*t),
            decreases i,
        {
            if same_typed(&self.variables[i - 1].0, t) {
                proof {
                    let s = self.variables@;
                    lemma_address_map_suffix(s, i as int, typed_view(*t));
                    assert(s.take(i as int).drop_last() =~= s.take(i - 1));
                    assert(s.take(i as int).last() == s[i - 1]);
                }
                return Some(self.variables[i - 1].1);
            }
            i = i - 1;
        }
        proof {
            lemma_address_map_suffix(self.variables@, 0, typed_view(*t));
            assert(self.variables@.take(0) =~= Seq::<(TypedIdentifier, u32)>::empty());
        }
        None
    }

    fn indent(&mut self) -> (ok: bool)
        ensures
            ok == !indent(old(self)@).failed,
            ok ==> final(self)@ == indent(old(self)@),
    {
        if self.indentation > u32::MAX - 4 {
            return false;
        }
        self.indentation = self.indentation + 4;
        true
    }

    fn outdent(&mut self) -> (ok: bool)
        ensures
            ok == !outdent(old(self)@).failed,
            ok ==> final(self)@ == outdent(old(self)@),
    {
        if self.indentation < 4 {
            return false;
        }
        self.indentation = self.indentation - 4;
        true
    }

    /// Adds a line, indented, to the program.
    fn add_line(&mut self, line: &str)
        ensures
            final(self)@ == add_line(old(self)@, line@),
    {
        let mut buf = String::new();
        push_char(&mut buf, '\n');
        let mut i: u32 = 0;
        while i < self.indentation
            invariant
                i <= self.indentation,
                buf@ =~= seq!['\n'] + spaces(i as nat),
            decreases self.indentation - i,
        {
            push_char(&mut buf, ' ');
            i = i + 1;
        }
        buf.append(line);
        self.program.append(buf.as_str());
        proof {
            assert(self.program@ =~= old(self).program@ + seq!['\n'] + spaces(old(self).indentation as nat) + line@);
        }
    }

    /// Adds an empty line.
    fn newline(&mut self)
        ensures
            final(self)@ == newline(old(self)@),
    {
        push_char(&mut self.program, '\n');
        proof {
            assert(self.program@ =~= old(self).program@ + seq!['\n']);
        }
    }

    /// Adds a comment line, `# comment #`.
    fn add_comment(&mut self, comment: &str)
        ensures
            final(self)@ == add_comment(old(self)@, comment@),
    {
        let mut line = string_from("# ");
        line.append(comment);
        line.append(" #");
        self.add_line(line.as_str());
    }

    /// An unknown value of type `yul_type` is now on top.
    fn add_unknown(&mut self, yul_type: YulType)
        ensures
            final(self)@ == add_unknown(old(self)@, yul_type),
    {
        self.stack.insert(0, StackValue { typed_identifier: None, yul_type });
        proof {
            assert(stack_view(self.stack@) =~= seq![unknown(yul_type)] + stack_view(old(self).stack@));
        }
    }

    /// The top value is now variable `t`.
    fn top_is_var(&mut self, t: TypedIdentifier) -> (ok: bool)
        ensures
            ok == !top_is_var(old(self)@, typed_view(t)).failed,
            ok ==> final(self)@ == top_is_var(old(self)@, typed_view(t)),
    {
        if self.stack.len() == 0 {
            return false;
        }
        let ghost tv = typed_view(t);
        let yul_type = self.stack[0].yul_type;
        self.stack.set(0, StackValue { typed_identifier: Some(t), yul_type });
        proof {
            assert(stack_view(self.stack@) =~= stack_view(old(self).stack@).update(
                0,
                SValue { id: Some(tv), ..stack_view(old(self).stack@)[0] },
            ));
        }
        true
    }

    /// The top `n` values are consumed.
    fn consume(&mut self, n: usize) -> (ok: bool)
        ensures
            ok == !consume(old(self)@, n as nat).failed,
            ok ==> final(self)@ == consume(old(self)@, n as nat),
    {
        if self.stack.len() < n {
            return false;
        }
        let mut i: usize = 0;
        while i < n
            invariant
                i <= n,
                n <= old(self).stack.len(),
                self.stack@ =~= old(self).stack@.skip(i as int),
                self.variables == old(self).variables,
                self.indentation == old(self).indentation,
                self.next_open_memory_address == old(self).next_open_memory_address,
                self.program == old(self).program,
                self.user_functions == old(self).user_functions,
                self.scoped_identifiers == old(self).scoped_identifiers,
                self.branches == old(self).branches,
                self.accept_overflow == old(self).accept_overflow,
                self.memory_offset == old(self).memory_offset,
                self.procs_used == old(self).procs_used,
            decreases n - i,
        {
            self.stack.remove(0);
            i = i + 1;
        }
        proof {
            assert(stack_view(self.stack@) =~= stack_view(old(self).stack@).skip(n as int));
        }
        true
    }

    /// `line` added `n` times.
    fn add_lines(&mut self, line: &str, n: u32)
        ensures
            final(self)@ == add_lines(old(self)@, line@, n as nat),
    {
        let mut i: u32 = 0;
        while i < n
            invariant
                i <= n,
                self@ == add_lines(old(self)@, line@, i as nat),
            decreases n - i,
        {
            self.add_line(line);
            i = i + 1;
        }
    }

    /// Copies the value of type `yul_type` that starts `offset` elements
    /// below the top to the top.
    #[verifier::rlimit(30)]
    fn dup_from_offset(&mut self, offset: u32, yul_type: YulType) -> (ok: bool)
        ensures
            ok == !dup_from_offset(old(self)@, offset, yul_type).failed,
            ok ==> final(self)@ == dup_from_offset(old(self)@, offset, yul_type),
            ok ==> final(self)@ == (TState { program: final(self)@.program, ..old(self)@ }),
    {
        match yul_type {
            YulType::U32 => {
                let line = numbered("dup.", offset as u64);
                self.add_line(line.as_str());
                true
            },
            YulType::U256 => {
                if offset > u32::MAX - 7 {
                    return false;
                }
                if offset == 0 {
                    self.add_line("dupw.1");
                    self.add_line("dupw.1");
                } else if offset == 4 {
                    self.add_line("dupw.2");
                    self.add_line("dupw.2");
                } else if offset == 8 {
                    self.add_line("dupw.3");
                    self.add_line("dupw.3");
                } else {
                    let line = numbered("dup.", (offset + 7) as u64);
                    proof {
                        lemma_add_lines(self@, line@, 8);
                    }
                    self.add_lines(line.as_str(), 8);
                }
                true
            },
        }
    }

    /// Moves the value of type `yul_type` that starts `offset` elements below
    /// the top to the top.
    fn move_from_offset(&mut self, offset: u32, yul_type: YulType) -> (ok: bool)
        ensures
            ok == !move_from_offset(old(self)@, offset, yul_type).failed,
            ok ==> final(self)@ == move_from_offset(old(self)@, offset, yul_type),
            ok ==> final(self)@ == (TState { program: final(self)@.program, ..old(self)@ }),
    {
        match yul_type {
            YulType::U32 => {
                if offset == 0 {
                } else if offset == 1 {
                    self.add_line("swap");
                } else {
                    let line = numbered("movup.", offset as u64);
                    self.add_line(line.as_str());
                }
                true
            },
            YulType::U256 => {
                if offset == 1 {
                    self.add_line("movdn.8");
                } else if offset == 8 {
                    self.add_line("movupw.3");
                    self.add_line("movupw.3");
                } else {
                    if offset > u32::MAX - 7 {
                        return false;
                    }
                    let line = numbered("movup.", (offset + 7) as u64);
                    proof {
                        lemma_add_lines(self@, line@, 8);
                    }
                    self.add_lines(line.as_str(), 8);
                }
                true
            },
        }
    }

    /// The address at which value `v` is stored: its variable's, or a fresh
    /// one (recorded for its variable).
    fn allocate(&mut self, v: &StackValue) -> (r: Option<u32>)
        ensures
            r is Some == !allocate(old(self)@, slot_view(*v)).0.failed,
            r matches Some(a) ==> final(self)@ == allocate(old(self)@, slot_view(*v)).0 && a == allocate(
                old(self)@,
                slot_view(*v),
            ).1,
    {
        let width = v.yul_type.miden_memory_addresses();
        match &v.typed_identifier {
            Some(t) => match self.address_of(t) {
                Some(a) => Some(a),
                None => {
                    if self.next_open_memory_address > u32::MAX - width {
                        return None;
                    }
                    let a = self.next_open_memory_address;
                    let ghost vars0 = self.variables@;
                    self.variables.push((clone_typed(t), a));
                    self.next_open_memory_address = a + width;
                    proof {
                        assert(self.variables@.drop_last() =~= vars0);
                    }
                    Some(a)
                },
            },
            None => {
                if self.next_open_memory_address > u32::MAX - width {
                    return None;
                }
                let a = self.next_open_memory_address;
                self.next_open_memory_address = a + width;
                Some(a)
            },
        }
    }

    /// Pops the top value into memory, at `address` or else at its allocated
    /// address; returns the address used.
    fn pop_top_stack_value_to_memory(&mut self, address: Option<u32>) -> (r: Option<u32>)
        ensures
            r is Some == !pop_top_to_memory(old(self)@, address).0.failed,
            r matches Some(a) ==> final(self)@ == pop_top_to_memory(old(self)@, address).0 && a
                == pop_top_to_memory(old(self)@, address).1,
    {
        if self.stack.len() == 0 {
            return None;
        }
        let v = copy_slot(&self.stack[0]);
        let allocated = match self.allocate(&v) {
            Some(a) => a,
            None => {
                return None;
            },
        };
        let a = match address {
            Some(a) => a,
            None => allocated,
        };
        let mut comment = string_from("popping ");
        match &v.typed_identifier {
            Some(t) => comment.append(t.identifier.as_str()),
            None => comment.append("unknown"),
        }
        comment.append(" from top of stack to memory");
        self.add_comment(comment.as_str());
        let ghost st2 = self@;
        proof {
            assert(stack_view(self.stack@).len() == self.stack@.len());
            assert(st2.stack.len() == old(self)@.stack.len());
        }
        self.stack.remove(0);
        proof {
            assert(stack_view(self.stack@) =~= st2.stack.skip(1));
        }
        match v.yul_type {
            YulType::U32 => {
                let line = numbered("pop.mem.", a as u64);
                self.add_line(line.as_str());
            },
            YulType::U256 => {
                if a > u32::MAX - 1 {
                    return None;
                }
                let line = numbered("popw.mem.", a as u64);
                self.add_line(line.as_str());
                let line2 = numbered("popw.mem.", (a + 1) as u64);
                self.add_line(line2.as_str());
            },
        }
        self.newline();
        Some(a)
    }

    /// Loads a value of type `yul_type` from `address` onto the top.
    fn push_from_memory_to_top_of_stack(&mut self, address: u32, yul_type: YulType) -> (ok: bool)
        ensures
            ok == !push_from_memory(old(self)@, address, yul_type).failed,
            ok ==> final(self)@ == push_from_memory(old(self)@, address, yul_type),
    {
        match yul_type {
            YulType::U32 => {
                let line = numbered("push.mem.", address as u64);
                self.add_line(line.as_str());
            },
            YulType::U256 => {
                if address > u32::MAX - 1 {
                    return false;
                }
                let line = numbered("pushw.mem.", (address + 1) as u64);
                self.add_line(line.as_str());
                let line2 = numbered("pushw.mem.", address as u64);
                self.add_line(line2.as_str());
            },
        }
        self.add_unknown(yul_type);
        self.newline();
        true
    }

    /// Loads variable `t` from its memory address onto the top.
    fn load_identifier_from_memory(&mut self, t: &TypedIdentifier) -> (ok: bool)
        ensures
            ok == !load_from_memory(old(self)@, typed_view(*t)).failed,
            ok ==> final(self)@ == load_from_memory(old(self)@, typed_view(*t)),
    {
        let mut comment = string_from("push ");
        comment.append(t.identifier.as_str());
        comment.append(" from memory to top of stack");
        self.add_comment(comment.as_str());
        let address = match self.address_of(t) {
            Some(a) => a,
            None => {
                return false;
            },
        };
        if !self.push_from_memory_to_top_of_stack(address, t.yul_type) {
            return false;
        }
        self.top_is_var(clone_typed(t))
    }

    /// Moves the bottom slot's variable to the top and stores it in memory.
    fn pop_bottom_var_to_memory(&mut self) -> (ok: bool)
        ensures
            ok == !pop_bottom_to_memory(old(self)@).failed,
            ok ==> final(self)@ == pop_bottom_to_memory(old(self)@),
    {
        let ghost st0 = self@;
        let n = self.stack.len();
        if n == 0 {
            return false;
        }
        let v = copy_slot(&self.stack[n - 1]);
        let t = match &v.typed_identifier {
            Some(t) => clone_typed(t),
            None => {
                return false;
            },
        };
        proof {
            assert(stack_view(self.stack@).take(n - 1) =~= stack_view(self.stack@).drop_last());
        }
        let above = match size_of_slots(&self.stack, n - 1) {
            Some(x) => x,
            None => {
                return false;
            },
        };
        let mut comment = string_from("Moving ");
        comment.append(t.identifier.as_str());
        comment.append(" to top of stack, ");
        append_u64(&mut comment, above as u64);
        comment.append(" values above");
        self.add_comment(comment.as_str());
        if !self.move_from_offset(above, v.yul_type) {
            return false;
        }
        let ghost st2 = self@;
        proof {
            assert(stack_view(self.stack@).len() == self.stack@.len());
            assert(st2.stack == st0.stack);
            assert(st0.stack.len() == n);
        }
        self.stack.pop();
        self.stack.insert(0, v);
        proof {
            assert(stack_view(self.stack@) =~= seq![slot_view(v)] + st2.stack.drop_last());
        }
        match self.pop_top_stack_value_to_memory(None) {
            Some(_) => true,
            None => false,
        }
    }

    /// Stores bottom variables to memory until a value of type `yul_type`
    /// fits in the 16 reachable stack elements (unless overflow is accepted,
    /// or the bottom value is unknown).
    fn prepare_for_stack_values(&mut self, yul_type: YulType) -> (ok: bool)
        ensures
            ok == !prepare_for(old(self)@, yul_type).failed,
            ok ==> final(self)@ == prepare_for(old(self)@, yul_type),
    {
        proof {
            reveal(prepare_for);
        }
        let w = yul_type.miden_stack_width();
        loop
            invariant
                prepare_for(self@, yul_type) == prepare_for(old(self)@, yul_type),
                w == spec_stack_width(yul_type),
            decreases self.stack.len(),
        {
            proof {
                reveal(prepare_for);
            }
            if self.accept_overflow {
                return true;
            }
            let n = self.stack.len();
            proof {
                assert(stack_view(self.stack@).take(n as int) =~= stack_view(self.stack@));
            }
            let too_large = match size_of_slots(&self.stack, n) {
                None => true,
                Some(x) => x > 16 - w,
            };
            if !too_large {
                return true;
            }
            let mut comment = string_from("stack would be too large after ");
            let name = yul_type.to_string();
            comment.append(name.as_str());
            comment.append(", popping to memory");
            self.add_comment(comment.as_str());
            if n == 0 {
                return false;
            }
            if self.stack[n - 1].typed_identifier.is_none() {
                return true;
            }
            if !self.indent() {
                return false;
            }
            if !self.pop_bottom_var_to_memory() {
                return false;
            }
            if !self.outdent() {
                return false;
            }
            if self.stack.len() >= n {
                return false;
            }
        }
    }

    /// The first slot holding variable `t`.
    fn find_slot(&self, t: &TypedIdentifier) -> (r: Option<usize>)
        ensures
            match find_slot(self@.stack, typed_view(*t)) {
                Some(i) => r matches Some(k) && k as nat == i,
                None => r is None,
            },
            r matches Some(i) ==> i < self@.stack.len(),
    {
        let ghost v = self@.stack;
        let mut i: usize = 0;
        while i < self.stack.len()
            invariant
                i <= self.stack.len(),
                v == stack_view(self.stack@),
                forall|j: int| 0 <= j < i ==> (#[trigger] v[j]).id != Some(typed_view(*t)),
            decreases self.stack.len() - i,
        {
            if holds(&self.stack[i], t) {
                proof {
                    lemma_find_slot(v, typed_view(*t), i as int);
                }
                return Some(i);
            }
            i = i + 1;
        }
        proof {
            lemma_find_slot(v, typed_view(*t), i as int);
        }
        None
    }

    /// Brings variable `t` to the top: copied (`dup`) or moved from its slot,
    /// or loaded from memory when no slot holds it.
    fn move_identifier_to_top(&mut self, t: &TypedIdentifier, dup: bool) -> (ok: bool)
        ensures
            ok == !move_identifier_to_top(old(self)@, typed_view(*t), dup).failed,
            ok ==> final(self)@ == move_identifier_to_top(old(self)@, typed_view(*t), dup),
    {
        proof {
            reveal(move_identifier_to_top);
        }
        if !self.prepare_for_stack_values(t.yul_type) {
            return false;
        }
        match self.find_slot(t) {
            Some(i) => {
                let offset = match size_of_slots(&self.stack, i) {
                    Some(x) => x,
                    None => {
                        return false;
                    },
                };
                let vty = self.stack[i].yul_type;
                let mut comment = string_from("pushing ");
                comment.append(t.identifier.as_str());
                comment.append(" to the top");
                self.add_comment(comment.as_str());
                if !self.indent() {
                    return false;
                }
                if dup {
                    self.add_unknown(t.yul_type);
                    if !self.dup_from_offset(offset, vty) {
                        return false;
                    }
                } else {
                    let ghost st2 = self@;
                    proof {
                        assert(stack_view(self.stack@).len() == self.stack@.len());
                    }
                    self.stack.remove(i);
                    self.stack.insert(0, StackValue { typed_identifier: Some(clone_typed(t)), yul_type: t.yul_type });
                    proof {
                        assert(stack_view(self.stack@) =~= seq![holding(typed_view(*t))] + st2.stack.remove(i as int));
                    }
                    if !self.move_from_offset(offset, vty) {
                        return false;
                    }
                }
                self.outdent()
            },
            None => {
                proof {
                    assert(stack_view(self.stack@).take(self.stack.len() as int) =~= stack_view(self.stack@));
                }
                match size_of_slots(&self.stack, self.stack.len()) {
                    Some(_) => {},
                    None => {
                        return false;
                    },
                }
                self.load_identifier_from_memory(t)
            },
        }
    }

    /// Stores variable `t` in memory.
    fn update_identifier_in_memory(&mut self, t: &TypedIdentifier) -> (ok: bool)
        ensures
            ok == !update_identifier_in_memory(old(self)@, typed_view(*t)).failed,
            ok ==> final(self)@ == update_identifier_in_memory(old(self)@, typed_view(*t)),
    {
        if !self.move_identifier_to_top(t, false) {
            return false;
        }
        match self.pop_top_stack_value_to_memory(None) {
            Some(_) => true,
            None => false,
        }
    }
}

proof fn lemma_find_slot(s: Seq<SValue>, t: STyped, i: int)
    requires
        0 <= i <= s.len(),
        forall|j: int| 0 <= j < i ==> (#[trigger] s[j]).id != Some(t),
    ensures
        i < s.len() && s[i].id == Some(t) ==> find_slot(s, t) == Some(i as nat),
        i == s.len() ==> find_slot(s, t) is None,
    decreases i,
{
    if i > 0 {
        assert forall|j: int| 0 <= j < i - 1 implies (#[trigger] s.skip(1)[j]).id != Some(t) by {
            assert(s.skip(1)[j] == s[j + 1]);
        }
        lemma_find_slot(s.skip(1), t, i - 1);
        assert(s[0].id != Some(t));
    }
}

impl Transpiler {
    /// Brings each variable of `target` to the top, from its last slot to
    /// its first, then keeps as many slots as `target` has: the stack is laid
    /// out as `target` again.
    fn target_stack(&mut self, target: &Vec<StackValue>) -> (ok: bool)
        ensures
            ok == !target_stack(old(self)@, stack_view(target@)).failed,
            ok ==> final(self)@ == target_stack(old(self)@, stack_view(target@)),
    {
        proof {
            reveal(target_stack);
        }
        let ghost tv = stack_view(target@);
        let mut i = target.len();
        proof {
            assert(tv.take(i as int) =~= tv);
        }
        while i > 0
            invariant
                i <= target.len(),
                tv == stack_view(target@),
                target_moves(self@, tv.take(i as int)) == target_moves(old(self)@, tv),
            decreases i,
        {
            proof {
                reveal(target_stack);
                assert(tv.take(i as int).drop_last() =~= tv.take(i - 1));
                assert(tv.take(i as int).last() == slot_view(target@[i - 1]));
            }
            match &target[i - 1].typed_identifier {
                None => {
                    return false;
                },
                Some(t) => {
                    let t = clone_typed(t);
                    let ghost prev = self@;
                    if !self.move_identifier_to_top(&t, false) {
                        proof {
                            lemma_target_moves_failed(move_identifier_to_top(prev, typed_view(t), false), tv.take(i - 1));
                        }
                        return false;
                    }
                },
            }
            i = i - 1;
        }
        proof {
            assert(tv.take(0) =~= Seq::<SValue>::empty());
        }
        if self.stack.len() > target.len() {
            let ghost st1 = self@;
            self.stack.truncate(target.len());
            proof {
                assert(stack_view(self.stack@) =~= st1.stack.take(target.len() as int));
            }
        }
        true
    }

    /// Enters a branch: remembers the stack.
    fn begin_branch(&mut self)
        ensures
            final(self)@ == begin_branch(old(self)@),
    {
        let before = copy_stack(&self.stack);
        let ghost b0 = self.branches@;
        self.branches.push(Branch { modified_identifiers: Vec::new(), stack_before: before });
        proof {
            assert(typeds_view(Seq::<TypedIdentifier>::empty()) =~= Seq::<STyped>::empty());
            assert(self.branches@.map_values(|b: Branch| branch_view(b)) =~= b0.map_values(|b: Branch| branch_view(b)).push(
                SBranch { modified: Seq::empty(), before: old(self)@.stack },
            ));
        }
    }

    /// Records that variable `t` is assigned in the innermost branch.
    fn note_modified(&mut self, t: &TypedIdentifier)
        ensures
            final(self)@ == note_modified(old(self)@, typed_view(*t)),
    {
        let n = self.branches.len();
        if n == 0 {
            return;
        }
        let ghost bv0 = self@.branches;
        proof {
            assert(bv0[n - 1] == branch_view(self.branches@[n - 1]));
        }
        if contains_typed(&self.branches[n - 1].modified_identifiers, t) {
            return;
        }
        let mut b = self.branches.pop().unwrap();
        proof {
            assert(branch_view(b) == bv0.last());
        }
        let ghost mv = typeds_view(b.modified_identifiers@);
        b.modified_identifiers.push(clone_typed(t));
        proof {
            assert(typeds_view(b.modified_identifiers@) =~= mv.push(typed_view(*t)));
        }
        self.branches.push(b);
        proof {
            assert(self@.branches =~= bv0.update(
                n - 1,
                SBranch { modified: bv0.last().modified.push(typed_view(*t)), ..bv0.last() },
            ));
        }
    }

    /// Stores in memory the variables of `modified` (from the first) that
    /// `before` does not hold.
    fn store_modified(&mut self, modified: &Vec<TypedIdentifier>, before: &Vec<StackValue>) -> (ok: bool)
        ensures
            ok == !store_modified(old(self)@, typeds_view(modified@), stack_view(before@)).failed,
            ok ==> final(self)@ == store_modified(old(self)@, typeds_view(modified@), stack_view(before@)),
    {
        let ghost m = typeds_view(modified@);
        let ghost b = stack_view(before@);
        let mut i: usize = 0;
        proof {
            assert(m.take(0) =~= Seq::<STyped>::empty());
        }
        while i < modified.len()
            invariant
                i <= modified.len(),
                m == typeds_view(modified@),
                b == stack_view(before@),
                self@ == store_modified(old(self)@, m.take(i as int), b),
            decreases modified.len() - i,
        {
            proof {
                assert(m.take(i + 1).drop_last() =~= m.take(i as int));
                assert(m.take(i + 1).last() == typed_view(modified@[i as int]));
            }
            if !any_holds(before, &modified[i]) {
                if !self.update_identifier_in_memory(&modified[i]) {
                    proof {
                        lemma_store_modified_extends(old(self)@, m, b, i + 1);
                    }
                    return false;
                }
            }
            i = i + 1;
        }
        proof {
            assert(m.take(modified.len() as int) =~= m);
        }
        true
    }

    /// Leaves a branch: stores what it assigned that is not on the stack
    /// before it, and lays the stack out as it was before it.
    fn end_branch(&mut self) -> (ok: bool)
        ensures
            ok == !end_branch(old(self)@).failed,
            ok ==> final(self)@ == end_branch(old(self)@),
    {
        proof {
            reveal(end_branch);
        }
        if self.branches.len() == 0 {
            return false;
        }
        let ghost bs0 = self.branches@;
        let b = self.branches.pop().unwrap();
        proof {
            assert(self.branches@.map_values(|x: Branch| branch_view(x)) =~= bs0.map_values(|x: Branch| branch_view(x)).drop_last());
            assert(branch_view(b) == bs0.map_values(|x: Branch| branch_view(x)).last());
        }
        self.add_comment("cleaning up after branch");
        let ghost s1 = self@;
        if !self.indent() {
            proof {
                lemma_store_modified_failed(indent(s1), branch_view(b).modified, branch_view(b).before);
                lemma_t_failed(store_modified(indent(s1), branch_view(b).modified, branch_view(b).before));
            }
            return false;
        }
        let ghost s2 = self@;
        if !self.store_modified(&b.modified_identifiers, &b.stack_before) {
            proof {
                lemma_t_failed(store_modified(s2, branch_view(b).modified, branch_view(b).before));
            }
            return false;
        }
        if !self.target_stack(&b.stack_before) {
            return false;
        }
        self.outdent()
    }

    /// Pushes a number as a `u32`.
    fn push(&mut self, value: U256) -> (ok: bool)
        ensures
            ok == !push_u32(old(self)@, value).failed,
            ok ==> final(self)@ == push_u32(old(self)@, value),
    {
        proof {
            reveal(push_u32);
        }
        if !self.prepare_for_stack_values(YulType::U32) {
            return false;
        }
        self.add_unknown(YulType::U32);
        let digits = value.to_decimal_string();
        let mut comment = string_from("u32 literal ");
        comment.append(digits.as_str());
        self.add_comment(comment.as_str());
        let mut line = string_from("push.");
        line.append(digits.as_str());
        self.add_line(line.as_str());
        self.newline();
        true
    }

    /// Pushes a number as a `u256`: eight elements.
    fn push_u256(&mut self, value: U256) -> (ok: bool)
        ensures
            ok == !push_u256(old(self)@, value).failed,
            ok ==> final(self)@ == push_u256(old(self)@, value),
    {
        proof {
            reveal(push_u256);
        }
        if !self.prepare_for_stack_values(YulType::U256) {
            return false;
        }
        let digits = value.to_decimal_string();
        let mut comment = string_from("u256 literal: ");
        comment.append(digits.as_str());
        self.add_comment(comment.as_str());
        self.add_unknown(YulType::U256);
        let pushes = convert_u256_to_pushes(&value);
        self.add_line(pushes.as_str());
        self.newline();
        true
    }

    /// Drops the top value.
    fn drop_top_stack_value(&mut self) -> (ok: bool)
        ensures
            ok == !drop_top(old(self)@).failed,
            ok ==> final(self)@ == drop_top(old(self)@),
    {
        self.add_comment("dropping top stack value");
        if self.stack.len() == 0 {
            return false;
        }
        let ghost st1 = self@;
        let v = self.stack.remove(0);
        proof {
            assert(stack_view(self.stack@) =~= st1.stack.skip(1));
        }
        match v.yul_type {
            YulType::U32 => {
                self.add_line("drop");
            },
            YulType::U256 => {
                self.add_line("dropw");
                self.add_line("dropw");
            },
        }
        self.newline();
        true
    }

    /// Pushes a user function's final stack on top of the current one.
    fn add_function_stack(&mut self, function_stack: &Vec<StackValue>)
        ensures
            final(self)@ == add_function_stack(old(self)@, stack_view(function_stack@)),
    {
        let mut fs = copy_stack(function_stack);
        let ghost s0 = self.stack@;
        let ghost f0 = fs@;
        fs.append(&mut self.stack);
        self.stack = fs;
        proof {
            assert(stack_view(self.stack@) =~= stack_view(f0) + stack_view(s0));
        }
    }

    /// Leaves only the return values on the stack: stores them at addresses
    /// 0, 2, 4, ..., drops every element, and loads them back.
    fn drop_after_returns(&mut self, rets: &Vec<TypedIdentifier>) -> (ok: bool)
        ensures
            ok == !drop_after_returns(old(self)@, typeds_view(rets@)).failed,
            ok ==> final(self)@ == drop_after_returns(old(self)@, typeds_view(rets@)),
    {
        let ghost rv = typeds_view(rets@);
        let n = rets.len();
        let mut k: usize = 0;
        while k < n
            invariant
                k <= n,
                n == rets.len(),
                rv == typeds_view(rets@),
                self@ == store_returns(old(self)@, k as nat),
            decreases n - k,
        {
            if k > 0x7fff_ffff {
                proof {
                    lemma_store_returns_extends(old(self)@, (k + 1) as nat, n as nat);
                }
                return false;
            }
            let address: u32 = (2 * k) as u32;
            match self.pop_top_stack_value_to_memory(Some(address)) {
                Some(_) => {},
                None => {
                    proof {
                        lemma_store_returns_extends(old(self)@, (k + 1) as nat, n as nat);
                    }
                    return false;
                },
            }
            k = k + 1;
        }
        let ghost st1 = self@;
        proof {
            assert(stack_view(self.stack@).take(self.stack.len() as int) =~= stack_view(self.stack@));
        }
        let size = match size_of_slots(&self.stack, self.stack.len()) {
            Some(x) => x,
            None => {
                return false;
            },
        };
        let mut left: u32 = size;
        while left > 0
            invariant
                drop_elements(self@, left as nat) == drop_elements(st1, size as nat),
                !self@.failed,
            decreases left,
        {
            if left > 3 {
                self.add_line("dropw");
                left = left - 4;
            } else {
                self.add_line("drop");
                left = left - 1;
            }
        }
        self.stack.clear();
        proof {
            assert(stack_view(self.stack@) =~= Seq::<SValue>::empty());
        }
        let ghost st3 = self@;
        let mut i: usize = 0;
        proof {
            assert(rv.take(0) =~= Seq::<STyped>::empty());
        }
        while i < n
            invariant
                i <= n,
                n == rets.len(),
                rv == typeds_view(rets@),
                self@ == load_returns(st3, rv.take(i as int), n as nat),
            decreases n - i,
        {
            proof {
                assert(rv.take(i + 1).drop_last() =~= rv.take(i as int));
                assert(rv.take(i + 1).last() == typed_view(rets@[i as int]));
            }
            if n - (i + 1) > 0x7fff_ffff {
                proof {
                    lemma_load_returns_extends(st3, rv, n as nat, i + 1);
                }
                return false;
            }
            let address: u32 = (2 * (n - (i + 1))) as u32;
            if !self.push_from_memory_to_top_of_stack(address, rets[i].yul_type) {
                proof {
                    lemma_load_returns_extends(st3, rv, n as nat, i + 1);
                }
                return false;
            }
            i = i + 1;
        }
        proof {
            assert(rv.take(n as int) =~= rv);
        }
        true
    }
}

/// Whether `ts` holds variable `t`.
fn contains_typed(ts: &Vec<TypedIdentifier>, t: &TypedIdentifier) -> (r: bool)
    ensures
        r == typeds_view(ts@).contains(typed_view(*t)),
{
    let ghost v = typeds_view(ts@);
    let mut i: usize = 0;
    while i < ts.len()
        invariant
            i <= ts.len(),
            v == typeds_view(ts@),
            forall|j: int| 0 <= j < i ==> v[j] != typed_view(*t),
        decreases ts.len() - i,
    {
        if same_typed(&ts[i], t) {
            proof {
                assert(v[i as int] == typed_view(*t));
            }
            return true;
        }
        i = i + 1;
    }
    false
}

/// A failed state stays failed through the moves of a target stack.
proof fn lemma_target_moves_failed(st: TState, target: Seq<SValue>)
    requires
        st.failed,
    ensures
        target_moves(st, target) == st,
{
}

/// A failed state stays failed through the stores of a branch's variables.
proof fn lemma_store_modified_failed(st: TState, m: Seq<STyped>, b: Seq<SValue>)
    requires
        st.failed,
    ensures
        store_modified(st, m, b).failed,
    decreases m.len(),
{
    if m.len() > 0 {
        lemma_store_modified_failed(st, m.drop_last(), b);
        lemma_t_failed(store_modified(st, m.drop_last(), b));
    }
}

/// Whether a slot of `before` holds variable `t`.
fn any_holds(before: &Vec<StackValue>, t: &TypedIdentifier) -> (r: bool)
    ensures
        r == slot_holds(stack_view(before@), typed_view(*t)),
{
    let ghost b = stack_view(before@);
    let mut i: usize = 0;
    while i < before.len()
        invariant
            i <= before.len(),
            b == stack_view(before@),
            forall|j: int| 0 <= j < i ==> (#[trigger] b[j]).id != Some(typed_view(*t)),
        decreases before.len() - i,
    {
        if holds(&before[i], t) {
            proof {
                assert(b[i as int].id == Some(typed_view(*t)));
            }
            return true;
        }
        i = i + 1;
    }
    false
}

proof fn lemma_store_modified_extends(st: TState, m: Seq<STyped>, b: Seq<SValue>, i: int)
    requires
        0 <= i <= m.len(),
        store_modified(st, m.take(i), b).failed,
    ensures
        store_modified(st, m, b).failed,
    decreases m.len() - i,
{
    if i < m.len() {
        assert(m.drop_last().take(i) =~= m.take(i));
        lemma_store_modified_extends(st, m.drop_last(), b, i);
        lemma_t_failed(store_modified(st, m.drop_last(), b));
    } else {
        assert(m.take(i) =~= m);
    }
}

proof fn lemma_store_returns_extends(st: TState, k: nat, n: nat)
    requires
        k <= n,
        store_returns(st, k).failed,
    ensures
        store_returns(st, n).failed,
    decreases n - k,
{
    if k < n {
        lemma_store_returns_extends(st, k, (n - 1) as nat);
    }
}

proof fn lemma_load_returns_extends(st: TState, rets: Seq<STyped>, n: nat, i: int)
    requires
        0 <= i <= rets.len(),
        load_returns(st, rets.take(i), n).failed,
    ensures
        load_returns(st, rets, n).failed,
    decreases rets.len() - i,
{
    if i < rets.len() {
        assert(rets.drop_last().take(i) =~= rets.take(i));
        lemma_load_returns_extends(st, rets.drop_last(), n, i);
    } else {
        assert(rets.take(i) =~= rets);
    }
}

/// `prefix` followed by the decimal digits of `n`.
fn numbered(prefix: &str, n: u64) -> (r: String)
    ensures
        r@ == prefix@ + nat_to_dec(n as nat),
{
    let mut r = string_from(prefix);
    append_u64(&mut r, n);
    r
}

proof fn lemma_stack_size_step(s: Seq<SValue>, i: int)
    requires
        0 <= i < s.len(),
    ensures
        stack_size(s.take(i + 1)) == stack_size(s.take(i)) + spec_stack_width(s[i].ty),
{
    assert(s.take(i + 1).drop_last() =~= s.take(i));
}

proof fn lemma_stack_size_monotone(s: Seq<SValue>, i: int, j: int)
    requires
        0 <= i <= j <= s.len(),
    ensures
        stack_size(s.take(i)) <= stack_size(s.take(j)),
    decreases j - i,
{
    if i < j {
        lemma_stack_size_step(s, j - 1);
        lemma_stack_size_monotone(s, i, j - 1);
    }
}

/// The number of stack elements the first `n` slots take, when it fits in
/// a `u32`.
fn size_of_slots(s: &Vec<StackValue>, n: usize) -> (r: Option<u32>)
    requires
        n <= s.len(),
    ensures
        r is Some <==> stack_size(stack_view(s@).take(n as int)) <= u32::MAX,
        r matches Some(x) ==> x == stack_size(stack_view(s@).take(n as int)),
{
    let ghost v = stack_view(s@);
    let mut sum: u32 = 0;
    let mut i: usize = 0;
    proof {
        assert(v.take(0) =~= Seq::<SValue>::empty());
    }
    while i < n
        invariant
            i <= n,
            n <= s.len(),
            v == stack_view(s@),
            sum == stack_size(v.take(i as int)),
        decreases n - i,
    {
        proof {
            lemma_stack_size_step(v, i as int);
        }
        let w = s[i].yul_type.miden_stack_width();
        if sum > u32::MAX - w {
            proof {
                lemma_stack_size_monotone(v, i + 1, n as int);
            }
            return None;
        }
        sum = sum + w;
        i = i + 1;
    }
    Some(sum)
}


/// A failed state is left as it is by every generation step.
proof fn lemma_t_failed(st: TState)
    requires
        st.failed,
    ensures
        forall|e: SExpr| #[trigger] t_op(st, e) == st,
        forall|es: Seq<SExpr>| #[trigger] t_block(st, es) == st,
        forall|cs: Seq<SCase>, ty: Option<YulType>, target: STyped| #[trigger] t_cases(st, cs, ty, target) == st,
        forall|c: SCase, ty: Option<YulType>, target: STyped| #[trigger] t_case(st, c, ty, target) == st,
        forall|t: STyped, dup: bool| #[trigger] move_identifier_to_top(st, t, dup) == st,
        forall|v: U256| #[trigger] push_u32(st, v) == st,
        forall|v: U256| #[trigger] push_u256(st, v) == st,
        forall|t: YulType| #[trigger] prepare_for(st, t) == st,
        forall|target: Seq<SValue>| #[trigger] target_stack(st, target) == st,
        end_branch(st) == st,
{
    reveal(move_identifier_to_top);
    reveal(push_u32);
    reveal(push_u256);
    reveal(prepare_for);
    reveal(target_stack);
    reveal(end_branch);
    assert forall|e: SExpr| #[trigger] t_op(st, e) == st by {}
    assert forall|es: Seq<SExpr>| #[trigger] t_block(st, es) == st by {}
    assert forall|cs: Seq<SCase>, ty: Option<YulType>, target: STyped| #[trigger] t_cases(st, cs, ty, target) == st by {}
    assert forall|t: YulType| #[trigger] prepare_for(st, t) == st by {}
    assert forall|c: SCase, ty: Option<YulType>, target: STyped| #[trigger] t_case(st, c, ty, target) == st by {
        assert(move_identifier_to_top(st, target, true) == st);
        assert(t_block(st, c.block) == st);
    }
    assert forall|t: STyped, dup: bool| #[trigger] move_identifier_to_top(st, t, dup) == st by {}
    assert forall|v: U256| #[trigger] push_u32(st, v) == st by {}
    assert forall|v: U256| #[trigger] push_u256(st, v) == st by {}
    assert forall|target: Seq<SValue>| #[trigger] target_stack(st, target) == st by {
        assert(target_moves(st, target) == st);
    }
}

proof fn lemma_t_block_extends(st: TState, es: Seq<SExpr>, i: int)
    requires
        0 <= i <= es.len(),
        t_block(st, es.take(i)).failed,
    ensures
        t_block(st, es).failed,
    decreases es.len() - i,
{
    if i < es.len() {
        assert(es.drop_last().take(i) =~= es.take(i));
        lemma_t_block_extends(st, es.drop_last(), i);
        lemma_t_failed(t_block(st, es.drop_last()));
        if !st.failed {
            assert(t_block(st, es) == t_op(t_block(st, es.drop_last()), es.last()));
            assert(t_op(t_block(st, es.drop_last()), es.last()) == t_block(st, es.drop_last()));
        }
    } else {
        assert(es.take(i) =~= es);
    }
}

proof fn lemma_t_cases_extends(st: TState, cs: Seq<SCase>, ty: Option<YulType>, target: STyped, i: int)
    requires
        0 <= i <= cs.len(),
        t_cases(st, cs.take(i), ty, target).failed,
    ensures
        t_cases(st, cs, ty, target).failed,
    decreases cs.len() - i,
{
    if i < cs.len() {
        assert(cs.drop_last().take(i) =~= cs.take(i));
        lemma_t_cases_extends(st, cs.drop_last(), ty, target, i);
        lemma_t_failed(t_cases(st, cs.drop_last(), ty, target));
        if !st.failed {
            assert(t_cases(st, cs, ty, target) == t_case(t_cases(st, cs.drop_last(), ty, target), cs.last(), ty, target));
        }
    } else {
        assert(cs.take(i) =~= cs);
    }
}

proof fn lemma_dup_all_extends(st: TState, ts: Seq<STyped>, i: int)
    requires
        0 <= i <= ts.len(),
        dup_all(st, ts.take(i)).failed,
    ensures
        dup_all(st, ts).failed,
    decreases ts.len() - i,
{
    if i < ts.len() {
        assert(ts.drop_last().take(i) =~= ts.take(i));
        lemma_dup_all_extends(st, ts.drop_last(), i);
        lemma_t_failed(dup_all(st, ts.drop_last()));
    } else {
        assert(ts.take(i) =~= ts);
    }
}

proof fn lemma_declare_functions_extends(st: TState, ast: Seq<SExpr>, i: int)
    requires
        0 <= i <= ast.len(),
        declare_functions(st, ast.take(i)).failed,
    ensures
        declare_functions(st, ast).failed,
    decreases ast.len() - i,
{
    if i < ast.len() {
        assert(ast.drop_last().take(i) =~= ast.take(i));
        lemma_declare_functions_extends(st, ast.drop_last(), i);
    } else {
        assert(ast.take(i) =~= ast);
    }
}

/// The type an expression evaluates to, as inference recorded it.
fn expr_type_of(e: &Expr) -> (r: Option<YulType>)
    ensures
        r == expr_type(expr_view(*e)),
{
    match e {
        Expr::Literal(ExprLiteral::Number(n)) => n.inferred_type,
        Expr::FunctionCall(c) => if c.inferred_return_types.len() > 0 {
            c.inferred_return_types[0]
        } else {
            None
        },
        Expr::Variable(v) => v.inferred_type,
        _ => None,
    }
}

impl Transpiler {
    /// Brings variable `t` into scope.
    fn bind(&mut self, t: &TypedIdentifier)
        ensures
            final(self)@ == bind(old(self)@, typed_view(*t)),
    {
        self.scoped_identifiers.insert(copy_string(&t.identifier), clone_typed(t));
        proof {
            assert(self@.scoped_identifiers =~= old(self)@.scoped_identifiers.insert(t.identifier@, typed_view(*t)));
        }
    }

    /// Sets whether values may be pushed below the reachable stack.
    fn set_overflow(&mut self, accept: bool)
        ensures
            final(self)@ == set_overflow(old(self)@, accept),
    {
        self.accept_overflow = accept;
    }

    /// A number literal is pushed as a `u256` when it was inferred to be one,
    /// as a `u32` otherwise; other literals cannot be generated.
    fn transpile_literal(&mut self, literal: &ExprLiteral) -> (ok: bool)
        ensures
            ok == !t_literal(old(self)@, literal_view(*literal)).failed,
            ok ==> final(self)@ == t_literal(old(self)@, literal_view(*literal)),
    {
        match literal {
            ExprLiteral::Number(n) => match n.inferred_type {
                Some(YulType::U256) => self.push_u256(n.value),
                _ => self.push(n.value),
            },
            _ => false,
        }
    }

    /// The start of an assignment to the single variable `names[0]`; returns
    /// the variable.
    fn assign_begin(&mut self, names: &Vec<String>) -> (r: Option<TypedIdentifier>)
        ensures
            r is Some == !assign_begin(old(self)@, names_view(names@)).failed,
            r matches Some(t) ==> final(self)@ == assign_begin(old(self)@, names_view(names@)) && typed_view(t)
                == old(self)@.scoped_identifiers[names_view(names@)[0]],
    {
        if names.len() != 1 {
            return None;
        }
        proof {
            assert(names_view(names@)[0] == names@[0]@);
        }
        let t = match self.scoped_identifiers.get(names[0].as_str()) {
            Some(t) => clone_typed(t),
            None => {
                return None;
            },
        };
        let mut comment = string_from("Assigning to ");
        comment.append(t.identifier.as_str());
        self.add_comment(comment.as_str());
        if !self.indent() {
            return None;
        }
        self.note_modified(&t);
        Some(t)
    }

    /// Generates a sequence of statements, in order.
    fn transpile_block(&mut self, es: &Vec<Expr>) -> (ok: bool)
        ensures
            ok == !t_block(old(self)@, exprs_view(es@)).failed,
            ok ==> final(self)@ == t_block(old(self)@, exprs_view(es@)),
        decreases es, 0nat,
    {
        let ghost v = exprs_view(es@);
        proof {
            lemma_exprs_view(es@);
            assert(v.take(0) =~= Seq::<SExpr>::empty());
        }
        let mut i: usize = 0;
        while i < es.len()
            invariant
                i <= es.len(),
                v == exprs_view(es@),
                v.len() == es.len(),
                forall|j: int| 0 <= j < es.len() ==> #[trigger] v[j] == expr_view(es@[j]),
                self@ == t_block(old(self)@, v.take(i as int)),
            decreases es.len() - i,
        {
            proof {
                assert(v.take(i + 1).drop_last() =~= v.take(i as int));
                assert(v.take(i + 1).last() == v[i as int]);
            }
            if !self.transpile_op(&es[i]) {
                proof {
                    lemma_t_block_extends(old(self)@, v, i + 1);
                }
                return false;
            }
            i = i + 1;
        }
        proof {
            assert(v.take(es.len() as int) =~= v);
        }
        true
    }

    /// Generates one expression or statement.
    fn transpile_op(&mut self, e: &Expr) -> (ok: bool)
        ensures
            ok == !t_op(old(self)@, expr_view(*e)).failed,
            ok ==> final(self)@ == t_op(old(self)@, expr_view(*e)),
        decreases e, 2nat,
    {
        match e {
            Expr::Literal(l) => self.transpile_literal(l),
            Expr::Assignment(a) => self.transpile_assignment(a),
            Expr::DeclareVariable(d) => self.transpile_variable_declaration(d),
            Expr::ForLoop(f) => self.transpile_for_loop(f),
            Expr::Variable(v) => {
                match self.scoped_identifiers.get(v.identifier.as_str()) {
                    Some(t) => {
                        let t = clone_typed(t);
                        self.move_identifier_to_top(&t, true)
                    },
                    None => false,
                }
            },
            Expr::Block(b) => self.transpile_block(&b.exprs),
            Expr::IfStatement(i) => self.transpile_if_statement(i),
            Expr::FunctionCall(c) => self.transpile_miden_function(c),
            Expr::Repeat(r) => self.transpile_repeat(r),
            Expr::FunctionDefinition(_) => true,
            Expr::Break => true,
            Expr::Continue => true,
            Expr::Leave => true,
            Expr::Switch(sw) => self.transpile_switch(sw),
            Expr::Case(_) => false,
        }
    }

    /// `x := rhs`
    fn transpile_assignment(&mut self, a: &ExprAssignment) -> (ok: bool)
        ensures
            ok == !t_assignment(old(self)@, expr_view(Expr::Assignment(*a))).failed,
            ok ==> final(self)@ == t_assignment(old(self)@, expr_view(Expr::Assignment(*a))),
        decreases a, 1nat,
    {
        let t = match self.assign_begin(&a.identifiers) {
            Some(t) => t,
            None => {
                return false;
            },
        };
        if !self.transpile_op(&a.rhs) {
            return false;
        }
        if !self.top_is_var(t) {
            return false;
        }
        self.outdent()
    }

    /// `let x := rhs`
    fn transpile_variable_declaration(&mut self, d: &ExprDeclareVariable) -> (ok: bool)
        ensures
            ok == !t_declaration(old(self)@, expr_view(Expr::DeclareVariable(*d))).failed,
            ok ==> final(self)@ == t_declaration(old(self)@, expr_view(Expr::DeclareVariable(*d))),
        decreases d, 1nat,
    {
        if d.typed_identifiers.len() != 1 {
            return false;
        }
        proof {
            assert(typeds_view(d.typed_identifiers@)[0] == typed_view(d.typed_identifiers@[0]));
        }
        let v0 = clone_typed(&d.typed_identifiers[0]);
        self.bind(&v0);
        let mut comment = string_from("Assigning to ");
        comment.append(v0.identifier.as_str());
        self.add_comment(comment.as_str());
        if !self.indent() {
            return false;
        }
        match &d.rhs {
            Some(r) => {
                if !self.transpile_op(r) {
                    return false;
                }
                if !self.top_is_var(clone_typed(&v0)) {
                    return false;
                }
            },
            None => {},
        }
        self.outdent()
    }

    /// `for { init } cond { after } { body }`: a `while.true` loop that
    /// evaluates the condition before it and again at the end of each round.
    #[verifier::rlimit(60)]
    fn transpile_for_loop(&mut self, f: &ExprForLoop) -> (ok: bool)
        ensures
            ok == !t_for(old(self)@, expr_view(Expr::ForLoop(*f))).failed,
            ok ==> final(self)@ == t_for(old(self)@, expr_view(Expr::ForLoop(*f))),
        decreases f, 1nat,
    {
        let ghost s0 = self@;
        if !self.transpile_block(&f.init_block.exprs) {
            proof {
                lemma_t_failed(t_block(s0, exprs_view(f.init_block.exprs@)));
            }
            return false;
        }
        self.add_comment("-- conditional --");
        let ghost s1 = self@;
        if !self.transpile_op(&f.conditional) {
            proof {
                lemma_t_failed(t_op(s1, expr_view(*f.conditional)));
            }
            return false;
        }
        self.add_line("while.true");
        let ghost s2 = self@;
        if !self.consume(1) {
            proof {
                lemma_t_failed(consume(s2, 1));
            }
            return false;
        }
        let ghost s3 = self@;
        if !self.indent() {
            proof {
                lemma_t_failed(indent(s3));
            }
            return false;
        }
        self.begin_branch();
        self.add_comment("-- interior block --");
        let ghost s4 = self@;
        if !self.indent() {
            proof {
                lemma_t_failed(indent(s4));
            }
            return false;
        }
        let ghost s5 = self@;
        if !self.transpile_block(&f.interior_block.exprs) {
            proof {
                lemma_t_failed(t_block(s5, exprs_view(f.interior_block.exprs@)));
            }
            return false;
        }
        let ghost s6 = self@;
        if !self.outdent() {
            proof {
                lemma_t_failed(outdent(s6));
            }
            return false;
        }
        self.newline();
        self.add_comment("-- after block --");
        let ghost s7 = self@;
        if !self.indent() {
            proof {
                lemma_t_failed(indent(s7));
            }
            return false;
        }
        let ghost s8 = self@;
        if !self.transpile_block(&f.after_block.exprs) {
            proof {
                lemma_t_failed(t_block(s8, exprs_view(f.after_block.exprs@)));
            }
            return false;
        }
        self.newline();
        let ghost s9 = self@;
        if !self.end_branch() {
            proof {
                lemma_t_failed(end_branch(s9));
            }
            return false;
        }
        let ghost s10 = self@;
        if !self.outdent() {
            proof {
                lemma_t_failed(outdent(s10));
            }
            return false;
        }
        self.newline();
        self.add_comment("-- conditional --");
        let ghost s11 = self@;
        if !self.indent() {
            proof {
                lemma_t_failed(indent(s11));
            }
            return false;
        }
        if !self.transpile_op(&f.conditional) {
            return false;
        }
        if !self.outdent() {
            return false;
        }
        self.newline();
        if !self.consume(1) {
            return false;
        }
        if !self.outdent() {
            return false;
        }
        self.add_line("end");
        self.newline();
        true
    }

    /// `if cond { body }`
    fn transpile_if_statement(&mut self, i: &ExprIfStatement) -> (ok: bool)
        ensures
            ok == !t_if(old(self)@, expr_view(Expr::IfStatement(*i))).failed,
            ok ==> final(self)@ == t_if(old(self)@, expr_view(Expr::IfStatement(*i))),
        decreases i, 1nat,
    {
        let ghost s0 = self@;
        if !self.transpile_op(&i.first_expr) {
            proof {
                lemma_t_failed(t_op(s0, expr_view(*i.first_expr)));
            }
            return false;
        }
        let ghost s1 = self@;
        if !self.consume(1) {
            proof {
                lemma_t_failed(consume(s1, 1));
            }
            return false;
        }
        self.add_line("if.true");
        let ghost s2 = self@;
        if !self.indent() {
            proof {
                lemma_t_failed(indent(s2));
            }
            return false;
        }
        self.begin_branch();
        let ghost s3 = self@;
        if !self.transpile_block(&i.second_expr.exprs) {
            proof {
                lemma_t_failed(t_block(s3, exprs_view(i.second_expr.exprs@)));
            }
            return false;
        }
        if !self.end_branch() {
            return false;
        }
        if !self.outdent() {
            return false;
        }
        self.add_line("end");
        true
    }

    /// A block repeated a fixed number of times; the stack is laid out as
    /// before it at the end of each round.
    fn transpile_repeat(&mut self, r: &ExprRepeat) -> (ok: bool)
        ensures
            ok == !t_repeat(old(self)@, expr_view(Expr::Repeat(*r))).failed,
            ok ==> final(self)@ == t_repeat(old(self)@, expr_view(Expr::Repeat(*r))),
        decreases r, 1nat,
    {
        let target = copy_stack(&self.stack);
        let line = numbered("repeat.", r.iterations as u64);
        self.add_line(line.as_str());
        let ghost s1 = self@;
        if !self.indent() {
            proof {
                lemma_t_failed(indent(s1));
            }
            return false;
        }
        let ghost s2 = self@;
        if !self.transpile_block(&r.interior_block.exprs) {
            proof {
                lemma_t_failed(t_block(s2, exprs_view(r.interior_block.exprs@)));
            }
            return false;
        }
        if !self.target_stack(&target) {
            return false;
        }
        if !self.outdent() {
            return false;
        }
        self.add_line("end");
        true
    }

    /// A call of a user function, or of a Miden operation chosen by the
    /// operation's name and the type of its first argument.
    fn transpile_miden_function(&mut self, c: &ExprFunctionCall) -> (ok: bool)
        ensures
            ok == !t_call(old(self)@, c.function_name@, exprs_view(c.exprs@), c.inferred_return_types@, c.inferred_param_types@).failed,
            ok ==> final(self)@ == t_call(
                old(self)@,
                c.function_name@,
                exprs_view(c.exprs@),
                c.inferred_return_types@,
                c.inferred_param_types@,
            ),
        decreases c, 1nat,
    {
        let name = c.function_name.as_str();
        let mut comment = copy_string(&c.function_name);
        comment.append("()");
        self.add_comment(comment.as_str());
        let is_user = match self.user_functions.get(name) {
            Some(_) => true,
            None => false,
        };
        if is_user {
            return self.transpile_user_call(c);
        }
        if c.inferred_param_types.len() == 0 {
            return false;
        }
        let p = c.inferred_param_types[0];
        let p_u256 = match p {
            Some(YulType::U256) => true,
            _ => false,
        };
        let p_u32 = match p {
            Some(YulType::U32) => true,
            _ => false,
        };
        let is_add = str_eq(name, "add");
        let is_mul = str_eq(name, "mul");
        let is_sub = str_eq(name, "sub");
        let is_and = str_eq(name, "and");
        let is_or = str_eq(name, "or");
        let is_xor = str_eq(name, "xor");
        let is_iszero = str_eq(name, "iszero");
        let is_eq = str_eq(name, "eq");
        let is_lt = str_eq(name, "lt");
        let is_gt = str_eq(name, "gt");
        let is_gte = str_eq(name, "gte");
        let is_lte = str_eq(name, "lte");
        let is_div = str_eq(name, "div");
        let is_shl = str_eq(name, "shl");
        let is_shr = str_eq(name, "shr");
        let is_mstore = str_eq(name, "mstore");
        let is_mload = str_eq(name, "mload");
        if p_u256 && (is_add || is_mul || is_sub || is_and || is_or || is_xor) {
            if !self.transpile_u256_op(c, 2, YulType::U256) {
                return false;
            }
            self.procs_used = binop_procs_exec(self.procs_used, name);
            true
        } else if p_u32 && is_mstore {
            self.transpile_mstore(c)
        } else if p_u32 && is_mload {
            self.transpile_mload(c)
        } else if p_u256 && (is_iszero || is_eq || is_lt || is_gt || is_gte || is_lte) {
            let arity: usize = if is_iszero { 1 } else { 2 };
            if !self.transpile_u256_op(c, arity, YulType::U32) {
                return false;
            }
            self.procs_used = comparison_procs_exec(self.procs_used, name);
            true
        } else if p_u256 && (is_shl || is_shr) {
            if !self.transpile_u256_op(c, 1, YulType::U256) {
                return false;
            }
            self.procs_used = shift_procs_exec(self.procs_used, name);
            true
        } else if !p_u256 && (is_add || is_sub || is_mul || is_div || is_gt || is_lt || is_eq || is_and || is_or
            || is_xor || is_gte || is_lte || is_shl || is_shr) {
            self.transpile_u32_op(c)
        } else if !p_u256 && is_iszero {
            self.transpile_u32_iszero(c)
        } else {
            false
        }
    }

    fn transpile_user_call(&mut self, c: &ExprFunctionCall) -> (ok: bool)
        requires
            old(self)@.user_functions.contains_key(c.function_name@),
        ensures
            ok == !t_user_call(old(self)@, c.function_name@, exprs_view(c.exprs@)).failed,
            ok ==> final(self)@ == t_user_call(old(self)@, c.function_name@, exprs_view(c.exprs@)),
        decreases c, 0nat,
    {
        let fs = match self.user_functions.get(c.function_name.as_str()) {
            Some(fs) => copy_stack(fs),
            None => Vec::new(),
        };
        if !self.transpile_block(&c.exprs) {
            return false;
        }
        let mut line = string_from("exec.");
        line.append(c.function_name.as_str());
        self.add_line(line.as_str());
        self.add_function_stack(&fs);
        true
    }

    fn transpile_u256_op(&mut self, c: &ExprFunctionCall, consumed: usize, result: YulType) -> (ok: bool)
        ensures
            ok == !t_u256_op(old(self)@, c.function_name@, exprs_view(c.exprs@), consumed as nat, result).failed,
            ok ==> final(self)@ == t_u256_op(old(self)@, c.function_name@, exprs_view(c.exprs@), consumed as nat, result),
        decreases c, 0nat,
    {
        if !self.transpile_block(&c.exprs) {
            return false;
        }
        let mut line = string_from("exec.u256");
        line.append(c.function_name.as_str());
        line.append("_unsafe");
        self.add_line(line.as_str());
        if !self.consume(consumed) {
            return false;
        }
        self.add_unknown(result);
        true
    }

    fn transpile_mstore(&mut self, c: &ExprFunctionCall) -> (ok: bool)
        ensures
            ok == !t_mstore(old(self)@, exprs_view(c.exprs@)).failed,
            ok ==> final(self)@ == t_mstore(old(self)@, exprs_view(c.exprs@)),
        decreases c, 0nat,
    {
        let ghost args = exprs_view(c.exprs@);
        proof {
            lemma_exprs_view(c.exprs@);
        }
        let offset = self.memory_offset;
        let mut offset_line = numbered("mul.2 push.", offset);
        offset_line.append(" add");
        if c.exprs.len() < 2 {
            return false;
        }
        let ghost s0 = self@;
        if !self.transpile_op(&c.exprs[1]) {
            proof {
                lemma_t_failed(t_op(s0, args[1]));
            }
            return false;
        }
        if !self.transpile_op(&c.exprs[0]) {
            return false;
        }
        match expr_type_of(&c.exprs[1]) {
            Some(YulType::U32) => {
                self.add_line(offset_line.as_str());
                self.add_line("pop.mem");
                self.consume(2)
            },
            Some(YulType::U256) => {
                let mut line = numbered("mul.2 push.", offset);
                line.append(" add dup movdn.5");
                self.add_line(line.as_str());
                self.add_line("popw.mem");
                self.add_line("add.1 popw.mem");
                self.consume(2)
            },
            None => false,
        }
    }

    fn transpile_mload(&mut self, c: &ExprFunctionCall) -> (ok: bool)
        ensures
            ok == !t_mload(old(self)@, exprs_view(c.exprs@), c.inferred_return_types@).failed,
            ok ==> final(self)@ == t_mload(old(self)@, exprs_view(c.exprs@), c.inferred_return_types@),
        decreases c, 0nat,
    {
        proof {
            lemma_exprs_view(c.exprs@);
        }
        let offset = self.memory_offset;
        let mut offset_line = numbered("mul.2 push.", offset);
        offset_line.append(" add");
        if c.exprs.len() < 1 {
            return false;
        }
        if !self.transpile_op(&c.exprs[0]) {
            return false;
        }
        if c.inferred_return_types.len() == 0 {
            return false;
        }
        match c.inferred_return_types[0] {
            Some(YulType::U32) => {
                self.add_line(offset_line.as_str());
                self.add_line("push.mem");
                if !self.consume(1) {
                    return false;
                }
                self.add_unknown(YulType::U32);
                true
            },
            Some(YulType::U256) => {
                let mut line = numbered("mul.2 push.", offset);
                line.append(" add dup");
                self.add_line(line.as_str());
                self.add_line("add.1 pushw.mem");
                self.add_line("movup.4 pushw.mem");
                if !self.consume(1) {
                    return false;
                }
                self.add_unknown(YulType::U256);
                true
            },
            None => false,
        }
    }

    fn transpile_u32_op(&mut self, c: &ExprFunctionCall) -> (ok: bool)
        ensures
            ok == !t_u32_op(old(self)@, c.function_name@, exprs_view(c.exprs@)).failed,
            ok ==> final(self)@ == t_u32_op(old(self)@, c.function_name@, exprs_view(c.exprs@)),
        decreases c, 0nat,
    {
        if !self.transpile_block(&c.exprs) {
            return false;
        }
        if !self.consume(2) {
            return false;
        }
        self.add_unknown(YulType::U32);
        let name = c.function_name.as_str();
        proof {
            reveal_strlit("xor");
            reveal_strlit("shl");
            reveal_strlit("shr");
        }
        if str_eq(name, "xor") {
            self.add_line("u32checked_xor");
        } else if str_eq(name, "shl") {
            self.add_line("swap u32checked_shl");
        } else if str_eq(name, "shr") {
            self.add_line("swap u32checked_shr");
        } else {
            self.add_line(name);
        }
        true
    }

    fn transpile_u32_iszero(&mut self, c: &ExprFunctionCall) -> (ok: bool)
        ensures
            ok == !t_u32_iszero(old(self)@, exprs_view(c.exprs@)).failed,
            ok ==> final(self)@ == t_u32_iszero(old(self)@, exprs_view(c.exprs@)),
        decreases c, 0nat,
    {
        if !self.transpile_block(&c.exprs) {
            return false;
        }
        self.add_line("push.0");
        self.add_line("eq");
        if !self.consume(1) {
            return false;
        }
        self.add_unknown(YulType::U32);
        true
    }

    /// The cases of a switch, in order.
    fn transpile_cases(&mut self, cases: &Vec<ExprCase>, ty: Option<YulType>, target: &TypedIdentifier) -> (ok: bool)
        ensures
            ok == !t_cases(old(self)@, cases_view(cases@), ty, typed_view(*target)).failed,
            ok ==> final(self)@ == t_cases(old(self)@, cases_view(cases@), ty, typed_view(*target)),
        decreases cases, 0nat,
    {
        let ghost cv = cases_view(cases@);
        let ghost tv = typed_view(*target);
        let ghost st0 = self@;
        proof {
            lemma_cases_view(cases@);
            assert(cv.take(0) =~= Seq::<SCase>::empty());
        }
        let mut i: usize = 0;
        while i < cases.len()
            invariant
                i <= cases.len(),
                cv == cases_view(cases@),
                cv.len() == cases.len(),
                forall|j: int| 0 <= j < cases.len() ==> #[trigger] cv[j] == (SCase {
                    literal: literal_view(cases@[j].literal),
                    block: exprs_view(cases@[j].block.exprs@),
                }),
                tv == typed_view(*target),
                st0 == old(self)@,
                self@ == t_cases(st0, cv.take(i as int), ty, tv),
            decreases cases.len() - i,
        {
            proof {
                assert(cv.take(i + 1).drop_last() =~= cv.take(i as int));
                assert(cv.take(i + 1).last() == cv[i as int]);
            }
            if !self.transpile_case(&cases[i], ty, target) {
                proof {
                    lemma_t_cases_extends(st0, cv, ty, tv, i + 1);
                }
                return false;
            }
            i = i + 1;
        }
        proof {
            assert(cv.take(cases.len() as int) =~= cv);
        }
        true
    }

    /// One case of a switch.
    fn transpile_case(&mut self, case: &ExprCase, ty: Option<YulType>, target: &TypedIdentifier) -> (ok: bool)
        ensures
            ok == !t_case(
                old(self)@,
                SCase { literal: literal_view(case.literal), block: exprs_view(case.block.exprs@) },
                ty,
                typed_view(*target),
            ).failed,
            ok ==> final(self)@ == t_case(
                old(self)@,
                SCase { literal: literal_view(case.literal), block: exprs_view(case.block.exprs@) },
                ty,
                typed_view(*target),
            ),
        decreases case, 1nat,
    {
        let ghost tv = typed_view(*target);
        let ghost a0 = self@;
        if !self.move_identifier_to_top(target, true) {
            proof {
                lemma_t_failed(move_identifier_to_top(a0, tv, true));
            }
            return false;
        }
        self.set_overflow(true);
        let ghost a1 = self@;
        if !self.transpile_literal(&case.literal) {
            proof {
                lemma_t_failed(t_literal(a1, literal_view(case.literal)));
            }
            return false;
        }
        match ty {
            Some(YulType::U256) => self.add_line("exec.u256eq_unsafe"),
            _ => self.add_line("eq"),
        }
        let ghost a2 = self@;
        if !self.consume(2) {
            proof {
                lemma_t_failed(consume(a2, 2));
            }
            return false;
        }
        self.set_overflow(false);
        self.begin_branch();
        self.add_line("if.true");
        let ghost a3 = self@;
        if !self.indent() {
            proof {
                lemma_t_failed(indent(a3));
            }
            return false;
        }
        let ghost a4 = self@;
        let names = vec![string_from("switch_matched")];
        proof {
            assert(names_view(names@) =~= seq![switch_matched().name]);
        }
        let t = match self.assign_begin(&names) {
            Some(t) => t,
            None => {
                proof {
                    lemma_t_failed(assign_begin(a4, seq![switch_matched().name]));
                }
                return false;
            },
        };
        let ghost a5 = self@;
        if !self.push(U256 { limb0: 1, limb1: 0, limb2: 0, limb3: 0 }) {
            proof {
                lemma_t_failed(push_u32(a5, U256 { limb0: 1, limb1: 0, limb2: 0, limb3: 0 }));
            }
            return false;
        }
        let ghost a6 = self@;
        if !self.top_is_var(t) {
            proof {
                lemma_t_failed(top_is_var(a6, a4.scoped_identifiers[switch_matched().name]));
            }
            return false;
        }
        let ghost a7 = self@;
        if !self.outdent() {
            proof {
                lemma_t_failed(outdent(a7));
            }
            return false;
        }
        let ghost a8 = self@;
        if !self.transpile_block(&case.block.exprs) {
            proof {
                lemma_t_failed(t_block(a8, exprs_view(case.block.exprs@)));
            }
            return false;
        }
        if !self.end_branch() {
            return false;
        }
        if !self.outdent() {
            return false;
        }
        self.add_line("end");
        true
    }

    /// A switch: a flag for whether a case matched, the switch value kept as
    /// a variable, the cases, and the default case run when none matched.
    fn transpile_switch(&mut self, sw: &ExprSwitch) -> (ok: bool)
        ensures
            ok == !t_switch(old(self)@, expr_view(Expr::Switch(*sw))).failed,
            ok ==> final(self)@ == t_switch(old(self)@, expr_view(Expr::Switch(*sw))),
        decreases sw, 1nat,
    {
        let empty = String::new();
        self.add_line(empty.as_str());
        let matched = TypedIdentifier { identifier: string_from("switch_matched"), yul_type: YulType::U32 };
        self.bind(&matched);
        self.add_comment("keeping track of whether we've hit any cases");
        let ghost s1 = self@;
        if !self.prepare_for_stack_values(YulType::U32) {
            proof {
                lemma_t_failed(prepare_for(s1, YulType::U32));
            }
            return false;
        }
        self.add_line("push.0");
        self.add_unknown(YulType::U32);
        let ghost s2 = self@;
        if !self.top_is_var(clone_typed(&matched)) {
            proof {
                lemma_t_failed(top_is_var(s2, switch_matched()));
            }
            return false;
        }
        let ghost s3 = self@;
        if !self.transpile_op(&sw.expr) {
            proof {
                lemma_t_failed(t_op(s3, expr_view(*sw.expr)));
            }
            return false;
        }
        let ty = match sw.inferred_type {
            Some(ty) => ty,
            None => {
                return false;
            },
        };
        let target = TypedIdentifier { identifier: string_from("switch"), yul_type: ty };
        self.bind(&target);
        let ghost s4 = self@;
        if !self.top_is_var(clone_typed(&target)) {
            proof {
                lemma_t_failed(top_is_var(s4, typed_view(target)));
            }
            return false;
        }
        let ghost s5 = self@;
        if !self.transpile_cases(&sw.cases, sw.inferred_type, &target) {
            proof {
                lemma_t_failed(t_cases(s5, cases_view(sw.cases@), sw.inferred_type, typed_view(target)));
            }
            return false;
        }
        match &sw.default_case {
            None => {},
            Some(b) => {
                self.add_comment("default case");
                let ghost d0 = self@;
                if !self.move_identifier_to_top(&matched, true) {
                    proof {
                        lemma_t_failed(move_identifier_to_top(d0, switch_matched(), true));
                    }
                    return false;
                }
                self.add_line("not");
                let ghost d1 = self@;
                if !self.consume(1) {
                    proof {
                        lemma_t_failed(consume(d1, 1));
                    }
                    return false;
                }
                self.add_line("if.true");
                self.begin_branch();
                let ghost d2 = self@;
                if !self.transpile_block(&b.exprs) {
                    proof {
                        lemma_t_failed(t_block(d2, exprs_view(b.exprs@)));
                    }
                    return false;
                }
                if !self.end_branch() {
                    return false;
                }
                self.add_line("end");
            },
        }
        self.add_line(empty.as_str());
        true
    }
}

fn binop_procs_exec(p: IncludedProcs, name: &str) -> (r: IncludedProcs)
    ensures
        r == binop_procs(p, name@),
{
    if str_eq(name, "add") {
        IncludedProcs { u256add_unsafe: true, ..p }
    } else if str_eq(name, "mul") {
        IncludedProcs { u256mul_unsafe: true, ..p }
    } else if str_eq(name, "sub") {
        IncludedProcs { u256sub_unsafe: true, ..p }
    } else if str_eq(name, "and") {
        IncludedProcs { u256and_unsafe: true, ..p }
    } else if str_eq(name, "or") {
        IncludedProcs { u256or_unsafe: true, ..p }
    } else {
        IncludedProcs { u256xor_unsafe: true, ..p }
    }
}

fn comparison_procs_exec(p: IncludedProcs, name: &str) -> (r: IncludedProcs)
    ensures
        r == comparison_procs(p, name@),
{
    if str_eq(name, "iszero") {
        IncludedProcs { u256iszero_unsafe: true, ..p }
    } else if str_eq(name, "eq") {
        IncludedProcs { u256eq_unsafe: true, ..p }
    } else if str_eq(name, "lt") {
        IncludedProcs { u256lt_unsafe: true, ..p }
    } else if str_eq(name, "gt") {
        IncludedProcs { u256gt_unsafe: true, ..p }
    } else if str_eq(name, "gte") {
        IncludedProcs { u256gte_unsafe: true, ..p }
    } else {
        IncludedProcs { u256lte_unsafe: true, ..p }
    }
}

fn shift_procs_exec(p: IncludedProcs, name: &str) -> (r: IncludedProcs)
    ensures
        r == shift_procs(p, name@),
{
    if str_eq(name, "shl") {
        IncludedProcs { u256shl_unsafe: true, ..p }
    } else {
        IncludedProcs { u256shr_unsafe: true, ..p }
    }
}

impl Transpiler {
    /// A user function becomes the procedure `proc.name.n`, `n` twice the
    /// number of its parameters.
    fn transpile_function_declaration(&mut self, f: &ExprFunctionDefinition) -> (ok: bool)
        ensures
            ok == !t_function_declaration(
                old(self)@,
                f.function_name@,
                typeds_view(f.params@),
                typeds_view(f.returns@),
                exprs_view(f.block.exprs@),
            ).failed,
            ok ==> final(self)@ == t_function_declaration(
                old(self)@,
                f.function_name@,
                typeds_view(f.params@),
                typeds_view(f.returns@),
                exprs_view(f.block.exprs@),
            ),
    {
        let ghost pv = typeds_view(f.params@);
        let ghost rv = typeds_view(f.returns@);
        let ghost st0 = self@;
        if f.params.len() as u64 > 0x7fff_ffff_ffff_ffff {
            return false;
        }
        let mut params_stack: Vec<StackValue> = Vec::new();
        let mut i: usize = 0;
        while i < f.params.len()
            invariant
                i <= f.params.len(),
                pv == typeds_view(f.params@),
                params_stack@.len() == i,
                forall|j: int| 0 <= j < i ==> slot_view(#[trigger] params_stack@[j]) == holding(pv[j]),
            decreases f.params.len() - i,
        {
            params_stack.push(StackValue { typed_identifier: Some(clone_typed(&f.params[i])), yul_type: f.params[i].yul_type });
            i = i + 1;
        }
        self.stack = params_stack;
        proof {
            assert(stack_view(self.stack@) =~= param_stack(pv));
        }
        let ghost s1 = self@;
        let mut k: usize = 0;
        proof {
            assert(pv.take(0) =~= Seq::<STyped>::empty());
        }
        while k < f.params.len()
            invariant
                k <= f.params.len(),
                pv == typeds_view(f.params@),
                self@ == bind_all(s1, pv.take(k as int)),
            decreases f.params.len() - k,
        {
            proof {
                assert(pv.take(k + 1).drop_last() =~= pv.take(k as int));
                assert(pv.take(k + 1).last() == typed_view(f.params@[k as int]));
            }
            self.bind(&f.params[k]);
            k = k + 1;
        }
        proof {
            assert(pv.take(f.params.len() as int) =~= pv);
        }
        let mut line = string_from("proc.");
        line.append(f.function_name.as_str());
        line.append(".");
        append_u64(&mut line, 2 * (f.params.len() as u64));
        self.add_line(line.as_str());
        let ghost s2 = self@;
        if !self.indent() {
            proof {
                lemma_t_failed(indent(s2));
            }
            return false;
        }
        let ghost s3 = self@;
        if !self.transpile_block(&f.block.exprs) {
            proof {
                lemma_t_failed(t_block(s3, exprs_view(f.block.exprs@)));
            }
            return false;
        }
        let ghost s4 = self@;
        let mut r: usize = 0;
        proof {
            assert(rv.take(0) =~= Seq::<STyped>::empty());
        }
        while r < f.returns.len()
            invariant
                r <= f.returns.len(),
                rv == typeds_view(f.returns@),
                self@ == dup_all(s4, rv.take(r as int)),
                st0 == old(self)@,
                pv == typeds_view(f.params@),
                t_function_declaration(st0, f.function_name@, pv, rv, exprs_view(f.block.exprs@))
                    == function_epilogue(dup_all(s4, rv), f.function_name@, pv, rv),
            decreases f.returns.len() - r,
        {
            proof {
                assert(rv.take(r + 1).drop_last() =~= rv.take(r as int));
                assert(rv.take(r + 1).last() == typed_view(f.returns@[r as int]));
            }
            let ghost before = self@;
            if !self.move_identifier_to_top(&f.returns[r], true) {
                proof {
                    assert(dup_all(s4, rv.take(r + 1)) == move_identifier_to_top(
                        dup_all(s4, rv.take(r as int)),
                        rv.take(r + 1).last(),
                        true,
                    ));
                    assert(dup_all(s4, rv.take(r + 1)).failed);
                    lemma_dup_all_extends(s4, rv, r + 1);

                }
                return false;
            }
            r = r + 1;
        }
        proof {
            assert(rv.take(f.returns.len() as int) =~= rv);
        }
        if !self.drop_after_returns(&f.returns) {
            return false;
        }
        let fs = copy_stack(&self.stack);
        self.stack.clear();
        proof {
            assert(stack_view(self.stack@) =~= Seq::<SValue>::empty());
        }
        if !self.outdent() {
            return false;
        }
        self.add_line("end");
        let ghost s5 = self@;
        self.user_functions.insert(copy_string(&f.function_name), fs);
        proof {
            assert(self@.user_functions =~= s5.user_functions.insert(f.function_name@, stack_view(fs@)));
        }
        let ghost s6 = self@;
        let mut q: usize = 0;
        proof {
            assert(pv.take(0) =~= Seq::<STyped>::empty());
        }
        while q < f.params.len()
            invariant
                q <= f.params.len(),
                pv == typeds_view(f.params@),
                self@ == (TState { scoped_identifiers: unbind_all(s6.scoped_identifiers, pv.take(q as int)), ..s6 }),
            decreases f.params.len() - q,
        {
            proof {
                assert(pv.take(q + 1).drop_last() =~= pv.take(q as int));
                assert(pv.take(q + 1).last() == typed_view(f.params@[q as int]));
            }
            let ghost m0 = self@.scoped_identifiers;
            self.scoped_identifiers.remove(copy_string(&f.params[q].identifier));
            proof {
                assert(self@.scoped_identifiers =~= m0.remove(f.params@[q as int].identifier@));
            }
            q = q + 1;
        }
        proof {
            assert(pv.take(f.params.len() as int) =~= pv);
        }
        true
    }

    /// Generates the user functions of a program, in order.
    fn declare_functions(&mut self, ast: &Vec<Expr>) -> (ok: bool)
        ensures
            ok == !declare_functions(old(self)@, exprs_view(ast@)).failed,
            ok ==> final(self)@ == declare_functions(old(self)@, exprs_view(ast@)),
    {
        let ghost v = exprs_view(ast@);
        let ghost st0 = self@;
        proof {
            lemma_exprs_view(ast@);
            assert(v.take(0) =~= Seq::<SExpr>::empty());
        }
        let mut i: usize = 0;
        while i < ast.len()
            invariant
                i <= ast.len(),
                v == exprs_view(ast@),
                v.len() == ast.len(),
                forall|j: int| 0 <= j < ast.len() ==> #[trigger] v[j] == expr_view(ast@[j]),
                st0 == old(self)@,
                self@ == declare_functions(st0, v.take(i as int)),
            decreases ast.len() - i,
        {
            proof {
                assert(v.take(i + 1).drop_last() =~= v.take(i as int));
                assert(v.take(i + 1).last() == v[i as int]);
            }
            match &ast[i] {
                Expr::FunctionDefinition(f) => {
                    if !self.transpile_function_declaration(f) {
                        proof {
                            lemma_declare_functions_extends(st0, v, i + 1);
                        }
                        return false;
                    }
                },
                _ => {},
            }
            i = i + 1;
        }
        proof {
            assert(v.take(ast.len() as int) =~= v);
        }
        true
    }
}

/// The Miden program generated from a typed syntax tree: the library
/// procedures `utility_procs`, the user functions as procedures, then the
/// statements between `begin` and `end`. `None` when the tree holds what the
/// generator cannot handle (a string or boolean literal, an operation it has
/// no instruction for, a variable used before it is declared, ...).
pub fn transpile_program(expressions: Vec<Expr>, utility_procs: &str) -> (r: Option<String>)
    ensures
        match spec_transpile_program(exprs_view(expressions@), utility_procs@) {
            Some(p) => r matches Some(s) && s@ == p,
            None => r is None,
        },
{
    let ast = crate::ast_optimization::optimize_ast(expressions);
    let mut t = Transpiler::new(1024);
    let mut procs = string_from(utility_procs);
    push_char(&mut procs, '\n');
    proof {
        assert(procs@ =~= utility_procs@ + seq!['\n']);
    }
    t.add_line(procs.as_str());
    t.add_line("# end std lib #");
    let ghost s1 = t@;
    if !t.declare_functions(&ast) {
        proof {
            lemma_t_failed(declare_functions(s1, exprs_view(ast@)));
        }
        return None;
    }
    t.add_line("begin");
    let ghost s2 = t@;
    if !t.indent() {
        proof {
            lemma_t_failed(indent(s2));
        }
        return None;
    }
    if !t.transpile_block(&ast) {
        return None;
    }
    if !t.outdent() {
        return None;
    }
    t.add_line("end");
    Some(t.program)
}

} // verus!
