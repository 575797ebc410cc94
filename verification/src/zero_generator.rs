//! Generation of System Zero instructions from a typed syntax tree.
//!
//! Every expression leaves its value at the evaluation address; variables
//! live at offsets of the scope of the block that declares them; loops and
//! conditionals become labels and jumps. Each step is proved to do what
//! `zero_model` says of it.
use vstd::prelude::*;
use crate::types::{
    Expr, ExprLiteral, ExprFunctionDefinition, ExprFunctionCall, ExprIfStatement, ExprAssignment,
    ExprDeclareVariable, ExprForLoop, ExprRepeat, YulType, STyped, SExpr, expr_view, exprs_view,
    typeds_view, typed_view, names_view, literal_view, lemma_exprs_view,
};
use crate::u256::{U256, nat_to_dec, limb_base};
use crate::utils::{split_u256_to_u32s, spec_u32_words, word_le};
use crate::scope::StrMap;
use crate::text::{string_from, copy_string, append_u64};
use crate::zero_model::{
    SImm, SLoc, SInstr, ZState, evaluation_address, z_add, z_fail, z_initial, z_lookup, z_width,
    scope_of, declared_vars, push_scope, pop_scope, next_count, loop_labels, push_loop, pop_loop,
    z_literal, z_words, z_variable, current_offset, z_assignment, z_declaration, z_args, z_call,
    z_function, z_if, z_for, z_repeat, z_break, z_continue, z_op, z_block, z_seq, spec_zero_program,
};

verus! {

/// A constant, or the address of a label or variable.
#[derive(Debug, PartialEq, Eq)]
pub enum ImmediateOrMacro {
    AddrOf(String),
    Immediate(u32),
}

/// A memory address, or a constant.
#[derive(Debug, PartialEq, Eq)]
pub enum LocalOrImmediate {
    Local(u32),
    Immediate(ImmediateOrMacro),
}

/// A machine instruction.
#[derive(Debug, PartialEq, Eq)]
pub enum Instruction {
    Ret,
    CalleeWrite { index: u32, val: LocalOrImmediate },
    Call { addr: ImmediateOrMacro },
    Move32 { val: LocalOrImmediate, dst: u32 },
    Move256 { val: u32, dst: u32 },
    JumpGE { x: LocalOrImmediate, y: LocalOrImmediate, addr: ImmediateOrMacro },
}

/// An instruction that the assembler expands or resolves.
#[derive(Debug, PartialEq, Eq)]
pub enum PseudoInstruction {
    Label { label: String },
    Jump { addr: ImmediateOrMacro },
    JumpIf { cond: LocalOrImmediate, addr: ImmediateOrMacro },
    Init { name: String },
    Incr { x: LocalOrImmediate },
}

/// A machine instruction or a pseudo instruction.
#[derive(Debug, PartialEq, Eq)]
pub enum GeneralInstruction {
    Real(Instruction),
    Pseudo(PseudoInstruction),
}

pub open spec fn imm_view(i: ImmediateOrMacro) -> SImm {
    match i {
        ImmediateOrMacro::AddrOf(s) => SImm::AddrOf(s@),
        ImmediateOrMacro::Immediate(n) => SImm::Immediate(n),
    }
}

pub open spec fn loc_view(l: LocalOrImmediate) -> SLoc {
    match l {
        LocalOrImmediate::Local(a) => SLoc::Local(a),
        LocalOrImmediate::Immediate(i) => SLoc::Immediate(imm_view(i)),
    }
}

/// The mathematical value of an instruction.
pub open spec fn instr_view(g: GeneralInstruction) -> SInstr {
    match g {
        GeneralInstruction::Real(i) => match i {
            Instruction::Ret => SInstr::Ret,
            Instruction::CalleeWrite { index, val } => SInstr::CalleeWrite { index, val: loc_view(val) },
            Instruction::Call { addr } => SInstr::Call { addr: imm_view(addr) },
            Instruction::Move32 { val, dst } => SInstr::Move32 { val: loc_view(val), dst },
            Instruction::Move256 { val, dst } => SInstr::Move256 { val, dst },
            Instruction::JumpGE { x, y, addr } => SInstr::JumpGE {
                x: loc_view(x),
                y: loc_view(y),
                addr: imm_view(addr),
            },
        },
        GeneralInstruction::Pseudo(p) => match p {
            PseudoInstruction::Label { label } => SInstr::Label { label: label@ },
            PseudoInstruction::Jump { addr } => SInstr::Jump { addr: imm_view(addr) },
            PseudoInstruction::JumpIf { cond, addr } => SInstr::JumpIf { cond: loc_view(cond), addr: imm_view(addr) },
            PseudoInstruction::Init { name } => SInstr::Init { name: name@ },
            PseudoInstruction::Incr { x } => SInstr::Incr { x: loc_view(x) },
        },
    }
}

/// The mathematical values of a list of instructions.
pub open spec fn instrs_view(s: Seq<GeneralInstruction>) -> Seq<SInstr> {
    s.map_values(|g: GeneralInstruction| instr_view(g))
}

/// The variables in scope: one map per open block, the innermost last.
struct StackFrame {
    scopes: Vec<StrMap<(YulType, u32)>>,
}

/// The generator's state.
struct Transpiler {
    instructions: Vec<GeneralInstruction>,
    stack_frame: StackFrame,
    label_count: u64,
    variable_count: u64,
    current_for_loop: Vec<(String, String, String)>,
}

spec fn scopes_view(s: Seq<StrMap<(YulType, u32)>>) -> Seq<Map<Seq<char>, (YulType, u32)>> {
    s.map_values(|m: StrMap<(YulType, u32)>| m@)
}

spec fn loops_view(s: Seq<(String, String, String)>) -> Seq<(Seq<char>, Seq<char>, Seq<char>)> {
    s.map_values(|l: (String, String, String)| (l.0@, l.1@, l.2@))
}

impl View for Transpiler {
    type V = ZState;

    closed spec fn view(&self) -> ZState {
        ZState {
            instructions: instrs_view(self.instructions@),
            scopes: scopes_view(self.stack_frame.scopes@),
            label_count: self.label_count,
            variable_count: self.variable_count,
            loops: loops_view(self.current_for_loop@),
            failed: false,
        }
    }
}

/// Where variables start in each block's scope.
const LOCAL_VARS_START_ADDRESS: u32 = 0;

/// Where each expression leaves its value.
const EVALUATION_ADDRESS: u32 = 4096;

/// A failed state is left failed by every step.
proof fn lemma_z_failed(st: ZState)
    requires
        st.failed,
    ensures
        forall|e: SExpr| #[trigger] z_op(st, e) == st,
        forall|es: Seq<SExpr>| #[trigger] z_seq(st, es) == st,
        forall|es: Seq<SExpr>| #[trigger] z_block(st, es) == st,
        forall|es: Seq<SExpr>| #[trigger] z_args(st, es) == st,
        forall|i: SInstr| #[trigger] z_add(st, i) == st,
        forall|m: Map<Seq<char>, (YulType, u32)>| #[trigger] push_scope(st, m) == st,
        forall|l: (Seq<char>, Seq<char>, Seq<char>)| #[trigger] push_loop(st, l) == st,
        z_fail(st) == st,
        pop_scope(st) == st,
        pop_loop(st) == st,
        next_count(st) == st,
{
    assert forall|e: SExpr| #[trigger] z_op(st, e) == st by {}
    assert forall|es: Seq<SExpr>| #[trigger] z_seq(st, es) == st by {}
    assert forall|es: Seq<SExpr>| #[trigger] z_block(st, es) == st by {}
    assert forall|es: Seq<SExpr>| #[trigger] z_args(st, es) == st by {}
}

/// Once a prefix of a sequence of statements fails, the whole fails.
proof fn lemma_z_seq_extends(st: ZState, es: Seq<SExpr>, i: int)
    requires
        0 <= i <= es.len(),
        z_seq(st, es.take(i)).failed,
    ensures
        z_seq(st, es).failed,
    decreases es.len() - i,
{
    if i < es.len() {
        assert(es.drop_last().take(i) =~= es.take(i));
        lemma_z_seq_extends(st, es.drop_last(), i);
        lemma_z_failed(z_seq(st, es.drop_last()));
        if !st.failed {
            assert(z_seq(st, es) == z_op(z_seq(st, es.drop_last()), es.last()));
        }
    } else {
        assert(es.take(i) =~= es);
    }
}

/// Once a prefix of the arguments fails, the whole fails.
proof fn lemma_z_args_extends(st: ZState, es: Seq<SExpr>, i: int)
    requires
        0 <= i <= es.len(),
        z_args(st, es.take(i)).failed,
    ensures
        z_args(st, es).failed,
    decreases es.len() - i,
{
    if i < es.len() {
        assert(es.drop_last().take(i) =~= es.take(i));
        lemma_z_args_extends(st, es.drop_last(), i);
        let prev = z_args(st, es.drop_last());
        lemma_z_failed(prev);
        if !st.failed && es.len() - 1 <= u32::MAX {
            assert(z_op(prev, es.last()) == prev);
            assert(z_add(z_op(prev, es.last()), SInstr::CalleeWrite {
                index: (es.len() - 1) as u32,
                val: SLoc::Local(evaluation_address()),
            }) == prev);
        }
    } else {
        assert(es.take(i) =~= es);
    }
}

/// A scope that cannot be laid out stays so when more variables follow.
proof fn lemma_scope_of_extends(a: Seq<STyped>, b: Seq<STyped>)
    requires
        scope_of(a) is None,
    ensures
        scope_of(a + b) is None,
    decreases b.len(),
{
    if b.len() == 0 {
        assert(a + b =~= a);
    } else {
        assert((a + b).drop_last() =~= a + b.drop_last());
        lemma_scope_of_extends(a, b.drop_last());
    }
}

/// The declarations of two runs of statements, one after the other.
proof fn lemma_declared_vars_append(a: Seq<SExpr>, b: Seq<SExpr>)
    ensures
        declared_vars(a + b) == declared_vars(a) + declared_vars(b),
    decreases b.len(),
{
    if b.len() == 0 {
        assert(a + b =~= a);
        assert(declared_vars(a) + declared_vars(b) =~= declared_vars(a));
    } else {
        assert((a + b).drop_last() =~= a + b.drop_last());
        lemma_declared_vars_append(a, b.drop_last());
        assert(declared_vars(a + b) =~= declared_vars(a) + declared_vars(b));
    }
}

/// A number fits in 32 bits exactly when its upper limbs are zero and its
/// lowest limb does.
proof fn lemma_fits_u32(v: U256)
    ensures
        (v.value() <= u32::MAX) == (v.limb1 == 0 && v.limb2 == 0 && v.limb3 == 0 && v.limb0 <= u32::MAX),
        v.limb1 == 0 && v.limb2 == 0 && v.limb3 == 0 ==> v.value() == v.limb0,
{
    let b = limb_base() as int;
    let rest = v.limb1 as int + b * (v.limb2 as int + b * v.limb3 as int);
    assert(v.value() == v.limb0 as int + b * rest);
    if v.limb1 != 0 || v.limb2 != 0 || v.limb3 != 0 {
        assert(rest >= 1) by (nonlinear_arith)
            requires
                rest == v.limb1 as int + b * (v.limb2 as int + b * v.limb3 as int),
                b > 0,
                v.limb1 != 0 || v.limb2 != 0 || v.limb3 != 0,
        ;
        assert(b * rest >= b) by (nonlinear_arith)
            requires
                rest >= 1,
                b > 0,
        ;
    }
}

impl StackFrame {
    fn new() -> (r: Self)
        ensures
            scopes_view(r.scopes@) == Seq::<Map<Seq<char>, (YulType, u32)>>::empty(),
    {
        let r = StackFrame { scopes: Vec::new() };
        proof {
            assert(scopes_view(r.scopes@) =~= Seq::<Map<Seq<char>, (YulType, u32)>>::empty());
        }
        r
    }

    /// Opens a scope.
    fn add_scope(&mut self, scope: StrMap<(YulType, u32)>)
        ensures
            scopes_view(final(self).scopes@) == scopes_view(old(self).scopes@).push(scope@),
    {
        let ghost m = scope@;
        self.scopes.push(scope);
        proof {
            assert(scopes_view(self.scopes@) =~= scopes_view(old(self).scopes@).push(m));
        }
    }

    /// Closes the innermost scope; `false` when none is open.
    fn remove_scope(&mut self) -> (ok: bool)
        ensures
            ok == (old(self).scopes.len() > 0),
            ok ==> scopes_view(final(self).scopes@) == scopes_view(old(self).scopes@).drop_last(),
    {
        match self.scopes.pop() {
            Some(_) => {
                proof {
                    assert(scopes_view(self.scopes@) =~= scopes_view(old(self).scopes@).drop_last());
                }
                true
            },
            None => false,
        }
    }

    /// The type and address of a variable: its entry in the innermost scope
    /// that holds it.
    fn get_variable(&self, name: &str) -> (r: Option<(YulType, u32)>)
        ensures
            r == z_lookup(scopes_view(self.scopes@), name@),
    {
        let ghost sv = scopes_view(self.scopes@);
        proof {
            assert(sv.take(sv.len() as int) =~= sv);
        }
        let mut i = self.scopes.len();
        while i > 0
            invariant
                i <= self.scopes.len(),
                sv == scopes_view(self.scopes@),
                z_lookup(sv, name@) == z_lookup(sv.take(i as int), name@),
            decreases i,
        {
            proof {
                assert(sv.take(i as int).drop_last() =~= sv.take(i - 1));
                assert(sv.take(i as int).last() == self.scopes@[i - 1]@);
            }
            match self.scopes[i - 1].get(name) {
                Some(v) => {
                    return Some(*v);
                },
                None => {},
            }
            i = i - 1;
        }
        None
    }
}

impl Transpiler {
    fn new() -> (r: Self)
        ensures
            r@ == z_initial(),
    {
        let r = Transpiler {
            instructions: Vec::new(),
            stack_frame: StackFrame::new(),
            label_count: 0,
            variable_count: 0,
            current_for_loop: Vec::new(),
        };
        proof {
            assert(instrs_view(r.instructions@) =~= Seq::<SInstr>::empty());
            assert(loops_view(r.current_for_loop@) =~= Seq::<(Seq<char>, Seq<char>, Seq<char>)>::empty());
        }
        r
    }

    fn add_instruction(&mut self, inst: GeneralInstruction)
        ensures
            final(self)@ == z_add(old(self)@, instr_view(inst)),
    {
        let ghost g = inst;
        self.instructions.push(inst);
        proof {
            assert(instrs_view(self.instructions@) =~= instrs_view(old(self).instructions@).push(instr_view(g)));
        }
    }

    fn add_real_instruction(&mut self, inst: Instruction)
        ensures
            final(self)@ == z_add(old(self)@, instr_view(GeneralInstruction::Real(inst))),
    {
        self.add_instruction(GeneralInstruction::Real(inst))
    }

    fn add_label(&mut self, label: String)
        ensures
            final(self)@ == z_add(old(self)@, SInstr::Label { label: label@ }),
    {
        let label_inst = PseudoInstruction::Label { label };
        self.add_instruction(GeneralInstruction::Pseudo(label_inst));
    }

    fn add_jump(&mut self, addr: ImmediateOrMacro)
        ensures
            final(self)@ == z_add(old(self)@, SInstr::Jump { addr: imm_view(addr) }),
    {
        let jump_inst = PseudoInstruction::Jump { addr };
        self.add_instruction(GeneralInstruction::Pseudo(jump_inst));
    }

    fn add_jump_if(&mut self, cond: LocalOrImmediate, addr: ImmediateOrMacro)
        ensures
            final(self)@ == z_add(old(self)@, SInstr::JumpIf { cond: loc_view(cond), addr: imm_view(addr) }),
    {
        let jump_inst = PseudoInstruction::JumpIf { cond, addr };
        self.add_instruction(GeneralInstruction::Pseudo(jump_inst));
    }

    fn add_initialize(&mut self, name: String)
        ensures
            final(self)@ == z_add(old(self)@, SInstr::Init { name: name@ }),
    {
        let init = PseudoInstruction::Init { name };
        self.add_instruction(GeneralInstruction::Pseudo(init));
    }

    fn add_increment(&mut self, x: LocalOrImmediate)
        ensures
            final(self)@ == z_add(old(self)@, SInstr::Incr { x: loc_view(x) }),
    {
        let incr = PseudoInstruction::Incr { x };
        self.add_instruction(GeneralInstruction::Pseudo(incr));
    }

    /// A fresh label for the end of an `if`.
    fn new_if_label(&mut self) -> (r: Option<String>)
        ensures
            r is Some == !next_count(old(self)@).failed,
            r matches Some(l) ==> l@ == "if"@ + nat_to_dec(old(self)@.label_count as nat) && final(self)@
                == next_count(old(self)@),
    {
        if self.label_count == u64::MAX {
            return None;
        }
        let mut lbl = string_from("if");
        append_u64(&mut lbl, self.label_count);
        self.label_count = self.label_count + 1;
        Some(lbl)
    }

    /// Fresh labels for the three places of a loop.
    fn new_loop_label(&mut self) -> (r: Option<(String, String, String)>)
        ensures
            r is Some == !next_count(old(self)@).failed,
            r matches Some(l) ==> (l.0@, l.1@, l.2@) == loop_labels(old(self)@.label_count) && final(self)@
                == next_count(old(self)@),
    {
        if self.label_count == u64::MAX {
            return None;
        }
        let mut pre = string_from("pre");
        append_u64(&mut pre, self.label_count);
        let mut after_block = string_from("after");
        append_u64(&mut after_block, self.label_count);
        let mut post = string_from("post");
        append_u64(&mut post, self.label_count);
        self.label_count = self.label_count + 1;
        Some((pre, after_block, post))
    }

    /// A fresh counter variable.
    fn new_variable(&mut self) -> (r: Option<String>)
        ensures
            r is Some == (old(self)@.variable_count < u64::MAX),
            r matches Some(name) ==> name@ == "var"@ + nat_to_dec(old(self)@.variable_count as nat) && final(self)@
                == (ZState { variable_count: (old(self)@.variable_count + 1) as u64, ..old(self)@ }),
    {
        if self.variable_count == u64::MAX {
            return None;
        }
        let mut name = string_from("var");
        append_u64(&mut name, self.variable_count);
        self.variable_count = self.variable_count + 1;
        Some(name)
    }

    /// The offset of `name` in the innermost scope.
    fn offset_in_current_scope(&self, name: &String) -> (r: Option<u32>)
        ensures
            r == current_offset(self@, name@),
    {
        let n = self.stack_frame.scopes.len();
        if n == 0 {
            return None;
        }
        proof {
            assert(self@.scopes.last() == self.stack_frame.scopes@[n - 1]@);
        }
        match self.stack_frame.scopes[n - 1].get(name.as_str()) {
            Some(p) => Some(p.1),
            None => None,
        }
    }

    fn place_u32_on_stack(&mut self, val: u32)
        ensures
            final(self)@ == z_add(
                old(self)@,
                SInstr::Move32 { val: SLoc::Immediate(SImm::Immediate(val)), dst: evaluation_address() },
            ),
    {
        let move_inst = Instruction::Move32 {
            val: LocalOrImmediate::Immediate(ImmediateOrMacro::Immediate(val)),
            dst: EVALUATION_ADDRESS,
        };
        self.add_real_instruction(move_inst);
    }

    /// The eight words of `val`, least significant first, from the
    /// evaluation address on.
    fn place_u256_on_stack(&mut self, val: U256)
        ensures
            final(self)@ == z_words(old(self)@, val, 8),
    {
        let words = split_u256_to_u32s(&val);
        let mut cur_location: u32 = EVALUATION_ADDRESS;
        let mut k: usize = 0;
        while k < 8
            invariant
                k <= 8,
                words@ == spec_u32_words(val),
                cur_location == EVALUATION_ADDRESS + k,
                self@ == z_words(old(self)@, val, k as nat),
            decreases 8 - k,
        {
            let cur = words[7 - k];
            proof {
                assert(cur == word_le(val, k as int) as u32);
            }
            let move_inst = Instruction::Move32 {
                val: LocalOrImmediate::Immediate(ImmediateOrMacro::Immediate(cur)),
                dst: cur_location,
            };
            self.add_real_instruction(move_inst);
            cur_location = cur_location + 1;
            k = k + 1;
        }
    }
}

impl Transpiler {
    /// A literal; its value is left at the evaluation address.
    fn transpile_literal(&mut self, literal: &ExprLiteral) -> (ok: bool)
        ensures
            ok == !z_literal(old(self)@, literal_view(*literal)).failed,
            ok ==> final(self)@ == z_literal(old(self)@, literal_view(*literal)),
    {
        match literal {
            ExprLiteral::Number(n) => match n.inferred_type {
                Some(YulType::U32) => {
                    proof {
                        lemma_fits_u32(n.value);
                    }
                    if n.value.limb1 == 0 && n.value.limb2 == 0 && n.value.limb3 == 0 && n.value.limb0
                        <= 0xffff_ffff {
                        self.place_u32_on_stack(n.value.limb0 as u32);
                        true
                    } else {
                        false
                    }
                },
                _ => {
                    self.place_u256_on_stack(n.value);
                    true
                },
            },
            _ => false,
        }
    }

    /// A variable's value is moved to the evaluation address.
    fn transpile_variable_reference(&mut self, name: &String) -> (ok: bool)
        ensures
            ok == !z_variable(old(self)@, name@).failed,
            ok ==> final(self)@ == z_variable(old(self)@, name@),
    {
        match self.stack_frame.get_variable(name.as_str()) {
            Some((YulType::U32, address)) => {
                let move_inst = Instruction::Move32 { val: LocalOrImmediate::Local(address), dst: EVALUATION_ADDRESS };
                self.add_real_instruction(move_inst);
                true
            },
            Some((YulType::U256, address)) => {
                let move_inst = Instruction::Move256 { val: address, dst: EVALUATION_ADDRESS };
                self.add_real_instruction(move_inst);
                true
            },
            None => false,
        }
    }

    /// `break`: a jump to the end of the innermost loop.
    fn transpile_break(&mut self) -> (ok: bool)
        ensures
            ok == !z_break(old(self)@).failed,
            ok ==> final(self)@ == z_break(old(self)@),
    {
        let n = self.current_for_loop.len();
        if n == 0 {
            return false;
        }
        let post = copy_string(&self.current_for_loop[n - 1].2);
        proof {
            assert(self@.loops.last().2 == post@);
        }
        self.add_jump(ImmediateOrMacro::AddrOf(post));
        true
    }

    /// `continue`: a jump to the after block of the innermost loop.
    fn transpile_continue(&mut self) -> (ok: bool)
        ensures
            ok == !z_continue(old(self)@).failed,
            ok ==> final(self)@ == z_continue(old(self)@),
    {
        let n = self.current_for_loop.len();
        if n == 0 {
            return false;
        }
        let after_block = copy_string(&self.current_for_loop[n - 1].1);
        proof {
            assert(self@.loops.last().1 == after_block@);
        }
        self.add_jump(ImmediateOrMacro::AddrOf(after_block));
        true
    }

    /// The scope of a block: each variable it declares, in order, at the next
    /// free offset.
    fn scan_block_for_variables(&self, block: &Vec<Expr>) -> (r: Option<StrMap<(YulType, u32)>>)
        ensures
            r is Some == scope_of(declared_vars(exprs_view(block@))) is Some,
            r matches Some(m) ==> m@ == scope_of(declared_vars(exprs_view(block@))).unwrap().0,
    {
        let ghost v = exprs_view(block@);
        proof {
            lemma_exprs_view(block@);
            assert(v.take(0) =~= Seq::<SExpr>::empty());
        }
        let mut current_offset: u32 = LOCAL_VARS_START_ADDRESS;
        let mut new_scope: StrMap<(YulType, u32)> = StrMap::new();
        let mut i: usize = 0;
        while i < block.len()
            invariant
                i <= block.len(),
                v == exprs_view(block@),
                v.len() == block.len(),
                forall|j: int| 0 <= j < block.len() ==> #[trigger] v[j] == expr_view(block@[j]),
                scope_of(declared_vars(v.take(i as int))) == Some((new_scope@, current_offset as nat)),
            decreases block.len() - i,
        {
            proof {
                assert(v.take(i + 1).drop_last() =~= v.take(i as int));
                assert(v.take(i + 1).last() == v[i as int]);
            }
            match &block[i] {
                Expr::DeclareVariable(d) => {
                    let ghost pre = declared_vars(v.take(i as int));
                    let ghost tv = typeds_view(d.typed_identifiers@);
                    proof {
                        assert(pre + tv.take(0) =~= pre);
                        assert(declared_vars(v.take(i + 1)) == pre + tv);
                    }
                    let mut j: usize = 0;
                    while j < d.typed_identifiers.len()
                        invariant
                            j <= d.typed_identifiers.len(),
                            i < block.len(),
                            v == exprs_view(block@),
                            v.len() == block.len(),
                            tv == typeds_view(d.typed_identifiers@),
                            declared_vars(v.take(i + 1)) == pre + tv,
                            scope_of(pre + tv.take(j as int)) == Some((new_scope@, current_offset as nat)),
                        decreases d.typed_identifiers.len() - j,
                    {
                        let t = &d.typed_identifiers[j];
                        let width: u32 = match t.yul_type {
                            YulType::U32 => 1,
                            YulType::U256 => 8,
                        };
                        proof {
                            assert((pre + tv.take(j + 1)).drop_last() =~= pre + tv.take(j as int));
                            assert((pre + tv.take(j + 1)).last() == typed_view(*t));
                        }
                        if current_offset > u32::MAX - width {
                            proof {
                                let rest = tv.skip(j + 1) + declared_vars(v.skip(i + 1));
                                assert(z_width(t.yul_type) == width as nat);
                                assert(scope_of(pre + tv.take(j + 1)) is None);
                                lemma_scope_of_extends(pre + tv.take(j + 1), rest);
                                lemma_declared_vars_append(v.take(i + 1), v.skip(i + 1));
                                assert(v.take(i + 1) + v.skip(i + 1) =~= v);
                                assert((pre + tv.take(j + 1)) + rest =~= (pre + tv) + declared_vars(v.skip(i + 1)));
                                assert(declared_vars(v) == (pre + tv.take(j + 1)) + rest);
                            }
                            return None;
                        }
                        new_scope.insert(copy_string(&t.identifier), (t.yul_type, current_offset));
                        current_offset = current_offset + width;
                        j = j + 1;
                    }
                    proof {
                        assert(tv.take(tv.len() as int) =~= tv);
                    }
                },
                _ => {
                    proof {
                        assert(declared_vars(v.take(i + 1)) =~= declared_vars(v.take(i as int)));
                    }
                },
            }
            i = i + 1;
        }
        proof {
            assert(v.take(block.len() as int) =~= v);
        }
        Some(new_scope)
    }

    fn end_block_scope(&mut self) -> (ok: bool)
        ensures
            ok == !pop_scope(old(self)@).failed,
            ok ==> final(self)@ == pop_scope(old(self)@),
    {
        self.stack_frame.remove_scope()
    }
}

impl Transpiler {
    /// Generates one expression or statement; an expression leaves its value
    /// at the evaluation address.
    fn transpile_op(&mut self, expr: &Expr) -> (ok: bool)
        ensures
            ok == !z_op(old(self)@, expr_view(*expr)).failed,
            ok ==> final(self)@ == z_op(old(self)@, expr_view(*expr)),
        decreases expr, 2nat,
    {
        match expr {
            Expr::Literal(value) => self.transpile_literal(value),
            Expr::FunctionDefinition(op) => self.transpile_function_declaration(op),
            Expr::FunctionCall(op) => self.transpile_function_call(op),
            Expr::IfStatement(op) => self.transpile_if_statement(op),
            Expr::Assignment(op) => self.transpile_assignment(op),
            Expr::DeclareVariable(op) => self.transpile_variable_declaration(op),
            Expr::ForLoop(op) => self.transpile_for_loop(op),
            Expr::Block(op) => self.transpile_block(&op.exprs),
            Expr::Switch(_) => self.transpile_switch(),
            Expr::Variable(op) => self.transpile_variable_reference(&op.identifier),
            Expr::Repeat(op) => self.transpile_repeat(op),
            Expr::Break => self.transpile_break(),
            Expr::Continue => self.transpile_continue(),
            Expr::Leave => false,
            Expr::Case(_) => false,
        }
    }

    /// Statements in order.
    fn transpile_seq(&mut self, es: &Vec<Expr>) -> (ok: bool)
        ensures
            ok == !z_seq(old(self)@, exprs_view(es@)).failed,
            ok ==> final(self)@ == z_seq(old(self)@, exprs_view(es@)),
        decreases es, 0nat,
    {
        let ghost v = exprs_view(es@);
        proof {
            lemma_exprs_view(es@);
            assert(v.take(0) =~= Seq::<SExpr>::empty());
        }
        let mut i: usize = 0;
        while i < es.len()
            invariant
                i <= es.len(),
                v == exprs_view(es@),
                v.len() == es.len(),
                forall|j: int| 0 <= j < es.len() ==> #[trigger] v[j] == expr_view(es@[j]),
                self@ == z_seq(old(self)@, v.take(i as int)),
            decreases es.len() - i,
        {
            proof {
                assert(v.take(i + 1).drop_last() =~= v.take(i as int));
                assert(v.take(i + 1).last() == v[i as int]);
            }
            if !self.transpile_op(&es[i]) {
                proof {
                    lemma_z_seq_extends(old(self)@, v, i + 1);
                }
                return false;
            }
            i = i + 1;
        }
        proof {
            assert(v.take(es.len() as int) =~= v);
        }
        true
    }

    /// A block: a scope of its declarations for the time of its statements.
    fn transpile_block(&mut self, es: &Vec<Expr>) -> (ok: bool)
        ensures
            ok == !z_block(old(self)@, exprs_view(es@)).failed,
            ok ==> final(self)@ == z_block(old(self)@, exprs_view(es@)),
        decreases es, 1nat,
    {
        let scope = match self.scan_block_for_variables(es) {
            Some(m) => m,
            None => {
                return false;
            },
        };
        self.stack_frame.add_scope(scope);
        let ghost s1 = self@;
        if !self.transpile_seq(es) {
            proof {
                lemma_z_failed(z_seq(s1, exprs_view(es@)));
            }
            return false;
        }
        self.end_block_scope()
    }

    /// The arguments of a call, each evaluated and written to the callee's
    /// next slot.
    fn transpile_args(&mut self, args: &Vec<Expr>) -> (ok: bool)
        ensures
            ok == !z_args(old(self)@, exprs_view(args@)).failed,
            ok ==> final(self)@ == z_args(old(self)@, exprs_view(args@)),
        decreases args, 0nat,
    {
        let ghost v = exprs_view(args@);
        proof {
            lemma_exprs_view(args@);
            assert(v.take(0) =~= Seq::<SExpr>::empty());
        }
        let mut index: usize = 0;
        while index < args.len()
            invariant
                index <= args.len(),
                v == exprs_view(args@),
                v.len() == args.len(),
                forall|j: int| 0 <= j < args.len() ==> #[trigger] v[j] == expr_view(args@[j]),
                self@ == z_args(old(self)@, v.take(index as int)),
            decreases args.len() - index,
        {
            proof {
                assert(v.take(index + 1).drop_last() =~= v.take(index as int));
                assert(v.take(index + 1).last() == v[index as int]);
            }
            if index > u32::MAX as usize {
                proof {
                    lemma_z_args_extends(old(self)@, v, index + 1);
                }
                return false;
            }
            let ghost s1 = self@;
            if !self.transpile_op(&args[index]) {
                proof {
                    lemma_z_failed(z_op(s1, v[index as int]));
                    lemma_z_args_extends(old(self)@, v, index + 1);
                }
                return false;
            }
            self.add_real_instruction(
                Instruction::CalleeWrite { index: index as u32, val: LocalOrImmediate::Local(EVALUATION_ADDRESS) },
            );
            index = index + 1;
        }
        proof {
            assert(v.take(args.len() as int) =~= v);
        }
        true
    }

    /// A call: its arguments, the call, and the write of its one result.
    fn transpile_function_call(&mut self, op: &ExprFunctionCall) -> (ok: bool)
        ensures
            ok == !z_call(old(self)@, expr_view(Expr::FunctionCall(*op))).failed,
            ok ==> final(self)@ == z_call(old(self)@, expr_view(Expr::FunctionCall(*op))),
        decreases op, 1nat,
    {
        let function_name = copy_string(&op.function_name);
        let ghost s0 = self@;
        if !self.transpile_args(&op.exprs) {
            proof {
                lemma_z_failed(z_args(s0, exprs_view(op.exprs@)));
            }
            return false;
        }
        if op.inferred_return_types.len() >= 2 {
            return false;
        }
        self.add_real_instruction(Instruction::Call { addr: ImmediateOrMacro::AddrOf(function_name) });
        if op.inferred_return_types.len() == 1 {
            self.add_real_instruction(
                Instruction::CalleeWrite { index: 0, val: LocalOrImmediate::Local(EVALUATION_ADDRESS) },
            );
        }
        true
    }

    /// A function definition: a jump past it, its label, its body, a return,
    /// and the label after it.
    fn transpile_function_declaration(&mut self, op: &ExprFunctionDefinition) -> (ok: bool)
        ensures
            ok == !z_function(old(self)@, expr_view(Expr::FunctionDefinition(*op))).failed,
            ok ==> final(self)@ == z_function(old(self)@, expr_view(Expr::FunctionDefinition(*op))),
        decreases op, 1nat,
    {
        let function_name = copy_string(&op.function_name);
        let mut end_label = string_from("end_of_");
        end_label.append(function_name.as_str());
        self.add_jump(ImmediateOrMacro::AddrOf(copy_string(&end_label)));
        self.add_label(function_name);
        let ghost s1 = self@;
        if !self.transpile_seq(&op.block.exprs) {
            proof {
                lemma_z_failed(z_seq(s1, exprs_view(op.block.exprs@)));
            }
            return false;
        }
        self.add_real_instruction(Instruction::Ret);
        self.add_label(end_label);
        true
    }

    /// `if cond { body }`: a jump on the condition to a label after the body.
    fn transpile_if_statement(&mut self, op: &ExprIfStatement) -> (ok: bool)
        ensures
            ok == !z_if(old(self)@, expr_view(Expr::IfStatement(*op))).failed,
            ok ==> final(self)@ == z_if(old(self)@, expr_view(Expr::IfStatement(*op))),
        decreases op, 1nat,
    {
        let ghost s0 = self@;
        if !self.transpile_op(&op.first_expr) {
            proof {
                lemma_z_failed(z_op(s0, expr_view(*op.first_expr)));
            }
            return false;
        }
        let ghost s1 = self@;
        let dest = match self.new_if_label() {
            Some(l) => l,
            None => {
                proof {
                    lemma_z_failed(next_count(s1));
                }
                return false;
            },
        };
        self.add_jump_if(LocalOrImmediate::Local(EVALUATION_ADDRESS), ImmediateOrMacro::AddrOf(copy_string(&dest)));
        let ghost s2 = self@;
        if !self.transpile_block(&op.second_expr.exprs) {
            proof {
                lemma_z_failed(z_block(s2, exprs_view(op.second_expr.exprs@)));
            }
            return false;
        }
        self.add_label(dest);
        true
    }

    /// `x := rhs`: the value is moved to the variable's offset in the
    /// innermost scope.
    fn transpile_assignment(&mut self, op: &ExprAssignment) -> (ok: bool)
        ensures
            ok == !z_assignment(old(self)@, expr_view(Expr::Assignment(*op))).failed,
            ok ==> final(self)@ == z_assignment(old(self)@, expr_view(Expr::Assignment(*op))),
        decreases op, 1nat,
    {
        if op.identifiers.len() != 1 {
            return false;
        }
        proof {
            assert(names_view(op.identifiers@)[0] == op.identifiers@[0]@);
        }
        let offset = match self.offset_in_current_scope(&op.identifiers[0]) {
            Some(o) => o,
            None => {
                return false;
            },
        };
        let ghost s0 = self@;
        if !self.transpile_op(&op.rhs) {
            proof {
                lemma_z_failed(z_op(s0, expr_view(*op.rhs)));
            }
            return false;
        }
        let move_inst = Instruction::Move32 { val: LocalOrImmediate::Local(EVALUATION_ADDRESS), dst: offset };
        self.add_real_instruction(move_inst);
        true
    }

    /// `let x := rhs`: the value, when there is one, is moved to the
    /// variable's offset in the innermost scope.
    fn transpile_variable_declaration(&mut self, op: &ExprDeclareVariable) -> (ok: bool)
        ensures
            ok == !z_declaration(old(self)@, expr_view(Expr::DeclareVariable(*op))).failed,
            ok ==> final(self)@ == z_declaration(old(self)@, expr_view(Expr::DeclareVariable(*op))),
        decreases op, 1nat,
    {
        if op.typed_identifiers.len() != 1 {
            return false;
        }
        proof {
            assert(typeds_view(op.typed_identifiers@)[0].name == op.typed_identifiers@[0].identifier@);
        }
        let offset = match self.offset_in_current_scope(&op.typed_identifiers[0].identifier) {
            Some(o) => o,
            None => {
                return false;
            },
        };
        match &op.rhs {
            Some(rhs) => {
                let ghost s0 = self@;
                if !self.transpile_op(rhs) {
                    proof {
                        lemma_z_failed(z_op(s0, expr_view(**rhs)));
                    }
                    return false;
                }
                let move_inst = Instruction::Move32 { val: LocalOrImmediate::Local(EVALUATION_ADDRESS), dst: offset };
                self.add_real_instruction(move_inst);
                true
            },
            None => true,
        }
    }

    /// `for { init } cond { after } { body }`.
    fn transpile_for_loop(&mut self, op: &ExprForLoop) -> (ok: bool)
        ensures
            ok == !z_for(old(self)@, expr_view(Expr::ForLoop(*op))).failed,
            ok ==> final(self)@ == z_for(old(self)@, expr_view(Expr::ForLoop(*op))),
        decreases op, 1nat,
    {
        let ghost s0 = self@;
        if !self.transpile_block(&op.init_block.exprs) {
            proof {
                lemma_z_failed(z_block(s0, exprs_view(op.init_block.exprs@)));
            }
            return false;
        }
        let ghost s1 = self@;
        let (pre, after_block, post) = match self.new_loop_label() {
            Some(l) => l,
            None => {
                proof {
                    lemma_z_failed(next_count(s1));
                }
                return false;
            },
        };
        self.add_label(copy_string(&pre));
        let ghost s2 = self@;
        if !self.transpile_op(&op.conditional) {
            proof {
                lemma_z_failed(z_op(s2, expr_view(*op.conditional)));
            }
            return false;
        }
        self.add_jump_if(LocalOrImmediate::Local(EVALUATION_ADDRESS), ImmediateOrMacro::AddrOf(copy_string(&post)));
        let ghost s3 = self@;
        self.current_for_loop.push((copy_string(&pre), copy_string(&after_block), copy_string(&post)));
        proof {
            assert(self@ == push_loop(s3, (pre@, after_block@, post@))) by {
                assert(self@.loops =~= s3.loops.push((pre@, after_block@, post@)));
            }
        }
        let ghost s4 = self@;
        if !self.transpile_block(&op.interior_block.exprs) {
            proof {
                lemma_z_failed(z_block(s4, exprs_view(op.interior_block.exprs@)));
            }
            return false;
        }
        let ghost s5 = self@;
        self.current_for_loop.pop();
        proof {
            assert(self@ == pop_loop(s5)) by {
                if s5.loops.len() > 0 {
                    assert(self@.loops =~= s5.loops.drop_last());
                }
            }
        }
        self.add_label(copy_string(&after_block));
        let ghost s6 = self@;
        if !self.transpile_block(&op.after_block.exprs) {
            proof {
                lemma_z_failed(z_block(s6, exprs_view(op.after_block.exprs@)));
            }
            return false;
        }
        self.add_jump(ImmediateOrMacro::AddrOf(pre));
        self.add_label(post);
        true
    }

    /// A block repeated a fixed number of times, counted by a fresh variable.
    fn transpile_repeat(&mut self, op: &ExprRepeat) -> (ok: bool)
        ensures
            ok == !z_repeat(old(self)@, expr_view(Expr::Repeat(*op))).failed,
            ok ==> final(self)@ == z_repeat(old(self)@, expr_view(Expr::Repeat(*op))),
        decreases op, 1nat,
    {
        let ghost s0 = self@;
        let (pre, after_block, post) = match self.new_loop_label() {
            Some(l) => l,
            None => {
                proof {
                    lemma_z_failed(next_count(s0));
                }
                return false;
            },
        };
        self.add_label(copy_string(&pre));
        let ghost s1 = self@;
        let counter = match self.new_variable() {
            Some(c) => c,
            None => {
                return false;
            },
        };
        self.add_initialize(copy_string(&counter));
        let jump = Instruction::JumpGE {
            x: LocalOrImmediate::Immediate(ImmediateOrMacro::AddrOf(copy_string(&counter))),
            y: LocalOrImmediate::Immediate(ImmediateOrMacro::Immediate(op.iterations)),
            addr: ImmediateOrMacro::AddrOf(copy_string(&post)),
        };
        self.add_real_instruction(jump);
        let ghost s3 = self@;
        self.current_for_loop.push((copy_string(&pre), copy_string(&after_block), copy_string(&post)));
        proof {
            assert(self@ == push_loop(s3, (pre@, after_block@, post@))) by {
                assert(self@.loops =~= s3.loops.push((pre@, after_block@, post@)));
            }
        }
        let ghost s4 = self@;
        if !self.transpile_block(&op.interior_block.exprs) {
            proof {
                lemma_z_failed(z_block(s4, exprs_view(op.interior_block.exprs@)));
            }
            return false;
        }
        let ghost s5 = self@;
        self.current_for_loop.pop();
        proof {
            assert(self@ == pop_loop(s5)) by {
                if s5.loops.len() > 0 {
                    assert(self@.loops =~= s5.loops.drop_last());
                }
            }
        }
        self.add_label(after_block);
        self.add_increment(LocalOrImmediate::Immediate(ImmediateOrMacro::AddrOf(counter)));
        self.add_jump(ImmediateOrMacro::AddrOf(pre));
        self.add_label(post);
        true
    }

    /// A switch generates nothing.
    fn transpile_switch(&mut self) -> (ok: bool)
        ensures
            ok,
            final(self)@ == old(self)@,
    {
        true
    }
}

/// The System Zero instructions for a program, or `None` when the generator
/// cannot handle it: an assignment or declaration whose variable is not in
/// the innermost open scope (so any at the top level), a reference to a
/// variable that no open scope holds, more than one variable in a
/// declaration or assignment, a call with more than one return value, a
/// `u32` literal above `u32::MAX`, a string or boolean literal, `leave`, a
/// `break` or `continue` outside a loop, or counters or offsets that
/// overflow.
pub fn transpile_program(expressions: Vec<Expr>) -> (r: Option<Vec<GeneralInstruction>>)
    ensures
        match spec_zero_program(exprs_view(expressions@)) {
            Some(p) => r matches Some(v) && instrs_view(v@) == p,
            None => r is None,
        },
{
    let mut transpiler = Transpiler::new();
    if !transpiler.transpile_seq(&expressions) {
        return None;
    }
    Some(transpiler.instructions)
}

} // verus!
