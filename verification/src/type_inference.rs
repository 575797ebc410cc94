//! Type inference: fills in the `u32`/`u256` types of literals, variable
//! references, function calls, assignments and switches.
//!
//! The inference walks the tree in order with three pieces of state: the
//! declared type of each variable in scope, the types expected of the value
//! being evaluated, and the types of the value just evaluated.
use vstd::prelude::*;
use crate::types::{Expr, ExprLiteral, ExprLiteralNumber, ExprFunctionCall, ExprIfStatement, ExprAssignment,
    ExprDeclareVariable, ExprFunctionDefinition, ExprRepeat, ExprForLoop, ExprBlock, ExprVariableReference, ExprSwitch,
    ExprCase, YulType, SExpr, SLiteral, SCase, STyped, expr_view, exprs_view, cases_view, literal_view, typeds_view,
    names_view, lemma_exprs_view, lemma_cases_view, clone_typeds, clone_strings, clone_block};
use crate::scope::StrMap;
use crate::text::str_eq;

verus! {

/// The state of the inference.
pub struct InferState {
    pub scope: Map<Seq<char>, YulType>,
    pub expected: Seq<Option<YulType>>,
    pub evaluated: Seq<Option<YulType>>,
}

/// The state at the start: nothing declared, expected or evaluated.
pub open spec fn initial_state() -> InferState {
    InferState { scope: Map::empty(), expected: Seq::empty(), evaluated: Seq::empty() }
}

/// The first type of the list, or `u256` when the list is empty.
pub open spec fn first_or_u256(s: Seq<Option<YulType>>) -> Option<YulType> {
    if s.len() > 0 {
        s[0]
    } else {
        Some(YulType::U256)
    }
}

/// The scope after declaring the variables in order.
pub open spec fn declare_all(scope: Map<Seq<char>, YulType>, vars: Seq<STyped>) -> Map<Seq<char>, YulType>
    decreases vars.len(),
{
    if vars.len() == 0 {
        scope
    } else {
        declare_all(scope, vars.drop_last()).insert(vars.last().name, vars.last().yul_type)
    }
}

/// The declared types of the variables, each present.
pub open spec fn declared_types(vars: Seq<STyped>) -> Seq<Option<YulType>> {
    vars.map_values(|v: STyped| Some(v.yul_type))
}

/// The names are all in scope.
pub open spec fn all_in_scope(scope: Map<Seq<char>, YulType>, names: Seq<Seq<char>>) -> bool {
    forall|i: int| 0 <= i < names.len() ==> scope.contains_key(#[trigger] names[i])
}

/// The scope types of names that are all in scope.
pub open spec fn scope_types(scope: Map<Seq<char>, YulType>, names: Seq<Seq<char>>) -> Seq<Option<YulType>> {
    names.map_values(|n: Seq<char>| Some(scope[n]))
}

/// A number literal takes the first expected type (`u256` when nothing is
/// expected), and that becomes the evaluated type; other literals are kept.
pub open spec fn infer_literal(st: InferState, l: SLiteral) -> (InferState, SLiteral) {
    match l {
        SLiteral::Number { inferred_type: _, value } => {
            let t = first_or_u256(st.expected);
            (InferState { evaluated: seq![t], ..st }, SLiteral::Number { inferred_type: t, value })
        },
        _ => (st, l),
    }
}

/// The function names whose arguments are expected to be `u32`: every argument
/// of `mload`, the first argument of `mstore`.
pub open spec fn expects_u32_argument(name: Seq<char>, i: int) -> bool {
    (i == 0 && name == seq!['m', 's', 't', 'o', 'r', 'e']) || name == seq!['m', 'l', 'o', 'a', 'd']
}

/// Inference of an expression; `None` for the trees it rejects (a `break`,
/// `continue`, `leave` or stray `case`, or an assignment to a variable that is
/// not in scope).
pub open spec fn infer_expr(st: InferState, e: SExpr) -> Option<(InferState, SExpr)>
    decreases e,
{
    match e {
        SExpr::Literal(l) => {
            let (st1, l1) = infer_literal(st, l);
            Some((st1, SExpr::Literal(l1)))
        },
        SExpr::FunctionCall { name, args, return_types: _, param_types: _ } => {
            match infer_args(st, name, st.expected, args) {
                Some((st1, args1, params)) => {
                    let ret = st1.expected;
                    Some((
                        InferState { evaluated: ret, ..st1 },
                        SExpr::FunctionCall { name, args: args1, return_types: ret, param_types: params },
                    ))
                },
                None => None,
            }
        },
        SExpr::IfStatement { cond, body } => {
            match infer_expr(st, *cond) {
                Some((st1, c1)) => match infer_seq(st1, body) {
                    Some((st2, b1)) => Some((st2, SExpr::IfStatement { cond: Box::new(c1), body: b1 })),
                    None => None,
                },
                None => None,
            }
        },
        SExpr::Assignment { names, types: _, rhs } => {
            if all_in_scope(st.scope, names) {
                let types = scope_types(st.scope, names);
                match infer_expr(InferState { expected: types, ..st }, *rhs) {
                    Some((st1, r1)) => Some((st1, SExpr::Assignment { names, types, rhs: Box::new(r1) })),
                    None => None,
                }
            } else {
                None
            }
        },
        SExpr::DeclareVariable { vars, rhs } => {
            let st1 = InferState {
                scope: declare_all(st.scope, vars),
                expected: declared_types(vars),
                ..st
            };
            match rhs {
                Some(r) => match infer_expr(st1, *r) {
                    Some((st2, r1)) => Some((st2, SExpr::DeclareVariable { vars, rhs: Some(Box::new(r1)) })),
                    None => None,
                },
                None => Some((st1, SExpr::DeclareVariable { vars, rhs: None })),
            }
        },
        SExpr::FunctionDefinition { name, params, rets, block } => {
            let st1 = InferState { scope: declare_all(declare_all(st.scope, params), rets), ..st };
            match infer_seq(st1, block) {
                Some((st2, b1)) => Some((
                    InferState { scope: st.scope, ..st2 },
                    SExpr::FunctionDefinition { name, params, rets, block: b1 },
                )),
                None => None,
            }
        },
        SExpr::Repeat { body, iterations } => {
            match infer_seq(st, body) {
                Some((st1, b1)) => Some((st1, SExpr::Repeat { body: b1, iterations })),
                None => None,
            }
        },
        SExpr::ForLoop { init, cond, after, body } => {
            match infer_seq(st, init) {
                Some((st1, i1)) => match infer_expr(st1, *cond) {
                    Some((st2, c1)) => match infer_seq(st2, after) {
                        Some((st3, a1)) => match infer_seq(st3, body) {
                            Some((st4, b1)) => Some((
                                InferState { scope: st.scope, ..st4 },
                                SExpr::ForLoop { init: i1, cond: Box::new(c1), after: a1, body: b1 },
                            )),
                            None => None,
                        },
                        None => None,
                    },
                    None => None,
                },
                None => None,
            }
        },
        SExpr::Block(es) => {
            match infer_seq(st, es) {
                Some((st1, es1)) => Some((InferState { scope: st.scope, ..st1 }, SExpr::Block(es1))),
                None => None,
            }
        },
        SExpr::Variable { name, inferred_type: _ } => {
            let t = if st.scope.contains_key(name) { Some(st.scope[name]) } else { None };
            Some((InferState { evaluated: seq![t], ..st }, SExpr::Variable { name, inferred_type: t }))
        },
        SExpr::Switch { default_case, inferred_type: _, scrutinee, cases } => {
            match infer_expr(st, *scrutinee) {
                Some((st1, s1)) => {
                    let t = first_or_u256(st1.evaluated);
                    match infer_cases(st1, st1.evaluated, cases) {
                        Some((st2, cases1)) => Some((
                            st2,
                            SExpr::Switch { default_case, inferred_type: t, scrutinee: Box::new(s1), cases: cases1 },
                        )),
                        None => None,
                    }
                },
                None => None,
            }
        },
        SExpr::Case(_) => None,
        SExpr::Break => None,
        SExpr::Continue => None,
        SExpr::Leave => None,
    }
}

/// Inference of a sequence of statements, in order.
pub open spec fn infer_seq(st: InferState, es: Seq<SExpr>) -> Option<(InferState, Seq<SExpr>)>
    decreases es,
{
    if es.len() == 0 {
        Some((st, Seq::empty()))
    } else {
        match infer_seq(st, es.drop_last()) {
            Some((st1, es1)) => match infer_expr(st1, es.last()) {
                Some((st2, e2)) => Some((st2, es1.push(e2))),
                None => None,
            },
            None => None,
        }
    }
}

/// Inference of the arguments of a call to `name`, made while `saved` is
/// expected of the call: each argument is inferred with `saved` expected
/// (or `u32` for memory addresses), and the types each one evaluates to are
/// collected as the parameter types.
pub open spec fn infer_args(st: InferState, name: Seq<char>, saved: Seq<Option<YulType>>, es: Seq<SExpr>) -> Option<
    (InferState, Seq<SExpr>, Seq<Option<YulType>>),
>
    decreases es,
{
    if es.len() == 0 {
        Some((st, Seq::empty(), Seq::empty()))
    } else {
        match infer_args(st, name, saved, es.drop_last()) {
            Some((st1, es1, ps1)) => {
                let st1b = if expects_u32_argument(name, es.len() - 1) {
                    InferState { expected: seq![Some(YulType::U32)], ..st1 }
                } else {
                    st1
                };
                match infer_expr(st1b, es.last()) {
                    Some((st2, e2)) => Some((
                        InferState { expected: saved, ..st2 },
                        es1.push(e2),
                        ps1 + st2.evaluated,
                    )),
                    None => None,
                }
            },
            None => None,
        }
    }
}

/// Inference of the cases of a switch: each case literal takes the type
/// that the switch expression evaluated to, then its block is inferred.
pub open spec fn infer_cases(st: InferState, evaluated: Seq<Option<YulType>>, cases: Seq<SCase>) -> Option<
    (InferState, Seq<SCase>),
>
    decreases cases,
{
    if cases.len() == 0 {
        Some((st, Seq::empty()))
    } else {
        match infer_cases(st, evaluated, cases.drop_last()) {
            Some((st1, cs1)) => {
                let (st2, lit) = infer_literal(InferState { expected: evaluated, ..st1 }, cases.last().literal);
                match infer_seq(st2, cases.last().block) {
                    Some((st3, b)) => Some((st3, cs1.push(SCase { literal: lit, block: b }))),
                    None => None,
                }
            },
            None => None,
        }
    }
}

/// The program with its types inferred, or `None` for the programs that
/// inference rejects.
pub open spec fn spec_infer_types(ast: Seq<SExpr>) -> Option<Seq<SExpr>> {
    match infer_seq(initial_state(), ast) {
        Some((_, r)) => Some(r),
        None => None,
    }
}


proof fn lemma_infer_seq_prefix_none(st: InferState, s: Seq<SExpr>, k: int)
    requires
        0 <= k <= s.len(),
        infer_seq(st, s.take(k)) is None,
    ensures
        infer_seq(st, s) is None,
    decreases s.len(),
{
    if k < s.len() {
        assert(s.drop_last().take(k) =~= s.take(k));
        lemma_infer_seq_prefix_none(st, s.drop_last(), k);
    } else {
        assert(s.take(k) =~= s);
    }
}

proof fn lemma_infer_args_prefix_none(
    st: InferState,
    name: Seq<char>,
    saved: Seq<Option<YulType>>,
    s: Seq<SExpr>,
    k: int,
)
    requires
        0 <= k <= s.len(),
        infer_args(st, name, saved, s.take(k)) is None,
    ensures
        infer_args(st, name, saved, s) is None,
    decreases s.len(),
{
    if k < s.len() {
        assert(s.drop_last().take(k) =~= s.take(k));
        lemma_infer_args_prefix_none(st, name, saved, s.drop_last(), k);
    } else {
        assert(s.take(k) =~= s);
    }
}

proof fn lemma_infer_cases_prefix_none(st: InferState, ev: Seq<Option<YulType>>, s: Seq<SCase>, k: int)
    requires
        0 <= k <= s.len(),
        infer_cases(st, ev, s.take(k)) is None,
    ensures
        infer_cases(st, ev, s) is None,
    decreases s.len(),
{
    if k < s.len() {
        assert(s.drop_last().take(k) =~= s.take(k));
        lemma_infer_cases_prefix_none(st, ev, s.drop_last(), k);
    } else {
        assert(s.take(k) =~= s);
    }
}

/// What the walker returns for an expression, as the inference defines it.
pub open spec fn walked(st0: InferState, e: SExpr, st1: InferState, r: Option<Expr>) -> bool {
    match infer_expr(st0, e) {
        Some((st, x)) => r matches Some(y) && st1 == st && expr_view(y) == x,
        None => r is None,
    }
}

/// What the walker returns for a sequence of statements.
pub open spec fn walked_seq(st0: InferState, es: Seq<SExpr>, st1: InferState, r: Option<Vec<Expr>>) -> bool {
    match infer_seq(st0, es) {
        Some((st, x)) => r matches Some(y) && st1 == st && exprs_view(y@) == x,
        None => r is None,
    }
}

/// The inference's state, held in executable form.
struct TypeInferrer {
    scoped_variables: StrMap<YulType>,
    expected_types: Vec<Option<YulType>>,
    evaluated_types: Vec<Option<YulType>>,
}

impl View for TypeInferrer {
    type V = InferState;

    closed spec fn view(&self) -> InferState {
        InferState {
            scope: self.scoped_variables@,
            expected: self.expected_types@,
            evaluated: self.evaluated_types@,
        }
    }
}

fn first_or_u256_exec(s: &Vec<Option<YulType>>) -> (r: Option<YulType>)
    ensures
        r == first_or_u256(s@),
{
    if s.len() > 0 {
        s[0]
    } else {
        Some(YulType::U256)
    }
}

impl TypeInferrer {
    fn infer_literal(&mut self, literal: &ExprLiteral) -> (r: ExprLiteral)
        ensures
            (final(self)@, literal_view(r)) == infer_literal(old(self)@, literal_view(*literal)),
    {
        match literal {
            ExprLiteral::Number(n) => {
                let inferred_type = first_or_u256_exec(&self.expected_types);
                self.evaluated_types = vec![inferred_type];
                proof {
                    assert(self.evaluated_types@ =~= seq![inferred_type]);
                }
                ExprLiteral::Number(ExprLiteralNumber { value: n.value, inferred_type })
            },
            ExprLiteral::String(x) => ExprLiteral::String(x.clone()),
            ExprLiteral::Bool(b) => ExprLiteral::Bool(*b),
        }
    }

    fn walk_ast(&mut self, es: &Vec<Expr>) -> (r: Option<Vec<Expr>>)
        ensures
            walked_seq(old(self)@, exprs_view(es@), final(self)@, r),
        decreases es, 0nat,
    {
        let ghost st0 = self@;
        let ghost v = exprs_view(es@);
        proof {
            lemma_exprs_view(es@);
            assert(v.take(0) =~= Seq::<SExpr>::empty());
        }
        let mut out: Vec<Expr> = Vec::new();
        let mut i: usize = 0;
        while i < es.len()
            invariant
                i <= es.len(),
                v == exprs_view(es@),
                v.len() == es.len(),
                forall|j: int| 0 <= j < es.len() ==> #[trigger] v[j] == expr_view(es@[j]),
                infer_seq(st0, v.take(i as int)) == Some((self@, exprs_view(out@))),
                st0 == old(self)@,
            decreases es.len() - i,
        {
            let ghost st1 = self@;
            let r = self.walk_expr(&es[i]);
            proof {
                assert(v.take(i + 1).drop_last() =~= v.take(i as int));
                assert(v.take(i + 1).last() == v[i as int]);
            }
            match r {
                Some(x) => {
                    let ghost out_old = out@;
                    out.push(x);
                    proof {
                        assert(out@.drop_last() =~= out_old);
                    }
                },
                None => {
                    proof {
                        assert(infer_expr(st1, v[i as int]) is None);
                        assert(infer_seq(st0, v.take(i + 1)) is None);
                        lemma_infer_seq_prefix_none(st0, v, i + 1);
                    }
                    return None;
                },
            }
            i = i + 1;
        }
        proof {
            assert(v.take(es.len() as int) =~= v);
        }
        Some(out)
    }

    fn walk_args(&mut self, name: &String, saved: &Vec<Option<YulType>>, es: &Vec<Expr>) -> (r: Option<
        (Vec<Expr>, Vec<Option<YulType>>),
    >)
        ensures
            match infer_args(old(self)@, name@, saved@, exprs_view(es@)) {
                Some((st, x, ps)) => r matches Some((y, qs)) && final(self)@ == st && exprs_view(y@) == x
                    && qs@ == ps,
                None => r is None,
            },
        decreases es, 0nat,
    {
        let ghost st0 = self@;
        let ghost v = exprs_view(es@);
        proof {
            lemma_exprs_view(es@);
            assert(v.take(0) =~= Seq::<SExpr>::empty());
            reveal_strlit("mstore");
            reveal_strlit("mload");
            assert("mstore"@ =~= seq!['m', 's', 't', 'o', 'r', 'e']);
            assert("mload"@ =~= seq!['m', 'l', 'o', 'a', 'd']);
        }
        let is_mstore = str_eq(name.as_str(), "mstore");
        let is_mload = str_eq(name.as_str(), "mload");
        let mut out: Vec<Expr> = Vec::new();
        let mut params: Vec<Option<YulType>> = Vec::new();
        let mut i: usize = 0;
        while i < es.len()
            invariant
                i <= es.len(),
                v == exprs_view(es@),
                v.len() == es.len(),
                forall|j: int| 0 <= j < es.len() ==> #[trigger] v[j] == expr_view(es@[j]),
                infer_args(st0, name@, saved@, v.take(i as int)) == Some((self@, exprs_view(out@), params@)),
                st0 == old(self)@,
                is_mstore == (name@ == seq!['m', 's', 't', 'o', 'r', 'e']),
                is_mload == (name@ == seq!['m', 'l', 'o', 'a', 'd']),
            decreases es.len() - i,
        {
            proof {
                assert(v.take(i + 1).drop_last() =~= v.take(i as int));
                assert(v.take(i + 1).last() == v[i as int]);
            }
            if (i == 0 && is_mstore) || is_mload {
                self.expected_types = vec![Some(YulType::U32)];
                proof {
                    assert(self.expected_types@ =~= seq![Some(YulType::U32)]);
                }
            }
            let r = self.walk_expr(&es[i]);
            match r {
                Some(x) => {
                    let ghost out_old = out@;
                    out.push(x);
                    let mut ev = crate::types::clone_types(&self.evaluated_types);
                    params.append(&mut ev);
                    self.expected_types = crate::types::clone_types(saved);
                    proof {
                        assert(out@.drop_last() =~= out_old);
                    }
                },
                None => {
                    proof {
                        lemma_infer_args_prefix_none(st0, name@, saved@, v, i + 1);
                    }
                    return None;
                },
            }
            i = i + 1;
        }
        proof {
            assert(v.take(es.len() as int) =~= v);
        }
        Some((out, params))
    }

    fn walk_cases(&mut self, evaluated: &Vec<Option<YulType>>, cases: &Vec<ExprCase>) -> (r: Option<Vec<ExprCase>>)
        ensures
            match infer_cases(old(self)@, evaluated@, cases_view(cases@)) {
                Some((st, x)) => r matches Some(y) && final(self)@ == st && cases_view(y@) == x,
                None => r is None,
            },
        decreases cases, 0nat,
    {
        let ghost st0 = self@;
        let ghost v = cases_view(cases@);
        proof {
            lemma_cases_view(cases@);
            assert(v.take(0) =~= Seq::<SCase>::empty());
        }
        let mut out: Vec<ExprCase> = Vec::new();
        let mut i: usize = 0;
        while i < cases.len()
            invariant
                i <= cases.len(),
                v == cases_view(cases@),
                v.len() == cases.len(),
                forall|j: int| 0 <= j < cases.len() ==> #[trigger] v[j] == (SCase {
                    literal: literal_view(cases@[j].literal),
                    block: exprs_view(cases@[j].block.exprs@),
                }),
                infer_cases(st0, evaluated@, v.take(i as int)) == Some((self@, cases_view(out@))),
                st0 == old(self)@,
            decreases cases.len() - i,
        {
            proof {
                assert(v.take(i + 1).drop_last() =~= v.take(i as int));
                assert(v.take(i + 1).last() == v[i as int]);
            }
            self.expected_types = crate::types::clone_types(evaluated);
            let literal = self.infer_literal(&cases[i].literal);
            let r = self.walk_ast(&cases[i].block.exprs);
            match r {
                Some(b) => {
                    let ghost out_old = out@;
                    out.push(ExprCase { literal, block: ExprBlock { exprs: b } });
                    proof {
                        assert(out@.drop_last() =~= out_old);
                    }
                },
                None => {
                    proof {
                        lemma_infer_cases_prefix_none(st0, evaluated@, v, i + 1);
                    }
                    return None;
                },
            }
            i = i + 1;
        }
        proof {
            assert(v.take(cases.len() as int) =~= v);
        }
        Some(out)
    }

    fn walk_expr(&mut self, expr: &Expr) -> (r: Option<Expr>)
        ensures
            walked(old(self)@, expr_view(*expr), final(self)@, r),
        decreases expr, 1nat,
    {
        match expr {
            Expr::Literal(literal) => Some(Expr::Literal(self.infer_literal(literal))),
            Expr::FunctionCall(call) => self.walk_call(call),
            Expr::IfStatement(i) => self.walk_if(i),
            Expr::Assignment(a) => self.walk_assignment(a),
            Expr::DeclareVariable(d) => self.walk_declaration(d),
            Expr::FunctionDefinition(f) => self.walk_function_definition(f),
            Expr::Repeat(r) => {
                match self.walk_ast(&r.interior_block.exprs) {
                    Some(b) => Some(Expr::Repeat(ExprRepeat {
                        iterations: r.iterations,
                        interior_block: Box::new(ExprBlock { exprs: b }),
                    })),
                    None => None,
                }
            },
            Expr::ForLoop(f) => self.walk_for_loop(f),
            Expr::Block(b) => {
                let scoped_vars_old = self.scoped_variables.copy();
                let r = self.walk_ast(&b.exprs);
                self.scoped_variables = scoped_vars_old;
                match r {
                    Some(x) => Some(Expr::Block(ExprBlock { exprs: x })),
                    None => None,
                }
            },
            Expr::Variable(v) => {
                let inferred_type = match self.scoped_variables.get(v.identifier.as_str()) {
                    Some(t) => Some(*t),
                    None => None,
                };
                self.evaluated_types = vec![inferred_type];
                proof {
                    assert(self.evaluated_types@ =~= seq![inferred_type]);
                }
                Some(Expr::Variable(ExprVariableReference { inferred_type, identifier: v.identifier.clone() }))
            },
            Expr::Switch(sw) => self.walk_switch(sw),
            Expr::Case(_) => None,
            Expr::Break => None,
            Expr::Continue => None,
            Expr::Leave => None,
        }
    }

    fn walk_call(&mut self, call: &ExprFunctionCall) -> (r: Option<Expr>)
        ensures
            walked(old(self)@, expr_view(Expr::FunctionCall(*call)), final(self)@, r),
        decreases call, 0nat,
    {
        let saved = crate::types::clone_types(&self.expected_types);
        match self.walk_args(&call.function_name, &saved, &call.exprs) {
            Some((args, params)) => {
                let ret = crate::types::clone_types(&self.expected_types);
                self.evaluated_types = crate::types::clone_types(&ret);
                Some(Expr::FunctionCall(ExprFunctionCall {
                    function_name: call.function_name.clone(),
                    inferred_param_types: params,
                    inferred_return_types: ret,
                    exprs: Box::new(args),
                }))
            },
            None => None,
        }
    }

    fn walk_if(&mut self, i: &ExprIfStatement) -> (r: Option<Expr>)
        ensures
            walked(old(self)@, expr_view(Expr::IfStatement(*i)), final(self)@, r),
        decreases i, 0nat,
    {
        let c = match self.walk_expr(&i.first_expr) {
            Some(c) => c,
            None => return None,
        };
        let b = match self.walk_ast(&i.second_expr.exprs) {
            Some(b) => b,
            None => return None,
        };
        Some(Expr::IfStatement(ExprIfStatement {
            first_expr: Box::new(c),
            second_expr: Box::new(ExprBlock { exprs: b }),
        }))
    }

    fn walk_assignment(&mut self, a: &ExprAssignment) -> (r: Option<Expr>)
        ensures
            walked(old(self)@, expr_view(Expr::Assignment(*a)), final(self)@, r),
        decreases a, 0nat,
    {
        let ghost names = names_view(a.identifiers@);
        let mut types: Vec<Option<YulType>> = Vec::new();
        let mut k: usize = 0;
        while k < a.identifiers.len()
            invariant
                k <= a.identifiers.len(),
                names == names_view(a.identifiers@),
                self@ == old(self)@,
                all_in_scope(self@.scope, names.take(k as int)),
                types@ == scope_types(self@.scope, names.take(k as int)),
            decreases a.identifiers.len() - k,
        {
            match self.scoped_variables.get(a.identifiers[k].as_str()) {
                Some(t) => {
                    types.push(Some(*t));
                    proof {
                        assert(names.take(k + 1) =~= names.take(k as int).push(names[k as int]));
                        assert(types@ =~= scope_types(self@.scope, names.take(k + 1)));
                    }
                },
                None => {
                    proof {
                        assert(!self@.scope.contains_key(names[k as int]));
                        assert(!all_in_scope(self@.scope, names));
                    }
                    return None;
                },
            }
            k = k + 1;
        }
        proof {
            assert(names.take(a.identifiers.len() as int) =~= names);
        }
        self.expected_types = crate::types::clone_types(&types);
        match self.walk_expr(&a.rhs) {
            Some(r) => Some(Expr::Assignment(ExprAssignment {
                identifiers: clone_strings(&a.identifiers),
                inferred_types: types,
                rhs: Box::new(r),
            })),
            None => None,
        }
    }

    fn walk_declaration(&mut self, d: &ExprDeclareVariable) -> (r: Option<Expr>)
        ensures
            walked(old(self)@, expr_view(Expr::DeclareVariable(*d)), final(self)@, r),
        decreases d, 0nat,
    {
        let ghost vars = typeds_view(d.typed_identifiers@);
        self.declare_typeds(&d.typed_identifiers);
        let mut expected: Vec<Option<YulType>> = Vec::new();
        let mut k: usize = 0;
        while k < d.typed_identifiers.len()
            invariant
                k <= d.typed_identifiers.len(),
                vars == typeds_view(d.typed_identifiers@),
                expected@ == declared_types(vars.take(k as int)),
            decreases d.typed_identifiers.len() - k,
        {
            proof {
                assert(declared_types(vars.take(k + 1)) =~= declared_types(vars.take(k as int)).push(
                    Some(d.typed_identifiers@[k as int].yul_type),
                ));
            }
            expected.push(Some(d.typed_identifiers[k].yul_type));
            k = k + 1;
        }
        proof {
            assert(vars.take(d.typed_identifiers.len() as int) =~= vars);
        }
        self.expected_types = expected;
        match &d.rhs {
            Some(rhs) => match self.walk_expr(rhs) {
                Some(r) => Some(Expr::DeclareVariable(ExprDeclareVariable {
                    typed_identifiers: clone_typeds(&d.typed_identifiers),
                    rhs: Some(Box::new(r)),
                })),
                None => None,
            },
            None => Some(Expr::DeclareVariable(ExprDeclareVariable {
                typed_identifiers: clone_typeds(&d.typed_identifiers),
                rhs: None,
            })),
        }
    }

    fn walk_function_definition(&mut self, f: &ExprFunctionDefinition) -> (r: Option<Expr>)
        ensures
            walked(old(self)@, expr_view(Expr::FunctionDefinition(*f)), final(self)@, r),
        decreases f, 0nat,
    {
        let scoped_vars_old = self.scoped_variables.copy();
        self.declare_typeds(&f.params);
        self.declare_typeds(&f.returns);
        let b = self.walk_ast(&f.block.exprs);
        self.scoped_variables = scoped_vars_old;
        match b {
            Some(b) => Some(Expr::FunctionDefinition(ExprFunctionDefinition {
                function_name: f.function_name.clone(),
                params: clone_typeds(&f.params),
                returns: clone_typeds(&f.returns),
                block: ExprBlock { exprs: b },
            })),
            None => None,
        }
    }

    fn walk_for_loop(&mut self, f: &ExprForLoop) -> (r: Option<Expr>)
        ensures
            walked(old(self)@, expr_view(Expr::ForLoop(*f)), final(self)@, r),
        decreases f, 0nat,
    {
        let scoped_vars_old = self.scoped_variables.copy();
        let init = match self.walk_ast(&f.init_block.exprs) {
            Some(x) => x,
            None => return None,
        };
        let cond = match self.walk_expr(&f.conditional) {
            Some(x) => x,
            None => return None,
        };
        let after = match self.walk_ast(&f.after_block.exprs) {
            Some(x) => x,
            None => return None,
        };
        let body = match self.walk_ast(&f.interior_block.exprs) {
            Some(x) => x,
            None => return None,
        };
        self.scoped_variables = scoped_vars_old;
        Some(Expr::ForLoop(ExprForLoop {
            init_block: Box::new(ExprBlock { exprs: init }),
            conditional: Box::new(cond),
            after_block: Box::new(ExprBlock { exprs: after }),
            interior_block: Box::new(ExprBlock { exprs: body }),
        }))
    }

    fn walk_switch(&mut self, sw: &ExprSwitch) -> (r: Option<Expr>)
        ensures
            walked(old(self)@, expr_view(Expr::Switch(*sw)), final(self)@, r),
        decreases sw, 0nat,
    {
        let new_expr = match self.walk_expr(&sw.expr) {
            Some(x) => x,
            None => return None,
        };
        let inferred_type = first_or_u256_exec(&self.evaluated_types);
        let expected = crate::types::clone_types(&self.evaluated_types);
        match self.walk_cases(&expected, &sw.cases) {
            Some(cases) => Some(Expr::Switch(ExprSwitch {
                default_case: match &sw.default_case {
                    Some(b) => Some(clone_block(b)),
                    None => None,
                },
                inferred_type,
                expr: Box::new(new_expr),
                cases,
            })),
            None => None,
        }
    }

    fn declare_typeds(&mut self, ts: &Vec<crate::types::TypedIdentifier>)
        ensures
            final(self)@ == (InferState { scope: declare_all(old(self)@.scope, typeds_view(ts@)), ..old(self)@ }),
    {
        let ghost vars = typeds_view(ts@);
        let ghost scope0 = self@.scope;
        let mut k: usize = 0;
        while k < ts.len()
            invariant
                k <= ts.len(),
                vars == typeds_view(ts@),
                self.scoped_variables@ == declare_all(scope0, vars.take(k as int)),
                self.expected_types@ == old(self)@.expected,
                self.evaluated_types@ == old(self)@.evaluated,
            decreases ts.len() - k,
        {
            proof {
                assert(vars.take(k + 1).drop_last() =~= vars.take(k as int));
            }
            self.scoped_variables.insert(ts[k].identifier.clone(), ts[k].yul_type);
            k = k + 1;
        }
        proof {
            assert(vars.take(ts.len() as int) =~= vars);
        }
    }
}

/// Infers the types of a program: the declared type of each variable is
/// given to its references, to the values assigned to it and to the literals
/// and calls that compute them. Returns `None` for the programs that
/// inference rejects (see `infer_expr`).
pub fn try_infer_types(ast: &Vec<Expr>) -> (res: Option<Vec<Expr>>)
    ensures
        match spec_infer_types(exprs_view(ast@)) {
            Some(r) => res matches Some(v) && exprs_view(v@) == r,
            None => res is None,
        },
{
    let mut inferrer = TypeInferrer {
        scoped_variables: StrMap::new(),
        expected_types: Vec::new(),
        evaluated_types: Vec::new(),
    };
    proof {
        assert(inferrer@ == initial_state());
    }
    inferrer.walk_ast(ast)
}

/// Infers the types of a program that inference accepts.
pub fn infer_types(ast: &Vec<Expr>) -> (res: Vec<Expr>)
    requires
        spec_infer_types(exprs_view(ast@)) is Some,
    ensures
        spec_infer_types(exprs_view(ast@)) == Some(exprs_view(res@)),
{
    match try_infer_types(ast) {
        Some(v) => v,
        None => Vec::new(),
    }
}


/// A literal without its inferred type.
pub open spec fn untyped_literal(l: SLiteral) -> SLiteral {
    match l {
        SLiteral::Number { inferred_type: _, value } => SLiteral::Number { inferred_type: None, value },
        _ => l,
    }
}

/// The program with every inferred type removed; the default case of a
/// switch, which inference does not visit, is kept as it is.
pub open spec fn untyped(e: SExpr) -> SExpr
    decreases e,
{
    match e {
        SExpr::Literal(l) => SExpr::Literal(untyped_literal(l)),
        SExpr::FunctionDefinition { name, params, rets, block } => SExpr::FunctionDefinition {
            name,
            params,
            rets,
            block: untyped_seq(block),
        },
        SExpr::FunctionCall { name, args, return_types: _, param_types: _ } => SExpr::FunctionCall {
            name,
            args: untyped_seq(args),
            return_types: Seq::empty(),
            param_types: Seq::empty(),
        },
        SExpr::IfStatement { cond, body } => SExpr::IfStatement {
            cond: Box::new(untyped(*cond)),
            body: untyped_seq(body),
        },
        SExpr::Assignment { names, types: _, rhs } => SExpr::Assignment {
            names,
            types: Seq::empty(),
            rhs: Box::new(untyped(*rhs)),
        },
        SExpr::DeclareVariable { vars, rhs } => SExpr::DeclareVariable {
            vars,
            rhs: match rhs {
                Some(r) => Some(Box::new(untyped(*r))),
                None => None,
            },
        },
        SExpr::ForLoop { init, cond, after, body } => SExpr::ForLoop {
            init: untyped_seq(init),
            cond: Box::new(untyped(*cond)),
            after: untyped_seq(after),
            body: untyped_seq(body),
        },
        SExpr::Block(es) => SExpr::Block(untyped_seq(es)),
        SExpr::Switch { default_case, inferred_type: _, scrutinee, cases } => SExpr::Switch {
            default_case,
            inferred_type: None,
            scrutinee: Box::new(untyped(*scrutinee)),
            cases: untyped_cases(cases),
        },
        SExpr::Case(c) => SExpr::Case(c),
        SExpr::Variable { name, inferred_type: _ } => SExpr::Variable { name, inferred_type: None },
        SExpr::Repeat { body, iterations } => SExpr::Repeat { body: untyped_seq(body), iterations },
        SExpr::Break => SExpr::Break,
        SExpr::Continue => SExpr::Continue,
        SExpr::Leave => SExpr::Leave,
    }
}

/// `untyped` of each statement.
pub open spec fn untyped_seq(es: Seq<SExpr>) -> Seq<SExpr>
    decreases es,
{
    if es.len() == 0 {
        Seq::empty()
    } else {
        untyped_seq(es.drop_last()).push(untyped(es.last()))
    }
}

/// `untyped` of each case.
pub open spec fn untyped_cases(cs: Seq<SCase>) -> Seq<SCase>
    decreases cs,
{
    if cs.len() == 0 {
        Seq::empty()
    } else {
        untyped_cases(cs.drop_last()).push(
            SCase { literal: untyped_literal(cs.last().literal), block: untyped_seq(cs.last().block) },
        )
    }
}

proof fn lemma_untyped_seq_len(es: Seq<SExpr>)
    ensures
        untyped_seq(es).len() == es.len(),
    decreases es.len(),
{
    if es.len() > 0 {
        lemma_untyped_seq_len(es.drop_last());
    }
}

proof fn lemma_untyped_cases_len(cs: Seq<SCase>)
    ensures
        untyped_cases(cs).len() == cs.len(),
    decreases cs.len(),
{
    if cs.len() > 0 {
        lemma_untyped_cases_len(cs.drop_last());
    }
}

/// Inference of an expression reads no inferred type of it: it gives the same
/// result on the untyped expression; and what it returns differs from its
/// input in the inferred types alone.
pub proof fn lemma_infer_expr_untyped(st: InferState, e: SExpr)
    ensures
        infer_expr(st, e) == infer_expr(st, untyped(e)),
        infer_expr(st, e) matches Some((_, r)) ==> untyped(r) == untyped(e),
    decreases e,
{
    match e {
        SExpr::Literal(l) => {},
        SExpr::FunctionCall { name, args, return_types, param_types } => {
            lemma_infer_args_untyped(st, name, st.expected, args);
        },
        SExpr::IfStatement { cond, body } => {
            lemma_infer_expr_untyped(st, *cond);
            if let Some((st1, c1)) = infer_expr(st, *cond) {
                lemma_infer_seq_untyped(st1, body);
            }
        },
        SExpr::Assignment { names, types, rhs } => {
            let types1 = scope_types(st.scope, names);
            lemma_infer_expr_untyped(InferState { expected: types1, ..st }, *rhs);
        },
        SExpr::DeclareVariable { vars, rhs } => {
            let st1 = InferState {
                scope: declare_all(st.scope, vars),
                expected: declared_types(vars),
                ..st
            };
            if let Some(r) = rhs {
                lemma_infer_expr_untyped(st1, *r);
            }
        },
        SExpr::FunctionDefinition { name, params, rets, block } => {
            let st1 = InferState { scope: declare_all(declare_all(st.scope, params), rets), ..st };
            lemma_infer_seq_untyped(st1, block);
        },
        SExpr::Repeat { body, iterations } => {
            lemma_infer_seq_untyped(st, body);
        },
        SExpr::ForLoop { init, cond, after, body } => {
            lemma_infer_seq_untyped(st, init);
            if let Some((st1, i1)) = infer_seq(st, init) {
                lemma_infer_expr_untyped(st1, *cond);
                if let Some((st2, c1)) = infer_expr(st1, *cond) {
                    lemma_infer_seq_untyped(st2, after);
                    if let Some((st3, a1)) = infer_seq(st2, after) {
                        lemma_infer_seq_untyped(st3, body);
                    }
                }
            }
        },
        SExpr::Block(es) => {
            lemma_infer_seq_untyped(st, es);
        },
        SExpr::Variable { name, inferred_type } => {},
        SExpr::Switch { default_case, inferred_type, scrutinee, cases } => {
            lemma_infer_expr_untyped(st, *scrutinee);
            if let Some((st1, s1)) = infer_expr(st, *scrutinee) {
                lemma_infer_cases_untyped(st1, st1.evaluated, cases);
            }
        },
        SExpr::Case(_) => {},
        SExpr::Break => {},
        SExpr::Continue => {},
        SExpr::Leave => {},
    }
}

/// `lemma_infer_expr_untyped` for a sequence of statements.
pub proof fn lemma_infer_seq_untyped(st: InferState, es: Seq<SExpr>)
    ensures
        infer_seq(st, es) == infer_seq(st, untyped_seq(es)),
        infer_seq(st, es) matches Some((_, r)) ==> untyped_seq(r) == untyped_seq(es),
    decreases es,
{
    if es.len() > 0 {
        lemma_infer_seq_untyped(st, es.drop_last());
        let u = untyped_seq(es);
        assert(u.drop_last() =~= untyped_seq(es.drop_last()));
        if let Some((st1, es1)) = infer_seq(st, es.drop_last()) {
            lemma_infer_expr_untyped(st1, es.last());
            if let Some((st2, e2)) = infer_expr(st1, es.last()) {
                assert(es1.push(e2).drop_last() =~= es1);
            }
        }
    }
}

/// `lemma_infer_expr_untyped` for the arguments of a call.
pub proof fn lemma_infer_args_untyped(
    st: InferState,
    name: Seq<char>,
    saved: Seq<Option<YulType>>,
    es: Seq<SExpr>,
)
    ensures
        infer_args(st, name, saved, es) == infer_args(st, name, saved, untyped_seq(es)),
        infer_args(st, name, saved, es) matches Some((_, r, _)) ==> untyped_seq(r) == untyped_seq(es),
    decreases es,
{
    if es.len() > 0 {
        lemma_infer_args_untyped(st, name, saved, es.drop_last());
        lemma_untyped_seq_len(es);
        let u = untyped_seq(es);
        assert(u.drop_last() =~= untyped_seq(es.drop_last()));
        if let Some((st1, es1, ps1)) = infer_args(st, name, saved, es.drop_last()) {
            let st1b = if expects_u32_argument(name, es.len() - 1) {
                InferState { expected: seq![Some(YulType::U32)], ..st1 }
            } else {
                st1
            };
            lemma_infer_expr_untyped(st1b, es.last());
            if let Some((st2, e2)) = infer_expr(st1b, es.last()) {
                assert(es1.push(e2).drop_last() =~= es1);
            }
        }
    }
}

/// `lemma_infer_expr_untyped` for the cases of a switch.
pub proof fn lemma_infer_cases_untyped(st: InferState, ev: Seq<Option<YulType>>, cs: Seq<SCase>)
    ensures
        infer_cases(st, ev, cs) == infer_cases(st, ev, untyped_cases(cs)),
        infer_cases(st, ev, cs) matches Some((_, r)) ==> untyped_cases(r) == untyped_cases(cs),
    decreases cs,
{
    if cs.len() > 0 {
        lemma_infer_cases_untyped(st, ev, cs.drop_last());
        let u = untyped_cases(cs);
        assert(u.drop_last() =~= untyped_cases(cs.drop_last()));
        if let Some((st1, cs1)) = infer_cases(st, ev, cs.drop_last()) {
            let (st2, lit) = infer_literal(InferState { expected: ev, ..st1 }, cs.last().literal);
            lemma_infer_seq_untyped(st2, cs.last().block);
            if let Some((st3, b)) = infer_seq(st2, cs.last().block) {
                assert(cs1.push(SCase { literal: lit, block: b }).drop_last() =~= cs1);
            }
        }
    }
}

/// Type inference changes only inferred types: the program it returns,
/// with those types removed, is the program it was given.
pub proof fn law_inference_keeps_program(ast: Seq<SExpr>)
    ensures
        spec_infer_types(ast) matches Some(r) ==> untyped_seq(r) == untyped_seq(ast),
{
    lemma_infer_seq_untyped(initial_state(), ast);
}

/// Type inference is idempotent: inferring the types of a program whose types
/// were inferred gives that program back.
pub proof fn law_inference_idempotent(ast: Seq<SExpr>)
    ensures
        spec_infer_types(ast) matches Some(r) ==> spec_infer_types(r) == Some(r),
{
    lemma_infer_seq_untyped(initial_state(), ast);
    if let Some(r) = spec_infer_types(ast) {
        lemma_infer_seq_untyped(initial_state(), r);
    }
}

} // verus!
