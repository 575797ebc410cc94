//! The rewrite of counted `for` loops into `repeat` blocks, and the walk that
//! applies a rewrite to every expression of a tree.
//!
//! A loop is counted when its initialiser is a single `let` of a number, its
//! condition compares the counter with a number (`lt` counting up, `gt`
//! counting down), and its after block is a single assignment of the counter
//! by `add` or `mul` (up), `sub` or `div` (down) with a number. The numbers
//! must fit in 64 bits. The repeat count is then the number of rounds the
//! loop runs, over the natural numbers. Of a loop with such an initialiser
//! and condition and a single after statement, an after statement that is
//! not an assignment takes the loop's place, and an assignment by anything
//! but `add`, `sub`, `mul` or `div` makes a `repeat` of zero rounds. Any
//! other loop is kept as it is.
use vstd::prelude::*;
use crate::types::{Expr, ExprLiteral, ExprBlock, ExprRepeat, ExprForLoop,
    ExprFunctionCall, ExprIfStatement, ExprAssignment, ExprDeclareVariable,
    SExpr, SLiteral, expr_view, names_view, exprs_view, lemma_exprs_view, clone_expr,
    clone_strings, clone_types, clone_typeds};
use crate::text::{str_eq, copy_string};

verus! {

/// How a counted loop moves its counter, by a number.
pub enum Step {
    Add(u64),
    Sub(u64),
    Mul(u64),
    Div(u64),
}

/// The value of a number literal that fits in 64 bits.
pub open spec fn small_number(e: SExpr) -> Option<u64> {
    match e {
        SExpr::Literal(SLiteral::Number { inferred_type: _, value }) => if value.limb1 == 0 && value.limb2 == 0
            && value.limb3 == 0 {
            Some(value.limb0)
        } else {
            None
        },
        _ => None,
    }
}

/// `e` is a reference to the variable `counter`.
pub open spec fn is_counter(e: SExpr, counter: Seq<char>) -> bool {
    e matches SExpr::Variable { name, inferred_type: _ } && name == counter
}

/// The counter and its start: the single `let` of a single variable to a
/// number that makes up the initialiser.
pub open spec fn loop_start(init: Seq<SExpr>) -> Option<(Seq<char>, u64)> {
    if init.len() != 1 {
        None
    } else {
        match init[0] {
            SExpr::DeclareVariable { vars, rhs: Some(r) } => if vars.len() == 1 {
                match small_number(*r) {
                    Some(v) => Some((vars[0].name, v)),
                    None => None,
                }
            } else {
                None
            },
            _ => None,
        }
    }
}

/// The condition `lt(counter, end)` (counting up, `true`) or
/// `gt(counter, end)` (counting down, `false`), with its bound.
pub open spec fn loop_bound(cond: SExpr, counter: Seq<char>) -> Option<(bool, u64)> {
    match cond {
        SExpr::FunctionCall { name, args, return_types: _, param_types: _ } => if args.len() == 2 && is_counter(
            args[0],
            counter,
        ) && small_number(args[1]) is Some {
            if name == "lt"@ {
                Some((true, small_number(args[1])->0))
            } else if name == "gt"@ {
                Some((false, small_number(args[1])->0))
            } else {
                None
            }
        } else {
            None
        },
        _ => None,
    }
}

/// The number of a step `op(counter, n)`, or for `add` and `mul` also
/// `op(n, counter)`.
pub open spec fn step_number(name: Seq<char>, args: Seq<SExpr>, counter: Seq<char>) -> Option<u64> {
    if args.len() != 2 {
        None
    } else if is_counter(args[0], counter) && small_number(args[1]) is Some {
        small_number(args[1])
    } else if (name == "add"@ || name == "mul"@) && small_number(args[0]) is Some && is_counter(args[1], counter) {
        small_number(args[0])
    } else {
        None
    }
}

/// The after block's single statement `counter := op(..)`, as a step.
pub open spec fn loop_step(after: Seq<SExpr>, counter: Seq<char>) -> Option<Step> {
    if after.len() != 1 {
        None
    } else {
        match after[0] {
            SExpr::Assignment { names, types: _, rhs } => if names == seq![counter] {
                match *rhs {
                    SExpr::FunctionCall { name, args, return_types: _, param_types: _ } => match step_number(
                        name,
                        args,
                        counter,
                    ) {
                        Some(k) => if name == "add"@ {
                            Some(Step::Add(k))
                        } else if name == "sub"@ {
                            Some(Step::Sub(k))
                        } else if name == "mul"@ {
                            Some(Step::Mul(k))
                        } else if name == "div"@ {
                            Some(Step::Div(k))
                        } else {
                            None
                        },
                        None => None,
                    },
                    _ => None,
                }
            } else {
                None
            },
            _ => None,
        }
    }
}

/// How far `i` is below `e`.
pub open spec fn gap(i: nat, e: nat) -> nat {
    if i < e {
        (e - i) as nat
    } else {
        0
    }
}

/// The rounds of a loop that runs while `i < e`, adding `k` each round.
pub open spec fn add_rounds(i: nat, e: nat, k: nat) -> nat
    decreases gap(i, e),
    when k > 0
{
    if i < e {
        1 + add_rounds(i + k, e, k)
    } else {
        0
    }
}

/// The rounds of a loop that runs while `i > e`, subtracting `k` each
/// round, when it never goes below zero (`k` at most `e + 1`).
pub open spec fn sub_rounds(i: nat, e: nat, k: nat) -> nat
    decreases i,
    when k > 0 && k <= e + 1
{
    if i > e {
        1 + sub_rounds((i - k) as nat, e, k)
    } else {
        0
    }
}

/// The rounds of a loop that runs while `i < e`, multiplying by `k` each
/// round, from a positive `i`.
pub open spec fn mul_rounds(i: nat, e: nat, k: nat) -> nat
    decreases gap(i, e),
    when k >= 2 && i >= 1
{
    if i < e {
        proof {
            assert(i * k >= i + 1) by (nonlinear_arith)
                requires
                    k >= 2,
                    i >= 1,
            ;
        }
        1 + mul_rounds(i * k, e, k)
    } else {
        0
    }
}

/// The rounds of a loop that runs while `i > e`, dividing by `k` each round.
pub open spec fn div_rounds(i: nat, e: nat, k: nat) -> nat
    decreases i,
    when k >= 2
{
    if i > e {
        proof {
            assert(i / k < i) by (nonlinear_arith)
                requires
                    k >= 2,
                    i >= 1,
            ;
        }
        1 + div_rounds(i / k, e, k)
    } else {
        0
    }
}

/// The rounds of a counted loop from `start`, or `None` when the direction
/// and the step do not fit (the loop might not end, or would go below
/// zero).
pub open spec fn rounds(start: u64, up: bool, end: u64, step: Step) -> Option<nat> {
    match step {
        Step::Add(k) => if up && k > 0 {
            Some(add_rounds(start as nat, end as nat, k as nat))
        } else {
            None
        },
        Step::Mul(k) => if up && k >= 2 && start >= 1 {
            Some(mul_rounds(start as nat, end as nat, k as nat))
        } else {
            None
        },
        Step::Sub(k) => if !up && k > 0 && k <= end + 1 {
            Some(sub_rounds(start as nat, end as nat, k as nat))
        } else {
            None
        },
        Step::Div(k) => if !up && k >= 2 {
            Some(div_rounds(start as nat, end as nat, k as nat))
        } else {
            None
        },
    }
}

/// The number of rounds of a counted loop, when it fits in a `u32`; `None`
/// for a loop that is kept.
pub open spec fn loop_count(init: Seq<SExpr>, cond: SExpr, after: Seq<SExpr>) -> Option<u32> {
    match loop_start(init) {
        Some((counter, start)) => match loop_bound(cond, counter) {
            Some((up, end)) => match loop_step(after, counter) {
                Some(step) => match rounds(start, up, end, step) {
                    Some(n) => if n <= u32::MAX {
                        Some(n as u32)
                    } else {
                        None
                    },
                    None => None,
                },
                None => None,
            },
            None => None,
        },
        None => None,
    }
}

/// What becomes of a `for` loop.
pub enum LoopRewrite {
    /// The loop is kept.
    Keep,
    /// The loop becomes a `repeat` of its body, this many times.
    Repeat(u32),
    /// The loop is replaced by the statement of its after block.
    After,
}

/// A call of the operations that step a counter: `add`, `sub`, `mul` or
/// `div`.
pub open spec fn is_step_call(e: SExpr) -> bool {
    e matches SExpr::FunctionCall { name, args: _, return_types: _, param_types: _ } && (name == "add"@ || name
        == "sub"@ || name == "mul"@ || name == "div"@)
}

/// What becomes of a loop with a counter and a bound: when its after block
/// is a single statement, a statement other than an assignment replaces
/// the loop; an assignment by a step call makes it a `repeat` when it is
/// counted (and keeps it otherwise); any other assignment makes a `repeat`
/// of zero rounds.
pub open spec fn loop_rewrite(init: Seq<SExpr>, cond: SExpr, after: Seq<SExpr>) -> LoopRewrite {
    match loop_start(init) {
        Some((counter, start)) => match loop_bound(cond, counter) {
            Some(_) => if after.len() != 1 {
                LoopRewrite::Keep
            } else {
                match after[0] {
                    SExpr::Assignment { names: _, types: _, rhs } => if is_step_call(*rhs) {
                        match loop_count(init, cond, after) {
                            Some(n) => LoopRewrite::Repeat(n),
                            None => LoopRewrite::Keep,
                        }
                    } else {
                        LoopRewrite::Repeat(0)
                    },
                    _ => LoopRewrite::After,
                }
            },
            None => LoopRewrite::Keep,
        },
        None => LoopRewrite::Keep,
    }
}

/// The rewrite of one expression: a counted `for` loop becomes a `repeat`
/// of its body as many times as it runs, a loop whose after block is a
/// single statement other than an assignment becomes that statement, and
/// anything else is kept.
pub open spec fn spec_visit(e: SExpr) -> SExpr {
    match e {
        SExpr::ForLoop { init, cond, after, body } => match loop_rewrite(init, *cond, after) {
            LoopRewrite::Keep => e,
            LoopRewrite::Repeat(n) => SExpr::Repeat { body, iterations: n },
            LoopRewrite::After => after[0],
        },
        _ => e,
    }
}

/// The rewrite applied to a whole tree: each expression is rewritten, then
/// the parts of what it became are walked. `None` where the walk cannot go:
/// a call with fewer than two arguments, or a function definition, `break`,
/// `continue`, `leave`, `switch` or stray `case`.
pub open spec fn spec_walk(e: SExpr) -> Option<SExpr>
    decreases e, 2nat,
{
    match e {
        SExpr::ForLoop { init, cond, after, body } => match loop_rewrite(init, *cond, after) {
            LoopRewrite::Keep => spec_walk_parts(e),
            LoopRewrite::Repeat(n) => match spec_walk_seq(body) {
                Some(b) => Some(SExpr::Repeat { body: b, iterations: n }),
                None => None,
            },
            LoopRewrite::After => spec_walk_parts(after[0]),
        },
        _ => spec_walk_parts(e),
    }
}

/// The walk of the parts of an expression, which keeps its own form; only
/// the first two arguments of a call are kept.
pub open spec fn spec_walk_parts(e: SExpr) -> Option<SExpr>
    decreases e, 1nat,
{
    match e {
        SExpr::Literal(_) => Some(e),
        SExpr::Variable { .. } => Some(e),
        SExpr::FunctionCall { name, args, return_types, param_types } => if args.len() < 2 {
            None
        } else {
            match (spec_walk(args[0]), spec_walk(args[1])) {
                (Some(a), Some(b)) => Some(SExpr::FunctionCall { name, args: seq![a, b], return_types, param_types }),
                _ => None,
            }
        },
        SExpr::IfStatement { cond, body } => match (spec_walk(*cond), spec_walk_seq(body)) {
            (Some(c), Some(b)) => Some(SExpr::IfStatement { cond: Box::new(c), body: b }),
            _ => None,
        },
        SExpr::Assignment { names, types, rhs } => match spec_walk(*rhs) {
            Some(r) => Some(SExpr::Assignment { names, types, rhs: Box::new(r) }),
            None => None,
        },
        SExpr::DeclareVariable { vars, rhs } => match rhs {
            Some(r) => match spec_walk(*r) {
                Some(r2) => Some(SExpr::DeclareVariable { vars, rhs: Some(Box::new(r2)) }),
                None => None,
            },
            None => Some(e),
        },
        SExpr::Repeat { body, iterations } => match spec_walk_seq(body) {
            Some(b) => Some(SExpr::Repeat { body: b, iterations }),
            None => None,
        },
        SExpr::ForLoop { init, cond, after, body } => match (
            spec_walk_seq(init),
            spec_walk(*cond),
            spec_walk_seq(after),
            spec_walk_seq(body),
        ) {
            (Some(i), Some(c), Some(a), Some(b)) => Some(SExpr::ForLoop { init: i, cond: Box::new(c), after: a, body: b }),
            _ => None,
        },
        SExpr::Block(es) => match spec_walk_seq(es) {
            Some(b) => Some(SExpr::Block(b)),
            None => None,
        },
        _ => None,
    }
}

/// The walk of each expression of a sequence.
pub open spec fn spec_walk_seq(es: Seq<SExpr>) -> Option<Seq<SExpr>>
    decreases es, 0nat,
{
    if es.len() == 0 {
        Some(Seq::empty())
    } else {
        match (spec_walk_seq(es.drop_last()), spec_walk(es.last())) {
            (Some(a), Some(b)) => Some(a.push(b)),
            _ => None,
        }
    }
}

/// Rounding up a division: `(d + k - 1) / k` is `d / k`, plus one when `k`
/// does not divide `d`.
proof fn lemma_ceil_div(d: nat, k: nat)
    requires
        k > 0,
    ensures
        (d + k - 1) as nat / k == d / k + (if d % k == 0 { 0nat } else { 1nat }),
{
    let di = d as int;
    let ki = k as int;
    let q = di / ki;
    let r = di % ki;
    vstd::arithmetic::div_mod::lemma_fundamental_div_mod(di, ki);
    assert(di == q * ki + r) by (nonlinear_arith)
        requires
            di == ki * q + r,
    ;
    if r == 0 {
        assert(di + ki - 1 == q * ki + (ki - 1)) by (nonlinear_arith)
            requires
                di == q * ki + r,
                r == 0,
        ;
        vstd::arithmetic::div_mod::lemma_fundamental_div_mod_converse(di + ki - 1, ki, q, ki - 1);
    } else {
        assert(di + ki - 1 == (q + 1) * ki + (r - 1)) by (nonlinear_arith)
            requires
                di == q * ki + r,
        ;
        vstd::arithmetic::div_mod::lemma_fundamental_div_mod_converse(di + ki - 1, ki, q + 1, r - 1);
    }
}

/// Counting up by `k` takes the distance divided by `k`, rounded up.
pub proof fn law_add_rounds(i: nat, e: nat, k: nat)
    requires
        k > 0,
    ensures
        add_rounds(i, e, k) == if i < e { ((e - i) + k - 1) as nat / k } else { 0 },
    decreases gap(i, e),
{
    if i < e {
        law_add_rounds(i + k, e, k);
        let d = (e - i) as nat;
        if i + k < e {
            let d2 = (e - (i + k)) as nat;
            assert(d2 + k == d);
            lemma_ceil_div(d, k);
            lemma_ceil_div(d2, k);
            vstd::arithmetic::div_mod::lemma_fundamental_div_mod(d2 as int, k as int);
            assert(d == (d2 / k + 1) * k + d2 % k) by (nonlinear_arith)
                requires
                    d2 == k * (d2 / k) + d2 % k,
                    d2 + k == d,
            ;
            vstd::arithmetic::div_mod::lemma_fundamental_div_mod_converse(
                d as int,
                k as int,
                (d2 / k + 1) as int,
                (d2 % k) as int,
            );
        } else {
            vstd::arithmetic::div_mod::lemma_fundamental_div_mod_converse(
                (d + k - 1) as int,
                k as int,
                1,
                (d - 1) as int,
            );
        }
    }
}

/// Counting down by `k` takes the distance divided by `k`, rounded up.
pub proof fn law_sub_rounds(i: nat, e: nat, k: nat)
    requires
        k > 0,
        k <= e + 1,
    ensures
        sub_rounds(i, e, k) == if i > e { ((i - e) + k - 1) as nat / k } else { 0 },
    decreases i,
{
    if i > e {
        law_sub_rounds((i - k) as nat, e, k);
        let d = (i - e) as nat;
        if (i - k) as nat > e {
            let d2 = ((i - k) - e) as nat;
            assert(d2 + k == d);
            lemma_ceil_div(d, k);
            lemma_ceil_div(d2, k);
            vstd::arithmetic::div_mod::lemma_fundamental_div_mod(d2 as int, k as int);
            assert(d == (d2 / k + 1) * k + d2 % k) by (nonlinear_arith)
                requires
                    d2 == k * (d2 / k) + d2 % k,
                    d2 + k == d,
            ;
            vstd::arithmetic::div_mod::lemma_fundamental_div_mod_converse(
                d as int,
                k as int,
                (d2 / k + 1) as int,
                (d2 % k) as int,
            );
        } else {
            vstd::arithmetic::div_mod::lemma_fundamental_div_mod_converse(
                (d + k - 1) as int,
                k as int,
                1,
                (d - 1) as int,
            );
        }
    }
}

fn small_number_exec(e: &Expr) -> (r: Option<u64>)
    ensures
        r == small_number(expr_view(*e)),
{
    match e {
        Expr::Literal(ExprLiteral::Number(n)) => if n.value.limb1 == 0 && n.value.limb2 == 0 && n.value.limb3 == 0 {
            Some(n.value.limb0)
        } else {
            None
        },
        _ => None,
    }
}

fn is_counter_exec(e: &Expr, counter: &String) -> (r: bool)
    ensures
        r == is_counter(expr_view(*e), counter@),
{
    match e {
        Expr::Variable(v) => str_eq(v.identifier.as_str(), counter.as_str()),
        _ => false,
    }
}

fn loop_start_exec(init: &Vec<Expr>) -> (r: Option<(String, u64)>)
    ensures
        match loop_start(exprs_view(init@)) {
            Some((c, v)) => r matches Some(p) && p.0@ == c && p.1 == v,
            None => r is None,
        },
{
    proof {
        lemma_exprs_view(init@);
    }
    if init.len() != 1 {
        return None;
    }
    match &init[0] {
        Expr::DeclareVariable(d) => {
            if d.typed_identifiers.len() != 1 {
                return None;
            }
            match &d.rhs {
                Some(r) => match small_number_exec(r) {
                    Some(v) => Some((copy_string(&d.typed_identifiers[0].identifier), v)),
                    None => None,
                },
                None => None,
            }
        },
        _ => None,
    }
}

fn loop_bound_exec(cond: &Expr, counter: &String) -> (r: Option<(bool, u64)>)
    ensures
        r == loop_bound(expr_view(*cond), counter@),
{
    match cond {
        Expr::FunctionCall(c) => {
            proof {
                lemma_exprs_view(c.exprs@);
            }
            if c.exprs.len() != 2 || !is_counter_exec(&c.exprs[0], counter) {
                return None;
            }
            match small_number_exec(&c.exprs[1]) {
                Some(e) => if str_eq(c.function_name.as_str(), "lt") {
                    Some((true, e))
                } else if str_eq(c.function_name.as_str(), "gt") {
                    Some((false, e))
                } else {
                    None
                },
                None => None,
            }
        },
        _ => None,
    }
}

fn loop_step_exec(after: &Vec<Expr>, counter: &String) -> (r: Option<Step>)
    ensures
        r == loop_step(exprs_view(after@), counter@),
{
    proof {
        lemma_exprs_view(after@);
    }
    if after.len() != 1 {
        return None;
    }
    match &after[0] {
        Expr::Assignment(a) => {
            if a.identifiers.len() != 1 || !str_eq(a.identifiers[0].as_str(), counter.as_str()) {
                proof {
                    if a.identifiers.len() == 1 {
                        assert(names_view(a.identifiers@)[0] == a.identifiers@[0]@);
                        assert(seq![counter@][0] == counter@);
                    } else {
                        assert(names_view(a.identifiers@).len() != 1);
                    }
                    assert(names_view(a.identifiers@) != seq![counter@]);
                }
                return None;
            }
            proof {
                assert(names_view(a.identifiers@) =~= seq![counter@]);
            }
            match &*a.rhs {
                Expr::FunctionCall(c) => {
                    proof {
                        lemma_exprs_view(c.exprs@);
                        assert(expr_view(*a.rhs) == SExpr::FunctionCall {
                            name: c.function_name@,
                            args: exprs_view(c.exprs@),
                            return_types: c.inferred_return_types@,
                            param_types: c.inferred_param_types@,
                        });
                    }
                    let name = c.function_name.as_str();
                    let k = if c.exprs.len() != 2 {
                        None
                    } else if is_counter_exec(&c.exprs[0], counter) && small_number_exec(&c.exprs[1]).is_some() {
                        small_number_exec(&c.exprs[1])
                    } else if (str_eq(name, "add") || str_eq(name, "mul")) && small_number_exec(&c.exprs[0]).is_some()
                        && is_counter_exec(&c.exprs[1], counter) {
                        small_number_exec(&c.exprs[0])
                    } else {
                        None
                    };
                    proof {
                        assert(k == step_number(c.function_name@, exprs_view(c.exprs@), counter@));
                    }
                    match k {
                        Some(k) => if str_eq(name, "add") {
                            Some(Step::Add(k))
                        } else if str_eq(name, "sub") {
                            Some(Step::Sub(k))
                        } else if str_eq(name, "mul") {
                            Some(Step::Mul(k))
                        } else if str_eq(name, "div") {
                            Some(Step::Div(k))
                        } else {
                            None
                        },
                        None => None,
                    }
                },
                _ => {
                    proof {
                        assert(!(expr_view(*a.rhs) is FunctionCall));
                    }
                    None
                },
            }
        },
        _ => None,
    }
}

/// The rounds of a counted loop, computed.
fn rounds_exec(start: u64, up: bool, end: u64, step: &Step) -> (r: Option<u64>)
    ensures
        match rounds(start, up, end, *step) {
            Some(n) => r == Some(n as u64) || (r is None && n > u64::MAX),
            None => r is None,
        },
        r matches Some(n) ==> rounds(start, up, end, *step) == Some(n as nat),
{
    match step {
        Step::Add(k) => {
            if !up || *k == 0 {
                return None;
            }
            proof {
                law_add_rounds(start as nat, end as nat, *k as nat);
            }
            if start < end {
                let d = end - start;
                proof {
                    lemma_ceil_div(d as nat, *k as nat);
                    if *k >= 2 {
                        assert(d / *k < d) by (nonlinear_arith)
                            requires
                                *k >= 2,
                                d >= 1,
                        ;
                    } else {
                        assert(d % 1 == 0);
                    }
                }
                let n = d / *k + if d % *k == 0 { 0 } else { 1 };
                Some(n)
            } else {
                Some(0)
            }
        },
        Step::Sub(k) => {
            if up || *k == 0 || *k as u128 > end as u128 + 1 {
                return None;
            }
            proof {
                law_sub_rounds(start as nat, end as nat, *k as nat);
            }
            if start > end {
                let d = start - end;
                proof {
                    lemma_ceil_div(d as nat, *k as nat);
                    if *k >= 2 {
                        assert(d / *k < d) by (nonlinear_arith)
                            requires
                                *k >= 2,
                                d >= 1,
                        ;
                    } else {
                        assert(d % 1 == 0);
                    }
                }
                let n = d / *k + if d % *k == 0 { 0 } else { 1 };
                Some(n)
            } else {
                Some(0)
            }
        },
        Step::Mul(k) => {
            if !up || *k < 2 || start < 1 {
                return None;
            }
            let k = *k;
            let mut j: u128 = start as u128;
            let mut n: u64 = 0;
            while j < end as u128
                invariant
                    j >= 1,
                    k >= 2,
                    (n as nat) < j,
                    j < 0x1_0000_0000_0000_0000 * 0x1_0000_0000_0000_0000,
                    n + mul_rounds(j as nat, end as nat, k as nat) == mul_rounds(start as nat, end as nat, k as nat),
                decreases if j < end as u128 { end as u128 - j } else { 0 },
            {
                assert(j * k < 0x1_0000_0000_0000_0000 * 0x1_0000_0000_0000_0000 && j * k >= j + 1) by (nonlinear_arith)
                    requires
                        j < 0x1_0000_0000_0000_0000,
                        k < 0x1_0000_0000_0000_0000,
                        k >= 2,
                        j >= 1,
                ;
                j = j * (k as u128);
                n = n + 1;
            }
            Some(n)
        },
        Step::Div(k) => {
            if up || *k < 2 {
                return None;
            }
            let k = *k;
            let mut j: u64 = start;
            let mut n: u64 = 0;
            while j > end
                invariant
                    k >= 2,
                    n + j <= start,
                    n + div_rounds(j as nat, end as nat, k as nat) == div_rounds(start as nat, end as nat, k as nat),
                decreases j,
            {
                assert(j / k < j) by (nonlinear_arith)
                    requires
                        k >= 2,
                        j >= 1,
                ;
                j = j / k;
                n = n + 1;
            }
            Some(n)
        },
    }
}

fn loop_count_exec(f: &ExprForLoop) -> (r: Option<u32>)
    ensures
        r == loop_count(exprs_view(f.init_block.exprs@), expr_view(*f.conditional), exprs_view(f.after_block.exprs@)),
{
    match loop_start_exec(&f.init_block.exprs) {
        None => None,
        Some((counter, start)) => match loop_bound_exec(&f.conditional, &counter) {
            None => None,
            Some((up, end)) => match loop_step_exec(&f.after_block.exprs, &counter) {
                None => None,
                Some(step) => match rounds_exec(start, up, end, &step) {
                    Some(n) => if n <= 0xffff_ffff {
                        Some(n as u32)
                    } else {
                        None
                    },
                    None => None,
                },
            },
        },
    }
}

fn is_step_call_exec(e: &Expr) -> (r: bool)
    ensures
        r == is_step_call(expr_view(*e)),
{
    match e {
        Expr::FunctionCall(c) => {
            let n = c.function_name.as_str();
            str_eq(n, "add") || str_eq(n, "sub") || str_eq(n, "mul") || str_eq(n, "div")
        },
        _ => false,
    }
}

fn loop_rewrite_exec(f: &ExprForLoop) -> (r: LoopRewrite)
    ensures
        r == loop_rewrite(exprs_view(f.init_block.exprs@), expr_view(*f.conditional), exprs_view(f.after_block.exprs@)),
{
    proof {
        lemma_exprs_view(f.after_block.exprs@);
    }
    match loop_start_exec(&f.init_block.exprs) {
        None => LoopRewrite::Keep,
        Some((counter, _)) => match loop_bound_exec(&f.conditional, &counter) {
            None => LoopRewrite::Keep,
            Some(_) => {
                if f.after_block.exprs.len() != 1 {
                    return LoopRewrite::Keep;
                }
                match &f.after_block.exprs[0] {
                    Expr::Assignment(a) => {
                        if is_step_call_exec(&a.rhs) {
                            match loop_count_exec(f) {
                                Some(n) => LoopRewrite::Repeat(n),
                                None => LoopRewrite::Keep,
                            }
                        } else {
                            LoopRewrite::Repeat(0)
                        }
                    },
                    _ => LoopRewrite::After,
                }
            },
        },
    }
}

/// Rewrites counted `for` loops into `repeat` blocks.
pub struct ForLoopToRepeatVisitor {}

impl ForLoopToRepeatVisitor {
    /// A counted `for` loop becomes a `repeat` of its body, as many times as
    /// the loop runs; a loop whose after block is a single statement other
    /// than an assignment becomes that statement; any other expression is
    /// returned as it is.
    pub fn visit_expr(&mut self, expr: Expr) -> (r: Option<Expr>)
        ensures
            r matches Some(x) && expr_view(x) == spec_visit(expr_view(expr)),
    {
        match expr {
            Expr::ForLoop(f) => match loop_rewrite_exec(&f) {
                LoopRewrite::Repeat(n) => Some(Expr::Repeat(ExprRepeat { interior_block: f.interior_block, iterations: n })),
                LoopRewrite::Keep => Some(Expr::ForLoop(f)),
                LoopRewrite::After => {
                    proof {
                        lemma_exprs_view(f.after_block.exprs@);
                    }
                    let mut after = f.after_block.exprs;
                    let ghost a0 = after@;
                    let s = after.pop().unwrap();
                    proof {
                        assert(s == a0[0]);
                    }
                    Some(s)
                },
            },
            other => Some(other),
        }
    }
}

fn walk_ref(e: &Expr) -> (r: Option<Expr>)
    ensures
        match spec_walk(expr_view(*e)) {
            Some(x) => r matches Some(y) && expr_view(y) == x,
            None => r is None,
        },
    decreases e, 2nat,
{
    match e {
        Expr::ForLoop(f) => match loop_rewrite_exec(f) {
            LoopRewrite::Keep => walk_parts_ref(e),
            LoopRewrite::Repeat(n) => match walk_seq_ref(&f.interior_block.exprs) {
                Some(b) => Some(Expr::Repeat(ExprRepeat { interior_block: Box::new(ExprBlock { exprs: b }), iterations: n })),
                None => None,
            },
            LoopRewrite::After => {
                proof {
                    lemma_exprs_view(f.after_block.exprs@);
                }
                walk_parts_ref(&f.after_block.exprs[0])
            },
        },
        _ => walk_parts_ref(e),
    }
}

fn walk_parts_ref(e: &Expr) -> (r: Option<Expr>)
    ensures
        match spec_walk_parts(expr_view(*e)) {
            Some(x) => r matches Some(y) && expr_view(y) == x,
            None => r is None,
        },
    decreases e, 1nat,
{
    match e {
        Expr::Literal(_) => Some(clone_expr(e)),
        Expr::Variable(_) => Some(clone_expr(e)),
        Expr::FunctionCall(c) => {
            proof {
                lemma_exprs_view(c.exprs@);
            }
            if c.exprs.len() < 2 {
                return None;
            }
            let a = match walk_ref(&c.exprs[0]) {
                Some(a) => a,
                None => {
                    return None;
                },
            };
            let b = match walk_ref(&c.exprs[1]) {
                Some(b) => b,
                None => {
                    return None;
                },
            };
            let ghost av = expr_view(a);
            let ghost bv = expr_view(b);
            let args = vec![a, b];
            proof {
                lemma_exprs_view(args@);
                assert(exprs_view(args@) =~= seq![av, bv]);
            }
            Some(
                Expr::FunctionCall(ExprFunctionCall {
                    function_name: copy_string(&c.function_name),
                    exprs: Box::new(args),
                    inferred_return_types: clone_types(&c.inferred_return_types),
                    inferred_param_types: clone_types(&c.inferred_param_types),
                }),
            )
        },
        Expr::IfStatement(i) => {
            let c = match walk_ref(&i.first_expr) {
                Some(c) => c,
                None => {
                    return None;
                },
            };
            let b = match walk_seq_ref(&i.second_expr.exprs) {
                Some(b) => b,
                None => {
                    return None;
                },
            };
            Some(Expr::IfStatement(ExprIfStatement { first_expr: Box::new(c), second_expr: Box::new(ExprBlock { exprs: b }) }))
        },
        Expr::Assignment(a) => match walk_ref(&a.rhs) {
            Some(r) => Some(
                Expr::Assignment(ExprAssignment {
                    identifiers: clone_strings(&a.identifiers),
                    inferred_types: clone_types(&a.inferred_types),
                    rhs: Box::new(r),
                }),
            ),
            None => None,
        },
        Expr::DeclareVariable(d) => match &d.rhs {
            Some(r) => match walk_ref(r) {
                Some(r2) => Some(
                    Expr::DeclareVariable(ExprDeclareVariable {
                        typed_identifiers: clone_typeds(&d.typed_identifiers),
                        rhs: Some(Box::new(r2)),
                    }),
                ),
                None => None,
            },
            None => Some(clone_expr(e)),
        },
        Expr::Repeat(r) => match walk_seq_ref(&r.interior_block.exprs) {
            Some(b) => Some(Expr::Repeat(ExprRepeat { interior_block: Box::new(ExprBlock { exprs: b }), iterations: r.iterations })),
            None => None,
        },
        Expr::ForLoop(f) => {
            {
                let i = match walk_seq_ref(&f.init_block.exprs) {
                    Some(x) => x,
                    None => {
                        return None;
                    },
                };
                let c = match walk_ref(&f.conditional) {
                    Some(x) => x,
                    None => {
                        return None;
                    },
                };
                let a = match walk_seq_ref(&f.after_block.exprs) {
                    Some(x) => x,
                    None => {
                        return None;
                    },
                };
                let b = match walk_seq_ref(&f.interior_block.exprs) {
                    Some(x) => x,
                    None => {
                        return None;
                    },
                };
                Some(
                    Expr::ForLoop(ExprForLoop {
                        init_block: Box::new(ExprBlock { exprs: i }),
                        conditional: Box::new(c),
                        after_block: Box::new(ExprBlock { exprs: a }),
                        interior_block: Box::new(ExprBlock { exprs: b }),
                    }),
                )
            }
        },
        Expr::Block(b) => match walk_seq_ref(&b.exprs) {
            Some(x) => Some(Expr::Block(ExprBlock { exprs: x })),
            None => None,
        },
        _ => None,
    }
}

fn walk_seq_ref(es: &Vec<Expr>) -> (r: Option<Vec<Expr>>)
    ensures
        match spec_walk_seq(exprs_view(es@)) {
            Some(x) => r matches Some(y) && exprs_view(y@) == x,
            None => r is None,
        },
    decreases es, 0nat,
{
    let ghost v = exprs_view(es@);
    proof {
        lemma_exprs_view(es@);
        assert(v.take(0) =~= Seq::<SExpr>::empty());
    }
    let mut out: Vec<Expr> = Vec::new();
    let mut i: usize = 0;
    while i < es.len()
        invariant
            i <= es.len(),
            v == exprs_view(es@),
            v.len() == es.len(),
            forall|j: int| 0 <= j < es.len() ==> #[trigger] v[j] == expr_view(es@[j]),
            spec_walk_seq(v.take(i as int)) == Some(exprs_view(out@)),
        decreases es.len() - i,
    {
        proof {
            assert(v.take(i + 1).drop_last() =~= v.take(i as int));
            assert(v.take(i + 1).last() == v[i as int]);
        }
        match walk_ref(&es[i]) {
            Some(x) => {
                let ghost out0 = out@;
                out.push(x);
                proof {
                    assert(out@.drop_last() =~= out0);
                }
            },
            None => {
                proof {
                    lemma_walk_seq_prefix(v, i + 1);
                }
                return None;
            },
        }
        i = i + 1;
    }
    proof {
        assert(v.take(es.len() as int) =~= v);
    }
    Some(out)
}

proof fn lemma_walk_seq_prefix(es: Seq<SExpr>, i: int)
    requires
        0 <= i <= es.len(),
        spec_walk_seq(es.take(i)) is None,
    ensures
        spec_walk_seq(es) is None,
    decreases es.len() - i,
{
    if i < es.len() {
        assert(es.drop_last().take(i) =~= es.take(i));
        lemma_walk_seq_prefix(es.drop_last(), i);
    } else {
        assert(es.take(i) =~= es);
    }
}

/// Walks an expression: it is rewritten by the visitor, then its parts are
/// walked.
pub fn walk_expr(expr: Expr, visitor: &mut ForLoopToRepeatVisitor) -> (r: Option<Expr>)
    requires
        spec_walk(expr_view(expr)) is Some,
    ensures
        r matches Some(x) && spec_walk(expr_view(expr)) == Some(expr_view(x)),
{
    walk_ref(&expr)
}

/// Walks each expression of a tree.
pub fn walk_ast(ast: Vec<Expr>, visitor: &mut ForLoopToRepeatVisitor) -> (r: Vec<Expr>)
    requires
        spec_walk_seq(exprs_view(ast@)) is Some,
    ensures
        spec_walk_seq(exprs_view(ast@)) == Some(exprs_view(r@)),
{
    match walk_seq_ref(&ast) {
        Some(x) => x,
        None => Vec::new(),
    }
}

/// Yul's comparison `name` of two numbers, for the comparisons a loop
/// condition may use.
pub open spec fn compare(name: Seq<char>, a: nat, b: nat) -> Option<bool> {
    if name == "lt"@ {
        Some(a < b)
    } else if name == "gt"@ {
        Some(a > b)
    } else if name == "lte"@ {
        Some(a <= b)
    } else if name == "gte"@ {
        Some(a >= b)
    } else if name == "eq"@ {
        Some(a == b)
    } else {
        None
    }
}

/// The value of an operand while the counter holds `v`: the counter, or a
/// number literal.
pub open spec fn operand(e: SExpr, counter: Seq<char>, v: nat) -> Option<nat> {
    match e {
        SExpr::Variable { name, inferred_type: _ } => if name == counter {
            Some(v)
        } else {
            None
        },
        SExpr::Literal(SLiteral::Number { inferred_type: _, value }) => Some(value.value()),
        _ => None,
    }
}

/// Whether a loop's condition holds while the counter holds `v`.
pub open spec fn holds_at(cond: SExpr, counter: Seq<char>, v: nat) -> Option<bool> {
    match cond {
        SExpr::FunctionCall { name, args, return_types: _, param_types: _ } => if args.len() == 2 {
            match (operand(args[0], counter, v), operand(args[1], counter, v)) {
                (Some(a), Some(b)) => compare(name, a, b),
                _ => None,
            }
        } else {
            None
        },
        _ => None,
    }
}

/// The counter after a loop's after block runs once from `v`: the block's
/// single assignment of the counter by `add`, `sub`, `mul` or `div` of the
/// counter and numbers, over the natural numbers.
pub open spec fn stepped(after: Seq<SExpr>, counter: Seq<char>, v: nat) -> Option<nat> {
    if after.len() != 1 {
        None
    } else {
        match after[0] {
            SExpr::Assignment { names, types: _, rhs } => if names == seq![counter] {
                match *rhs {
                    SExpr::FunctionCall { name, args, return_types: _, param_types: _ } => if args.len() == 2 {
                        match (operand(args[0], counter, v), operand(args[1], counter, v)) {
                            (Some(a), Some(b)) => if name == "add"@ {
                                Some(a + b)
                            } else if name == "sub"@ && a >= b {
                                Some((a - b) as nat)
                            } else if name == "mul"@ {
                                Some(a * b)
                            } else if name == "div"@ && b > 0 {
                                Some(a / b)
                            } else {
                                None
                            },
                            _ => None,
                        }
                    } else {
                        None
                    },
                    _ => None,
                }
            } else {
                None
            },
            _ => None,
        }
    }
}

/// The counter after `k` rounds of the loop from `v`.
pub open spec fn counter_after(after: Seq<SExpr>, counter: Seq<char>, v: nat, k: nat) -> Option<nat>
    decreases k,
{
    if k == 0 {
        Some(v)
    } else {
        match stepped(after, counter, v) {
            Some(w) => counter_after(after, counter, w, (k - 1) as nat),
            None => None,
        }
    }
}

/// A loop whose condition is `c` and whose step is `f` on the values where
/// `inv` holds, and `r` that counts its rounds: the condition holds on the
/// counter for `r(i)` rounds from `i`, and fails after them.
proof fn lemma_counted(
    after: Seq<SExpr>,
    counter: Seq<char>,
    cond: SExpr,
    c: spec_fn(nat) -> bool,
    f: spec_fn(nat) -> nat,
    r: spec_fn(nat) -> nat,
    inv: spec_fn(nat) -> bool,
    i: nat,
)
    requires
        inv(i),
        forall|x: nat| inv(x) ==> #[trigger] holds_at(cond, counter, x) == Some(c(x)),
        forall|x: nat|
            inv(x) && c(x) ==> #[trigger] stepped(after, counter, x) == Some(f(x)) && inv(f(x)) && r(x) == 1 + r(
                f(x),
            ),
        forall|x: nat| inv(x) && !c(x) ==> #[trigger] r(x) == 0,
    ensures
        forall|j: nat|
            j < r(i) ==> (#[trigger] counter_after(after, counter, i, j) matches Some(v) && holds_at(cond, counter, v)
                == Some(true)),
        counter_after(after, counter, i, r(i)) matches Some(v) && holds_at(cond, counter, v) == Some(false),
    decreases r(i),
{
    assert(holds_at(cond, counter, i) == Some(c(i)));
    if c(i) {
        assert(stepped(after, counter, i) == Some(f(i)));
        lemma_counted(after, counter, cond, c, f, r, inv, f(i));
        assert forall|j: nat| j < r(i) implies (#[trigger] counter_after(after, counter, i, j) matches Some(v)
            && holds_at(cond, counter, v) == Some(true)) by {
            if j > 0 {
                assert(counter_after(after, counter, i, j) == counter_after(after, counter, f(i), (j - 1) as nat));
            }
        }
        assert(counter_after(after, counter, i, r(i)) == counter_after(after, counter, f(i), r(f(i))));
    } else {
        assert(r(i) == 0);
    }
}

/// A loop rewritten to `repeat n` runs exactly `n` rounds: when a `for`
/// loop whose after block assigns its counter by `add`, `sub`, `mul` or
/// `div` becomes a `repeat` of `n` rounds, its condition holds on each of
/// the first `n` values the counter takes from its start, stepped as the
/// after block says, and fails on the next one.
pub proof fn law_repeat_runs_the_loop_rounds(init: Seq<SExpr>, cond: SExpr, after: Seq<SExpr>, body: Seq<SExpr>, n: u32)
    requires
        spec_visit(SExpr::ForLoop { init, cond: Box::new(cond), after, body }) == (SExpr::Repeat {
            body,
            iterations: n,
        }),
        after.len() == 1,
        after[0] matches SExpr::Assignment { names: _, types: _, rhs } && is_step_call(*rhs),
    ensures
        loop_start(init) matches Some((counter, start)) && (forall|j: nat|
            j < n ==> (#[trigger] counter_after(after, counter, start as nat, j) matches Some(v) && holds_at(
                cond,
                counter,
                v,
            ) == Some(true))) && (counter_after(after, counter, start as nat, n as nat) matches Some(v) && holds_at(
            cond,
            counter,
            v,
        ) == Some(false)),
{
    let (counter, start) = loop_start(init)->0;
    let (up, end) = loop_bound(cond, counter)->0;
    let step = loop_step(after, counter)->0;
    assert(loop_count(init, cond, after) == Some(n));
    let m = rounds(start, up, end, step)->0;
    assert(m == n);
    let e = end as nat;
    let s = start as nat;
    match step {
        Step::Add(k) => {
            let kk = k as nat;
            let c = |x: nat| x < e;
            let f = |x: nat| x + kk;
            let r = |x: nat| add_rounds(x, e, kk);
            let inv = |x: nat| true;
            assert forall|x: nat| inv(x) && c(x) implies #[trigger] stepped(after, counter, x) == Some(f(x)) && inv(
                f(x),
            ) && r(x) == 1 + r(f(x)) by {}
            lemma_counted(after, counter, cond, c, f, r, inv, s);
        },
        Step::Sub(k) => {
            let kk = k as nat;
            let c = |x: nat| x > e;
            let f = |x: nat| (x - kk) as nat;
            let r = |x: nat| sub_rounds(x, e, kk);
            let inv = |x: nat| true;
            assert(kk > 0 && kk <= e + 1);
            assert forall|x: nat| inv(x) && c(x) implies #[trigger] stepped(after, counter, x) == Some(f(x)) && inv(
                f(x),
            ) && r(x) == 1 + r(f(x)) by {
                assert(x >= kk);
                assert(sub_rounds(x, e, kk) == 1 + sub_rounds((x - kk) as nat, e, kk));
                reveal_strlit("sub");
                reveal_strlit("add");
                reveal_strlit("mul");
                assert("sub"@[0] != "add"@[0] && "sub"@[0] != "mul"@[0]);
            }
            lemma_counted(after, counter, cond, c, f, r, inv, s);
        },
        Step::Mul(k) => {
            let kk = k as nat;
            let c = |x: nat| x < e;
            let f = |x: nat| x * kk;
            let r = |x: nat| mul_rounds(x, e, kk);
            let inv = |x: nat| x >= 1;
            assert forall|x: nat| inv(x) && c(x) implies #[trigger] stepped(after, counter, x) == Some(f(x)) && inv(
                f(x),
            ) && r(x) == 1 + r(f(x)) by {
                assert(x * kk >= 1) by (nonlinear_arith)
                    requires
                        x >= 1,
                        kk >= 2,
                ;
                assert(kk * x == x * kk) by (nonlinear_arith);
            }
            lemma_counted(after, counter, cond, c, f, r, inv, s);
        },
        Step::Div(k) => {
            let kk = k as nat;
            let c = |x: nat| x > e;
            let f = |x: nat| x / kk;
            let r = |x: nat| div_rounds(x, e, kk);
            let inv = |x: nat| true;
            assert forall|x: nat| inv(x) && c(x) implies #[trigger] stepped(after, counter, x) == Some(f(x)) && inv(
                f(x),
            ) && r(x) == 1 + r(f(x)) by {}
            lemma_counted(after, counter, cond, c, f, r, inv, s);
        },
    }
}

} // verus!
