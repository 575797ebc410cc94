//! A printable tree of the syntax tree, drawn with `debug_tree`.
//!
//! Each expression adds leaves to the tree and steps into and out of the
//! branches it opens; what it adds is stated as a sequence of events, and
//! `debug_tree` draws the tree those events build.
use vstd::prelude::*;
use crate::types::{Expr, ExprLiteral, ExprLiteralNumber, ExprCase, TypedIdentifier, YulType, SExpr,
    SLiteral, SCase, STyped, expr_view, exprs_view, cases_view, typeds_view, names_view, literal_view,
    lemma_exprs_view, lemma_cases_view, yul_type_text, inferred_type_text, typed_identifier_text,
    inferred_type_to_string, format_inferred_types};
use crate::text::{seq_join, string_views, join, string_from, copy_string, append_u64};
use crate::u256::nat_to_dec;
use debug_tree::TreeBuilder;

verus! {

/// `debug_tree::TreeBuilder`: a tree being built, opaque here.
#[verifier::external_type_specification]
#[verifier::external_body]
pub struct ExTreeBuilder(TreeBuilder);

/// What a tree is built from: a leaf with its text, a step into the last
/// leaf (its children follow), or a step back out.
pub enum TreeEvent {
    Leaf(Seq<char>),
    Enter,
    Exit,
}

/// The events a tree builder has received.
pub uninterp spec fn tree_events(t: TreeBuilder) -> Seq<TreeEvent>;

/// Whether a tree builder draws with `debug_tree`'s standard configuration
/// (`TreeConfig::new()` set as its override) rather than with the
/// process-wide default, which any code can change.
pub uninterp spec fn tree_standard(t: TreeBuilder) -> bool;

/// The text `debug_tree` draws, with its standard configuration
/// (`TreeConfig::new()`), for a tree built from `events`.
pub uninterp spec fn tree_drawing(events: Seq<TreeEvent>) -> Seq<char>;

/// `TreeBuilder::new`, with `set_config_override(TreeConfig::new())`: a
/// builder that has received nothing and draws with the crate's standard
/// symbols and indentation whatever the process-wide default configuration
/// is, so that its drawing depends on what it received alone.
#[verifier::external_body]
fn new_tree() -> (t: TreeBuilder)
    ensures
        tree_events(t) == Seq::<TreeEvent>::empty(),
        tree_standard(t),
{
    let t = TreeBuilder::new();
    t.set_config_override(debug_tree::TreeConfig::new());
    t
}

/// `TreeBuilder::add_leaf`: adds a leaf with `text` at the current place.
#[verifier::external_body]
fn tree_leaf(t: &mut TreeBuilder, text: &str)
    ensures
        tree_events(*final(t)) == tree_events(*old(t)).push(TreeEvent::Leaf(text@)),
        tree_standard(*final(t)) == tree_standard(*old(t)),
{
    t.add_leaf(text)
}

/// `TreeBuilder::enter`: steps into the last leaf.
#[verifier::external_body]
fn tree_enter(t: &mut TreeBuilder)
    ensures
        tree_events(*final(t)) == tree_events(*old(t)).push(TreeEvent::Enter),
        tree_standard(*final(t)) == tree_standard(*old(t)),
{
    t.enter()
}

/// `TreeBuilder::exit`: steps back out (nothing when at the top).
#[verifier::external_body]
fn tree_exit(t: &mut TreeBuilder)
    ensures
        tree_events(*final(t)) == tree_events(*old(t)).push(TreeEvent::Exit),
        tree_standard(*final(t)) == tree_standard(*old(t)),
{
    t.exit();
}

/// `TreeBuilder::string`: the drawing of the tree built so far, for a
/// builder that draws with the standard configuration.
#[verifier::external_body]
fn tree_string(t: TreeBuilder) -> (r: String)
    requires
        tree_standard(t),
    ensures
        r@ == tree_drawing(tree_events(t)),
{
    t.string()
}

/// A branch: a leaf that is then stepped into.
pub open spec fn branch(text: Seq<char>) -> Seq<TreeEvent> {
    seq![TreeEvent::Leaf(text), TreeEvent::Enter]
}

/// `value:type` of a number literal.
pub open spec fn number_text(value: nat, t: Option<YulType>) -> Seq<char> {
    nat_to_dec(value) + ":"@ + inferred_type_text(t)
}

/// The text of a boolean.
pub open spec fn bool_text(b: bool) -> Seq<char> {
    if b {
        "true"@
    } else {
        "false"@
    }
}

/// `name(param types): return types`
pub open spec fn call_text(name: Seq<char>, params: Seq<Option<YulType>>, rets: Seq<Option<YulType>>) -> Seq<char> {
    name + "("@ + seq_join(params.map_values(|t: Option<YulType>| inferred_type_text(t)), ", "@) + "): "@
        + seq_join(rets.map_values(|t: Option<YulType>| inferred_type_text(t)), ", "@)
}

/// `name:type` for each assigned name with its type, as far as both go.
pub open spec fn assigned_texts(names: Seq<Seq<char>>, types: Seq<Option<YulType>>) -> Seq<Seq<char>> {
    Seq::new(
        if names.len() <= types.len() {
            names.len()
        } else {
            types.len()
        },
        |i: int| names[i] + ":"@ + inferred_type_text(types[i]),
    )
}

/// `name:type` of each typed identifier.
pub open spec fn typed_texts(ts: Seq<STyped>) -> Seq<Seq<char>> {
    ts.map_values(|t: STyped| t.name + seq![':'] + yul_type_text(t.yul_type))
}

/// Leaves for each typed identifier.
pub open spec fn typed_leaves(ts: Seq<STyped>) -> Seq<TreeEvent> {
    Seq::new(ts.len(), |i: int| TreeEvent::Leaf(ts[i].name + seq![':'] + yul_type_text(ts[i].yul_type)))
}

/// The events an expression adds to the tree; `None` for a stray `case`,
/// which cannot be drawn.
pub open spec fn expr_events(e: SExpr) -> Option<Seq<TreeEvent>>
    decreases e, 1nat,
{
    match e {
        SExpr::Literal(SLiteral::Number { inferred_type, value }) => Some(
            seq![TreeEvent::Leaf(number_text(value.value(), inferred_type))],
        ),
        SExpr::Literal(SLiteral::Str(x)) => Some(seq![TreeEvent::Leaf(x)]),
        SExpr::Literal(SLiteral::Bool(b)) => Some(seq![TreeEvent::Leaf(bool_text(b))]),
        SExpr::Case(_) => None,
        SExpr::Switch { default_case: _, inferred_type: _, scrutinee, cases } => match (
            expr_events(*scrutinee),
            cases_events(cases),
        ) {
            (Some(a), Some(b)) => Some(branch("switch"@) + a + b + seq![TreeEvent::Exit]),
            _ => None,
        },
        SExpr::FunctionCall { name, args, return_types, param_types } => match exprs_events(args) {
            Some(a) => Some(branch(call_text(name, param_types, return_types)) + a + seq![TreeEvent::Exit]),
            None => None,
        },
        SExpr::IfStatement { cond, body } => match (expr_events(*cond), exprs_events(body)) {
            (Some(a), Some(b)) => Some(
                branch("if statement"@) + branch("conditional"@) + a + b + seq![TreeEvent::Exit, TreeEvent::Exit],
            ),
            _ => None,
        },
        SExpr::Assignment { names, types, rhs } => match expr_events(*rhs) {
            Some(a) => Some(
                branch("assign - "@ + seq_join(assigned_texts(names, types), ", "@)) + a + seq![TreeEvent::Exit],
            ),
            None => None,
        },
        SExpr::DeclareVariable { vars, rhs } => {
            let head = branch("declare - "@ + seq_join(typed_texts(vars), ", "@));
            match rhs {
                Some(r) => match expr_events(*r) {
                    Some(a) => Some(head + a + seq![TreeEvent::Exit]),
                    None => None,
                },
                None => Some(head + seq![TreeEvent::Exit]),
            }
        },
        SExpr::Repeat { body, iterations } => match exprs_events(body) {
            Some(b) => Some(
                branch("repeat "@ + nat_to_dec(iterations as nat)) + branch("interior block"@) + b + seq![
                    TreeEvent::Exit,
                    TreeEvent::Exit,
                ],
            ),
            None => None,
        },
        SExpr::ForLoop { init, cond, after, body } => match (
            exprs_events(init),
            expr_events(*cond),
            exprs_events(after),
            exprs_events(body),
        ) {
            (Some(i), Some(c), Some(a), Some(b)) => Some(
                branch("for loop"@) + branch("init block"@) + i + seq![TreeEvent::Exit] + branch("conditional"@) + c
                    + seq![TreeEvent::Exit] + branch("after block"@) + a + seq![TreeEvent::Exit] + branch(
                    "interior block"@,
                ) + b + seq![TreeEvent::Exit, TreeEvent::Exit],
            ),
            _ => None,
        },
        SExpr::Block(es) => exprs_events(es),
        SExpr::Variable { name, inferred_type } => Some(
            branch("var - "@ + name + ":"@ + inferred_type_text(inferred_type)) + seq![TreeEvent::Exit],
        ),
        SExpr::FunctionDefinition { name, params, rets, block } => match exprs_events(block) {
            Some(b) => Some(
                branch("function definition - "@ + name) + branch("params"@) + typed_leaves(params) + seq![
                    TreeEvent::Exit,
                ] + branch("returns"@) + typed_leaves(rets) + seq![TreeEvent::Exit] + branch("body"@) + b + seq![
                    TreeEvent::Exit,
                    TreeEvent::Exit,
                ],
            ),
            None => None,
        },
        SExpr::Break => Some(seq![TreeEvent::Leaf("break"@)]),
        SExpr::Continue => Some(seq![TreeEvent::Leaf("continue"@)]),
        SExpr::Leave => Some(seq![TreeEvent::Leaf("leave"@)]),
    }
}

/// The events of a sequence of expressions, one after the other.
pub open spec fn exprs_events(es: Seq<SExpr>) -> Option<Seq<TreeEvent>>
    decreases es, 0nat,
{
    if es.len() == 0 {
        Some(Seq::empty())
    } else {
        match (exprs_events(es.drop_last()), expr_events(es.last())) {
            (Some(a), Some(b)) => Some(a + b),
            _ => None,
        }
    }
}

/// The events of the cases of a switch: a `case` branch around each block.
pub open spec fn cases_events(cs: Seq<SCase>) -> Option<Seq<TreeEvent>>
    decreases cs, 0nat,
{
    if cs.len() == 0 {
        Some(Seq::empty())
    } else {
        match (cases_events(cs.drop_last()), exprs_events(cs.last().block)) {
            (Some(a), Some(b)) => Some(a + branch("case"@) + b + seq![TreeEvent::Exit]),
            _ => None,
        }
    }
}

/// The drawing of a program's tree: an `AST` branch holding its expressions.
pub open spec fn spec_expressions_tree(es: Seq<SExpr>) -> Option<Seq<char>> {
    match exprs_events(es) {
        Some(evs) => Some(tree_drawing(branch("AST"@) + evs)),
        None => None,
    }
}


proof fn lemma_exprs_events_prefix(es: Seq<SExpr>, i: int)
    requires
        0 <= i <= es.len(),
        exprs_events(es.take(i)) is None,
    ensures
        exprs_events(es) is None,
    decreases es.len() - i,
{
    if i < es.len() {
        assert(es.drop_last().take(i) =~= es.take(i));
        lemma_exprs_events_prefix(es.drop_last(), i);
    } else {
        assert(es.take(i) =~= es);
    }
}

proof fn lemma_cases_events_prefix(cs: Seq<SCase>, i: int)
    requires
        0 <= i <= cs.len(),
        cases_events(cs.take(i)) is None,
    ensures
        cases_events(cs) is None,
    decreases cs.len() - i,
{
    if i < cs.len() {
        assert(cs.drop_last().take(i) =~= cs.take(i));
        lemma_cases_events_prefix(cs.drop_last(), i);
    } else {
        assert(cs.take(i) =~= cs);
    }
}

/// Adds a leaf with `text` and steps into it.
fn add_branch(tree: &mut TreeBuilder, text: &str)
    ensures
        tree_standard(*final(tree)) == tree_standard(*old(tree)),
        tree_events(*final(tree)) == tree_events(*old(tree)) + branch(text@),
{
    tree_leaf(tree, text);
    tree_enter(tree);
    proof {
        assert(tree_events(*tree) =~= tree_events(*old(tree)) + branch(text@));
    }
}

/// Steps out of the current branch.
fn close_branch(tree: &mut TreeBuilder)
    ensures
        tree_standard(*final(tree)) == tree_standard(*old(tree)),
        tree_events(*final(tree)) == tree_events(*old(tree)) + seq![TreeEvent::Exit],
{
    tree_exit(tree);
    proof {
        assert(tree_events(*tree) =~= tree_events(*old(tree)) + seq![TreeEvent::Exit]);
    }
}

/// Adds the events of each expression, in order.
fn add_exprs_to_tree(es: &Vec<Expr>, tree: &mut TreeBuilder) -> (ok: bool)
    ensures
        tree_standard(*final(tree)) == tree_standard(*old(tree)),
        ok == exprs_events(exprs_view(es@)) is Some,
        ok ==> tree_events(*final(tree)) == tree_events(*old(tree)) + exprs_events(exprs_view(es@))->0,
    decreases es, 0nat,
{
    let ghost v = exprs_view(es@);
    proof {
        lemma_exprs_view(es@);
        assert(v.take(0) =~= Seq::<SExpr>::empty());
        assert(tree_events(*tree) =~= tree_events(*old(tree)) + Seq::<TreeEvent>::empty());
    }
    let mut i: usize = 0;
    while i < es.len()
        invariant
            tree_standard(*tree) == tree_standard(*old(tree)),
            i <= es.len(),
            v == exprs_view(es@),
            v.len() == es.len(),
            forall|j: int| 0 <= j < es.len() ==> #[trigger] v[j] == expr_view(es@[j]),
            exprs_events(v.take(i as int)) is Some,
            tree_events(*tree) == tree_events(*old(tree)) + exprs_events(v.take(i as int))->0,
        decreases es.len() - i,
    {
        proof {
            assert(v.take(i + 1).drop_last() =~= v.take(i as int));
            assert(v.take(i + 1).last() == v[i as int]);
        }
        let ghost before = tree_events(*tree);
        if !es[i].add_events_to_tree(tree) {
            proof {
                lemma_exprs_events_prefix(v, i + 1);
            }
            return false;
        }
        proof {
            assert(tree_events(*tree) =~= tree_events(*old(tree)) + exprs_events(v.take(i + 1))->0);
        }
        i = i + 1;
    }
    proof {
        assert(v.take(es.len() as int) =~= v);
    }
    true
}

/// Adds a `case` branch around the block of each case.
fn add_cases_to_tree(cases: &Vec<ExprCase>, tree: &mut TreeBuilder) -> (ok: bool)
    ensures
        tree_standard(*final(tree)) == tree_standard(*old(tree)),
        ok == cases_events(cases_view(cases@)) is Some,
        ok ==> tree_events(*final(tree)) == tree_events(*old(tree)) + cases_events(cases_view(cases@))->0,
    decreases cases, 0nat,
{
    let ghost v = cases_view(cases@);
    proof {
        lemma_cases_view(cases@);
        assert(v.take(0) =~= Seq::<SCase>::empty());
        assert(tree_events(*tree) =~= tree_events(*old(tree)) + Seq::<TreeEvent>::empty());
    }
    let mut i: usize = 0;
    while i < cases.len()
        invariant
            tree_standard(*tree) == tree_standard(*old(tree)),
            i <= cases.len(),
            v == cases_view(cases@),
            v.len() == cases.len(),
            forall|j: int| 0 <= j < cases.len() ==> #[trigger] v[j] == (SCase {
                literal: literal_view(cases@[j].literal),
                block: exprs_view(cases@[j].block.exprs@),
            }),
            cases_events(v.take(i as int)) is Some,
            tree_events(*tree) == tree_events(*old(tree)) + cases_events(v.take(i as int))->0,
        decreases cases.len() - i,
    {
        proof {
            assert(v.take(i + 1).drop_last() =~= v.take(i as int));
            assert(v.take(i + 1).last() == v[i as int]);
        }
        add_branch(tree, "case");
        if !add_exprs_to_tree(&cases[i].block.exprs, tree) {
            proof {
                lemma_cases_events_prefix(v, i + 1);
            }
            return false;
        }
        close_branch(tree);
        proof {
            assert(tree_events(*tree) =~= tree_events(*old(tree)) + cases_events(v.take(i + 1))->0);
        }
        i = i + 1;
    }
    proof {
        assert(v.take(cases.len() as int) =~= v);
    }
    true
}

/// Adds a leaf for each typed identifier.
fn add_typed_leaves(ts: &Vec<TypedIdentifier>, tree: &mut TreeBuilder)
    ensures
        tree_standard(*final(tree)) == tree_standard(*old(tree)),
        tree_events(*final(tree)) == tree_events(*old(tree)) + typed_leaves(typeds_view(ts@)),
{
    let ghost tv = typeds_view(ts@);
    let mut i: usize = 0;
    proof {
        assert(tree_events(*tree) =~= tree_events(*old(tree)) + typed_leaves(tv.take(0)));
    }
    while i < ts.len()
        invariant
            tree_standard(*tree) == tree_standard(*old(tree)),
            i <= ts.len(),
            tv == typeds_view(ts@),
            tree_events(*tree) == tree_events(*old(tree)) + typed_leaves(tv.take(i as int)),
        decreases ts.len() - i,
    {
        let text = ts[i].to_string();
        tree_leaf(tree, text.as_str());
        proof {
            assert(typed_leaves(tv.take(i + 1)) =~= typed_leaves(tv.take(i as int)).push(TreeEvent::Leaf(text@)));
        }
        i = i + 1;
    }
    proof {
        assert(tv.take(ts.len() as int) =~= tv);
    }
}

/// `name:type` for each assigned name with its type, joined by `, `.
fn assigned_text(names: &Vec<String>, types: &Vec<Option<YulType>>) -> (r: String)
    ensures
        r@ == seq_join(assigned_texts(names_view(names@), types@), ", "@),
{
    let n = if names.len() <= types.len() {
        names.len()
    } else {
        types.len()
    };
    let ghost want = assigned_texts(names_view(names@), types@);
    let mut pieces: Vec<String> = Vec::new();
    let mut i: usize = 0;
    while i < n
        invariant
            i <= n,
            n <= names.len(),
            n <= types.len(),
            want == assigned_texts(names_view(names@), types@),
            want.len() == n,
            pieces.len() == i,
            forall|j: int| 0 <= j < i ==> #[trigger] pieces@[j]@ == want[j],
        decreases n - i,
    {
        let mut piece = copy_string(&names[i]);
        piece.append(":");
        let t = inferred_type_to_string(&types[i]);
        piece.append(t.as_str());
        pieces.push(piece);
        i = i + 1;
    }
    proof {
        assert(string_views(pieces@) =~= want);
    }
    join(&pieces, ", ")
}

/// `name:type` of each typed identifier, joined by `, `.
fn typed_text(ts: &Vec<TypedIdentifier>) -> (r: String)
    ensures
        r@ == seq_join(typed_texts(typeds_view(ts@)), ", "@),
{
    let ghost want = typed_texts(typeds_view(ts@));
    let mut pieces: Vec<String> = Vec::new();
    let mut i: usize = 0;
    while i < ts.len()
        invariant
            i <= ts.len(),
            want == typed_texts(typeds_view(ts@)),
            want.len() == ts.len(),
            pieces.len() == i,
            forall|j: int| 0 <= j < i ==> #[trigger] pieces@[j]@ == want[j],
        decreases ts.len() - i,
    {
        pieces.push(ts[i].to_string());
        i = i + 1;
    }
    proof {
        assert(string_views(pieces@) =~= want);
    }
    join(&pieces, ", ")
}

impl Expr {
    /// Adds this expression to the tree: its nodes, labelled and nested as
    /// `expr_events` says. A stray `case`, which has no drawing, is outside
    /// its domain.
    pub fn add_to_tree(&self, tree: &mut TreeBuilder)
        requires
            expr_events(expr_view(*self)) is Some,
        ensures
            tree_events(*final(tree)) == tree_events(*old(tree)) + expr_events(expr_view(*self))->0,
            tree_standard(*final(tree)) == tree_standard(*old(tree)),
    {
        let _ = self.add_events_to_tree(tree);
    }

    /// Adds this expression to the tree; `false` for a stray `case`.
    #[verifier::rlimit(80)]
    fn add_events_to_tree(&self, tree: &mut TreeBuilder) -> (ok: bool)
        ensures
            tree_standard(*final(tree)) == tree_standard(*old(tree)),
            ok == expr_events(expr_view(*self)) is Some,
            ok ==> tree_events(*final(tree)) == tree_events(*old(tree)) + expr_events(expr_view(*self))->0,
        decreases self, 1nat,
    {
        let ghost t0 = tree_events(*tree);
        match self {
            Expr::Literal(ExprLiteral::Number(ExprLiteralNumber { inferred_type, value })) => {
                let mut text = value.to_decimal_string();
                text.append(":");
                let t = inferred_type_to_string(inferred_type);
                text.append(t.as_str());
                tree_leaf(tree, text.as_str());
                proof {
                    assert(tree_events(*tree) =~= t0 + seq![TreeEvent::Leaf(text@)]);
                }
                true
            },
            Expr::Literal(ExprLiteral::String(x)) => {
                tree_leaf(tree, x.as_str());
                proof {
                    assert(tree_events(*tree) =~= t0 + seq![TreeEvent::Leaf(x@)]);
                }
                true
            },
            Expr::Literal(ExprLiteral::Bool(b)) => {
                if *b {
                    tree_leaf(tree, "true");
                } else {
                    tree_leaf(tree, "false");
                }
                proof {
                    assert(tree_events(*tree) =~= t0 + seq![TreeEvent::Leaf(bool_text(*b))]);
                }
                true
            },
            Expr::Case(_) => false,
            Expr::Switch(sw) => {
                add_branch(tree, "switch");
                if !sw.expr.add_events_to_tree(tree) {
                    return false;
                }
                if !add_cases_to_tree(&sw.cases, tree) {
                    return false;
                }
                close_branch(tree);
                proof {
                    assert(tree_events(*tree) =~= t0 + expr_events(expr_view(*self))->0);
                }
                true
            },
            Expr::FunctionCall(c) => {
                let mut text = copy_string(&c.function_name);
                text.append("(");
                let ps = format_inferred_types(&c.inferred_param_types);
                text.append(ps.as_str());
                text.append("): ");
                let rs = format_inferred_types(&c.inferred_return_types);
                text.append(rs.as_str());
                add_branch(tree, text.as_str());
                if !add_exprs_to_tree(&c.exprs, tree) {
                    return false;
                }
                close_branch(tree);
                proof {
                    assert(text@ =~= call_text(c.function_name@, c.inferred_param_types@, c.inferred_return_types@));
                    assert(tree_events(*tree) =~= t0 + expr_events(expr_view(*self))->0);
                }
                true
            },
            Expr::IfStatement(i) => {
                add_branch(tree, "if statement");
                add_branch(tree, "conditional");
                if !i.first_expr.add_events_to_tree(tree) {
                    return false;
                }
                if !add_exprs_to_tree(&i.second_expr.exprs, tree) {
                    return false;
                }
                close_branch(tree);
                close_branch(tree);
                proof {
                    assert(tree_events(*tree) =~= t0 + expr_events(expr_view(*self))->0);
                }
                true
            },
            Expr::Assignment(a) => {
                let mut text = string_from("assign - ");
                let body = assigned_text(&a.identifiers, &a.inferred_types);
                text.append(body.as_str());
                add_branch(tree, text.as_str());
                if !a.rhs.add_events_to_tree(tree) {
                    return false;
                }
                close_branch(tree);
                proof {
                    assert(tree_events(*tree) =~= t0 + expr_events(expr_view(*self))->0);
                }
                true
            },
            Expr::DeclareVariable(d) => {
                let mut text = string_from("declare - ");
                let body = typed_text(&d.typed_identifiers);
                text.append(body.as_str());
                add_branch(tree, text.as_str());
                match &d.rhs {
                    Some(r) => {
                        if !r.add_events_to_tree(tree) {
                            return false;
                        }
                    },
                    None => {},
                }
                close_branch(tree);
                proof {
                    assert(tree_events(*tree) =~= t0 + expr_events(expr_view(*self))->0);
                }
                true
            },
            Expr::Repeat(r) => {
                let mut text = string_from("repeat ");
                append_u64(&mut text, r.iterations as u64);
                add_branch(tree, text.as_str());
                add_branch(tree, "interior block");
                if !add_exprs_to_tree(&r.interior_block.exprs, tree) {
                    return false;
                }
                close_branch(tree);
                close_branch(tree);
                proof {
                    assert(tree_events(*tree) =~= t0 + expr_events(expr_view(*self))->0);
                }
                true
            },
            Expr::ForLoop(f) => {
                add_branch(tree, "for loop");
                add_branch(tree, "init block");
                if !add_exprs_to_tree(&f.init_block.exprs, tree) {
                    return false;
                }
                close_branch(tree);
                add_branch(tree, "conditional");
                if !f.conditional.add_events_to_tree(tree) {
                    return false;
                }
                close_branch(tree);
                add_branch(tree, "after block");
                if !add_exprs_to_tree(&f.after_block.exprs, tree) {
                    return false;
                }
                close_branch(tree);
                add_branch(tree, "interior block");
                if !add_exprs_to_tree(&f.interior_block.exprs, tree) {
                    return false;
                }
                close_branch(tree);
                close_branch(tree);
                proof {
                    assert(tree_events(*tree) =~= t0 + expr_events(expr_view(*self))->0);
                }
                true
            },
            Expr::Block(b) => add_exprs_to_tree(&b.exprs, tree),
            Expr::Variable(v) => {
                let mut text = string_from("var - ");
                text.append(v.identifier.as_str());
                text.append(":");
                let t = inferred_type_to_string(&v.inferred_type);
                text.append(t.as_str());
                add_branch(tree, text.as_str());
                close_branch(tree);
                proof {
                    assert(tree_events(*tree) =~= t0 + expr_events(expr_view(*self))->0);
                }
                true
            },
            Expr::FunctionDefinition(f) => {
                let mut text = string_from("function definition - ");
                text.append(f.function_name.as_str());
                add_branch(tree, text.as_str());
                add_branch(tree, "params");
                add_typed_leaves(&f.params, tree);
                close_branch(tree);
                add_branch(tree, "returns");
                add_typed_leaves(&f.returns, tree);
                close_branch(tree);
                add_branch(tree, "body");
                if !add_exprs_to_tree(&f.block.exprs, tree) {
                    return false;
                }
                close_branch(tree);
                close_branch(tree);
                proof {
                    assert(tree_events(*tree) =~= t0 + expr_events(expr_view(*self))->0);
                }
                true
            },
            Expr::Break => {
                tree_leaf(tree, "break");
                proof {
                    assert(tree_events(*tree) =~= t0 + seq![TreeEvent::Leaf("break"@)]);
                }
                true
            },
            Expr::Continue => {
                tree_leaf(tree, "continue");
                proof {
                    assert(tree_events(*tree) =~= t0 + seq![TreeEvent::Leaf("continue"@)]);
                }
                true
            },
            Expr::Leave => {
                tree_leaf(tree, "leave");
                proof {
                    assert(tree_events(*tree) =~= t0 + seq![TreeEvent::Leaf("leave"@)]);
                }
                true
            },
        }
    }
}

/// The syntax tree drawn as text, under an `AST` branch; `None` when it holds
/// a stray `case`, which cannot be drawn.
pub fn expressions_to_tree(expressions: &Vec<Expr>) -> (r: Option<String>)
    ensures
        match spec_expressions_tree(exprs_view(expressions@)) {
            Some(text) => r matches Some(s) && s@ == text,
            None => r is None,
        },
{
    let mut tree = new_tree();
    add_branch(&mut tree, "AST");
    if !add_exprs_to_tree(expressions, &mut tree) {
        return None;
    }
    proof {
        assert(Seq::<TreeEvent>::empty() + branch("AST"@) =~= branch("AST"@));
    }
    Some(tree_string(tree))
}

} // verus!
