//! The abstract syntax tree of Yul programs.
use vstd::prelude::*;
use crate::u256::U256;
use crate::text::{str_eq, string_from, copy_string, join, seq_join, string_views};

verus! {

/// A Yul expression or statement.
#[derive(PartialEq, Eq, Debug)]
pub enum Expr {
    Literal(ExprLiteral),
    FunctionDefinition(ExprFunctionDefinition),
    FunctionCall(ExprFunctionCall),
    IfStatement(ExprIfStatement),
    Assignment(ExprAssignment),
    DeclareVariable(ExprDeclareVariable),
    ForLoop(ExprForLoop),
    Block(ExprBlock),
    Switch(ExprSwitch),
    Case(ExprCase),
    Variable(ExprVariableReference),
    Repeat(ExprRepeat),
    Break,
    Continue,
    Leave,
}

/// The integer types of values: a Miden stack element holds 32 bits, so a
/// `u32` takes one element and a `u256` takes eight.
#[derive(Clone, Copy, PartialEq, Eq, Debug, Hash, Structural)]
pub enum YulType {
    U32,
    U256,
}

/// A literal: a number, a string or a boolean.
#[derive(Clone, PartialEq, Eq, Debug)]
pub enum ExprLiteral {
    Number(ExprLiteralNumber),
    String(String),
    Bool(bool),
}

/// A number literal; its value is always held as a `U256`, and its type is
/// filled in by type inference.
#[derive(Clone, PartialEq, Eq, Debug)]
pub struct ExprLiteralNumber {
    pub inferred_type: Option<YulType>,
    pub value: U256,
}

/// A reference to a variable, e.g. `x`.
#[derive(Clone, PartialEq, Eq, Debug)]
pub struct ExprVariableReference {
    pub identifier: String,
    pub inferred_type: Option<YulType>,
}

/// `switch expr case lit { .. } ... default { .. }`
#[derive(PartialEq, Eq, Debug)]
pub struct ExprSwitch {
    pub default_case: Option<ExprBlock>,
    pub inferred_type: Option<YulType>,
    pub expr: Box<Expr>,
    pub cases: Vec<ExprCase>,
}

/// `case lit { .. }` of a switch.
#[derive(PartialEq, Eq, Debug)]
pub struct ExprCase {
    pub literal: ExprLiteral,
    pub block: ExprBlock,
}

/// `function f(a, b) -> c, d { .. }`
#[derive(PartialEq, Eq, Debug)]
pub struct ExprFunctionDefinition {
    pub function_name: String,
    pub params: Vec<TypedIdentifier>,
    pub returns: Vec<TypedIdentifier>,
    pub block: ExprBlock,
}

/// A block of statements, `{ .. }`.
#[derive(PartialEq, Eq, Debug)]
pub struct ExprBlock {
    pub exprs: Vec<Expr>,
}

/// `x := expr`
#[derive(PartialEq, Eq, Debug)]
pub struct ExprAssignment {
    pub identifiers: Vec<String>,
    pub inferred_types: Vec<Option<YulType>>,
    pub rhs: Box<Expr>,
}

/// A break or continue with its target (kept for completeness of the tree).
#[derive(PartialEq, Eq, Debug)]
pub struct ExprBreakContinue {
    pub identifier: String,
    pub rhs: Box<Expr>,
}

/// `for { init } cond { after } { body }`
#[derive(PartialEq, Eq, Debug)]
pub struct ExprForLoop {
    pub init_block: Box<ExprBlock>,
    pub conditional: Box<Expr>,
    pub after_block: Box<ExprBlock>,
    pub interior_block: Box<ExprBlock>,
}

/// A block repeated a fixed number of times.
#[derive(PartialEq, Eq, Debug)]
pub struct ExprRepeat {
    pub interior_block: Box<ExprBlock>,
    pub iterations: u32,
}

/// `let x, y := expr` (or without a right hand side).
#[derive(PartialEq, Eq, Debug)]
pub struct ExprDeclareVariable {
    pub typed_identifiers: Vec<TypedIdentifier>,
    pub rhs: Option<Box<Expr>>,
}

/// `if cond { .. }`
#[derive(PartialEq, Eq, Debug)]
pub struct ExprIfStatement {
    pub first_expr: Box<Expr>,
    pub second_expr: Box<ExprBlock>,
}

/// `f(a, b)`, with the types filled in by type inference.
#[derive(PartialEq, Eq, Debug)]
pub struct ExprFunctionCall {
    pub function_name: String,
    pub exprs: Box<Vec<Expr>>,
    pub inferred_return_types: Vec<Option<YulType>>,
    pub inferred_param_types: Vec<Option<YulType>>,
}

/// An identifier with its type, e.g. `x:u256`.
#[derive(Clone, PartialEq, Eq, Debug, Hash)]
pub struct TypedIdentifier {
    pub identifier: String,
    pub yul_type: YulType,
}

/// The text of a type: `u32` or `u256`.
pub open spec fn yul_type_text(t: YulType) -> Seq<char> {
    match t {
        YulType::U32 => seq!['u', '3', '2'],
        YulType::U256 => seq!['u', '2', '5', '6'],
    }
}

/// The text of an optional type: the type's text or `unknown`.
pub open spec fn inferred_type_text(t: Option<YulType>) -> Seq<char> {
    match t {
        Some(t) => yul_type_text(t),
        None => seq!['u', 'n', 'k', 'n', 'o', 'w', 'n'],
    }
}

/// `name:type`
pub open spec fn typed_identifier_text(t: TypedIdentifier) -> Seq<char> {
    t.identifier@ + seq![':'] + yul_type_text(t.yul_type)
}

/// The expressions whose inferred type can be asked for.
pub open spec fn has_inferred_type(e: Expr) -> bool {
    match e {
        Expr::Literal(ExprLiteral::Number(_)) => true,
        Expr::FunctionCall(c) => c.inferred_return_types.len() > 0,
        Expr::Variable(_) => true,
        _ => false,
    }
}

/// The inferred type of a number literal, function call (its first return
/// value) or variable reference.
pub open spec fn spec_inferred_type(e: Expr) -> Option<YulType> {
    match e {
        Expr::Literal(ExprLiteral::Number(n)) => n.inferred_type,
        Expr::FunctionCall(c) => c.inferred_return_types@[0],
        Expr::Variable(v) => v.inferred_type,
        _ => None,
    }
}

impl Expr {
    /// The inferred type of a number literal, of a function call's first
    /// return value, or of a variable reference.
    pub fn get_inferred_type(&self) -> (res: Option<YulType>)
        requires
            has_inferred_type(*self),
        ensures
            res == spec_inferred_type(*self),
    {
        match self {
            Expr::Literal(ExprLiteral::Number(x)) => x.inferred_type,
            Expr::FunctionCall(x) => x.inferred_return_types[0],
            Expr::Variable(x) => x.inferred_type,
            _ => None,
        }
    }
}

impl YulType {
    /// The type that an annotation names: `u32` or `u256`.
    pub fn from_annotation(annotation: &str) -> (res: YulType)
        requires
            annotation@ == yul_type_text(YulType::U32) || annotation@ == yul_type_text(YulType::U256),
        ensures
            yul_type_text(res) == annotation@,
    {
        proof {
            reveal_strlit("u32");
            assert("u32"@ =~= yul_type_text(YulType::U32));
        }
        if str_eq(annotation, "u32") {
            YulType::U32
        } else {
            YulType::U256
        }
    }

    /// The number of 32-bit Miden stack elements a value of this type takes.
    pub fn miden_stack_width(&self) -> (res: u32)
        ensures
            res == spec_stack_width(*self),
    {
        match self {
            YulType::U32 => 1,
            YulType::U256 => 8,
        }
    }

    /// The number of Miden memory addresses (each holding four elements) a
    /// value of this type takes.
    pub fn miden_memory_addresses(&self) -> (res: u32)
        ensures
            res == spec_memory_addresses(*self),
    {
        match self {
            YulType::U32 => 1,
            YulType::U256 => 2,
        }
    }

    /// `u32` or `u256`.
    pub fn to_string(&self) -> (res: String)
        ensures
            res@ == yul_type_text(*self),
    {
        match self {
            YulType::U32 => {
                proof {
                    reveal_strlit("u32");
                }
                string_from("u32")
            },
            YulType::U256 => {
                proof {
                    reveal_strlit("u256");
                }
                string_from("u256")
            },
        }
    }
}

/// Stack elements per value: 1 for `u32`, 8 for `u256`.
pub open spec fn spec_stack_width(t: YulType) -> nat {
    match t {
        YulType::U32 => 1,
        YulType::U256 => 8,
    }
}

/// Memory addresses per value: 1 for `u32`, 2 for `u256`.
pub open spec fn spec_memory_addresses(t: YulType) -> nat {
    match t {
        YulType::U32 => 1,
        YulType::U256 => 2,
    }
}

impl TypedIdentifier {
    /// `name:type`
    pub fn to_string(&self) -> (res: String)
        ensures
            res@ == typed_identifier_text(*self),
    {
        let mut s = copy_string(&self.identifier);
        proof {
            reveal_strlit(":");
        }
        s.append(":");
        let t = self.yul_type.to_string();
        s.append(t.as_str());
        s
    }
}

/// The name of a type, or `unknown` when there is none.
pub fn inferred_type_to_string(inferred_type: &Option<YulType>) -> (res: String)
    ensures
        res@ == inferred_type_text(*inferred_type),
{
    match inferred_type {
        Some(yul_type) => yul_type.to_string(),
        None => {
            proof {
                reveal_strlit("unknown");
            }
            string_from("unknown")
        },
    }
}

/// The names of the types, separated by `, `.
pub fn format_inferred_types(inferred_types: &Vec<Option<YulType>>) -> (res: String)
    ensures
        res@ == seq_join(inferred_types@.map_values(|t: Option<YulType>| inferred_type_text(t)), ", "@),
{
    let mut names: Vec<String> = Vec::new();
    let mut i: usize = 0;
    while i < inferred_types.len()
        invariant
            i <= inferred_types.len(),
            names.len() == i,
            forall|j: int| 0 <= j < i ==> #[trigger] names@[j]@ == inferred_type_text(inferred_types@[j]),
        decreases inferred_types.len() - i,
    {
        names.push(inferred_type_to_string(&inferred_types[i]));
        i = i + 1;
    }
    let res = join(&names, ", ");
    proof {
        assert(string_views(names@) =~= inferred_types@.map_values(|t: Option<YulType>| inferred_type_text(t)));
    }
    res
}


/// An identifier with its type, as a mathematical value.
pub struct STyped {
    pub name: Seq<char>,
    pub yul_type: YulType,
}

/// A literal, as a mathematical value.
pub enum SLiteral {
    Number { inferred_type: Option<YulType>, value: U256 },
    Str(Seq<char>),
    Bool(bool),
}

/// A case of a switch, as a mathematical value.
pub struct SCase {
    pub literal: SLiteral,
    pub block: Seq<SExpr>,
}

/// The syntax tree as a mathematical value: what the contracts speak of.
#[allow(inconsistent_fields)]
pub enum SExpr {
    Literal(SLiteral),
    FunctionDefinition { name: Seq<char>, params: Seq<STyped>, rets: Seq<STyped>, block: Seq<SExpr> },
    FunctionCall {
        name: Seq<char>,
        args: Seq<SExpr>,
        return_types: Seq<Option<YulType>>,
        param_types: Seq<Option<YulType>>,
    },
    IfStatement { cond: Box<SExpr>, body: Seq<SExpr> },
    Assignment { names: Seq<Seq<char>>, types: Seq<Option<YulType>>, rhs: Box<SExpr> },
    DeclareVariable { vars: Seq<STyped>, rhs: Option<Box<SExpr>> },
    ForLoop { init: Seq<SExpr>, cond: Box<SExpr>, after: Seq<SExpr>, body: Seq<SExpr> },
    Block(Seq<SExpr>),
    Switch {
        default_case: Option<Seq<SExpr>>,
        inferred_type: Option<YulType>,
        scrutinee: Box<SExpr>,
        cases: Seq<SCase>,
    },
    Case(SCase),
    Variable { name: Seq<char>, inferred_type: Option<YulType> },
    Repeat { body: Seq<SExpr>, iterations: u32 },
    Break,
    Continue,
    Leave,
}

pub open spec fn typed_view(t: TypedIdentifier) -> STyped {
    STyped { name: t.identifier@, yul_type: t.yul_type }
}

pub open spec fn typeds_view(s: Seq<TypedIdentifier>) -> Seq<STyped> {
    s.map_values(|t: TypedIdentifier| typed_view(t))
}

pub open spec fn names_view(s: Seq<String>) -> Seq<Seq<char>> {
    s.map_values(|t: String| t@)
}

pub open spec fn literal_view(l: ExprLiteral) -> SLiteral {
    match l {
        ExprLiteral::Number(n) => SLiteral::Number { inferred_type: n.inferred_type, value: n.value },
        ExprLiteral::String(s) => SLiteral::Str(s@),
        ExprLiteral::Bool(b) => SLiteral::Bool(b),
    }
}

/// The mathematical value of an expression.
pub open spec fn expr_view(e: Expr) -> SExpr
    decreases e,
{
    match e {
        Expr::Literal(l) => SExpr::Literal(literal_view(l)),
        Expr::FunctionDefinition(d) => SExpr::FunctionDefinition {
            name: d.function_name@,
            params: typeds_view(d.params@),
            rets: typeds_view(d.returns@),
            block: exprs_view(d.block.exprs@),
        },
        Expr::FunctionCall(c) => SExpr::FunctionCall {
            name: c.function_name@,
            args: exprs_view(c.exprs@),
            return_types: c.inferred_return_types@,
            param_types: c.inferred_param_types@,
        },
        Expr::IfStatement(i) => SExpr::IfStatement {
            cond: Box::new(expr_view(*i.first_expr)),
            body: exprs_view(i.second_expr.exprs@),
        },
        Expr::Assignment(a) => SExpr::Assignment {
            names: names_view(a.identifiers@),
            types: a.inferred_types@,
            rhs: Box::new(expr_view(*a.rhs)),
        },
        Expr::DeclareVariable(d) => SExpr::DeclareVariable {
            vars: typeds_view(d.typed_identifiers@),
            rhs: match d.rhs {
                Some(r) => Some(Box::new(expr_view(*r))),
                None => None,
            },
        },
        Expr::ForLoop(f) => SExpr::ForLoop {
            init: exprs_view(f.init_block.exprs@),
            cond: Box::new(expr_view(*f.conditional)),
            after: exprs_view(f.after_block.exprs@),
            body: exprs_view(f.interior_block.exprs@),
        },
        Expr::Block(b) => SExpr::Block(exprs_view(b.exprs@)),
        Expr::Switch(sw) => SExpr::Switch {
            default_case: match sw.default_case {
                Some(b) => Some(exprs_view(b.exprs@)),
                None => None,
            },
            inferred_type: sw.inferred_type,
            scrutinee: Box::new(expr_view(*sw.expr)),
            cases: cases_view(sw.cases@),
        },
        Expr::Case(c) => SExpr::Case(SCase { literal: literal_view(c.literal), block: exprs_view(c.block.exprs@) }),
        Expr::Variable(v) => SExpr::Variable { name: v.identifier@, inferred_type: v.inferred_type },
        Expr::Repeat(r) => SExpr::Repeat { body: exprs_view(r.interior_block.exprs@), iterations: r.iterations },
        Expr::Break => SExpr::Break,
        Expr::Continue => SExpr::Continue,
        Expr::Leave => SExpr::Leave,
    }
}

/// The mathematical values of a sequence of expressions.
pub open spec fn exprs_view(s: Seq<Expr>) -> Seq<SExpr>
    decreases s,
{
    if s.len() == 0 {
        Seq::empty()
    } else {
        exprs_view(s.drop_last()).push(expr_view(s.last()))
    }
}

/// The mathematical values of the cases of a switch.
pub open spec fn cases_view(s: Seq<ExprCase>) -> Seq<SCase>
    decreases s,
{
    if s.len() == 0 {
        Seq::empty()
    } else {
        cases_view(s.drop_last()).push(
            SCase { literal: literal_view(s.last().literal), block: exprs_view(s.last().block.exprs@) },
        )
    }
}


/// Element-wise view of a sequence of expressions.
pub proof fn lemma_exprs_view(s: Seq<Expr>)
    ensures
        exprs_view(s).len() == s.len(),
        forall|i: int| 0 <= i < s.len() ==> #[trigger] exprs_view(s)[i] == expr_view(s[i]),
    decreases s.len(),
{
    if s.len() > 0 {
        lemma_exprs_view(s.drop_last());
    }
}

/// Element-wise view of the cases of a switch.
pub proof fn lemma_cases_view(s: Seq<ExprCase>)
    ensures
        cases_view(s).len() == s.len(),
        forall|i: int| 0 <= i < s.len() ==> #[trigger] cases_view(s)[i] == (SCase {
            literal: literal_view(s[i].literal),
            block: exprs_view(s[i].block.exprs@),
        }),
    decreases s.len(),
{
    if s.len() > 0 {
        lemma_cases_view(s.drop_last());
    }
}

/// A copy of a typed identifier.
pub fn clone_typed(t: &TypedIdentifier) -> (r: TypedIdentifier)
    ensures
        r == *t,
{
    TypedIdentifier { identifier: t.identifier.clone(), yul_type: t.yul_type }
}

/// A copy of a list of typed identifiers.
pub fn clone_typeds(v: &Vec<TypedIdentifier>) -> (r: Vec<TypedIdentifier>)
    ensures
        r@ == v@,
{
    let mut r: Vec<TypedIdentifier> = Vec::new();
    let mut i: usize = 0;
    while i < v.len()
        invariant
            i <= v.len(),
            r@ =~= v@.take(i as int),
        decreases v.len() - i,
    {
        r.push(clone_typed(&v[i]));
        i = i + 1;
    }
    assert(v@.take(v.len() as int) =~= v@);
    r
}

/// A copy of a list of names.
pub fn clone_strings(v: &Vec<String>) -> (r: Vec<String>)
    ensures
        r@ == v@,
{
    let mut r: Vec<String> = Vec::new();
    let mut i: usize = 0;
    while i < v.len()
        invariant
            i <= v.len(),
            r@ =~= v@.take(i as int),
        decreases v.len() - i,
    {
        r.push(v[i].clone());
        i = i + 1;
    }
    assert(v@.take(v.len() as int) =~= v@);
    r
}

/// A copy of a list of optional types.
pub fn clone_types(v: &Vec<Option<YulType>>) -> (r: Vec<Option<YulType>>)
    ensures
        r@ == v@,
{
    let mut r: Vec<Option<YulType>> = Vec::new();
    let mut i: usize = 0;
    while i < v.len()
        invariant
            i <= v.len(),
            r@ =~= v@.take(i as int),
        decreases v.len() - i,
    {
        r.push(v[i]);
        i = i + 1;
    }
    assert(v@.take(v.len() as int) =~= v@);
    r
}

/// A copy of a literal.
pub fn clone_literal(l: &ExprLiteral) -> (r: ExprLiteral)
    ensures
        literal_view(r) == literal_view(*l),
{
    match l {
        ExprLiteral::Number(n) => ExprLiteral::Number(ExprLiteralNumber { inferred_type: n.inferred_type, value: n.value }),
        ExprLiteral::String(s) => ExprLiteral::String(s.clone()),
        ExprLiteral::Bool(b) => ExprLiteral::Bool(*b),
    }
}

/// A copy of a block.
pub fn clone_block(b: &ExprBlock) -> (r: ExprBlock)
    ensures
        exprs_view(r.exprs@) == exprs_view(b.exprs@),
    decreases b, 0nat,
{
    ExprBlock { exprs: clone_exprs(&b.exprs) }
}

/// A copy of a list of expressions.
pub fn clone_exprs(v: &Vec<Expr>) -> (r: Vec<Expr>)
    ensures
        exprs_view(r@) == exprs_view(v@),
    decreases v, 0nat,
{
    let mut r: Vec<Expr> = Vec::new();
    let mut i: usize = 0;
    while i < v.len()
        invariant
            i <= v.len(),
            exprs_view(r@) == exprs_view(v@.take(i as int)),
        decreases v.len() - i,
    {
        proof {
            assert(v@.take(i + 1).drop_last() =~= v@.take(i as int));
        }
        let e = clone_expr(&v[i]);
        let ghost r_old = r@;
        r.push(e);
        proof {
            assert(r@.drop_last() =~= r_old);
            assert(v@.take(i + 1).last() == v@[i as int]);
        }
        i = i + 1;
    }
    assert(v@.take(v.len() as int) =~= v@);
    r
}

/// A copy of the cases of a switch.
pub fn clone_cases(v: &Vec<ExprCase>) -> (r: Vec<ExprCase>)
    ensures
        cases_view(r@) == cases_view(v@),
    decreases v, 0nat,
{
    let mut r: Vec<ExprCase> = Vec::new();
    let mut i: usize = 0;
    while i < v.len()
        invariant
            i <= v.len(),
            cases_view(r@) == cases_view(v@.take(i as int)),
        decreases v.len() - i,
    {
        proof {
            assert(v@.take(i + 1).drop_last() =~= v@.take(i as int));
        }
        let c = ExprCase { literal: clone_literal(&v[i].literal), block: clone_block(&v[i].block) };
        let ghost r_old = r@;
        r.push(c);
        proof {
            assert(r@.drop_last() =~= r_old);
            assert(v@.take(i + 1).last() == v@[i as int]);
        }
        i = i + 1;
    }
    assert(v@.take(v.len() as int) =~= v@);
    r
}

/// A copy of an expression.
pub fn clone_expr(e: &Expr) -> (r: Expr)
    ensures
        expr_view(r) == expr_view(*e),
    decreases e, 1nat,
{
    match e {
        Expr::Literal(l) => Expr::Literal(clone_literal(l)),
        Expr::FunctionDefinition(d) => Expr::FunctionDefinition(ExprFunctionDefinition {
            function_name: d.function_name.clone(),
            params: clone_typeds(&d.params),
            returns: clone_typeds(&d.returns),
            block: clone_block(&d.block),
        }),
        Expr::FunctionCall(c) => Expr::FunctionCall(ExprFunctionCall {
            function_name: c.function_name.clone(),
            exprs: Box::new(clone_exprs(&c.exprs)),
            inferred_return_types: clone_types(&c.inferred_return_types),
            inferred_param_types: clone_types(&c.inferred_param_types),
        }),
        Expr::IfStatement(i) => Expr::IfStatement(ExprIfStatement {
            first_expr: Box::new(clone_expr(&i.first_expr)),
            second_expr: Box::new(clone_block(&i.second_expr)),
        }),
        Expr::Assignment(a) => Expr::Assignment(ExprAssignment {
            identifiers: clone_strings(&a.identifiers),
            inferred_types: clone_types(&a.inferred_types),
            rhs: Box::new(clone_expr(&a.rhs)),
        }),
        Expr::DeclareVariable(d) => Expr::DeclareVariable(ExprDeclareVariable {
            typed_identifiers: clone_typeds(&d.typed_identifiers),
            rhs: match &d.rhs {
                Some(r) => Some(Box::new(clone_expr(r))),
                None => None,
            },
        }),
        Expr::ForLoop(f) => Expr::ForLoop(ExprForLoop {
            init_block: Box::new(clone_block(&f.init_block)),
            conditional: Box::new(clone_expr(&f.conditional)),
            after_block: Box::new(clone_block(&f.after_block)),
            interior_block: Box::new(clone_block(&f.interior_block)),
        }),
        Expr::Block(b) => Expr::Block(clone_block(b)),
        Expr::Switch(sw) => Expr::Switch(ExprSwitch {
            default_case: match &sw.default_case {
                Some(b) => Some(clone_block(b)),
                None => None,
            },
            inferred_type: sw.inferred_type,
            expr: Box::new(clone_expr(&sw.expr)),
            cases: clone_cases(&sw.cases),
        }),
        Expr::Case(c) => Expr::Case(ExprCase { literal: clone_literal(&c.literal), block: clone_block(&c.block) }),
        Expr::Variable(v) => Expr::Variable(ExprVariableReference {
            identifier: v.identifier.clone(),
            inferred_type: v.inferred_type,
        }),
        Expr::Repeat(r) => Expr::Repeat(ExprRepeat {
            interior_block: Box::new(clone_block(&r.interior_block)),
            iterations: r.iterations,
        }),
        Expr::Break => Expr::Break,
        Expr::Continue => Expr::Continue,
        Expr::Leave => Expr::Leave,
    }
}

} // verus!
