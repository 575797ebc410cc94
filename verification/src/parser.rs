//! Parsing of Yul source text into the syntax tree.
//!
//! The text is first split into tokens (identifiers, numbers, strings and
//! punctuation; white space and `//` or `/* */` comments separate them), then
//! read by recursive descent. The grammar is given by the spec functions
//! `lex_from` and `p_*` below; the executable parser is proved to return
//! exactly what they describe.
use vstd::prelude::*;
use crate::types::{Expr, ExprLiteral, ExprLiteralNumber, ExprBlock, ExprCase, ExprSwitch,
    ExprFunctionDefinition, ExprFunctionCall, ExprAssignment, ExprDeclareVariable, ExprForLoop,
    ExprIfStatement, ExprVariableReference, TypedIdentifier, YulType, STyped, SExpr, SLiteral, SCase,
    expr_view, exprs_view, cases_view, typeds_view, typed_view, names_view, literal_view, lemma_exprs_view};
use crate::u256::{U256, dec_value, hex_value, u256_modulus, u256_of, lemma_u256_of_value,
    parse_decimal, parse_hexadecimal, hex_body, all_dec_digits, all_hex_digits, is_hex_digit,
    is_dec_digit};
use crate::text::{str_chars, chars_to_string};

verus! {

/// A token of Yul source, as a mathematical value.
pub enum SToken {
    Ident(Seq<char>),
    Number(Seq<char>),
    Hex(Seq<char>),
    Str(Seq<char>),
    LBrace,
    RBrace,
    LParen,
    RParen,
    Comma,
    Colon,
    Assign,
    Arrow,
}

/// A token of Yul source.
pub enum Token {
    Ident(String),
    Number(String),
    Hex(String),
    Str(String),
    LBrace,
    RBrace,
    LParen,
    RParen,
    Comma,
    Colon,
    Assign,
    Arrow,
}

pub open spec fn token_view(t: Token) -> SToken {
    match t {
        Token::Ident(s) => SToken::Ident(s@),
        Token::Number(s) => SToken::Number(s@),
        Token::Hex(s) => SToken::Hex(s@),
        Token::Str(s) => SToken::Str(s@),
        Token::LBrace => SToken::LBrace,
        Token::RBrace => SToken::RBrace,
        Token::LParen => SToken::LParen,
        Token::RParen => SToken::RParen,
        Token::Comma => SToken::Comma,
        Token::Colon => SToken::Colon,
        Token::Assign => SToken::Assign,
        Token::Arrow => SToken::Arrow,
    }
}

pub open spec fn tokens_view(ts: Seq<Token>) -> Seq<SToken> {
    ts.map_values(|t: Token| token_view(t))
}

pub open spec fn is_space(c: char) -> bool {
    c == ' ' || c == '\t' || c == '\n' || c == '\r'
}

pub open spec fn is_alpha(c: char) -> bool {
    ('a' <= c && c <= 'z') || ('A' <= c && c <= 'Z')
}

/// The characters an identifier may start with.
pub open spec fn is_ident_start(c: char) -> bool {
    is_alpha(c) || c == '_' || c == '$'
}

/// The characters an identifier may continue with.
pub open spec fn is_ident_char(c: char) -> bool {
    is_alpha(c) || is_dec_digit(c) || c == '_' || c == '$' || c == '.'
}

/// The end of the identifier characters from `i` on.
pub open spec fn ident_end(s: Seq<char>, i: int) -> int
    decreases s.len() - i,
{
    if 0 <= i < s.len() && is_ident_char(s[i]) {
        ident_end(s, i + 1)
    } else {
        i
    }
}

/// The end of the decimal digits from `i` on.
pub open spec fn dec_end(s: Seq<char>, i: int) -> int
    decreases s.len() - i,
{
    if 0 <= i < s.len() && is_dec_digit(s[i]) {
        dec_end(s, i + 1)
    } else {
        i
    }
}

/// The end of the hexadecimal digits from `i` on.
pub open spec fn hex_end(s: Seq<char>, i: int) -> int
    decreases s.len() - i,
{
    if 0 <= i < s.len() && is_hex_digit(s[i]) {
        hex_end(s, i + 1)
    } else {
        i
    }
}

/// The position of the first `c` from `i` on, or the end of the text.
pub open spec fn find_char(s: Seq<char>, i: int, c: char) -> int
    decreases s.len() - i,
{
    if 0 <= i < s.len() && s[i] != c {
        find_char(s, i + 1, c)
    } else {
        i
    }
}

/// The position just after the first `*/` from `i` on, if there is one.
pub open spec fn comment_end(s: Seq<char>, i: int) -> Option<int>
    decreases s.len() - i,
{
    if i < 0 || i + 1 >= s.len() {
        None
    } else if s[i] == '*' && s[i + 1] == '/' {
        Some(i + 2)
    } else {
        comment_end(s, i + 1)
    }
}

pub proof fn lemma_ident_end(s: Seq<char>, i: int)
    requires
        0 <= i,
    ensures
        i <= ident_end(s, i),
        ident_end(s, i) <= s.len() || ident_end(s, i) == i,
        forall|k: int| i <= k < ident_end(s, i) ==> is_ident_char(#[trigger] s[k]),
    decreases s.len() - i,
{
    if 0 <= i < s.len() && is_ident_char(s[i]) {
        lemma_ident_end(s, i + 1);
    }
}

pub proof fn lemma_dec_end(s: Seq<char>, i: int)
    requires
        0 <= i,
    ensures
        i <= dec_end(s, i),
        dec_end(s, i) <= s.len() || dec_end(s, i) == i,
        forall|k: int| i <= k < dec_end(s, i) ==> is_dec_digit(#[trigger] s[k]),
    decreases s.len() - i,
{
    if 0 <= i < s.len() && is_dec_digit(s[i]) {
        lemma_dec_end(s, i + 1);
    }
}

pub proof fn lemma_hex_end(s: Seq<char>, i: int)
    requires
        0 <= i,
    ensures
        i <= hex_end(s, i),
        hex_end(s, i) <= s.len() || hex_end(s, i) == i,
        forall|k: int| i <= k < hex_end(s, i) ==> is_hex_digit(#[trigger] s[k]),
    decreases s.len() - i,
{
    if 0 <= i < s.len() && is_hex_digit(s[i]) {
        lemma_hex_end(s, i + 1);
    }
}

pub proof fn lemma_find_char(s: Seq<char>, i: int, c: char)
    requires
        0 <= i,
    ensures
        i <= find_char(s, i, c),
        find_char(s, i, c) <= s.len() || find_char(s, i, c) == i,
        find_char(s, i, c) < s.len() ==> s[find_char(s, i, c)] == c,
    decreases s.len() - i,
{
    if 0 <= i < s.len() && s[i] != c {
        lemma_find_char(s, i + 1, c);
    }
}

pub proof fn lemma_comment_end(s: Seq<char>, i: int)
    ensures
        comment_end(s, i) matches Some(j) ==> i + 2 <= j <= s.len(),
    decreases s.len() - i,
{
    if !(i < 0 || i + 1 >= s.len()) && !(s[i] == '*' && s[i + 1] == '/') {
        lemma_comment_end(s, i + 1);
    }
}

/// `t` followed by the tokens `rest`, when there are any.
pub open spec fn cons_token(t: SToken, rest: Option<Seq<SToken>>) -> Option<Seq<SToken>> {
    match rest {
        Some(ts) => Some(seq![t] + ts),
        None => None,
    }
}

/// The tokens of the text from position `i` on; `None` when a character
/// can start no token, or a string or comment is not closed.
pub open spec fn lex_from(s: Seq<char>, i: int) -> Option<Seq<SToken>>
    decreases s.len() - i,
{
    if i < 0 || i >= s.len() {
        Some(Seq::empty())
    } else {
        let c = s[i];
        let next = if i + 1 < s.len() {
            s[i + 1]
        } else {
            ' '
        };
        if is_space(c) {
            lex_from(s, i + 1)
        } else if c == '/' && next == '/' {
            proof {
                lemma_find_char(s, i + 2, '\n');
            }
            lex_from(s, find_char(s, i + 2, '\n'))
        } else if c == '/' && next == '*' {
            proof {
                lemma_comment_end(s, i + 2);
            }
            match comment_end(s, i + 2) {
                Some(j) => lex_from(s, j),
                None => None,
            }
        } else if c == '{' {
            cons_token(SToken::LBrace, lex_from(s, i + 1))
        } else if c == '}' {
            cons_token(SToken::RBrace, lex_from(s, i + 1))
        } else if c == '(' {
            cons_token(SToken::LParen, lex_from(s, i + 1))
        } else if c == ')' {
            cons_token(SToken::RParen, lex_from(s, i + 1))
        } else if c == ',' {
            cons_token(SToken::Comma, lex_from(s, i + 1))
        } else if c == ':' && next == '=' {
            cons_token(SToken::Assign, lex_from(s, i + 2))
        } else if c == ':' {
            cons_token(SToken::Colon, lex_from(s, i + 1))
        } else if c == '-' && next == '>' {
            cons_token(SToken::Arrow, lex_from(s, i + 2))
        } else if c == '"' {
            proof {
                lemma_find_char(s, i + 1, '"');
            }
            let j = find_char(s, i + 1, '"');
            if j >= s.len() {
                None
            } else {
                cons_token(SToken::Str(s.subrange(i + 1, j)), lex_from(s, j + 1))
            }
        } else if c == '0' && next == 'x' && i + 2 < s.len() && is_hex_digit(s[i + 2]) {
            proof {
                lemma_hex_end(s, i + 2);
            }
            let j = hex_end(s, i + 2);
            cons_token(SToken::Hex(s.subrange(i, j)), lex_from(s, j))
        } else if is_dec_digit(c) {
            proof {
                lemma_dec_end(s, i + 1);
            }
            let j = dec_end(s, i + 1);
            cons_token(SToken::Number(s.subrange(i, j)), lex_from(s, j))
        } else if is_ident_start(c) {
            proof {
                lemma_ident_end(s, i + 1);
            }
            let j = ident_end(s, i + 1);
            cons_token(SToken::Ident(s.subrange(i, j)), lex_from(s, j))
        } else {
            None
        }
    }
}

/// The tokens of a text.
pub open spec fn lex(s: Seq<char>) -> Option<Seq<SToken>> {
    lex_from(s, 0)
}

/// `prefix` followed by what the rest of the text gives.
pub open spec fn prepend_tokens(prefix: Seq<SToken>, rest: Option<Seq<SToken>>) -> Option<Seq<SToken>> {
    match rest {
        Some(ts) => Some(prefix + ts),
        None => None,
    }
}

fn chars_between(cs: &Vec<char>, i: usize, j: usize) -> (r: String)
    requires
        i <= j <= cs.len(),
    ensures
        r@ == cs@.subrange(i as int, j as int),
{
    let mut part: Vec<char> = Vec::new();
    let mut k = i;
    while k < j
        invariant
            i <= k <= j <= cs.len(),
            part@ =~= cs@.subrange(i as int, k as int),
        decreases j - k,
    {
        part.push(cs[k]);
        k = k + 1;
    }
    chars_to_string(part.as_slice())
}

fn is_ident_char_exec(c: char) -> (r: bool)
    ensures
        r == is_ident_char(c),
{
    ('a' <= c && c <= 'z') || ('A' <= c && c <= 'Z') || ('0' <= c && c <= '9') || c == '_' || c == '$' || c == '.'
}

fn is_hex_digit_exec(c: char) -> (r: bool)
    ensures
        r == is_hex_digit(c),
{
    ('0' <= c && c <= '9') || ('a' <= c && c <= 'f') || ('A' <= c && c <= 'F')
}

/// Splits Yul source text into tokens; `None` when a character can start no
/// token, or a string or comment is not closed.
pub fn tokenize(source: &str) -> (r: Option<Vec<Token>>)
    ensures
        match lex(source@) {
            Some(ts) => r matches Some(v) && tokens_view(v@) == ts,
            None => r is None,
        },
{
    let cs = str_chars(source);
    let ghost s = source@;
    let n = cs.len();
    let mut out: Vec<Token> = Vec::new();
    let mut i: usize = 0;
    proof {
        assert(tokens_view(out@) =~= Seq::<SToken>::empty());
        assert(prepend_tokens(Seq::empty(), lex_from(s, 0)) =~= lex_from(s, 0));
    }
    while i < n
        invariant
            cs@ == s,
            s == source@,
            n == cs.len(),
            i <= n,
            lex_from(s, 0) == prepend_tokens(tokens_view(out@), lex_from(s, i as int)),
        decreases n - i,
    {
        let ghost i0 = i as int;
        let ghost out0 = tokens_view(out@);
        let c = cs[i];
        let next = if i + 1 < n {
            cs[i + 1]
        } else {
            ' '
        };
        if c == ' ' || c == '\t' || c == '\n' || c == '\r' {
            i = i + 1;
        } else if c == '/' && next == '/' {
            let mut j = i + 2;
            proof {
                lemma_find_char(s, i + 2, '\n');
            }
            while j < n && cs[j] != '\n'
                invariant
                    cs@ == s,
                    n == cs.len(),
                    i0 + 2 <= j <= n,
                    find_char(s, j as int, '\n') == find_char(s, i0 + 2, '\n'),
                decreases n - j,
            {
                j = j + 1;
            }
            i = j;
        } else if c == '/' && next == '*' {
            let mut j = i + 2;
            while j < n && j + 1 < n && !(cs[j] == '*' && cs[j + 1] == '/')
                invariant
                    cs@ == s,
                    n == cs.len(),
                    i0 + 2 <= j <= n,
                    comment_end(s, j as int) == comment_end(s, i0 + 2),
                decreases n - j,
            {
                j = j + 1;
            }
            if j >= n || j + 1 >= n {
                proof {
                    assert(comment_end(s, j as int) is None);
                    assert(comment_end(s, i0 + 2) is None);
                    assert(lex_from(s, i0) is None);
                }
                return None;
            }
            proof {
                assert(comment_end(s, j as int) == Some(j + 2));
            }
            i = j + 2;
        } else if c == '{' {
            out.push(Token::LBrace);
            i = i + 1;
        } else if c == '}' {
            out.push(Token::RBrace);
            i = i + 1;
        } else if c == '(' {
            out.push(Token::LParen);
            i = i + 1;
        } else if c == ')' {
            out.push(Token::RParen);
            i = i + 1;
        } else if c == ',' {
            out.push(Token::Comma);
            i = i + 1;
        } else if c == ':' && next == '=' {
            out.push(Token::Assign);
            i = i + 2;
        } else if c == ':' {
            out.push(Token::Colon);
            i = i + 1;
        } else if c == '-' && next == '>' {
            out.push(Token::Arrow);
            i = i + 2;
        } else if c == '"' {
            let mut j = i + 1;
            proof {
                lemma_find_char(s, i + 1, '"');
            }
            while j < n && cs[j] != '"'
                invariant
                    cs@ == s,
                    n == cs.len(),
                    i0 + 1 <= j <= n,
                    find_char(s, j as int, '"') == find_char(s, i0 + 1, '"'),
                decreases n - j,
            {
                j = j + 1;
            }
            if j >= n {
                proof {
                    assert(find_char(s, j as int, '"') == j);
                    assert(find_char(s, i0 + 1, '"') >= s.len());
                    assert(lex_from(s, i0) is None);
                }
                return None;
            }
            out.push(Token::Str(chars_between(&cs, i + 1, j)));
            i = j + 1;
        } else if c == '0' && next == 'x' && i + 2 < n && is_hex_digit_exec(cs[i + 2]) {
            let mut j = i + 2;
            while j < n && is_hex_digit_exec(cs[j])
                invariant
                    cs@ == s,
                    n == cs.len(),
                    i0 + 2 <= j <= n,
                    hex_end(s, j as int) == hex_end(s, i0 + 2),
                decreases n - j,
            {
                j = j + 1;
            }
            out.push(Token::Hex(chars_between(&cs, i, j)));
            i = j;
        } else if '0' <= c && c <= '9' {
            let mut j = i + 1;
            while j < n && '0' <= cs[j] && cs[j] <= '9'
                invariant
                    cs@ == s,
                    n == cs.len(),
                    i0 + 1 <= j <= n,
                    dec_end(s, j as int) == dec_end(s, i0 + 1),
                decreases n - j,
            {
                j = j + 1;
            }
            out.push(Token::Number(chars_between(&cs, i, j)));
            i = j;
        } else if ('a' <= c && c <= 'z') || ('A' <= c && c <= 'Z') || c == '_' || c == '$' {
            let mut j = i + 1;
            while j < n && is_ident_char_exec(cs[j])
                invariant
                    cs@ == s,
                    n == cs.len(),
                    i0 + 1 <= j <= n,
                    ident_end(s, j as int) == ident_end(s, i0 + 1),
                decreases n - j,
            {
                j = j + 1;
            }
            out.push(Token::Ident(chars_between(&cs, i, j)));
            i = j;
        } else {
            return None;
        }
        proof {
            assert(tokens_view(out@) =~= out0 + tokens_view(out@).subrange(out0.len() as int, tokens_view(out@).len() as int));
        }
    }
    Some(out)
}


/// The words that cannot name a variable or function.
pub open spec fn is_keyword(n: Seq<char>) -> bool {
    n == "let"@ || n == "function"@ || n == "if"@ || n == "switch"@ || n == "case"@ || n == "default"@
        || n == "for"@ || n == "break"@ || n == "continue"@ || n == "leave"@ || n == "code"@ || n
        == "object"@ || n == "true"@ || n == "false"@
}

/// The token at position `i`, if there is one.
pub open spec fn tok(ts: Seq<SToken>, i: int) -> Option<SToken> {
    if 0 <= i < ts.len() {
        Some(ts[i])
    } else {
        None
    }
}

/// The token is the word `w`.
pub open spec fn is_word(t: Option<SToken>, w: Seq<char>) -> bool {
    t == Some(SToken::Ident(w))
}

/// The token is an identifier that is not a keyword.
pub open spec fn is_name(t: Option<SToken>) -> bool {
    t matches Some(SToken::Ident(n)) && !is_keyword(n)
}

/// A position `j` past `i`, within the tokens.
pub open spec fn advances(i: int, j: int, n: int) -> bool {
    i < j <= n
}

/// A type annotation `:u32` or `:u256`; `u256` when there is none.
pub open spec fn p_type(ts: Seq<SToken>, i: int) -> Option<(YulType, int)> {
    if tok(ts, i) == Some(SToken::Colon) {
        if is_word(tok(ts, i + 1), "u32"@) {
            Some((YulType::U32, i + 2))
        } else if is_word(tok(ts, i + 1), "u256"@) {
            Some((YulType::U256, i + 2))
        } else {
            None
        }
    } else {
        Some((YulType::U256, i))
    }
}

/// An identifier with its optional type annotation.
pub open spec fn p_typed(ts: Seq<SToken>, i: int) -> Option<(STyped, int)> {
    match tok(ts, i) {
        Some(SToken::Ident(n)) => if is_keyword(n) {
            None
        } else {
            match p_type(ts, i + 1) {
                Some((t, j)) => Some((STyped { name: n, yul_type: t }, j)),
                None => None,
            }
        },
        _ => None,
    }
}

/// Typed identifiers separated by commas.
pub open spec fn p_typed_list(ts: Seq<SToken>, i: int) -> Option<(Seq<STyped>, int)>
    decreases ts.len() - i,
{
    match p_typed(ts, i) {
        Some((t, j)) => if tok(ts, j) == Some(SToken::Comma) && advances(i, j + 1, ts.len() as int) {
            match p_typed_list(ts, j + 1) {
                Some((rest, k)) => Some((seq![t] + rest, k)),
                None => None,
            }
        } else {
            Some((seq![t], j))
        },
        None => None,
    }
}

/// Names separated by commas.
pub open spec fn p_names(ts: Seq<SToken>, i: int) -> Option<(Seq<Seq<char>>, int)>
    decreases ts.len() - i,
{
    match tok(ts, i) {
        Some(SToken::Ident(n)) => if is_keyword(n) {
            None
        } else if tok(ts, i + 1) == Some(SToken::Comma) && advances(i, i + 2, ts.len() as int) {
            match p_names(ts, i + 2) {
                Some((rest, k)) => Some((seq![n] + rest, k)),
                None => None,
            }
        } else {
            Some((seq![n], i + 1))
        },
        _ => None,
    }
}

/// The literal a token stands for: a decimal or hexadecimal number below
/// 2^256, or a string.
pub open spec fn literal_token(t: SToken) -> Option<SLiteral> {
    match t {
        SToken::Number(d) => if all_dec_digits(d) && dec_value(d) < u256_modulus() {
            Some(SLiteral::Number { inferred_type: None, value: u256_of(dec_value(d)) })
        } else {
            None
        },
        SToken::Hex(h) => if hex_body(h).len() <= 64 && all_hex_digits(hex_body(h)) {
            Some(SLiteral::Number { inferred_type: None, value: u256_of(hex_value(hex_body(h))) })
        } else {
            None
        },
        SToken::Str(c) => Some(SLiteral::Str(c)),
        _ => None,
    }
}

/// A call of `name` with `args`, its types not yet inferred.
pub open spec fn call(name: Seq<char>, args: Seq<SExpr>) -> SExpr {
    SExpr::FunctionCall { name, args, return_types: Seq::empty(), param_types: Seq::empty() }
}

/// An expression: a call `f(a, b)`, a variable, or a literal.
pub open spec fn p_expr(ts: Seq<SToken>, i: int) -> Option<(SExpr, int)>
    decreases ts.len() - i, 1nat,
{
    match tok(ts, i) {
        Some(SToken::Ident(n)) => if is_keyword(n) {
            None
        } else if tok(ts, i + 1) == Some(SToken::LParen) {
            match p_args(ts, i + 2) {
                Some((args, j)) => Some((call(n, args), j)),
                None => None,
            }
        } else {
            Some((SExpr::Variable { name: n, inferred_type: None }, i + 1))
        },
        Some(t) => match literal_token(t) {
            Some(l) => Some((SExpr::Literal(l), i + 1)),
            None => None,
        },
        None => None,
    }
}

/// The arguments of a call, after `(`: none, or expressions separated by
/// commas; then `)`.
pub open spec fn p_args(ts: Seq<SToken>, i: int) -> Option<(Seq<SExpr>, int)>
    decreases ts.len() - i, 3nat,
{
    if tok(ts, i) == Some(SToken::RParen) {
        Some((Seq::empty(), i + 1))
    } else {
        p_arg_list(ts, i)
    }
}

/// Expressions separated by commas, then `)`.
pub open spec fn p_arg_list(ts: Seq<SToken>, i: int) -> Option<(Seq<SExpr>, int)>
    decreases ts.len() - i, 2nat,
{
    match p_expr(ts, i) {
        Some((e, j)) => if tok(ts, j) == Some(SToken::Comma) && advances(i, j + 1, ts.len() as int) {
            match p_arg_list(ts, j + 1) {
                Some((rest, k)) => Some((seq![e] + rest, k)),
                None => None,
            }
        } else if tok(ts, j) == Some(SToken::RParen) {
            Some((seq![e], j + 1))
        } else {
            None
        },
        None => None,
    }
}

/// A block `{ ... }`: its statements, and the position after `}`.
pub open spec fn p_block(ts: Seq<SToken>, i: int) -> Option<(Seq<SExpr>, int)>
    decreases ts.len() - i, 3nat,
{
    if tok(ts, i) == Some(SToken::LBrace) {
        p_stmts(ts, i + 1)
    } else {
        None
    }
}

/// Statements up to `}`, and the position after it.
pub open spec fn p_stmts(ts: Seq<SToken>, i: int) -> Option<(Seq<SExpr>, int)>
    decreases ts.len() - i, 5nat,
{
    if i < 0 || i >= ts.len() {
        None
    } else if ts[i] == SToken::RBrace {
        Some((Seq::empty(), i + 1))
    } else {
        match p_statement(ts, i) {
            Some((st, j)) => if advances(i, j, ts.len() as int) {
                match p_stmts(ts, j) {
                    Some((rest, k)) => Some((seq![st] + rest, k)),
                    None => None,
                }
            } else {
                None
            },
            None => None,
        }
    }
}

/// The parameters of a function, after `(`: none, or typed identifiers;
/// then `)`.
pub open spec fn p_params(ts: Seq<SToken>, i: int) -> Option<(Seq<STyped>, int)> {
    if tok(ts, i) == Some(SToken::RParen) {
        Some((Seq::empty(), i + 1))
    } else {
        match p_typed_list(ts, i) {
            Some((ps, j)) => if tok(ts, j) == Some(SToken::RParen) {
                Some((ps, j + 1))
            } else {
                None
            },
            None => None,
        }
    }
}

/// The return values of a function: `-> ` typed identifiers, or none.
pub open spec fn p_rets(ts: Seq<SToken>, i: int) -> Option<(Seq<STyped>, int)> {
    if tok(ts, i) == Some(SToken::Arrow) {
        p_typed_list(ts, i + 1)
    } else {
        Some((Seq::empty(), i))
    }
}

/// The cases of a switch: `case literal { ... }`, any number of them.
pub open spec fn p_cases(ts: Seq<SToken>, i: int) -> Option<(Seq<SCase>, int)>
    decreases ts.len() - i, 2nat,
{
    if is_word(tok(ts, i), "case"@) {
        match tok(ts, i + 1) {
            Some(lt) => match literal_token(lt) {
                Some(l) => match p_block(ts, i + 2) {
                    Some((b, j)) => if advances(i, j, ts.len() as int) {
                        match p_cases(ts, j) {
                            Some((rest, k)) => Some((seq![SCase { literal: l, block: b }] + rest, k)),
                            None => None,
                        }
                    } else {
                        None
                    },
                    None => None,
                },
                None => None,
            },
            None => None,
        }
    } else {
        Some((Seq::empty(), i))
    }
}

/// `let x, y:u32 := e` or `let x`.
pub open spec fn p_let(ts: Seq<SToken>, i: int) -> Option<(SExpr, int)>
    decreases ts.len() - i, 3nat,
{
    if i < 0 || i >= ts.len() {
        None
    } else {
        match p_typed_list(ts, i + 1) {
            Some((vars, j)) => if tok(ts, j) == Some(SToken::Assign) && advances(i, j + 1, ts.len() as int) {
                match p_expr(ts, j + 1) {
                    Some((e, k)) => Some((SExpr::DeclareVariable { vars, rhs: Some(Box::new(e)) }, k)),
                    None => None,
                }
            } else {
                Some((SExpr::DeclareVariable { vars, rhs: None }, j))
            },
            None => None,
        }
    }
}

/// `function f(a, b) -> c { ... }`
pub open spec fn p_function(ts: Seq<SToken>, i: int) -> Option<(SExpr, int)>
    decreases ts.len() - i, 3nat,
{
    if i < 0 || i >= ts.len() {
        None
    } else {
        if is_name(tok(ts, i + 1)) && tok(ts, i + 2) == Some(SToken::LParen) {
            let name = tok(ts, i + 1)->0->Ident_0;
            match p_params(ts, i + 3) {
                Some((params, j)) => match p_rets(ts, j) {
                    Some((rets, k)) => if advances(i, k, ts.len() as int) {
                        match p_block(ts, k) {
                            Some((b, m)) => Some((SExpr::FunctionDefinition { name, params, rets, block: b }, m)),
                            None => None,
                        }
                    } else {
                        None
                    },
                    None => None,
                },
                None => None,
            }
        } else {
            None
        }
    }
}

/// `if cond { ... }`
pub open spec fn p_if(ts: Seq<SToken>, i: int) -> Option<(SExpr, int)>
    decreases ts.len() - i, 3nat,
{
    if i < 0 || i >= ts.len() {
        None
    } else {
        match p_expr(ts, i + 1) {
            Some((c, j)) => if advances(i, j, ts.len() as int) {
                match p_block(ts, j) {
                    Some((b, k)) => Some((SExpr::IfStatement { cond: Box::new(c), body: b }, k)),
                    None => None,
                }
            } else {
                None
            },
            None => None,
        }
    }
}

/// `switch e case l { ... } ... default { ... }`: at least one case or a
/// default.
pub open spec fn p_switch(ts: Seq<SToken>, i: int) -> Option<(SExpr, int)>
    decreases ts.len() - i, 3nat,
{
    if i < 0 || i >= ts.len() {
        None
    } else {
        let n = ts.len() as int;
        match p_expr(ts, i + 1) {
            Some((sc, j)) => if advances(i, j, n) {
                match p_cases(ts, j) {
                    Some((cases, k)) => if is_word(tok(ts, k), "default"@) && advances(i, k + 1, n) {
                        match p_block(ts, k + 1) {
                            Some((d, m)) => Some((
                                SExpr::Switch { default_case: Some(d), inferred_type: None, scrutinee: Box::new(sc), cases },
                                m,
                            )),
                            None => None,
                        }
                    } else if cases.len() > 0 {
                        Some((SExpr::Switch { default_case: None, inferred_type: None, scrutinee: Box::new(sc), cases }, k))
                    } else {
                        None
                    },
                    None => None,
                }
            } else {
                None
            },
            None => None,
        }
    }
}

/// `for { init } cond { after } { body }`
pub open spec fn p_for(ts: Seq<SToken>, i: int) -> Option<(SExpr, int)>
    decreases ts.len() - i, 3nat,
{
    if i < 0 || i >= ts.len() {
        None
    } else {
        let n = ts.len() as int;
        match p_block(ts, i + 1) {
            Some((init, j)) => if advances(i, j, n) {
                match p_expr(ts, j) {
                    Some((c, k)) => if advances(i, k, n) {
                        match p_block(ts, k) {
                            Some((after, m)) => if advances(i, m, n) {
                                match p_block(ts, m) {
                                    Some((body, q)) => Some((SExpr::ForLoop { init, cond: Box::new(c), after, body }, q)),
                                    None => None,
                                }
                            } else {
                                None
                            },
                            None => None,
                        }
                    } else {
                        None
                    },
                    None => None,
                }
            } else {
                None
            },
            None => None,
        }
    }
}

/// `x, y := e`
pub open spec fn p_assignment(ts: Seq<SToken>, i: int) -> Option<(SExpr, int)>
    decreases ts.len() - i, 3nat,
{
    if i < 0 || i >= ts.len() {
        None
    } else {
        match p_names(ts, i) {
            Some((names, j)) => if tok(ts, j) == Some(SToken::Assign) && advances(i, j + 1, ts.len() as int) {
                match p_expr(ts, j + 1) {
                    Some((e, k)) => Some((SExpr::Assignment { names, types: Seq::empty(), rhs: Box::new(e) }, k)),
                    None => None,
                }
            } else {
                None
            },
            None => None,
        }
    }
}

/// A statement, chosen by its first token (and, for an assignment, the
/// second); an expression when none of them applies.
pub open spec fn p_statement(ts: Seq<SToken>, i: int) -> Option<(SExpr, int)>
    decreases ts.len() - i, 4nat,
{
    let t = tok(ts, i);
    if t == Some(SToken::LBrace) {
        match p_block(ts, i) {
            Some((b, j)) => Some((SExpr::Block(b), j)),
            None => None,
        }
    } else if is_word(t, "let"@) {
        p_let(ts, i)
    } else if is_word(t, "function"@) {
        p_function(ts, i)
    } else if is_word(t, "if"@) {
        p_if(ts, i)
    } else if is_word(t, "switch"@) {
        p_switch(ts, i)
    } else if is_word(t, "for"@) {
        p_for(ts, i)
    } else if is_word(t, "break"@) {
        Some((SExpr::Break, i + 1))
    } else if is_word(t, "continue"@) {
        Some((SExpr::Continue, i + 1))
    } else if is_word(t, "leave"@) {
        Some((SExpr::Leave, i + 1))
    } else if is_word(t, "code"@) {
        match p_block(ts, i + 1) {
            Some((b, j)) => Some((SExpr::Block(b), j)),
            None => None,
        }
    } else if is_name(t) && (tok(ts, i + 1) == Some(SToken::Comma) || tok(ts, i + 1) == Some(SToken::Assign)) {
        p_assignment(ts, i)
    } else {
        p_expr(ts, i)
    }
}

/// The statements of a file from position `i` on; an `object "name" {
/// code { ... } }` gives the block of its code.
pub open spec fn p_file(ts: Seq<SToken>, i: int) -> Option<Seq<SExpr>>
    decreases ts.len() - i,
{
    if i < 0 || i >= ts.len() {
        Some(Seq::empty())
    } else if is_word(tok(ts, i), "object"@) {
        if (tok(ts, i + 1) matches Some(SToken::Str(_))) && tok(ts, i + 2) == Some(SToken::LBrace) && is_word(
            tok(ts, i + 3),
            "code"@,
        ) {
            match p_block(ts, i + 4) {
                Some((b, j)) => if tok(ts, j) == Some(SToken::RBrace) && advances(i, j + 1, ts.len() as int) {
                    match p_file(ts, j + 1) {
                        Some(rest) => Some(seq![SExpr::Block(b)] + rest),
                        None => None,
                    }
                } else {
                    None
                },
                None => None,
            }
        } else {
            None
        }
    } else {
        match p_statement(ts, i) {
            Some((st, j)) => if advances(i, j, ts.len() as int) {
                match p_file(ts, j) {
                    Some(rest) => Some(seq![st] + rest),
                    None => None,
                }
            } else {
                None
            },
            None => None,
        }
    }
}

/// The syntax tree of Yul source text, or `None` when it is not Yul that
/// this grammar accepts.
pub open spec fn spec_parse(source: Seq<char>) -> Option<Seq<SExpr>> {
    match lex(source) {
        Some(ts) => p_file(ts, 0),
        None => None,
    }
}


/// The token at position `i`, if there is one.
fn token_at(ts: &Vec<Token>, i: usize) -> (r: Option<&Token>)
    ensures
        tok(tokens_view(ts@), i as int) == match r {
            Some(t) => Some(token_view(*t)),
            None => None,
        },
        r is Some <==> i < ts.len(),
{
    if i < ts.len() {
        Some(&ts[i])
    } else {
        None
    }
}

fn word_at(ts: &Vec<Token>, i: usize, w: &str) -> (r: bool)
    ensures
        r == is_word(tok(tokens_view(ts@), i as int), w@),
        r ==> i < ts.len(),
{
    match token_at(ts, i) {
        Some(Token::Ident(n)) => crate::text::str_eq(n.as_str(), w),
        _ => false,
    }
}

fn is_keyword_exec(n: &str) -> (r: bool)
    ensures
        r == is_keyword(n@),
{
    use_str_eq(n, "let") || use_str_eq(n, "function") || use_str_eq(n, "if") || use_str_eq(n, "switch")
        || use_str_eq(n, "case") || use_str_eq(n, "default") || use_str_eq(n, "for") || use_str_eq(n, "break")
        || use_str_eq(n, "continue") || use_str_eq(n, "leave") || use_str_eq(n, "code") || use_str_eq(n, "object")
        || use_str_eq(n, "true") || use_str_eq(n, "false")
}

fn use_str_eq(a: &str, b: &str) -> (r: bool)
    ensures
        r == (a@ == b@),
{
    crate::text::str_eq(a, b)
}

/// Whether the token at position `i` is the punctuation `p`.
fn punct_at(ts: &Vec<Token>, i: usize, p: &Token) -> (r: bool)
    requires
        !(*p is Ident) && !(*p is Number) && !(*p is Hex) && !(*p is Str),
    ensures
        r == (tok(tokens_view(ts@), i as int) == Some(token_view(*p))),
        r ==> i < ts.len(),
{
    match token_at(ts, i) {
        Some(t) => match (t, p) {
            (Token::LBrace, Token::LBrace) => true,
            (Token::RBrace, Token::RBrace) => true,
            (Token::LParen, Token::LParen) => true,
            (Token::RParen, Token::RParen) => true,
            (Token::Comma, Token::Comma) => true,
            (Token::Colon, Token::Colon) => true,
            (Token::Assign, Token::Assign) => true,
            (Token::Arrow, Token::Arrow) => true,
            _ => false,
        },
        None => false,
    }
}


fn cons_exprs(e: Expr, rest: Vec<Expr>) -> (r: Vec<Expr>)
    ensures
        exprs_view(r@) == seq![expr_view(e)] + exprs_view(rest@),
{
    let ghost ev = expr_view(e);
    let ghost rv = rest@;
    let mut v = vec![e];
    let mut rest = rest;
    v.append(&mut rest);
    proof {
        lemma_exprs_view(v@);
        lemma_exprs_view(rv);
        assert(v@ =~= seq![v@[0]] + rv);
        assert(exprs_view(v@) =~= seq![ev] + exprs_view(rv));
    }
    v
}

fn cons_cases(c: ExprCase, rest: Vec<ExprCase>) -> (r: Vec<ExprCase>)
    ensures
        cases_view(r@) == seq![SCase { literal: literal_view(c.literal), block: exprs_view(c.block.exprs@) }] + cases_view(rest@),
{
    let ghost cv = SCase { literal: literal_view(c.literal), block: exprs_view(c.block.exprs@) };
    let ghost rv = rest@;
    let mut v = vec![c];
    let mut rest = rest;
    v.append(&mut rest);
    proof {
        crate::types::lemma_cases_view(v@);
        crate::types::lemma_cases_view(rv);
        assert(v@ =~= seq![v@[0]] + rv);
        assert(cases_view(v@) =~= seq![cv] + cases_view(rv));
    }
    v
}

/// The literal a token stands for.
fn literal_of(t: &Token) -> (r: Option<ExprLiteral>)
    ensures
        match literal_token(token_view(*t)) {
            Some(l) => r matches Some(x) && literal_view(x) == l,
            None => r is None,
        },
{
    match t {
        Token::Number(d) => match parse_decimal(d.as_str()) {
            Some(v) => {
                proof {
                    lemma_u256_of_value(v);
                }
                Some(ExprLiteral::Number(ExprLiteralNumber { inferred_type: None, value: v }))
            },
            None => None,
        },
        Token::Hex(h) => match parse_hexadecimal(h.as_str()) {
            Some(v) => {
                proof {
                    lemma_u256_of_value(v);
                }
                Some(ExprLiteral::Number(ExprLiteralNumber { inferred_type: None, value: v }))
            },
            None => None,
        },
        Token::Str(c) => Some(ExprLiteral::String(crate::text::copy_string(c))),
        _ => None,
    }
}

fn parse_type(ts: &Vec<Token>, i: usize) -> (r: Option<(YulType, usize)>)
    ensures
        match p_type(tokens_view(ts@), i as int) {
            Some((t, j)) => r matches Some((x, k)) && x == t && k as int == j,
            None => r is None,
        },
{
    if punct_at(ts, i, &Token::Colon) {
        if word_at(ts, i + 1, "u32") {
            Some((YulType::U32, i + 2))
        } else if word_at(ts, i + 1, "u256") {
            Some((YulType::U256, i + 2))
        } else {
            None
        }
    } else {
        Some((YulType::U256, i))
    }
}

fn parse_typed(ts: &Vec<Token>, i: usize) -> (r: Option<(TypedIdentifier, usize)>)
    ensures
        match p_typed(tokens_view(ts@), i as int) {
            Some((t, j)) => r matches Some((x, k)) && typed_view(x) == t && k as int == j,
            None => r is None,
        },
{
    match token_at(ts, i) {
        Some(Token::Ident(n)) => {
            if is_keyword_exec(n.as_str()) {
                None
            } else {
                match parse_type(ts, i + 1) {
                    Some((t, j)) => Some((TypedIdentifier { identifier: crate::text::copy_string(n), yul_type: t }, j)),
                    None => None,
                }
            }
        },
        _ => None,
    }
}

fn parse_typed_list(ts: &Vec<Token>, i: usize) -> (r: Option<(Vec<TypedIdentifier>, usize)>)
    ensures
        match p_typed_list(tokens_view(ts@), i as int) {
            Some((t, j)) => r matches Some((x, k)) && typeds_view(x@) == t && k as int == j,
            None => r is None,
        },
    decreases ts.len() - i,
{
    match parse_typed(ts, i) {
        Some((t, j)) => {
            if punct_at(ts, j, &Token::Comma) && i < j + 1 && j + 1 <= ts.len() {
                match parse_typed_list(ts, j + 1) {
                    Some((rest, k)) => {
                        let ghost tv = typed_view(t);
                        let ghost rv = rest@;
                        let mut v = vec![t];
                        let mut rest = rest;
                        v.append(&mut rest);
                        proof {
                            assert(typeds_view(v@) =~= seq![tv] + typeds_view(rv));
                        }
                        Some((v, k))
                    },
                    None => None,
                }
            } else {
                let ghost tv = typed_view(t);
                let v = vec![t];
                proof {
                    assert(typeds_view(v@) =~= seq![tv]);
                }
                Some((v, j))
            }
        },
        None => None,
    }
}

fn parse_names(ts: &Vec<Token>, i: usize) -> (r: Option<(Vec<String>, usize)>)
    ensures
        match p_names(tokens_view(ts@), i as int) {
            Some((t, j)) => r matches Some((x, k)) && names_view(x@) == t && k as int == j,
            None => r is None,
        },
    decreases ts.len() - i,
{
    match token_at(ts, i) {
        Some(Token::Ident(n)) => {
            if is_keyword_exec(n.as_str()) {
                None
            } else if punct_at(ts, i + 1, &Token::Comma) && i + 2 <= ts.len() {
                match parse_names(ts, i + 2) {
                    Some((rest, k)) => {
                        let ghost rv = rest@;
                        let mut v = vec![crate::text::copy_string(n)];
                        let mut rest = rest;
                        v.append(&mut rest);
                        proof {
                            assert(names_view(v@) =~= seq![n@] + names_view(rv));
                        }
                        Some((v, k))
                    },
                    None => None,
                }
            } else {
                let v = vec![crate::text::copy_string(n)];
                proof {
                    assert(names_view(v@) =~= seq![n@]);
                }
                Some((v, i + 1))
            }
        },
        _ => None,
    }
}

fn parse_expr(ts: &Vec<Token>, i: usize) -> (r: Option<(Expr, usize)>)
    ensures
        match p_expr(tokens_view(ts@), i as int) {
            Some((e, j)) => r matches Some((x, k)) && expr_view(x) == e && k as int == j,
            None => r is None,
        },
    decreases ts.len() - i, 1nat,
{
    match token_at(ts, i) {
        Some(Token::Ident(n)) => {
            if is_keyword_exec(n.as_str()) {
                None
            } else if punct_at(ts, i + 1, &Token::LParen) {
                match parse_args(ts, i + 2) {
                    Some((args, j)) => {
                        let c = ExprFunctionCall {
                            function_name: crate::text::copy_string(n),
                            exprs: Box::new(args),
                            inferred_return_types: Vec::new(),
                            inferred_param_types: Vec::new(),
                        };
                        proof {
                            assert(c.inferred_return_types@ =~= Seq::<Option<YulType>>::empty());
                            assert(c.inferred_param_types@ =~= Seq::<Option<YulType>>::empty());
                        }
                        Some((Expr::FunctionCall(c), j))
                    },
                    None => None,
                }
            } else {
                Some((
                    Expr::Variable(ExprVariableReference { identifier: crate::text::copy_string(n), inferred_type: None }),
                    i + 1,
                ))
            }
        },
        Some(t) => match literal_of(t) {
            Some(l) => Some((Expr::Literal(l), i + 1)),
            None => None,
        },
        None => None,
    }
}

fn parse_args(ts: &Vec<Token>, i: usize) -> (r: Option<(Vec<Expr>, usize)>)
    ensures
        match p_args(tokens_view(ts@), i as int) {
            Some((e, j)) => r matches Some((x, k)) && exprs_view(x@) == e && k as int == j,
            None => r is None,
        },
    decreases ts.len() - i, 3nat,
{
    if punct_at(ts, i, &Token::RParen) {
        let v: Vec<Expr> = Vec::new();
        proof {
            assert(exprs_view(v@) =~= Seq::<SExpr>::empty());
        }
        Some((v, i + 1))
    } else {
        parse_arg_list(ts, i)
    }
}

fn parse_arg_list(ts: &Vec<Token>, i: usize) -> (r: Option<(Vec<Expr>, usize)>)
    ensures
        match p_arg_list(tokens_view(ts@), i as int) {
            Some((e, j)) => r matches Some((x, k)) && exprs_view(x@) == e && k as int == j,
            None => r is None,
        },
    decreases ts.len() - i, 2nat,
{
    match parse_expr(ts, i) {
        Some((e, j)) => {
            if punct_at(ts, j, &Token::Comma) && i < j + 1 && j + 1 <= ts.len() {
                match parse_arg_list(ts, j + 1) {
                    Some((rest, k)) => Some((cons_exprs(e, rest), k)),
                    None => None,
                }
            } else if punct_at(ts, j, &Token::RParen) {
                let v = cons_exprs(e, Vec::new());
                proof {
                    assert(exprs_view(Seq::<Expr>::empty()) =~= Seq::<SExpr>::empty());
                    assert(seq![expr_view(e)] + Seq::<SExpr>::empty() =~= seq![expr_view(e)]);
                }
                Some((v, j + 1))
            } else {
                None
            }
        },
        None => None,
    }
}

fn parse_block(ts: &Vec<Token>, i: usize) -> (r: Option<(Vec<Expr>, usize)>)
    ensures
        match p_block(tokens_view(ts@), i as int) {
            Some((e, j)) => r matches Some((x, k)) && exprs_view(x@) == e && k as int == j,
            None => r is None,
        },
    decreases ts.len() - i, 3nat,
{
    if punct_at(ts, i, &Token::LBrace) {
        parse_stmts(ts, i + 1)
    } else {
        None
    }
}

fn parse_stmts(ts: &Vec<Token>, i: usize) -> (r: Option<(Vec<Expr>, usize)>)
    ensures
        match p_stmts(tokens_view(ts@), i as int) {
            Some((e, j)) => r matches Some((x, k)) && exprs_view(x@) == e && k as int == j,
            None => r is None,
        },
    decreases ts.len() - i, 5nat,
{
    if i >= ts.len() {
        return None;
    }
    if punct_at(ts, i, &Token::RBrace) {
        let v: Vec<Expr> = Vec::new();
        proof {
            assert(exprs_view(v@) =~= Seq::<SExpr>::empty());
        }
        return Some((v, i + 1));
    }
    match parse_statement(ts, i) {
        Some((st, j)) => {
            if i < j && j <= ts.len() {
                match parse_stmts(ts, j) {
                    Some((rest, k)) => Some((cons_exprs(st, rest), k)),
                    None => None,
                }
            } else {
                None
            }
        },
        None => None,
    }
}

fn parse_params(ts: &Vec<Token>, i: usize) -> (r: Option<(Vec<TypedIdentifier>, usize)>)
    ensures
        match p_params(tokens_view(ts@), i as int) {
            Some((t, j)) => r matches Some((x, k)) && typeds_view(x@) == t && k as int == j,
            None => r is None,
        },
{
    if punct_at(ts, i, &Token::RParen) {
        let v: Vec<TypedIdentifier> = Vec::new();
        proof {
            assert(typeds_view(v@) =~= Seq::<STyped>::empty());
        }
        Some((v, i + 1))
    } else {
        match parse_typed_list(ts, i) {
            Some((ps, j)) => if punct_at(ts, j, &Token::RParen) {
                Some((ps, j + 1))
            } else {
                None
            },
            None => None,
        }
    }
}

fn parse_rets(ts: &Vec<Token>, i: usize) -> (r: Option<(Vec<TypedIdentifier>, usize)>)
    ensures
        match p_rets(tokens_view(ts@), i as int) {
            Some((t, j)) => r matches Some((x, k)) && typeds_view(x@) == t && k as int == j,
            None => r is None,
        },
{
    if punct_at(ts, i, &Token::Arrow) {
        parse_typed_list(ts, i + 1)
    } else {
        let v: Vec<TypedIdentifier> = Vec::new();
        proof {
            assert(typeds_view(v@) =~= Seq::<STyped>::empty());
        }
        Some((v, i))
    }
}

fn parse_cases(ts: &Vec<Token>, i: usize) -> (r: Option<(Vec<ExprCase>, usize)>)
    ensures
        match p_cases(tokens_view(ts@), i as int) {
            Some((c, j)) => r matches Some((x, k)) && cases_view(x@) == c && k as int == j,
            None => r is None,
        },
    decreases ts.len() - i, 2nat,
{
    if word_at(ts, i, "case") {
        match token_at(ts, i + 1) {
            Some(lt) => match literal_of(lt) {
                Some(l) => match parse_block(ts, i + 2) {
                    Some((b, j)) => {
                        if i < j && j <= ts.len() {
                            match parse_cases(ts, j) {
                                Some((rest, k)) => Some((cons_cases(ExprCase { literal: l, block: ExprBlock { exprs: b } }, rest), k)),
                                None => None,
                            }
                        } else {
                            None
                        }
                    },
                    None => None,
                },
                None => None,
            },
            None => None,
        }
    } else {
        let v: Vec<ExprCase> = Vec::new();
        proof {
            assert(cases_view(v@) =~= Seq::<SCase>::empty());
        }
        Some((v, i))
    }
}

fn name_at(ts: &Vec<Token>, i: usize) -> (r: bool)
    ensures
        r == is_name(tok(tokens_view(ts@), i as int)),
        r ==> i < ts.len(),
{
    match token_at(ts, i) {
        Some(Token::Ident(n)) => !is_keyword_exec(n.as_str()),
        _ => false,
    }
}


fn parse_statement(ts: &Vec<Token>, i: usize) -> (r: Option<(Expr, usize)>)
    ensures
        match p_statement(tokens_view(ts@), i as int) {
            Some((e, j)) => r matches Some((x, k)) && expr_view(x) == e && k as int == j,
            None => r is None,
        },
    decreases ts.len() - i, 4nat,
{
    if punct_at(ts, i, &Token::LBrace) {
        match parse_block(ts, i) {
            Some((b, j)) => Some((Expr::Block(ExprBlock { exprs: b }), j)),
            None => None,
        }
    } else if word_at(ts, i, "let") {
        parse_let(ts, i)
    } else if word_at(ts, i, "function") {
        parse_function(ts, i)
    } else if word_at(ts, i, "if") {
        parse_if(ts, i)
    } else if word_at(ts, i, "switch") {
        parse_switch(ts, i)
    } else if word_at(ts, i, "for") {
        parse_for(ts, i)
    } else if word_at(ts, i, "break") {
        Some((Expr::Break, i + 1))
    } else if word_at(ts, i, "continue") {
        Some((Expr::Continue, i + 1))
    } else if word_at(ts, i, "leave") {
        Some((Expr::Leave, i + 1))
    } else if word_at(ts, i, "code") {
        match parse_block(ts, i + 1) {
            Some((b, j)) => Some((Expr::Block(ExprBlock { exprs: b }), j)),
            None => None,
        }
    } else if name_at(ts, i) && (punct_at(ts, i + 1, &Token::Comma) || punct_at(ts, i + 1, &Token::Assign)) {
        parse_assignment(ts, i)
    } else {
        parse_expr(ts, i)
    }
}

fn parse_let(ts: &Vec<Token>, i: usize) -> (r: Option<(Expr, usize)>)
    ensures
        match p_let(tokens_view(ts@), i as int) {
            Some((e, j)) => r matches Some((x, k)) && expr_view(x) == e && k as int == j,
            None => r is None,
        },
    decreases ts.len() - i, 3nat,
{
    let n = ts.len();
    if i >= n {
        return None;
    }
    match parse_typed_list(ts, i + 1) {
        Some((vars, j)) => {
            if punct_at(ts, j, &Token::Assign) && i < j + 1 && j + 1 <= n {
                match parse_expr(ts, j + 1) {
                    Some((e, k)) => Some((
                        Expr::DeclareVariable(ExprDeclareVariable { typed_identifiers: vars, rhs: Some(Box::new(e)) }),
                        k,
                    )),
                    None => None,
                }
            } else {
                Some((Expr::DeclareVariable(ExprDeclareVariable { typed_identifiers: vars, rhs: None }), j))
            }
        },
        None => None,
    }
}

fn parse_function(ts: &Vec<Token>, i: usize) -> (r: Option<(Expr, usize)>)
    ensures
        match p_function(tokens_view(ts@), i as int) {
            Some((e, j)) => r matches Some((x, k)) && expr_view(x) == e && k as int == j,
            None => r is None,
        },
    decreases ts.len() - i, 3nat,
{
    let n = ts.len();
    if i >= n {
        return None;
    }
    if name_at(ts, i + 1) && punct_at(ts, i + 2, &Token::LParen) {
        let name = match token_at(ts, i + 1) {
            Some(Token::Ident(x)) => crate::text::copy_string(x),
            _ => String::new(),
        };
        match parse_params(ts, i + 3) {
            Some((params, j)) => match parse_rets(ts, j) {
                Some((rets, k)) => {
                    if i < k && k <= n {
                        match parse_block(ts, k) {
                            Some((b, m)) => Some((
                                Expr::FunctionDefinition(ExprFunctionDefinition {
                                    function_name: name,
                                    params,
                                    returns: rets,
                                    block: ExprBlock { exprs: b },
                                }),
                                m,
                            )),
                            None => None,
                        }
                    } else {
                        None
                    }
                },
                None => None,
            },
            None => None,
        }
    } else {
        None
    }
}

fn parse_if(ts: &Vec<Token>, i: usize) -> (r: Option<(Expr, usize)>)
    ensures
        match p_if(tokens_view(ts@), i as int) {
            Some((e, j)) => r matches Some((x, k)) && expr_view(x) == e && k as int == j,
            None => r is None,
        },
    decreases ts.len() - i, 3nat,
{
    let n = ts.len();
    if i >= n {
        return None;
    }
    match parse_expr(ts, i + 1) {
        Some((c, j)) => {
            if i < j && j <= n {
                match parse_block(ts, j) {
                    Some((b, k)) => Some((
                        Expr::IfStatement(ExprIfStatement {
                            first_expr: Box::new(c),
                            second_expr: Box::new(ExprBlock { exprs: b }),
                        }),
                        k,
                    )),
                    None => None,
                }
            } else {
                None
            }
        },
        None => None,
    }
}

fn parse_switch(ts: &Vec<Token>, i: usize) -> (r: Option<(Expr, usize)>)
    ensures
        match p_switch(tokens_view(ts@), i as int) {
            Some((e, j)) => r matches Some((x, k)) && expr_view(x) == e && k as int == j,
            None => r is None,
        },
    decreases ts.len() - i, 3nat,
{
    let n = ts.len();
    if i >= n {
        return None;
    }
    match parse_expr(ts, i + 1) {
        Some((sc, j)) => {
            if i < j && j <= n {
                match parse_cases(ts, j) {
                    Some((cases, k)) => {
                        if word_at(ts, k, "default") && i < k + 1 && k + 1 <= n {
                            match parse_block(ts, k + 1) {
                                Some((d, m)) => Some((
                                    Expr::Switch(ExprSwitch {
                                        default_case: Some(ExprBlock { exprs: d }),
                                        inferred_type: None,
                                        expr: Box::new(sc),
                                        cases,
                                    }),
                                    m,
                                )),
                                None => None,
                            }
                        } else if cases.len() > 0 {
                            Some((
                                Expr::Switch(ExprSwitch {
                                    default_case: None,
                                    inferred_type: None,
                                    expr: Box::new(sc),
                                    cases,
                                }),
                                k,
                            ))
                        } else {
                            None
                        }
                    },
                    None => None,
                }
            } else {
                None
            }
        },
        None => None,
    }
}

fn parse_for(ts: &Vec<Token>, i: usize) -> (r: Option<(Expr, usize)>)
    ensures
        match p_for(tokens_view(ts@), i as int) {
            Some((e, j)) => r matches Some((x, k)) && expr_view(x) == e && k as int == j,
            None => r is None,
        },
    decreases ts.len() - i, 3nat,
{
    let n = ts.len();
    if i >= n {
        return None;
    }
    match parse_block(ts, i + 1) {
        Some((init, j)) => {
            if !(i < j && j <= n) {
                return None;
            }
            match parse_expr(ts, j) {
                Some((c, k)) => {
                    if !(i < k && k <= n) {
                        return None;
                    }
                    match parse_block(ts, k) {
                        Some((after, m)) => {
                            if !(i < m && m <= n) {
                                return None;
                            }
                            match parse_block(ts, m) {
                                Some((body, q)) => Some((
                                    Expr::ForLoop(ExprForLoop {
                                        init_block: Box::new(ExprBlock { exprs: init }),
                                        conditional: Box::new(c),
                                        after_block: Box::new(ExprBlock { exprs: after }),
                                        interior_block: Box::new(ExprBlock { exprs: body }),
                                    }),
                                    q,
                                )),
                                None => None,
                            }
                        },
                        None => None,
                    }
                },
                None => None,
            }
        },
        None => None,
    }
}

fn parse_assignment(ts: &Vec<Token>, i: usize) -> (r: Option<(Expr, usize)>)
    ensures
        match p_assignment(tokens_view(ts@), i as int) {
            Some((e, j)) => r matches Some((x, k)) && expr_view(x) == e && k as int == j,
            None => r is None,
        },
    decreases ts.len() - i, 3nat,
{
    let n = ts.len();
    if i >= n {
        return None;
    }
    match parse_names(ts, i) {
        Some((names, j)) => {
            if punct_at(ts, j, &Token::Assign) && i < j + 1 && j + 1 <= n {
                match parse_expr(ts, j + 1) {
                    Some((e, k)) => {
                        let a = ExprAssignment { identifiers: names, inferred_types: Vec::new(), rhs: Box::new(e) };
                        proof {
                            assert(a.inferred_types@ =~= Seq::<Option<YulType>>::empty());
                        }
                        Some((Expr::Assignment(a), k))
                    },
                    None => None,
                }
            } else {
                None
            }
        },
        None => None,
    }
}

fn parse_file(ts: &Vec<Token>, i: usize) -> (r: Option<Vec<Expr>>)
    ensures
        match p_file(tokens_view(ts@), i as int) {
            Some(e) => r matches Some(x) && exprs_view(x@) == e,
            None => r is None,
        },
    decreases ts.len() - i,
{
    if i >= ts.len() {
        let v: Vec<Expr> = Vec::new();
        proof {
            assert(exprs_view(v@) =~= Seq::<SExpr>::empty());
        }
        return Some(v);
    }
    if word_at(ts, i, "object") {
        let named = match token_at(ts, i + 1) {
            Some(Token::Str(_)) => true,
            _ => false,
        };
        if named && punct_at(ts, i + 2, &Token::LBrace) && word_at(ts, i + 3, "code") {
            match parse_block(ts, i + 4) {
                Some((b, j)) => {
                    if punct_at(ts, j, &Token::RBrace) && i < j + 1 && j + 1 <= ts.len() {
                        match parse_file(ts, j + 1) {
                            Some(rest) => Some(cons_exprs(Expr::Block(ExprBlock { exprs: b }), rest)),
                            None => None,
                        }
                    } else {
                        None
                    }
                },
                None => None,
            }
        } else {
            None
        }
    } else {
        match parse_statement(ts, i) {
            Some((st, j)) => {
                if i < j && j <= ts.len() {
                    match parse_file(ts, j) {
                        Some(rest) => Some(cons_exprs(st, rest)),
                        None => None,
                    }
                } else {
                    None
                }
            },
            None => None,
        }
    }
}

/// Parses Yul source text into its syntax tree; `None` when it is not Yul
/// that the grammar accepts (an unknown character, an unclosed string or
/// comment, a missing brace, a number of 2^256 or more, a type annotation
/// other than `u32` or `u256`, ...).
pub fn try_parse_yul_syntax(syntax: &str) -> (r: Option<Vec<Expr>>)
    ensures
        match spec_parse(syntax@) {
            Some(es) => r matches Some(v) && exprs_view(v@) == es,
            None => r is None,
        },
{
    match tokenize(syntax) {
        Some(ts) => parse_file(&ts, 0),
        None => None,
    }
}

/// Parses Yul source text that the grammar accepts into its syntax tree.
pub fn parse_yul_syntax(syntax: &str) -> (r: Vec<Expr>)
    requires
        spec_parse(syntax@) is Some,
    ensures
        exprs_view(r@) == spec_parse(syntax@)->0,
{
    match try_parse_yul_syntax(syntax) {
        Some(v) => v,
        None => Vec::new(),
    }
}

/// The cases end at or after where they start.
proof fn lemma_cases_advance(ts: Seq<SToken>, i: int)
    requires
        p_cases(ts, i) is Some,
    ensures
        p_cases(ts, i) matches Some((cs, k)) && k >= i,
    decreases ts.len() - i,
{
    if is_word(tok(ts, i), "case"@) {
        let (b, j) = p_block(ts, i + 2)->0;
        lemma_cases_advance(ts, j);
    }
}

/// A switch keeps its default block: the parsed switch has its scrutinee
/// and cases as parsed, it has a default case exactly when its cases are
/// followed by the word `default`, and that default case is the block
/// parsed after the word, which is where the switch ends (else it ends
/// after its cases).
pub proof fn law_switch_keeps_default(ts: Seq<SToken>, i: int)
    requires
        p_switch(ts, i) is Some,
    ensures
        p_expr(ts, i + 1) matches Some((sc, j)) && p_cases(ts, j) is Some,
        ({
            let (sc, j) = p_expr(ts, i + 1)->0;
            let (cs, k) = p_cases(ts, j)->0;
            let (e, m) = p_switch(ts, i)->0;
            &&& e matches SExpr::Switch { default_case, inferred_type, scrutinee, cases }
            &&& *e->Switch_scrutinee == sc
            &&& e->Switch_cases == cs
            &&& (e->Switch_default_case is Some <==> is_word(tok(ts, k), "default"@))
            &&& (e->Switch_default_case matches Some(d) ==> p_block(ts, k + 1) == Some((d, m)))
            &&& (e->Switch_default_case is None ==> m == k)
        }),
{
    let n = ts.len() as int;
    let (sc, j) = p_expr(ts, i + 1)->0;
    let (cs, k) = p_cases(ts, j)->0;
    if is_word(tok(ts, k), "default"@) && advances(i, k + 1, n) {
        let (d, m) = p_block(ts, k + 1)->0;
        assert(p_switch(ts, i) == Some((
            SExpr::Switch { default_case: Some(d), inferred_type: None, scrutinee: Box::new(sc), cases: cs },
            m,
        )));
    } else {
        assert(p_switch(ts, i) == Some((
            SExpr::Switch { default_case: None, inferred_type: None, scrutinee: Box::new(sc), cases: cs },
            k,
        )));
        assert(!is_word(tok(ts, k), "default"@)) by {
            if is_word(tok(ts, k), "default"@) {
                assert(advances(i, j, n));
                assert(k >= j) by {
                    lemma_cases_advance(ts, j);
                }
            }
        }
    }
}

} // verus!
