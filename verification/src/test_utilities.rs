//! Compiling Yul examples and checking what a Miden run of them left on the
//! stack. Running the program is done outside this library; these functions
//! decide what is run and whether its result is the expected one.
use vstd::prelude::*;
use crate::u256::{U256, lemma_u256_of_value};
use crate::types::{exprs_view, SExpr};
use crate::parser::{try_parse_yul_syntax, spec_parse};
use crate::type_inference::{try_infer_types, spec_infer_types};
use crate::ast_optimization::optimize_ast;
use crate::miden_generator::transpile_program;
use crate::miden_model::spec_transpile_program;
use crate::repl::{split_on, split_fields};
use crate::text::{seq_join, string_views, join, string_from, str_eq, copy_string};

verus! {

/// The value a run is expected to leave on top of the stack.
pub enum MidenResult {
    U256(U256),
    U32(u32),
}

/// The Miden assembly for Yul source: parsed, typed and generated with the
/// library procedures `procs`; `None` where one of the stages refuses it.
pub open spec fn spec_compile(yul: Seq<char>, procs: Seq<char>) -> Option<Seq<char>> {
    match spec_parse(yul) {
        Some(ast) => match spec_infer_types(ast) {
            Some(typed) => spec_transpile_program(typed, procs),
            None => None,
        },
        None => None,
    }
}

/// Parses, optimizes, types and generates Miden assembly for Yul source.
pub fn compile_yul(yul_code: &str, utility_procs: &str) -> (r: Option<String>)
    ensures
        match spec_compile(yul_code@, utility_procs@) {
            Some(p) => r matches Some(s) && s@ == p,
            None => r is None,
        },
{
    let parsed = match try_parse_yul_syntax(yul_code) {
        Some(p) => p,
        None => {
            return None;
        },
    };
    let ast = optimize_ast(parsed);
    let ast = match try_infer_types(&ast) {
        Some(a) => a,
        None => {
            return None;
        },
    };
    transpile_program(ast, utility_procs)
}

/// The index of the first line equal to `line`, from `i` on; the number of
/// lines when there is none.
pub open spec fn first_line_from(ls: Seq<Seq<char>>, line: Seq<char>, i: int) -> int
    decreases ls.len() - i,
{
    if i >= ls.len() {
        ls.len() as int
    } else if ls[i] == line {
        i
    } else {
        first_line_from(ls, line, i + 1)
    }
}

/// The program part of generated assembly: a marker line for the library
/// procedures, then the lines from the first `begin` on.
pub open spec fn spec_trimmed(code: Seq<char>) -> Seq<char> {
    let ls = split_on(code, '\n');
    "# ...std lib... #\n"@ + seq_join(ls.skip(first_line_from(ls, "begin"@, 0)), "\n"@)
}

proof fn lemma_first_line_from(ls: Seq<Seq<char>>, line: Seq<char>, i: int, k: int)
    requires
        0 <= i <= k <= ls.len(),
        forall|j: int| i <= j < k ==> ls[j] != line,
        k < ls.len() ==> ls[k] == line,
    ensures
        first_line_from(ls, line, i) == k,
    decreases k - i,
{
    if i < k {
        lemma_first_line_from(ls, line, i + 1, k);
    }
}

/// Generated assembly without the library procedures before `begin`.
pub fn trim_to_program(miden_code: &str) -> (r: String)
    ensures
        r@ == spec_trimmed(miden_code@),
{
    let lines = split_fields(miden_code, '\n');
    let ghost lv = string_views(lines@);
    let mut k: usize = 0;
    let mut found = false;
    while k < lines.len() && !found
        invariant
            k <= lines.len(),
            lv == string_views(lines@),
            forall|j: int| 0 <= j < k ==> lv[j] != "begin"@,
            found ==> k < lines.len() && lv[k as int] == "begin"@,
        decreases lines.len() - k, (if found { 0int } else { 1int }),
    {
        if str_eq(lines[k].as_str(), "begin") {
            found = true;
        } else {
            k = k + 1;
        }
    }
    proof {
        lemma_first_line_from(lv, "begin"@, 0, k as int);
    }
    let mut kept: Vec<String> = Vec::new();
    let mut i = k;
    while i < lines.len()
        invariant
            k <= i <= lines.len(),
            lv == string_views(lines@),
            string_views(kept@) =~= lv.subrange(k as int, i as int),
        decreases lines.len() - i,
    {
        let ghost before = string_views(kept@);
        kept.push(copy_string(&lines[i]));
        proof {
            assert(string_views(kept@) =~= before.push(lv[i as int]));
        }
        i = i + 1;
    }
    proof {
        assert(lv.subrange(k as int, lines.len() as int) =~= lv.skip(k as int));
    }
    let body = join(&kept, "\n");
    let mut r = string_from("# ...std lib... #\n");
    r.append(body.as_str());
    r
}

/// The number that 32-bit words spell, least significant first.
pub open spec fn le_words_value(ws: Seq<u32>) -> nat
    decreases ws.len(),
{
    if ws.len() == 0 {
        0
    } else {
        ws[0] as nat + 0x1_0000_0000 * le_words_value(ws.drop_first())
    }
}

/// The number that bytes spell, least significant first.
pub open spec fn le_value(bs: Seq<u8>) -> nat
    decreases bs.len(),
{
    if bs.len() == 0 {
        0
    } else {
        bs[0] as nat + 256 * le_value(bs.drop_first())
    }
}

/// The low 32 bits of each of the first (at most eight) stack elements.
pub open spec fn top_words(stack: Seq<u64>) -> Seq<u32> {
    let n = if stack.len() < 8 { stack.len() } else { 8 };
    Seq::new(n, |i: int| (stack[i] % 0x1_0000_0000) as u32)
}

/// The four bytes of a word, least significant first.
spec fn word_bytes(w: u32) -> Seq<u8> {
    seq![w as u8, (w >> 8u32) as u8, (w >> 16u32) as u8, (w >> 24u32) as u8]
}

/// The bytes of words, each least significant first, in order.
spec fn words_bytes(ws: Seq<u32>) -> Seq<u8>
    decreases ws.len(),
{
    if ws.len() == 0 {
        Seq::empty()
    } else {
        word_bytes(ws[0]) + words_bytes(ws.drop_first())
    }
}

proof fn lemma_words_bytes_push(ws: Seq<u32>, w: u32)
    ensures
        words_bytes(ws.push(w)) == words_bytes(ws) + word_bytes(w),
    decreases ws.len(),
{
    if ws.len() == 0 {
        assert(ws.push(w).drop_first() =~= Seq::<u32>::empty());
        assert(ws.push(w)[0] == w);
        assert(words_bytes(ws.push(w)) == word_bytes(w) + words_bytes(Seq::<u32>::empty()));
        assert(words_bytes(ws.push(w)) =~= words_bytes(ws) + word_bytes(w));
    } else {
        assert(ws.push(w).drop_first() =~= ws.drop_first().push(w));
        assert(ws.push(w)[0] == ws[0]);
        lemma_words_bytes_push(ws.drop_first(), w);
        assert(words_bytes(ws.push(w)) == word_bytes(ws[0]) + words_bytes(ws.drop_first().push(w)));
        assert(words_bytes(ws) == word_bytes(ws[0]) + words_bytes(ws.drop_first()));
        assert(words_bytes(ws.push(w)) =~= words_bytes(ws) + word_bytes(w));
    }
}

proof fn lemma_words_bytes_value(ws: Seq<u32>)
    ensures
        le_value(words_bytes(ws)) == le_words_value(ws),
    decreases ws.len(),
{
    if ws.len() > 0 {
        let w = ws[0];
        let rest = words_bytes(ws.drop_first());
        lemma_words_bytes_value(ws.drop_first());
        let s = words_bytes(ws);
        assert(s =~= word_bytes(w) + rest);
        assert(s.drop_first().drop_first().drop_first().drop_first() =~= rest);
        let b0 = s[0];
        let b1 = s[1];
        let b2 = s[2];
        let b3 = s[3];
        assert(s.drop_first()[0] == b1);
        assert(s.drop_first().drop_first()[0] == b2);
        assert(s.drop_first().drop_first().drop_first()[0] == b3);
        assert(w == b0 as u32 + 256u32 * (b1 as u32 + 256u32 * (b2 as u32 + 256u32 * b3 as u32))) by (bit_vector)
            requires
                b0 == w as u8,
                b1 == (w >> 8u32) as u8,
                b2 == (w >> 16u32) as u8,
                b3 == (w >> 24u32) as u8,
        ;
        let x = le_value(rest);
        let s1 = s.drop_first();
        let s2 = s1.drop_first();
        let s3 = s2.drop_first();
        assert(le_value(s3) == b3 + 256 * x);
        assert(le_value(s2) == b2 + 256 * le_value(s3));
        assert(le_value(s1) == b1 + 256 * le_value(s2));
        assert(le_value(s) == b0 + 256 * le_value(s1));
        assert(le_value(s) == b0 + 256 * (b1 + 256 * (b2 + 256 * (b3 + 256 * x))));
        assert(b0 + 256 * (b1 + 256 * (b2 + 256 * (b3 + 256 * x))) == (b0 + 256 * (b1 + 256 * (b2 + 256
            * b3))) + 0x1_0000_0000 * x) by (nonlinear_arith);
    }
}

/// `primitive_types::U256::from_little_endian`: the number that at most 32
/// bytes spell, least significant first (it panics on longer input).
#[verifier::external_body]
fn u256_from_little_endian(bytes: &[u8]) -> (r: U256)
    requires
        bytes@.len() <= 32,
    ensures
        r.value() == le_value(bytes@),
{
    let v = primitive_types::U256::from_little_endian(bytes);
    U256 { limb0: v.0[0], limb1: v.0[1], limb2: v.0[2], limb3: v.0[3] }
}

/// The 256-bit number a run left on top of the stack: the first eight
/// elements, each cut to its low 32 bits, least significant first.
pub fn miden_to_u256(stack: &Vec<u64>) -> (r: U256)
    ensures
        r.value() == le_words_value(top_words(stack@)),
{
    let n: usize = if stack.len() < 8 { stack.len() } else { 8 };
    let ghost words = top_words(stack@);
    let mut bytes: Vec<u8> = Vec::new();
    let mut i: usize = 0;
    proof {
        assert(words.take(0) =~= Seq::<u32>::empty());
        assert(words_bytes(Seq::<u32>::empty()) =~= Seq::<u8>::empty());
    }
    while i < n
        invariant
            i <= n,
            n <= 8,
            n <= stack.len(),
            words == top_words(stack@),
            words.len() == n,
            bytes@ == words_bytes(words.take(i as int)),
            bytes.len() == 4 * i,
        decreases n - i,
    {
        let w = (stack[i] % 0x1_0000_0000) as u32;
        proof {
            assert(words[i as int] == w);
            assert(words.take(i + 1) =~= words.take(i as int).push(w));
            lemma_words_bytes_push(words.take(i as int), w);
        }
        bytes.push(w as u8);
        bytes.push((w >> 8u32) as u8);
        bytes.push((w >> 16u32) as u8);
        bytes.push((w >> 24u32) as u8);
        proof {
            assert(bytes@ =~= words_bytes(words.take(i as int)) + word_bytes(w));
        }
        i = i + 1;
    }
    proof {
        assert(words.take(n as int) =~= words);
        lemma_words_bytes_value(words);
    }
    u256_from_little_endian(bytes.as_slice())
}

/// Whether a run's final stack holds the expected value on top.
pub open spec fn spec_output_matches(expected: MidenResult, stack: Seq<u64>) -> bool {
    match expected {
        MidenResult::U256(e) => le_words_value(top_words(stack)) == e.value(),
        MidenResult::U32(e) => e == (stack[0] % 0x1_0000_0000) as u32,
    }
}

/// Whether a run's final stack holds the expected value on top: a `u256` in
/// the first eight elements, or a `u32` in the first.
pub fn output_matches(expected: &MidenResult, stack: &Vec<u64>) -> (r: bool)
    requires
        stack.len() > 0,
    ensures
        r == spec_output_matches(*expected, stack@),
{
    match expected {
        MidenResult::U256(e) => {
            let v = miden_to_u256(stack);
            proof {
                lemma_u256_of_value(v);
                lemma_u256_of_value(*e);
            }
            v.limb0 == e.limb0 && v.limb1 == e.limb1 && v.limb2 == e.limb2 && v.limb3 == e.limb3
        },
        MidenResult::U32(e) => *e == (stack[0] % 0x1_0000_0000) as u32,
    }
}

} // verus!
