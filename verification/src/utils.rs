//! Splitting 256-bit numbers into the 32-bit elements of the Miden stack and
//! joining them back.
use vstd::prelude::*;
use crate::u256::{U256, le_byte, nat_to_dec};
use crate::text::{push_char, append_u64, seq_join, string_views, join};

verus! {

/// The number that four bytes spell, least significant first.
pub open spec fn le4(b0: u8, b1: u8, b2: u8, b3: u8) -> nat {
    b0 as nat + 256 * (b1 as nat + 256 * (b2 as nat + 256 * b3 as nat))
}

/// The 32-bit word `j` (0 is the least significant) of `x`.
pub open spec fn word_le(x: U256, j: int) -> nat {
    le4(le_byte(x, 4 * j), le_byte(x, 4 * j + 1), le_byte(x, 4 * j + 2), le_byte(x, 4 * j + 3))
}

/// `s` padded with spaces on the right to `width` characters.
pub open spec fn pad_right(s: Seq<char>, width: nat) -> Seq<char> {
    if s.len() >= width {
        s
    } else {
        s + Seq::new((width - s.len()) as nat, |i: int| ' ')
    }
}

/// The instruction pushing word `j` of `x`: `push.` and the number, padded to
/// ten characters.
pub open spec fn push_word_text(x: U256, j: int) -> Seq<char> {
    "push."@ + pad_right(nat_to_dec(word_le(x, j)), 10)
}

/// The eight pushes of `x`, least significant word first, separated by spaces.
pub open spec fn spec_u256_pushes(x: U256) -> Seq<char> {
    seq_join(Seq::new(8, |j: int| push_word_text(x, j)), " "@)
}

/// The 32-bit words of `x`, most significant first.
pub open spec fn spec_u32_words(x: U256) -> Seq<u32> {
    Seq::new(8, |i: int| word_le(x, 7 - i) as u32)
}

proof fn lemma_le4(b0: u8, b1: u8, b2: u8, b3: u8)
    ensures
        (b0 as u32 | (b1 as u32) << 8u32 | (b2 as u32) << 16u32 | (b3 as u32) << 24u32) as nat == le4(b0, b1, b2, b3),
{
    assert((b0 as u32 | (b1 as u32) << 8u32 | (b2 as u32) << 16u32 | (b3 as u32) << 24u32) == b0 as u32 + 256u32 * (
    b1 as u32 + 256u32 * (b2 as u32 + 256u32 * b3 as u32))) by (bit_vector);
}

/// The word that four bytes spell, least significant first.
fn le_word(b0: u8, b1: u8, b2: u8, b3: u8) -> (r: u32)
    ensures
        r as nat == le4(b0, b1, b2, b3),
{
    proof {
        lemma_le4(b0, b1, b2, b3);
    }
    b0 as u32 | (b1 as u32) << 8u32 | (b2 as u32) << 16u32 | (b3 as u32) << 24u32
}

/// The eight 32-bit words of `x`, least significant first.
fn words_le(x: &U256) -> (r: Vec<u32>)
    ensures
        r.len() == 8,
        forall|j: int| 0 <= j < 8 ==> r@[j] as nat == word_le(*x, j),
{
    let bytes = x.to_little_endian_bytes();
    let mut r: Vec<u32> = Vec::new();
    let mut j: usize = 0;
    while j < 8
        invariant
            j <= 8,
            bytes.len() == 32,
            forall|k: int| 0 <= k < 32 ==> bytes@[k] == le_byte(*x, k),
            r.len() == j,
            forall|i: int| 0 <= i < j ==> r@[i] as nat == word_le(*x, i),
        decreases 8 - j,
    {
        let w = le_word(bytes[4 * j], bytes[4 * j + 1], bytes[4 * j + 2], bytes[4 * j + 3]);
        r.push(w);
        j = j + 1;
    }
    r
}

/// The words of `x`, most significant first.
pub fn split_u256_to_u32s(x: &U256) -> (r: Vec<u32>)
    ensures
        r@ == spec_u32_words(*x),
{
    let words = words_le(x);
    let mut r: Vec<u32> = Vec::new();
    let mut i: usize = 0;
    while i < 8
        invariant
            i <= 8,
            words.len() == 8,
            forall|j: int| 0 <= j < 8 ==> words@[j] as nat == word_le(*x, j),
            r.len() == i,
            forall|k: int| 0 <= k < i ==> r@[k] == spec_u32_words(*x)[k],
        decreases 8 - i,
    {
        r.push(words[7 - i]);
        i = i + 1;
    }
    assert(r@ =~= spec_u32_words(*x));
    r
}

/// `push.` and the number, padded with spaces to ten characters.
fn push_word(w: u32) -> (r: String)
    ensures
        r@ == "push."@ + pad_right(nat_to_dec(w as nat), 10),
{
    let mut s = String::new();
    let mut digits = String::new();
    append_u64(&mut digits, w as u64);
    proof {
        assert(Seq::<char>::empty() + nat_to_dec(w as nat) =~= nat_to_dec(w as nat));
    }
    s.append("push.");
    s.append(digits.as_str());
    let ghost base = s@;
    let mut n = digits.as_str().unicode_len();
    while n < 10
        invariant
            n <= 10 || n == digits@.len(),
            digits@ == nat_to_dec(w as nat),
            n >= digits@.len(),
            s@ == base + Seq::new((n - digits@.len()) as nat, |i: int| ' '),
        decreases 10 - n,
    {
        let ghost s_old = s@;
        push_char(&mut s, ' ');
        proof {
            assert(s@ =~= base + Seq::new((n + 1 - digits@.len()) as nat, |i: int| ' '));
        }
        n = n + 1;
    }
    proof {
        if digits@.len() >= 10 {
            assert(s@ =~= base);
        } else {
            assert(n == 10);
        }
        assert(s@ =~= "push."@ + pad_right(nat_to_dec(w as nat), 10));
    }
    s
}

/// The Miden instructions pushing the eight words of `x` onto the stack,
/// least significant first: `push.` and the word, padded to ten characters,
/// separated by spaces.
pub fn convert_u256_to_pushes(x: &U256) -> (r: String)
    ensures
        r@ == spec_u256_pushes(*x),
{
    let words = words_le(x);
    let mut pushes: Vec<String> = Vec::new();
    let mut j: usize = 0;
    while j < 8
        invariant
            j <= 8,
            words.len() == 8,
            forall|i: int| 0 <= i < 8 ==> words@[i] as nat == word_le(*x, i),
            pushes.len() == j,
            forall|i: int| 0 <= i < j ==> #[trigger] pushes@[i]@ == push_word_text(*x, i),
        decreases 8 - j,
    {
        pushes.push(push_word(words[j]));
        j = j + 1;
    }
    let r = join(&pushes, " ");
    proof {
        assert(string_views(pushes@) =~= Seq::new(8, |j: int| push_word_text(*x, j)));
    }
    r
}

/// The number that the bytes spell, most significant first.
pub open spec fn be_value(s: Seq<u8>) -> nat
    decreases s.len(),
{
    if s.len() == 0 {
        0
    } else {
        be_value(s.drop_last()) * 256 + s.last() as nat
    }
}

/// The number that the 32-bit words spell, most significant first.
pub open spec fn be_words_value(s: Seq<u32>) -> nat
    decreases s.len(),
{
    if s.len() == 0 {
        0
    } else {
        be_words_value(s.drop_last()) * 0x1_0000_0000 + s.last() as nat
    }
}

/// `primitive_types::U256::from_big_endian`: the number that at most 32 bytes
/// spell, most significant first (it panics on longer input).
#[verifier::external_body]
fn u256_from_big_endian(bytes: &[u8]) -> (r: U256)
    requires
        bytes@.len() <= 32,
    ensures
        r.value() == be_value(bytes@),
{
    let v = primitive_types::U256::from_big_endian(bytes);
    U256 { limb0: v.0[0], limb1: v.0[1], limb2: v.0[2], limb3: v.0[3] }
}

proof fn lemma_be_push4(s: Seq<u8>, w: u32)
    ensures
        be_value(
            s.push((w >> 24u32) as u8).push((w >> 16u32) as u8).push((w >> 8u32) as u8).push(w as u8),
        ) == be_value(s) * 0x1_0000_0000 + w as nat,
{
    let b0 = #[verifier::truncate] ((w >> 24u32) as u8);
    let b1 = #[verifier::truncate] ((w >> 16u32) as u8);
    let b2 = #[verifier::truncate] ((w >> 8u32) as u8);
    let b3 = #[verifier::truncate] (w as u8);
    assert(w == b3 as u32 + 256u32 * (b2 as u32 + 256u32 * (b1 as u32 + 256u32 * b0 as u32))) by (bit_vector)
        requires
            b0 == (w >> 24u32) as u8,
            b1 == (w >> 16u32) as u8,
            b2 == (w >> 8u32) as u8,
            b3 == w as u8,
    ;
    let s1 = s.push(b0);
    let s2 = s1.push(b1);
    let s3 = s2.push(b2);
    let s4 = s3.push(b3);
    assert(s4.drop_last() =~= s3);
    assert(s3.drop_last() =~= s2);
    assert(s2.drop_last() =~= s1);
    assert(s1.drop_last() =~= s);
    let v = be_value(s);
    assert(be_value(s1) == v * 256 + b0 as nat);
    assert(be_value(s2) == be_value(s1) * 256 + b1 as nat);
    assert(be_value(s3) == be_value(s2) * 256 + b2 as nat);
    assert(be_value(s4) == be_value(s3) * 256 + b3 as nat);
    assert(((((v * 256 + b0 as nat) * 256 + b1 as nat) * 256 + b2 as nat) * 256 + b3 as nat) == v * 0x1_0000_0000
        + (b3 as nat + 256 * (b2 as nat + 256 * (b1 as nat + 256 * b0 as nat)))) by (nonlinear_arith);
}

/// The number that the first (at most eight) words spell, most significant
/// first.
pub fn join_u32s_to_u256(x: Vec<u32>) -> (r: U256)
    ensures
        r.value() == be_words_value(x@.take(if x.len() < 8 { x.len() as int } else { 8 })),
{
    let n: usize = if x.len() < 8 { x.len() } else { 8 };
    let mut bytes: Vec<u8> = Vec::new();
    let mut i: usize = 0;
    while i < n
        invariant
            i <= n,
            n <= 8,
            n <= x.len(),
            bytes.len() == 4 * i,
            be_value(bytes@) == be_words_value(x@.take(i as int)),
        decreases n - i,
    {
        let w = x[i];
        proof {
            lemma_be_push4(bytes@, w);
            assert(x@.take(i + 1).drop_last() =~= x@.take(i as int));
        }
        bytes.push((w >> 24u32) as u8);
        bytes.push((w >> 16u32) as u8);
        bytes.push((w >> 8u32) as u8);
        bytes.push(w as u8);
        i = i + 1;
    }
    u256_from_big_endian(bytes.as_slice())
}

/// The low and high 32-bit halves of a 64-bit limb, read byte by byte.
proof fn lemma_limb_halves(l: u64)
    ensures
        le4(
            ((l >> 0u64) & 0xff) as u8,
            ((l >> 8u64) & 0xff) as u8,
            ((l >> 16u64) & 0xff) as u8,
            ((l >> 24u64) & 0xff) as u8,
        ) == l % 0x1_0000_0000,
        le4(
            ((l >> 32u64) & 0xff) as u8,
            ((l >> 40u64) & 0xff) as u8,
            ((l >> 48u64) & 0xff) as u8,
            ((l >> 56u64) & 0xff) as u8,
        ) == l / 0x1_0000_0000,
{
    assert(((l >> 0u64) & 0xff) as u8 as u64 + 256 * (((l >> 8u64) & 0xff) as u8 as u64 + 256 * (((l >> 16u64) & 0xff)
        as u8 as u64 + 256 * ((l >> 24u64) & 0xff) as u8 as u64)) == l % 0x1_0000_0000) by (bit_vector);
    assert(((l >> 32u64) & 0xff) as u8 as u64 + 256 * (((l >> 40u64) & 0xff) as u8 as u64 + 256 * (((l >> 48u64) & 0xff)
        as u8 as u64 + 256 * ((l >> 56u64) & 0xff) as u8 as u64)) == l / 0x1_0000_0000) by (bit_vector);
}

/// The eight words of a number, least significant first, are the low and
/// high halves of its limbs.
proof fn lemma_words_of_limbs(x: U256)
    ensures
        word_le(x, 0) == x.limb0 % 0x1_0000_0000,
        word_le(x, 1) == x.limb0 / 0x1_0000_0000,
        word_le(x, 2) == x.limb1 % 0x1_0000_0000,
        word_le(x, 3) == x.limb1 / 0x1_0000_0000,
        word_le(x, 4) == x.limb2 % 0x1_0000_0000,
        word_le(x, 5) == x.limb2 / 0x1_0000_0000,
        word_le(x, 6) == x.limb3 % 0x1_0000_0000,
        word_le(x, 7) == x.limb3 / 0x1_0000_0000,
{
    lemma_limb_halves(x.limb0);
    lemma_limb_halves(x.limb1);
    lemma_limb_halves(x.limb2);
    lemma_limb_halves(x.limb3);
}

/// A limb is its high half times 2^32 plus its low half.
proof fn lemma_halves_join(l: u64)
    ensures
        l == (l / 0x1_0000_0000) * 0x1_0000_0000 + l % 0x1_0000_0000,
{
    vstd::arithmetic::div_mod::lemma_fundamental_div_mod(l as int, 0x1_0000_0000);
}

/// The value of eight words, most significant first.
proof fn lemma_be_words_8(w: Seq<u32>)
    requires
        w.len() == 8,
    ensures
        be_words_value(w) == ((((((w[0] as nat * 0x1_0000_0000 + w[1]) * 0x1_0000_0000 + w[2]) * 0x1_0000_0000 + w[3])
            * 0x1_0000_0000 + w[4]) * 0x1_0000_0000 + w[5]) * 0x1_0000_0000 + w[6]) * 0x1_0000_0000 + w[7],
{
    assert(w.take(0) =~= Seq::<u32>::empty());
    assert(be_words_value(w.take(1)) == w[0]) by {
        assert(w.take(1).drop_last() =~= w.take(0));
        assert(be_words_value(w.take(0)) == 0);
        assert(w.take(1).last() == w[0]);
    }
    assert(be_words_value(w.take(2)) == be_words_value(w.take(1)) * 0x1_0000_0000 + w[1]) by {
        assert(w.take(2).drop_last() =~= w.take(1));
    }
    assert(be_words_value(w.take(3)) == be_words_value(w.take(2)) * 0x1_0000_0000 + w[2]) by {
        assert(w.take(3).drop_last() =~= w.take(2));
    }
    assert(be_words_value(w.take(4)) == be_words_value(w.take(3)) * 0x1_0000_0000 + w[3]) by {
        assert(w.take(4).drop_last() =~= w.take(3));
    }
    assert(be_words_value(w.take(5)) == be_words_value(w.take(4)) * 0x1_0000_0000 + w[4]) by {
        assert(w.take(5).drop_last() =~= w.take(4));
    }
    assert(be_words_value(w.take(6)) == be_words_value(w.take(5)) * 0x1_0000_0000 + w[5]) by {
        assert(w.take(6).drop_last() =~= w.take(5));
    }
    assert(be_words_value(w.take(7)) == be_words_value(w.take(6)) * 0x1_0000_0000 + w[6]) by {
        assert(w.take(7).drop_last() =~= w.take(6));
    }
    assert(be_words_value(w) == be_words_value(w.take(7)) * 0x1_0000_0000 + w[7]) by {
        assert(w.drop_last() =~= w.take(7));
    }
}

/// Joining the words that splitting gives is the number again: the value
/// of the words of `x`, most significant first, is the value of `x`.
pub proof fn law_join_split(x: U256)
    ensures
        be_words_value(spec_u32_words(x)) == x.value(),
{
    let w = spec_u32_words(x);
    lemma_words_of_limbs(x);
    lemma_be_words_8(w);
    lemma_halves_join(x.limb0);
    lemma_halves_join(x.limb1);
    lemma_halves_join(x.limb2);
    lemma_halves_join(x.limb3);
    let b = 0x1_0000_0000int;
    let h0 = (x.limb0 / 0x1_0000_0000) as int;
    let l0 = (x.limb0 % 0x1_0000_0000) as int;
    let h1 = (x.limb1 / 0x1_0000_0000) as int;
    let l1 = (x.limb1 % 0x1_0000_0000) as int;
    let h2 = (x.limb2 / 0x1_0000_0000) as int;
    let l2 = (x.limb2 % 0x1_0000_0000) as int;
    let h3 = (x.limb3 / 0x1_0000_0000) as int;
    let l3 = (x.limb3 % 0x1_0000_0000) as int;
    assert(w[0] == h3 && w[1] == l3 && w[2] == h2 && w[3] == l2 && w[4] == h1 && w[5] == l1 && w[6] == h0 && w[7]
        == l0);
    assert(((((((h3 * b + l3) * b + h2) * b + l2) * b + h1) * b + l1) * b + h0) * b + l0 == (l0 + h0 * b) + (b * b)
        * ((l1 + h1 * b) + (b * b) * ((l2 + h2 * b) + (b * b) * (l3 + h3 * b)))) by (nonlinear_arith);
}

/// Splitting the number that eight words give is those words again.
pub proof fn law_split_join(v: Seq<u32>, y: U256)
    requires
        v.len() == 8,
        y.value() == be_words_value(v),
    ensures
        spec_u32_words(y) == v,
{
    lemma_be_words_8(v);
    let b = 0x1_0000_0000int;
    let bb = 0x1_0000_0000_0000_0000int;
    let p0 = v[6] * b + v[7];
    let p1 = v[4] * b + v[5];
    let p2 = v[2] * b + v[3];
    let p3 = v[0] * b + v[1];
    assert(0 <= p0 < bb && 0 <= p1 < bb && 0 <= p2 < bb && 0 <= p3 < bb) by (nonlinear_arith)
        requires
            p0 == v[6] * b + v[7],
            p1 == v[4] * b + v[5],
            p2 == v[2] * b + v[3],
            p3 == v[0] * b + v[1],
            b == 0x1_0000_0000int,
            bb == 0x1_0000_0000_0000_0000int,
            0 <= v[0] < b,
            0 <= v[1] < b,
            0 <= v[2] < b,
            0 <= v[3] < b,
            0 <= v[4] < b,
            0 <= v[5] < b,
            0 <= v[6] < b,
            0 <= v[7] < b,
    ;
    let value = y.value() as int;
    assert(value == p0 + bb * (p1 + bb * (p2 + bb * p3))) by (nonlinear_arith)
        requires
            value == ((((((v[0] as int * b + v[1]) * b + v[2]) * b + v[3]) * b + v[4]) * b + v[5]) * b + v[6]) * b
                + v[7],
            p0 == v[6] * b + v[7],
            p1 == v[4] * b + v[5],
            p2 == v[2] * b + v[3],
            p3 == v[0] * b + v[1],
            b == 0x1_0000_0000int,
            bb == 0x1_0000_0000_0000_0000int,
    ;
    assert(y.value() == y.limb0 + bb * (y.limb1 + bb * (y.limb2 + bb * y.limb3)));
    // The limbs of `y` are the base-2^64 digits of its value.
    lemma_digits_unique(y.limb0 as int, y.limb1 as int, y.limb2 as int, y.limb3 as int, p0, p1, p2, p3);
    lemma_words_of_limbs(y);
    lemma_split_limb(v[6] as int, v[7] as int);
    lemma_split_limb(v[4] as int, v[5] as int);
    lemma_split_limb(v[2] as int, v[3] as int);
    lemma_split_limb(v[0] as int, v[1] as int);
    let w = spec_u32_words(y);
    assert(w =~= v);
}

/// A high and a low 32-bit half give back their limb's halves.
proof fn lemma_split_limb(h: int, l: int)
    requires
        0 <= h < 0x1_0000_0000,
        0 <= l < 0x1_0000_0000,
    ensures
        (h * 0x1_0000_0000 + l) / 0x1_0000_0000 == h,
        (h * 0x1_0000_0000 + l) % 0x1_0000_0000 == l,
{
    vstd::arithmetic::div_mod::lemma_fundamental_div_mod_converse(h * 0x1_0000_0000 + l, 0x1_0000_0000, h, l);
}

/// Base-2^64 digits are unique.
proof fn lemma_digits_unique(a0: int, a1: int, a2: int, a3: int, c0: int, c1: int, c2: int, c3: int)
    requires
        0 <= a0 < 0x1_0000_0000_0000_0000,
        0 <= a1 < 0x1_0000_0000_0000_0000,
        0 <= a2 < 0x1_0000_0000_0000_0000,
        0 <= a3,
        0 <= c0 < 0x1_0000_0000_0000_0000,
        0 <= c1 < 0x1_0000_0000_0000_0000,
        0 <= c2 < 0x1_0000_0000_0000_0000,
        0 <= c3,
        a0 + 0x1_0000_0000_0000_0000 * (a1 + 0x1_0000_0000_0000_0000 * (a2 + 0x1_0000_0000_0000_0000 * a3)) == c0
            + 0x1_0000_0000_0000_0000 * (c1 + 0x1_0000_0000_0000_0000 * (c2 + 0x1_0000_0000_0000_0000 * c3)),
    ensures
        a0 == c0 && a1 == c1 && a2 == c2 && a3 == c3,
{
    let bb = 0x1_0000_0000_0000_0000int;
    let n = a0 + bb * (a1 + bb * (a2 + bb * a3));
    let qa = a1 + bb * (a2 + bb * a3);
    let qc = c1 + bb * (c2 + bb * c3);
    assert(n == qa * bb + a0 && n == qc * bb + c0) by (nonlinear_arith)
        requires
            n == a0 + bb * qa,
            n == c0 + bb * qc,
    ;
    vstd::arithmetic::div_mod::lemma_fundamental_div_mod_converse(n, bb, qa, a0);
    vstd::arithmetic::div_mod::lemma_fundamental_div_mod_converse(n, bb, qc, c0);
    let ra = a2 + bb * a3;
    let rc = c2 + bb * c3;
    assert(qa == ra * bb + a1 && qc == rc * bb + c1) by (nonlinear_arith)
        requires
            qa == a1 + bb * ra,
            qc == c1 + bb * rc,
    ;
    vstd::arithmetic::div_mod::lemma_fundamental_div_mod_converse(qa, bb, ra, a1);
    vstd::arithmetic::div_mod::lemma_fundamental_div_mod_converse(qc, bb, rc, c1);
    assert(ra == a3 * bb + a2 && rc == c3 * bb + c2) by (nonlinear_arith)
        requires
            ra == a2 + bb * a3,
            rc == c2 + bb * c3,
    ;
    vstd::arithmetic::div_mod::lemma_fundamental_div_mod_converse(ra, bb, a3, a2);
    vstd::arithmetic::div_mod::lemma_fundamental_div_mod_converse(rc, bb, c3, c2);
}

} // verus!
