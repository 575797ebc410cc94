//! 256-bit unsigned integers, held as four little-endian 64-bit limbs.
//!
//! Parsing and decimal printing are done by the `primitive-types` crate; the
//! wrappers below state what those calls return.
use vstd::prelude::*;

verus! {

/// 2^64
pub open spec fn limb_base() -> nat {
    0x1_0000_0000_0000_0000nat
}

/// 2^256
pub open spec fn u256_modulus() -> nat {
    0x1_0000_0000_0000_0000_0000_0000_0000_0000_0000_0000_0000_0000_0000_0000_0000_0000nat
}

/// A 256-bit unsigned integer; `limb0` is the least significant limb.
#[derive(Clone, Copy, Debug, PartialEq, Eq, Structural)]
pub struct U256 {
    pub limb0: u64,
    pub limb1: u64,
    pub limb2: u64,
    pub limb3: u64,
}

impl U256 {
    /// The number that the limbs encode.
    pub open spec fn value(self) -> nat {
        self.limb0 as nat + limb_base() * (self.limb1 as nat + limb_base() * (
        self.limb2 as nat + limb_base() * self.limb3 as nat))
    }

    /// The value `v`.
    pub fn from_u32(v: u32) -> (r: U256)
        ensures
            r.value() == v as nat,
            r.limb0 == v as u64,
            r.limb1 == 0,
            r.limb2 == 0,
            r.limb3 == 0,
    {
        U256 { limb0: v as u64, limb1: 0, limb2: 0, limb3: 0 }
    }

    /// Zero.
    pub fn zero() -> (r: U256)
        ensures
            r.value() == 0,
            r.limb0 == 0 && r.limb1 == 0 && r.limb2 == 0 && r.limb3 == 0,
    {
        U256 { limb0: 0, limb1: 0, limb2: 0, limb3: 0 }
    }
}


/// `c` is one of `'0'..='9'`.
pub open spec fn is_dec_digit(c: char) -> bool {
    '0' <= c && c <= '9'
}

/// The value of the decimal digit `c`.
pub open spec fn dec_digit_value(c: char) -> nat {
    (c as int - '0' as int) as nat
}

/// Every character of `s` is a decimal digit.
pub open spec fn all_dec_digits(s: Seq<char>) -> bool {
    forall|i: int| 0 <= i < s.len() ==> is_dec_digit(#[trigger] s[i])
}

/// The number that the decimal digits `s` spell (0 for the empty text).
pub open spec fn dec_value(s: Seq<char>) -> nat
    decreases s.len(),
{
    if s.len() == 0 {
        0
    } else {
        dec_value(s.drop_last()) * 10 + dec_digit_value(s.last())
    }
}

/// `c` is a hexadecimal digit, in either case.
pub open spec fn is_hex_digit(c: char) -> bool {
    ('0' <= c && c <= '9') || ('a' <= c && c <= 'f') || ('A' <= c && c <= 'F')
}

/// The value of the hexadecimal digit `c`.
pub open spec fn hex_digit_value(c: char) -> nat {
    if '0' <= c && c <= '9' {
        (c as int - '0' as int) as nat
    } else if 'a' <= c && c <= 'f' {
        (c as int - 'a' as int + 10) as nat
    } else {
        (c as int - 'A' as int + 10) as nat
    }
}

/// Every character of `s` is a hexadecimal digit.
pub open spec fn all_hex_digits(s: Seq<char>) -> bool {
    forall|i: int| 0 <= i < s.len() ==> is_hex_digit(#[trigger] s[i])
}

/// The number that the hexadecimal digits `s` spell (0 for the empty text).
pub open spec fn hex_value(s: Seq<char>) -> nat
    decreases s.len(),
{
    if s.len() == 0 {
        0
    } else {
        hex_value(s.drop_last()) * 16 + hex_digit_value(s.last())
    }
}

/// `s` without one leading `0x`, if it has one.
pub open spec fn hex_body(s: Seq<char>) -> Seq<char> {
    if s.len() >= 2 && s[0] == '0' && s[1] == 'x' {
        s.skip(2)
    } else {
        s
    }
}

/// The digit character for `d < 10`.
pub open spec fn dec_digit_char(d: nat) -> char {
    (d + '0' as nat) as char
}

/// The decimal notation of `n`, without leading zeros (`"0"` for zero).
pub open spec fn nat_to_dec(n: nat) -> Seq<char>
    decreases n,
{
    if n < 10 {
        seq![dec_digit_char(n)]
    } else {
        nat_to_dec(n / 10).push(dec_digit_char(n % 10))
    }
}

/// Byte `k` (0 is the least significant) of the little-endian encoding of `x`.
pub open spec fn le_byte(x: U256, k: int) -> u8 {
    let limb = if k / 8 == 0 {
        x.limb0
    } else if k / 8 == 1 {
        x.limb1
    } else if k / 8 == 2 {
        x.limb2
    } else {
        x.limb3
    };
    ((limb >> (8 * (k % 8)) as u64) & 0xff) as u8
}

/// `primitive_types::U256::from_dec_str`: it reads the text byte by byte; it
/// fails on a byte outside `'0'..='9'` and when the number does not fit in
/// 256 bits, and otherwise returns the number (0 for the empty text).
#[verifier::external_body]
pub(crate) fn parse_decimal(s: &str) -> (res: Option<U256>)
    ensures
        res is Some <==> (all_dec_digits(s@) && dec_value(s@) < u256_modulus()),
        res matches Some(v) ==> v.value() == dec_value(s@),
{
    primitive_types::U256::from_dec_str(s).ok().map(
        |v| U256 { limb0: v.0[0], limb1: v.0[1], limb2: v.0[2], limb3: v.0[3] },
    )
}

/// `primitive_types::U256::from_str_radix(s, 16)`: it drops one leading
/// `0x`, fails when more than 64 characters remain or when one of them is not
/// a hexadecimal digit, and otherwise returns the number they spell.
#[verifier::external_body]
pub(crate) fn parse_hexadecimal(s: &str) -> (res: Option<U256>)
    ensures
        res is Some <==> (hex_body(s@).len() <= 64 && all_hex_digits(hex_body(s@))),
        res matches Some(v) ==> v.value() == hex_value(hex_body(s@)),
{
    primitive_types::U256::from_str_radix(s, 16).ok().map(
        |v| U256 { limb0: v.0[0], limb1: v.0[1], limb2: v.0[2], limb3: v.0[3] },
    )
}

impl U256 {
    /// The decimal notation of the number, as `primitive_types::U256`'s
    /// `Display` writes it: digits without sign or leading zeros.
    #[verifier::external_body]
    pub(crate) fn to_decimal_string(&self) -> (res: String)
        ensures
            res@ == nat_to_dec(self.value()),
    {
        primitive_types::U256([self.limb0, self.limb1, self.limb2, self.limb3]).to_string()
    }

    /// `primitive_types::U256::to_little_endian`: the 32 bytes of the number,
    /// least significant first.
    #[verifier::external_body]
    pub(crate) fn to_little_endian_bytes(&self) -> (res: Vec<u8>)
        ensures
            res.len() == 32,
            forall|k: int| 0 <= k < 32 ==> res@[k] == le_byte(*self, k),
    {
        primitive_types::U256([self.limb0, self.limb1, self.limb2, self.limb3]).to_little_endian().to_vec()
    }
}


/// The 256-bit number whose value is `n`, for `n` below 2^256: its limbs
/// are the base-2^64 digits of `n`.
pub open spec fn u256_of(n: nat) -> U256 {
    let b = limb_base();
    U256 {
        limb0: (n % b) as u64,
        limb1: ((n / b) % b) as u64,
        limb2: (((n / b) / b) % b) as u64,
        limb3: ((((n / b) / b) / b) % b) as u64,
    }
}

/// A number is the one its value gives.
pub proof fn lemma_u256_of_value(x: U256)
    ensures
        u256_of(x.value()) == x,
{
    let b = limb_base() as int;
    let l0 = x.limb0 as int;
    let l1 = x.limb1 as int;
    let l2 = x.limb2 as int;
    let l3 = x.limb3 as int;
    let q2 = l2 + b * l3;
    let q1 = l1 + b * q2;
    let n = l0 + b * q1;
    assert(x.value() == n);
    assert(n == q1 * b + l0) by (nonlinear_arith)
        requires
            n == l0 + b * q1,
    ;
    vstd::arithmetic::div_mod::lemma_fundamental_div_mod_converse(n, b, q1, l0);
    assert(q1 == q2 * b + l1) by (nonlinear_arith)
        requires
            q1 == l1 + b * q2,
    ;
    vstd::arithmetic::div_mod::lemma_fundamental_div_mod_converse(q1, b, q2, l1);
    assert(q2 == l3 * b + l2) by (nonlinear_arith)
        requires
            q2 == l2 + b * l3,
    ;
    vstd::arithmetic::div_mod::lemma_fundamental_div_mod_converse(q2, b, l3, l2);
    vstd::arithmetic::div_mod::lemma_fundamental_div_mod_converse(l3, b, 0, l3);
}

} // verus!
