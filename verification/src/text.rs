//! Building text: digits of numbers, joining pieces with a separator.
use vstd::prelude::*;
use crate::u256::{nat_to_dec, dec_digit_char};

verus! {

/// `String::push`: appends one character.
#[verifier::external_body]
pub(crate) fn push_char(s: &mut String, c: char)
    ensures
        final(s)@ == old(s)@.push(c),
{
    s.push(c)
}

/// `<str as PartialEq>::eq`: the two texts hold the same characters.
#[verifier::external_body]
pub(crate) fn str_eq(a: &str, b: &str) -> (res: bool)
    ensures
        res == (a@ == b@),
{
    a == b
}

/// `str::chars` collected into a vector: the characters of the text, in order.
#[verifier::external_body]
pub(crate) fn str_chars(s: &str) -> (res: Vec<char>)
    ensures
        res@ == s@,
{
    s.chars().collect()
}

/// Collecting characters into a `String`.
#[verifier::external_body]
pub(crate) fn chars_to_string(cs: &[char]) -> (res: String)
    ensures
        res@ == cs@,
{
    cs.iter().collect()
}

/// A copy of the text.
pub fn copy_string(s: &String) -> (res: String)
    ensures
        res@ == s@,
{
    s.clone()
}

/// The `String` holding the characters of `s`.
pub fn string_from(s: &str) -> (res: String)
    ensures
        res@ == s@,
{
    let mut r = String::new();
    r.append(s);
    r
}

proof fn lemma_nat_to_dec_len(n: nat)
    ensures
        nat_to_dec(n).len() >= 1,
    decreases n,
{
    if n >= 10 {
        lemma_nat_to_dec_len(n / 10);
    }
}

/// Appends the decimal notation of `n` to `s`.
pub fn append_u64(s: &mut String, n: u64)
    ensures
        final(s)@ == old(s)@ + nat_to_dec(n as nat),
    decreases n,
{
    if n >= 10 {
        append_u64(s, n / 10);
    }
    let d = (n % 10) as u8;
    let c = (48u8 + d) as char;
    proof {
        assert(dec_digit_char((n % 10) as nat) == c);
    }
    push_char(s, c);
    proof {
        if n >= 10 {
            assert(old(s)@ + nat_to_dec(n as nat) =~= old(s)@ + nat_to_dec((n / 10) as nat) + seq![c]);
        } else {
            assert(old(s)@ + nat_to_dec(n as nat) =~= old(s)@.push(c));
        }
    }
}

/// The decimal notation of `n`.
pub fn append_u128(s: &mut String, n: u128)
    ensures
        final(s)@ == old(s)@ + nat_to_dec(n as nat),
    decreases n,
{
    if n >= 10 {
        append_u128(s, n / 10);
    }
    let d = (n % 10) as u8;
    let c = (48u8 + d) as char;
    proof {
        assert(dec_digit_char((n % 10) as nat) == c);
    }
    push_char(s, c);
    proof {
        if n >= 10 {
            assert(old(s)@ + nat_to_dec(n as nat) =~= old(s)@ + nat_to_dec((n / 10) as nat) + seq![c]);
        } else {
            assert(old(s)@ + nat_to_dec(n as nat) =~= old(s)@.push(c));
        }
    }
}

pub fn u64_to_string(n: u64) -> (res: String)
    ensures
        res@ == nat_to_dec(n as nat),
{
    let mut r = String::new();
    append_u64(&mut r, n);
    proof {
        assert(Seq::<char>::empty() + nat_to_dec(n as nat) =~= nat_to_dec(n as nat));
    }
    r
}

/// The pieces joined with `sep` between each two neighbours.
pub open spec fn seq_join(pieces: Seq<Seq<char>>, sep: Seq<char>) -> Seq<char>
    decreases pieces.len(),
{
    if pieces.len() == 0 {
        Seq::empty()
    } else if pieces.len() == 1 {
        pieces[0]
    } else {
        seq_join(pieces.drop_last(), sep) + sep + pieces.last()
    }
}

/// The views of a vector of strings.
pub open spec fn string_views(v: Seq<String>) -> Seq<Seq<char>> {
    v.map_values(|s: String| s@)
}

/// `pieces` joined with `sep`.
pub fn join(pieces: &Vec<String>, sep: &str) -> (res: String)
    ensures
        res@ == seq_join(string_views(pieces@), sep@),
{
    let mut res = String::new();
    let ghost views = string_views(pieces@);
    let mut i: usize = 0;
    while i < pieces.len()
        invariant
            i <= pieces.len(),
            views == string_views(pieces@),
            res@ == seq_join(views.take(i as int), sep@),
        decreases pieces.len() - i,
    {
        proof {
            assert(views.take(i + 1).drop_last() =~= views.take(i as int));
            assert(views.take(i + 1).last() == pieces@[i as int]@);
        }
        if i != 0 {
            res.append(sep);
        } else {
            assert(res@ =~= Seq::<char>::empty());
        }
        res.append(pieces[i].as_str());
        proof {
            if i == 0 {
                assert(res@ =~= views.take(1)[0]);
            }
        }
        i = i + 1;
    }
    proof {
        assert(views.take(pieces.len() as int) =~= views);
    }
    res
}

} // verus!
