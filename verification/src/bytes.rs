//! Big-endian numbers and the order of byte strings.

use vstd::prelude::*;

verus! {

/// The number written by `s` in base 256, most significant byte first.
pub open spec fn be_value(s: Seq<u8>) -> nat
    decreases s.len(),
{
    if s.len() == 0 {
        0
    } else {
        be_value(s.drop_last()) * 256 + s.last() as nat
    }
}

/// `a` comes before `b`, or equals it, in the lexicographic order of byte
/// strings of one length.
pub open spec fn lex_le(a: Seq<u8>, b: Seq<u8>) -> bool
    decreases a.len(),
{
    if a.len() == 0 || b.len() == 0 {
        true
    } else {
        a[0] < b[0] || (a[0] == b[0] && lex_le(a.drop_first(), b.drop_first()))
    }
}

/// A string of `len` bytes writes a number below 256 to the power `len`.
pub proof fn lemma_be_value_bound(s: Seq<u8>)
    ensures
        be_value(s) < vstd::arithmetic::power::pow(256, s.len()),
    decreases s.len(),
{
    vstd::arithmetic::power::lemma_pow0(256);
    if s.len() > 0 {
        lemma_be_value_bound(s.drop_last());
        vstd::arithmetic::power::lemma_pow_adds(256, (s.len() - 1) as nat, 1);
        vstd::arithmetic::power::lemma_pow1(256);
    }
}

/// Two strings of one length that write the same number are equal.
pub proof fn lemma_be_value_injective(a: Seq<u8>, b: Seq<u8>)
    requires
        a.len() == b.len(),
        be_value(a) == be_value(b),
    ensures
        a == b,
    decreases a.len(),
{
    if a.len() > 0 {
        lemma_be_value_injective(a.drop_last(), b.drop_last());
        assert(a =~= a.drop_last().push(a.last()));
        assert(b =~= b.drop_last().push(b.last()));
    } else {
        assert(a =~= b);
    }
}

proof fn lemma_pow256_8()
    ensures
        vstd::arithmetic::power::pow(256, 8) == 0x1_0000_0000_0000_0000,
{
    reveal(vstd::arithmetic::power::pow);
    reveal_with_fuel(vstd::arithmetic::power::pow, 9);
}

proof fn lemma_pow256_16()
    ensures
        vstd::arithmetic::power::pow(256, 16) == 0x1_0000_0000_0000_0000_0000_0000_0000_0000,
{
    reveal(vstd::arithmetic::power::pow);
    reveal_with_fuel(vstd::arithmetic::power::pow, 17);
}

/// Up to sixteen bytes write a number that fits in 128 bits, up to eight one
/// that fits in 64.
pub proof fn lemma_be_value_fits(s: Seq<u8>)
    ensures
        s.len() <= 16 ==> be_value(s) <= u128::MAX,
        s.len() <= 8 ==> be_value(s) <= u64::MAX,
{
    lemma_be_value_bound(s);
    if s.len() <= 16 {
        vstd::arithmetic::power::lemma_pow_increases(256, s.len(), 16);
        lemma_pow256_16();
    }
    if s.len() <= 8 {
        vstd::arithmetic::power::lemma_pow_increases(256, s.len(), 8);
        lemma_pow256_8();
    }
}

/// The number that at most eight bytes write.
pub fn be_u64(s: &[u8]) -> (r: u64)
    requires
        s@.len() <= 8,
    ensures
        r == be_value(s@),
{
    let mut value: u64 = 0;
    let mut i: usize = 0;
    while i < s.len()
        invariant
            i <= s@.len() <= 8,
            value == be_value(s@.take(i as int)),
        decreases s@.len() - i,
    {
        proof {
            assert(s@.take(i + 1).drop_last() =~= s@.take(i as int));
            lemma_be_value_fits(s@.take(i + 1));
        }
        value = value * 256 + s[i] as u64;
        i += 1;
    }
    assert(s@.take(i as int) =~= s@);
    value
}

/// The number that at most sixteen bytes write.
pub fn be_u128(s: &[u8]) -> (r: u128)
    requires
        s@.len() <= 16,
    ensures
        r == be_value(s@),
{
    let mut value: u128 = 0;
    let mut i: usize = 0;
    while i < s.len()
        invariant
            i <= s@.len() <= 16,
            value == be_value(s@.take(i as int)),
        decreases s@.len() - i,
    {
        proof {
            assert(s@.take(i + 1).drop_last() =~= s@.take(i as int));
            lemma_be_value_fits(s@.take(i + 1));
        }
        value = value * 256 + s[i] as u128;
        i += 1;
    }
    assert(s@.take(i as int) =~= s@);
    value
}

/// Compares two byte strings of one length.
pub fn bytes_le(a: &[u8], b: &[u8]) -> (r: bool)
    requires
        a@.len() == b@.len(),
    ensures
        r == lex_le(a@, b@),
{
    let mut i: usize = 0;
    assert(a@.skip(0) =~= a@);
    assert(b@.skip(0) =~= b@);
    while i < a.len()
        invariant
            i <= a@.len() == b@.len(),
            lex_le(a@, b@) == lex_le(a@.skip(i as int), b@.skip(i as int)),
        decreases a@.len() - i,
    {
        proof {
            assert(a@.skip(i as int).drop_first() =~= a@.skip(i + 1));
            assert(b@.skip(i as int).drop_first() =~= b@.skip(i + 1));
        }
        if a[i] < b[i] {
            return true;
        }
        if a[i] > b[i] {
            return false;
        }
        i += 1;
    }
    true
}

/// The lexicographic order is total.
pub proof fn lemma_lex_total(a: Seq<u8>, b: Seq<u8>)
    requires
        a.len() == b.len(),
    ensures
        lex_le(a, b) || lex_le(b, a),
    decreases a.len(),
{
    if a.len() > 0 {
        lemma_lex_total(a.drop_first(), b.drop_first());
    }
}

/// Two strings of one length that each come before the other are equal.
pub proof fn lemma_lex_antisymmetric(a: Seq<u8>, b: Seq<u8>)
    requires
        a.len() == b.len(),
        lex_le(a, b),
        lex_le(b, a),
    ensures
        a == b,
    decreases a.len(),
{
    if a.len() > 0 {
        lemma_lex_antisymmetric(a.drop_first(), b.drop_first());
        assert forall|i: int| 0 <= i < a.len() implies a[i] == b[i] by {
            if i > 0 {
                assert(a.drop_first()[i - 1] == b.drop_first()[i - 1]);
            }
        }
    }
    assert(a =~= b);
}

/// A byte alone is its own number, and more bytes behind a string shift its
/// number by two to the power eight for each.
pub proof fn law_numbers_of_bytes(a: Seq<u8>, b: Seq<u8>, byte: u8)
    ensures
        be_value(Seq::empty()) == 0,
        be_value(seq![byte]) == byte,
        be_value(a + b) == be_value(a) * vstd::arithmetic::power::pow(256, b.len()) + be_value(b),
    decreases b.len(),
{
    assert(seq![byte].drop_last() =~= Seq::empty());
    reveal_with_fuel(be_value, 2);
    vstd::arithmetic::power::lemma_pow0(256);
    if b.len() == 0 {
        assert(a + b =~= a);
    } else {
        let head = b.drop_last();
        law_numbers_of_bytes(a, head, byte);
        assert((a + b).drop_last() =~= a + head);
        vstd::arithmetic::power::lemma_pow_adds(256, head.len(), 1);
        vstd::arithmetic::power::lemma_pow1(256);
        let x = be_value(a) as int;
        let p = vstd::arithmetic::power::pow(256, head.len());
        assert((x * p + be_value(head)) * 256 + b.last() == x * (p * 256) + (be_value(head) * 256
            + b.last())) by (nonlinear_arith);
    }
}

proof fn lemma_front_byte(s: Seq<u8>)
    requires
        s.len() > 0,
    ensures
        be_value(s) == s[0] * vstd::arithmetic::power::pow(256, (s.len() - 1) as nat) + be_value(
            s.drop_first(),
        ),
{
    assert(s =~= seq![s[0]] + s.drop_first());
    law_numbers_of_bytes(seq![s[0]], s.drop_first(), s[0]);
}

/// The order of byte strings of one length is the order of their numbers.
pub proof fn law_order_of_bytes(a: Seq<u8>, b: Seq<u8>)
    requires
        a.len() == b.len(),
    ensures
        lex_le(a, b) <==> be_value(a) <= be_value(b),
    decreases a.len(),
{
    if a.len() > 0 {
        let x = a.drop_first();
        let y = b.drop_first();
        law_order_of_bytes(x, y);
        lemma_front_byte(a);
        lemma_front_byte(b);
        lemma_be_value_bound(x);
        lemma_be_value_bound(y);
        let p = vstd::arithmetic::power::pow(256, (a.len() - 1) as nat);
        let m = a[0] as int;
        let n = b[0] as int;
        if m < n {
            assert(m * p + p <= n * p) by (nonlinear_arith)
                requires
                    m + 1 <= n,
                    p >= 0,
            ;
        } else if n < m {
            assert(n * p + p <= m * p) by (nonlinear_arith)
                requires
                    n + 1 <= m,
                    p >= 0,
            ;
        }
    }
}

} // verus!
