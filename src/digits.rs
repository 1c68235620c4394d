//! Fixed-width sequences of binary digits, most significant digit first.
use vstd::arithmetic::power2::{
    lemma2_to64,
    lemma_pow2_pos,
    lemma_pow2_strictly_increases,
    lemma_pow2_unfold,
    pow2,
};
use vstd::arithmetic::div_mod::lemma_basic_div;
use vstd::bits::lemma_u32_shr_is_div;
use vstd::prelude::*;

verus! {

/// Every digit of `d` equals `b`.
pub open spec fn all_digits(d: Seq<bool>, b: bool) -> bool {
    forall|i: int| 0 <= i < d.len() ==> d[i] == b
}

/// The unsigned number that `d` spells in binary, most significant digit first.
pub open spec fn digits_value(d: Seq<bool>) -> nat
    decreases d.len(),
{
    if d.len() == 0 {
        0
    } else {
        2 * digits_value(d.drop_last()) + (if d.last() { 1nat } else { 0nat })
    }
}

/// The character that renders one digit.
pub open spec fn digit_char(b: bool) -> char {
    if b {
        '1'
    } else {
        '0'
    }
}

/// The text that renders a digit sequence, one character per digit.
pub open spec fn digits_text(d: Seq<bool>) -> Seq<char> {
    d.map_values(|b: bool| digit_char(b))
}

pub proof fn lemma_digits_value_bound(d: Seq<bool>)
    ensures
        digits_value(d) < pow2(d.len()),
    decreases d.len(),
{
    if d.len() == 0 {
        lemma_pow2_pos(0);
    } else {
        lemma_digits_value_bound(d.drop_last());
        lemma_pow2_unfold(d.len());
    }
}

/// A sequence spells zero exactly when all its digits are unset.
pub proof fn lemma_digits_value_zero(d: Seq<bool>)
    ensures
        digits_value(d) == 0 <==> all_digits(d, false),
    decreases d.len(),
{
    if d.len() > 0 {
        lemma_digits_value_zero(d.drop_last());
        if all_digits(d, false) {
            assert(all_digits(d.drop_last(), false));
        }
        if digits_value(d) == 0 {
            assert forall|i: int| 0 <= i < d.len() implies d[i] == false by {
                if i < d.len() - 1 {
                    assert(d.drop_last()[i] == d[i]);
                }
            }
        }
    }
}

/// A sequence spells its largest value exactly when all its digits are set.
pub proof fn lemma_digits_value_full(d: Seq<bool>)
    ensures
        digits_value(d) + 1 == pow2(d.len()) <==> all_digits(d, true),
    decreases d.len(),
{
    if d.len() == 0 {
        lemma_pow2_pos(0);
        lemma2_to64();
    } else {
        lemma_digits_value_full(d.drop_last());
        lemma_digits_value_bound(d.drop_last());
        lemma_pow2_unfold(d.len());
        if all_digits(d, true) {
            assert(all_digits(d.drop_last(), true));
        }
        if digits_value(d) + 1 == pow2(d.len()) {
            assert forall|i: int| 0 <= i < d.len() implies d[i] == true by {
                if i < d.len() - 1 {
                    assert(d.drop_last()[i] == d[i]);
                }
            }
        }
    }
}

/// Two sequences of one length that spell the same number are the same sequence.
pub proof fn lemma_digits_value_injective(a: Seq<bool>, b: Seq<bool>)
    requires
        a.len() == b.len(),
        digits_value(a) == digits_value(b),
    ensures
        a == b,
    decreases a.len(),
{
    if a.len() > 0 {
        lemma_digits_value_injective(a.drop_last(), b.drop_last());
        assert(a.last() == b.last());
        assert forall|i: int| 0 <= i < a.len() implies a[i] == b[i] by {
            if i < a.len() - 1 {
                assert(a.drop_last()[i] == a[i]);
                assert(b.drop_last()[i] == b[i]);
            }
        }
    }
    assert(a =~= b);
}

proof fn lemma_shr_step(x: u32, s: u32, t: u32)
    requires
        s < 31,
        t == s + 1,
    ensures
        x >> s == 2 * (x >> t) + ((x >> s) & 1),
{
    assert(x >> s == 2 * (x >> t) + ((x >> s) & 1)) by (bit_vector)
        requires
            s < 31,
            t == s + 1,
    ;
}

/// Whether every digit of `d` equals `b`.
pub fn all_equal_to(d: &[bool], b: bool) -> (r: bool)
    ensures
        r == all_digits(d@, b),
{
    let mut i: usize = 0;
    while i < d.len()
        invariant
            i <= d@.len(),
            forall|j: int| 0 <= j < i ==> d@[j] == b,
        decreases d.len() - i,
    {
        if d[i] != b {
            return false;
        }
        i += 1;
    }
    true
}

/// Whether two digit sequences of one length agree digit by digit.
pub fn same_digits(a: &[bool], b: &[bool]) -> (r: bool)
    requires
        a@.len() == b@.len(),
    ensures
        r == (a@ == b@),
{
    let mut i: usize = 0;
    while i < a.len()
        invariant
            i <= a@.len(),
            a@.len() == b@.len(),
            forall|j: int| 0 <= j < i ==> a@[j] == b@[j],
        decreases a.len() - i,
    {
        if a[i] != b[i] {
            assert(a@[i as int] != b@[i as int]);
            return false;
        }
        i += 1;
    }
    assert(a@ =~= b@);
    true
}

/// Appends the rendering of `d` to `text`.
pub fn push_digits(text: &mut String, d: &[bool])
    ensures
        final(text)@ == old(text)@ + digits_text(d@),
{
    let ghost start = text@;
    let mut i: usize = 0;
    while i < d.len()
        invariant
            i <= d@.len(),
            text@ == start + digits_text(d@.take(i as int)),
        decreases d.len() - i,
    {
        proof {
            reveal_strlit("0");
            reveal_strlit("1");
        }
        let ghost prev = text@;
        if d[i] {
            text.append("1");
        } else {
            text.append("0");
        }
        assert(text@ =~= prev + seq![digit_char(d@[i as int])]);
        assert(digits_text(d@.take(i + 1)) =~= digits_text(d@.take(i as int)) + seq![
            digit_char(d@[i as int]),
        ]);
        assert(text@ =~= start + digits_text(d@.take(i + 1)));
        i += 1;
    }
    assert(d@.take(d@.len() as int) =~= d@);
}

/// The number spelled by a sequence of at most 24 digits.
pub fn pack(d: &[bool]) -> (r: u32)
    requires
        d@.len() <= 24,
    ensures
        r == digits_value(d@),
{
    let mut acc: u32 = 0;
    let mut i: usize = 0;
    while i < d.len()
        invariant
            i <= d@.len() <= 24,
            acc == digits_value(d@.take(i as int)),
        decreases d.len() - i,
    {
        proof {
            lemma_digits_value_bound(d@.take(i as int));
            if i < 24 {
                lemma_pow2_strictly_increases(i as nat, 24);
            }
            lemma2_to64();
            assert(d@.take(i + 1).drop_last() =~= d@.take(i as int));
        }
        acc = 2 * acc + if d[i] {
            1
        } else {
            0
        };
        i += 1;
    }
    assert(d@.take(d@.len() as int) =~= d@);
    acc
}

/// The `N` digits that spell `x`.
pub fn unpack<const N: usize>(x: u32) -> (r: [bool; N])
    requires
        N < 32,
        x < pow2(N as nat),
    ensures
        digits_value(r@) == x,
{
    let mut r: [bool; N] = [false; N];
    let mut i: usize = 0;
    proof {
        lemma_u32_shr_is_div(x, N as u32);
        lemma_pow2_pos(N as nat);
        lemma_basic_div(x as int, pow2(N as nat) as int);
        assert(r@.take(0) =~= Seq::<bool>::empty());
    }
    while i < N
        invariant
            i <= N < 32,
            r@.len() == N,
            digits_value(r@.take(i as int)) == (x >> ((N - i) as u32)),
        decreases N - i,
    {
        let s: u32 = (N - 1 - i) as u32;
        let digit: bool = (x >> s) & 1 == 1;
        proof {
            lemma_shr_step(x, s, (N - i) as u32);
            assert((x >> s) & 1 == 1 || (x >> s) & 1 == 0) by (bit_vector);
        }
        let ghost before = r@;
        r[i] = digit;
        proof {
            assert(r@.take(i + 1).drop_last() =~= before.take(i as int));
        }
        i += 1;
    }
    proof {
        assert(x >> 0u32 == x) by (bit_vector);
        assert(r@.take(N as int) =~= r@);
    }
    r
}

} // verus!
