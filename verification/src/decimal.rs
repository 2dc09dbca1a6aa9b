//! Decimal text of unsigned integers, as ASCII bytes.

use vstd::prelude::*;

verus! {

/// The ASCII byte of the decimal digit `d`.
pub open spec fn digit(d: nat) -> u8
    recommends
        d < 10,
{
    (48 + d) as u8
}

/// The decimal text of `n`: most significant digit first, no leading zero,
/// and the single digit `0` for zero.
pub open spec fn decimal(n: nat) -> Seq<u8>
    decreases n,
{
    if n < 10 {
        seq![digit(n)]
    } else {
        decimal(n / 10).push(digit(n % 10))
    }
}

/// The number that a string of decimal digits denotes.
pub open spec fn decimal_value(text: Seq<u8>) -> nat
    decreases text.len(),
{
    if text.len() == 0 {
        0
    } else {
        decimal_value(text.drop_last()) * 10 + (text.last() - 48) as nat
    }
}

/// Whether every byte of `text` is an ASCII decimal digit.
pub open spec fn all_digits(text: Seq<u8>) -> bool {
    forall|i: int| 0 <= i < text.len() ==> 48 <= #[trigger] text[i] <= 57
}

/// The decimal text of a number is a non-empty string of digits that starts
/// with `0` only for zero itself.
pub proof fn lemma_decimal_shape(n: nat)
    ensures
        decimal(n).len() >= 1,
        all_digits(decimal(n)),
        decimal(n)[0] == 48 <==> n == 0,
    decreases n,
{
    if n >= 10 {
        lemma_decimal_shape(n / 10);
    }
}

/// Reading the decimal text of a number gives the number back.
pub proof fn lemma_decimal_round_trip(n: nat)
    ensures
        decimal_value(decimal(n)) == n,
    decreases n,
{
    if n < 10 {
        assert(decimal(n).drop_last() =~= Seq::<u8>::empty());
        assert(decimal_value(decimal(n).drop_last()) == 0);
    } else {
        lemma_decimal_round_trip(n / 10);
        assert(decimal(n).drop_last() =~= decimal(n / 10));
    }
}

/// Appends the decimal text of `n` to `out`.
pub fn push_decimal(out: &mut Vec<u8>, n: u32)
    ensures
        final(out)@ == old(out)@ + decimal(n as nat),
{
    let mut low: Vec<u8> = Vec::new();
    let mut rest: u32 = n / 10;
    low.push(48u8 + (n % 10) as u8);
    while rest > 0
        invariant
            low@.len() >= 1,
            decimal(n as nat) == (if rest > 0 {
                decimal(rest as nat)
            } else {
                Seq::<u8>::empty()
            }) + low@.reverse(),
        decreases rest,
    {
        let d: u8 = 48u8 + (rest % 10) as u8;
        let ghost before = low@;
        low.push(d);
        proof {
            let next = (rest / 10) as nat;
            let head = if next > 0 { decimal(next) } else { Seq::<u8>::empty() };
            assert(low@.reverse() =~= seq![d] + before.reverse());
            assert(decimal(rest as nat) =~= head + seq![d]);
            assert(head + low@.reverse() =~= (head + seq![d]) + before.reverse());
        }
        rest = rest / 10;
    }
    let mut i: usize = low.len();
    while i > 0
        invariant
            i <= low@.len(),
            out@ == old(out)@ + low@.reverse().subrange(0, low@.len() - i),
        decreases i,
    {
        i = i - 1;
        out.push(low[i]);
    }
    assert(low@.reverse().subrange(0, low@.len() as int) =~= low@.reverse());
}

} // verus!
