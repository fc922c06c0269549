//! Decimal numerals in ASCII, the number format of the raster text.

use vstd::prelude::*;

verus! {

/// ASCII code of `0`; the other digits follow it in order.
pub const ZERO: u8 = 48;

/// ASCII code of the digit that stands for `d`.
pub open spec fn digit(d: nat) -> u8
    recommends
        d < 10,
{
    (ZERO + d) as u8
}

/// The decimal numeral of `n`: most significant digit first, and no leading
/// zero unless `n` is zero itself.
pub open spec fn numeral(n: nat) -> Seq<u8>
    decreases n,
{
    if n < 10 {
        seq![digit(n)]
    } else {
        numeral(n / 10).push(digit(n % 10))
    }
}

/// Whether every byte of `text` is an ASCII digit.
pub open spec fn all_digits(text: Seq<u8>) -> bool {
    forall|i: int| 0 <= i < text.len() ==> ZERO <= #[trigger] text[i] <= ZERO + 9
}

/// The number that a string of digits denotes, read in base ten.
pub open spec fn value(text: Seq<u8>) -> nat
    decreases text.len(),
{
    if text.len() == 0 {
        0
    } else {
        10 * value(text.drop_last()) + (text.last() - ZERO) as nat
    }
}

/// A numeral is a non-empty string of digits that denotes its number, and
/// it starts with `0` only when the number is zero.
pub proof fn lemma_numeral_denotes(n: nat)
    ensures
        numeral(n).len() >= 1,
        all_digits(numeral(n)),
        value(numeral(n)) == n,
        numeral(n)[0] == ZERO <==> n == 0,
    decreases n,
{
    if n < 10 {
        assert(numeral(n).drop_last() =~= Seq::<u8>::empty());
        assert(value(numeral(n)) == 10 * value(numeral(n).drop_last()) + (numeral(n).last() - ZERO) as nat);
    } else {
        let head = numeral(n / 10);
        lemma_numeral_denotes(n / 10);
        assert(numeral(n).drop_last() =~= head);
        assert(numeral(n)[0] == head[0]);
    }
}

/// Writes `n` in decimal.
pub fn decimal(n: usize) -> (text: Vec<u8>)
    ensures
        text@ == numeral(n as nat),
        text.len() >= 1,
        all_digits(text@),
        value(text@) == n,
{
    proof {
        lemma_numeral_denotes(n as nat);
    }
    let mut reversed: Vec<u8> = Vec::new();
    let mut rest: usize = n;
    while rest >= 10
        invariant
            numeral(n as nat) == numeral(rest as nat) + reversed@.reverse(),
        decreases rest,
    {
        let low: u8 = ZERO + (rest % 10) as u8;
        proof {
            let shorter = numeral((rest / 10) as nat);
            assert(numeral(rest as nat) == shorter.push(low));
            assert(shorter.push(low) + reversed@.reverse() =~= shorter + reversed@.push(low).reverse());
        }
        reversed.push(low);
        rest = rest / 10;
    }
    let high: u8 = ZERO + rest as u8;
    proof {
        assert(numeral(rest as nat) + reversed@.reverse() =~= reversed@.push(high).reverse());
    }
    reversed.push(high);

    let mut text: Vec<u8> = Vec::new();
    let mut left: usize = reversed.len();
    while left > 0
        invariant
            left <= reversed.len(),
            text@ == reversed@.reverse().subrange(0, reversed.len() - left),
        decreases left,
    {
        left = left - 1;
        text.push(reversed[left]);
        assert(text@ =~= reversed@.reverse().subrange(0, reversed.len() - left));
    }
    assert(text@ =~= reversed@.reverse());
    text
}

} // verus!
