//! Decimal notation for lengths, as it appears in a `Content-Length` header.

use vstd::prelude::*;

verus! {

/// The ASCII code of the digit `0`.
pub const ASCII_ZERO: u8 = 48;

/// The ASCII digit that stands for `d`, for `d` below ten.
pub open spec fn digit(d: nat) -> u8 {
    (ASCII_ZERO + d) as u8
}

/// The decimal notation of `n`: most significant digit first, no sign, no
/// leading zero except for zero itself.
pub open spec fn decimal(n: nat) -> Seq<u8>
    decreases n,
{
    if n < 10 {
        seq![digit(n)]
    } else {
        decimal(n / 10).push(digit(n % 10))
    }
}

/// True when every byte of `s` is an ASCII digit.
pub open spec fn all_digits(s: Seq<u8>) -> bool {
    forall|i: int| 0 <= i < s.len() ==> ASCII_ZERO <= #[trigger] s[i] <= ASCII_ZERO + 9
}

/// The number that a string of ASCII digits denotes; the empty string
/// denotes zero.
pub open spec fn decimal_value(s: Seq<u8>) -> nat
    decreases s.len(),
{
    if s.len() == 0 {
        0
    } else {
        10 * decimal_value(s.drop_last()) + (s.last() - ASCII_ZERO) as nat
    }
}

/// The notation of a number is never empty, consists of digits only, and
/// starts with `0` only when the number is zero.
pub proof fn lemma_decimal_shape(n: nat)
    ensures
        decimal(n).len() >= 1,
        all_digits(decimal(n)),
        decimal(n)[0] == ASCII_ZERO <==> n == 0,
    decreases n,
{
    if n >= 10 {
        lemma_decimal_shape(n / 10);
    }
}

/// Reading the notation of a number gives the number back.
pub proof fn lemma_decimal_round_trip(n: nat)
    ensures
        decimal_value(decimal(n)) == n,
    decreases n,
{
    if n < 10 {
        assert(decimal(n).drop_last() =~= Seq::<u8>::empty());
        assert(decimal_value(decimal(n).drop_last()) == 0);
    } else {
        lemma_decimal_round_trip(n / 10);
        assert(decimal(n).drop_last() =~= decimal(n / 10));
    }
}

/// Two numbers with the same notation are the same number.
pub proof fn lemma_decimal_injective(a: nat, b: nat)
    requires
        decimal(a) == decimal(b),
    ensures
        a == b,
{
    lemma_decimal_round_trip(a);
    lemma_decimal_round_trip(b);
}

/// Writes `n` in decimal notation.
pub fn render_decimal(n: usize) -> (out: Vec<u8>)
    ensures
        out@ == decimal(n as nat),
{
    let mut out: Vec<u8> = Vec::new();
    let mut rest: usize = n;
    while rest >= 10
        invariant
            decimal(n as nat) == decimal(rest as nat) + out@,
        decreases rest,
    {
        let ghost tail = out@;
        let low: u8 = (rest % 10) as u8;
        out.insert(0, ASCII_ZERO + low);
        proof {
            assert(decimal(rest as nat) == decimal((rest / 10) as nat).push(
                digit((rest % 10) as nat),
            ));
            assert(decimal(rest as nat) + tail =~= decimal((rest / 10) as nat) + out@);
        }
        rest = rest / 10;
    }
    let ghost tail = out@;
    out.insert(0, ASCII_ZERO + rest as u8);
    assert(decimal(rest as nat) + tail =~= out@);
    out
}

} // verus!
