use vstd::prelude::*;

verus! {

/// The character of a decimal digit.
pub open spec fn digit_char(d: nat) -> char {
    (48 + d) as char
}

/// Decimal notation of a natural number, without leading zeros.
pub open spec fn decimal(n: nat) -> Seq<char>
    decreases n,
{
    if n < 10 {
        seq![digit_char(n)]
    } else {
        decimal(n / 10).push(digit_char(n % 10))
    }
}

/// Appends the decimal notation of `n` to `w`.
pub fn push_decimal(w: &mut String, n: u64)
    ensures
        final(w)@ == old(w)@ + decimal(n as nat),
    decreases n,
{
    if n >= 10 {
        push_decimal(w, n / 10);
    }
    let d: u8 = (n % 10) as u8;
    crate::escape::push_char(w, (48 + d) as char);
    assert(old(w)@ + decimal(n as nat) =~= if n >= 10 {
        old(w)@ + decimal((n / 10) as nat) + seq![digit_char((n % 10) as nat)]
    } else {
        old(w)@ + seq![digit_char((n % 10) as nat)]
    });
}

} // verus!
