//! Decimal digit runs: rendering numbers to text and reading them back.

use vstd::prelude::*;
use crate::text::push_char;

verus! {

/// The digit character for one decimal digit.
pub open spec fn digit_char(d: int) -> char {
    ((48 + d) as u8) as char
}

/// Whether a character is a decimal digit.
pub open spec fn is_digit_char(c: char) -> bool {
    48 <= c as u32 <= 57
}

/// The value of one digit character.
pub open spec fn digit_val(c: char) -> int {
    c as u32 - 48
}

/// Every character of the text is a decimal digit.
pub open spec fn all_digits(s: Seq<char>) -> bool {
    forall|i: int| 0 <= i < s.len() ==> is_digit_char(#[trigger] s[i])
}

/// The decimal rendering of a number: most significant digit first, no
/// leading zero except for the number zero itself.
pub open spec fn dec_rep(n: nat) -> Seq<char>
    decreases n,
{
    if n < 10 {
        seq![digit_char(n as int)]
    } else {
        dec_rep(n / 10).push(digit_char((n % 10) as int))
    }
}

/// The number a digit run denotes.
pub open spec fn val_of(s: Seq<char>) -> int
    decreases s.len(),
{
    if s.len() == 0 {
        0
    } else {
        val_of(s.drop_last()) * 10 + digit_val(s.last())
    }
}

/// A decimal rendering consists of digits, is nonempty, and denotes the
/// number it was made from.
pub proof fn lemma_dec_rep(n: nat)
    ensures
        dec_rep(n).len() >= 1,
        all_digits(dec_rep(n)),
        val_of(dec_rep(n)) == n,
    decreases n,
{
    if n < 10 {
        let s = dec_rep(n);
        assert(s =~= seq![digit_char(n as int)]);
        assert(s.last() == digit_char(n as int));
        assert(s.drop_last() =~= Seq::<char>::empty());
        assert(val_of(Seq::<char>::empty()) == 0);
        assert(digit_val(digit_char(n as int)) == n);
        assert(val_of(s) == n);
    } else {
        lemma_dec_rep(n / 10);
        let s = dec_rep(n);
        assert(s =~= dec_rep(n / 10).push(digit_char((n % 10) as int)));
        assert(s.drop_last() =~= dec_rep(n / 10));
        assert(s.last() == digit_char((n % 10) as int));
        assert(digit_val(digit_char((n % 10) as int)) == n % 10);
        assert(val_of(s) == (n / 10) * 10 + n % 10);
    }
}

/// Two different numbers never share a decimal rendering.
pub proof fn lemma_dec_rep_injective(a: nat, b: nat)
    requires
        dec_rep(a) == dec_rep(b),
    ensures
        a == b,
{
    lemma_dec_rep(a);
    lemma_dec_rep(b);
}

/// Appends the decimal rendering of `n` to the text.
pub fn push_uint(s: &mut String, n: u128)
    ensures
        final(s)@ == old(s)@ + dec_rep(n as nat),
    decreases n,
{
    if n >= 10 {
        push_uint(s, n / 10);
    }
    let d: u8 = (n % 10) as u8;
    push_char(s, (48 + d) as char);
    proof {
        if n < 10 {
            assert(old(s)@ + dec_rep(n as nat) =~= old(s)@.push(digit_char(n as int)));
        } else {
            assert(old(s)@ + dec_rep(n as nat) =~= (old(s)@ + dec_rep((n / 10) as nat)).push(
                digit_char((n % 10) as int)));
        }
    }
}

} // verus!
