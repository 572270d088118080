//! What the status bar says, read back.

use crate::status::{
    grouped, nearest, one_decimal, size_text, spacing, tenths, with_53_bits, Txt,
};
use crate::text;
use crate::viewer_laws::lemma_decimal;
use vstd::prelude::*;

verus! {

/// How many commas there are in `n` digits.
pub open spec fn commas(n: nat) -> int {
    if n == 0 {
        0
    } else {
        (n - 1) / 3
    }
}

/// A comma stands before every three digits, counted from the right, and nowhere else; none stands at
/// the front. The digits stay in their order.
pub proof fn law_commas_stand_every_three_digits(digits: Txt, k: int)
    requires
        0 <= k < grouped(digits).len(),
    ensures
        ({
            let s = grouped(digits);
            &&& s.len() == digits.len() + commas(digits.len())
            &&& k % 4 == 3 ==> s[s.len() - 1 - k] == ','
            &&& k % 4 != 3 ==> s[s.len() - 1 - k] == digits[digits.len() - 1 - (k - k / 4)]
        }),
    decreases digits.len(),
{
    let s = grouped(digits);
    lemma_grouped_len(digits);
    if digits.len() > 3 {
        let head = digits.take(digits.len() - 3);
        let tail = digits.skip(digits.len() - 3);
        let front = grouped(head);
        lemma_grouped_len(head);
        assert(s == front.push(',') + tail);
        if k < 3 {
            assert(s[s.len() - 1 - k] == tail[2 - k]);
        } else if k == 3 {
            assert(s[s.len() - 1 - k] == front.push(',')[front.len() as int]);
        } else {
            law_commas_stand_every_three_digits(head, k - 4);
            assert(s[s.len() - 1 - k] == front[front.len() - 1 - (k - 4)]);
        }
    }
}

proof fn lemma_grouped_len(digits: Txt)
    ensures
        grouped(digits).len() == digits.len() + commas(digits.len()),
    decreases digits.len(),
{
    if digits.len() > 3 {
        lemma_grouped_len(digits.take(digits.len() - 3));
    }
}

/// What is rounded is at most half a step away.
pub proof fn law_rounding_is_to_the_nearest(a: nat, b: nat)
    requires
        b > 0,
    ensures
        2 * a <= 2 * (nearest(a, b) * b) + b,
        2 * (nearest(a, b) * b) <= 2 * a + b,
        2 * a == 2 * (nearest(a, b) * b) + b || 2 * (nearest(a, b) * b) == 2 * a + b ==> nearest(
            a,
            b,
        ) % 2 == 0,
{
    let q = a / b;
    let r = a % b;
    vstd::arithmetic::div_mod::lemma_fundamental_div_mod(a as int, b as int);
    assert(b * q == q * b) by (nonlinear_arith);
    assert((q + 1) * b == q * b + b) by (nonlinear_arith);
}

proof fn lemma_exact(n: nat)
    requires
        n < 0x20_0000_0000_0000,
    ensures
        with_53_bits(n) == n,
{
    assert(spacing(n, 1) == 1);
    assert(n % 1 == 0);
    assert(n / 1 == n);
}

/// What a size is counted in: bytes, kilobytes, megabytes and gigabytes, each 1024 of the one before;
/// a size is counted in the largest of them that it reaches.
pub open spec fn unit_of(bytes: u64) -> (u64, Txt) {
    if bytes >= 1024 * 1024 * 1024 {
        (0x4000_0000, " GB"@)
    } else if bytes >= 1024 * 1024 {
        (0x10_0000, " MB"@)
    } else if bytes >= 1024 {
        (1024, " KB"@)
    } else {
        (1, " B"@)
    }
}

/// Whole units with commas, a point, and a tenth.
pub open spec fn with_tenth(digits: Txt, tenth: nat) -> Txt {
    grouped(digits) + seq!['.', text::digit(tenth)]
}

/// A size below a kilobyte is shown exactly. A larger one is shown in its unit with one decimal place,
/// as the nearest number of tenths: whole units with commas, a point, and the tenth.
pub proof fn law_sizes_are_shown_to_a_tenth(bytes: u64)
    requires
        bytes < 0x20_0000_0000_0000,
    ensures
        ({
            let (unit, name) = unit_of(bytes);
            let shown = size_text(bytes);
            &&& bytes < 1024 ==> exists|digits: Txt|
                shown == #[trigger] (digits + name) && text::digits_value(digits) == Some(
                    bytes as nat,
                )
            &&& bytes >= 1024 ==> exists|digits: Txt, tenth: nat|
                tenth < 10 && shown == #[trigger] with_tenth(digits, tenth) + name && text::digits_value(digits) is Some && ({
                    let all = text::digits_value(digits)->0 * 10 + tenth;
                    2 * (bytes * 10) <= 2 * (all * unit) + unit && 2 * (all * unit) <= 2 * (bytes
                        * 10) + unit
                })
        }),
{
    let (unit, name) = unit_of(bytes);
    let shown = size_text(bytes);
    lemma_exact(bytes as nat);
    if bytes < 1024 {
        lemma_decimal(bytes as nat);
        assert(shown == text::decimal_text(bytes as nat) + name);
    } else {
        let t = tenths(bytes, unit);
        law_rounding_is_to_the_nearest((bytes * 10) as nat, unit as nat);
        let digits = text::decimal_text(t / 10);
        lemma_decimal(t / 10);
        let tenth = t % 10;
        assert(t == (t / 10) * 10 + tenth);
        assert(one_decimal(t) =~= with_tenth(digits, tenth));
        assert(shown == with_tenth(digits, tenth) + name);
    }
}

} // verus!
