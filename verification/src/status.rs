//! What the status bar says of sizes, of the selection and of drives.

use crate::text;
use vstd::prelude::*;

verus! {

/// A text in specifications.
pub type Txt = Seq<char>;

pub const KB: u64 = 1024;

pub const MB: u64 = 1024 * 1024;

pub const GB: u64 = 1024 * 1024 * 1024;

/// The whole number nearest to `a / b`; of two that are equally near, the even one.
pub open spec fn nearest(a: nat, b: nat) -> nat
    recommends
        b > 0,
{
    let q = a / b;
    let r = a % b;
    if 2 * r > b || (2 * r == b && q % 2 == 1) {
        q + 1
    } else {
        q
    }
}

/// The distance of the numbers with 53 significant bits around `n`, if it is at least `unit`.
pub open spec fn spacing(n: nat, unit: nat) -> nat
    decreases n + 1 - unit,
{
    if unit == 0 || n < unit * 0x20_0000_0000_0000 {
        unit
    } else {
        spacing(n, 2 * unit)
    }
}

/// The number with at most 53 significant bits that is nearest to `n`.
pub open spec fn with_53_bits(n: nat) -> nat {
    nearest(n, spacing(n, 1)) * spacing(n, 1)
}

/// How many tenths of `unit` there are in `bytes`, rounded. Sizes beyond 53 bits are counted
/// to 53 bits only.
pub open spec fn tenths(bytes: u64, unit: u64) -> nat {
    nearest(with_53_bits(bytes as nat) * 10, unit as nat)
}

/// Digits with a comma before every three from the right.
pub open spec fn grouped(digits: Txt) -> Txt
    decreases digits.len(),
{
    if digits.len() <= 3 {
        digits
    } else {
        grouped(digits.take(digits.len() - 3)).push(',') + digits.skip(digits.len() - 3)
    }
}

/// A number of tenths with one decimal place.
pub open spec fn one_decimal(tenths: nat) -> Txt {
    grouped(text::decimal_text(tenths / 10)).push('.').push(text::digit(tenths % 10))
}

/// A size in bytes, kilobytes, megabytes or gigabytes. Nothing is larger than a gigabyte.
pub open spec fn size_text(bytes: u64) -> Txt {
    if bytes < KB {
        text::decimal_text(bytes as nat) + " B"@
    } else if bytes < MB {
        one_decimal(tenths(bytes, KB)) + " KB"@
    } else if bytes < GB {
        one_decimal(tenths(bytes, MB)) + " MB"@
    } else {
        one_decimal(tenths(bytes, GB)) + " GB"@
    }
}

fn round(a: u128, b: u128) -> (q: u128)
    requires
        b > 0,
        a < 0x8000_0000_0000_0000_0000_0000,
        b < 0x8000_0000_0000_0000_0000_0000,
    ensures
        q == nearest(a as nat, b as nat),
        q <= a + 1,
{
    let q: u128 = a / b;
    let r: u128 = a % b;
    assert(q <= a) by (nonlinear_arith)
        requires
            b > 0,
            q == a / b,
    ;
    if 2 * r > b || (2 * r == b && q % 2 == 1) {
        q + 1
    } else {
        q
    }
}

/// The number with at most 53 significant bits that is nearest to `n`.
fn to_53_bits(n: u64) -> (m: u128)
    ensures
        m == with_53_bits(n as nat),
        m <= 0x1_0000_0000_0000_0000,
{
    let mut unit: u128 = 1;
    while (n as u128) >= unit * 0x20_0000_0000_0000
        invariant
            unit == 1 || unit == 2 || unit == 4 || unit == 8 || unit == 16 || unit == 32 || unit
                == 64 || unit == 128 || unit == 256 || unit == 512 || unit == 1024 || unit == 2048,
            spacing(n as nat, 1) == spacing(n as nat, unit as nat),
        decreases 4096 - unit,
    {
        unit = unit * 2;
    }
    let q = round(n as u128, unit);
    assert(spacing(n as nat, 1) == unit);
    proof {
        lemma_rounding_stays_low(n as nat, unit as nat);
    }
    assert(q * unit <= 0x1_0000_0000_0000_0000);
    q * unit
}

proof fn lemma_rounding_stays_low(n: nat, unit: nat)
    requires
        unit > 0,
        n < 0x1_0000_0000_0000_0000,
        n < unit * 0x20_0000_0000_0000,
        unit == 1 || unit * 0x20_0000_0000_0000 <= 0x1_0000_0000_0000_0000,
    ensures
        nearest(n, unit) * unit <= 0x1_0000_0000_0000_0000,
{
    let q = n / unit;
    assert(q < 0x20_0000_0000_0000) by (nonlinear_arith)
        requires
            q == n / unit,
            n < unit * 0x20_0000_0000_0000,
            unit > 0,
    ;
    if unit == 1 {
        assert(n % 1 == 0);
    } else {
        let m = nearest(n, unit);
        assert(m <= 0x20_0000_0000_0000);
        assert(m * unit <= 0x20_0000_0000_0000 * unit) by (nonlinear_arith)
            requires
                m <= 0x20_0000_0000_0000,
        ;
        assert(0x20_0000_0000_0000 * unit == unit * 0x20_0000_0000_0000);
    }
}

fn group_upto(chars: &Vec<char>, end: usize) -> (s: String)
    requires
        end <= chars.len(),
    ensures
        s@ == grouped(chars@.take(end as int)),
    decreases end,
{
    if end <= 3 {
        let s = text::from_range(chars, 0, end);
        assert(s@ =~= chars@.take(end as int));
        s
    } else {
        let mut s = group_upto(chars, end - 3);
        let last = text::from_range(chars, (end - 3), end);
        proof {
            let all = chars@.take(end as int);
            assert(all.take(all.len() - 3) =~= chars@.take(end - 3));
            assert(all.skip(all.len() - 3) =~= last@);
        }
        s.push(',');
        s.append(last.as_str());
        s
    }
}

/// `digits` with a comma before every three from the right.
pub fn group_thousands(digits: &str) -> (s: String)
    ensures
        s@ == grouped(digits@),
{
    let chars = text::to_chars(digits);
    assert(chars@.take(chars.len() as int) =~= chars@);
    group_upto(&chars, chars.len())
}

/// `bytes` in units of `unit`, with one decimal place.
fn decimal1_grouped(bytes: u64, unit: u64) -> (s: String)
    requires
        KB <= unit <= GB,
    ensures
        s@ == one_decimal(tenths(bytes, unit)),
{
    let rounded: u128 = to_53_bits(bytes);
    let t: u128 = round(rounded * 10, unit as u128);
    proof {
        let a = rounded * 10;
        let q = a / (unit as int);
        assert(q <= a / 1024) by (nonlinear_arith)
            requires
                q == a / (unit as int),
                0 <= a,
                1024 <= unit,
        ;
        assert(t <= q + 1);
    }
    let whole: u64 = (t / 10) as u64;
    let tenth: u8 = (t % 10) as u8;
    let mut s = group_thousands(text::decimal(whole).as_str());
    s.push('.');
    s.push(text::digit_char(tenth));
    s
}

/// A size as the status bar shows it: whole bytes, or kilobytes, megabytes or gigabytes with
/// one decimal place and commas in the whole part.
pub fn format_size(bytes: u64) -> (s: String)
    ensures
        s@ == size_text(bytes),
{
    if bytes < KB {
        let mut s = text::decimal(bytes);
        s.append(" B");
        s
    } else if bytes < MB {
        let mut s = decimal1_grouped(bytes, KB);
        s.append(" KB");
        s
    } else if bytes < GB {
        let mut s = decimal1_grouped(bytes, MB);
        s.append(" MB");
        s
    } else {
        let mut s = decimal1_grouped(bytes, GB);
        s.append(" GB");
        s
    }
}

/// What the status bar says of a selection of `count` items with `size` bytes in all; nothing
/// where nothing is selected.
pub fn format_selected(count: u64, size: u64) -> (s: Option<String>)
    ensures
        s.deep_view() == (if count == 0 {
            None
        } else {
            Some("選択 "@ + text::decimal_text(count as nat) + " 個 "@ + size_text(size))
        }),
{
    if count == 0 {
        return None;
    }
    let mut s = text::copy("選択 ");
    s.append(text::decimal(count).as_str());
    s.append(" 個 ");
    s.append(format_size(size).as_str());
    Some(s)
}

/// What the status bar says of the drive `letter`.
pub fn format_drive(letter: &str, free: u64, total: u64) -> (s: String)
    ensures
        s@ == letter@ + " 空き "@ + size_text(free) + " / 全 "@ + size_text(total),
{
    let mut s = text::copy(letter);
    s.append(" 空き ");
    s.append(format_size(free).as_str());
    s.append(" / 全 ");
    s.append(format_size(total).as_str());
    s
}

/// Commas are all that grouping adds: without them the digits are what they were.
pub proof fn law_grouping_adds_only_commas(digits: Txt)
    requires
        !digits.contains(','),
    ensures
        without_commas(grouped(digits)) == digits,
    decreases digits.len(),
{
    if digits.len() <= 3 {
        lemma_no_commas(digits);
    } else {
        let head = digits.take(digits.len() - 3);
        let tail = digits.skip(digits.len() - 3);
        assert forall|i: int| 0 <= i < head.len() implies head[i] != ',' by {
            assert(digits.contains(digits[i]));
        }
        assert forall|i: int| 0 <= i < tail.len() implies tail[i] != ',' by {
            assert(digits.contains(digits[digits.len() - 3 + i]));
        }
        law_grouping_adds_only_commas(head);
        lemma_commas_of_two(grouped(head).push(','), tail);
        lemma_no_commas(tail);
        assert(grouped(head).push(',').drop_last() =~= grouped(head));
        assert(head + tail =~= digits);
    }
}

/// A text without its commas.
pub open spec fn without_commas(s: Txt) -> Txt
    decreases s.len(),
{
    if s.len() == 0 {
        s
    } else if s.last() == ',' {
        without_commas(s.drop_last())
    } else {
        without_commas(s.drop_last()).push(s.last())
    }
}

proof fn lemma_no_commas(s: Txt)
    requires
        !s.contains(','),
    ensures
        without_commas(s) == s,
    decreases s.len(),
{
    if s.len() > 0 {
        assert forall|i: int| 0 <= i < s.len() - 1 implies s.drop_last()[i] != ',' by {
            assert(s.contains(s[i]));
        }
        lemma_no_commas(s.drop_last());
        assert(s.contains(s.last()));
        assert(s.drop_last().push(s.last()) =~= s);
    }
}

proof fn lemma_commas_of_two(a: Txt, b: Txt)
    ensures
        without_commas(a + b) == without_commas(a) + without_commas(b),
    decreases b.len(),
{
    if b.len() == 0 {
        assert(a + b =~= a);
        assert(without_commas(a) + Seq::<char>::empty() =~= without_commas(a));
    } else {
        lemma_commas_of_two(a, b.drop_last());
        assert((a + b).drop_last() =~= a + b.drop_last());
        if b.last() != ',' {
            assert((without_commas(a) + without_commas(b.drop_last())).push(b.last())
                =~= without_commas(a) + without_commas(b.drop_last()).push(b.last()));
        }
    }
}

} // verus!
