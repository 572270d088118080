//! Strings as sequences of characters: the few string operations that the rest of the
//! library is written with.

use vstd::prelude::*;

verus! {

/// `String::push` of std: the character is appended to the end of the string.
pub assume_specification[ String::push ](string: &mut String, ch: char)
    ensures
        final(string)@ == old(string)@.push(ch),
;

/// The characters of `s`, in order.
pub fn to_chars(s: &str) -> (chars: Vec<char>)
    ensures
        chars@ == s@,
{
    let mut chars: Vec<char> = Vec::new();
    for c in it: s.chars()
        invariant
            it.seq() == s@,
            chars@ == s@.take(it.index()),
    {
        chars.push(c);
    }
    assert(s@.take(s@.len() as int) =~= s@);
    chars
}

/// The string made of the characters `chars[from..to]`.
pub fn from_range(chars: &Vec<char>, from: usize, to: usize) -> (s: String)
    requires
        from <= to <= chars.len(),
    ensures
        s@ == chars@.subrange(from as int, to as int),
{
    let mut s = String::new();
    let mut i: usize = from;
    while i < to
        invariant
            from <= i <= to <= chars.len(),
            s@ == chars@.subrange(from as int, i as int),
        decreases to - i,
    {
        s.push(chars[i]);
        i += 1;
        assert(s@ =~= chars@.subrange(from as int, i as int));
    }
    s
}

/// An owned copy of `s`.
pub fn copy(s: &str) -> (owned: String)
    ensures
        owned@ == s@,
{
    s.to_owned()
}

/// `a` followed by `b`.
pub fn concat(a: &str, b: &str) -> (joined: String)
    ensures
        joined@ == a@ + b@,
{
    let mut joined = copy(a);
    joined.append(b);
    joined
}

/// `a`, `b` and `c` in one string.
pub fn concat3(a: &str, b: &str, c: &str) -> (joined: String)
    ensures
        joined@ == a@ + b@ + c@,
{
    let mut joined = concat(a, b);
    joined.append(c);
    joined
}

/// Whether two strings hold the same characters.
pub fn same(a: &str, b: &str) -> (equal: bool)
    ensures
        equal == (a@ == b@),
{
    let x = to_chars(a);
    let y = to_chars(b);
    same_chars(&x, &y)
}

/// Whether two character lists are equal.
pub fn same_chars(x: &Vec<char>, y: &Vec<char>) -> (equal: bool)
    ensures
        equal == (x@ == y@),
{
    if x.len() != y.len() {
        return false;
    }
    let mut i: usize = 0;
    while i < x.len()
        invariant
            i <= x.len() == y.len(),
            forall|j: int| 0 <= j < i ==> x@[j] == y@[j],
        decreases x.len() - i,
    {
        if x[i] != y[i] {
            assert(x@[i as int] != y@[i as int]);
            return false;
        }
        i += 1;
    }
    assert(x@ =~= y@);
    true
}

/// Whether `s` starts with `prefix`.
pub open spec fn has_prefix(s: Seq<char>, prefix: Seq<char>) -> bool {
    s.len() >= prefix.len() && s.take(prefix.len() as int) == prefix
}

/// Whether `s` ends with `suffix`.
pub open spec fn has_suffix(s: Seq<char>, suffix: Seq<char>) -> bool {
    s.len() >= suffix.len() && s.skip(s.len() - suffix.len()) == suffix
}

/// Whether `prefix` occurs in `s` at position `at`.
pub open spec fn occurs_at(s: Seq<char>, needle: Seq<char>, at: int) -> bool {
    0 <= at && at + needle.len() <= s.len() && s.subrange(at, at + needle.len()) == needle
}

/// Whether `needle` occurs in `s` at position `at`.
pub fn matches_at(s: &Vec<char>, needle: &Vec<char>, at: usize) -> (found: bool)
    ensures
        found == occurs_at(s@, needle@, at as int),
{
    if needle.len() > s.len() || at > s.len() - needle.len() {
        return false;
    }
    let mut i: usize = 0;
    while i < needle.len()
        invariant
            i <= needle.len(),
            at + needle.len() <= s.len(),
            forall|j: int| 0 <= j < i ==> s@[at + j] == needle@[j],
        decreases needle.len() - i,
    {
        if s[at + i] != needle[i] {
            assert(s@.subrange(at as int, at + needle.len())[i as int] != needle@[i as int]);
            return false;
        }
        i += 1;
    }
    assert(s@.subrange(at as int, at + needle.len()) =~= needle@);
    true
}

/// Whether `s` starts with `prefix`.
pub fn starts_with(s: &str, prefix: &str) -> (found: bool)
    ensures
        found == has_prefix(s@, prefix@),
{
    let x = to_chars(s);
    let y = to_chars(prefix);
    assert(s@.len() >= prefix@.len() ==> s@.take(prefix@.len() as int) =~= s@.subrange(
        0,
        prefix@.len() as int,
    ));
    matches_at(&x, &y, 0)
}

/// Whether `s` ends with `suffix`.
pub fn ends_with(s: &str, suffix: &str) -> (found: bool)
    ensures
        found == has_suffix(s@, suffix@),
{
    let x = to_chars(s);
    let y = to_chars(suffix);
    if y.len() > x.len() {
        return false;
    }
    let at: usize = x.len() - y.len();
    assert(s@.skip(s@.len() - suffix@.len()) =~= s@.subrange(at as int, at + suffix@.len()));
    matches_at(&x, &y, at)
}

/// What follows `prefix` in `s`, or nothing where `s` does not start with it.
pub open spec fn stripped(s: Seq<char>, prefix: Seq<char>) -> Option<Seq<char>> {
    if has_prefix(s, prefix) {
        Some(s.skip(prefix.len() as int))
    } else {
        None
    }
}

/// What follows `prefix` in `s`, where `s` starts with it.
pub fn strip_prefix(s: &str, prefix: &str) -> (rest: Option<String>)
    ensures
        rest.deep_view() == stripped(s@, prefix@),
{
    let x = to_chars(s);
    let y = to_chars(prefix);
    assert(s@.len() >= prefix@.len() ==> s@.take(prefix@.len() as int) =~= s@.subrange(
        0,
        prefix@.len() as int,
    ));
    if !matches_at(&x, &y, 0) {
        return None;
    }
    let rest = from_range(&x, y.len(), x.len());
    assert(rest@ =~= s@.skip(prefix@.len() as int));
    Some(rest)
}

/// `s` with every `from` replaced by `to`.
pub open spec fn replaced(s: Seq<char>, from: char, to: char) -> Seq<char> {
    s.map_values(|c: char| if c == from { to } else { c })
}

/// `s` with every `from` replaced by `to`.
pub fn replace_char(s: &str, from: char, to: char) -> (out: String)
    ensures
        out@ == replaced(s@, from, to),
{
    let chars = to_chars(s);
    let mut out = String::new();
    let mut i: usize = 0;
    while i < chars.len()
        invariant
            i <= chars.len(),
            chars@ == s@,
            out@ == replaced(s@.take(i as int), from, to),
        decreases chars.len() - i,
    {
        if chars[i] == from {
            out.push(to);
        } else {
            out.push(chars[i]);
        }
        i += 1;
        assert(out@ =~= replaced(s@.take(i as int), from, to));
    }
    assert(s@.take(s@.len() as int) =~= s@);
    out
}

/// The decimal digit `d`.
pub open spec fn digit(d: nat) -> char
    recommends
        d < 10,
{
    ('0' as u32 + d) as char
}

/// `n` in decimal, without leading zeros.
pub open spec fn decimal_text(n: nat) -> Seq<char>
    decreases n,
{
    if n < 10 {
        seq![digit(n)]
    } else {
        decimal_text(n / 10).push(digit(n % 10))
    }
}

/// The decimal digit `d`.
pub fn digit_char(d: u8) -> (c: char)
    requires
        d < 10,
    ensures
        c == digit(d as nat),
{
    (48 + d) as char
}

/// `n` in decimal.
pub fn decimal(n: u64) -> (s: String)
    ensures
        s@ == decimal_text(n as nat),
    decreases n,
{
    if n < 10 {
        let mut s = String::new();
        s.push(digit_char(n as u8));
        assert(s@ =~= decimal_text(n as nat));
        s
    } else {
        let mut s = decimal(n / 10);
        s.push(digit_char((n % 10) as u8));
        s
    }
}

/// The hexadecimal digit `d`, in upper case.
pub open spec fn hex_digit(d: nat) -> char
    recommends
        d < 16,
{
    if d < 10 {
        digit(d)
    } else {
        ('A' as u32 + (d - 10)) as char
    }
}

/// `n` in hexadecimal, with at least `width` digits.
pub open spec fn hex_text(n: nat, width: nat) -> Seq<char>
    decreases n, width,
{
    if n == 0 && width == 0 {
        Seq::empty()
    } else {
        hex_text(
            n / 16,
            if width == 0 {
                0
            } else {
                (width - 1) as nat
            },
        ).push(hex_digit(n % 16))
    }
}

/// The hexadecimal digit `d`.
pub fn hex_char(d: u8) -> (c: char)
    requires
        d < 16,
    ensures
        c == hex_digit(d as nat),
{
    if d < 10 {
        digit_char(d)
    } else {
        (65 + (d - 10)) as char
    }
}

/// `n` in hexadecimal, with at least `width` digits.
pub fn hex(n: u64, width: usize) -> (s: String)
    ensures
        s@ == hex_text(n as nat, width as nat),
    decreases n, width,
{
    if n == 0 && width == 0 {
        String::new()
    } else {
        let mut s = hex(
            n / 16,
            if width == 0 {
                0
            } else {
                width - 1
            },
        );
        s.push(hex_char((n % 16) as u8));
        s
    }
}

/// `s` without the `c`s at its end.
pub open spec fn trimmed_end(s: Seq<char>, c: char) -> Seq<char>
    decreases s.len(),
{
    if s.len() > 0 && s.last() == c {
        trimmed_end(s.drop_last(), c)
    } else {
        s
    }
}

/// `s` without the `c`s at its end.
pub fn trim_end_char(s: &str, c: char) -> (trimmed: String)
    ensures
        trimmed@ == trimmed_end(s@, c),
{
    let chars = to_chars(s);
    let mut end: usize = chars.len();
    assert(s@.take(end as int) =~= s@);
    while end > 0 && chars[end - 1] == c
        invariant
            end <= chars.len(),
            chars@ == s@,
            trimmed_end(s@, c) == trimmed_end(s@.take(end as int), c),
        decreases end,
    {
        assert(s@.take(end as int).drop_last() =~= s@.take(end - 1));
        end -= 1;
    }
    let trimmed = from_range(&chars, 0, end);
    assert(trimmed@ =~= s@.take(end as int));
    trimmed
}

/// What stands before `suffix` in `s`, or nothing where `s` does not end with it.
pub open spec fn unsuffixed(s: Seq<char>, suffix: Seq<char>) -> Option<Seq<char>> {
    if has_suffix(s, suffix) {
        Some(s.take(s.len() - suffix.len()))
    } else {
        None
    }
}

/// What stands before `suffix` in `s`, where `s` ends with it.
pub fn strip_suffix(s: &str, suffix: &str) -> (rest: Option<String>)
    ensures
        rest.deep_view() == unsuffixed(s@, suffix@),
{
    if !ends_with(s, suffix) {
        return None;
    }
    let x = to_chars(s);
    let y = to_chars(suffix);
    let rest = from_range(&x, 0, (x.len() - y.len()));
    assert(rest@ =~= s@.take(s@.len() - suffix@.len()));
    Some(rest)
}

/// `s` without the `suffix`es at its end, as often as it ends with one.
pub open spec fn without_suffixes(s: Seq<char>, suffix: Seq<char>) -> Seq<char>
    decreases s.len(),
{
    if suffix.len() > 0 && has_suffix(s, suffix) {
        without_suffixes(s.take(s.len() - suffix.len()), suffix)
    } else {
        s
    }
}

/// `s` without the `suffix`es at its end, as often as it ends with one.
pub fn trim_end_str(s: &str, suffix: &str) -> (trimmed: String)
    ensures
        trimmed@ == without_suffixes(s@, suffix@),
{
    let mut trimmed = copy(s);
    if suffix.is_empty() {
        return trimmed;
    }
    loop
        invariant
            suffix@.len() > 0,
            without_suffixes(trimmed@, suffix@) == without_suffixes(s@, suffix@),
        ensures
            !has_suffix(trimmed@, suffix@),
        decreases trimmed@.len(),
    {
        match strip_suffix(trimmed.as_str(), suffix) {
            Some(rest) => {
                trimmed = rest;
            },
            None => {
                break;
            },
        }
    }
    trimmed
}

/// The last place before `end` at which `needle` occurs in `s`.
pub open spec fn last_occurrence(s: Seq<char>, needle: Seq<char>, end: int) -> Option<int>
    decreases end,
{
    if end <= 0 {
        None
    } else if occurs_at(s, needle, end - 1) {
        Some(end - 1)
    } else {
        last_occurrence(s, needle, end - 1)
    }
}

/// What stands before and behind the last `needle` in `s`.
pub open spec fn split_at_last(s: Seq<char>, needle: Seq<char>) -> Option<(Seq<char>, Seq<char>)> {
    match last_occurrence(s, needle, s.len() as int) {
        Some(i) => Some((s.take(i), s.skip(i + needle.len()))),
        None => None,
    }
}

/// What stands before and behind the last `needle` in `s`.
pub fn rsplit_once(s: &str, needle: &str) -> (parts: Option<(String, String)>)
    ensures
        match parts {
            Some((a, b)) => split_at_last(s@, needle@) == Some((a@, b@)),
            None => split_at_last(s@, needle@) is None,
        },
{
    let chars = to_chars(s);
    let what = to_chars(needle);
    let mut end: usize = chars.len();
    while end > 0
        invariant
            end <= chars.len(),
            chars@ == s@,
            what@ == needle@,
            last_occurrence(s@, needle@, s@.len() as int) == last_occurrence(
                s@,
                needle@,
                end as int,
            ),
        decreases end,
    {
        end -= 1;
        if matches_at(&chars, &what, end) {
            let a = from_range(&chars, 0, end);
            let b = from_range(&chars, end + what.len(), chars.len());
            assert(a@ =~= s@.take(end as int));
            assert(b@ =~= s@.skip(end + needle@.len()));
            return Some((a, b));
        }
    }
    None
}

/// The first place from `from` on at which `c` occurs in `s`.
pub open spec fn first_occurrence(s: Seq<char>, c: char, from: int) -> Option<int>
    decreases s.len() - from,
{
    if from < 0 || from >= s.len() {
        None
    } else if s[from] == c {
        Some(from)
    } else {
        first_occurrence(s, c, from + 1)
    }
}

/// What stands before and behind the first `c` in `s`.
pub open spec fn split_at_first(s: Seq<char>, c: char) -> Option<(Seq<char>, Seq<char>)> {
    match first_occurrence(s, c, 0) {
        Some(i) => Some((s.take(i), s.skip(i + 1))),
        None => None,
    }
}

/// What stands before and behind the first `c` in `s`.
pub fn split_once(s: &str, c: char) -> (parts: Option<(String, String)>)
    ensures
        match parts {
            Some((a, b)) => split_at_first(s@, c) == Some((a@, b@)),
            None => split_at_first(s@, c) is None,
        },
{
    let chars = to_chars(s);
    let mut i: usize = 0;
    while i < chars.len()
        invariant
            i <= chars.len(),
            chars@ == s@,
            first_occurrence(s@, c, 0) == first_occurrence(s@, c, i as int),
        decreases chars.len() - i,
    {
        if chars[i] == c {
            let a = from_range(&chars, 0, i);
            let b = from_range(&chars, i + 1, chars.len());
            assert(a@ =~= s@.take(i as int));
            assert(b@ =~= s@.skip(i + 1));
            return Some((a, b));
        }
        i += 1;
    }
    None
}

/// `s` up to the first `c`, or all of it.
pub open spec fn up_to_first(s: Seq<char>, c: char) -> Seq<char> {
    match first_occurrence(s, c, 0) {
        Some(i) => s.take(i),
        None => s,
    }
}

/// `s` up to the first `c`, or all of it.
pub fn before_first(s: &str, c: char) -> (head: String)
    ensures
        head@ == up_to_first(s@, c),
{
    match split_once(s, c) {
        Some((head, _)) => head,
        None => copy(s),
    }
}

/// Whether Unicode calls a character white space.
pub open spec fn is_white(c: char) -> bool {
    let v = c as u32;
    (0x09 <= v && v <= 0x0D) || v == 0x20 || v == 0x85 || v == 0xA0 || v == 0x1680 || (0x2000 <= v
        && v <= 0x200A) || v == 0x2028 || v == 0x2029 || v == 0x202F || v == 0x205F || v == 0x3000
}

/// Whether `c` is white space.
pub fn white(c: char) -> (yes: bool)
    ensures
        yes == is_white(c),
{
    let v: u32 = c as u32;
    (0x09 <= v && v <= 0x0D) || v == 0x20 || v == 0x85 || v == 0xA0 || v == 0x1680 || (0x2000 <= v
        && v <= 0x200A) || v == 0x2028 || v == 0x2029 || v == 0x202F || v == 0x205F || v == 0x3000
}

/// `s` without the white space at its end.
pub open spec fn trimmed_right(s: Seq<char>) -> Seq<char>
    decreases s.len(),
{
    if s.len() > 0 && is_white(s.last()) {
        trimmed_right(s.drop_last())
    } else {
        s
    }
}

/// `s` without the white space at its start.
pub open spec fn trimmed_left(s: Seq<char>) -> Seq<char>
    decreases s.len(),
{
    if s.len() > 0 && is_white(s[0]) {
        trimmed_left(s.skip(1))
    } else {
        s
    }
}

/// `s` without the white space at its ends.
pub open spec fn trimmed(s: Seq<char>) -> Seq<char> {
    trimmed_right(trimmed_left(s))
}

/// `s` without the white space at its start.
pub fn trim_start(s: &str) -> (t: String)
    ensures
        t@ == trimmed_left(s@),
{
    let chars = to_chars(s);
    let mut from: usize = 0;
    assert(s@.skip(0) =~= s@);
    while from < chars.len() && white(chars[from])
        invariant
            from <= chars.len(),
            chars@ == s@,
            trimmed_left(s@) == trimmed_left(s@.skip(from as int)),
        decreases chars.len() - from,
    {
        assert(s@.skip(from as int).skip(1) =~= s@.skip(from + 1));
        from += 1;
    }
    let t = from_range(&chars, from, chars.len());
    assert(t@ =~= s@.skip(from as int));
    t
}

/// `s` without the white space at its ends.
pub fn trim(s: &str) -> (t: String)
    ensures
        t@ == trimmed(s@),
{
    let left = trim_start(s);
    let chars = to_chars(left.as_str());
    let ghost rest = left@;
    let mut end: usize = chars.len();
    assert(rest.take(end as int) =~= rest);
    while end > 0 && white(chars[end - 1])
        invariant
            end <= chars.len(),
            chars@ == rest,
            trimmed_right(rest) == trimmed_right(rest.take(end as int)),
        decreases end,
    {
        assert(rest.take(end as int).drop_last() =~= rest.take(end - 1));
        end -= 1;
    }
    let t = from_range(&chars, 0, end);
    assert(t@ =~= rest.take(end as int));
    t
}

/// The number that digits stand for, if they are digits.
pub open spec fn digits_value(s: Seq<char>) -> Option<nat>
    decreases s.len(),
{
    if s.len() == 0 {
        Some(0)
    } else if '0' <= s.last() && s.last() <= '9' {
        match digits_value(s.drop_last()) {
            Some(n) => Some(10 * n + (s.last() as u32 - '0' as u32) as nat),
            None => None,
        }
    } else {
        None
    }
}

/// The number that a text stands for: digits, with a plus sign before them or not.
pub open spec fn unsigned_value(s: Seq<char>) -> Option<nat> {
    let digits = if s.len() > 0 && s[0] == '+' {
        s.skip(1)
    } else {
        s
    };
    if digits.len() == 0 {
        None
    } else {
        digits_value(digits)
    }
}

/// The number that a text stands for: digits, with a sign before them or not.
pub open spec fn signed_value(s: Seq<char>) -> Option<int> {
    if s.len() > 0 && s[0] == '-' {
        if s.len() == 1 {
            None
        } else {
            match digits_value(s.skip(1)) {
                Some(n) => Some(-(n as int)),
                None => None,
            }
        }
    } else {
        match unsigned_value(s) {
            Some(n) => Some(n as int),
            None => None,
        }
    }
}

proof fn lemma_digits_grow(s: Seq<char>, n: int)
    requires
        0 <= n <= s.len(),
        digits_value(s) is Some,
    ensures
        digits_value(s.take(n)) is Some,
        digits_value(s.take(n))->0 <= digits_value(s)->0,
    decreases s.len() - n,
{
    if n < s.len() {
        lemma_digits_grow(s, n + 1);
        assert(s.take(n + 1).drop_last() =~= s.take(n));
    } else {
        assert(s.take(n) =~= s);
    }
}

proof fn lemma_digits_stop(s: Seq<char>, n: int)
    requires
        0 <= n <= s.len(),
        digits_value(s.take(n)) is None,
    ensures
        digits_value(s) is None,
    decreases s.len() - n,
{
    if n < s.len() {
        assert(s.take(n + 1).drop_last() =~= s.take(n));
        lemma_digits_stop(s, n + 1);
    } else {
        assert(s.take(n) =~= s);
    }
}

/// The number that `chars[from..]` stands for, if they are digits and it is at most `max`.
fn parse_digits(chars: &Vec<char>, from: usize, max: u64) -> (value: Option<u64>)
    requires
        from <= chars.len(),
    ensures
        match digits_value(chars@.skip(from as int)) {
            Some(n) => value == (if n <= max {
                Some(n as u64)
            } else {
                None
            }),
            None => value is None,
        },
{
    let ghost digits = chars@.skip(from as int);
    let mut total: u64 = 0;
    let mut i: usize = from;
    assert(digits.take(0) =~= Seq::<char>::empty());
    while i < chars.len()
        invariant
            from <= i <= chars.len(),
            digits == chars@.skip(from as int),
            total <= max,
            digits_value(digits.take(i - from)) == Some(total as nat),
        decreases chars.len() - i,
    {
        let c = chars[i];
        let ghost k = i - from;
        assert(digits.take(k + 1).drop_last() =~= digits.take(k));
        assert(digits.take(k + 1).last() == c);
        if c < '0' || c > '9' {
            proof {
                assert(digits_value(digits.take(k + 1)) is None);
                lemma_digits_stop(digits, k + 1);
            }
            return None;
        }
        let d: u128 = (c as u32 - 48) as u128;
        let next: u128 = 10 * (total as u128) + d;
        if next > max as u128 {
            proof {
                assert(digits_value(digits.take(k + 1)) == Some(next as nat));
                if digits_value(digits) is Some {
                    lemma_digits_grow(digits, k + 1);
                }
            }
            return None;
        }
        total = next as u64;
        i += 1;
    }
    assert(digits.take(digits.len() as int) =~= digits);
    Some(total)
}

/// The number that `s` stands for, if it is at most `max`: digits, with a plus sign before
/// them or not.
pub fn parse_unsigned(s: &str, max: u64) -> (value: Option<u64>)
    ensures
        match unsigned_value(s@) {
            Some(n) => value == (if n <= max {
                Some(n as u64)
            } else {
                None
            }),
            None => value is None,
        },
{
    let chars = to_chars(s);
    assert(s@.skip(0) =~= s@);
    if chars.len() > 0 && chars[0] == '+' {
        if chars.len() == 1 {
            None
        } else {
            parse_digits(&chars, 1, max)
        }
    } else if chars.len() == 0 {
        None
    } else {
        parse_digits(&chars, 0, max)
    }
}

/// The number that a text stands for, where it fits.
pub open spec fn usize_value(s: Seq<char>) -> Option<usize> {
    match unsigned_value(s) {
        Some(n) => if n <= usize::MAX {
            Some(n as usize)
        } else {
            None
        },
        None => None,
    }
}

/// The number that a text stands for, where it fits.
pub open spec fn i32_value(s: Seq<char>) -> Option<i32> {
    match signed_value(s) {
        Some(n) => if i32::MIN <= n <= i32::MAX {
            Some(n as i32)
        } else {
            None
        },
        None => None,
    }
}

/// The number that `s` stands for, if it fits.
pub fn parse_usize(s: &str) -> (value: Option<usize>)
    ensures
        value == usize_value(s@),
{
    match parse_unsigned(s, usize::MAX as u64) {
        Some(n) => Some(n as usize),
        None => None,
    }
}

/// The number that `s` stands for, if it fits: digits, with a sign before them or not.
pub fn parse_i32(s: &str) -> (value: Option<i32>)
    ensures
        value == i32_value(s@),
{
    let chars = to_chars(s);
    if chars.len() > 0 && chars[0] == '-' {
        if chars.len() == 1 {
            return None;
        }
        match parse_digits(&chars, 1, 0x8000_0000) {
            Some(n) => Some((-(n as i64)) as i32),
            None => None,
        }
    } else {
        match parse_unsigned(s, 0x7FFF_FFFF) {
            Some(n) => Some(n as i32),
            None => None,
        }
    }
}

/// A character with A to Z in lower case.
pub open spec fn ascii_lower(c: char) -> char {
    if 'A' <= c && c <= 'Z' {
        (c as u32 + 32) as char
    } else {
        c
    }
}

/// A text with A to Z in lower case.
pub open spec fn ascii_lowered(s: Seq<char>) -> Seq<char> {
    s.map_values(|c: char| ascii_lower(c))
}

/// `s` with A to Z in lower case.
pub fn to_ascii_lower(s: &str) -> (t: String)
    ensures
        t@ == ascii_lowered(s@),
{
    let chars = to_chars(s);
    let mut t = String::new();
    let mut i: usize = 0;
    while i < chars.len()
        invariant
            i <= chars.len(),
            chars@ == s@,
            t@ == ascii_lowered(s@.take(i as int)),
        decreases chars.len() - i,
    {
        let c = chars[i];
        if 'A' <= c && c <= 'Z' {
            t.push((c as u8 + 32) as char);
        } else {
            t.push(c);
        }
        i += 1;
        assert(t@ =~= ascii_lowered(s@.take(i as int)));
    }
    assert(s@.take(s@.len() as int) =~= s@);
    t
}

/// Whether two texts are the same but for the case of A to Z.
pub fn same_ignoring_case(a: &str, b: &str) -> (equal: bool)
    ensures
        equal == (ascii_lowered(a@) == ascii_lowered(b@)),
{
    same(to_ascii_lower(a).as_str(), to_ascii_lower(b).as_str())
}

/// Whether `needle` occurs anywhere in `s`.
pub open spec fn is_within(s: Seq<char>, needle: Seq<char>) -> bool {
    exists|at: int| 0 <= at <= s.len() && #[trigger] occurs_at(s, needle, at)
}

/// Whether `needle` occurs anywhere in `s`.
pub fn contains(s: &str, needle: &str) -> (found: bool)
    ensures
        found == is_within(s@, needle@),
{
    let chars = to_chars(s);
    let what = to_chars(needle);
    let mut at: usize = 0;
    loop
        invariant
            at <= chars.len(),
            chars@ == s@,
            what@ == needle@,
            forall|j: int| 0 <= j < at ==> !#[trigger] occurs_at(s@, needle@, j),
        decreases chars.len() - at,
    {
        if matches_at(&chars, &what, at) {
            assert(occurs_at(s@, needle@, at as int));
            return true;
        }
        if at == chars.len() {
            return false;
        }
        at += 1;
    }
}

/// `s` with every `c` left out.
pub open spec fn without(s: Seq<char>, c: char) -> Seq<char>
    decreases s.len(),
{
    if s.len() == 0 {
        s
    } else if s.last() == c {
        without(s.drop_last(), c)
    } else {
        without(s.drop_last(), c).push(s.last())
    }
}

/// `s` with every `c` left out.
pub fn remove_char(s: &str, c: char) -> (out: String)
    ensures
        out@ == without(s@, c),
{
    let chars = to_chars(s);
    let mut out = String::new();
    let mut i: usize = 0;
    assert(out@ =~= without(s@.take(0), c));
    while i < chars.len()
        invariant
            i <= chars.len(),
            chars@ == s@,
            out@ == without(s@.take(i as int), c),
        decreases chars.len() - i,
    {
        assert(s@.take(i + 1).drop_last() =~= s@.take(i as int));
        if chars[i] != c {
            out.push(chars[i]);
        }
        i += 1;
    }
    assert(s@.take(s@.len() as int) =~= s@);
    out
}

/// The parts of `s` between the `c` in it, the empty ones left out.
pub open spec fn nonempty_parts(s: Seq<char>, c: char) -> Seq<Seq<char>>
    decreases s.len(),
{
    match first_occurrence(s, c, 0) {
        Some(i) => if 0 <= i < s.len() {
            kept(s.take(i)) + nonempty_parts(s.skip(i + 1), c)
        } else {
            Seq::empty()
        },
        None => kept(s),
    }
}

/// The parts of `s` between the `c` in it.
pub open spec fn all_parts(s: Seq<char>, c: char) -> Seq<Seq<char>>
    decreases s.len(),
{
    match first_occurrence(s, c, 0) {
        Some(i) => if 0 <= i < s.len() {
            seq![s.take(i)] + all_parts(s.skip(i + 1), c)
        } else {
            Seq::empty()
        },
        None => seq![s],
    }
}

/// The parts of `s` between the `c` in it.
pub fn split_all(s: &str, c: char) -> (parts: Vec<String>)
    ensures
        parts.deep_view() == all_parts(s@, c),
{
    let mut rest = copy(s);
    let mut parts: Vec<String> = Vec::new();
    assert(parts.deep_view() =~= Seq::<Seq<char>>::empty());
    loop
        invariant
            parts.deep_view() + all_parts(rest@, c) == all_parts(s@, c),
        decreases rest@.len(),
    {
        proof {
            lemma_first_occurrence(rest@, c, 0);
        }
        let ghost before = parts.deep_view();
        match split_once(rest.as_str(), c) {
            Some((head, tail)) => {
                parts.push(head);
                assert(parts.deep_view() =~= before + seq![head@]);
                assert(parts.deep_view() + all_parts(tail@, c) =~= before + (seq![head@]
                    + all_parts(tail@, c)));
                rest = tail;
            },
            None => {
                let ghost end = rest@;
                parts.push(rest);
                assert(parts.deep_view() =~= before + seq![end]);
                return parts;
            },
        }
    }
}

/// All of them, one behind the other, with `between` between them.
pub open spec fn joined(parts: Seq<Seq<char>>, between: Seq<char>) -> Seq<char>
    decreases parts.len(),
{
    if parts.len() == 0 {
        Seq::empty()
    } else if parts.len() == 1 {
        parts[0]
    } else {
        joined(parts.drop_last(), between) + between + parts.last()
    }
}

/// All of them, one behind the other, with `between` between them.
pub fn join_all(parts: &Vec<String>, between: &str) -> (s: String)
    ensures
        s@ == joined(parts.deep_view(), between@),
{
    let ghost all = parts.deep_view();
    let mut s = String::new();
    let mut i: usize = 0;
    assert(s@ =~= joined(all.take(0), between@));
    while i < parts.len()
        invariant
            i <= parts.len(),
            all == parts.deep_view(),
            s@ == joined(all.take(i as int), between@),
        decreases parts.len() - i,
    {
        assert(all.take(i + 1).drop_last() =~= all.take(i as int));
        assert(all[i as int] == parts@[i as int]@);
        let ghost before = s@;
        if i > 0 {
            s.append(between);
        }
        s.append(parts[i].as_str());
        if i == 0 {
            assert(s@ =~= all.take(1)[0]);
        } else {
            assert(s@ =~= before + between@ + all[i as int]);
        }
        i += 1;
    }
    assert(all.take(all.len() as int) =~= all);
    s
}

/// A part on its own, if it is not empty.
pub open spec fn kept(part: Seq<char>) -> Seq<Seq<char>> {
    if part.len() > 0 {
        seq![part]
    } else {
        Seq::empty()
    }
}

/// The first occurrence is in the text.
pub proof fn lemma_first_occurrence(s: Seq<char>, c: char, from: int)
    requires
        0 <= from,
    ensures
        first_occurrence(s, c, from) matches Some(i) ==> from <= i < s.len() && s[i] == c,
    decreases s.len() - from,
{
    if from < s.len() && s[from] != c {
        lemma_first_occurrence(s, c, from + 1);
    }
}

/// The parts of `s` between the `c` in it, the empty ones left out.
pub fn segments(s: &str, c: char) -> (parts: Vec<String>)
    ensures
        parts.deep_view() == nonempty_parts(s@, c),
{
    let mut rest = copy(s);
    let mut parts: Vec<String> = Vec::new();
    assert(parts.deep_view() =~= Seq::<Seq<char>>::empty());
    loop
        invariant
            parts.deep_view() + nonempty_parts(rest@, c) == nonempty_parts(s@, c),
        decreases rest@.len(),
    {
        proof {
            lemma_first_occurrence(rest@, c, 0);
        }
        let ghost before = parts.deep_view();
        match split_once(rest.as_str(), c) {
            Some((head, tail)) => {
                if !head.as_str().is_empty() {
                    parts.push(head);
                }
                assert(parts.deep_view() =~= before + kept(head@));
                assert(parts.deep_view() + nonempty_parts(tail@, c) =~= before + (kept(head@)
                    + nonempty_parts(tail@, c)));
                rest = tail;
            },
            None => {
                let last = !rest.as_str().is_empty();
                let ghost end = rest@;
                if last {
                    parts.push(rest);
                }
                assert(parts.deep_view() =~= before + kept(end));
                return parts;
            },
        }
    }
}

/// Copies of all of them.
pub fn copy_all(all: &Vec<String>) -> (copies: Vec<String>)
    ensures
        copies.deep_view() == all.deep_view(),
{
    let mut copies: Vec<String> = Vec::new();
    let mut i: usize = 0;
    while i < all.len()
        invariant
            i <= all.len(),
            copies.len() == i,
            forall|j: int| 0 <= j < i ==> #[trigger] copies@[j]@ == all@[j]@,
        decreases all.len() - i,
    {
        copies.push(copy(all[i].as_str()));
        i += 1;
    }
    assert(copies.deep_view() =~= all.deep_view());
    copies
}

/// A copy of what is there.
pub fn copy_option(s: &Option<String>) -> (owned: Option<String>)
    ensures
        owned.deep_view() == s.deep_view(),
{
    match s {
        Some(s) => Some(copy(s.as_str())),
        None => None,
    }
}

} // verus!
