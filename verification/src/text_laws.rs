//! What cutting texts up and putting them together again comes to.

use crate::text::{
    all_parts, ascii_lower, digits_value, first_occurrence, joined, kept, last_occurrence,
    nonempty_parts, occurs_at, replaced, split_at_first, split_at_last, stripped, trimmed,
    trimmed_end, trimmed_left, trimmed_right, unsigned_value, unsuffixed, without,
};
use crate::text;
use crate::viewer_laws::lemma_decimal;
use vstd::prelude::*;

verus! {

/// A text in specifications.
pub type Txt = Seq<char>;

/// Whether a text holds nothing but white space.
pub open spec fn is_blank(s: Txt) -> bool {
    forall|i: int| 0 <= i < s.len() ==> text::is_white(#[trigger] s[i])
}

proof fn lemma_left(s: Txt)
    ensures
        trimmed_left(s).len() <= s.len(),
        s == s.take(s.len() - trimmed_left(s).len()) + trimmed_left(s),
        is_blank(s.take(s.len() - trimmed_left(s).len())),
        trimmed_left(s).len() > 0 ==> !text::is_white(trimmed_left(s)[0]),
    decreases s.len(),
{
    if s.len() > 0 && text::is_white(s[0]) {
        let rest = s.skip(1);
        lemma_left(rest);
        let n = rest.len() - trimmed_left(rest).len();
        assert(s.take(n + 1) =~= seq![s[0]] + rest.take(n));
        assert(s =~= seq![s[0]] + rest);
        assert(seq![s[0]] + (rest.take(n) + trimmed_left(rest)) =~= s.take(n + 1) + trimmed_left(
            rest,
        ));
        assert forall|i: int| 0 <= i < n + 1 implies text::is_white(#[trigger] s.take(n + 1)[i]) by {
            if i > 0 {
                assert(rest.take(n)[i - 1] == s[i]);
            }
        }
    } else {
        assert(s =~= s.take(0) + s);
    }
}

proof fn lemma_right(s: Txt)
    ensures
        trimmed_right(s).len() <= s.len(),
        trimmed_right(s) == s.take(trimmed_right(s).len() as int),
        is_blank(s.skip(trimmed_right(s).len() as int)),
        trimmed_right(s).len() > 0 ==> !text::is_white(trimmed_right(s).last()),
    decreases s.len(),
{
    if s.len() > 0 && text::is_white(s.last()) {
        let head = s.drop_last();
        lemma_right(head);
        let n = trimmed_right(head).len() as int;
        assert(s.take(n) =~= head.take(n));
        assert forall|i: int| 0 <= i < s.skip(n).len() implies text::is_white(
            #[trigger] s.skip(n)[i],
        ) by {
            if i < head.skip(n).len() {
                assert(head.skip(n)[i] == s.skip(n)[i]);
            }
        }
    } else {
        assert(s.take(s.len() as int) =~= s);
    }
}

/// Trimming takes away white space at both ends and nothing else: what is left has none at either end.
pub proof fn law_trimming_takes_white_space(s: Txt)
    ensures
        exists|a: Txt, b: Txt| s == #[trigger] (a + trimmed(s) + b) && is_blank(a) && is_blank(b),
        trimmed(s).len() > 0 ==> !text::is_white(trimmed(s)[0]) && !text::is_white(
            trimmed(s).last(),
        ),
{
    let t = trimmed(s);
    lemma_right(s);
    lemma_left(s);
    let left = trimmed_left(s);
    let right = trimmed_right(s);
    lemma_right(left);
    lemma_left(right);
    if t == trimmed_right(left) {
        let a = s.take(s.len() - left.len());
        let b = left.skip(t.len() as int);
        assert(left =~= t + b);
        assert(s =~= a + t + b);
        if t.len() > 0 {
            assert(t[0] == left[0]);
        }
    } else {
        let a = right.take(right.len() - t.len());
        let b = s.skip(right.len() as int);
        assert(right =~= a + t);
        assert(s =~= right + b);
        assert(s =~= a + t + b);
        if t.len() > 0 {
            assert(t.last() == right.last());
        }
    }
}

/// One character so many times.
pub open spec fn run_of(c: char, n: nat) -> Txt {
    Seq::new(n, |i: int| c)
}

/// What is cut off at the end is all of one kind, and nothing of it is left.
pub proof fn law_ends_are_cut_off(s: Txt, c: char)
    ensures
        exists|n: nat| s == trimmed_end(s, c) + #[trigger] run_of(c, n),
        trimmed_end(s, c).len() > 0 ==> trimmed_end(s, c).last() != c,
    decreases s.len(),
{
    if s.len() > 0 && s.last() == c {
        let head = s.drop_last();
        law_ends_are_cut_off(head, c);
        let n = choose|n: nat| head == trimmed_end(head, c) + #[trigger] run_of(c, n);
        assert(run_of(c, (n + 1) as nat) =~= run_of(c, n).push(c));
        assert(s =~= head.push(c));
        assert((trimmed_end(head, c) + run_of(c, n)).push(c) =~= trimmed_end(head, c) + run_of(
            c,
            n,
        ).push(c));
    } else {
        assert(s =~= s + run_of(c, 0));
    }
}

proof fn lemma_first(s: Txt, c: char, from: int)
    requires
        0 <= from <= s.len(),
    ensures
        match first_occurrence(s, c, from) {
            Some(i) => from <= i < s.len() && s[i] == c && forall|j: int|
                from <= j < i ==> s[j] != c,
            None => forall|j: int| from <= j < s.len() ==> s[j] != c,
        },
    decreases s.len() - from,
{
    if from < s.len() && s[from] != c {
        lemma_first(s, c, from + 1);
    }
}

/// Splitting at the first mark parts the text in what is before it, without the mark, and all that is
/// behind it; a text without the mark is not split.
pub proof fn law_splitting_at_the_first(s: Txt, c: char)
    ensures
        match split_at_first(s, c) {
            Some((a, b)) => s == a + seq![c] + b && !a.contains(c),
            None => !s.contains(c),
        },
{
    lemma_first(s, c, 0);
    if let Some((a, b)) = split_at_first(s, c) {
        assert(s =~= a + seq![c] + b);
        assert forall|i: int| 0 <= i < a.len() implies a[i] != c by {
            assert(a[i] == s[i]);
        }
    }
}

proof fn lemma_last(s: Txt, needle: Txt, end: int)
    ensures
        match last_occurrence(s, needle, end) {
            Some(i) => 0 <= i < end && occurs_at(s, needle, i) && forall|j: int|
                i < j < end ==> !occurs_at(s, needle, j),
            None => forall|j: int| 0 <= j < end ==> !occurs_at(s, needle, j),
        },
    decreases end,
{
    if end > 0 && !occurs_at(s, needle, end - 1) {
        lemma_last(s, needle, end - 1);
    }
}

/// Splitting at the last needle parts the text in what is before it and what is behind it, and the
/// needle does not begin any later; a text without the needle is not split.
pub proof fn law_splitting_at_the_last(s: Txt, needle: Txt, j: int)
    requires
        needle.len() > 0,
        0 <= j,
    ensures
        match split_at_last(s, needle) {
            Some((a, b)) => s == a + needle + b && (a.len() < j ==> !occurs_at(s, needle, j)),
            None => !occurs_at(s, needle, j),
        },
{
    lemma_last(s, needle, s.len() as int);
    if let Some((a, b)) = split_at_last(s, needle) {
        let i = last_occurrence(s, needle, s.len() as int)->0;
        assert(s.subrange(i, i + needle.len()) == needle);
        assert(s =~= s.take(i) + s.subrange(i, i + needle.len()) + s.skip(i + needle.len()));
    }
}

/// Cutting at a mark gives parts without it, and putting them together with the mark between them
/// gives the text back.
pub proof fn law_parts_make_up_the_text(s: Txt, c: char)
    ensures
        all_parts(s, c).len() > 0,
        joined(all_parts(s, c), seq![c]) == s,
        forall|i: int|
            0 <= i < all_parts(s, c).len() ==> !(#[trigger] all_parts(s, c)[i]).contains(c),
    decreases s.len(),
{
    lemma_first(s, c, 0);
    let parts = all_parts(s, c);
    match first_occurrence(s, c, 0) {
        Some(i) => {
            let head = s.take(i);
            let tail = s.skip(i + 1);
            law_parts_make_up_the_text(tail, c);
            lemma_joined_front(head, all_parts(tail, c), seq![c]);
            assert(s =~= head + seq![c] + tail);
            assert forall|k: int| 0 <= k < parts.len() implies !(#[trigger] parts[k]).contains(c) by {
                if k == 0 {
                    assert forall|j: int| 0 <= j < head.len() implies head[j] != c by {
                        assert(head[j] == s[j]);
                    }
                } else {
                    assert(parts[k] == all_parts(tail, c)[k - 1]);
                }
            }
        },
        None => {
            assert(parts =~= seq![s]);
        },
    }
}

proof fn lemma_joined_front(first: Txt, parts: Seq<Txt>, between: Txt)
    requires
        parts.len() > 0,
    ensures
        joined(seq![first] + parts, between) == first + between + joined(parts, between),
    decreases parts.len(),
{
    let all = seq![first] + parts;
    if parts.len() == 1 {
        assert(all.drop_last() =~= seq![first]);
        assert(joined(seq![first], between) == first);
        assert(all.last() == parts[0]);
    } else {
        lemma_joined_front(first, parts.drop_last(), between);
        assert(all.drop_last() =~= seq![first] + parts.drop_last());
        assert(joined(all, between) =~= first + between + joined(parts, between));
    }
}

/// The parts that are not empty are all parts without the empty ones, in their order.
pub proof fn law_empty_parts_are_left_out(s: Txt, c: char)
    ensures
        nonempty_parts(s, c) == all_parts(s, c).filter(|part: Txt| part.len() > 0),
    decreases s.len(),
{
    lemma_first(s, c, 0);
    let keep = |part: Txt| part.len() > 0;
    match first_occurrence(s, c, 0) {
        Some(i) => {
            let tail = s.skip(i + 1);
            law_empty_parts_are_left_out(tail, c);
            lemma_filter_one(s.take(i));
            lemma_filter_adds(seq![s.take(i)], all_parts(tail, c));
        },
        None => {
            lemma_filter_one(s);
        },
    }
}

proof fn lemma_filter_one(part: Txt)
    ensures
        seq![part].filter(|p: Txt| p.len() > 0) == kept(part),
{
    reveal(Seq::filter);
    reveal_with_fuel(Seq::filter, 2);
    let f = |p: Txt| p.len() > 0;
    assert(seq![part].drop_last() =~= Seq::<Txt>::empty());
    assert(Seq::<Txt>::empty().filter(f) =~= Seq::<Txt>::empty());
    assert(seq![part].filter(f) =~= kept(part));
}

proof fn lemma_filter_adds(a: Seq<Txt>, b: Seq<Txt>)
    ensures
        (a + b).filter(|p: Txt| p.len() > 0) == a.filter(|p: Txt| p.len() > 0) + b.filter(
            |p: Txt| p.len() > 0,
        ),
{
    let f = |p: Txt| p.len() > 0;
    Seq::filter_distributes_over_add(a, b, f);
}

/// What follows a prefix makes up the text with it, and so does what stands before a suffix; both are
/// found wherever they are there.
pub proof fn law_ends_are_taken_off(s: Txt, end: Txt, rest: Txt)
    ensures
        stripped(s, end) == Some(rest) <==> s == end + rest,
        unsuffixed(s, end) == Some(rest) <==> s == rest + end,
{
    let n = end.len() as int;
    if s == end + rest {
        assert(s.take(n) =~= end);
        assert(s.skip(n) =~= rest);
    }
    if stripped(s, end) == Some(rest) {
        assert(s =~= s.take(n) + s.skip(n));
    }
    if s == rest + end {
        assert(s.skip(s.len() - n) =~= end);
        assert(s.take(s.len() - n) =~= rest);
    }
    if unsuffixed(s, end) == Some(rest) {
        assert(s =~= s.take(s.len() - n) + s.skip(s.len() - n));
    }
}

/// Replacing a character changes it wherever it stands, and nothing else.
pub proof fn law_replacing_is_everywhere(s: Txt, from: char, to: char, i: int)
    requires
        0 <= i < s.len(),
    ensures
        replaced(s, from, to).len() == s.len(),
        replaced(s, from, to)[i] == (if s[i] == from {
            to
        } else {
            s[i]
        }),
{
}

/// Without a character, the others stay in their order.
pub proof fn law_leaving_out_keeps_the_others(s: Txt, t: Txt, c: char, d: char)
    ensures
        without(Seq::empty(), c) == Seq::<char>::empty(),
        without(s.push(d), c) == (if d == c {
            without(s, c)
        } else {
            without(s, c).push(d)
        }),
{
    assert(s.push(d).drop_last() =~= s);
}

/// A number that is written in decimal is read as that number, with a plus sign before it or not.
pub proof fn law_numbers_are_read_back(n: nat)
    ensures
        unsigned_value(text::decimal_text(n)) == Some(n),
        unsigned_value(seq!['+'] + text::decimal_text(n)) == Some(n),
        digits_value(text::decimal_text(n)) == Some(n),
{
    let s = text::decimal_text(n);
    lemma_decimal(n);
    lemma_no_sign(s);
    let t = seq!['+'] + s;
    assert(t.skip(1) =~= s);
}

proof fn lemma_no_sign(s: Txt)
    requires
        digits_value(s) is Some,
    ensures
        forall|i: int| 0 <= i < s.len() ==> '0' <= #[trigger] s[i] <= '9',
    decreases s.len(),
{
    if s.len() > 0 {
        lemma_no_sign(s.drop_last());
        assert forall|i: int| 0 <= i < s.len() implies '0' <= #[trigger] s[i] <= '9' by {
            if i < s.len() - 1 {
                assert(s.drop_last()[i] == s[i]);
            }
        }
    }
}

/// Only digits are read, each counts ten times as much as the one behind it.
pub proof fn law_digits_count_by_tens(s: Txt, c: char)
    ensures
        digits_value(Seq::empty()) == Some(0nat),
        digits_value(s.push(c)) == (if '0' <= c && c <= '9' && digits_value(s) is Some {
            Some((10 * digits_value(s)->0 + (c as int - '0' as int)) as nat)
        } else {
            None
        }),
{
    assert(s.push(c).drop_last() =~= s);
}

/// Letters without case: each capital letter of ASCII becomes its small one, and nothing else changes.
pub proof fn law_small_letters(c: char)
    ensures
        'A' <= c && c <= 'Z' ==> ascii_lower(c) as int == c as int + 32,
        !('A' <= c && c <= 'Z') ==> ascii_lower(c) == c,
{
}

} // verus!
