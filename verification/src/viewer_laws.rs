//! What a reader sees of a file.

use crate::text;
use crate::viewer::{
    at_least_one, binary_like, blanked, break_end, breaks_line, char_columns, columns_shown,
    decoded, dump_chunk, dump_line, dump_view, fed_all, has_known_width, has_known_widths, hex_part,
    is_control_char, joined, laid_out, line_end, lines_from, logical_lines, numbered, padded, placed,
    shown_as, sniffed, text_columns, text_view, undisplayable,
    undisplayable_count, wrapped, Encoding, Txt, Wrapping,
};
use vstd::arithmetic::div_mod::lemma_fundamental_div_mod;
use vstd::arithmetic::div_mod::lemma_mod_multiples_basic;
use vstd::prelude::*;

verus! {

/// So many blanks.
pub open spec fn blanks(n: nat) -> Txt {
    Seq::new(n, |i: int| ' ')
}

/// Whether a character is one of the codes that stand for no sign.
pub open spec fn is_code(c: char) -> bool {
    c < ' ' || ('\u{7F}' <= c && c <= '\u{9F}')
}

/// What is shown of a character other than a tab: the replacement character for a control code, nothing
/// for what takes no column, and else the character.
pub open spec fn look(c: char) -> Txt {
    if is_code(c) {
        seq!['\u{FFFD}']
    } else if char_columns(c) is None || char_columns(c) == Some(0usize) {
        Seq::empty()
    } else {
        seq![c]
    }
}

proof fn lemma_code(c: char)
    ensures
        is_code(c) == is_control_char(c),
{
}

/// All that is shown of a line so far.
spec fn all_of(w: Wrapping) -> Txt {
    joined(w.done) + w.piece
}

/// The piece behind the `i`-th complete one.
spec fn behind(w: Wrapping, i: int) -> Txt {
    if i + 1 < w.done.len() {
        w.done[i + 1]
    } else {
        w.piece
    }
}

/// What holds of a line that is being wrapped: the column is that of the piece at hand, and each
/// complete piece had no room for what comes behind it.
spec fn is_tight(w: Wrapping, wrap: nat) -> bool {
    &&& w.column == text_columns(w.piece)
    &&& w.done.len() > 0 ==> w.piece.len() > 0
    &&& forall|i: int|
        0 <= i < w.done.len() ==> (#[trigger] w.done[i]).len() > 0 && behind(w, i).len() > 0
            && text_columns(w.done[i]) + columns_shown(behind(w, i)[0]) > wrap
}

proof fn lemma_placed(w: Wrapping, wrap: nat, c: char, width: nat)
    requires
        is_tight(w, wrap),
        width == columns_shown(c),
    ensures
        is_tight(placed(w, wrap, c, width), wrap),
        all_of(placed(w, wrap, c, width)) == all_of(w).push(c),
        w.column + width <= wrap ==> placed(w, wrap, c, width) == (Wrapping {
            piece: w.piece.push(c),
            column: w.column + width,
            ..w
        }),
{
    reveal_with_fuel(text_columns, 2);
    let p = placed(w, wrap, c, width);
    if w.column + width > wrap && w.piece.len() > 0 {
        assert(p.piece.drop_last() =~= Seq::<char>::empty());
        assert(p.done.drop_last() =~= w.done);
        assert(all_of(p) =~= all_of(w).push(c));
        assert forall|i: int| 0 <= i < p.done.len() implies (#[trigger] p.done[i]).len() > 0
            && behind(p, i).len() > 0 && text_columns(p.done[i]) + columns_shown(behind(p, i)[0])
            > wrap by {
            if i < w.done.len() {
                assert(p.done[i] == w.done[i]);
                assert(behind(p, i) == behind(w, i));
            } else {
                assert(p.done[i] == w.piece);
                assert(behind(p, i) == seq![c]);
            }
        }
    } else {
        assert(p.piece.drop_last() =~= w.piece);
        assert(all_of(p) =~= all_of(w).push(c));
        assert forall|i: int| 0 <= i < p.done.len() implies (#[trigger] p.done[i]).len() > 0
            && behind(p, i).len() > 0 && text_columns(p.done[i]) + columns_shown(behind(p, i)[0])
            > wrap by {
            assert(p.done[i] == w.done[i]);
            if i + 1 == w.done.len() {
                assert(behind(p, i)[0] == behind(w, i)[0]);
            } else {
                assert(behind(p, i) == behind(w, i));
            }
        }
    }
}

proof fn lemma_padded(w: Wrapping, wrap: nat, n: nat)
    requires
        is_tight(w, wrap),
    ensures
        is_tight(padded(w, wrap, n), wrap),
        all_of(padded(w, wrap, n)) == all_of(w) + blanks(n),
        w.column + n <= wrap ==> padded(w, wrap, n) == (Wrapping {
            piece: w.piece + blanks(n),
            column: w.column + n,
            ..w
        }),
    decreases n,
{
    if n == 0 {
        assert(all_of(w) + blanks(0) =~= all_of(w));
        assert(w.piece + blanks(0) =~= w.piece);
    } else {
        let k = (n - 1) as nat;
        lemma_padded(w, wrap, k);
        lemma_placed(padded(w, wrap, k), wrap, ' ', 1);
        assert((all_of(w) + blanks(k)).push(' ') =~= all_of(w) + blanks(n));
        assert((w.piece + blanks(k)).push(' ') =~= w.piece + blanks(n));
    }
}

proof fn lemma_fed_all(line: Txt, wrap: nat, tab: nat)
    requires
        has_known_widths(line),
    ensures
        is_tight(fed_all(line, wrap, tab), wrap),
    decreases line.len(),
{
    if line.len() > 0 {
        let head = line.drop_last();
        let c = line.last();
        assert forall|i: int| 0 <= i < head.len() && head[i] != '\t' implies has_known_width(
            #[trigger] head[i],
        ) by {
            assert(head[i] == line[i]);
        }
        lemma_fed_all(head, wrap, tab);
        let before = fed_all(head, wrap, tab);
        assert(c == line[line.len() - 1]);
        if c == '\t' {
            lemma_padded(before, wrap, (tab - before.column % tab) as nat);
        } else {
            match shown_as(c) {
                Some((shown, width)) => lemma_placed(before, wrap, shown, width),
                None => {},
            }
        }
    }
}

proof fn lemma_wrapped(line: Txt, wrap: nat, tab: nat)
    ensures
        ({
            let w = fed_all(line, at_least_one(wrap), tab);
            &&& wrapped(line, wrap, tab).last() == w.piece
            &&& wrapped(line, wrap, tab).drop_last() == w.done
            &&& joined(wrapped(line, wrap, tab)) == all_of(w)
        }),
{
    let w = fed_all(line, at_least_one(wrap), tab);
    assert(w.done.push(w.piece).drop_last() =~= w.done);
}

/// A tab shows as blanks: at least one and at most `tab`, up to the next column that is a multiple of
/// `tab`. Where that column has room, the tab stays in its piece.
pub proof fn law_tabs_go_to_the_next_stop(line: Txt, wrap: nat, tab: nat)
    requires
        tab > 0,
        has_known_widths(line),
    ensures
        ({
            let before = wrapped(line, wrap, tab);
            let after = wrapped(line.push('\t'), wrap, tab);
            let column = text_columns(before.last());
            exists|n: nat|
                1 <= n <= tab && (column + n) % tab == 0 && joined(after) == joined(before)
                    + #[trigger] blanks(n) && (column + n <= at_least_one(wrap) ==> after
                    == before.drop_last().push(before.last() + blanks(n)))
        }),
{
    let before = wrapped(line, wrap, tab);
    let more = line.push('\t');
    let after = wrapped(more, wrap, tab);
    let room = at_least_one(wrap);
    let w = fed_all(line, room, tab);
    lemma_fed_all(line, room, tab);
    lemma_wrapped(line, wrap, tab);
    lemma_wrapped(more, wrap, tab);
    assert(more.drop_last() =~= line);
    let n = (tab - w.column % tab) as nat;
    lemma_padded(w, room, n);
    lemma_fundamental_div_mod(w.column as int, tab as int);
    let q = w.column as int / tab as int;
    assert(w.column + n == (q + 1) * tab) by (nonlinear_arith)
        requires
            w.column == tab * q + w.column as int % tab as int,
            n == tab - w.column as int % tab as int,
    ;
    lemma_mod_multiples_basic(q + 1, tab as int);
    assert(fed_all(more, room, tab) == padded(w, room, n));
    assert(joined(after) == joined(before) + blanks(n));
    if w.column + n <= room {
        assert(after =~= before.drop_last().push(before.last() + blanks(n)));
    }
}

/// Any other character shows as it is, a control code as the replacement character, and what takes no
/// column not at all; nothing of what is before it changes.
pub proof fn law_characters_show_as_they_are(line: Txt, c: char, wrap: nat, tab: nat)
    requires
        c != '\t',
        has_known_widths(line.push(c)),
    ensures
        joined(wrapped(line.push(c), wrap, tab)) == joined(wrapped(line, wrap, tab)) + look(c),
{
    let more = line.push(c);
    let room = at_least_one(wrap);
    let w = fed_all(line, room, tab);
    assert(more.drop_last() =~= line);
    assert forall|i: int| 0 <= i < line.len() && line[i] != '\t' implies has_known_width(
        #[trigger] line[i],
    ) by {
        assert(line[i] == more[i]);
    }
    assert(has_known_width(more[line.len() as int]));
    lemma_fed_all(line, room, tab);
    lemma_wrapped(line, wrap, tab);
    lemma_wrapped(more, wrap, tab);
    match shown_as(c) {
        Some((shown, width)) => {
            lemma_placed(w, room, shown, width);
            assert(all_of(w).push(shown) =~= all_of(w) + look(c));
        },
        None => {
            assert(all_of(w) =~= all_of(w) + look(c));
        },
    }
}

/// A line is broken only where it has to be: no piece has room for the first character of the next,
/// and no piece is empty unless it is the only one.
pub proof fn law_lines_are_broken_late(line: Txt, wrap: nat, tab: nat, i: int)
    requires
        has_known_widths(line),
        0 <= i < wrapped(line, wrap, tab).len() - 1,
    ensures
        ({
            let pieces = wrapped(line, wrap, tab);
            &&& pieces[i].len() > 0
            &&& pieces[i + 1].len() > 0
            &&& text_columns(pieces[i]) + columns_shown(pieces[i + 1][0]) > at_least_one(wrap)
        }),
{
    let w = fed_all(line, at_least_one(wrap), tab);
    lemma_fed_all(line, at_least_one(wrap), tab);
    assert(w.done[i].len() > 0);
    assert(behind(w, i) == wrapped(line, wrap, tab)[i + 1]);
}

/// An empty line shows as one empty piece.
pub proof fn law_empty_lines_are_shown(wrap: nat, tab: nat)
    ensures
        wrapped(Seq::empty(), wrap, tab) == seq![Seq::<char>::empty()],
{
    assert(wrapped(Seq::empty(), wrap, tab) =~= seq![Seq::<char>::empty()]);
}

proof fn lemma_end_at(s: Txt, from: int, end: int)
    requires
        0 <= from <= end <= s.len(),
        forall|i: int| from <= i < end ==> !breaks_line(#[trigger] s[i]),
        end < s.len() ==> breaks_line(s[end]),
    ensures
        line_end(s, from) == end,
    decreases end - from,
{
    if from < end {
        assert(!breaks_line(s[from]));
        lemma_end_at(s, from + 1, end);
    }
}

proof fn lemma_shifted(s: Txt, t: Txt, by: int, from: int)
    requires
        0 <= by,
        0 <= from,
        t.len() + by == s.len(),
        forall|i: int| 0 <= i < t.len() ==> #[trigger] t[i] == s[i + by],
    ensures
        lines_from(s, from + by) == lines_from(t, from),
    decreases t.len() - from,
{
    if from < t.len() {
        lemma_end_shifted(s, t, by, from);
        let end = line_end(t, from);
        lemma_end_bounds(t, from);
        if end >= t.len() {
            assert(s.subrange(from + by, s.len() as int) =~= t.subrange(from, t.len() as int));
        } else {
            assert(s.subrange(from + by, end + by) =~= t.subrange(from, end));
            assert(t[end] == s[end + by]);
            if end + 1 < t.len() {
                assert(t[end + 1] == s[end + 1 + by]);
            }
            assert(break_end(s, end + by) == break_end(t, end) + by);
            lemma_shifted(s, t, by, break_end(t, end));
        }
    }
}

proof fn lemma_end_bounds(s: Txt, from: int)
    requires
        0 <= from <= s.len(),
    ensures
        from <= line_end(s, from) <= s.len(),
    decreases s.len() - from,
{
    if from < s.len() && !breaks_line(s[from]) {
        lemma_end_bounds(s, from + 1);
    }
}

proof fn lemma_end_shifted(s: Txt, t: Txt, by: int, from: int)
    requires
        0 <= by,
        0 <= from <= t.len(),
        t.len() + by == s.len(),
        forall|i: int| 0 <= i < t.len() ==> #[trigger] t[i] == s[i + by],
    ensures
        line_end(s, from + by) == line_end(t, from) + by,
    decreases t.len() - from,
{
    if from < t.len() {
        assert(t[from] == s[from + by]);
        if !breaks_line(t[from]) {
            lemma_end_shifted(s, t, by, from + 1);
        }
    }
}

/// Whether a text has no line break in it.
pub open spec fn is_one_line(s: Txt) -> bool {
    forall|i: int| 0 <= i < s.len() ==> s[i] != '\n' && s[i] != '\r'
}

/// Whether a text parts two lines: a line feed, a carriage return with a line feed or without.
pub open spec fn is_break(s: Txt) -> bool {
    s == seq!['\n'] || s == seq!['\r', '\n'] || s == seq!['\r']
}

/// A text without a break is one line. A break ends the line before it, and what follows it begins
/// with the next line; nothing follows a break at the end. A carriage return and a line feed are one
/// break.
pub proof fn law_breaks_part_lines(line: Txt, gap: Txt, rest: Txt)
    requires
        is_one_line(line),
        is_break(gap),
        gap == seq!['\r'] && rest.len() > 0 ==> rest[0] != '\n',
    ensures
        logical_lines(line) == seq![line],
        logical_lines(line + gap + rest) == seq![line] + (if rest.len() > 0 {
            logical_lines(rest)
        } else {
            Seq::empty()
        }),
{
    let n = line.len() as int;
    if n > 0 {
        lemma_end_at(line, 0, n);
        assert(line.subrange(0, n) =~= line);
    } else {
        assert(line =~= Seq::<char>::empty());
    }
    let s = line + gap + rest;
    let by = n + gap.len();
    assert forall|i: int| 0 <= i < n implies !breaks_line(#[trigger] s[i]) by {
        assert(s[i] == line[i]);
    }
    assert(s[n] == gap[0]);
    if gap.len() == 2 {
        assert(s[n + 1] == gap[1]);
    } else if rest.len() > 0 {
        assert(s[n + 1] == rest[0]);
    }
    lemma_end_at(s, 0, n);
    assert(s.subrange(0, n) =~= line);
    assert(break_end(s, n) == by);
    assert forall|i: int| 0 <= i < rest.len() implies #[trigger] rest[i] == s[i + by] by {}
    lemma_shifted(s, rest, by, 0);
    assert(seq![line] + lines_from(rest, 0) =~= logical_lines(s));
    if rest.len() == 0 {
        assert(lines_from(rest, 0) =~= Seq::<Txt>::empty());
    }
}

/// How many screen lines the first `k` lines take.
pub open spec fn rows_before(lines: Seq<Txt>, wrap: nat, tab: nat, k: int) -> int
    decreases k,
{
    if k <= 0 {
        0
    } else {
        rows_before(lines, wrap, tab, k - 1) + wrapped(lines[k - 1], wrap, tab).len()
    }
}

proof fn lemma_rows(a: Seq<Txt>, b: Seq<Txt>, wrap: nat, tab: nat, k: int)
    requires
        k <= a.len(),
        a.len() <= b.len(),
        forall|i: int| 0 <= i < a.len() ==> a[i] == b[i],
    ensures
        rows_before(a, wrap, tab, k) == rows_before(b, wrap, tab, k),
        k >= 0 ==> 0 <= rows_before(a, wrap, tab, k),
    decreases k,
{
    if k > 0 {
        lemma_rows(a, b, wrap, tab, k - 1);
    }
}

proof fn lemma_laid_out(lines: Seq<Txt>, wrap: nat, tab: nat, k: int, i: int)
    requires
        0 <= k < lines.len(),
        0 <= i < wrapped(lines[k], wrap, tab).len(),
    ensures
        laid_out(lines, wrap, tab).len() == rows_before(lines, wrap, tab, lines.len() as int),
        0 <= rows_before(lines, wrap, tab, k),
        rows_before(lines, wrap, tab, k) + i < laid_out(lines, wrap, tab).len(),
        laid_out(lines, wrap, tab)[rows_before(lines, wrap, tab, k) + i] == numbered(
            wrapped(lines[k], wrap, tab),
            (k + 1) as nat,
        )[i],
    decreases lines.len(),
{
    let head = lines.drop_last();
    let n = lines.len() as int;
    lemma_laid_out_len(head, wrap, tab);
    lemma_rows(head, lines, wrap, tab, n - 1);
    if k < n - 1 {
        lemma_laid_out(head, wrap, tab, k, i);
        lemma_rows(head, lines, wrap, tab, k);
    }
}

proof fn lemma_laid_out_len(lines: Seq<Txt>, wrap: nat, tab: nat)
    ensures
        laid_out(lines, wrap, tab).len() == rows_before(lines, wrap, tab, lines.len() as int),
    decreases lines.len(),
{
    if lines.len() > 0 {
        lemma_laid_out_len(lines.drop_last(), wrap, tab);
        lemma_rows(lines.drop_last(), lines, wrap, tab, lines.len() - 1);
    }
}

/// The screen shows the pieces of all lines in their order. The first piece of a line carries the
/// number of the line, counted from one; the others carry none.
pub proof fn law_lines_are_numbered(s: Txt, wrap: nat, tab: nat, k: int, i: int)
    requires
        tab > 0,
        0 <= k < logical_lines(s).len(),
        0 <= i < wrapped(logical_lines(s)[k], wrap, tab).len(),
    ensures
        ({
            let lines = logical_lines(s);
            let row = text_view(s, wrap, tab)[rows_before(lines, wrap, tab, k) + i];
            &&& row.body == wrapped(lines[k], wrap, tab)[i]
            &&& i == 0 ==> text::digits_value(row.gutter) == Some((k + 1) as nat)
                && row.gutter.len() > 0 && row.gutter[0] != '0'
            &&& i > 0 ==> row.gutter.len() == 0
            &&& text_view(s, wrap, tab).len() == rows_before(
                lines,
                wrap,
                tab,
                lines.len() as int,
            )
        }),
{
    lemma_laid_out(logical_lines(s), wrap, tab, k, i);
    lemma_decimal((k + 1) as nat);
}

/// A number in decimal reads as the number, and does not begin with a zero unless it is zero.
pub proof fn lemma_decimal(n: nat)
    ensures
        text::digits_value(text::decimal_text(n)) == Some(n),
        text::decimal_text(n).len() > 0,
        n > 0 ==> text::decimal_text(n)[0] != '0',
    decreases n,
{
    reveal_with_fuel(text::digits_value, 2);
    let s = text::decimal_text(n);
    if n < 10 {
        assert(s.drop_last() =~= Seq::<char>::empty());
    } else {
        lemma_decimal(n / 10);
        assert(s.drop_last() =~= text::decimal_text(n / 10));
        assert(s[0] == text::decimal_text(n / 10)[0]);
    }
}

/// What a hexadecimal digit stands for.
pub open spec fn hex_value(c: char) -> int {
    if '0' <= c && c <= '9' {
        c as int - '0' as int
    } else if 'A' <= c && c <= 'F' {
        c as int - 'A' as int + 10
    } else {
        -1
    }
}

/// The number that hexadecimal digits stand for.
pub open spec fn hex_number(s: Txt) -> int
    decreases s.len(),
{
    if s.len() == 0 {
        0
    } else {
        16 * hex_number(s.drop_last()) + hex_value(s.last())
    }
}

/// A number in hexadecimal reads as the number, has as many digits as asked for, and more only where
/// it needs them.
pub proof fn law_hexadecimal_reads_back(n: nat, width: nat)
    ensures
        hex_number(text::hex_text(n, width)) == n,
        text::hex_text(n, width).len() >= width,
        text::hex_text(n, width).len() > width ==> hex_value(text::hex_text(n, width)[0]) > 0,
        forall|i: int|
            0 <= i < text::hex_text(n, width).len() ==> 0 <= hex_value(
                #[trigger] text::hex_text(n, width)[i],
            ) < 16,
    decreases n, width,
{
    let s = text::hex_text(n, width);
    if n == 0 && width == 0 {
    } else {
        let less: nat = if width == 0 {
            0
        } else {
            (width - 1) as nat
        };
        law_hexadecimal_reads_back(n / 16, less);
        let head = text::hex_text(n / 16, less);
        assert(s == head.push(text::hex_digit(n % 16)));
        assert(s.drop_last() =~= head);
        assert(hex_value(text::hex_digit(n % 16)) == n % 16);
        assert forall|i: int| 0 <= i < s.len() implies 0 <= hex_value(#[trigger] s[i]) < 16 by {
            if i < head.len() {
                assert(s[i] == head[i]);
            }
        }
        if s.len() > width {
            if head.len() > 0 {
                assert(s[0] == head[0]);
            }
        }
    }
}

/// The column at which byte `j` of a dump line stands.
pub open spec fn byte_column(j: int) -> int {
    if j < 8 {
        3 * j
    } else {
        3 * j + 2
    }
}

proof fn lemma_two_digits(b: u8)
    ensures
        text::hex_text(b as nat, 2).len() == 2,
        hex_value(text::hex_text(b as nat, 2)[0]) == b / 16,
        hex_value(text::hex_text(b as nat, 2)[1]) == b % 16,
{
    reveal_with_fuel(text::hex_text, 4);
    let n = b as nat;
    assert(n / 16 / 16 == 0);
}

proof fn lemma_hex_part(chunk: Seq<u8>, n: nat, j: int)
    requires
        n <= 16,
        0 <= j < n,
    ensures
        hex_part(chunk, n).len() == byte_column(n as int) - (if n == 8 {
            2int
        } else {
            0
        }),
        j < chunk.len() ==> hex_value(hex_part(chunk, n)[byte_column(j)]) == chunk[j] / 16
            && hex_value(hex_part(chunk, n)[byte_column(j) + 1]) == chunk[j] % 16,
        j >= chunk.len() ==> hex_part(chunk, n)[byte_column(j)] == ' ' && hex_part(
            chunk,
            n,
        )[byte_column(j) + 1] == ' ',
        hex_part(chunk, n)[byte_column(j) + 2] == ' ',
        n > 8 ==> hex_part(chunk, n)[24] == '-' && hex_part(chunk, n)[25] == ' ',
    decreases n,
{
    reveal_strlit("- ");
    reveal_strlit("   ");
    let k = (n - 1) as nat;
    let before = hex_part(chunk, k);
    let s = hex_part(chunk, n);
    lemma_hex_len(chunk, k);
    if k < chunk.len() {
        lemma_two_digits(chunk[k as int]);
    }
    if j < k {
        lemma_hex_part(chunk, k, j);
        assert(s[byte_column(j)] == before[byte_column(j)]);
        assert(s[byte_column(j) + 1] == before[byte_column(j) + 1]);
        assert(s[byte_column(j) + 2] == before[byte_column(j) + 2]);
        if k > 8 {
            assert(s[24] == before[24]);
            assert(s[25] == before[25]);
        }
    } else if n > 9 {
        lemma_hex_part(chunk, k, 0);
        assert(s[24] == before[24]);
        assert(s[25] == before[25]);
    }
}

proof fn lemma_hex_len(chunk: Seq<u8>, n: nat)
    requires
        n <= 16,
    ensures
        hex_part(chunk, n).len() == byte_column(n as int) - (if n == 8 {
            2int
        } else {
            0
        }),
    decreases n,
{
    reveal_strlit("- ");
    reveal_strlit("   ");
    if n > 0 {
        lemma_hex_len(chunk, (n - 1) as nat);
        if n - 1 < chunk.len() {
            lemma_two_digits(chunk[n - 1]);
        }
    }
}

/// A dump shows sixteen bytes in a line, and every byte in one. The line begins with the place of its
/// first byte in hexadecimal. Each byte stands at its column with two hexadecimal digits and a blank,
/// a dash parts the two halves, missing bytes are blank, and behind a bar stands what the line reads
/// as, with a blank for every control code.
pub proof fn law_dumps_show_every_byte(bytes: Seq<u8>, encoding: Encoding, at: int)
    requires
        0 <= at < bytes.len(),
    ensures
        ({
            let view = dump_view(bytes, encoding);
            let row = at / 16;
            let line = view[row];
            let column = byte_column(at % 16);
            let last = (row + 1) * 16;
            let chunk = bytes.subrange(
                row * 16,
                if last < bytes.len() {
                    last
                } else {
                    bytes.len() as int
                },
            );
            let shown = decoded(encoding, chunk);
            &&& view.len() == (bytes.len() + 15) / 16
            &&& 0 <= row < view.len()
            &&& hex_number(line.gutter) == row * 16
            &&& line.gutter.len() >= 6
            &&& hex_value(line.body[column]) == bytes[at] / 16
            &&& hex_value(line.body[column + 1]) == bytes[at] % 16
            &&& line.body[column + 2] == ' '
            &&& line.body[24] == '-' && line.body[25] == ' '
            &&& line.body[50] == '|' && line.body[51] == ' '
            &&& line.body.len() == 52 + shown.len()
            &&& forall|i: int|
                0 <= i < shown.len() ==> #[trigger] line.body[52 + i] == (if is_code(shown[i]) {
                    ' '
                } else {
                    shown[i]
                })
        }),
{
    reveal_strlit("| ");
    let view = dump_view(bytes, encoding);
    let row = at / 16;
    let chunk = dump_chunk(bytes, row);
    let shown = decoded(encoding, chunk);
    let hex = hex_part(chunk, 16);
    law_hexadecimal_reads_back((row * 16) as nat, 6);
    assert(at == row * 16 + at % 16);
    assert(chunk[at % 16] == bytes[at]);
    lemma_hex_part(chunk, 16, at % 16);
    let line = view[row];
    assert(line == dump_line(chunk, (row * 16) as nat, shown));
    assert(line.body == hex + "| "@ + blanked(shown));
    assert(line.body[byte_column(at % 16)] == hex[byte_column(at % 16)]);
    assert(line.body[byte_column(at % 16) + 1] == hex[byte_column(at % 16) + 1]);
    assert(line.body[byte_column(at % 16) + 2] == hex[byte_column(at % 16) + 2]);
    assert(line.body[24] == hex[24]);
    assert(line.body[25] == hex[25]);
    assert(line.body[50] == "| "@[0]);
    assert(line.body[51] == "| "@[1]);
    assert forall|i: int| 0 <= i < shown.len() implies #[trigger] line.body[52 + i] == (if is_code(
        shown[i],
    ) {
        ' '
    } else {
        shown[i]
    }) by {
        assert((hex + "| "@).len() == 52);
        assert(line.body[52 + i] == blanked(shown)[i]);
        lemma_code(shown[i]);
    }
}

/// The bytes that a dump line lacks are blank.
pub proof fn law_missing_bytes_are_blank(bytes: Seq<u8>, encoding: Encoding, j: int)
    requires
        bytes.len() % 16 != 0,
        bytes.len() % 16 <= j < 16,
    ensures
        ({
            let line = dump_view(bytes, encoding).last();
            &&& line.body[byte_column(j)] == ' '
            &&& line.body[byte_column(j) + 1] == ' '
            &&& line.body[byte_column(j) + 2] == ' '
        }),
{
    let n = bytes.len() as int;
    let row = n / 16;
    let chunk = dump_chunk(bytes, row);
    let view = dump_view(bytes, encoding);
    assert(view.len() == row + 1);
    assert(chunk.len() == n % 16);
    lemma_hex_part(chunk, 16, j);
    let hex = hex_part(chunk, 16);
    let line = view[row];
    assert(line.body == hex + "| "@ + blanked(decoded(encoding, chunk)));
    assert(line.body[byte_column(j)] == hex[byte_column(j)]);
    assert(line.body[byte_column(j) + 1] == hex[byte_column(j) + 1]);
    assert(line.body[byte_column(j) + 2] == hex[byte_column(j) + 2]);
}

/// Whether a character speaks against a text: the replacement character, or a code of ASCII that is
/// no tab and no line break.
pub open spec fn is_garbage(c: char) -> bool {
    c == '\u{FFFD}' || c == '\u{7F}' || (c < ' ' && c != '\t' && c != '\n' && c != '\r')
}

/// How many characters of a text speak against it.
pub open spec fn garbage_in(s: Txt) -> nat {
    s.filter(|c: char| is_garbage(c)).len()
}

proof fn lemma_one_garbage(c: char)
    ensures
        undisplayable(c) == is_garbage(c),
{
}

proof fn lemma_garbage(s: Txt)
    ensures
        undisplayable_count(s) == garbage_in(s),
    decreases s.len(),
{
    reveal(Seq::filter);
    if s.len() > 0 {
        lemma_garbage(s.drop_last());
        lemma_one_garbage(s.last());
    }
}

/// Only the first 8192 bytes tell text from binary. With a zero byte among them they are binary; else
/// they are where in UTF-8, in Shift_JIS, in EUC-JP and in ISO-2022-JP more than three in ten
/// characters speak against a text. No bytes at all are text.
pub proof fn law_binary_is_told_from_text(bytes: Seq<u8>)
    ensures
        ({
            let start = if bytes.len() <= 8192 {
                bytes
            } else {
                bytes.take(8192)
            };
            let is_bad = |e: Encoding|
                10 * garbage_in(decoded(e, start)) > 3 * decoded(e, start).len();
            binary_like(bytes) == (start.len() > 0 && (start.contains(0u8) || (is_bad(
                Encoding::Utf8,
            ) && is_bad(Encoding::ShiftJis) && is_bad(Encoding::EucJp) && is_bad(
                Encoding::Iso2022Jp,
            ))))
        }),
{
    let start = if bytes.len() <= 8192 {
        bytes
    } else {
        bytes.take(8192)
    };
    assert(sniffed(bytes) =~= start);
    lemma_garbage(decoded(Encoding::Utf8, start));
    lemma_garbage(decoded(Encoding::ShiftJis, start));
    lemma_garbage(decoded(Encoding::EucJp, start));
    lemma_garbage(decoded(Encoding::Iso2022Jp, start));
}

} // verus!
