//! The licenses of the crates that the program is built from, as they are shown: a text that was
//! escaped for HTML becomes plain again, and its lines end as a text field of Windows needs it.

use crate::text;
use vstd::prelude::*;

verus! {

/// A text in specifications.
pub type Txt = Seq<char>;

/// A text in which what stands for `from` is replaced, from left to right. An empty `from`
/// stands for nothing.
pub open spec fn replaced_all(s: Txt, from: Txt, to: Txt) -> Txt
    decreases s.len(),
{
    if s.len() == 0 || from.len() == 0 {
        s
    } else if text::has_prefix(s, from) {
        to + replaced_all(s.skip(from.len() as int), from, to)
    } else {
        seq![s[0]] + replaced_all(s.skip(1), from, to)
    }
}

/// A text in which what stands for `from` is replaced, from left to right.
pub fn replace_all(s: &str, from: &str, to: &str) -> (out: String)
    ensures
        out@ == replaced_all(s@, from@, to@),
{
    let chars = text::to_chars(s);
    let needle = text::to_chars(from);
    if needle.len() == 0 {
        return text::copy(s);
    }
    let mut out = String::new();
    let mut i: usize = 0;
    assert(out@ =~= Seq::<char>::empty());
    assert(s@.skip(0) =~= s@);
    assert(out@ + replaced_all(s@, from@, to@) =~= replaced_all(s@, from@, to@));
    while i < chars.len()
        invariant
            i <= chars.len(),
            chars@ == s@,
            needle@ == from@,
            needle.len() > 0,
            out@ + replaced_all(s@.skip(i as int), from@, to@) == replaced_all(s@, from@, to@),
        decreases chars.len() - i,
    {
        let ghost rest = s@.skip(i as int);
        let ghost before = out@;
        let ghost tail;
        assert(text::occurs_at(s@, from@, i as int) == text::has_prefix(rest, from@)) by {
            if text::occurs_at(s@, from@, i as int) {
                assert(s@.subrange(i as int, i + from@.len()) =~= rest.subrange(
                    0,
                    from@.len() as int,
                ));
            }
            if text::has_prefix(rest, from@) {
                assert(s@.subrange(i as int, i + from@.len()) =~= rest.subrange(
                    0,
                    from@.len() as int,
                ));
            }
        }
        if text::matches_at(&chars, &needle, i) {
            out.append(to);
            proof {
                tail = replaced_all(rest.skip(from@.len() as int), from@, to@);
                assert(rest.skip(from@.len() as int) =~= s@.skip(i + from@.len()));
                assert(out@ + tail =~= before + (to@ + tail));
            }
            i += needle.len();
        } else {
            out.push(chars[i]);
            proof {
                tail = replaced_all(rest.skip(1), from@, to@);
                assert(rest.skip(1) =~= s@.skip(i + 1));
                assert(out@ + tail =~= before + (seq![rest[0]] + tail));
            }
            i += 1;
        }
    }
    assert(s@.skip(i as int) =~= Seq::<char>::empty());
    assert(out@ + Seq::<char>::empty() =~= out@);
    out
}

/// A text that was escaped for HTML, as it was before. What stands for an ampersand is last, so
/// that nothing is undone twice.
pub open spec fn unescaped(s: Txt) -> Txt {
    let s = replaced_all(s, "&quot;"@, "\""@);
    let s = replaced_all(s, "&#x27;"@, "'"@);
    let s = replaced_all(s, "&#39;"@, "'"@);
    let s = replaced_all(s, "&lt;"@, "<"@);
    let s = replaced_all(s, "&gt;"@, ">"@);
    replaced_all(s, "&amp;"@, "&"@)
}

/// A text that was escaped for HTML, as it was before.
pub fn html_unescape(s: &str) -> (out: String)
    ensures
        out@ == unescaped(s@),
{
    let s1 = replace_all(s, "&quot;", "\"");
    let s2 = replace_all(s1.as_str(), "&#x27;", "'");
    let s3 = replace_all(s2.as_str(), "&#39;", "'");
    let s4 = replace_all(s3.as_str(), "&lt;", "<");
    let s5 = replace_all(s4.as_str(), "&gt;", ">");
    replace_all(s5.as_str(), "&amp;", "&")
}

/// A text whose lines all end with a carriage return and a line feed.
pub open spec fn with_crlf(s: Txt) -> Txt {
    replaced_all(replaced_all(s, "\r\n"@, "\n"@), "\n"@, "\r\n"@)
}

/// A text whose lines all end with a carriage return and a line feed.
pub fn to_crlf(s: &str) -> (out: String)
    ensures
        out@ == with_crlf(s@),
{
    let bare = replace_all(s, "\r\n", "\n");
    replace_all(bare.as_str(), "\n", "\r\n")
}

/// What is shown where the licenses could not be collected.
pub const NO_LICENSES: &'static str =
    "（サードパーティライセンス一覧の生成に失敗しました。cargo-about を導入して再ビルドしてください。）\n";

/// The licenses as they are shown; `collected` is what was collected, if anything was.
pub fn licenses_text(collected: Option<String>) -> (shown: String)
    ensures
        shown@ == (match collected {
            Some(raw) => with_crlf(unescaped(raw@)),
            None => NO_LICENSES@,
        }),
{
    match collected {
        Some(raw) => to_crlf(html_unescape(raw.as_str()).as_str()),
        None => text::copy(NO_LICENSES),
    }
}

proof fn lemma_breaks()
    ensures
        "\r\n"@ == seq!['\r', '\n'],
        "\n"@ == seq!['\n'],
{
    reveal_strlit("\r\n");
    reveal_strlit("\n");
    assert("\r\n"@ =~= seq!['\r', '\n']);
    assert("\n"@ =~= seq!['\n']);
}

proof fn lemma_starts(s: Txt, c: char)
    ensures
        text::has_prefix(s, seq![c]) == (s.len() > 0 && s[0] == c),
{
    if s.len() > 0 {
        if s[0] == c {
            assert(s.subrange(0, 1) =~= seq![c]);
        }
        if text::has_prefix(s, seq![c]) {
            assert(s.subrange(0, 1)[0] == c);
        }
    }
}

proof fn lemma_starts_with_break(s: Txt)
    ensures
        text::has_prefix(s, seq!['\r', '\n']) == (s.len() > 1 && s[0] == '\r' && s[1] == '\n'),
{
    if s.len() > 1 {
        if s[0] == '\r' && s[1] == '\n' {
            assert(s.subrange(0, 2) =~= seq!['\r', '\n']);
        }
        if text::has_prefix(s, seq!['\r', '\n']) {
            assert(s.subrange(0, 2)[0] == '\r');
            assert(s.subrange(0, 2)[1] == '\n');
        }
    }
}

/// In a text whose line ends were set, every line feed follows a carriage return.
pub proof fn law_lines_end_with_both(s: Txt, i: int)
    requires
        0 <= i < with_crlf(s).len(),
        with_crlf(s)[i] == '\n',
    ensures
        i > 0 && with_crlf(s)[i - 1] == '\r',
{
    lemma_breaks();
    lemma_feeds_follow(replaced_all(s, "\r\n"@, "\n"@), i);
}

proof fn lemma_feeds_follow(t: Txt, i: int)
    requires
        0 <= i < replaced_all(t, seq!['\n'], seq!['\r', '\n']).len(),
        replaced_all(t, seq!['\n'], seq!['\r', '\n'])[i] == '\n',
    ensures
        i > 0 && replaced_all(t, seq!['\n'], seq!['\r', '\n'])[i - 1] == '\r',
    decreases t.len(),
{
    let from = seq!['\n'];
    let to = seq!['\r', '\n'];
    lemma_starts(t, '\n');
    if t.len() > 0 {
        let rest = replaced_all(t.skip(1), from, to);
        if t[0] == '\n' {
            assert(replaced_all(t, from, to) == to + rest);
            if i >= 2 {
                assert((to + rest)[i] == rest[i - 2]);
                lemma_feeds_follow(t.skip(1), i - 2);
            }
        } else {
            assert(replaced_all(t, from, to) == seq![t[0]] + rest);
            if i >= 1 {
                assert((seq![t[0]] + rest)[i] == rest[i - 1]);
                lemma_feeds_follow(t.skip(1), i - 1);
            }
        }
    }
}

proof fn lemma_breaks_come_back(t: Txt)
    ensures
        replaced_all(
            replaced_all(t, seq!['\n'], seq!['\r', '\n']),
            seq!['\r', '\n'],
            seq!['\n'],
        ) == t,
    decreases t.len(),
{
    let lf = seq!['\n'];
    let crlf = seq!['\r', '\n'];
    lemma_starts(t, '\n');
    if t.len() > 0 {
        let rest = t.skip(1);
        let inner = replaced_all(rest, lf, crlf);
        lemma_breaks_come_back(rest);
        let whole = replaced_all(t, lf, crlf);
        lemma_starts_with_break(whole);
        if t[0] == '\n' {
            assert(whole == crlf + inner);
            assert(whole.skip(2) =~= inner);
            assert(replaced_all(whole, crlf, lf) == lf + rest);
            assert(lf + rest =~= t);
        } else {
            assert(whole == seq![t[0]] + inner);
            lemma_starts(rest, '\n');
            if rest.len() > 0 {
                let deeper = replaced_all(rest.skip(1), lf, crlf);
                assert(inner == (if rest[0] == '\n' {
                    crlf + deeper
                } else {
                    seq![rest[0]] + deeper
                }));
                assert(inner[0] != '\n');
                assert(whole[1] == inner[0]);
            }
            assert(whole.skip(1) =~= inner);
            assert(replaced_all(whole, crlf, lf) == seq![t[0]] + rest);
            assert(seq![t[0]] + rest =~= t);
        }
    }
}

/// Line ends that were set are not set again: doing it twice changes nothing more.
pub proof fn law_line_ends_settle(s: Txt)
    ensures
        with_crlf(with_crlf(s)) == with_crlf(s),
{
    lemma_breaks();
    lemma_breaks_come_back(replaced_all(s, "\r\n"@, "\n"@));
}

/// What stands for a character that means something in HTML; nothing for any other.
pub open spec fn entity(c: char) -> Option<Txt> {
    if c == '"' {
        Some("&quot;"@)
    } else if c == '\'' {
        Some("&#x27;"@)
    } else if c == '<' {
        Some("&lt;"@)
    } else if c == '>' {
        Some("&gt;"@)
    } else if c == '&' {
        Some("&amp;"@)
    } else {
        None
    }
}

/// Which replacement brings a character back, counted from the first.
pub open spec fn turn_of(c: char) -> int {
    if c == '"' {
        0
    } else if c == '\'' {
        1
    } else if c == '<' {
        3
    } else if c == '>' {
        4
    } else {
        5
    }
}

/// A character as it is written when the first `turn` replacements are done.
pub open spec fn written(c: char, turn: int) -> Txt {
    match entity(c) {
        Some(e) => if turn_of(c) >= turn {
            e
        } else {
            seq![c]
        },
        None => seq![c],
    }
}

/// A text as it is written when the first `turn` replacements are done.
pub open spec fn written_all(s: Txt, turn: int) -> Txt
    decreases s.len(),
{
    if s.len() == 0 {
        Seq::empty()
    } else {
        written(s[0], turn) + written_all(s.skip(1), turn)
    }
}

/// A text escaped for HTML.
pub open spec fn escaped(s: Txt) -> Txt {
    written_all(s, 0)
}

/// What the replacement whose turn it is replaces.
spec fn replaced_at(turn: int) -> Txt {
    if turn == 0 {
        "&quot;"@
    } else if turn == 1 {
        "&#x27;"@
    } else if turn == 2 {
        "&#39;"@
    } else if turn == 3 {
        "&lt;"@
    } else if turn == 4 {
        "&gt;"@
    } else {
        "&amp;"@
    }
}

/// What the replacement whose turn it is puts in its place.
spec fn brought_at(turn: int) -> Txt {
    if turn == 0 {
        "\""@
    } else if turn == 1 || turn == 2 {
        "'"@
    } else if turn == 3 {
        "<"@
    } else if turn == 4 {
        ">"@
    } else {
        "&"@
    }
}

proof fn lemma_entities()
    ensures
        "&quot;"@ == seq!['&', 'q', 'u', 'o', 't', ';'],
        "&#x27;"@ == seq!['&', '#', 'x', '2', '7', ';'],
        "&#39;"@ == seq!['&', '#', '3', '9', ';'],
        "&lt;"@ == seq!['&', 'l', 't', ';'],
        "&gt;"@ == seq!['&', 'g', 't', ';'],
        "&amp;"@ == seq!['&', 'a', 'm', 'p', ';'],
        "\""@ == seq!['"'],
        "'"@ == seq!['\''],
        "<"@ == seq!['<'],
        ">"@ == seq!['>'],
        "&"@ == seq!['&'],
{
    reveal_strlit("&quot;");
    reveal_strlit("&#x27;");
    reveal_strlit("&#39;");
    reveal_strlit("&lt;");
    reveal_strlit("&gt;");
    reveal_strlit("&amp;");
    reveal_strlit("\"");
    reveal_strlit("'");
    reveal_strlit("<");
    reveal_strlit(">");
    reveal_strlit("&");
    assert("&quot;"@ =~= seq!['&', 'q', 'u', 'o', 't', ';']);
    assert("&#x27;"@ =~= seq!['&', '#', 'x', '2', '7', ';']);
    assert("&#39;"@ =~= seq!['&', '#', '3', '9', ';']);
    assert("&lt;"@ =~= seq!['&', 'l', 't', ';']);
    assert("&gt;"@ =~= seq!['&', 'g', 't', ';']);
    assert("&amp;"@ =~= seq!['&', 'a', 'm', 'p', ';']);
    assert("\""@ =~= seq!['"']);
    assert("'"@ =~= seq!['\'']);
    assert("<"@ =~= seq!['<']);
    assert(">"@ =~= seq!['>']);
    assert("&"@ =~= seq!['&']);
}

/// What holds no ampersand is passed over by a replacement of what starts with one.
proof fn lemma_passed_over(head: Txt, rest: Txt, from: Txt, to: Txt)
    requires
        from.len() > 0,
        from[0] == '&',
        forall|i: int| 0 <= i < head.len() ==> head[i] != '&',
    ensures
        replaced_all(head + rest, from, to) == head + replaced_all(rest, from, to),
    decreases head.len(),
{
    let whole = head + rest;
    if head.len() == 0 {
        assert(whole =~= rest);
        assert(head + replaced_all(rest, from, to) =~= replaced_all(rest, from, to));
    } else {
        if text::has_prefix(whole, from) {
            assert(whole.subrange(0, from.len() as int)[0] == whole[0]);
        }
        let tail = head.skip(1);
        lemma_passed_over(tail, rest, from, to);
        assert(whole.skip(1) =~= tail + rest);
        assert(seq![whole[0]] + (tail + replaced_all(rest, from, to)) =~= head + replaced_all(
            rest,
            from,
            to,
        ));
    }
}

/// An entity that is not the one that is replaced is passed over.
proof fn lemma_entity_passed_over(head: Txt, rest: Txt, from: Txt, to: Txt, at: int)
    requires
        from.len() > 0,
        from[0] == '&',
        head.len() > 0,
        0 <= at < head.len(),
        at < from.len(),
        head[at] != from[at],
        forall|i: int| 1 <= i < head.len() ==> head[i] != '&',
    ensures
        replaced_all(head + rest, from, to) == head + replaced_all(rest, from, to),
{
    let whole = head + rest;
    if text::has_prefix(whole, from) {
        assert(whole.subrange(0, from.len() as int)[at] == whole[at]);
        assert(whole[at] == head[at]);
    }
    let tail = head.skip(1);
    assert forall|i: int| 0 <= i < tail.len() implies tail[i] != '&' by {
        assert(tail[i] == head[i + 1]);
    }
    lemma_passed_over(tail, rest, from, to);
    assert(whole.skip(1) =~= tail + rest);
    assert(seq![whole[0]] + (tail + replaced_all(rest, from, to)) =~= head + replaced_all(
        rest,
        from,
        to,
    ));
}

/// Where an entity differs from what is replaced.
spec fn differs_at(c: char, turn: int) -> int {
    if turn == 2 && c == '\'' {
        2
    } else {
        1
    }
}

/// One replacement brings back the characters whose turn it is.
proof fn lemma_one_turn(s: Txt, turn: int)
    requires
        0 <= turn <= 5,
    ensures
        replaced_all(written_all(s, turn), replaced_at(turn), brought_at(turn)) == written_all(
            s,
            turn + 1,
        ),
    decreases s.len(),
{
    lemma_entities();
    let from = replaced_at(turn);
    let to = brought_at(turn);
    if s.len() > 0 {
        let c = s[0];
        let rest = written_all(s.skip(1), turn);
        let head = written(c, turn);
        lemma_one_turn(s.skip(1), turn);
        if entity(c) is Some && turn_of(c) == turn {
            assert(head == from);
            assert((head + rest).subrange(0, from.len() as int) =~= from);
            assert(text::has_prefix(head + rest, from));
            assert((head + rest).skip(from.len() as int) =~= rest);
            assert(written(c, turn + 1) =~= to);
        } else if entity(c) is Some && turn_of(c) > turn {
            lemma_entity_passed_over(head, rest, from, to, differs_at(c, turn));
            assert(written(c, turn + 1) == head);
        } else {
            assert(head =~= seq![c]);
            assert(written(c, turn + 1) =~= seq![c]);
            lemma_passed_over(head, rest, from, to);
        }
    }
}

proof fn lemma_all_written(s: Txt)
    ensures
        written_all(s, 6) == s,
    decreases s.len(),
{
    if s.len() > 0 {
        lemma_all_written(s.skip(1));
        assert(seq![s[0]] + s.skip(1) =~= s);
    }
}

/// What was escaped for HTML comes back as it was, whatever it holds: nothing is undone twice.
pub proof fn law_unescaping_undoes_escaping(s: Txt)
    ensures
        unescaped(escaped(s)) == s,
{
    lemma_one_turn(s, 0);
    lemma_one_turn(s, 1);
    lemma_one_turn(s, 2);
    lemma_one_turn(s, 3);
    lemma_one_turn(s, 4);
    lemma_one_turn(s, 5);
    lemma_all_written(s);
}

} // verus!
