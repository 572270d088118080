//! What the names inside an archive mean.

use crate::archive::{
    child_of, children, children_upto, first_end, first_named, inner_join, is_dir_entry, is_safe,
    joined_from, mtime_of, normalized, size_of, ArchiveEntry, Txt,
};
use crate::text;
use crate::winpath;
use vstd::prelude::*;

verus! {

/// The path of `name` in the directory `inner`: the two with a slash between them, and in the root of
/// the archive the name alone.
pub open spec fn path_in(inner: Txt, name: Txt) -> Txt {
    if inner.len() > 0 {
        inner + seq!['/'] + name
    } else {
        name
    }
}

/// Whether a path lies below a directory: the directory, a slash, and something or nothing.
pub open spec fn is_under(path: Txt, top: Txt) -> bool {
    exists|rest: Txt| path == #[trigger] (top + seq!['/'] + rest)
}

/// Whether a path is that of an entry, or lies below it.
pub open spec fn is_of(path: Txt, top: Txt) -> bool {
    path == top || is_under(path, top)
}

/// Whether a text can be a name in an archive at all.
pub open spec fn is_name(name: Txt) -> bool {
    name.len() > 0 && forall|i: int| 0 <= i < name.len() ==> name[i] != '/'
}

pub(crate) proof fn lemma_under(path: Txt, top: Txt)
    ensures
        is_under(path, top) == text::has_prefix(path, top.push('/')),
{
    let front = top.push('/');
    if text::has_prefix(path, front) {
        let rest = path.skip(front.len() as int);
        assert(path =~= path.take(front.len() as int) + rest);
        assert(front =~= top + seq!['/']);
        assert(path =~= top + seq!['/'] + rest);
    }
    if is_under(path, top) {
        let rest = choose|rest: Txt| path == #[trigger] (top + seq!['/'] + rest);
        assert(path.take(front.len() as int) =~= front);
    }
}

pub(crate) proof fn lemma_path_in(inner: Txt, name: Txt)
    ensures
        inner_join(inner, name) == path_in(inner, name),
{
    if inner.len() > 0 {
        assert(inner_join(inner, name) =~= inner + seq!['/'] + name);
    }
}

/// A name in a directory of the archive has the path of the directory, a slash and the name; a name in
/// the root has its own. Different names in one directory have different paths, and what lies in
/// another directory has a path of its own.
pub proof fn law_paths_are_put_together(inner: Txt, name: Txt, other: Txt, deeper: Txt)
    ensures
        inner.len() == 0 ==> inner_join(inner, name) == name,
        inner.len() > 0 ==> inner_join(inner, name) == inner + seq!['/'] + name,
        inner_join(inner, name) == inner_join(inner, other) ==> name == other,
        name.len() > 0 ==> inner_join(inner_join(inner, name), deeper) == inner_join(
            inner,
            inner_join(name, deeper),
        ),
        inner.len() > 0 ==> is_under(inner_join(inner, name), inner),
{
    lemma_path_in(inner, name);
    let a = inner_join(inner, name);
    let b = inner_join(inner, other);
    if inner.len() > 0 {
        assert(a.skip(inner.len() as int + 1) =~= name);
        assert(b.skip(inner.len() as int + 1) =~= other);
    }
    if name.len() > 0 {
        assert(inner_join(a, deeper) =~= inner_join(inner, inner_join(name, deeper)));
    }
}

proof fn lemma_end(s: Txt, from: int)
    requires
        0 <= from <= s.len(),
    ensures
        from <= first_end(s, from) <= s.len(),
        forall|i: int| from <= i < first_end(s, from) ==> s[i] != '/',
        first_end(s, from) < s.len() ==> s[first_end(s, from)] == '/',
    decreases s.len() - from,
{
    if from < s.len() && s[from] != '/' {
        lemma_end(s, from + 1);
    }
}

/// An entry belongs to a name in a directory where it is what the name stands for, or lies below it.
pub proof fn law_entries_belong_to_names(path: Txt, inner: Txt, name: Txt)
    ensures
        child_of(path, inner) == Some(name) <==> is_name(name) && is_of(path, path_in(inner, name)),
{
    let rest = if inner.len() == 0 {
        path
    } else {
        path.skip(inner.len() as int + 1)
    };
    let top = path_in(inner, name);
    lemma_under(path, top);
    if inner.len() > 0 {
        lemma_under(path, inner);
    }
    lemma_end(rest, 0);
    let end = first_end(rest, 0);
    if child_of(path, inner) == Some(name) {
        assert(name =~= rest.take(end));
        assert forall|i: int| 0 <= i < name.len() implies name[i] != '/' by {
            assert(name[i] == rest[i]);
        }
        if inner.len() > 0 {
            assert(path =~= inner + seq!['/'] + rest);
        }
        if end == rest.len() {
            assert(rest =~= name);
            assert(path =~= top);
        } else {
            assert(rest =~= name + seq!['/'] + rest.skip(end + 1));
            assert(path =~= top + seq!['/'] + rest.skip(end + 1));
        }
    }
    if is_name(name) && is_of(path, top) {
        if path == top {
            if inner.len() > 0 {
                assert(path =~= inner + seq!['/'] + name);
            }
            assert(rest =~= name);
        } else {
            let tail = choose|tail: Txt| path == #[trigger] (top + seq!['/'] + tail);
            if inner.len() > 0 {
                assert(path =~= inner + seq!['/'] + (name + seq!['/'] + tail));
            }
            assert(rest =~= name + seq!['/'] + tail);
            assert(rest[name.len() as int] == '/');
        }
        assert forall|i: int| 0 <= i < name.len() implies rest[i] != '/' by {
            assert(rest[i] == name[i]);
        }
        if end < name.len() {
            assert(rest[end] == name[end]);
        }
        assert(end == name.len());
        assert(rest.take(end) =~= name);
    }
}

/// Whether the name is that of something in the directory, going by the first `n` entries.
spec fn occurs(entries: Seq<ArchiveEntry<Txt>>, inner: Txt, name: Txt, n: int) -> bool {
    exists|i: int| 0 <= i < n && is_of((#[trigger] entries[i]).path, path_in(inner, name))
}

proof fn lemma_children(entries: Seq<ArchiveEntry<Txt>>, inner: Txt, name: Txt, n: int)
    requires
        0 <= n <= entries.len(),
    ensures
        children_upto(entries, inner, n).contains(name) <==> is_name(name) && occurs(
            entries,
            inner,
            name,
            n,
        ),
    decreases n,
{
    if n > 0 {
        let before = children_upto(entries, inner, n - 1);
        let path = entries[n - 1].path;
        lemma_children(entries, inner, name, n - 1);
        law_entries_belong_to_names(path, inner, name);
        match child_of(path, inner) {
            Some(child) => {
                if !before.contains(child) {
                    assert(before.push(child).last() == child);
                    if before.contains(name) {
                        let i = choose|i: int| 0 <= i < before.len() && before[i] == name;
                        assert(before.push(child)[i] == name);
                    }
                }
            },
            None => {},
        }
        if occurs(entries, inner, name, n - 1) {
            let i = choose|i: int|
                0 <= i < n - 1 && is_of((#[trigger] entries[i]).path, path_in(inner, name));
            assert(is_of(entries[i].path, path_in(inner, name)));
        }
        if is_of(path, path_in(inner, name)) {
            assert(is_of(entries[n - 1].path, path_in(inner, name)));
        }
    }
}

/// Exactly those names are found in a directory that stand for an entry there, or for a directory that
/// an entry lies below; nothing of another directory is found.
pub proof fn law_directories_hold_their_entries(
    entries: Seq<ArchiveEntry<Txt>>,
    inner: Txt,
    name: Txt,
)
    ensures
        children(entries, inner).contains(name) <==> is_name(name) && exists|i: int|
            0 <= i < entries.len() && is_of((#[trigger] entries[i]).path, path_in(inner, name)),
{
    lemma_children(entries, inner, name, entries.len() as int);
}

/// What is found in a directory stands in the order of the archive: more entries at its end add names
/// at the end.
pub proof fn law_more_entries_add_names_at_the_end(
    entries: Seq<ArchiveEntry<Txt>>,
    entry: ArchiveEntry<Txt>,
    inner: Txt,
)
    ensures
        children(entries.push(entry), inner).len() <= children(entries, inner).len() + 1,
        children(entries, inner).is_prefix_of(children(entries.push(entry), inner)),
{
    let more = entries.push(entry);
    lemma_same_upto(entries, more, inner, entries.len() as int);
    let before = children(entries, inner);
    assert(before.is_prefix_of(before)) by {
        assert(before =~= before.subrange(0, before.len() as int));
    }
    if let Some(name) = child_of(entry.path, inner) {
        assert(before =~= before.push(name).subrange(0, before.len() as int));
    }
}

proof fn lemma_same_upto(
    a: Seq<ArchiveEntry<Txt>>,
    b: Seq<ArchiveEntry<Txt>>,
    inner: Txt,
    n: int,
)
    requires
        n <= a.len(),
        a.len() <= b.len(),
        forall|i: int| 0 <= i < a.len() ==> a[i] == b[i],
    ensures
        children_upto(a, inner, n) == children_upto(b, inner, n),
    decreases n,
{
    if n > 0 {
        lemma_same_upto(a, b, inner, n - 1);
    }
}

/// A path is a directory where an entry says so, or where an entry lies below it.
pub proof fn law_directories_are_said_or_used(entries: Seq<ArchiveEntry<Txt>>, path: Txt)
    ensures
        is_dir_entry(entries, path) <==> exists|i: int|
            0 <= i < entries.len() && ((#[trigger] entries[i]).path == path && entries[i].is_dir
                || is_under(entries[i].path, path)),
{
    assert forall|i: int| 0 <= i < entries.len() implies is_under(
        (#[trigger] entries[i]).path,
        path,
    ) == text::has_prefix(entries[i].path, path.push('/')) by {
        lemma_under(entries[i].path, path);
    }
    if is_dir_entry(entries, path) {
        let i = choose|i: int|
            0 <= i < entries.len() && ((#[trigger] entries[i]).path == path && entries[i].is_dir
                || text::has_prefix(entries[i].path, path.push('/')));
        assert(entries[i].path == path && entries[i].is_dir || is_under(entries[i].path, path));
    }
    if exists|i: int|
        0 <= i < entries.len() && ((#[trigger] entries[i]).path == path && entries[i].is_dir
            || is_under(entries[i].path, path)) {
        let i = choose|i: int|
            0 <= i < entries.len() && ((#[trigger] entries[i]).path == path && entries[i].is_dir
                || is_under(entries[i].path, path));
        assert(entries[i].path == path && entries[i].is_dir || text::has_prefix(
            entries[i].path,
            path.push('/'),
        ));
    }
}

proof fn lemma_first_named(entries: Seq<ArchiveEntry<Txt>>, path: Txt, from: int, i: int)
    requires
        0 <= from <= i < entries.len(),
        entries[i].path == path,
        forall|j: int| from <= j < i ==> (#[trigger] entries[j]).path != path,
    ensures
        first_named(entries, path, from) == Some(i),
    decreases i - from,
{
    if from < i {
        lemma_first_named(entries, path, from + 1, i);
    }
}

proof fn lemma_not_named(entries: Seq<ArchiveEntry<Txt>>, path: Txt, from: int)
    requires
        0 <= from,
        forall|j: int| from <= j < entries.len() ==> (#[trigger] entries[j]).path != path,
    ensures
        first_named(entries, path, from) is None,
    decreases entries.len() - from,
{
    if from < entries.len() {
        lemma_not_named(entries, path, from + 1);
    }
}

/// The time and the size of a path are those of the first entry with that path; a path without an
/// entry has none.
pub proof fn law_facts_are_those_of_the_first_entry(
    entries: Seq<ArchiveEntry<Txt>>,
    path: Txt,
    i: int,
)
    requires
        0 <= i <= entries.len(),
        forall|j: int| 0 <= j < i ==> (#[trigger] entries[j]).path != path,
        i < entries.len() ==> entries[i].path == path,
    ensures
        i < entries.len() ==> mtime_of(entries, path) == entries[i].mtime,
        i < entries.len() ==> size_of(entries, path) == entries[i].size,
        i == entries.len() ==> mtime_of(entries, path) is None && size_of(entries, path) is None,
{
    if i < entries.len() {
        lemma_first_named(entries, path, 0, i);
    } else {
        lemma_not_named(entries, path, 0);
    }
}

/// A name is safe where it holds no separator and no colon, and is more than one or two dots.
pub proof fn law_safe_names(name: Txt)
    ensures
        is_safe(name) <==> (forall|i: int|
            0 <= i < name.len() ==> name[i] != '/' && name[i] != '\\' && name[i] != ':') && (
        name.len() > 2 || exists|i: int| 0 <= i < name.len() && name[i] != '.'),
{
    assert(name == seq!['.'] <==> name.len() == 1 && name[0] == '.') by {
        if name.len() == 1 && name[0] == '.' {
            assert(name =~= seq!['.']);
        }
    }
    assert(name == seq!['.', '.'] <==> name.len() == 2 && name[0] == '.' && name[1] == '.') by {
        if name.len() == 2 && name[0] == '.' && name[1] == '.' {
            assert(name =~= seq!['.', '.']);
        }
    }
    if is_safe(name) {
        assert forall|i: int| 0 <= i < name.len() implies name[i] != '/' && name[i] != '\\'
            && name[i] != ':' by {
            assert(name.contains(name[i]));
        }
        if name.len() <= 2 {
            assert(name[0] != '.' || name[name.len() - 1] != '.');
        }
    }
}

proof fn lemma_component(s: Txt, from: int)
    requires
        0 <= from <= s.len(),
    ensures
        from <= winpath::component_end(s, from) <= s.len(),
        forall|i: int|
            from <= i < winpath::component_end(s, from) ==> !winpath::is_separator(#[trigger] s[i]),
        winpath::component_end(s, from) < s.len() ==> winpath::is_separator(
            s[winpath::component_end(s, from)],
        ),
    decreases s.len() - from,
{
    if from < s.len() && !winpath::is_separator(s[from]) {
        lemma_component(s, from + 1);
    }
}

proof fn lemma_component_shifted(s: Txt, t: Txt, by: int, from: int)
    requires
        0 <= by,
        0 <= from <= t.len(),
        t.len() + by == s.len(),
        forall|i: int| 0 <= i < t.len() ==> #[trigger] t[i] == s[i + by],
    ensures
        winpath::component_end(s, from + by) == winpath::component_end(t, from) + by,
    decreases t.len() - from,
{
    if from < t.len() {
        assert(t[from] == s[from + by]);
        if !winpath::is_separator(t[from]) {
            lemma_component_shifted(s, t, by, from + 1);
        }
    }
}

proof fn lemma_joined_shifted(acc: Txt, s: Txt, t: Txt, by: int, from: int)
    requires
        0 <= by,
        0 <= from,
        t.len() + by == s.len(),
        forall|i: int| 0 <= i < t.len() ==> #[trigger] t[i] == s[i + by],
    ensures
        joined_from(acc, s, from + by) == joined_from(acc, t, from),
    decreases t.len() + 1 - from,
{
    if from < t.len() {
        lemma_component(t, from);
        lemma_component_shifted(s, t, by, from);
        let end = winpath::component_end(t, from);
        if end == from {
            lemma_joined_shifted(acc, s, t, by, end + 1);
        } else {
            assert(s.subrange(from + by, end + by) =~= t.subrange(from, end));
            lemma_joined_shifted(inner_join(acc, t.subrange(from, end)), s, t, by, end + 1);
        }
    }
}

proof fn lemma_joined_behind(acc: Txt, x: Txt, t: Txt, from: int)
    requires
        x.len() > 0,
        0 <= from,
    ensures
        joined_from(inner_join(acc, x), t, from) == inner_join(acc, joined_from(x, t, from)),
        joined_from(x, t, from).len() > 0,
    decreases t.len() + 1 - from,
{
    if from < t.len() {
        lemma_component(t, from);
        let end = winpath::component_end(t, from);
        if end == from {
            lemma_joined_behind(acc, x, t, end + 1);
        } else {
            let part = t.subrange(from, end);
            law_paths_are_put_together(acc, x, x, part);
            lemma_joined_behind(acc, inner_join(x, part), t, end + 1);
        }
    }
}

proof fn lemma_joined_to(x: Txt, t: Txt, from: int)
    requires
        x.len() > 0,
        0 <= from,
    ensures
        joined_from(x, t, from) == (if joined_from(Seq::empty(), t, from).len() > 0 {
            inner_join(x, joined_from(Seq::empty(), t, from))
        } else {
            x
        }),
    decreases t.len() + 1 - from,
{
    if from < t.len() {
        lemma_component(t, from);
        let end = winpath::component_end(t, from);
        if end == from {
            lemma_joined_to(x, t, end + 1);
        } else {
            lemma_joined_behind(x, t.subrange(from, end), t, end + 1);
        }
    }
}

/// Whether a character parts names: either kind of slash.
pub open spec fn is_slash(c: char) -> bool {
    c == '/' || c == '\\'
}

/// A name is brought into its normal form step by step: nothing is nothing, a slash of either kind at
/// the front goes, and a first part stays with one slash between it and the normal form of the rest,
/// where that is not empty.
pub proof fn law_names_are_brought_into_form(part: Txt, slash: char, rest: Txt)
    requires
        is_slash(slash),
        forall|i: int| 0 <= i < part.len() ==> !is_slash(#[trigger] part[i]),
    ensures
        normalized(part) == part,
        part.len() == 0 ==> normalized(part + seq![slash] + rest) == normalized(rest),
        part.len() > 0 ==> normalized(part + seq![slash] + rest) == (if normalized(rest).len() > 0 {
            part + seq!['/'] + normalized(rest)
        } else {
            part
        }),
{
    reveal_with_fuel(joined_from, 2);
    let n = part.len() as int;
    lemma_end_is(part, n);
    if n > 0 {
        assert(part.subrange(0, n) =~= part);
    } else {
        assert(part =~= Seq::<char>::empty());
    }
    let s = part + seq![slash] + rest;
    assert forall|i: int| 0 <= i < n implies !winpath::is_separator(#[trigger] s[i]) by {
        assert(s[i] == part[i]);
    }
    assert(s[n] == slash);
    lemma_end_is(s, n);
    assert forall|i: int| 0 <= i < rest.len() implies #[trigger] rest[i] == s[i + (n + 1)] by {}
    if n == 0 {
        lemma_joined_shifted(Seq::empty(), s, rest, 1, 0);
        if s.len() == 1 {
            assert(rest.len() == 0);
        }
    } else {
        assert(s.subrange(0, n) =~= part);
        lemma_joined_shifted(part, s, rest, n + 1, 0);
        lemma_joined_to(part, rest, 0);
        lemma_path_in(part, normalized(rest));
    }
}

proof fn lemma_end_is(s: Txt, end: int)
    requires
        0 <= end <= s.len(),
        forall|i: int| 0 <= i < end ==> !winpath::is_separator(#[trigger] s[i]),
        end < s.len() ==> winpath::is_separator(s[end]),
    ensures
        winpath::component_end(s, 0) == end,
{
    lemma_component(s, 0);
    let e = winpath::component_end(s, 0);
    if e < end {
        assert(!winpath::is_separator(s[e]));
    }
    if end < e {
        assert(!winpath::is_separator(s[end]));
    }
}

} // verus!
