//! The entries of an archive, and the names that they have inside it.
//!
//! Names inside an archive are separated by `/`; an empty name is the archive's root.

use crate::text;
use crate::viewer;
use crate::viewer::Encoding;
use crate::winpath;
use vstd::prelude::*;

verus! {

/// A text in specifications.
pub type Txt = Seq<char>;

/// One entry of an archive.
#[derive(Clone, Debug, PartialEq, Eq)]
pub struct ArchiveEntry<S = String> {
    pub path: S,
    pub is_dir: bool,
    pub size: Option<u64>,
    pub packed_size: Option<u64>,
    /// When it was changed, in ticks since 1970.
    pub mtime: Option<i64>,
    pub is_encrypted: bool,
}

impl View for ArchiveEntry<String> {
    type V = ArchiveEntry<Txt>;

    open spec fn view(&self) -> ArchiveEntry<Txt> {
        ArchiveEntry {
            path: self.path@,
            is_dir: self.is_dir,
            size: self.size,
            packed_size: self.packed_size,
            mtime: self.mtime,
            is_encrypted: self.is_encrypted,
        }
    }
}

/// The entries, as a specification reads them.
pub open spec fn entries_of(entries: Seq<ArchiveEntry>) -> Seq<ArchiveEntry<Txt>> {
    entries.map_values(|e: ArchiveEntry| e@)
}

/// Whether a name can be a single component below any directory: it is not empty, does not
/// go up or stay, and holds no separator and no colon.
pub open spec fn is_safe(name: Txt) -> bool {
    name.len() > 0 && name != seq!['.'] && name != seq!['.', '.'] && !name.contains('/')
        && !name.contains('\\') && !name.contains(':')
}

/// Whether `name` can be a single component below any directory.
pub fn is_safe_segment(name: &str) -> (safe: bool)
    ensures
        safe == is_safe(name@),
{
    let chars = text::to_chars(name);
    assert(name@ == seq!['.'] ==> name@.len() == 1 && name@[0] == '.');
    assert(name@ == seq!['.', '.'] ==> name@.len() == 2 && name@[0] == '.' && name@[1] == '.');
    if chars.len() == 0 {
        return false;
    }
    if chars.len() == 1 && chars[0] == '.' {
        assert(name@ =~= seq!['.']);
        return false;
    }
    if chars.len() == 2 && chars[0] == '.' && chars[1] == '.' {
        assert(name@ =~= seq!['.', '.']);
        return false;
    }
    let mut i: usize = 0;
    while i < chars.len()
        invariant
            i <= chars.len(),
            chars@ == name@,
            forall|j: int|
                0 <= j < i ==> chars@[j] != '/' && chars@[j] != '\\' && chars@[j] != ':',
        decreases chars.len() - i,
    {
        let c = chars[i];
        if c == '/' || c == '\\' || c == ':' {
            assert(name@.contains(c));
            return false;
        }
        i += 1;
    }
    true
}

/// The name of `name` inside the directory `inner`.
pub open spec fn inner_join(inner: Txt, name: Txt) -> Txt {
    if inner.len() == 0 {
        name
    } else {
        inner.push('/') + name
    }
}

/// The name of `name` inside the directory `inner`.
pub fn join_inner(inner: &str, name: &str) -> (joined: String)
    ensures
        joined@ == inner_join(inner@, name@),
{
    if inner.is_empty() {
        text::copy(name)
    } else {
        let mut joined = text::copy(inner);
        joined.push('/');
        joined.append(name);
        joined
    }
}

/// Whether `path` is `top` or lies below it.
pub open spec fn at_or_below(path: Txt, top: Txt) -> bool {
    path == top || text::has_prefix(path, top.push('/'))
}

/// Whether `path` is `top` or lies below it.
pub fn is_at_or_below(path: &str, top: &str) -> (yes: bool)
    ensures
        yes == at_or_below(path@, top@),
{
    if text::same(path, top) {
        return true;
    }
    let mut prefix = text::copy(top);
    prefix.push('/');
    text::starts_with(path, prefix.as_str())
}

/// Whether `inner` is a directory: an entry says so, or an entry lies below it.
pub open spec fn is_dir_entry(entries: Seq<ArchiveEntry<Txt>>, inner: Txt) -> bool {
    exists|i: int|
        0 <= i < entries.len() && ((#[trigger] entries[i]).path == inner && entries[i].is_dir
            || text::has_prefix(entries[i].path, inner.push('/')))
}

/// Whether `inner` is a directory of the archive.
pub fn entry_is_dir(entries: &Vec<ArchiveEntry>, inner: &str) -> (yes: bool)
    ensures
        yes == is_dir_entry(entries_of(entries@), inner@),
{
    let mut prefix = text::copy(inner);
    prefix.push('/');
    let ghost all = entries_of(entries@);
    let mut i: usize = 0;
    while i < entries.len()
        invariant
            i <= entries.len(),
            all == entries_of(entries@),
            prefix@ == inner@.push('/'),
            forall|j: int|
                0 <= j < i ==> !((#[trigger] all[j]).path == inner@ && all[j].is_dir
                    || text::has_prefix(all[j].path, inner@.push('/'))),
        decreases entries.len() - i,
    {
        assert(all[i as int] == entries@[i as int]@);
        let e = &entries[i];
        if (e.is_dir && text::same(e.path.as_str(), inner)) || text::starts_with(
            e.path.as_str(),
            prefix.as_str(),
        ) {
            return true;
        }
        i += 1;
    }
    false
}

/// The place of the first entry from `from` on that is called `inner`.
pub open spec fn first_named(entries: Seq<ArchiveEntry<Txt>>, inner: Txt, from: int) -> Option<int>
    decreases entries.len() - from,
{
    if from < 0 || from >= entries.len() {
        None
    } else if entries[from].path == inner {
        Some(from)
    } else {
        first_named(entries, inner, from + 1)
    }
}

/// The modification time of `inner`, where it is an entry and has one.
pub open spec fn mtime_of(entries: Seq<ArchiveEntry<Txt>>, inner: Txt) -> Option<i64> {
    match first_named(entries, inner, 0) {
        Some(i) => entries[i].mtime,
        None => None,
    }
}

/// The modification time of `inner`, where it is an entry and has one.
pub fn entry_mtime(entries: &Vec<ArchiveEntry>, inner: &str) -> (mtime: Option<i64>)
    ensures
        mtime == mtime_of(entries_of(entries@), inner@),
{
    let ghost all = entries_of(entries@);
    let mut i: usize = 0;
    while i < entries.len()
        invariant
            i <= entries.len(),
            all == entries_of(entries@),
            first_named(all, inner@, 0) == first_named(all, inner@, i as int),
        decreases entries.len() - i,
    {
        assert(all[i as int] == entries@[i as int]@);
        if text::same(entries[i].path.as_str(), inner) {
            return entries[i].mtime;
        }
        i += 1;
    }
    None
}

/// The size of `inner`, where it is an entry and has one.
pub open spec fn size_of(entries: Seq<ArchiveEntry<Txt>>, inner: Txt) -> Option<u64> {
    match first_named(entries, inner, 0) {
        Some(i) => entries[i].size,
        None => None,
    }
}

/// The size of `inner`, where it is an entry and has one.
pub fn entry_size(entries: &Vec<ArchiveEntry>, inner: &str) -> (size: Option<u64>)
    ensures
        size == size_of(entries_of(entries@), inner@),
{
    let ghost all = entries_of(entries@);
    let mut i: usize = 0;
    while i < entries.len()
        invariant
            i <= entries.len(),
            all == entries_of(entries@),
            first_named(all, inner@, 0) == first_named(all, inner@, i as int),
        decreases entries.len() - i,
    {
        assert(all[i as int] == entries@[i as int]@);
        if text::same(entries[i].path.as_str(), inner) {
            return entries[i].size;
        }
        i += 1;
    }
    None
}

/// What a path is called below the directory `inner`, where it lies below it.
pub open spec fn below(path: Txt, inner: Txt) -> Option<Txt> {
    if inner.len() == 0 {
        Some(path)
    } else {
        text::stripped(path, inner.push('/'))
    }
}

/// The end of the first component of a name.
pub open spec fn first_end(s: Txt, from: int) -> int
    decreases s.len() - from,
{
    if 0 <= from < s.len() && s[from] != '/' {
        first_end(s, from + 1)
    } else {
        from
    }
}

/// The entry directly inside `inner` that a path belongs to.
pub open spec fn child_of(path: Txt, inner: Txt) -> Option<Txt> {
    match below(path, inner) {
        Some(rest) => if first_end(rest, 0) > 0 {
            Some(rest.take(first_end(rest, 0)))
        } else {
            None
        },
        None => None,
    }
}

/// What lies directly inside `inner`, going by the first `n` entries: each name once, in the
/// order in which it first occurs.
pub open spec fn children_upto(entries: Seq<ArchiveEntry<Txt>>, inner: Txt, n: int) -> Seq<Txt>
    decreases n,
{
    if n <= 0 {
        Seq::empty()
    } else {
        let before = children_upto(entries, inner, n - 1);
        match child_of(entries[n - 1].path, inner) {
            Some(name) => if before.contains(name) {
                before
            } else {
                before.push(name)
            },
            None => before,
        }
    }
}

/// What lies directly inside `inner`.
pub open spec fn children(entries: Seq<ArchiveEntry<Txt>>, inner: Txt) -> Seq<Txt> {
    children_upto(entries, inner, entries.len() as int)
}

fn find_first_end(chars: &Vec<char>) -> (end: usize)
    ensures
        end == first_end(chars@, 0),
        end <= chars.len(),
{
    let mut i: usize = 0;
    while i < chars.len() && chars[i] != '/'
        invariant
            i <= chars.len(),
            first_end(chars@, 0) == first_end(chars@, i as int),
        decreases chars.len() - i,
    {
        i += 1;
    }
    i
}

/// The entry directly inside `inner` that `path` belongs to.
pub fn child_name(path: &str, inner: &str) -> (child: Option<String>)
    ensures
        child.deep_view() == child_of(path@, inner@),
{
    let rest = if inner.is_empty() {
        text::copy(path)
    } else {
        let mut prefix = text::copy(inner);
        prefix.push('/');
        match text::strip_prefix(path, prefix.as_str()) {
            Some(rest) => rest,
            None => {
                return None;
            },
        }
    };
    let chars = text::to_chars(rest.as_str());
    let end = find_first_end(&chars);
    if end == 0 {
        return None;
    }
    let name = text::from_range(&chars, 0, end);
    assert(name@ =~= rest@.take(end as int));
    Some(name)
}

fn contains_name(names: &Vec<String>, name: &str) -> (found: bool)
    ensures
        found == names.deep_view().contains(name@),
{
    let ghost all = names.deep_view();
    let mut i: usize = 0;
    while i < names.len()
        invariant
            i <= names.len(),
            all == names.deep_view(),
            forall|j: int| 0 <= j < i ==> all[j] != name@,
        decreases names.len() - i,
    {
        assert(all[i as int] == names@[i as int]@);
        if text::same(names[i].as_str(), name) {
            return true;
        }
        i += 1;
    }
    false
}

/// What lies directly inside `inner`: each name once, in the order in which it first occurs.
pub fn entries_at(entries: &Vec<ArchiveEntry>, inner: &str) -> (names: Vec<String>)
    ensures
        names.deep_view() == children(entries_of(entries@), inner@),
{
    let ghost all = entries_of(entries@);
    let mut names: Vec<String> = Vec::new();
    let mut i: usize = 0;
    assert(names.deep_view() =~= Seq::<Txt>::empty());
    while i < entries.len()
        invariant
            i <= entries.len(),
            all == entries_of(entries@),
            names.deep_view() == children_upto(all, inner@, i as int),
        decreases entries.len() - i,
    {
        assert(all[i as int] == entries@[i as int]@);
        match child_name(entries[i].path.as_str(), inner) {
            Some(name) => {
                if !contains_name(&names, name.as_str()) {
                    let ghost before = names.deep_view();
                    names.push(name);
                    assert(names.deep_view() =~= before.push(name@));
                }
            },
            None => {},
        }
        i += 1;
    }
    names
}

/// No name occurs twice directly inside a directory, and none is empty or holds a separator.
pub proof fn law_children_are_distinct_names(entries: Seq<ArchiveEntry<Txt>>, inner: Txt)
    ensures
        children(entries, inner).no_duplicates(),
        forall|i: int|
            0 <= i < children(entries, inner).len() ==> (#[trigger] children(entries, inner)[i]).len()
                > 0 && !children(entries, inner)[i].contains('/'),
{
    lemma_children_upto(entries, inner, entries.len() as int);
}

proof fn lemma_children_upto(entries: Seq<ArchiveEntry<Txt>>, inner: Txt, n: int)
    ensures
        children_upto(entries, inner, n).no_duplicates(),
        forall|i: int|
            0 <= i < children_upto(entries, inner, n).len() ==> (#[trigger] children_upto(
                entries,
                inner,
                n,
            )[i]).len() > 0 && !children_upto(entries, inner, n)[i].contains('/'),
    decreases n,
{
    if n > 0 {
        lemma_children_upto(entries, inner, n - 1);
        match below(entries[n - 1].path, inner) {
            Some(rest) => {
                lemma_first_end(rest, 0);
            },
            None => {},
        }
    }
}

proof fn lemma_first_end(s: Txt, from: int)
    requires
        0 <= from <= s.len(),
    ensures
        from <= first_end(s, from) <= s.len(),
        forall|i: int| from <= i < first_end(s, from) ==> s[i] != '/',
    decreases s.len() - from,
{
    if from < s.len() && s[from] != '/' {
        lemma_first_end(s, from + 1);
    }
}

/// `std::str::from_utf8`: the text of bytes that are UTF-8, and nothing for others.
#[verifier::external_body]
fn utf8_text(bytes: &[u8]) -> (s: Option<String>)
    ensures
        match s {
            Some(t) => vstd::utf8::valid_utf8(bytes@) && t@ == vstd::utf8::decode_utf8(bytes@),
            None => !vstd::utf8::valid_utf8(bytes@),
        },
{
    match std::str::from_utf8(bytes) {
        Ok(s) => Some(s.to_owned()),
        Err(_) => None,
    }
}

/// What the raw name of an entry reads as: UTF-8 where it is, else Shift_JIS.
pub open spec fn name_text(raw: Seq<u8>) -> Txt {
    if vstd::utf8::valid_utf8(raw) {
        vstd::utf8::decode_utf8(raw)
    } else {
        viewer::decoded(Encoding::ShiftJis, raw)
    }
}

/// What the raw name of an entry reads as.
pub fn decode_name(raw: &Vec<u8>) -> (name: String)
    ensures
        name@ == name_text(raw@),
{
    match utf8_text(raw.as_slice()) {
        Some(name) => name,
        None => Encoding::ShiftJis.decode(raw.as_slice()),
    }
}

/// `acc` with the components of `s` from position `from` on behind it. Empty components are
/// left out.
pub open spec fn joined_from(acc: Txt, s: Txt, from: int) -> Txt
    decreases s.len() + 1 - from,
{
    if from < 0 || from >= s.len() {
        acc
    } else {
        let end = winpath::component_end(s, from);
        if end < from || end > s.len() {
            acc
        } else if end == from {
            joined_from(acc, s, end + 1)
        } else {
            joined_from(inner_join(acc, s.subrange(from, end)), s, end + 1)
        }
    }
}

/// A name with its components separated by single slashes, and none at either end.
pub open spec fn normalized(s: Txt) -> Txt {
    joined_from(Seq::empty(), s, 0)
}

/// `s` with its components separated by single slashes, and none at either end.
pub fn normalize_inner(s: &str) -> (name: String)
    ensures
        name@ == normalized(s@),
{
    let chars = text::to_chars(s);
    let mut name = String::new();
    let mut from: usize = 0;
    while from < chars.len()
        invariant
            from <= chars.len(),
            chars@ == s@,
            joined_from(name@, s@, from as int) == normalized(s@),
        decreases chars.len() - from,
    {
        let mut end: usize = from;
        while end < chars.len() && !winpath::separator(chars[end])
            invariant
                from <= end <= chars.len(),
                chars@ == s@,
                winpath::component_end(s@, from as int) == winpath::component_end(s@, end as int),
            decreases chars.len() - end,
        {
            end += 1;
        }
        if end > from {
            let component = text::from_range(&chars, from, end);
            name = join_inner(name.as_str(), component.as_str());
        }
        assert(joined_from(name@, s@, end + 1) == normalized(s@));
        if end == chars.len() {
            from = end;
            assert(joined_from(name@, s@, end as int) == joined_from(name@, s@, end + 1));
        } else {
            from = end + 1;
        }
    }
    name
}

/// Whether the components of a name are separated by single slashes, with none at either end.
pub open spec fn is_normal(name: Txt) -> bool {
    forall|i: int|
        0 <= i < name.len() && winpath::is_separator(#[trigger] name[i]) ==> name[i] == '/' && 0 < i
            < name.len() - 1 && !winpath::is_separator(name[i + 1])
}

proof fn lemma_component(s: Txt, from: int)
    requires
        0 <= from <= s.len(),
    ensures
        from <= winpath::component_end(s, from) <= s.len(),
        forall|i: int|
            from <= i < winpath::component_end(s, from) ==> !winpath::is_separator(#[trigger] s[i]),
        winpath::component_end(s, from) < s.len() ==> winpath::is_separator(
            s[winpath::component_end(s, from)],
        ),
    decreases s.len() - from,
{
    if from < s.len() && !winpath::is_separator(s[from]) {
        lemma_component(s, from + 1);
    }
}

proof fn lemma_joined_is_normal(acc: Txt, s: Txt, from: int)
    requires
        0 <= from,
        is_normal(acc),
    ensures
        is_normal(joined_from(acc, s, from)),
    decreases s.len() + 1 - from,
{
    if from < s.len() {
        lemma_component(s, from);
        let end = winpath::component_end(s, from);
        if end == from {
            lemma_joined_is_normal(acc, s, end + 1);
        } else {
            let part = s.subrange(from, end);
            let next = inner_join(acc, part);
            assert forall|i: int| 0 <= i < part.len() implies !winpath::is_separator(
                #[trigger] part[i],
            ) by {
                assert(part[i] == s[from + i]);
            }
            assert forall|i: int|
                0 <= i < next.len() && winpath::is_separator(#[trigger] next[i]) implies next[i]
                == '/' && 0 < i < next.len() - 1 && !winpath::is_separator(next[i + 1]) by {
                if acc.len() == 0 {
                    assert(next[i] == part[i]);
                } else if i < acc.len() {
                    assert(next[i] == acc[i]);
                    assert(next[i + 1] == acc[i + 1]);
                } else if i > acc.len() {
                    assert(next[i] == part[i - acc.len() - 1]);
                } else {
                    assert(next[i + 1] == part[0]);
                }
            }
            lemma_joined_is_normal(next, s, end + 1);
        }
    }
}

/// What a name is normalised to is normal.
pub proof fn lemma_normalized_is_normal(s: Txt)
    ensures
        is_normal(normalized(s)),
{
    lemma_joined_is_normal(Seq::empty(), s, 0);
}

proof fn lemma_joined_again(name: Txt, s: Txt, from: int)
    requires
        is_normal(name),
        s == name || s == name.push('/'),
        0 <= from <= name.len(),
        from > 0 ==> from >= 2 && name[from - 1] == '/',
    ensures
        joined_from(
            if from == 0 {
                Seq::empty()
            } else {
                name.take(from - 1)
            },
            s,
            from,
        ) == name,
    decreases name.len() - from,
{
    reveal_with_fuel(joined_from, 3);
    let acc = if from == 0 {
        Seq::<char>::empty()
    } else {
        name.take(from - 1)
    };
    assert forall|i: int| 0 <= i < name.len() implies s[i] == name[i] by {}
    if from > 0 {
        assert(winpath::is_separator(name[from - 1]));
    }
    if from < name.len() {
        lemma_component(s, from);
        let end = winpath::component_end(s, from);
        if from == 0 {
            assert(!winpath::is_separator(name[0]));
        }
        assert(end > from);
        if end > name.len() {
            assert(s[name.len() as int] == '/');
        }
        assert(end <= name.len());
        assert(inner_join(acc, s.subrange(from, end)) =~= name.take(end));
        if end < name.len() {
            assert(winpath::is_separator(name[end]));
            lemma_joined_again(name, s, end + 1);
        } else {
            assert(name.take(end) =~= name);
        }
    } else {
        assert(name.len() == 0);
        if s.len() > 0 {
            lemma_component(s, 0);
            assert(winpath::component_end(s, 0) == 0);
        }
        assert(joined_from(acc, s, 0) =~= name);
    }
}

/// A normal name stays as it is, with a slash at its end or without.
pub proof fn lemma_normal_is_kept(name: Txt)
    requires
        is_normal(name),
    ensures
        normalized(name) == name,
        normalized(name.push('/')) == name,
{
    lemma_joined_again(name, name, 0);
    lemma_joined_again(name, name.push('/'), 0);
}

} // verus!
