//! Windows path text: prefixes, joining, parents, and the wide form that Win32 calls take.
//!
//! A path without a prefix of its own may hold at most `MAX_PATH` units, the closing NUL
//! among them. Longer paths are rewritten to the verbatim form (`\\?\`), which lifts the
//! limit; those that fit are passed on as they are, because a verbatim path is no longer
//! normalised.
//!
//! In a verbatim path only a backslash separates, and a `.` is a component like another. What is
//! joined to one is therefore normalised in doing so.

use crate::text;
use vstd::prelude::*;

verus! {

/// The separator that joined paths are written with.
pub const MAIN_SEPARATOR: char = '\\';

/// The limit that Win32 puts on a path without the verbatim prefix, closing NUL included.
pub const MAX_PATH: usize = 260;

/// What a path starts with.
#[derive(Clone, Copy, Debug, PartialEq, Eq, Structural)]
pub enum PrefixKind {
    /// No prefix: `foo\bar` or `\foo`.
    Plain,
    /// A drive: `C:`.
    Disk,
    /// A network share: `\\server\share`.
    Unc,
    /// The device namespace: `\\.\COM1`.
    Device,
    /// Any path that starts with `\\?\`.
    Verbatim,
}

/// The prefix of a path: its kind, and how many characters it takes.
#[derive(Clone, Copy, Debug, PartialEq, Eq, Structural)]
pub struct Prefix {
    pub kind: PrefixKind,
    pub len: usize,
}

/// Whether `c` separates path components.
pub open spec fn is_separator(c: char) -> bool {
    c == '\\' || c == '/'
}

/// Whether `c` separates path components.
pub fn separator(c: char) -> (yes: bool)
    ensures
        yes == is_separator(c),
{
    c == '\\' || c == '/'
}

/// Whether `c` is a drive letter.
pub open spec fn is_letter(c: char) -> bool {
    ('a' <= c && c <= 'z') || ('A' <= c && c <= 'Z')
}

/// The end of the component that starts at `from`: the next separator, or the end of the path.
pub open spec fn component_end(p: Seq<char>, from: int) -> int
    decreases p.len() - from,
{
    if 0 <= from < p.len() && !is_separator(p[from]) {
        component_end(p, from + 1)
    } else {
        from
    }
}

/// The end of two components that start at `from`, the second of which may be missing.
pub open spec fn second_end(p: Seq<char>, from: int) -> int {
    let first = component_end(p, from);
    if first < p.len() {
        component_end(p, first + 1)
    } else {
        first
    }
}

/// The end of the component of a verbatim path that starts at `from`: the next backslash, or the end
/// of the path.
pub open spec fn verbatim_end(p: Seq<char>, from: int) -> int
    decreases p.len() - from,
{
    if 0 <= from < p.len() && p[from] != '\\' {
        verbatim_end(p, from + 1)
    } else {
        from
    }
}

/// The end of the server and the share that a verbatim path names. A share that is empty does not
/// take part.
pub open spec fn verbatim_share_end(p: Seq<char>) -> int {
    let server = verbatim_end(p, 8);
    let share = verbatim_end(p, server + 1);
    if server < p.len() && share > server + 1 {
        share
    } else {
        server
    }
}

/// Whether `p` starts with two separators.
pub open spec fn starts_doubled(p: Seq<char>) -> bool {
    p.len() >= 2 && is_separator(p[0]) && is_separator(p[1])
}

/// Whether `p` is verbatim: it starts with `\\?\`, written with backslashes.
pub open spec fn starts_verbatim(p: Seq<char>) -> bool {
    p.len() >= 4 && p[0] == '\\' && p[1] == '\\' && p[2] == '?' && p[3] == '\\'
}

/// Whether `p` starts with `\\?\UNC\`.
pub open spec fn starts_verbatim_unc(p: Seq<char>) -> bool {
    starts_verbatim(p) && text::occurs_at(p, "UNC\\"@, 4)
}

/// Whether the verbatim path `p` names a drive, and nothing but a drive.
pub open spec fn names_verbatim_drive(p: Seq<char>) -> bool {
    &&& p.len() >= 6
    &&& is_letter(p[4]) && p[5] == ':'
    &&& p.len() == 6 || is_separator(p[6])
}

/// Whether `c` separates the components of the path `p`. In a verbatim path only a backslash does.
pub open spec fn separates(p: Seq<char>, c: char) -> bool {
    c == '\\' || (c == '/' && !starts_verbatim(p))
}

/// Whether `p` starts with `\\.\`.
pub open spec fn starts_device(p: Seq<char>) -> bool {
    starts_doubled(p) && p.len() >= 4 && p[2] == '.' && is_separator(p[3])
}

/// The prefix of a path.
pub open spec fn path_prefix(p: Seq<char>) -> (PrefixKind, int) {
    if starts_verbatim_unc(p) {
        (PrefixKind::Verbatim, verbatim_share_end(p))
    } else if starts_verbatim(p) && names_verbatim_drive(p) {
        (PrefixKind::Verbatim, 6)
    } else if starts_verbatim(p) {
        (PrefixKind::Verbatim, verbatim_end(p, 4))
    } else if starts_device(p) {
        (PrefixKind::Device, component_end(p, 4))
    } else if starts_doubled(p) {
        let server = component_end(p, 2);
        let share = second_end(p, 2);
        if server > 2 && share > server + 1 {
            (PrefixKind::Unc, share)
        } else {
            (PrefixKind::Plain, 0)
        }
    } else if p.len() >= 2 && is_letter(p[0]) && p[1] == ':' {
        (PrefixKind::Disk, 2)
    } else {
        (PrefixKind::Plain, 0)
    }
}

proof fn lemma_component_end(p: Seq<char>, from: int)
    requires
        0 <= from <= p.len(),
    ensures
        from <= component_end(p, from) <= p.len(),
        component_end(p, from) < p.len() ==> is_separator(p[component_end(p, from)]),
    decreases p.len() - from,
{
    if from < p.len() && !is_separator(p[from]) {
        lemma_component_end(p, from + 1);
    }
}

proof fn lemma_verbatim_end(p: Seq<char>, from: int)
    requires
        0 <= from <= p.len(),
    ensures
        from <= verbatim_end(p, from) <= p.len(),
        verbatim_end(p, from) < p.len() ==> p[verbatim_end(p, from)] == '\\',
        forall|i: int| from <= i < verbatim_end(p, from) ==> p[i] != '\\',
    decreases p.len() - from,
{
    if from < p.len() && p[from] != '\\' {
        lemma_verbatim_end(p, from + 1);
    }
}

proof fn lemma_verbatim_end_is(p: Seq<char>, from: int, end: int)
    requires
        0 <= from <= end <= p.len(),
        forall|i: int| from <= i < end ==> p[i] != '\\',
        end < p.len() ==> p[end] == '\\',
    ensures
        verbatim_end(p, from) == end,
    decreases end - from,
{
    if from < end {
        lemma_verbatim_end_is(p, from + 1, end);
    }
}

/// The prefix of a path lies inside it.
pub proof fn lemma_prefix_bounds(p: Seq<char>)
    ensures
        0 <= path_prefix(p).1 <= p.len(),
{
    reveal_strlit("UNC\\");
    if starts_doubled(p) {
        lemma_component_end(p, 2);
        let server = component_end(p, 2);
        if server < p.len() {
            lemma_component_end(p, server + 1);
        }
    }
    if p.len() >= 4 {
        lemma_component_end(p, 4);
        lemma_verbatim_end(p, 4);
    }
    if starts_verbatim_unc(p) {
        lemma_verbatim_end(p, 8);
        let server = verbatim_end(p, 8);
        if server < p.len() {
            lemma_verbatim_end(p, server + 1);
        }
    }
}

fn find_component_end(p: &Vec<char>, from: usize) -> (end: usize)
    requires
        from <= p.len(),
    ensures
        end == component_end(p@, from as int),
        from <= end <= p.len(),
{
    let mut i: usize = from;
    while i < p.len() && !separator(p[i])
        invariant
            from <= i <= p.len(),
            component_end(p@, from as int) == component_end(p@, i as int),
        decreases p.len() - i,
    {
        i += 1;
    }
    i
}

fn find_verbatim_end(p: &Vec<char>, from: usize) -> (end: usize)
    requires
        from <= p.len(),
    ensures
        end == verbatim_end(p@, from as int),
        from <= end <= p.len(),
{
    let mut i: usize = from;
    while i < p.len() && p[i] != '\\'
        invariant
            from <= i <= p.len(),
            verbatim_end(p@, from as int) == verbatim_end(p@, i as int),
        decreases p.len() - i,
    {
        i += 1;
    }
    i
}

/// The prefix of a verbatim path.
fn verbatim_prefix(p: &Vec<char>) -> (prefix: Prefix)
    requires
        starts_verbatim(p@),
    ensures
        (prefix.kind, prefix.len as int) == path_prefix(p@),
        prefix.len <= p.len(),
{
    proof {
        reveal_strlit("UNC\\");
    }
    let kind = PrefixKind::Verbatim;
    let unc = text::to_chars("UNC\\");
    if text::matches_at(p, &unc, 4) {
        let server = find_verbatim_end(p, 8);
        if server < p.len() {
            let share = find_verbatim_end(p, server + 1);
            if share > server + 1 {
                return Prefix { kind, len: share };
            }
        }
        return Prefix { kind, len: server };
    }
    if p.len() >= 6 && is_drive_letter(p[4]) && p[5] == ':' && (p.len() == 6 || separator(p[6])) {
        return Prefix { kind, len: 6 };
    }
    Prefix { kind, len: find_verbatim_end(p, 4) }
}

fn find_second_end(p: &Vec<char>, from: usize) -> (end: usize)
    requires
        from <= p.len(),
    ensures
        end == second_end(p@, from as int),
        from <= end <= p.len(),
{
    let first = find_component_end(p, from);
    if first < p.len() {
        find_component_end(p, first + 1)
    } else {
        first
    }
}

/// The prefix of a path given as characters.
pub fn prefix_of(p: &Vec<char>) -> (prefix: Prefix)
    ensures
        (prefix.kind, prefix.len as int) == path_prefix(p@),
        prefix.len <= p.len(),
{
    let doubled = p.len() >= 2 && separator(p[0]) && separator(p[1]);
    let verbatim = p.len() >= 4 && p[0] == '\\' && p[1] == '\\' && p[2] == '?' && p[3] == '\\';
    if verbatim {
        return verbatim_prefix(p);
    }
    if doubled && p.len() >= 4 && p[2] == '.' && separator(p[3]) {
        return Prefix { kind: PrefixKind::Device, len: find_component_end(p, 4) };
    }
    if doubled {
        let server = find_component_end(p, 2);
        let share = find_second_end(p, 2);
        if server > 2 && share > server && share - server > 1 {
            return Prefix { kind: PrefixKind::Unc, len: share };
        }
        return Prefix { kind: PrefixKind::Plain, len: 0 };
    }
    if p.len() >= 2 && is_drive_letter(p[0]) && p[1] == ':' {
        return Prefix { kind: PrefixKind::Disk, len: 2 };
    }
    Prefix { kind: PrefixKind::Plain, len: 0 }
}

fn is_drive_letter(c: char) -> (yes: bool)
    ensures
        yes == is_letter(c),
{
    ('a' <= c && c <= 'z') || ('A' <= c && c <= 'Z')
}

/// How much of a path belongs to its root: the prefix and the separator behind it.
pub open spec fn root_len(p: Seq<char>) -> int {
    let n = path_prefix(p).1;
    if n < p.len() && is_separator(p[n]) {
        n + 1
    } else {
        n
    }
}

/// Whether a path has a root: a separator behind its prefix, or a prefix that implies one.
pub open spec fn has_root(p: Seq<char>) -> bool {
    let (kind, n) = path_prefix(p);
    kind == PrefixKind::Unc || kind == PrefixKind::Device || kind == PrefixKind::Verbatim || (n
        < p.len() && is_separator(p[n]))
}

/// Where a path ends once trailing separators and trailing `.` components are left out. A verbatim
/// path keeps the latter.
pub open spec fn trimmed_end(p: Seq<char>, end: int) -> int
    decreases end,
{
    let root = root_len(p);
    if end <= root || end > p.len() || end <= 0 {
        end
    } else if separates(p, p[end - 1]) {
        trimmed_end(p, end - 1)
    } else if !starts_verbatim(p) && p[end - 1] == '.' && (if end - 1 > root {
        is_separator(p[end - 2])
    } else {
        has_root(p)
    }) {
        trimmed_end(p, end - 1)
    } else {
        end
    }
}

/// Where the component that ends at `end` starts.
pub open spec fn last_start(p: Seq<char>, end: int) -> int
    decreases end,
{
    if end <= root_len(p) || end > p.len() || end <= 0 || separates(p, p[end - 1]) {
        end
    } else {
        last_start(p, end - 1)
    }
}

/// Trimming and looking for the last component stay inside the path.
pub proof fn lemma_tail_bounds(p: Seq<char>, end: int)
    requires
        0 <= end <= p.len(),
    ensures
        0 <= trimmed_end(p, end) <= end,
        0 <= last_start(p, end) <= end,
    decreases end,
{
    lemma_prefix_bounds(p);
    if end > 0 {
        lemma_tail_bounds(p, end - 1);
    }
}

/// The last component of a path, if there is one behind the root.
pub open spec fn last_component(p: Seq<char>) -> Option<Seq<char>> {
    let end = trimmed_end(p, p.len() as int);
    let start = last_start(p, end);
    if start < end {
        Some(p.subrange(start, end))
    } else {
        None
    }
}

/// The name of the file that a path denotes: its last component, unless that is `.` or `..`.
pub open spec fn path_file_name(p: Seq<char>) -> Option<Seq<char>> {
    match last_component(p) {
        Some(name) => if name == seq!['.'] || name == seq!['.', '.'] {
            None
        } else {
            Some(name)
        },
        None => None,
    }
}

/// A path without its last component.
pub open spec fn path_parent(p: Seq<char>) -> Option<Seq<char>> {
    match last_component(p) {
        Some(name) => {
            let start = last_start(p, trimmed_end(p, p.len() as int));
            Some(p.take(trimmed_end(p, start)))
        },
        None => None,
    }
}

/// The components of a path behind its root, as far as they end before `end`. Empty ones are
/// none, nor is `.`, unless the path starts with it or is verbatim.
pub open spec fn parts_to(p: Seq<char>, end: int) -> Seq<Seq<char>>
    decreases end,
{
    let stop = trimmed_end(p, end);
    let start = last_start(p, stop);
    if 0 <= start < stop <= end {
        parts_to(p, start).push(p.subrange(start, stop))
    } else {
        Seq::empty()
    }
}

/// The separator that stands behind the prefix of a path, if there is one.
pub open spec fn has_separator_behind(p: Seq<char>) -> bool {
    root_len(p) > path_prefix(p).1
}

/// Where a step leads from components: `.` stays, `..` goes up where there is something to leave,
/// and anything else goes down.
pub open spec fn stepped(parts: Seq<Seq<char>>, step: Seq<char>) -> Seq<Seq<char>> {
    if step == seq!['.'] {
        parts
    } else if step == seq!['.', '.'] {
        if parts.len() > 0 && parts.last() != seq!['.'] && parts.last() != seq!['.', '.'] {
            parts.drop_last()
        } else {
            parts
        }
    } else {
        parts.push(step)
    }
}

/// Where steps lead from components, one after the other.
pub open spec fn walked(parts: Seq<Seq<char>>, steps: Seq<Seq<char>>) -> Seq<Seq<char>>
    decreases steps.len(),
{
    if steps.len() == 0 {
        parts
    } else {
        stepped(walked(parts, steps.drop_last()), steps.last())
    }
}

/// Components with a backslash before each.
pub open spec fn trail(parts: Seq<Seq<char>>) -> Seq<char>
    decreases parts.len(),
{
    if parts.len() == 0 {
        Seq::empty()
    } else {
        trail(parts.drop_last()).push(MAIN_SEPARATOR) + parts.last()
    }
}

/// The path of components behind a prefix.
pub open spec fn written(prefix: Seq<char>, rooted: bool, parts: Seq<Seq<char>>) -> Seq<char> {
    if rooted && parts.len() == 0 {
        prefix.push(MAIN_SEPARATOR)
    } else {
        prefix + trail(parts)
    }
}

/// A path as it is written once something is joined to it: a verbatim path without empty
/// components, any other path as it is.
pub open spec fn tidied(p: Seq<char>) -> Seq<char> {
    if starts_verbatim(p) {
        written(
            p.take(path_prefix(p).1),
            has_separator_behind(p),
            parts_to(p, p.len() as int),
        )
    } else {
        p
    }
}

/// The verbatim path `dir` with `name` behind it. The components are walked through.
pub open spec fn verbatim_join(dir: Seq<char>, name: Seq<char>) -> Seq<char> {
    let prefix = dir.take(path_prefix(dir).1);
    let steps = parts_to(name, name.len() as int);
    if has_root(name) {
        written(prefix, true, walked(Seq::empty(), steps))
    } else {
        written(
            prefix,
            has_separator_behind(dir),
            walked(parts_to(dir, dir.len() as int), steps),
        )
    }
}

/// `dir` with `name` behind it. A `name` that has a prefix replaces `dir`; one that only has
/// a root keeps the prefix of `dir`. A verbatim path is normalised.
pub open spec fn path_join(dir: Seq<char>, name: Seq<char>) -> Seq<char> {
    if path_prefix(name).0 != PrefixKind::Plain {
        name
    } else if starts_verbatim(dir) && name.len() > 0 {
        verbatim_join(dir, name)
    } else if has_root(name) {
        dir.take(path_prefix(dir).1) + name
    } else if dir.len() == 0 || is_separator(dir.last()) || path_prefix(dir) == (
        PrefixKind::Disk,
        dir.len() as int,
    ) {
        dir + name
    } else {
        dir.push(MAIN_SEPARATOR) + name
    }
}

/// The path of `name` in the directory of `p`.
pub open spec fn path_with_file_name(p: Seq<char>, name: Seq<char>) -> Seq<char> {
    if path_file_name(p) is Some {
        path_join(path_parent(p)->0, name)
    } else {
        path_join(p, name)
    }
}

fn root_of(p: &Vec<char>) -> (n: usize)
    ensures
        n == root_len(p@),
        n <= p.len(),
{
    let prefix = prefix_of(p);
    if prefix.len < p.len() && separator(p[prefix.len]) {
        prefix.len + 1
    } else {
        prefix.len
    }
}

fn rooted(p: &Vec<char>) -> (yes: bool)
    ensures
        yes == has_root(p@),
{
    let prefix = prefix_of(p);
    match prefix.kind {
        PrefixKind::Unc | PrefixKind::Device | PrefixKind::Verbatim => true,
        _ => prefix.len < p.len() && separator(p[prefix.len]),
    }
}

/// Whether a path is verbatim.
fn is_verbatim(p: &Vec<char>) -> (yes: bool)
    ensures
        yes == starts_verbatim(p@),
{
    p.len() >= 4 && p[0] == '\\' && p[1] == '\\' && p[2] == '?' && p[3] == '\\'
}

/// Whether `c` separates the components of a path.
fn separates_in(verbatim: bool, c: char) -> (yes: bool)
    ensures
        yes == (c == '\\' || (c == '/' && !verbatim)),
{
    c == '\\' || (c == '/' && !verbatim)
}

/// Whether the character before `end` is a trailing separator, or a trailing `.` component that is
/// left out.
fn droppable(p: &Vec<char>, root: usize, with_root: bool, verbatim: bool, end: usize) -> (yes: bool)
    requires
        root < end <= p.len(),
        verbatim == starts_verbatim(p@),
    ensures
        yes == (separates(p@, p@[end - 1]) || (!verbatim && p@[end - 1] == '.' && (if end - 1
            > root {
            is_separator(p@[end - 2])
        } else {
            with_root
        }))),
{
    if separates_in(verbatim, p[end - 1]) {
        true
    } else if verbatim || p[end - 1] != '.' {
        false
    } else if end - 1 > root {
        separator(p[end - 2])
    } else {
        with_root
    }
}

fn trim_end(p: &Vec<char>, from: usize) -> (end: usize)
    requires
        from <= p.len(),
    ensures
        end == trimmed_end(p@, from as int),
        end <= from,
{
    let root = root_of(p);
    let with_root = rooted(p);
    let verbatim = is_verbatim(p);
    let mut end: usize = from;
    while end > root && droppable(p, root, with_root, verbatim, end)
        invariant
            end <= from <= p.len(),
            root == root_len(p@),
            with_root == has_root(p@),
            verbatim == starts_verbatim(p@),
            trimmed_end(p@, from as int) == trimmed_end(p@, end as int),
        decreases end,
    {
        end -= 1;
    }
    end
}

fn find_last_start(p: &Vec<char>, end: usize) -> (start: usize)
    requires
        end <= p.len(),
    ensures
        start == last_start(p@, end as int),
        start <= end,
{
    let root = root_of(p);
    let verbatim = is_verbatim(p);
    let mut start: usize = end;
    while start > root && !separates_in(verbatim, p[start - 1])
        invariant
            start <= end <= p.len(),
            root == root_len(p@),
            verbatim == starts_verbatim(p@),
            last_start(p@, end as int) == last_start(p@, start as int),
        decreases start,
    {
        start -= 1;
    }
    start
}

fn is_dots(p: &Vec<char>, start: usize, end: usize) -> (yes: bool)
    requires
        start < end <= p.len(),
    ensures
        yes == (p@.subrange(start as int, end as int) == seq!['.'] || p@.subrange(
            start as int,
            end as int,
        ) == seq!['.', '.']),
{
    let ghost name = p@.subrange(start as int, end as int);
    assert(name == seq!['.'] ==> name.len() == 1 && name[0] == '.');
    assert(name == seq!['.', '.'] ==> name.len() == 2 && name[0] == '.' && name[1] == '.');
    if end - start == 1 {
        assert(name[0] == '.' ==> name =~= seq!['.']);
        p[start] == '.'
    } else if end - start == 2 {
        assert(name[0] == '.' && name[1] == '.' ==> name =~= seq!['.', '.']);
        p[start] == '.' && p[start + 1] == '.'
    } else {
        false
    }
}

/// The name of the file that `path` denotes.
pub fn file_name(path: &str) -> (name: Option<String>)
    ensures
        name.deep_view() == path_file_name(path@),
{
    let p = text::to_chars(path);
    let end = trim_end(&p, p.len());
    let start = find_last_start(&p, end);
    if start < end && !is_dots(&p, start, end) {
        Some(text::from_range(&p, start, end))
    } else {
        None
    }
}

/// The name of the file that `path` denotes, or an empty string.
pub fn display_name(path: &str) -> (name: String)
    ensures
        name@ == path_display_name(path@),
{
    match file_name(path) {
        Some(name) => name,
        None => String::new(),
    }
}

/// The name of the file that a path denotes, or an empty text.
pub open spec fn path_display_name(p: Seq<char>) -> Seq<char> {
    match path_file_name(p) {
        Some(name) => name,
        None => Seq::empty(),
    }
}

/// `path` without its last component.
pub fn parent(path: &str) -> (dir: Option<String>)
    ensures
        dir.deep_view() == path_parent(path@),
{
    let p = text::to_chars(path);
    let end = trim_end(&p, p.len());
    let start = find_last_start(&p, end);
    if start < end {
        let cut = trim_end(&p, start);
        let dir = text::from_range(&p, 0, cut);
        assert(dir@ =~= path@.take(cut as int));
        Some(dir)
    } else {
        None
    }
}

/// The components of a path behind its root, as far as they end before `end`.
fn parts_before(p: &Vec<char>, end: usize) -> (parts: Vec<String>)
    requires
        end <= p.len(),
    ensures
        parts.deep_view() == parts_to(p@, end as int),
    decreases end,
{
    let stop = trim_end(p, end);
    let start = find_last_start(p, stop);
    if start < stop {
        let mut parts = parts_before(p, start);
        let ghost before = parts.deep_view();
        let part = text::from_range(p, start, stop);
        parts.push(part);
        assert(parts.deep_view() =~= before.push(part@));
        parts
    } else {
        let parts: Vec<String> = Vec::new();
        assert(parts.deep_view() =~= Seq::<Seq<char>>::empty());
        parts
    }
}

/// Whether a component stays, or goes up.
fn dots_of(part: &str) -> (dots: usize)
    ensures
        part@ == seq!['.'] <==> dots == 1,
        part@ == seq!['.', '.'] <==> dots == 2,
        dots <= 2,
{
    let c = text::to_chars(part);
    assert(part@ == seq!['.'] ==> part@.len() == 1 && part@[0] == '.');
    assert(part@ == seq!['.', '.'] ==> part@.len() == 2 && part@[0] == '.' && part@[1] == '.');
    if c.len() == 1 && c[0] == '.' {
        assert(part@ =~= seq!['.']);
        1
    } else if c.len() == 2 && c[0] == '.' && c[1] == '.' {
        assert(part@ =~= seq!['.', '.']);
        2
    } else {
        0
    }
}

/// Goes one step on from components.
fn step(parts: &mut Vec<String>, next: &str)
    ensures
        final(parts).deep_view() == stepped(old(parts).deep_view(), next@),
{
    let ghost before = parts.deep_view();
    let dots = dots_of(next);
    if dots == 1 {
        return ;
    }
    if dots == 2 {
        if parts.len() > 0 {
            let last = parts.len() - 1;
            assert(before.last() == parts@[last as int]@);
            if dots_of(parts[last].as_str()) == 0 {
                let _ = parts.pop();
                assert(parts.deep_view() =~= before.drop_last());
            }
        }
        return ;
    }
    parts.push(text::copy(next));
    assert(parts.deep_view() =~= before.push(next@));
}

/// The verbatim path `dir` with `name` behind it.
fn join_verbatim(d: &Vec<char>, n: &Vec<char>) -> (path: String)
    ensures
        path@ == verbatim_join(d@, n@),
{
    let prefix = prefix_of(d);
    let steps = parts_before(n, n.len());
    let from_root = rooted(n);
    let mut parts: Vec<String> = if from_root {
        Vec::new()
    } else {
        parts_before(d, d.len())
    };
    let with_root = from_root || root_of(d) > prefix.len;
    let ghost first = parts.deep_view();
    let ghost all = steps.deep_view();
    proof {
        if from_root {
            assert(first =~= Seq::<Seq<char>>::empty());
        }
        assert(all.take(0) =~= Seq::<Seq<char>>::empty());
    }
    let mut i: usize = 0;
    while i < steps.len()
        invariant
            i <= steps.len(),
            all == steps.deep_view(),
            parts.deep_view() == walked(first, all.take(i as int)),
        decreases steps.len() - i,
    {
        assert(all[i as int] == steps@[i as int]@);
        step(&mut parts, steps[i].as_str());
        i += 1;
        assert(all.take(i as int).drop_last() =~= all.take(i - 1));
    }
    assert(all.take(all.len() as int) =~= all);
    let mut path = text::from_range(d, 0, prefix.len);
    assert(path@ =~= d@.take(prefix.len as int));
    if with_root && parts.len() == 0 {
        path.push('\\');
        return path;
    }
    let ghost head = path@;
    let ghost whole = parts.deep_view();
    let mut k: usize = 0;
    assert(whole.take(0) =~= Seq::<Seq<char>>::empty());
    assert(path@ =~= head + trail(whole.take(0)));
    while k < parts.len()
        invariant
            k <= parts.len(),
            whole == parts.deep_view(),
            path@ == head + trail(whole.take(k as int)),
        decreases parts.len() - k,
    {
        assert(whole[k as int] == parts@[k as int]@);
        path.push('\\');
        path.append(parts[k].as_str());
        k += 1;
        assert(whole.take(k as int).drop_last() =~= whole.take(k - 1));
        assert(path@ =~= head + trail(whole.take(k as int)));
    }
    assert(whole.take(whole.len() as int) =~= whole);
    path
}

/// `dir` with `name` behind it.
pub fn join(dir: &str, name: &str) -> (path: String)
    ensures
        path@ == path_join(dir@, name@),
{
    let d = text::to_chars(dir);
    let n = text::to_chars(name);
    let prefix = prefix_of(&n);
    if prefix.kind != PrefixKind::Plain {
        return text::copy(name);
    }
    if is_verbatim(&d) && n.len() > 0 {
        return join_verbatim(&d, &n);
    }
    let own = prefix_of(&d);
    if rooted(&n) {
        let mut path = text::from_range(&d, 0, own.len);
        path.append(name);
        assert(path@ =~= dir@.take(own.len as int) + name@);
        return path;
    }
    let mut path = text::copy(dir);
    let bare = d.len() == 0 || separator(d[d.len() - 1]) || (own.kind == PrefixKind::Disk
        && own.len == d.len());
    if !bare {
        path.push('\\');
    }
    path.append(name);
    path
}

/// The path of `name` in the directory that holds `path`.
pub fn with_file_name(path: &str, name: &str) -> (renamed: String)
    ensures
        renamed@ == path_with_file_name(path@, name@),
{
    match (file_name(path), parent(path)) {
        (Some(_), Some(dir)) => join(dir.as_str(), name),
        _ => join(path, name),
    }
}

/// A letter in upper case.
pub open spec fn upper(c: char) -> char {
    if 'a' <= c <= 'z' {
        (c as u32 - 32) as char
    } else {
        c
    }
}

/// A letter in upper case.
pub fn to_upper(c: char) -> (u: char)
    ensures
        u == upper(c),
{
    if 'a' <= c && c <= 'z' {
        let n: u32 = c as u32 - 32;
        (n as u8) as char
    } else {
        c
    }
}

/// Whether two characters of two prefixes say the same. The case of a drive does not matter, nor
/// which separator is written, but for verbatim paths.
pub open spec fn is_same_mark(a: char, b: char, drive: bool, verbatim: bool) -> bool {
    a == b || (!verbatim && is_separator(a) && is_separator(b)) || (drive && upper(a) == upper(b))
}

/// Whether two paths have the same prefix.
pub open spec fn is_same_prefix(a: Seq<char>, b: Seq<char>) -> bool {
    let n = path_prefix(a).1;
    &&& path_prefix(a) == path_prefix(b)
    &&& forall|i: int|
        0 <= i < n ==> is_same_mark(
            #[trigger] a[i],
            b[i],
            path_prefix(a).0 == PrefixKind::Disk || (path_prefix(a).0 == PrefixKind::Verbatim && n
                == 6 && a[5] == ':'),
            path_prefix(a).0 == PrefixKind::Verbatim,
        )
}

/// Whether the root of a path is one of its components: a separator behind its prefix, or one that
/// the prefix implies. A verbatim prefix implies none.
pub open spec fn shows_root(p: Seq<char>) -> bool {
    let kind = path_prefix(p).0;
    kind == PrefixKind::Unc || kind == PrefixKind::Device || has_separator_behind(p)
}

/// Whether the root of a path is one of its components.
fn root_shown(p: &Vec<char>) -> (yes: bool)
    ensures
        yes == shows_root(p@),
{
    let prefix = prefix_of(p);
    match prefix.kind {
        PrefixKind::Unc | PrefixKind::Device => true,
        _ => root_of(p) > prefix.len,
    }
}

/// Whether two paths are the same, component by component.
pub open spec fn is_same_path(a: Seq<char>, b: Seq<char>) -> bool {
    &&& is_same_prefix(a, b)
    &&& shows_root(a) == shows_root(b)
    &&& parts_to(a, a.len() as int) == parts_to(b, b.len() as int)
}

fn same_prefix(a: &Vec<char>, b: &Vec<char>) -> (same: bool)
    ensures
        same == is_same_prefix(a@, b@),
{
    let own = prefix_of(a);
    let other = prefix_of(b);
    if own.kind != other.kind || own.len != other.len {
        return false;
    }
    let drive = match own.kind {
        PrefixKind::Disk => true,
        PrefixKind::Verbatim => own.len == 6 && a[5] == ':',
        _ => false,
    };
    let verbatim = own.kind == PrefixKind::Verbatim;
    let mut i: usize = 0;
    while i < own.len
        invariant
            i <= own.len <= a.len(),
            own.len <= b.len(),
            path_prefix(a@) == (own.kind, own.len as int),
            path_prefix(a@) == path_prefix(b@),
            drive == (own.kind == PrefixKind::Disk || (own.kind == PrefixKind::Verbatim && own.len
                == 6 && a@[5] == ':')),
            verbatim == (own.kind == PrefixKind::Verbatim),
            forall|j: int| 0 <= j < i ==> is_same_mark(#[trigger] a@[j], b@[j], drive, verbatim),
        decreases own.len - i,
    {
        let same = a[i] == b[i] || (!verbatim && separator(a[i]) && separator(b[i])) || (drive
            && to_upper(a[i]) == to_upper(b[i]));
        if !same {
            assert(!is_same_mark(a@[i as int], b@[i as int], drive, verbatim));
            return false;
        }
        i += 1;
    }
    true
}

fn same_range(a: &Vec<char>, b: &Vec<char>, from_a: usize, from_b: usize, n: usize) -> (same: bool)
    requires
        from_a + n <= a.len(),
        from_b + n <= b.len(),
    ensures
        same == (a@.subrange(from_a as int, from_a + n) == b@.subrange(from_b as int, from_b + n)),
{
    let ghost x = a@.subrange(from_a as int, from_a + n);
    let ghost y = b@.subrange(from_b as int, from_b + n);
    let mut i: usize = 0;
    while i < n
        invariant
            i <= n,
            from_a + n <= a.len(),
            from_b + n <= b.len(),
            x == a@.subrange(from_a as int, from_a + n),
            y == b@.subrange(from_b as int, from_b + n),
            forall|j: int| 0 <= j < i ==> x[j] == y[j],
        decreases n - i,
    {
        if a[from_a + i] != b[from_b + i] {
            assert(x[i as int] != y[i as int]);
            return false;
        }
        i += 1;
    }
    assert(x =~= y);
    true
}

fn same_parts(a: &Vec<char>, b: &Vec<char>, end_a: usize, end_b: usize) -> (same: bool)
    requires
        end_a <= a.len(),
        end_b <= b.len(),
    ensures
        same == (parts_to(a@, end_a as int) == parts_to(b@, end_b as int)),
    decreases end_a,
{
    let stop_a = trim_end(a, end_a);
    let stop_b = trim_end(b, end_b);
    let start_a = find_last_start(a, stop_a);
    let start_b = find_last_start(b, stop_b);
    let ghost all_a = parts_to(a@, end_a as int);
    let ghost all_b = parts_to(b@, end_b as int);
    assert(all_a.len() == 0 <==> start_a == stop_a);
    assert(all_b.len() == 0 <==> start_b == stop_b);
    if start_a == stop_a || start_b == stop_b {
        assert(start_a == stop_a && start_b == stop_b ==> all_a =~= all_b);
        return start_a == stop_a && start_b == stop_b;
    }
    assert(all_a.drop_last() =~= parts_to(a@, start_a as int));
    assert(all_b.drop_last() =~= parts_to(b@, start_b as int));
    if stop_a - start_a != stop_b - start_b {
        assert(all_a.last().len() != all_b.last().len());
        return false;
    }
    if !same_range(a, b, start_a, start_b, stop_a - start_a) {
        assert(all_a.last() != all_b.last());
        return false;
    }
    assert(all_a.last() == all_b.last());
    let same = same_parts(a, b, start_a, start_b);
    proof {
        if same {
            assert(all_a =~= all_b);
        }
    }
    same
}

/// Whether two paths are the same, component by component.
pub fn same(a: &str, b: &str) -> (yes: bool)
    ensures
        yes == is_same_path(a@, b@),
{
    let x = text::to_chars(a);
    let y = text::to_chars(b);
    same_prefix(&x, &y) && root_shown(&x) == root_shown(&y) && same_parts(&x, &y, x.len(), y.len())
}

/// Being the same path is an equivalence.
pub proof fn law_same_path_is_an_equivalence(a: Seq<char>, b: Seq<char>, c: Seq<char>)
    ensures
        is_same_path(a, a),
        is_same_path(a, b) == is_same_path(b, a),
        is_same_path(a, b) && is_same_path(b, c) ==> is_same_path(a, c),
{
}

proof fn lemma_component_end_is_kept(p: Seq<char>, s: Seq<char>, from: int)
    requires
        0 <= from <= p.len(),
        component_end(p, from) < p.len(),
    ensures
        component_end(p + s, from) == component_end(p, from),
    decreases p.len() - from,
{
    assert((p + s)[from] == p[from]);
    if !is_separator(p[from]) {
        lemma_component_end_is_kept(p, s, from + 1);
    }
}

/// Whether a verbatim path ends where the share would start: what is written behind it becomes a part
/// of its prefix.
pub open spec fn leaves_share_open(p: Seq<char>) -> bool {
    starts_verbatim_unc(p) && verbatim_end(p, 8) + 1 == p.len()
}

proof fn lemma_verbatim_prefix_is_kept(p: Seq<char>, s: Seq<char>)
    requires
        starts_verbatim(p),
        path_prefix(p).1 < p.len(),
        !leaves_share_open(p),
    ensures
        path_prefix(p + s) == path_prefix(p),
{
    let q = p + s;
    reveal_strlit("UNC\\");
    assert forall|i: int| 0 <= i < p.len() implies q[i] == p[i] by {}
    assert(starts_verbatim(q));
    if starts_verbatim_unc(p) {
        assert(q.subrange(4, 8) =~= p.subrange(4, 8));
        lemma_verbatim_end(p, 8);
        let server = verbatim_end(p, 8);
        lemma_verbatim_end_is(q, 8, server);
        lemma_verbatim_end(p, server + 1);
        lemma_verbatim_end_is(q, server + 1, verbatim_end(p, server + 1));
    } else {
        if starts_verbatim_unc(q) {
            let head = q.subrange(4, 8);
            assert(head[0] == 'U' && head[1] == 'N' && head[2] == 'C');
            assert(q[4] == 'U' && q[5] == 'N' && q[6] == 'C');
            lemma_verbatim_end(p, 4);
            assert(verbatim_end(p, 4) >= 7);
            assert(p.subrange(4, 8) =~= head);
        }
        if !names_verbatim_drive(p) {
            lemma_verbatim_end(p, 4);
            lemma_verbatim_end_is(q, 4, verbatim_end(p, 4));
        }
    }
}

/// A path that goes on behind its prefix keeps the prefix, whatever is written behind it.
pub proof fn lemma_prefix_is_kept(p: Seq<char>, s: Seq<char>)
    requires
        path_prefix(p).0 != PrefixKind::Plain,
        path_prefix(p).1 < p.len(),
        !leaves_share_open(p),
    ensures
        path_prefix(p + s) == path_prefix(p),
        root_len(p + s) == root_len(p),
        has_root(p + s) == has_root(p),
        starts_verbatim(p + s) == starts_verbatim(p),
{
    let q = p + s;
    lemma_prefix_bounds(p);
    assert forall|i: int| 0 <= i < p.len() implies q[i] == p[i] by {}
    if starts_verbatim(p) {
        lemma_verbatim_prefix_is_kept(p, s);
    } else if starts_device(p) {
        lemma_component_end_is_kept(p, s, 4);
    } else if starts_doubled(p) {
        lemma_component_end(p, 2);
        let server = component_end(p, 2);
        lemma_component_end_is_kept(p, s, 2);
        lemma_component_end(p, server + 1);
        lemma_component_end_is_kept(p, s, server + 1);
        if starts_verbatim(q) || starts_device(q) {
            assert(server == 3) by {
                reveal_with_fuel(component_end, 3);
            }
        }
    }
}

/// Whether nothing is left out of a path at its end: it goes on behind its root, and ends neither
/// with a separator nor with a `.` component that is left out.
pub open spec fn ends_with_a_name(p: Seq<char>, end: int) -> bool {
    &&& root_len(p) < end <= p.len()
    &&& !separates(p, p[end - 1])
    &&& starts_verbatim(p) || !(p[end - 1] == '.' && (if end - 1 > root_len(p) {
        is_separator(p[end - 2])
    } else {
        has_root(p)
    }))
}

/// A name that a path can have behind a separator: it is not empty, does not stay or go up, and
/// holds no separator.
pub open spec fn is_plain_name(name: Seq<char>) -> bool {
    &&& name.len() > 0
    &&& name != seq!['.'] && name != seq!['.', '.']
    &&& forall|i: int| 0 <= i < name.len() ==> !is_separator(#[trigger] name[i])
}

proof fn lemma_last_start(p: Seq<char>, stop: int, end: int)
    requires
        root_len(p) <= stop <= end <= p.len(),
        0 <= stop,
        forall|i: int| stop <= i < end ==> !separates(p, #[trigger] p[i]),
        stop > root_len(p) ==> separates(p, p[stop - 1]),
    ensures
        last_start(p, end) == stop,
    decreases end - stop,
{
    if end > stop {
        assert(!separates(p, p[end - 1]));
        lemma_last_start(p, stop, end - 1);
    }
}

/// A name behind a path and a separator is the name of the file, and what stands before it is the
/// directory.
#[verifier::rlimit(40)]
pub proof fn lemma_name_behind(base: Seq<char>, name: Seq<char>)
    requires
        is_named(base),
        is_plain_name(name),
    ensures
        ({
            let p = base.push(MAIN_SEPARATOR) + name;
            &&& path_file_name(p) == Some(name)
            &&& path_parent(p) == Some(base)
            &&& path_prefix(p) == path_prefix(base)
            &&& is_named(p)
        }),
{
    let s = seq![MAIN_SEPARATOR] + name;
    let p = base.push(MAIN_SEPARATOR) + name;
    assert(p =~= base + s);
    let n = base.len() as int;
    let end = p.len() as int;
    assert(base[n - 1] != '\\');
    if leaves_share_open(base) {
        lemma_verbatim_end(base, 8);
        assert(base[verbatim_end(base, 8)] == '\\');
    }
    lemma_prefix_is_kept(base, s);
    assert(p[n] == MAIN_SEPARATOR);
    assert forall|i: int| n + 1 <= i < end implies !is_separator(#[trigger] p[i]) by {
        assert(p[i] == name[i - n - 1]);
    }
    if p[end - 1] == '.' && end - 2 == n {
        assert(name =~= seq!['.']);
    }
    assert(p[end - 1] == name[end - n - 2]);
    assert(ends_with_a_name(p, end));
    assert(trimmed_end(p, end) == end);
    assert forall|i: int| n + 1 <= i < end implies !separates(p, #[trigger] p[i]) by {
        assert(!is_separator(p[i]));
    }
    lemma_last_start(p, n + 1, end);
    assert(p.subrange(n + 1, end) =~= name);
    assert(p[n - 1] == base[n - 1]);
    if n >= 2 {
        assert(p[n - 2] == base[n - 2]);
    }
    assert(trimmed_end(p, n + 1) == trimmed_end(p, n));
    assert(trimmed_end(p, n) == n);
    assert(p.take(n) =~= base);
}

/// Whether a path is the root of a drive or a share: its prefix and a separator.
pub open spec fn is_root(p: Seq<char>) -> bool {
    &&& path_prefix(p).0 != PrefixKind::Plain
    &&& path_prefix(p).1 + 1 == p.len()
    &&& is_separator(p.last())
}

/// Whether a path is that of something on a drive or a share: it has a name behind its root.
pub open spec fn is_named(p: Seq<char>) -> bool {
    &&& path_prefix(p).0 != PrefixKind::Plain
    &&& path_prefix(p).1 < p.len()
    &&& ends_with_a_name(p, p.len() as int)
}

/// The prefix of a path with a separator behind it is the same prefix, whatever followed it.
pub proof fn lemma_prefix_of_a_root(p: Seq<char>)
    requires
        path_prefix(p).0 != PrefixKind::Plain,
        p != "\\\\?\\UNC"@,
    ensures
        0 <= path_prefix(p).1 <= p.len(),
        path_prefix(p.take(path_prefix(p).1).push(MAIN_SEPARATOR)) == path_prefix(p),
{
    let (kind, n) = path_prefix(p);
    let q = p.take(n).push(MAIN_SEPARATOR);
    lemma_prefix_bounds(p);
    reveal_strlit("UNC\\");
    assert forall|i: int| 0 <= i < n implies q[i] == p[i] by {}
    assert(q[n] == '\\');
    if starts_verbatim_unc(p) {
        lemma_verbatim_end(p, 8);
        let server = verbatim_end(p, 8);
        if server < p.len() {
            lemma_verbatim_end(p, server + 1);
        }
        assert(q.subrange(4, 8) =~= p.subrange(4, 8));
        lemma_verbatim_end_is(q, 8, server);
        if n > server {
            lemma_verbatim_end_is(q, server + 1, n);
        }
    } else if starts_verbatim(p) {
        lemma_verbatim_end(p, 4);
        if starts_verbatim_unc(q) {
            let head = q.subrange(4, 8);
            assert(head[0] == 'U' && head[1] == 'N' && head[2] == 'C');
            assert(q[4] == 'U' && q[5] == 'N' && q[6] == 'C');
            if n == 7 {
                if p.len() == 7 {
                    reveal_strlit("\\\\?\\UNC");
                    assert(p =~= "\\\\?\\UNC"@);
                } else {
                    assert(p.subrange(4, 8) =~= head);
                }
            } else {
                assert(p.subrange(4, 8) =~= head);
            }
        }
        if !names_verbatim_drive(p) {
            lemma_verbatim_end_is(q, 4, n);
        }
    } else if starts_device(p) {
        lemma_component_end(p, 4);
        lemma_component_end_is_cut(p, q, 4);
    } else if starts_doubled(p) {
        lemma_component_end(p, 2);
        let server = component_end(p, 2);
        lemma_component_end(p, server + 1);
        lemma_component_end_is_cut(p, q, 2);
        lemma_component_end_is_cut(p, q, server + 1);
    }
}

/// A component ends in a path that was cut off behind it and in the whole path at the same place.
proof fn lemma_component_end_is_cut(p: Seq<char>, q: Seq<char>, from: int)
    requires
        0 <= from <= component_end(p, from) < q.len(),
        component_end(p, from) <= p.len(),
        forall|i: int| from <= i < component_end(p, from) ==> q[i] == p[i],
        is_separator(q[component_end(p, from)]),
    ensures
        component_end(q, from) == component_end(p, from),
    decreases component_end(p, from) - from,
{
    if from < component_end(p, from) {
        assert(q[from] == p[from]);
        lemma_component_end(p, from + 1);
        lemma_component_end_is_cut(p, q, from + 1);
    }
}

/// A plain name is one component, and nothing else.
proof fn lemma_parts_of_a_name(name: Seq<char>)
    requires
        is_plain_name(name),
        path_prefix(name).0 == PrefixKind::Plain,
    ensures
        !has_root(name),
        parts_to(name, name.len() as int) == seq![name],
{
    let n = name.len() as int;
    assert(!is_separator(name[0]));
    assert(root_len(name) == 0);
    assert(!starts_verbatim(name));
    assert forall|i: int| 0 <= i < n implies !separates(name, #[trigger] name[i]) by {
        assert(!is_separator(name[i]));
    }
    if n >= 2 {
        assert(!is_separator(name[n - 2]));
    }
    assert(trimmed_end(name, n) == n);
    lemma_last_start(name, 0, n);
    assert(parts_to(name, 0) =~= Seq::<Seq<char>>::empty());
    assert(name.subrange(0, n) =~= name);
    assert(parts_to(name, n) =~= seq![name]);
}

proof fn lemma_written_behind(prefix: Seq<char>, rooted: bool, parts: Seq<Seq<char>>, name: Seq<char>)
    ensures
        written(prefix, rooted, parts.push(name)) == prefix + trail(parts).push(MAIN_SEPARATOR)
            + name,
        text::has_prefix(
            written(prefix, rooted, parts.push(name)),
            written(prefix, rooted, parts),
        ),
{
    assert(parts.push(name).drop_last() =~= parts);
    let whole = written(prefix, rooted, parts.push(name));
    let head = written(prefix, rooted, parts);
    assert(whole =~= prefix + trail(parts).push(MAIN_SEPARATOR) + name);
    assert(whole.take(head.len() as int) =~= head);
}

proof fn lemma_one_step(parts: Seq<Seq<char>>, name: Seq<char>)
    requires
        is_plain_name(name),
    ensures
        walked(parts, seq![name]) == parts.push(name),
{
    let steps = seq![name];
    assert(steps.drop_last() =~= Seq::<Seq<char>>::empty());
    assert(walked(parts, steps) == stepped(walked(parts, steps.drop_last()), steps.last()));
    assert(walked(parts, steps.drop_last()) == parts);
}

/// What comes of joining a name to a verbatim path: the name behind the components that are there.
proof fn lemma_verbatim_join(dir: Seq<char>, name: Seq<char>)
    requires
        starts_verbatim(dir),
        is_plain_name(name),
        path_prefix(name).0 == PrefixKind::Plain,
    ensures
        path_join(dir, name) == dir.take(path_prefix(dir).1) + trail(
            parts_to(dir, dir.len() as int),
        ).push(MAIN_SEPARATOR) + name,
        text::has_prefix(path_join(dir, name), tidied(dir)),
{
    lemma_parts_of_a_name(name);
    let parts = parts_to(dir, dir.len() as int);
    let prefix = dir.take(path_prefix(dir).1);
    lemma_one_step(parts, name);
    lemma_written_behind(prefix, has_separator_behind(dir), parts, name);
    assert(path_join(dir, name) == verbatim_join(dir, name));
    assert(verbatim_join(dir, name) == written(
        prefix,
        has_separator_behind(dir),
        parts.push(name),
    ));
}

proof fn lemma_last_start_is_clean(p: Seq<char>, end: int)
    requires
        0 <= end <= p.len(),
    ensures
        0 <= last_start(p, end) <= end,
        forall|i: int| last_start(p, end) <= i < end ==> !separates(p, #[trigger] p[i]),
        last_start(p, end) > root_len(p) ==> separates(p, p[last_start(p, end) - 1]),
        end >= root_len(p) ==> last_start(p, end) >= root_len(p),
    decreases end,
{
    lemma_prefix_bounds(p);
    if end > root_len(p) && !separates(p, p[end - 1]) {
        lemma_last_start_is_clean(p, end - 1);
    }
}

/// Whether no component is empty or holds a backslash.
spec fn are_clean(parts: Seq<Seq<char>>) -> bool {
    forall|k: int| 0 <= k < parts.len() ==> is_clean(#[trigger] parts[k])
}

/// Whether a component is not empty and holds no backslash.
spec fn is_clean(part: Seq<char>) -> bool {
    part.len() > 0 && forall|i: int| 0 <= i < part.len() ==> #[trigger] part[i] != '\\'
}

proof fn lemma_parts_are_clean(p: Seq<char>, end: int)
    requires
        0 <= end <= p.len(),
    ensures
        are_clean(parts_to(p, end)),
    decreases end,
{
    let stop = trimmed_end(p, end);
    lemma_tail_bounds(p, end);
    let start = last_start(p, stop);
    lemma_last_start_is_clean(p, stop);
    if start < stop {
        lemma_parts_are_clean(p, start);
        let part = p.subrange(start, stop);
        assert forall|i: int| 0 <= i < part.len() implies #[trigger] part[i] != '\\' by {
            assert(part[i] == p[start + i]);
        }
        assert(is_clean(part));
    }
}

/// Whether a text starts with a backslash, ends with none, and holds no two in a row.
spec fn is_a_trail(t: Seq<char>) -> bool {
    &&& t.len() > 0 && t[0] == '\\' && t.last() != '\\'
    &&& forall|i: int| 0 <= i < t.len() - 1 && #[trigger] t[i] == '\\' ==> t[i + 1] != '\\'
}

proof fn lemma_trail(parts: Seq<Seq<char>>)
    requires
        are_clean(parts),
        parts.len() > 0,
    ensures
        is_a_trail(trail(parts)),
    decreases parts.len(),
{
    let before = parts.drop_last();
    let last = parts.last();
    assert(is_clean(parts[parts.len() - 1]));
    let head = trail(before);
    let t = trail(parts);
    if before.len() > 0 {
        assert forall|k: int| 0 <= k < before.len() implies is_clean(#[trigger] before[k]) by {
            assert(before[k] == parts[k]);
        }
        lemma_trail(before);
    }
    let n = head.len() as int;
    assert(t[n] == '\\');
    assert forall|i: int| 0 <= i < t.len() - 1 && #[trigger] t[i] == '\\' implies t[i + 1] != '\\' by {
        if i < n {
            assert(t[i] == head[i]);
            if i + 1 < n {
                assert(t[i + 1] == head[i + 1]);
            } else {
                assert(head[i] == head.last());
            }
        } else if i == n {
            assert(t[i + 1] == last[0]);
        } else {
            assert(t[i] == last[i - n - 1]);
        }
    }
    assert(t.last() == last.last());
    if n > 0 {
        assert(t[0] == head[0]);
    }
}

/// Where the prefix of a verbatim path ends, the path ends or a separator stands.
proof fn lemma_behind_a_verbatim_prefix(p: Seq<char>)
    requires
        starts_verbatim(p),
    ensures
        0 <= path_prefix(p).1 <= p.len(),
        path_prefix(p).1 < p.len() ==> is_separator(p[path_prefix(p).1]),
{
    lemma_prefix_bounds(p);
    reveal_strlit("UNC\\");
    lemma_verbatim_end(p, 4);
    if starts_verbatim_unc(p) {
        lemma_verbatim_end(p, 8);
        let server = verbatim_end(p, 8);
        if server < p.len() {
            lemma_verbatim_end(p, server + 1);
        }
    }
}

/// The components of a verbatim path that has no empty ones make up the path again.
#[verifier::rlimit(40)]
proof fn lemma_parts_make_up_the_path(q: Seq<char>, end: int)
    requires
        starts_verbatim(q),
        path_prefix(q).1 + 1 < end <= q.len(),
        is_a_trail(q.skip(path_prefix(q).1)),
        end == q.len() || q[end] == '\\',
    ensures
        parts_to(q, end).len() > 0,
        trail(parts_to(q, end)) == q.subrange(path_prefix(q).1, end),
    decreases end,
{
    let n = path_prefix(q).1;
    lemma_behind_a_verbatim_prefix(q);
    let t = q.skip(n);
    assert forall|i: int| n <= i < q.len() implies q[i] == t[i - n] by {}
    assert(t[0] == q[n]);
    assert(t.last() == q.last());
    assert(q[end - 1] != '\\') by {
        if end < q.len() && q[end - 1] == '\\' {
            assert(t[end - 1 - n] == '\\');
            assert(t[end - 1 - n + 1] == q[end]);
        }
    }
    assert(root_len(q) == n + 1);
    assert(trimmed_end(q, end) == end);
    lemma_last_start_is_clean(q, end);
    let start = last_start(q, end);
    assert(start < end) by {
        lemma_tail_bounds(q, end - 1);
    }
    let part = q.subrange(start, end);
    let before = parts_to(q, start);
    assert(parts_to(q, end) == before.push(part));
    assert(before.push(part).drop_last() =~= before);
    if start == n + 1 {
        assert(trimmed_end(q, start) == start);
        assert(before =~= Seq::<Seq<char>>::empty());
        assert(trail(before) =~= Seq::<char>::empty());
        assert(trail(parts_to(q, end)) =~= q.subrange(n, end));
    } else {
        assert(q[start - 1] == '\\');
        assert(start - 1 > n + 1) by {
            if start - 1 == n + 1 {
                assert(t[0] == '\\');
                assert(t[1] == q[n + 1]);
            }
        }
        assert(q[start - 2] != '\\') by {
            if q[start - 2] == '\\' {
                assert(t[start - 2 - n] == '\\');
                assert(t[start - 2 - n + 1] == q[start - 1]);
            }
        }
        assert(trimmed_end(q, start - 1) == start - 1);
        assert(trimmed_end(q, start) == start - 1);
        lemma_parts_make_up_the_path(q, start - 1);
        assert(parts_to(q, start) =~= parts_to(q, start - 1));
        assert(trail(parts_to(q, end)) =~= q.subrange(n, end));
    }
}

/// What is written behind a verbatim prefix leaves it as it is or makes it longer.
#[verifier::rlimit(40)]
proof fn lemma_verbatim_prefix_grows(dir: Seq<char>, rest: Seq<char>)
    requires
        starts_verbatim(dir),
    ensures
        ({
            let n = path_prefix(dir).1;
            let q = dir.take(n).push(MAIN_SEPARATOR) + rest;
            starts_verbatim(q) && path_prefix(q).1 >= n
        }),
{
    let n = path_prefix(dir).1;
    let q = dir.take(n).push(MAIN_SEPARATOR) + rest;
    lemma_behind_a_verbatim_prefix(dir);
    reveal_strlit("UNC\\");
    lemma_verbatim_end(dir, 4);
    if starts_verbatim_unc(dir) {
        lemma_verbatim_end(dir, 8);
        let server = verbatim_end(dir, 8);
        if server < dir.len() {
            lemma_verbatim_end(dir, server + 1);
        }
    }
    assert(n >= 4);
    assert forall|i: int| 0 <= i < n implies q[i] == dir[i] by {}
    assert(q[n] == '\\');
    assert(starts_verbatim(q));
    if starts_verbatim_unc(dir) {
        assert(q.subrange(4, 8) =~= dir.subrange(4, 8));
        let server = verbatim_end(dir, 8);
        lemma_verbatim_end_is(q, 8, server);
        lemma_verbatim_end(q, server + 1);
        if n > server {
            lemma_verbatim_end_is(q, server + 1, n);
        }
    } else {
        if starts_verbatim_unc(q) {
            assert(n >= 7) by {
                let head = q.subrange(4, 8);
                assert(head[0] == 'U' && head[1] == 'N' && head[2] == 'C');
                assert(q[4] == 'U' && q[5] == 'N' && q[6] == 'C');
            }
            if n >= 8 {
                assert(dir.subrange(4, 8) =~= q.subrange(4, 8));
            }
            lemma_verbatim_end(q, 8);
            if verbatim_end(q, 8) < q.len() {
                lemma_verbatim_end(q, verbatim_end(q, 8) + 1);
            }
        } else if names_verbatim_drive(dir) {
        } else {
            lemma_verbatim_end_is(q, 4, n);
            if names_verbatim_drive(q) {
                assert(n <= 6);
            }
        }
    }
}

/// Components behind a verbatim prefix are left as they are by joining more.
proof fn lemma_written_is_tidy(dir: Seq<char>, parts: Seq<Seq<char>>)
    requires
        starts_verbatim(dir),
        are_clean(parts),
        parts.len() > 0,
    ensures
        ({
            let q = dir.take(path_prefix(dir).1) + trail(parts);
            tidied(q) == q
        }),
{
    let n = path_prefix(dir).1;
    let t = trail(parts);
    let q = dir.take(n) + t;
    lemma_behind_a_verbatim_prefix(dir);
    assert(n >= 4) by {
        reveal_strlit("UNC\\");
        lemma_verbatim_end(dir, 4);
        if starts_verbatim_unc(dir) {
            lemma_verbatim_end(dir, 8);
        }
    }
    lemma_trail(parts);
    let rest = t.skip(1);
    assert(q =~= dir.take(n).push(MAIN_SEPARATOR) + rest);
    lemma_verbatim_prefix_grows(dir, rest);
    assert(q.skip(n) =~= t);
    lemma_tidied(q, n, t);
}

proof fn lemma_clean_with_a_name(parts: Seq<Seq<char>>, name: Seq<char>)
    requires
        are_clean(parts),
        is_plain_name(name),
    ensures
        are_clean(parts.push(name)),
        trail(parts.push(name)) == trail(parts).push(MAIN_SEPARATOR) + name,
{
    let all = parts.push(name);
    assert forall|i: int| 0 <= i < name.len() implies #[trigger] name[i] != '\\' by {
        assert(!is_separator(name[i]));
    }
    assert(is_clean(name));
    assert forall|k: int| 0 <= k < all.len() implies is_clean(#[trigger] all[k]) by {
        if k < parts.len() {
            assert(all[k] == parts[k]);
        }
    }
    assert(all.drop_last() =~= parts);
}

/// What a name was joined to is left as it is by joining more.
pub proof fn law_joining_tidies_once(dir: Seq<char>, name: Seq<char>)
    requires
        is_plain_name(name),
        path_prefix(name).0 == PrefixKind::Plain,
    ensures
        tidied(path_join(dir, name)) == path_join(dir, name),
        text::has_prefix(path_join(dir, name), tidied(dir)),
{
    if starts_verbatim(dir) {
        lemma_tidy_verbatim(dir, name);
    } else {
        let q = path_join(dir, name);
        lemma_parts_of_a_name(name);
        assert(q.take(dir.len() as int) =~= dir);
        if starts_verbatim(q) {
            lemma_made_verbatim(dir, name);
        }
    }
}

proof fn lemma_tidy_verbatim(dir: Seq<char>, name: Seq<char>)
    requires
        starts_verbatim(dir),
        is_plain_name(name),
        path_prefix(name).0 == PrefixKind::Plain,
    ensures
        tidied(path_join(dir, name)) == path_join(dir, name),
        text::has_prefix(path_join(dir, name), tidied(dir)),
{
    let parts = parts_to(dir, dir.len() as int);
    lemma_verbatim_join(dir, name);
    lemma_parts_are_clean(dir, dir.len() as int);
    lemma_clean_with_a_name(parts, name);
    lemma_written_is_tidy(dir, parts.push(name));
    let head = dir.take(path_prefix(dir).1);
    assert(head + (trail(parts).push(MAIN_SEPARATOR) + name) =~= head + trail(parts).push(
        MAIN_SEPARATOR,
    ) + name);
}

/// A verbatim path that is nothing but a prefix is left as it is by joining.
proof fn lemma_prefix_only(q: Seq<char>)
    requires
        starts_verbatim(q),
        path_prefix(q).1 == q.len(),
    ensures
        tidied(q) == q,
{
    let len = q.len() as int;
    assert(root_len(q) == len);
    assert(trimmed_end(q, len) == len);
    assert(last_start(q, len) == len);
    assert(parts_to(q, len) =~= Seq::<Seq<char>>::empty());
    assert(tidied(q) =~= q);
}

/// A path that a name makes verbatim is nothing but a prefix.
proof fn lemma_made_verbatim(dir: Seq<char>, name: Seq<char>)
    requires
        !starts_verbatim(dir),
        is_plain_name(name),
        path_prefix(name).0 == PrefixKind::Plain,
        !has_root(name),
        starts_verbatim(path_join(dir, name)),
    ensures
        tidied(path_join(dir, name)) == path_join(dir, name),
{
    let q = path_join(dir, name);
    let n = dir.len() as int;
    let len = q.len() as int;
    reveal_strlit("UNC\\");
    assert forall|i: int| 0 <= i < n implies q[i] == dir[i] by {}
    assert forall|i: int| 0 <= i < name.len() implies !is_separator(#[trigger] name[i]) by {}
    assert(n == 3) by {
        if q == dir + name {
            if n <= 3 {
                assert(q[3] == name[3 - n]);
            }
        } else if n <= 2 {
            assert(q[n] == '\\');
            assert(q[3] == name[3 - n - 1]);
        }
    }
    assert(q =~= dir.push(MAIN_SEPARATOR) + name) by {
        if q == dir + name {
            assert(q[3] == name[0]);
        }
    }
    assert forall|i: int| 4 <= i < len implies !is_separator(#[trigger] q[i]) by {
        assert(q[i] == name[i - 4]);
    }
    assert(!starts_verbatim_unc(q)) by {
        if starts_verbatim_unc(q) {
            assert(q.subrange(4, 8)[3] == q[7]);
        }
    }
    if names_verbatim_drive(q) {
        if len > 6 {
            assert(!is_separator(q[6]));
        }
    } else {
        assert forall|i: int| 4 <= i < len implies q[i] != '\\' by {
            assert(!is_separator(q[i]));
        }
        lemma_verbatim_end_is(q, 4, len);
    }
    lemma_prefix_only(q);
}

/// A verbatim path whose text has no empty components from a place in its prefix on is left as it is
/// by joining.
proof fn lemma_tidied(q: Seq<char>, n: int, t: Seq<char>)
    requires
        starts_verbatim(q),
        4 <= n <= path_prefix(q).1,
        is_a_trail(t),
        n <= q.len(),
        q.skip(n) == t,
    ensures
        tidied(q) == q,
{
    let k = path_prefix(q).1;
    let len = q.len() as int;
    lemma_behind_a_verbatim_prefix(q);
    assert forall|i: int| n <= i < len implies q[i] == t[i - n] by {}
    assert(q.last() == t.last());
    if k == len {
        lemma_prefix_only(q);
    } else {
        lemma_ends_in_a_name(q, n, t);
    }
}

proof fn lemma_ends_in_a_name(q: Seq<char>, n: int, t: Seq<char>)
    requires
        starts_verbatim(q),
        4 <= n <= path_prefix(q).1 < q.len(),
        is_a_trail(t),
        q.skip(n) == t,
    ensures
        tidied(q) == q,
{
    let k = path_prefix(q).1;
    let len = q.len() as int;
    lemma_behind_a_verbatim_prefix(q);
    assert forall|i: int| n <= i < len implies q[i] == t[i - n] by {}
    assert(q.last() == t.last());
    reveal_strlit("UNC\\");
    assert(q[n] == t[0]);
    assert(q[k] == '\\') by {
        lemma_verbatim_end(q, 4);
        if starts_verbatim_unc(q) {
            lemma_verbatim_end(q, 8);
            let server = verbatim_end(q, 8);
            if server < len {
                lemma_verbatim_end(q, server + 1);
            }
        }
    }
    assert(k + 1 < len);
    let u = q.skip(k);
    assert forall|i: int| 0 <= i < u.len() implies u[i] == t[k - n + i] by {}
    assert(is_a_trail(u)) by {
        assert(u[0] == '\\');
        assert(u.last() == t.last());
        assert forall|i: int| 0 <= i < u.len() - 1 && #[trigger] u[i] == '\\' implies u[i + 1]
            != '\\' by {
            assert(t[k - n + i] == '\\');
            assert(t[k - n + i + 1] == u[i + 1]);
        }
    }
    lemma_parts_make_up_the_path(q, len);
    assert(tidied(q) =~= q.take(k) + q.subrange(k, len));
    assert(q.take(k) + q.subrange(k, len) =~= q);
}

/// What a name is joined to is its directory, and the name is what the path ends with. A verbatim
/// directory is one that joining leaves as it is.
#[verifier::rlimit(40)]
pub proof fn law_parent_undoes_join(dir: Seq<char>, name: Seq<char>)
    requires
        is_root(dir) || is_named(dir),
        is_plain_name(name),
        path_prefix(name).0 == PrefixKind::Plain,
        tidied(dir) == dir,
        !leaves_share_open(dir),
    ensures
        path_parent(path_join(dir, name)) == Some(dir),
        path_file_name(path_join(dir, name)) == Some(name),
{
    lemma_prefix_bounds(dir);
    lemma_parts_of_a_name(name);
    if is_root(dir) {
        let p = dir + name;
        let n = dir.len() as int;
        let end = p.len() as int;
        lemma_prefix_is_kept(dir, name);
        if starts_verbatim(dir) {
            lemma_verbatim_join(dir, name);
            assert(trimmed_end(dir, n) == n);
            assert(last_start(dir, n) == n);
            assert(parts_to(dir, n) =~= Seq::<Seq<char>>::empty());
            assert(dir == dir.take(n - 1).push(MAIN_SEPARATOR));
            assert(path_join(dir, name) =~= p);
        }
        assert(path_join(dir, name) == p);
        assert(p[n - 1] == dir[n - 1]);
        assert(root_len(p) == n);
        assert forall|i: int| n <= i < end implies !separates(p, #[trigger] p[i]) by {
            assert(p[i] == name[i - n]);
        }
        if p[end - 1] == '.' && end - 1 == n {
            assert(name =~= seq!['.']);
        }
        assert(p[end - 1] == name[end - n - 1]);
        if end - 1 > n {
            assert(p[end - 2] == name[end - n - 2]);
        }
        assert(trimmed_end(p, end) == end);
        lemma_last_start(p, n, end);
        assert(p.subrange(n, end) =~= name);
        assert(trimmed_end(p, n) == n);
        assert(p.take(n) =~= dir);
    } else {
        if starts_verbatim(dir) {
            lemma_verbatim_join(dir, name);
            let n = dir.len() as int;
            let k = path_prefix(dir).1;
            let parts = parts_to(dir, n);
            assert(trimmed_end(dir, n) == n);
            assert(!separates(dir, dir[n - 1]));
            assert(last_start(dir, n) < n) by {
                lemma_tail_bounds(dir, n - 1);
            }
            assert(parts.len() > 0) by {
                lemma_tail_bounds(dir, n);
            }
            assert(dir.take(k) + trail(parts) == dir);
            assert(path_join(dir, name) =~= dir.push(MAIN_SEPARATOR) + name);
        }
        lemma_name_behind(dir, name);
    }
}

/// The UTF-16 code units of one character.
pub open spec fn utf16_of(c: char) -> Seq<u16> {
    let v = c as u32;
    if v < 0x10000 {
        seq![v as u16]
    } else {
        seq![(0xD800 + (v - 0x10000) / 0x400) as u16, (0xDC00 + (v - 0x10000) % 0x400) as u16]
    }
}

/// The UTF-16 code units of a text.
pub open spec fn utf16(s: Seq<char>) -> Seq<u16>
    decreases s.len(),
{
    if s.len() == 0 {
        Seq::empty()
    } else {
        utf16(s.drop_last()) + utf16_of(s.last())
    }
}

fn push_utf16(out: &mut Vec<u16>, c: char)
    ensures
        final(out)@ == old(out)@ + utf16_of(c),
{
    let v: u32 = c as u32;
    if v < 0x10000 {
        out.push(v as u16);
    } else {
        out.push((0xD800 + (v - 0x10000) / 0x400) as u16);
        out.push((0xDC00 + (v - 0x10000) % 0x400) as u16);
    }
    assert(out@ =~= old(out)@ + utf16_of(c));
}

/// The UTF-16 code units of a text.
pub fn to_utf16(s: &str) -> (units: Vec<u16>)
    ensures
        units@ == utf16(s@),
{
    let mut units: Vec<u16> = Vec::new();
    let chars = text::to_chars(s);
    let mut i: usize = 0;
    while i < chars.len()
        invariant
            i <= chars.len(),
            chars@ == s@,
            units@ == utf16(s@.take(i as int)),
        decreases chars.len() - i,
    {
        push_utf16(&mut units, chars[i]);
        i += 1;
        assert(s@.take(i as int).drop_last() =~= s@.take(i - 1));
    }
    assert(s@.take(s@.len() as int) =~= s@);
    units
}

/// The UTF-16 code units of `chars[from..]`, behind those of `head`, closed by a NUL.
fn encode(head: &str, chars: &Vec<char>, from: usize) -> (wide: Vec<u16>)
    requires
        from <= chars.len(),
    ensures
        wide@ == (utf16(head@) + utf16(chars@.skip(from as int))).push(0),
{
    let mut wide = to_utf16(head);
    let ghost tail = chars@.skip(from as int);
    let mut k: usize = from;
    while k < chars.len()
        invariant
            from <= k <= chars.len(),
            tail == chars@.skip(from as int),
            wide@ == utf16(head@) + utf16(tail.take(k - from)),
        decreases chars.len() - k,
    {
        push_utf16(&mut wide, chars[k]);
        k += 1;
        assert(tail.take(k - from).drop_last() =~= tail.take(k - 1 - from));
        assert(wide@ =~= utf16(head@) + utf16(tail.take(k - from)));
    }
    assert(tail.take(tail.len() as int) =~= tail);
    wide.push(0);
    wide
}

/// The verbatim form of an absolute path, as UTF-16 closed by a NUL. A path in the device
/// namespace, or one without a prefix, has none.
pub open spec fn verbatim_form(abs: Seq<char>) -> Option<Seq<u16>> {
    match path_prefix(abs).0 {
        PrefixKind::Verbatim => Some(utf16(abs).push(0)),
        PrefixKind::Disk => Some((utf16("\\\\?\\"@) + utf16(abs)).push(0)),
        PrefixKind::Unc => Some((utf16("\\\\?\\UNC"@) + utf16(abs.skip(1))).push(0)),
        PrefixKind::Device | PrefixKind::Plain => None,
    }
}

/// The wide form of a path: as it is where it fits, else the verbatim form of its absolute
/// path where there is one.
pub open spec fn wide_form(path: Seq<char>, absolute: Option<Seq<char>>) -> Seq<u16> {
    let wide = utf16(path).push(0);
    if wide.len() <= MAX_PATH {
        wide
    } else {
        match absolute {
            Some(abs) => match verbatim_form(abs) {
                Some(v) => v,
                None => wide,
            },
            None => wide,
        }
    }
}

fn verbatim(abs: &str) -> (wide: Option<Vec<u16>>)
    ensures
        match wide {
            Some(w) => verbatim_form(abs@) == Some(w@),
            None => verbatim_form(abs@) is None,
        },
{
    let p = text::to_chars(abs);
    let prefix = prefix_of(&p);
    match prefix.kind {
        PrefixKind::Verbatim => {
            let wide = encode("", &p, 0);
            proof {
                reveal_strlit("");
                assert(""@ =~= Seq::<char>::empty());
                assert(p@.skip(0) =~= p@);
                assert(utf16(""@) + utf16(p@) =~= utf16(p@));
            }
            Some(wide)
        },
        PrefixKind::Disk => {
            let wide = encode("\\\\?\\", &p, 0);
            assert(p@.skip(0) =~= p@);
            Some(wide)
        },
        PrefixKind::Unc => Some(encode("\\\\?\\UNC", &p, 1)),
        _ => None,
    }
}

/// The UTF-16 form of `path` for Win32, closed by a NUL. `absolute` is the absolute form of
/// `path`, where it has one; it is read only where `path` is too long.
pub fn wide_path(path: &str, absolute: Option<String>) -> (wide: Vec<u16>)
    ensures
        wide@ == wide_form(path@, absolute.deep_view()),
{
    let p = text::to_chars(path);
    let plain = encode("", &p, 0);
    proof {
        reveal_strlit("");
        assert(""@ =~= Seq::<char>::empty());
        assert(p@.skip(0) =~= p@);
        assert(utf16(""@) + utf16(p@) =~= utf16(p@));
    }
    if plain.len() <= MAX_PATH {
        return plain;
    }
    match absolute {
        Some(abs) => match verbatim(abs.as_str()) {
            Some(wide) => wide,
            None => plain,
        },
        None => plain,
    }
}

proof fn lemma_utf16_starts(s: Seq<char>, n: int)
    requires
        0 <= n <= s.len(),
        forall|i: int| 0 <= i < n ==> (#[trigger] s[i] as u32) < 0x10000,
    ensures
        n <= utf16(s).len(),
        forall|i: int| 0 <= i < n ==> #[trigger] utf16(s)[i] == (s[i] as u32),
    decreases s.len(),
{
    if s.len() > 0 {
        let head = s.drop_last();
        if n < s.len() {
            assert forall|i: int| 0 <= i < n implies (#[trigger] head[i] as u32) < 0x10000 by {
                assert(head[i] == s[i]);
            }
            lemma_utf16_starts(head, n);
            assert forall|i: int| 0 <= i < n implies #[trigger] utf16(s)[i] == (s[i] as u32) by {
                assert(utf16(s)[i] == utf16(head)[i] && head[i] == s[i]);
            }
        } else {
            assert forall|i: int| 0 <= i < n - 1 implies (#[trigger] head[i] as u32) < 0x10000 by {
                assert(head[i] == s[i]);
            }
            lemma_utf16_starts(head, n - 1);
            lemma_utf16_of_plain(head);
            assert((s[n - 1] as u32) < 0x10000);
            assert forall|i: int| 0 <= i < n implies #[trigger] utf16(s)[i] == (s[i] as u32) by {
                if i < n - 1 {
                    assert(utf16(s)[i] == utf16(head)[i] && head[i] == s[i]);
                }
            }
        }
    }
}

proof fn lemma_utf16_of_plain(s: Seq<char>)
    requires
        forall|i: int| 0 <= i < s.len() ==> (#[trigger] s[i] as u32) < 0x10000,
    ensures
        utf16(s).len() == s.len(),
    decreases s.len(),
{
    if s.len() > 0 {
        let head = s.drop_last();
        assert forall|i: int| 0 <= i < head.len() implies (#[trigger] head[i] as u32) < 0x10000 by {
            assert(head[i] == s[i]);
        }
        lemma_utf16_of_plain(head);
        assert((s[s.len() - 1] as u32) < 0x10000);
    }
}

/// A path that fits is passed on as it is, and the wide form of every path is closed by a NUL.
pub proof fn law_short_paths_are_passed_on(path: Seq<char>, absolute: Option<Seq<char>>)
    ensures
        utf16(path).len() + 1 <= MAX_PATH ==> wide_form(path, absolute) == utf16(path).push(0),
        wide_form(path, absolute).last() == 0,
{
}

/// A path that is too long gets the verbatim prefix, where it lies on a drive or a share.
pub proof fn law_long_paths_become_verbatim(path: Seq<char>, abs: Seq<char>)
    requires
        utf16(path).len() + 1 > MAX_PATH,
        path_prefix(abs).0 != PrefixKind::Plain,
        path_prefix(abs).0 != PrefixKind::Device,
    ensures
        ({
            let wide = wide_form(path, Some(abs));
            wide.len() > 4 && wide[0] == ('\\' as u32) && wide[1] == ('\\' as u32) && wide[2] == (
            '?' as u32) && wide[3] == ('\\' as u32)
        }),
{
    reveal_strlit("\\\\?\\");
    reveal_strlit("\\\\?\\UNC");
    lemma_utf16_starts("\\\\?\\"@, 4);
    lemma_utf16_starts("\\\\?\\UNC"@, 7);
    if path_prefix(abs).0 == PrefixKind::Verbatim {
        lemma_utf16_starts(abs, 4);
    }
}

} // verus!
