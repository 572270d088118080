//! Where a pane is: in a directory, or inside an archive.

use crate::archive;
use crate::archive::ArchiveEntry;
use crate::file_item::FileItem;
use crate::text;
use crate::winpath;
use crate::winpath::PrefixKind;
use vstd::prelude::*;

verus! {

/// A text in specifications.
pub type Txt = Seq<char>;

/// Where a pane is.
#[derive(Clone, Debug, PartialEq, Eq)]
pub enum Location<S = String> {
    /// A directory on disk.
    Real(S),
    /// Inside an archive: the archive's path, and the directory inside it, which is empty for
    /// its root.
    Archive { archive: S, inner: S },
}

impl View for Location<String> {
    type V = Location<Txt>;

    open spec fn view(&self) -> Location<Txt> {
        match *self {
            Location::Real(path) => Location::Real(path@),
            Location::Archive { archive, inner } => Location::Archive {
                archive: archive@,
                inner: inner@,
            },
        }
    }
}

/// What the path bar shows of a location.
pub open spec fn display_of(loc: Location<Txt>) -> Txt {
    match loc {
        Location::Real(path) => path,
        Location::Archive { archive, inner } => if inner.len() == 0 {
            archive
        } else {
            archive.push('\\') + text::replaced(inner, '/', '\\')
        },
    }
}

/// A location one name down.
pub open spec fn joined(loc: Location<Txt>, name: Txt) -> Location<Txt> {
    match loc {
        Location::Real(path) => Location::Real(winpath::path_join(path, name)),
        Location::Archive { archive, inner } => Location::Archive {
            archive,
            inner: archive::inner_join(inner, name),
        },
    }
}

/// The root of the drive or share that a directory lies on.
pub open spec fn root_of(loc: Location<Txt>) -> Option<Location<Txt>> {
    match loc {
        Location::Real(path) => {
            let (kind, n) = winpath::path_prefix(path);
            if kind != PrefixKind::Plain {
                Some(Location::Real(path.take(n).push('\\')))
            } else if winpath::has_root(path) {
                Some(Location::Real(seq!['\\']))
            } else {
                None
            }
        },
        Location::Archive { .. } => None,
    }
}

/// The place of the last slash in a name.
pub open spec fn last_slash(s: Txt, end: int) -> Option<int>
    decreases end,
{
    if end <= 0 || end > s.len() {
        None
    } else if s[end - 1] == '/' {
        Some(end - 1)
    } else {
        last_slash(s, end - 1)
    }
}

/// One up: the directory above, and the name that was left. The root of an archive leads to
/// the directory that holds the archive.
pub open spec fn parent_of(loc: Location<Txt>) -> Option<(Location<Txt>, Txt)> {
    match loc {
        Location::Real(path) => up(path),
        Location::Archive { archive, inner } => if inner.len() == 0 {
            up(archive)
        } else {
            match last_slash(inner, inner.len() as int) {
                Some(i) => Some(
                    (Location::Archive { archive, inner: inner.take(i) }, inner.skip(i + 1)),
                ),
                None => Some((Location::Archive { archive, inner: Seq::empty() }, inner)),
            }
        },
    }
}

/// One up on disk.
pub open spec fn up(path: Txt) -> Option<(Location<Txt>, Txt)> {
    match (winpath::path_parent(path), winpath::path_file_name(path)) {
        (Some(dir), Some(name)) => Some((Location::Real(dir), name)),
        _ => None,
    }
}

/// What the disk says of a path that a location is made from.
#[derive(Clone, Debug, PartialEq, Eq)]
pub struct PathFacts {
    pub path: String,
    /// The path in absolute form, where it has one.
    pub absolute: Option<String>,
    pub is_dir: bool,
    /// A file that exists, with the extension of an archive.
    pub is_archive: bool,
}

/// What the disk says of a path, in specifications.
pub struct PathFactsModel {
    pub path: Txt,
    pub absolute: Option<Txt>,
    pub is_dir: bool,
    pub is_archive: bool,
}

impl View for PathFacts {
    type V = PathFactsModel;

    open spec fn view(&self) -> PathFactsModel {
        PathFactsModel {
            path: self.path@,
            absolute: self.absolute.deep_view(),
            is_dir: self.is_dir,
            is_archive: self.is_archive,
        }
    }
}

/// A path in absolute form, or as it is where it has none.
pub open spec fn absolutized(facts: PathFactsModel) -> Txt {
    match facts.absolute {
        Some(abs) => abs,
        None => facts.path,
    }
}

/// Whether path `i` lies directly in path `i + 1`.
pub open spec fn leads_up(paths: Seq<Txt>, i: int) -> bool {
    winpath::path_file_name(paths[i]) is Some && winpath::path_parent(paths[i]) == Some(
        paths[i + 1],
    )
}

/// Whether these are a path and every directory above it, from the bottom up.
pub open spec fn is_ascent(paths: Seq<Txt>, display: Txt) -> bool {
    &&& paths.len() > 0
    &&& paths[0] == display
    &&& forall|i: int| 0 <= i < paths.len() - 1 ==> #[trigger] leads_up(paths, i)
    &&& winpath::path_file_name(paths.last()) is None || winpath::path_parent(paths.last())
        is None
}

/// The facts that a location is made from: those of the path, then of each directory above
/// it, as far as there are any.
pub open spec fn covers(facts: Seq<PathFactsModel>, display: Txt) -> bool {
    is_ascent(facts.map_values(|f: PathFactsModel| f.path), display)
}

/// The names that lead down from `facts[i]` to the path itself.
pub open spec fn names_below(facts: Seq<PathFactsModel>, i: int) -> Txt
    decreases i,
{
    if i <= 0 || i > facts.len() {
        Seq::empty()
    } else {
        let name = winpath::path_file_name(facts[i - 1].path)->0;
        if i == 1 {
            name
        } else {
            name.push('/') + names_below(facts, i - 1)
        }
    }
}

/// The place of the first path from `from` on that is an archive.
pub open spec fn first_archive(facts: Seq<PathFactsModel>, from: int) -> Option<int>
    decreases facts.len() - from,
{
    if from < 0 || from >= facts.len() {
        None
    } else if facts[from].is_archive {
        Some(from)
    } else {
        first_archive(facts, from + 1)
    }
}

/// The location that a path denotes: a directory; or the archive nearest to it, going up, and
/// the way down inside it; or, where there is neither, the path as it is.
pub open spec fn parsed(facts: Seq<PathFactsModel>) -> Location<Txt> {
    if facts[0].is_dir {
        Location::Real(absolutized(facts[0]))
    } else {
        match first_archive(facts, 0) {
            Some(i) => Location::Archive {
                archive: absolutized(facts[i]),
                inner: names_below(facts, i),
            },
            None => Location::Real(absolutized(facts[0])),
        }
    }
}

/// The facts, as a specification reads them.
pub open spec fn facts_of(facts: Seq<PathFacts>) -> Seq<PathFactsModel> {
    facts.map_values(|f: PathFacts| f@)
}

/// Whether a path is an archive that can be gone into: a file that exists, with the extension
/// of an archive.
pub fn is_archive_path(is_file: bool, known_extension: bool) -> (yes: bool)
    ensures
        yes == (is_file && known_extension),
{
    is_file && known_extension
}

/// The directories above `display`, itself first: the paths whose facts [`Location::parse`]
/// needs.
pub fn ancestors(display: &str) -> (paths: Vec<String>)
    ensures
        is_ascent(paths.deep_view(), display@),
{
    let mut paths: Vec<String> = Vec::new();
    paths.push(text::copy(display));
    let mut current = text::copy(display);
    loop
        invariant
            paths.len() > 0,
            paths.deep_view()[0] == display@,
            paths.deep_view().last() == current@,
            forall|i: int|
                0 <= i < paths.deep_view().len() - 1 ==> #[trigger] leads_up(paths.deep_view(), i),
        ensures
            winpath::path_file_name(paths.deep_view().last()) is None || winpath::path_parent(
                paths.deep_view().last(),
            ) is None,
        decreases current@.len(),
    {
        match (winpath::file_name(current.as_str()), winpath::parent(current.as_str())) {
            (Some(_), Some(dir)) => {
                proof {
                    lemma_parent_is_shorter(current@);
                }
                let ghost before = paths.deep_view();
                paths.push(dir.clone());
                let ghost after = paths.deep_view();
                proof {
                    assert(after =~= before.push(dir@));
                    assert forall|i: int| 0 <= i < after.len() - 1 implies #[trigger] leads_up(
                        after,
                        i,
                    ) by {
                        if i < before.len() - 1 {
                            assert(leads_up(before, i));
                        }
                    }
                }
                current = dir;
            },
            _ => {
                break;
            },
        }
    }
    paths
}

proof fn lemma_parent_is_shorter(path: Txt)
    requires
        winpath::path_parent(path) is Some,
    ensures
        winpath::path_parent(path)->0.len() < path.len(),
{
    let end = winpath::trimmed_end(path, path.len() as int);
    let start = winpath::last_start(path, end);
    winpath::lemma_tail_bounds(path, path.len() as int);
    winpath::lemma_tail_bounds(path, end);
    winpath::lemma_tail_bounds(path, start);
}

/// Whether an item is the one that leads up.
pub open spec fn leads_out(item: FileItem) -> bool {
    &&& item.name@ == ".."@
    &&& item.is_dir && item.is_parent
    &&& item.size is None && item.modified is None
    &&& item.is_plain()
}

/// Whether an item is what is listed of `name` in the directory `inner` of an archive. Directories
/// have no size.
pub open spec fn is_listed(
    item: FileItem,
    entries: Seq<ArchiveEntry<Txt>>,
    inner: Txt,
    name: Txt,
) -> bool {
    let full = archive::inner_join(inner, name);
    &&& item.name@ == name
    &&& item.is_dir == archive::is_dir_entry(entries, full) && !item.is_parent
    &&& item.size == (if item.is_dir {
        None
    } else {
        archive::size_of(entries, full)
    })
    &&& item.modified == archive::mtime_of(entries, full)
    &&& item.is_plain()
}

impl Location<String> {
    /// The directory on disk, where this is one.
    pub fn as_real_path(&self) -> (path: Option<&String>)
        ensures
            match self {
                Location::Real(p) => path == Some(p),
                Location::Archive { .. } => path is None,
            },
    {
        match self {
            Location::Real(p) => Some(p),
            Location::Archive { .. } => None,
        }
    }

    /// Whether this is inside an archive.
    pub fn is_archive(&self) -> (yes: bool)
        ensures
            yes == (self is Archive),
    {
        match self {
            Location::Real(_) => false,
            Location::Archive { .. } => true,
        }
    }

    /// What the path bar shows.
    pub fn loc_display(&self) -> (shown: String)
        ensures
            shown@ == display_of(self@),
    {
        match self {
            Location::Real(p) => text::copy(p.as_str()),
            Location::Archive { archive, inner } => {
                let mut shown = text::copy(archive.as_str());
                if !inner.as_str().is_empty() {
                    shown.push('\\');
                    shown.append(text::replace_char(inner.as_str(), '/', '\\').as_str());
                }
                shown
            },
        }
    }

    /// The location of `name` in this one. Whether it can be gone into is not asked.
    pub fn loc_join(&self, name: &str) -> (loc: Location)
        ensures
            loc@ == joined(self@, name@),
    {
        match self {
            Location::Real(p) => Location::Real(winpath::join(p.as_str(), name)),
            Location::Archive { archive, inner } => Location::Archive {
                archive: archive.clone(),
                inner: archive::join_inner(inner.as_str(), name),
            },
        }
    }

    /// What is listed here: what was found on disk, or the item that leads up and what lies
    /// directly inside the archive.
    pub fn read(&self, on_disk: Vec<FileItem>, entries: &Vec<ArchiveEntry>) -> (items: Vec<FileItem>)
        ensures
            match self@ {
                Location::Real(_) => items == on_disk,
                Location::Archive { inner, .. } => {
                    let all = archive::entries_of(entries@);
                    let names = archive::children(all, inner);
                    &&& items.len() == names.len() + 1
                    &&& leads_out(items@[0])
                    &&& forall|i: int|
                        0 <= i < names.len() ==> is_listed(
                            #[trigger] items@[i + 1],
                            all,
                            inner,
                            names[i],
                        )
                },
            },
    {
        match self {
            Location::Real(_) => on_disk,
            Location::Archive { inner, .. } => {
                let ghost all = archive::entries_of(entries@);
                let ghost children = archive::children(all, inner@);
                let names = archive::entries_at(entries, inner.as_str());
                let mut items: Vec<FileItem> = Vec::new();
                items.push(FileItem::parent());
                let mut i: usize = 0;
                while i < names.len()
                    invariant
                        i <= names.len(),
                        names.deep_view() == children,
                        all == archive::entries_of(entries@),
                        items.len() == i + 1,
                        leads_out(items@[0]),
                        forall|j: int|
                            0 <= j < i ==> is_listed(
                                #[trigger] items@[j + 1],
                                all,
                                inner@,
                                children[j],
                            ),
                    decreases names.len() - i,
                {
                    assert(children[i as int] == names@[i as int]@);
                    let full = archive::join_inner(inner.as_str(), names[i].as_str());
                    let is_dir = archive::entry_is_dir(entries, full.as_str());
                    let plain = FileItem::plain(names[i].clone(), is_dir, false);
                    let size = if is_dir {
                        None
                    } else {
                        archive::entry_size(entries, full.as_str())
                    };
                    let modified = archive::entry_mtime(entries, full.as_str());
                    let item = FileItem { size, modified, ..plain };
                    let ghost before = items@;
                    items.push(item);
                    i += 1;
                    assert forall|j: int| 0 <= j < i implies is_listed(
                        #[trigger] items@[j + 1],
                        all,
                        inner@,
                        children[j],
                    ) by {
                        if j < i - 1 {
                            assert(items@[j + 1] == before[j + 1]);
                        }
                    }
                }
                items
            },
        }
    }

    /// The location of `name`, where it can be gone into. On disk that is a directory, or a
    /// file that is an archive; in an archive, a directory. `is_dir` is what the list says of
    /// the name, and the two facts what the disk says of it.
    pub fn enter(&self, name: &str, is_dir: bool, target_is_dir: bool, target_is_archive: bool) -> (loc:
        Option<Location>)
        ensures
            match (self@, loc) {
                (Location::Real(path), Some(l)) => is_dir && target_is_dir && l@ == joined(
                    self@,
                    name@,
                ) || !is_dir && target_is_archive && l@ == (Location::Archive {
                    archive: winpath::path_join(path, name@),
                    inner: Seq::empty(),
                }),
                (Location::Real(_), None) => !(is_dir && target_is_dir) && !(!is_dir
                    && target_is_archive),
                (Location::Archive { .. }, Some(l)) => is_dir && l@ == joined(self@, name@),
                (Location::Archive { .. }, None) => !is_dir,
            },
    {
        match self {
            Location::Real(p) => {
                let target = winpath::join(p.as_str(), name);
                if is_dir && target_is_dir {
                    Some(Location::Real(target))
                } else if !is_dir && target_is_archive {
                    Some(Location::Archive { archive: target, inner: String::new() })
                } else {
                    None
                }
            },
            Location::Archive { .. } => if is_dir {
                Some(self.loc_join(name))
            } else {
                None
            },
        }
    }

    /// The location that a path bar text denotes. `facts` are those of the text as a path and
    /// of every directory above it, as [`ancestors`] lists them.
    pub fn parse(facts: &Vec<PathFacts>) -> (loc: Location)
        requires
            covers(facts_of(facts@), facts_of(facts@)[0].path),
        ensures
            loc@ == parsed(facts_of(facts@)),
    {
        let ghost all = facts_of(facts@);
        assert(all[0] == facts@[0]@);
        if facts[0].is_dir {
            return Location::Real(absolute_form(&facts[0]));
        }
        let mut inner = String::new();
        let mut i: usize = 0;
        while i < facts.len()
            invariant
                i <= facts.len(),
                facts.len() > 0,
                all == facts_of(facts@),
                covers(all, all[0].path),
                !all[0].is_dir,
                first_archive(all, 0) == first_archive(all, i as int),
                inner@ == names_below(all, i as int) || i == facts.len(),
            decreases facts.len() - i,
        {
            assert(all[i as int] == facts@[i as int]@);
            if facts[i].is_archive {
                return Location::Archive { archive: absolute_form(&facts[i]), inner };
            }
            if i + 1 < facts.len() {
                assert(leads_up(all.map_values(|f: PathFactsModel| f.path), i as int));
                let name = winpath::display_name(facts[i].path.as_str());
                if i == 0 {
                    inner = name;
                } else {
                    let mut longer = name;
                    longer.push('/');
                    longer.append(inner.as_str());
                    inner = longer;
                }
            }
            i += 1;
        }
        Location::Real(absolute_form(&facts[0]))
    }

    /// The root of the drive or share, for a directory on disk.
    pub fn to_root(&self) -> (root: Option<Location>)
        ensures
            match root {
                Some(loc) => root_of(self@) == Some(loc@),
                None => root_of(self@) is None,
            },
    {
        match self {
            Location::Real(path) => {
                let p = text::to_chars(path.as_str());
                let prefix = winpath::prefix_of(&p);
                if prefix.kind != PrefixKind::Plain {
                    let mut root = text::from_range(&p, 0, prefix.len);
                    assert(root@ =~= p@.take(prefix.len as int));
                    root.push('\\');
                    Some(Location::Real(root))
                } else if prefix.len < p.len() && winpath::separator(p[prefix.len]) {
                    let mut root = String::new();
                    root.push('\\');
                    assert(root@ =~= seq!['\\']);
                    Some(Location::Real(root))
                } else {
                    None
                }
            },
            Location::Archive { .. } => None,
        }
    }

    /// One up, and the name that was left.
    pub fn to_parent(&self) -> (above: Option<(Location, String)>)
        ensures
            match above {
                Some((loc, name)) => parent_of(self@) == Some((loc@, name@)),
                None => parent_of(self@) is None,
            },
    {
        match self {
            Location::Real(path) => one_up(path.as_str()),
            Location::Archive { archive, inner } => {
                if inner.as_str().is_empty() {
                    return one_up(archive.as_str());
                }
                let chars = text::to_chars(inner.as_str());
                let mut end: usize = chars.len();
                while end > 0 && chars[end - 1] != '/'
                    invariant
                        end <= chars.len(),
                        chars@ == inner@,
                        last_slash(inner@, inner@.len() as int) == last_slash(inner@, end as int),
                    decreases end,
                {
                    end -= 1;
                }
                if end == 0 {
                    let loc = Location::Archive { archive: archive.clone(), inner: String::new() };
                    Some((loc, inner.clone()))
                } else {
                    let head = text::from_range(&chars, 0, (end - 1));
                    let tail = text::from_range(&chars, end, chars.len());
                    assert(head@ =~= inner@.take(end - 1));
                    assert(tail@ =~= inner@.skip(end as int));
                    Some((Location::Archive { archive: archive.clone(), inner: head }, tail))
                }
            },
        }
    }
}

fn absolute_form(facts: &PathFacts) -> (path: String)
    ensures
        path@ == absolutized(facts@),
{
    match &facts.absolute {
        Some(abs) => text::copy(abs.as_str()),
        None => text::copy(facts.path.as_str()),
    }
}

fn one_up(path: &str) -> (above: Option<(Location, String)>)
    ensures
        match above {
            Some((loc, name)) => up(path@) == Some((loc@, name@)),
            None => up(path@) is None,
        },
{
    match (winpath::parent(path), winpath::file_name(path)) {
        (Some(dir), Some(name)) => Some((Location::Real(dir), name)),
        _ => None,
    }
}

/// Going down to a name inside an archive and up again comes back, and says which name it
/// was.
pub proof fn law_up_undoes_down_in_archives(archive: Txt, inner: Txt, name: Txt)
    requires
        name.len() > 0,
        !name.contains('/'),
    ensures
        parent_of(joined(Location::Archive { archive, inner }, name)) == Some(
            (Location::Archive { archive, inner }, name),
        ),
{
    let full = archive::inner_join(inner, name);
    if inner.len() == 0 {
        lemma_no_slash_below(full, full.len() as int, 0);
        assert(last_slash(full, 0) is None);
        assert(inner =~= Seq::<char>::empty());
    } else {
        let at = inner.len() as int;
        assert forall|i: int| at + 1 <= i < full.len() implies full[i] != '/' by {
            assert(name.contains(name[i - at - 1]));
        }
        lemma_no_slash_below(full, full.len() as int, at + 1);
        assert(full[at] == '/');
        assert(last_slash(full, at + 1) == Some(at));
        assert(full.take(at) =~= inner);
        assert(full.skip(at + 1) =~= name);
    }
}

proof fn lemma_no_slash_below(s: Txt, end: int, stop: int)
    requires
        0 <= stop <= end <= s.len(),
        forall|i: int| stop <= i < end ==> s[i] != '/',
    ensures
        last_slash(s, end) == last_slash(s, stop),
    decreases end - stop,
{
    if stop < end {
        lemma_no_slash_below(s, end - 1, stop);
    }
}

/// Going down to a name on disk and up again comes back, and says which name it was. A verbatim
/// path is one that joining leaves as it is.
pub proof fn law_up_undoes_down_on_disk(path: Txt, name: Txt)
    requires
        winpath::is_root(path) || winpath::is_named(path),
        winpath::is_plain_name(name),
        winpath::path_prefix(name).0 == PrefixKind::Plain,
        winpath::tidied(path) == path,
        !winpath::leaves_share_open(path),
    ensures
        parent_of(joined(Location::Real(path), name)) == Some((Location::Real(path), name)),
{
    winpath::law_parent_undoes_join(path, name);
}

/// The root that a place leads to is a place on disk, and is its own root: going to it twice is going
/// to it once. (The one path that is left out is that of the verbatim prefix for shares with nothing
/// behind it, which a separator makes another prefix.)
pub proof fn law_root_is_reached_at_once(loc: Location<Txt>)
    requires
        loc != Location::<Txt>::Real("\\\\?\\UNC"@),
    ensures
        loc is Archive ==> root_of(loc) is None,
        root_of(loc) matches Some(root) ==> root is Real && root_of(root) == Some(root),
{
    match loc {
        Location::Real(path) => {
            let (kind, n) = winpath::path_prefix(path);
            if kind != PrefixKind::Plain {
                let root = path.take(n).push('\\');
                reveal_strlit("\\\\?\\UNC");
                if path == "\\\\?\\UNC"@ {
                    assert(loc == Location::<Txt>::Real("\\\\?\\UNC"@));
                }
                winpath::lemma_prefix_of_a_root(path);
                assert(root.take(n) =~= path.take(n));
            } else if winpath::has_root(path) {
                let root = seq!['\\'];
                assert(winpath::path_prefix(root) == (PrefixKind::Plain, 0int));
            }
        },
        Location::Archive { .. } => {},
    }
}

/// A location in an archive is never a place on disk, and has no drive root.
pub proof fn law_archives_are_not_on_disk(archive: Txt, inner: Txt)
    ensures
        root_of(Location::Archive { archive, inner }) is None,
        display_of(Location::Archive { archive, inner: Seq::empty() }) == archive,
{
}

/// The names of `names`, one below the other, below a path.
pub open spec fn path_down(archive: Txt, names: Seq<Txt>) -> Txt
    decreases names.len(),
{
    if names.len() == 0 {
        archive
    } else {
        path_down(archive, names.drop_last()).push('\\') + names.last()
    }
}

/// The names of `names`, one below the other, inside an archive.
pub open spec fn inner_down(names: Seq<Txt>) -> Txt
    decreases names.len(),
{
    if names.len() == 0 {
        Seq::empty()
    } else {
        archive::inner_join(inner_down(names.drop_last()), names.last())
    }
}

/// Whether names can be those of directories and files: none holds a separator, or stays or goes
/// up.
pub open spec fn are_plain_names(names: Seq<Txt>) -> bool {
    forall|i: int| 0 <= i < names.len() ==> winpath::is_plain_name(#[trigger] names[i])
}

proof fn lemma_down(archive: Txt, names: Seq<Txt>)
    requires
        winpath::is_named(archive),
        are_plain_names(names),
    ensures
        winpath::is_named(path_down(archive, names)),
        names.len() > 0 ==> {
            let path = path_down(archive, names);
            &&& winpath::path_file_name(path) == Some(names.last())
            &&& winpath::path_parent(path) == Some(path_down(archive, names.drop_last()))
        },
    decreases names.len(),
{
    if names.len() > 0 {
        let above = names.drop_last();
        assert forall|i: int| 0 <= i < above.len() implies winpath::is_plain_name(
            #[trigger] above[i],
        ) by {
            assert(above[i] == names[i]);
        }
        lemma_down(archive, above);
        assert(winpath::is_plain_name(names[names.len() - 1]));
        winpath::lemma_name_behind(path_down(archive, above), names.last());
    }
}

proof fn lemma_inner_is_empty_at_the_root(names: Seq<Txt>)
    requires
        are_plain_names(names),
    ensures
        inner_down(names).len() == 0 <==> names.len() == 0,
    decreases names.len(),
{
    if names.len() > 0 {
        assert(winpath::is_plain_name(names[names.len() - 1]));
    }
}

proof fn lemma_display_is_down(archive: Txt, names: Seq<Txt>)
    requires
        are_plain_names(names),
    ensures
        display_of(Location::Archive { archive, inner: inner_down(names) }) == path_down(
            archive,
            names,
        ),
    decreases names.len(),
{
    lemma_inner_is_empty_at_the_root(names);
    if names.len() > 0 {
        let above = names.drop_last();
        let name = names.last();
        assert forall|i: int| 0 <= i < above.len() implies winpath::is_plain_name(
            #[trigger] above[i],
        ) by {
            assert(above[i] == names[i]);
        }
        assert(winpath::is_plain_name(names[names.len() - 1]));
        lemma_display_is_down(archive, above);
        lemma_inner_is_empty_at_the_root(above);
        let upper = inner_down(above);
        assert(text::replaced(name, '/', '\\') =~= name);
        if above.len() == 0 {
            assert(inner_down(names) == name);
        } else {
            assert(text::replaced(inner_down(names), '/', '\\') =~= text::replaced(
                upper,
                '/',
                '\\',
            ).push('\\') + name);
            assert(archive.push('\\') + (text::replaced(upper, '/', '\\').push('\\') + name)
                =~= (archive.push('\\') + text::replaced(upper, '/', '\\')).push('\\') + name);
        }
    }
}

proof fn lemma_first_name(first: Txt, rest: Seq<Txt>)
    requires
        are_plain_names(rest),
        first.len() > 0,
    ensures
        inner_down(seq![first] + rest) == (if rest.len() == 0 {
            first
        } else {
            first.push('/') + inner_down(rest)
        }),
    decreases rest.len(),
{
    let all = seq![first] + rest;
    if rest.len() == 0 {
        assert(all.drop_last() =~= Seq::<Txt>::empty());
        assert(all.last() == first);
        assert(inner_down(all) == archive::inner_join(inner_down(all.drop_last()), first));
    } else {
        let above = rest.drop_last();
        assert forall|i: int| 0 <= i < above.len() implies winpath::is_plain_name(
            #[trigger] above[i],
        ) by {
            assert(above[i] == rest[i]);
        }
        lemma_first_name(first, above);
        lemma_inner_is_empty_at_the_root(above);
        assert(all.drop_last() =~= seq![first] + above);
        assert(all.last() == rest.last());
        assert(inner_down(all) == archive::inner_join(inner_down(all.drop_last()), rest.last()));
        assert(inner_down(rest) == archive::inner_join(inner_down(above), rest.last()));
        if above.len() == 0 {
            assert(inner_down(rest) == rest.last());
        } else {
            assert((first.push('/') + inner_down(above)).push('/') + rest.last() =~= first.push('/')
                + (inner_down(above).push('/') + rest.last()));
        }
    }
}

/// Going up `i` times from the path of names comes to the path of all but the last `i` of them.
proof fn lemma_ascent_goes_through(paths: Seq<Txt>, archive: Txt, names: Seq<Txt>, i: int)
    requires
        winpath::is_named(archive),
        are_plain_names(names),
        is_ascent(paths, path_down(archive, names)),
        0 <= i <= names.len(),
    ensures
        i < paths.len(),
        paths[i] == path_down(archive, names.take(names.len() - i)),
    decreases i,
{
    if i == 0 {
        assert(names.take(names.len() as int) =~= names);
    } else {
        lemma_ascent_goes_through(paths, archive, names, i - 1);
        let here = names.take(names.len() - (i - 1));
        assert forall|k: int| 0 <= k < here.len() implies winpath::is_plain_name(
            #[trigger] here[k],
        ) by {
            assert(here[k] == names[k]);
        }
        lemma_down(archive, here);
        assert(here.drop_last() =~= names.take(names.len() - i));
        assert(i - 1 < paths.len() - 1);
        assert(leads_up(paths, i - 1));
    }
}

/// The names below the path that is `i` above the path of names.
proof fn lemma_names_below(facts: Seq<PathFactsModel>, archive: Txt, names: Seq<Txt>, i: int)
    requires
        winpath::is_named(archive),
        are_plain_names(names),
        covers(facts, path_down(archive, names)),
        0 <= i <= names.len(),
    ensures
        i < facts.len(),
        names_below(facts, i) == inner_down(names.skip(names.len() - i)),
    decreases i,
{
    let paths = facts.map_values(|f: PathFactsModel| f.path);
    lemma_ascent_goes_through(paths, archive, names, i);
    if i == 0 {
        assert(names.skip(names.len() as int) =~= Seq::<Txt>::empty());
    } else {
        lemma_names_below(facts, archive, names, i - 1);
        lemma_ascent_goes_through(paths, archive, names, i - 1);
        let here = names.take(names.len() - (i - 1));
        assert forall|k: int| 0 <= k < here.len() implies winpath::is_plain_name(
            #[trigger] here[k],
        ) by {
            assert(here[k] == names[k]);
        }
        lemma_down(archive, here);
        let name = names[names.len() - i];
        assert(here.last() == name);
        assert(paths[i - 1] == facts[i - 1].path);
        let rest = names.skip(names.len() - (i - 1));
        assert forall|k: int| 0 <= k < rest.len() implies winpath::is_plain_name(
            #[trigger] rest[k],
        ) by {
            assert(rest[k] == names[names.len() - (i - 1) + k]);
        }
        assert(winpath::is_plain_name(name));
        lemma_first_name(name, rest);
        assert(names.skip(names.len() - i) =~= seq![name] + rest);
    }
}

/// What the path bar shows of a place in an archive leads back to that place, where the archive is
/// the file that its path says and nothing on disk lies below it.
pub proof fn law_display_leads_back(facts: Seq<PathFactsModel>, archive: Txt, names: Seq<Txt>)
    requires
        winpath::is_named(archive),
        are_plain_names(names),
        covers(facts, display_of(Location::Archive { archive, inner: inner_down(names) })),
        forall|i: int|
            0 <= i < facts.len() ==> (#[trigger] facts[i]).path.len() > archive.len()
                ==> !facts[i].is_dir && !facts[i].is_archive,
        forall|i: int|
            0 <= i < facts.len() ==> (#[trigger] facts[i]).path == archive ==> !facts[i].is_dir
                && facts[i].is_archive && absolutized(facts[i]) == archive,
    ensures
        parsed(facts) == (Location::Archive { archive, inner: inner_down(names) }),
{
    let n = names.len() as int;
    lemma_display_is_down(archive, names);
    lemma_names_below(facts, archive, names, n);
    assert(names.skip(0) =~= names);
    let paths = facts.map_values(|f: PathFactsModel| f.path);
    lemma_ascent_goes_through(paths, archive, names, n);
    assert(names.take(0) =~= Seq::<Txt>::empty());
    assert(paths[n] == facts[n].path);
    lemma_first_archive(facts, archive, names, 0);
    lemma_ascent_goes_through(paths, archive, names, 0);
    assert(paths[0] == facts[0].path);
    lemma_down_is_longer(archive, names.take(n));
}

proof fn lemma_down_is_longer(archive: Txt, names: Seq<Txt>)
    ensures
        path_down(archive, names).len() >= archive.len() + names.len(),
    decreases names.len(),
{
    if names.len() > 0 {
        lemma_down_is_longer(archive, names.drop_last());
    }
}

proof fn lemma_first_archive(facts: Seq<PathFactsModel>, archive: Txt, names: Seq<Txt>, i: int)
    requires
        winpath::is_named(archive),
        are_plain_names(names),
        covers(facts, path_down(archive, names)),
        0 <= i <= names.len(),
        names.len() < facts.len(),
        forall|i: int|
            0 <= i < facts.len() ==> (#[trigger] facts[i]).path.len() > archive.len()
                ==> !facts[i].is_dir && !facts[i].is_archive,
        facts[names.len() as int].is_archive,
    ensures
        first_archive(facts, i) == Some(names.len() as int),
    decreases names.len() - i,
{
    if i < names.len() {
        let paths = facts.map_values(|f: PathFactsModel| f.path);
        lemma_ascent_goes_through(paths, archive, names, i);
        assert(paths[i] == facts[i].path);
        lemma_down_is_longer(archive, names.take(names.len() - i));
        lemma_first_archive(facts, archive, names, i + 1);
    }
}

/// What the path bar shows of a directory on disk leads back to that directory.
pub proof fn law_directories_lead_back(facts: Seq<PathFactsModel>, path: Txt)
    requires
        covers(facts, display_of(Location::Real(path))),
        facts[0].is_dir,
        absolutized(facts[0]) == path,
    ensures
        parsed(facts) == Location::Real(path),
{
}

} // verus!
