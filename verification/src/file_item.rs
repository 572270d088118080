//! The items and columns of a file list.

use crate::vfs::Location;
use vstd::prelude::*;

verus! {

/// What kind of link an item is.
#[derive(Clone, Copy, Debug, PartialEq, Eq, Structural)]
pub enum LinkKind {
    NoLink,
    Symlink,
    Junction,
    Shortcut,
}

impl LinkKind {
    /// The word for the kind of link, and none for an item that is no link.
    pub open spec fn token(self) -> Option<&'static str> {
        match self {
            LinkKind::NoLink => None,
            LinkKind::Symlink => Some("symlink"),
            LinkKind::Junction => Some("junction"),
            LinkKind::Shortcut => Some("shortcut"),
        }
    }

    /// The word for the kind of link, and none for an item that is no link.
    pub fn as_token(self) -> (token: Option<&'static str>)
        ensures
            token == self.token(),
    {
        match self {
            LinkKind::NoLink => None,
            LinkKind::Symlink => Some("symlink"),
            LinkKind::Junction => Some("junction"),
            LinkKind::Shortcut => Some("shortcut"),
        }
    }
}

/// How many ticks a second has: a tick is a hundred nanoseconds.
pub const TICKS_PER_SECOND: i64 = 10_000_000;

/// The whole seconds since 1970 at a time in ticks since 1970; a time before that has none.
pub open spec fn seconds_at(ticks: Option<i64>) -> Option<u64> {
    match ticks {
        Some(t) if t >= 0 => Some((t as int / 10_000_000) as u64),
        _ => None,
    }
}

/// The whole seconds since 1970 at a time in ticks since 1970; a time before that has none.
pub fn seconds_since_1970(ticks: Option<i64>) -> (seconds: Option<u64>)
    ensures
        seconds == seconds_at(ticks),
{
    match ticks {
        Some(t) if t >= 0 => Some((t / TICKS_PER_SECOND) as u64),
        _ => None,
    }
}

/// One item of a file list. Times are in ticks since 1970, where they are known.
#[derive(Clone, Debug)]
pub struct FileItem {
    pub name: String,
    pub base_name: String,
    pub extension: String,
    pub is_dir: bool,
    /// The item that leads up.
    pub is_parent: bool,
    pub size: Option<u64>,
    pub created: Option<i64>,
    pub modified: Option<i64>,
    pub accessed: Option<i64>,
    pub readonly: bool,
    pub hidden: bool,
    pub system: bool,
    pub archive: bool,
    pub reparse: bool,
    pub link: LinkKind,
    pub link_target: Option<String>,
    pub selected: bool,
    /// Where the item comes from, in a list of results.
    pub source: Option<Location>,
    /// What else is known of the item, in a list of results.
    pub info: Option<String>,
}

impl FileItem {
    /// Whether nothing is known of an item but its name, whether it is a directory, how large it
    /// is and when it was changed.
    pub open spec fn is_plain(self) -> bool {
        &&& self.base_name@ == self.name@
        &&& self.extension@ == Seq::<char>::empty()
        &&& self.created is None && self.accessed is None
        &&& !self.readonly && !self.hidden && !self.system && !self.archive && !self.reparse
        &&& self.link == LinkKind::NoLink && self.link_target is None
        &&& !self.selected && self.source is None && self.info is None
    }

    /// A plain item of which only its name is known and whether it is a directory.
    pub fn plain(name: String, is_dir: bool, is_parent: bool) -> (item: FileItem)
        ensures
            item.name == name,
            item.is_dir == is_dir,
            item.is_parent == is_parent,
            item.size is None,
            item.modified is None,
            item.is_plain(),
    {
        FileItem {
            base_name: name.clone(),
            name,
            extension: String::new(),
            is_dir,
            is_parent,
            size: None,
            created: None,
            modified: None,
            accessed: None,
            readonly: false,
            hidden: false,
            system: false,
            archive: false,
            reparse: false,
            link: LinkKind::NoLink,
            link_target: None,
            selected: false,
            source: None,
            info: None,
        }
    }

    /// The item that leads up.
    pub fn parent() -> (item: FileItem)
        ensures
            item.name@ == ".."@,
            item.is_dir,
            item.is_parent,
            item.size is None,
            item.modified is None,
            item.is_plain(),
    {
        FileItem::plain(crate::text::copy(".."), true, true)
    }
}

/// What a column of the list shows.
#[derive(Clone, Copy, Debug, PartialEq, Eq, Structural)]
pub enum ColumnKind {
    FileName,
    FileBaseName,
    FileExtension,
    Length,
    CreateTime,
    CreateTimeS,
    LastWriteTime,
    LastWriteTimeS,
    Attribute,
}

impl ColumnKind {
    /// The word that it goes by.
    pub open spec fn word(self) -> &'static str {
        match self {
            ColumnKind::FileName => "FileName",
            ColumnKind::FileBaseName => "FileBaseName",
            ColumnKind::FileExtension => "FileExtension",
            ColumnKind::Length => "Length",
            ColumnKind::CreateTime => "CreateTime",
            ColumnKind::CreateTimeS => "CreateTimeS",
            ColumnKind::LastWriteTime => "LastWriteTime",
            ColumnKind::LastWriteTimeS => "LastWriteTimeS",
            ColumnKind::Attribute => "Attribute",
        }
    }

    /// The word that it goes by.
    pub fn name(self) -> (name: &'static str)
        ensures
            name == self.word(),
    {
        match self {
            ColumnKind::FileName => "FileName",
            ColumnKind::FileBaseName => "FileBaseName",
            ColumnKind::FileExtension => "FileExtension",
            ColumnKind::Length => "Length",
            ColumnKind::CreateTime => "CreateTime",
            ColumnKind::CreateTimeS => "CreateTimeS",
            ColumnKind::LastWriteTime => "LastWriteTime",
            ColumnKind::LastWriteTimeS => "LastWriteTimeS",
            ColumnKind::Attribute => "Attribute",
        }
    }
}

/// At which side of a column its text stands.
#[derive(Clone, Copy, Debug, PartialEq, Eq, Structural)]
pub enum Align {
    Left,
    Right,
}

impl Align {
    /// The word that it goes by.
    pub open spec fn word(self) -> &'static str {
        match self {
            Align::Left => "Left",
            Align::Right => "Right",
        }
    }

    /// The word that it goes by.
    pub fn name(self) -> (name: &'static str)
        ensures
            name == self.word(),
    {
        match self {
            Align::Left => "Left",
            Align::Right => "Right",
        }
    }
}

/// What a list is sorted by. The two that are like Explorer sort numbers in names by value.
#[derive(Clone, Copy, Debug, PartialEq, Eq, Structural)]
pub enum SortType {
    FileName,
    FileNameExpLike,
    Extension,
    ExtensionExpLike,
    Length,
    CreateTime,
    LastWriteTime,
    Attribute,
}

impl SortType {
    /// The word that it goes by.
    pub open spec fn word(self) -> &'static str {
        match self {
            SortType::FileName => "FileName",
            SortType::FileNameExpLike => "FileNameExpLike",
            SortType::Extension => "Extension",
            SortType::ExtensionExpLike => "ExtensionExpLike",
            SortType::Length => "Length",
            SortType::CreateTime => "CreateTime",
            SortType::LastWriteTime => "LastWriteTime",
            SortType::Attribute => "Attribute",
        }
    }

    /// The word that it goes by.
    pub fn name(self) -> (name: &'static str)
        ensures
            name == self.word(),
    {
        match self {
            SortType::FileName => "FileName",
            SortType::FileNameExpLike => "FileNameExpLike",
            SortType::Extension => "Extension",
            SortType::ExtensionExpLike => "ExtensionExpLike",
            SortType::Length => "Length",
            SortType::CreateTime => "CreateTime",
            SortType::LastWriteTime => "LastWriteTime",
            SortType::Attribute => "Attribute",
        }
    }
}

/// What a way to sort is without regard to numbers, and whether it regards them.
pub open spec fn explike_split(sort: SortType) -> (SortType, bool) {
    match sort {
        SortType::FileNameExpLike => (SortType::FileName, true),
        SortType::ExtensionExpLike => (SortType::Extension, true),
        other => (other, false),
    }
}

/// A way to sort that regards numbers in names, where there is one.
pub open spec fn explike_of(base: SortType, on: bool) -> SortType {
    match (base, on) {
        (SortType::FileName, true) => SortType::FileNameExpLike,
        (SortType::Extension, true) => SortType::ExtensionExpLike,
        (other, _) => other,
    }
}

impl SortType {
    /// What it is without regard to numbers, and whether it regards them.
    pub fn split_explike(self) -> (parts: (SortType, bool))
        ensures
            parts == explike_split(self),
    {
        match self {
            SortType::FileNameExpLike => (SortType::FileName, true),
            SortType::ExtensionExpLike => (SortType::Extension, true),
            other => (other, false),
        }
    }

    /// `base`, with regard to numbers if `on` and where that can be.
    pub fn with_explike(base: SortType, on: bool) -> (sort: SortType)
        ensures
            sort == explike_of(base, on),
    {
        match (base, on) {
            (SortType::FileName, true) => SortType::FileNameExpLike,
            (SortType::Extension, true) => SortType::ExtensionExpLike,
            (other, _) => other,
        }
    }
}

/// A column of the list. Its width is in pixels at the standard resolution.
#[derive(Clone, Debug)]
pub struct Column {
    pub kind: ColumnKind,
    pub text: String,
    pub width: i32,
    pub align: Align,
}

/// What a list shows, and where the user is in it.
pub struct FileListState {
    pub items: Vec<FileItem>,
    pub columns: Vec<Column>,
    pub cursor: usize,
    /// The first item that is seen.
    pub scroll_top: usize,
    /// Where a selection was begun.
    pub select_start: usize,
    pub sort_type: SortType,
    pub sort_reverse: bool,
    /// The items are the result of a search.
    pub find_result: bool,
}

/// How many of the first `n` items are selected.
pub open spec fn selected_in(items: Seq<FileItem>, n: int) -> nat
    decreases n,
{
    if n <= 0 {
        0
    } else {
        selected_in(items, n - 1) + if items[n - 1].selected {
            1nat
        } else {
            0nat
        }
    }
}

/// How large those of the first `n` items are together that are selected; at most what fits.
pub open spec fn selected_size_in(items: Seq<FileItem>, n: int) -> nat
    decreases n,
{
    if n <= 0 {
        0
    } else {
        let before = selected_size_in(items, n - 1);
        match items[n - 1].size {
            Some(size) => if !items[n - 1].selected {
                before
            } else if before + size <= u64::MAX {
                before + size as nat
            } else {
                u64::MAX as nat
            },
            None => before,
        }
    }
}

impl FileListState {
    /// A list of nothing.
    pub fn new() -> (state: FileListState)
        ensures
            state.items@.len() == 0,
            state.columns@.len() == 0,
            state.cursor == 0,
            state.scroll_top == 0,
            state.select_start == 0,
            state.sort_type == SortType::FileName,
            !state.sort_reverse,
            !state.find_result,
    {
        FileListState {
            items: Vec::new(),
            columns: Vec::new(),
            cursor: 0,
            scroll_top: 0,
            select_start: 0,
            sort_type: SortType::FileName,
            sort_reverse: false,
            find_result: false,
        }
    }

    /// How many items there are.
    pub fn count(&self) -> (n: usize)
        ensures
            n == self.items@.len(),
    {
        self.items.len()
    }

    /// How many items are selected, and how large they are together.
    pub fn selected_count_size(&self) -> (sum: (u64, u64))
        ensures
            sum.0 == selected_in(self.items@, self.items@.len() as int),
            sum.1 == selected_size_in(self.items@, self.items@.len() as int),
    {
        let mut count: u64 = 0;
        let mut size: u64 = 0;
        let mut i: usize = 0;
        while i < self.items.len()
            invariant
                i <= self.items.len(),
                count == selected_in(self.items@, i as int),
                count <= i,
                size == selected_size_in(self.items@, i as int),
            decreases self.items.len() - i,
        {
            if self.items[i].selected {
                count += 1;
                match self.items[i].size {
                    Some(n) => {
                        size = size.saturating_add(n);
                    },
                    None => {},
                }
            }
            i += 1;
        }
        (count, size)
    }
}

} // verus!
