//! What a list and its items are, for an outside observer.
//!
//! Nothing here is drawn or measured: what only the window knows comes in as plain values.

use crate::file_item;
use crate::file_item::{seconds_since_1970, FileItem, FileListState};
use crate::text;
use vstd::prelude::*;

verus! {

/// A text in specifications.
pub type Txt = Seq<char>;

/// What the window knows of a pane besides its list.
pub struct PaneChrome<'a> {
    pub location: &'a str,
    pub is_archive: bool,
    /// How many rows a page has.
    pub page_rows: usize,
    pub mask: Option<&'a str>,
    pub path_bar: &'a str,
    pub status_left: &'a str,
    pub status_right: &'a str,
}

/// A letter, if it applies.
pub open spec fn letter_if(applies: bool, letter: char) -> Txt {
    if applies {
        seq![letter]
    } else {
        Seq::empty()
    }
}

/// The attributes of an item, a letter for each: directory, read-only, hidden, system, archive.
pub open spec fn attribute_letters(item: FileItem) -> Txt {
    letter_if(item.is_dir, 'D') + letter_if(item.readonly, 'R') + letter_if(item.hidden, 'H')
        + letter_if(item.system, 'S') + letter_if(item.archive, 'A')
}

/// The attributes of an item, a letter for each: directory, read-only, hidden, system, archive.
pub fn attrs_string(it: &FileItem) -> (letters: String)
    ensures
        letters@ == attribute_letters(*it),
{
    let mut s = String::new();
    if it.is_dir {
        s.push('D');
    }
    if it.readonly {
        s.push('R');
    }
    if it.hidden {
        s.push('H');
    }
    if it.system {
        s.push('S');
    }
    if it.archive {
        s.push('A');
    }
    assert(s@ =~= attribute_letters(*it));
    s
}

/// What an item is. Of the item that leads up little is said.
#[derive(Clone, Debug, PartialEq, Eq)]
pub enum ItemState<S = String> {
    Parent { name: S, cursor: bool },
    Item {
        name: S,
        is_dir: bool,
        ext: S,
        size: Option<u64>,
        marked: bool,
        attrs: S,
        cursor: bool,
        modified: Option<u64>,
        /// The kind of link, for a link.
        link: Option<&'static str>,
        link_target: Option<S>,
        /// Where the item comes from, in a list of results.
        source: Option<S>,
        info: Option<S>,
    },
}

impl View for ItemState<String> {
    type V = ItemState<Txt>;

    open spec fn view(&self) -> ItemState<Txt> {
        match *self {
            ItemState::Parent { name, cursor } => ItemState::Parent { name: name@, cursor },
            ItemState::Item {
                name,
                is_dir,
                ext,
                size,
                marked,
                attrs,
                cursor,
                modified,
                link,
                link_target,
                source,
                info,
            } => ItemState::Item {
                name: name@,
                is_dir,
                ext: ext@,
                size,
                marked,
                attrs: attrs@,
                cursor,
                modified,
                link,
                link_target: link_target.deep_view(),
                source: source.deep_view(),
                info: info.deep_view(),
            },
        }
    }
}

/// What an item is.
pub open spec fn state_of_item(it: FileItem, is_cursor: bool) -> ItemState<Txt> {
    if it.is_parent {
        ItemState::Parent { name: it.name@, cursor: is_cursor }
    } else {
        ItemState::Item {
            name: it.name@,
            is_dir: it.is_dir,
            ext: it.extension@,
            size: it.size,
            marked: it.selected,
            attrs: attribute_letters(it),
            cursor: is_cursor,
            modified: file_item::seconds_at(it.modified),
            link: it.link.token(),
            link_target: it.link_target.deep_view(),
            source: match it.source {
                Some(loc) => Some(crate::vfs::display_of(loc@)),
                None => None,
            },
            info: it.info.deep_view(),
        }
    }
}

/// What an item is.
pub fn item_json(it: &FileItem, is_cursor: bool) -> (state: ItemState)
    ensures
        state@ == state_of_item(*it, is_cursor),
{
    if it.is_parent {
        return ItemState::Parent { name: text::copy(it.name.as_str()), cursor: is_cursor };
    }
    let source = match &it.source {
        Some(loc) => Some(loc.loc_display()),
        None => None,
    };
    ItemState::Item {
        name: text::copy(it.name.as_str()),
        is_dir: it.is_dir,
        ext: text::copy(it.extension.as_str()),
        size: it.size,
        marked: it.selected,
        attrs: attrs_string(it),
        cursor: is_cursor,
        modified: seconds_since_1970(it.modified),
        link: it.link.as_token(),
        link_target: text::copy_option(&it.link_target),
        source,
        info: text::copy_option(&it.info),
    }
}

/// What a column is.
#[derive(Clone, Debug, PartialEq, Eq)]
pub struct ColumnState {
    pub kind: &'static str,
    pub text: String,
    pub width: i32,
    pub align: &'static str,
}

/// What a pane is.
#[derive(Clone, Debug, PartialEq, Eq)]
pub struct PaneState {
    pub location: String,
    pub is_archive: bool,
    pub path_bar: String,
    pub status_left: String,
    pub status_right: String,
    pub cursor: usize,
    pub scroll_top: usize,
    pub page_rows: usize,
    /// The first item that is seen, and the place behind the last.
    pub visible_from: usize,
    pub visible_end: usize,
    pub mask: Option<String>,
    pub sort_type: &'static str,
    pub sort_reverse: bool,
    pub find_result: bool,
    pub selected_count: u64,
    pub selected_size: u64,
    pub columns: Vec<ColumnState>,
    pub items: Vec<ItemState>,
}

/// The place behind the last item that is seen.
pub open spec fn seen_end(scroll_top: usize, page_rows: usize, count: nat) -> int {
    if scroll_top + page_rows < count {
        scroll_top + page_rows
    } else {
        count as int
    }
}

/// What a pane is.
pub fn pane_state_json(state: &FileListState, chrome: &PaneChrome) -> (pane: PaneState)
    ensures
        pane.location@ == chrome.location@,
        pane.is_archive == chrome.is_archive,
        pane.path_bar@ == chrome.path_bar@,
        pane.status_left@ == chrome.status_left@,
        pane.status_right@ == chrome.status_right@,
        pane.cursor == state.cursor,
        pane.scroll_top == state.scroll_top,
        pane.page_rows == chrome.page_rows,
        pane.visible_from == state.scroll_top,
        pane.visible_end == seen_end(state.scroll_top, chrome.page_rows, state.items@.len()),
        match chrome.mask {
            Some(mask) => pane.mask matches Some(m) && m@ == mask@,
            None => pane.mask is None,
        },
        pane.sort_type == state.sort_type.word(),
        pane.sort_reverse == state.sort_reverse,
        pane.find_result == state.find_result,
        pane.selected_count == crate::file_item::selected_in(
            state.items@,
            state.items@.len() as int,
        ),
        pane.selected_size == crate::file_item::selected_size_in(
            state.items@,
            state.items@.len() as int,
        ),
        pane.columns@.len() == state.columns@.len(),
        forall|i: int|
            0 <= i < state.columns@.len() ==> {
                let shown = #[trigger] pane.columns@[i];
                let column = state.columns@[i];
                &&& shown.kind == column.kind.word()
                &&& shown.text@ == column.text@
                &&& shown.width == column.width
                &&& shown.align == column.align.word()
            },
        pane.items@.len() == state.items@.len(),
        forall|i: int|
            0 <= i < state.items@.len() ==> #[trigger] pane.items@[i]@ == state_of_item(
                state.items@[i],
                i == state.cursor,
            ),
{
    let (selected_count, selected_size) = state.selected_count_size();
    let mut visible_end: usize = state.items.len();
    if state.scroll_top <= visible_end && chrome.page_rows < visible_end - state.scroll_top {
        visible_end = state.scroll_top + chrome.page_rows;
    }
    let mut columns: Vec<ColumnState> = Vec::new();
    let mut i: usize = 0;
    while i < state.columns.len()
        invariant
            i <= state.columns.len(),
            columns@.len() == i,
            forall|j: int|
                0 <= j < i ==> {
                    let shown = #[trigger] columns@[j];
                    let column = state.columns@[j];
                    &&& shown.kind == column.kind.word()
                    &&& shown.text@ == column.text@
                    &&& shown.width == column.width
                    &&& shown.align == column.align.word()
                },
        decreases state.columns.len() - i,
    {
        let column = &state.columns[i];
        columns.push(
            ColumnState {
                kind: column.kind.name(),
                text: text::copy(column.text.as_str()),
                width: column.width,
                align: column.align.name(),
            },
        );
        i += 1;
    }
    let mut items: Vec<ItemState> = Vec::new();
    let mut k: usize = 0;
    while k < state.items.len()
        invariant
            k <= state.items.len(),
            items@.len() == k,
            forall|j: int|
                0 <= j < k ==> #[trigger] items@[j]@ == state_of_item(
                    state.items@[j],
                    j == state.cursor,
                ),
        decreases state.items.len() - k,
    {
        items.push(item_json(&state.items[k], k == state.cursor));
        k += 1;
    }
    let mask = match chrome.mask {
        Some(mask) => Some(text::copy(mask)),
        None => None,
    };
    PaneState {
        location: text::copy(chrome.location),
        is_archive: chrome.is_archive,
        path_bar: text::copy(chrome.path_bar),
        status_left: text::copy(chrome.status_left),
        status_right: text::copy(chrome.status_right),
        cursor: state.cursor,
        scroll_top: state.scroll_top,
        page_rows: chrome.page_rows,
        visible_from: state.scroll_top,
        visible_end,
        mask,
        sort_type: state.sort_type.name(),
        sort_reverse: state.sort_reverse,
        find_result: state.find_result,
        selected_count,
        selected_size,
        columns,
        items,
    }
}

/// At most one item of a pane is marked as the one under the cursor.
pub proof fn law_one_cursor(items: Seq<FileItem>, cursor: usize, i: int, j: int)
    requires
        0 <= i < items.len(),
        0 <= j < items.len(),
        has_cursor(state_of_item(items[i], i == cursor)),
        has_cursor(state_of_item(items[j], j == cursor)),
    ensures
        i == j,
{
}

/// Whether an item is marked as the one under the cursor.
pub open spec fn has_cursor(state: ItemState<Txt>) -> bool {
    match state {
        ItemState::Parent { cursor, .. } => cursor,
        ItemState::Item { cursor, .. } => cursor,
    }
}

} // verus!
