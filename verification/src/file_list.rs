//! The list of files: where its parts are, what the mouse does to it, and what is drawn.

use crate::dnd::DropEffect;
use crate::file_item;
use crate::file_item::seconds_since_1970;
use crate::file_item::ColumnKind;
use crate::file_item::FileItem;
use crate::file_item::FileListState;
use crate::file_item::SortType;
use crate::geometry;
use crate::geometry::Rect;
use crate::spinner::Spinner;
use crate::spinner::SPINNER_FRAMES;
use crate::text;
use crate::winpath;
use vstd::prelude::*;

pub mod fit;
pub mod paint;

verus! {

/// A text in specifications.
pub type Txt = Seq<char>;

/// How large icons are, as the user set it.
#[derive(Clone, Copy, Debug, PartialEq, Eq, Structural)]
pub enum IconSide {
    /// As large as usual, but no higher than the text.
    Fit { usual: i32 },
    Fixed { side: i32 },
}

/// The measures of a list, in pixels of the screen.
#[derive(Clone, Copy, Debug, PartialEq, Eq, Structural)]
pub struct Metrics {
    pub client_w: i32,
    pub client_h: i32,
    pub font_height: i32,
    pub icons_visible: bool,
    pub thumbnail: bool,
    /// How high a row with a thumbnail is.
    pub thumbnail_box: i32,
    pub icon: IconSide,
    /// How large the icon of a file is beside thumbnails.
    pub shell_icon: i32,
    pub scrollbar_width: i32,
    pub min_thumb: i32,
}

/// How much lower a thumbnail is than its row.
pub const THUMB_ROW_GAP_PX: i32 = 1;

/// How large the icon of a file is beside thumbnails, at the standard resolution.
pub const THUMB_SHELL_ICON_LOGICAL: i32 = 32;

/// How high the thumb of the scroll bar is at least, at the standard resolution.
pub const MIN_THUMB_LOGICAL: i32 = 16;

/// The room between an icon and the text beside it, at the standard resolution.
pub const ICON_GAP_LOGICAL: i32 = 2;

/// How high a row with a thumbnail is, at the standard resolution: as the user set it, but never
/// nothing.
pub fn thumbnail_box_logical(thumbnail_size: i32) -> (side: i32)
    ensures
        side == (if thumbnail_size < 1 {
            1
        } else {
            thumbnail_size as int
        }),
{
    if thumbnail_size < 1 {
        1
    } else {
        thumbnail_size
    }
}

/// Whether icons are shown: the user wants them, and there are some.
pub fn icons_visible(icon_show: bool, has_cache: bool) -> (yes: bool)
    ensures
        yes == (icon_show && has_cache),
{
    icon_show && has_cache
}

/// The room beside the text of a cell: as wide as an `n`, if that could be measured, and never
/// nothing.
pub fn text_margin(n_w: Option<i32>) -> (margin: i32)
    ensures
        margin == (match n_w {
            Some(w) => if w < 1 {
                1
            } else {
                w as int
            },
            None => 4,
        }),
{
    match n_w {
        Some(w) => if w < 1 {
            1
        } else {
            w
        },
        None => 4,
    }
}

/// How high the header is.
pub open spec fn header_of(m: Metrics) -> int {
    m.font_height + 8
}

/// How large an icon is drawn.
pub open spec fn icon_of(m: Metrics) -> int {
    if m.thumbnail {
        geometry::greater(m.thumbnail_box - THUMB_ROW_GAP_PX, 1)
    } else {
        match m.icon {
            IconSide::Fit { usual } => geometry::lesser(usual as int, m.font_height as int),
            IconSide::Fixed { side } => side as int,
        }
    }
}

/// How large the icon of the shell is drawn at most. Beside thumbnails it is not stretched.
pub open spec fn icon_cap_of(m: Metrics) -> int {
    if m.thumbnail {
        m.shell_icon as int
    } else {
        icon_of(m)
    }
}

/// How high a row is. It is as high as the text, and higher only for icons that need it.
pub open spec fn item_of(m: Metrics) -> int {
    if !m.icons_visible {
        m.font_height as int
    } else if m.thumbnail {
        m.thumbnail_box as int
    } else {
        geometry::greater(m.font_height as int, icon_of(m))
    }
}

/// How many rows fit below the header; at least one.
pub open spec fn rows_of(m: Metrics) -> int {
    if item_of(m) <= 0 {
        1
    } else {
        geometry::greater(geometry::cut(m.client_h - header_of(m), item_of(m)), 1)
    }
}

impl Metrics {
    /// How high the header is.
    pub fn header_height(&self) -> (h: i64)
        ensures
            h == header_of(*self),
    {
        self.font_height as i64 + 8
    }

    /// How large an icon is drawn.
    pub fn icon_px(&self) -> (side: i64)
        ensures
            side == icon_of(*self),
            i32::MIN <= side <= i32::MAX,
    {
        if self.thumbnail {
            return geometry::max(self.thumbnail_box as i64 - THUMB_ROW_GAP_PX as i64, 1);
        }
        match self.icon {
            IconSide::Fit { usual } => geometry::min(usual as i64, self.font_height as i64),
            IconSide::Fixed { side } => side as i64,
        }
    }

    /// How large the icon of the shell is drawn at most.
    pub fn icon_cap(&self) -> (side: i64)
        ensures
            side == icon_cap_of(*self),
            i32::MIN <= side <= i32::MAX,
    {
        if self.thumbnail {
            self.shell_icon as i64
        } else {
            self.icon_px()
        }
    }

    /// How high a row is.
    pub fn item_height(&self) -> (h: i64)
        ensures
            h == item_of(*self),
            i32::MIN <= h <= i32::MAX,
    {
        if !self.icons_visible {
            self.font_height as i64
        } else if self.thumbnail {
            self.thumbnail_box as i64
        } else {
            geometry::max(self.font_height as i64, self.icon_px())
        }
    }

    /// How many rows fit below the header; at least one.
    pub fn page_rows(&self) -> (rows: usize)
        ensures
            rows == rows_of(*self),
            1 <= rows <= u32::MAX,
    {
        let ih = self.item_height();
        if ih <= 0 {
            return 1;
        }
        let room: i64 = self.client_h as i64 - self.header_height();
        let rows = geometry::divide(room, ih);
        proof {
            assert(geometry::cut(room as int, ih as int) <= u32::MAX) by {
                if room >= 0 {
                    assert(room / ih <= room) by (nonlinear_arith)
                        requires
                            room >= 0,
                            ih > 0,
                    ;
                }
            }
        }
        if rows < 1 {
            1
        } else {
            rows as usize
        }
    }
}

/// Whether what a list shows can be counted in the numbers that the screen has.
pub open spec fn is_countable(state: FileListState) -> bool {
    &&& state.items@.len() <= i32::MAX
    &&& state.columns@.len() <= i32::MAX
    &&& state.cursor <= i32::MAX
    &&& state.scroll_top <= i32::MAX
}

/// Where row `row` starts, from the top of the list.
pub open spec fn row_top(m: Metrics, scroll_top: usize, row: usize) -> int {
    header_of(m) + (row - scroll_top) * item_of(m)
}

proof fn lemma_row_top(n: int, h: int)
    requires
        0 <= n <= i32::MAX,
        i32::MIN <= h <= i32::MAX,
    ensures
        -0x4000_0000_0000_0000 <= n * h <= 0x4000_0000_0000_0000,
{
    assert(-0x4000_0000_0000_0000 <= n * h <= 0x4000_0000_0000_0000) by (nonlinear_arith)
        requires
            0 <= n <= 0x7fff_ffff,
            -0x8000_0000 <= h <= 0x7fff_ffff,
    ;
}

/// Where row `row` starts, from the top of the list.
pub fn top_of_row(m: &Metrics, scroll_top: usize, row: usize) -> (y: i64)
    requires
        scroll_top <= row <= i32::MAX,
    ensures
        y == row_top(*m, scroll_top, row),
        -0x5000_0000_0000_0000 <= y <= 0x5000_0000_0000_0000,
{
    proof {
        lemma_row_top(row - scroll_top, item_of(*m));
    }
    let n: i64 = (row - scroll_top) as i64;
    let ih = m.item_height();
    m.header_height() + n * ih
}

/// Whether a row is seen: it is not above the first row, nor below the one that may be cut off at
/// the lower end of the page.
pub open spec fn is_seen(m: Metrics, scroll_top: usize, row: usize) -> bool {
    scroll_top <= row <= scroll_top + rows_of(m)
}

/// Whether a row is seen.
pub fn row_is_seen(m: &Metrics, scroll_top: usize, row: usize) -> (seen: bool)
    ensures
        seen == is_seen(*m, scroll_top, row),
{
    row >= scroll_top && row - scroll_top <= m.page_rows()
}

/// Where the row under the cursor is; nothing where it is not seen.
pub fn cursor_row_rect(m: &Metrics, state: &FileListState) -> (rect: Option<Rect>)
    requires
        is_countable(*state),
    ensures
        match rect {
            Some(r) => {
                &&& is_seen(*m, state.scroll_top, state.cursor) && item_of(*m) > 0
                &&& r.x == 0 && r.w == m.client_w
                &&& r.y == row_top(*m, state.scroll_top, state.cursor)
                &&& r.h == item_of(*m)
            },
            None => !is_seen(*m, state.scroll_top, state.cursor) || item_of(*m) <= 0,
        },
{
    if !row_is_seen(m, state.scroll_top, state.cursor) {
        return None;
    }
    let ih = m.item_height();
    if ih <= 0 {
        return None;
    }
    let y = top_of_row(m, state.scroll_top, state.cursor);
    Some(Rect { x: 0, y, w: m.client_w as i64, h: ih })
}

/// Where a menu opens that a key opened: below the row under the cursor, or below the header
/// where that row is not seen.
pub open spec fn anchor_of(m: Metrics, cursor: usize, scroll_top: usize) -> int {
    let ih = geometry::greater(item_of(m), 1);
    if is_seen(m, scroll_top, cursor) {
        header_of(m) + (cursor - scroll_top) * ih + ih
    } else {
        header_of(m)
    }
}

/// Where a menu opens that a key opened, from the left and from the top.
pub fn menu_anchor(m: &Metrics, state: &FileListState) -> (at: (i64, i64))
    requires
        is_countable(*state),
    ensures
        at.0 == 8,
        at.1 == anchor_of(*m, state.cursor, state.scroll_top),
{
    let ih = geometry::max(m.item_height(), 1);
    if row_is_seen(m, state.scroll_top, state.cursor) {
        proof {
            lemma_row_top(state.cursor - state.scroll_top, ih as int);
        }
        let n: i64 = (state.cursor - state.scroll_top) as i64;
        (8, m.header_height() + n * ih + ih)
    } else {
        (8, m.header_height())
    }
}

/// Where the scroll bar and its thumb are.
#[derive(Clone, Copy, Debug, PartialEq, Eq, Structural)]
pub struct ScrollBar {
    pub bar_x: i64,
    pub track_top: i64,
    pub track_h: i64,
    pub thumb_top: i64,
    pub thumb_h: i64,
}

/// How high the thumb is: as much of the track as a page is of the list, but not too small.
pub open spec fn thumb_height(m: Metrics, count: int) -> int {
    let track = m.client_h - header_of(m);
    geometry::lesser(
        geometry::greater(track * rows_of(m) / count, m.min_thumb as int),
        track,
    )
}

/// Where the thumb starts: as far down the track as the list is scrolled.
pub open spec fn thumb_start(m: Metrics, count: int, scroll_top: int) -> int {
    let track = m.client_h - header_of(m);
    let last = count - rows_of(m);
    header_of(m) + (track - thumb_height(m, count)) * geometry::lesser(scroll_top, last) / last
}

/// Whether there is a thumb: the list does not fit a page, and there is room for a track.
pub open spec fn has_thumb(m: Metrics, count: int) -> bool {
    count > rows_of(m) && m.client_h - header_of(m) > 0
}

proof fn lemma_thumb(track: int, page: int, count: int)
    requires
        0 < track <= u32::MAX,
        1 <= page < count <= i32::MAX,
    ensures
        0 <= track * page <= 0x7fff_ffff_0000_0000,
        0 <= track * page / count <= track,
{
    assert(0 <= track * page <= 0x7fff_ffff_0000_0000) by (nonlinear_arith)
        requires
            0 < track <= 0xffff_ffff,
            1 <= page < 0x7fff_ffff,
    ;
    assert(0 <= track * page / count <= track) by (nonlinear_arith)
        requires
            0 < track,
            1 <= page < count,
    ;
}

proof fn lemma_part(whole: int, pos: int, last: int)
    requires
        0 <= whole <= u32::MAX,
        0 <= pos <= last <= i32::MAX,
        last > 0,
    ensures
        0 <= whole * pos <= 0x7fff_ffff_8000_0000,
        0 <= whole * pos / last <= whole,
        pos == 0 ==> whole * pos / last == 0,
        pos == last ==> whole * pos / last == whole,
{
    assert(0 <= whole * pos <= 0x7fff_ffff_8000_0000) by (nonlinear_arith)
        requires
            0 <= whole <= 0xffff_ffff,
            0 <= pos <= 0x7fff_ffff,
    ;
    assert(0 <= whole * pos / last <= whole) by (nonlinear_arith)
        requires
            0 <= whole,
            0 <= pos <= last,
            last > 0,
    ;
    if pos == 0 {
        assert(whole * 0 == 0);
    }
    if pos == last {
        assert(whole * last / last == whole) by (nonlinear_arith)
            requires
                last > 0,
        ;
    }
}

/// Where the scroll bar and its thumb are; nothing where there is no need to scroll.
pub fn scrollbar_geom(m: &Metrics, state: &FileListState) -> (bar: Option<ScrollBar>)
    requires
        is_countable(*state),
    ensures
        match bar {
            Some(b) => {
                &&& has_thumb(*m, state.items@.len() as int)
                &&& b.bar_x == m.client_w - m.scrollbar_width
                &&& b.track_top == header_of(*m)
                &&& b.track_h == m.client_h - header_of(*m)
                &&& b.thumb_h == thumb_height(*m, state.items@.len() as int)
                &&& b.thumb_top == thumb_start(
                    *m,
                    state.items@.len() as int,
                    state.scroll_top as int,
                )
                &&& 0 <= b.thumb_h <= b.track_h <= u32::MAX
                &&& -0x1_0000_0000 <= b.thumb_top <= 0x2_0000_0000
            },
            None => !has_thumb(*m, state.items@.len() as int),
        },
{
    let count = state.count();
    let page = m.page_rows();
    if count <= page {
        return None;
    }
    let track_top = m.header_height();
    let track_h: i64 = m.client_h as i64 - track_top;
    if track_h <= 0 {
        return None;
    }
    proof {
        lemma_thumb(track_h as int, page as int, count as int);
    }
    let share: i64 = track_h * (page as i64) / (count as i64);
    let thumb_h = geometry::min(geometry::max(share, m.min_thumb as i64), track_h);
    let last: usize = count - page;
    let pos: usize = if state.scroll_top <= last {
        state.scroll_top
    } else {
        last
    };
    proof {
        lemma_part(track_h - thumb_h, pos as int, last as int);
    }
    let thumb_top: i64 = track_top + (track_h - thumb_h) * (pos as i64) / (last as i64);
    Some(
        ScrollBar {
            bar_x: m.client_w as i64 - m.scrollbar_width as i64,
            track_top,
            track_h,
            thumb_top,
            thumb_h,
        },
    )
}

/// How many lines the wheel scrolls: as many per notch as the system says, or a page.
pub open spec fn lines_of(notches: int, per_notch: u32, page_rows: usize) -> int {
    if per_notch == u32::MAX {
        notches * geometry::greater(page_rows as int, 1)
    } else {
        notches * per_notch
    }
}

/// How many lines the wheel scrolls.
pub fn wheel_lines(notches: i32, per_notch: u32, page_rows: usize) -> (lines: i128)
    ensures
        lines == lines_of(notches as int, per_notch, page_rows),
        -0x8000_0000_0000_0000_0000_0000 <= lines <= 0x8000_0000_0000_0000_0000_0000,
{
    let n: i128 = if per_notch == u32::MAX {
        if page_rows < 1 {
            1
        } else {
            page_rows as i128
        }
    } else {
        per_notch as i128
    };
    proof {
        assert(-0x8000_0000_0000_0000_0000_0000 <= notches * n <= 0x8000_0000_0000_0000_0000_0000)
            by (nonlinear_arith)
            requires
                -0x8000_0000 <= notches <= 0x7fff_ffff,
                0 <= n <= 0xffff_ffff_ffff_ffff,
        ;
    }
    notches as i128 * n
}

/// Where the columns before column `n` end.
pub open spec fn left_of(widths: Seq<i32>, n: int) -> int
    decreases n,
{
    if n <= 0 {
        0
    } else {
        left_of(widths, n - 1) + widths[n - 1]
    }
}

proof fn lemma_left_fits(widths: Seq<i32>, n: int)
    requires
        0 <= n <= widths.len(),
    ensures
        -0x8000_0000 * n <= left_of(widths, n) <= 0x7fff_ffff * n,
    decreases n,
{
    if n > 0 {
        lemma_left_fits(widths, n - 1);
    }
}

/// The distance between two points of a line.
pub open spec fn distance(a: int, b: int) -> int {
    if a >= b {
        a - b
    } else {
        b - a
    }
}

/// How near to the border of a column the mouse has to be.
pub const BORDER_REACH: i64 = 4;

/// The first column from `from` on whose right border is near `x`.
pub open spec fn border_at(widths: Seq<i32>, x: int, from: int) -> Option<int>
    decreases widths.len() - from,
{
    if from < 0 || from >= widths.len() {
        None
    } else if distance(x, left_of(widths, from + 1)) <= BORDER_REACH {
        Some(from)
    } else {
        border_at(widths, x, from + 1)
    }
}

/// The first column from `from` on that `x` is in.
pub open spec fn column_of(widths: Seq<i32>, x: int, from: int) -> Option<int>
    decreases widths.len() - from,
{
    if from < 0 || from >= widths.len() {
        None
    } else if left_of(widths, from) <= x < left_of(widths, from + 1) {
        Some(from)
    } else {
        column_of(widths, x, from + 1)
    }
}

/// A place among columns, as a specification counts it.
pub open spec fn place(at: Option<usize>) -> Option<int> {
    match at {
        Some(i) => Some(i as int),
        None => None,
    }
}

/// The column whose right border is near `x`.
pub fn hit_column_border(widths: &Vec<i32>, x: i32) -> (col: Option<usize>)
    requires
        widths@.len() <= i32::MAX,
    ensures
        place(col) == border_at(widths@, x as int, 0),
        col matches Some(c) ==> c < widths@.len(),
{
    let mut left: i64 = 0;
    let mut i: usize = 0;
    while i < widths.len()
        invariant
            i <= widths.len() <= i32::MAX,
            left == left_of(widths@, i as int),
            border_at(widths@, x as int, 0) == border_at(widths@, x as int, i as int),
        decreases widths.len() - i,
    {
        proof {
            lemma_left_fits(widths@, i + 1);
            lemma_left_fits(widths@, i as int);
        }
        let right: i64 = left + widths[i] as i64;
        let far: i64 = if x as i64 >= right {
            x as i64 - right
        } else {
            right - x as i64
        };
        if far <= BORDER_REACH {
            return Some(i);
        }
        left = right;
        i += 1;
    }
    None
}

/// The column that `x` is in.
pub fn column_at(widths: &Vec<i32>, x: i32) -> (col: Option<usize>)
    requires
        widths@.len() <= i32::MAX,
    ensures
        place(col) == column_of(widths@, x as int, 0),
        col matches Some(c) ==> c < widths@.len(),
{
    let mut left: i64 = 0;
    let mut i: usize = 0;
    while i < widths.len()
        invariant
            i <= widths.len() <= i32::MAX,
            left == left_of(widths@, i as int),
            column_of(widths@, x as int, 0) == column_of(widths@, x as int, i as int),
        decreases widths.len() - i,
    {
        proof {
            lemma_left_fits(widths@, i + 1);
            lemma_left_fits(widths@, i as int);
        }
        let right: i64 = left + widths[i] as i64;
        if x as i64 >= left && (x as i64) < right {
            return Some(i);
        }
        left = right;
        i += 1;
    }
    None
}

/// The row that `y` is in, if it is a row of the list.
pub open spec fn row_of(m: Metrics, count: int, scroll_top: int, y: int) -> Option<int> {
    if y < header_of(m) || item_of(m) <= 0 {
        None
    } else {
        let row = scroll_top + (y - header_of(m)) / item_of(m);
        if row < count {
            Some(row)
        } else {
            None
        }
    }
}

/// The row that `y` is in, if it is a row of the list.
pub fn row_at(m: &Metrics, state: &FileListState, y: i32) -> (row: Option<usize>)
    ensures
        place(row) == row_of(*m, state.items@.len() as int, state.scroll_top as int, y as int),
        row matches Some(r) ==> state.scroll_top <= r < state.items@.len(),
{
    let hh = m.header_height();
    if (y as i64) < hh {
        return None;
    }
    let ih = m.item_height();
    if ih <= 0 {
        return None;
    }
    let below: i64 = y as i64 - hh;
    let rows: i64 = below / ih;
    proof {
        assert(0 <= below / ih <= below) by (nonlinear_arith)
            requires
                below >= 0,
                ih > 0,
        ;
    }
    let row: u128 = state.scroll_top as u128 + rows as u128;
    if row < state.count() as u128 {
        Some(row as usize)
    } else {
        None
    }
}

/// The mouse shows that a column can be made wider or narrower: one is, or the mouse is on a
/// border in the header.
pub fn shows_resize(mouse: &Mouse, m: &Metrics, widths: &Vec<i32>, x: i32, y: i32) -> (yes: bool)
    requires
        widths@.len() <= i32::MAX,
    ensures
        yes == (mouse.event == MouseEvent::HeaderDrag || (y < header_of(*m) && border_at(
            widths@,
            x as int,
            0,
        ) is Some)),
{
    if mouse.event == MouseEvent::HeaderDrag {
        return true;
    }
    if y as i64 >= m.header_height() {
        return false;
    }
    match hit_column_border(widths, x) {
        Some(_) => true,
        None => false,
    }
}

/// The letter of the drive that a path is on, in upper case.
pub open spec fn drive_of(path: Txt) -> Option<char> {
    let disk = |at: int|
        path.len() >= at + 2 && winpath::is_letter(path[at]) && path[at + 1] == ':';
    match winpath::path_prefix(path).0 {
        winpath::PrefixKind::Disk => Some(winpath::upper(path[0])),
        winpath::PrefixKind::Verbatim => if !winpath::starts_verbatim_unc(path)
            && winpath::path_prefix(path).1 == 6 && disk(4) {
            Some(winpath::upper(path[4]))
        } else {
            None
        },
        _ => None,
    }
}

/// The letter of the drive that a path is on, in upper case; nothing where it is on none, such
/// as on a share.
pub fn drive_letter(path: &str) -> (letter: Option<char>)
    ensures
        letter == drive_of(path@),
{
    let chars = text::to_chars(path);
    let prefix = winpath::prefix_of(&chars);
    match prefix.kind {
        winpath::PrefixKind::Disk => Some(winpath::to_upper(chars[0])),
        winpath::PrefixKind::Verbatim => {
            proof {
                reveal_strlit("UNC\\");
            }
            let unc = text::to_chars("UNC\\");
            if !text::matches_at(&chars, &unc, 4) && prefix.len == 6 && chars.len() >= 6
                && (('a' <= chars[4] && chars[4] <= 'z') || ('A' <= chars[4] && chars[4] <= 'Z'))
                && chars[5] == ':' {
                Some(winpath::to_upper(chars[4]))
            } else {
                None
            }
        },
        _ => None,
    }
}

/// Whether two paths are on one drive. Where that is not known they are not.
pub open spec fn on_same_drive(a: Txt, b: Txt) -> bool {
    drive_of(a) is Some && drive_of(a) == drive_of(b)
}

/// Whether two paths are on one drive.
pub fn same_drive(a: &str, b: &str) -> (same: bool)
    ensures
        same == on_same_drive(a@, b@),
{
    match (drive_letter(a), drive_letter(b)) {
        (Some(x), Some(y)) => x == y,
        _ => false,
    }
}

/// Whether what is dropped is moved: never with the control key, always with the shift key, else
/// on one drive. The first of what is dropped decides.
pub open spec fn is_moved(sources: Seq<Txt>, dst: Txt, ctrl: bool, shift: bool) -> bool {
    if ctrl {
        false
    } else if shift {
        true
    } else {
        sources.len() > 0 && on_same_drive(sources[0], dst)
    }
}

/// Whether what is dropped is moved.
pub fn resolve_move(sources: &Vec<String>, dst: &str, ctrl: bool, shift: bool) -> (moved: bool)
    ensures
        moved == is_moved(sources.deep_view(), dst@, ctrl, shift),
{
    assert(sources.deep_view().len() == sources.len());
    if ctrl {
        return false;
    }
    if shift {
        return true;
    }
    if sources.len() == 0 {
        return false;
    }
    assert(sources.deep_view()[0] == sources@[0]@);
    same_drive(sources[0].as_str(), dst)
}

/// Where something is dropped: a directory, and the row that stands for it if one does.
#[derive(Clone, Debug, PartialEq, Eq)]
pub struct DropPlace<S = String> {
    pub dir: S,
    pub row: Option<usize>,
}

/// Where something is dropped, in specifications.
pub open spec fn place_of(at: Option<DropPlace>) -> Option<DropPlace<Txt>> {
    match at {
        Some(p) => Some(DropPlace { dir: p.dir@, row: p.row }),
        None => None,
    }
}

/// Where something is dropped that is dropped on a row, or below the rows: into a directory if
/// the row is one, else into the one that is shown. Nowhere, where that is not on disk.
pub open spec fn drop_at(dir: Option<Txt>, items: Seq<FileItem>, row: Option<usize>) -> Option<
    DropPlace<Txt>,
> {
    match dir {
        None => None,
        Some(dir) => match row {
            Some(r) => if r < items.len() && items[r as int].is_dir && !items[r as int].is_parent {
                Some(
                    DropPlace {
                        dir: winpath::path_join(dir, items[r as int].name@),
                        row: Some(r),
                    },
                )
            } else {
                Some(DropPlace { dir, row: None })
            },
            None => Some(DropPlace { dir, row: None }),
        },
    }
}

/// Where something is dropped that is dropped on a row, or below the rows.
pub fn drop_target_at(dir: &Option<String>, items: &Vec<FileItem>, row: Option<usize>) -> (at:
    Option<DropPlace>)
    ensures
        place_of(at) == drop_at(dir.deep_view(), items@, row),
{
    match dir {
        None => None,
        Some(dir) => {
            if let Some(r) = row {
                if r < items.len() && items[r].is_dir && !items[r].is_parent {
                    return Some(
                        DropPlace {
                            dir: winpath::join(dir.as_str(), items[r].name.as_str()),
                            row: Some(r),
                        },
                    );
                }
            }
            Some(DropPlace { dir: text::copy(dir.as_str()), row: None })
        },
    }
}

/// Whether dropping would do nothing: nothing is dropped, or something is dropped into itself or
/// where it is already.
pub open spec fn is_idle_drop(sources: Seq<Txt>, dst: Txt) -> bool {
    sources.len() == 0 || exists|i: int|
        0 <= i < sources.len() && is_idle_source(#[trigger] sources[i], dst)
}

/// Whether dropping `source` would do nothing.
pub open spec fn is_idle_source(source: Txt, dst: Txt) -> bool {
    winpath::is_same_path(source, dst) || match winpath::path_parent(source) {
        Some(parent) => winpath::is_same_path(parent, dst),
        None => false,
    }
}

/// Whether dropping would do nothing.
pub fn idle_drop(sources: &Vec<String>, dst: &str) -> (idle: bool)
    ensures
        idle == is_idle_drop(sources.deep_view(), dst@),
{
    let ghost all = sources.deep_view();
    assert(all.len() == sources.len());
    if sources.len() == 0 {
        return true;
    }
    let mut i: usize = 0;
    while i < sources.len()
        invariant
            i <= sources.len(),
            all == sources.deep_view(),
            forall|j: int| 0 <= j < i ==> !is_idle_source(#[trigger] all[j], dst@),
        decreases sources.len() - i,
    {
        assert(all[i as int] == sources@[i as int]@);
        if winpath::same(sources[i].as_str(), dst) {
            return true;
        }
        if let Some(parent) = winpath::parent(sources[i].as_str()) {
            if winpath::same(parent.as_str(), dst) {
                return true;
            }
        }
        i += 1;
    }
    false
}

/// What dropping does, and the row that is marked for it.
pub open spec fn feedback_of(
    sources: Seq<Txt>,
    at: Option<DropPlace<Txt>>,
    ctrl: bool,
    shift: bool,
) -> (DropEffect, Option<usize>) {
    match at {
        None => (DropEffect::NoEffect, None),
        Some(p) => if is_idle_drop(sources, p.dir) {
            (DropEffect::NoEffect, None)
        } else if is_moved(sources, p.dir, ctrl, shift) {
            (DropEffect::Move, p.row)
        } else {
            (DropEffect::Copy, p.row)
        },
    }
}

/// What dropping would do, and the row that is marked for it. Without a place (`at`), the mouse
/// is nowhere in the list.
pub fn update_drop_feedback(
    sources: &Vec<String>,
    at: &Option<DropPlace>,
    ctrl: bool,
    shift: bool,
) -> (shown: (DropEffect, Option<usize>))
    ensures
        shown == feedback_of(sources.deep_view(), place_of(*at), ctrl, shift),
{
    match at {
        None => (DropEffect::NoEffect, None),
        Some(p) => {
            if idle_drop(sources, p.dir.as_str()) {
                (DropEffect::NoEffect, None)
            } else if resolve_move(sources, p.dir.as_str(), ctrl, shift) {
                (DropEffect::Move, p.row)
            } else {
                (DropEffect::Copy, p.row)
            }
        },
    }
}

/// What dropping does: where to, and whether it moves. Nothing where it would do nothing.
pub open spec fn drop_of(
    sources: Seq<Txt>,
    at: Option<DropPlace<Txt>>,
    ctrl: bool,
    shift: bool,
) -> Option<(Txt, bool)> {
    match at {
        None => None,
        Some(p) => if is_idle_drop(sources, p.dir) {
            None
        } else {
            Some((p.dir, is_moved(sources, p.dir, ctrl, shift)))
        },
    }
}

/// What dropping does: where to, and whether it moves.
pub fn finish_drop(sources: &Vec<String>, at: Option<DropPlace>, ctrl: bool, shift: bool) -> (done:
    Option<(String, bool)>)
    ensures
        match done {
            Some((dir, moved)) => drop_of(sources.deep_view(), place_of(at), ctrl, shift) == Some(
                (dir@, moved),
            ),
            None => drop_of(sources.deep_view(), place_of(at), ctrl, shift) is None,
        },
{
    match at {
        None => None,
        Some(p) => {
            if idle_drop(sources, p.dir.as_str()) {
                return None;
            }
            let moved = resolve_move(sources, p.dir.as_str(), ctrl, shift);
            Some((p.dir, moved))
        },
    }
}

/// Whether files are dragged now: none are already, and there are some to drag.
pub fn start_drag(dragging: bool, paths: usize) -> (yes: bool)
    ensures
        yes == (!dragging && paths > 0),
{
    !dragging && paths > 0
}

/// When a file was changed, in seconds since 1970, to tell its icon from an older one; zero where
/// that is not known.
pub fn item_mtime(item: &FileItem) -> (stamp: u64)
    ensures
        stamp == (match file_item::seconds_at(item.modified) {
            Some(t) => t,
            None => 0,
        }),
{
    match seconds_since_1970(item.modified) {
        Some(t) => t,
        None => 0,
    }
}

/// What the mouse is doing.
#[derive(Clone, Copy, Debug, PartialEq, Eq, Structural)]
pub enum MouseEvent {
    Idle,
    HeaderDrag,
    HeaderClick,
    RowClick,
}

/// A column is made wider or narrower.
#[derive(Clone, Copy, Debug, PartialEq, Eq, Structural)]
pub struct HeaderDrag {
    pub col: usize,
    pub start_x: i32,
    pub start_width: i32,
}

/// A point of the list.
#[derive(Clone, Copy, Debug, PartialEq, Eq, Structural)]
pub struct Point {
    pub x: i32,
    pub y: i32,
}

/// What the mouse is doing, and since when.
#[derive(Clone, Copy, Debug, PartialEq, Eq, Structural)]
pub struct Mouse {
    pub event: MouseEvent,
    pub header_click_col: Option<usize>,
    pub drag: Option<HeaderDrag>,
    /// Where on the thumb of the scroll bar it was taken.
    pub sb_drag: Option<i64>,
    /// Where the button was pressed, while that may become a drag of files.
    pub drag_start: Option<Point>,
}

/// The mouse does nothing.
pub open spec fn idle_mouse() -> Mouse {
    Mouse {
        event: MouseEvent::Idle,
        header_click_col: None,
        drag: None,
        sb_drag: None,
        drag_start: None,
    }
}

/// What is done to a list.
#[derive(Clone, Copy, Debug, PartialEq, Eq, Structural)]
pub enum ListAction {
    /// The list becomes the active one.
    GotFocus,
    /// The window takes the focus.
    TakeFocus,
    /// The list is scrolled so that row `top` is first, as far as that can be.
    ScrollTo { top: i128, page: usize },
    /// The cursor is put where it is seen.
    CursorIntoView { page: usize },
    /// The cursor is put on a row.
    PutCursor { row: usize },
    /// The cursor is put on a row, which is scrolled to.
    SetCursor { row: usize, page: usize },
    /// No row is selected any more.
    ClearAll,
    /// A row is selected.
    SelectFile { row: usize, page: usize },
    /// All rows between two are selected.
    SelectFiles { from: usize, to: usize },
    /// A row is selected if it was not, and else not.
    ReverseFile { row: usize, page: usize },
    /// The list is sorted by a column.
    SortBy { col: usize },
    /// A column gets a width, in pixels at the standard resolution.
    SetWidth { col: usize, width: i64 },
    /// The selected files are dragged.
    StartDrag,
    /// A row is opened.
    Activate { row: usize },
    /// The text under the mouse is shown where it is cut off.
    Hover { at: Point },
    /// The list is drawn, and what is selected is told.
    Refresh,
}

/// What pressing the left button on row `row` does to the selection.
pub open spec fn select_by_click(
    state: FileListState,
    row: usize,
    page: usize,
    ctrl: bool,
    shift: bool,
) -> Seq<ListAction> {
    if ctrl {
        seq![ListAction::ReverseFile { row, page }]
    } else if shift {
        seq![
            ListAction::ClearAll,
            ListAction::SelectFiles { from: state.select_start, to: row },
            ListAction::SetCursor { row, page },
        ]
    } else if !state.items@[row as int].selected {
        seq![ListAction::ClearAll, ListAction::SelectFile { row, page }]
    } else {
        seq![ListAction::SelectFile { row, page }]
    }
}

/// What pressing the left button does.
pub open spec fn pressed(
    mouse: Mouse,
    m: Metrics,
    widths: Seq<i32>,
    state: FileListState,
    at: Point,
    ctrl: bool,
    shift: bool,
) -> (Mouse, Seq<ListAction>) {
    let count = state.items@.len() as int;
    let page = rows_of(m) as usize;
    let focus = seq![ListAction::GotFocus];
    if has_thumb(m, count) && at.x >= m.client_w - m.scrollbar_width {
        let top = thumb_start(m, count, state.scroll_top as int);
        if top <= at.y < top + thumb_height(m, count) {
            (Mouse { sb_drag: Some((at.y - top) as i64), ..mouse }, focus)
        } else {
            let to = if at.y < top {
                state.scroll_top - page
            } else {
                state.scroll_top + page
            };
            (
                mouse,
                focus + seq![
                    ListAction::ScrollTo { top: to as i128, page },
                    ListAction::CursorIntoView { page },
                    ListAction::Refresh,
                ],
            )
        }
    } else if at.y < header_of(m) {
        match border_at(widths, at.x as int, 0) {
            Some(col) => (
                Mouse {
                    event: MouseEvent::HeaderDrag,
                    drag: Some(
                        HeaderDrag {
                            col: col as usize,
                            start_x: at.x,
                            start_width: widths[col],
                        },
                    ),
                    ..mouse
                },
                focus,
            ),
            None => match column_of(widths, at.x as int, 0) {
                Some(col) => (
                    Mouse {
                        event: MouseEvent::HeaderClick,
                        header_click_col: Some(col as usize),
                        ..mouse
                    },
                    focus,
                ),
                None => (mouse, focus),
            },
        }
    } else {
        match row_of(m, count, state.scroll_top as int, at.y as int) {
            None => (mouse, focus),
            Some(r) => {
                let row = r as usize;
                (
                    Mouse {
                        event: MouseEvent::RowClick,
                        drag_start: if !ctrl && !shift && !state.items@[r].is_parent {
                            Some(at)
                        } else {
                            mouse.drag_start
                        },
                        ..mouse
                    },
                    focus + seq![ListAction::TakeFocus, ListAction::PutCursor { row }]
                        + select_by_click(state, row, page, ctrl, shift) + seq![
                        ListAction::Refresh,
                    ],
                )
            },
        }
    }
}

/// What letting the left button go does.
pub open spec fn released(mouse: Mouse, m: Metrics, cursor: usize, ctrl: bool, shift: bool) -> (
    Mouse,
    Seq<ListAction>,
) {
    let page = rows_of(m) as usize;
    if mouse.sb_drag is Some {
        (Mouse { sb_drag: None, drag_start: None, ..mouse }, Seq::empty())
    } else {
        let actions = match mouse.event {
            MouseEvent::HeaderClick => match mouse.header_click_col {
                Some(col) => seq![ListAction::SortBy { col }, ListAction::Refresh],
                None => Seq::empty(),
            },
            MouseEvent::RowClick => if !ctrl && !shift {
                seq![
                    ListAction::ClearAll,
                    ListAction::SelectFile { row: cursor, page },
                    ListAction::Refresh,
                ]
            } else {
                Seq::empty()
            },
            _ => Seq::empty(),
        };
        (idle_mouse(), actions)
    }
}

/// How far the list is scrolled where its thumb is drawn from `y`, having been taken `grab` below
/// its upper end.
pub open spec fn dragged_top(m: Metrics, count: int, y: int, grab: int) -> int {
    let track = m.client_h - header_of(m);
    let room = geometry::greater(track - thumb_height(m, count), 1);
    geometry::cut((y - grab - header_of(m)) * (count - rows_of(m)), room)
}

/// How wide a column is, in pixels at the standard resolution, whose border is drawn to `x`.
pub open spec fn dragged_width(drag: HeaderDrag, x: int, dpi: int) -> int {
    let d = geometry::greater(dpi, 1);
    let w = geometry::greater(drag.start_width + (x - drag.start_x), 8);
    geometry::greater((w * 96 + d / 2) / d, 8)
}

/// What moving the mouse does. The least distance of a drag is `reach`, from left to right and
/// from top to bottom.
pub open spec fn moved(
    mouse: Mouse,
    m: Metrics,
    count: int,
    at: Point,
    left_button: bool,
    reach: Point,
    dpi: i32,
) -> (Mouse, Seq<ListAction>) {
    let page = rows_of(m) as usize;
    let far = match mouse.drag_start {
        Some(start) => distance(at.x as int, start.x as int) >= geometry::greater(reach.x as int, 1)
            || distance(at.y as int, start.y as int) >= geometry::greater(reach.y as int, 1),
        None => false,
    };
    if mouse.drag_start is Some && left_button && far {
        (Mouse { drag_start: None, ..mouse }, seq![ListAction::StartDrag])
    } else {
        let mouse = if left_button {
            mouse
        } else {
            Mouse { drag_start: None, ..mouse }
        };
        match mouse.sb_drag {
            Some(grab) => (
                mouse,
                if has_thumb(m, count) {
                    seq![
                        ListAction::ScrollTo {
                            top: dragged_top(m, count, at.y as int, grab as int) as i128,
                            page,
                        },
                        ListAction::CursorIntoView { page },
                        ListAction::Refresh,
                    ]
                } else {
                    Seq::empty()
                },
            ),
            None => (
                mouse,
                (if mouse.event == MouseEvent::HeaderDrag && mouse.drag is Some {
                    seq![
                        ListAction::SetWidth {
                            col: mouse.drag->0.col,
                            width: dragged_width(mouse.drag->0, at.x as int, dpi as int) as i64,
                        },
                        ListAction::Refresh,
                    ]
                } else {
                    Seq::empty()
                }) + seq![ListAction::Hover { at }],
            ),
        }
    }
}

impl Mouse {
    /// The mouse does nothing.
    pub fn idle() -> (mouse: Mouse)
        ensures
            mouse == idle_mouse(),
    {
        Mouse {
            event: MouseEvent::Idle,
            header_click_col: None,
            drag: None,
            sb_drag: None,
            drag_start: None,
        }
    }

    /// Whether a thumb that is drawn was taken on it.
    pub open spec fn is_held(self) -> bool {
        self.sb_drag matches Some(grab) ==> 0 <= grab <= u32::MAX
    }

    /// The left button is pressed.
    pub fn on_l_button_down(
        &mut self,
        m: &Metrics,
        widths: &Vec<i32>,
        state: &FileListState,
        at: Point,
        ctrl: bool,
        shift: bool,
    ) -> (actions: Vec<ListAction>)
        requires
            is_countable(*state),
            widths@.len() == state.columns@.len(),
            old(self).is_held(),
        ensures
            (*final(self), actions@) == pressed(
                *old(self),
                *m,
                widths@,
                *state,
                at,
                ctrl,
                shift,
            ),
            final(self).is_held(),
    {
        let mut actions: Vec<ListAction> = Vec::new();
        actions.push(ListAction::GotFocus);
        let page = m.page_rows();
        if let Some(bar) = scrollbar_geom(m, state) {
            if at.x as i64 >= bar.bar_x {
                let y: i64 = at.y as i64;
                if y >= bar.thumb_top && y < bar.thumb_top + bar.thumb_h {
                    self.sb_drag = Some(y - bar.thumb_top);
                } else {
                    let top: i128 = if y < bar.thumb_top {
                        state.scroll_top as i128 - page as i128
                    } else {
                        state.scroll_top as i128 + page as i128
                    };
                    actions.push(ListAction::ScrollTo { top, page });
                    actions.push(ListAction::CursorIntoView { page });
                    actions.push(ListAction::Refresh);
                }
                assert(actions@ =~= pressed(
                    *old(self),
                    *m,
                    widths@,
                    *state,
                    at,
                    ctrl,
                    shift,
                ).1);
                return actions;
            }
        }
        if (at.y as i64) < m.header_height() {
            if let Some(col) = hit_column_border(widths, at.x) {
                self.drag = Some(
                    HeaderDrag { col, start_x: at.x, start_width: widths[col] },
                );
                self.event = MouseEvent::HeaderDrag;
            } else if let Some(col) = column_at(widths, at.x) {
                self.event = MouseEvent::HeaderClick;
                self.header_click_col = Some(col);
            }
            assert(actions@ =~= seq![ListAction::GotFocus]);
            return actions;
        }
        match row_at(m, state, at.y) {
            None => {},
            Some(row) => {
                actions.push(ListAction::TakeFocus);
                self.event = MouseEvent::RowClick;
                actions.push(ListAction::PutCursor { row });
                if ctrl {
                    actions.push(ListAction::ReverseFile { row, page });
                } else if shift {
                    actions.push(ListAction::ClearAll);
                    actions.push(ListAction::SelectFiles { from: state.select_start, to: row });
                    actions.push(ListAction::SetCursor { row, page });
                } else {
                    if !state.items[row].selected {
                        actions.push(ListAction::ClearAll);
                    }
                    actions.push(ListAction::SelectFile { row, page });
                }
                if !ctrl && !shift && !state.items[row].is_parent {
                    self.drag_start = Some(at);
                }
                actions.push(ListAction::Refresh);
            },
        }
        assert(actions@ =~= pressed(*old(self), *m, widths@, *state, at, ctrl, shift).1);
        actions
    }

    /// The left button is let go.
    pub fn on_l_button_up(&mut self, m: &Metrics, cursor: usize, ctrl: bool, shift: bool) -> (actions:
        Vec<ListAction>)
        ensures
            (*final(self), actions@) == released(*old(self), *m, cursor, ctrl, shift),
            final(self).is_held(),
    {
        let mut actions: Vec<ListAction> = Vec::new();
        self.drag_start = None;
        if self.sb_drag.is_some() {
            self.sb_drag = None;
            assert(actions@ =~= Seq::<ListAction>::empty());
            return actions;
        }
        match self.event {
            MouseEvent::HeaderClick => {
                if let Some(col) = self.header_click_col {
                    actions.push(ListAction::SortBy { col });
                    actions.push(ListAction::Refresh);
                }
            },
            MouseEvent::RowClick => {
                if !ctrl && !shift {
                    actions.push(ListAction::ClearAll);
                    actions.push(ListAction::SelectFile { row: cursor, page: m.page_rows() });
                    actions.push(ListAction::Refresh);
                }
            },
            _ => {},
        }
        self.event = MouseEvent::Idle;
        self.header_click_col = None;
        self.drag = None;
        assert(actions@ =~= released(*old(self), *m, cursor, ctrl, shift).1);
        actions
    }

    /// The mouse is moved.
    pub fn on_mouse_move(
        &mut self,
        m: &Metrics,
        state: &FileListState,
        at: Point,
        left_button: bool,
        reach: Point,
        dpi: i32,
    ) -> (actions: Vec<ListAction>)
        requires
            is_countable(*state),
            old(self).is_held(),
        ensures
            (*final(self), actions@) == moved(
                *old(self),
                *m,
                state.items@.len() as int,
                at,
                left_button,
                reach,
                dpi,
            ),
            final(self).is_held(),
    {
        let mut actions: Vec<ListAction> = Vec::new();
        if let Some(start) = self.drag_start {
            if !left_button {
                self.drag_start = None;
            } else if gap(at.x, start.x) >= geometry::max(reach.x as i64, 1) || gap(at.y, start.y)
                >= geometry::max(reach.y as i64, 1) {
                self.drag_start = None;
                actions.push(ListAction::StartDrag);
                assert(actions@ =~= seq![ListAction::StartDrag]);
                return actions;
            }
        }
        if let Some(grab) = self.sb_drag {
            if let Some(bar) = scrollbar_geom(m, state) {
                let page = m.page_rows();
                let last: i128 = (state.count() - page) as i128;
                let room: i64 = geometry::max(bar.track_h - bar.thumb_h, 1);
                let off: i128 = (at.y as i64 - grab - bar.track_top) as i128;
                let top = scaled(off, last, room);
                actions.push(ListAction::ScrollTo { top, page });
                actions.push(ListAction::CursorIntoView { page });
                actions.push(ListAction::Refresh);
            }
            assert(actions@ =~= moved(
                *old(self),
                *m,
                state.items@.len() as int,
                at,
                left_button,
                reach,
                dpi,
            ).1);
            return actions;
        }
        if self.event == MouseEvent::HeaderDrag {
            if let Some(drag) = self.drag {
                let width = width_of_drag(drag, at.x, dpi);
                actions.push(ListAction::SetWidth { col: drag.col, width });
                actions.push(ListAction::Refresh);
            }
        }
        actions.push(ListAction::Hover { at });
        assert(actions@ =~= moved(
            *old(self),
            *m,
            state.items@.len() as int,
            at,
            left_button,
            reach,
            dpi,
        ).1);
        actions
    }
}

/// The distance between two points of a line.
fn gap(a: i32, b: i32) -> (d: i64)
    ensures
        d == distance(a as int, b as int),
{
    if a >= b {
        a as i64 - b as i64
    } else {
        b as i64 - a as i64
    }
}

/// A part of `last`: as much as `off` is of `room`.
fn scaled(off: i128, last: i128, room: i64) -> (top: i128)
    requires
        -0x10_0000_0000 <= off <= 0x10_0000_0000,
        0 <= last <= i32::MAX,
        room > 0,
    ensures
        top == geometry::cut(off * last, room as int),
{
    proof {
        assert(-0x10_0000_0000_0000_0000 <= off * last <= 0x10_0000_0000_0000_0000)
            by (nonlinear_arith)
            requires
                -0x10_0000_0000 <= off <= 0x10_0000_0000,
                0 <= last <= 0x7fff_ffff,
        ;
    }
    let product: i128 = off * last;
    if product >= 0 {
        product / (room as i128)
    } else {
        let up: i128 = -product;
        -(up / (room as i128))
    }
}

/// How wide a column is whose border is drawn to `x`.
fn width_of_drag(drag: HeaderDrag, x: i32, dpi: i32) -> (width: i64)
    ensures
        width == dragged_width(drag, x as int, dpi as int),
{
    let d: i64 = geometry::max(dpi as i64, 1);
    let w: i64 = geometry::max(drag.start_width as i64 + (x as i64 - drag.start_x as i64), 8);
    geometry::max((w * 96 + d / 2) / d, 8)
}

/// What a double click does: it opens the row that it is on.
pub fn on_l_button_dbl_clk(m: &Metrics, state: &FileListState, y: i32) -> (action: Option<ListAction>)
    ensures
        action == (match row_of(
            *m,
            state.items@.len() as int,
            state.scroll_top as int,
            y as int,
        ) {
            Some(r) => Some(ListAction::Activate { row: r as usize }),
            None => None,
        }),
{
    match row_at(m, state, y) {
        Some(row) => Some(ListAction::Activate { row }),
        None => None,
    }
}

/// What turning the wheel does: the list is scrolled, up for positive distances, by the lines of
/// all whole notches.
pub fn scroll_by_wheel(distance: i16, per_notch: u32, m: &Metrics, scroll_top: usize) -> (actions: Vec<
    ListAction,
>)
    ensures
        actions@ == seq![
            ListAction::ScrollTo {
                top: (scroll_top - lines_of(
                    geometry::cut(distance as int, 120),
                    per_notch,
                    rows_of(*m) as usize,
                )) as i128,
                page: rows_of(*m) as usize,
            },
            ListAction::CursorIntoView { page: rows_of(*m) as usize },
            ListAction::Refresh,
        ],
{
    let page = m.page_rows();
    let notches = geometry::divide(distance as i64, 120) as i32;
    let lines = wheel_lines(notches, per_notch, page);
    let mut actions: Vec<ListAction> = Vec::new();
    actions.push(ListAction::ScrollTo { top: scroll_top as i128 - lines, page });
    actions.push(ListAction::CursorIntoView { page });
    actions.push(ListAction::Refresh);
    actions
}

/// What a change of the size of the window does: the list is scrolled back where it shows less
/// than it could.
pub fn on_size(m: &Metrics, scroll_top: usize) -> (actions: Vec<ListAction>)
    ensures
        actions@ == scrolled_again(*m, scroll_top),
{
    let mut actions: Vec<ListAction> = Vec::new();
    actions.push(ListAction::ScrollTo { top: scroll_top as i128, page: m.page_rows() });
    actions.push(ListAction::Refresh);
    assert(actions@ =~= scrolled_again(*m, scroll_top));
    actions
}

/// The list stays where it is scrolled to, as far as that can be.
pub open spec fn scrolled_again(m: Metrics, scroll_top: usize) -> Seq<ListAction> {
    seq![
        ListAction::ScrollTo { top: scroll_top as i128, page: rows_of(m) as usize },
        ListAction::Refresh,
    ]
}

/// How a list is sorted when a column is clicked that sorts by `target`: the other way round
/// where it is sorted by that already.
pub fn sort_by_column(target: SortType, sort: SortType, reverse: bool) -> (sorted: (SortType, bool))
    ensures
        sorted == (target, target == sort && !reverse),
{
    (target, target == sort && !reverse)
}

/// Whether a column shows names.
pub open spec fn is_name(kind: ColumnKind) -> bool {
    kind == ColumnKind::FileName || kind == ColumnKind::FileBaseName
}

/// Whether a column shows names.
pub fn is_name_column(kind: ColumnKind) -> (yes: bool)
    ensures
        yes == is_name(kind),
{
    kind == ColumnKind::FileName || kind == ColumnKind::FileBaseName
}

/// The state of a list that is not in what it lists.
pub struct FileListView {
    pub cursor_visible: bool,
    pub thumbnail: bool,
    /// How many files were selected, and how large they were, when that was last told.
    pub last_selection: Option<(u64, u64)>,
    /// What is shown instead of the list while it is read.
    pub loading: Option<Spinner>,
    /// After how many nanoseconds it is shown.
    pub progress_delay: u128,
    /// Which reading of the list is the last one.
    pub generation: u64,
    /// What is dragged over the list.
    pub drag_sources: Vec<String>,
    /// The row that something would be dropped on.
    pub drop_hover_row: Option<usize>,
    pub mouse: Mouse,
}

impl FileListView {
    /// A list that shows nothing yet.
    pub fn new(progress_delay: u128) -> (view: FileListView)
        ensures
            !view.cursor_visible,
            !view.thumbnail,
            view.last_selection is None,
            view.loading is None,
            view.progress_delay == progress_delay,
            view.generation == 0,
            view.drag_sources@.len() == 0,
            view.drop_hover_row is None,
            view.mouse == idle_mouse(),
    {
        FileListView {
            cursor_visible: false,
            thumbnail: false,
            last_selection: None,
            loading: None,
            progress_delay,
            generation: 0,
            drag_sources: Vec::new(),
            drop_hover_row: None,
            mouse: Mouse::idle(),
        }
    }

    /// The cursor is shown or not; whether the list is to be drawn for that.
    pub fn set_cursor_visible(&mut self, visible: bool) -> (draw: bool)
        ensures
            draw == (old(self).cursor_visible != visible),
            *final(self) == (FileListView { cursor_visible: visible, ..*old(self) }),
    {
        let draw = self.cursor_visible != visible;
        self.cursor_visible = visible;
        draw
    }

    /// What is selected is told where it is not what was told last.
    pub fn refresh(&mut self, state: &FileListState) -> (told: Option<(u64, u64)>)
        ensures
            ({
                let n = state.items@.len() as int;
                let count = crate::file_item::selected_in(state.items@, n);
                let size = crate::file_item::selected_size_in(state.items@, n);
                &&& final(self).last_selection matches Some((c, s)) && c == count && s == size
                &&& told == (if old(self).last_selection == final(self).last_selection {
                    None
                } else {
                    final(self).last_selection
                })
                &&& *final(self) == (FileListView {
                    last_selection: final(self).last_selection,
                    ..*old(self)
                })
            }),
    {
        let (count, size) = state.selected_count_size();
        if let Some((c, s)) = self.last_selection {
            if c == count && s == size {
                return None;
            }
        }
        self.last_selection = Some((count, size));
        Some((count, size))
    }

    /// Thumbnails are shown or not: whether they are now, and what is done for that. Other rows fit
    /// a page then.
    pub fn toggle_thumbnail(&mut self, m: &Metrics, scroll_top: usize) -> (on: (bool, Vec<ListAction>))
        ensures
            on.0 == !old(self).thumbnail,
            on.1@ == scrolled_again((Metrics { thumbnail: on.0, ..*m }), scroll_top),
            *final(self) == (FileListView { thumbnail: on.0, ..*old(self) }),
    {
        let on = !self.thumbnail;
        self.thumbnail = on;
        (on, on_size(&Metrics { thumbnail: on, ..*m }, scroll_top))
    }

    /// The list is read from now on.
    pub fn set_loading(&mut self)
        ensures
            final(self).loading matches Some(s) && s.visible_after == old(self).progress_delay
                && s.frame == 0 && s.done is None,
            *final(self) == (FileListView { loading: final(self).loading, ..*old(self) }),
    {
        self.loading = Some(Spinner::with_delay(self.progress_delay));
    }

    /// Another reading of the list begins.
    pub fn bump_load_gen(&mut self) -> (generation: u64)
        ensures
            generation == (if old(self).generation == u64::MAX {
                0
            } else {
                (old(self).generation + 1) as u64
            }),
            *final(self) == (FileListView { generation, ..*old(self) }),
    {
        self.generation = self.generation.wrapping_add(1);
        self.generation
    }

    /// Which reading of the list is the last one. What another one gives comes too late.
    pub fn load_gen(&self) -> (generation: u64)
        ensures
            generation == self.generation,
    {
        self.generation
    }

    /// The list was read; whether it is to be drawn for that.
    pub fn clear_loading(&mut self) -> (draw: bool)
        ensures
            draw == old(self).loading is Some,
            *final(self) == (FileListView { loading: None, ..*old(self) }),
    {
        let draw = self.loading.is_some();
        self.loading = None;
        draw
    }

    /// Whether the list is being read.
    pub fn is_loading(&self) -> (yes: bool)
        ensures
            yes == self.loading is Some,
    {
        self.loading.is_some()
    }

    /// What is shown while the list is read goes on; whether the list is to be drawn for that.
    pub fn tick_loading(&mut self) -> (draw: bool)
        ensures
            draw == old(self).loading is Some,
            final(self).loading is Some == old(self).loading is Some,
            old(self).loading matches Some(before) ==> (final(self).loading matches Some(after)
                && after.frame == (if before.frame < usize::MAX {
                (before.frame + 1) as usize
            } else {
                0
            }) && after.visible_after == before.visible_after && after.done == before.done
                && after.started == before.started),
            *final(self) == (FileListView { loading: final(self).loading, ..*old(self) }),
    {
        match self.loading.take() {
            Some(mut spinner) => {
                spinner.tick();
                self.loading = Some(spinner);
                true
            },
            None => false,
        }
    }

    /// The row that something would be dropped on is marked; whether the list is to be drawn for
    /// that.
    pub fn set_drop_hover(&mut self, row: Option<usize>) -> (draw: bool)
        ensures
            draw == (old(self).drop_hover_row != row),
            *final(self) == (FileListView { drop_hover_row: row, ..*old(self) }),
    {
        let draw = match (self.drop_hover_row, row) {
            (Some(a), Some(b)) => a != b,
            (None, None) => false,
            _ => true,
        };
        self.drop_hover_row = row;
        draw
    }

    /// Something is dragged into the list: what dropping it would do, and whether the list is to
    /// be drawn for that.
    pub fn drag_enter(
        &mut self,
        sources: Vec<String>,
        at: &Option<DropPlace>,
        ctrl: bool,
        shift: bool,
    ) -> (shown: (DropEffect, bool))
        ensures
            ({
                let told = feedback_of(sources.deep_view(), place_of(*at), ctrl, shift);
                &&& shown == (told.0, old(self).drop_hover_row != told.1)
                &&& *final(self) == (FileListView {
                    drag_sources: sources,
                    drop_hover_row: told.1,
                    ..*old(self)
                })
            }),
    {
        self.drag_sources = sources;
        self.drag_over(at, ctrl, shift)
    }

    /// What was dragged into the list is dragged on: what dropping it would do, and whether the
    /// list is to be drawn for that.
    pub fn drag_over(&mut self, at: &Option<DropPlace>, ctrl: bool, shift: bool) -> (shown: (
        DropEffect,
        bool,
    ))
        ensures
            ({
                let told = feedback_of(
                    old(self).drag_sources.deep_view(),
                    place_of(*at),
                    ctrl,
                    shift,
                );
                &&& shown == (told.0, old(self).drop_hover_row != told.1)
                &&& *final(self) == (FileListView { drop_hover_row: told.1, ..*old(self) })
            }),
    {
        let (effect, row) = update_drop_feedback(&self.drag_sources, at, ctrl, shift);
        (effect, self.set_drop_hover(row))
    }

    /// What was dragged into the list is dragged out of it; whether the list is to be drawn for
    /// that.
    pub fn drag_leave(&mut self) -> (draw: bool)
        ensures
            draw == (old(self).drop_hover_row is Some),
            final(self).drag_sources@.len() == 0,
            *final(self) == (FileListView {
                drag_sources: final(self).drag_sources,
                drop_hover_row: None,
                ..*old(self)
            }),
    {
        self.drag_sources = Vec::new();
        self.set_drop_hover(None)
    }

    /// Something is dropped on the list: what that does and where to, and whether the list is to be
    /// drawn for it. What was told while it was dragged is forgotten.
    pub fn drop_files(
        &mut self,
        sources: &Vec<String>,
        at: Option<DropPlace>,
        ctrl: bool,
        shift: bool,
    ) -> (done: (DropEffect, Option<(String, bool)>, bool))
        ensures
            ({
                let told = feedback_of(sources.deep_view(), place_of(at), ctrl, shift);
                let does = drop_of(sources.deep_view(), place_of(at), ctrl, shift);
                &&& done.0 == told.0
                &&& match done.1 {
                    Some((dir, moved)) => does == Some((dir@, moved)),
                    None => does is None,
                }
                &&& done.2 == (old(self).drop_hover_row is Some)
            }),
            final(self).drag_sources@.len() == 0,
            *final(self) == (FileListView {
                drag_sources: final(self).drag_sources,
                drop_hover_row: None,
                ..*old(self)
            }),
    {
        let draw = self.drag_leave();
        let (effect, _) = update_drop_feedback(sources, &at, ctrl, shift);
        (effect, finish_drop(sources, at, ctrl, shift), draw)
    }

    /// What is shown instead of the list `elapsed` nanoseconds after it began to be read: nothing
    /// where it is not read, or not yet for long.
    pub fn loading_at(&self, elapsed: u128) -> (glyph: Option<&'static str>)
        ensures
            glyph == (match self.loading {
                Some(s) => if elapsed >= s.visible_after {
                    Some(SPINNER_FRAMES[s.frame as int % 10])
                } else {
                    None
                },
                None => None,
            }),
    {
        match &self.loading {
            Some(spinner) => if spinner.visible_at(elapsed) {
                Some(spinner.glyph())
            } else {
                None
            },
            None => None,
        }
    }

    /// What is shown instead of the list now. When that begins depends on the clock, but without a
    /// delay it is shown at once.
    pub fn loading_now(&self) -> (glyph: Option<&'static str>)
        ensures
            self.loading is None ==> glyph is None,
            self.loading matches Some(s) && s.visible_after == 0 ==> glyph is Some,
            glyph matches Some(g) ==> (self.loading matches Some(s) && g
                == SPINNER_FRAMES[s.frame as int % 10]),
    {
        match &self.loading {
            Some(spinner) => if spinner.visible() {
                Some(spinner.glyph())
            } else {
                None
            },
            None => None,
        }
    }
}

/// The thumb of the scroll bar never leaves its track. It is at the upper end where the list is
/// at its start, and at the lower end where it is at its end.
pub proof fn law_thumb_stays_in_track(m: Metrics, count: int, scroll_top: int)
    requires
        has_thumb(m, count),
        0 <= scroll_top,
        count <= i32::MAX,
    ensures
        header_of(m) <= thumb_start(m, count, scroll_top),
        thumb_start(m, count, scroll_top) + thumb_height(m, count) <= m.client_h,
        0 <= thumb_height(m, count),
        scroll_top == 0 ==> thumb_start(m, count, scroll_top) == header_of(m),
        scroll_top >= count - rows_of(m) ==> thumb_start(m, count, scroll_top) + thumb_height(
            m,
            count,
        ) == m.client_h,
{
    let track = m.client_h - header_of(m);
    let page = rows_of(m);
    lemma_thumb(track, page, count);
    let last = count - page;
    lemma_part(track - thumb_height(m, count), geometry::lesser(scroll_top, last), last);
}

/// A point in a row that is seen is in that row.
pub proof fn law_points_of_a_row(
    m: Metrics,
    count: int,
    scroll_top: usize,
    row: usize,
    y: int,
)
    requires
        item_of(m) > 0,
        scroll_top <= row < count,
        row_top(m, scroll_top, row) <= y < row_top(m, scroll_top, row) + item_of(m),
    ensures
        row_of(m, count, scroll_top as int, y) == Some(row as int),
{
    let n = row - scroll_top;
    let h = item_of(m);
    let off = y - header_of(m);
    assert(off / h == n) by (nonlinear_arith)
        requires
            h > 0,
            n * h <= off < n * h + h,
    ;
    assert(n * h >= 0) by (nonlinear_arith)
        requires
            n >= 0,
            h > 0,
    ;
}

/// A point is in one column at most: it lies between the borders of the one that it is in.
pub proof fn law_points_of_a_column(widths: Seq<i32>, x: int, from: int)
    requires
        0 <= from,
    ensures
        column_of(widths, x, from) matches Some(c) ==> {
            &&& from <= c < widths.len()
            &&& left_of(widths, c) <= x < left_of(widths, c + 1)
        },
        column_of(widths, x, from) is None ==> forall|c: int|
            from <= c < widths.len() ==> !(left_of(widths, c) <= x < #[trigger] left_of(
                widths,
                c + 1,
            )),
    decreases widths.len() - from,
{
    if from < widths.len() {
        law_points_of_a_column(widths, x, from + 1);
    }
}

/// What a drop does is what was shown while it was over the list.
pub proof fn law_drop_does_what_was_shown(
    sources: Seq<Txt>,
    at: Option<DropPlace<Txt>>,
    ctrl: bool,
    shift: bool,
)
    ensures
        match feedback_of(sources, at, ctrl, shift).0 {
            DropEffect::NoEffect => drop_of(sources, at, ctrl, shift) is None,
            DropEffect::Move => drop_of(sources, at, ctrl, shift) matches Some((_, moved)) && moved,
            DropEffect::Copy => drop_of(sources, at, ctrl, shift) matches Some((_, moved))
                && !moved,
            DropEffect::Link => false,
        },
{
}

/// Letting the button go ends whatever the mouse was doing.
pub proof fn law_release_ends_everything(mouse: Mouse, m: Metrics, cursor: usize, ctrl: bool, shift: bool)
    ensures
        ({
            let after = released(mouse, m, cursor, ctrl, shift).0;
            &&& after.drag_start is None && after.sb_drag is None
            &&& mouse.sb_drag is None ==> after == idle_mouse()
        }),
{
}

} // verus!
