//! What is drawn of a list, in the order in which it is drawn.

use crate::file_item::Align;
use crate::file_item::ColumnKind;
use crate::file_item::FileListState;
use crate::file_item::SortType;
use crate::file_list::Metrics;
use crate::file_list::is_name_column;
use crate::file_list::scrollbar_geom;
use crate::file_list::top_of_row;
use crate::file_list;
use crate::geometry;
use crate::text;
use vstd::prelude::*;

verus! {

/// A text in specifications.
pub type Txt = Seq<char>;

/// An area of the list, by its edges.
#[derive(Clone, Copy, Debug, PartialEq, Eq, Structural)]
pub struct Edges {
    pub left: i64,
    pub top: i64,
    pub right: i64,
    pub bottom: i64,
}

/// The area between four edges.
pub open spec fn area(left: int, top: int, right: int, bottom: int) -> Edges {
    Edges { left: left as i64, top: top as i64, right: right as i64, bottom: bottom as i64 }
}

/// What something is painted with.
#[derive(Clone, Copy, Debug, PartialEq, Eq, Structural)]
pub enum Paint {
    Background,
    /// The face of bars and headers.
    Face,
    Light,
    Shadow,
    Selected,
    /// Selected, in the list that is not active.
    SelectedFaded,
    Cursor,
    /// The frame of the row that something would be dropped on.
    DropFrame,
    Track,
    Thumb,
    /// The ground of what a search found.
    Found,
}

/// How far a colour is brought near to another one: so many parts of the way.
#[derive(Clone, Copy, Debug, PartialEq, Eq, Structural)]
pub struct Fade {
    pub towards: Paint,
    pub parts: u32,
    pub of: u32,
}

/// How a colour comes from another one, where it does: a row that is selected in the list that is
/// not active has the colour of selected rows, three fifths of the way to the background.
pub open spec fn fade_of(paint: Paint) -> Option<(Paint, Fade)> {
    if paint == Paint::SelectedFaded {
        Some((Paint::Selected, Fade { towards: Paint::Background, parts: 3, of: 5 }))
    } else {
        None
    }
}

/// How a colour comes from another one, where it does.
pub fn faded(paint: Paint) -> (from: Option<(Paint, Fade)>)
    ensures
        from == fade_of(paint),
{
    match paint {
        Paint::SelectedFaded => Some(
            (Paint::Selected, Fade { towards: Paint::Background, parts: 3, of: 5 }),
        ),
        _ => None,
    }
}

/// The colour of where a link leads: that of the row's text, two fifths of the way to the ground of
/// the row.
pub open spec fn link_fade(ground: Paint) -> Fade {
    Fade { towards: ground, parts: 2, of: 5 }
}

/// Something that is drawn.
#[derive(Clone, Debug, PartialEq, Eq)]
pub enum DrawOp<S = String> {
    Fill { area: Edges, paint: Paint },
    Frame { area: Edges, paint: Paint },
    /// A raised edge inside an area.
    Bevel { area: Edges },
    HorizontalLine { x0: i64, x1: i64, y: i64, paint: Paint },
    HeaderText { area: Edges, text: S },
    /// How the list is sorted. It stands out where that is not the usual way.
    SortGlyph { area: Edges, glyph: &'static str, stands_out: bool, size: i64 },
    /// The icon of a row: its own where it may have one, and with an arrow where it leads up.
    Icon { row: usize, x: i64, y: i64, side: i64, cap: i64, own: bool, arrow: bool },
    /// The text of a cell, as far as there is room for it. In the colour of selected files, or
    /// else in that of the item.
    Cell {
        row: usize,
        col: usize,
        area: Edges,
        text: S,
        right: bool,
        selected_ink: bool,
        is_name: bool,
    },
    /// A part of a name, in the colour of what a search found or else in that of the item.
    Part { row: usize, x: i64, top: i64, text: S, found: bool },
    /// Where a link leads, to the right of its name: in the colour of selected files, or else in
    /// that of the item, brought near to another colour.
    LinkTarget { row: usize, area: Edges, text: S, selected_ink: bool, fade: Fade },
    /// What is shown while the list is read.
    Loading { text: S },
}

impl View for DrawOp<String> {
    type V = DrawOp<Txt>;

    open spec fn view(&self) -> DrawOp<Txt> {
        match *self {
            DrawOp::Fill { area, paint } => DrawOp::Fill { area, paint },
            DrawOp::Frame { area, paint } => DrawOp::Frame { area, paint },
            DrawOp::Bevel { area } => DrawOp::Bevel { area },
            DrawOp::HorizontalLine { x0, x1, y, paint } => DrawOp::HorizontalLine {
                x0,
                x1,
                y,
                paint,
            },
            DrawOp::HeaderText { area, text } => DrawOp::HeaderText { area, text: text@ },
            DrawOp::SortGlyph { area, glyph, stands_out, size } => DrawOp::SortGlyph {
                area,
                glyph,
                stands_out,
                size,
            },
            DrawOp::Icon { row, x, y, side, cap, own, arrow } => DrawOp::Icon {
                row,
                x,
                y,
                side,
                cap,
                own,
                arrow,
            },
            DrawOp::Cell { row, col, area, text, right, selected_ink, is_name } => DrawOp::Cell {
                row,
                col,
                area,
                text: text@,
                right,
                selected_ink,
                is_name,
            },
            DrawOp::Part { row, x, top, text, found } => DrawOp::Part {
                row,
                x,
                top,
                text: text@,
                found,
            },
            DrawOp::LinkTarget { row, area, text, selected_ink, fade } => DrawOp::LinkTarget {
                row,
                area,
                text: text@,
                selected_ink,
                fade,
            },
            DrawOp::Loading { text } => DrawOp::Loading { text: text@ },
        }
    }
}

/// What is drawn, as a specification reads it.
pub open spec fn ops_of(ops: Seq<DrawOp>) -> Seq<DrawOp<Txt>> {
    ops.map_values(|op: DrawOp| op@)
}

/// How a list looks, apart from what it shows.
#[derive(Clone, Copy, Debug, PartialEq, Eq, Structural)]
pub struct Look {
    pub m: Metrics,
    /// The list is the active one.
    pub cursor_visible: bool,
    /// The room beside the text of a cell.
    pub margin: i32,
    /// The room between an icon and the text.
    pub gap: i32,
    pub font_size: i32,
    pub default_sort: SortType,
    pub default_reverse: bool,
    /// What is shown is on disk.
    pub on_disk: bool,
    pub drop_hover_row: Option<usize>,
    /// The last row that is seen.
    pub bottom: usize,
}

/// Something is drawn after what is drawn already.
fn draw(ops: &mut Vec<DrawOp>, op: DrawOp)
    ensures
        ops_of(final(ops)@) == ops_of(old(ops)@).push(op@),
{
    ops.push(op);
    assert(ops_of(ops@) =~= ops_of(old(ops)@).push(op@));
}

/// Whether a list that is sorted so is sorted by a column of this kind.
pub open spec fn sorts_by(kind: ColumnKind, sort: SortType) -> bool {
    match sort {
        SortType::FileName | SortType::FileNameExpLike => file_list::is_name(kind),
        SortType::Extension | SortType::ExtensionExpLike => kind == ColumnKind::FileExtension,
        SortType::Length => kind == ColumnKind::Length,
        SortType::CreateTime => kind == ColumnKind::CreateTime || kind == ColumnKind::CreateTimeS,
        SortType::LastWriteTime => kind == ColumnKind::LastWriteTime || kind
            == ColumnKind::LastWriteTimeS,
        SortType::Attribute => kind == ColumnKind::Attribute,
    }
}

/// Whether a list that is sorted so is sorted by a column of this kind.
pub fn sort_match(kind: ColumnKind, sort: SortType) -> (yes: bool)
    ensures
        yes == sorts_by(kind, sort),
{
    match sort {
        SortType::FileName | SortType::FileNameExpLike => is_name_column(kind),
        SortType::Extension | SortType::ExtensionExpLike => kind == ColumnKind::FileExtension,
        SortType::Length => kind == ColumnKind::Length,
        SortType::CreateTime => kind == ColumnKind::CreateTime || kind == ColumnKind::CreateTimeS,
        SortType::LastWriteTime => kind == ColumnKind::LastWriteTime || kind
            == ColumnKind::LastWriteTimeS,
        SortType::Attribute => kind == ColumnKind::Attribute,
    }
}

/// The glyph for how a list is sorted: up or down, and filled where numbers in names count as
/// numbers.
pub open spec fn glyph_of(sort: SortType, reverse: bool) -> &'static str {
    let filled = sort == SortType::FileNameExpLike || sort == SortType::ExtensionExpLike;
    if !filled && !reverse {
        "△"
    } else if !filled {
        "▽"
    } else if !reverse {
        "▲"
    } else {
        "▼"
    }
}

/// The glyph for how a list is sorted.
pub fn sort_glyph(sort: SortType, reverse: bool) -> (glyph: &'static str)
    ensures
        glyph == glyph_of(sort, reverse),
{
    let filled = match sort {
        SortType::FileNameExpLike | SortType::ExtensionExpLike => true,
        _ => false,
    };
    match (filled, reverse) {
        (false, false) => "△",
        (false, true) => "▽",
        (true, false) => "▲",
        (true, true) => "▼",
    }
}

/// How large the glyph is, in percent of the text.
pub const SORT_GLYPH_SIZE_PERCENT: i64 = 70;

/// How large the glyph is at least.
pub const SORT_GLYPH_MIN_SIZE: i64 = 6;

/// How large the glyph is.
pub open spec fn glyph_size(font_size: int) -> int {
    geometry::greater(
        geometry::cut(font_size * SORT_GLYPH_SIZE_PERCENT, 100),
        SORT_GLYPH_MIN_SIZE as int,
    )
}

/// What is drawn of the header of column `c`: its face, its text, and how the list is sorted if
/// it is sorted by it. `text_w` says how wide the text is.
pub open spec fn header_ops(
    look: Look,
    state: FileListState,
    widths: Seq<i32>,
    text_w: Seq<i32>,
    c: int,
) -> Seq<DrawOp<Txt>> {
    let left = file_list::left_of(widths, c);
    let right = file_list::left_of(widths, c + 1);
    let h = file_list::header_of(look.m);
    let col = state.columns@[c];
    let face = area(left, 0, right, h);
    let ground = seq![DrawOp::Fill { area: face, paint: Paint::Face }, DrawOp::Bevel { area: face }];
    let label = if col.text@.len() > 0 {
        seq![
            DrawOp::HeaderText {
                area: area(left + look.margin, 4, right - look.margin, h),
                text: col.text@,
            },
        ]
    } else {
        Seq::empty()
    };
    let sorted = if sorts_by(col.kind, state.sort_type) {
        seq![
            DrawOp::SortGlyph {
                area: area(left + look.margin + text_w[c] + 8, 0, right, h),
                glyph: glyph_of(state.sort_type, state.sort_reverse),
                stands_out: state.sort_type != look.default_sort || state.sort_reverse
                    != look.default_reverse,
                size: glyph_size(look.font_size as int) as i64,
            },
        ]
    } else {
        Seq::empty()
    };
    ground + label + sorted
}

/// What is drawn of the headers of the first `n` columns.
pub open spec fn headers(
    look: Look,
    state: FileListState,
    widths: Seq<i32>,
    text_w: Seq<i32>,
    n: int,
) -> Seq<DrawOp<Txt>>
    decreases n,
{
    if n <= 0 {
        Seq::empty()
    } else {
        headers(look, state, widths, text_w, n - 1) + header_ops(
            look,
            state,
            widths,
            text_w,
            n - 1,
        )
    }
}

/// Where a column can start and end.
pub open spec fn is_near(x: int) -> bool {
    -0x4000_0000_0000_0000 <= x <= 0x4000_0000_0000_0000
}

proof fn lemma_near(widths: Seq<i32>, n: int)
    requires
        0 <= n <= widths.len() <= i32::MAX,
    ensures
        is_near(file_list::left_of(widths, n)),
    decreases n,
{
    lemma_left(widths, n);
    assert(-0x8000_0000 * n >= -0x4000_0000_0000_0000 && 0x7fff_ffff * n
        <= 0x4000_0000_0000_0000) by (nonlinear_arith)
        requires
            0 <= n <= 0x7fff_ffff,
    ;
}

proof fn lemma_left(widths: Seq<i32>, n: int)
    requires
        0 <= n <= widths.len(),
    ensures
        -0x8000_0000 * n <= file_list::left_of(widths, n) <= 0x7fff_ffff * n,
    decreases n,
{
    if n > 0 {
        lemma_left(widths, n - 1);
    }
}

/// The header of a column is drawn.
fn draw_header_cell(
    ops: &mut Vec<DrawOp>,
    look: &Look,
    state: &FileListState,
    left: i64,
    right: i64,
    text_w: i32,
    c: usize,
    Ghost(widths): Ghost<Seq<i32>>,
    Ghost(all_w): Ghost<Seq<i32>>,
)
    requires
        c < state.columns@.len(),
        c < all_w.len(),
        all_w[c as int] == text_w,
        left == file_list::left_of(widths, c as int),
        right == file_list::left_of(widths, c + 1),
        is_near(left as int),
        is_near(right as int),
    ensures
        ops_of(final(ops)@) == ops_of(old(ops)@) + header_ops(
            *look,
            *state,
            widths,
            all_w,
            c as int,
        ),
{
    let ghost before = ops_of(ops@);
    let h = look.m.header_height();
    let face = Edges { left, top: 0, right, bottom: h };
    draw(ops, DrawOp::Fill { area: face, paint: Paint::Face });
    draw(ops, DrawOp::Bevel { area: face });
    let margin: i64 = look.margin as i64;
    let col = &state.columns[c];
    proof {
        reveal_strlit("");
    }
    if !col.text.as_str().is_empty() {
        draw(
            ops,
            DrawOp::HeaderText {
                area: Edges { left: left + margin, top: 4, right: right - margin, bottom: h },
                text: text::copy(col.text.as_str()),
            },
        );
    }
    if sort_match(col.kind, state.sort_type) {
        let usual = state.sort_type == look.default_sort && state.sort_reverse
            == look.default_reverse;
        let size = geometry::max(
            geometry::divide(look.font_size as i64 * SORT_GLYPH_SIZE_PERCENT, 100),
            SORT_GLYPH_MIN_SIZE,
        );
        draw(
            ops,
            DrawOp::SortGlyph {
                area: Edges { left: left + margin + text_w as i64 + 8, top: 0, right, bottom: h },
                glyph: sort_glyph(state.sort_type, state.sort_reverse),
                stands_out: !usual,
                size,
            },
        );
    }
    assert(ops_of(ops@) =~= before + header_ops(*look, *state, widths, all_w, c as int));
}

/// What is written in a cell, and what was measured of it.
#[derive(Clone, Debug, PartialEq, Eq)]
pub struct CellText {
    /// The whole text.
    pub text: String,
    /// The text as far as there is room for it.
    pub shown: String,
    /// How wide that is.
    pub shown_w: i32,
    /// What a search found in it.
    pub found: Vec<Span>,
    /// How wide its parts are, those that a search found and those between.
    pub part_w: Vec<i32>,
    /// Where a link leads, behind an arrow, as far as there is room for it beside the name.
    pub link: String,
}

/// Whether all parts of a text of which a search found some were measured.
pub open spec fn is_measured(cell: CellText) -> bool {
    cell.found@.len() > 0 ==> {
        &&& cell.part_w@.len() == parted(cell.shown@, cell.found@, 0).len()
        &&& cell.part_w@.len() <= 0xff_ffff
    }
}

/// Whether all cells were measured.
pub open spec fn are_measured(texts: Seq<Vec<CellText>>) -> bool {
    forall|i: int, c: int|
        0 <= i < texts.len() && 0 <= c < texts[i]@.len() ==> is_measured(#[trigger] texts[i]@[c])
}

/// What is written in a cell of a row that is seen, counted from the first that is.
pub open spec fn text_at(texts: Seq<Vec<CellText>>, seen: int, c: int) -> Option<CellText> {
    if 0 <= seen < texts.len() && 0 <= c < texts[seen]@.len() {
        Some(texts[seen]@[c])
    } else {
        None
    }
}

/// Whether a row that is seen may have an icon of its own.
pub open spec fn own_at(own: Seq<bool>, seen: int) -> bool {
    0 <= seen < own.len() && own[seen]
}

/// Where the text of a cell starts: after the icon, where there is one.
pub open spec fn text_left(look: Look, left: int, kind: ColumnKind) -> int {
    left + look.margin + if file_list::is_name(kind) && look.m.icons_visible {
        file_list::icon_of(look.m) + look.gap
    } else {
        0
    }
}

/// What is drawn of the icon of a row, in a cell with its name.
pub open spec fn icon_ops(
    look: Look,
    state: FileListState,
    left: int,
    own: bool,
    row: usize,
) -> Seq<DrawOp<Txt>> {
    let item = state.items@[row as int];
    let y = file_list::row_top(look.m, state.scroll_top, row);
    let side = file_list::icon_of(look.m);
    seq![
        DrawOp::Icon {
            row,
            x: (left + look.margin) as i64,
            y: (y + geometry::cut(file_list::item_of(look.m) - side, 2)) as i64,
            side: side as i64,
            cap: file_list::icon_cap_of(look.m) as i64,
            own: !item.is_dir && !item.is_parent && own && look.on_disk,
            arrow: item.is_parent,
        },
    ]
}

/// Whether what a search found is shown in a cell: it is shown in names, but not in those of
/// selected files.
pub open spec fn shows_found(is_name: bool, selected: bool, found: Seq<Span>) -> bool {
    is_name && !selected && found.len() > 0
}

/// What the ground of a row is painted with.
pub open spec fn ground_of(look: Look, selected: bool) -> Paint {
    if !selected {
        Paint::Background
    } else if look.cursor_visible {
        Paint::Selected
    } else {
        Paint::SelectedFaded
    }
}

/// Where the target of a link is drawn: in the room that its name leaves, with twice the usual room
/// between the two.
pub open spec fn beside(cell: Edges, name_w: i32, margin: i32) -> Edges {
    Edges { left: (cell.left + name_w + margin * 2) as i64, ..cell }
}

/// What is drawn beside the name of a link: where it leads, unless there is room for no more than
/// the arrow.
pub open spec fn link_ops(
    look: Look,
    state: FileListState,
    cell: CellText,
    place: Edges,
    is_name: bool,
    row: usize,
) -> Seq<DrawOp<Txt>> {
    let item = state.items@[row as int];
    if is_name && item.link_target is Some && cell.link@.len() > 2 {
        seq![
            DrawOp::LinkTarget {
                row,
                area: beside(place, cell.shown_w, look.margin),
                text: cell.link@,
                selected_ink: item.selected && look.cursor_visible,
                fade: link_fade(ground_of(look, item.selected)),
            },
        ]
    } else {
        Seq::empty()
    }
}

/// What is drawn of the text of a cell: the parts of a name of which a search found some, or the
/// text in one.
pub open spec fn name_ops(
    look: Look,
    state: FileListState,
    cell: CellText,
    place: Edges,
    row: usize,
    c: int,
) -> Seq<DrawOp<Txt>> {
    let item = state.items@[row as int];
    let col = state.columns@[c];
    let is_name = file_list::is_name(col.kind);
    if shows_found(is_name, item.selected, cell.found@) {
        let runs = parted(cell.shown@, cell.found@, 0);
        highlighted(
            runs,
            cell.part_w@,
            place.left as int,
            place.top as int,
            look.m,
            row,
            runs.len() as int,
        )
    } else {
        seq![
            DrawOp::Cell {
                row,
                col: c as usize,
                area: place,
                text: cell.shown@,
                right: col.align == Align::Right,
                selected_ink: item.selected && look.cursor_visible,
                is_name,
            },
        ]
    }
}

/// Where the text of a cell is drawn.
pub open spec fn text_place(
    look: Look,
    state: FileListState,
    widths: Seq<i32>,
    row: usize,
    c: int,
) -> Edges {
    let y = file_list::row_top(look.m, state.scroll_top, row);
    area(
        text_left(look, file_list::left_of(widths, c), state.columns@[c].kind),
        y,
        file_list::left_of(widths, c + 1),
        y + file_list::item_of(look.m),
    )
}

/// What is drawn of a cell: nothing where it is empty, else its icon where it holds a name, its
/// text, and where it leads if it is a link.
pub open spec fn cell_ops(
    look: Look,
    state: FileListState,
    widths: Seq<i32>,
    texts: Seq<Vec<CellText>>,
    own: Seq<bool>,
    row: usize,
    c: int,
) -> Seq<DrawOp<Txt>> {
    let seen = row - state.scroll_top;
    let is_name = file_list::is_name(state.columns@[c].kind);
    let place = text_place(look, state, widths, row, c);
    match text_at(texts, seen, c) {
        Some(cell) => if cell.text@.len() == 0 {
            Seq::empty()
        } else {
            (if is_name && look.m.icons_visible {
                icon_ops(look, state, file_list::left_of(widths, c), own_at(own, seen), row)
            } else {
                Seq::empty()
            }) + name_ops(look, state, cell, place, row, c) + link_ops(
                look,
                state,
                cell,
                place,
                is_name,
                row,
            )
        },
        None => Seq::empty(),
    }
}

/// What is drawn of the first `n` cells of a row.
pub open spec fn cells(
    look: Look,
    state: FileListState,
    widths: Seq<i32>,
    texts: Seq<Vec<CellText>>,
    own: Seq<bool>,
    row: usize,
    n: int,
) -> Seq<DrawOp<Txt>>
    decreases n,
{
    if n <= 0 {
        Seq::empty()
    } else {
        cells(look, state, widths, texts, own, row, n - 1) + cell_ops(
            look,
            state,
            widths,
            texts,
            own,
            row,
            n - 1,
        )
    }
}

/// What is drawn of a row: the ground of a selected one, its cells, and a line under the text
/// where the cursor is on it.
pub open spec fn row_ops(
    look: Look,
    state: FileListState,
    widths: Seq<i32>,
    texts: Seq<Vec<CellText>>,
    own: Seq<bool>,
    row: usize,
) -> Seq<DrawOp<Txt>> {
    let y = file_list::row_top(look.m, state.scroll_top, row);
    let h = file_list::item_of(look.m);
    let total = file_list::left_of(widths, widths.len() as int);
    let ground = if state.items@[row as int].selected {
        seq![
            DrawOp::<Txt>::Fill {
                area: area(0, y, total, y + h + 1),
                paint: ground_of(look, true),
            },
        ]
    } else {
        Seq::empty()
    };
    let line = if look.cursor_visible && row == state.cursor {
        seq![
            DrawOp::<Txt>::HorizontalLine {
                x0: 0,
                x1: total as i64,
                y: (y + geometry::cut(h - look.m.font_height, 2) + look.m.font_height - 1) as i64,
                paint: Paint::Cursor,
            },
        ]
    } else {
        Seq::empty()
    };
    ground + cells(look, state, widths, texts, own, row, state.columns@.len() as int) + line
}

/// How many rows are drawn.
pub open spec fn drawn_rows(look: Look, state: FileListState) -> int {
    let end = geometry::lesser(look.bottom + 1, state.items@.len() as int);
    if state.scroll_top < end {
        end - state.scroll_top
    } else {
        0
    }
}

/// What is drawn of the first `n` rows that are seen.
pub open spec fn rows(
    look: Look,
    state: FileListState,
    widths: Seq<i32>,
    texts: Seq<Vec<CellText>>,
    own: Seq<bool>,
    n: int,
) -> Seq<DrawOp<Txt>>
    decreases n,
{
    if n <= 0 {
        Seq::empty()
    } else {
        rows(look, state, widths, texts, own, n - 1) + row_ops(
            look,
            state,
            widths,
            texts,
            own,
            (state.scroll_top + n - 1) as usize,
        )
    }
}

/// What is drawn right of the last header: the face goes on to the edge of the list.
pub open spec fn header_rest(look: Look, total: int) -> Seq<DrawOp<Txt>> {
    if total < look.m.client_w {
        let rest = area(total, 0, look.m.client_w as int, file_list::header_of(look.m));
        seq![DrawOp::Fill { area: rest, paint: Paint::Face }, DrawOp::Bevel { area: rest }]
    } else {
        Seq::empty()
    }
}

/// What is drawn of the row that something would be dropped on: a frame two pixels wide.
pub open spec fn drop_frame(look: Look, state: FileListState, total: int) -> Seq<DrawOp<Txt>> {
    match look.drop_hover_row {
        Some(row) => if state.scroll_top <= row <= look.bottom && row < state.items@.len() {
            let y = file_list::row_top(look.m, state.scroll_top, row);
            let h = file_list::item_of(look.m);
            let right = geometry::greater(total, 1);
            seq![
                DrawOp::Frame { area: area(0, y, right, y + h), paint: Paint::DropFrame },
                DrawOp::Frame {
                    area: area(1, y + 1, right - 1, y + h - 1),
                    paint: Paint::DropFrame,
                },
            ]
        } else {
            Seq::empty()
        },
        None => Seq::empty(),
    }
}

/// What is drawn of the scroll bar: its track always, and its thumb where there is something to
/// scroll.
pub open spec fn scroll_bar(look: Look, state: FileListState) -> Seq<DrawOp<Txt>> {
    let m = look.m;
    let count = state.items@.len() as int;
    let h = file_list::header_of(m);
    if m.client_h - h > 0 {
        let x = m.client_w - m.scrollbar_width;
        seq![
            DrawOp::<Txt>::Fill {
                area: area(x, h, m.client_w as int, m.client_h as int),
                paint: Paint::Track,
            },
        ] + if file_list::has_thumb(m, count) {
            let top = file_list::thumb_start(m, count, state.scroll_top as int);
            seq![
                DrawOp::<Txt>::Fill {
                    area: area(
                        x + 1,
                        top,
                        m.client_w - 1,
                        top + file_list::thumb_height(m, count),
                    ),
                    paint: Paint::Thumb,
                },
            ]
        } else {
            Seq::empty()
        }
    } else {
        Seq::empty()
    }
}

/// What is drawn of a list.
pub open spec fn painted(
    look: Look,
    state: FileListState,
    widths: Seq<i32>,
    text_w: Seq<i32>,
    texts: Seq<Vec<CellText>>,
    own: Seq<bool>,
) -> Seq<DrawOp<Txt>> {
    let n = state.columns@.len() as int;
    let total = file_list::left_of(widths, n);
    seq![
        DrawOp::<Txt>::Fill {
            area: area(0, 0, look.m.client_w as int, look.m.client_h as int),
            paint: Paint::Background,
        },
    ] + headers(look, state, widths, text_w, n) + header_rest(look, total) + rows(
        look,
        state,
        widths,
        texts,
        own,
        drawn_rows(look, state),
    ) + drop_frame(look, state, total) + scroll_bar(look, state)
}

/// What is drawn while the list is read.
pub open spec fn loading_ops(look: Look, glyph: Txt) -> Seq<DrawOp<Txt>> {
    seq![
        DrawOp::Fill {
            area: area(0, 0, look.m.client_w as int, look.m.client_h as int),
            paint: Paint::Background,
        },
        DrawOp::Loading { text: glyph + "  読込中"@ },
    ]
}

/// A cell of a row is drawn.
fn draw_cell(
    ops: &mut Vec<DrawOp>,
    look: &Look,
    state: &FileListState,
    left: i64,
    right: i64,
    texts: &Vec<Vec<CellText>>,
    own: &Vec<bool>,
    row: usize,
    c: usize,
    Ghost(widths): Ghost<Seq<i32>>,
)
    requires
        file_list::is_countable(*state),
        state.scroll_top <= row < state.items@.len(),
        c < state.columns@.len(),
        left == file_list::left_of(widths, c as int),
        right == file_list::left_of(widths, c + 1),
        is_near(left as int),
        is_near(right as int),
        are_measured(texts@),
    ensures
        ops_of(final(ops)@) == ops_of(old(ops)@) + cell_ops(
            *look,
            *state,
            widths,
            texts@,
            own@,
            row,
            c as int,
        ),
{
    let ghost before = ops_of(ops@);
    let seen: usize = row - state.scroll_top;
    if seen >= texts.len() || c >= texts[seen].len() {
        assert(ops_of(ops@) =~= before + Seq::<DrawOp<Txt>>::empty());
        return ;
    }
    let cell = &texts[seen][c];
    assert(text_at(texts@, seen as int, c as int) == Some(*cell));
    assert(is_measured(texts@[seen as int]@[c as int]));
    proof {
        reveal_strlit("");
    }
    if cell.text.as_str().is_empty() {
        assert(ops_of(ops@) =~= before + Seq::<DrawOp<Txt>>::empty());
        return ;
    }
    let y = top_of_row(&look.m, state.scroll_top, row);
    let h = look.m.item_height();
    let is_name = is_name_column(state.columns[c].kind);
    let mut at: i64 = left + look.margin as i64;
    if is_name && look.m.icons_visible {
        draw_icon(ops, look, state, left, seen < own.len() && own[seen], row);
        at = at + (look.m.icon_px() + look.gap as i64);
    }
    let place = Edges { left: at, top: y, right, bottom: y + h };
    assert(place == text_place(*look, *state, widths, row, c as int));
    draw_text(ops, look, state, cell, place, row, c);
    draw_link(ops, look, state, cell, place, is_name, row);
    assert(ops_of(ops@) =~= before + cell_ops(
        *look,
        *state,
        widths,
        texts@,
        own@,
        row,
        c as int,
    ));
}

/// Where the text of a cell is drawn, and so how much room there is for it.
pub fn text_area(
    look: &Look,
    state: &FileListState,
    widths: &Vec<i32>,
    row: usize,
    c: usize,
) -> (place: Edges)
    requires
        file_list::is_countable(*state),
        widths@.len() == state.columns@.len(),
        state.scroll_top <= row < state.items@.len(),
        c < state.columns@.len(),
    ensures
        place == text_place(*look, *state, widths@, row, c as int),
{
    let mut at: i64 = start_of(widths, c) + look.margin as i64;
    if is_name_column(state.columns[c].kind) && look.m.icons_visible {
        at = at + (look.m.icon_px() + look.gap as i64);
    }
    let y = top_of_row(&look.m, state.scroll_top, row);
    Edges { left: at, top: y, right: start_of(widths, c + 1), bottom: y + look.m.item_height() }
}

/// The icon of a row is drawn.
fn draw_icon(
    ops: &mut Vec<DrawOp>,
    look: &Look,
    state: &FileListState,
    left: i64,
    own: bool,
    row: usize,
)
    requires
        file_list::is_countable(*state),
        state.scroll_top <= row < state.items@.len(),
        is_near(left as int),
    ensures
        ops_of(final(ops)@) == ops_of(old(ops)@) + icon_ops(*look, *state, left as int, own, row),
{
    let ghost before = ops_of(ops@);
    let item = &state.items[row];
    let y = top_of_row(&look.m, state.scroll_top, row);
    let side = look.m.icon_px();
    draw(
        ops,
        DrawOp::Icon {
            row,
            x: left + look.margin as i64,
            y: y + geometry::divide(look.m.item_height() - side, 2),
            side,
            cap: look.m.icon_cap(),
            own: !item.is_dir && !item.is_parent && own && look.on_disk,
            arrow: item.is_parent,
        },
    );
    assert(ops_of(ops@) =~= before + icon_ops(*look, *state, left as int, own, row));
}

/// The text of a cell is drawn, in parts where a search found some of it.
fn draw_text(
    ops: &mut Vec<DrawOp>,
    look: &Look,
    state: &FileListState,
    cell: &CellText,
    place: Edges,
    row: usize,
    c: usize,
)
    requires
        row < state.items@.len(),
        c < state.columns@.len(),
        is_measured(*cell),
        -0x6000_0000_0000_0000 <= place.left <= 0x6000_0000_0000_0000,
        -0x6000_0000_0000_0000 <= place.top <= 0x6000_0000_0000_0000,
    ensures
        ops_of(final(ops)@) == ops_of(old(ops)@) + name_ops(
            *look,
            *state,
            *cell,
            place,
            row,
            c as int,
        ),
{
    let ghost before = ops_of(ops@);
    let item = &state.items[row];
    let col = &state.columns[c];
    let is_name = is_name_column(col.kind);
    if is_highlighted(is_name, item.selected, &cell.found) {
        let runs = name_runs(cell.shown.as_str(), &cell.found);
        assert(runs_of(runs@).len() == runs@.len());
        let mut parts = draw_name_with_highlight(
            &runs,
            &cell.part_w,
            place.left,
            place.top,
            &look.m,
            row,
        );
        let ghost drawn = parts@;
        ops.append(&mut parts);
        assert(ops_of(ops@) =~= before + ops_of(drawn));
    } else {
        draw(
            ops,
            DrawOp::Cell {
                row,
                col: c,
                area: place,
                text: text::copy(cell.shown.as_str()),
                right: col.align == Align::Right,
                selected_ink: item.selected && look.cursor_visible,
                is_name,
            },
        );
        assert(ops_of(ops@) =~= before + name_ops(*look, *state, *cell, place, row, c as int));
    }
}

/// Where a link leads is drawn beside its name.
fn draw_link(
    ops: &mut Vec<DrawOp>,
    look: &Look,
    state: &FileListState,
    cell: &CellText,
    place: Edges,
    is_name: bool,
    row: usize,
)
    requires
        row < state.items@.len(),
        -0x6000_0000_0000_0000 <= place.left <= 0x6000_0000_0000_0000,
    ensures
        ops_of(final(ops)@) == ops_of(old(ops)@) + link_ops(
            *look,
            *state,
            *cell,
            place,
            is_name,
            row,
        ),
{
    let ghost before = ops_of(ops@);
    let item = &state.items[row];
    if is_name && item.link_target.is_some() && link_is_drawn(cell.link.as_str()) {
        draw(
            ops,
            DrawOp::LinkTarget {
                row,
                area: link_place(place, cell.shown_w, look.margin),
                text: text::copy(cell.link.as_str()),
                selected_ink: item.selected && look.cursor_visible,
                fade: Fade { towards: row_ground(look, item.selected), parts: 2, of: 5 },
            },
        );
    }
    assert(ops_of(ops@) =~= before + link_ops(*look, *state, *cell, place, is_name, row));
}

/// What the ground of a row is painted with.
fn row_ground(look: &Look, selected: bool) -> (paint: Paint)
    ensures
        paint == ground_of(*look, selected),
{
    if !selected {
        Paint::Background
    } else if look.cursor_visible {
        Paint::Selected
    } else {
        Paint::SelectedFaded
    }
}

/// A row is drawn.
fn draw_row(
    ops: &mut Vec<DrawOp>,
    look: &Look,
    state: &FileListState,
    widths: &Vec<i32>,
    total: i64,
    texts: &Vec<Vec<CellText>>,
    own: &Vec<bool>,
    row: usize,
)
    requires
        file_list::is_countable(*state),
        widths@.len() == state.columns@.len(),
        state.scroll_top <= row < state.items@.len(),
        total == file_list::left_of(widths@, widths@.len() as int),
        are_measured(texts@),
    ensures
        ops_of(final(ops)@) == ops_of(old(ops)@) + row_ops(
            *look,
            *state,
            widths@,
            texts@,
            own@,
            row,
        ),
{
    let ghost start = ops_of(ops@);
    let y = top_of_row(&look.m, state.scroll_top, row);
    let h = look.m.item_height();
    if state.items[row].selected {
        draw(
            ops,
            DrawOp::Fill {
                area: Edges { left: 0, top: y, right: total, bottom: y + h + 1 },
                paint: row_ground(look, true),
            },
        );
    }
    let ghost grounded = ops_of(ops@);
    let ghost all = texts@;
    let mut left: i64 = 0;
    let mut c: usize = 0;
    assert(ops_of(ops@) =~= grounded + cells(*look, *state, widths@, all, own@, row, 0));
    while c < widths.len()
        invariant
            c <= widths.len(),
            file_list::is_countable(*state),
            widths@.len() == state.columns@.len(),
            state.scroll_top <= row < state.items@.len(),
            all == texts@,
            are_measured(texts@),
            left == file_list::left_of(widths@, c as int),
            ops_of(ops@) == grounded + cells(*look, *state, widths@, all, own@, row, c as int),
        decreases widths.len() - c,
    {
        proof {
            lemma_near(widths@, c as int);
            lemma_near(widths@, c + 1);
        }
        let ghost before = ops_of(ops@);
        let right: i64 = left + widths[c] as i64;
        draw_cell(ops, look, state, left, right, texts, own, row, c, Ghost(widths@));
        assert(ops_of(ops@) =~= grounded + cells(*look, *state, widths@, all, own@, row, c + 1));
        left = right;
        c += 1;
    }
    if look.cursor_visible && row == state.cursor {
        let fh: i64 = look.m.font_height as i64;
        draw(
            ops,
            DrawOp::HorizontalLine {
                x0: 0,
                x1: total,
                y: y + geometry::divide(h - fh, 2) + fh - 1,
                paint: Paint::Cursor,
            },
        );
    }
    assert(ops_of(ops@) =~= start + row_ops(*look, *state, widths@, all, own@, row));
}

/// What is drawn of a list. While it is read, that is said instead, as soon as what says it is
/// to be seen: `loading` is its glyph then. `widths` are the widths of the columns on the screen,
/// `text_w` those of the texts of their headers; `texts` is what is written in the cells of the rows
/// that are seen, and `own` says which of these rows may have an icon of their own.
pub fn paint_to(
    look: &Look,
    state: &FileListState,
    widths: &Vec<i32>,
    text_w: &Vec<i32>,
    texts: &Vec<Vec<CellText>>,
    own: &Vec<bool>,
    loading: Option<&str>,
) -> (ops: Vec<DrawOp>)
    requires
        file_list::is_countable(*state),
        look.bottom < i32::MAX,
        widths@.len() == state.columns@.len(),
        text_w@.len() == state.columns@.len(),
        are_measured(texts@),
    ensures
        ops_of(ops@) == (match loading {
            Some(glyph) => loading_ops(*look, glyph@),
            None => painted(*look, *state, widths@, text_w@, texts@, own@),
        }),
{
    let mut ops: Vec<DrawOp> = Vec::new();
    assert(ops_of(ops@) =~= Seq::<DrawOp<Txt>>::empty());
    let whole = Edges {
        left: 0,
        top: 0,
        right: look.m.client_w as i64,
        bottom: look.m.client_h as i64,
    };
    draw(&mut ops, DrawOp::Fill { area: whole, paint: Paint::Background });
    if let Some(glyph) = loading {
        draw(&mut ops, DrawOp::Loading { text: text::concat(glyph, "  読込中") });
        assert(ops_of(ops@) =~= loading_ops(*look, glyph@));
        return ops;
    }
    let ghost all = texts@;
    let ghost ground = ops_of(ops@);
    let mut left: i64 = 0;
    let mut c: usize = 0;
    assert(ops_of(ops@) =~= ground + headers(*look, *state, widths@, text_w@, 0));
    while c < widths.len()
        invariant
            c <= widths.len(),
            file_list::is_countable(*state),
            widths@.len() == state.columns@.len(),
            text_w@.len() == state.columns@.len(),
            left == file_list::left_of(widths@, c as int),
            ops_of(ops@) == ground + headers(*look, *state, widths@, text_w@, c as int),
        decreases widths.len() - c,
    {
        proof {
            lemma_near(widths@, c as int);
            lemma_near(widths@, c + 1);
        }
        let right: i64 = left + widths[c] as i64;
        draw_header_cell(
            &mut ops,
            look,
            state,
            left,
            right,
            text_w[c],
            c,
            Ghost(widths@),
            Ghost(text_w@),
        );
        assert(ops_of(ops@) =~= ground + headers(*look, *state, widths@, text_w@, c + 1));
        left = right;
        c += 1;
    }
    let total: i64 = left;
    proof {
        lemma_near(widths@, widths@.len() as int);
    }
    if total < look.m.client_w as i64 {
        let rest = Edges {
            left: total,
            top: 0,
            right: look.m.client_w as i64,
            bottom: look.m.header_height(),
        };
        draw(&mut ops, DrawOp::Fill { area: rest, paint: Paint::Face });
        draw(&mut ops, DrawOp::Bevel { area: rest });
    }
    let ghost headed = ground + headers(
        *look,
        *state,
        widths@,
        text_w@,
        state.columns@.len() as int,
    ) + header_rest(*look, total as int);
    assert(ops_of(ops@) =~= headed);
    let count = state.count();
    let end: usize = if look.bottom + 1 <= count {
        look.bottom + 1
    } else {
        count
    };
    let mut row: usize = state.scroll_top;
    let ghost mut n: int = 0;
    assert(ops_of(ops@) =~= headed + rows(*look, *state, widths@, all, own@, 0));
    while row < end
        invariant
            end == geometry::lesser(look.bottom + 1, state.items@.len() as int),
            row == state.scroll_top + n,
            0 <= n,
            n <= drawn_rows(*look, *state),
            file_list::is_countable(*state),
            widths@.len() == state.columns@.len(),
            total == file_list::left_of(widths@, widths@.len() as int),
            all == texts@,
            are_measured(texts@),
            ops_of(ops@) == headed + rows(*look, *state, widths@, all, own@, n),
        ensures
            n == drawn_rows(*look, *state),
            ops_of(ops@) == headed + rows(*look, *state, widths@, all, own@, n),
        decreases end - row,
    {
        let ghost before = ops_of(ops@);
        draw_row(&mut ops, look, state, widths, total, texts, own, row);
        assert(ops_of(ops@) =~= headed + rows(*look, *state, widths@, all, own@, n + 1));
        row += 1;
        proof {
            n = n + 1;
        }
    }
    let ghost listed = headed + rows(
        *look,
        *state,
        widths@,
        all,
        own@,
        drawn_rows(*look, *state),
    );
    draw_drop_frame(&mut ops, look, state, total);
    draw_scroll_bar(&mut ops, look, state);
    assert(ops_of(ops@) =~= listed + drop_frame(*look, *state, total as int) + scroll_bar(
        *look,
        *state,
    ));
    ops
}

/// The row that something would be dropped on is framed.
fn draw_drop_frame(ops: &mut Vec<DrawOp>, look: &Look, state: &FileListState, total: i64)
    requires
        file_list::is_countable(*state),
        is_near(total as int),
    ensures
        ops_of(final(ops)@) == ops_of(old(ops)@) + drop_frame(*look, *state, total as int),
{
    let ghost before = ops_of(ops@);
    if let Some(row) = look.drop_hover_row {
        if row >= state.scroll_top && row <= look.bottom && row < state.count() {
            let y = top_of_row(&look.m, state.scroll_top, row);
            let h = look.m.item_height();
            let right = geometry::max(total, 1);
            draw(
                ops,
                DrawOp::Frame {
                    area: Edges { left: 0, top: y, right, bottom: y + h },
                    paint: Paint::DropFrame,
                },
            );
            draw(
                ops,
                DrawOp::Frame {
                    area: Edges { left: 1, top: y + 1, right: right - 1, bottom: y + h - 1 },
                    paint: Paint::DropFrame,
                },
            );
        }
    }
    assert(ops_of(ops@) =~= before + drop_frame(*look, *state, total as int));
}

/// The scroll bar is drawn.
fn draw_scroll_bar(ops: &mut Vec<DrawOp>, look: &Look, state: &FileListState)
    requires
        file_list::is_countable(*state),
    ensures
        ops_of(final(ops)@) == ops_of(old(ops)@) + scroll_bar(*look, *state),
{
    let ghost before = ops_of(ops@);
    let h = look.m.header_height();
    let cw: i64 = look.m.client_w as i64;
    let ch: i64 = look.m.client_h as i64;
    if ch - h > 0 {
        let x: i64 = cw - look.m.scrollbar_width as i64;
        draw(
            ops,
            DrawOp::Fill {
                area: Edges { left: x, top: h, right: cw, bottom: ch },
                paint: Paint::Track,
            },
        );
        if let Some(bar) = scrollbar_geom(&look.m, state) {
            draw(
                ops,
                DrawOp::Fill {
                    area: Edges {
                        left: x + 1,
                        top: bar.thumb_top,
                        right: cw - 1,
                        bottom: bar.thumb_top + bar.thumb_h,
                    },
                    paint: Paint::Thumb,
                },
            );
        }
    }
    assert(ops_of(ops@) =~= before + scroll_bar(*look, *state));
}

/// What is drawn of a bar: its face, light above and shadow below.
pub fn fill_bar(cw: i32, ch: i32) -> (ops: Vec<DrawOp>)
    ensures
        ops_of(ops@) == seq![
            DrawOp::<Txt>::Fill { area: area(0, 0, cw as int, ch as int), paint: Paint::Face },
            DrawOp::<Txt>::HorizontalLine { x0: 0, x1: cw as i64, y: 0, paint: Paint::Light },
            DrawOp::<Txt>::HorizontalLine {
                x0: 0,
                x1: cw as i64,
                y: (ch - 1) as i64,
                paint: Paint::Shadow,
            },
        ],
{
    let mut ops: Vec<DrawOp> = Vec::new();
    assert(ops_of(ops@) =~= Seq::<DrawOp<Txt>>::empty());
    let x1: i64 = cw as i64;
    let whole = Edges { left: 0, top: 0, right: x1, bottom: ch as i64 };
    draw(&mut ops, DrawOp::Fill { area: whole, paint: Paint::Face });
    draw(&mut ops, DrawOp::HorizontalLine { x0: 0, x1, y: 0, paint: Paint::Light });
    draw(
        &mut ops,
        DrawOp::HorizontalLine { x0: 0, x1, y: ch as i64 - 1, paint: Paint::Shadow },
    );
    ops
}

/// A point that a line goes through.
#[derive(Clone, Copy, Debug, PartialEq, Eq, Structural)]
pub struct Corner {
    pub x: i64,
    pub y: i64,
}

/// The lines of a raised edge: light on the left and above, shadow on the right and below.
pub fn draw_3d_frame(inside: Edges) -> (lines: ([Corner; 3], [Corner; 3]))
    requires
        inside.right > i64::MIN,
        inside.bottom > i64::MIN,
    ensures
        lines.0@ == seq![
            Corner { x: inside.left, y: (inside.bottom - 1) as i64 },
            Corner { x: inside.left, y: inside.top },
            Corner { x: (inside.right - 1) as i64, y: inside.top },
        ],
        lines.1@ == seq![
            Corner { x: (inside.right - 1) as i64, y: inside.top },
            Corner { x: (inside.right - 1) as i64, y: (inside.bottom - 1) as i64 },
            Corner { x: inside.left, y: (inside.bottom - 1) as i64 },
        ],
{
    let right: i64 = inside.right - 1;
    let bottom: i64 = inside.bottom - 1;
    let light = [
        Corner { x: inside.left, y: bottom },
        Corner { x: inside.left, y: inside.top },
        Corner { x: right, y: inside.top },
    ];
    let shadow = [
        Corner { x: right, y: inside.top },
        Corner { x: right, y: bottom },
        Corner { x: inside.left, y: bottom },
    ];
    (light, shadow)
}

/// The corners of the arrow of the row that leads up, in a square of the side `size`.
pub open spec fn arrow_corners(x: int, y: int, size: int) -> Seq<Corner> {
    let middle = x + geometry::cut(size, 2);
    let half = geometry::greater(geometry::cut(size * 28, 100), 2);
    let top = y + geometry::cut(size * 30, 100);
    let bottom = y + geometry::cut(size * 70, 100);
    seq![
        Corner { x: middle as i64, y: top as i64 },
        Corner { x: (middle - half) as i64, y: bottom as i64 },
        Corner { x: (middle + half) as i64, y: bottom as i64 },
    ]
}

/// The corners of the arrow of the row that leads up, whose icon is drawn at `x` and `y`. The
/// arrow is as large as the icon, and in the middle of what it may take.
pub fn draw_parent_arrow(x: i64, y: i64, side: i32, cap: i32) -> (corners: [Corner; 3])
    requires
        -0x6000_0000_0000_0000 <= x <= 0x6000_0000_0000_0000,
        -0x6000_0000_0000_0000 <= y <= 0x6000_0000_0000_0000,
    ensures
        ({
            let size = geometry::lesser(side as int, geometry::greater(cap as int, 1));
            let off = geometry::cut(side - size, 2);
            corners@ == arrow_corners(x + off, y + off, size)
        }),
{
    let size = geometry::min(side as i64, geometry::max(cap as i64, 1));
    let off = geometry::divide(side as i64 - size, 2);
    let left: i64 = x + off;
    let up: i64 = y + off;
    let middle: i64 = left + geometry::divide(size, 2);
    let half = geometry::max(geometry::divide(size * 28, 100), 2);
    let top: i64 = up + geometry::divide(size * 30, 100);
    let bottom: i64 = up + geometry::divide(size * 70, 100);
    [
        Corner { x: middle, y: top },
        Corner { x: middle - half, y: bottom },
        Corner { x: middle + half, y: bottom },
    ]
}

/// Where what is shown while a list is read is drawn: in the middle.
pub fn loading_place(cw: i32, ch: i32, text_w: i32, text_h: i32) -> (at: (i64, i64))
    ensures
        at.0 == geometry::greater(geometry::cut(cw - text_w, 2), 0),
        at.1 == geometry::greater(geometry::cut(ch - text_h, 2), 0),
{
    let x = geometry::divide(cw as i64 - text_w as i64, 2);
    let y = geometry::divide(ch as i64 - text_h as i64, 2);
    (geometry::max(x, 0), geometry::max(y, 0))
}

/// A part of a text that a search found.
#[derive(Clone, Copy, Debug, PartialEq, Eq, Structural)]
pub struct Span {
    pub off: usize,
    pub len: usize,
}

/// Whether a character is in one of the parts that a search found.
pub open spec fn is_hit(spans: Seq<Span>, i: int) -> bool {
    exists|k: int|
        0 <= k < spans.len() && (#[trigger] spans[k]).off <= i < spans[k].off + spans[k].len
}

/// Whether a character is in one of the parts that a search found.
fn hit(spans: &Vec<Span>, i: usize) -> (yes: bool)
    ensures
        yes == is_hit(spans@, i as int),
{
    let mut k: usize = 0;
    while k < spans.len()
        invariant
            k <= spans.len(),
            forall|j: int|
                0 <= j < k ==> !((#[trigger] spans@[j]).off <= i < spans@[j].off + spans@[j].len),
        decreases spans.len() - k,
    {
        let span = spans[k];
        if span.off <= i && i - span.off < span.len {
            assert(spans@[k as int].off <= i < spans@[k as int].off + spans@[k as int].len);
            return true;
        }
        k += 1;
    }
    false
}

/// A part of a text that is drawn in one colour.
#[derive(Clone, Debug, PartialEq, Eq)]
pub struct Run<S = String> {
    pub text: S,
    /// A search found it.
    pub found: bool,
}

/// The parts of a text, as a specification reads them.
pub open spec fn runs_of(runs: Seq<Run>) -> Seq<Run<Txt>> {
    runs.map_values(|r: Run| Run { text: r.text@, found: r.found })
}

/// Where the part ends that the character at `p` is in, from `q` on.
pub open spec fn run_end(n: int, spans: Seq<Span>, p: int, q: int) -> int
    decreases n - q,
{
    if q >= n || is_hit(spans, q) != is_hit(spans, p) {
        q
    } else {
        run_end(n, spans, p, q + 1)
    }
}

proof fn lemma_run_end(n: int, spans: Seq<Span>, p: int, q: int)
    requires
        p < q <= n,
    ensures
        q <= run_end(n, spans, p, q) <= n,
        run_end(n, spans, p, q) < n ==> is_hit(spans, run_end(n, spans, p, q)) != is_hit(spans, p),
        forall|j: int| q <= j < run_end(n, spans, p, q) ==> #[trigger] is_hit(spans, j) == is_hit(
            spans,
            p,
        ),
    decreases n - q,
{
    if q < n && is_hit(spans, q) == is_hit(spans, p) {
        lemma_run_end(n, spans, p, q + 1);
    }
}

/// A text from `p` on, parted into what a search found and what it did not.
pub open spec fn parted(s: Txt, spans: Seq<Span>, p: int) -> Seq<Run<Txt>>
    decreases s.len() - p,
{
    if p < 0 || p >= s.len() {
        Seq::empty()
    } else {
        let q = run_end(s.len() as int, spans, p, p + 1);
        if q <= p || q > s.len() {
            Seq::empty()
        } else {
            seq![Run { text: s.subrange(p, q), found: is_hit(spans, p) }] + parted(s, spans, q)
        }
    }
}

/// A name, parted into what a search found and what it did not.
pub fn name_runs(name: &str, spans: &Vec<Span>) -> (runs: Vec<Run>)
    ensures
        runs_of(runs@) == parted(name@, spans@, 0),
{
    let chars = text::to_chars(name);
    let n = chars.len();
    let mut runs: Vec<Run> = Vec::new();
    let mut p: usize = 0;
    assert(runs_of(runs@) + parted(name@, spans@, 0) =~= parted(name@, spans@, 0));
    while p < n
        invariant
            p <= n,
            n == chars@.len(),
            chars@ == name@,
            runs_of(runs@) + parted(name@, spans@, p as int) == parted(name@, spans@, 0),
        decreases n - p,
    {
        let found = hit(spans, p);
        let mut q: usize = p + 1;
        while q < n && hit(spans, q) == found
            invariant
                p < q <= n,
                found == is_hit(spans@, p as int),
                run_end(n as int, spans@, p as int, p + 1) == run_end(
                    n as int,
                    spans@,
                    p as int,
                    q as int,
                ),
            decreases n - q,
        {
            q += 1;
        }
        let run = Run { text: text::from_range(&chars, p, q), found };
        let ghost before = runs_of(runs@);
        let ghost part = Run { text: run.text@, found };
        runs.push(run);
        proof {
            assert(runs_of(runs@) =~= before.push(part));
            let tail = parted(name@, spans@, q as int);
            assert(parted(name@, spans@, p as int) =~= seq![part] + tail);
            assert(before.push(part) + tail =~= before + (seq![part] + tail));
        }
        p = q;
    }
    assert(runs_of(runs@) + Seq::<Run<Txt>>::empty() =~= runs_of(runs@));
    runs
}

/// Whether what a search found is shown in a cell.
pub fn is_highlighted(is_name: bool, selected: bool, spans: &Vec<Span>) -> (yes: bool)
    ensures
        yes == shows_found(is_name, selected, spans@),
{
    is_name && !selected && spans.len() > 0
}

/// What is drawn of the first `n` parts of a name, one beside the other from `left` on: the ground
/// of what a search found, and the text in the middle of the row.
pub open spec fn highlighted(
    runs: Seq<Run<Txt>>,
    widths: Seq<i32>,
    left: int,
    y: int,
    m: Metrics,
    row: usize,
    n: int,
) -> Seq<DrawOp<Txt>>
    decreases n,
{
    if n <= 0 {
        Seq::empty()
    } else {
        let x = left + file_list::left_of(widths, n - 1);
        let right = left + file_list::left_of(widths, n);
        let h = file_list::item_of(m);
        let run = runs[n - 1];
        let part = DrawOp::Part {
            row,
            x: x as i64,
            top: (y + geometry::cut(h - m.font_height, 2)) as i64,
            text: run.text,
            found: run.found,
        };
        highlighted(runs, widths, left, y, m, row, n - 1) + if run.found {
            seq![
                DrawOp::<Txt>::Fill { area: area(x, y, right, y + h), paint: Paint::Found },
                part,
            ]
        } else {
            seq![part]
        }
    }
}

/// What is drawn of a name of which a search found some: its parts, of the widths `widths`, in
/// the row that starts at `y`.
pub fn draw_name_with_highlight(
    runs: &Vec<Run>,
    widths: &Vec<i32>,
    left: i64,
    y: i64,
    m: &Metrics,
    row: usize,
) -> (ops: Vec<DrawOp>)
    requires
        widths@.len() == runs@.len(),
        runs@.len() <= 0xff_ffff,
        -0x6000_0000_0000_0000 <= left <= 0x6000_0000_0000_0000,
        -0x6000_0000_0000_0000 <= y <= 0x6000_0000_0000_0000,
    ensures
        ops_of(ops@) == highlighted(
            runs_of(runs@),
            widths@,
            left as int,
            y as int,
            *m,
            row,
            runs@.len() as int,
        ),
{
    let h = m.item_height();
    let top: i64 = y + geometry::divide(h - m.font_height as i64, 2);
    let ghost all = runs_of(runs@);
    let mut ops: Vec<DrawOp> = Vec::new();
    let mut x: i64 = left;
    let mut i: usize = 0;
    assert(ops_of(ops@) =~= highlighted(all, widths@, left as int, y as int, *m, row, 0));
    while i < runs.len()
        invariant
            i <= runs.len() <= 0xff_ffff,
            widths@.len() == runs@.len(),
            all == runs_of(runs@),
            h == file_list::item_of(*m),
            i32::MIN <= h <= i32::MAX,
            top == y + geometry::cut(h - m.font_height, 2),
            -0x6000_0000_0000_0000 <= left <= 0x6000_0000_0000_0000,
            -0x6000_0000_0000_0000 <= y <= 0x6000_0000_0000_0000,
            x == left + file_list::left_of(widths@, i as int),
            ops_of(ops@) == highlighted(all, widths@, left as int, y as int, *m, row, i as int),
        decreases runs.len() - i,
    {
        proof {
            lemma_left(widths@, i as int);
            lemma_left(widths@, i + 1);
            assert(all[i as int] == (Run { text: runs@[i as int].text@, found: runs@[i as int].found }));
        }
        let ghost before = ops_of(ops@);
        let run = &runs[i];
        let right: i64 = x + widths[i] as i64;
        if run.found {
            draw(
                &mut ops,
                DrawOp::Fill {
                    area: Edges { left: x, top: y, right, bottom: y + h },
                    paint: Paint::Found,
                },
            );
        }
        let part = DrawOp::Part { row, x, top, text: text::copy(run.text.as_str()), found: run.found };
        draw(&mut ops, part);
        assert(ops_of(ops@) =~= highlighted(all, widths@, left as int, y as int, *m, row, i + 1));
        x = right;
        i += 1;
    }
    ops
}

/// Where the target of a link is drawn.
pub fn link_place(cell: Edges, name_w: i32, margin: i32) -> (place: Edges)
    requires
        -0x6000_0000_0000_0000 <= cell.left <= 0x6000_0000_0000_0000,
    ensures
        place == beside(cell, name_w, margin),
{
    Edges {
        left: cell.left + name_w as i64 + margin as i64 * 2,
        top: cell.top,
        right: cell.right,
        bottom: cell.bottom,
    }
}

/// The target of a link as it is drawn beside its name, before it is cut off.
pub fn link_text(target: &str) -> (shown: String)
    ensures
        shown@ == "→ "@ + target@,
{
    text::concat("→ ", target)
}

/// Whether the target of a link is drawn: more is left of it than the arrow.
pub fn link_is_drawn(shown: &str) -> (yes: bool)
    ensures
        yes == (shown@.len() > 2),
{
    text::to_chars(shown).len() > 2
}

/// A cell of the list: which one, and between which edges it is.
#[derive(Clone, Copy, Debug, PartialEq, Eq, Structural)]
pub struct CellAt {
    pub row: usize,
    pub col: usize,
    pub left: i64,
    pub right: i64,
}

/// The cell that a point is in, if it is in one.
pub open spec fn cell_of(m: Metrics, state: FileListState, widths: Seq<i32>, x: int, y: int) -> Option<
    (int, int),
> {
    match file_list::row_of(m, state.items@.len() as int, state.scroll_top as int, y) {
        None => None,
        Some(row) => match file_list::column_of(widths, x, 0) {
            None => None,
            Some(col) => Some((row, col)),
        },
    }
}

/// The cell that a point is in, if it is in one.
pub fn cell_at(m: &Metrics, state: &FileListState, widths: &Vec<i32>, x: i32, y: i32) -> (cell: Option<
    CellAt,
>)
    requires
        file_list::is_countable(*state),
        widths@.len() == state.columns@.len(),
    ensures
        match cell {
            Some(c) => {
                &&& cell_of(*m, *state, widths@, x as int, y as int) == Some(
                    (c.row as int, c.col as int),
                )
                &&& state.scroll_top <= c.row < state.items@.len() && c.col < widths@.len()
                &&& c.left == file_list::left_of(widths@, c.col as int)
                &&& c.right == file_list::left_of(widths@, c.col + 1)
                &&& is_near(c.left as int) && is_near(c.right as int)
            },
            None => cell_of(*m, *state, widths@, x as int, y as int) is None,
        },
{
    match file_list::row_at(m, state, y) {
        None => None,
        Some(row) => match file_list::column_at(widths, x) {
            None => None,
            Some(col) => {
                let left = start_of(widths, col);
                let right = start_of(widths, col + 1);
                Some(CellAt { row, col, left, right })
            },
        },
    }
}

/// Where the columns before column `n` end.
fn start_of(widths: &Vec<i32>, n: usize) -> (x: i64)
    requires
        n <= widths@.len() <= i32::MAX,
    ensures
        x == file_list::left_of(widths@, n as int),
        is_near(x as int),
{
    let mut x: i64 = 0;
    let mut i: usize = 0;
    while i < n
        invariant
            i <= n <= widths@.len() <= i32::MAX,
            x == file_list::left_of(widths@, i as int),
        decreases n - i,
    {
        proof {
            lemma_near(widths@, i as int);
            lemma_near(widths@, i + 1);
        }
        x = x + widths[i] as i64;
        i += 1;
    }
    proof {
        lemma_near(widths@, n as int);
    }
    x
}

/// The whole text of a cell: of a link, with its target.
pub open spec fn whole_text(kind: ColumnKind, shown: Txt, target: Option<Txt>) -> Txt {
    match target {
        Some(t) => if file_list::is_name(kind) {
            shown + " → "@ + t
        } else {
            shown
        },
        None => shown,
    }
}

/// The whole text of a cell.
pub fn cell_text_whole(kind: ColumnKind, shown: &str, target: &Option<String>) -> (whole: String)
    ensures
        whole@ == whole_text(kind, shown@, target.deep_view()),
{
    match target {
        Some(t) => if is_name_column(kind) {
            text::concat3(shown, " → ", t.as_str())
        } else {
            text::copy(shown)
        },
        None => text::copy(shown),
    }
}

/// Whether the text of a cell is told beside the mouse: it is not empty, and does not fit.
pub open spec fn is_cut_off(look: Look, kind: ColumnKind, left: int, right: int, text: Txt, text_w: int) -> bool {
    let room = right - text_left(look, left, kind);
    text.len() > 0 && (room <= 0 || text_w > room)
}

/// What is told of the cell under the mouse, and the area of that cell: its whole text, where it
/// is cut off. `whole_w` says how wide that text is.
pub fn cell_tooltip_at(
    look: &Look,
    state: &FileListState,
    cell: CellAt,
    whole: &str,
    whole_w: i32,
) -> (tip: Option<Edges>)
    requires
        file_list::is_countable(*state),
        state.scroll_top <= cell.row < state.items@.len(),
        cell.col < state.columns@.len(),
        is_near(cell.left as int),
        is_near(cell.right as int),
    ensures
        ({
            let y = file_list::row_top(look.m, state.scroll_top, cell.row);
            let h = file_list::item_of(look.m);
            tip == (if is_cut_off(
                *look,
                state.columns@[cell.col as int].kind,
                cell.left as int,
                cell.right as int,
                whole@,
                whole_w as int,
            ) {
                Some(area(cell.left as int, y, cell.right as int, y + h))
            } else {
                None
            })
        }),
{
    proof {
        reveal_strlit("");
    }
    if whole.is_empty() {
        return None;
    }
    let mut at: i64 = cell.left + look.margin as i64;
    if is_name_column(state.columns[cell.col].kind) && look.m.icons_visible {
        at = at + (look.m.icon_px() + look.gap as i64);
    }
    let room: i128 = cell.right as i128 - at as i128;
    if room > 0 && whole_w as i128 <= room {
        return None;
    }
    let y = top_of_row(&look.m, state.scroll_top, cell.row);
    Some(
        Edges { left: cell.left, top: y, right: cell.right, bottom: y + look.m.item_height() },
    )
}

/// The middle of a cell; nothing where it is not seen.
pub fn cell_point(m: &Metrics, state: &FileListState, widths: &Vec<i32>, row: usize, col: usize) -> (at:
    Option<Corner>)
    requires
        file_list::is_countable(*state),
        widths@.len() == state.columns@.len(),
    ensures
        ({
            let seen = col < state.columns@.len() && state.scroll_top <= row < state.items@.len()
                && row - state.scroll_top < file_list::rows_of(*m);
            match at {
                Some(p) => {
                    &&& seen
                    &&& p.x == geometry::cut(
                        file_list::left_of(widths@, col as int) + file_list::left_of(
                            widths@,
                            col + 1,
                        ),
                        2,
                    )
                    &&& p.y == file_list::row_top(*m, state.scroll_top, row) + geometry::cut(
                        file_list::item_of(*m),
                        2,
                    )
                },
                None => !seen,
            }
        }),
{
    if col >= widths.len() || row < state.scroll_top || row >= state.count() {
        return None;
    }
    if row - state.scroll_top >= m.page_rows() {
        return None;
    }
    let left = start_of(widths, col);
    let right = start_of(widths, col + 1);
    let sum: i64 = half_sum(left, right);
    let y = top_of_row(m, state.scroll_top, row) + geometry::divide(m.item_height(), 2);
    Some(Corner { x: sum, y })
}

/// Half of a sum.
fn half_sum(a: i64, b: i64) -> (h: i64)
    requires
        is_near(a as int),
        is_near(b as int),
    ensures
        h == geometry::cut(a + b, 2),
{
    let sum: i128 = a as i128 + b as i128;
    if sum >= 0 {
        (sum / 2) as i64
    } else {
        let up: i128 = -sum;
        -((up / 2) as i64)
    }
}

/// All parts of a text after `p` together are the rest of the text, and a search found every
/// second of them.
pub proof fn law_runs_make_up_the_name(s: Txt, spans: Seq<Span>, p: int)
    requires
        0 <= p <= s.len(),
    ensures
        joined_runs(parted(s, spans, p), parted(s, spans, p).len() as int) == s.skip(p),
        forall|i: int|
            0 <= i < parted(s, spans, p).len() - 1 ==> (#[trigger] parted(s, spans, p)[i]).found
                != parted(s, spans, p)[i + 1].found,
        p < s.len() ==> parted(s, spans, p).len() > 0 && parted(s, spans, p)[0].found == is_hit(
            spans,
            p,
        ),
    decreases s.len() - p,
{
    if p < s.len() {
        let q = run_end(s.len() as int, spans, p, p + 1);
        lemma_run_end(s.len() as int, spans, p, p + 1);
        law_runs_make_up_the_name(s, spans, q);
        let first = Run { text: s.subrange(p, q), found: is_hit(spans, p) };
        let rest = parted(s, spans, q);
        assert(parted(s, spans, p) == seq![first] + rest);
        lemma_join_first(first, rest, rest.len() as int);
        assert(s.skip(p) =~= s.subrange(p, q) + s.skip(q));
        assert forall|i: int| 0 <= i < parted(s, spans, p).len() - 1 implies (#[trigger] parted(
            s,
            spans,
            p,
        )[i]).found != parted(s, spans, p)[i + 1].found by {
            if i > 0 {
                assert(parted(s, spans, p)[i] == rest[i - 1]);
                assert(parted(s, spans, p)[i + 1] == rest[i]);
            }
        }
    } else {
        assert(s.skip(p) =~= Seq::<char>::empty());
    }
}

/// The first `n` parts of a text together.
pub open spec fn joined_runs(runs: Seq<Run<Txt>>, n: int) -> Txt
    decreases n,
{
    if n <= 0 {
        Seq::empty()
    } else {
        joined_runs(runs, n - 1) + runs[n - 1].text
    }
}

proof fn lemma_join_first(first: Run<Txt>, rest: Seq<Run<Txt>>, n: int)
    requires
        0 <= n <= rest.len(),
    ensures
        joined_runs(seq![first] + rest, n + 1) == first.text + joined_runs(rest, n),
    decreases n,
{
    let all = seq![first] + rest;
    if n > 0 {
        lemma_join_first(first, rest, n - 1);
        assert(all[n] == rest[n - 1]);
        assert(joined_runs(all, n + 1) =~= first.text + (joined_runs(rest, n - 1) + rest[n
            - 1].text));
    } else {
        assert(joined_runs(all, 0) =~= Seq::<char>::empty());
        assert(all[0] == first);
        assert(joined_runs(all, 1) =~= first.text + joined_runs(rest, 0));
    }
}

} // verus!
