//! How wide the columns of a list are so that what they show fits.

use crate::file_item::Column;
use crate::file_list::is_name_column;
use crate::file_list;
use crate::geometry;
use vstd::prelude::*;

verus! {

/// A measure of the screen at the standard resolution, rounded.
pub open spec fn logical(phys: int, dpi: int) -> int {
    let d = geometry::greater(dpi, 1);
    geometry::cut(phys * 96 + d / 2, d)
}

/// A measure of the screen at the standard resolution, rounded.
pub fn to_logical(phys: i64, dpi: i32) -> (n: i64)
    requires
        -0x100_0000_0000_0000 <= phys <= 0x100_0000_0000_0000,
    ensures
        n == logical(phys as int, dpi as int),
{
    let d: i64 = geometry::max(dpi as i64, 1);
    geometry::divide(phys * 96 + d / 2, d)
}

/// The first column from `from` on that shows names. It takes what room the others leave.
pub open spec fn flex_from(columns: Seq<Column>, from: int) -> Option<int>
    decreases columns.len() - from,
{
    if from < 0 || from >= columns.len() {
        None
    } else if file_list::is_name(columns[from].kind) {
        Some(from)
    } else {
        flex_from(columns, from + 1)
    }
}

/// The column that takes what room the others leave: the first that shows names.
pub fn flex_column(columns: &Vec<Column>) -> (flex: Option<usize>)
    ensures
        file_list::place(flex) == flex_from(columns@, 0),
{
    let mut i: usize = 0;
    while i < columns.len()
        invariant
            i <= columns.len(),
            flex_from(columns@, 0) == flex_from(columns@, i as int),
        decreases columns.len() - i,
    {
        if is_name_column(columns[i].kind) {
            return Some(i);
        }
        i += 1;
    }
    None
}

/// The widest of the first `n` cells; zero where there is none.
pub open spec fn widest(cells: Seq<i32>, n: int) -> int
    decreases n,
{
    if n <= 0 {
        0
    } else {
        geometry::greater(widest(cells, n - 1), cells[n - 1] as int)
    }
}

/// How wide what a column shows is. One with a sample is as wide as so many usual characters, so
/// that it does not jump; the others are as wide as their widest cell.
pub open spec fn content_of(sample_chars: u32, n_w: i32, cells: Seq<i32>) -> int {
    if sample_chars == 0 {
        widest(cells, cells.len() as int)
    } else {
        sample_chars * n_w
    }
}

/// How wide what a column shows is.
pub fn content_width(sample_chars: u32, n_w: i32, cells: &Vec<i32>) -> (w: i64)
    ensures
        w == content_of(sample_chars, n_w, cells@),
{
    if sample_chars == 0 {
        let mut w: i64 = 0;
        let mut i: usize = 0;
        while i < cells.len()
            invariant
                i <= cells.len(),
                w == widest(cells@, i as int),
                0 <= w <= i32::MAX,
            decreases cells.len() - i,
        {
            w = geometry::max(w, cells[i] as i64);
            i += 1;
        }
        w
    } else {
        proof {
            assert(-0x8000_0000_0000_0000 <= sample_chars * n_w <= 0x7fff_ffff_ffff_ffff)
                by (nonlinear_arith)
                requires
                    0 <= sample_chars <= 0xffff_ffff,
                    -0x8000_0000 <= n_w <= 0x7fff_ffff,
            ;
        }
        sample_chars as i64 * n_w as i64
    }
}

/// What a column was measured to need.
pub struct ColumnMeasure {
    pub header_w: i32,
    /// How many characters the sample of the column has; none where it has no sample.
    pub sample_chars: u32,
    /// How wide its cells are that are not empty.
    pub cells: Vec<i32>,
}

/// How wide a column is at least, at the standard resolution: its header and what it shows fit.
/// The one that takes what is left needs nothing.
pub open spec fn needed(measure: ColumnMeasure, is_flex: bool, n_w: i32, dpi: i32) -> int {
    if is_flex {
        0
    } else {
        logical(
            geometry::greater(
                measure.header_w as int,
                content_of(measure.sample_chars, n_w, measure.cells@),
            ),
            dpi as int,
        )
    }
}

/// What the widths of the columns are worked out from, at the standard resolution.
pub struct Fit {
    pub measured: Vec<i64>,
    pub width: i64,
    /// The room beside the text of a cell.
    pub padding: i64,
    /// How wide the column with the names is at least.
    pub least_flex: i64,
}

/// Whether the samples of all columns are short.
pub open spec fn are_short(measures: Seq<ColumnMeasure>) -> bool {
    forall|i: int| 0 <= i < measures.len() ==> (#[trigger] measures[i]).sample_chars <= 0xff_ffff
}

/// What the widths of the columns are worked out from; nothing where they stay as they are, or
/// the list has no width.
pub fn autofit_columns(
    auto_adjust: bool,
    client_w: i32,
    columns: &Vec<Column>,
    measures: &Vec<ColumnMeasure>,
    n_w: i32,
    dpi: i32,
) -> (fit: Option<Fit>)
    requires
        measures@.len() == columns@.len(),
        are_short(measures@),
    ensures
        fit is Some == (auto_adjust && client_w > 0),
        fit matches Some(f) ==> {
            &&& f.measured@.len() == columns@.len()
            &&& forall|i: int|
                0 <= i < columns@.len() ==> #[trigger] f.measured@[i] == needed(
                    measures@[i],
                    flex_from(columns@, 0) == Some(i),
                    n_w,
                    dpi,
                )
            &&& f.width == logical(client_w as int, dpi as int)
            &&& f.padding == logical(n_w * 2, dpi as int)
            &&& f.least_flex == logical(n_w * 12, dpi as int)
        },
{
    if !auto_adjust || client_w <= 0 {
        return None;
    }
    let flex = flex_column(columns);
    let mut measured: Vec<i64> = Vec::new();
    let mut i: usize = 0;
    while i < columns.len()
        invariant
            i <= columns.len(),
            measures@.len() == columns@.len(),
            are_short(measures@),
            measured@.len() == i,
            file_list::place(flex) == flex_from(columns@, 0),
            forall|j: int|
                0 <= j < i ==> #[trigger] measured@[j] == needed(
                    measures@[j],
                    flex_from(columns@, 0) == Some(j),
                    n_w,
                    dpi,
                ),
        decreases columns.len() - i,
    {
        let is_flex = match flex {
            Some(f) => f == i,
            None => false,
        };
        let measure = &measures[i];
        if is_flex {
            measured.push(0);
        } else {
            let content = content_width(measure.sample_chars, n_w, &measure.cells);
            proof {
                assert(measures@[i as int].sample_chars <= 0xff_ffff);
                if measure.sample_chars == 0 {
                    lemma_widest(measure.cells@, measure.cells@.len() as int);
                } else {
                    assert(-0x100_0000_0000_0000 <= measure.sample_chars * n_w
                        <= 0x100_0000_0000_0000) by (nonlinear_arith)
                        requires
                            0 <= measure.sample_chars <= 0xff_ffff,
                            -0x8000_0000 <= n_w <= 0x7fff_ffff,
                    ;
                }
            }
            measured.push(to_logical(geometry::max(measure.header_w as i64, content), dpi));
        }
        i += 1;
    }
    Some(
        Fit {
            measured,
            width: to_logical(client_w as i64, dpi),
            padding: to_logical(n_w as i64 * 2, dpi),
            least_flex: to_logical(n_w as i64 * 12, dpi),
        },
    )
}

proof fn lemma_widest(cells: Seq<i32>, n: int)
    requires
        0 <= n <= cells.len(),
    ensures
        0 <= widest(cells, n) <= i32::MAX,
    decreases n,
{
    if n > 0 {
        lemma_widest(cells, n - 1);
    }
}

} // verus!
