//! Where the controls of dialogs go whose size can be changed.
//!
//! Measures are in pixels of the screen. What a measure at the standard resolution is on the
//! screen comes in with them.

use crate::geometry::{Rect, max, min};
use crate::geometry;
use vstd::prelude::*;

verus! {

/// A measure of the screen at the standard resolution, where a thousand pixels at the standard
/// resolution are `scale` on the screen.
pub open spec fn logical(phys: int, scale: int) -> int {
    let s = if scale < 1 {
        1
    } else {
        scale
    };
    if phys >= 0 {
        phys * 1000 / s
    } else {
        -((-phys) * 1000 / s)
    }
}

/// A measure of the screen at the standard resolution.
pub fn to_logical(phys: i32, scale: i32) -> (n: i64)
    ensures
        n == logical(phys as int, scale as int),
{
    let s: i64 = if scale < 1 {
        1
    } else {
        scale as i64
    };
    if phys >= 0 {
        phys as i64 * 1000 / s
    } else {
        let up: i64 = -(phys as i64);
        -(up * 1000 / s)
    }
}

/// The size that a dialog opens with: the one that it had, but no smaller than `least`; where it
/// had none, or one that the screen has no room for, the usual one.
pub open spec fn opening_size(
    saved: Option<(i32, i32)>,
    usual: (i32, i32),
    least: (i32, i32),
    screen: (i32, i32),
) -> (int, int) {
    match saved {
        None => (usual.0 as int, usual.1 as int),
        Some((w, h)) => {
            let w = geometry::greater(w as int, least.0 as int);
            let h = geometry::greater(h as int, least.1 as int);
            if w > screen.0 || h > screen.1 {
                (usual.0 as int, usual.1 as int)
            } else {
                (w, h)
            }
        },
    }
}

/// The size that a dialog opens with.
pub fn resolve_dialog_size(
    saved: Option<(i32, i32)>,
    usual: (i32, i32),
    least: (i32, i32),
    screen: (i32, i32),
) -> (size: (i32, i32))
    ensures
        (size.0 as int, size.1 as int) == opening_size(saved, usual, least, screen),
{
    match saved {
        None => usual,
        Some((w, h)) => {
            let w = if w < least.0 {
                least.0
            } else {
                w
            };
            let h = if h < least.1 {
                least.1
            } else {
                h
            };
            if w > screen.0 || h > screen.1 {
                usual
            } else {
                (w, h)
            }
        },
    }
}

/// The measures of a dialog with a list and a row of buttons below it.
#[derive(Clone, Copy, Debug, PartialEq, Eq, Structural)]
pub struct ListMeasures {
    /// The margin at the sides.
    pub margin_x: i32,
    /// The margin above and below.
    pub margin_y: i32,
    pub button_h: i32,
    /// Between the list and the buttons.
    pub gap: i32,
    /// Between two buttons.
    pub button_gap: i32,
}

/// The measures of a dialog with a list, at the standard resolution, where its margin and the
/// height of its buttons are given.
pub fn list_measures(margin: i32, button_h: i32) -> (m: ListMeasures)
    ensures
        m == (ListMeasures {
            margin_x: margin,
            margin_y: margin,
            button_h,
            gap: 12,
            button_gap: 8,
        }),
{
    ListMeasures { margin_x: margin, margin_y: margin, button_h, gap: 12, button_gap: 8 }
}

/// The right edge of button `i`, where the first stands at the right.
pub open spec fn button_right(widths: Seq<i32>, gap: int, right: int, i: int) -> int
    decreases i, 0int,
{
    if i <= 0 {
        right
    } else {
        button_left(widths, gap, right, i - 1) - gap
    }
}

/// The left edge of button `i`: no button goes out of the window at the left.
pub open spec fn button_left(widths: Seq<i32>, gap: int, right: int, i: int) -> int
    decreases i, 1int,
{
    geometry::greater(button_right(widths, gap, right, i) - widths[i], 0)
}

/// The upper edge of the row of buttons.
pub open spec fn buttons_top(m: ListMeasures, ch: int) -> int {
    geometry::greater(ch - m.margin_y - m.button_h, m.margin_y as int)
}

/// Where the list and the buttons of a dialog go whose inside is `cw` wide and `ch` high. The
/// buttons stand at the lower edge, the first at the right; the list has the rest.
pub fn relayout_list_dialog(m: ListMeasures, widths: &Vec<i32>, cw: i32, ch: i32) -> (places: (
    Rect,
    Vec<Rect>,
))
    requires
        m.button_gap >= 0,
        forall|i: int| 0 <= i < widths@.len() ==> #[trigger] widths@[i] >= 0,
    ensures
        places.0.x == m.margin_x,
        places.0.y == m.margin_y,
        places.0.w == geometry::greater(cw - m.margin_x * 2, 1),
        places.0.h == geometry::greater(
            buttons_top(m, ch as int) - m.gap - m.margin_y,
            1,
        ),
        places.1@.len() == widths@.len(),
        forall|i: int|
            0 <= i < widths@.len() ==> {
                let place = #[trigger] places.1@[i];
                &&& place.x == button_left(
                    widths@,
                    m.button_gap as int,
                    cw - m.margin_x,
                    i,
                )
                &&& place.y == buttons_top(m, ch as int)
                &&& place.w == widths@[i]
                &&& place.h == m.button_h
            },
{
    let margin_x: i64 = m.margin_x as i64;
    let margin_y: i64 = m.margin_y as i64;
    let top: i64 = max(ch as i64 - margin_y - m.button_h as i64, margin_y);
    let mut right: i64 = cw as i64 - margin_x;
    let mut places: Vec<Rect> = Vec::new();
    let mut i: usize = 0;
    while i < widths.len()
        invariant
            i <= widths.len(),
            places@.len() == i,
            top == buttons_top(m, ch as int),
            right == button_right(widths@, m.button_gap as int, cw - m.margin_x, i as int),
            m.button_gap >= 0,
            forall|j: int| 0 <= j < widths@.len() ==> #[trigger] widths@[j] >= 0,
            -0x1_0000_0000 <= right <= 0x1_0000_0000,
            forall|j: int|
                0 <= j < i ==> {
                    let place = #[trigger] places@[j];
                    &&& place.x == button_left(
                        widths@,
                        m.button_gap as int,
                        cw - m.margin_x,
                        j,
                    )
                    &&& place.y == buttons_top(m, ch as int)
                    &&& place.w == widths@[j]
                    &&& place.h == m.button_h
                },
        decreases widths.len() - i,
    {
        let w: i64 = widths[i] as i64;
        let x: i64 = max(right - w, 0);
        places.push(Rect { x, y: top, w, h: m.button_h as i64 });
        right = x - m.button_gap as i64;
        i += 1;
    }
    let list = Rect {
        x: margin_x,
        y: margin_y,
        w: max(cw as i64 - margin_x * 2, 1),
        h: max(top - m.gap as i64 - margin_y, 1),
    };
    (list, places)
}

/// Where the text field and the list of the code dialog stand at first, at the standard
/// resolution: the height of the text field, and the upper edge and height of the list.
pub fn code_box_geometry(expanded: bool) -> (g: (i32, i32, i32))
    ensures
        g == (if expanded {
            (150i32, 194i32, 150i32)
        } else {
            (24i32, 70i32, 274i32)
        }),
{
    if expanded {
        (150, 194, 150)
    } else {
        (24, 70, 274)
    }
}

/// The measures of the code dialog.
#[derive(Clone, Copy, Debug, PartialEq, Eq, Structural)]
pub struct CodeMeasures {
    /// The margin at the sides.
    pub margin: i32,
    /// The margin below the buttons.
    pub margin_bottom: i32,
    pub check_w: i32,
    pub check_h: i32,
    pub check_top: i32,
    pub label_top: i32,
    pub label_h: i32,
    pub button_gap: i32,
    pub button_h: i32,
    pub ok_w: i32,
    pub cancel_w: i32,
    pub gap: i32,
    pub edit_top: i32,
    /// The height of a text field of one line.
    pub line_h: i32,
    /// The height of the list below a text field of several lines.
    pub list_h: i32,
    /// The least height of a text field or a list.
    pub least_h: i32,
}

/// The measures of the code dialog, at the standard resolution.
pub open spec fn standard_code_measures() -> CodeMeasures {
    CodeMeasures {
        margin: 16,
        margin_bottom: 16,
        check_w: 92,
        check_h: 20,
        check_top: 12,
        label_top: 14,
        label_h: 18,
        button_gap: 8,
        button_h: 26,
        ok_w: 80,
        cancel_w: 86,
        gap: 12,
        edit_top: 38,
        line_h: 24,
        list_h: 150,
        least_h: 40,
    }
}

/// The measures of the code dialog, at the standard resolution.
pub fn code_measures() -> (m: CodeMeasures)
    ensures
        m == standard_code_measures(),
{
    CodeMeasures {
        margin: 16,
        margin_bottom: 16,
        check_w: 92,
        check_h: 20,
        check_top: 12,
        label_top: 14,
        label_h: 18,
        button_gap: 8,
        button_h: 26,
        ok_w: 80,
        cancel_w: 86,
        gap: 12,
        edit_top: 38,
        line_h: 24,
        list_h: 150,
        least_h: 40,
    }
}

/// Where the controls of the code dialog go.
#[derive(Clone, Copy, Debug, PartialEq, Eq, Structural)]
pub struct CodePlaces {
    pub label: Rect,
    pub mode: Rect,
    pub edit: Rect,
    pub list: Rect,
    pub ok: Rect,
    pub cancel: Rect,
}

/// The upper edge of the buttons of the code dialog.
pub open spec fn code_buttons_top(m: CodeMeasures, ch: int) -> int {
    geometry::greater(ch - m.margin_bottom - m.button_h, m.edit_top as int)
}

/// The lower edge of what stands above the buttons of the code dialog.
pub open spec fn code_bottom(m: CodeMeasures, ch: int) -> int {
    geometry::greater(code_buttons_top(m, ch) - m.gap, m.edit_top as int)
}

/// The left edge of the button that cancels.
pub open spec fn cancel_left(m: CodeMeasures, cw: int) -> int {
    geometry::greater(cw - m.margin - m.cancel_w, 0)
}

/// The height of the list of the code dialog. With a text field of several lines the list keeps
/// its height as long as there is room; with one line it has what is left.
pub open spec fn code_list_h(m: CodeMeasures, ch: int, expanded: bool) -> int {
    let bottom = code_bottom(m, ch);
    if expanded {
        geometry::lesser(
            m.list_h as int,
            geometry::greater(bottom - m.edit_top - m.gap - m.least_h, m.least_h as int),
        )
    } else {
        geometry::greater(bottom - (m.edit_top + m.line_h + m.gap), m.least_h as int)
    }
}

/// The upper edge of the list of the code dialog.
pub open spec fn code_list_top(m: CodeMeasures, ch: int, expanded: bool) -> int {
    if expanded {
        code_bottom(m, ch) - code_list_h(m, ch, expanded)
    } else {
        m.edit_top + m.line_h + m.gap
    }
}

/// The height of the text field of the code dialog.
pub open spec fn code_edit_h(m: CodeMeasures, ch: int, expanded: bool) -> int {
    if expanded {
        geometry::greater(
            code_list_top(m, ch, expanded) - m.gap - m.edit_top,
            m.least_h as int,
        )
    } else {
        m.line_h as int
    }
}

/// Where the controls of the code dialog go whose inside is `cw` wide and `ch` high.
pub fn relayout_code_box(m: CodeMeasures, cw: i32, ch: i32, expanded: bool) -> (p: CodePlaces)
    ensures
        p.label.x == m.margin && p.label.y == m.label_top && p.label.h == m.label_h,
        p.label.w == geometry::greater(cw - m.margin * 2 - m.check_w - m.button_gap, 1),
        p.mode.x == cw - m.margin - m.check_w,
        p.mode.y == m.check_top && p.mode.w == m.check_w && p.mode.h == m.check_h,
        p.cancel.x == cancel_left(m, cw as int),
        p.cancel.y == code_buttons_top(m, ch as int),
        p.cancel.w == m.cancel_w && p.cancel.h == m.button_h,
        p.ok.x == geometry::greater(cancel_left(m, cw as int) - m.button_gap - m.ok_w, 0),
        p.ok.y == code_buttons_top(m, ch as int),
        p.ok.w == m.ok_w && p.ok.h == m.button_h,
        p.edit.x == m.margin && p.edit.y == m.edit_top,
        p.edit.w == geometry::greater(cw - m.margin * 2, 1),
        p.edit.h == code_edit_h(m, ch as int, expanded),
        p.list.x == m.margin && p.list.y == code_list_top(m, ch as int, expanded),
        p.list.w == geometry::greater(cw - m.margin * 2, 1),
        p.list.h == code_list_h(m, ch as int, expanded),
{
    let margin: i64 = m.margin as i64;
    let edit_top: i64 = m.edit_top as i64;
    let gap: i64 = m.gap as i64;
    let least: i64 = m.least_h as i64;
    let check_w: i64 = m.check_w as i64;
    let button_gap: i64 = m.button_gap as i64;
    let w: i64 = cw as i64;
    let top: i64 = max(ch as i64 - m.margin_bottom as i64 - m.button_h as i64, edit_top);
    let cancel_x: i64 = max(w - margin - m.cancel_w as i64, 0);
    let ok_x: i64 = max(cancel_x - button_gap - m.ok_w as i64, 0);
    let inside: i64 = max(w - margin * 2, 1);
    let bottom: i64 = max(top - gap, edit_top);
    let edit_h: i64;
    let list_y: i64;
    let list_h: i64;
    if expanded {
        list_h = min(m.list_h as i64, max(bottom - edit_top - gap - least, least));
        list_y = bottom - list_h;
        edit_h = max(list_y - gap - edit_top, least);
    } else {
        edit_h = m.line_h as i64;
        list_y = edit_top + edit_h + gap;
        list_h = max(bottom - list_y, least);
    }
    CodePlaces {
        label: Rect {
            x: margin,
            y: m.label_top as i64,
            w: max(w - margin * 2 - check_w - button_gap, 1),
            h: m.label_h as i64,
        },
        mode: Rect {
            x: w - margin - check_w,
            y: m.check_top as i64,
            w: check_w,
            h: m.check_h as i64,
        },
        edit: Rect { x: margin, y: edit_top, w: inside, h: edit_h },
        list: Rect { x: margin, y: list_y, w: inside, h: list_h },
        ok: Rect { x: ok_x, y: top, w: m.ok_w as i64, h: m.button_h as i64 },
        cancel: Rect { x: cancel_x, y: top, w: m.cancel_w as i64, h: m.button_h as i64 },
    }
}

/// A dialog opens no smaller than it may be and no larger than the screen, as long as the usual
/// size is so.
pub proof fn law_dialogs_fit_the_screen(
    saved: Option<(i32, i32)>,
    usual: (i32, i32),
    least: (i32, i32),
    screen: (i32, i32),
)
    requires
        least.0 <= usual.0 <= screen.0,
        least.1 <= usual.1 <= screen.1,
    ensures
        least.0 <= opening_size(saved, usual, least, screen).0 <= screen.0,
        least.1 <= opening_size(saved, usual, least, screen).1 <= screen.1,
{
}

/// In a window with room for both, the text field of the code dialog ends above the list, and
/// the list ends above the buttons.
pub proof fn law_code_dialog_does_not_overlap(m: CodeMeasures, ch: int, expanded: bool)
    requires
        0 <= m.gap,
        0 < m.least_h <= m.list_h,
        0 < m.line_h,
        0 <= m.edit_top,
        ch - m.margin_bottom - m.button_h - m.gap - m.edit_top >= m.gap + m.least_h * 2,
        ch - m.margin_bottom - m.button_h - m.gap - m.edit_top >= m.line_h + m.gap + m.least_h,
    ensures
        m.edit_top + code_edit_h(m, ch, expanded) <= code_list_top(m, ch, expanded),
        code_list_top(m, ch, expanded) + code_list_h(m, ch, expanded) <= code_buttons_top(m, ch),
{
}

} // verus!
