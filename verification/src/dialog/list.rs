//! The dialog in which one row of a list is picked.

use crate::dialog::{Control, ControlKind, Form, FormModel, ID_CANCEL, ID_OK};
use crate::dialog::layout;
use crate::dialog::opening::{ModalWindow, modal_window_resizable_keyed};
use crate::dialog::opening;
use crate::dialog::Registration;
use crate::dialog::{control, ok_cancel};
use crate::dialog;
use crate::text;
use vstd::prelude::*;

verus! {

/// A text in specifications.
pub type Txt = Seq<char>;

/// The dialog in which one row of a list is picked.
pub open spec fn list_form(title: Txt) -> FormModel {
    Form {
        title,
        w: 420,
        h: 320,
        controls: seq![
            dialog::ctl(ControlKind::ListBox, 0, ""@, 16, 14, 388, 250),
            dialog::ctl(ControlKind::DefaultButton, ID_OK, "OK"@, 232, 276, 80, 26),
            dialog::ctl(ControlKind::Button, ID_CANCEL, "キャンセル"@, 320, 276, 86, 26),
        ],
    }
}

/// The dialog in which one row of a list is picked.
pub fn list_box_form(title: &str) -> (form: Form)
    ensures
        form@ == list_form(title@),
{
    let mut c: Vec<Control> = Vec::new();
    c.push(control(ControlKind::ListBox, 0, "", 16, 14, 388, 250));
    c.push(control(ControlKind::DefaultButton, ID_OK, "OK", 232, 276, 80, 26));
    c.push(control(ControlKind::Button, ID_CANCEL, "キャンセル", 320, 276, 86, 26));
    let form = Form { title: text::copy(title), w: 420, h: 320, controls: c };
    assert(form@.controls =~= list_form(title@).controls);
    form
}

/// The row that is selected at first: the one that is asked for, or the last.
pub open spec fn first_row(initial: usize, count: nat) -> int {
    if count == 0 {
        0
    } else if initial < count {
        initial as int
    } else {
        count - 1
    }
}

/// The row that is selected at first.
pub fn initial_row(initial: usize, count: usize) -> (row: usize)
    ensures
        row == first_row(initial, count as nat),
{
    if count == 0 {
        0
    } else if initial < count {
        initial
    } else {
        count - 1
    }
}

/// What the dialog comes to: the row that is selected, where the dialog is accepted and a row is.
pub fn list_box(accepted: bool, selected: Option<usize>) -> (row: Option<usize>)
    ensures
        row == (if accepted {
            selected
        } else {
            None
        }),
{
    if accepted {
        selected
    } else {
        None
    }
}

/// The first row that is seen when the list was scrolled up by `lines`: no row before the first
/// and none behind the last.
pub open spec fn top_after(top: int, count: int, lines: int) -> int {
    let last = if count > 1 {
        count - 1
    } else {
        0
    };
    if top - lines < 0 {
        0
    } else if top - lines > last {
        last
    } else {
        top - lines
    }
}

/// The first row that is seen when the list was scrolled up by `lines`, or down where that is
/// negative.
pub fn scrolled_top(top: i32, count: i32, lines: i32) -> (row: i32)
    ensures
        row == top_after(top as int, count as int, lines as int),
{
    let last: i64 = if count > 1 {
        count as i64 - 1
    } else {
        0
    };
    let row: i64 = top as i64 - lines as i64;
    if row < 0 {
        0
    } else if row > last {
        last as i32
    } else {
        row as i32
    }
}

/// The list scrolls as far as it can and no further: the first row that is seen is always a row
/// of a list that has any.
pub proof fn law_scrolling_stays_in_the_list(top: int, count: int, lines: int)
    requires
        count > 0,
    ensures
        0 <= top_after(top, count, lines) < count,
{
}

/// The window of the dialog: it has the size that it was closed with.
pub fn list_window(
    title: &str,
    saved: Option<(i32, i32)>,
    screen: (i32, i32),
    headless: bool,
) -> (window: ModalWindow)
    ensures
        ({
            let (w, h) = layout::opening_size(saved, (420, 320), (280, 200), screen);
            window@ == (ModalWindow {
                least: Some((280i32, 200i32)),
                ..opening::styled(title@, w as i32, h as i32, true, true, headless)
            })
        }),
{
    modal_window_resizable_keyed(title, saved, (420, 320), (280, 200), screen, headless)
}

/// What is told of the dialog.
pub fn list_registration(title: &str, items: Vec<String>, initial: usize) -> (r: Registration)
    ensures
        r@ == (Registration::List {
            kind: "list"@,
            title: title@,
            items: items.deep_view(),
            selected: first_row(initial, items@.len()) as usize,
            buttons: dialog::ok_and_cancel(),
        }),
{
    let selected: usize = initial_row(initial, items.len());
    Registration::List {
        kind: text::copy("list"),
        title: text::copy(title),
        items,
        selected,
        buttons: ok_cancel(),
    }
}

/// How far the wheel was turned, in whole notches.
pub open spec fn notches_of(turn: int) -> int {
    if turn >= 0 {
        turn / 120
    } else {
        -((-turn) / 120)
    }
}

/// The first row that is seen when the wheel was turned over the dialog, `per_notch` lines for
/// each notch; nothing where it was turned by less than one.
pub fn wheeled_top(turn: i16, per_notch: i32, top: i32, count: i32) -> (row: Option<i32>)
    requires
        i32::MIN <= notches_of(turn as int) * per_notch <= i32::MAX,
    ensures
        match row {
            Some(r) => notches_of(turn as int) != 0 && r == top_after(
                top as int,
                count as int,
                notches_of(turn as int) * per_notch,
            ),
            None => notches_of(turn as int) == 0,
        },
{
    let turn: i32 = turn as i32;
    let notches: i32 = if turn >= 0 {
        turn / 120
    } else {
        -((-turn) / 120)
    };
    if notches == 0 {
        None
    } else {
        Some(scrolled_top(top, count, notches * per_notch))
    }
}

} // verus!
