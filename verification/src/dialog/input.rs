//! Dialogs in which the user writes something.

use crate::dialog::{Control, ControlKind, Form, FormModel, ID_CANCEL, ID_OK, InputSelect};
use crate::dialog::layout::code_box_geometry;
use crate::dialog::layout;
use crate::dialog::opening::{ModalWindow, modal_window_resizable_keyed};
use crate::dialog::opening;
use crate::dialog::Registration;
use crate::dialog::{arm_modal, check_if, checked, control};
use crate::dialog;
use crate::text;
use vstd::prelude::*;

verus! {

/// A text in specifications.
pub type Txt = Seq<char>;

/// What is written.
#[derive(Clone, Copy, Debug, PartialEq, Eq, Structural)]
pub enum InputMode {
    Plain,
    /// A password, which is not shown.
    Password,
}

/// The control in which the user writes: earlier texts are offered, but never for a password.
pub open spec fn field_kind(mode: InputMode, has_history: bool) -> ControlKind {
    match mode {
        InputMode::Password => ControlKind::Password,
        InputMode::Plain => if has_history {
            ControlKind::Combo
        } else {
            ControlKind::Edit
        },
    }
}

/// The dialog that asks for a line of text.
pub open spec fn input_form(
    title: Txt,
    message: Txt,
    value: Txt,
    mode: InputMode,
    has_history: bool,
) -> FormModel {
    Form {
        title,
        w: 360,
        h: 150,
        controls: seq![
            dialog::ctl(ControlKind::Label, 0, message, 16, 14, 328, 18),
            dialog::ctl(
                field_kind(mode, has_history),
                0,
                value,
                16,
                38,
                328,
                if field_kind(mode, has_history) == ControlKind::Combo {
                    0
                } else {
                    24
                },
            ),
            dialog::ctl(ControlKind::DefaultButton, ID_OK, "OK"@, 170, 80, 80, 26),
            dialog::ctl(ControlKind::Button, ID_CANCEL, "キャンセル"@, 258, 80, 86, 26),
        ],
    }
}

/// The dialog that asks for a line of text.
fn input_box_full_form(
    title: &str,
    message: &str,
    value: &str,
    mode: InputMode,
    has_history: bool,
) -> (form: Form)
    ensures
        form@ == input_form(title@, message@, value@, mode, has_history),
{
    let mut c: Vec<Control> = Vec::new();
    c.push(control(ControlKind::Label, 0, message, 16, 14, 328, 18));
    match mode {
        InputMode::Password => {
            c.push(control(ControlKind::Password, 0, value, 16, 38, 328, 24));
        },
        InputMode::Plain => {
            if has_history {
                c.push(control(ControlKind::Combo, 0, value, 16, 38, 328, 0));
            } else {
                c.push(control(ControlKind::Edit, 0, value, 16, 38, 328, 24));
            }
        },
    }
    c.push(control(ControlKind::DefaultButton, ID_OK, "OK", 170, 80, 80, 26));
    c.push(control(ControlKind::Button, ID_CANCEL, "キャンセル", 258, 80, 86, 26));
    let form = Form { title: text::copy(title), w: 360, h: 150, controls: c };
    assert(form@.controls =~= input_form(title@, message@, value@, mode, has_history).controls);
    form
}

/// What is selected at first, from one place to another in UTF-16 units. Where earlier texts are
/// offered nothing is asked for.
pub open spec fn first_selection(
    mode: InputMode,
    has_history: bool,
    select: InputSelect,
    value: Txt,
) -> Option<(int, int)> {
    if field_kind(mode, has_history) == ControlKind::Combo {
        None
    } else {
        dialog::selection_of(select, value)
    }
}

/// What is selected at first.
fn initial_selection(mode: InputMode, has_history: bool, select: InputSelect, value: &str) -> (
    selection: Option<(usize, usize)>)
    ensures
        match selection {
            Some((from, to)) => first_selection(mode, has_history, select, value@) == Some(
                (from as int, to as int),
            ),
            None => first_selection(mode, has_history, select, value@) is None,
        },
{
    if mode == InputMode::Plain && has_history {
        return None;
    }
    select.apply(value)
}

/// The dialog that asks for a line of text, as it opens.
pub struct InputDialog {
    pub form: Form,
    pub registration: Registration,
    /// The earlier texts that are offered, the latest first.
    pub history: Vec<String>,
    /// What is selected, from one place to another in UTF-16 units; nothing is said where the
    /// toolkit decides.
    pub selection: Option<(usize, usize)>,
}

/// Whether `d` is the dialog that asks for a line of text.
pub open spec fn asks_for_text(
    d: InputDialog,
    title: Txt,
    message: Txt,
    value: Txt,
    mode: InputMode,
    select: InputSelect,
    history: Option<Seq<Txt>>,
) -> bool {
    &&& d.form@ == input_form(title, message, value, mode, history is Some)
    &&& d.registration@ == dialog::told("input"@, title, message, true)
    &&& d.history.deep_view() == (match (mode, history) {
        (InputMode::Plain, Some(texts)) => texts,
        _ => Seq::empty(),
    })
    &&& match d.selection {
        Some((from, to)) => first_selection(mode, history is Some, select, value) == Some(
            (from as int, to as int),
        ),
        None => first_selection(mode, history is Some, select, value) is None,
    }
}

/// The dialog that asks for a line of text. Earlier texts are offered where there is a
/// `history`, but never for a password.
pub fn input_box_full(
    title: &str,
    message: &str,
    value: &str,
    mode: InputMode,
    select: InputSelect,
    history: Option<Vec<String>>,
) -> (d: InputDialog)
    ensures
        asks_for_text(d, title@, message@, value@, mode, select, history.deep_view()),
{
    let has_history = history.is_some();
    let form = input_box_full_form(title, message, value, mode, has_history);
    let registration = arm_modal("input", title, message, true);
    let selection = initial_selection(mode, has_history, select, value);
    let history = match (mode, history) {
        (InputMode::Plain, Some(texts)) => texts,
        _ => Vec::new(),
    };
    assert(history@.len() == 0 ==> history.deep_view() =~= Seq::<Txt>::empty());
    InputDialog { form, registration, history, selection }
}

/// The dialog that asks for a line of text, without earlier texts, and with what the toolkit
/// selects.
pub fn input_box(title: &str, message: &str, value: &str, mode: InputMode) -> (d: InputDialog)
    ensures
        asks_for_text(d, title@, message@, value@, mode, InputSelect::AsIs, None),
{
    input_box_full(title, message, value, mode, InputSelect::AsIs, None)
}

/// The dialog that asks for a line of text, without earlier texts.
pub fn input_box_select(
    title: &str,
    message: &str,
    value: &str,
    mode: InputMode,
    select: InputSelect,
) -> (d: InputDialog)
    ensures
        asks_for_text(d, title@, message@, value@, mode, select, None),
{
    input_box_full(title, message, value, mode, select, None)
}

/// What a dialog comes to in which something is written: what was written, where the dialog is
/// accepted.
pub fn input_result(accepted: bool, written: String) -> (value: Option<String>)
    ensures
        value == (if accepted {
            Some(written)
        } else {
            None
        }),
{
    if accepted {
        Some(written)
    } else {
        None
    }
}

/// Whether a text has several lines.
pub open spec fn is_multiline(value: Txt) -> bool {
    value.contains('\n')
}

/// Whether a text has several lines.
pub fn multiline(value: &str) -> (yes: bool)
    ensures
        yes == is_multiline(value@),
{
    let chars = text::to_chars(value);
    let mut i: usize = 0;
    while i < chars.len()
        invariant
            i <= chars.len(),
            chars@ == value@,
            forall|j: int| 0 <= j < i ==> value@[j] != '\n',
        decreases chars.len() - i,
    {
        if chars[i] == '\n' {
            assert(value@[i as int] == '\n');
            return true;
        }
        i += 1;
    }
    false
}

/// The dialog in which code is written. It opens with room for several lines where there are.
pub open spec fn code_form(message: Txt, value: Txt) -> FormModel {
    Form {
        title: "コードを割り当て"@,
        w: 560,
        h: 480,
        controls: seq![
            dialog::ctl(ControlKind::Label, 0, message, 16, 14, 348, 18),
            dialog::ctl_checked(dialog::ctl(ControlKind::CheckBox, 0, "複数行(&M)"@, 372, 12, 92, 20), dialog::check_of(is_multiline(value))),
            dialog::ctl(ControlKind::MultiEdit, 0, value, 16, 38, 448, if is_multiline(value) { 150 } else { 24 }),
            dialog::ctl(ControlKind::HiddenList, 0, ""@, 16, if is_multiline(value) { 194 } else { 70 }, 448, if is_multiline(value) { 150 } else { 274 }),
            dialog::ctl(ControlKind::DefaultButton, ID_OK, "OK"@, 290, 356, 80, 26),
            dialog::ctl(ControlKind::Button, ID_CANCEL, "キャンセル"@, 378, 356, 86, 26),
        ],
    }
}

/// The dialog in which code is written. It opens with room for several lines where there are.
fn code_box_form(message: &str, value: &str) -> (form: Form)
    ensures
        form@ == code_form(message@, value@),
{
    let multiline = multiline(value);
    let (edit_h, list_y, list_h) = code_box_geometry(multiline);
    let mut c: Vec<Control> = Vec::new();
    c.push(control(ControlKind::Label, 0, message, 16, 14, 348, 18));
    c.push(checked(control(ControlKind::CheckBox, 0, "複数行(&M)", 372, 12, 92, 20), check_if(multiline)));
    c.push(control(ControlKind::MultiEdit, 0, value, 16, 38, 448, edit_h));
    c.push(control(ControlKind::HiddenList, 0, "", 16, list_y, 448, list_h));
    c.push(control(ControlKind::DefaultButton, ID_OK, "OK", 290, 356, 80, 26));
    c.push(control(ControlKind::Button, ID_CANCEL, "キャンセル", 378, 356, 86, 26));
    let form = Form { title: text::copy("コードを割り当て"), w: 560, h: 480, controls: c };
    assert(form@.controls =~= code_form(message@, value@).controls);
    form
}

/// The dialog in which code is written, as it opens.
pub struct CodeDialog {
    pub window: ModalWindow,
    pub form: Form,
    pub registration: Registration,
    /// There is room for several lines.
    pub expanded: bool,
}

/// The dialog in which code is written. Its window has the size that it was closed with, which
/// the code of keys and of menus share.
pub fn code_box(
    message: &str,
    value: &str,
    saved: Option<(i32, i32)>,
    screen: (i32, i32),
    headless: bool,
) -> (d: CodeDialog)
    ensures
        d.form@ == code_form(message@, value@),
        d.registration@ == dialog::told("input"@, "コードを割り当て"@, message@, true),
        d.expanded == is_multiline(value@),
        ({
            let (w, h) = layout::opening_size(saved, (560, 480), (360, 300), screen);
            d.window@ == (ModalWindow {
                least: Some((360i32, 300i32)),
                ..opening::styled("コードを割り当て"@, w as i32, h as i32, true, true, headless)
            })
        }),
{
    let window = modal_window_resizable_keyed(
        "コードを割り当て",
        saved,
        (560, 480),
        (360, 300),
        screen,
        headless,
    );
    CodeDialog {
        window,
        form: code_box_form(message, value),
        registration: arm_modal("input", "コードを割り当て", message, true),
        expanded: multiline(value),
    }
}

/// The dialog in which a command is picked by writing a part of its name.
pub open spec fn command_form(message: Txt) -> FormModel {
    Form {
        title: "コマンドを実行"@,
        w: 460,
        h: 320,
        controls: seq![
            dialog::ctl(ControlKind::Label, 0, message, 16, 14, 428, 18),
            dialog::ctl(ControlKind::Edit, 0, ""@, 16, 38, 428, 24),
            dialog::ctl(ControlKind::HiddenList, 0, ""@, 16, 70, 428, 180),
            dialog::ctl(ControlKind::DefaultButton, ID_OK, "OK"@, 270, 262, 80, 26),
            dialog::ctl(ControlKind::Button, ID_CANCEL, "キャンセル"@, 358, 262, 86, 26),
        ],
    }
}

/// The dialog in which a command is picked by writing a part of its name.
fn command_box_form(message: &str) -> (form: Form)
    ensures
        form@ == command_form(message@),
{
    let mut c: Vec<Control> = Vec::new();
    c.push(control(ControlKind::Label, 0, message, 16, 14, 428, 18));
    c.push(control(ControlKind::Edit, 0, "", 16, 38, 428, 24));
    c.push(control(ControlKind::HiddenList, 0, "", 16, 70, 428, 180));
    c.push(control(ControlKind::DefaultButton, ID_OK, "OK", 270, 262, 80, 26));
    c.push(control(ControlKind::Button, ID_CANCEL, "キャンセル", 358, 262, 86, 26));
    let form = Form { title: text::copy("コマンドを実行"), w: 460, h: 320, controls: c };
    assert(form@.controls =~= command_form(message@).controls);
    form
}

/// The dialog in which a command is picked by writing a part of its name, and what is told of it.
pub fn command_box(message: &str) -> (d: (Form, Registration))
    ensures
        d.0@ == command_form(message@),
        d.1@ == dialog::told("input"@, "コマンドを実行"@, message@, true),
{
    (command_box_form(message), arm_modal("input", "コマンドを実行", message, true))
}

} // verus!
