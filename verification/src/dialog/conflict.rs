//! The dialog that asks what to do about a file that exists at the destination.

use crate::dialog::{Check, Control, ControlKind, Form, FormModel, ID_CANCEL, ID_OK};
use crate::dialog::Registration;
use crate::dialog::{arm_modal, checked, control};
use crate::dialog;
use crate::operation::ConflictResolution;
use crate::winpath;
use crate::text;
use vstd::prelude::*;

verus! {

/// A text in specifications.
pub type Txt = Seq<char>;

/// The dialog that asks what to do about the file `name`.
pub open spec fn conflict_form(name: Txt) -> FormModel {
    Form {
        title: "同名ファイルの処理"@,
        w: 380,
        h: 250,
        controls: seq![
            dialog::ctl(ControlKind::Label, 0, name, 16, 12, 348, 18),
            dialog::ctl_checked(dialog::ctl(ControlKind::Radio, 0, "最新ならコピー(&N)"@, 16, 40, 220, 20), Check::On),
            dialog::ctl(ControlKind::Radio, 0, "上書き(&O)"@, 16, 64, 220, 20),
            dialog::ctl(ControlKind::Radio, 0, "強制上書き(&F)"@, 16, 88, 220, 20),
            dialog::ctl(ControlKind::Radio, 0, "名前を変更してコピー(&R)"@, 16, 112, 180, 20),
            dialog::ctl(ControlKind::Radio, 0, "スキップ(&K)"@, 16, 136, 220, 20),
            dialog::ctl(ControlKind::Edit, 0, name, 200, 112, 150, 22),
            dialog::ctl(ControlKind::CheckBox, 0, "すべてに適用(SHIFT)"@, 16, 166, 220, 18),
            dialog::ctl(ControlKind::DefaultButton, ID_OK, "OK"@, 190, 196, 80, 26),
            dialog::ctl(ControlKind::Button, ID_CANCEL, "キャンセル"@, 278, 196, 86, 26),
        ],
    }
}

/// The dialog that asks what to do about the file `name`.
pub fn conflict_box_form(name: &str) -> (form: Form)
    ensures
        form@ == conflict_form(name@),
{
    let mut c: Vec<Control> = Vec::new();
    c.push(control(ControlKind::Label, 0, name, 16, 12, 348, 18));
    c.push(checked(control(ControlKind::Radio, 0, "最新ならコピー(&N)", 16, 40, 220, 20), Check::On));
    c.push(control(ControlKind::Radio, 0, "上書き(&O)", 16, 64, 220, 20));
    c.push(control(ControlKind::Radio, 0, "強制上書き(&F)", 16, 88, 220, 20));
    c.push(control(ControlKind::Radio, 0, "名前を変更してコピー(&R)", 16, 112, 180, 20));
    c.push(control(ControlKind::Radio, 0, "スキップ(&K)", 16, 136, 220, 20));
    c.push(control(ControlKind::Edit, 0, name, 200, 112, 150, 22));
    c.push(control(ControlKind::CheckBox, 0, "すべてに適用(SHIFT)", 16, 166, 220, 18));
    c.push(control(ControlKind::DefaultButton, ID_OK, "OK", 190, 196, 80, 26));
    c.push(control(ControlKind::Button, ID_CANCEL, "キャンセル", 278, 196, 86, 26));
    let form = Form { title: text::copy("同名ファイルの処理"), w: 380, h: 250, controls: c };
    assert(form@.controls =~= conflict_form(name@).controls);
    form
}

/// The place of the choice to copy under another name.
pub const RENAME_CHOICE: usize = 3;

/// What the dialog holds.
pub struct ConflictForm {
    /// The choice that is on, if one is.
    pub selected: Option<usize>,
    /// The other name.
    pub rename: String,
    /// The choice holds for all files that follow.
    pub all: bool,
}

/// Which controls can be used: whether the choice of another name can be taken, and whether
/// the other name can be edited. One other name cannot hold for all files.
pub open spec fn usable(selected: Option<usize>, all: bool) -> (bool, bool) {
    (!all, selected == Some(RENAME_CHOICE) && !all)
}

impl ConflictForm {
    /// The dialog as it opens.
    pub fn new(name: &str) -> (form: Self)
        ensures
            form.selected == Some(0usize),
            form.rename@ == name@,
            !form.all,
    {
        ConflictForm { selected: Some(0), rename: text::copy(name), all: false }
    }

    /// Where the caret stands in the other name when the dialog opens, in UTF-16 units: before the
    /// extension of `name`, and nothing is selected.
    pub fn first_caret(name: &str) -> (at: usize)
        ensures
            at == winpath::utf16(dialog::stem(name@, false)).len(),
    {
        dialog::before_ext_pos(name, false)
    }

    /// Which controls can be used.
    pub fn refresh(&self) -> (enabled: (bool, bool))
        ensures
            enabled == usable(self.selected, self.all),
    {
        let rename_selected = match self.selected {
            Some(i) => i == RENAME_CHOICE,
            None => false,
        };
        (!self.all, rename_selected && !self.all)
    }

    /// A choice is clicked. The answer says where the caret goes, in UTF-16 units, if the other
    /// name is to be edited now: before the extension of `name`.
    pub fn pick(&mut self, choice: usize, name: &str) -> (caret: Option<usize>)
        ensures
            final(self).selected == Some(choice),
            final(self).rename == old(self).rename,
            final(self).all == old(self).all,
            match caret {
                Some(at) => choice == RENAME_CHOICE && at == winpath::utf16(
                    dialog::stem(name@, false),
                ).len(),
                None => choice != RENAME_CHOICE,
            },
    {
        self.selected = Some(choice);
        if choice == RENAME_CHOICE {
            Some(ConflictForm::first_caret(name))
        } else {
            None
        }
    }

    /// A key goes down or up. While the other name is edited, up and down go back to the
    /// choices above and below it; elsewhere the Shift key checks that the choice holds for all
    /// while it is down.
    pub fn key(&mut self, code: u16, down: bool, in_rename: bool) -> (click: Option<usize>)
        ensures
            match key_action(code, down, in_rename) {
                KeyAction::Click(choice) => click == Some(choice) && final(self).all == old(
                    self,
                ).all,
                KeyAction::All(on) => click is None && final(self).all == on,
                KeyAction::Nothing => click is None && final(self).all == old(self).all,
            },
            final(self).selected == old(self).selected,
            final(self).rename == old(self).rename,
    {
        if down && in_rename && (code == 0x26 || code == 0x28) {
            return if code == 0x26 {
                Some(2)
            } else {
                Some(4)
            };
        }
        if code == 0x10 && !in_rename {
            self.all = down;
        }
        None
    }
}

/// What a key does.
pub enum KeyAction {
    Nothing,
    /// It clicks a choice.
    Click(usize),
    /// It checks or clears that the choice holds for all.
    All(bool),
}

/// What a key does.
pub open spec fn key_action(code: u16, down: bool, in_rename: bool) -> KeyAction {
    if down && in_rename && code == 0x26 {
        KeyAction::Click(2)
    } else if down && in_rename && code == 0x28 {
        KeyAction::Click(4)
    } else if code == 0x10 && !in_rename {
        KeyAction::All(down)
    } else {
        KeyAction::Nothing
    }
}

/// What a choice means.
pub open spec fn resolution(selected: Option<usize>, rename: Txt) -> ConflictResolution<Txt> {
    match selected {
        Some(i) => if i == 1 {
            ConflictResolution::Overwrite
        } else if i == 2 {
            ConflictResolution::OverwriteForce
        } else if i == RENAME_CHOICE {
            ConflictResolution::Rename(rename)
        } else if i == 4 {
            ConflictResolution::Skip
        } else {
            ConflictResolution::Newest
        },
        None => ConflictResolution::Newest,
    }
}

/// What the dialog comes to, and whether it holds for all: a dialog that is not accepted
/// cancels.
pub fn conflict_box(accepted: bool, form: ConflictForm) -> (choice: (ConflictResolution, bool))
    ensures
        accepted ==> choice.0@ == resolution(form.selected, form.rename@) && choice.1 == form.all,
        !accepted ==> choice.0@ == ConflictResolution::<Txt>::Cancel && !choice.1,
{
    if !accepted {
        return (ConflictResolution::Cancel, false);
    }
    let resolved = match form.selected {
        Some(1) => ConflictResolution::Overwrite,
        Some(2) => ConflictResolution::OverwriteForce,
        Some(3) => ConflictResolution::Rename(form.rename),
        Some(4) => ConflictResolution::Skip,
        _ => ConflictResolution::Newest,
    };
    (resolved, form.all)
}

/// Another name can be edited only while its choice can be taken.
pub proof fn law_renaming_excludes_all(selected: Option<usize>, all: bool)
    ensures
        usable(selected, all).1 ==> usable(selected, all).0 && !all,
{
}

/// What is told of the dialog about the file `name`.
pub fn conflict_registration(name: &str) -> (r: Registration)
    ensures
        r@ == dialog::told("conflict"@, "同名ファイルの処理"@, name@, true),
{
    arm_modal("conflict", "同名ファイルの処理", name, true)
}

} // verus!
