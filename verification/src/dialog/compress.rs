//! The dialog that asks for the name and the format of an archive.

use crate::dialog::{Check, Control, ControlKind, Form, FormModel, ID_CANCEL, ID_OK};
use crate::dialog::Registration;
use crate::dialog::{arm_modal, checked, control};
use crate::dialog;
use crate::text;
use vstd::prelude::*;

verus! {

/// A text in specifications.
pub type Txt = Seq<char>;

/// The dialog that asks for the name and the format of an archive.
pub open spec fn compress_form(zip_name: Txt) -> FormModel {
    Form {
        title: "圧縮"@,
        w: 380,
        h: 208,
        controls: seq![
            dialog::ctl(ControlKind::Label, 0, "圧縮ファイル名を入力して下さい。"@, 16, 14, 348, 18),
            dialog::ctl(ControlKind::Combo, 0, zip_name, 16, 38, 348, 0),
            dialog::ctl(ControlKind::Label, 0, "形式"@, 16, 74, 36, 18),
            dialog::ctl_checked(dialog::ctl(ControlKind::Radio, 0, "&zip"@, 56, 72, 64, 20), Check::On),
            dialog::ctl(ControlKind::Radio, 0, "&7z"@, 132, 72, 64, 20),
            dialog::ctl(ControlKind::Radio, 0, "&xz"@, 208, 72, 64, 20),
            dialog::ctl(ControlKind::CheckBox, 0, "選択項目を個別に圧縮する(&O)"@, 16, 104, 348, 22),
            dialog::ctl(ControlKind::DefaultButton, ID_OK, "OK"@, 190, 142, 80, 26),
            dialog::ctl(ControlKind::Button, ID_CANCEL, "キャンセル"@, 278, 142, 86, 26),
        ],
    }
}

/// The dialog that asks for the name and the format of an archive.
pub fn compress_box_form(zip_name: &str) -> (form: Form)
    ensures
        form@ == compress_form(zip_name@),
{
    let mut c: Vec<Control> = Vec::new();
    c.push(control(ControlKind::Label, 0, "圧縮ファイル名を入力して下さい。", 16, 14, 348, 18));
    c.push(control(ControlKind::Combo, 0, zip_name, 16, 38, 348, 0));
    c.push(control(ControlKind::Label, 0, "形式", 16, 74, 36, 18));
    c.push(checked(control(ControlKind::Radio, 0, "&zip", 56, 72, 64, 20), Check::On));
    c.push(control(ControlKind::Radio, 0, "&7z", 132, 72, 64, 20));
    c.push(control(ControlKind::Radio, 0, "&xz", 208, 72, 64, 20));
    c.push(control(ControlKind::CheckBox, 0, "選択項目を個別に圧縮する(&O)", 16, 104, 348, 22));
    c.push(control(ControlKind::DefaultButton, ID_OK, "OK", 190, 142, 80, 26));
    c.push(control(ControlKind::Button, ID_CANCEL, "キャンセル", 278, 142, 86, 26));
    let form = Form { title: text::copy("圧縮"), w: 380, h: 208, controls: c };
    assert(form@.controls =~= compress_form(zip_name@).controls);
    form
}

/// A format of archives.
#[derive(Clone, Copy, Debug, PartialEq, Eq, Structural)]
pub enum CompressFormat {
    Zip,
    SevenZ,
    Xz,
}

/// The name that an archive of each format has where the user gives none.
pub struct CompressDefaults {
    pub zip: String,
    pub sevenz: String,
    pub xz: String,
}

/// What the dialog comes to.
#[derive(Clone, Debug, PartialEq, Eq)]
pub struct CompressChoice {
    /// The name of the archive, whose extension says what format it is in.
    pub name: String,
    /// Each file is packed on its own, in `format`.
    pub one_by_one: bool,
    pub format: CompressFormat,
}

/// The format at a place of the dialog.
pub open spec fn format_at(index: usize) -> CompressFormat {
    if index == 1 {
        CompressFormat::SevenZ
    } else if index == 2 {
        CompressFormat::Xz
    } else {
        CompressFormat::Zip
    }
}

/// The format at a place of the dialog.
pub fn format_of(index: usize) -> (format: CompressFormat)
    ensures
        format == format_at(index),
{
    match index {
        1 => CompressFormat::SevenZ,
        2 => CompressFormat::Xz,
        _ => CompressFormat::Zip,
    }
}

/// The name that an archive of a format has where the user gives none.
pub open spec fn default_for(defaults: CompressDefaults, format: CompressFormat) -> Txt {
    match format {
        CompressFormat::Zip => defaults.zip@,
        CompressFormat::SevenZ => defaults.sevenz@,
        CompressFormat::Xz => defaults.xz@,
    }
}

/// The name that an archive of a format has where the user gives none.
pub fn default_name(defaults: &CompressDefaults, format: CompressFormat) -> (name: &str)
    ensures
        name@ == default_for(*defaults, format),
{
    match format {
        CompressFormat::Zip => defaults.zip.as_str(),
        CompressFormat::SevenZ => defaults.sevenz.as_str(),
        CompressFormat::Xz => defaults.xz.as_str(),
    }
}

/// What the dialog holds.
pub struct CompressForm {
    pub name: String,
    /// The last name that the dialog gave by itself.
    pub last_auto: String,
    /// The user has written a name.
    pub edited: bool,
    /// The format that is chosen, if one is.
    pub selected: Option<usize>,
    pub one_by_one: bool,
}

/// The format that is chosen; a zip archive where none is.
pub open spec fn chosen(selected: Option<usize>) -> CompressFormat {
    match selected {
        Some(i) => format_at(i),
        None => CompressFormat::Zip,
    }
}

impl CompressForm {
    /// The dialog as it opens.
    pub fn new(defaults: &CompressDefaults) -> (form: Self)
        ensures
            form.name@ == defaults.zip@,
            form.last_auto@ == defaults.zip@,
            !form.edited,
            form.selected == Some(0usize),
            !form.one_by_one,
    {
        CompressForm {
            name: text::copy(defaults.zip.as_str()),
            last_auto: text::copy(defaults.zip.as_str()),
            edited: false,
            selected: Some(0),
            one_by_one: false,
        }
    }

    /// The user writes a name.
    pub fn write_name(&mut self, name: String)
        ensures
            *final(self) == (CompressForm { name, edited: true, ..*old(self) }),
    {
        self.name = name;
        self.edited = true;
    }

    /// A format is chosen. The name follows as long as it is the one that the dialog gave; once the
    /// user has written one, the name is left alone.
    pub fn choose_format(&mut self, index: usize, defaults: &CompressDefaults)
        ensures
            final(self).selected == Some(index),
            final(self).one_by_one == old(self).one_by_one,
            final(self).edited == old(self).edited,
            !old(self).edited && old(self).name@ == old(self).last_auto@ ==> {
                &&& final(self).name@ == default_for(*defaults, format_at(index))
                &&& final(self).last_auto@ == default_for(*defaults, format_at(index))
            },
            old(self).edited || old(self).name@ != old(self).last_auto@ ==> final(self).name
                == old(self).name && final(self).last_auto == old(self).last_auto,
    {
        self.selected = Some(index);
        if !self.edited && text::same(self.name.as_str(), self.last_auto.as_str()) {
            let next = default_name(defaults, format_of(index));
            self.name = text::copy(next);
            self.last_auto = text::copy(next);
        }
    }

    /// Whether the name can be edited: it does not matter where each file is packed on its own.
    pub fn name_enabled(&self) -> (enabled: bool)
        ensures
            enabled == !self.one_by_one,
    {
        !self.one_by_one
    }
}

/// The dialog that asks for the name and the format of an archive, as it opens.
pub struct CompressDialog {
    pub form: Form,
    pub registration: Registration,
    /// The names of earlier archives that are offered, the latest first.
    pub history: Vec<String>,
    pub fields: CompressForm,
}

/// The dialog that asks for the name and the format of an archive. The names of earlier archives
/// are offered as they are given, the latest first; the field holds the usual name of a zip
/// archive.
pub fn open_compress_box(defaults: &CompressDefaults, history: Vec<String>) -> (d: CompressDialog)
    ensures
        d.form@ == compress_form(defaults.zip@),
        d.registration@ == dialog::told(
            "compress"@,
            "圧縮"@,
            "圧縮ファイル名を入力して下さい。"@,
            true,
        ),
        d.history@ == history@,
        d.fields.name@ == defaults.zip@,
        d.fields.last_auto@ == defaults.zip@,
        !d.fields.edited,
        d.fields.selected == Some(0usize),
        !d.fields.one_by_one,
{
    CompressDialog {
        form: compress_box_form(defaults.zip.as_str()),
        registration: compress_registration(),
        history,
        fields: CompressForm::new(defaults),
    }
}

/// What the dialog comes to: nothing where it is not accepted.
pub fn compress_box(accepted: bool, form: CompressForm) -> (choice: Option<CompressChoice>)
    ensures
        match choice {
            Some(c) => {
                &&& accepted
                &&& c.name == form.name
                &&& c.one_by_one == form.one_by_one
                &&& c.format == chosen(form.selected)
            },
            None => !accepted,
        },
{
    if !accepted {
        return None;
    }
    let format = match form.selected {
        Some(i) => format_of(i),
        None => CompressFormat::Zip,
    };
    Some(CompressChoice { name: form.name, one_by_one: form.one_by_one, format })
}

/// What is told of the dialog.
pub fn compress_registration() -> (r: Registration)
    ensures
        r@ == dialog::told("compress"@, "圧縮"@, "圧縮ファイル名を入力して下さい。"@, true),
{
    arm_modal("compress", "圧縮", "圧縮ファイル名を入力して下さい。", true)
}

} // verus!
