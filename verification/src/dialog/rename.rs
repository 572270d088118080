//! The dialog that changes names, attributes and times.

use crate::dialog::{Check, Control, ControlKind, Form, FormModel, ID_CANCEL, ID_OK};
use crate::dialog::Registration;
use crate::dialog::{arm_modal, check_if, checked, control};
use crate::dialog;
use crate::text;
use crate::winpath;
use vstd::prelude::*;

verus! {

/// A text in specifications.
pub type Txt = Seq<char>;

/// The attributes of a file.
#[derive(Clone, Copy, Debug, PartialEq, Eq, Structural)]
pub struct FileAttrs {
    pub readonly: bool,
    pub hidden: bool,
    pub system: bool,
    pub archive: bool,
}

/// How names are changed where there are several.
#[derive(Clone, Copy, Debug, PartialEq, Eq, Structural)]
pub enum NameCase {
    /// Not at all.
    Kept,
    Upper,
    Lower,
    ExtUpper,
    ExtLower,
}

/// What is to be changed: one file, whose name can be edited, or several.
pub struct RenameSubject {
    /// The name, where it is one file.
    pub single: Option<String>,
    pub is_dir: bool,
    /// How many there are.
    pub count: usize,
    pub attrs: FileAttrs,
    /// When it was changed, as the user reads it, where that is known.
    pub modified: Option<String>,
    /// When it was made, as the user reads it, where that is known.
    pub created: Option<String>,
}

/// Whether what is below a directory can be changed too: only where it is one directory.
pub open spec fn offers_below(subject: RenameSubject) -> bool {
    subject.single is Some && subject.is_dir
}

/// How an attribute is shown at first: as it is for one file, as to be kept for several.
pub open spec fn first_check(subject: RenameSubject, on: bool) -> Check {
    if subject.single is Some {
        dialog::check_of(on)
    } else {
        Check::Kept
    }
}

/// The kind of check box for an attribute.
pub open spec fn attr_kind(subject: RenameSubject) -> ControlKind {
    if subject.single is Some {
        ControlKind::CheckBox
    } else {
        ControlKind::TriCheckBox
    }
}

/// What the field of a time holds at first: the time for one file, nothing for several.
pub open spec fn first_time(subject: RenameSubject, time: Option<String>) -> Txt {
    match (subject.single, time) {
        (Some(_), Some(t)) => t@,
        _ => Seq::empty(),
    }
}

/// What the field of the name holds at first.
pub open spec fn first_name(subject: RenameSubject) -> Txt {
    match subject.single {
        Some(name) => name@,
        None => Seq::empty(),
    }
}

/// Where the buttons stand.
pub open spec fn button_y(subject: RenameSubject) -> i32 {
    if offers_below(subject) {
        348
    } else {
        290
    }
}

/// The controls above the attributes.
pub open spec fn name_controls(subject: RenameSubject) -> Seq<Control<Txt>> {
    let name = seq![
            dialog::ctl(ControlKind::Label, 0, "名前(&N)"@, 16, 16, 76, 18),
            dialog::ctl(ControlKind::Edit, 0, first_name(subject), 96, 14, 212, 22),
            dialog::ctl(ControlKind::Button, 12, "..."@, 312, 14, 26, 22),
        ];
    if subject.single is Some {
        name
    } else {
        name + seq![
            dialog::ctl(ControlKind::Label, 0, text::decimal_text(subject.count as nat) + " 個の項目に属性／日時／名前を適用します。"@, 16, 40, 328, 18),
        ]
    }
}

/// The controls for the attributes and the times.
pub open spec fn attribute_controls(subject: RenameSubject) -> Seq<Control<Txt>> {
    seq![
            dialog::ctl_checked(dialog::ctl(attr_kind(subject), 0, "読み取り専用(&R)"@, 24, 56, 300, 22), first_check(subject, subject.attrs.readonly)),
            dialog::ctl_checked(dialog::ctl(attr_kind(subject), 0, "隠し(&H)"@, 24, 82, 300, 22), first_check(subject, subject.attrs.hidden)),
            dialog::ctl_checked(dialog::ctl(attr_kind(subject), 0, "システム(&S)"@, 24, 108, 300, 22), first_check(subject, subject.attrs.system)),
            dialog::ctl_checked(dialog::ctl(attr_kind(subject), 0, "アーカイブ(&A)"@, 24, 134, 300, 22), first_check(subject, subject.attrs.archive)),
        ] + seq![
            dialog::ctl(ControlKind::Label, 0, "日付（YYYY/MM/DD HH:MM:SS・空欄=変更しない）"@, 16, 168, 328, 18),
            dialog::ctl(ControlKind::Label, 0, "更新日付(&U)"@, 16, 193, 76, 18),
            dialog::ctl(ControlKind::Edit, 0, first_time(subject, subject.modified), 96, 190, 212, 22),
            dialog::ctl(ControlKind::Button, 10, "..."@, 312, 190, 26, 22),
            dialog::ctl(ControlKind::Label, 0, "作成日時(&C)"@, 16, 221, 76, 18),
            dialog::ctl(ControlKind::Edit, 0, first_time(subject, subject.created), 96, 218, 212, 22),
            dialog::ctl(ControlKind::Button, 11, "..."@, 312, 218, 26, 22),
        ]
}

/// The controls for what is below a directory.
pub open spec fn below_controls(subject: RenameSubject) -> Seq<Control<Txt>> {
    if offers_below(subject) {
        seq![
            dialog::ctl(ControlKind::CheckBox, 0, "サブディレクトリにも属性を適用(&B)"@, 24, 254, 320, 22),
            dialog::ctl(ControlKind::CheckBox, 0, "サブディレクトリにも日時を適用(&G)"@, 24, 280, 320, 22),
        ]
    } else {
        Seq::empty()
    }
}

/// The dialog that changes names, attributes and times.
pub open spec fn rename_form(subject: RenameSubject) -> FormModel {
    Form {
        title: "名前の変更"@,
        w: 360,
        h: if offers_below(subject) {
            388
        } else {
            340
        },
        controls: name_controls(subject) + attribute_controls(subject) + below_controls(subject)
            + seq![
            dialog::ctl(ControlKind::DefaultButton, ID_OK, "OK"@, 172, button_y(subject), 80, 26),
            dialog::ctl(ControlKind::Button, ID_CANCEL, "キャンセル"@, 260, button_y(subject), 84, 26),
        ],
    }
}

/// What the dialog holds.
pub struct RenameForm {
    /// It is one file.
    pub is_single: bool,
    pub is_dir: bool,
    pub name: String,
    pub readonly: Check,
    pub hidden: Check,
    pub system: Check,
    pub archive: Check,
    pub mtime: String,
    pub ctime: String,
    /// The attributes go to what is below too.
    pub sub_attr: bool,
    /// The times go to what is below too.
    pub sub_time: bool,
    pub name_case: NameCase,
}

/// What the dialog holds as it opens.
pub open spec fn is_first(form: RenameForm, subject: RenameSubject) -> bool {
    &&& form.is_single == (subject.single is Some)
    &&& form.is_dir == subject.is_dir
    &&& form.name@ == first_name(subject)
    &&& form.readonly == first_check(subject, subject.attrs.readonly)
    &&& form.hidden == first_check(subject, subject.attrs.hidden)
    &&& form.system == first_check(subject, subject.attrs.system)
    &&& form.archive == first_check(subject, subject.attrs.archive)
    &&& form.mtime@ == first_time(subject, subject.modified)
    &&& form.ctime@ == first_time(subject, subject.created)
    &&& !form.sub_attr
    &&& !form.sub_time
    &&& form.name_case == NameCase::Kept
}

/// How an attribute is shown at first.
fn check_at_first(is_single: bool, on: bool) -> (check: Check)
    ensures
        check == (if is_single {
            dialog::check_of(on)
        } else {
            Check::Kept
        }),
{
    if is_single {
        check_if(on)
    } else {
        Check::Kept
    }
}

/// What the field of a time holds at first.
fn time_at_first(is_single: bool, time: &Option<String>) -> (s: String)
    ensures
        s@ == (match time {
            Some(t) => if is_single {
                t@
            } else {
                Seq::empty()
            },
            None => Seq::empty(),
        }),
{
    if is_single {
        if let Some(t) = time {
            return text::copy(t.as_str());
        }
    }
    String::new()
}

impl RenameForm {
    /// Whether the dialog holds what its controls can show. For one file an attribute is set or
    /// not, and a way to change names is not kept but applied at once; what is below is offered for
    /// one directory only.
    pub open spec fn wf(self) -> bool {
        &&& self.is_single ==> {
            &&& self.readonly != Check::Kept
            &&& self.hidden != Check::Kept
            &&& self.system != Check::Kept
            &&& self.archive != Check::Kept
            &&& self.name_case == NameCase::Kept
        }
        &&& !(self.is_single && self.is_dir) ==> !self.sub_attr && !self.sub_time
    }

    /// The dialog as it opens.
    pub fn new(subject: &RenameSubject) -> (form: Self)
        ensures
            is_first(form, *subject),
            form.wf(),
    {
        let is_single = subject.single.is_some();
        let name = match &subject.single {
            Some(name) => text::copy(name.as_str()),
            None => String::new(),
        };
        RenameForm {
            is_single,
            is_dir: subject.is_dir,
            name,
            readonly: check_at_first(is_single, subject.attrs.readonly),
            hidden: check_at_first(is_single, subject.attrs.hidden),
            system: check_at_first(is_single, subject.attrs.system),
            archive: check_at_first(is_single, subject.attrs.archive),
            mtime: time_at_first(is_single, &subject.modified),
            ctime: time_at_first(is_single, &subject.created),
            sub_attr: false,
            sub_time: false,
            name_case: NameCase::Kept,
        }
    }

    /// Whether the name can be edited: for one file, and not while what is below is changed too.
    pub fn name_enabled(&self) -> (enabled: bool)
        ensures
            enabled == (self.is_single && !self.sub_attr && !self.sub_time),
    {
        self.is_single && !self.sub_attr && !self.sub_time
    }

    /// Whether the menu of ways to change names can be opened: not while what is below is changed
    /// too.
    pub fn menu_enabled(&self) -> (enabled: bool)
        ensures
            enabled == (!self.sub_attr && !self.sub_time),
    {
        !self.sub_attr && !self.sub_time
    }

    /// Where the caret stands in the name at first, in UTF-16 units: before its extension. For
    /// several files the name has no caret, and the focus goes to the first attribute.
    pub fn caret(&self) -> (at: Option<usize>)
        ensures
            match at {
                Some(n) => self.is_single && n == winpath::utf16(
                    dialog::stem(self.name@, self.is_dir),
                ).len(),
                None => !self.is_single,
            },
    {
        if self.is_single {
            Some(dialog::before_ext_pos(self.name.as_str(), self.is_dir))
        } else {
            None
        }
    }

    /// A way to change names was picked from the menu. For one file the name becomes
    /// `converted`, and the caret goes to its end; for several, the way is kept and its label
    /// shown in place of a name.
    pub fn pick_case(&mut self, id: u16, converted: &str) -> (caret: Option<usize>)
        requires
            old(self).wf(),
        ensures
            final(self).wf(),
            old(self).is_single ==> {
                &&& final(self).name@ == converted@
                &&& final(self).name_case == old(self).name_case
                &&& caret == Some(winpath::utf16(converted@).len() as usize)
            },
            !old(self).is_single ==> {
                &&& final(self).name_case == case_of(id)
                &&& final(self).name@ == shown_label(case_of(id))
                &&& caret is None
            },
            final(self).is_single == old(self).is_single,
            final(self).is_dir == old(self).is_dir,
            final(self).readonly == old(self).readonly,
            final(self).hidden == old(self).hidden,
            final(self).system == old(self).system,
            final(self).archive == old(self).archive,
            final(self).mtime == old(self).mtime,
            final(self).ctime == old(self).ctime,
            final(self).sub_attr == old(self).sub_attr,
            final(self).sub_time == old(self).sub_time,
    {
        if self.is_single {
            self.name = text::copy(converted);
            return Some(dialog::utf16_len(converted));
        }
        let kind = case_picked(id);
        self.name_case = kind;
        self.name =
        if kind == NameCase::Kept {
            String::new()
        } else {
            text::copy(label_of(kind))
        };
        None
    }
}

/// The dialog that changes names, attributes and times.
pub fn rename_box_form(subject: &RenameSubject) -> (form: Form)
    ensures
        form@ == rename_form(*subject),
{
    let is_single = subject.single.is_some();
    let below = is_single && subject.is_dir;
    let form = RenameForm::new(subject);
    let kind = if is_single {
        ControlKind::CheckBox
    } else {
        ControlKind::TriCheckBox
    };
    let y: i32 = if below {
        348
    } else {
        290
    };
    let name = text::copy(form.name.as_str());
    let mut c: Vec<Control> = Vec::new();
    c.push(control(ControlKind::Label, 0, "名前(&N)", 16, 16, 76, 18));
    c.push(control(ControlKind::Edit, 0, name.as_str(), 96, 14, 212, 22));
    c.push(control(ControlKind::Button, 12, "...", 312, 14, 26, 22));
    if !is_single {
        let note = text::concat(
            text::decimal(subject.count as u64).as_str(),
            " 個の項目に属性／日時／名前を適用します。",
        );
        c.push(control(ControlKind::Label, 0, note.as_str(), 16, 40, 328, 18));
    }
    assert(dialog::controls_of(c@) =~= name_controls(*subject));
    let ghost before = dialog::controls_of(c@);
    c.push(checked(control(kind, 0, "読み取り専用(&R)", 24, 56, 300, 22), form.readonly));
    c.push(checked(control(kind, 0, "隠し(&H)", 24, 82, 300, 22), form.hidden));
    c.push(checked(control(kind, 0, "システム(&S)", 24, 108, 300, 22), form.system));
    c.push(checked(control(kind, 0, "アーカイブ(&A)", 24, 134, 300, 22), form.archive));
    c.push(control(ControlKind::Label, 0, "日付（YYYY/MM/DD HH:MM:SS・空欄=変更しない）", 16, 168, 328, 18));
    c.push(control(ControlKind::Label, 0, "更新日付(&U)", 16, 193, 76, 18));
    c.push(control(ControlKind::Edit, 0, form.mtime.as_str(), 96, 190, 212, 22));
    c.push(control(ControlKind::Button, 10, "...", 312, 190, 26, 22));
    c.push(control(ControlKind::Label, 0, "作成日時(&C)", 16, 221, 76, 18));
    c.push(control(ControlKind::Edit, 0, form.ctime.as_str(), 96, 218, 212, 22));
    c.push(control(ControlKind::Button, 11, "...", 312, 218, 26, 22));
    assert(dialog::controls_of(c@) =~= before + attribute_controls(*subject));
    let ghost before = dialog::controls_of(c@);
    if below {
        c.push(control(ControlKind::CheckBox, 0, "サブディレクトリにも属性を適用(&B)", 24, 254, 320, 22));
        c.push(control(ControlKind::CheckBox, 0, "サブディレクトリにも日時を適用(&G)", 24, 280, 320, 22));
    }
    assert(dialog::controls_of(c@) =~= before + below_controls(*subject));
    c.push(control(ControlKind::DefaultButton, ID_OK, "OK", 172, y, 80, 26));
    c.push(control(ControlKind::Button, ID_CANCEL, "キャンセル", 260, y, 84, 26));
    let shown = Form {
        title: text::copy("名前の変更"),
        w: 360,
        h: if below {
            388
        } else {
            340
        },
        controls: c,
    };
    assert(shown@.controls =~= rename_form(*subject).controls);
    shown
}

/// The way to change names that stands at a place of the menu, counted from one.
pub open spec fn case_of(id: u16) -> NameCase {
    if id == 2 {
        NameCase::Upper
    } else if id == 3 {
        NameCase::Lower
    } else if id == 4 {
        NameCase::ExtUpper
    } else if id == 5 {
        NameCase::ExtLower
    } else {
        NameCase::Kept
    }
}

/// The way to change names that stands at a place of the menu, counted from one.
pub fn case_picked(id: u16) -> (kind: NameCase)
    ensures
        kind == case_of(id),
{
    match id {
        2 => NameCase::Upper,
        3 => NameCase::Lower,
        4 => NameCase::ExtUpper,
        5 => NameCase::ExtLower,
        _ => NameCase::Kept,
    }
}

/// The label of a way to change names.
pub open spec fn case_label(kind: NameCase) -> &'static str {
    match kind {
        NameCase::Kept => "何もしない",
        NameCase::Upper => "すべて大文字にする",
        NameCase::Lower => "すべて小文字にする",
        NameCase::ExtUpper => "拡張子を大文字にする",
        NameCase::ExtLower => "拡張子を小文字にする",
    }
}

/// The label of a way to change names.
pub fn label_of(kind: NameCase) -> (label: &'static str)
    ensures
        label == case_label(kind),
{
    match kind {
        NameCase::Kept => "何もしない",
        NameCase::Upper => "すべて大文字にする",
        NameCase::Lower => "すべて小文字にする",
        NameCase::ExtUpper => "拡張子を大文字にする",
        NameCase::ExtLower => "拡張子を小文字にする",
    }
}

/// What is shown in place of a name: the label of the way, and nothing where names are kept.
pub open spec fn shown_label(kind: NameCase) -> Txt {
    if kind == NameCase::Kept {
        Seq::empty()
    } else {
        case_label(kind)@
    }
}

/// An entry of a menu.
#[derive(Clone, Copy, Debug, PartialEq, Eq)]
pub struct MenuEntry {
    pub id: u16,
    pub label: &'static str,
    pub checked: bool,
}

/// The entry of the menu for the way at place `id`.
pub open spec fn case_entry(is_single: bool, cur: NameCase, id: u16) -> MenuEntry {
    MenuEntry {
        id,
        label: case_label(case_of(id)),
        checked: !is_single && case_of(id) == cur,
    }
}

/// The menu of ways to change names. For one file the name is changed at once, so the way that
/// changes nothing is not offered and none is checked.
pub fn case_menu(is_single: bool, cur: NameCase) -> (menu: Vec<MenuEntry>)
    ensures
        menu@ == (if is_single {
            Seq::new(4, |i: int| case_entry(is_single, cur, (i + 2) as u16))
        } else {
            Seq::new(5, |i: int| case_entry(is_single, cur, (i + 1) as u16))
        }),
{
    let mut menu: Vec<MenuEntry> = Vec::new();
    let from: u16 = if is_single {
        2
    } else {
        1
    };
    let mut id: u16 = from;
    while id <= 5
        invariant
            from == (if is_single {
                2u16
            } else {
                1u16
            }),
            from <= id <= 6,
            menu@ =~= Seq::new(
                (id - from) as nat,
                |i: int| case_entry(is_single, cur, (i + from) as u16),
            ),
        decreases 6 - id,
    {
        let kind = case_picked(id);
        menu.push(
            MenuEntry { id, label: label_of(kind), checked: !is_single && kind == cur },
        );
        id += 1;
    }
    menu
}

/// What the dialog comes to. What is nothing is left as it is.
pub struct RenameResult {
    /// The new name, for one file.
    pub name: Option<String>,
    /// Read-only, hidden, system, archive.
    pub attrs: [Option<bool>; 4],
    pub modified: Option<i64>,
    pub created: Option<i64>,
    pub name_case: NameCase,
    pub sub_attr: bool,
    pub sub_time: bool,
}

/// The time that a field gives: none where the field is blank, else what it is read as.
pub open spec fn time_given(field: Txt, parsed: Option<i64>) -> Option<i64> {
    if text::trimmed(field).len() == 0 {
        None
    } else {
        parsed
    }
}

/// The time that a field gives.
fn time_of(field: &str, parsed: Option<i64>) -> (time: Option<i64>)
    ensures
        time == time_given(field@, parsed),
{
    if text::trim(field).as_str().is_empty() {
        None
    } else {
        parsed
    }
}

/// What the dialog comes to: nothing where it is not accepted. `modified` and `created` are
/// what the two fields of times are read as.
pub fn rename_box(
    accepted: bool,
    form: RenameForm,
    modified: Option<i64>,
    created: Option<i64>,
) -> (result: Option<RenameResult>)
    requires
        form.wf(),
    ensures
        match result {
            Some(r) => {
                &&& accepted
                &&& match r.name {
                    Some(name) => form.is_single && name@ == text::trimmed(form.name@),
                    None => !form.is_single,
                }
                &&& r.attrs@ == seq![
                    dialog::tristate(form.readonly),
                    dialog::tristate(form.hidden),
                    dialog::tristate(form.system),
                    dialog::tristate(form.archive),
                ]
                &&& r.modified == time_given(form.mtime@, modified)
                &&& r.created == time_given(form.ctime@, created)
                &&& r.name_case == form.name_case
                &&& r.sub_attr == form.sub_attr
                &&& r.sub_time == form.sub_time
                &&& r.sub_attr || r.sub_time ==> form.is_single && form.is_dir
                &&& form.is_single ==> r.name_case == NameCase::Kept
                &&& form.is_single ==> forall|i: int| 0 <= i < 4 ==> (#[trigger] r.attrs@[i]) is Some
            },
            None => !accepted,
        },
{
    if !accepted {
        return None;
    }
    let name = if form.is_single {
        Some(text::trim(form.name.as_str()))
    } else {
        None
    };
    Some(
        RenameResult {
            name,
            attrs: [
                dialog::cb_tristate(form.readonly),
                dialog::cb_tristate(form.hidden),
                dialog::cb_tristate(form.system),
                dialog::cb_tristate(form.archive),
            ],
            modified: time_of(form.mtime.as_str(), modified),
            created: time_of(form.ctime.as_str(), created),
            name_case: form.name_case,
            sub_attr: form.sub_attr,
            sub_time: form.sub_time,
        },
    )
}

/// A dialog for several files that is accepted as it opens leaves everything as it is.
pub proof fn law_untouched_keeps_everything(subject: RenameSubject, form: RenameForm, parsed: Option<i64>)
    requires
        subject.single is None,
        is_first(form, subject),
    ensures
        dialog::tristate(form.readonly) is None,
        dialog::tristate(form.hidden) is None,
        dialog::tristate(form.system) is None,
        dialog::tristate(form.archive) is None,
        time_given(form.mtime@, parsed) is None,
        time_given(form.ctime@, parsed) is None,
        form.name_case == NameCase::Kept,
        !form.sub_attr && !form.sub_time,
{
    assert(text::trimmed(Seq::<char>::empty()) =~= Seq::empty());
}

/// What is told of the dialog.
pub fn rename_registration() -> (r: Registration)
    ensures
        r@ == dialog::told("rename"@, "名前の変更"@, "名前/属性/日時の変更"@, true),
{
    arm_modal("rename", "名前の変更", "名前/属性/日時の変更", true)
}

} // verus!
