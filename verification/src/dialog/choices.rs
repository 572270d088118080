//! Dialogs that ask the user to choose: how to sort, how to compare, what link to make, how to
//! add to an archive; and the one that tells about the program.

use crate::dialog::{Check, Control, ControlKind, Form, FormModel, ID_CANCEL, ID_OK};
use crate::dialog::Registration;
use crate::dialog::{arm_modal, check_if, checked, control};
use crate::dialog;
use crate::file_item::{LinkKind, SortType};
use crate::file_item;
use crate::text;
use vstd::prelude::*;

verus! {

/// A text in specifications.
pub type Txt = Seq<char>;

/// How many ways to sort the dialog offers.
pub const SORT_KIND_COUNT: usize = 8;

/// The way to sort that stands at a place of the dialog.
pub open spec fn sort_kind(i: int) -> SortType {
    if i == 0 {
        SortType::FileNameExpLike
    } else if i == 1 {
        SortType::ExtensionExpLike
    } else if i == 2 {
        SortType::LastWriteTime
    } else if i == 3 {
        SortType::Length
    } else if i == 4 {
        SortType::Attribute
    } else if i == 5 {
        SortType::CreateTime
    } else if i == 6 {
        SortType::FileName
    } else {
        SortType::Extension
    }
}

/// The way to sort that stands at a place of the dialog.
fn sort_kind_at(i: usize) -> (sort: SortType)
    ensures
        sort == sort_kind(i as int),
{
    match i {
        0 => SortType::FileNameExpLike,
        1 => SortType::ExtensionExpLike,
        2 => SortType::LastWriteTime,
        3 => SortType::Length,
        4 => SortType::Attribute,
        5 => SortType::CreateTime,
        6 => SortType::FileName,
        _ => SortType::Extension,
    }
}

/// Whether the way to sort at a place of the dialog is chosen at first: the one that the list
/// is sorted by, without regard to numbers.
pub open spec fn sort_chosen(i: int, cur: SortType) -> Check {
    dialog::check_of(sort_kind(i) == file_item::explike_split(cur).0)
}

/// The dialog that asks how to sort.
pub open spec fn sort_form(cur: SortType, reverse: bool) -> FormModel {
    Form {
        title: "ソート"@,
        w: 280,
        h: 300,
        controls: seq![
            dialog::ctl(ControlKind::Label, 0, "ソート方法"@, 16, 12, 200, 18),
            dialog::ctl_checked(dialog::ctl(ControlKind::Radio, 0, "名前順(&F)"@, 24, 36, 240, 20), sort_chosen(0, cur)),
            dialog::ctl_checked(dialog::ctl(ControlKind::Radio, 0, "拡張子(&E)"@, 24, 60, 240, 20), sort_chosen(1, cur)),
            dialog::ctl_checked(dialog::ctl(ControlKind::Radio, 0, "更新日付(&D)"@, 24, 84, 240, 20), sort_chosen(2, cur)),
            dialog::ctl_checked(dialog::ctl(ControlKind::Radio, 0, "サイズ(&S)"@, 24, 108, 240, 20), sort_chosen(3, cur)),
            dialog::ctl_checked(dialog::ctl(ControlKind::Radio, 0, "属性(&A)"@, 24, 132, 240, 20), sort_chosen(4, cur)),
            dialog::ctl_checked(dialog::ctl(ControlKind::Radio, 0, "作成日付(&C)"@, 24, 156, 240, 20), sort_chosen(5, cur)),
            dialog::ctl_checked(dialog::ctl(ControlKind::Radio, 0, "名前順（コード）(&N)"@, 24, 180, 240, 20), sort_chosen(6, cur)),
            dialog::ctl_checked(dialog::ctl(ControlKind::Radio, 0, "拡張子（コード）(&X)"@, 24, 204, 240, 20), sort_chosen(7, cur)),
            dialog::ctl_checked(dialog::ctl(ControlKind::CheckBox, 0, "降順(&R)"@, 24, 184, 240, 18), dialog::check_of(reverse)),
            dialog::ctl_checked(dialog::ctl(ControlKind::CheckBox, 0, "自然順(&X)"@, 24, 208, 240, 18), dialog::check_of(file_item::explike_split(cur).1)),
            dialog::ctl(ControlKind::DefaultButton, ID_OK, "OK"@, 96, 244, 80, 26),
            dialog::ctl(ControlKind::Button, ID_CANCEL, "キャンセル"@, 184, 244, 84, 26),
        ],
    }
}

/// The dialog that asks how to sort.
pub fn sort_box_form(cur: SortType, reverse: bool) -> (form: Form)
    ensures
        form@ == sort_form(cur, reverse),
{
    let (base, explike) = cur.split_explike();
    let mut c: Vec<Control> = Vec::new();
    c.push(control(ControlKind::Label, 0, "ソート方法", 16, 12, 200, 18));
    c.push(checked(control(ControlKind::Radio, 0, "名前順(&F)", 24, 36, 240, 20), check_if(sort_kind_at(0) == base)));
    c.push(checked(control(ControlKind::Radio, 0, "拡張子(&E)", 24, 60, 240, 20), check_if(sort_kind_at(1) == base)));
    c.push(checked(control(ControlKind::Radio, 0, "更新日付(&D)", 24, 84, 240, 20), check_if(sort_kind_at(2) == base)));
    c.push(checked(control(ControlKind::Radio, 0, "サイズ(&S)", 24, 108, 240, 20), check_if(sort_kind_at(3) == base)));
    c.push(checked(control(ControlKind::Radio, 0, "属性(&A)", 24, 132, 240, 20), check_if(sort_kind_at(4) == base)));
    c.push(checked(control(ControlKind::Radio, 0, "作成日付(&C)", 24, 156, 240, 20), check_if(sort_kind_at(5) == base)));
    c.push(checked(control(ControlKind::Radio, 0, "名前順（コード）(&N)", 24, 180, 240, 20), check_if(sort_kind_at(6) == base)));
    c.push(checked(control(ControlKind::Radio, 0, "拡張子（コード）(&X)", 24, 204, 240, 20), check_if(sort_kind_at(7) == base)));
    c.push(checked(control(ControlKind::CheckBox, 0, "降順(&R)", 24, 184, 240, 18), check_if(reverse)));
    c.push(checked(control(ControlKind::CheckBox, 0, "自然順(&X)", 24, 208, 240, 18), check_if(explike)));
    c.push(control(ControlKind::DefaultButton, ID_OK, "OK", 96, 244, 80, 26));
    c.push(control(ControlKind::Button, ID_CANCEL, "キャンセル", 184, 244, 84, 26));
    let form = Form { title: text::copy("ソート"), w: 280, h: 300, controls: c };
    assert(form@.controls =~= sort_form(cur, reverse).controls);
    form
}

/// What the dialog comes to: the chosen way to sort, with regard to numbers if that is checked,
/// and whether it is reversed; nothing where it is not accepted. Where no way is chosen it is by
/// name.
pub fn sort_box(accepted: bool, selected: Option<usize>, reverse: bool, explike: bool) -> (choice:
    Option<(SortType, bool)>)
    ensures
        choice == (if accepted {
            Some(
                (
                    file_item::explike_of(
                        match selected {
                            Some(i) if i < SORT_KIND_COUNT => sort_kind(i as int),
                            _ => SortType::FileName,
                        },
                        explike,
                    ),
                    reverse,
                ),
            )
        } else {
            None
        }),
{
    if !accepted {
        return None;
    }
    let base = match selected {
        Some(i) => if i < SORT_KIND_COUNT {
            sort_kind_at(i)
        } else {
            SortType::FileName
        },
        None => SortType::FileName,
    };
    Some((SortType::with_explike(base, explike), reverse))
}

/// What a difference is looked for.
#[derive(Clone, Copy, Debug, PartialEq, Eq, Structural)]
pub enum CompareCondition {
    /// None: it does not matter.
    Ignored,
    NotEquals,
    Equals,
    Less,
    Greater,
}

/// What two directories are compared by.
#[derive(Clone, Copy, Debug, PartialEq, Eq, Structural)]
pub struct CompareOptions {
    pub date: CompareCondition,
    pub size: CompareCondition,
    pub recurse: bool,
    pub show_added: bool,
    pub show_deleted: bool,
}

/// The condition that stands at a place of a row of the dialog. Where none is chosen, it does
/// not matter.
pub open spec fn condition_at(selected: Option<usize>) -> CompareCondition {
    match selected {
        Some(i) => if i == 1 {
            CompareCondition::NotEquals
        } else if i == 2 {
            CompareCondition::Equals
        } else if i == 3 {
            CompareCondition::Less
        } else if i == 4 {
            CompareCondition::Greater
        } else {
            CompareCondition::Ignored
        },
        None => CompareCondition::Ignored,
    }
}

/// The condition that stands at a place of a row of the dialog.
pub fn selected_condition(selected: Option<usize>) -> (condition: CompareCondition)
    ensures
        condition == condition_at(selected),
{
    match selected {
        Some(1) => CompareCondition::NotEquals,
        Some(2) => CompareCondition::Equals,
        Some(3) => CompareCondition::Less,
        Some(4) => CompareCondition::Greater,
        _ => CompareCondition::Ignored,
    }
}

/// The dialog that asks what to compare two directories by.
pub open spec fn compare_options_form() -> FormModel {
    Form {
        title: "ディレクトリ比較"@,
        w: 360,
        h: 240,
        controls: seq![
            dialog::ctl(ControlKind::Label, 0, "日付"@, 16, 10, 320, 16),
            dialog::ctl(ControlKind::Radio, 0, "無視"@, 16, 30, 64, 20),
            dialog::ctl_checked(dialog::ctl(ControlKind::Radio, 0, "不一致"@, 82, 30, 64, 20), Check::On),
            dialog::ctl(ControlKind::Radio, 0, "一致"@, 148, 30, 64, 20),
            dialog::ctl(ControlKind::Radio, 0, "新しい"@, 214, 30, 64, 20),
            dialog::ctl(ControlKind::Radio, 0, "古い"@, 280, 30, 64, 20),
            dialog::ctl(ControlKind::Label, 0, "ファイルサイズ"@, 16, 56, 320, 16),
            dialog::ctl_checked(dialog::ctl(ControlKind::Radio, 0, "無視"@, 16, 76, 64, 20), Check::On),
            dialog::ctl(ControlKind::Radio, 0, "不一致"@, 82, 76, 64, 20),
            dialog::ctl(ControlKind::Radio, 0, "一致"@, 148, 76, 64, 20),
            dialog::ctl(ControlKind::Radio, 0, "小さい"@, 214, 76, 64, 20),
            dialog::ctl(ControlKind::Radio, 0, "大きい"@, 280, 76, 64, 20),
            dialog::ctl_checked(dialog::ctl(ControlKind::CheckBox, 0, "ディレクトリ内も検索(&D)"@, 16, 110, 320, 18), Check::On),
            dialog::ctl_checked(dialog::ctl(ControlKind::CheckBox, 0, "追加ファイルの抽出(&1)"@, 16, 134, 320, 18), Check::On),
            dialog::ctl_checked(dialog::ctl(ControlKind::CheckBox, 0, "削除ファイルの抽出(&2)"@, 16, 158, 320, 18), Check::On),
            dialog::ctl(ControlKind::DefaultButton, ID_OK, "OK"@, 180, 200, 80, 26),
            dialog::ctl(ControlKind::Button, ID_CANCEL, "キャンセル"@, 268, 200, 80, 26),
        ],
    }
}

/// The dialog that asks what to compare two directories by.
pub fn compare_options_box_form() -> (form: Form)
    ensures
        form@ == compare_options_form(),
{
    let mut c: Vec<Control> = Vec::new();
    c.push(control(ControlKind::Label, 0, "日付", 16, 10, 320, 16));
    c.push(control(ControlKind::Radio, 0, "無視", 16, 30, 64, 20));
    c.push(checked(control(ControlKind::Radio, 0, "不一致", 82, 30, 64, 20), Check::On));
    c.push(control(ControlKind::Radio, 0, "一致", 148, 30, 64, 20));
    c.push(control(ControlKind::Radio, 0, "新しい", 214, 30, 64, 20));
    c.push(control(ControlKind::Radio, 0, "古い", 280, 30, 64, 20));
    c.push(control(ControlKind::Label, 0, "ファイルサイズ", 16, 56, 320, 16));
    c.push(checked(control(ControlKind::Radio, 0, "無視", 16, 76, 64, 20), Check::On));
    c.push(control(ControlKind::Radio, 0, "不一致", 82, 76, 64, 20));
    c.push(control(ControlKind::Radio, 0, "一致", 148, 76, 64, 20));
    c.push(control(ControlKind::Radio, 0, "小さい", 214, 76, 64, 20));
    c.push(control(ControlKind::Radio, 0, "大きい", 280, 76, 64, 20));
    c.push(checked(control(ControlKind::CheckBox, 0, "ディレクトリ内も検索(&D)", 16, 110, 320, 18), Check::On));
    c.push(checked(control(ControlKind::CheckBox, 0, "追加ファイルの抽出(&1)", 16, 134, 320, 18), Check::On));
    c.push(checked(control(ControlKind::CheckBox, 0, "削除ファイルの抽出(&2)", 16, 158, 320, 18), Check::On));
    c.push(control(ControlKind::DefaultButton, ID_OK, "OK", 180, 200, 80, 26));
    c.push(control(ControlKind::Button, ID_CANCEL, "キャンセル", 268, 200, 80, 26));
    let form = Form { title: text::copy("ディレクトリ比較"), w: 360, h: 240, controls: c };
    assert(form@.controls =~= compare_options_form().controls);
    form
}

/// What the dialog comes to: nothing where it is not accepted.
pub fn compare_options_box(
    accepted: bool,
    date: Option<usize>,
    size: Option<usize>,
    recurse: bool,
    show_added: bool,
    show_deleted: bool,
) -> (options: Option<CompareOptions>)
    ensures
        options == (if accepted {
            Some(
                CompareOptions {
                    date: condition_at(date),
                    size: condition_at(size),
                    recurse,
                    show_added,
                    show_deleted,
                },
            )
        } else {
            None
        }),
{
    if !accepted {
        return None;
    }
    Some(
        CompareOptions {
            date: selected_condition(date),
            size: selected_condition(size),
            recurse,
            show_added,
            show_deleted,
        },
    )
}

/// The dialog that asks what kind of link to make.
pub open spec fn link_kind_form(default_kind: LinkKind) -> FormModel {
    Form {
        title: "リンクの作成"@,
        w: 400,
        h: 176,
        controls: seq![
            dialog::ctl(ControlKind::Label, 0, "作成するリンクの種類を選んで下さい。"@, 16, 12, 368, 18),
            dialog::ctl_checked(dialog::ctl(ControlKind::Radio, 0, "シンボリックリンク(&Y)"@, 16, 42, 360, 20), dialog::check_of(default_kind == LinkKind::Symlink)),
            dialog::ctl_checked(dialog::ctl(ControlKind::Radio, 0, "ジャンクション（ディレクトリのみ）(&J)"@, 16, 68, 360, 20), dialog::check_of(default_kind == LinkKind::Junction)),
            dialog::ctl_checked(dialog::ctl(ControlKind::Radio, 0, "ショートカット（.lnk）(&S)"@, 16, 94, 360, 20), dialog::check_of(default_kind == LinkKind::Shortcut)),
            dialog::ctl(ControlKind::DefaultButton, ID_OK, "OK"@, 210, 130, 80, 26),
            dialog::ctl(ControlKind::Button, ID_CANCEL, "キャンセル"@, 298, 130, 86, 26),
        ],
    }
}

/// The dialog that asks what kind of link to make.
pub fn link_kind_box_form(default_kind: LinkKind) -> (form: Form)
    ensures
        form@ == link_kind_form(default_kind),
{
    let mut c: Vec<Control> = Vec::new();
    c.push(control(ControlKind::Label, 0, "作成するリンクの種類を選んで下さい。", 16, 12, 368, 18));
    c.push(checked(control(ControlKind::Radio, 0, "シンボリックリンク(&Y)", 16, 42, 360, 20), check_if(default_kind == LinkKind::Symlink)));
    c.push(checked(control(ControlKind::Radio, 0, "ジャンクション（ディレクトリのみ）(&J)", 16, 68, 360, 20), check_if(default_kind == LinkKind::Junction)));
    c.push(checked(control(ControlKind::Radio, 0, "ショートカット（.lnk）(&S)", 16, 94, 360, 20), check_if(default_kind == LinkKind::Shortcut)));
    c.push(control(ControlKind::DefaultButton, ID_OK, "OK", 210, 130, 80, 26));
    c.push(control(ControlKind::Button, ID_CANCEL, "キャンセル", 298, 130, 86, 26));
    let form = Form { title: text::copy("リンクの作成"), w: 400, h: 176, controls: c };
    assert(form@.controls =~= link_kind_form(default_kind).controls);
    form
}

/// Which of the three kinds of link can be chosen: a shortcut always can.
pub fn link_kinds_enabled(symlink_enabled: bool, junction_enabled: bool) -> (enabled: [bool; 3])
    ensures
        enabled@ == seq![symlink_enabled, junction_enabled, true],
{
    [symlink_enabled, junction_enabled, true]
}

/// The kind of link that is chosen.
pub open spec fn link_at(selected: Option<usize>, default_kind: LinkKind) -> LinkKind {
    match selected {
        Some(i) => if i == 0 {
            LinkKind::Symlink
        } else if i == 1 {
            LinkKind::Junction
        } else if i == 2 {
            LinkKind::Shortcut
        } else {
            default_kind
        },
        None => default_kind,
    }
}

/// Whether a kind of link can be chosen.
pub open spec fn is_link_offered(
    kind: LinkKind,
    symlink_enabled: bool,
    junction_enabled: bool,
) -> bool {
    match kind {
        LinkKind::Symlink => symlink_enabled,
        LinkKind::Junction => junction_enabled,
        LinkKind::Shortcut => true,
        LinkKind::NoLink => false,
    }
}

/// What the dialog comes to: nothing where it is not accepted. Only a kind that can be chosen is
/// selected, and so is the one that is selected at first.
pub fn link_kind_box(
    accepted: bool,
    selected: Option<usize>,
    symlink_enabled: bool,
    junction_enabled: bool,
    default_kind: LinkKind,
) -> (kind: Option<LinkKind>)
    requires
        is_link_offered(link_at(selected, default_kind), symlink_enabled, junction_enabled),
    ensures
        kind == (if accepted {
            Some(link_at(selected, default_kind))
        } else {
            None
        }),
        kind matches Some(k) ==> is_link_offered(k, symlink_enabled, junction_enabled),
{
    if !accepted {
        return None;
    }
    Some(
        match selected {
            Some(0) => LinkKind::Symlink,
            Some(1) => LinkKind::Junction,
            Some(2) => LinkKind::Shortcut,
            _ => default_kind,
        },
    )
}

/// How files are added to an archive that holds some of their names.
#[derive(Clone, Copy, Debug, PartialEq, Eq, Structural)]
pub enum ArchiveAddMode {
    /// Add the others, and leave those out.
    Append,
    /// Write the archive anew, and replace those.
    Rebuild,
}

/// The dialog that asks how to add to an archive that holds some of the names.
pub open spec fn archive_add_form(summary: Txt) -> FormModel {
    Form {
        title: "書庫への追加"@,
        w: 400,
        h: 180,
        controls: seq![
            dialog::ctl(ControlKind::Label, 0, summary, 16, 12, 368, 36),
            dialog::ctl(ControlKind::Radio, 0, "重複はスキップ（衝突分を追加しない）(&K)"@, 16, 56, 360, 20),
            dialog::ctl_checked(dialog::ctl(ControlKind::Radio, 0, "再構築して置換（既存を上書き）(&R)"@, 16, 84, 360, 20), Check::On),
            dialog::ctl(ControlKind::DefaultButton, ID_OK, "OK"@, 210, 126, 80, 26),
            dialog::ctl(ControlKind::Button, ID_CANCEL, "キャンセル"@, 298, 126, 86, 26),
        ],
    }
}

/// The dialog that asks how to add to an archive that holds some of the names.
pub fn archive_add_box_form(summary: &str) -> (form: Form)
    ensures
        form@ == archive_add_form(summary@),
{
    let mut c: Vec<Control> = Vec::new();
    c.push(control(ControlKind::Label, 0, summary, 16, 12, 368, 36));
    c.push(control(ControlKind::Radio, 0, "重複はスキップ（衝突分を追加しない）(&K)", 16, 56, 360, 20));
    c.push(checked(control(ControlKind::Radio, 0, "再構築して置換（既存を上書き）(&R)", 16, 84, 360, 20), Check::On));
    c.push(control(ControlKind::DefaultButton, ID_OK, "OK", 210, 126, 80, 26));
    c.push(control(ControlKind::Button, ID_CANCEL, "キャンセル", 298, 126, 86, 26));
    let form = Form { title: text::copy("書庫への追加"), w: 400, h: 180, controls: c };
    assert(form@.controls =~= archive_add_form(summary@).controls);
    form
}

/// What the dialog comes to: nothing where it is not accepted.
pub fn archive_add_box(accepted: bool, selected: Option<usize>) -> (mode: Option<ArchiveAddMode>)
    ensures
        mode == (if !accepted {
            None
        } else if selected == Some(1usize) {
            Some(ArchiveAddMode::Rebuild)
        } else {
            Some(ArchiveAddMode::Append)
        }),
{
    if !accepted {
        return None;
    }
    match selected {
        Some(1) => Some(ArchiveAddMode::Rebuild),
        _ => Some(ArchiveAddMode::Append),
    }
}

/// The dialog that tells about the program.
pub open spec fn about_form(title: Txt, body: Txt) -> FormModel {
    Form {
        title,
        w: 580,
        h: 460,
        controls: seq![
            dialog::ctl(ControlKind::MultiEdit, 0, body, 12, 12, 556, 396),
            dialog::ctl(ControlKind::DefaultButton, ID_OK, "閉じる"@, 488, 418, 80, 28),
        ],
    }
}

/// The dialog that tells about the program.
pub fn about_box(title: &str, body: &str) -> (form: Form)
    ensures
        form@ == about_form(title@, body@),
{
    let mut c: Vec<Control> = Vec::new();
    c.push(control(ControlKind::MultiEdit, 0, body, 12, 12, 556, 396));
    c.push(control(ControlKind::DefaultButton, ID_OK, "閉じる", 488, 418, 80, 28));
    let form = Form { title: text::copy(title), w: 580, h: 460, controls: c };
    assert(form@.controls =~= about_form(title@, body@).controls);
    form
}

/// A way to sort is shown as what it is without regard to numbers, and whether it regards
/// them; taking the two as they are shown gives it back.
pub proof fn law_sort_round_trip(sort: SortType)
    ensures
        ({
            let (base, explike) = file_item::explike_split(sort);
            file_item::explike_of(base, explike) == sort
        }),
{
}

/// What is told of the dialog that asks how to sort.
pub fn sort_registration() -> (r: Registration)
    ensures
        r@ == dialog::told("sort"@, "ソート"@, "ソートの種別と昇降"@, false),
{
    arm_modal("sort", "ソート", "ソートの種別と昇降", false)
}

/// What is told of the dialog that asks how to compare.
pub fn compare_registration() -> (r: Registration)
    ensures
        r@ == dialog::told(
            "directory_compare"@,
            "ディレクトリ比較"@,
            "日付・サイズの比較条件と抽出範囲"@,
            false,
        ),
{
    arm_modal(
        "directory_compare",
        "ディレクトリ比較",
        "日付・サイズの比較条件と抽出範囲",
        false,
    )
}

/// What is told of the dialog that asks for a kind of link.
pub fn link_registration() -> (r: Registration)
    ensures
        r@ == dialog::told(
            "link_kind"@,
            "リンクの作成"@,
            "作成するリンクの種類を選んで下さい。"@,
            true,
        ),
{
    arm_modal("link_kind", "リンクの作成", "作成するリンクの種類を選んで下さい。", true)
}

/// What is told of the dialog that asks how to add to an archive.
pub fn archive_add_registration(summary: &str) -> (r: Registration)
    ensures
        r@ == dialog::told("archive_add"@, "書庫への追加"@, summary@, true),
{
    arm_modal("archive_add", "書庫への追加", summary, true)
}

/// What is told of the dialog that tells about the program.
pub fn about_registration(title: &str, body: &str) -> (r: Registration)
    ensures
        r@ == dialog::told_with(
            "about"@,
            title@,
            body@,
            false,
            seq![("閉じる"@, ID_OK)],
        ),
{
    let buttons: Vec<(String, u16)> = vec![dialog::button("閉じる", ID_OK)];
    assert(buttons.deep_view() =~= seq![("閉じる"@, ID_OK)]);
    Registration::Plain {
        kind: text::copy("about"),
        title: text::copy(title),
        prompt: text::copy(body),
        has_input: false,
        buttons,
    }
}

} // verus!
