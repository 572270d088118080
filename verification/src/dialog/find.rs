//! The dialog that asks what files to find.

use crate::dialog::{Check, Control, ControlKind, Form, FormModel, ID_CANCEL, ID_OK};
use crate::dialog::Registration;
use crate::dialog::{checked, control};
use crate::dialog;
use crate::outside;
use crate::text;
use crate::winpath;
use vstd::prelude::*;

verus! {

/// A text in specifications.
pub type Txt = Seq<char>;

/// The dialog that asks what files to find, with `initial` as the name.
pub open spec fn find_file_form(initial: Txt) -> FormModel {
    Form {
        title: "ファイル検索"@,
        w: 380,
        h: 264,
        controls: seq![
            dialog::ctl(ControlKind::Label, 0, "ファイル名(&F)"@, 16, 12, 348, 16),
            dialog::ctl(ControlKind::Edit, 0, initial, 16, 30, 348, 22),
            dialog::ctl(ControlKind::Label, 0, "※ワイルドカード可、カンマまたはスペースで区切れます。"@, 16, 52, 348, 16),
            dialog::ctl(ControlKind::Label, 0, "日付"@, 16, 74, 320, 16),
            dialog::ctl_checked(dialog::ctl(ControlKind::Radio, 0, "すべて"@, 16, 94, 80, 18), Check::On),
            dialog::ctl(ControlKind::Radio, 0, "日付指定"@, 88, 94, 80, 18),
            dialog::ctl(ControlKind::Edit, 0, ""@, 170, 92, 76, 22),
            dialog::ctl(ControlKind::Label, 0, "～"@, 250, 95, 16, 16),
            dialog::ctl(ControlKind::Edit, 0, ""@, 266, 92, 76, 22),
            dialog::ctl(ControlKind::Label, 0, "(yyyy/mm/dd)"@, 170, 116, 180, 16),
            dialog::ctl(ControlKind::Button, 11, "今日"@, 16, 136, 70, 22),
            dialog::ctl(ControlKind::Button, 12, "1日前"@, 90, 136, 70, 22),
            dialog::ctl(ControlKind::Button, 13, "1週間前"@, 164, 136, 70, 22),
            dialog::ctl(ControlKind::Button, 14, "1ヶ月前"@, 238, 136, 70, 22),
            dialog::ctl(ControlKind::Label, 0, "サイズ"@, 16, 166, 320, 16),
            dialog::ctl(ControlKind::Edit, 0, ""@, 16, 184, 90, 22),
            dialog::ctl(ControlKind::Label, 0, "～"@, 112, 187, 16, 16),
            dialog::ctl(ControlKind::Edit, 0, ""@, 130, 184, 90, 22),
            dialog::ctl(ControlKind::Label, 0, "※既定KB・末尾 MB/GB で単位指定"@, 16, 208, 320, 16),
            dialog::ctl(ControlKind::DefaultButton, ID_OK, "検索開始"@, 196, 230, 80, 26),
            dialog::ctl(ControlKind::Button, ID_CANCEL, "キャンセル"@, 284, 230, 80, 26),
        ],
    }
}

/// The dialog that asks what files to find, with `initial` as the name.
pub fn find_file_box_form(initial: &str) -> (form: Form)
    ensures
        form@ == find_file_form(initial@),
{
    let mut c: Vec<Control> = Vec::new();
    c.push(control(ControlKind::Label, 0, "ファイル名(&F)", 16, 12, 348, 16));
    c.push(control(ControlKind::Edit, 0, initial, 16, 30, 348, 22));
    c.push(control(ControlKind::Label, 0, "※ワイルドカード可、カンマまたはスペースで区切れます。", 16, 52, 348, 16));
    c.push(control(ControlKind::Label, 0, "日付", 16, 74, 320, 16));
    c.push(checked(control(ControlKind::Radio, 0, "すべて", 16, 94, 80, 18), Check::On));
    c.push(control(ControlKind::Radio, 0, "日付指定", 88, 94, 80, 18));
    c.push(control(ControlKind::Edit, 0, "", 170, 92, 76, 22));
    c.push(control(ControlKind::Label, 0, "～", 250, 95, 16, 16));
    c.push(control(ControlKind::Edit, 0, "", 266, 92, 76, 22));
    c.push(control(ControlKind::Label, 0, "(yyyy/mm/dd)", 170, 116, 180, 16));
    c.push(control(ControlKind::Button, 11, "今日", 16, 136, 70, 22));
    c.push(control(ControlKind::Button, 12, "1日前", 90, 136, 70, 22));
    c.push(control(ControlKind::Button, 13, "1週間前", 164, 136, 70, 22));
    c.push(control(ControlKind::Button, 14, "1ヶ月前", 238, 136, 70, 22));
    c.push(control(ControlKind::Label, 0, "サイズ", 16, 166, 320, 16));
    c.push(control(ControlKind::Edit, 0, "", 16, 184, 90, 22));
    c.push(control(ControlKind::Label, 0, "～", 112, 187, 16, 16));
    c.push(control(ControlKind::Edit, 0, "", 130, 184, 90, 22));
    c.push(control(ControlKind::Label, 0, "※既定KB・末尾 MB/GB で単位指定", 16, 208, 320, 16));
    c.push(control(ControlKind::DefaultButton, ID_OK, "検索開始", 196, 230, 80, 26));
    c.push(control(ControlKind::Button, ID_CANCEL, "キャンセル", 284, 230, 80, 26));
    let form = Form { title: text::copy("ファイル検索"), w: 380, h: 264, controls: c };
    assert(form@.controls =~= find_file_form(initial@).controls);
    form
}

/// What is selected in the name at first, in UTF-16 units: all of it.
pub fn initial_selection(initial: &str) -> (selection: (usize, usize))
    ensures
        selection.0 == 0,
        selection.1 == winpath::utf16(initial@).len(),
{
    (0, dialog::utf16_len(initial))
}

/// A day that is set with one button.
#[derive(Clone, Copy, Debug, PartialEq, Eq, Structural)]
pub enum DateShortcut {
    Today,
    /// A day ago.
    Day,
    /// A week ago.
    Week,
    /// Thirty days ago.
    Month,
}

/// How many seconds ago a day is that is set with one button.
pub open spec fn seconds_back(which: DateShortcut) -> int {
    match which {
        DateShortcut::Today => 0,
        DateShortcut::Day => 86_400,
        DateShortcut::Week => 7int * 86_400,
        DateShortcut::Month => 30int * 86_400,
    }
}

/// The time that a shortcut stands for, in seconds since 1970, where it is `now`. A time that
/// cannot be told is 1970 itself.
pub fn shortcut_time(now: i64, which: DateShortcut) -> (time: i64)
    ensures
        time == (if now - seconds_back(which) < i64::MIN {
            0
        } else {
            now - seconds_back(which)
        }),
{
    let back: i64 = match which {
        DateShortcut::Today => 0,
        DateShortcut::Day => 86_400,
        DateShortcut::Week => 604_800,
        DateShortcut::Month => 2_592_000,
    };
    match now.checked_sub(back) {
        Some(time) => time,
        None => 0,
    }
}

/// The day of a time that is written with a space between the day and the time of day.
pub fn shortcut_date(written: &str) -> (day: String)
    ensures
        day@ == text::up_to_first(written@, ' '),
{
    text::before_first(written, ' ')
}

/// What a day that the user wrote is read as: midnight of that day; nothing where the field is
/// blank.
pub open spec fn midnight_of(field: Txt) -> Option<Txt> {
    if text::trimmed(field).len() == 0 {
        None
    } else {
        Some(text::trimmed(field) + " 00:00:00"@)
    }
}

/// What a day that the user wrote is read as.
pub fn parse_date(field: &str) -> (written: Option<String>)
    ensures
        written.deep_view() == midnight_of(field@),
{
    let day = text::trim(field);
    if day.as_str().is_empty() {
        None
    } else {
        Some(text::concat(day.as_str(), " 00:00:00"))
    }
}

/// From when to when files are looked for. Only the second choice looks at days, and only at
/// fields that are not blank. `parsed` are the times that the two fields are read as, if any.
pub open spec fn days_given(
    mode: Option<usize>,
    from: Txt,
    to: Txt,
    parsed: (Option<i64>, Option<i64>),
) -> (Option<i64>, Option<i64>) {
    if mode == Some(1usize) {
        (
            if midnight_of(from) is Some {
                parsed.0
            } else {
                None
            },
            if midnight_of(to) is Some {
                parsed.1
            } else {
                None
            },
        )
    } else {
        (None, None)
    }
}

/// From when to when files are looked for. `mode` is the choice that is on, `parsed` are the
/// times that the two fields are read as, if any.
pub fn date_range(
    mode: Option<usize>,
    from: &str,
    to: &str,
    parsed: (Option<i64>, Option<i64>),
) -> (range: (Option<i64>, Option<i64>))
    ensures
        range == days_given(mode, from@, to@, parsed),
{
    match mode {
        Some(1) => {
            let first = if parse_date(from).is_some() {
                parsed.0
            } else {
                None
            };
            let last = if parse_date(to).is_some() {
                parsed.1
            } else {
                None
            };
            (first, last)
        },
        _ => (None, None),
    }
}

/// How many bytes a size stands for that is in upper case: kilobytes, or what its unit says.
pub open spec fn size_value(upper: Txt) -> Option<nat> {
    let (number, unit) = match text::unsuffixed(upper, "GB"@) {
        Some(n) => (n, 1024 * 1024 * 1024nat),
        None => match text::unsuffixed(upper, "MB"@) {
            Some(n) => (n, 1024 * 1024nat),
            None => match text::unsuffixed(upper, "KB"@) {
                Some(n) => (n, 1024nat),
                None => (upper, 1024nat),
            },
        },
    };
    match text::unsigned_value(text::trimmed(number)) {
        Some(v) => if v <= u64::MAX {
            Some(v * unit)
        } else {
            None
        },
        None => None,
    }
}

/// How many bytes a size stands for that is in upper case.
pub fn size_of_upper(upper: &str) -> (bytes: Option<u128>)
    ensures
        match bytes {
            Some(n) => size_value(upper@) == Some(n as nat),
            None => size_value(upper@) is None,
        },
{
    let (number, unit) = match text::strip_suffix(upper, "GB") {
        Some(n) => (n, 1024u128 * 1024 * 1024),
        None => match text::strip_suffix(upper, "MB") {
            Some(n) => (n, 1024u128 * 1024),
            None => match text::strip_suffix(upper, "KB") {
                Some(n) => (n, 1024u128),
                None => (text::copy(upper), 1024u128),
            },
        },
    };
    match text::parse_unsigned(text::trim(number.as_str()).as_str(), u64::MAX) {
        Some(v) => {
            assert(v * unit <= 0xFFFF_FFFF_FFFF_FFFF * 0x4000_0000) by (nonlinear_arith)
                requires
                    v <= 0xFFFF_FFFF_FFFF_FFFF,
                    unit <= 0x4000_0000,
            ;
            Some(v as u128 * unit)
        },
        None => None,
    }
}

/// How many bytes a size stands for: none where the field is blank or makes no sense. Case does
/// not matter.
pub fn parse_size(field: &str) -> (bytes: Option<u128>)
    ensures
        match bytes {
            Some(n) => text::trimmed(field@).len() > 0 && size_value(
                outside::uppercase_text(text::trimmed(field@)),
            ) == Some(n as nat),
            None => text::trimmed(field@).len() == 0 || size_value(
                outside::uppercase_text(text::trimmed(field@)),
            ) is None,
        },
{
    let size = text::trim(field);
    if size.as_str().is_empty() {
        return None;
    }
    size_of_upper(outside::uppercase(size.as_str()).as_str())
}

/// What files are to be found. What is nothing does not matter.
pub struct FindOptions {
    pub masks: String,
    pub from_date: Option<i64>,
    pub to_date: Option<i64>,
    pub min_size: Option<u128>,
    pub max_size: Option<u128>,
}

/// What the dialog holds.
pub struct FindForm {
    pub name: String,
    pub date_mode: Option<usize>,
    pub from_date: String,
    pub to_date: String,
    pub from_size: String,
    pub to_size: String,
}

impl FindForm {
    /// The dialog as it opens.
    pub fn new(initial: &str) -> (form: Self)
        ensures
            form.name@ == initial@,
            form.date_mode == Some(0usize),
            form.from_date@.len() == 0,
            form.to_date@.len() == 0,
            form.from_size@.len() == 0,
            form.to_size@.len() == 0,
    {
        FindForm {
            name: text::copy(initial),
            date_mode: Some(0),
            from_date: String::new(),
            to_date: String::new(),
            from_size: String::new(),
            to_size: String::new(),
        }
    }

    /// A button for a day is pushed: files from that day on are looked for. `written` is the time
    /// that the button stands for, as the user reads it.
    pub fn pick_day(&mut self, written: &str)
        ensures
            final(self).from_date@ == text::up_to_first(written@, ' '),
            final(self).date_mode == Some(1usize),
            final(self).name == old(self).name,
            final(self).to_date == old(self).to_date,
            final(self).from_size == old(self).from_size,
            final(self).to_size == old(self).to_size,
    {
        self.from_date = shortcut_date(written);
        self.date_mode = Some(1);
    }
}

/// What a field of a size stands for.
pub open spec fn size_given(field: Txt) -> Option<nat> {
    if text::trimmed(field).len() == 0 {
        None
    } else {
        size_value(outside::uppercase_text(text::trimmed(field)))
    }
}

/// What the dialog comes to: nothing where it is not accepted. `parsed` are the times that its
/// fields of days are read as, if any.
pub fn find_file_box(accepted: bool, form: FindForm, parsed: (Option<i64>, Option<i64>)) -> (
    options: Option<FindOptions>)
    ensures
        match options {
            Some(o) => {
                &&& accepted
                &&& o.masks == form.name
                &&& (o.from_date, o.to_date) == days_given(
                    form.date_mode,
                    form.from_date@,
                    form.to_date@,
                    parsed,
                )
                &&& match o.min_size {
                    Some(n) => size_given(form.from_size@) == Some(n as nat),
                    None => size_given(form.from_size@) is None,
                }
                &&& match o.max_size {
                    Some(n) => size_given(form.to_size@) == Some(n as nat),
                    None => size_given(form.to_size@) is None,
                }
            },
            None => !accepted,
        },
{
    if !accepted {
        return None;
    }
    let (from_date, to_date) = date_range(
        form.date_mode,
        form.from_date.as_str(),
        form.to_date.as_str(),
        parsed,
    );
    Some(
        FindOptions {
            from_date,
            to_date,
            min_size: parse_size(form.from_size.as_str()),
            max_size: parse_size(form.to_size.as_str()),
            masks: form.name,
        },
    )
}

/// The shortcuts other than today go back in time, the later ones further.
pub proof fn law_shortcuts_go_back()
    ensures
        seconds_back(DateShortcut::Today) == 0,
        0 < seconds_back(DateShortcut::Day) < seconds_back(DateShortcut::Week) < seconds_back(
            DateShortcut::Month,
        ),
{
}

/// A size without a unit is in kilobytes.
pub proof fn law_sizes_are_in_kilobytes(digits: Txt)
    requires
        text::digits_value(digits) is Some,
        digits.len() > 0,
    ensures
        size_value(digits) == size_value(digits + "KB"@),
{
    reveal_strlit("KB");
    reveal_strlit("MB");
    reveal_strlit("GB");
    let kb = digits + "KB"@;
    assert(kb.last() == 'B');
    assert(kb[kb.len() - 2] == 'K');
    assert(kb.take(kb.len() - 2) =~= digits);
    assert(digits.last() != 'B');
    assert(!text::has_suffix(digits, "GB"@)) by {
        if text::has_suffix(digits, "GB"@) {
            assert(digits.skip(digits.len() - 2)[1] == 'B');
        }
    }
    assert(!text::has_suffix(digits, "MB"@)) by {
        if text::has_suffix(digits, "MB"@) {
            assert(digits.skip(digits.len() - 2)[1] == 'B');
        }
    }
    assert(!text::has_suffix(digits, "KB"@)) by {
        if text::has_suffix(digits, "KB"@) {
            assert(digits.skip(digits.len() - 2)[1] == 'B');
        }
    }
    assert(!text::has_suffix(kb, "GB"@)) by {
        if text::has_suffix(kb, "GB"@) {
            assert(kb.skip(kb.len() - 2)[0] == 'G');
        }
    }
    assert(!text::has_suffix(kb, "MB"@)) by {
        if text::has_suffix(kb, "MB"@) {
            assert(kb.skip(kb.len() - 2)[0] == 'M');
        }
    }
    assert(text::has_suffix(kb, "KB"@)) by {
        assert(kb.skip(kb.len() - 2) =~= "KB"@);
    }
}

/// What is told of the dialog. Its button that accepts starts to search.
pub fn find_registration() -> (r: Registration)
    ensures
        r@ == dialog::told_with(
            "find_file"@,
            "ファイル検索"@,
            "ファイル名・日付・サイズの条件"@,
            true,
            seq![("検索開始"@, ID_OK), ("キャンセル"@, ID_CANCEL)],
        ),
{
    let buttons: Vec<(String, u16)> = vec![
        dialog::button("検索開始", ID_OK),
        dialog::button("キャンセル", ID_CANCEL),
    ];
    assert(buttons.deep_view() =~= seq![("検索開始"@, ID_OK), ("キャンセル"@, ID_CANCEL)]);
    Registration::Plain {
        kind: text::copy("find_file"),
        title: text::copy("ファイル検索"),
        prompt: text::copy("ファイル名・日付・サイズの条件"),
        has_input: true,
        buttons,
    }
}

} // verus!
