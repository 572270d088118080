//! Dialogs: what is on them, and what the user's actions lead to.
//!
//! A dialog is a form with controls at fixed places, in pixels at the standard resolution. The
//! window toolkit shows the form and reports what the user does; what becomes of that is
//! decided here.

pub mod choices;
pub mod completer;
pub mod completion;
pub mod compress;
pub mod conflict;
pub mod find;
pub mod input;
pub mod keyhook;
pub mod layout;
pub mod list;
pub mod message;
pub mod opening;
pub mod rename;

use crate::debug_server::{ListViewHooks, ModalRegistry};
use crate::debug_server;
use crate::text;
use crate::winpath;
use vstd::prelude::*;

verus! {

/// A text in specifications.
pub type Txt = Seq<char>;

/// What a control is.
#[derive(Clone, Copy, Debug, PartialEq, Eq, Structural)]
pub enum ControlKind {
    Label,
    Edit,
    /// A text field that does not show what it holds.
    Password,
    /// A text field of several lines.
    MultiEdit,
    /// A text field with a list of earlier texts.
    Combo,
    Button,
    /// The button that the Enter key pushes.
    DefaultButton,
    CheckBox,
    /// A check box that can also be neither on nor off.
    TriCheckBox,
    Radio,
    ListBox,
    /// A list that is not shown at first.
    HiddenList,
}

/// Whether a control is checked.
#[derive(Clone, Copy, Debug, PartialEq, Eq, Structural)]
pub enum Check {
    Off,
    On,
    /// Neither: what it stands for is left as it is.
    Kept,
}

/// The button that accepts.
pub const ID_OK: u16 = 1;

/// The button that the Escape key pushes.
pub const ID_CANCEL: u16 = 2;

/// A control of a form.
#[derive(Clone, Debug, PartialEq, Eq)]
pub struct Control<S = String> {
    pub kind: ControlKind,
    /// What it is known by; zero where it needs no name.
    pub id: u16,
    pub text: S,
    pub x: i32,
    pub y: i32,
    pub w: i32,
    pub h: i32,
    pub check: Check,
}

impl View for Control<String> {
    type V = Control<Txt>;

    open spec fn view(&self) -> Control<Txt> {
        Control {
            kind: self.kind,
            id: self.id,
            text: self.text@,
            x: self.x,
            y: self.y,
            w: self.w,
            h: self.h,
            check: self.check,
        }
    }
}

/// The controls of a form in specifications.
pub open spec fn controls_of(controls: Seq<Control>) -> Seq<Control<Txt>> {
    controls.map_values(|c: Control| c@)
}

/// A control that is not checked.
pub open spec fn ctl(
    kind: ControlKind,
    id: u16,
    label: Txt,
    x: i32,
    y: i32,
    w: i32,
    h: i32,
) -> Control<Txt> {
    Control { kind, id, text: label, x, y, w, h, check: Check::Off }
}

/// A control that may be checked.
pub open spec fn ctl_checked(c: Control<Txt>, check: Check) -> Control<Txt> {
    Control { check, ..c }
}

/// A control that is not checked.
pub fn control(kind: ControlKind, id: u16, label: &str, x: i32, y: i32, w: i32, h: i32) -> (c:
    Control)
    ensures
        c@ == ctl(kind, id, label@, x, y, w, h),
{
    Control { kind, id, text: text::copy(label), x, y, w, h, check: Check::Off }
}

/// A control that may be checked.
pub fn checked(c: Control, check: Check) -> (d: Control)
    ensures
        d@ == ctl_checked(c@, check),
{
    Control { check, ..c }
}

/// A form: its title, its size, and its controls in the order of the Tab key.
#[derive(Clone, Debug, PartialEq, Eq)]
pub struct Form<S = String, L = Vec<Control>> {
    pub title: S,
    pub w: i32,
    pub h: i32,
    pub controls: L,
}

/// A form in specifications.
pub type FormModel = Form<Txt, Seq<Control<Txt>>>;

impl View for Form<String, Vec<Control>> {
    type V = FormModel;

    open spec fn view(&self) -> FormModel {
        Form {
            title: self.title@,
            w: self.w,
            h: self.h,
            controls: controls_of(self.controls@),
        }
    }
}

/// Whether a check that can be on or off is on.
pub open spec fn check_of(on: bool) -> Check {
    if on {
        Check::On
    } else {
        Check::Off
    }
}

/// A check that is on or off.
pub fn check_if(on: bool) -> (check: Check)
    ensures
        check == check_of(on),
{
    if on {
        Check::On
    } else {
        Check::Off
    }
}

/// What a check says: to set, to clear, or to leave as it is.
pub open spec fn tristate(check: Check) -> Option<bool> {
    match check {
        Check::On => Some(true),
        Check::Off => Some(false),
        Check::Kept => None,
    }
}

/// What a check says: to set, to clear, or to leave as it is.
pub fn cb_tristate(check: Check) -> (set: Option<bool>)
    ensures
        set == tristate(check),
{
    match check {
        Check::On => Some(true),
        Check::Off => Some(false),
        Check::Kept => None,
    }
}

/// The place of the last dot of a name, if it has one.
pub open spec fn last_dot(name: Txt, end: int) -> Option<int>
    decreases end,
{
    if end <= 0 {
        None
    } else if name[end - 1] == '.' {
        Some(end - 1)
    } else {
        last_dot(name, end - 1)
    }
}

/// What stands before the extension of a name: all of it for a directory, for a name without
/// an extension, and for one that starts with its only dot.
pub open spec fn stem(name: Txt, is_dir: bool) -> Txt {
    if is_dir {
        name
    } else {
        match last_dot(name, name.len() as int) {
            Some(at) => if at == 0 {
                name
            } else {
                name.take(at)
            },
            None => name,
        }
    }
}

/// How many UTF-16 units a text takes.
pub fn utf16_len(s: &str) -> (n: usize)
    ensures
        n == winpath::utf16(s@).len(),
{
    winpath::to_utf16(s).len()
}

/// Where the caret goes when a name is to be edited, in UTF-16 units: before its extension.
pub fn before_ext_pos(name: &str, is_dir: bool) -> (at: usize)
    ensures
        at == winpath::utf16(stem(name@, is_dir)).len(),
{
    if is_dir {
        return utf16_len(name);
    }
    let chars = text::to_chars(name);
    let mut i: usize = chars.len();
    while i > 0
        invariant
            i <= chars.len(),
            !is_dir,
            chars@ == name@,
            last_dot(name@, name@.len() as int) == last_dot(name@, i as int),
        decreases i,
    {
        i -= 1;
        if chars[i] == '.' {
            if i == 0 {
                return utf16_len(name);
            }
            let head = text::from_range(&chars, 0, i);
            assert(head@ =~= name@.take(i as int));
            return utf16_len(head.as_str());
        }
    }
    utf16_len(name)
}

/// What is selected in a text field at first.
#[derive(Clone, Copy, Debug, PartialEq, Eq, Structural)]
pub enum InputSelect {
    /// What the toolkit selects.
    AsIs,
    All,
    /// Nothing, and the caret is before the extension.
    BeforeExt { is_dir: bool },
}

/// What is selected at first, from one place to another in UTF-16 units; nothing is said where
/// the toolkit decides.
pub open spec fn selection_of(select: InputSelect, value: Txt) -> Option<(int, int)> {
    match select {
        InputSelect::AsIs => None,
        InputSelect::All => Some((0, winpath::utf16(value).len() as int)),
        InputSelect::BeforeExt { is_dir } => {
            let at = winpath::utf16(stem(value, is_dir)).len() as int;
            Some((at, at))
        },
    }
}

impl InputSelect {
    /// What is selected at first in a text field that holds `value`.
    pub fn apply(self, value: &str) -> (selection: Option<(usize, usize)>)
        ensures
            match selection {
                Some((from, to)) => selection_of(self, value@) == Some((from as int, to as int)),
                None => selection_of(self, value@) is None,
            },
    {
        match self {
            InputSelect::AsIs => None,
            InputSelect::All => Some((0, utf16_len(value))),
            InputSelect::BeforeExt { is_dir } => {
                let at: usize = before_ext_pos(value, is_dir);
                Some((at, at))
            },
        }
    }
}

/// What is told of a dialog when it opens.
pub enum Registration<S = String, B = Vec<(String, u16)>, I = Vec<String>> {
    Plain { kind: S, title: S, prompt: S, has_input: bool, buttons: B },
    List { kind: S, title: S, items: I, selected: usize, buttons: B },
    ListView { kind: S, title: S, buttons: B, hooks: ListViewHooks },
}

/// What is told of a dialog, in specifications.
pub type RegistrationModel = Registration<Txt, Seq<(Txt, u16)>, Seq<Txt>>;

impl View for Registration<String, Vec<(String, u16)>, Vec<String>> {
    type V = RegistrationModel;

    open spec fn view(&self) -> RegistrationModel {
        match *self {
            Registration::Plain { kind, title, prompt, has_input, buttons } => Registration::Plain {
                kind: kind@,
                title: title@,
                prompt: prompt@,
                has_input,
                buttons: buttons.deep_view(),
            },
            Registration::List { kind, title, items, selected, buttons } => Registration::List {
                kind: kind@,
                title: title@,
                items: items.deep_view(),
                selected,
                buttons: buttons.deep_view(),
            },
            Registration::ListView { kind, title, buttons, hooks } => Registration::ListView {
                kind: kind@,
                title: title@,
                buttons: buttons.deep_view(),
                hooks,
            },
        }
    }
}

/// The buttons of most dialogs.
pub open spec fn ok_and_cancel() -> Seq<(Txt, u16)> {
    seq![("OK"@, ID_OK), ("キャンセル"@, ID_CANCEL)]
}

/// A button, and what it is known by.
pub fn button(label: &str, id: u16) -> (b: (String, u16))
    ensures
        b.0@ == label@,
        b.1 == id,
{
    (text::copy(label), id)
}

/// The buttons of most dialogs.
pub fn ok_cancel() -> (buttons: Vec<(String, u16)>)
    ensures
        buttons.deep_view() == ok_and_cancel(),
{
    let buttons: Vec<(String, u16)> = vec![button("OK", ID_OK), button("キャンセル", ID_CANCEL)];
    assert(buttons.deep_view() =~= ok_and_cancel());
    buttons
}

/// What is told of a dialog without a list.
pub open spec fn told_with(
    kind: Txt,
    title: Txt,
    prompt: Txt,
    has_input: bool,
    buttons: Seq<(Txt, u16)>,
) -> RegistrationModel {
    Registration::Plain { kind, title, prompt, has_input, buttons }
}

/// What is told of a dialog that accepts and cancels.
pub open spec fn told(kind: Txt, title: Txt, prompt: Txt, has_input: bool) -> RegistrationModel {
    told_with(kind, title, prompt, has_input, ok_and_cancel())
}

/// What is told of a dialog that accepts and cancels.
pub fn arm_modal(kind: &str, title: &str, prompt: &str, has_input: bool) -> (r: Registration)
    ensures
        r@ == told(kind@, title@, prompt@, has_input),
{
    Registration::Plain {
        kind: text::copy(kind),
        title: text::copy(title),
        prompt: text::copy(prompt),
        has_input,
        buttons: ok_cancel(),
    }
}

/// How a dialog stands in the registry that told `registration` of itself.
pub open spec fn is_registered(
    top: debug_server::ModalEntry,
    registration: Option<Registration>,
    title: Txt,
    window: isize,
) -> bool {
    &&& top.modal_ptr == window
    &&& match registration {
        Some(Registration::Plain { kind, title, prompt, has_input, buttons }) => {
            &&& top.kind@ == kind@
            &&& top.title@ == title@
            &&& top.prompt@ == prompt@
            &&& top.has_input == has_input
            &&& top.buttons == buttons
            &&& top.items@.len() == 0
            &&& top.selected == 0
            &&& top.list_view is None
        },
        Some(Registration::List { kind, title, items, selected, buttons }) => {
            &&& top.kind@ == kind@
            &&& top.title@ == title@
            &&& top.prompt@.len() == 0
            &&& !top.has_input
            &&& top.items == items
            &&& top.selected == selected
            &&& top.buttons == buttons
            &&& top.list_view is None
        },
        Some(Registration::ListView { kind, title, buttons, hooks }) => {
            &&& top.kind@ == kind@
            &&& top.title@ == title@
            &&& top.prompt@.len() == 0
            &&& !top.has_input
            &&& top.buttons == buttons
            &&& top.items@.len() == 0
            &&& top.selected == 0
            &&& top.list_view == Some(hooks)
        },
        None => {
            &&& top.kind@ == "modal"@
            &&& top.title@ == title
            &&& top.prompt@.len() == 0
            &&& !top.has_input
            &&& top.buttons@.len() == 0
            &&& top.items@.len() == 0
            &&& top.selected == 0
            &&& top.list_view is None
        },
    }
}

/// A dialog opens. Whether it told anything of itself or not, it stands in the registry.
pub fn modal_opened(
    registry: &mut ModalRegistry,
    registration: Option<Registration>,
    title: &str,
    window: isize,
)
    ensures
        debug_server::pushed(*old(registry), *final(registry), final(registry).stack@.last()),
        is_registered(final(registry).stack@.last(), registration, title@, window),
{
    match registration {
        Some(Registration::Plain { kind, title, prompt, has_input, buttons }) => {
            debug_server::push(
                registry,
                kind.as_str(),
                title.as_str(),
                prompt.as_str(),
                window,
                has_input,
                buttons,
            )
        },
        Some(Registration::List { kind, title, items, selected, buttons }) => {
            debug_server::push_list(
                registry,
                kind.as_str(),
                title.as_str(),
                items,
                selected,
                window,
                buttons,
            )
        },
        Some(Registration::ListView { kind, title, buttons, hooks }) => {
            debug_server::push_list_view(
                registry,
                kind.as_str(),
                title.as_str(),
                window,
                buttons,
                hooks,
            )
        },
        None => {
            proof {
                reveal_strlit("");
            }
            debug_server::push(registry, "modal", title, "", window, false, Vec::new())
        },
    }
}

/// How many dialogs are open, one over the other.
pub struct ModalDepth {
    pub depth: u32,
}

impl ModalDepth {
    /// No dialog is open.
    pub fn new() -> (d: Self)
        ensures
            d.depth == 0,
    {
        ModalDepth { depth: 0 }
    }

    /// A dialog opens.
    pub fn enter(&mut self)
        requires
            old(self).depth < u32::MAX,
        ensures
            final(self).depth == old(self).depth + 1,
    {
        self.depth = self.depth + 1;
    }

    /// The dialog on top closes.
    pub fn leave(&mut self)
        requires
            old(self).depth > 0,
        ensures
            final(self).depth == old(self).depth - 1,
    {
        self.depth = self.depth - 1;
    }

    /// Whether a dialog is open.
    pub fn modal_active(&self) -> (active: bool)
        ensures
            active == (self.depth > 0),
    {
        self.depth > 0
    }
}

/// A dialog is shown: it counts as open, and stands on top of the registry, before anything else
/// can happen.
pub fn show_modal_guarded(
    depth: &mut ModalDepth,
    registry: &mut ModalRegistry,
    registration: Option<Registration>,
    title: &str,
    window: isize,
)
    requires
        old(depth).depth < u32::MAX,
    ensures
        final(depth).depth == old(depth).depth + 1,
        debug_server::pushed(*old(registry), *final(registry), final(registry).stack@.last()),
        is_registered(final(registry).stack@.last(), registration, title@, window),
{
    depth.enter();
    modal_opened(registry, registration, title, window);
}

/// The dialog on top is closed: it leaves the registry, and then no longer counts as open.
pub fn modal_closed(depth: &mut ModalDepth, registry: &mut ModalRegistry)
    requires
        old(depth).depth > 0,
        old(registry).stack@.len() > 0,
    ensures
        final(depth).depth == old(depth).depth - 1,
        final(registry).stack@ == old(registry).stack@.drop_last(),
        final(registry).key_editors == old(registry).key_editors,
        final(registry).settings_nav == old(registry).settings_nav,
{
    debug_server::pop(registry);
    depth.leave();
}

/// A control, as far as it matters for where the focus goes at first.
#[derive(Clone, Debug, PartialEq, Eq)]
pub struct FocusItem {
    pub class: String,
    pub style: u32,
    pub checked: bool,
}

/// Whether a control is a radio button.
pub open spec fn is_radio(item: FocusItem) -> bool {
    &&& text::ascii_lowered(item.class@) == text::ascii_lowered("button"@)
    &&& item.style & 0xF == 4 || item.style & 0xF == 9
}

/// Whether a control is a radio button.
fn radio(item: &FocusItem) -> (yes: bool)
    ensures
        yes == is_radio(*item),
{
    let style: u32 = item.style & 0xF;
    text::same_ignoring_case(item.class.as_str(), "button") && (style == 4 || style == 9)
}

/// How far a group is gone through for a radio button that is on.
pub const GROUP_LIMIT: usize = 64;

/// The first radio button that is on, from `from` on.
pub open spec fn first_on(group: Seq<FocusItem>, from: int) -> Option<int>
    decreases group.len() - from,
{
    if from < 0 || from >= group.len() || from >= GROUP_LIMIT {
        None
    } else if is_radio(group[from]) && group[from].checked {
        Some(from)
    } else {
        first_on(group, from + 1)
    }
}

/// Where the focus goes at first: to `first`, the first control of the Tab key; or, where that
/// is a radio button that is off, to the radio button of its group that is on. `group` is the
/// rest of its group, in order. The answer is a place in `group`, or nothing for `first`.
pub fn focus_initial(first: &FocusItem, group: &Vec<FocusItem>) -> (at: Option<usize>)
    ensures
        match at {
            Some(i) => is_radio(*first) && !first.checked && first_on(group@, 0) == Some(i as int),
            None => !is_radio(*first) || first.checked || first_on(group@, 0) is None,
        },
{
    if !radio(first) || first.checked {
        return None;
    }
    let mut i: usize = 0;
    while i < group.len() && i < GROUP_LIMIT
        invariant
            i <= group.len(),
            i <= GROUP_LIMIT,
            is_radio(*first),
            !first.checked,
            first_on(group@, 0) == first_on(group@, i as int),
        decreases group.len() - i,
    {
        if radio(&group[i]) && group[i].checked {
            return Some(i);
        }
        i += 1;
    }
    None
}

/// What the menu beside a time gives: the time now, or the beginning of the day.
pub fn quick_time_menu(chosen: u16, now: &str, midnight: &str) -> (value: Option<String>)
    ensures
        match value {
            Some(v) => (chosen == 1 && v@ == now@) || (chosen == 2 && v@ == midnight@),
            None => chosen != 1 && chosen != 2,
        },
{
    if chosen == 1 {
        Some(text::copy(now))
    } else if chosen == 2 {
        Some(text::copy(midnight))
    } else {
        None
    }
}

/// Every dialog can be observed: whatever it tells of itself, opening it puts it on top of the
/// registry, and closing it leaves the registry as it was.
pub proof fn law_every_dialog_is_observed(
    before: ModalRegistry,
    after: ModalRegistry,
    registration: Option<Registration>,
    title: Txt,
    window: isize,
)
    requires
        debug_server::pushed(before, after, after.stack@.last()),
        is_registered(after.stack@.last(), registration, title, window),
    ensures
        after.stack@.len() == before.stack@.len() + 1,
        after.stack@.last().modal_ptr == window,
        after.stack@.drop_last() == before.stack@,
{
    debug_server::law_pop_undoes_push(before, after, after.stack@.last());
}

/// The caret before an extension never splits the name at another place than before its last
/// dot: what follows the caret, if anything, starts with that dot.
pub proof fn law_caret_stands_before_the_last_dot(name: Txt, is_dir: bool)
    ensures
        text::has_prefix(name, stem(name, is_dir)),
        stem(name, is_dir) != name ==> name[stem(name, is_dir).len() as int] == '.',
        stem(name, is_dir) != name ==> !name.skip(stem(name, is_dir).len() as int + 1).contains('.'),
{
    lemma_last_dot(name, name.len() as int);
    assert(name.take(name.len() as int) =~= name);
    match last_dot(name, name.len() as int) {
        Some(at) => {
            if !is_dir && at != 0 {
                assert(stem(name, is_dir) =~= name.take(at));
            }
        },
        None => {},
    }
}

proof fn lemma_last_dot(name: Txt, end: int)
    requires
        end <= name.len(),
    ensures
        match last_dot(name, end) {
            Some(at) => {
                &&& 0 <= at < end
                &&& name[at] == '.'
                &&& forall|j: int| at < j < end ==> name[j] != '.'
            },
            None => true,
        },
    decreases end,
{
    if end > 0 && name[end - 1] != '.' {
        lemma_last_dot(name, end - 1);
    }
}

} // verus!
