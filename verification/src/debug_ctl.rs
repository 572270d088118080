//! What the window does about a request of the development server.
//!
//! The window hands in what it knows: which view is on top, the controls of the dialog on
//! top, what the command is. What follows from that is decided here; the window carries it
//! out, and answers.

use crate::debug_json::PaneState;
use crate::debug_server::{KeyEditorHooks, ModalEntry, ModalRegistry, Request, Response};
use crate::debug_server;
use crate::outside;
use crate::text;
use vstd::prelude::*;

verus! {

/// A text in specifications.
pub type Txt = Seq<char>;

/// The view that covers the panes, if one does.
#[derive(Clone, Copy, Debug, PartialEq, Eq, Structural)]
pub enum ActiveView {
    NoView,
    Text,
    Media,
}

/// Whether a command opens a dialog.
#[derive(Clone, Copy, Debug, PartialEq, Eq, Structural)]
pub enum DebugCmdClass {
    NonModal,
    /// It only reads, but may ask something.
    MaybeModal,
    /// It asks, and changes files.
    ModalWrite,
}

/// What is known of a command.
#[derive(Clone, Copy, Debug, PartialEq, Eq, Structural)]
pub struct CommandFacts {
    pub in_text_viewer: bool,
    pub in_image_viewer: bool,
    pub class: DebugCmdClass,
}

/// Where a command is run.
#[derive(Clone, Copy, Debug, PartialEq, Eq, Structural)]
pub enum RunIn {
    TextViewer,
    ImageViewer,
    LeftPane,
    RightPane,
}

/// A control of a dialog.
#[derive(Clone, Debug, PartialEq, Eq)]
pub struct Child<S = String> {
    /// The name of its window class.
    pub class: S,
    pub style: u32,
}

impl View for Child<String> {
    type V = Child<Txt>;

    open spec fn view(&self) -> Child<Txt> {
        Child { class: self.class@, style: self.style }
    }
}

/// The controls of a dialog in specifications.
pub open spec fn children_of(children: Seq<Child>) -> Seq<Child<Txt>> {
    children.map_values(|c: Child| c@)
}

/// A key for a dialog: its code, and whether it goes down and up.
#[derive(Clone, Copy, Debug, PartialEq, Eq, Structural)]
pub struct KeyPress {
    pub code: u16,
    pub down: bool,
    pub up: bool,
}

/// What a page of key settings is asked to do.
#[derive(Clone, Debug, PartialEq, Eq)]
pub enum KeyOp<S = String> {
    /// Select a row.
    Select { index: usize },
    /// Bind a chord to a command.
    Bind { command: S, chord: S },
    /// Unbind the command of the selected row.
    Unbind,
    /// Go back to the default keys.
    Reset,
    /// Show only the rows that match.
    Search { query: S },
    /// Order the rows by key, or by command.
    SetView { by_key: bool },
    /// Move the selected row to another chord.
    Rebind { chord: S },
    /// Bind a chord to the selected row.
    Capture { chord: S },
    /// Add a row that runs code.
    AddCode { code: S },
    /// Give the selected command an argument.
    SetArg { arg: S },
    /// Pick another command for the selected row.
    Pick { label: usize },
    /// Take the command that was picked.
    PickCommit,
    /// Do not take a command.
    PickCancel,
    /// Scroll.
    Scroll { top: i32 },
    /// Add a chord without a command.
    AddKeyDef { chord: S },
}

impl View for KeyOp<String> {
    type V = KeyOp<Txt>;

    open spec fn view(&self) -> KeyOp<Txt> {
        match *self {
            KeyOp::Select { index } => KeyOp::Select { index },
            KeyOp::Bind { command, chord } => KeyOp::Bind { command: command@, chord: chord@ },
            KeyOp::Unbind => KeyOp::Unbind,
            KeyOp::Reset => KeyOp::Reset,
            KeyOp::Search { query } => KeyOp::Search { query: query@ },
            KeyOp::SetView { by_key } => KeyOp::SetView { by_key },
            KeyOp::Rebind { chord } => KeyOp::Rebind { chord: chord@ },
            KeyOp::Capture { chord } => KeyOp::Capture { chord: chord@ },
            KeyOp::AddCode { code } => KeyOp::AddCode { code: code@ },
            KeyOp::SetArg { arg } => KeyOp::SetArg { arg: arg@ },
            KeyOp::Pick { label } => KeyOp::Pick { label },
            KeyOp::PickCommit => KeyOp::PickCommit,
            KeyOp::PickCancel => KeyOp::PickCancel,
            KeyOp::Scroll { top } => KeyOp::Scroll { top },
            KeyOp::AddKeyDef { chord } => KeyOp::AddKeyDef { chord: chord@ },
        }
    }
}

/// What the window is to do.
#[derive(Clone, Debug, PartialEq, Eq)]
pub enum Plan<S = String, B = Vec<u8>, A = Vec<String>> {
    /// Answer, and do nothing.
    Answer(Response<S, B>),
    /// Let pending work end, and answer with the part of the state that is pointed to.
    State { pointer: S },
    /// Let pending work end, and answer with the part of the presentation that is pointed to.
    Presentation { pointer: S },
    /// Let pending work end, and answer with a picture.
    Picture { spec: S },
    /// Run the command with its arguments, let pending work end, and answer with the state.
    RunThenAnswer { name: S, args: A, place: RunIn },
    /// Answer, and run the command with its arguments: it may ask something first.
    AnswerThenRun { answer: S, name: S, args: A, place: RunIn },
    /// Go to the next or the previous picture.
    Navigate { forward: bool },
    CloseViewer,
    /// A key for the text viewer.
    TextViewerKey { chord: S },
    /// A key for the image viewer.
    ImageViewerKey { chord: S },
    SearchText { value: S },
    FindNext { forward: bool },
    ConfirmSearch,
    CancelSearch,
    SearchOption { name: S, on: bool },
    SearchHistory { index: usize },
    SearchDropdown { open: bool },
    SearchMnemonic { key: char },
    /// A key for the dialog on top.
    Press { key: KeyPress },
    /// A text for a control of the dialog on top.
    SetText { child: usize, value: S },
    /// Click a control of the dialog on top.
    Click { child: usize },
    /// Push a button of the dialog on top.
    Push { id: u16 },
    /// Select a row of the list of several columns of the dialog on top.
    SelectRow { index: usize },
    /// Select an item of a list of the dialog on top.
    SelectItem { child: usize, index: usize },
    /// Give the dialog on top another size.
    Resize { width: i32, height: i32 },
    /// Answer with the names of the commands of scripts.
    ListScripts,
    /// Run a command of a script, and answer that it was.
    InvokeScript { name: S },
    /// Run code, and answer that it was.
    EvalScript { code: S },
    /// Run code, and answer with its value.
    EvalScriptValue { code: S },
    /// Answer with the state of a page of key settings.
    KeysState { editor: usize },
    /// Have a page of key settings do something, and answer whether it worked.
    KeysOp { editor: usize, op: KeyOp<S> },
    /// Go to a page of the settings, and answer that it was.
    SettingsNav { pane: usize },
}

/// What the window is to do, in specifications.
pub type PlanModel = Plan<Txt, Seq<u8>, Seq<Txt>>;

impl View for Plan<String, Vec<u8>, Vec<String>> {
    type V = PlanModel;

    open spec fn view(&self) -> PlanModel {
        match *self {
            Plan::Answer(response) => Plan::Answer(response@),
            Plan::State { pointer } => Plan::State { pointer: pointer@ },
            Plan::Presentation { pointer } => Plan::Presentation { pointer: pointer@ },
            Plan::Picture { spec } => Plan::Picture { spec: spec@ },
            Plan::RunThenAnswer { name, args, place } => Plan::RunThenAnswer {
                name: name@,
                args: args.deep_view(),
                place,
            },
            Plan::AnswerThenRun { answer, name, args, place } => Plan::AnswerThenRun {
                answer: answer@,
                name: name@,
                args: args.deep_view(),
                place,
            },
            Plan::Navigate { forward } => Plan::Navigate { forward },
            Plan::CloseViewer => Plan::CloseViewer,
            Plan::TextViewerKey { chord } => Plan::TextViewerKey { chord: chord@ },
            Plan::ImageViewerKey { chord } => Plan::ImageViewerKey { chord: chord@ },
            Plan::SearchText { value } => Plan::SearchText { value: value@ },
            Plan::FindNext { forward } => Plan::FindNext { forward },
            Plan::ConfirmSearch => Plan::ConfirmSearch,
            Plan::CancelSearch => Plan::CancelSearch,
            Plan::SearchOption { name, on } => Plan::SearchOption { name: name@, on },
            Plan::SearchHistory { index } => Plan::SearchHistory { index },
            Plan::SearchDropdown { open } => Plan::SearchDropdown { open },
            Plan::SearchMnemonic { key } => Plan::SearchMnemonic { key },
            Plan::Press { key } => Plan::Press { key },
            Plan::SetText { child, value } => Plan::SetText { child, value: value@ },
            Plan::Click { child } => Plan::Click { child },
            Plan::Push { id } => Plan::Push { id },
            Plan::SelectRow { index } => Plan::SelectRow { index },
            Plan::SelectItem { child, index } => Plan::SelectItem { child, index },
            Plan::Resize { width, height } => Plan::Resize { width, height },
            Plan::ListScripts => Plan::ListScripts,
            Plan::InvokeScript { name } => Plan::InvokeScript { name: name@ },
            Plan::EvalScript { code } => Plan::EvalScript { code: code@ },
            Plan::EvalScriptValue { code } => Plan::EvalScriptValue { code: code@ },
            Plan::KeysState { editor } => Plan::KeysState { editor },
            Plan::KeysOp { editor, op } => Plan::KeysOp { editor, op: op@ },
            Plan::SettingsNav { pane } => Plan::SettingsNav { pane },
        }
    }
}

/// What the window knows when a request comes in.
pub struct WindowFacts {
    pub view: ActiveView,
    pub active_right: bool,
    /// Commands that change files may be run.
    pub allow_write: bool,
    /// What is known of the command that is asked for, if there is such a command.
    pub command: Option<CommandFacts>,
    /// The action that is asked for is a chord.
    pub is_chord: bool,
    /// The controls of the dialog on top, in order.
    pub children: Vec<Child>,
}

/// What is answered before a command that may ask something.
pub const MAYBE_MODAL: &'static str = "{\"maybe_modal\":true}";

/// What is answered before a command that asks.
pub const MODAL_OPENING: &'static str = "{\"modal_opening\":true}";

/// A refusal with a reason.
pub open spec fn refused(why: Txt) -> PlanModel {
    Plan::Answer(Response::BadRequest(why))
}

/// A refusal with a reason.
fn refuse(why: &str) -> (plan: Plan)
    ensures
        plan@ == refused(why@),
{
    Plan::Answer(Response::BadRequest(text::copy(why)))
}

/// A refusal with a reason that ends in what was asked for.
fn refuse_of(why: &str, what: &str) -> (plan: Plan)
    ensures
        plan@ == refused(why@ + what@),
{
    Plan::Answer(Response::BadRequest(text::concat(why, what)))
}

/// Where a command is run: in the viewer on top where it can be, else in the active pane.
pub open spec fn place_of(command: CommandFacts, view: ActiveView, active_right: bool) -> RunIn {
    if view == ActiveView::Text && command.in_text_viewer {
        RunIn::TextViewer
    } else if view == ActiveView::Media && command.in_image_viewer {
        RunIn::ImageViewer
    } else if active_right {
        RunIn::RightPane
    } else {
        RunIn::LeftPane
    }
}

/// What is done about a command. A dialog blocks until it is closed, so what may open one is
/// answered before it is run. What changes files is run in a pane only where that is allowed.
pub open spec fn dispatched(
    name: Txt,
    args: Seq<Txt>,
    command: Option<CommandFacts>,
    view: ActiveView,
    active_right: bool,
    allow_write: bool,
) -> PlanModel {
    match command {
        None => refused("unknown command: "@ + name),
        Some(command) => {
            let place = place_of(command, view, active_right);
            if command.class == DebugCmdClass::NonModal {
                Plan::RunThenAnswer { name, args, place }
            } else if place == RunIn::TextViewer || place == RunIn::ImageViewer
                || command.class == DebugCmdClass::MaybeModal {
                Plan::AnswerThenRun { answer: MAYBE_MODAL@, name, args, place }
            } else if !allow_write {
                refused("write disabled; restart with --debug-allow-write to run: "@ + name)
            } else {
                Plan::AnswerThenRun { answer: MODAL_OPENING@, name, args, place }
            }
        },
    }
}

/// What is done about a command.
pub fn debug_dispatch_command(
    name: String,
    args: Vec<String>,
    command: Option<CommandFacts>,
    view: ActiveView,
    active_right: bool,
    allow_write: bool,
) -> (plan: Plan)
    ensures
        plan@ == dispatched(name@, args.deep_view(), command, view, active_right, allow_write),
{
    match command {
        None => refuse_of("unknown command: ", name.as_str()),
        Some(command) => {
            let in_viewer: bool;
            let place: RunIn;
            if view == ActiveView::Text && command.in_text_viewer {
                in_viewer = true;
                place = RunIn::TextViewer;
            } else if view == ActiveView::Media && command.in_image_viewer {
                in_viewer = true;
                place = RunIn::ImageViewer;
            } else {
                in_viewer = false;
                place =
                if active_right {
                    RunIn::RightPane
                } else {
                    RunIn::LeftPane
                };
            }
            if command.class == DebugCmdClass::NonModal {
                Plan::RunThenAnswer { name, args, place }
            } else if in_viewer || command.class == DebugCmdClass::MaybeModal {
                Plan::AnswerThenRun { answer: text::copy(MAYBE_MODAL), name, args, place }
            } else if !allow_write {
                refuse_of(
                    "write disabled; restart with --debug-allow-write to run: ",
                    name.as_str(),
                )
            } else {
                Plan::AnswerThenRun { answer: text::copy(MODAL_OPENING), name, args, place }
            }
        },
    }
}

/// What is answered when something was done: the state, or what went wrong.
pub open spec fn done(what: Txt, error: Option<Txt>, state: Txt) -> debug_server::ResponseModel {
    match error {
        None => Response::Json(state),
        Some(e) => Response::Error(what + " error: "@ + e),
    }
}

/// What is answered when something was done: the state, or what went wrong.
pub fn answer_done(what: &str, error: Option<String>, state: String) -> (response: Response)
    ensures
        response@ == done(what@, error.deep_view(), state@),
{
    match error {
        None => Response::Json(state),
        Some(e) => {
            let mut why = text::concat(what, " error: ");
            why.append(e.as_str());
            Response::Error(why)
        },
    }
}

/// What is answered with a part of a document: the part, if there is one where the pointer
/// points.
pub open spec fn part_answer(part: Option<Txt>) -> debug_server::ResponseModel {
    match part {
        Some(json) => Response::Json(json),
        None => Response::NotFound,
    }
}

/// What is answered with a part of a document.
pub fn answer_part(part: Option<String>) -> (response: Response)
    ensures
        response@ == part_answer(part.deep_view()),
{
    match part {
        Some(json) => Response::Json(json),
        None => Response::NotFound,
    }
}

/// What is answered when a page of key settings was asked to do something: that it did, or why
/// it did not.
pub open spec fn keys_answer(error: Option<Txt>) -> debug_server::ResponseModel {
    match error {
        None => Response::Json("\"ok\""@),
        Some(why) => Response::BadRequest(why),
    }
}

/// What is answered when a page of key settings was asked to do something.
pub fn answer_keys_op(error: Option<String>) -> (response: Response)
    ensures
        response@ == keys_answer(error.deep_view()),
{
    match error {
        None => Response::Json(text::copy("\"ok\"")),
        Some(why) => Response::BadRequest(why),
    }
}

/// The code of a key, by its name: some keys by a word, letters and digits as they are.
pub open spec fn key_code(name: Txt) -> Option<u16> {
    let n = text::ascii_lowered(name);
    if n == "enter"@ || n == "return"@ {
        Some(0x0D)
    } else if n == "esc"@ || n == "escape"@ {
        Some(0x1B)
    } else if n == "tab"@ {
        Some(0x09)
    } else if n == "shift"@ {
        Some(0x10)
    } else if n == "space"@ {
        Some(0x20)
    } else if n == "left"@ {
        Some(0x25)
    } else if n == "up"@ {
        Some(0x26)
    } else if n == "right"@ {
        Some(0x27)
    } else if n == "down"@ {
        Some(0x28)
    } else if n == "home"@ {
        Some(0x24)
    } else if n == "end"@ {
        Some(0x23)
    } else if n.len() == 1 && 'a' <= n[0] <= 'z' {
        Some((n[0] as u32 - 32) as u16)
    } else if n.len() == 1 && '0' <= n[0] <= '9' {
        Some(n[0] as u16)
    } else {
        None
    }
}

/// The code of a key, by its name.
pub fn code_of_key(name: &str) -> (code: Option<u16>)
    ensures
        code == key_code(name@),
{
    let lower = text::to_ascii_lower(name);
    let n = lower.as_str();
    if text::same(n, "enter") || text::same(n, "return") {
        return Some(0x0D);
    }
    if text::same(n, "esc") || text::same(n, "escape") {
        return Some(0x1B);
    }
    if text::same(n, "tab") {
        return Some(0x09);
    }
    if text::same(n, "shift") {
        return Some(0x10);
    }
    if text::same(n, "space") {
        return Some(0x20);
    }
    if text::same(n, "left") {
        return Some(0x25);
    }
    if text::same(n, "up") {
        return Some(0x26);
    }
    if text::same(n, "right") {
        return Some(0x27);
    }
    if text::same(n, "down") {
        return Some(0x28);
    }
    if text::same(n, "home") {
        return Some(0x24);
    }
    if text::same(n, "end") {
        return Some(0x23);
    }
    let chars = text::to_chars(n);
    if chars.len() == 1 {
        let c = chars[0];
        if 'a' <= c && c <= 'z' {
            return Some((c as u32 - 32) as u16);
        }
        if '0' <= c && c <= '9' {
            return Some(c as u32 as u16);
        }
    }
    None
}

/// What is done about a key for the dialog on top. Behind a slash may stand that the key only
/// goes down, or only up.
pub open spec fn modal_key_plan(open: bool, key: Txt) -> PlanModel {
    let name = text::up_to_first(key, '/');
    let phase = match text::split_at_first(key, '/') {
        Some((_, phase)) => Some(phase),
        None => None,
    };
    if !open {
        refused("no modal open"@)
    } else {
        match key_code(name) {
            Some(code) => Plan::Press {
                key: KeyPress { code, down: phase != Some("up"@), up: phase != Some("down"@) },
            },
            None => refused("unknown modal key: "@ + key),
        }
    }
}

/// What is done about a key for the dialog on top.
pub fn debug_modal_key(open: bool, key: &str) -> (plan: Plan)
    ensures
        plan@ == modal_key_plan(open, key@),
{
    if !open {
        return refuse("no modal open");
    }
    let (name, down, up) = match text::split_once(key, '/') {
        Some((name, phase)) => {
            let down = !text::same(phase.as_str(), "up");
            let up = !text::same(phase.as_str(), "down");
            (name, down, up)
        },
        None => (text::copy(key), true, true),
    };
    match code_of_key(name.as_str()) {
        Some(code) => Plan::Press { key: KeyPress { code, down, up } },
        None => refuse_of("unknown modal key: ", key),
    }
}

/// The first control of a class, from `from` on. Case does not matter.
pub open spec fn first_of_class(children: Seq<Child<Txt>>, class: Txt, from: int) -> Option<int>
    decreases children.len() - from,
{
    if from < 0 || from >= children.len() {
        None
    } else if text::ascii_lowered(children[from].class) == text::ascii_lowered(class) {
        Some(from)
    } else {
        first_of_class(children, class, from + 1)
    }
}

/// The first control of a class. Case does not matter.
pub fn child_of_class(children: &Vec<Child>, class: &str) -> (at: Option<usize>)
    ensures
        match at {
            Some(i) => i < children@.len() && first_of_class(children_of(children@), class@, 0)
                == Some(i as int),
            None => first_of_class(children_of(children@), class@, 0) is None,
        },
{
    let ghost all = children_of(children@);
    let mut i: usize = 0;
    while i < children.len()
        invariant
            i <= children.len(),
            all == children_of(children@),
            first_of_class(all, class@, 0) == first_of_class(all, class@, i as int),
        decreases children.len() - i,
    {
        assert(all[i as int] == children@[i as int]@);
        if text::same_ignoring_case(children[i].class.as_str(), class) {
            return Some(i);
        }
        i += 1;
    }
    None
}

/// Whether a control is a check box: a button whose style says so.
pub open spec fn is_check_box(child: Child<Txt>) -> bool {
    &&& text::ascii_lowered(child.class) == text::ascii_lowered("Button"@)
    &&& child.style & 0xF == 2 || child.style & 0xF == 3
}

/// The first check box, from `from` on.
pub open spec fn first_check_box(children: Seq<Child<Txt>>, from: int) -> Option<int>
    decreases children.len() - from,
{
    if from < 0 || from >= children.len() {
        None
    } else if is_check_box(children[from]) {
        Some(from)
    } else {
        first_check_box(children, from + 1)
    }
}

/// The first check box.
pub fn check_box_of(children: &Vec<Child>) -> (at: Option<usize>)
    ensures
        match at {
            Some(i) => i < children@.len() && first_check_box(children_of(children@), 0) == Some(
                i as int,
            ),
            None => first_check_box(children_of(children@), 0) is None,
        },
{
    let ghost all = children_of(children@);
    let mut i: usize = 0;
    while i < children.len()
        invariant
            i <= children.len(),
            all == children_of(children@),
            first_check_box(all, 0) == first_check_box(all, i as int),
        decreases children.len() - i,
    {
        assert(all[i as int] == children@[i as int]@);
        let style: u32 = children[i].style & 0xF;
        if text::same_ignoring_case(children[i].class.as_str(), "Button") && (style == 2 || style
            == 3) {
            return Some(i);
        }
        i += 1;
    }
    None
}

/// Whether the label of a button holds a text. The mark of its mnemonic does not count, nor
/// does case.
pub open spec fn label_holds(label: Txt, part: Txt) -> bool {
    text::is_within(outside::lowercase_text(text::without(label, '&')), part)
}

/// The first button whose label holds a text, from `from` on.
pub open spec fn button_labelled(buttons: Seq<(Txt, u16)>, part: Txt, from: int) -> Option<u16>
    decreases buttons.len() - from,
{
    if from < 0 || from >= buttons.len() {
        None
    } else if label_holds(buttons[from].0, part) {
        Some(buttons[from].1)
    } else {
        button_labelled(buttons, part, from + 1)
    }
}

/// The button that is meant: by its role, by its number, or by a part of its label.
pub open spec fn button_meant(buttons: Seq<(Txt, u16)>, role: Txt) -> Option<u16> {
    let r = text::ascii_lowered(role);
    if r == "ok"@ || r == "yes"@ {
        Some(1)
    } else if r == "cancel"@ {
        Some(2)
    } else {
        match text::unsigned_value(role) {
            Some(n) if n <= 65535 => Some(n as u16),
            _ => button_labelled(buttons, r, 0),
        }
    }
}

/// The button that is meant: by its role, by its number, or by a part of its label.
pub fn button_id(buttons: &Vec<(String, u16)>, role: &str) -> (id: Option<u16>)
    ensures
        id == button_meant(buttons.deep_view(), role@),
{
    let ghost all = buttons.deep_view();
    let r = text::to_ascii_lower(role);
    if text::same(r.as_str(), "ok") || text::same(r.as_str(), "yes") {
        return Some(1);
    }
    if text::same(r.as_str(), "cancel") {
        return Some(2);
    }
    if let Some(n) = text::parse_unsigned(role, 65535) {
        return Some(n as u16);
    }
    let mut i: usize = 0;
    while i < buttons.len()
        invariant
            i <= buttons.len(),
            all == buttons.deep_view(),
            button_meant(all, role@) == button_labelled(all, r@, i as int),
        decreases buttons.len() - i,
    {
        assert(all[i as int] == buttons@[i as int].deep_view());
        let label = outside::lowercase(text::remove_char(buttons[i].0.as_str(), '&').as_str());
        if text::contains(label.as_str(), r.as_str()) {
            return Some(buttons[i].1);
        }
        i += 1;
    }
    None
}

/// What is done about a request for the dialog on top.
pub open spec fn modal_plan(
    request: debug_server::RequestModel,
    top: Option<ModalEntry>,
    children: Seq<Child<Txt>>,
) -> PlanModel {
    match request {
        Request::ModalKey { key } => modal_key_plan(top is Some, key),
        Request::ModalText { value } => if top is None {
            refused("no modal open"@)
        } else {
            match first_of_class(children, "Edit"@, 0) {
                Some(i) => Plan::SetText { child: i as usize, value },
                None => refused("modal has no text field"@),
            }
        },
        Request::ModalCommand { role } => match top {
            None => refused("no modal open"@),
            Some(entry) => match button_meant(entry.buttons.deep_view(), role) {
                Some(id) => Plan::Push { id },
                None => refused("unknown modal button: "@ + role),
            },
        },
        Request::ModalSelect { index } => match top {
            None => refused("no modal open"@),
            Some(entry) => if entry.list_view is Some {
                Plan::SelectRow { index }
            } else {
                match first_of_class(children, "ListBox"@, 0) {
                    Some(i) => Plan::SelectItem { child: i as usize, index },
                    None => refused("modal has no list"@),
                }
            },
        },
        Request::ModalCheck => if top is None {
            refused("no modal open"@)
        } else {
            match first_check_box(children, 0) {
                Some(i) => Plan::Click { child: i as usize },
                None => refused("modal has no checkbox"@),
            }
        },
        Request::ModalResize { width, height } => if width <= 0 || height <= 0 {
            refused("resize needs positive w/h"@)
        } else if top is None {
            refused("no modal open"@)
        } else {
            Plan::Resize { width, height }
        },
        _ => refused(Seq::empty()),
    }
}

/// What is done about a request for the dialog on top.
fn plan_modal(request: Request, top: Option<&ModalEntry>, children: &Vec<Child>) -> (plan: Plan)
    requires
        request is ModalKey || request is ModalText || request is ModalCommand
            || request is ModalSelect || request is ModalCheck || request is ModalResize,
    ensures
        plan@ == modal_plan(
            request@,
            match top {
                Some(entry) => Some(*entry),
                None => None,
            },
            children_of(children@),
        ),
{
    match request {
        Request::ModalKey { key } => debug_modal_key(top.is_some(), key.as_str()),
        Request::ModalText { value } => {
            if top.is_none() {
                return refuse("no modal open");
            }
            match child_of_class(children, "Edit") {
                Some(child) => Plan::SetText { child, value },
                None => refuse("modal has no text field"),
            }
        },
        Request::ModalCommand { role } => match top {
            None => refuse("no modal open"),
            Some(entry) => match button_id(&entry.buttons, role.as_str()) {
                Some(id) => Plan::Push { id },
                None => refuse_of("unknown modal button: ", role.as_str()),
            },
        },
        Request::ModalSelect { index } => match top {
            None => refuse("no modal open"),
            Some(entry) => {
                if entry.list_view.is_some() {
                    return Plan::SelectRow { index };
                }
                match child_of_class(children, "ListBox") {
                    Some(child) => Plan::SelectItem { child, index },
                    None => refuse("modal has no list"),
                }
            },
        },
        Request::ModalCheck => {
            if top.is_none() {
                return refuse("no modal open");
            }
            match check_box_of(children) {
                Some(child) => Plan::Click { child },
                None => refuse("modal has no checkbox"),
            }
        },
        Request::ModalResize { width, height } => {
            if width <= 0 || height <= 0 {
                return refuse("resize needs positive w/h");
            }
            if top.is_none() {
                return refuse("no modal open");
            }
            Plan::Resize { width, height }
        },
        _ => refuse(""),
    }
}

/// What is done about an action of the viewer on top: some by a word, else a chord.
pub open spec fn view_key_plan(action: Txt, is_chord: bool, view: ActiveView) -> PlanModel {
    if action == "next"@ {
        Plan::Navigate { forward: true }
    } else if action == "prev"@ {
        Plan::Navigate { forward: false }
    } else if action == "close"@ {
        Plan::CloseViewer
    } else if !is_chord {
        refused("unknown view action: "@ + action)
    } else {
        match view {
            ActiveView::Text => Plan::TextViewerKey { chord: action },
            ActiveView::Media => Plan::ImageViewerKey { chord: action },
            ActiveView::NoView => refused("no viewer active"@),
        }
    }
}

/// What is done about an action of the viewer on top.
pub fn debug_view_key(action: &str, is_chord: bool, view: ActiveView) -> (plan: Plan)
    ensures
        plan@ == view_key_plan(action@, is_chord, view),
{
    if text::same(action, "next") {
        return Plan::Navigate { forward: true };
    }
    if text::same(action, "prev") {
        return Plan::Navigate { forward: false };
    }
    if text::same(action, "close") {
        return Plan::CloseViewer;
    }
    if !is_chord {
        return refuse_of("unknown view action: ", action);
    }
    match view {
        ActiveView::Text => Plan::TextViewerKey { chord: text::copy(action) },
        ActiveView::Media => Plan::ImageViewerKey { chord: text::copy(action) },
        ActiveView::NoView => refuse("no viewer active"),
    }
}

/// What is done about a key of the search bar.
pub open spec fn search_key_plan(key: Txt) -> PlanModel {
    let k = text::ascii_lowered(key);
    if k == "down"@ || k == "next"@ {
        Plan::FindNext { forward: true }
    } else if k == "up"@ || k == "prev"@ {
        Plan::FindNext { forward: false }
    } else if k == "enter"@ || k == "return"@ {
        Plan::ConfirmSearch
    } else if k == "esc"@ || k == "escape"@ {
        Plan::CancelSearch
    } else {
        refused("unknown search key: "@ + key)
    }
}

/// What is done about a key of the search bar.
pub fn debug_view_search_key(key: &str) -> (plan: Plan)
    ensures
        plan@ == search_key_plan(key@),
{
    let lower = text::to_ascii_lower(key);
    let k = lower.as_str();
    if text::same(k, "down") || text::same(k, "next") {
        return Plan::FindNext { forward: true };
    }
    if text::same(k, "up") || text::same(k, "prev") {
        return Plan::FindNext { forward: false };
    }
    if text::same(k, "enter") || text::same(k, "return") {
        return Plan::ConfirmSearch;
    }
    if text::same(k, "esc") || text::same(k, "escape") {
        return Plan::CancelSearch;
    }
    refuse_of("unknown search key: ", key)
}

/// What is done about a request for the viewer on top. The search bar is the text viewer's.
pub open spec fn view_plan(
    request: debug_server::RequestModel,
    is_chord: bool,
    view: ActiveView,
) -> PlanModel {
    match request {
        Request::ViewKey { action } => view_key_plan(action, is_chord, view),
        _ => if view != ActiveView::Text {
            refused("text viewer not active"@)
        } else {
            match request {
                Request::ViewSearch { value } => Plan::SearchText { value },
                Request::ViewSearchKey { key } => search_key_plan(key),
                Request::ViewSearchOption { name, on } => Plan::SearchOption { name, on },
                Request::ViewSearchHistory { index } => Plan::SearchHistory { index },
                Request::ViewSearchDropdown { open } => Plan::SearchDropdown { open },
                Request::ViewSearchMnemonic { key } => Plan::SearchMnemonic { key },
                _ => refused(Seq::empty()),
            }
        },
    }
}

/// What is done about a request for the viewer on top.
fn plan_view(request: Request, is_chord: bool, view: ActiveView) -> (plan: Plan)
    requires
        request is ViewKey || request is ViewSearch || request is ViewSearchKey
            || request is ViewSearchOption || request is ViewSearchHistory
            || request is ViewSearchDropdown || request is ViewSearchMnemonic,
    ensures
        plan@ == view_plan(request@, is_chord, view),
{
    if let Request::ViewKey { action } = &request {
        return debug_view_key(action.as_str(), is_chord, view);
    }
    if view != ActiveView::Text {
        return refuse("text viewer not active");
    }
    match request {
        Request::ViewSearch { value } => Plan::SearchText { value },
        Request::ViewSearchKey { key } => debug_view_search_key(key.as_str()),
        Request::ViewSearchOption { name, on } => Plan::SearchOption { name, on },
        Request::ViewSearchHistory { index } => Plan::SearchHistory { index },
        Request::ViewSearchDropdown { open } => Plan::SearchDropdown { open },
        Request::ViewSearchMnemonic { key } => Plan::SearchMnemonic { key },
        _ => refuse(""),
    }
}

/// What is answered when a search option was to be switched or an earlier text to be taken:
/// `found` says whether there is such a one.
pub open spec fn done_if_found(
    found: bool,
    missing: Txt,
    what: Txt,
    error: Option<Txt>,
    state: Txt,
) -> debug_server::ResponseModel {
    if error is None && !found {
        Response::BadRequest(missing)
    } else {
        done(what, error, state)
    }
}

/// What is answered when the search option `name` was to be switched.
pub fn answer_search_option(
    name: &str,
    found: bool,
    error: Option<String>,
    state: String,
) -> (response: Response)
    ensures
        response@ == done_if_found(
            found,
            "unknown search option: "@ + name@,
            "view search option"@,
            error.deep_view(),
            state@,
        ),
{
    if error.is_none() && !found {
        return Response::BadRequest(text::concat("unknown search option: ", name));
    }
    answer_done("view search option", error, state)
}

/// What is answered when an earlier search text was to be taken.
pub fn answer_search_history(
    index: usize,
    found: bool,
    error: Option<String>,
    state: String,
) -> (response: Response)
    ensures
        response@ == done_if_found(
            found,
            "no history at "@ + text::decimal_text(index as nat),
            "view search history"@,
            error.deep_view(),
            state@,
        ),
{
    if error.is_none() && !found {
        return Response::BadRequest(
            text::concat("no history at ", text::decimal(index as u64).as_str()),
        );
    }
    answer_done("view search history", error, state)
}

/// The page of key settings that a request is for, if it is for one.
pub open spec fn category_of(request: debug_server::RequestModel) -> Option<Txt> {
    match request {
        Request::KeysState { category, .. } => Some(category),
        Request::KeysSelect { category, .. } => Some(category),
        Request::KeysBind { category, .. } => Some(category),
        Request::KeysUnbind { category, .. } => Some(category),
        Request::KeysReset { category, .. } => Some(category),
        Request::KeysSearch { category, .. } => Some(category),
        Request::KeysSetView { category, .. } => Some(category),
        Request::KeysRebind { category, .. } => Some(category),
        Request::KeysCapture { category, .. } => Some(category),
        Request::KeysAddCode { category, .. } => Some(category),
        Request::KeysSetArg { category, .. } => Some(category),
        Request::KeysPick { category, .. } => Some(category),
        Request::KeysPickCommit { category, .. } => Some(category),
        Request::KeysPickCancel { category, .. } => Some(category),
        Request::KeysScroll { category, .. } => Some(category),
        Request::KeysAddKeyDef { category, .. } => Some(category),
        _ => None,
    }
}

/// The page of key settings that a request is for, if it is for one.
pub fn key_category(request: &Request) -> (category: Option<&String>)
    ensures
        match category {
            Some(c) => category_of(request@) == Some(c@),
            None => category_of(request@) is None,
        },
{
    match request {
        Request::KeysState { category, .. } => Some(category),
        Request::KeysSelect { category, .. } => Some(category),
        Request::KeysBind { category, .. } => Some(category),
        Request::KeysUnbind { category, .. } => Some(category),
        Request::KeysReset { category, .. } => Some(category),
        Request::KeysSearch { category, .. } => Some(category),
        Request::KeysSetView { category, .. } => Some(category),
        Request::KeysRebind { category, .. } => Some(category),
        Request::KeysCapture { category, .. } => Some(category),
        Request::KeysAddCode { category, .. } => Some(category),
        Request::KeysSetArg { category, .. } => Some(category),
        Request::KeysPick { category, .. } => Some(category),
        Request::KeysPickCommit { category, .. } => Some(category),
        Request::KeysPickCancel { category, .. } => Some(category),
        Request::KeysScroll { category, .. } => Some(category),
        Request::KeysAddKeyDef { category, .. } => Some(category),
        _ => None,
    }
}

/// What a page of key settings is asked to do, if it is asked to do something.
pub open spec fn op_of(request: debug_server::RequestModel) -> Option<KeyOp<Txt>> {
    match request {
        Request::KeysSelect { index, .. } => Some(KeyOp::Select { index }),
        Request::KeysBind { command, chord, .. } => Some(KeyOp::Bind { command, chord }),
        Request::KeysUnbind { .. } => Some(KeyOp::Unbind),
        Request::KeysReset { .. } => Some(KeyOp::Reset),
        Request::KeysSearch { query, .. } => Some(KeyOp::Search { query }),
        Request::KeysSetView { by_key, .. } => Some(KeyOp::SetView { by_key }),
        Request::KeysRebind { chord, .. } => Some(KeyOp::Rebind { chord }),
        Request::KeysCapture { chord, .. } => Some(KeyOp::Capture { chord }),
        Request::KeysAddCode { code, .. } => Some(KeyOp::AddCode { code }),
        Request::KeysSetArg { arg, .. } => Some(KeyOp::SetArg { arg }),
        Request::KeysPick { label, .. } => Some(KeyOp::Pick { label }),
        Request::KeysPickCommit { .. } => Some(KeyOp::PickCommit),
        Request::KeysPickCancel { .. } => Some(KeyOp::PickCancel),
        Request::KeysScroll { top, .. } => Some(KeyOp::Scroll { top }),
        Request::KeysAddKeyDef { chord, .. } => Some(KeyOp::AddKeyDef { chord }),
        _ => None,
    }
}

/// What a page of key settings is asked to do, if it is asked to do something.
pub fn key_op(request: &Request) -> (op: Option<KeyOp>)
    ensures
        match op {
            Some(o) => op_of(request@) == Some(o@),
            None => op_of(request@) is None,
        },
{
    match request {
        Request::KeysSelect { index, .. } => Some(KeyOp::Select { index: *index }),
        Request::KeysBind { command, chord, .. } => Some(KeyOp::Bind { command: text::copy(command.as_str()), chord: text::copy(chord.as_str()) }),
        Request::KeysUnbind { .. } => Some(KeyOp::Unbind),
        Request::KeysReset { .. } => Some(KeyOp::Reset),
        Request::KeysSearch { query, .. } => Some(KeyOp::Search { query: text::copy(query.as_str()) }),
        Request::KeysSetView { by_key, .. } => Some(KeyOp::SetView { by_key: *by_key }),
        Request::KeysRebind { chord, .. } => Some(KeyOp::Rebind { chord: text::copy(chord.as_str()) }),
        Request::KeysCapture { chord, .. } => Some(KeyOp::Capture { chord: text::copy(chord.as_str()) }),
        Request::KeysAddCode { code, .. } => Some(KeyOp::AddCode { code: text::copy(code.as_str()) }),
        Request::KeysSetArg { arg, .. } => Some(KeyOp::SetArg { arg: text::copy(arg.as_str()) }),
        Request::KeysPick { label, .. } => Some(KeyOp::Pick { label: *label }),
        Request::KeysPickCommit { .. } => Some(KeyOp::PickCommit),
        Request::KeysPickCancel { .. } => Some(KeyOp::PickCancel),
        Request::KeysScroll { top, .. } => Some(KeyOp::Scroll { top: *top }),
        Request::KeysAddKeyDef { chord, .. } => Some(KeyOp::AddKeyDef { chord: text::copy(chord.as_str()) }),
        _ => None,
    }
}

/// What is done about a request for a page of key settings.
pub open spec fn keys_plan(
    request: debug_server::RequestModel,
    category: Txt,
    editors: Seq<(String, KeyEditorHooks)>,
) -> PlanModel {
    match debug_server::editor_at(editors, category, 0) {
        None => Plan::Answer(Response::NotFound),
        Some(i) => match op_of(request) {
            Some(op) => Plan::KeysOp { editor: i as usize, op },
            None => Plan::KeysState { editor: i as usize },
        },
    }
}

/// The place of the page of key settings of a category; of several, of the first.
fn editor_of(editors: &Vec<(String, KeyEditorHooks)>, category: &str) -> (at: Option<usize>)
    ensures
        match at {
            Some(i) => debug_server::editor_at(editors@, category@, 0) == Some(i as int),
            None => debug_server::editor_at(editors@, category@, 0) is None,
        },
{
    let mut i: usize = 0;
    while i < editors.len()
        invariant
            i <= editors.len(),
            debug_server::editor_at(editors@, category@, 0) == debug_server::editor_at(
                editors@,
                category@,
                i as int,
            ),
        decreases editors.len() - i,
    {
        if text::same(editors[i].0.as_str(), category) {
            return Some(i);
        }
        i += 1;
    }
    None
}

/// What is done about a request.
pub open spec fn planned(
    request: debug_server::RequestModel,
    facts: WindowFacts,
    registry: ModalRegistry,
) -> PlanModel {
    let top = if registry.stack@.len() > 0 {
        Some(registry.stack@.last())
    } else {
        None
    };
    match request {
        Request::State { pointer } => Plan::State { pointer },
        Request::Presentation { pointer } => Plan::Presentation { pointer },
        Request::Snapshot { spec } => Plan::Picture { spec },
        Request::Command { name, args } => dispatched(
            name,
            args,
            facts.command,
            facts.view,
            facts.active_right,
            facts.allow_write,
        ),
        Request::ScriptCommands => Plan::ListScripts,
        Request::ScriptInvoke { name } => Plan::InvokeScript { name },
        Request::ScriptEval { code } => Plan::EvalScript { code },
        Request::ScriptEvalValue { code } => Plan::EvalScriptValue { code },
        Request::SettingsNav { pane } => if registry.settings_nav is Some {
            Plan::SettingsNav { pane }
        } else {
            Plan::Answer(Response::NotFound)
        },
        Request::ModalKey { .. } | Request::ModalText { .. } | Request::ModalCommand { .. }
        | Request::ModalSelect { .. } | Request::ModalCheck | Request::ModalResize { .. } =>
            modal_plan(request, top, children_of(facts.children@)),
        Request::ViewKey { .. } | Request::ViewSearch { .. } | Request::ViewSearchKey { .. }
        | Request::ViewSearchOption { .. } | Request::ViewSearchHistory { .. }
        | Request::ViewSearchDropdown { .. } | Request::ViewSearchMnemonic { .. } => view_plan(
            request,
            facts.is_chord,
            facts.view,
        ),
        _ => match category_of(request) {
            Some(category) => keys_plan(request, category, registry.key_editors@),
            None => Plan::Answer(Response::NotFound),
        },
    }
}

/// What is done about a request.
pub fn plan(request: Request, facts: &WindowFacts, registry: &ModalRegistry) -> (plan: Plan)
    ensures
        plan@ == planned(request@, *facts, *registry),
{
    if let Some(category) = key_category(&request) {
        return match editor_of(&registry.key_editors, category.as_str()) {
            None => Plan::Answer(Response::NotFound),
            Some(editor) => match key_op(&request) {
                Some(op) => Plan::KeysOp { editor, op },
                None => Plan::KeysState { editor },
            },
        };
    }
    match request {
        Request::State { pointer } => Plan::State { pointer },
        Request::Presentation { pointer } => Plan::Presentation { pointer },
        Request::Snapshot { spec } => Plan::Picture { spec },
        Request::Command { name, args } => debug_dispatch_command(
            name,
            args,
            facts.command,
            facts.view,
            facts.active_right,
            facts.allow_write,
        ),
        Request::ScriptCommands => Plan::ListScripts,
        Request::ScriptInvoke { name } => Plan::InvokeScript { name },
        Request::ScriptEval { code } => Plan::EvalScript { code },
        Request::ScriptEvalValue { code } => Plan::EvalScriptValue { code },
        Request::SettingsNav { pane } => if registry.settings_nav.is_some() {
            Plan::SettingsNav { pane }
        } else {
            Plan::Answer(Response::NotFound)
        },
        Request::ModalKey { .. } | Request::ModalText { .. } | Request::ModalCommand { .. }
        | Request::ModalSelect { .. } | Request::ModalCheck | Request::ModalResize { .. } => {
            plan_modal(request, debug_server::with_top(registry), &facts.children)
        },
        Request::ViewKey { .. } | Request::ViewSearch { .. } | Request::ViewSearchKey { .. }
        | Request::ViewSearchOption { .. } | Request::ViewSearchHistory { .. }
        | Request::ViewSearchDropdown { .. } | Request::ViewSearchMnemonic { .. } => {
            plan_view(request, facts.is_chord, facts.view)
        },
        _ => Plan::Answer(Response::NotFound),
    }
}

/// What a list of texts is as JSON, if it can be told.
pub uninterp spec fn json_of_texts(texts: Seq<Seq<char>>) -> Option<Seq<char>>;

/// `serde_json::to_string` of a list of texts. What it writes depends on the list alone; where
/// it fails, nothing comes of it.
#[verifier::external_body]
fn texts_to_json(texts: &Vec<String>) -> (json: Option<String>)
    ensures
        json.deep_view() == json_of_texts(texts.deep_view()),
{
    serde_json::to_string(texts).ok()
}

/// The part of a JSON document that a pointer points to, as JSON, if there is one.
pub uninterp spec fn json_part(doc: Seq<char>, pointer: Seq<char>) -> Option<Seq<char>>;

/// `serde_json::Value::pointer` on a document that is given and given back as text: the part that
/// the pointer points to. It depends on the document and the pointer alone; where the text is no
/// document, or the pointer points nowhere, there is none.
#[verifier::external_body]
fn part_of_json(doc: &str, pointer: &str) -> (part: Option<String>)
    ensures
        part.deep_view() == json_part(doc@, pointer@),
{
    let value: serde_json::Value = serde_json::from_str(doc).ok()?;
    value.pointer(pointer).map(|part| part.to_string())
}

/// What is answered with the names of the commands of scripts, where `json` is what they are as
/// JSON: an empty list where that cannot be told.
pub fn names_answer(json: Option<String>) -> (response: Response)
    ensures
        response@ == Response::<Txt, Seq<u8>>::Json(
            match json {
                Some(list) => list@,
                None => "[]"@,
            },
        ),
{
    match json {
        Some(list) => Response::Json(list),
        None => Response::Json(text::copy("[]")),
    }
}

/// What is answered with the names of the commands of scripts.
pub fn answer_script_commands(names: &Vec<String>) -> (response: Response)
    ensures
        response@ == Response::<Txt, Seq<u8>>::Json(
            match json_of_texts(names.deep_view()) {
                Some(list) => list,
                None => "[]"@,
            },
        ),
{
    names_answer(texts_to_json(names))
}

/// What came of a plan that the window carried out.
#[derive(Clone, Debug, PartialEq, Eq)]
pub struct Outcome<S = String> {
    /// What went wrong, if anything did.
    pub error: Option<S>,
    /// There was what the plan is about: the button, the search option, the earlier text.
    pub found: bool,
    /// The document that the plan asks for, or asks for a part of, if there is one.
    pub document: Option<S>,
}

impl View for Outcome<String> {
    type V = Outcome<Txt>;

    open spec fn view(&self) -> Outcome<Txt> {
        Outcome {
            error: self.error.deep_view(),
            found: self.found,
            document: self.document.deep_view(),
        }
    }
}

/// What an error is said to be in.
pub open spec fn error_label(plan: PlanModel) -> Txt {
    match plan {
        Plan::RunThenAnswer { .. } => "exec"@,
        Plan::Navigate { .. } | Plan::CloseViewer | Plan::TextViewerKey { .. }
        | Plan::ImageViewerKey { .. } => "view key"@,
        Plan::SearchText { .. } => "view search"@,
        Plan::FindNext { .. } | Plan::ConfirmSearch | Plan::CancelSearch => "view search key"@,
        Plan::SearchOption { .. } => "view search option"@,
        Plan::SearchHistory { .. } => "view search history"@,
        Plan::SearchDropdown { .. } => "view search dropdown"@,
        Plan::SearchMnemonic { .. } => "view search mnemonic"@,
        _ => Seq::empty(),
    }
}

/// The part of a document that a pointer points to, if there is a document and it has one.
pub open spec fn part_at(document: Option<Txt>, pointer: Txt) -> Option<Txt> {
    match document {
        Some(doc) => json_part(doc, pointer),
        None => None,
    }
}

/// What is answered with the part of a document that a pointer points to.
pub fn answer_pointed(document: Option<String>, pointer: &str) -> (response: Response)
    ensures
        response@ == part_answer(part_at(document.deep_view(), pointer@)),
{
    match document {
        Some(doc) => answer_part(part_of_json(doc.as_str(), pointer)),
        None => answer_part(None),
    }
}

/// What is answered when a plan was carried out, where `state` is the state after that. A plan
/// that is answered before it is carried out is answered as it says; keys, texts and clicks that
/// a dialog was sent are answered with the state whatever the dialog does with them.
pub open spec fn answered(plan: PlanModel, outcome: Outcome<Txt>, state: Txt) ->
    debug_server::ResponseModel {
    match plan {
        Plan::Answer(response) => response,
        Plan::AnswerThenRun { answer, .. } => Response::Json(answer),
        Plan::State { pointer } => part_answer(part_at(outcome.document, pointer)),
        Plan::Presentation { pointer } => part_answer(part_at(outcome.document, pointer)),
        Plan::ListScripts | Plan::KeysState { .. } => part_answer(outcome.document),
        Plan::EvalScriptValue { .. } => match outcome.error {
            Some(why) => Response::Error(why),
            None => part_answer(outcome.document),
        },
        Plan::Press { .. } | Plan::SetText { .. } | Plan::Click { .. } | Plan::SelectRow { .. }
        | Plan::SelectItem { .. } => Response::Json(state),
        Plan::Push { id } => if outcome.found {
            Response::Json(state)
        } else {
            Response::BadRequest("button id "@ + text::decimal_text(id as nat) + " not found"@)
        },
        Plan::Resize { .. } => match outcome.error {
            Some(why) => Response::Error("resize failed: "@ + why),
            None => Response::Json(state),
        },
        Plan::InvokeScript { .. } | Plan::EvalScript { .. } | Plan::SettingsNav { .. } =>
            Response::Json("\"ok\""@),
        Plan::KeysOp { .. } => keys_answer(outcome.error),
        Plan::SearchOption { name, .. } => done_if_found(
            outcome.found,
            "unknown search option: "@ + name,
            error_label(plan),
            outcome.error,
            state,
        ),
        Plan::SearchHistory { index } => done_if_found(
            outcome.found,
            "no history at "@ + text::decimal_text(index as nat),
            error_label(plan),
            outcome.error,
            state,
        ),
        _ => done(error_label(plan), outcome.error, state),
    }
}

/// What is answered when a plan was carried out, where `state` is the state after that. A plan
/// for a picture is answered with the picture.
pub fn answer_plan(plan: Plan, outcome: Outcome, state: String) -> (response: Response)
    requires
        !(plan is Picture),
    ensures
        response@ == answered(plan@, outcome@, state@),
{
    match plan {
        Plan::Answer(response) => response,
        Plan::AnswerThenRun { answer, .. } => Response::Json(answer),
        Plan::State { pointer } => answer_pointed(outcome.document, pointer.as_str()),
        Plan::Presentation { pointer } => answer_pointed(outcome.document, pointer.as_str()),
        Plan::ListScripts | Plan::KeysState { .. } => answer_part(outcome.document),
        Plan::EvalScriptValue { .. } => match outcome.error {
            Some(why) => Response::Error(why),
            None => answer_part(outcome.document),
        },
        Plan::Press { .. } | Plan::SetText { .. } | Plan::Click { .. } | Plan::SelectRow { .. }
        | Plan::SelectItem { .. } => Response::Json(state),
        Plan::Push { id } => {
            if outcome.found {
                return Response::Json(state);
            }
            Response::BadRequest(
                text::concat3("button id ", text::decimal(id as u64).as_str(), " not found"),
            )
        },
        Plan::Resize { .. } => match outcome.error {
            Some(why) => Response::Error(text::concat("resize failed: ", why.as_str())),
            None => Response::Json(state),
        },
        Plan::InvokeScript { .. } | Plan::EvalScript { .. } | Plan::SettingsNav { .. } =>
            Response::Json(text::copy("\"ok\"")),
        Plan::KeysOp { .. } => answer_keys_op(outcome.error),
        Plan::SearchOption { name, .. } => answer_search_option(
            name.as_str(),
            outcome.found,
            outcome.error,
            state,
        ),
        Plan::SearchHistory { index } => answer_search_history(
            index,
            outcome.found,
            outcome.error,
            state,
        ),
        Plan::RunThenAnswer { .. } => answer_done("exec", outcome.error, state),
        Plan::Navigate { .. } | Plan::CloseViewer | Plan::TextViewerKey { .. }
        | Plan::ImageViewerKey { .. } => answer_done("view key", outcome.error, state),
        Plan::SearchText { .. } => answer_done("view search", outcome.error, state),
        Plan::FindNext { .. } | Plan::ConfirmSearch | Plan::CancelSearch => answer_done(
            "view search key",
            outcome.error,
            state,
        ),
        Plan::SearchDropdown { .. } => answer_done("view search dropdown", outcome.error, state),
        Plan::SearchMnemonic { .. } => answer_done("view search mnemonic", outcome.error, state),
        Plan::Picture { .. } => Response::NotFound,
    }
}

/// The oldest request that waits, which then waits no more.
pub fn drain_debug_requests(queue: &mut Vec<Request>) -> (request: Option<Request>)
    ensures
        match request {
            Some(r) => old(queue)@.len() > 0 && r == old(queue)@[0] && final(queue)@ == old(
                queue,
            )@.skip(1),
            None => old(queue)@.len() == 0 && final(queue)@ == old(queue)@,
        },
{
    if queue.len() == 0 {
        return None;
    }
    let first = queue.remove(0);
    assert(queue@ =~= old(queue)@.skip(1));
    Some(first)
}

/// Without leave to change files, no command that asks and changes files is run in a pane:
/// such a request is refused, whatever else holds.
pub proof fn law_no_writes_without_leave(
    name: Txt,
    args: Seq<Txt>,
    command: CommandFacts,
    view: ActiveView,
    active_right: bool,
)
    requires
        command.class == DebugCmdClass::ModalWrite,
    ensures
        match dispatched(name, args, Some(command), view, active_right, false) {
            Plan::AnswerThenRun { place, .. } => place == RunIn::TextViewer || place
                == RunIn::ImageViewer,
            Plan::Answer(Response::BadRequest(_)) => true,
            _ => false,
        },
{
}

/// What may open a dialog is answered before it is run: only a command that opens none is run
/// first.
pub proof fn law_dialogs_do_not_block_the_answer(
    name: Txt,
    args: Seq<Txt>,
    command: Option<CommandFacts>,
    view: ActiveView,
    active_right: bool,
    allow_write: bool,
)
    ensures
        dispatched(name, args, command, view, active_right, allow_write) is RunThenAnswer ==> (
        command matches Some(c) && c.class == DebugCmdClass::NonModal),
{
}

/// What is run is what was asked for: the command of the request, with the arguments of the request.
pub proof fn law_what_was_asked_for_is_run(
    name: Txt,
    args: Seq<Txt>,
    facts: WindowFacts,
    registry: ModalRegistry,
)
    ensures
        match planned(Request::Command { name, args }, facts, registry) {
            Plan::RunThenAnswer { name: n, args: a, .. } => n == name && a == args,
            Plan::AnswerThenRun { name: n, args: a, .. } => n == name && a == args,
            Plan::Answer(Response::BadRequest(_)) => true,
            _ => false,
        },
{
}

/// What the window does about a plan, one after the other.
#[derive(Clone, Copy, Debug, PartialEq, Eq, Structural)]
pub enum Move {
    /// Let pending work end.
    Settle,
    /// Do what the plan says, or read what it asks for.
    CarryOut,
    /// Let pending work end, unless what was done went wrong.
    SettleIfDone,
    /// Answer.
    Tell,
}

/// In what order a plan is carried out. What is told of the window is told once pending work has
/// ended; what may ask something is done when the answer is out.
pub open spec fn course_of(plan: PlanModel) -> Seq<Move> {
    match plan {
        Plan::Answer(_) => seq![Move::Tell],
        Plan::State { .. } | Plan::Presentation { .. } | Plan::Picture { .. } => seq![
            Move::Settle,
            Move::CarryOut,
            Move::Tell,
        ],
        Plan::RunThenAnswer { .. } => seq![Move::CarryOut, Move::SettleIfDone, Move::Tell],
        Plan::AnswerThenRun { .. } => seq![Move::Tell, Move::CarryOut],
        _ => seq![Move::CarryOut, Move::Tell],
    }
}

/// In what order a plan is carried out.
pub fn course(plan: &Plan) -> (moves: Vec<Move>)
    ensures
        moves@ == course_of(plan@),
{
    match plan {
        Plan::Answer(_) => vec![Move::Tell],
        Plan::State { .. } | Plan::Presentation { .. } | Plan::Picture { .. } => vec![
            Move::Settle,
            Move::CarryOut,
            Move::Tell,
        ],
        Plan::RunThenAnswer { .. } => vec![Move::CarryOut, Move::SettleIfDone, Move::Tell],
        Plan::AnswerThenRun { .. } => vec![Move::Tell, Move::CarryOut],
        _ => vec![Move::CarryOut, Move::Tell],
    }
}

/// Every request is answered exactly once. Pending work has ended before the state, the
/// presentation or a picture is read, and after a command was run and before its answer; a command
/// that may ask something is run only after its answer.
pub proof fn law_answers_come_in_time(plan: PlanModel)
    ensures
        exists|i: int|
            0 <= i < course_of(plan).len() && (#[trigger] course_of(plan)[i]) == Move::Tell
                && forall|j: int|
                0 <= j < course_of(plan).len() && (#[trigger] course_of(plan)[j]) == Move::Tell
                    ==> j == i,
        plan is State || plan is Presentation || plan is Picture ==> course_of(plan)[0]
            == Move::Settle,
        plan is RunThenAnswer ==> course_of(plan)[1] == Move::SettleIfDone && course_of(plan)[2]
            == Move::Tell,
        plan is AnswerThenRun ==> course_of(plan)[0] == Move::Tell && course_of(plan)[1]
            == Move::CarryOut,
{
    let course = course_of(plan);
    let at = if plan is Answer || plan is AnswerThenRun {
        0
    } else {
        course.len() - 1
    };
    assert(course[at] == Move::Tell);
}

/// No request for a dialog does anything while none is open.
pub proof fn law_no_dialog_no_action(request: debug_server::RequestModel, children: Seq<Child<Txt>>)
    requires
        request is ModalKey || request is ModalText || request is ModalCommand
            || request is ModalSelect || request is ModalCheck || request is ModalResize,
    ensures
        modal_plan(request, None, children) matches Plan::Answer(Response::BadRequest(_)),
{
}

/// The picture that the image viewer shows.
#[derive(Clone, Debug, PartialEq, Eq)]
pub struct MediaState {
    pub index: usize,
    pub total: usize,
    pub title: String,
    pub mode: String,
    pub scale_percent: i64,
}

/// A place where a text was found.
#[derive(Clone, Copy, Debug, PartialEq, Eq, Structural)]
pub struct MatchState {
    pub line: usize,
    pub col: usize,
    pub len: usize,
}

/// What the text viewer searches for.
#[derive(Clone, Debug, PartialEq, Eq)]
pub struct SearchState {
    pub search: String,
    pub search_open: bool,
    pub found: Option<MatchState>,
    pub match_count: usize,
    pub case_sensitive: bool,
    pub whole_word: bool,
    pub regex: bool,
    pub history: Vec<String>,
    pub list_open: bool,
}

/// The dialog on top.
#[derive(Clone, Debug, PartialEq, Eq)]
pub struct ModalState {
    pub kind: String,
    pub title: String,
    pub prompt: String,
    pub has_input: bool,
    pub input: Option<String>,
    pub items: Vec<String>,
    pub rows: Vec<Vec<String>>,
    pub headers: Vec<String>,
    pub selected: usize,
    pub buttons: Vec<(String, u16)>,
}

/// A tab: where its panes are, and which of them is active.
#[derive(Clone, Debug, PartialEq, Eq)]
pub struct TabState {
    pub left: String,
    pub right: String,
    pub active_right: bool,
}

/// A line of the log.
#[derive(Clone, Debug, PartialEq, Eq)]
pub struct LogLine {
    pub level: String,
    pub text: String,
}

/// The state of the window.
#[derive(Debug, PartialEq, Eq)]
pub struct StateValue {
    pub title: String,
    pub maximized: bool,
    pub active_pane: &'static str,
    pub active_view: &'static str,
    pub left: PaneState,
    pub right: PaneState,
    pub modal: Option<ModalState>,
    pub media: Option<MediaState>,
    pub viewer: Option<SearchState>,
    pub active_tab: usize,
    pub tab_labels: Vec<String>,
    pub tabs: Vec<TabState>,
    pub log: Vec<LogLine>,
}

/// How many lines of the log are told.
pub const LOG_TAIL: usize = 50;

/// The dialog on top, as it is now. `input` is what its first text field holds, `list_selected`
/// what is selected in its list, where it has one.
pub fn modal_state(entry: ModalEntry, input: Option<String>, list_selected: Option<usize>) -> (state:
    ModalState)
    ensures
        state.kind == entry.kind,
        state.title == entry.title,
        state.prompt == entry.prompt,
        state.has_input == entry.has_input,
        state.input == (if entry.has_input {
            input
        } else {
            None
        }),
        state.items == entry.items,
        state.buttons == entry.buttons,
        match entry.list_view {
            Some(hooks) => {
                &&& state.rows == hooks.rows
                &&& state.headers == hooks.headers
                &&& state.selected == hooks.selected
            },
            None => {
                &&& state.rows@.len() == 0
                &&& state.headers@.len() == 0
                &&& state.selected == (match list_selected {
                    Some(n) if entry.items@.len() > 0 => n,
                    _ => entry.selected,
                })
            },
        },
{
    let (rows, headers, selected) = match entry.list_view {
        Some(hooks) => (hooks.rows, hooks.headers, hooks.selected),
        None => {
            let selected: usize = match list_selected {
                Some(n) => if entry.items.len() > 0 {
                    n
                } else {
                    entry.selected
                },
                None => entry.selected,
            };
            (Vec::new(), Vec::new(), selected)
        },
    };
    ModalState {
        kind: entry.kind,
        title: entry.title,
        prompt: entry.prompt,
        has_input: entry.has_input,
        input: if entry.has_input {
            input
        } else {
            None
        },
        items: entry.items,
        rows,
        headers,
        selected,
        buttons: entry.buttons,
    }
}

/// The last lines of the log.
pub fn log_tail(log: Vec<LogLine>) -> (tail: Vec<LogLine>)
    ensures
        tail@ == (if log@.len() > LOG_TAIL {
            log@.skip(log@.len() - LOG_TAIL)
        } else {
            log@
        }),
{
    let mut log = log;
    if log.len() > LOG_TAIL {
        let from: usize = log.len() - LOG_TAIL;
        let tail = log.split_off(from);
        return tail;
    }
    log
}

/// The state of the window. Of the image viewer and of the text viewer only the one on top is
/// told.
pub fn debug_state_value(
    title: String,
    maximized: bool,
    active_right: bool,
    view: ActiveView,
    left: PaneState,
    right: PaneState,
    modal: Option<ModalState>,
    media: MediaState,
    viewer: SearchState,
    active_tab: usize,
    tab_labels: Vec<String>,
    tabs: Vec<TabState>,
    log: Vec<LogLine>,
) -> (state: StateValue)
    ensures
        state.title == title,
        state.maximized == maximized,
        state.active_pane == (if active_right {
            "right"
        } else {
            "left"
        }),
        state.active_view == (match view {
            ActiveView::NoView => "none",
            ActiveView::Text => "text",
            ActiveView::Media => "media",
        }),
        state.left == left,
        state.right == right,
        state.modal == modal,
        state.media == (if view == ActiveView::Media {
            Some(media)
        } else {
            None
        }),
        state.viewer == (if view == ActiveView::Text {
            Some(viewer)
        } else {
            None
        }),
        state.active_tab == active_tab,
        state.tab_labels == tab_labels,
        state.tabs == tabs,
        state.log@ == (if log@.len() > LOG_TAIL {
            log@.skip(log@.len() - LOG_TAIL)
        } else {
            log@
        }),
{
    let active_view = match view {
        ActiveView::NoView => "none",
        ActiveView::Text => "text",
        ActiveView::Media => "media",
    };
    StateValue {
        title,
        maximized,
        active_pane: if active_right {
            "right"
        } else {
            "left"
        },
        active_view,
        left,
        right,
        modal,
        media: if view == ActiveView::Media {
            Some(media)
        } else {
            None
        },
        viewer: if view == ActiveView::Text {
            Some(viewer)
        } else {
            None
        },
        active_tab,
        tab_labels,
        tabs,
        log: log_tail(log),
    }
}

} // verus!
