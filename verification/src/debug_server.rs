//! The requests that a development server answers, and the dialogs that it can look at.
//!
//! The server itself only reads requests and writes replies. What a request asks for, and
//! what is answered, is decided here.

use crate::text;
use vstd::prelude::*;

verus! {

/// A text in specifications.
pub type Txt = Seq<char>;

/// The port of the server where none is given.
pub const DEFAULT_PORT: u16 = 8731;

/// What is asked of the window.
#[derive(Clone, Debug, PartialEq, Eq)]
pub enum Request<S = String, A = Vec<String>> {
    /// The state of the window, or the part of it that `pointer` points to.
    State { pointer: S },
    /// Colours, fonts and measures, or the part of them that `pointer` points to.
    Presentation { pointer: S },
    /// Run a command on the active pane.
    Command { name: S, args: A },
    /// A key for the viewer on top.
    ViewKey { action: S },
    /// Search for a text in the viewer.
    ViewSearch { value: S },
    /// A key for the search bar.
    ViewSearchKey { key: S },
    /// Switch a search option.
    ViewSearchOption { name: S, on: bool },
    /// Search for an earlier text again.
    ViewSearchHistory { index: usize },
    /// Open or close the list of earlier texts.
    ViewSearchDropdown { open: bool },
    /// A mnemonic of the search bar.
    ViewSearchMnemonic { key: char },
    /// A picture of the window, or of a part of it.
    Snapshot { spec: S },
    /// A key for the dialog on top.
    ModalKey { key: S },
    /// A text for the input of the dialog on top.
    ModalText { value: S },
    /// A button of the dialog on top, by its role or label.
    ModalCommand { role: S },
    /// A row of the dialog on top.
    ModalSelect { index: usize },
    /// Toggle the check box of the dialog on top.
    ModalCheck,
    /// Another size for the dialog on top.
    ModalResize { width: i32, height: i32 },
    /// The names of the commands that scripts have registered.
    ScriptCommands,
    /// Run a command of a script.
    ScriptInvoke { name: S },
    /// Run code.
    ScriptEval { code: S },
    /// Run code, and say what it comes to.
    ScriptEvalValue { code: S },
    /// The state of a page of key settings.
    KeysState { category: S },
    /// A row of a page of key settings.
    KeysSelect { category: S, index: usize },
    /// Bind a chord to a command.
    KeysBind { category: S, command: S, chord: S },
    /// Unbind the command of the selected row.
    KeysUnbind { category: S },
    /// Back to the default keys.
    KeysReset { category: S },
    /// Show only the rows that match.
    KeysSearch { category: S, query: S },
    /// Order the rows by key, or by command.
    KeysSetView { category: S, by_key: bool },
    /// Move the selected row to another chord.
    KeysRebind { category: S, chord: S },
    /// Bind a chord to the selected row.
    KeysCapture { category: S, chord: S },
    /// Add a row that runs code.
    KeysAddCode { category: S, code: S },
    /// Give the selected command an argument.
    KeysSetArg { category: S, arg: S },
    /// Pick another command for the selected row.
    KeysPick { category: S, label: usize },
    /// Take the command that was picked.
    KeysPickCommit { category: S },
    /// Do not take a command.
    KeysPickCancel { category: S },
    /// Scroll a page of key settings.
    KeysScroll { category: S, top: i32 },
    /// Add a chord without a command.
    KeysAddKeyDef { category: S, chord: S },
    /// Go to a page of the settings.
    SettingsNav { pane: usize },
}

/// A request in specifications.
pub type RequestModel = Request<Txt, Seq<Txt>>;

impl View for Request<String, Vec<String>> {
    type V = RequestModel;

    open spec fn view(&self) -> RequestModel {
        match *self {
            Request::State { pointer } => Request::State { pointer: pointer@ },
            Request::Presentation { pointer } => Request::Presentation { pointer: pointer@ },
            Request::Command { name, args } => Request::Command { name: name@, args: args.deep_view() },
            Request::ViewKey { action } => Request::ViewKey { action: action@ },
            Request::ViewSearch { value } => Request::ViewSearch { value: value@ },
            Request::ViewSearchKey { key } => Request::ViewSearchKey { key: key@ },
            Request::ViewSearchOption { name, on } => Request::ViewSearchOption { name: name@, on },
            Request::ViewSearchHistory { index } => Request::ViewSearchHistory { index },
            Request::ViewSearchDropdown { open } => Request::ViewSearchDropdown { open },
            Request::ViewSearchMnemonic { key } => Request::ViewSearchMnemonic { key },
            Request::Snapshot { spec } => Request::Snapshot { spec: spec@ },
            Request::ModalKey { key } => Request::ModalKey { key: key@ },
            Request::ModalText { value } => Request::ModalText { value: value@ },
            Request::ModalCommand { role } => Request::ModalCommand { role: role@ },
            Request::ModalSelect { index } => Request::ModalSelect { index },
            Request::ModalCheck => Request::ModalCheck,
            Request::ModalResize { width, height } => Request::ModalResize { width, height },
            Request::ScriptCommands => Request::ScriptCommands,
            Request::ScriptInvoke { name } => Request::ScriptInvoke { name: name@ },
            Request::ScriptEval { code } => Request::ScriptEval { code: code@ },
            Request::ScriptEvalValue { code } => Request::ScriptEvalValue { code: code@ },
            Request::KeysState { category } => Request::KeysState { category: category@ },
            Request::KeysSelect { category, index } => Request::KeysSelect { category: category@, index },
            Request::KeysBind { category, command, chord } => Request::KeysBind { category: category@, command: command@, chord: chord@ },
            Request::KeysUnbind { category } => Request::KeysUnbind { category: category@ },
            Request::KeysReset { category } => Request::KeysReset { category: category@ },
            Request::KeysSearch { category, query } => Request::KeysSearch { category: category@, query: query@ },
            Request::KeysSetView { category, by_key } => Request::KeysSetView { category: category@, by_key },
            Request::KeysRebind { category, chord } => Request::KeysRebind { category: category@, chord: chord@ },
            Request::KeysCapture { category, chord } => Request::KeysCapture { category: category@, chord: chord@ },
            Request::KeysAddCode { category, code } => Request::KeysAddCode { category: category@, code: code@ },
            Request::KeysSetArg { category, arg } => Request::KeysSetArg { category: category@, arg: arg@ },
            Request::KeysPick { category, label } => Request::KeysPick { category: category@, label },
            Request::KeysPickCommit { category } => Request::KeysPickCommit { category: category@ },
            Request::KeysPickCancel { category } => Request::KeysPickCancel { category: category@ },
            Request::KeysScroll { category, top } => Request::KeysScroll { category: category@, top },
            Request::KeysAddKeyDef { category, chord } => Request::KeysAddKeyDef { category: category@, chord: chord@ },
            Request::SettingsNav { pane } => Request::SettingsNav { pane },
        }
    }
}

/// What becomes of a request.
#[derive(Clone, Debug, PartialEq, Eq)]
pub enum Route<S = String, A = Vec<String>> {
    /// It is handed to the window.
    Accepted(Request<S, A>),
    /// There is no such thing to ask for.
    NotFound,
    /// It is malformed, and why.
    Refused(S),
}

/// What becomes of a request, in specifications.
pub type RouteModel = Route<Txt, Seq<Txt>>;

impl View for Route<String, Vec<String>> {
    type V = RouteModel;

    open spec fn view(&self) -> RouteModel {
        match *self {
            Route::Accepted(request) => Route::Accepted(request@),
            Route::NotFound => Route::NotFound,
            Route::Refused(reason) => Route::Refused(reason@),
        }
    }
}

/// How a request came in.
#[derive(Clone, Copy, Debug, PartialEq, Eq, Structural)]
pub enum Method {
    Get,
    Post,
    Other,
}

/// A JSON document, as far as it is a list of texts.
#[derive(Clone, Debug, PartialEq, Eq)]
pub enum JsonList<S = String, L = Vec<Option<String>>> {
    /// No JSON, and why.
    Invalid(S),
    /// JSON, but no list.
    Other,
    /// A list; what is no text in it is nothing.
    Items(L),
}

/// A JSON document in specifications.
pub type JsonListModel = JsonList<Txt, Seq<Option<Txt>>>;

impl View for JsonList<String, Vec<Option<String>>> {
    type V = JsonListModel;

    open spec fn view(&self) -> JsonListModel {
        match *self {
            JsonList::Invalid(reason) => JsonList::Invalid(reason@),
            JsonList::Other => JsonList::Other,
            JsonList::Items(items) => JsonList::Items(items.deep_view()),
        }
    }
}

/// What a text is as JSON.
pub uninterp spec fn json_list(body: Seq<char>) -> JsonListModel;

/// `serde_json::from_str`, of which only the shape of the value is kept: whether it is JSON,
/// whether it is an array, and the elements of the array that are strings. It depends on the
/// text alone.
#[verifier::external_body]
fn parse_json_list(body: &str) -> (list: JsonList)
    ensures
        list@ == json_list(body@),
{
    match serde_json::from_str::<serde_json::Value>(body) {
        Err(e) => JsonList::Invalid(e.to_string()),
        Ok(serde_json::Value::Array(items)) => JsonList::Items(
            items.iter().map(|v| v.as_str().map(|s| s.to_owned())).collect(),
        ),
        Ok(_) => JsonList::Other,
    }
}

/// Why a body is refused that is no list of texts.
pub const NOT_A_LIST: &'static str = "command body must be a JSON array of strings";

/// Why a list is refused in which something is no text.
pub const NOT_ALL_TEXT: &'static str = "command args must all be strings";

/// Why the body of a binding is refused.
pub const NOT_A_BINDING: &'static str = "bind body must be [\"Command\",\"Chord\"]";

/// The texts of a list in which everything is a text.
pub open spec fn texts_of(items: Seq<Option<Txt>>) -> Seq<Txt> {
    items.map_values(|item: Option<Txt>| item->0)
}

/// The arguments that a JSON document gives, or why it gives none.
pub open spec fn args_given(list: JsonListModel) -> Result<Seq<Txt>, Txt> {
    match list {
        JsonList::Invalid(reason) => Err(NOT_A_LIST@ + ": "@ + reason),
        JsonList::Other => Err(NOT_A_LIST@),
        JsonList::Items(items) => if forall|i: int| 0 <= i < items.len() ==> items[i] is Some {
            Ok(texts_of(items))
        } else {
            Err(NOT_ALL_TEXT@)
        },
    }
}

/// The arguments that a JSON document gives, or why it gives none.
pub fn list_args(list: JsonList) -> (args: Result<Vec<String>, String>)
    ensures
        match args {
            Ok(a) => args_given(list@) == Ok::<Seq<Txt>, Txt>(a.deep_view()),
            Err(e) => args_given(list@) == Err::<Seq<Txt>, Txt>(e@),
        },
{
    match list {
        JsonList::Invalid(reason) => {
            let mut why = text::concat(NOT_A_LIST, ": ");
            why.append(reason.as_str());
            Err(why)
        },
        JsonList::Other => Err(text::copy(NOT_A_LIST)),
        JsonList::Items(items) => {
            let ghost all = items.deep_view();
            let mut args: Vec<String> = Vec::new();
            let mut i: usize = 0;
            assert(args.deep_view() =~= texts_of(all.take(0)));
            while i < items.len()
                invariant
                    i <= items.len(),
                    all == items.deep_view(),
                    list@ == JsonList::<Txt, Seq<Option<Txt>>>::Items(all),
                    forall|j: int| 0 <= j < i ==> all[j] is Some,
                    args.deep_view() == texts_of(all.take(i as int)),
                decreases items.len() - i,
            {
                assert(all[i as int] == items@[i as int].deep_view());
                match &items[i] {
                    Some(s) => {
                        let ghost before = args.deep_view();
                        let arg = text::copy(s.as_str());
                        args.push(arg);
                        assert(args.deep_view() =~= before.push(arg@));
                        assert(all.take(i + 1) =~= all.take(i as int).push(all[i as int]));
                        assert(texts_of(all.take(i + 1)) =~= texts_of(all.take(i as int)).push(
                            arg@,
                        ));
                    },
                    None => {
                        assert(!(all[i as int] is Some));
                        return Err(text::copy(NOT_ALL_TEXT));
                    },
                }
                i += 1;
            }
            assert(all.take(all.len() as int) =~= all);
            Ok(args)
        },
    }
}

/// The arguments that a body gives: none where it is blank, else those of the JSON list that
/// it is.
pub open spec fn body_args(body: Txt) -> Result<Seq<Txt>, Txt> {
    if text::trimmed(body).len() == 0 {
        Ok(Seq::empty())
    } else {
        args_given(json_list(body))
    }
}

/// The arguments that `body` gives, or why it gives none.
pub fn parse_command_args(body: &str) -> (args: Result<Vec<String>, String>)
    ensures
        match args {
            Ok(a) => body_args(body@) == Ok::<Seq<Txt>, Txt>(a.deep_view()),
            Err(e) => body_args(body@) == Err::<Seq<Txt>, Txt>(e@),
        },
{
    if text::trim(body).as_str().is_empty() {
        let none: Vec<String> = Vec::new();
        assert(none.deep_view() =~= Seq::<Txt>::empty());
        return Ok(none);
    }
    list_args(parse_json_list(body))
}

/// A part of a path without the slashes at its end.
pub open spec fn bare(s: Txt) -> Txt {
    text::trimmed_end(s, '/')
}

/// What a reading request asks for.
pub open spec fn get_route(path: Txt) -> RouteModel {
    if path == "/state"@ {
        Route::Accepted(Request::State { pointer: Seq::empty() })
    } else if let Some(rest) = text::stripped(path, "/state/"@) {
        Route::Accepted(Request::State { pointer: "/"@ + bare(rest) })
    } else if path == "/presentation"@ {
        Route::Accepted(Request::Presentation { pointer: Seq::empty() })
    } else if let Some(rest) = text::stripped(path, "/presentation/"@) {
        Route::Accepted(Request::Presentation { pointer: "/"@ + bare(rest) })
    } else if path == "/snapshot"@ || path == "/snapshot.png"@ {
        Route::Accepted(Request::Snapshot { spec: Seq::empty() })
    } else if let Some(rest) = text::stripped(path, "/snapshot/"@) {
        Route::Accepted(Request::Snapshot { spec: text::without_suffixes(bare(rest), ".png"@) })
    } else if path == "/script/commands"@ {
        Route::Accepted(Request::ScriptCommands)
    } else if let Some(category) = text::stripped(path, "/keys/"@) {
        Route::Accepted(Request::KeysState { category: bare(category) })
    } else {
        Route::NotFound
    }
}

/// What a reading request asks for.
fn route_get(path: &str) -> (route: Route)
    ensures
        route@ == get_route(path@),
{
    if text::same(path, "/state") {
        return Route::Accepted(Request::State { pointer: String::new() });
    }
    if let Some(rest) = text::strip_prefix(path, "/state/") {
        let pointer = text::concat("/", text::trim_end_char(rest.as_str(), '/').as_str());
        return Route::Accepted(Request::State { pointer });
    }
    if text::same(path, "/presentation") {
        return Route::Accepted(Request::Presentation { pointer: String::new() });
    }
    if let Some(rest) = text::strip_prefix(path, "/presentation/") {
        let pointer = text::concat("/", text::trim_end_char(rest.as_str(), '/').as_str());
        return Route::Accepted(Request::Presentation { pointer });
    }
    if text::same(path, "/snapshot") || text::same(path, "/snapshot.png") {
        return Route::Accepted(Request::Snapshot { spec: String::new() });
    }
    if let Some(rest) = text::strip_prefix(path, "/snapshot/") {
        let spec = text::trim_end_str(text::trim_end_char(rest.as_str(), '/').as_str(), ".png");
        return Route::Accepted(Request::Snapshot { spec });
    }
    if text::same(path, "/script/commands") {
        return Route::Accepted(Request::ScriptCommands);
    }
    match text::strip_prefix(path, "/keys/") {
        Some(category) => {
            let category = text::trim_end_char(category.as_str(), '/');
            Route::Accepted(Request::KeysState { category })
        },
        None => Route::NotFound,
    }
}

/// What a request for a page of key settings asks for.
pub open spec fn keys_route(rest: Txt, body: Txt) -> RouteModel {
    if let Some((category, index)) = text::split_at_last(rest, "/select/"@) {
        match text::usize_value(index) {
            Some(index) => Route::Accepted(Request::KeysSelect { category, index }),
            None => Route::NotFound,
        }
    } else if let Some(category) = text::unsuffixed(rest, "/pickcommit"@) {
        Route::Accepted(Request::KeysPickCommit { category })
    } else if let Some(category) = text::unsuffixed(rest, "/pickcancel"@) {
        Route::Accepted(Request::KeysPickCancel { category })
    } else if let Some((category, label)) = text::split_at_last(rest, "/pick/"@) {
        match text::usize_value(label) {
            Some(label) => Route::Accepted(Request::KeysPick { category, label }),
            None => Route::NotFound,
        }
    } else if let Some((category, top)) = text::split_at_last(rest, "/scroll/"@) {
        match text::i32_value(top) {
            Some(top) => Route::Accepted(Request::KeysScroll { category, top }),
            None => Route::NotFound,
        }
    } else if let Some(category) = text::unsuffixed(rest, "/addkeydef"@) {
        Route::Accepted(Request::KeysAddKeyDef { category, chord: text::trimmed(body) })
    } else if let Some(category) = text::unsuffixed(rest, "/bind"@) {
        match body_args(body) {
            Ok(args) => if args.len() == 2 {
                Route::Accepted(Request::KeysBind { category, command: args[0], chord: args[1] })
            } else {
                Route::Refused(NOT_A_BINDING@)
            },
            Err(why) => Route::Refused(why),
        }
    } else if let Some(category) = text::unsuffixed(rest, "/unbind"@) {
        Route::Accepted(Request::KeysUnbind { category })
    } else if let Some(category) = text::unsuffixed(rest, "/search"@) {
        Route::Accepted(Request::KeysSearch { category, query: body })
    } else if let Some(category) = text::unsuffixed(rest, "/rebind"@) {
        Route::Accepted(Request::KeysRebind { category, chord: text::trimmed(body) })
    } else if let Some(category) = text::unsuffixed(rest, "/capture"@) {
        Route::Accepted(Request::KeysCapture { category, chord: text::trimmed(body) })
    } else if let Some(category) = text::unsuffixed(rest, "/code"@) {
        Route::Accepted(Request::KeysAddCode { category, code: body })
    } else if let Some(category) = text::unsuffixed(rest, "/arg"@) {
        Route::Accepted(Request::KeysSetArg { category, arg: body })
    } else if let Some(category) = text::unsuffixed(rest, "/view"@) {
        Route::Accepted(
            Request::KeysSetView { category, by_key: text::trimmed(body) == "key"@ },
        )
    } else if let Some(category) = text::unsuffixed(rest, "/reset"@) {
        Route::Accepted(Request::KeysReset { category })
    } else {
        Route::NotFound
    }
}

/// What a request with an index or a binding for a page of key settings asks for.
fn route_keys(rest: &str, body: &str) -> (route: Route)
    ensures
        route@ == keys_route(rest@, body@),
{
    if let Some((category, index)) = text::rsplit_once(rest, "/select/") {
        return match text::parse_usize(index.as_str()) {
            Some(index) => Route::Accepted(Request::KeysSelect { category, index }),
            None => Route::NotFound,
        };
    }
    if let Some(category) = text::strip_suffix(rest, "/pickcommit") {
        return Route::Accepted(Request::KeysPickCommit { category });
    }
    if let Some(category) = text::strip_suffix(rest, "/pickcancel") {
        return Route::Accepted(Request::KeysPickCancel { category });
    }
    if let Some((category, label)) = text::rsplit_once(rest, "/pick/") {
        return match text::parse_usize(label.as_str()) {
            Some(label) => Route::Accepted(Request::KeysPick { category, label }),
            None => Route::NotFound,
        };
    }
    if let Some((category, top)) = text::rsplit_once(rest, "/scroll/") {
        return match text::parse_i32(top.as_str()) {
            Some(top) => Route::Accepted(Request::KeysScroll { category, top }),
            None => Route::NotFound,
        };
    }
    if let Some(category) = text::strip_suffix(rest, "/addkeydef") {
        return Route::Accepted(Request::KeysAddKeyDef { category, chord: text::trim(body) });
    }
    if let Some(category) = text::strip_suffix(rest, "/bind") {
        return match parse_command_args(body) {
            Ok(args) => {
                assert(args.deep_view().len() == args.len());
                if args.len() == 2 {
                    let command = text::copy(args[0].as_str());
                    let chord = text::copy(args[1].as_str());
                    Route::Accepted(Request::KeysBind { category, command, chord })
                } else {
                    Route::Refused(text::copy(NOT_A_BINDING))
                }
            },
            Err(why) => Route::Refused(why),
        };
    }
    if let Some(category) = text::strip_suffix(rest, "/unbind") {
        return Route::Accepted(Request::KeysUnbind { category });
    }
    if let Some(category) = text::strip_suffix(rest, "/search") {
        return Route::Accepted(Request::KeysSearch { category, query: text::copy(body) });
    }
    if let Some(category) = text::strip_suffix(rest, "/rebind") {
        return Route::Accepted(Request::KeysRebind { category, chord: text::trim(body) });
    }
    if let Some(category) = text::strip_suffix(rest, "/capture") {
        return Route::Accepted(Request::KeysCapture { category, chord: text::trim(body) });
    }
    if let Some(category) = text::strip_suffix(rest, "/code") {
        return Route::Accepted(Request::KeysAddCode { category, code: text::copy(body) });
    }
    if let Some(category) = text::strip_suffix(rest, "/arg") {
        return Route::Accepted(Request::KeysSetArg { category, arg: text::copy(body) });
    }
    if let Some(category) = text::strip_suffix(rest, "/view") {
        let by_key = text::same(text::trim(body).as_str(), "key");
        return Route::Accepted(Request::KeysSetView { category, by_key });
    }
    match text::strip_suffix(rest, "/reset") {
        Some(category) => Route::Accepted(Request::KeysReset { category }),
        None => Route::NotFound,
    }
}

/// What a request for the viewer asks for; nothing where it is none.
pub open spec fn view_route(path: Txt, body: Txt) -> Option<RouteModel> {
    if let Some(index) = text::stripped(path, "/view/search/history/"@) {
        Some(
            match text::usize_value(bare(index)) {
                Some(index) => Route::Accepted(Request::ViewSearchHistory { index }),
                None => Route::NotFound,
            },
        )
    } else if let Some(word) = text::stripped(path, "/view/search/dropdown/"@) {
        Some(
            Route::Accepted(
                Request::ViewSearchDropdown {
                    open: text::ascii_lowered(bare(word)) == text::ascii_lowered("open"@),
                },
            ),
        )
    } else if let Some(word) = text::stripped(path, "/view/search/mnemonic/"@) {
        Some(
            if bare(word).len() > 0 {
                Route::Accepted(Request::ViewSearchMnemonic { key: bare(word)[0] })
            } else {
                Route::NotFound
            },
        )
    } else if let Some(rest) = text::stripped(path, "/view/search/option/"@) {
        Some(
            match text::split_at_last(bare(rest), "/"@) {
                Some((name, value)) => Route::Accepted(
                    Request::ViewSearchOption {
                        name,
                        on: text::ascii_lowered(value) == text::ascii_lowered("on"@),
                    },
                ),
                None => Route::NotFound,
            },
        )
    } else if let Some(key) = text::stripped(path, "/view/search/key/"@) {
        Some(Route::Accepted(Request::ViewSearchKey { key: bare(key) }))
    } else if path == "/view/search"@ {
        Some(Route::Accepted(Request::ViewSearch { value: body }))
    } else if let Some(action) = text::stripped(path, "/view/key/"@) {
        Some(Route::Accepted(Request::ViewKey { action: bare(action) }))
    } else {
        None
    }
}

/// What a request for the viewer asks for; nothing where it is none.
fn route_view(path: &str, body: &str) -> (route: Option<Route>)
    ensures
        match route {
            Some(r) => view_route(path@, body@) == Some(r@),
            None => view_route(path@, body@) is None,
        },
{
    if let Some(index) = text::strip_prefix(path, "/view/search/history/") {
        let index = text::trim_end_char(index.as_str(), '/');
        return Some(
            match text::parse_usize(index.as_str()) {
                Some(index) => Route::Accepted(Request::ViewSearchHistory { index }),
                None => Route::NotFound,
            },
        );
    }
    if let Some(word) = text::strip_prefix(path, "/view/search/dropdown/") {
        let word = text::trim_end_char(word.as_str(), '/');
        let open = text::same_ignoring_case(word.as_str(), "open");
        return Some(Route::Accepted(Request::ViewSearchDropdown { open }));
    }
    if let Some(word) = text::strip_prefix(path, "/view/search/mnemonic/") {
        let chars = text::to_chars(text::trim_end_char(word.as_str(), '/').as_str());
        return Some(
            if chars.len() > 0 {
                Route::Accepted(Request::ViewSearchMnemonic { key: chars[0] })
            } else {
                Route::NotFound
            },
        );
    }
    if let Some(rest) = text::strip_prefix(path, "/view/search/option/") {
        let rest = text::trim_end_char(rest.as_str(), '/');
        return Some(
            match text::rsplit_once(rest.as_str(), "/") {
                Some((name, value)) => {
                    let on = text::same_ignoring_case(value.as_str(), "on");
                    Route::Accepted(Request::ViewSearchOption { name, on })
                },
                None => Route::NotFound,
            },
        );
    }
    if let Some(key) = text::strip_prefix(path, "/view/search/key/") {
        let key = text::trim_end_char(key.as_str(), '/');
        return Some(Route::Accepted(Request::ViewSearchKey { key }));
    }
    if text::same(path, "/view/search") {
        return Some(Route::Accepted(Request::ViewSearch { value: text::copy(body) }));
    }
    match text::strip_prefix(path, "/view/key/") {
        Some(action) => {
            let action = text::trim_end_char(action.as_str(), '/');
            Some(Route::Accepted(Request::ViewKey { action }))
        },
        None => None,
    }
}

/// What a request for the dialog on top asks for; nothing where it is none.
pub open spec fn modal_route(path: Txt, body: Txt) -> Option<RouteModel> {
    if let Some(key) = text::stripped(path, "/modal/key/"@) {
        Some(Route::Accepted(Request::ModalKey { key: bare(key) }))
    } else if let Some(role) = text::stripped(path, "/modal/command/"@) {
        Some(Route::Accepted(Request::ModalCommand { role: bare(role) }))
    } else if let Some(index) = text::stripped(path, "/modal/select/"@) {
        Some(
            match text::usize_value(bare(index)) {
                Some(index) => Route::Accepted(Request::ModalSelect { index }),
                None => Route::NotFound,
            },
        )
    } else if path == "/modal/text"@ {
        Some(Route::Accepted(Request::ModalText { value: body }))
    } else if path == "/modal/check"@ {
        Some(Route::Accepted(Request::ModalCheck))
    } else if let Some(size) = text::stripped(path, "/modal/resize/"@) {
        Some(
            match text::split_at_first(bare(size), 'x') {
                Some((w, h)) => match (text::i32_value(w), text::i32_value(h)) {
                    (Some(width), Some(height)) => Route::Accepted(
                        Request::ModalResize { width, height },
                    ),
                    _ => Route::NotFound,
                },
                None => Route::NotFound,
            },
        )
    } else {
        None
    }
}

/// What a request for the dialog on top asks for; nothing where it is none.
fn route_modal(path: &str, body: &str) -> (route: Option<Route>)
    ensures
        match route {
            Some(r) => modal_route(path@, body@) == Some(r@),
            None => modal_route(path@, body@) is None,
        },
{
    if let Some(key) = text::strip_prefix(path, "/modal/key/") {
        let key = text::trim_end_char(key.as_str(), '/');
        return Some(Route::Accepted(Request::ModalKey { key }));
    }
    if let Some(role) = text::strip_prefix(path, "/modal/command/") {
        let role = text::trim_end_char(role.as_str(), '/');
        return Some(Route::Accepted(Request::ModalCommand { role }));
    }
    if let Some(index) = text::strip_prefix(path, "/modal/select/") {
        let index = text::trim_end_char(index.as_str(), '/');
        return Some(
            match text::parse_usize(index.as_str()) {
                Some(index) => Route::Accepted(Request::ModalSelect { index }),
                None => Route::NotFound,
            },
        );
    }
    if text::same(path, "/modal/text") {
        return Some(Route::Accepted(Request::ModalText { value: text::copy(body) }));
    }
    if text::same(path, "/modal/check") {
        return Some(Route::Accepted(Request::ModalCheck));
    }
    match text::strip_prefix(path, "/modal/resize/") {
        Some(size) => {
            let size = text::trim_end_char(size.as_str(), '/');
            Some(
                match text::split_once(size.as_str(), 'x') {
                    Some((w, h)) => match (
                        text::parse_i32(w.as_str()),
                        text::parse_i32(h.as_str()),
                    ) {
                        (Some(width), Some(height)) => Route::Accepted(
                            Request::ModalResize { width, height },
                        ),
                        _ => Route::NotFound,
                    },
                    None => Route::NotFound,
                },
            )
        },
        None => None,
    }
}

/// What a changing request asks for.
pub open spec fn post_route(path: Txt, body: Txt) -> RouteModel {
    if let Some(name) = text::stripped(path, "/command/"@) {
        match body_args(body) {
            Ok(args) => Route::Accepted(Request::Command { name: bare(name), args }),
            Err(why) => Route::Refused(why),
        }
    } else if let Some(route) = view_route(path, body) {
        route
    } else if let Some(route) = modal_route(path, body) {
        route
    } else if let Some(name) = text::stripped(path, "/script/invoke/"@) {
        Route::Accepted(Request::ScriptInvoke { name: bare(name) })
    } else if path == "/script/eval"@ {
        Route::Accepted(Request::ScriptEval { code: body })
    } else if path == "/script/eval-value"@ {
        Route::Accepted(Request::ScriptEvalValue { code: body })
    } else if let Some(rest) = text::stripped(path, "/keys/"@) {
        keys_route(bare(rest), body)
    } else if let Some(pane) = text::stripped(path, "/settings/nav/"@) {
        match text::usize_value(bare(pane)) {
            Some(pane) => Route::Accepted(Request::SettingsNav { pane }),
            None => Route::NotFound,
        }
    } else {
        Route::NotFound
    }
}

/// What a changing request asks for.
fn route_post(path: &str, body: &str) -> (route: Route)
    ensures
        route@ == post_route(path@, body@),
{
    if let Some(name) = text::strip_prefix(path, "/command/") {
        return match parse_command_args(body) {
            Ok(args) => {
                let name = text::trim_end_char(name.as_str(), '/');
                Route::Accepted(Request::Command { name, args })
            },
            Err(why) => Route::Refused(why),
        };
    }
    if let Some(route) = route_view(path, body) {
        return route;
    }
    if let Some(route) = route_modal(path, body) {
        return route;
    }
    if let Some(name) = text::strip_prefix(path, "/script/invoke/") {
        let name = text::trim_end_char(name.as_str(), '/');
        return Route::Accepted(Request::ScriptInvoke { name });
    }
    if text::same(path, "/script/eval") {
        return Route::Accepted(Request::ScriptEval { code: text::copy(body) });
    }
    if text::same(path, "/script/eval-value") {
        return Route::Accepted(Request::ScriptEvalValue { code: text::copy(body) });
    }
    if let Some(rest) = text::strip_prefix(path, "/keys/") {
        return route_keys(text::trim_end_char(rest.as_str(), '/').as_str(), body);
    }
    match text::strip_prefix(path, "/settings/nav/") {
        Some(pane) => {
            let pane = text::trim_end_char(pane.as_str(), '/');
            match text::parse_usize(pane.as_str()) {
                Some(pane) => Route::Accepted(Request::SettingsNav { pane }),
                None => Route::NotFound,
            }
        },
        None => Route::NotFound,
    }
}

/// What becomes of a request: the path is read up to a question mark.
pub open spec fn routed(method: Method, url: Txt, body: Txt) -> RouteModel {
    match method {
        Method::Get => get_route(text::up_to_first(url, '?')),
        Method::Post => post_route(text::up_to_first(url, '?'), body),
        Method::Other => Route::NotFound,
    }
}

/// What becomes of a request.
pub fn handle(method: Method, url: &str, body: &str) -> (route: Route)
    ensures
        route@ == routed(method, url@, body@),
{
    let path = text::before_first(url, '?');
    match method {
        Method::Get => route_get(path.as_str()),
        Method::Post => route_post(path.as_str(), body),
        Method::Other => Route::NotFound,
    }
}

/// What the window answers.
#[derive(Clone, Debug, PartialEq, Eq)]
pub enum Response<S = String, B = Vec<u8>> {
    Json(S),
    /// A picture.
    Png(B),
    /// There is nothing where the pointer points.
    NotFound,
    /// The request makes no sense.
    BadRequest(S),
    /// Something went wrong.
    Error(S),
}

/// What the window answers, in specifications.
pub type ResponseModel = Response<Txt, Seq<u8>>;

impl View for Response<String, Vec<u8>> {
    type V = ResponseModel;

    open spec fn view(&self) -> ResponseModel {
        match *self {
            Response::Json(s) => Response::Json(s@),
            Response::Png(bytes) => Response::Png(bytes@),
            Response::NotFound => Response::NotFound,
            Response::BadRequest(why) => Response::BadRequest(why@),
            Response::Error(why) => Response::Error(why@),
        }
    }
}

/// What is written back.
#[derive(Clone, Debug, PartialEq, Eq)]
pub enum Content {
    Text(String),
    Json(String),
    Png(Vec<u8>),
}

/// The status that a response has.
pub open spec fn status_of(response: Option<Response>) -> u16 {
    match response {
        Some(Response::Json(_)) | Some(Response::Png(_)) => 200,
        Some(Response::NotFound) => 404,
        Some(Response::BadRequest(_)) => 400,
        Some(Response::Error(_)) => 500,
        None => 503,
    }
}

/// What is written back for a response of the window, or where the window is gone.
pub fn write_back(response: Option<Response>) -> (reply: (u16, Content))
    ensures
        reply.0 == status_of(response),
        match response {
            Some(Response::Json(s)) => reply.1 == Content::Json(s),
            Some(Response::Png(bytes)) => reply.1 == Content::Png(bytes),
            Some(Response::NotFound) => reply.1 matches Content::Text(s) && s@
                == "no such path in state"@,
            Some(Response::BadRequest(why)) => reply.1 == Content::Text(why),
            Some(Response::Error(why)) => reply.1 == Content::Text(why),
            None => reply.1 matches Content::Text(s) && s@ == "ui gone"@,
        },
{
    match response {
        Some(Response::Json(s)) => (200, Content::Json(s)),
        Some(Response::Png(bytes)) => (200, Content::Png(bytes)),
        Some(Response::NotFound) => (404, Content::Text(text::copy("no such path in state"))),
        Some(Response::BadRequest(why)) => (400, Content::Text(why)),
        Some(Response::Error(why)) => (500, Content::Text(why)),
        None => (503, Content::Text(text::copy("ui gone"))),
    }
}

/// What is written back for a request that does not reach the window.
pub fn write_refusal(route: Route) -> (reply: Option<(u16, Content)>)
    ensures
        match route {
            Route::Accepted(_) => reply is None,
            Route::NotFound => reply matches Some((status, Content::Text(s))) && status == 404
                && s@ == "not found"@,
            Route::Refused(why) => reply == Some((400u16, Content::Text(why))),
        },
{
    match route {
        Route::Accepted(_) => None,
        Route::NotFound => Some((404, Content::Text(text::copy("not found")))),
        Route::Refused(why) => Some((400, Content::Text(why))),
    }
}

/// The port that an argument asks for, if it asks for one. A port that is no number stands
/// for the default.
pub open spec fn port_in(arg: Txt) -> Option<u16> {
    if arg == "--debug-server"@ {
        Some(DEFAULT_PORT)
    } else {
        match text::stripped(arg, "--debug-server="@) {
            Some(rest) => Some(
                match text::unsigned_value(rest) {
                    Some(n) => if n <= 65535 {
                        n as u16
                    } else {
                        DEFAULT_PORT
                    },
                    None => DEFAULT_PORT,
                },
            ),
            None => None,
        }
    }
}

/// The port that the first argument that asks for one asks for.
pub open spec fn port_of(args: Seq<Txt>) -> Option<u16>
    decreases args.len(),
{
    if args.len() == 0 {
        None
    } else if port_in(args[0]) is Some {
        port_in(args[0])
    } else {
        port_of(args.skip(1))
    }
}

fn port_in_arg(arg: &str) -> (port: Option<u16>)
    ensures
        port == port_in(arg@),
{
    if text::same(arg, "--debug-server") {
        return Some(DEFAULT_PORT);
    }
    match text::strip_prefix(arg, "--debug-server=") {
        Some(rest) => Some(
            match text::parse_unsigned(rest.as_str(), 65535) {
                Some(n) => n as u16,
                None => DEFAULT_PORT,
            },
        ),
        None => None,
    }
}

/// The port that the command line asks for. `args` are the arguments without the program.
pub fn parse_port(args: &Vec<String>) -> (port: Option<u16>)
    ensures
        port == port_of(args.deep_view()),
{
    let ghost all = args.deep_view();
    let mut i: usize = 0;
    assert(all.skip(0) =~= all);
    while i < args.len()
        invariant
            i <= args.len(),
            all == args.deep_view(),
            port_of(all) == port_of(all.skip(i as int)),
        decreases args.len() - i,
    {
        assert(all.skip(i as int)[0] == args@[i as int]@);
        assert(all.skip(i as int).skip(1) =~= all.skip(i + 1));
        let port = port_in_arg(args[i].as_str());
        if port.is_some() {
            return port;
        }
        i += 1;
    }
    None
}

/// Whether `flag` is among the arguments.
fn has_flag(args: &Vec<String>, flag: &str) -> (found: bool)
    ensures
        found == args.deep_view().contains(flag@),
{
    let ghost all = args.deep_view();
    let mut i: usize = 0;
    while i < args.len()
        invariant
            i <= args.len(),
            all == args.deep_view(),
            forall|j: int| 0 <= j < i ==> all[j] != flag@,
        decreases args.len() - i,
    {
        assert(all[i as int] == args@[i as int]@);
        if text::same(args[i].as_str(), flag) {
            return true;
        }
        i += 1;
    }
    false
}

/// Whether the command line lets the server run commands that change files.
pub fn parse_allow_write(args: &Vec<String>) -> (allowed: bool)
    ensures
        allowed == args.deep_view().contains("--debug-allow-write"@),
{
    has_flag(args, "--debug-allow-write")
}

/// Whether the command line asks for a window that is not shown.
pub fn parse_headless(args: &Vec<String>) -> (headless: bool)
    ensures
        headless == args.deep_view().contains("--headless"@),
{
    has_flag(args, "--headless")
}

/// What the window keeps for the server.
pub struct Bridge {
    /// The requests that wait for the window, oldest first.
    pub queue: Vec<Request>,
    /// The port of the server, where there is to be one.
    pub port: Option<u16>,
    /// Commands that change files may be run.
    pub allow_write: bool,
    /// The window is not shown.
    pub headless: bool,
}

impl Bridge {
    /// A bridge with no requests.
    pub fn new(port: Option<u16>, allow_write: bool, headless: bool) -> (bridge: Self)
        ensures
            bridge.queue@ == Seq::<Request>::empty(),
            bridge.port == port,
            bridge.allow_write == allow_write,
            bridge.headless == headless,
    {
        Bridge { queue: Vec::new(), port, allow_write, headless }
    }
}

/// The rows of a dialog with a list of several columns.
#[derive(Clone, Debug, PartialEq, Eq)]
pub struct ListViewHooks {
    pub headers: Vec<String>,
    pub rows: Vec<Vec<String>>,
    pub selected: usize,
}

/// A dialog that is open.
#[derive(Clone, Debug, PartialEq, Eq)]
pub struct ModalEntry {
    pub kind: String,
    pub title: String,
    pub prompt: String,
    /// The handle of the dialog's window.
    pub modal_ptr: isize,
    pub has_input: bool,
    /// The labels of its buttons, and what they are known by.
    pub buttons: Vec<(String, u16)>,
    /// The items of its list, where it has one.
    pub items: Vec<String>,
    /// The item of its list that was selected at first.
    pub selected: usize,
    /// The rows of its list, where it has several columns.
    pub list_view: Option<ListViewHooks>,
}

/// The state of a page of key settings.
#[derive(Clone, Debug, PartialEq, Eq)]
pub struct KeyEditorState {
    /// The rows that are shown: a command and its chords.
    pub rows: Vec<(String, Vec<String>)>,
    pub selected: usize,
    /// The first row that is shown.
    pub top: usize,
    /// The next key is taken as a chord.
    pub capturing: bool,
    /// The rows are commands to pick from.
    pub picking: bool,
    /// What the last action came to.
    pub status: String,
    /// What the rows are searched for.
    pub query: String,
    /// How the rows are ordered.
    pub mode: String,
    /// Chords with more than one command.
    pub conflicts: Vec<(String, Vec<String>)>,
}

/// A page of key settings: its state, and what it is asked to do, oldest first.
#[derive(Clone, Debug, PartialEq, Eq)]
pub struct KeyEditorHooks {
    pub state: KeyEditorState,
    pub asked: Vec<Request>,
}

/// The dialogs that are open, the last one on top; and the pages of the settings dialog.
pub struct ModalRegistry {
    pub stack: Vec<ModalEntry>,
    pub key_editors: Vec<(String, KeyEditorHooks)>,
    /// The page of the settings that is shown, where the settings are open.
    pub settings_nav: Option<usize>,
}

impl ModalRegistry {
    /// No dialog is open.
    pub fn new() -> (registry: Self)
        ensures
            registry.stack@ == Seq::<ModalEntry>::empty(),
            registry.key_editors@ == Seq::<(String, KeyEditorHooks)>::empty(),
            registry.settings_nav is None,
    {
        ModalRegistry { stack: Vec::new(), key_editors: Vec::new(), settings_nav: None }
    }
}

/// The stack with `entry` on top, and everything else as it was.
pub open spec fn pushed(before: ModalRegistry, after: ModalRegistry, entry: ModalEntry) -> bool {
    &&& after.stack@ == before.stack@.push(entry)
    &&& after.key_editors == before.key_editors
    &&& after.settings_nav == before.settings_nav
}

/// A dialog was opened.
pub fn push(
    registry: &mut ModalRegistry,
    kind: &str,
    title: &str,
    prompt: &str,
    modal_ptr: isize,
    has_input: bool,
    buttons: Vec<(String, u16)>,
)
    ensures
        pushed(*old(registry), *final(registry), final(registry).stack@.last()),
        ({
            let top = final(registry).stack@.last();
            &&& top.kind@ == kind@
            &&& top.title@ == title@
            &&& top.prompt@ == prompt@
            &&& top.modal_ptr == modal_ptr
            &&& top.has_input == has_input
            &&& top.buttons == buttons
            &&& top.items@.len() == 0
            &&& top.selected == 0
            &&& top.list_view is None
        }),
{
    let entry = ModalEntry {
        kind: text::copy(kind),
        title: text::copy(title),
        prompt: text::copy(prompt),
        modal_ptr,
        has_input,
        buttons,
        items: Vec::new(),
        selected: 0,
        list_view: None,
    };
    registry.stack.push(entry);
}

/// A dialog with a list of several columns was opened.
pub fn push_list_view(
    registry: &mut ModalRegistry,
    kind: &str,
    title: &str,
    modal_ptr: isize,
    buttons: Vec<(String, u16)>,
    hooks: ListViewHooks,
)
    ensures
        pushed(*old(registry), *final(registry), final(registry).stack@.last()),
        ({
            let top = final(registry).stack@.last();
            &&& top.kind@ == kind@
            &&& top.title@ == title@
            &&& top.prompt@.len() == 0
            &&& top.modal_ptr == modal_ptr
            &&& !top.has_input
            &&& top.buttons == buttons
            &&& top.items@.len() == 0
            &&& top.selected == 0
            &&& top.list_view == Some(hooks)
        }),
{
    let entry = ModalEntry {
        kind: text::copy(kind),
        title: text::copy(title),
        prompt: String::new(),
        modal_ptr,
        has_input: false,
        buttons,
        items: Vec::new(),
        selected: 0,
        list_view: Some(hooks),
    };
    registry.stack.push(entry);
}

/// A dialog with a list was opened.
pub fn push_list(
    registry: &mut ModalRegistry,
    kind: &str,
    title: &str,
    items: Vec<String>,
    selected: usize,
    modal_ptr: isize,
    buttons: Vec<(String, u16)>,
)
    ensures
        pushed(*old(registry), *final(registry), final(registry).stack@.last()),
        ({
            let top = final(registry).stack@.last();
            &&& top.kind@ == kind@
            &&& top.title@ == title@
            &&& top.prompt@.len() == 0
            &&& top.modal_ptr == modal_ptr
            &&& !top.has_input
            &&& top.buttons == buttons
            &&& top.items == items
            &&& top.selected == selected
            &&& top.list_view is None
        }),
{
    let entry = ModalEntry {
        kind: text::copy(kind),
        title: text::copy(title),
        prompt: String::new(),
        modal_ptr,
        has_input: false,
        buttons,
        items,
        selected,
        list_view: None,
    };
    registry.stack.push(entry);
}

/// The dialog on top was closed.
pub fn pop(registry: &mut ModalRegistry)
    ensures
        final(registry).stack@ == (if old(registry).stack@.len() > 0 {
            old(registry).stack@.drop_last()
        } else {
            old(registry).stack@
        }),
        final(registry).key_editors == old(registry).key_editors,
        final(registry).settings_nav == old(registry).settings_nav,
{
    let _ = registry.stack.pop();
}

/// The dialog on top, if one is open.
pub fn with_top(registry: &ModalRegistry) -> (top: Option<&ModalEntry>)
    ensures
        match top {
            Some(entry) => registry.stack@.len() > 0 && *entry == registry.stack@.last(),
            None => registry.stack@.len() == 0,
        },
{
    if registry.stack.len() == 0 {
        None
    } else {
        Some(&registry.stack[registry.stack.len() - 1])
    }
}

/// A page of key settings was made.
pub fn register_key_editor(registry: &mut ModalRegistry, category: String, hooks: KeyEditorHooks)
    ensures
        final(registry).key_editors@ == old(registry).key_editors@.push((category, hooks)),
        final(registry).stack == old(registry).stack,
        final(registry).settings_nav == old(registry).settings_nav,
{
    registry.key_editors.push((category, hooks));
}

/// The settings are about to be opened: nothing is known of their pages.
pub fn clear_key_editors(registry: &mut ModalRegistry)
    ensures
        final(registry).key_editors@ == Seq::<(String, KeyEditorHooks)>::empty(),
        final(registry).settings_nav is None,
        final(registry).stack == old(registry).stack,
{
    registry.key_editors = Vec::new();
    registry.settings_nav = None;
}

/// The settings were opened, on page `pane`.
pub fn register_settings_nav(registry: &mut ModalRegistry, pane: usize)
    ensures
        final(registry).settings_nav == Some(pane),
        final(registry).stack == old(registry).stack,
        final(registry).key_editors == old(registry).key_editors,
{
    registry.settings_nav = Some(pane);
}

/// Goes to page `pane` of the settings, if they are open, and says whether they are.
pub fn with_settings_nav(registry: &mut ModalRegistry, pane: usize) -> (open: bool)
    ensures
        open == (old(registry).settings_nav is Some),
        final(registry).settings_nav == (if open {
            Some(pane)
        } else {
            None
        }),
        final(registry).stack == old(registry).stack,
        final(registry).key_editors == old(registry).key_editors,
{
    if registry.settings_nav.is_some() {
        registry.settings_nav = Some(pane);
        true
    } else {
        false
    }
}

/// The place of the first page of key settings of a category, from `from` on.
pub open spec fn editor_at(
    editors: Seq<(String, KeyEditorHooks)>,
    category: Txt,
    from: int,
) -> Option<int>
    decreases editors.len() - from,
{
    if from < 0 || from >= editors.len() {
        None
    } else if editors[from].0@ == category {
        Some(from)
    } else {
        editor_at(editors, category, from + 1)
    }
}

/// The page of key settings of a category, if there is one; of several, the first.
pub fn with_key_editor<'a>(registry: &'a ModalRegistry, category: &str) -> (hooks: Option<
    &'a KeyEditorHooks,
>)
    ensures
        match editor_at(registry.key_editors@, category@, 0) {
            Some(i) => hooks == Some(&registry.key_editors@[i].1),
            None => hooks is None,
        },
{
    let mut i: usize = 0;
    while i < registry.key_editors.len()
        invariant
            i <= registry.key_editors.len(),
            editor_at(registry.key_editors@, category@, 0) == editor_at(
                registry.key_editors@,
                category@,
                i as int,
            ),
        decreases registry.key_editors.len() - i,
    {
        if text::same(registry.key_editors[i].0.as_str(), category) {
            return Some(&registry.key_editors[i].1);
        }
        i += 1;
    }
    None
}

/// A request that only reads never asks for a change, and a changing request never only
/// reads: which requests a path leads to depends on how it came in.
pub proof fn law_reading_and_changing_are_apart(url: Txt, body: Txt)
    ensures
        match routed(Method::Get, url, body) {
            Route::Accepted(r) => r is State || r is Presentation || r is Snapshot
                || r is ScriptCommands || r is KeysState,
            Route::NotFound => true,
            Route::Refused(_) => false,
        },
        match routed(Method::Post, url, body) {
            Route::Accepted(r) => !(r is State || r is Presentation || r is Snapshot
                || r is ScriptCommands || r is KeysState),
            _ => true,
        },
        routed(Method::Other, url, body) == Route::<Txt, Seq<Txt>>::NotFound,
{
}

/// What a dialog opens, closing it takes away again: the stack is as it was before.
pub proof fn law_pop_undoes_push(before: ModalRegistry, after: ModalRegistry, entry: ModalEntry)
    requires
        pushed(before, after, entry),
    ensures
        after.stack@.drop_last() == before.stack@,
        after.stack@.last() == entry,
{
    assert(before.stack@.push(entry).drop_last() =~= before.stack@);
}

} // verus!
