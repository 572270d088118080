//! The server that tests ask and drive the program through.

use rerics::debug_ctl::{
    answer_done, answer_keys_op, answer_part, answer_plan, answer_pointed, answer_script_commands,
    answer_search_history, answer_search_option, button_id, check_box_of, child_of_class,
    code_of_key, course, debug_dispatch_command, debug_modal_key, debug_state_value, debug_view_key,
    drain_debug_requests, log_tail, modal_state, plan, ActiveView, Child, CommandFacts,
    DebugCmdClass, KeyOp, LogLine, MediaState, Move, Outcome, Plan, RunIn, SearchState, WindowFacts,
    LOG_TAIL, MAYBE_MODAL,
};
use rerics::debug_json::{attrs_string, pane_state_json, ItemState, PaneChrome};
use rerics::debug_server::{
    clear_key_editors, handle, parse_allow_write, parse_command_args, parse_headless, parse_port,
    pop, push, push_list, push_list_view, register_key_editor, register_settings_nav,
    with_key_editor, with_settings_nav, with_top, write_back, write_refusal, Bridge, Content,
    KeyEditorHooks, KeyEditorState, ListViewHooks, Method, ModalRegistry, Request, Response, Route,
    DEFAULT_PORT, NOT_ALL_TEXT, NOT_A_BINDING, NOT_A_LIST,
};
use rerics::file_item::{FileItem, FileListState, LinkKind};
use rerics::geometry::Rect;
use rerics::snapshot::{
    answer_picture, crop, crop_bgra_to_png, cursor_rect, debug_rect, debug_snapshot,
    debug_snapshot_inner, pane_bbox, picture_rect, picture_region, picture_source, rect_in_client,
    RectTarget, Shot, Side, Source,
};

fn file_item(name: &str, ext: &str, is_dir: bool, selected: bool, hidden: bool) -> FileItem {
    FileItem {
        name: name.to_string(),
        base_name: name.to_string(),
        extension: ext.to_string(),
        is_dir,
        is_parent: false,
        size: Some(100),
        created: None,
        modified: None,
        accessed: None,
        readonly: false,
        hidden,
        system: false,
        archive: false,
        reparse: false,
        link: LinkKind::NoLink,
        link_target: None,
        selected,
        source: None,
        info: None,
    }
}

fn four_items() -> FileListState {
    let mut state = FileListState::new();
    state.items = vec![
        FileItem::parent(),
        file_item("dir1", "", true, false, false),
        file_item("a.txt", "txt", false, true, false),
        file_item("secret", "", false, false, true),
    ];
    state.cursor = 2;
    state
}

fn chrome() -> PaneChrome<'static> {
    PaneChrome {
        location: "C:\\work",
        is_archive: false,
        page_rows: 30,
        mask: Some("*.txt"),
        path_bar: "C:\\work",
        status_left: "1 selected",
        status_right: "C: free",
    }
}

#[test]
fn pane_state_json_shapes_items_columns_cursor() {
    let v = pane_state_json(&four_items(), &chrome());

    assert_eq!(v.location, "C:\\work");
    assert_eq!(v.mask.as_deref(), Some("*.txt"));
    assert_eq!(v.cursor, 2);
    assert_eq!(v.status_right, "C: free");

    assert_eq!(v.items.len(), 4);
    assert!(matches!(v.items[0], ItemState::Parent { .. }));
    let ItemState::Item { attrs, cursor, .. } = &v.items[1] else { panic!("an item") };
    assert_eq!(attrs, "D");
    assert!(!*cursor);
    let ItemState::Item { name, marked, cursor, ext, .. } = &v.items[2] else { panic!("an item") };
    assert_eq!(name, "a.txt");
    assert!(*marked);
    assert!(*cursor);
    assert_eq!(ext, "txt");
    let ItemState::Item { attrs, .. } = &v.items[3] else { panic!("an item") };
    assert_eq!(attrs, "H");
    assert_eq!((v.selected_count, v.selected_size), (1, 100));
}

#[test]
fn attributes_are_letters() {
    let mut item = file_item("x", "", false, false, true);
    item.readonly = true;
    item.system = true;
    item.archive = true;
    let letters = attrs_string(&item);
    for c in ['R', 'H', 'S', 'A'] {
        assert!(letters.contains(c), "{letters}");
    }
    assert_eq!(attrs_string(&file_item("x", "", false, false, false)), "");
}

fn accepted(method: Method, url: &str, body: &str) -> Request {
    match handle(method, url, body) {
        Route::Accepted(request) => request,
        other => panic!("{url}: {other:?}"),
    }
}

#[test]
fn state_is_asked_for_by_pointer() {
    let get = |url: &str| accepted(Method::Get, url, "");
    assert_eq!(get("/state"), Request::State { pointer: "".to_string() });
    assert_eq!(get("/state?x=1"), Request::State { pointer: "".to_string() });
    assert_eq!(get("/state/panes/left/"), Request::State { pointer: "/panes/left".to_string() });
    assert_eq!(get("/presentation/font"), Request::Presentation { pointer: "/font".to_string() });
    assert_eq!(get("/snapshot.png"), Request::Snapshot { spec: "".to_string() });
    assert_eq!(get("/snapshot/left/list.png"), Request::Snapshot { spec: "left/list".to_string() });
    assert_eq!(get("/script/commands"), Request::ScriptCommands);
    assert_eq!(get("/keys/list/"), Request::KeysState { category: "list".to_string() });
    assert_eq!(handle(Method::Get, "/command/Copy", ""), Route::NotFound);
    assert_eq!(handle(Method::Other, "/state", ""), Route::NotFound);
}

#[test]
fn commands_take_their_arguments_from_the_body() {
    let post = |url: &str, body: &str| accepted(Method::Post, url, body);
    assert_eq!(
        post("/command/Copy/", "[\"a\", \"b\\u3042\"]"),
        Request::Command { name: "Copy".to_string(), args: vec!["a".to_string(), "bあ".to_string()] }
    );
    assert_eq!(
        post("/command/Copy", "  "),
        Request::Command { name: "Copy".to_string(), args: vec![] }
    );
    assert_eq!(handle(Method::Post, "/command/X", "{}"), Route::Refused(NOT_A_LIST.to_string()));
    assert_eq!(handle(Method::Post, "/command/X", "[1]"), Route::Refused(NOT_ALL_TEXT.to_string()));
    assert!(matches!(handle(Method::Post, "/command/X", "["), Route::Refused(_)));
    assert_eq!(parse_command_args("[\"x\"]"), Ok(vec!["x".to_string()]));
}

#[test]
fn the_view_is_driven_by_path() {
    let post = |url: &str| accepted(Method::Post, url, "text");
    assert_eq!(post("/view/search/history/2"), Request::ViewSearchHistory { index: 2 });
    assert_eq!(post("/view/search/dropdown/OPEN"), Request::ViewSearchDropdown { open: true });
    assert_eq!(post("/view/search/dropdown/x"), Request::ViewSearchDropdown { open: false });
    assert_eq!(post("/view/search/mnemonic/cd"), Request::ViewSearchMnemonic { key: 'c' });
    assert_eq!(
        post("/view/search/option/regex/On"),
        Request::ViewSearchOption { name: "regex".to_string(), on: true }
    );
    assert_eq!(post("/view/search"), Request::ViewSearch { value: "text".to_string() });
    assert_eq!(post("/view/key/close/"), Request::ViewKey { action: "close".to_string() });
    assert_eq!(handle(Method::Post, "/view/search/history/x", ""), Route::NotFound);
    assert_eq!(handle(Method::Post, "/view/search/option/regex", ""), Route::NotFound);
}

#[test]
fn dialogs_and_keys_are_driven_by_path() {
    let post = |url: &str, body: &str| accepted(Method::Post, url, body);
    assert_eq!(post("/modal/resize/30x-4", ""), Request::ModalResize { width: 30, height: -4 });
    assert_eq!(handle(Method::Post, "/modal/resize/30", ""), Route::NotFound);
    assert_eq!(post("/modal/select/+5", ""), Request::ModalSelect { index: 5 });
    assert_eq!(post("/modal/check", ""), Request::ModalCheck);
    let cat = "list".to_string();
    assert_eq!(
        post("/keys/list/select/3/", ""),
        Request::KeysSelect { category: cat.clone(), index: 3 }
    );
    assert_eq!(
        post("/keys/list/bind", "[\"Copy\",\"C\"]"),
        Request::KeysBind {
            category: cat.clone(),
            command: "Copy".to_string(),
            chord: "C".to_string()
        }
    );
    assert_eq!(
        handle(Method::Post, "/keys/list/bind", "[\"Copy\"]"),
        Route::Refused(NOT_A_BINDING.to_string())
    );
    assert_eq!(
        post("/keys/list/rebind", " Ctrl+C \n"),
        Request::KeysRebind { category: cat.clone(), chord: "Ctrl+C".to_string() }
    );
    assert_eq!(
        post("/keys/list/view", " key "),
        Request::KeysSetView { category: cat.clone(), by_key: true }
    );
    assert_eq!(post("/keys/list/scroll/-2", ""), Request::KeysScroll { category: cat.clone(), top: -2 });
    assert_eq!(post("/keys/list/reset", ""), Request::KeysReset { category: cat });
    assert_eq!(post("/settings/nav/1", ""), Request::SettingsNav { pane: 1 });
}

#[test]
fn answers_have_their_status() {
    assert_eq!(write_back(Some(Response::Json("{}".to_string()))).0, 200);
    assert_eq!(write_back(Some(Response::NotFound)).0, 404);
    assert_eq!(write_back(Some(Response::BadRequest("b".to_string()))).0, 400);
    assert_eq!(write_back(Some(Response::Error("e".to_string()))).0, 500);
    assert_eq!(write_back(None), (503, Content::Text("ui gone".to_string())));
    assert_eq!(
        write_refusal(Route::NotFound),
        Some((404, Content::Text("not found".to_string())))
    );
    assert_eq!(
        write_refusal(Route::Refused("no".to_string())),
        Some((400, Content::Text("no".to_string())))
    );
    assert_eq!(write_refusal(Route::Accepted(Request::ModalCheck)), None);
}

fn args(all: &[&str]) -> Vec<String> {
    all.iter().map(|a| a.to_string()).collect()
}

#[test]
fn the_server_is_started_by_arguments() {
    assert_eq!(parse_port(&args(&["app"])), None);
    assert_eq!(parse_port(&args(&["app", "--debug-server"])), Some(DEFAULT_PORT));
    assert_eq!(parse_port(&args(&["app", "--debug-server=9000"])), Some(9000));
    assert!(!parse_allow_write(&args(&["app"])));
    assert!(!parse_headless(&args(&["app"])));
    let bridge = Bridge::new(Some(9000), true, false);
    assert!(bridge.queue.is_empty() && bridge.allow_write && !bridge.headless);
}

fn hooks() -> KeyEditorHooks {
    KeyEditorHooks {
        state: KeyEditorState {
            rows: vec![],
            selected: 0,
            top: 0,
            capturing: false,
            picking: false,
            status: String::new(),
            query: String::new(),
            mode: String::new(),
            conflicts: vec![],
        },
        asked: vec![],
    }
}

#[test]
fn closing_a_dialog_leaves_the_one_below() {
    let mut registry = ModalRegistry::new();
    push(&mut registry, "input", "t", "p", 1, true, vec![("OK".to_string(), 1)]);
    push_list(&mut registry, "list", "l", args(&["a", "b"]), 1, 2, vec![]);
    assert_eq!(with_top(&registry).unwrap().kind, "list");
    pop(&mut registry);
    assert_eq!(with_top(&registry).unwrap().kind, "input");
    let view = ListViewHooks { headers: args(&["h"]), rows: vec![args(&["r"])], selected: 0 };
    push_list_view(&mut registry, "grid", "g", 3, vec![], view);
    assert!(with_top(&registry).unwrap().list_view.is_some());
    pop(&mut registry);
    pop(&mut registry);
    assert!(with_top(&registry).is_none());
}

#[test]
fn key_editors_are_found_by_category() {
    let mut registry = ModalRegistry::new();
    register_key_editor(&mut registry, "list".to_string(), hooks());
    assert!(with_key_editor(&registry, "list").is_some());
    assert!(with_key_editor(&registry, "viewer").is_none());
    clear_key_editors(&mut registry);
    assert!(with_key_editor(&registry, "list").is_none());
    assert!(!with_settings_nav(&mut registry, 1));
    register_settings_nav(&mut registry, 0);
    assert!(with_settings_nav(&mut registry, 1));
}

fn command_facts(class: DebugCmdClass) -> Option<CommandFacts> {
    Some(CommandFacts { in_text_viewer: false, in_image_viewer: false, class })
}

#[test]
fn commands_run_where_they_belong() {
    let (name, args) = ("X".to_string(), vec!["D:".to_string(), "foo".to_string()]);
    let run = |c, write| {
        debug_dispatch_command(name.clone(), args.clone(), c, ActiveView::NoView, true, write)
    };
    assert_eq!(
        run(command_facts(DebugCmdClass::NonModal), false),
        Plan::RunThenAnswer { name: name.clone(), args: args.clone(), place: RunIn::RightPane }
    );
    assert_eq!(
        run(command_facts(DebugCmdClass::MaybeModal), false),
        Plan::AnswerThenRun {
            answer: MAYBE_MODAL.to_string(),
            name: name.clone(),
            args: args.clone(),
            place: RunIn::RightPane
        }
    );
    assert!(matches!(
        run(command_facts(DebugCmdClass::ModalWrite), false),
        Plan::Answer(Response::BadRequest(_))
    ));
    assert!(matches!(
        run(command_facts(DebugCmdClass::ModalWrite), true),
        Plan::AnswerThenRun { place: RunIn::RightPane, .. }
    ));
    assert!(matches!(run(None, true), Plan::Answer(Response::BadRequest(_))));
}

fn facts() -> WindowFacts {
    WindowFacts {
        view: ActiveView::NoView,
        active_right: false,
        allow_write: false,
        command: None,
        is_chord: false,
        children: vec![
            Child { class: "Edit".to_string(), style: 0 },
            Child { class: "Button".to_string(), style: 3 },
        ],
    }
}

#[test]
fn requests_are_planned() {
    let mut registry = ModalRegistry::new();
    let asked = |r: Request, registry: &ModalRegistry| plan(r, &facts(), registry);
    assert!(matches!(
        asked(Request::ModalKey { key: "enter".to_string() }, &registry),
        Plan::Answer(Response::BadRequest(_))
    ));
    push(&mut registry, "input", "t", "p", 1, true, vec![("OK".to_string(), 7)]);
    assert!(matches!(
        asked(Request::ModalKey { key: "enter".to_string() }, &registry),
        Plan::Press { .. }
    ));
    assert_eq!(
        asked(Request::ModalText { value: "v".to_string() }, &registry),
        Plan::SetText { child: 0, value: "v".to_string() }
    );
    assert_eq!(asked(Request::ModalCheck, &registry), Plan::Click { child: 1 });
    assert_eq!(
        asked(Request::KeysState { category: "none".to_string() }, &registry),
        Plan::Answer(Response::NotFound)
    );
    assert_eq!(
        asked(Request::SettingsNav { pane: 1 }, &registry),
        Plan::Answer(Response::NotFound)
    );
    let command = Request::Command { name: "Copy".to_string(), args: vec!["x".to_string()] };
    let known = WindowFacts { command: command_facts(DebugCmdClass::NonModal), ..facts() };
    assert_eq!(
        plan(command, &known, &registry),
        Plan::RunThenAnswer {
            name: "Copy".to_string(),
            args: vec!["x".to_string()],
            place: RunIn::LeftPane
        }
    );
    register_key_editor(&mut registry, "list".to_string(), hooks());
    let bind = Request::KeysBind {
        category: "list".to_string(),
        command: "Copy".to_string(),
        chord: "Ctrl+C".to_string(),
    };
    assert_eq!(
        asked(bind, &registry),
        Plan::KeysOp {
            editor: 0,
            op: KeyOp::Bind { command: "Copy".to_string(), chord: "Ctrl+C".to_string() }
        }
    );
    assert_eq!(
        asked(Request::KeysScroll { category: "list".to_string(), top: -3 }, &registry),
        Plan::KeysOp { editor: 0, op: KeyOp::Scroll { top: -3 } }
    );
    assert_eq!(
        asked(Request::KeysState { category: "list".to_string() }, &registry),
        Plan::KeysState { editor: 0 }
    );
    let mut queue = vec![Request::ModalCheck, Request::ScriptCommands];
    assert_eq!(drain_debug_requests(&mut queue), Some(Request::ModalCheck));
    assert_eq!(queue, vec![Request::ScriptCommands]);
}

#[test]
fn keys_and_children_are_found_by_name() {
    assert_eq!(code_of_key("enter"), Some(0x0D));
    assert_eq!(code_of_key("no such key"), None);
    assert!(matches!(debug_modal_key(false, "enter"), Plan::Answer(Response::BadRequest(_))));
    let f = facts();
    assert_eq!(child_of_class(&f.children, "Edit"), Some(0));
    assert_eq!(child_of_class(&f.children, "ListBox"), None);
    assert_eq!(check_box_of(&f.children), Some(1));
    let buttons = vec![("再試行(&R)".to_string(), 7), ("Skip".to_string(), 8)];
    assert_eq!(button_id(&buttons, "OK"), Some(1));
    assert_eq!(button_id(&buttons, "cancel"), Some(2));
    assert_eq!(button_id(&buttons, "12"), Some(12));
    assert_eq!(button_id(&buttons, "(r)"), Some(7));
    assert_eq!(button_id(&buttons, "SKI"), Some(8));
    assert_eq!(button_id(&buttons, "none"), None);
    assert_eq!(debug_view_key("next", false, ActiveView::Media), Plan::Navigate { forward: true });
}

#[test]
fn outcomes_are_answered() {
    let json = "{}".to_string();
    assert_eq!(answer_done("x", None, json.clone()), Response::Json(json.clone()));
    assert!(matches!(
        answer_done("x", Some("e".to_string()), json.clone()),
        Response::Error(m) if m.contains('e')
    ));
    assert_eq!(answer_part(None), Response::NotFound);
    assert_eq!(answer_part(Some(json.clone())), Response::Json(json.clone()));
    assert!(matches!(answer_keys_op(Some("e".to_string())), Response::BadRequest(_) | Response::Error(_)));
    assert!(matches!(answer_search_option("n", false, None, json.clone()), Response::BadRequest(_)));
    assert!(matches!(answer_search_history(4, false, None, json), Response::BadRequest(_)));
}

#[test]
fn answers_come_when_the_window_has_settled() {
    let run = |place| Plan::RunThenAnswer { name: "X".to_string(), args: vec![], place };
    assert_eq!(course(&run(RunIn::LeftPane)), [Move::CarryOut, Move::SettleIfDone, Move::Tell]);
    let state = Plan::State { pointer: String::new() };
    assert_eq!(course(&state), [Move::Settle, Move::CarryOut, Move::Tell]);
    let first = Plan::AnswerThenRun {
        answer: String::new(),
        name: "X".to_string(),
        args: vec![],
        place: RunIn::LeftPane,
    };
    assert_eq!(course(&first), [Move::Tell, Move::CarryOut]);
    assert_eq!(course(&Plan::Answer(Response::NotFound)), [Move::Tell]);
    assert_eq!(course(&Plan::CloseViewer), [Move::CarryOut, Move::Tell]);
}

#[test]
fn a_pointer_points_to_a_part_of_a_document() {
    let doc = || Some("{\"a\": {\"b/c\": [1, \"x\"]}}".to_string());
    let json = |s: &str| Response::Json(s.to_string());
    assert_eq!(answer_pointed(doc(), "/a/b~1c/1"), json("\"x\""));
    assert_eq!(answer_pointed(doc(), "/a/b~1c"), json("[1,\"x\"]"));
    assert_eq!(answer_pointed(doc(), ""), json("{\"a\":{\"b/c\":[1,\"x\"]}}"));
    assert_eq!(answer_pointed(doc(), "/b"), Response::NotFound);
    assert_eq!(answer_pointed(None, ""), Response::NotFound);
    let state = Plan::State { pointer: "/a".to_string() };
    assert_eq!(came_of(state, None, true, Some("{\"a\":7}")), json("7"));
}

fn came_of(plan: Plan, error: Option<&str>, found: bool, document: Option<&str>) -> Response {
    let outcome = Outcome {
        error: error.map(|e| e.to_string()),
        found,
        document: document.map(|p| p.to_string()),
    };
    answer_plan(plan, outcome, "{}".to_string())
}

#[test]
fn plans_are_answered_by_what_came_of_them() {
    let json = |s: &str| Response::Json(s.to_string());
    let bad = |s: &str| Response::BadRequest(s.to_string());
    let wrong = |s: &str| Response::Error(s.to_string());
    assert_eq!(came_of(Plan::Push { id: 102 }, None, false, None), bad("button id 102 not found"));
    assert_eq!(came_of(Plan::Push { id: 102 }, None, true, None), json("{}"));
    let resize = Plan::Resize { width: 1, height: 1 };
    assert_eq!(came_of(resize, Some("e"), true, None), wrong("resize failed: e"));
    let run =
        Plan::RunThenAnswer { name: "X".to_string(), args: vec![], place: RunIn::LeftPane };
    assert_eq!(came_of(run, Some("e"), true, None), wrong("exec error: e"));
    assert_eq!(came_of(Plan::CloseViewer, Some("e"), true, None), wrong("view key error: e"));
    assert_eq!(
        came_of(Plan::ConfirmSearch, Some("e"), true, None),
        wrong("view search key error: e")
    );
    assert_eq!(
        came_of(Plan::SearchHistory { index: 3 }, None, false, None),
        bad("no history at 3")
    );
    let state = Plan::State { pointer: "/x".to_string() };
    assert_eq!(came_of(state, None, true, None), Response::NotFound);
    let scripts = answer_script_commands(&vec!["a\"b".to_string(), "c".to_string()]);
    assert_eq!(scripts, json("[\"a\\\"b\",\"c\"]"));
}

#[test]
fn the_log_is_cut_to_its_end() {
    let lines: Vec<LogLine> = (0..60)
        .map(|i| LogLine { level: "normal".to_string(), text: i.to_string() })
        .collect();
    let tail = log_tail(lines);
    assert_eq!(tail.len(), LOG_TAIL);
    assert_eq!(tail[0].text, "10");
}

#[test]
fn the_state_shows_what_is_open() {
    let mut registry = ModalRegistry::new();
    push(&mut registry, "input", "t", "p", 1, true, vec![]);
    let entry = registry.stack.pop().unwrap();
    let modal = modal_state(entry, Some("typed".to_string()), None);
    assert_eq!(modal.input.as_deref(), Some("typed"));
    let media = MediaState {
        index: 0,
        total: 1,
        title: String::new(),
        mode: String::new(),
        scale_percent: 100,
    };
    let viewer = SearchState {
        search: String::new(),
        search_open: false,
        found: None,
        match_count: 0,
        case_sensitive: false,
        whole_word: false,
        regex: false,
        history: vec![],
        list_open: false,
    };
    let state = debug_state_value(
        "title".to_string(),
        false,
        true,
        ActiveView::Text,
        pane_state_json(&four_items(), &chrome()),
        pane_state_json(&four_items(), &chrome()),
        Some(modal),
        media,
        viewer,
        0,
        vec![],
        vec![],
        vec![],
    );
    assert_eq!(state.active_pane, "right");
    assert!(state.viewer.is_some());
    assert!(state.media.is_none());
}

fn rect(x: i64, y: i64, w: i64, h: i64) -> Rect {
    Rect { x, y, w, h }
}

#[test]
fn parts_of_the_window_have_names() {
    assert_eq!(debug_rect("tab_bar", Side::Left), Some(RectTarget::TabBar));
    assert_eq!(debug_rect("no such part", Side::Left), None);
    assert_eq!(rect_in_client(110, 220, 150, 260, 100, 200), rect(10, 20, 40, 40));
    let bbox = pane_bbox(rect(0, 0, 10, 5), rect(0, 5, 10, 50), rect(0, 55, 12, 5));
    assert_eq!(bbox, rect(0, 0, 12, 60));
    assert_eq!(cursor_rect(rect(100, 50, 200, 300), rect(0, 20, 200, 16)), rect(100, 70, 200, 16));
}

#[test]
fn pictures_are_cut_out() {
    let full: Vec<u8> = (0..4 * 4 * 4).map(|i| i as u8).collect();
    let out = crop(&full, 4, 4, rect(1, 1, 2, 2));
    assert_eq!(out.len(), 16);
    assert_eq!(out[0..4], [22, 21, 20, 255]);
    let png = crop_bgra_to_png(&full, 4, 4, rect(1, 1, 2, 2)).expect("png");
    assert_eq!(png[0..8], [0x89, b'P', b'N', b'G', 0x0D, 0x0A, 0x1A, 0x0A]);
    let read = image::load_from_memory(&png).expect("image").to_rgba8();
    assert_eq!((read.width(), read.height()), (2, 2));
    assert_eq!(read.into_raw(), out);
    assert_eq!(answer_picture(Ok(png.clone())), Response::Png(png));
    assert!(matches!(answer_picture(Err("e".to_string())), Response::BadRequest(_) | Response::Error(_)));
}

#[test]
fn pictures_are_answered() {
    let full: Vec<u8> = (0..4 * 4 * 4).map(|i| i as u8).collect();
    let whole = rect(0, 0, 4, 4);
    let part = debug_snapshot_inner(&full, 4, 4, whole, Some("1,1-2x2"), Some(rect(1, 1, 2, 2)));
    let png = crop_bgra_to_png(&full, 4, 4, rect(1, 1, 2, 2)).expect("png");
    assert_eq!(part, Response::Png(png));
    assert_eq!(
        debug_snapshot_inner(&full, 4, 4, whole, Some("x"), None),
        Response::BadRequest("bad region: x".to_string())
    );
    assert_eq!(
        debug_snapshot_inner(&full, 4, 4, rect(0, 0, 0, 4), None, None),
        Response::Error("snapshot error: empty snapshot region".to_string())
    );
    assert_eq!(picture_region("list//1,1-2x2/", false), Some("1,1-2x2".to_string()));
    assert_eq!(picture_region("1,1-2x2", true), Some("1,1-2x2".to_string()));
    assert_eq!(picture_region("list", false), None);
}

#[test]
fn what_no_picture_can_be_taken_of_is_refused() {
    let shot = || Ok(Shot { pixels: vec![7; 4 * 4 * 4], w: 4, h: 4 });
    let asked = |spec: &str, at, shot| {
        debug_snapshot(picture_source(spec, false, true, Side::Left), at, shot, None, None)
    };
    let bad = |s: &str| Response::BadRequest(s.to_string());
    assert_eq!(asked("what", None, shot()), bad("unknown snapshot target: what"));
    assert_eq!(asked("log", None, shot()), bad("unknown snapshot target: log"));
    assert_eq!(asked("a/b/c", None, shot()), bad("bad snapshot spec: a/b/c"));
    assert_eq!(asked("", None, shot()), Response::Error("no client rect".to_string()));
    assert_eq!(
        asked("log", Some(rect(0, 0, 2, 2)), Err("e".to_string())),
        Response::Error("snapshot error: e".to_string())
    );
    let whole = crop_bgra_to_png(&vec![7; 4 * 4 * 4], 4, 4, rect(0, 0, 4, 4)).expect("png");
    assert_eq!(asked("modal", None, shot()), Response::Png(whole));
}

#[test]
fn pictures_are_of_a_part_or_of_the_dialog() {
    assert_eq!(
        picture_source("", false, false, Side::Left),
        Source::Part { target: RectTarget::Client, name: None }
    );
    assert_eq!(picture_source("modal", false, true, Side::Left), Source::Modal);
    assert!(matches!(
        picture_source("modal", false, false, Side::Left),
        Source::Refused { .. }
    ));
    assert!(matches!(
        picture_source("what", false, false, Side::Left),
        Source::Refused { .. }
    ));
    assert_eq!(picture_rect(rect(0, 0, 9, 9), None, None), Ok(rect(0, 0, 9, 9)));
    assert!(picture_rect(rect(0, 0, 9, 9), Some("x"), None).is_err());
}
