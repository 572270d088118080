//! Dialogs: what they hold, and what comes of what the user does in them.

use rerics::debug_server::ModalRegistry;
use rerics::dialog::choices::{
    about_box, about_registration, archive_add_box, archive_add_box_form, archive_add_registration,
    compare_options_box, compare_options_box_form, compare_registration, link_kind_box,
    link_kind_box_form, link_kinds_enabled, link_registration, selected_condition, sort_box, sort_box_form, sort_registration,
    ArchiveAddMode, CompareCondition,
};
use rerics::dialog::completer::{page_of, text_before_caret, Completer, KeyMessage};
use rerics::dialog::completion::{
    arg_signature, code_completions, command_completions, completion_items, completion_members,
    completion_prefix, match_rank, meta_hint, ArgSpec, Builtin, CompletionMember, MemberInfo,
    PaletteCommand, ScriptCommand,
};
use rerics::dialog::compress::{
    compress_box, compress_box_form, compress_registration, open_compress_box, CompressChoice,
    CompressDefaults, CompressForm,
    CompressFormat,
};
use rerics::dialog::conflict::{
    conflict_box, conflict_box_form, conflict_registration, ConflictForm,
};
use rerics::dialog::find::{
    date_range, find_file_box, find_file_box_form, find_registration, parse_date, parse_size, shortcut_date,
    shortcut_time, DateShortcut, FindForm,
};
use rerics::dialog::input::{
    code_box, command_box, input_box, input_box_full, input_box_select, input_result, multiline,
    InputMode,
};
use rerics::dialog::keyhook::{key_message, sub_proc, KeyHook, WM_CHAR, WM_KEYDOWN, WM_KEYUP};
use rerics::dialog::layout::{
    code_box_geometry, code_measures, list_measures, relayout_code_box, relayout_list_dialog,
    resolve_dialog_size, to_logical, ListMeasures,
};
use rerics::dialog::list::{
    initial_row, list_box, list_box_form, list_registration, list_window, scrolled_top, wheeled_top,
};
use rerics::dialog::message::{
    all_after_key, finalize, measure_height, measure_message, measure_width, message_box,
    message_box_form, message_registration, wrap_line, MessageResult, MessageStyle,
};
use rerics::dialog::opening::{
    closing_steps, modal_window, modal_window_sysmenu, opening_steps, Step,
};
use rerics::dialog::rename::{case_menu, rename_box, rename_box_form, FileAttrs, NameCase};
use rerics::dialog::rename::{rename_registration, RenameForm, RenameSubject};
use rerics::dialog::{
    before_ext_pos, cb_tristate, check_if, focus_initial, modal_closed, modal_opened,
    quick_time_menu, show_modal_guarded, utf16_len,
    Check, ControlKind, FocusItem, InputSelect, ModalDepth, Registration,
};
use rerics::file_item::{LinkKind, SortType};
use rerics::operation::ConflictResolution;

fn builtin(genre: &str, order: u8, required_args: bool) -> Option<Builtin> {
    Some(Builtin {
        label: String::new(),
        genre: genre.to_string(),
        order,
        hint: String::new(),
        required_args,
    })
}

/// A member, with what is known of the commands that the tests name.
fn member(name: &str, callable: bool, arity: u32) -> CompletionMember {
    let builtin = match name {
        "cursorDown" | "cursorUp" | "cursorPath" => builtin("カーソル移動", 0, false),
        "setCursorIndex" => builtin("カーソル移動", 0, true),
        "clearAll" => builtin("選択", 1, false),
        "copy" => builtin("ファイル操作", 2, true),
        _ => None,
    };
    CompletionMember { name: name.to_string(), callable, arity, builtin, script: None }
}

#[test]
fn rank_orders_prefix_initials_label_subsequence() {
    assert_eq!(match_rank("cur", "cursorPath", None), Some(0));
    assert_eq!(match_rank("cp", "cursorPath", None), Some(1));
    assert_eq!(match_rank("削除", "delete", Some("削除")), Some(2));
    assert_eq!(match_rank("cpath", "cursorPath", None), Some(3));
    assert_eq!(match_rank("CUR", "cursorPath", None), Some(0));
    assert_eq!(match_rank("xyz", "cursorPath", None), None);
    assert_eq!(match_rank("", "cursorPath", None), Some(0));
}

#[test]
fn items_group_by_genre_with_label_rows() {
    let members =
        vec![member("copy", true, 3), member("cursorDown", true, 0), member("spawn", true, 1)];
    let items = completion_items(&members, "");
    let displays: Vec<&str> = items.iter().map(|i| i.display.as_str()).collect();
    assert_eq!(
        displays,
        vec![
            "── カーソル移動 ──",
            "cursorDown",
            "── ファイル操作 ──",
            "copy",
            "── スクリプト・API ──",
            "spawn"
        ],
    );
    assert!(items.iter().filter(|i| i.display.starts_with("──")).all(|i| !i.selectable));
}

#[test]
fn items_single_genre_omits_label_row() {
    let members = vec![member("cursorDown", true, 0), member("cursorUp", true, 0)];
    let items = completion_items(&members, "cursor");
    assert!(items.iter().all(|i| i.selectable));
    assert_eq!(items.len(), 2);
}

#[test]
fn fuzzy_match_pulls_strong_group_first() {
    let members = vec![member("copy", true, 3), member("cursorPath", true, 0)];
    let items = completion_items(&members, "cp");
    let displays: Vec<&str> = items.iter().map(|i| i.display.as_str()).collect();
    let pos = |n: &str| displays.iter().position(|x| *x == n).expect(n);
    assert!(pos("cursorPath") < pos("copy"));
}

#[test]
fn items_append_parens_by_arity_and_skip_objects() {
    let members = vec![
        member("cursorDown", true, 0),
        member("setCursorIndex", true, 0),
        member("spawn", true, 1),
        member("fs", false, 0),
    ];
    let items = completion_items(&members, "");
    let find = |n: &str| items.iter().find(|i| i.display == n).expect(n);
    assert_eq!(find("cursorDown").insert, "cursorDown()");
    assert_eq!(find("cursorDown").caret_back, 0);
    assert_eq!(find("setCursorIndex").insert, "setCursorIndex()");
    assert_eq!(find("setCursorIndex").caret_back, 1);
    assert_eq!(find("spawn").caret_back, 1);
    assert_eq!(find("fs").insert, "fs");
}

#[test]
fn items_keep_same_hierarchy_only() {
    let members = vec![
        member("clipboard", false, 0),
        member("clipboard.getText", true, 0),
        member("clipboard.setText", true, 1),
        member("clearAll", true, 0),
    ];
    let top: Vec<String> = completion_items(&members, "cl")
        .into_iter()
        .filter(|i| i.selectable)
        .map(|i| i.display)
        .collect();
    assert_eq!(top, vec!["clearAll", "clipboard"]);
    let sub: Vec<String> =
        completion_items(&members, "clipboard.").into_iter().map(|i| i.display).collect();
    assert_eq!(sub, vec!["clipboard.getText", "clipboard.setText"]);
}

#[test]
fn script_genre_merges_into_builtin_group_and_label_matches() {
    let mut sc = member("organize", true, 0);
    sc.script = Some(ScriptCommand {
        label: Some("整理する".to_string()),
        genre: Some("ファイル操作".to_string()),
        order: 2,
        summary: Some("散らかりを整理".to_string()),
    });
    let members = vec![member("copy", true, 3), member("cursorDown", true, 0), sc];
    let items = completion_items(&members, "");
    let labels: Vec<&str> =
        items.iter().filter(|i| !i.selectable).map(|i| i.display.as_str()).collect();
    assert_eq!(labels, vec!["── カーソル移動 ──", "── ファイル操作 ──"]);
    let hit: Vec<String> = completion_items(&members, "整理")
        .into_iter()
        .filter(|i| i.selectable)
        .map(|i| i.display)
        .collect();
    assert_eq!(hit, vec!["organize"]);
}

#[test]
fn prefix_detects_r_member_access() {
    assert_eq!(completion_prefix("=r.cur"), Some((3, "cur".into())));
    assert_eq!(completion_prefix("=r."), Some((0, "".into())));
    assert_eq!(completion_prefix("=rerics.fold"), Some((4, "fold".into())));
    assert_eq!(completion_prefix("=r.cursorName() + r.cu"), Some((2, "cu".into())));
}

#[test]
fn prefix_rejects_non_r_contexts() {
    assert_eq!(completion_prefix("bar.cur"), None);
    assert_eq!(completion_prefix("=current"), None);
    assert_eq!(completion_prefix("=r"), None);
}

#[test]
fn prefix_detects_namespace_member_access() {
    assert_eq!(completion_prefix("=r.fs.read"), Some((7, "fs.read".into())));
    assert_eq!(completion_prefix("=r.fs."), Some((3, "fs.".into())));
    assert_eq!(completion_prefix("=rerics.env.doc"), Some((7, "env.doc".into())));
    assert_eq!(completion_prefix("=foo.bar.baz"), None);
}

#[test]
fn members_are_joined_with_what_is_known_of_them() {
    let infos = vec![MemberInfo { name: "copy".to_string(), callable: true, arity: 3 }];
    let members = completion_members(infos, vec![builtin("ファイル操作", 2, true)], vec![None]);
    assert_eq!(members[0].name, "copy");
    assert!(members[0].builtin.is_some());
}

#[test]
fn hints_name_the_arguments() {
    let args = vec![
        ArgSpec { name: "path".to_string(), required: true, options: None },
        ArgSpec {
            name: "how".to_string(),
            required: false,
            options: Some(vec!["a".to_string(), "b".to_string()]),
        },
    ];
    assert_eq!(arg_signature(&args), "(path, {a?, b?})");
    assert!(meta_hint(&args, "does it").ends_with("does it"));
    assert_eq!(meta_hint(&vec![], "does it"), "does it");
}

#[test]
fn a_completion_is_taken_over_with_the_keyboard() {
    let members = vec![member("cursorDown", true, 0), member("cursorUp", true, 0)];
    let offer = code_completions(&members, "=r.cur", 6, false);
    let (start, rows) = offer.expect("rows");
    assert_eq!(start, 3);
    let mut completer = Completer::new();
    completer.update(Some((start, rows)), 6);
    assert_eq!(completer.displays().len(), 2);
    let down = completer.key(KeyMessage::Down, 0x28, true, 10);
    assert!(down.consumed);
    let row = completer.selected.expect("selected");
    let insertion = completer.accept(row).expect("insertion");
    assert_eq!((insertion.start, insertion.end), (3, 6));
    assert_eq!(insertion.text, "cursorUp()");
    assert!(completer.range.is_none());
    assert!(completer.accept(row).is_none());
    assert_eq!(page_of(100, Some(20)), 5);
}

#[test]
fn commands_are_offered_by_any_of_their_words() {
    let commands = vec![
        PaletteCommand { display: "Copy コピー".to_string(), token: "Copy".to_string(), detail: None },
        PaletteCommand { display: "Move 移動".to_string(), token: "Move".to_string(), detail: None },
    ];
    let (start, rows) = command_completions(&commands, "コピ", false).expect("rows");
    assert_eq!(start, 0);
    assert_eq!(rows.len(), 1);
    assert_eq!(rows[0].insert, "Copy");
}

/// A time of 1970 and later as the dialog shows it, at Greenwich.
fn format_local(secs: i64) -> String {
    let days = secs.div_euclid(86_400);
    let rest = secs.rem_euclid(86_400);
    let z = days + 719_468;
    let era = z.div_euclid(146_097);
    let doe = z.rem_euclid(146_097);
    let yoe = (doe - doe / 1460 + doe / 36_524 - doe / 146_096) / 365;
    let doy = doe - (365 * yoe + yoe / 4 - yoe / 100);
    let mp = (5 * doy + 2) / 153;
    let d = doy - (153 * mp + 2) / 5 + 1;
    let m = if mp < 10 { mp + 3 } else { mp - 9 };
    let y = yoe + era * 400 + if m <= 2 { 1 } else { 0 };
    format!("{y:04}/{m:02}/{d:02} {:02}:{:02}:{:02}", rest / 3600, rest / 60 % 60, rest % 60)
}

const NOW: i64 = 1_700_000_000;

#[test]
fn shortcut_today_matches_format_local_date_part() {
    let today = shortcut_date(&format_local(shortcut_time(NOW, DateShortcut::Today)));
    assert_eq!(today, format_local(NOW).split(' ').next().unwrap());
    assert_eq!(today.len(), 10, "{today}");
    assert_eq!(today.matches('/').count(), 2, "{today}");
    assert!(parse_date(&today).is_some(), "{today}");
}

#[test]
fn shortcut_past_presets_go_back_in_time() {
    let today = parse_date(&shortcut_date(&format_local(shortcut_time(NOW, DateShortcut::Today))));
    for which in [DateShortcut::Day, DateShortcut::Week, DateShortcut::Month] {
        let past = parse_date(&shortcut_date(&format_local(shortcut_time(NOW, which))));
        assert!(past.is_some());
        assert!(past < today, "{which:?} should be before today");
    }
}

#[test]
fn sizes_are_read_with_their_units() {
    assert_eq!(parse_size("10"), Some(10 * 1024));
    assert_eq!(parse_size(" 2 kb "), Some(2048));
    assert_eq!(parse_size("1MB"), Some(1 << 20));
    assert_eq!(parse_size("3gB"), Some(3 << 30));
    assert_eq!(parse_size("1M"), None);
    assert_eq!(parse_size(""), None);
    assert_eq!(parse_size("x"), None);
}

#[test]
fn a_search_keeps_what_the_user_wrote() {
    let mut form = FindForm::new("*.rs");
    assert_eq!(date_range(form.date_mode, "2024/01/02", "", (Some(5), None)), (None, None));
    form.pick_day("2024/01/02 03:04:05");
    assert_eq!(form.from_date, "2024/01/02");
    form.from_size = "1KB".to_string();
    assert!(find_file_box(false, FindForm::new("*.rs"), (None, None)).is_none());
    let options = find_file_box(true, form, (Some(5), Some(9))).expect("options");
    assert_eq!(options.masks, "*.rs");
    assert_eq!((options.from_date, options.to_date), (Some(5), None));
    assert_eq!(options.min_size, Some(1024));
    assert_eq!(options.max_size, None);
}

#[test]
fn wheel_scroll_clamps_within_list() {
    assert_eq!(scrolled_top(10, 100, 3), 7);
    assert_eq!(scrolled_top(10, 100, -3), 13);
    assert_eq!(scrolled_top(1, 100, 5), 0);
    assert_eq!(scrolled_top(98, 100, -5), 99);
    assert_eq!(scrolled_top(0, 0, -5), 0);
}

#[test]
fn a_list_opens_on_a_row_that_it_has() {
    assert_eq!(initial_row(3, 10), 3);
    assert_eq!(initial_row(12, 10), 9);
    assert_eq!(initial_row(3, 0), 0);
    assert_eq!(list_box(true, Some(2)), Some(2));
    assert_eq!(list_box(false, Some(2)), None);
    assert_eq!(list_box_form("t").title, "t");
}

#[test]
fn names_are_selected_up_to_their_extension() {
    assert_eq!(before_ext_pos("a.txt", false), 1);
    assert_eq!(before_ext_pos("a.txt", true), 5);
    assert_eq!(before_ext_pos(".profile", false), 8);
    assert_eq!(utf16_len("a\u{1F600}"), 3);
    assert_eq!(InputSelect::BeforeExt { is_dir: false }.apply("a.txt"), Some((1, 1)));
    assert_eq!(InputSelect::AsIs.apply("a.txt"), None);
}

#[test]
fn the_other_name_has_its_caret_before_the_extension() {
    assert_eq!(ConflictForm::first_caret("a.tar.gz"), 5);
    assert_eq!(ConflictForm::first_caret(".profile"), 8);
}

#[test]
fn check_boxes_have_three_states() {
    assert_eq!(cb_tristate(Check::On), Some(true));
    assert_eq!(cb_tristate(Check::Off), Some(false));
    assert_eq!(cb_tristate(Check::Kept), None);
    assert_eq!(check_if(true), Check::On);
}

#[test]
fn dialogs_are_counted() {
    let mut depth = ModalDepth::new();
    assert!(!depth.modal_active());
    depth.enter();
    depth.enter();
    depth.leave();
    assert!(depth.modal_active());
    depth.leave();
    assert!(!depth.modal_active());
}

#[test]
fn a_dialog_counts_as_open_while_it_is_shown() {
    let mut depth = ModalDepth::new();
    let mut registry = ModalRegistry::new();
    let d = input_box_full("t", "m", "v", InputMode::Plain, InputSelect::AsIs, None);
    show_modal_guarded(&mut depth, &mut registry, Some(d.registration), "t", 7);
    assert!(depth.modal_active());
    assert_eq!(registry.stack.len(), 1);
    show_modal_guarded(&mut depth, &mut registry, None, "over", 8);
    modal_closed(&mut depth, &mut registry);
    assert!(depth.modal_active());
    assert_eq!(registry.stack[0].kind, "input");
    modal_closed(&mut depth, &mut registry);
    assert!(!depth.modal_active() && registry.stack.is_empty());
    for (n, step) in opening_steps(true, true).into_iter().enumerate() {
        assert_eq!(depth.modal_active(), n > 0);
        depth.follow(step);
    }
    for step in closing_steps(1) {
        assert!(depth.modal_active());
        depth.follow(step);
    }
    assert!(!depth.modal_active());
}

#[test]
fn a_dialog_that_opens_is_registered() {
    let mut registry = ModalRegistry::new();
    let registration = Registration::Plain {
        kind: "message".to_string(),
        title: "t".to_string(),
        prompt: "p".to_string(),
        has_input: false,
        buttons: vec![("OK".to_string(), 1)],
    };
    modal_opened(&mut registry, Some(registration), "t", 42);
    assert_eq!(registry.stack.len(), 1);
    assert_eq!(registry.stack[0].modal_ptr, 42);
    assert_eq!(registry.stack[0].prompt, "p");
}

#[test]
fn the_checked_button_of_a_group_gets_the_focus() {
    let radio = |checked: bool| FocusItem { class: "Button".to_string(), style: 9, checked };
    assert_eq!(focus_initial(&radio(false), &vec![radio(false), radio(true)]), Some(1));
}

#[test]
fn times_come_from_a_menu() {
    assert_eq!(quick_time_menu(0, "now", "midnight"), None);
    assert_eq!(quick_time_menu(1, "now", "midnight"), Some("now".to_string()));
    assert_eq!(quick_time_menu(2, "now", "midnight"), Some("midnight".to_string()));
}

#[test]
fn sorting_is_chosen_from_a_list() {
    let form = sort_box_form(SortType::FileName, false);
    assert!(form.controls.iter().any(|c| c.kind == ControlKind::Radio));
    assert_eq!(sort_box(true, Some(6), true, false), Some((SortType::FileName, true)));
    assert_eq!(sort_box(true, Some(6), false, true), Some((SortType::FileNameExpLike, false)));
    assert_eq!(sort_box(true, None, false, false), Some((SortType::FileName, false)));
    assert_eq!(sort_box(false, Some(6), true, false), None);
}

#[test]
fn comparing_is_chosen_from_lists() {
    assert!(compare_options_box(false, Some(1), None, true, false, true).is_none());
    let options = compare_options_box(true, Some(1), None, true, false, true).expect("options");
    assert_eq!(options.date, selected_condition(Some(1)));
    assert_eq!(options.size, CompareCondition::Ignored);
    assert!(options.recurse && !options.show_added && options.show_deleted);
}

#[test]
fn links_and_additions_are_chosen() {
    assert_eq!(link_kind_box(true, None, true, true, LinkKind::Junction), Some(LinkKind::Junction));
    assert_eq!(link_kind_box(true, Some(2), false, true, LinkKind::Junction), Some(LinkKind::Shortcut));
    assert_eq!(link_kind_box(false, Some(2), true, true, LinkKind::Junction), None);
    assert_eq!(link_kinds_enabled(true, false).iter().filter(|e| **e).count(), 2);
    assert_eq!(archive_add_box(true, Some(1)), Some(ArchiveAddMode::Rebuild));
    assert_eq!(archive_add_box(true, None), Some(ArchiveAddMode::Append));
    assert_eq!(archive_add_box(false, Some(1)), None);
    assert!(archive_add_box_form("three").controls.iter().any(|c| c.text == "three"));
    assert_eq!(about_box("about", "body").title, "about");
}

fn defaults() -> CompressDefaults {
    CompressDefaults {
        zip: "a.zip".to_string(),
        sevenz: "a.7z".to_string(),
        xz: "a.tar.xz".to_string(),
    }
}

#[test]
fn the_name_of_an_archive_follows_its_format() {
    let d = defaults();
    let mut form = CompressForm::new(&d);
    assert_eq!(form.name, "a.zip");
    form.choose_format(1, &d);
    assert_eq!(form.name, "a.7z");
    let mut tried = CompressForm::new(&d);
    tried.write_name("x".to_string());
    tried.write_name("a.zip".to_string());
    tried.choose_format(1, &d);
    assert_eq!(tried.name, "a.zip");
    form.write_name("mine".to_string());
    form.choose_format(2, &d);
    assert_eq!(form.name, "mine");
    let choice = compress_box(true, form);
    assert_eq!(
        choice,
        Some(CompressChoice {
            name: "mine".to_string(),
            one_by_one: false,
            format: CompressFormat::Xz
        })
    );
    assert_eq!(compress_box(false, CompressForm::new(&d)), None);
}

#[test]
fn a_conflict_is_resolved_as_picked() {
    let mut form = ConflictForm::new("a.txt");
    form.pick(3, "a.txt");
    form.rename = "b.txt".to_string();
    assert_eq!(
        conflict_box(true, form),
        (ConflictResolution::Rename("b.txt".to_string()), false)
    );
    let form = ConflictForm::new("a.txt");
    assert_eq!(conflict_box(false, form).0, ConflictResolution::Cancel);
    assert!(conflict_box_form("a.txt").controls.len() > 5);
}

#[test]
fn what_is_written_is_what_is_given() {
    assert_eq!(input_result(true, "x".to_string()), Some("x".to_string()));
    assert_eq!(input_result(false, "x".to_string()), None);
    assert!(multiline("a\nb"));
    assert!(!multiline("ab"));
    let kind = |d: &rerics::dialog::input::InputDialog| d.form.controls[1].kind;
    let texts = || Some(vec!["old".to_string()]);
    let secret =
        input_box_full("t", "m", "v", InputMode::Password, InputSelect::All, texts());
    assert_eq!(kind(&secret), ControlKind::Password);
    assert!(secret.history.is_empty());
    assert_eq!(secret.selection, Some((0, 1)));
    let combo = input_box_full("t", "m", "v", InputMode::Plain, InputSelect::All, texts());
    assert_eq!(kind(&combo), ControlKind::Combo);
    assert_eq!(combo.history, ["old"]);
    assert_eq!(combo.selection, None);
    let before_ext = InputSelect::BeforeExt { is_dir: false };
    let combo = input_box_full("t", "m", "a.txt", InputMode::Plain, before_ext, texts());
    assert_eq!(combo.selection, None);
    let name = input_box_select("t", "m", "a.txt", InputMode::Plain, before_ext);
    assert_eq!(kind(&name), ControlKind::Edit);
    assert_eq!(name.selection, Some((1, 1)));
    let plain = input_box("t", "m", "v", InputMode::Plain);
    assert_eq!(plain.selection, None);
    assert_eq!((plain.form.w, plain.form.h), (360, 150));
    assert_eq!(told(plain.registration), ("input".to_string(), "t".to_string(), "m".to_string(), true));
    let code = code_box("m", "a\nb", Some((100, 700)), (1000, 800), true);
    assert!(code.expanded);
    assert_eq!((code.window.w, code.window.h), (360, 700));
    assert_eq!(code.window.least, Some((360, 300)));
    assert!(code.window.sys_menu && code.window.size_box);
    assert!(!code.window.visible && code.window.no_activate);
    assert_eq!(code.form.controls[2].h, 150);
    let (form, registration) = command_box("m");
    assert_eq!(form.title, "コマンドを実行");
    assert_eq!(told(registration).1, "コマンドを実行");
}

/// What is told of a dialog without a list: its kind, title and prompt, and whether it has an
/// input.
fn told(registration: Registration) -> (String, String, String, bool) {
    match registration {
        Registration::Plain { kind, title, prompt, has_input, .. } => {
            (kind, title, prompt, has_input)
        }
        _ => panic!("a list"),
    }
}

fn buttons(registration: &Registration) -> Vec<(String, u16)> {
    match registration {
        Registration::Plain { buttons, .. }
        | Registration::List { buttons, .. }
        | Registration::ListView { buttons, .. } => buttons.clone(),
    }
}

fn pair(label: &str, id: u16) -> (String, u16) {
    (label.to_string(), id)
}

#[test]
fn every_dialog_tells_of_itself() {
    let both = vec![pair("OK", 1), pair("キャンセル", 2)];
    for (registration, kind, has_input) in [
        (conflict_registration("a.txt"), "conflict", true),
        (compress_registration(), "compress", true),
        (rename_registration(), "rename", true),
        (sort_registration(), "sort", false),
        (compare_registration(), "directory_compare", false),
        (link_registration(), "link_kind", true),
        (archive_add_registration("s"), "archive_add", true),
    ] {
        assert_eq!(buttons(&registration), both);
        let (k, _, prompt, input) = told(registration);
        assert_eq!((k.as_str(), input), (kind, has_input));
        assert!(!prompt.is_empty());
    }
    let find = find_registration();
    assert_eq!(buttons(&find), [pair("検索開始", 1), pair("キャンセル", 2)]);
    assert_eq!(told(find).0, "find_file");
    let about = about_registration("t", "body");
    assert_eq!(buttons(&about), [pair("閉じる", 1)]);
    assert_eq!(told(about).2, "body");
    let ask = message_registration("t", "m", MessageStyle::YesNoCancel);
    assert_eq!(
        buttons(&ask),
        [pair("はい(&Y)", 1), pair("いいえ(&N)", 2), pair("キャンセル", 102)]
    );
    let note = message_registration("t", "m", MessageStyle::OkOnly);
    assert_eq!(buttons(&note), [pair("OK", 2)]);
    match list_registration("t", vec!["a".to_string(), "b".to_string()], 7) {
        Registration::List { kind, items, selected, .. } => {
            assert_eq!((kind.as_str(), items.len(), selected), ("list", 2, 1));
        }
        _ => panic!("no list"),
    }
}

#[test]
fn shift_answers_for_all() {
    let all = MessageStyle::YesNoAll;
    assert!(all_after_key(all, false, KeyMessage::Down, 0x10));
    assert!(!all_after_key(all, true, KeyMessage::Up, 0x10));
    assert!(all_after_key(all, true, KeyMessage::Char, 0x10));
    assert!(!all_after_key(MessageStyle::YesNo, false, KeyMessage::Down, 0x10));
    assert!(all_after_key(all, true, KeyMessage::Up, 0x11));
}

#[test]
fn windows_of_dialogs_stay_behind_without_a_screen() {
    let shown = modal_window("t", 10, 20, false);
    assert!(shown.visible && !shown.no_activate && !shown.sys_menu);
    assert!(modal_window_sysmenu("t", 10, 20, true).sys_menu);
    let list = list_window("t", None, (1000, 800), false);
    assert_eq!((list.w, list.h, list.least), (420, 320, Some((280, 200))));
    assert_eq!(opening_steps(true, false), [Step::Enter, Step::FocusFirst, Step::Register, Step::Own(0)]);
    assert_eq!(
        opening_steps(false, true),
        [
            Step::Enter,
            Step::FocusFirst,
            Step::Register,
            Step::ShowQuietly,
            Step::FocusAgain,
            Step::Redraw
        ]
    );
    assert_eq!(closing_steps(2), [Step::Own(0), Step::Own(1), Step::Unregister, Step::Leave]);
}

#[test]
fn the_dialog_on_top_sees_the_keys() {
    let mut hook = KeyHook::new();
    assert_eq!(hook.observer_of(WM_KEYDOWN), None);
    hook.push(7);
    hook.push(8);
    assert_eq!(hook.observer_of(WM_CHAR), Some(8));
    assert_eq!(hook.observer_of(0x0200), None);
    hook.pop();
    assert_eq!(hook.observer_of(WM_KEYUP), Some(7));
    assert_eq!(key_message(WM_KEYUP), Some(KeyMessage::Up));
    assert!(sub_proc(None) && sub_proc(Some(false)) && !sub_proc(Some(true)));
}

#[test]
fn what_stands_before_the_caret_is_completed() {
    assert_eq!(text_before_caret("abc", 2), ("ab".to_string(), 2));
    assert_eq!(text_before_caret("abc", 9), ("abc".to_string(), 3));
    assert_eq!(text_before_caret("a\u{1F600}b", 2), ("a\u{FFFD}".to_string(), 2));
    assert_eq!(text_before_caret("a\u{1F600}b", 3), ("a\u{1F600}".to_string(), 3));
    let members = vec![member("cursorDown", true, 0), member("cursorUp", true, 0)];
    let mut completer = Completer::new();
    completer.refresh_code(&members, "=r.cur + 1", 6, false);
    assert_eq!(completer.range, Some((3, 6)));
    assert_eq!(completer.rows.len(), 2);
    completer.refresh_code(&members, "=r.cur + 1", 10, false);
    assert_eq!(completer.range, None);
    let commands = vec![PaletteCommand {
        display: "Copy".to_string(),
        token: "copy()".to_string(),
        detail: None,
    }];
    completer.refresh_commands(&commands, "co", 2, false);
    assert_eq!(completer.range, Some((0, 2)));
    completer.refresh_commands(&commands, "COPY()", 6, false);
    assert_eq!(completer.range, None);
    completer.refresh_commands(&commands, "COPY()", 6, true);
    assert_eq!(completer.selected, Some(0));
}

#[test]
fn the_wheel_scrolls_a_list_by_notches() {
    assert_eq!(wheeled_top(120, 3, 10, 100), Some(7));
    assert_eq!(wheeled_top(-250, 3, 10, 100), Some(16));
    assert_eq!(wheeled_top(119, 3, 10, 100), None);
    assert_eq!(wheeled_top(-119, 3, 10, 100), None);
}

#[test]
fn dialogs_keep_their_size_as_far_as_the_screen_goes() {
    assert_eq!(resolve_dialog_size(None, (400, 300), (200, 100), (1000, 800)), (400, 300));
    assert_eq!(
        resolve_dialog_size(Some((500, 350)), (400, 300), (200, 100), (1000, 800)),
        (500, 350)
    );
    assert_eq!(
        resolve_dialog_size(Some((50, 50)), (400, 300), (200, 100), (1000, 800)),
        (200, 100)
    );
    assert_eq!(to_logical(150, 1500), 100);
    assert!(code_box_geometry(true).1 > code_box_geometry(false).1);
}

#[test]
fn the_buttons_of_a_list_stand_side_by_side() {
    let m = ListMeasures { margin_x: 10, margin_y: 10, button_h: 20, gap: 5, button_gap: 4 };
    let (list, buttons) = relayout_list_dialog(m, &vec![50, 60], 400, 300);
    assert_eq!(buttons.len(), 2);
    assert_eq!(buttons[0].x + buttons[0].w, 390);
    assert_eq!(buttons[1].x + buttons[1].w + 4, buttons[0].x);
    assert!(list.y + list.h <= buttons[0].y);
}

#[test]
fn messages_answer_as_their_buttons_say() {
    assert_eq!(message_box(MessageStyle::YesNo, Some(0), false), MessageResult::Yes);
    assert_eq!(message_box(MessageStyle::YesNo, Some(1), false), MessageResult::No);
    assert_eq!(message_box(MessageStyle::OkOnly, None, false), MessageResult::Okay);
    assert_eq!(finalize(MessageResult::Yes, true), MessageResult::YesAll);
    assert_eq!(finalize(MessageResult::No, true), MessageResult::NoAll);
    assert_eq!(finalize(MessageResult::Cancel, true), MessageResult::Cancel);
    for code in 0..40 {
        if let Some(style) = MessageStyle::from_code(code) {
            assert_eq!(style.code(), code);
        }
    }
    let form = message_box_form("t", "text", MessageStyle::YesNo, 300, 40);
    assert_eq!(form.controls.iter().filter(|c| c.text == "text").count(), 1);
}

#[test]
fn messages_are_wrapped_and_measured() {
    assert_eq!(measure_width(&vec![], 1000), 300);
    assert_eq!(measure_width(&vec![5000], 1000), 560);
    assert_eq!(measure_height(2, 20, 1000), 46);
    let cut = |text: &str| -> Vec<Vec<i32>> {
        let n = text.chars().count();
        (0..n).map(|from| (0..=n).map(|to| (to.max(from) - from) as i32 * 10).collect()).collect()
    };
    let pieces = wrap_line("abcdef", &cut("abcdef"), 30);
    assert_eq!(pieces, vec![(0, 3), (3, 6)]);
    let lines = measure_message("abcdef\ngh", &vec![cut("abcdef"), cut("gh")], 30);
    assert_eq!(lines, ["abc", "def", "gh"]);
}

fn subject() -> RenameSubject {
    RenameSubject {
        single: Some("a.txt".to_string()),
        is_dir: false,
        count: 1,
        attrs: FileAttrs { readonly: true, hidden: false, system: false, archive: false },
        modified: Some("2024/01/02 03:04:05".to_string()),
        created: None,
    }
}

#[test]
fn renaming_gives_what_was_changed() {
    let mut form = RenameForm::new(&subject());
    assert_eq!(form.name, "a.txt");
    assert_eq!(form.readonly, Check::On);
    assert!(form.name_enabled());
    assert_eq!(form.caret(), Some(1));
    form.name = "b.txt".to_string();
    let result = rename_box(true, form, Some(7), None).expect("result");
    assert_eq!(result.name.as_deref(), Some("b.txt"));
    assert_eq!(result.attrs[0], Some(true));
    assert_eq!((result.modified, result.created), (Some(7), None));
    assert!(rename_box(false, RenameForm::new(&subject()), None, None).is_none());
    assert!(rename_box_form(&subject()).controls.len() > 8);
    assert!(case_menu(false, NameCase::Kept).iter().any(|e| e.checked));
}

#[test]
fn dialogs_hold_what_they_ask_for() {
    let compress = compress_box_form("a.zip");
    assert_eq!((compress.title.as_str(), compress.w, compress.h), ("圧縮", 380, 208));
    assert_eq!(compress.controls.len(), 9);
    assert_eq!(compress.controls[1].text, "a.zip");
    let find = find_file_box_form("*.rs");
    assert_eq!(find.controls[1].text, "*.rs");
    assert_eq!((find.controls[10].id, find.controls[10].text.as_str()), (11, "今日"));
    let compare = compare_options_box_form();
    assert_eq!((compare.title.as_str(), compare.controls.len()), ("ディレクトリ比較", 17));
    let link = link_kind_box_form(rerics::file_item::LinkKind::Junction);
    assert_eq!(link.title, "リンクの作成");
    assert_eq!(link.controls.len(), 6);
}

#[test]
fn the_code_dialog_makes_room_for_its_list() {
    let m = code_measures();
    let small = relayout_code_box(m, 480, 400, false);
    assert_eq!((small.edit.x, small.edit.y, small.edit.w, small.edit.h), (16, 38, 448, 24));
    assert_eq!((small.list.y, small.list.h), (74, 272));
    assert_eq!((small.cancel.x, small.cancel.y, small.ok.x), (378, 358, 290));
    assert_eq!((small.mode.x, small.label.w), (372, 348));
    let large = relayout_code_box(m, 480, 400, true);
    assert_eq!((large.list.y, large.list.h, large.edit.h), (196, 150, 146));
    let flat = relayout_code_box(m, 10, 10, true);
    assert_eq!((flat.edit.w, flat.list.h, flat.edit.h), (1, 40, 40));
    assert_eq!(list_measures(14, 26).gap, 12);
}

#[test]
fn a_way_to_change_names_is_picked() {
    let mut form = RenameForm::new(&subject());
    assert!(form.menu_enabled());
    form.sub_time = true;
    assert!(!form.menu_enabled());
    let single = form.is_single;
    let caret = form.pick_case(0, "Aあ");
    assert_eq!(caret.is_some(), single);
    if single {
        assert_eq!((form.name.as_str(), caret), ("Aあ", Some(2)));
    }
}

#[test]
fn earlier_archives_are_offered() {
    let defaults = CompressDefaults {
        zip: "a.zip".to_string(),
        sevenz: "a.7z".to_string(),
        xz: "a.tar.xz".to_string(),
    };
    let d = open_compress_box(&defaults, vec!["new.zip".to_string(), "old.7z".to_string()]);
    assert_eq!(d.history, ["new.zip", "old.7z"]);
    assert_eq!((d.fields.name.as_str(), d.form.controls[1].text.as_str()), ("a.zip", "a.zip"));
    assert!(open_compress_box(&defaults, Vec::new()).history.is_empty());
}

#[test]
fn only_one_directory_changes_what_is_below() {
    let mut dir = subject();
    dir.is_dir = true;
    let mut form = RenameForm::new(&dir);
    form.sub_attr = true;
    let result = rename_box(true, form, None, None).expect("result");
    assert!(result.sub_attr && !result.sub_time);
    assert_eq!(result.name_case, NameCase::Kept);
    assert!(result.attrs.iter().all(|a| a.is_some()));
    let mut many = subject();
    many.single = None;
    let mut form = RenameForm::new(&many);
    assert_eq!(form.pick_case(2, ""), None);
    let result = rename_box(true, form, None, None).expect("result");
    assert_eq!((result.name, result.name_case), (None, NameCase::Upper));
    assert!(result.attrs.iter().all(|a| a.is_none()));
    assert!(!result.sub_attr && !result.sub_time);
}
