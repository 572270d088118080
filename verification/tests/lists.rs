//! The list of files, what can be done in archives, and dragging.

use rerics::archive::ArchiveEntry;
use rerics::archive_ctl::{
    add_label, add_targets, add_to_archive, archive_extract_marker, archive_identity,
    archive_key, archive_temp_dir, archive_temp_root, block_if_archive, cancel_archive_load, capped,
    cleanup_unreferenced_temps, delete_in_archive, entry_is_encrypted, exit_archive_to_parent,
    extract_description, extract_from_archive, extract_outcome, inner_to_pathbuf, item_to_rename,
    make_directory_in_archive, maybe_start_archive_extract, pane_in_archive, read_pane_file,
    register_archive_temp, remove_after_add, rename_in_archive, safe_inner_path, scratch_path,
    selected_or_cursor_names, start_archive_add, start_archive_op, sweep_dead_pid_temps, AddRun,
    ArchiveCaps, ArchiveOp, ArchiveOutcome, Contents, EntryAsk, EntryEffect, EntryReply, EntryRun, EntryState,
    ExtractDecision, ExtractProgress, PaneFile, TempDir, UnpackAsk, UnpackAt, UnpackReply,
    UnpackRun, Wish, EXISTS, NO_ADD, NO_MKDIR, NO_REMOVE, NO_RENAME, PASSWORD_NEEDED,
    PASSWORD_WRONG, SAME_NAME,
};
use rerics::dialog::choices::ArchiveAddMode;
use rerics::dnd::{can_begin_drag, drag_result, query_continue_drag, DragStep, DropEffect};
use rerics::file_item::{
    Align, Column, ColumnKind, FileItem, FileListState, SortType, TICKS_PER_SECOND,
};
use rerics::file_list::fit::{autofit_columns, ColumnMeasure};
use rerics::file_list::paint::{
    cell_at, cell_point, cell_text_whole, cell_tooltip_at, draw_3d_frame, draw_name_with_highlight,
    draw_parent_arrow, faded, fill_bar, is_highlighted, link_is_drawn, link_place, link_text,
    loading_place, name_runs, paint_to, sort_glyph, sort_match, text_area, CellText, DrawOp, Edges, Fade,
    Look, Paint, Run, Span,
};
use rerics::file_list::{
    column_at, cursor_row_rect, drive_letter, drop_target_at, finish_drop, hit_column_border,
    icons_visible, item_mtime, menu_anchor, on_l_button_dbl_clk, on_size, resolve_move, row_at,
    same_drive, scroll_by_wheel, scrollbar_geom, shows_resize, sort_by_column, start_drag,
    text_margin, thumbnail_box_logical, update_drop_feedback, wheel_lines,
    DropPlace, FileListView, IconSide, ListAction, Metrics, Mouse, MouseEvent, Point,
};
use rerics::geometry::Rect;
use rerics::licenses::{html_unescape, licenses_text, replace_all, to_crlf, NO_LICENSES};
use rerics::operation::OpSummary;
use rerics::unpacking::{AllAsk, AllLine, AllReply, AllRun, Signal};
use rerics::vfs::Location;

#[test]
fn wheel_lines_uses_os_setting() {
    assert_eq!(wheel_lines(1, 3, 20), 3);
    assert_eq!(wheel_lines(-2, 3, 20), -6);
    assert_eq!(wheel_lines(1, 0, 20), 0);
    assert_eq!(wheel_lines(1, u32::MAX, 20), 20);
    assert_eq!(wheel_lines(-1, u32::MAX, 20), -20);
}

fn metrics() -> Metrics {
    Metrics {
        client_w: 400,
        client_h: 224,
        font_height: 16,
        icons_visible: false,
        thumbnail: false,
        thumbnail_box: 96,
        icon: IconSide::Fit { usual: 16 },
        shell_icon: 32,
        scrollbar_width: 12,
        min_thumb: 16,
    }
}

fn item(name: &str, is_dir: bool) -> FileItem {
    FileItem::plain(name.to_string(), is_dir, false)
}

fn column(kind: ColumnKind, text: &str, width: i32) -> Column {
    Column { kind, text: text.to_string(), width, align: Align::Left }
}

/// A list of a way up and `n` files, in two columns.
fn list(n: usize) -> FileListState {
    let mut state = FileListState::new();
    state.items.push(FileItem::parent());
    for i in 0..n {
        state.items.push(item(&format!("f{i}"), false));
    }
    state.columns = vec![
        column(ColumnKind::FileName, "名前", 200),
        column(ColumnKind::Length, "サイズ", 80),
    ];
    state
}

fn widths() -> Vec<i32> {
    vec![200, 80]
}

#[test]
fn rows_have_their_heights() {
    let m = metrics();
    assert_eq!((m.header_height(), m.item_height(), m.page_rows()), (24, 16, 12));
    let icons = Metrics { icons_visible: true, icon: IconSide::Fixed { side: 32 }, ..m };
    assert_eq!((icons.item_height(), icons.icon_px(), icons.icon_cap()), (32, 32, 32));
    let thumbs = Metrics { icons_visible: true, thumbnail: true, ..m };
    assert_eq!((thumbs.item_height(), thumbs.icon_px(), thumbs.icon_cap()), (96, 95, 32));
    assert_eq!(Metrics { client_h: 3, ..m }.page_rows(), 1);
}

#[test]
fn points_are_in_rows_and_columns() {
    let (m, mut s) = (metrics(), list(5));
    assert_eq!(row_at(&m, &s, 23), None);
    assert_eq!(row_at(&m, &s, 24), Some(0));
    assert_eq!(row_at(&m, &s, 24 + 16 * 5), Some(5));
    assert_eq!(row_at(&m, &s, 24 + 16 * 6), None);
    assert_eq!(column_at(&widths(), 199), Some(0));
    assert_eq!(column_at(&widths(), 200), Some(1));
    assert_eq!(column_at(&widths(), 280), None);
    assert_eq!(hit_column_border(&widths(), 204), Some(0));
    assert_eq!(hit_column_border(&widths(), 205), None);
    s.cursor = 2;
    assert_eq!(cursor_row_rect(&m, &s), Some(Rect { x: 0, y: 56, w: 400, h: 16 }));
    assert_eq!(menu_anchor(&m, &s), (8, 72));
    s.scroll_top = 3;
    assert_eq!(cursor_row_rect(&m, &s), None);
    assert_eq!(menu_anchor(&m, &s), (8, 24));
    let (page, mut long) = (m.page_rows(), list(99));
    long.scroll_top = 3;
    long.cursor = 3 + page;
    let cut = 24 + 16 * page as i64;
    assert_eq!(cursor_row_rect(&m, &long), Some(Rect { x: 0, y: cut, w: 400, h: 16 }));
    assert_eq!(menu_anchor(&m, &long), (8, cut + 16));
    long.cursor = 4 + page;
    assert_eq!(cursor_row_rect(&m, &long), None);
    assert_eq!(menu_anchor(&m, &long), (8, 24));
    assert!(shows_resize(&Mouse::idle(), &m, &widths(), 200, 5));
    assert!(!shows_resize(&Mouse::idle(), &m, &widths(), 200, 50));
    assert_eq!(on_l_button_dbl_clk(&m, &s, 24), Some(ListAction::Activate { row: 3 }));
}

#[test]
fn the_thumb_shows_how_far_a_list_is_scrolled() {
    let (m, mut s) = (metrics(), list(5));
    assert!(scrollbar_geom(&m, &s).is_none());
    s = list(47);
    let top = scrollbar_geom(&m, &s).unwrap();
    assert_eq!((top.bar_x, top.track_top, top.track_h), (388, 24, 200));
    assert_eq!((top.thumb_top, top.thumb_h), (24, 50));
    s.scroll_top = 36;
    let end = scrollbar_geom(&m, &s).unwrap();
    assert_eq!(end.thumb_top + end.thumb_h, 224);
    assert_eq!(
        scroll_by_wheel(-240, 3, &m, 4),
        vec![
            ListAction::ScrollTo { top: 10, page: 12 },
            ListAction::CursorIntoView { page: 12 },
            ListAction::Refresh
        ]
    );
}

#[test]
fn the_thumb_is_dragged() {
    let (m, s) = (metrics(), list(47));
    let mut mouse = Mouse::idle();
    let down = mouse.on_l_button_down(&m, &widths(), &s, Point { x: 390, y: 30 }, false, false);
    assert_eq!(down, vec![ListAction::GotFocus]);
    assert_eq!(mouse.sb_drag, Some(6));
    let reach = Point { x: 4, y: 4 };
    let moved = mouse.on_mouse_move(&m, &s, Point { x: 390, y: 180 }, true, reach, 96);
    assert_eq!(moved[0], ListAction::ScrollTo { top: 36, page: 12 });
    assert!(mouse.on_l_button_up(&m, 0, false, false).is_empty());
    assert_eq!(mouse.sb_drag, None);
    let page = mouse.on_l_button_down(&m, &widths(), &s, Point { x: 390, y: 200 }, false, false);
    assert_eq!(page[1], ListAction::ScrollTo { top: 12, page: 12 });
}

#[test]
fn a_click_selects_and_a_second_one_drags() {
    let (m, s) = (metrics(), list(5));
    let mut mouse = Mouse::idle();
    let at = Point { x: 20, y: 60 };
    let down = mouse.on_l_button_down(&m, &widths(), &s, at, false, false);
    assert_eq!(
        down,
        vec![
            ListAction::GotFocus,
            ListAction::TakeFocus,
            ListAction::PutCursor { row: 2 },
            ListAction::ClearAll,
            ListAction::SelectFile { row: 2, page: 12 },
            ListAction::Refresh
        ]
    );
    assert_eq!(mouse.event, MouseEvent::RowClick);
    let reach = Point { x: 4, y: 4 };
    let near = mouse.on_mouse_move(&m, &s, Point { x: 22, y: 61 }, true, reach, 96);
    assert_eq!(near, vec![ListAction::Hover { at: Point { x: 22, y: 61 } }]);
    let far = mouse.on_mouse_move(&m, &s, Point { x: 30, y: 61 }, true, reach, 96);
    assert_eq!(far, vec![ListAction::StartDrag]);
    assert!(start_drag(false, 1) && !start_drag(true, 1) && !start_drag(false, 0));
    let up = mouse.on_l_button_up(&m, 2, false, false);
    assert_eq!(up[1], ListAction::SelectFile { row: 2, page: 12 });
    assert_eq!(mouse, Mouse::idle());
    let ctrl = mouse.on_l_button_down(&m, &widths(), &s, at, true, false);
    assert!(ctrl.contains(&ListAction::ReverseFile { row: 2, page: 12 }));
    let shift = mouse.on_l_button_down(&m, &widths(), &s, at, false, true);
    assert!(shift.contains(&ListAction::SelectFiles { from: 0, to: 2 }));
}

#[test]
fn columns_are_sorted_by_and_resized() {
    let (m, s) = (metrics(), list(5));
    let mut mouse = Mouse::idle();
    mouse.on_l_button_down(&m, &widths(), &s, Point { x: 100, y: 5 }, false, false);
    assert_eq!(
        mouse.on_l_button_up(&m, 0, false, false),
        vec![ListAction::SortBy { col: 0 }, ListAction::Refresh]
    );
    mouse.on_l_button_down(&m, &widths(), &s, Point { x: 202, y: 5 }, false, false);
    let reach = Point { x: 4, y: 4 };
    let moved = mouse.on_mouse_move(&m, &s, Point { x: 252, y: 5 }, true, reach, 192);
    assert_eq!(moved[0], ListAction::SetWidth { col: 0, width: 125 });
    let narrow = mouse.on_mouse_move(&m, &s, Point { x: -900, y: 5 }, true, reach, 96);
    assert_eq!(narrow[0], ListAction::SetWidth { col: 0, width: 8 });
    assert_eq!(
        sort_by_column(SortType::Length, SortType::Length, false),
        (SortType::Length, true)
    );
    assert_eq!(
        sort_by_column(SortType::Length, SortType::FileName, true),
        (SortType::Length, false)
    );
}

fn strings(all: &[&str]) -> Vec<String> {
    all.iter().map(|s| s.to_string()).collect()
}

#[test]
fn drives_are_told_by_their_letters() {
    assert_eq!(drive_letter("c:\\x"), Some('C'));
    assert_eq!(drive_letter("\\\\?\\d:\\x"), Some('D'));
    assert_eq!(drive_letter("\\\\server\\share\\x"), None);
    assert_eq!(drive_letter("\\\\?\\UNC\\server\\share"), None);
    assert_eq!(drive_letter("x"), None);
    assert!(same_drive("C:\\a", "c:\\b"));
    assert!(!same_drive("\\\\s\\a\\x", "\\\\s\\a\\y"));
}

#[test]
fn files_are_moved_on_one_drive_and_copied_else() {
    let sources = strings(&["C:\\a\\f"]);
    assert!(resolve_move(&sources, "C:\\b", false, false));
    assert!(!resolve_move(&sources, "D:\\b", false, false));
    assert!(!resolve_move(&sources, "C:\\b", true, true));
    assert!(resolve_move(&sources, "D:\\b", false, true));
}

#[test]
fn what_is_shown_is_what_a_drop_does() {
    let items = vec![FileItem::parent(), item("d", true), item("f", false)];
    let dir = Some("C:\\x".to_string());
    let into = drop_target_at(&dir, &items, Some(1));
    assert_eq!(into, Some(DropPlace { dir: "C:\\x\\d".to_string(), row: Some(1) }));
    let here = drop_target_at(&dir, &items, Some(0));
    assert_eq!(here, Some(DropPlace { dir: "C:\\x".to_string(), row: None }));
    assert_eq!(drop_target_at(&None, &items, Some(1)), None);
    let sources = strings(&["C:\\y\\g"]);
    assert_eq!(
        update_drop_feedback(&sources, &into, false, false),
        (DropEffect::Move, Some(1))
    );
    assert_eq!(
        finish_drop(&sources, into, false, false),
        Some(("C:\\x\\d".to_string(), true))
    );
    let own = strings(&["C:\\x\\f"]);
    assert_eq!(update_drop_feedback(&own, &here, false, false), (DropEffect::NoEffect, None));
    assert_eq!(finish_drop(&own, here, false, false), None);
}

#[test]
fn drags_end_with_a_key_or_a_button() {
    assert_eq!(query_continue_drag(true, true), DragStep::Cancel);
    assert_eq!(query_continue_drag(false, false), DragStep::Drop);
    assert_eq!(query_continue_drag(false, true), DragStep::Continue);
    assert!(can_begin_drag(2, 1) && !can_begin_drag(2, 0) && !can_begin_drag(0, 0));
    assert_eq!(drag_result(false, true, DropEffect::Copy), Some(DropEffect::Copy));
    assert_eq!(drag_result(false, true, DropEffect::NoEffect), None);
    assert_eq!(drag_result(false, false, DropEffect::Move), None);
    assert_eq!(drag_result(true, true, DropEffect::Move), None);
}

#[test]
fn a_view_tells_what_changed_only() {
    let mut view = FileListView::new(0);
    assert!(view.set_cursor_visible(true));
    assert!(!view.set_cursor_visible(true));
    let mut s = list(2);
    assert_eq!(view.refresh(&s), Some((0, 0)));
    assert_eq!(view.refresh(&s), None);
    s.items[1].selected = true;
    s.items[1].size = Some(5);
    assert_eq!(view.refresh(&s), Some((1, 5)));
    let (on, actions) = view.toggle_thumbnail(&metrics(), 3);
    let page = Metrics { thumbnail: true, ..metrics() }.page_rows();
    assert!(on && view.thumbnail);
    assert_eq!(actions, vec![ListAction::ScrollTo { top: 3, page }, ListAction::Refresh]);
    assert!(!view.is_loading() && !view.tick_loading() && !view.clear_loading());
    view.set_loading();
    assert!(view.is_loading() && view.tick_loading());
    assert_eq!(view.loading.as_ref().unwrap().frame, 1);
    assert!(view.clear_loading());
    let g = view.bump_load_gen();
    assert_eq!(view.load_gen(), g);
    assert!(view.set_drop_hover(Some(1)) && !view.set_drop_hover(Some(1)));
    let mut f = item("x", false);
    f.modified = Some(9 * TICKS_PER_SECOND + 99);
    assert_eq!((item_mtime(&f), item_mtime(&item("y", false))), (9, 0));
    f.modified = Some(-TICKS_PER_SECOND);
    assert_eq!(item_mtime(&f), 0);
}

fn look() -> Look {
    Look {
        m: metrics(),
        cursor_visible: true,
        margin: 6,
        gap: 2,
        font_size: 10,
        default_sort: SortType::FileName,
        default_reverse: false,
        on_disk: true,
        drop_hover_row: None,
        bottom: 11,
    }
}

fn written(text: &str) -> CellText {
    CellText {
        text: text.to_string(),
        shown: text.to_string(),
        shown_w: text.len() as i32 * 8,
        found: vec![],
        part_w: vec![],
        link: String::new(),
    }
}

fn texts(s: &FileListState) -> Vec<Vec<CellText>> {
    s.items.iter().map(|i| vec![written(&i.name), written("")]).collect()
}

fn edges(left: i64, top: i64, right: i64, bottom: i64) -> Edges {
    Edges { left, top, right, bottom }
}

#[test]
fn a_list_is_drawn_from_back_to_front() {
    let mut s = list(1);
    s.cursor = 1;
    s.items[1].selected = true;
    let look = Look { drop_hover_row: Some(0), ..look() };
    let ops = paint_to(&look, &s, &widths(), &vec![30, 40], &texts(&s), &vec![], None);
    assert_eq!(
        ops[0],
        DrawOp::Fill { area: edges(0, 0, 400, 224), paint: Paint::Background }
    );
    assert_eq!(
        ops[3],
        DrawOp::HeaderText { area: edges(6, 4, 194, 24), text: "名前".to_string() }
    );
    assert_eq!(
        ops[4],
        DrawOp::SortGlyph {
            area: edges(44, 0, 200, 24),
            glyph: "△",
            stands_out: false,
            size: 7
        }
    );
    assert!(ops.contains(&DrawOp::Fill {
        area: edges(0, 40, 280, 57),
        paint: Paint::Selected
    }));
    assert!(ops.contains(&DrawOp::Cell {
        row: 1,
        col: 0,
        area: edges(6, 40, 200, 56),
        text: "f0".to_string(),
        right: false,
        selected_ink: true,
        is_name: true
    }));
    assert!(ops.contains(&DrawOp::HorizontalLine { x0: 0, x1: 280, y: 55, paint: Paint::Cursor }));
    assert!(ops.contains(&DrawOp::Frame {
        area: edges(1, 25, 279, 39),
        paint: Paint::DropFrame
    }));
    assert_eq!(
        ops.last(),
        Some(&DrawOp::Fill { area: edges(388, 24, 400, 224), paint: Paint::Track })
    );
    let busy = paint_to(&look, &s, &widths(), &vec![30, 40], &texts(&s), &vec![], Some("⠋"));
    assert_eq!(busy[1], DrawOp::Loading { text: "⠋  読込中".to_string() });
    assert_eq!(loading_place(400, 224, 100, 24), (150, 100));
    assert_eq!(loading_place(50, 10, 100, 24), (0, 0));
}

#[test]
fn names_have_icons() {
    let mut s = list(1);
    s.items[1].extension = "exe".to_string();
    let m = Metrics { icons_visible: true, ..metrics() };
    let look = Look { m, ..look() };
    let ops = paint_to(&look, &s, &widths(), &vec![30, 40], &texts(&s), &vec![false, true], None);
    assert!(ops.contains(&DrawOp::Icon {
        row: 0,
        x: 6,
        y: 24,
        side: 16,
        cap: 16,
        own: false,
        arrow: true
    }));
    assert!(ops.contains(&DrawOp::Icon {
        row: 1,
        x: 6,
        y: 40,
        side: 16,
        cap: 16,
        own: true,
        arrow: false
    }));
    let corners = draw_parent_arrow(100, 200, 50, 50);
    assert_eq!((corners[0].x, corners[0].y), (125, 215));
    assert_eq!((corners[1].x, corners[1].y), (111, 235));
    assert_eq!((corners[2].x, corners[2].y), (139, 235));
}

#[test]
fn headers_show_how_the_list_is_sorted() {
    assert_eq!(sort_glyph(SortType::FileName, true), "▽");
    assert_eq!(sort_glyph(SortType::FileNameExpLike, false), "▲");
    assert_eq!(sort_glyph(SortType::ExtensionExpLike, true), "▼");
    assert!(sort_match(ColumnKind::FileBaseName, SortType::FileNameExpLike));
    assert!(sort_match(ColumnKind::LastWriteTimeS, SortType::LastWriteTime));
    assert!(!sort_match(ColumnKind::Length, SortType::FileName));
}

#[test]
fn what_a_search_found_stands_out() {
    let run = |text: &str, found| Run { text: text.to_string(), found };
    assert_eq!(
        name_runs("abcabc", &vec![Span { off: 1, len: 2 }, Span { off: 5, len: 9 }]),
        vec![run("a", false), run("bc", true), run("ab", false), run("c", true)]
    );
    assert!(name_runs("", &vec![]).is_empty());
    assert!(is_highlighted(true, false, &vec![Span { off: 1, len: 2 }]));
    assert!(!is_highlighted(true, true, &vec![Span { off: 1, len: 2 }]));
    assert!(!is_highlighted(false, false, &vec![Span { off: 1, len: 2 }]));
    assert!(!is_highlighted(true, false, &vec![]));
}

#[test]
fn parts_of_a_name_are_drawn_beside_each_other() {
    let m = Metrics { font_height: 10, icons_visible: true, ..metrics() };
    let tall = Metrics { icon: IconSide::Fixed { side: 20 }, ..m };
    let runs = vec![
        Run { text: "a".to_string(), found: false },
        Run { text: "bc".to_string(), found: true },
    ];
    assert_eq!(
        draw_name_with_highlight(&runs, &vec![7, 14], 6, 40, &tall, 3),
        vec![
            DrawOp::Part { row: 3, x: 6, top: 45, text: "a".to_string(), found: false },
            DrawOp::Fill { area: edges(13, 40, 27, 60), paint: Paint::Found },
            DrawOp::Part { row: 3, x: 13, top: 45, text: "bc".to_string(), found: true },
        ]
    );
}

#[test]
fn what_is_dragged_over_a_list_marks_a_row() {
    let mut view = FileListView::new(0);
    let into = Some(DropPlace { dir: "C:\\x\\d".to_string(), row: Some(1) });
    let sources = strings(&["C:\\y\\g"]);
    assert_eq!(view.drag_enter(sources.clone(), &into, false, false), (DropEffect::Move, true));
    assert_eq!((view.drop_hover_row, view.drag_sources.len()), (Some(1), 1));
    assert_eq!(view.drag_over(&into, true, false), (DropEffect::Copy, false));
    assert_eq!(view.drag_over(&None, true, false), (DropEffect::NoEffect, true));
    view.drag_over(&into, false, false);
    assert_eq!(
        view.drop_files(&sources, into.clone(), false, false),
        (DropEffect::Move, Some(("C:\\x\\d".to_string(), true)), true)
    );
    assert!(view.drop_hover_row.is_none() && view.drag_sources.is_empty());
    view.drag_enter(sources, &into, false, false);
    assert!(view.drag_leave() && !view.drag_leave());
    let same = strings(&["c:/x/./d/"]);
    assert_eq!(view.drop_files(&same, into, false, false), (DropEffect::NoEffect, None, false));
}

#[test]
fn lists_that_are_read_say_so_after_a_while() {
    let mut view = FileListView::new(50);
    assert_eq!(view.loading_at(100), None);
    assert_eq!(view.loading_now(), None);
    view.set_loading();
    view.tick_loading();
    assert_eq!(view.loading_at(49), None);
    assert_eq!(view.loading_at(50), Some("⠙"));
    let mut eager = FileListView::new(0);
    eager.set_loading();
    assert_eq!(eager.loading_now(), Some("⠋"));
    assert_eq!(
        on_size(&metrics(), 4),
        vec![ListAction::ScrollTo { top: 4, page: 12 }, ListAction::Refresh]
    );
}

#[test]
fn measures_are_never_nothing() {
    assert_eq!((thumbnail_box_logical(0), thumbnail_box_logical(96)), (1, 96));
    assert_eq!((text_margin(None), text_margin(Some(0)), text_margin(Some(7))), (4, 1, 7));
    assert!(icons_visible(true, true) && !icons_visible(true, false));
}

#[test]
fn links_show_where_they_lead() {
    assert_eq!(link_text("C:\\t"), "→ C:\\t");
    assert!(link_is_drawn("→ C") && !link_is_drawn("→…"));
    assert_eq!(link_place(edges(6, 24, 200, 40), 50, 6), edges(68, 24, 200, 40));
    let target = Some("C:\\t".to_string());
    assert_eq!(cell_text_whole(ColumnKind::FileName, "l", &target), "l → C:\\t");
    assert_eq!(cell_text_whole(ColumnKind::Length, "1", &target), "1");
}

#[test]
fn a_text_that_is_cut_off_is_told() {
    let s = list(3);
    let look = look();
    let cell = cell_at(&look.m, &s, &widths(), 100, 41).unwrap();
    assert_eq!((cell.row, cell.col, cell.left, cell.right), (1, 0, 0, 200));
    assert_eq!(cell_tooltip_at(&look, &s, cell, "f0", 20), None);
    assert_eq!(cell_tooltip_at(&look, &s, cell, "f0", 195), Some(edges(0, 40, 200, 56)));
    assert_eq!(cell_tooltip_at(&look, &s, cell, "", 195), None);
    let p = cell_point(&look.m, &s, &widths(), 1, 1).unwrap();
    assert_eq!((p.x, p.y), (240, 48));
    assert!(cell_point(&look.m, &s, &widths(), 9, 1).is_none());
}

#[test]
fn bars_and_frames_have_edges() {
    let ops = fill_bar(100, 20);
    assert_eq!(ops[2], DrawOp::HorizontalLine { x0: 0, x1: 100, y: 19, paint: Paint::Shadow });
    let (light, shadow) = draw_3d_frame(edges(0, 0, 10, 5));
    assert_eq!((light[0].x, light[0].y), (0, 4));
    assert_eq!((shadow[1].x, shadow[1].y), (9, 4));
}

#[test]
fn columns_are_fitted_to_what_they_show() {
    let s = list(1);
    let measures = || {
        vec![
            ColumnMeasure { header_w: 40, sample_chars: 0, cells: vec![500] },
            ColumnMeasure { header_w: 40, sample_chars: 10, cells: vec![] },
        ]
    };
    let fit = autofit_columns(true, 400, &s.columns, &measures(), 8, 192).unwrap();
    assert_eq!(fit.measured, vec![0, 40]);
    assert_eq!((fit.width, fit.padding, fit.least_flex), (200, 8, 48));
    assert!(autofit_columns(false, 400, &s.columns, &measures(), 8, 96).is_none());
    assert!(autofit_columns(true, 0, &s.columns, &measures(), 8, 96).is_none());
}

#[test]
fn texts_are_unescaped_once() {
    assert_eq!(html_unescape("&quot;a&#x27;b&#39;&lt;&gt;&amp;"), "\"a'b'<>&");
    assert_eq!(html_unescape("&amp;lt;"), "&lt;");
    assert_eq!(replace_all("aaa", "aa", "b"), "ba");
    assert_eq!(to_crlf("a\nb\r\nc"), "a\r\nb\r\nc");
    assert_eq!(to_crlf(&to_crlf("a\r\r\nb\n")), to_crlf("a\r\r\nb\n"));
    assert_eq!(licenses_text(Some("&lt;\n".to_string())), "<\r\n");
    assert_eq!(licenses_text(None), NO_LICENSES);
}

fn packed(inner: &str) -> Location {
    Location::Archive { archive: "C:\\x\\a.zip".to_string(), inner: inner.to_string() }
}

fn on_disk(path: &str) -> Location {
    Location::Real(path.to_string())
}

const CAPS: ArchiveCaps =
    ArchiveCaps { can_mkdir: true, can_add: true, can_rename: true, can_remove: true };

const NO_CAPS: ArchiveCaps =
    ArchiveCaps { can_mkdir: false, can_add: false, can_rename: false, can_remove: false };

#[test]
fn files_of_panes_are_found() {
    assert_eq!(block_if_archive(&on_disk("C:\\x"), "圧縮"), None);
    assert_eq!(
        block_if_archive(&packed(""), "圧縮").as_deref(),
        Some("書庫内では圧縮は未対応です")
    );
    assert_eq!(
        read_pane_file(&on_disk("C:\\x"), "f"),
        PaneFile::Disk { path: "C:\\x\\f".to_string() }
    );
    assert_eq!(
        read_pane_file(&packed("d"), "f"),
        PaneFile::Packed { archive: "C:\\x\\a.zip".to_string(), inner: "d/f".to_string() }
    );
    assert_eq!(capped(vec![1, 2, 3], 2), (vec![1, 2], true));
    assert_eq!(capped(vec![1, 2], 2), (vec![1, 2], false));
}

#[test]
fn unpacked_files_stay_below_their_directory() {
    assert_eq!(safe_inner_path("a//./b").as_deref(), Some("a\\b"));
    assert_eq!(safe_inner_path("../a"), None);
    assert_eq!(safe_inner_path("a\\b"), None);
    assert_eq!(safe_inner_path("a/C:evil"), None);
    assert_eq!(safe_inner_path("./"), None);
    assert_eq!(inner_to_pathbuf(".."), "");
    assert_eq!(inner_to_pathbuf("a/b"), "a\\b");
}

#[test]
fn archives_have_directories_of_their_own() {
    assert_eq!(archive_temp_dir("D:\\data", 42), "D:\\data\\cache\\archive\\42");
    assert_eq!(archive_identity("C:\\a.zip", Some(7 * TICKS_PER_SECOND + 9)), "C:\\a.zip\u{0}7");
    assert_eq!(archive_identity("C:\\a.zip", Some(-1)), "C:\\a.zip\u{0}0");
    assert_eq!(archive_identity("C:\\a.zip", None), "C:\\a.zip\u{0}0");
    assert_eq!(archive_key(0xab), "00000000000000ab");
    assert_eq!(
        archive_temp_root("D:\\data", 42, 1),
        "D:\\data\\cache\\archive\\42\\0000000000000001"
    );
    assert_eq!(
        archive_extract_marker("D:\\data", 42, 1),
        "D:\\data\\cache\\archive\\42\\0000000000000001.done"
    );
    assert_eq!(scratch_path("C:\\t\\f.txt", 42), "C:\\t\\f.txt.tmp.42");
    assert!(sweep_dead_pid_temps("43", 42, false));
    assert!(!sweep_dead_pid_temps("42", 42, false));
    assert!(!sweep_dead_pid_temps("43", 42, true));
    assert!(!sweep_dead_pid_temps("4x", 42, false));
}

fn bytes(b: &[u8]) -> EntryReply {
    EntryReply::Contents(Contents::Bytes(b.to_vec()))
}

fn no_bytes() -> EntryReply {
    EntryReply::Contents(Contents::Failed("no".to_string()))
}

#[test]
fn a_password_is_asked_for_three_times() {
    let mut run = EntryRun::read_archive_entry("d/f", Some("stale".to_string()));
    assert_eq!(run.ask(), EntryAsk::IsUnpacked { path: "d\\f".to_string() });
    run = run.step(EntryReply::Flag(false)).0;
    assert_eq!(run.ask(), EntryAsk::IsEncrypted);
    run = run.step(EntryReply::Flag(true)).0;
    assert_eq!(run.ask(), EntryAsk::ReadWith { password: "stale".to_string() });
    run = run.step(no_bytes()).0;
    for _ in 0..3 {
        assert_eq!(run.ask(), EntryAsk::Prompt);
        run = run.step(EntryReply::Password(Some("bad".to_string()))).0;
        let (next, effect) = run.step(no_bytes());
        assert_eq!(effect, EntryEffect::Wrong);
        run = next;
    }
    assert_eq!(run.ask(), EntryAsk::Nothing);
    let EntryState::Done { contents } = run.state else { panic!("done") };
    assert_eq!(contents, Contents::Failed(PASSWORD_WRONG.to_string()));
}

#[test]
fn a_right_password_is_kept() {
    let mut run = EntryRun::read_archive_entry("..", None);
    assert_eq!(run.ask(), EntryAsk::IsEncrypted);
    run = run.step(EntryReply::Flag(true)).0;
    run = run.step(EntryReply::Password(Some("good".to_string()))).0;
    let (run, effect) = run.step(bytes(b"x"));
    assert_eq!(effect, EntryEffect::Remember { password: "good".to_string() });
    assert!(matches!(run.state, EntryState::Done { contents: Contents::Bytes(_) }));
}

#[test]
fn without_a_password_nothing_is_read() {
    let run = EntryRun::read_archive_entry("f", None);
    let run = run.step(EntryReply::Flag(false)).0;
    let run = run.step(EntryReply::Flag(true)).0;
    let run = run.step(EntryReply::Password(None)).0;
    let EntryState::Done { contents } = run.state else { panic!("done") };
    assert_eq!(contents, Contents::Failed(PASSWORD_NEEDED.to_string()));
    let unpacked = EntryRun::read_archive_entry("f", None).step(EntryReply::Flag(true)).0;
    assert_eq!(unpacked.ask(), EntryAsk::ReadUnpacked { path: "f".to_string() });
    let plain = EntryRun::read_archive_entry("..", None).step(EntryReply::Flag(false)).0;
    assert_eq!(plain.ask(), EntryAsk::Read);
}

#[test]
fn the_list_says_what_is_encrypted() {
    let entry = |path: &str, is_encrypted| ArchiveEntry {
        path: path.to_string(),
        is_dir: false,
        size: None,
        packed_size: None,
        mtime: None,
        is_encrypted,
    };
    let entries = Some(vec![entry("a", false), entry("b", true)]);
    assert!(entry_is_encrypted(&entries, "b"));
    assert!(!entry_is_encrypted(&entries, "a"));
    assert!(!entry_is_encrypted(&entries, "c"));
    assert!(!entry_is_encrypted(&None, "b"));
}

#[test]
fn a_file_is_unpacked_under_another_name_first() {
    let mut run = UnpackRun::extract_entry_to_temp("C:\\t", "d/f", 9);
    assert_eq!(run.ask(), UnpackAsk::IsFile { path: "C:\\t\\d\\f".to_string() });
    run = run.step(UnpackReply::Flag(false));
    assert_eq!(run.ask(), UnpackAsk::MakeDir { path: "C:\\t\\d".to_string() });
    run = run.step(UnpackReply::Outcome(None));
    assert_eq!(run.ask(), UnpackAsk::Read);
    run = run.step(UnpackReply::Contents(Contents::Bytes(vec![1])));
    let scratch = "C:\\t\\d\\f.tmp.9".to_string();
    assert_eq!(run.ask(), UnpackAsk::Write { path: scratch.clone(), bytes: vec![1] });
    run = run.step(UnpackReply::Outcome(None));
    assert_eq!(run.ask(), UnpackAsk::Rename { from: scratch, to: "C:\\t\\d\\f".to_string() });
    run = run.step(UnpackReply::Outcome(None));
    assert!(matches!(run.at, UnpackAt::Done));
    let bad = UnpackRun::extract_entry_to_temp("C:\\t", "../f", 9);
    assert!(matches!(bad.at, UnpackAt::Failed { .. }));
}

/// An unpacking that the archive could be opened for and the directory made.
fn unpacking() -> AllRun {
    let (run, lines) = AllRun::start_archive_extract(
        "C:\\x\\a.7z".to_string(),
        "C:\\t\\1".to_string(),
        "C:\\t\\1.done".to_string(),
    );
    assert_eq!(lines, vec![AllLine::Begin]);
    assert_eq!(run.ask(), AllAsk::Open { archive: "C:\\x\\a.7z".to_string() });
    let run = run.step(AllReply::Outcome(None)).0;
    assert_eq!(run.ask(), AllAsk::Clear { root: "C:\\t\\1".to_string() });
    let run = run.step(AllReply::Tried).0;
    assert_eq!(run.ask(), AllAsk::MakeDir { root: "C:\\t\\1".to_string() });
    let run = run.step(AllReply::Outcome(None)).0;
    assert_eq!(
        run.ask(),
        AllAsk::Unpack { root: "C:\\t\\1".to_string(), signal: Signal::Begin }
    );
    run
}

#[test]
fn a_whole_archive_is_marked_when_it_is_there() {
    let (run, lines) = unpacking().step(AllReply::Reached { done: 1, total: 4, stop: false });
    assert_eq!(lines, vec![AllLine::Percent(25)]);
    assert_eq!(
        run.ask(),
        AllAsk::Unpack { root: "C:\\t\\1".to_string(), signal: Signal::GoOn }
    );
    let (run, lines) = run.step(AllReply::Reached { done: 1, total: 4, stop: false });
    assert_eq!(lines, vec![]);
    let (run, lines) = run.step(AllReply::Outcome(None));
    assert_eq!(lines, vec![]);
    assert_eq!(run.ask(), AllAsk::Mark { marker: "C:\\t\\1.done".to_string() });
    let (run, lines) = run.step(AllReply::Tried);
    assert_eq!(lines, vec![AllLine::End]);
    assert_eq!(run.ask(), AllAsk::Ended(ArchiveOutcome::Done));
}

#[test]
fn what_is_unpacked_in_part_is_removed() {
    let run = unpacking().step(AllReply::Reached { done: 0, total: 0, stop: true }).0;
    assert_eq!(
        run.ask(),
        AllAsk::Unpack { root: "C:\\t\\1".to_string(), signal: Signal::Abort }
    );
    let run = run.step(AllReply::Outcome(None)).0;
    assert_eq!(run.ask(), AllAsk::Discard { root: "C:\\t\\1".to_string() });
    let (run, lines) = run.step(AllReply::Tried);
    assert_eq!(lines, vec![AllLine::End]);
    assert_eq!(run.ask(), AllAsk::Ended(ArchiveOutcome::Cancelled));

    let run = unpacking().step(AllReply::Outcome(Some("bad".to_string()))).0;
    assert_eq!(run.ask(), AllAsk::Discard { root: "C:\\t\\1".to_string() });
    let run = run.step(AllReply::Tried).0;
    assert_eq!(run.ask(), AllAsk::Ended(ArchiveOutcome::Failed("bad".to_string())));

    let run = AllRun::start_archive_extract(String::new(), "r".to_string(), String::new()).0;
    let run = run.step(AllReply::Outcome(Some("no".to_string()))).0;
    assert_eq!(run.ask(), AllAsk::Discard { root: "r".to_string() });
}

#[test]
fn archives_are_unpacked_once() {
    let loc = packed("");
    let decide = |extracted, extracting, ra, before| {
        maybe_start_archive_extract(&loc, extracted, extracting, ra, before)
    };
    assert_eq!(decide(true, true, Some(false), false), ExtractDecision::ShowNow);
    assert_eq!(decide(false, true, Some(false), false), ExtractDecision::Wait);
    assert_eq!(decide(false, false, Some(true), false), ExtractDecision::ShowNow);
    assert_eq!(decide(false, false, None, false), ExtractDecision::ShowNow);
    assert_eq!(decide(false, false, Some(false), true), ExtractDecision::NoteAndShow);
    assert_eq!(decide(false, false, Some(false), false), ExtractDecision::Start);
    let mut progress = ExtractProgress::new();
    assert_eq!(progress.report(0, 0), None);
    assert_eq!(progress.report(1, 4), Some(25));
    assert_eq!(progress.report(1, 4), None);
    assert_eq!(progress.report(9, 4), Some(100));
    assert_eq!(extract_outcome(None, false), (ArchiveOutcome::Done, false));
    assert_eq!(extract_outcome(None, true), (ArchiveOutcome::Cancelled, true));
    assert_eq!(
        extract_outcome(Some("e".to_string()), true),
        (ArchiveOutcome::Failed("e".to_string()), true)
    );
    assert_eq!(extract_description("C:\\x\\a.zip"), "a.zip を展開中");
    assert!(cancel_archive_load("展開") && !cancel_archive_load("コピー"));
}

#[test]
fn panes_leave_an_archive_by_its_directory() {
    let out = exit_archive_to_parent(packed("d/e"));
    assert_eq!(out.loc_display(), "C:\\x");
    assert!(pane_in_archive(&packed("d"), "C:\\x\\a.zip"));
    assert!(!pane_in_archive(&on_disk("C:\\x"), "C:\\x\\a.zip"));
}

#[test]
fn what_no_pane_needs_is_removed() {
    let mut dirs: Vec<TempDir> = Vec::new();
    for name in ["C:\\x\\a.zip", "C:\\y\\b.zip", "C:\\z\\c.zip", "C:\\x\\a.zip"] {
        register_archive_temp(&mut dirs, name, &format!("{name}.root"), &format!("{name}.done"));
    }
    assert_eq!(dirs.len(), 3);
    let locs = vec![packed("d"), on_disk("C:\\y")];
    let (kept, gone) = cleanup_unreferenced_temps(dirs, &locs);
    let names = |all: &[TempDir]| all.iter().map(|d| d.archive.clone()).collect::<Vec<_>>();
    assert_eq!(names(&kept), ["C:\\x\\a.zip", "C:\\y\\b.zip"]);
    assert_eq!(names(&gone), ["C:\\z\\c.zip"]);
}

#[test]
fn directories_are_made_in_archives() {
    let existing = strings(&["d/e/f.txt"]);
    let make = |caps: Result<ArchiveCaps, String>, name: Option<&str>| {
        make_directory_in_archive(&packed("d"), &caps, name.map(str::to_string), &existing)
    };
    assert_eq!(
        make(Ok(CAPS), Some(" new ")),
        Wish::MakeDirectory {
            archive: "C:\\x\\a.zip".to_string(),
            target: "d/new".to_string(),
            name: "new".to_string()
        }
    );
    assert_eq!(
        make(Ok(CAPS), Some("e")),
        Wish::Taken { name: "e".to_string(), why: EXISTS.to_string() }
    );
    assert_eq!(make(Ok(CAPS), Some("  ")), Wish::Nothing);
    assert_eq!(make(Ok(CAPS), None), Wish::Nothing);
    assert_eq!(make(Ok(NO_CAPS), Some("n")), Wish::Warn(NO_MKDIR.to_string()));
    assert_eq!(
        make(Err("io".to_string()), Some("n")),
        Wish::Fail("書庫を開けません: io".to_string())
    );
}

#[test]
fn files_leave_and_enter_archives() {
    let names = strings(&["f"]);
    assert_eq!(extract_from_archive(&packed(""), &on_disk("C:\\y"), vec![]), Wish::NotSelected);
    assert!(matches!(
        extract_from_archive(&packed("d"), &on_disk("C:\\y"), names.clone()),
        Wish::Extract { target, .. } if target == "C:\\y"
    ));
    assert!(matches!(extract_from_archive(&packed("d"), &packed(""), names.clone()), Wish::Warn(_)));
    let add = |existing: &[&str], caps| {
        add_to_archive(&on_disk("C:\\y"), &packed("d"), &names, &Ok(caps), &strings(existing), true)
    };
    let added = |mode| Wish::Add {
        archive: "C:\\x\\a.zip".to_string(),
        inner: "d".to_string(),
        src_dir: "C:\\y".to_string(),
        names: names.clone(),
        move_it: true,
        mode,
    };
    assert_eq!(add(&[], CAPS), added(ArchiveAddMode::Append));
    assert_eq!(add(&[], NO_CAPS), Wish::Warn(NO_ADD.to_string()));
    assert_eq!(
        add(&["d/f"], CAPS),
        Wish::AskHow {
            summary: "1 個が書庫内の既存と同名です。\n追加方式を選んでください。".to_string(),
            taken: names.clone()
        }
    );
    let how = |mode| {
        let existing = strings(&["d/f"]);
        add_targets(&on_disk("C:\\y"), &packed("d"), &names, &existing, true, mode)
    };
    assert_eq!(
        how(ArchiveAddMode::Append),
        Wish::Warn("1 件すべて同名のためスキップしました".to_string())
    );
    assert_eq!(how(ArchiveAddMode::Rebuild), added(ArchiveAddMode::Rebuild));
    let sum = OpSummary { ok: 1, skip: 0, err: 0, cancelled: false };
    assert_eq!(remove_after_add(true, "C:\\y", &names, &sum), ["C:\\y\\f"]);
    assert!(remove_after_add(false, "C:\\y", &names, &sum).is_empty());
    assert!(remove_after_add(true, "C:\\y", &names, &OpSummary { err: 1, ..sum }).is_empty());
    let begin = |mode| {
        start_archive_add("C:\\a.zip", "d", "C:\\y", names.clone(), true, mode, "f", 7, 1)
    };
    let task = begin(ArchiveAddMode::Append);
    assert_eq!((task.label, task.said.as_str()), ("書庫へ移動", "f -> C:\\a.zip"));
    assert!(matches!(task.run, AddRun::Append(_)));
    assert!(matches!(begin(ArchiveAddMode::Rebuild).run, AddRun::Rebuild(_)));
    assert_eq!((add_label(true), add_label(false)), ("書庫へ移動", "書庫へ追加"));
}

#[test]
fn files_are_renamed_and_removed_in_archives() {
    let items = vec![FileItem::parent(), item("f", false), item("g", false)];
    assert_eq!(item_to_rename(&items, 0), None);
    let old = item_to_rename(&items, 1);
    assert_eq!(old.as_deref(), Some("f"));
    let rename = |written: &str| {
        rename_in_archive(
            &packed(""),
            &Ok(CAPS),
            old.clone(),
            Some(written.to_string()),
            &strings(&["f", "g"]),
        )
    };
    assert_eq!(
        rename("h"),
        Wish::Rename {
            archive: "C:\\x\\a.zip".to_string(),
            inner: String::new(),
            before: "f".to_string(),
            after: "h".to_string()
        }
    );
    assert_eq!(rename(" f "), Wish::Nothing);
    assert_eq!(
        rename("g"),
        Wish::Taken { name: "f".to_string(), why: SAME_NAME.to_string() }
    );
    assert_eq!(
        rename_in_archive(&packed(""), &Ok(NO_CAPS), old.clone(), None, &vec![]),
        Wish::Warn(NO_RENAME.to_string())
    );
    assert_eq!(selected_or_cursor_names(&items, 2), ["g"]);
    assert_eq!(
        delete_in_archive(&packed(""), &Ok(CAPS), &items, 2, true),
        Wish::Delete {
            archive: "C:\\x\\a.zip".to_string(),
            inner: String::new(),
            names: strings(&["g"]),
            ask: true
        }
    );
    assert_eq!(delete_in_archive(&packed(""), &Ok(CAPS), &items, 0, true), Wish::NotSelected);
    assert_eq!(
        delete_in_archive(&packed(""), &Ok(NO_CAPS), &items, 2, true),
        Wish::Warn(NO_REMOVE.to_string())
    );
    let op = ArchiveOp::Rename { before: "f".to_string(), after: "h".to_string() };
    let task = start_archive_op(op, "C:\\a.zip", "d", "", 7, 1);
    assert_eq!((task.label.as_str(), task.said.as_str()), ("書庫内で改名", "f -> h"));
    assert_eq!(task.run.plan.archive, "C:\\a.zip");
    let op = ArchiveOp::Delete { names: strings(&["f", "g"]) };
    let task = start_archive_op(op, "C:\\a.zip", "d", "f 他", 7, 1);
    assert_eq!((task.label.as_str(), task.said.as_str()), ("書庫から削除", "f 他 (C:\\a.zip)"));
}

#[test]
fn what_was_escaped_comes_back_once() {
    assert_eq!(html_unescape("&lt;a href=&quot;x&quot;&gt;&#x27;&#39;&amp;"), "<a href=\"x\">''&");
    assert_eq!(html_unescape("&amp;lt;"), "&lt;");
    assert_eq!(html_unescape("&amp;amp;"), "&amp;");
    assert_eq!(html_unescape("a & b; &unknown;"), "a & b; &unknown;");
}

#[test]
fn rows_of_the_other_list_are_faded() {
    let fade = Fade { towards: Paint::Background, parts: 3, of: 5 };
    assert_eq!(faded(Paint::SelectedFaded), Some((Paint::Selected, fade)));
    assert_eq!(faded(Paint::Selected), None);
}

#[test]
fn a_cell_shows_what_was_found_and_where_a_link_leads() {
    let mut s = list(2);
    s.items[2].link_target = Some("C:\\t".to_string());
    let mut all = texts(&s);
    all[1][0].found = vec![Span { off: 1, len: 1 }];
    all[1][0].part_w = vec![8, 9];
    all[2][0].link = "→ C:…".to_string();
    let ops = paint_to(&look(), &s, &widths(), &vec![30, 40], &all, &vec![], None);
    let at = ops
        .iter()
        .position(|op| *op == DrawOp::Part { row: 1, x: 6, top: 40, text: "f".to_string(), found: false })
        .expect("the first part");
    assert_eq!(ops[at + 1], DrawOp::Fill { area: edges(14, 40, 23, 56), paint: Paint::Found });
    assert_eq!(
        ops[at + 2],
        DrawOp::Part { row: 1, x: 14, top: 40, text: "0".to_string(), found: true }
    );
    assert_eq!(text_area(&look(), &s, &widths(), 2, 0), edges(6, 56, 200, 72));
    assert!(ops.contains(&DrawOp::LinkTarget {
        row: 2,
        area: edges(34, 56, 200, 72),
        text: "→ C:…".to_string(),
        selected_ink: false,
        fade: Fade { towards: Paint::Background, parts: 2, of: 5 }
    }));
    s.items[1].selected = true;
    s.items[2].selected = true;
    all[2][0].link = "→…".to_string();
    let ops = paint_to(&look(), &s, &widths(), &vec![30, 40], &all, &vec![], None);
    assert!(!ops.iter().any(|op| matches!(op, DrawOp::Part { .. } | DrawOp::LinkTarget { .. })));
}
