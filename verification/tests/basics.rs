//! The waiting indicator, the status bar, locations, the viewer and long paths.

use rerics::archive::ArchiveEntry;
use rerics::file_item::FileItem;
use rerics::sink::Sink;
use rerics::spinner::{Spinner, SPINNER_FRAMES};
use rerics::status::{format_drive, format_selected, format_size, group_thousands};
use rerics::vfs::{ancestors, is_archive_path, Location, PathFacts};
use rerics::viewer::{
    looks_binary, mostly_undisplayable, split_lines, wrap_line, DisplayLine, Encoding, ViewMode,
    ViewerModel,
};
use rerics::winpath::{
    display_name, file_name, join, parent, same, to_utf16, wide_path, with_file_name,
    MAIN_SEPARATOR, MAX_PATH,
};

const SECOND: u128 = 1_000_000_000;

#[test]
fn immediate_is_visible_at_once() {
    assert!(Spinner::immediate().visible());
}

#[test]
fn delayed_is_hidden_until_threshold() {
    assert!(!Spinner::with_delay(3600 * SECOND).visible());
}

#[test]
fn a_delay_ends_when_its_time_has_passed() {
    let s = Spinner::with_delay(3 * SECOND);
    assert!(!s.visible_at(3 * SECOND - 1));
    assert!(s.visible_at(3 * SECOND));
}

#[test]
fn glyph_cycles_through_all_frames() {
    let mut s = Spinner::immediate();
    assert_eq!(s.glyph(), SPINNER_FRAMES[0]);
    for expected in &SPINNER_FRAMES[1..] {
        s.tick();
        assert_eq!(s.glyph(), *expected);
    }
    s.tick();
    assert_eq!(s.glyph(), SPINNER_FRAMES[0]);
}

#[test]
fn percent_needs_positive_total() {
    let mut s = Spinner::immediate();
    assert_eq!(s.percent(), None);
    s.set_progress(0, 0);
    assert_eq!(s.percent(), None);
    s.set_progress(1, 4);
    assert_eq!(s.percent(), Some(25));
    assert_eq!(s.progress(), Some((1, 4)));
}

#[test]
fn percent_clamps_overshoot() {
    let mut s = Spinner::immediate();
    s.set_progress(9, 4);
    assert_eq!(s.percent(), Some(100));
}

const KB: u64 = 1024;
const MB: u64 = KB * 1024;
const GB: u64 = MB * 1024;
const TB: u64 = GB * 1024;

#[test]
fn size_bytes_are_integer() {
    assert_eq!(format_size(0), "0 B");
    assert_eq!(format_size(512), "512 B");
    assert_eq!(format_size(1023), "1023 B");
}

#[test]
fn size_kb_mb_gb_have_one_decimal() {
    assert_eq!(format_size(KB), "1.0 KB");
    assert_eq!(format_size(KB + KB / 2), "1.5 KB");
    assert_eq!(format_size(MB), "1.0 MB");
    assert_eq!(format_size(GB), "1.0 GB");
}

#[test]
fn size_caps_at_gb() {
    assert_eq!(format_size(2 * TB), "2,048.0 GB");
}

#[test]
fn size_groups_thousands() {
    assert_eq!(format_size(1880 * GB + GB / 5), "1,880.2 GB");
    assert_eq!(format_size(1_000_000 * GB), "1,000,000.0 GB");
}

#[test]
fn selected_zero_is_none() {
    assert_eq!(format_selected(0, 1234), None);
}

#[test]
fn selected_formats_count_and_size() {
    assert_eq!(format_selected(3, KB + KB / 2).as_deref(), Some("選択 3 個 1.5 KB"));
    assert_eq!(format_selected(1, 0).as_deref(), Some("選択 1 個 0 B"));
}

#[test]
fn drive_formats_free_and_total() {
    assert_eq!(format_drive("C:", KB, 2 * KB), "C: 空き 1.0 KB / 全 2.0 KB");
}

#[test]
fn group_thousands_boundaries() {
    assert_eq!(group_thousands("0"), "0");
    assert_eq!(group_thousands("999"), "999");
    assert_eq!(group_thousands("1000"), "1,000");
    assert_eq!(group_thousands("1234567"), "1,234,567");
}

fn on_disk(path: &str) -> Location {
    Location::Real(path.to_string())
}

fn real_path(loc: Option<Location>) -> Option<String> {
    loc.and_then(|l| l.as_real_path().cloned())
}

#[test]
fn join_and_display_archive() {
    let a = Location::Archive { archive: "C:\\x\\foo.zip".to_string(), inner: String::new() };
    assert!(a.is_archive());
    assert!(a.as_real_path().is_none());

    let b = a.loc_join("sub");
    assert!(matches!(&b, Location::Archive { inner, .. } if inner == "sub"));
    let c = b.loc_join("deep");
    assert!(matches!(&c, Location::Archive { inner, .. } if inner == "sub/deep"));

    assert!(c.loc_display().contains("foo.zip"));
    assert_eq!(a.loc_display(), "C:\\x\\foo.zip");
    let sep = MAIN_SEPARATOR;
    assert_eq!(c.loc_display(), format!("C:\\x\\foo.zip{sep}sub{sep}deep"));
}

#[test]
fn parse_relative_is_absolutized() {
    let facts: Vec<PathFacts> = ancestors(".")
        .into_iter()
        .map(|path| PathFacts {
            path,
            absolute: Some("C:\\work".to_string()),
            is_dir: true,
            is_archive: false,
        })
        .collect();
    let loc = Location::parse(&facts);
    let p = loc.as_real_path().expect("real");
    assert_eq!(p, "C:\\work");
    assert!(loc.to_parent().is_some());
}

#[test]
fn parse_finds_the_archive_above_a_path() {
    let facts: Vec<PathFacts> = ancestors("C:\\x\\foo.zip\\sub\\deep")
        .into_iter()
        .map(|path| PathFacts {
            is_archive: is_archive_path(path == "C:\\x\\foo.zip", true),
            is_dir: path == "C:\\x" || path == "C:\\",
            absolute: Some(path.clone()),
            path,
        })
        .collect();
    let loc = Location::parse(&facts);
    assert!(matches!(
        &loc,
        Location::Archive { archive, inner }
            if archive == "C:\\x\\foo.zip" && inner == "sub/deep"
    ));
    assert_eq!(loc.loc_display(), "C:\\x\\foo.zip\\sub\\deep");
}

#[test]
fn up_and_down_again_is_where_it_was() {
    let loc = on_disk("C:\\x\\y");
    let (above, name) = loc.to_parent().unwrap();
    assert_eq!(name, "y");
    assert_eq!(above.loc_join(&name).loc_display(), loc.loc_display());
    let packed = Location::Archive { archive: "C:\\a.zip".to_string(), inner: "s/t".to_string() };
    let (above, name) = packed.to_parent().unwrap();
    assert_eq!(name, "t");
    assert_eq!(above.loc_join(&name).loc_display(), packed.loc_display());
}

#[test]
fn to_root_returns_drive_root() {
    let r = on_disk("C:\\foo\\bar\\baz");
    assert_eq!(real_path(r.to_root()), Some("C:\\".to_string()));
    let already = on_disk("C:\\");
    assert_eq!(real_path(already.to_root()), Some("C:\\".to_string()));
    let arc = Location::Archive { archive: "C:\\a.zip".to_string(), inner: "x".to_string() };
    assert!(arc.to_root().is_none());
}

#[test]
fn to_root_unc_returns_share_root() {
    let unc = on_disk("\\\\server\\share\\dir\\sub");
    assert_eq!(real_path(unc.to_root()), Some("\\\\server\\share\\".to_string()));
    let already = on_disk("\\\\server\\share");
    assert_eq!(real_path(already.to_root()), Some("\\\\server\\share\\".to_string()));
}

#[test]
fn real_helpers() {
    let r = on_disk("C:\\x\\y");
    assert_eq!(r.as_real_path().map(String::as_str), Some("C:\\x\\y"));
    assert!(!r.is_archive());
    assert!(matches!(r.loc_join("z"), Location::Real(p) if p == "C:\\x\\y\\z"));
}

#[test]
fn entering_goes_into_directories_and_archives_only() {
    let here = on_disk("C:\\x");
    assert!(here.enter("f.txt", false, false, false).is_none());
    assert!(matches!(
        here.enter("d", true, true, false),
        Some(Location::Real(p)) if p == "C:\\x\\d"
    ));
    assert!(matches!(
        here.enter("a.zip", false, false, true),
        Some(Location::Archive { archive, inner }) if archive == "C:\\x\\a.zip" && inner.is_empty()
    ));
}

#[test]
fn encoding_cycle_wraps() {
    assert_eq!(Encoding::Utf8.cycle(true), Encoding::ShiftJis);
    assert_eq!(Encoding::Iso2022Jp.cycle(true), Encoding::Utf8);
    assert_eq!(Encoding::Utf8.cycle(false), Encoding::Iso2022Jp);
    assert_eq!(Encoding::ShiftJis.cycle(false), Encoding::Utf8);
}

#[test]
fn encodings_have_labels() {
    let labels: Vec<&str> = Encoding::CYCLE.iter().map(|e| e.label()).collect();
    assert_eq!(labels[0], "UTF-8");
    assert_eq!(labels[1], "Shift_JIS");
    assert_eq!(labels[5], "ISO-2022-JP");
}

#[test]
fn decode_utf8_and_shiftjis() {
    assert_eq!(Encoding::Utf8.decode(&[0xE3, 0x81, 0x82]), "あ");
    assert_eq!(Encoding::ShiftJis.decode(&[0x82, 0xA0]), "あ");
    assert_eq!(Encoding::EucJp.decode(&[0xA4, 0xA2]), "あ");
}

#[test]
fn decode_utf16_and_iso2022() {
    assert_eq!(Encoding::Utf16Le.decode(&[0x42, 0x30]), "あ");
    assert_eq!(Encoding::Utf16Be.decode(&[0x30, 0x42]), "あ");
    assert_eq!(Encoding::Iso2022Jp.decode(b"\x1b$B$\"\x1b(B"), "あ");
}

#[test]
fn no_encoding_is_guessed() {
    assert_eq!(Encoding::Utf8.decode(b"\xEF\xBB\xBFa"), "a");
    assert_eq!(Encoding::Utf16Le.decode(b"\xFF\xFEa\0"), "a");
    assert_eq!(Encoding::ShiftJis.decode(b"\xFE\xFF\x82\xA0").chars().last(), Some('あ'));
    assert_ne!(Encoding::Utf16Le.decode(b"\xEF\xBB\xBFa"), "a");
}

#[test]
fn decode_lossy_does_not_panic() {
    let s = Encoding::Utf8.decode(&[0x41, 0xFF, 0xFE, 0x42]);
    assert!(s.starts_with('A'));
    assert!(s.ends_with('B'));
    assert!(s.contains('\u{FFFD}'));
}

fn shown(gutter: &str, body: &str) -> DisplayLine {
    DisplayLine { gutter: gutter.to_string(), body: body.to_string() }
}

#[test]
fn text_lines_wrap_by_display_width() {
    let model = ViewerModel::new(b"abcdef".to_vec());
    let lines = model.lines(3, 4);
    assert_eq!(lines.len(), 2);
    assert_eq!(lines[0], shown("1", "abc"));
    assert_eq!(lines[1], shown("", "def"));
}

#[test]
fn text_lines_fullwidth_counts_two() {
    let model = ViewerModel::new("ああα".as_bytes().to_vec());
    let lines = model.lines(4, 4);
    assert_eq!(lines[0].body, "ああ");
    assert_eq!(lines[1].body, "α");
}

#[test]
fn text_lines_split_crlf_and_number() {
    let model = ViewerModel::new(b"a\r\nb\nc".to_vec());
    let lines = model.lines(80, 4);
    assert_eq!(lines.len(), 3);
    assert_eq!(lines[0], shown("1", "a"));
    assert_eq!(lines[1], shown("2", "b"));
    assert_eq!(lines[2], shown("3", "c"));
    assert_eq!(split_lines("a\r\nb\nc"), ["a", "b", "c"]);
}

#[test]
fn control_char_becomes_replacement() {
    let model = ViewerModel::new(b"a\x07b".to_vec());
    let lines = model.lines(80, 4);
    assert_eq!(lines[0].body, "a\u{FFFD}b");
}

#[test]
fn combining_mark_is_not_replaced() {
    let model = ViewerModel::new("e\u{0301}x".as_bytes().to_vec());
    let lines = model.lines(80, 4);
    assert!(!lines[0].body.contains('\u{FFFD}'));
}

#[test]
fn tab_expands_to_stops() {
    let model = ViewerModel::new(b"a\tb".to_vec());
    let lines = model.lines(80, 4);
    assert_eq!(lines[0].body, "a   b");
    assert_eq!(wrap_line("a\tb", 80, 8), ["a       b"]);
}

#[test]
fn binary_dump_format() {
    let bytes: Vec<u8> = (0u8..18).collect();
    let mut model = ViewerModel::new(bytes);
    model.toggle_mode();
    let lines = model.lines(80, 4);
    assert_eq!(lines.len(), 2);
    assert_eq!(lines[0].gutter, "000000");
    assert!(lines[0].body.starts_with("00 01 02 03 04 05 06 07 - 08 09 0A 0B 0C 0D 0E 0F | "));
    assert_eq!(lines[1].gutter, "000010");
    assert!(lines[1].body.starts_with("10 11 "));
}

#[test]
fn binary_char_column_uses_encoding() {
    let mut model = ViewerModel::new(vec![0x82, 0xA0]);
    model.encoding = Encoding::ShiftJis;
    model.toggle_mode();
    let lines = model.lines(80, 4);
    assert!(lines[0].body.ends_with("| あ"));
}

#[test]
fn looks_binary_detects_binary_and_text() {
    assert!(!looks_binary(b"hello world\n"));
    assert!(!looks_binary("日本語のテキスト\n".as_bytes()));
    assert!(!looks_binary(&[0x82, 0xA0, 0x82, 0xA2]));
    assert!(!looks_binary(b""));
    assert!(looks_binary(b"PK\x03\x04\x00\x00binary"));
    assert!(looks_binary(&[0xFFu8; 64]));
}

#[test]
fn mostly_garbled_text_is_told_from_text() {
    assert!(!mostly_undisplayable("plain text\n"));
    assert!(mostly_undisplayable("\u{FFFD}\u{FFFD}\u{FFFD}a"));
}

#[test]
fn open_starts_in_binary_for_binary_bytes() {
    assert_eq!(ViewerModel::open(b"plain text\n".to_vec()).mode, ViewMode::Text);
    assert_eq!(ViewerModel::open(vec![0x00, 0x01, 0x02, 0x03]).mode, ViewMode::Binary);
}

#[test]
fn empty_file_text_and_binary() {
    let model = ViewerModel::new(Vec::new());
    assert_eq!(model.lines(80, 4).len(), 1);
    let mut m = ViewerModel::new(Vec::new());
    m.toggle_mode();
    assert_eq!(m.lines(80, 4).len(), 1);
}

#[test]
fn the_encoding_of_a_view_goes_round() {
    let mut m = ViewerModel::new(vec![0x82, 0xA0]);
    m.cycle_encoding(true);
    assert_eq!(m.encoding, Encoding::ShiftJis);
    assert_eq!(m.lines(80, 4)[0].body, "あ");
    m.cycle_encoding(false);
    assert_eq!(m.encoding, Encoding::Utf8);
}

fn narrow(wide: &[u16]) -> String {
    String::from_utf16_lossy(&wide[..wide.len() - 1])
}

fn deep(head: &str) -> String {
    let segments = ["a", "b", "c", "d", "e", "f", "g", "h"].map(|c| c.repeat(38)).join("\\");
    format!("{head}\\{segments}")
}

fn wide(path: &str) -> String {
    narrow(&wide_path(path, Some(path.to_string())))
}

#[test]
fn short_path_is_passed_through() {
    assert_eq!(wide(r"C:\tmp\a.txt"), r"C:\tmp\a.txt");
}

#[test]
fn long_path_gets_verbatim_prefix() {
    let long = deep(r"C:\tmp");
    assert!(long.len() >= MAX_PATH);
    assert_eq!(wide(&long), format!(r"\\?\{long}"));
}

#[test]
fn long_unc_path_gets_unc_verbatim_prefix() {
    let long = deep(r"\\server\share");
    assert_eq!(wide(&long), format!(r"\\?\UNC{}", &long[1..]));
}

#[test]
fn long_verbatim_path_is_kept_as_is() {
    let long = format!(r"\\?\{}", deep(r"C:\tmp"));
    assert_eq!(wide(&long), long);
}

#[test]
fn a_path_that_just_fits_is_passed_on() {
    let fits = format!("C:\\{}", "a".repeat(256));
    let plain: Vec<u16> = fits.encode_utf16().chain(std::iter::once(0)).collect();
    assert_eq!(plain.len(), MAX_PATH);
    assert_eq!(wide_path(&fits, Some(fits.clone())), plain);
    let longer = format!("{fits}a");
    assert_eq!(wide(&longer), format!(r"\\?\{longer}"));
}

#[test]
fn verbatim_paths_know_backslashes_only() {
    assert_eq!(file_name(r"\\?\C:\x\a/b").as_deref(), Some("a/b"));
    assert_eq!(parent(r"\\?\C:\x\a/b").as_deref(), Some(r"\\?\C:\x"));
    assert_eq!(parent(r"\\?\C:\x\.").as_deref(), Some(r"\\?\C:\x"));
    assert_eq!(file_name(r"\\?\C:\x\."), None);
    assert_eq!(join(r"\\?\C:\x\\y\", "z"), r"\\?\C:\x\y\z");
    assert_eq!(join(r"\\?\C:\x\y", r"..\z/./w"), r"\\?\C:\x\z\w");
    assert_eq!(join(r"\\?\C:\x", r"\y"), r"\\?\C:\y");
    assert_eq!(join(r"\\?\C:", "y"), r"\\?\C:\y");
    assert_eq!(join(r"\\?\C:\", ".."), r"\\?\C:\");
    assert_eq!(join(r"\\?\UNC\srv\share", "y"), r"\\?\UNC\srv\share\y");
    assert_eq!(parent(r"\\?\UNC\srv\share\y").as_deref(), Some(r"\\?\UNC\srv\share\"));
    assert_eq!(parent(r"\\?\UNC\srv\"), None);
    assert!(!same(r"\\?\C:\a/b", r"\\?\C:\a\b"));
    assert!(!same(r"\\?\C:", r"\\?\C:\"));
    assert!(same(r"\\?\C:\a\\b", r"\\?\c:\a\b"));
}

#[test]
fn a_root_is_its_own_root() {
    for path in [r"C:\a\b", r"C:", r"\\s\x", r"\\s\x\d", r"\\.\COM1", r"\\?\C:\a", r"\\?\UNC\s", r"\\?\a\b", r"\a"] {
        let root = real_path(on_disk(path).to_root()).expect("a root");
        assert_eq!(real_path(on_disk(&root).to_root()), Some(root));
    }
    assert_eq!(real_path(on_disk(r"\\?\UNC\s\x\d").to_root()).as_deref(), Some(r"\\?\UNC\s\x\"));
}

#[test]
fn pieces_of_a_wrapped_line_fit() {
    assert_eq!(wrap_line("ab\u{FFFD}あc", 3, 4), ["ab\u{FFFD}", "あc"]);
    assert_eq!(wrap_line("あ", 1, 4), ["あ"]);
    assert_eq!(wrap_line("a\tb", 4, 4), ["a   ", "b"]);
}

#[test]
fn paths_are_taken_apart_and_put_together() {
    assert_eq!(file_name(r"C:\x\y.txt").as_deref(), Some("y.txt"));
    assert_eq!(file_name(r"C:\"), None);
    assert_eq!(parent(r"C:\x\y.txt").as_deref(), Some(r"C:\x"));
    assert_eq!(parent(r"C:\").as_deref(), None);
    assert_eq!(join(r"C:\x", "y"), r"C:\x\y");
    assert_eq!(join(r"C:\x", r"D:\y"), r"D:\y");
    assert_eq!(with_file_name(r"C:\x\y.txt", "z"), r"C:\x\z");
    assert_eq!(display_name(r"C:\x\y"), "y");
    assert_eq!(to_utf16("a\u{1F600}"), [0x61, 0xD83D, 0xDE00]);
}

#[test]
fn a_scan_hands_its_items_over_in_order() {
    let mut sink = Sink::new();
    assert!(!sink.is_cancelled());
    sink.push(FileItem::plain("a".to_string(), false, false));
    sink.push(FileItem::plain("b".to_string(), true, false));
    let taken: Vec<String> = sink.take().into_iter().map(|i| i.name).collect();
    assert_eq!(taken, ["a", "b"]);
    assert!(sink.take().is_empty());
}

#[test]
fn archives_list_what_lies_directly_inside() {
    let entry = |path: &str, size: Option<u64>| ArchiveEntry {
        path: path.to_string(),
        is_dir: false,
        size,
        packed_size: None,
        mtime: Some(7),
        is_encrypted: false,
    };
    let entries = vec![entry("d/a.txt", Some(3)), entry("d/e/b", Some(4)), entry("c", None)];
    let loc = Location::Archive { archive: "x.zip".to_string(), inner: "d".to_string() };
    let items = loc.read(Vec::new(), &entries);
    let shown: Vec<_> = items.iter().map(|i| (i.name.as_str(), i.is_dir, i.size)).collect();
    assert_eq!(shown, vec![("..", true, None), ("a.txt", false, Some(3)), ("e", true, None)]);
    assert_eq!((items[1].modified, items[2].modified), (Some(7), None));
    assert!(items[0].is_parent && !items[1].is_parent);
}

#[test]
fn paths_are_held_against_each_other_by_their_components() {
    assert!(same("C:\\a\\b", "c:/a/./b/"));
    assert!(same("\\\\s\\x", "\\\\s\\x\\"));
    assert!(!same("C:\\a", "C:\\A"));
    assert!(!same("C:a", "C:\\a"));
    assert!(!same("a\\b", "b"));
    assert!(!same("D:\\a", "C:\\a"));
    assert!(!same("a", ".\\a"));
}

#[test]
fn what_the_path_bar_shows_leads_back() {
    let archive = "C:\\x\\foo.zip";
    for inner in ["", "a", "a/b.c"] {
        let loc = Location::Archive { archive: archive.to_string(), inner: inner.to_string() };
        let facts: Vec<PathFacts> = ancestors(&loc.loc_display())
            .into_iter()
            .map(|path| PathFacts {
                absolute: Some(path.clone()),
                is_dir: path.len() < archive.len(),
                is_archive: path == archive,
                path,
            })
            .collect();
        assert_eq!(Location::parse(&facts), loc);
    }
    let dir = Location::Real("C:\\x".to_string());
    let below = dir.loc_join("y");
    assert_eq!(below.to_parent(), Some((dir, "y".to_string())));
    let root = Location::Real("C:\\".to_string());
    assert_eq!(root.loc_join("y").to_parent(), Some((root, "y".to_string())));
}
