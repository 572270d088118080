//! File operations, carried out on a disk in memory and with the real archive crates.

use std::cell::RefCell;
use std::collections::BTreeMap;
use std::io::{Cursor, Read, Write};

use rerics::archive::{decode_name, normalize_inner, ArchiveEntry};
use rerics::operation::archive_ops::{
    run_archive_delete, run_archive_rebuild, run_archive_rename, RewriteRun,
};
use rerics::operation::calc::{run_calc_size, run_calc_size_groups, CalcRun, Group};
use rerics::operation::compress::{
    run_archive_add, run_compress, run_compress_7z, run_compress_tar_xz, run_compress_xz_single,
    PackRun, XzRun,
};
use rerics::operation::copy::{run_copy, CopyRun};
use rerics::operation::delete::{run_delete, DeleteRun};
use rerics::operation::extract::{run_extract, ExtractRun};
use rerics::operation::host::{answer, should_stop, show, CopyOptions, OperationHost};
use rerics::operation::messages::Message;
use rerics::operation::{
    ArchiveFormat, Ask, ConflictResolution, CopySignal, DeleteWarnChoice, DirInfo, Effect,
    ItemFacts, Kind, LogLevel, OpSummary, ProgressHandle, ProgressTracker, Reply, Step,
};
use rerics::winpath;

const READONLY: u32 = 1;

#[derive(Clone, Debug, PartialEq)]
enum Node {
    Dir { mtime: i64 },
    File { bytes: Vec<u8>, attributes: u32, mtime: i64 },
}

/// What is written to an archive.
enum Packer {
    Zip(zip::ZipWriter<Cursor<Vec<u8>>>),
    SevenZ(sevenz_rust2::ArchiveWriter<Cursor<Vec<u8>>>),
    TarXz(tar::Builder<lzma_rust2::XzWriter<Vec<u8>>>),
    Xz(lzma_rust2::XzWriter<Vec<u8>>),
}

/// A disk in memory, with at most one archive open for reading and one for writing.
struct Disk {
    nodes: RefCell<BTreeMap<String, Node>>,
    listing: RefCell<BTreeMap<String, Vec<String>>>,
    entries: Vec<(String, Vec<u8>)>,
    read: RefCell<Vec<u8>>,
    opened: RefCell<Option<Vec<u8>>>,
    packer: RefCell<Option<(String, Packer)>>,
    source: RefCell<Vec<u8>>,
    clock: RefCell<i64>,
}

fn deflated() -> zip::write::SimpleFileOptions {
    zip::write::SimpleFileOptions::default().compression_method(zip::CompressionMethod::Deflated)
}

impl Disk {
    fn new() -> Disk {
        Disk {
            nodes: RefCell::new(BTreeMap::new()),
            listing: RefCell::new(BTreeMap::new()),
            entries: Vec::new(),
            read: RefCell::new(Vec::new()),
            opened: RefCell::new(None),
            packer: RefCell::new(None),
            source: RefCell::new(Vec::new()),
            clock: RefCell::new(100),
        }
    }

    fn now(&self) -> i64 {
        let mut clock = self.clock.borrow_mut();
        *clock += 1;
        *clock
    }

    fn dir(&self, path: &str) {
        let mtime = self.now();
        self.nodes.borrow_mut().insert(path.to_string(), Node::Dir { mtime });
    }

    fn write(&self, path: &str, bytes: &[u8]) {
        let mtime = self.now();
        self.nodes
            .borrow_mut()
            .insert(path.to_string(), Node::File { bytes: bytes.to_vec(), attributes: 0, mtime });
    }

    fn protect(&self, path: &str) {
        if let Some(Node::File { attributes, .. }) = self.nodes.borrow_mut().get_mut(path) {
            *attributes = READONLY;
        }
    }

    fn get(&self, path: &str) -> Option<Node> {
        self.nodes.borrow().get(path).cloned()
    }

    fn has(&self, path: &str) -> bool {
        self.get(path).is_some()
    }

    fn is_dir(&self, path: &str) -> bool {
        matches!(self.get(path), Some(Node::Dir { .. }))
    }

    fn is_file(&self, path: &str) -> bool {
        matches!(self.get(path), Some(Node::File { .. }))
    }

    fn bytes(&self, path: &str) -> Option<Vec<u8>> {
        match self.get(path) {
            Some(Node::File { bytes, .. }) => Some(bytes),
            _ => None,
        }
    }

    fn text(&self, path: &str) -> String {
        String::from_utf8(self.bytes(path).unwrap()).unwrap()
    }

    fn mtime(&self, path: &str) -> Option<i64> {
        match self.get(path) {
            Some(Node::File { mtime, .. }) | Some(Node::Dir { mtime }) => Some(mtime),
            None => None,
        }
    }

    fn children(&self, dir: &str) -> Vec<String> {
        let head = format!("{dir}\\");
        self.nodes
            .borrow()
            .keys()
            .filter_map(|k| k.strip_prefix(&head))
            .filter(|rest| !rest.contains('\\'))
            .map(|rest| rest.to_string())
            .collect()
    }

    fn remove_file(&self, path: &str) -> Reply {
        match self.get(path) {
            Some(Node::File { attributes, .. }) if attributes & READONLY == 0 => {
                self.nodes.borrow_mut().remove(path);
                Reply::Done
            }
            _ => Reply::Failed("denied".to_string()),
        }
    }

    fn remove_dir(&self, path: &str) -> Reply {
        if self.is_dir(path) && self.children(path).is_empty() {
            self.nodes.borrow_mut().remove(path);
            Reply::Done
        } else {
            Reply::Failed("not empty".to_string())
        }
    }

    fn rename(&self, src: &str, dst: &str) -> Reply {
        if !self.has(src) || self.is_dir(dst) {
            return Reply::Failed("cannot rename".to_string());
        }
        let below = format!("{src}\\");
        let moved: Vec<(String, Node)> = self
            .nodes
            .borrow()
            .iter()
            .filter(|(k, _)| *k == src || k.starts_with(&below))
            .map(|(k, v)| (k.clone(), v.clone()))
            .collect();
        for (k, v) in moved {
            self.nodes.borrow_mut().remove(&k);
            self.nodes.borrow_mut().insert(format!("{dst}{}", &k[src.len()..]), v);
        }
        Reply::Done
    }

    fn carry_out(&self, effect: &Effect, options: CopyOptions) {
        match effect {
            Effect::ClearAttributes(path) => {
                if let Some(Node::File { attributes, .. }) = self.nodes.borrow_mut().get_mut(path) {
                    *attributes = 0;
                }
            }
            Effect::ApplyDirMetadata { src, dst } => {
                if options.copy_date {
                    let from = self.mtime(src).unwrap();
                    if let Some(Node::Dir { mtime }) = self.nodes.borrow_mut().get_mut(dst) {
                        *mtime = from;
                    }
                }
            }
            Effect::RemoveDir(path) => {
                let _ = self.remove_dir(path);
            }
            Effect::RemoveFile(path) => {
                let _ = self.remove_file(path);
            }
            Effect::RemoveLink { .. } => unreachable!("no links here"),
            Effect::Log(..) | Effect::UpdateProgress(..) | Effect::EndProgress(..) => {}
        }
    }

    fn copy_file(&self, src: &str, dst: &str, signal: CopySignal, stop: bool) -> Reply {
        let Some(bytes) = self.bytes(src) else {
            return Reply::Failed("not found".to_string());
        };
        match signal {
            CopySignal::Start => {
                if let Some(Node::File { attributes, .. }) = self.get(dst) {
                    if attributes & READONLY != 0 {
                        return Reply::Failed("denied".to_string());
                    }
                }
                Reply::Copying {
                    elapsed_secs: 0,
                    transferred: 0,
                    total: bytes.len() as u64,
                    cancelled: stop,
                }
            }
            CopySignal::Continue => {
                self.write(dst, &bytes);
                Reply::Done
            }
            CopySignal::Abort => Reply::Aborted,
        }
    }

    fn create_archive(&self, path: &str, format: ArchiveFormat) -> Reply {
        let options = || lzma_rust2::XzOptions::with_preset(0);
        let xz = || lzma_rust2::XzWriter::new(Vec::new(), options()).unwrap();
        let packer = match format {
            ArchiveFormat::SevenZip => {
                Packer::SevenZ(sevenz_rust2::ArchiveWriter::new(Cursor::new(Vec::new())).unwrap())
            }
            ArchiveFormat::TarXz => Packer::TarXz(tar::Builder::new(xz())),
            ArchiveFormat::Xz => Packer::Xz(xz()),
            ArchiveFormat::Zip => Packer::Zip(zip::ZipWriter::new(Cursor::new(Vec::new()))),
        };
        self.write(path, b"");
        *self.packer.borrow_mut() = Some((path.to_string(), packer));
        Reply::Done
    }

    fn open_archive(&self, path: &str, appends: bool) -> Reply {
        let Some(bytes) = self.bytes(path) else {
            return Reply::Failed("not found".to_string());
        };
        let count = match zip::ZipArchive::new(Cursor::new(bytes.clone())) {
            Ok(archive) => archive.len() as u64,
            Err(e) => return Reply::Failed(e.to_string()),
        };
        if appends {
            let writer = zip::ZipWriter::new_append(Cursor::new(bytes)).unwrap();
            *self.packer.borrow_mut() = Some((path.to_string(), Packer::Zip(writer)));
        } else {
            *self.opened.borrow_mut() = Some(bytes);
        }
        Reply::Opened(count)
    }

    fn add_dir(&self, rel: &str) -> Reply {
        match self.packer.borrow_mut().as_mut() {
            Some((_, Packer::Zip(zw))) => zw.add_directory(format!("{rel}/"), deflated()).unwrap(),
            Some((_, Packer::SevenZ(sz))) => {
                let entry = sevenz_rust2::ArchiveEntry::new_directory(rel);
                sz.push_archive_entry::<&[u8]>(entry, None).unwrap();
            }
            Some((_, Packer::TarXz(tb))) => {
                let mut header = tar::Header::new_gnu();
                header.set_entry_type(tar::EntryType::Directory);
                header.set_size(0);
                header.set_mode(0o755);
                tb.append_data(&mut header, format!("{rel}/"), std::io::empty()).unwrap();
            }
            _ => unreachable!("nothing is open"),
        }
        Reply::Done
    }

    fn add_bytes(&self, bytes: &[u8], rel: &str) -> Reply {
        match self.packer.borrow_mut().as_mut() {
            Some((_, Packer::Zip(zw))) => {
                zw.start_file(rel.to_string(), deflated()).unwrap();
                zw.write_all(bytes).unwrap();
            }
            Some((_, Packer::SevenZ(sz))) => {
                let entry = sevenz_rust2::ArchiveEntry::new_file(rel);
                sz.push_archive_entry(entry, Some(bytes)).unwrap();
            }
            Some((_, Packer::TarXz(tb))) => {
                let mut header = tar::Header::new_gnu();
                header.set_size(bytes.len() as u64);
                header.set_mode(0o644);
                tb.append_data(&mut header, rel, bytes).unwrap();
            }
            _ => unreachable!("nothing is open"),
        }
        Reply::Done
    }

    fn write_chunk(&self) -> Reply {
        let bytes = self.read.borrow().clone();
        match self.packer.borrow_mut().as_mut() {
            Some((_, Packer::Zip(zw))) => zw.write_all(&bytes).unwrap(),
            Some((_, Packer::Xz(xz))) => xz.write_all(&bytes).unwrap(),
            _ => unreachable!("nothing is open"),
        }
        Reply::Done
    }

    fn finish(&self) -> Reply {
        let Some((path, packer)) = self.packer.borrow_mut().take() else {
            return Reply::Failed("nothing is open".to_string());
        };
        let bytes = match packer {
            Packer::Zip(zw) => zw.finish().unwrap().into_inner(),
            Packer::SevenZ(sz) => sz.finish().unwrap().into_inner(),
            Packer::TarXz(tb) => tb.into_inner().unwrap().finish().unwrap(),
            Packer::Xz(xz) => xz.finish().unwrap(),
        };
        self.write(&path, &bytes);
        Reply::Done
    }

    fn entry_at(&self, index: u64) -> Reply {
        let bytes = self.opened.borrow().clone().unwrap();
        let mut archive = zip::ZipArchive::new(Cursor::new(bytes)).unwrap();
        let reply = match archive.by_index_raw(index as usize) {
            Ok(file) => Reply::Named { raw: file.name_raw().to_vec(), is_dir: file.is_dir() },
            Err(e) => Reply::Failed(e.to_string()),
        };
        reply
    }

    fn copy_entry(&self, index: u64, name: &str) -> Reply {
        let bytes = self.opened.borrow().clone().unwrap();
        let mut archive = zip::ZipArchive::new(Cursor::new(bytes)).unwrap();
        let file = archive.by_index_raw(index as usize).unwrap();
        match self.packer.borrow_mut().as_mut() {
            Some((_, Packer::Zip(zw))) => zw.raw_copy_file_rename(file, name).unwrap(),
            _ => unreachable!("nothing is open"),
        }
        Reply::Done
    }

    /// What the disk answers. `appends` says that an archive is opened to be written to.
    fn reply(&self, ask: &Ask, stop: bool, appends: bool) -> Reply {
        match ask {
            Ask::Roots { src, dst } => Reply::Roots {
                src: Some(src.clone()),
                dst: Some(dst.clone()),
                src_is_dir: self.is_dir(src),
            },
            Ask::Inspect { src, dst } => Reply::Facts(ItemFacts {
                link: None,
                src_is_dir: self.is_dir(src),
                dst_exists: self.has(dst),
                dst_is_dir: self.is_dir(dst),
            }),
            Ask::MakeLink { .. } => unreachable!("no links here"),
            Ask::Rename { src, dst } => self.rename(src, dst),
            Ask::CreateDir(path) => {
                if !self.has(path) {
                    self.dir(path);
                }
                Reply::Done
            }
            Ask::OpenDir(path) => {
                if !self.is_dir(path) {
                    return Reply::Failed("not a directory".to_string());
                }
                let mut names = self.children(path);
                names.reverse();
                self.listing.borrow_mut().insert(path.clone(), names);
                Reply::Done
            }
            Ask::NextEntry(path) => {
                match self.listing.borrow_mut().get_mut(path).and_then(|names| names.pop()) {
                    Some(name) => Reply::Entry(name),
                    None => Reply::End,
                }
            }
            Ask::Exists(path) => Reply::Flag(self.has(path)),
            Ask::Times { src, dst } => Reply::Times(self.mtime(src), self.mtime(dst)),
            Ask::ModifiedAt(path) => Reply::Modified(self.mtime(path)),
            Ask::CreateParent(_) => Reply::Done,
            Ask::CopyFile { src, dst, signal } => self.copy_file(src, dst, *signal, stop),
            Ask::RemoveFile(path) => self.remove_file(path),
            Ask::RemoveDir(path) => self.remove_dir(path),
            Ask::IsDir(path) => Reply::Flag(self.is_dir(path)),
            Ask::KindOf(path) => {
                Reply::Kind(if self.is_dir(path) { Kind::Dir } else { Kind::File })
            }
            Ask::Attributes(path) => Reply::Attributes(match self.get(path) {
                Some(Node::File { attributes, .. }) => Some(attributes),
                Some(Node::Dir { .. }) => Some(16),
                None => None,
            }),
            Ask::SizeOf(path) => match self.get(path) {
                Some(Node::File { bytes, .. }) => {
                    Reply::Size { is_dir: false, len: bytes.len() as u64 }
                }
                Some(Node::Dir { .. }) => Reply::Size { is_dir: true, len: 0 },
                None => Reply::Failed("not found".to_string()),
            },
            Ask::ReadEntry(inner) => match self.entries.iter().find(|(name, _)| name == inner) {
                Some((_, bytes)) => {
                    *self.read.borrow_mut() = bytes.clone();
                    Reply::Done
                }
                None => Reply::Failed("not found".to_string()),
            },
            Ask::WriteEntry { target, .. } => {
                let bytes = self.read.borrow().clone();
                self.write(target, &bytes);
                Reply::Done
            }
            Ask::CreateArchive { path, format } => self.create_archive(path, *format),
            Ask::OpenArchive(path) => self.open_archive(path, appends),
            Ask::OpenSource(path) => match self.bytes(path) {
                Some(bytes) => {
                    let len = bytes.len() as u64;
                    *self.source.borrow_mut() = bytes;
                    Reply::Opened(len)
                }
                None => Reply::Failed("not found".to_string()),
            },
            Ask::ReadSource(path) => match self.bytes(path) {
                Some(bytes) => {
                    *self.read.borrow_mut() = bytes;
                    Reply::Done
                }
                None => Reply::Failed("not found".to_string()),
            },
            Ask::AddDir { rel, .. } => self.add_dir(rel),
            Ask::AddFile { src, rel } => match self.bytes(src) {
                Some(bytes) => self.add_bytes(&bytes, rel),
                None => Reply::Failed("not found".to_string()),
            },
            Ask::AddRead(rel) => {
                let bytes = self.read.borrow().clone();
                self.add_bytes(&bytes, rel)
            }
            Ask::StartEntry(rel) => match self.packer.borrow_mut().as_mut() {
                Some((_, Packer::Zip(zw))) => match zw.start_file(rel.clone(), deflated()) {
                    Ok(()) => Reply::Done,
                    Err(e) => Reply::Failed(e.to_string()),
                },
                _ => unreachable!("nothing is open"),
            },
            Ask::ReadChunk => {
                let piece = std::mem::take(&mut *self.source.borrow_mut());
                let n = piece.len() as u64;
                *self.read.borrow_mut() = piece;
                Reply::Bytes(n)
            }
            Ask::WriteChunk => self.write_chunk(),
            Ask::Elapsed => Reply::Seconds(0),
            Ask::EntryAt(index) => self.entry_at(*index),
            Ask::CopyEntry { index, name } => self.copy_entry(*index, name),
            Ask::Finish => self.finish(),
            Ask::Stop
            | Ask::Conflict(_)
            | Ask::BeginProgress(..)
            | Ask::ConfirmDelete { .. }
            | Ask::Ended(_)
            | Ask::Measured(_) => unreachable!("not for the disk"),
        }
    }
}

/// A user who decides everything beforehand.
struct FakeHost {
    logs: RefCell<Vec<(LogLevel, String)>>,
    cancel_after: isize,
    conflict: ConflictResolution,
    delete_warn: DeleteWarnChoice,
    copy_opts: CopyOptions,
}

impl FakeHost {
    fn new() -> Self {
        Self {
            logs: RefCell::new(Vec::new()),
            cancel_after: -1,
            conflict: ConflictResolution::Overwrite,
            delete_warn: DeleteWarnChoice::Yes,
            copy_opts: CopyOptions::default(),
        }
    }

    fn cancelling(after: isize) -> Self {
        Self { cancel_after: after, ..Self::new() }
    }

    fn with_conflict(res: ConflictResolution) -> Self {
        Self { conflict: res, ..Self::new() }
    }

    fn with_delete_warn(choice: DeleteWarnChoice) -> Self {
        Self { delete_warn: choice, ..Self::new() }
    }

    fn lines(&self) -> Vec<String> {
        self.logs.borrow().iter().map(|(_, t)| t.clone()).collect()
    }
}

impl OperationHost for FakeHost {
    fn log(&self, level: LogLevel, text: &str) {
        self.logs.borrow_mut().push((level, text.to_owned()));
    }

    fn cancelled(&self) -> bool {
        if self.cancel_after < 0 {
            return false;
        }
        let copies = self
            .logs
            .borrow()
            .iter()
            .filter(|(lvl, t)| {
                *lvl == LogLevel::Normal
                    && (t.starts_with("Copy ")
                        || t.starts_with("Move ")
                        || t.starts_with("Compress "))
            })
            .count() as isize;
        copies >= self.cancel_after
    }

    fn wait_while_suspended(&self) {}

    fn resolve_conflict(&self, _name: &str) -> ConflictResolution {
        self.conflict.clone()
    }

    fn confirm_delete_attr(&self, _name: &str, _attr: &str) -> DeleteWarnChoice {
        self.delete_warn
    }

    fn begin_progress(&self, level: LogLevel, text: &str) -> ProgressHandle {
        self.log(level, text);
        ProgressHandle(0)
    }

    fn update_progress(&self, _handle: ProgressHandle, _text: &str) {}

    fn end_progress(&self, _handle: ProgressHandle, _text: &str) {}

    fn copy_options(&self) -> CopyOptions {
        self.copy_opts
    }
}

trait Machine: Sized {
    const APPENDS: bool = false;

    fn go(self, reply: Reply) -> (Self, Step);
}

impl Machine for CopyRun {
    fn go(self, reply: Reply) -> (Self, Step) {
        self.step(reply)
    }
}

impl Machine for DeleteRun {
    fn go(self, reply: Reply) -> (Self, Step) {
        self.step(reply)
    }
}

impl Machine for CalcRun {
    fn go(self, reply: Reply) -> (Self, Step) {
        self.step(reply)
    }
}

impl Machine for ExtractRun {
    fn go(self, reply: Reply) -> (Self, Step) {
        self.step(reply)
    }
}

impl Machine for PackRun {
    const APPENDS: bool = true;

    fn go(self, reply: Reply) -> (Self, Step) {
        self.step(reply)
    }
}

impl Machine for XzRun {
    fn go(self, reply: Reply) -> (Self, Step) {
        self.step(reply)
    }
}

impl Machine for RewriteRun {
    fn go(self, reply: Reply) -> (Self, Step) {
        self.step(reply)
    }
}

/// Carries an operation out to its end.
fn drive<M: Machine>(host: &FakeHost, disk: &Disk, start: (M, Step)) -> Ask {
    let (mut machine, mut step) = start;
    for _ in 0..10_000 {
        for effect in &step.effects {
            if !show(host, effect) {
                disk.carry_out(effect, host.copy_options());
            }
        }
        if matches!(step.ask, Ask::Ended(_) | Ask::Measured(_)) {
            return step.ask;
        }
        let reply = match answer(host, &step.ask) {
            Some(reply) => reply,
            None => disk.reply(&step.ask, host.cancelled(), M::APPENDS),
        };
        let (next, next_step) = machine.go(reply);
        machine = next;
        step = next_step;
    }
    panic!("the operation does not end");
}

fn summary<M: Machine>(host: &FakeHost, disk: &Disk, start: (M, Step)) -> OpSummary {
    match drive(host, disk, start) {
        Ask::Ended(sum) => sum,
        other => panic!("{other:?}"),
    }
}

fn measured(host: &FakeHost, disk: &Disk, start: (CalcRun, Step)) -> DirInfo {
    match drive(host, disk, start) {
        Ask::Measured(info) => info,
        other => panic!("{other:?}"),
    }
}

fn names(all: &[&str]) -> Vec<String> {
    all.iter().map(|n| n.to_string()).collect()
}

/// A disk with two directories.
fn two_dirs() -> Disk {
    let disk = Disk::new();
    disk.dir("C:\\src");
    disk.dir("C:\\dst");
    disk
}

fn copy(host: &FakeHost, disk: &Disk, all: &[&str], move_it: bool) -> OpSummary {
    summary(host, disk, run_copy("C:\\src", "C:\\dst", names(all), move_it))
}

#[test]
fn copy_file_succeeds() {
    let disk = two_dirs();
    disk.write("C:\\src\\a.txt", b"hello");
    let host = FakeHost::new();
    let sum = copy(&host, &disk, &["a.txt"], false);
    assert_eq!(sum, OpSummary { ok: 1, skip: 0, err: 0, cancelled: false });
    assert_eq!(disk.text("C:\\dst\\a.txt"), "hello");
    assert!(disk.has("C:\\src\\a.txt"));
}

#[test]
fn move_file_removes_source() {
    let disk = two_dirs();
    disk.write("C:\\src\\a.txt", b"hello");
    let host = FakeHost::new();
    let sum = copy(&host, &disk, &["a.txt"], true);
    assert_eq!(sum.ok, 1);
    assert!(!disk.has("C:\\src\\a.txt"));
    assert!(disk.has("C:\\dst\\a.txt"));
}

#[test]
fn copy_logs_start_and_end_frames() {
    let disk = two_dirs();
    disk.write("C:\\src\\a.txt", b"hello");
    let host = FakeHost::new();
    copy(&host, &disk, &["a.txt"], false);
    let lines = host.lines();
    assert_eq!(lines.first().map(String::as_str), Some("コピー開始"));
    assert_eq!(lines.last().map(String::as_str), Some("コピー終了"));

    disk.write("C:\\src\\b.txt", b"x");
    let host2 = FakeHost::new();
    copy(&host2, &disk, &["b.txt"], true);
    let l2 = host2.lines();
    assert_eq!(l2.first().map(String::as_str), Some("移動開始"));
    assert_eq!(l2.last().map(String::as_str), Some("移動終了"));
}

#[test]
fn copy_error_ends_with_warning_frame() {
    let disk = two_dirs();
    let host = FakeHost::new();
    copy(&host, &disk, &["nope.txt"], false);
    assert_eq!(host.lines().last().map(String::as_str), Some("コピー警告終了"));
}

#[test]
fn copy_cancel_ends_with_abort_frame() {
    let disk = two_dirs();
    disk.write("C:\\src\\a.txt", b"x");
    let host = FakeHost::cancelling(0);
    copy(&host, &disk, &["a.txt"], false);
    assert_eq!(host.lines().last().map(String::as_str), Some("コピー中止"));
}

#[test]
fn delete_logs_start_and_end_frames() {
    let disk = two_dirs();
    disk.write("C:\\src\\a.txt", b"x");
    let host = FakeHost::new();
    summary(&host, &disk, run_delete("C:\\src", names(&["a.txt"])));
    let lines = host.lines();
    assert_eq!(lines.first().map(String::as_str), Some("削除開始"));
    assert_eq!(lines.last().map(String::as_str), Some("削除終了"));
}

#[test]
fn calc_size_counts_files_dirs_and_bytes() {
    let disk = Disk::new();
    disk.dir("C:\\base");
    disk.write("C:\\base\\a.txt", b"12345");
    disk.dir("C:\\base\\sub");
    disk.write("C:\\base\\sub\\b.txt", b"xyz");
    let host = FakeHost::new();
    let info = measured(&host, &disk, run_calc_size("C:\\base", names(&["a.txt", "sub"])));
    assert_eq!(info.files, 2);
    assert_eq!(info.dirs, 1);
    assert_eq!(info.bytes, 8);
}

#[test]
fn calc_size_groups_accumulates_across_dirs() {
    let disk = Disk::new();
    disk.dir("C:\\d1");
    disk.write("C:\\d1\\a.txt", b"12345");
    disk.dir("C:\\d2");
    disk.write("C:\\d2\\b.txt", b"xyz");
    let host = FakeHost::new();
    let groups = vec![
        Group { dir: "C:\\d1".to_string(), names: names(&["a.txt"]) },
        Group { dir: "C:\\d2".to_string(), names: names(&["b.txt"]) },
    ];
    let info = measured(&host, &disk, run_calc_size_groups(groups));
    assert_eq!(info.files, 2);
    assert_eq!(info.dirs, 0);
    assert_eq!(info.bytes, 8);
}

#[test]
fn groups_come_to_the_sums_of_what_each_comes_to() {
    let disk = Disk::new();
    disk.dir("C:\\d1");
    disk.dir("C:\\d1\\sub");
    disk.write("C:\\d1\\sub\\a.txt", b"12345");
    disk.dir("C:\\d2");
    disk.write("C:\\d2\\b.txt", b"xyz");
    let host = FakeHost::new();
    let all = [("C:\\d1", ["sub"]), ("C:\\d2", ["b.txt"])];
    let singly: Vec<_> =
        all.iter().map(|(d, n)| measured(&host, &disk, run_calc_size(d, names(n)))).collect();
    let groups =
        all.iter().map(|(d, n)| Group { dir: d.to_string(), names: names(n) }).collect();
    let info = measured(&host, &disk, run_calc_size_groups(groups));
    assert_eq!(info.bytes, singly[0].bytes + singly[1].bytes);
    assert_eq!((info.files, info.dirs, info.bytes), (2, 1, 8));
}

#[test]
fn every_item_that_is_copied_has_one_result() {
    let disk = two_dirs();
    disk.write("C:\\src\\a.txt", b"1");
    disk.dir("C:\\src\\d");
    disk.write("C:\\src\\d\\b.txt", b"2");
    let host = FakeHost::new();
    let sum = copy(&host, &disk, &["a.txt", "d", "nope.txt"], false);
    assert_eq!(sum, OpSummary { ok: 3, skip: 0, err: 1, cancelled: false });
}

#[test]
fn copy_missing_source_reports_error() {
    let disk = two_dirs();
    let host = FakeHost::new();
    let sum = copy(&host, &disk, &["nope.txt"], false);
    assert_eq!(sum.err, 1);
    assert_eq!(sum.ok, 0);
    assert!(host.lines().iter().any(|l| l.contains("コピーに失敗しました")));
    assert!(host.lines().iter().any(|l| l == "0 Success, 0 Skip, 1 Error"));
}

#[test]
fn copy_file_onto_existing_dir_skips() {
    let disk = two_dirs();
    disk.write("C:\\src\\a", b"hello");
    disk.dir("C:\\dst\\a");
    let host = FakeHost::new();
    let sum = copy(&host, &disk, &["a"], false);
    assert_eq!(sum, OpSummary { ok: 0, skip: 1, err: 0, cancelled: false });
    assert!(host.lines().iter().any(|l| l.contains("ディレクトリ属性が異なる")));
    assert!(disk.is_dir("C:\\dst\\a"));
}

#[test]
fn copy_dir_onto_existing_file_skips() {
    let disk = two_dirs();
    disk.dir("C:\\src\\a");
    disk.write("C:\\dst\\a", b"x");
    let host = FakeHost::new();
    let sum = copy(&host, &disk, &["a"], false);
    assert_eq!(sum.skip, 1);
    assert_eq!(sum.ok, 0);
    assert!(host.lines().iter().any(|l| l.contains("ディレクトリ属性が異なる")));
    assert!(disk.is_file("C:\\dst\\a"));
}

#[test]
fn copy_dir_replicates_modified_date() {
    let disk = two_dirs();
    disk.dir("C:\\src\\d");
    disk.write("C:\\src\\d\\inner.txt", b"x");
    let before = disk.mtime("C:\\src\\d");
    let host = FakeHost {
        copy_opts: CopyOptions { copy_attribute: true, copy_date: true },
        ..FakeHost::new()
    };
    copy(&host, &disk, &["d"], false);
    assert_eq!(disk.mtime("C:\\dst\\d"), before);
}

#[test]
fn copy_dir_without_copy_date_uses_fresh_time() {
    let disk = two_dirs();
    disk.dir("C:\\src\\d");
    disk.write("C:\\src\\d\\inner.txt", b"x");
    let before = disk.mtime("C:\\src\\d");
    let host = FakeHost::new();
    copy(&host, &disk, &["d"], false);
    assert_ne!(disk.mtime("C:\\dst\\d"), before);
}

#[test]
fn copy_same_path_guarded() {
    let disk = two_dirs();
    disk.write("C:\\src\\a.txt", b"x");
    let host = FakeHost::new();
    let sum = summary(&host, &disk, run_copy("C:\\src", "C:\\src", names(&["a.txt"]), false));
    assert_eq!(sum.err, 1);
    assert!(host.lines().iter().any(|l| l.starts_with("コピー先が同じです")));
}

#[test]
fn delete_file_succeeds() {
    let disk = two_dirs();
    disk.write("C:\\src\\a.txt", b"x");
    let host = FakeHost::new();
    let sum = summary(&host, &disk, run_delete("C:\\src", names(&["a.txt"])));
    assert_eq!(sum.ok, 1);
    assert!(!disk.has("C:\\src\\a.txt"));
}

#[test]
fn delete_readonly_warns_and_no_keeps_file() {
    let disk = two_dirs();
    disk.write("C:\\src\\a.txt", b"x");
    disk.protect("C:\\src\\a.txt");
    let host = FakeHost::with_delete_warn(DeleteWarnChoice::No);
    let sum = summary(&host, &disk, run_delete("C:\\src", names(&["a.txt"])));
    assert_eq!(sum.ok, 0);
    assert!(disk.has("C:\\src\\a.txt"));
}

#[test]
fn delete_readonly_yes_clears_and_deletes() {
    let disk = two_dirs();
    disk.write("C:\\src\\a.txt", b"x");
    disk.protect("C:\\src\\a.txt");
    let host = FakeHost::with_delete_warn(DeleteWarnChoice::Yes);
    let sum = summary(&host, &disk, run_delete("C:\\src", names(&["a.txt"])));
    assert_eq!(sum.ok, 1);
    assert!(!disk.has("C:\\src\\a.txt"));
}

#[test]
fn delete_stops_where_the_warning_is_cancelled() {
    let disk = two_dirs();
    disk.write("C:\\src\\a.txt", b"x");
    disk.protect("C:\\src\\a.txt");
    disk.write("C:\\src\\b.txt", b"x");
    let host = FakeHost::with_delete_warn(DeleteWarnChoice::Cancel);
    let sum = summary(&host, &disk, run_delete("C:\\src", names(&["a.txt", "b.txt"])));
    assert!(sum.cancelled);
    assert!(disk.has("C:\\src\\a.txt"));
    assert!(disk.has("C:\\src\\b.txt"));
    assert_eq!(host.lines().last().map(String::as_str), Some("削除中止"));
}

#[test]
fn delete_directory_recurses_and_counts_each_item() {
    let disk = Disk::new();
    disk.dir("C:\\root");
    disk.dir("C:\\root\\d");
    disk.dir("C:\\root\\d\\sub");
    disk.write("C:\\root\\d\\c.txt", b"c");
    disk.write("C:\\root\\d\\sub\\a.txt", b"a");
    disk.write("C:\\root\\d\\sub\\b.txt", b"b");
    let host = FakeHost::new();
    let sum = summary(&host, &disk, run_delete("C:\\root", names(&["d"])));
    assert_eq!(sum.ok, 5);
    assert_eq!(sum.err, 0);
    assert!(!disk.has("C:\\root\\d"));
}

#[test]
fn delete_keeps_directory_when_child_kept() {
    let disk = Disk::new();
    disk.dir("C:\\root");
    disk.dir("C:\\root\\d");
    disk.write("C:\\root\\d\\plain.txt", b"p");
    disk.write("C:\\root\\d\\ro.txt", b"r");
    disk.protect("C:\\root\\d\\ro.txt");
    let host = FakeHost::with_delete_warn(DeleteWarnChoice::No);
    let sum = summary(&host, &disk, run_delete("C:\\root", names(&["d"])));
    assert_eq!(sum.ok, 1);
    assert!(disk.has("C:\\root\\d\\ro.txt"));
    assert!(disk.has("C:\\root\\d"));
}

#[test]
fn delete_clears_nested_readonly_child_on_yes() {
    let disk = Disk::new();
    disk.dir("C:\\root");
    disk.dir("C:\\root\\d");
    disk.write("C:\\root\\d\\ro.txt", b"r");
    disk.protect("C:\\root\\d\\ro.txt");
    let host = FakeHost::with_delete_warn(DeleteWarnChoice::Yes);
    let sum = summary(&host, &disk, run_delete("C:\\root", names(&["d"])));
    assert_eq!(sum.ok, 2);
    assert_eq!(sum.err, 0);
    assert!(!disk.has("C:\\root\\d"));
}

#[test]
fn cancel_stops_early() {
    let disk = two_dirs();
    disk.write("C:\\src\\a.txt", b"1");
    disk.write("C:\\src\\b.txt", b"2");
    let host = FakeHost::cancelling(2);
    let sum = copy(&host, &disk, &["a.txt", "b.txt"], false);
    assert!(sum.cancelled);
    assert_eq!(sum.ok, 1);
    assert!(disk.has("C:\\dst\\a.txt"));
    assert!(!disk.has("C:\\dst\\b.txt"));
}

#[test]
fn cancel_during_file_copy_leaves_no_partial() {
    let disk = two_dirs();
    disk.write("C:\\src\\a.txt", b"hello");
    let host = FakeHost::cancelling(1);
    let sum = copy(&host, &disk, &["a.txt"], false);
    assert!(sum.cancelled);
    assert_eq!(sum.ok, 0);
    assert!(!disk.has("C:\\dst\\a.txt"));
}

#[test]
fn conflict_skip_keeps_destination() {
    let disk = two_dirs();
    disk.write("C:\\src\\a.txt", b"new");
    disk.write("C:\\dst\\a.txt", b"old");
    let host = FakeHost::with_conflict(ConflictResolution::Skip);
    let sum = copy(&host, &disk, &["a.txt"], false);
    assert_eq!(sum.skip, 1);
    assert_eq!(sum.ok, 0);
    assert_eq!(disk.text("C:\\dst\\a.txt"), "old");
}

#[test]
fn conflict_overwrite_replaces_destination() {
    let disk = two_dirs();
    disk.write("C:\\src\\a.txt", b"new");
    disk.write("C:\\dst\\a.txt", b"old");
    let host = FakeHost::with_conflict(ConflictResolution::Overwrite);
    let sum = copy(&host, &disk, &["a.txt"], false);
    assert_eq!(sum.ok, 1);
    assert_eq!(disk.text("C:\\dst\\a.txt"), "new");
}

#[test]
fn conflict_newest_overwrites_only_older_files() {
    let disk = two_dirs();
    disk.write("C:\\src\\a.txt", b"older");
    disk.write("C:\\dst\\a.txt", b"newer");
    disk.write("C:\\dst\\b.txt", b"older");
    disk.write("C:\\src\\b.txt", b"newer");
    let host = FakeHost::with_conflict(ConflictResolution::Newest);
    let sum = copy(&host, &disk, &["a.txt", "b.txt"], false);
    assert_eq!((sum.ok, sum.skip), (1, 1));
    assert_eq!(disk.text("C:\\dst\\a.txt"), "newer");
    assert_eq!(disk.text("C:\\dst\\b.txt"), "newer");
}

#[test]
fn conflict_rename_copies_to_new_name() {
    let disk = two_dirs();
    disk.write("C:\\src\\a.txt", b"new");
    disk.write("C:\\dst\\a.txt", b"old");
    let host = FakeHost::with_conflict(ConflictResolution::Rename("a2.txt".to_owned()));
    let sum = copy(&host, &disk, &["a.txt"], false);
    assert_eq!(sum.ok, 1);
    assert_eq!(disk.text("C:\\dst\\a.txt"), "old");
    assert_eq!(disk.text("C:\\dst\\a2.txt"), "new");
}

#[test]
fn conflict_force_overwrites_readonly() {
    let disk = two_dirs();
    disk.write("C:\\src\\a.txt", b"new");
    disk.write("C:\\dst\\a.txt", b"old");
    disk.protect("C:\\dst\\a.txt");
    let host = FakeHost::with_conflict(ConflictResolution::OverwriteForce);
    let sum = copy(&host, &disk, &["a.txt"], false);
    assert_eq!(sum.ok, 1);
    assert_eq!(disk.text("C:\\dst\\a.txt"), "new");
}

#[test]
fn progress_tracker_silent_before_three_seconds() {
    let mut t = ProgressTracker::new();
    assert_eq!(t.tick_with_elapsed(0, 50, 100), None);
    assert_eq!(t.tick_with_elapsed(2, 50, 100), None);
}

#[test]
fn progress_tracker_reports_changed_percent_after_three_seconds() {
    let mut t = ProgressTracker::new();
    assert_eq!(t.tick_with_elapsed(3, 50, 100), Some(50));
    assert_eq!(t.tick_with_elapsed(4, 50, 100), None);
    assert_eq!(t.tick_with_elapsed(5, 73, 100), Some(73));
}

#[test]
fn progress_tracker_guards_zero_total() {
    let mut t = ProgressTracker::new();
    assert_eq!(t.tick_with_elapsed(9, 0, 0), None);
}

#[test]
fn conflict_cancel_aborts() {
    let disk = two_dirs();
    disk.write("C:\\src\\a.txt", b"new");
    disk.write("C:\\src\\b.txt", b"new");
    disk.write("C:\\dst\\a.txt", b"old");
    let host = FakeHost::with_conflict(ConflictResolution::Cancel);
    let sum = copy(&host, &disk, &["a.txt", "b.txt"], false);
    assert!(sum.cancelled);
    assert!(!disk.has("C:\\dst\\b.txt"));
}

#[test]
fn copy_dir_into_own_subtree_refused() {
    let disk = Disk::new();
    disk.dir("C:\\root");
    disk.dir("C:\\root\\d");
    disk.dir("C:\\root\\d\\inner");
    disk.write("C:\\root\\d\\inner\\x.txt", b"x");
    let host = FakeHost::new();
    let sum = summary(&host, &disk, run_copy("C:\\root", "C:\\root\\d", names(&["d"]), false));
    assert_eq!(sum.err, 1);
    assert_eq!(sum.ok, 0);
    assert!(host.lines().iter().any(|l| l.contains("自身の下へは")));
}

#[test]
fn conflict_rename_to_existing_does_not_overwrite() {
    let disk = two_dirs();
    disk.write("C:\\src\\a.txt", b"new");
    disk.write("C:\\dst\\a.txt", b"old");
    disk.write("C:\\dst\\b.txt", b"keep");
    let host = FakeHost::with_conflict(ConflictResolution::Rename("b.txt".to_owned()));
    let sum = copy(&host, &disk, &["a.txt"], false);
    assert_eq!(sum.ok, 0);
    assert_eq!(sum.skip, 1);
    assert_eq!(disk.text("C:\\dst\\b.txt"), "keep");
    assert_eq!(disk.text("C:\\dst\\a.txt"), "old");
}

#[test]
fn a_directory_is_moved_as_a_whole() {
    let disk = two_dirs();
    disk.dir("C:\\src\\d");
    disk.dir("C:\\src\\d\\e");
    disk.write("C:\\src\\d\\e\\f.txt", b"f");
    let host = FakeHost::new();
    let sum = copy(&host, &disk, &["d"], true);
    assert_eq!(sum.err, 0);
    assert!(!disk.has("C:\\src\\d"));
    assert_eq!(disk.text("C:\\dst\\d\\e\\f.txt"), "f");
}

/// A disk with an archive in memory, and the entries of that archive.
fn mock_archive(files: &[(&str, &[u8])]) -> (Disk, Vec<ArchiveEntry>) {
    let mut disk = two_dirs();
    let mut entries = Vec::new();
    for (path, body) in files {
        entries.push(ArchiveEntry {
            path: path.to_string(),
            is_dir: false,
            size: Some(body.len() as u64),
            packed_size: None,
            mtime: None,
            is_encrypted: false,
        });
        disk.entries.push((path.to_string(), body.to_vec()));
    }
    (disk, entries)
}

#[test]
fn extract_file_and_dir_recurses() {
    let (disk, entries) =
        mock_archive(&[("a.txt", b"AAA"), ("sub/c.txt", b"CCC"), ("sub/d.txt", b"DDD")]);
    let host = FakeHost::new();
    let sum =
        summary(&host, &disk, run_extract(entries, "", names(&["a.txt", "sub"]), "C:\\dst"));
    assert_eq!(sum.err, 0);
    assert_eq!(disk.text("C:\\dst\\a.txt"), "AAA");
    assert_eq!(disk.text("C:\\dst\\sub\\c.txt"), "CCC");
    assert_eq!(disk.text("C:\\dst\\sub\\d.txt"), "DDD");
}

#[test]
fn extract_subdir_only() {
    let (disk, entries) = mock_archive(&[("docs/readme.txt", b"R")]);
    let host = FakeHost::new();
    let sum = summary(&host, &disk, run_extract(entries, "docs", names(&["readme.txt"]), "C:\\dst"));
    assert_eq!(sum.ok, 1);
    assert_eq!(disk.text("C:\\dst\\readme.txt"), "R");
}

#[test]
fn extract_rejects_zip_slip_name() {
    let (disk, entries) = mock_archive(&[("ok.txt", b"X")]);
    let host = FakeHost::new();
    let sum = summary(&host, &disk, run_extract(entries, "", names(&[".."]), "C:\\dst"));
    assert_eq!(sum.err, 1);
    assert_eq!(sum.ok, 0);
    assert!(!disk.has("C:\\evil"));
}

#[test]
fn extract_conflict_skip_keeps_destination() {
    let (disk, entries) = mock_archive(&[("a.txt", b"new")]);
    disk.write("C:\\dst\\a.txt", b"old");
    let host = FakeHost::with_conflict(ConflictResolution::Skip);
    let sum = summary(&host, &disk, run_extract(entries, "", names(&["a.txt"]), "C:\\dst"));
    assert_eq!(sum.skip, 1);
    assert_eq!(disk.text("C:\\dst\\a.txt"), "old");
}

#[test]
fn extract_conflict_overwrite_replaces() {
    let (disk, entries) = mock_archive(&[("a.txt", b"new")]);
    disk.write("C:\\dst\\a.txt", b"old");
    let host = FakeHost::with_conflict(ConflictResolution::Overwrite);
    let sum = summary(&host, &disk, run_extract(entries, "", names(&["a.txt"]), "C:\\dst"));
    assert_eq!(sum.ok, 1);
    assert_eq!(disk.text("C:\\dst\\a.txt"), "new");
}

#[test]
fn extract_rejects_drive_prefixed_name() {
    let (disk, entries) = mock_archive(&[("ok.txt", b"X")]);
    let host = FakeHost::new();
    let sum = summary(&host, &disk, run_extract(entries, "", names(&["C:evil.txt"]), "C:\\dst"));
    assert_eq!(sum.err, 1);
    assert_eq!(sum.ok, 0);
}

/// A zip archive that is read back: the names as the library shows them, and the contents.
fn read_zip(disk: &Disk, path: &str) -> Vec<(String, Vec<u8>)> {
    let mut archive = zip::ZipArchive::new(Cursor::new(disk.bytes(path).unwrap())).unwrap();
    let mut found = Vec::new();
    for i in 0..archive.len() {
        let mut file = archive.by_index(i).unwrap();
        let name = normalize_inner(&decode_name(&file.name_raw().to_vec()));
        let mut bytes = Vec::new();
        file.read_to_end(&mut bytes).unwrap();
        found.push((name, bytes));
    }
    found
}

fn find<'a>(all: &'a [(String, Vec<u8>)], name: &str) -> Option<&'a [u8]> {
    all.iter().find(|(n, _)| n == name).map(|(_, b)| b.as_slice())
}

/// A directory with a file and a directory.
fn packable() -> Disk {
    let disk = two_dirs();
    disk.write("C:\\src\\a.txt", b"alpha");
    disk.dir("C:\\src\\sub");
    disk.write("C:\\src\\sub\\c.txt", b"charlie");
    disk
}

#[test]
fn compress_roundtrips_files_and_dirs() {
    let disk = packable();
    let host = FakeHost::new();
    let sum = summary(
        &host,
        &disk,
        run_compress("C:\\src", names(&["a.txt", "sub"]), "C:\\src\\out.zip"),
    );
    assert_eq!(sum.err, 0);
    assert!(disk.is_file("C:\\src\\out.zip"));
    let all = read_zip(&disk, "C:\\src\\out.zip");
    assert_eq!(find(&all, "a.txt").unwrap(), b"alpha");
    assert_eq!(find(&all, "sub/c.txt").unwrap(), b"charlie");
}

#[test]
fn compress_cancel_removes_partial() {
    let disk = two_dirs();
    disk.write("C:\\src\\a.txt", b"x");
    disk.write("C:\\src\\b.txt", b"y");
    let host = FakeHost { cancel_after: 1, ..FakeHost::new() };
    let sum = summary(
        &host,
        &disk,
        run_compress("C:\\src", names(&["a.txt", "b.txt"]), "C:\\src\\out.zip"),
    );
    assert!(sum.cancelled);
    assert!(!disk.has("C:\\src\\out.zip"));
}

#[test]
fn compress_7z_roundtrips_files_and_dirs() {
    let disk = packable();
    let host = FakeHost::new();
    let sum = summary(
        &host,
        &disk,
        run_compress_7z("C:\\src", names(&["a.txt", "sub"]), "C:\\src\\out.7z"),
    );
    assert_eq!(sum.err, 0);
    assert!(disk.is_file("C:\\src\\out.7z"));
    let bytes = disk.bytes("C:\\src\\out.7z").unwrap();
    let mut reader =
        sevenz_rust2::ArchiveReader::new(Cursor::new(bytes), sevenz_rust2::Password::empty())
            .unwrap();
    assert_eq!(reader.read_file("a.txt").unwrap(), b"alpha");
    assert_eq!(reader.read_file("sub/c.txt").unwrap(), b"charlie");
}

#[test]
fn compress_xz_single_roundtrips() {
    let disk = packable();
    let host = FakeHost::new();
    let sum =
        summary(&host, &disk, run_compress_xz_single("C:\\src", "a.txt", "C:\\src\\a.txt.xz"));
    assert_eq!(sum.err, 0);
    assert!(disk.is_file("C:\\src\\a.txt.xz"));
    let bytes = disk.bytes("C:\\src\\a.txt.xz").unwrap();
    let mut plain = Vec::new();
    lzma_rust2::XzReader::new(bytes.as_slice(), false).read_to_end(&mut plain).unwrap();
    assert_eq!(plain, b"alpha");
}

#[test]
fn compress_xz_single_of_nothing_fails() {
    let disk = two_dirs();
    let host = FakeHost::new();
    let sum = summary(&host, &disk, run_compress_xz_single("C:\\src", "no", "C:\\src\\no.xz"));
    assert_eq!((sum.ok, sum.err), (0, 1));
    assert!(!disk.has("C:\\src\\no.xz"));
}

#[test]
fn compress_tar_xz_roundtrips_files_and_dirs() {
    let disk = packable();
    let host = FakeHost::new();
    let sum = summary(
        &host,
        &disk,
        run_compress_tar_xz("C:\\src", names(&["a.txt", "sub"]), "C:\\src\\out.tar.xz"),
    );
    assert_eq!(sum.err, 0);
    assert!(disk.is_file("C:\\src\\out.tar.xz"));
    let bytes = disk.bytes("C:\\src\\out.tar.xz").unwrap();
    let mut plain = Vec::new();
    lzma_rust2::XzReader::new(bytes.as_slice(), false).read_to_end(&mut plain).unwrap();
    let mut found = BTreeMap::new();
    for entry in tar::Archive::new(plain.as_slice()).entries().unwrap() {
        let mut entry = entry.unwrap();
        let name = entry.path().unwrap().to_string_lossy().into_owned();
        let mut body = Vec::new();
        entry.read_to_end(&mut body).unwrap();
        found.insert(name, body);
    }
    assert_eq!(found["a.txt"], b"alpha");
    assert_eq!(found["sub/c.txt"], b"charlie");
}

#[test]
fn compress_7z_cancel_removes_partial() {
    let disk = two_dirs();
    disk.write("C:\\src\\a.txt", b"x");
    disk.write("C:\\src\\b.txt", b"y");
    let host = FakeHost { cancel_after: 1, ..FakeHost::new() };
    let sum = summary(
        &host,
        &disk,
        run_compress_7z("C:\\src", names(&["a.txt", "b.txt"]), "C:\\src\\out.7z"),
    );
    assert!(sum.cancelled);
    assert!(!disk.has("C:\\src\\out.7z"));
}

fn crc32(data: &[u8]) -> u32 {
    let mut crc = 0xFFFF_FFFFu32;
    for &b in data {
        crc ^= b as u32;
        for _ in 0..8 {
            let mask = (crc & 1).wrapping_neg();
            crc = (crc >> 1) ^ (0xEDB8_8320 & mask);
        }
    }
    !crc
}

fn u16le(v: &mut Vec<u8>, x: u16) {
    v.extend_from_slice(&x.to_le_bytes());
}

fn u32le(v: &mut Vec<u8>, x: u32) {
    v.extend_from_slice(&x.to_le_bytes());
}

/// A zip archive whose names are any bytes, and not marked as UTF-8.
fn stored_zip(entries: &[(&[u8], &[u8])]) -> Vec<u8> {
    let mut out: Vec<u8> = Vec::new();
    let mut central: Vec<u8> = Vec::new();
    for (name, data) in entries {
        let crc = crc32(data);
        let off = out.len() as u32;
        u32le(&mut out, 0x0403_4b50);
        for x in [20, 0, 0, 0, 0] {
            u16le(&mut out, x);
        }
        for x in [crc, data.len() as u32, data.len() as u32] {
            u32le(&mut out, x);
        }
        u16le(&mut out, name.len() as u16);
        u16le(&mut out, 0);
        out.extend_from_slice(name);
        out.extend_from_slice(data);
        u32le(&mut central, 0x0201_4b50);
        for x in [20, 20, 0, 0, 0, 0] {
            u16le(&mut central, x);
        }
        for x in [crc, data.len() as u32, data.len() as u32] {
            u32le(&mut central, x);
        }
        for x in [name.len() as u16, 0, 0, 0, 0] {
            u16le(&mut central, x);
        }
        u32le(&mut central, 0);
        u32le(&mut central, off);
        central.extend_from_slice(name);
    }
    let cd_off = out.len() as u32;
    let cd_size = central.len() as u32;
    out.extend_from_slice(&central);
    u32le(&mut out, 0x0605_4b50);
    for x in [0, 0, entries.len() as u16, entries.len() as u16] {
        u16le(&mut out, x);
    }
    u32le(&mut out, cd_size);
    u32le(&mut out, cd_off);
    u16le(&mut out, 0);
    out
}

/// "日本語.txt" in code page 932.
fn cp932_nihongo_txt() -> Vec<u8> {
    let mut n = vec![0x93, 0xfa, 0x96, 0x7b, 0x8c, 0xea];
    n.extend_from_slice(b".txt");
    n
}

const ZIP: &str = "C:\\dst\\a.zip";

fn has_rewrite_tmp(disk: &Disk) -> bool {
    disk.children("C:\\dst").iter().any(|n| n.contains(".rerics-tmp"))
}

#[test]
fn archive_add_appends_and_preserves_existing_cp932() {
    let disk = two_dirs();
    disk.write(ZIP, &stored_zip(&[(&cp932_nihongo_txt(), b"orig")]));
    disk.write("C:\\src\\new.txt", b"hello");
    let host = FakeHost::new();
    let sum = summary(&host, &disk, run_archive_add("C:\\src", names(&["new.txt"]), ZIP, ""));
    assert_eq!(sum.err, 0);
    assert_eq!(sum.ok, 1);
    let all = read_zip(&disk, ZIP);
    assert_eq!(find(&all, "日本語.txt").unwrap(), b"orig");
    assert_eq!(find(&all, "new.txt").unwrap(), b"hello");
}

#[test]
fn archive_rebuild_replaces_same_name_without_duplicate() {
    let disk = two_dirs();
    disk.write(ZIP, &stored_zip(&[(b"a.txt", b"old"), (b"b.txt", b"keep")]));
    disk.write("C:\\src\\a.txt", b"new");
    let host = FakeHost::new();
    let start = run_archive_rebuild("C:\\src", names(&["a.txt"]), ZIP, "", 7, 1);
    let sum = summary(&host, &disk, start);
    assert_eq!(sum.err, 0);
    let all = read_zip(&disk, ZIP);
    assert_eq!(all.iter().filter(|(n, _)| n == "a.txt").count(), 1);
    assert_eq!(find(&all, "a.txt").unwrap(), b"new");
    assert_eq!(find(&all, "b.txt").unwrap(), b"keep");
}

#[test]
fn archive_rebuild_modernizes_cp932_name() {
    let disk = two_dirs();
    disk.write(ZIP, &stored_zip(&[(&cp932_nihongo_txt(), b"orig"), (b"a.txt", b"old")]));
    disk.write("C:\\src\\a.txt", b"new");
    let host = FakeHost::new();
    let start = run_archive_rebuild("C:\\src", names(&["a.txt"]), ZIP, "", 7, 1);
    let sum = summary(&host, &disk, start);
    assert_eq!(sum.err, 0);
    let all = read_zip(&disk, ZIP);
    assert_eq!(find(&all, "日本語.txt").unwrap(), b"orig");
    assert_eq!(find(&all, "a.txt").unwrap(), b"new");
}

#[test]
fn archive_rebuild_cancel_keeps_original() {
    let disk = two_dirs();
    disk.write(ZIP, &stored_zip(&[(&cp932_nihongo_txt(), b"orig"), (b"a.txt", b"old")]));
    disk.write("C:\\src\\a.txt", b"new");
    let host = FakeHost::cancelling(0);
    let start = run_archive_rebuild("C:\\src", names(&["a.txt"]), ZIP, "", 7, 1);
    let sum = summary(&host, &disk, start);
    assert!(sum.cancelled);
    let all = read_zip(&disk, ZIP);
    assert_eq!(find(&all, "a.txt").unwrap(), b"old");
    assert_eq!(find(&all, "日本語.txt").unwrap(), b"orig");
    assert!(!has_rewrite_tmp(&disk));
}

#[test]
fn archive_delete_removes_entry_and_preserves_cp932() {
    let disk = two_dirs();
    let cp = cp932_nihongo_txt();
    disk.write(ZIP, &stored_zip(&[(&cp, b"orig"), (b"a.txt", b"AAA"), (b"b.txt", b"BBB")]));
    let host = FakeHost::new();
    let sum = summary(&host, &disk, run_archive_delete(ZIP, "", names(&["a.txt"]), 7, 1));
    assert_eq!(sum.err, 0);
    assert_eq!(sum.ok, 1);
    let all = read_zip(&disk, ZIP);
    assert!(find(&all, "a.txt").is_none());
    assert_eq!(find(&all, "b.txt").unwrap(), b"BBB");
    assert_eq!(find(&all, "日本語.txt").unwrap(), b"orig");
}

#[test]
fn archive_delete_dir_removes_subtree() {
    let disk = two_dirs();
    let entries: [(&[u8], &[u8]); 3] =
        [(b"sub/c.txt", b"C"), (b"sub/d.txt", b"D"), (b"e.txt", b"E")];
    disk.write(ZIP, &stored_zip(&entries));
    let host = FakeHost::new();
    let sum = summary(&host, &disk, run_archive_delete(ZIP, "", names(&["sub"]), 7, 1));
    assert_eq!(sum.err, 0);
    let all = read_zip(&disk, ZIP);
    assert!(!all.iter().any(|(n, _)| n.starts_with("sub/")));
    assert_eq!(find(&all, "e.txt").unwrap(), b"E");
}

#[test]
fn archive_rename_file_and_preserves_cp932() {
    let disk = two_dirs();
    disk.write(ZIP, &stored_zip(&[(&cp932_nihongo_txt(), b"orig"), (b"a.txt", b"AAA")]));
    let host = FakeHost::new();
    let sum = summary(&host, &disk, run_archive_rename(ZIP, "", "a.txt", "z.txt", 7, 1));
    assert_eq!(sum.err, 0);
    let all = read_zip(&disk, ZIP);
    assert!(find(&all, "a.txt").is_none());
    assert_eq!(find(&all, "z.txt").unwrap(), b"AAA");
    assert_eq!(find(&all, "日本語.txt").unwrap(), b"orig");
}

#[test]
fn archive_rename_dir_renames_subtree() {
    let disk = two_dirs();
    disk.write(ZIP, &stored_zip(&[(b"sub/c.txt", b"C"), (b"e.txt", b"E")]));
    let host = FakeHost::new();
    let sum = summary(&host, &disk, run_archive_rename(ZIP, "", "sub", "box", 7, 1));
    assert_eq!(sum.err, 0);
    let all = read_zip(&disk, ZIP);
    assert!(!all.iter().any(|(n, _)| n.starts_with("sub/")));
    assert_eq!(find(&all, "box/c.txt").unwrap(), b"C");
    assert_eq!(find(&all, "e.txt").unwrap(), b"E");
}

#[test]
fn renaming_back_gives_the_archive_back() {
    let disk = two_dirs();
    disk.write(ZIP, &stored_zip(&[(b"sub/c.txt", b"C"), (b"e.txt", b"E"), (b"sub/d/f", b"F")]));
    let before = read_zip(&disk, ZIP);
    let host = FakeHost::new();
    assert_eq!(summary(&host, &disk, run_archive_rename(ZIP, "", "sub", "box", 7, 1)).ok, 1);
    assert_ne!(read_zip(&disk, ZIP), before);
    assert_eq!(summary(&host, &disk, run_archive_rename(ZIP, "", "box", "sub", 7, 2)).ok, 1);
    assert_eq!(read_zip(&disk, ZIP), before);
}

#[test]
fn archive_delete_cancel_keeps_original() {
    let disk = two_dirs();
    disk.write(ZIP, &stored_zip(&[(b"a.txt", b"AAA"), (b"b.txt", b"BBB")]));
    let host = FakeHost::cancelling(0);
    let sum = summary(&host, &disk, run_archive_delete(ZIP, "", names(&["a.txt"]), 7, 1));
    assert!(sum.cancelled);
    let all = read_zip(&disk, ZIP);
    assert_eq!(find(&all, "a.txt").unwrap(), b"AAA");
    assert_eq!(find(&all, "b.txt").unwrap(), b"BBB");
    assert!(!has_rewrite_tmp(&disk));
}

#[test]
fn an_archive_that_cannot_be_opened_is_left_alone() {
    let disk = two_dirs();
    disk.write(ZIP, b"no archive");
    let host = FakeHost::new();
    let sum = summary(&host, &disk, run_archive_delete(ZIP, "", names(&["a.txt"]), 7, 1));
    assert_eq!((sum.ok, sum.err), (0, 1));
    assert_eq!(disk.bytes(ZIP).unwrap(), b"no archive");
    assert!(!has_rewrite_tmp(&disk));
}

#[test]
fn the_user_is_asked_before_and_after_a_pause() {
    assert!(!should_stop(&FakeHost::new()));
    assert!(should_stop(&FakeHost::cancelling(0)));
    let host = WatchedHost { calls: RefCell::new(Vec::new()), stop_after: 9 };
    assert!(!should_stop(&host));
    assert_eq!(*host.calls.borrow(), ["cancelled", "wait", "cancelled"]);
    let paused = WatchedHost { calls: RefCell::new(Vec::new()), stop_after: 1 };
    assert!(should_stop(&paused));
    assert_eq!(*paused.calls.borrow(), ["cancelled", "wait", "cancelled"]);
    let stopped = WatchedHost { calls: RefCell::new(Vec::new()), stop_after: 0 };
    assert!(should_stop(&stopped));
    assert_eq!(*stopped.calls.borrow(), ["cancelled"]);
}

#[test]
fn the_host_is_handed_every_line() {
    let host = WatchedHost { calls: RefCell::new(Vec::new()), stop_after: 9 };
    let line = || Message::CreateDirectory("d".to_string());
    assert!(show(&host, &Effect::Log(LogLevel::Warning, line())));
    assert!(show(&host, &Effect::UpdateProgress(ProgressHandle(4), Message::RebuildProgress(7))));
    assert!(show(&host, &Effect::EndProgress(ProgressHandle(5), Message::Rebuild)));
    let calls = host.calls.borrow();
    assert_eq!(calls[0], "log Warning CreateDirectory d");
    assert_eq!(calls[1], format!("update 4 {}", Message::RebuildProgress(7).text()));
    assert_eq!(calls[2], format!("end 5 {}", Message::Rebuild.text()));
}

/// A host that keeps what it was asked and handed. It stops once it was asked so many times.
struct WatchedHost {
    calls: RefCell<Vec<String>>,
    stop_after: usize,
}

impl WatchedHost {
    fn note(&self, call: String) {
        self.calls.borrow_mut().push(call);
    }
}

impl OperationHost for WatchedHost {
    fn log(&self, level: LogLevel, text: &str) {
        self.note(format!("log {level:?} {text}"));
    }

    fn cancelled(&self) -> bool {
        self.note("cancelled".to_string());
        let asked = self.calls.borrow().iter().filter(|c| *c == "cancelled").count();
        asked > self.stop_after
    }

    fn wait_while_suspended(&self) {
        self.note("wait".to_string());
    }

    fn resolve_conflict(&self, _name: &str) -> ConflictResolution {
        ConflictResolution::Skip
    }

    fn confirm_delete_attr(&self, _name: &str, _attr: &str) -> DeleteWarnChoice {
        DeleteWarnChoice::No
    }

    fn update_progress(&self, handle: ProgressHandle, text: &str) {
        self.note(format!("update {} {text}", handle.0));
    }

    fn end_progress(&self, handle: ProgressHandle, text: &str) {
        self.note(format!("end {} {text}", handle.0));
    }

    fn copy_options(&self) -> CopyOptions {
        CopyOptions::default()
    }
}

#[test]
fn a_file_that_cannot_be_read_has_only_its_error() {
    let disk = two_dirs();
    disk.write("C:\\src\\b.txt", b"B");
    let host = FakeHost::new();
    let sum = summary(
        &host,
        &disk,
        run_compress("C:\\src", names(&["a.txt", "b.txt"]), "C:\\dst\\out.zip"),
    );
    assert_eq!((sum.ok, sum.err), (1, 1));
    let lines = host.lines();
    assert_eq!(lines.iter().filter(|l| l.contains("a.txt")).count(), 1);
    assert!(lines.iter().any(|l| l == "Compress b.txt"));
    let (run, _) = run_compress("C:\\src", names(&["b.txt"]), "C:\\dst\\out.zip");
    let (run, _) = run.step(Reply::Done);
    let (run, _) = run.step(Reply::Flag(false));
    let (run, step) = run.step(Reply::Flag(false));
    assert_eq!(step.ask, Ask::ReadSource("C:\\src\\b.txt".to_string()));
    let (_, step) = run.step(Reply::Done);
    assert_eq!(step.ask, Ask::AddRead("b.txt".to_string()));
    assert_eq!(step.effects.len(), 1);
}

#[test]
fn effects_on_the_disk_are_not_shown() {
    let host = FakeHost::new();
    assert!(!show(&host, &Effect::RemoveDir("d".to_string())));
    assert!(show(&host, &Effect::Log(LogLevel::Normal, Message::CreateDirectory("d".to_string()))));
    assert_eq!(host.lines(), ["CreateDirectory d"]);
}

#[test]
fn a_temporary_archive_stands_beside_the_archive() {
    let (_, step) = run_archive_delete(ZIP, "", names(&["a.txt"]), 7, 1);
    assert!(matches!(step.ask, Ask::OpenArchive(path) if path == ZIP));
    let name = winpath::file_name(ZIP).unwrap();
    assert_eq!(name, "a.zip");
}

struct QuietHost {
    lines: RefCell<Vec<String>>,
}

impl OperationHost for QuietHost {
    fn log(&self, _level: LogLevel, text: &str) {
        self.lines.borrow_mut().push(text.to_string());
    }

    fn cancelled(&self) -> bool {
        false
    }

    fn wait_while_suspended(&self) {}

    fn resolve_conflict(&self, name: &str) -> ConflictResolution {
        ConflictResolution::Rename(format!("{name}.new"))
    }

    fn confirm_delete_attr(&self, _name: &str, attr: &str) -> DeleteWarnChoice {
        if attr == "隠し" {
            DeleteWarnChoice::Yes
        } else {
            DeleteWarnChoice::No
        }
    }

    fn end_progress(&self, _handle: ProgressHandle, _text: &str) {}

    fn copy_options(&self) -> CopyOptions {
        CopyOptions::default()
    }
}

#[test]
fn a_host_that_rewrites_no_line_logs_it_once() {
    let host = QuietHost { lines: RefCell::new(Vec::new()) };
    let begin = Ask::BeginProgress(LogLevel::Normal, Message::Rebuild);
    assert_eq!(answer(&host, &begin), Some(Reply::Handle(ProgressHandle(0))));
    assert!(show(&host, &Effect::UpdateProgress(ProgressHandle(0), Message::Rebuild)));
    assert_eq!(host.lines.borrow().len(), 1);
    assert_eq!(answer(&host, &Ask::Stop), Some(Reply::Flag(false)));
    assert_eq!(
        answer(&host, &Ask::Conflict("a".to_string())),
        Some(Reply::Choice(ConflictResolution::Rename("a.new".to_string())))
    );
    let attribute = rerics::operation::Attribute::Hidden;
    let confirm = Ask::ConfirmDelete { name: "a".to_string(), attribute };
    assert_eq!(answer(&host, &confirm), Some(Reply::Warned(DeleteWarnChoice::Yes)));
    assert_eq!(answer(&host, &Ask::Finish), None);
}
