//! File operations (copy, move, delete, extract, compress) as decisions.
//!
//! An operation never touches the disk itself. It is a machine that hands out a [`Step`]:
//! a list of [`Effect`]s to carry out in order, and one [`Ask`] whose [`Reply`] is fed back
//! to the machine. Log lines, counters, recursion, conflict handling and cancellation are
//! decided here; reading directories, moving bytes and talking to the user are left to the
//! caller.

use crate::text;
use vstd::prelude::*;

pub mod adding;
pub mod adding_laws;
pub mod archive_ops;
pub mod calc;
pub mod compress;
pub mod compress_laws;
pub mod copy;
pub mod copy_laws;
pub mod delete;
pub mod delete_laws;
pub mod extract;
pub mod extract_laws;
pub mod host;
pub mod messages;
pub mod rewrite_laws;
pub mod rewriting;
pub mod single_laws;

use crate::operation::messages::{Message, Verb};

verus! {

/// A text in specifications.
pub type Txt = Seq<char>;

/// How prominent a log line is.
#[derive(Clone, Copy, Debug, PartialEq, Eq, Structural)]
pub enum LogLevel {
    Normal,
    Info,
    Warning,
    Error,
}

/// What to do about a file that exists at the destination already.
#[derive(Clone, Debug, PartialEq, Eq)]
pub enum ConflictResolution<S = String> {
    /// Overwrite only where the source is newer.
    Newest,
    /// Overwrite.
    Overwrite,
    /// Clear the read-only, hidden and system attributes, and overwrite.
    OverwriteForce,
    /// Write under another name.
    Rename(S),
    /// Leave this file out.
    Skip,
    /// Stop the whole operation.
    Cancel,
}

/// The answer to whether a read-only, hidden or system file may be deleted.
#[derive(Clone, Copy, Debug, PartialEq, Eq, Structural)]
pub enum DeleteWarnChoice {
    /// Clear the attribute and delete.
    Yes,
    /// Do not delete.
    No,
    /// Stop the whole operation.
    Cancel,
}

/// A log line that can be rewritten in place. Only the host knows what the number means.
#[derive(Clone, Copy, Debug, PartialEq, Eq, Structural)]
pub struct ProgressHandle(pub u64);

/// What an operation came to.
#[derive(Clone, Copy, Debug, PartialEq, Eq, Structural)]
pub struct OpSummary {
    pub ok: usize,
    pub skip: usize,
    pub err: usize,
    pub cancelled: bool,
}

impl Default for OpSummary {
    fn default() -> (sum: Self)
        ensures
            sum == no_results(),
    {
        OpSummary { ok: 0, skip: 0, err: 0, cancelled: false }
    }
}

/// The summary of an operation that has not done anything.
pub open spec fn no_results() -> OpSummary {
    OpSummary { ok: 0, skip: 0, err: 0, cancelled: false }
}

/// What a directory tree holds.
#[derive(Clone, Copy, Debug, PartialEq, Eq, Structural)]
pub struct DirInfo {
    pub bytes: u64,
    pub files: u64,
    pub dirs: u64,
}

impl Default for DirInfo {
    fn default() -> (info: Self)
        ensures
            info == (DirInfo { bytes: 0, files: 0, dirs: 0 }),
    {
        DirInfo { bytes: 0, files: 0, dirs: 0 }
    }
}

/// What the disk says of a source and its destination.
#[derive(Clone, Copy, Debug, PartialEq, Eq, Structural)]
pub struct ItemFacts {
    /// The source is a link, and whether it is a directory link.
    pub link: Option<bool>,
    pub src_is_dir: bool,
    pub dst_exists: bool,
    pub dst_is_dir: bool,
}

/// What a running file copy is told.
#[derive(Clone, Copy, Debug, PartialEq, Eq, Structural)]
pub enum CopySignal {
    Start,
    Continue,
    Abort,
}

/// Something to carry out. What comes of it is of no consequence to the operation.
#[derive(Clone, Debug, PartialEq, Eq)]
pub enum Effect<S = String> {
    /// Append a log line.
    Log(LogLevel, Message<S>),
    /// Rewrite a log line in place.
    UpdateProgress(ProgressHandle, Message<S>),
    /// Rewrite a log line in place for the last time.
    EndProgress(ProgressHandle, Message<S>),
    /// Clear the read-only, hidden and system attributes.
    ClearAttributes(S),
    /// Give the directory `dst` the attributes and dates of `src`, as the user's options say.
    ApplyDirMetadata { src: S, dst: S },
    /// Remove an empty directory.
    RemoveDir(S),
    /// Remove a file.
    RemoveFile(S),
    /// Remove a link, not what it points to.
    RemoveLink { path: S, is_dir: bool },
}

/// The format of an archive that is created.
#[derive(Clone, Copy, Debug, PartialEq, Eq, Structural)]
pub enum ArchiveFormat {
    /// Zip, with deflated entries.
    Zip,
    /// 7z, with LZMA2.
    SevenZip,
    /// A tar archive, compressed with xz.
    TarXz,
    /// One file, compressed with xz.
    Xz,
}

/// A question, or an action whose outcome the operation waits for.
#[derive(Clone, Debug, PartialEq, Eq)]
pub enum Ask<S = String> {
    /// Wait while suspended. Reply: `Flag`, true where the operation is to stop.
    Stop,
    /// Reply: `Roots`.
    Roots { src: S, dst: S },
    /// Reply: `Facts`.
    Inspect { src: S, dst: S },
    /// Make `dst` a link to where the link `src` points. Reply: `Done` or `Failed`.
    MakeLink { src: S, dst: S, is_dir: bool },
    /// Reply: `Done` or `Failed`.
    Rename { src: S, dst: S },
    /// Reply: `Done` or `Failed`.
    CreateDir(S),
    /// Reply: `Done` or `Failed`.
    OpenDir(S),
    /// The next entry of an open directory. Reply: `Entry`, `Unreadable` or `End`.
    NextEntry(S),
    /// Reply: `Flag`.
    Exists(S),
    /// Reply: `Choice`.
    Conflict(S),
    /// Modification times. Reply: `Times`.
    Times { src: S, dst: S },
    /// The modification time of a file. Reply: `Modified`.
    ModifiedAt(S),
    /// Append a log line that can be rewritten. Reply: `Handle`.
    BeginProgress(LogLevel, Message<S>),
    /// Create the directory that holds a file. Reply: `Done` or `Failed`.
    CreateParent(S),
    /// Start, continue or abort a file copy. Reply: `Copying`, `Done`, `Aborted` or `Failed`.
    CopyFile { src: S, dst: S, signal: CopySignal },
    /// Reply: `Done` or `Failed`.
    RemoveFile(S),
    /// Reply: `Done` or `Failed`.
    RemoveDir(S),
    /// Whether a path is a directory, links followed. Reply: `Flag`.
    IsDir(S),
    /// What kind of item a path is. Reply: `Kind`.
    KindOf(S),
    /// The attribute bits of a path. Reply: `Attributes`.
    Attributes(S),
    /// Whether an item with a protecting attribute may be deleted. Reply: `Warned`.
    ConfirmDelete { name: S, attribute: Attribute },
    /// Size of an item, without following links. Reply: `Size` or `Failed`.
    SizeOf(S),
    /// Read an entry of the archive. Reply: `Done` or `Failed`.
    ReadEntry(S),
    /// Write the entry that was read. Reply: `Done` or `Failed`.
    WriteEntry { target: S, mtime: Option<i64> },
    /// Create an archive. Reply: `Done`, `Failed`, or `Broken` where a file was left behind.
    CreateArchive { path: S, format: ArchiveFormat },
    /// Open an archive that exists. Reply: `Opened` or `Failed`.
    OpenArchive(S),
    /// Open a file to be added. Reply: `Opened`, with its size, or `Failed`.
    OpenSource(S),
    /// Read a file to its end, to be added. Reply: `Done` or `Failed`.
    ReadSource(S),
    /// Add a directory entry. Reply: `Done` or `Failed`.
    AddDir { src: S, rel: S },
    /// Add a file entry with its contents. Reply: `Done` or `Failed`.
    AddFile { src: S, rel: S },
    /// Add a file entry with what was read. Reply: `Done` or `Failed`.
    AddRead(S),
    /// Start a file entry. Reply: `Done` or `Failed`.
    StartEntry(S),
    /// Read the next piece of the open source. Reply: `Bytes` or `Failed`.
    ReadChunk,
    /// Write the piece that was read. Reply: `Done` or `Failed`.
    WriteChunk,
    /// Whole seconds since the last progress line was begun. Reply: `Seconds`.
    Elapsed,
    /// The raw name of an entry of the archive. Reply: `Named` or `Failed`.
    EntryAt(u64),
    /// Copy an entry of the open archive under a name. Reply: `Done` or `Failed`.
    CopyEntry { index: u64, name: S },
    /// Close the archive that was written. Reply: `Done` or `Failed`.
    Finish,
    /// Nothing more: the operation has ended with this result.
    Ended(OpSummary),
    /// Nothing more: the size is known.
    Measured(DirInfo),
}

/// The kind of an item that is to be deleted or measured.
#[derive(Clone, Copy, Debug, PartialEq, Eq, Structural)]
pub enum Kind {
    /// A file, or nothing that could be inspected.
    File,
    Dir,
    /// A link to a file.
    FileLink,
    /// A link to a directory.
    DirLink,
}

/// An attribute that protects an item from being deleted without a question.
#[derive(Clone, Copy, Debug, PartialEq, Eq, Structural)]
pub enum Attribute {
    System,
    Hidden,
    ReadOnly,
}

/// The answer to an [`Ask`].
#[derive(Clone, Debug, PartialEq, Eq)]
pub enum Reply<S = String> {
    Flag(bool),
    /// The absolute forms of a source and a destination, where there are any.
    Roots { src: Option<S>, dst: Option<S>, src_is_dir: bool },
    Facts(ItemFacts),
    Done,
    Failed(S),
    /// Failed, and a part of what was to be made is there.
    Broken(S),
    Entry(S),
    Unreadable,
    End,
    Choice(ConflictResolution<S>),
    /// Times in ticks since 1970, where they are known.
    Times(Option<i64>, Option<i64>),
    Modified(Option<i64>),
    Handle(ProgressHandle),
    Copying { elapsed_secs: u64, transferred: u64, total: u64, cancelled: bool },
    Aborted,
    Kind(Kind),
    Attributes(Option<u32>),
    Warned(DeleteWarnChoice),
    Size { is_dir: bool, len: u64 },
    Opened(u64),
    Bytes(u64),
    Seconds(u64),
    Named { raw: Vec<u8>, is_dir: bool },
}

/// One step of an operation.
#[derive(Debug)]
pub struct Step {
    pub effects: Vec<Effect>,
    pub ask: Ask,
}

impl View for ConflictResolution<String> {
    type V = ConflictResolution<Txt>;

    open spec fn view(&self) -> ConflictResolution<Txt> {
        match *self {
            ConflictResolution::Newest => ConflictResolution::Newest,
            ConflictResolution::Overwrite => ConflictResolution::Overwrite,
            ConflictResolution::OverwriteForce => ConflictResolution::OverwriteForce,
            ConflictResolution::Rename(new) => ConflictResolution::Rename(new@),
            ConflictResolution::Skip => ConflictResolution::Skip,
            ConflictResolution::Cancel => ConflictResolution::Cancel,
        }
    }
}

impl View for Effect<String> {
    type V = Effect<Txt>;

    open spec fn view(&self) -> Effect<Txt> {
        match *self {
            Effect::Log(level, m) => Effect::Log(level, m@),
            Effect::UpdateProgress(handle, m) => Effect::UpdateProgress(handle, m@),
            Effect::EndProgress(handle, m) => Effect::EndProgress(handle, m@),
            Effect::ClearAttributes(path) => Effect::ClearAttributes(path@),
            Effect::ApplyDirMetadata { src, dst } => Effect::ApplyDirMetadata {
                src: src@,
                dst: dst@,
            },
            Effect::RemoveDir(path) => Effect::RemoveDir(path@),
            Effect::RemoveFile(path) => Effect::RemoveFile(path@),
            Effect::RemoveLink { path, is_dir } => Effect::RemoveLink { path: path@, is_dir },
        }
    }
}

impl View for Ask<String> {
    type V = Ask<Txt>;

    open spec fn view(&self) -> Ask<Txt> {
        match *self {
            Ask::Stop => Ask::Stop,
            Ask::Roots { src, dst } => Ask::Roots { src: src@, dst: dst@ },
            Ask::Inspect { src, dst } => Ask::Inspect { src: src@, dst: dst@ },
            Ask::MakeLink { src, dst, is_dir } => Ask::MakeLink { src: src@, dst: dst@, is_dir },
            Ask::Rename { src, dst } => Ask::Rename { src: src@, dst: dst@ },
            Ask::CreateDir(path) => Ask::CreateDir(path@),
            Ask::OpenDir(path) => Ask::OpenDir(path@),
            Ask::NextEntry(path) => Ask::NextEntry(path@),
            Ask::Exists(path) => Ask::Exists(path@),
            Ask::Conflict(name) => Ask::Conflict(name@),
            Ask::Times { src, dst } => Ask::Times { src: src@, dst: dst@ },
            Ask::ModifiedAt(path) => Ask::ModifiedAt(path@),
            Ask::BeginProgress(level, m) => Ask::BeginProgress(level, m@),
            Ask::CreateParent(path) => Ask::CreateParent(path@),
            Ask::CopyFile { src, dst, signal } => Ask::CopyFile { src: src@, dst: dst@, signal },
            Ask::RemoveFile(path) => Ask::RemoveFile(path@),
            Ask::RemoveDir(path) => Ask::RemoveDir(path@),
            Ask::IsDir(path) => Ask::IsDir(path@),
            Ask::KindOf(path) => Ask::KindOf(path@),
            Ask::Attributes(path) => Ask::Attributes(path@),
            Ask::ConfirmDelete { name, attribute } => Ask::ConfirmDelete { name: name@, attribute },
            Ask::SizeOf(path) => Ask::SizeOf(path@),
            Ask::ReadEntry(inner) => Ask::ReadEntry(inner@),
            Ask::WriteEntry { target, mtime } => Ask::WriteEntry { target: target@, mtime },
            Ask::CreateArchive { path, format } => Ask::CreateArchive { path: path@, format },
            Ask::OpenArchive(path) => Ask::OpenArchive(path@),
            Ask::OpenSource(path) => Ask::OpenSource(path@),
            Ask::ReadSource(path) => Ask::ReadSource(path@),
            Ask::AddRead(rel) => Ask::AddRead(rel@),
            Ask::AddDir { src, rel } => Ask::AddDir { src: src@, rel: rel@ },
            Ask::AddFile { src, rel } => Ask::AddFile { src: src@, rel: rel@ },
            Ask::StartEntry(rel) => Ask::StartEntry(rel@),
            Ask::ReadChunk => Ask::ReadChunk,
            Ask::WriteChunk => Ask::WriteChunk,
            Ask::Elapsed => Ask::Elapsed,
            Ask::EntryAt(index) => Ask::EntryAt(index),
            Ask::CopyEntry { index, name } => Ask::CopyEntry { index, name: name@ },
            Ask::Finish => Ask::Finish,
            Ask::Ended(sum) => Ask::Ended(sum),
            Ask::Measured(info) => Ask::Measured(info),
        }
    }
}

impl View for Reply<String> {
    type V = Reply<Txt>;

    open spec fn view(&self) -> Reply<Txt> {
        match *self {
            Reply::Flag(b) => Reply::Flag(b),
            Reply::Roots { src, dst, src_is_dir } => Reply::Roots {
                src: src.deep_view(),
                dst: dst.deep_view(),
                src_is_dir,
            },
            Reply::Facts(facts) => Reply::Facts(facts),
            Reply::Done => Reply::Done,
            Reply::Failed(reason) => Reply::Failed(reason@),
            Reply::Broken(reason) => Reply::Broken(reason@),
            Reply::Entry(name) => Reply::Entry(name@),
            Reply::Unreadable => Reply::Unreadable,
            Reply::End => Reply::End,
            Reply::Choice(choice) => Reply::Choice(choice@),
            Reply::Times(a, b) => Reply::Times(a, b),
            Reply::Modified(t) => Reply::Modified(t),
            Reply::Handle(handle) => Reply::Handle(handle),
            Reply::Copying { elapsed_secs, transferred, total, cancelled } => Reply::Copying {
                elapsed_secs,
                transferred,
                total,
                cancelled,
            },
            Reply::Aborted => Reply::Aborted,
            Reply::Kind(kind) => Reply::Kind(kind),
            Reply::Attributes(bits) => Reply::Attributes(bits),
            Reply::Warned(choice) => Reply::Warned(choice),
            Reply::Size { is_dir, len } => Reply::Size { is_dir, len },
            Reply::Opened(len) => Reply::Opened(len),
            Reply::Bytes(n) => Reply::Bytes(n),
            Reply::Seconds(n) => Reply::Seconds(n),
            Reply::Named { raw, is_dir } => Reply::Named { raw, is_dir },
        }
    }
}

/// The effects of a step, as a specification reads them.
pub open spec fn effects_of(effects: Seq<Effect>) -> Seq<Effect<Txt>> {
    effects.map_values(|e: Effect| e@)
}

/// No effects.
pub(crate) fn nothing() -> (effects: Vec<Effect>)
    ensures
        effects_of(effects@) == Seq::<Effect<Txt>>::empty(),
{
    let effects: Vec<Effect> = Vec::new();
    assert(effects_of(effects@) =~= Seq::<Effect<Txt>>::empty());
    effects
}

/// One more effect.
pub(crate) fn and(effects: Vec<Effect>, next: Effect) -> (more: Vec<Effect>)
    ensures
        effects_of(more@) == effects_of(effects@).push(next@),
{
    let mut more = effects;
    more.push(next);
    assert(effects_of(more@) =~= effects_of(effects@).push(next@));
    more
}

/// Two lists of effects, one behind the other.
pub(crate) fn followed_by(first: Vec<Effect>, second: Vec<Effect>) -> (all: Vec<Effect>)
    ensures
        effects_of(all@) == effects_of(first@) + effects_of(second@),
{
    let mut all = first;
    let mut rest = second;
    all.append(&mut rest);
    assert(effects_of(all@) =~= effects_of(first@) + effects_of(second@));
    all
}

/// One more than `n`, or `n` where there is no larger number.
pub open spec fn one_more(n: usize) -> usize {
    if n < usize::MAX {
        (n + 1) as usize
    } else {
        n
    }
}

impl OpSummary {
    /// One more item that was dealt with.
    pub open spec fn plus_ok(self) -> OpSummary {
        OpSummary { ok: one_more(self.ok), ..self }
    }

    /// One more item that was left out.
    pub open spec fn plus_skip(self) -> OpSummary {
        OpSummary { skip: one_more(self.skip), ..self }
    }

    /// One more error.
    pub open spec fn plus_err(self) -> OpSummary {
        OpSummary { err: one_more(self.err), ..self }
    }

    /// The operation was stopped.
    pub open spec fn stopped(self) -> OpSummary {
        OpSummary { cancelled: true, ..self }
    }

    pub(crate) fn with_ok(self) -> (sum: OpSummary)
        ensures
            sum == self.plus_ok(),
    {
        OpSummary { ok: self.ok.saturating_add(1), ..self }
    }

    pub(crate) fn with_skip(self) -> (sum: OpSummary)
        ensures
            sum == self.plus_skip(),
    {
        OpSummary { skip: self.skip.saturating_add(1), ..self }
    }

    pub(crate) fn with_err(self) -> (sum: OpSummary)
        ensures
            sum == self.plus_err(),
    {
        OpSummary { err: self.err.saturating_add(1), ..self }
    }

    pub(crate) fn with_stop(self) -> (sum: OpSummary)
        ensures
            sum == self.stopped(),
    {
        OpSummary { cancelled: true, ..self }
    }
}

/// Which counts an operation reports at its end.
#[derive(Clone, Copy, Debug, PartialEq, Eq, Structural)]
pub enum ResultStyle {
    Copy,
    Delete,
}

/// The line with the counts of an operation.
pub open spec fn result_message(style: ResultStyle, sum: OpSummary) -> Message<Txt> {
    match style {
        ResultStyle::Copy => Message::CopyResult { ok: sum.ok, skip: sum.skip, err: sum.err },
        ResultStyle::Delete => Message::DeleteResult { ok: sum.ok, err: sum.err },
    }
}

/// The line that closes an operation.
pub open spec fn end_line(verb: Verb, sum: OpSummary) -> Effect<Txt> {
    if sum.cancelled {
        Effect::Log(LogLevel::Warning, Message::Aborted(verb))
    } else if sum.err > 0 {
        Effect::Log(LogLevel::Warning, Message::FinishedWithErrors(verb))
    } else {
        Effect::Log(LogLevel::Info, Message::Finished(verb))
    }
}

/// The line that opens an operation.
pub open spec fn start_line(verb: Verb) -> Effect<Txt> {
    Effect::Log(LogLevel::Info, Message::Started(verb))
}

/// The two lines that close an operation: its counts, and how it ended.
pub open spec fn closing_lines(verb: Verb, style: ResultStyle, sum: OpSummary) -> Seq<Effect<Txt>> {
    seq![
        Effect::Log(
            if sum.err == 0 {
                LogLevel::Info
            } else {
                LogLevel::Error
            },
            result_message(style, sum),
        ),
        end_line(verb, sum),
    ]
}

/// The line that opens an operation.
pub(crate) fn opening(verb: Verb) -> (effects: Vec<Effect>)
    ensures
        effects_of(effects@) == seq![start_line(verb)],
{
    let effects = and(nothing(), Effect::Log(LogLevel::Info, Message::Started(verb)));
    assert(effects_of(effects@) =~= seq![start_line(verb)]);
    effects
}

/// The two lines that close an operation.
pub(crate) fn closing(verb: Verb, style: ResultStyle, sum: OpSummary) -> (effects: Vec<Effect>)
    ensures
        effects_of(effects@) == closing_lines(verb, style, sum),
{
    let level = if sum.err == 0 {
        LogLevel::Info
    } else {
        LogLevel::Error
    };
    let counts = match style {
        ResultStyle::Copy => Message::CopyResult { ok: sum.ok, skip: sum.skip, err: sum.err },
        ResultStyle::Delete => Message::DeleteResult { ok: sum.ok, err: sum.err },
    };
    let end = if sum.cancelled {
        Effect::Log(LogLevel::Warning, Message::Aborted(verb))
    } else if sum.err > 0 {
        Effect::Log(LogLevel::Warning, Message::FinishedWithErrors(verb))
    } else {
        Effect::Log(LogLevel::Info, Message::Finished(verb))
    };
    let effects = and(and(nothing(), Effect::Log(level, counts)), end);
    assert(effects_of(effects@) =~= closing_lines(verb, style, sum));
    effects
}

/// How much of `total` is done, in whole percent.
pub open spec fn percent_of(transferred: u64, total: u64) -> u32
    recommends
        total > 0,
{
    ((transferred * 100) / (total as int) % 0x1_0000_0000) as u32
}

/// Decides when the percentage of a running transfer is shown: not in the first three
/// seconds, and after that only where it changed.
#[derive(Clone, Copy, Debug, PartialEq, Eq, Structural)]
pub struct ProgressTracker {
    /// The percentage that was shown last; `u32::MAX` before the first one.
    pub shown: u32,
}

impl ProgressTracker {
    /// A tracker that has not shown anything.
    pub fn new() -> (tracker: Self)
        ensures
            tracker == fresh_tracker(),
    {
        ProgressTracker { shown: u32::MAX }
    }

    /// Whether a percentage is shown, and which.
    pub open spec fn due(self, elapsed_secs: u64, transferred: u64, total: u64) -> Option<u32> {
        if total == 0 || elapsed_secs < 3 || percent_of(transferred, total) == self.shown {
            None
        } else {
            Some(percent_of(transferred, total))
        }
    }

    /// The tracker once `due` has been shown.
    pub open spec fn after(self, elapsed_secs: u64, transferred: u64, total: u64) -> Self {
        match self.due(elapsed_secs, transferred, total) {
            Some(pct) => ProgressTracker { shown: pct },
            None => self,
        }
    }

    /// The percentage to show now, if any, after `elapsed_secs` seconds.
    pub fn tick_with_elapsed(&mut self, elapsed_secs: u64, transferred: u64, total: u64) -> (due:
        Option<u32>)
        ensures
            due == old(self).due(elapsed_secs, transferred, total),
            *final(self) == old(self).after(elapsed_secs, transferred, total),
    {
        if total == 0 || elapsed_secs < 3 {
            return None;
        }
        let whole: u128 = (transferred as u128 * 100) / total as u128;
        let pct: u32 = (whole % 0x1_0000_0000) as u32;
        if pct != self.shown {
            self.shown = pct;
            Some(pct)
        } else {
            None
        }
    }
}

/// The tracker of a transfer that has just begun.
pub open spec fn fresh_tracker() -> ProgressTracker {
    ProgressTracker { shown: u32::MAX }
}

/// Nothing is shown in the first three seconds, nor of a transfer of unknown size; and what
/// was shown last is not shown again.
pub proof fn law_progress_is_quiet(
    tracker: ProgressTracker,
    elapsed_secs: u64,
    transferred: u64,
    total: u64,
)
    ensures
        elapsed_secs < 3 || total == 0 ==> tracker.due(elapsed_secs, transferred, total) is None,
        tracker.after(elapsed_secs, transferred, total).due(elapsed_secs, transferred, total)
            is None,
        elapsed_secs >= 3 && 0 < total && transferred <= total ==> percent_of(transferred, total)
            <= 100,
{
    if 0 < total && transferred <= total {
        assert((transferred * 100) / (total as int) <= 100) by (nonlinear_arith)
            requires
                0 < total,
                transferred <= total,
        ;
        assert(0 <= (transferred * 100) / (total as int)) by (nonlinear_arith)
            requires
                0 < total,
        ;
    }
}

/// Whether a file with modification time `a` counts as newer than one with time `b`. A time
/// that is not known counts as newer.
pub open spec fn counts_as_newer(a: Option<i64>, b: Option<i64>) -> bool {
    match (a, b) {
        (Some(x), Some(y)) => x > y,
        _ => true,
    }
}

/// Whether a file with modification time `a` counts as newer than one with time `b`.
pub fn is_newer(a: Option<i64>, b: Option<i64>) -> (newer: bool)
    ensures
        newer == counts_as_newer(a, b),
{
    match (a, b) {
        (Some(x), Some(y)) => x > y,
        _ => true,
    }
}

/// Whether an effect is the log line of an error in dealing with an item.
pub open spec fn is_error_line(e: Effect<Txt>) -> bool {
    match e {
        Effect::Log(level, line) => level == LogLevel::Error && !(line is CopyResult) && !(
        line is DeleteResult),
        _ => false,
    }
}

/// Whether an effect is the log line of an item that is left out.
pub open spec fn is_skip_line(e: Effect<Txt>) -> bool {
    match e {
        Effect::Log(level, line) => level == LogLevel::Warning && !(line is Aborted) && !(
        line is FinishedWithErrors),
        _ => false,
    }
}

/// How many of the effects are log lines of errors.
pub open spec fn errors_in(effects: Seq<Effect<Txt>>) -> nat
    decreases effects.len(),
{
    if effects.len() == 0 {
        0
    } else {
        errors_in(effects.drop_last()) + (if is_error_line(effects.last()) {
            1nat
        } else {
            0
        })
    }
}

/// How many of the effects are log lines of items that are left out.
pub open spec fn skips_in(effects: Seq<Effect<Txt>>) -> nat
    decreases effects.len(),
{
    if effects.len() == 0 {
        0
    } else {
        skips_in(effects.drop_last()) + (if is_skip_line(effects.last()) {
            1nat
        } else {
            0
        })
    }
}

pub(crate) proof fn lemma_lines_push()
    ensures
        forall|s: Seq<Effect<Txt>>, x: Effect<Txt>|
            #![trigger errors_in(s.push(x))]
            errors_in(s.push(x)) == errors_in(s) + (if is_error_line(x) {
                1nat
            } else {
                0
            }),
        forall|s: Seq<Effect<Txt>>, x: Effect<Txt>|
            #![trigger skips_in(s.push(x))]
            skips_in(s.push(x)) == skips_in(s) + (if is_skip_line(x) {
                1nat
            } else {
                0
            }),
{
    assert forall|s: Seq<Effect<Txt>>, x: Effect<Txt>|
        #![trigger errors_in(s.push(x))]
        errors_in(s.push(x)) == errors_in(s) + (if is_error_line(x) {
            1nat
        } else {
            0
        }) by {
        assert(s.push(x).drop_last() =~= s);
    }
    assert forall|s: Seq<Effect<Txt>>, x: Effect<Txt>|
        #![trigger skips_in(s.push(x))]
        skips_in(s.push(x)) == skips_in(s) + (if is_skip_line(x) {
            1nat
        } else {
            0
        }) by {
        assert(s.push(x).drop_last() =~= s);
    }
}

pub(crate) proof fn lemma_lines_of_pair(a: Effect<Txt>, b: Effect<Txt>)
    ensures
        !is_error_line(a) && !is_error_line(b) ==> errors_in(seq![a, b]) == 0,
        !is_skip_line(a) && !is_skip_line(b) ==> skips_in(seq![a, b]) == 0,
{
    assert(seq![a, b].drop_last() =~= seq![a]);
    assert(seq![a].drop_last() =~= Seq::<Effect<Txt>>::empty());
    assert(errors_in(Seq::<Effect<Txt>>::empty()) == 0);
    assert(skips_in(Seq::<Effect<Txt>>::empty()) == 0);
    assert(errors_in(seq![a]) == if is_error_line(a) {
        1nat
    } else {
        0
    });
    assert(skips_in(seq![a]) == if is_skip_line(a) {
        1nat
    } else {
        0
    });
}

pub(crate) proof fn lemma_lines_of_two(a: Seq<Effect<Txt>>, b: Seq<Effect<Txt>>)
    ensures
        errors_in(a + b) == errors_in(a) + errors_in(b),
        skips_in(a + b) == skips_in(a) + skips_in(b),
    decreases b.len(),
{
    if b.len() == 0 {
        assert(a + b =~= a);
    } else {
        lemma_lines_of_two(a, b.drop_last());
        assert((a + b).drop_last() =~= a + b.drop_last());
    }
}

pub(crate) proof fn lemma_lines_add()
    ensures
        forall|a: Seq<Effect<Txt>>, b: Seq<Effect<Txt>>|
            #![trigger errors_in(a + b)]
            errors_in(a + b) == errors_in(a) + errors_in(b),
        forall|a: Seq<Effect<Txt>>, b: Seq<Effect<Txt>>|
            #![trigger skips_in(a + b)]
            skips_in(a + b) == skips_in(a) + skips_in(b),
{
    assert forall|a: Seq<Effect<Txt>>, b: Seq<Effect<Txt>>|
        #![trigger errors_in(a + b)]
        errors_in(a + b) == errors_in(a) + errors_in(b) by {
        lemma_lines_of_two(a, b);
    }
    assert forall|a: Seq<Effect<Txt>>, b: Seq<Effect<Txt>>|
        #![trigger skips_in(a + b)]
        skips_in(a + b) == skips_in(a) + skips_in(b) by {
        lemma_lines_of_two(a, b);
    }
}

/// The count `now` is `before` with `lines` more, unless it stands at the largest number.
pub open spec fn counted(before: usize, lines: nat, now: usize) -> bool {
    now == before + lines || now == usize::MAX
}

} // verus!
