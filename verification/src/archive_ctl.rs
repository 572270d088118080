//! What the user can do in and with archives: where their files are unpacked to, when that is
//! done and undone, and what adding, renaming and removing in them comes to.

use crate::archive::ArchiveEntry;
use crate::archive::is_at_or_below;
use crate::archive::join_inner;
use crate::archive;
use crate::dialog::choices::ArchiveAddMode;
use crate::file_item;
use crate::file_item::seconds_since_1970;
use crate::file_item::FileItem;
use crate::operation::OpSummary;
use crate::operation::Step;
use crate::operation::archive_ops::RewriteRun;
use crate::operation::archive_ops;
use crate::operation::compress::PackJob;
use crate::operation::compress::PackRun;
use crate::operation::compress;
use crate::operation::messages::Verb;
use crate::operation;
use crate::text;
use crate::vfs::Location;
use crate::vfs;
use crate::winpath;
use vstd::prelude::*;

verus! {

/// A text in specifications.
pub type Txt = Seq<char>;

/// What is said where something is not done inside archives; nothing where it is done.
pub fn block_if_archive(loc: &Location, op: &str) -> (warning: Option<String>)
    ensures
        match warning {
            Some(w) => loc@ is Archive && w@ == "書庫内では"@ + op@ + "は未対応です"@,
            None => loc@ is Real,
        },
{
    if loc.is_archive() {
        Some(text::concat3("書庫内では", op, "は未対応です"))
    } else {
        None
    }
}

/// Where a file of a pane is.
#[derive(Clone, Debug, PartialEq, Eq)]
pub enum PaneFile<S = String> {
    Disk { path: S },
    Packed { archive: S, inner: S },
}

impl View for PaneFile<String> {
    type V = PaneFile<Txt>;

    open spec fn view(&self) -> PaneFile<Txt> {
        match *self {
            PaneFile::Disk { path } => PaneFile::Disk { path: path@ },
            PaneFile::Packed { archive, inner } => PaneFile::Packed {
                archive: archive@,
                inner: inner@,
            },
        }
    }
}

/// Where the file `name` of a location is.
pub open spec fn file_at(loc: Location<Txt>, name: Txt) -> PaneFile<Txt> {
    match loc {
        Location::Real(dir) => PaneFile::Disk { path: winpath::path_join(dir, name) },
        Location::Archive { archive, inner } => PaneFile::Packed {
            archive,
            inner: archive::inner_join(inner, name),
        },
    }
}

/// Where the file `name` of a location is.
pub fn read_pane_file(loc: &Location, name: &str) -> (file: PaneFile)
    ensures
        file@ == file_at(loc@, name@),
{
    match loc {
        Location::Real(dir) => PaneFile::Disk { path: winpath::join(dir.as_str(), name) },
        Location::Archive { archive, inner } => PaneFile::Packed {
            archive: text::copy(archive.as_str()),
            inner: join_inner(inner.as_str(), name),
        },
    }
}

/// No more than `cap` bytes of a file, and whether there were more.
pub fn capped(bytes: Vec<u8>, cap: usize) -> (shown: (Vec<u8>, bool))
    ensures
        shown.1 == (bytes@.len() > cap),
        shown.0@ == (if bytes@.len() > cap {
            bytes@.take(cap as int)
        } else {
            bytes@
        }),
{
    let mut bytes = bytes;
    let truncated = bytes.len() > cap;
    if truncated {
        bytes.truncate(cap);
    }
    (bytes, truncated)
}

/// Whether a part of a name inside an archive leads out of the directory that it is unpacked
/// to.
pub open spec fn leads_out(part: Txt) -> bool {
    part == ".."@ || part.contains('\\') || winpath::path_prefix(part).0
        != winpath::PrefixKind::Plain
}

/// The parts of a name inside an archive among the first `n`, without those that stay where
/// they are; nothing where one leads out.
pub open spec fn plain_parts(parts: Seq<Txt>, n: int) -> Option<Seq<Txt>>
    decreases n,
{
    if n <= 0 {
        Some(Seq::empty())
    } else {
        match plain_parts(parts, n - 1) {
            None => None,
            Some(before) => if parts[n - 1] == "."@ {
                Some(before)
            } else if leads_out(parts[n - 1]) {
                None
            } else {
                Some(before.push(parts[n - 1]))
            },
        }
    }
}

/// Where a file of an archive is unpacked to, below the directory for the archive; nothing where
/// that would not be below it.
pub open spec fn unpacked_path(inner: Txt) -> Option<Txt> {
    let parts = text::nonempty_parts(inner, '/');
    match plain_parts(parts, parts.len() as int) {
        Some(kept) => if kept.len() > 0 {
            Some(text::joined(kept, "\\"@))
        } else {
            None
        },
        None => None,
    }
}

/// Whether a text holds a backslash.
fn has_backslash(s: &str) -> (yes: bool)
    ensures
        yes == s@.contains('\\'),
{
    let chars = text::to_chars(s);
    let mut i: usize = 0;
    while i < chars.len()
        invariant
            i <= chars.len(),
            chars@ == s@,
            forall|j: int| 0 <= j < i ==> s@[j] != '\\',
        decreases chars.len() - i,
    {
        if chars[i] == '\\' {
            assert(s@[i as int] == '\\');
            return true;
        }
        i += 1;
    }
    false
}

/// Where a file of an archive is unpacked to, below the directory for the archive.
pub fn safe_inner_path(inner: &str) -> (path: Option<String>)
    ensures
        path.deep_view() == unpacked_path(inner@),
{
    let parts = text::segments(inner, '/');
    let ghost all = parts.deep_view();
    let mut kept: Vec<String> = Vec::new();
    let mut i: usize = 0;
    assert(kept.deep_view() =~= Seq::<Txt>::empty());
    while i < parts.len()
        invariant
            i <= parts.len(),
            all == parts.deep_view(),
            all == text::nonempty_parts(inner@, '/'),
            plain_parts(all, i as int) == Some(kept.deep_view()),
        decreases parts.len() - i,
    {
        assert(all[i as int] == parts@[i as int]@);
        let part = parts[i].as_str();
        if !text::same(part, ".") {
            let prefix = winpath::prefix_of(&text::to_chars(part));
            if text::same(part, "..") || has_backslash(part) || prefix.kind
                != winpath::PrefixKind::Plain {
                assert(plain_parts(all, i + 1) is None);
                proof {
                    lemma_no_parts_after(all, i + 1, all.len() as int);
                }
                return None;
            }
            let ghost before = kept.deep_view();
            kept.push(text::copy(part));
            assert(kept.deep_view() =~= before.push(part@));
        }
        i += 1;
    }
    assert(kept.deep_view().len() == kept.len());
    if kept.len() == 0 {
        return None;
    }
    Some(text::join_all(&kept, "\\"))
}

proof fn lemma_no_parts_after(parts: Seq<Txt>, m: int, n: int)
    requires
        plain_parts(parts, m) is None,
        m <= n,
    ensures
        plain_parts(parts, n) is None,
    decreases n - m,
{
    if m < n {
        lemma_no_parts_after(parts, m, n - 1);
    }
}

/// Where a file of an archive is unpacked to; the directory for the archive itself where it is
/// nowhere.
pub fn inner_to_pathbuf(inner: &str) -> (path: String)
    ensures
        path@ == (match unpacked_path(inner@) {
            Some(p) => p,
            None => Seq::empty(),
        }),
{
    match safe_inner_path(inner) {
        Some(path) => path,
        None => String::new(),
    }
}

/// The directory that archives are unpacked to: one for each process, so that none clears what
/// another uses.
pub open spec fn temp_dir(data: Txt, pid: u32) -> Txt {
    winpath::path_join(
        winpath::path_join(winpath::path_join(data, "cache"@), "archive"@),
        text::decimal_text(pid as nat),
    )
}

/// The directory that archives are unpacked to.
pub fn archive_temp_dir(data: &str, pid: u32) -> (dir: String)
    ensures
        dir@ == temp_dir(data@, pid),
{
    let cache = winpath::join(data, "cache");
    let all = winpath::join(cache.as_str(), "archive");
    winpath::join(all.as_str(), text::decimal(pid as u64).as_str())
}

/// What tells an archive apart from others and from what it was before: its path and when it was
/// changed, in whole seconds since 1970, or zero where that is not known or was before.
pub fn archive_identity(archive: &str, modified: Option<i64>) -> (identity: String)
    ensures
        identity@ == archive@ + seq!['\0'] + text::decimal_text(
            match file_item::seconds_at(modified) {
                Some(n) => n as nat,
                None => 0,
            },
        ),
{
    let stamp: u64 = match seconds_since_1970(modified) {
        Some(n) => n,
        None => 0,
    };
    let mut identity = text::copy(archive);
    identity.push('\0');
    identity.append(text::decimal(stamp).as_str());
    identity
}

/// The name of the directory for an archive: the hash of its identity in sixteen digits.
pub open spec fn key_text(hash: u64) -> Txt {
    text::ascii_lowered(text::hex_text(hash as nat, 16))
}

/// The name of the directory for an archive.
pub fn archive_key(hash: u64) -> (key: String)
    ensures
        key@ == key_text(hash),
{
    text::to_ascii_lower(text::hex(hash, 16).as_str())
}

/// The directory for an archive.
pub open spec fn temp_root(data: Txt, pid: u32, hash: u64) -> Txt {
    winpath::path_join(temp_dir(data, pid), key_text(hash))
}

/// The directory for an archive.
pub fn archive_temp_root(data: &str, pid: u32, hash: u64) -> (dir: String)
    ensures
        dir@ == temp_root(data@, pid, hash),
{
    winpath::join(archive_temp_dir(data, pid).as_str(), archive_key(hash).as_str())
}

/// The file that says that an archive was unpacked as a whole. It stands beside the directory
/// for the archive, not in it.
pub open spec fn done_marker(data: Txt, pid: u32, hash: u64) -> Txt {
    winpath::path_join(temp_dir(data, pid), key_text(hash) + ".done"@)
}

/// The file that says that an archive was unpacked as a whole.
pub fn archive_extract_marker(data: &str, pid: u32, hash: u64) -> (path: String)
    ensures
        path@ == done_marker(data@, pid, hash),
{
    winpath::join(
        archive_temp_dir(data, pid).as_str(),
        text::concat(archive_key(hash).as_str(), ".done").as_str(),
    )
}

/// The name under which a file is written before it gets its own: no reader finds it half
/// written.
pub open spec fn scratch_of(path: Txt, pid: u32) -> Txt {
    winpath::path_with_file_name(
        path,
        (match winpath::path_file_name(path) {
            Some(name) => name,
            None => "entry"@,
        }) + ".tmp."@ + text::decimal_text(pid as nat),
    )
}

/// The name under which a file is written before it gets its own.
pub fn scratch_path(path: &str, pid: u32) -> (scratch: String)
    ensures
        scratch@ == scratch_of(path@, pid),
{
    let name = match winpath::file_name(path) {
        Some(name) => name,
        None => text::copy("entry"),
    };
    let number = text::decimal(pid as u64);
    let scratch = text::concat3(name.as_str(), ".tmp.", number.as_str());
    winpath::with_file_name(path, scratch.as_str())
}

/// Whether the file `inner` is encrypted. It is not where the entries cannot be listed or it is
/// none of them.
pub open spec fn is_encrypted_in(entries: Option<Seq<ArchiveEntry<Txt>>>, inner: Txt) -> bool {
    match entries {
        Some(all) => match archive::first_named(all, inner, 0) {
            Some(i) => all[i].is_encrypted,
            None => false,
        },
        None => false,
    }
}

/// The entries of an archive, where they can be listed.
pub open spec fn listed(entries: Option<Vec<ArchiveEntry>>) -> Option<Seq<ArchiveEntry<Txt>>> {
    match entries {
        Some(all) => Some(archive::entries_of(all@)),
        None => None,
    }
}

/// Whether the file `inner` is encrypted.
pub fn entry_is_encrypted(entries: &Option<Vec<ArchiveEntry>>, inner: &str) -> (yes: bool)
    ensures
        yes == is_encrypted_in(listed(*entries), inner@),
{
    match entries {
        None => false,
        Some(list) => {
            let ghost all = archive::entries_of(list@);
            let mut i: usize = 0;
            while i < list.len()
                invariant
                    i <= list.len(),
                    all == archive::entries_of(list@),
                    *entries == Some(*list),
                    archive::first_named(all, inner@, 0) == archive::first_named(
                        all,
                        inner@,
                        i as int,
                    ),
                decreases list.len() - i,
            {
                assert(all[i as int] == list@[i as int]@);
                if text::same(list[i].path.as_str(), inner) {
                    return list[i].is_encrypted;
                }
                i += 1;
            }
            false
        },
    }
}

/// How often the user is asked for a password.
pub const PASSWORD_TRIES: u8 = 3;

/// What is asked while a file of an archive is read.
#[derive(Clone, Debug, PartialEq, Eq)]
pub enum EntryAsk<S = String> {
    /// Whether the file was unpacked already.
    IsUnpacked { path: S },
    /// The bytes of the unpacked file.
    ReadUnpacked { path: S },
    /// Whether the file is encrypted, or why the archive cannot be opened.
    IsEncrypted,
    /// Its bytes, without a password.
    Read,
    /// Its bytes, with a password.
    ReadWith { password: S },
    /// A password, from the user.
    Prompt,
    /// Nothing: it is done.
    Nothing,
}

impl View for EntryAsk<String> {
    type V = EntryAsk<Txt>;

    open spec fn view(&self) -> EntryAsk<Txt> {
        match *self {
            EntryAsk::IsUnpacked { path } => EntryAsk::IsUnpacked { path: path@ },
            EntryAsk::ReadUnpacked { path } => EntryAsk::ReadUnpacked { path: path@ },
            EntryAsk::IsEncrypted => EntryAsk::IsEncrypted,
            EntryAsk::Read => EntryAsk::Read,
            EntryAsk::ReadWith { password } => EntryAsk::ReadWith { password: password@ },
            EntryAsk::Prompt => EntryAsk::Prompt,
            EntryAsk::Nothing => EntryAsk::Nothing,
        }
    }
}

/// The bytes of a file, or why there are none.
#[derive(Clone, Debug, PartialEq, Eq)]
pub enum Contents<S = String, B = Vec<u8>> {
    Bytes(B),
    Failed(S),
}

/// The bytes of a file in specifications.
pub type ContentsModel = Contents<Txt, Seq<u8>>;

impl View for Contents<String, Vec<u8>> {
    type V = ContentsModel;

    open spec fn view(&self) -> ContentsModel {
        match *self {
            Contents::Bytes(bytes) => Contents::Bytes(bytes@),
            Contents::Failed(why) => Contents::Failed(why@),
        }
    }
}

/// What is answered while a file of an archive is read.
pub enum EntryReply<S = String, B = Vec<u8>> {
    Flag(bool),
    Contents(Contents<S, B>),
    Password(Option<S>),
}

/// An answer in specifications.
pub type EntryReplyModel = EntryReply<Txt, Seq<u8>>;

impl View for EntryReply<String, Vec<u8>> {
    type V = EntryReplyModel;

    open spec fn view(&self) -> EntryReplyModel {
        match *self {
            EntryReply::Flag(b) => EntryReply::Flag(b),
            EntryReply::Contents(c) => EntryReply::Contents(c@),
            EntryReply::Password(p) => EntryReply::Password(p.deep_view()),
        }
    }
}

/// How far the reading of a file of an archive is.
pub enum EntryState<S = String, B = Vec<u8>> {
    Looking { path: S },
    FromDisk { path: S },
    Asking,
    Plain,
    /// The password that was right for another file of the archive is tried.
    Cached { password: S },
    /// The user can be asked so often more.
    Prompting { left: u8 },
    /// A password of the user is tried.
    Trying { password: S, left: u8 },
    Done { contents: Contents<S, B> },
}

/// How far the reading is, in specifications.
pub type EntryStateModel = EntryState<Txt, Seq<u8>>;

impl View for EntryState<String, Vec<u8>> {
    type V = EntryStateModel;

    open spec fn view(&self) -> EntryStateModel {
        match *self {
            EntryState::Looking { path } => EntryState::Looking { path: path@ },
            EntryState::FromDisk { path } => EntryState::FromDisk { path: path@ },
            EntryState::Asking => EntryState::Asking,
            EntryState::Plain => EntryState::Plain,
            EntryState::Cached { password } => EntryState::Cached { password: password@ },
            EntryState::Prompting { left } => EntryState::Prompting { left },
            EntryState::Trying { password, left } => EntryState::Trying {
                password: password@,
                left,
            },
            EntryState::Done { contents } => EntryState::Done { contents: contents@ },
        }
    }
}

/// What else happens when an answer comes in.
#[derive(Clone, Debug, PartialEq, Eq)]
pub enum EntryEffect<S = String> {
    Nothing,
    /// The password is right, and kept for the other files of the archive.
    Remember { password: S },
    /// The user is told that the password seems to be wrong.
    Wrong,
}

impl View for EntryEffect<String> {
    type V = EntryEffect<Txt>;

    open spec fn view(&self) -> EntryEffect<Txt> {
        match *self {
            EntryEffect::Nothing => EntryEffect::Nothing,
            EntryEffect::Remember { password } => EntryEffect::Remember { password: password@ },
            EntryEffect::Wrong => EntryEffect::Wrong,
        }
    }
}

/// Why a file is not read where the user gives no password.
pub const PASSWORD_NEEDED: &'static str = "パスワードが必要です";

/// Why a file is not read where no password was right.
pub const PASSWORD_WRONG: &'static str = "パスワードが一致しません";

/// The user is asked so often more, or it is given up.
pub open spec fn prompting(left: u8) -> EntryStateModel {
    if left == 0 {
        EntryState::Done { contents: Contents::Failed(PASSWORD_WRONG@) }
    } else {
        EntryState::Prompting { left }
    }
}

/// How far the reading is when an answer came in, and what else happens. `cached` is the
/// password that was right for another file of the archive, if any was. An answer to another
/// question changes nothing.
pub open spec fn entry_next(
    state: EntryStateModel,
    cached: Option<Txt>,
    reply: EntryReplyModel,
) -> (EntryStateModel, EntryEffect<Txt>) {
    match (state, reply) {
        (EntryState::Looking { path }, EntryReply::Flag(yes)) => (
            if yes {
                EntryState::FromDisk { path }
            } else {
                EntryState::Asking
            },
            EntryEffect::Nothing,
        ),
        (EntryState::Asking, EntryReply::Flag(encrypted)) => (
            if !encrypted {
                EntryState::Plain
            } else {
                match cached {
                    Some(password) => EntryState::Cached { password },
                    None => prompting(PASSWORD_TRIES),
                }
            },
            EntryEffect::Nothing,
        ),
        (EntryState::Asking, EntryReply::Contents(Contents::Failed(why))) => (
            EntryState::Done { contents: Contents::Failed(why) },
            EntryEffect::Nothing,
        ),
        (EntryState::FromDisk { path }, EntryReply::Contents(contents)) => (
            EntryState::Done { contents },
            EntryEffect::Nothing,
        ),
        (EntryState::Plain, EntryReply::Contents(contents)) => (
            EntryState::Done { contents },
            EntryEffect::Nothing,
        ),
        (EntryState::Cached { password }, EntryReply::Contents(contents)) => (
            match contents {
                Contents::Bytes(_) => EntryState::Done { contents },
                Contents::Failed(_) => prompting(PASSWORD_TRIES),
            },
            EntryEffect::Nothing,
        ),
        (EntryState::Prompting { left }, EntryReply::Password(password)) => (
            match password {
                Some(password) => EntryState::Trying { password, left },
                None => EntryState::Done { contents: Contents::Failed(PASSWORD_NEEDED@) },
            },
            EntryEffect::Nothing,
        ),
        (EntryState::Trying { password, left }, EntryReply::Contents(contents)) => {
            match contents {
                Contents::Bytes(_) => (
                    EntryState::Done { contents },
                    EntryEffect::Remember { password },
                ),
                Contents::Failed(_) => (
                    prompting(
                        if left > 0 {
                            (left - 1) as u8
                        } else {
                            0
                        },
                    ),
                    EntryEffect::Wrong,
                ),
            }
        },
        _ => (state, EntryEffect::Nothing),
    }
}

/// What is asked.
pub open spec fn entry_ask(state: EntryStateModel) -> EntryAsk<Txt> {
    match state {
        EntryState::Looking { path } => EntryAsk::IsUnpacked { path },
        EntryState::FromDisk { path } => EntryAsk::ReadUnpacked { path },
        EntryState::Asking => EntryAsk::IsEncrypted,
        EntryState::Plain => EntryAsk::Read,
        EntryState::Cached { password } => EntryAsk::ReadWith { password },
        EntryState::Prompting { left } => EntryAsk::Prompt,
        EntryState::Trying { password, left } => EntryAsk::ReadWith { password },
        EntryState::Done { contents } => EntryAsk::Nothing,
    }
}

/// How far the reading of the file `inner` is at first.
pub open spec fn entry_start(inner: Txt) -> EntryStateModel {
    match unpacked_path(inner) {
        Some(path) => EntryState::Looking { path },
        None => EntryState::Asking,
    }
}

/// The reading of a file of an archive.
pub struct EntryRun {
    pub cached: Option<String>,
    pub state: EntryState,
}

/// The user is asked so often more, or it is given up.
fn prompt_or_give_up(left: u8) -> (state: EntryState)
    ensures
        state@ == prompting(left),
{
    if left == 0 {
        EntryState::Done { contents: Contents::Failed(text::copy(PASSWORD_WRONG)) }
    } else {
        EntryState::Prompting { left }
    }
}

impl EntryRun {
    /// The file `inner` of an archive is read. What was unpacked already is read from there.
    pub fn read_archive_entry(inner: &str, cached: Option<String>) -> (run: EntryRun)
        ensures
            run.cached == cached,
            run.state@ == entry_start(inner@),
    {
        let state = match safe_inner_path(inner) {
            Some(path) => EntryState::Looking { path },
            None => EntryState::Asking,
        };
        EntryRun { cached, state }
    }

    /// What is asked.
    pub fn ask(&self) -> (ask: EntryAsk)
        ensures
            ask@ == entry_ask(self.state@),
    {
        match &self.state {
            EntryState::Looking { path } => EntryAsk::IsUnpacked { path: text::copy(path.as_str()) },
            EntryState::FromDisk { path } => EntryAsk::ReadUnpacked {
                path: text::copy(path.as_str()),
            },
            EntryState::Asking => EntryAsk::IsEncrypted,
            EntryState::Plain => EntryAsk::Read,
            EntryState::Cached { password } => EntryAsk::ReadWith {
                password: text::copy(password.as_str()),
            },
            EntryState::Prompting { .. } => EntryAsk::Prompt,
            EntryState::Trying { password, .. } => EntryAsk::ReadWith {
                password: text::copy(password.as_str()),
            },
            EntryState::Done { .. } => EntryAsk::Nothing,
        }
    }

    /// An answer comes in.
    pub fn step(self, reply: EntryReply) -> (next: (EntryRun, EntryEffect))
        ensures
            next.0.cached.deep_view() == self.cached.deep_view(),
            (next.0.state@, next.1@) == entry_next(
                self.state@,
                self.cached.deep_view(),
                reply@,
            ),
    {
        let EntryRun { cached, state } = self;
        let (state, effect) = match (state, reply) {
            (EntryState::Looking { path }, EntryReply::Flag(yes)) => (
                if yes {
                    EntryState::FromDisk { path }
                } else {
                    EntryState::Asking
                },
                EntryEffect::Nothing,
            ),
            (EntryState::Asking, EntryReply::Flag(encrypted)) => (
                if !encrypted {
                    EntryState::Plain
                } else {
                    match &cached {
                        Some(password) => EntryState::Cached {
                            password: text::copy(password.as_str()),
                        },
                        None => prompt_or_give_up(PASSWORD_TRIES),
                    }
                },
                EntryEffect::Nothing,
            ),
            (EntryState::Asking, EntryReply::Contents(Contents::Failed(why))) => (
                EntryState::Done { contents: Contents::Failed(why) },
                EntryEffect::Nothing,
            ),
            (EntryState::FromDisk { .. }, EntryReply::Contents(contents)) => (
                EntryState::Done { contents },
                EntryEffect::Nothing,
            ),
            (EntryState::Plain, EntryReply::Contents(contents)) => (
                EntryState::Done { contents },
                EntryEffect::Nothing,
            ),
            (EntryState::Cached { .. }, EntryReply::Contents(contents)) => (
                match contents {
                    Contents::Bytes(bytes) => EntryState::Done {
                        contents: Contents::Bytes(bytes),
                    },
                    Contents::Failed(_) => prompt_or_give_up(PASSWORD_TRIES),
                },
                EntryEffect::Nothing,
            ),
            (EntryState::Prompting { left }, EntryReply::Password(password)) => (
                match password {
                    Some(password) => EntryState::Trying { password, left },
                    None => EntryState::Done {
                        contents: Contents::Failed(text::copy(PASSWORD_NEEDED)),
                    },
                },
                EntryEffect::Nothing,
            ),
            (EntryState::Trying { password, left }, EntryReply::Contents(contents)) => {
                match contents {
                    Contents::Bytes(bytes) => (
                        EntryState::Done { contents: Contents::Bytes(bytes) },
                        EntryEffect::Remember { password },
                    ),
                    Contents::Failed(_) => (
                        prompt_or_give_up(
                            if left > 0 {
                                left - 1
                            } else {
                                0
                            },
                        ),
                        EntryEffect::Wrong,
                    ),
                }
            },
            (state, _) => (state, EntryEffect::Nothing),
        };
        (EntryRun { cached, state }, effect)
    }
}

/// Why a file of an archive is not unpacked that would leave the directory for the archive.
pub const BAD_INNER: &'static str = "不正な書庫内パス";

/// How far the unpacking of one file is.
pub enum UnpackAt<S = String, B = Vec<u8>> {
    Looking,
    Making { dir: S },
    Reading,
    Writing { bytes: B },
    Renaming,
    Done,
    Failed { why: S },
}

/// How far the unpacking is, in specifications.
pub type UnpackAtModel = UnpackAt<Txt, Seq<u8>>;

impl View for UnpackAt<String, Vec<u8>> {
    type V = UnpackAtModel;

    open spec fn view(&self) -> UnpackAtModel {
        match *self {
            UnpackAt::Looking => UnpackAt::Looking,
            UnpackAt::Making { dir } => UnpackAt::Making { dir: dir@ },
            UnpackAt::Reading => UnpackAt::Reading,
            UnpackAt::Writing { bytes } => UnpackAt::Writing { bytes: bytes@ },
            UnpackAt::Renaming => UnpackAt::Renaming,
            UnpackAt::Done => UnpackAt::Done,
            UnpackAt::Failed { why } => UnpackAt::Failed { why: why@ },
        }
    }
}

/// What is asked while a file is unpacked.
#[derive(Clone, Debug, PartialEq, Eq)]
pub enum UnpackAsk<S = String, B = Vec<u8>> {
    /// Whether there is a file.
    IsFile { path: S },
    /// A directory and all above it are made.
    MakeDir { path: S },
    /// The bytes of the file in the archive.
    Read,
    /// A file is written.
    Write { path: S, bytes: B },
    /// A file gets another name.
    Rename { from: S, to: S },
    Nothing,
}

/// What is asked, in specifications.
pub type UnpackAskModel = UnpackAsk<Txt, Seq<u8>>;

impl View for UnpackAsk<String, Vec<u8>> {
    type V = UnpackAskModel;

    open spec fn view(&self) -> UnpackAskModel {
        match *self {
            UnpackAsk::IsFile { path } => UnpackAsk::IsFile { path: path@ },
            UnpackAsk::MakeDir { path } => UnpackAsk::MakeDir { path: path@ },
            UnpackAsk::Read => UnpackAsk::Read,
            UnpackAsk::Write { path, bytes } => UnpackAsk::Write { path: path@, bytes: bytes@ },
            UnpackAsk::Rename { from, to } => UnpackAsk::Rename { from: from@, to: to@ },
            UnpackAsk::Nothing => UnpackAsk::Nothing,
        }
    }
}

/// What is answered while a file is unpacked.
pub enum UnpackReply<S = String, B = Vec<u8>> {
    Flag(bool),
    /// It went well, or why it did not.
    Outcome(Option<S>),
    Contents(Contents<S, B>),
}

/// An answer in specifications.
pub type UnpackReplyModel = UnpackReply<Txt, Seq<u8>>;

impl View for UnpackReply<String, Vec<u8>> {
    type V = UnpackReplyModel;

    open spec fn view(&self) -> UnpackReplyModel {
        match *self {
            UnpackReply::Flag(b) => UnpackReply::Flag(b),
            UnpackReply::Outcome(why) => UnpackReply::Outcome(why.deep_view()),
            UnpackReply::Contents(c) => UnpackReply::Contents(c@),
        }
    }
}

/// How far the unpacking to `path` is when an answer came in.
pub open spec fn unpack_next(at: UnpackAtModel, path: Txt, reply: UnpackReplyModel) -> UnpackAtModel {
    match (at, reply) {
        (UnpackAt::Looking, UnpackReply::Flag(there)) => if there {
            UnpackAt::Done
        } else {
            match winpath::path_parent(path) {
                Some(dir) => UnpackAt::Making { dir },
                None => UnpackAt::Reading,
            }
        },
        (UnpackAt::Making { dir }, UnpackReply::Outcome(why)) => match why {
            Some(why) => UnpackAt::Failed { why },
            None => UnpackAt::Reading,
        },
        (UnpackAt::Reading, UnpackReply::Contents(contents)) => match contents {
            Contents::Bytes(bytes) => UnpackAt::Writing { bytes },
            Contents::Failed(why) => UnpackAt::Failed { why },
        },
        (UnpackAt::Writing { bytes }, UnpackReply::Outcome(why)) => match why {
            Some(why) => UnpackAt::Failed { why },
            None => UnpackAt::Renaming,
        },
        (UnpackAt::Renaming, UnpackReply::Outcome(why)) => match why {
            Some(why) => UnpackAt::Failed { why },
            None => UnpackAt::Done,
        },
        _ => at,
    }
}

/// What is asked while a file is unpacked to `path`, over `scratch`.
pub open spec fn unpack_ask(at: UnpackAtModel, path: Txt, scratch: Txt) -> UnpackAskModel {
    match at {
        UnpackAt::Looking => UnpackAsk::IsFile { path },
        UnpackAt::Making { dir } => UnpackAsk::MakeDir { path: dir },
        UnpackAt::Reading => UnpackAsk::Read,
        UnpackAt::Writing { bytes } => UnpackAsk::Write { path: scratch, bytes },
        UnpackAt::Renaming => UnpackAsk::Rename { from: scratch, to: path },
        UnpackAt::Done => UnpackAsk::Nothing,
        UnpackAt::Failed { why } => UnpackAsk::Nothing,
    }
}

/// The unpacking of one file of an archive.
pub struct UnpackRun {
    pub path: String,
    pub scratch: String,
    pub at: UnpackAt,
}

impl UnpackRun {
    /// The file `inner` of an archive is unpacked below `root`, if it is not there.
    pub fn extract_entry_to_temp(root: &str, inner: &str, pid: u32) -> (run: UnpackRun)
        ensures
            match unpacked_path(inner@) {
                Some(rel) => {
                    &&& run.path@ == winpath::path_join(root@, rel)
                    &&& run.scratch@ == scratch_of(run.path@, pid)
                    &&& run.at is Looking
                },
                None => run.at@ == (UnpackAt::<Txt, Seq<u8>>::Failed { why: BAD_INNER@ }),
            },
    {
        match safe_inner_path(inner) {
            Some(rel) => {
                let path = winpath::join(root, rel.as_str());
                let scratch = scratch_path(path.as_str(), pid);
                UnpackRun { path, scratch, at: UnpackAt::Looking }
            },
            None => UnpackRun {
                path: String::new(),
                scratch: String::new(),
                at: UnpackAt::Failed { why: text::copy(BAD_INNER) },
            },
        }
    }

    /// What is asked.
    pub fn ask(&self) -> (ask: UnpackAsk)
        ensures
            ask@ == unpack_ask(self.at@, self.path@, self.scratch@),
    {
        match &self.at {
            UnpackAt::Looking => UnpackAsk::IsFile { path: text::copy(self.path.as_str()) },
            UnpackAt::Making { dir } => UnpackAsk::MakeDir { path: text::copy(dir.as_str()) },
            UnpackAt::Reading => UnpackAsk::Read,
            UnpackAt::Writing { bytes } => UnpackAsk::Write {
                path: text::copy(self.scratch.as_str()),
                bytes: copy_bytes(bytes),
            },
            UnpackAt::Renaming => UnpackAsk::Rename {
                from: text::copy(self.scratch.as_str()),
                to: text::copy(self.path.as_str()),
            },
            UnpackAt::Done => UnpackAsk::Nothing,
            UnpackAt::Failed { .. } => UnpackAsk::Nothing,
        }
    }

    /// An answer comes in.
    pub fn step(self, reply: UnpackReply) -> (next: UnpackRun)
        ensures
            next.path@ == self.path@,
            next.scratch@ == self.scratch@,
            next.at@ == unpack_next(self.at@, self.path@, reply@),
    {
        let UnpackRun { path, scratch, at } = self;
        let at = match (at, reply) {
            (UnpackAt::Looking, UnpackReply::Flag(there)) => if there {
                UnpackAt::Done
            } else {
                match winpath::parent(path.as_str()) {
                    Some(dir) => UnpackAt::Making { dir },
                    None => UnpackAt::Reading,
                }
            },
            (UnpackAt::Making { .. }, UnpackReply::Outcome(why)) => match why {
                Some(why) => UnpackAt::Failed { why },
                None => UnpackAt::Reading,
            },
            (UnpackAt::Reading, UnpackReply::Contents(contents)) => match contents {
                Contents::Bytes(bytes) => UnpackAt::Writing { bytes },
                Contents::Failed(why) => UnpackAt::Failed { why },
            },
            (UnpackAt::Writing { .. }, UnpackReply::Outcome(why)) => match why {
                Some(why) => UnpackAt::Failed { why },
                None => UnpackAt::Renaming,
            },
            (UnpackAt::Renaming, UnpackReply::Outcome(why)) => match why {
                Some(why) => UnpackAt::Failed { why },
                None => UnpackAt::Done,
            },
            (at, _) => at,
        };
        UnpackRun { path, scratch, at }
    }
}

/// The same bytes once more.
fn copy_bytes(bytes: &Vec<u8>) -> (copy: Vec<u8>)
    ensures
        copy@ == bytes@,
{
    let mut copy: Vec<u8> = Vec::new();
    let mut i: usize = 0;
    while i < bytes.len()
        invariant
            i <= bytes.len(),
            copy@ == bytes@.take(i as int),
        decreases bytes.len() - i,
    {
        copy.push(bytes[i]);
        assert(copy@ =~= bytes@.take(i + 1));
        i += 1;
    }
    assert(copy@ =~= bytes@);
    copy
}

/// What is done before the list of a pane is shown that may be in an archive.
#[derive(Clone, Copy, Debug, PartialEq, Eq, Structural)]
pub enum ExtractDecision {
    /// The list is shown at once.
    ShowNow,
    /// The archive was unpacked by an earlier run, which is noted; the list is shown at once.
    NoteAndShow,
    /// Another pane unpacks the archive; the list waits for it.
    Wait,
    /// The archive is unpacked; the list waits for it.
    Start,
}

/// What is done before the list of a pane is shown. `random_access` says whether files of the
/// archive can be read one by one, and is nothing where the archive cannot be opened;
/// `unpacked_before` whether it was unpacked as a whole.
pub fn maybe_start_archive_extract(
    loc: &Location,
    extracted: bool,
    extracting: bool,
    random_access: Option<bool>,
    unpacked_before: bool,
) -> (decision: ExtractDecision)
    ensures
        decision == (if loc@ is Real || extracted {
            ExtractDecision::ShowNow
        } else if extracting {
            ExtractDecision::Wait
        } else if random_access != Some(false) {
            ExtractDecision::ShowNow
        } else if unpacked_before {
            ExtractDecision::NoteAndShow
        } else {
            ExtractDecision::Start
        }),
{
    if !loc.is_archive() || extracted {
        return ExtractDecision::ShowNow;
    }
    if extracting {
        return ExtractDecision::Wait;
    }
    match random_access {
        Some(false) => if unpacked_before {
            ExtractDecision::NoteAndShow
        } else {
            ExtractDecision::Start
        },
        _ => ExtractDecision::ShowNow,
    }
}

/// How much of an archive was unpacked, in percent.
pub open spec fn percent_of(done: u64, total: u64) -> int {
    (if done < total {
        done as int
    } else {
        total as int
    }) * 100 / (total as int)
}

/// What was last said of how far the unpacking is.
pub struct ExtractProgress {
    pub last: Option<u32>,
}

impl ExtractProgress {
    /// Nothing was said.
    pub fn new() -> (p: Self)
        ensures
            p.last is None,
    {
        ExtractProgress { last: None }
    }

    /// So much was unpacked: what is said of it, where it is not what was said last.
    pub fn report(&mut self, done: u64, total: u64) -> (percent: Option<u32>)
        ensures
            total == 0 ==> percent is None && final(self).last == old(self).last,
            total > 0 ==> {
                &&& final(self).last matches Some(p) && p == percent_of(done, total)
                &&& percent == (if old(self).last == final(self).last {
                    None
                } else {
                    final(self).last
                })
                &&& final(self).last matches Some(p) && p <= 100
            },
    {
        if total == 0 {
            return None;
        }
        let n: u128 = if done < total {
            done as u128
        } else {
            total as u128
        };
        let t: u128 = total as u128;
        assert((n * 100) / (t as int) <= 100) by (nonlinear_arith)
            requires
                n <= t,
                t > 0,
        ;
        let percent: u32 = (n * 100 / t) as u32;
        if let Some(last) = self.last {
            if last == percent {
                return None;
            }
        }
        self.last = Some(percent);
        Some(percent)
    }
}

/// What unpacking an archive came to.
#[derive(Clone, Debug, PartialEq, Eq)]
pub enum ArchiveOutcome<S = String> {
    Done,
    Cancelled,
    Failed(S),
}

/// What unpacking an archive came to, and whether what was unpacked is removed: it is kept only
/// where all of it is there.
pub fn extract_outcome(error: Option<String>, cancelled: bool) -> (outcome: (ArchiveOutcome, bool))
    ensures
        outcome.0 == (match error {
            Some(e) => ArchiveOutcome::Failed(e),
            None => if cancelled {
                ArchiveOutcome::Cancelled
            } else {
                ArchiveOutcome::Done
            },
        }),
        outcome.1 == !(outcome.0 is Done),
{
    match error {
        Some(e) => (ArchiveOutcome::Failed(e), true),
        None => if cancelled {
            (ArchiveOutcome::Cancelled, true)
        } else {
            (ArchiveOutcome::Done, false)
        },
    }
}

/// Out of an archive: the directory that holds it; where there is none, the root of the archive.
pub open spec fn out_of(loc: Location<Txt>) -> Location<Txt> {
    match loc {
        Location::Real(path) => loc,
        Location::Archive { archive, inner } => match vfs::up(archive) {
            Some((dir, _)) => dir,
            None => Location::Archive { archive, inner: Seq::empty() },
        },
    }
}

proof fn lemma_slash_in_range(s: Txt, end: int)
    requires
        end <= s.len(),
    ensures
        vfs::last_slash(s, end) matches Some(i) ==> 0 <= i < end,
    decreases end,
{
    if end > 0 && s[end - 1] != '/' {
        lemma_slash_in_range(s, end - 1);
    }
}

/// How deep in an archive a location is.
pub open spec fn depth_in(loc: Location<Txt>) -> int {
    match loc {
        Location::Real(_) => 0,
        Location::Archive { archive, inner } => inner.len() as int + 1,
    }
}

/// Out of an archive that cannot be shown: up until the location is on disk.
pub fn exit_archive_to_parent(loc: Location) -> (out: Location)
    ensures
        out@ == out_of(loc@),
{
    let mut here = loc;
    while here.is_archive()
        invariant_except_break
            out_of(here@) == out_of(loc@),
        ensures
            here@ == out_of(loc@),
        decreases depth_in(here@),
    {
        proof {
            match here@ {
                Location::Archive { archive, inner } => {
                    lemma_slash_in_range(inner, inner.len() as int);
                    if inner.len() == 0 {
                        assert(inner =~= Seq::<char>::empty());
                    }
                },
                Location::Real(_) => {},
            }
        }
        match here.to_parent() {
            Some((above, _)) => {
                here = above;
            },
            None => {
                break;
            },
        }
    }
    here
}

/// Whether a location is in the archive `archive`.
pub fn pane_in_archive(loc: &Location, archive: &str) -> (yes: bool)
    ensures
        yes == (loc@ matches Location::Archive { archive: a, .. } && winpath::is_same_path(
            a,
            archive@,
        )),
{
    match loc {
        Location::Archive { archive: a, .. } => winpath::same(a.as_str(), archive),
        Location::Real(_) => false,
    }
}

/// Whether what was unpacked of an archive is still of use to a pane: the pane is in the archive,
/// or in the directory that holds it.
pub open spec fn is_used_by(loc: Location<Txt>, archive: Txt) -> bool {
    match loc {
        Location::Archive { archive: a, .. } => winpath::is_same_path(a, archive),
        Location::Real(dir) => match winpath::path_parent(archive) {
            Some(parent) => winpath::is_same_path(parent, dir),
            None => false,
        },
    }
}

/// Whether what was unpacked of an archive is still of use.
pub open spec fn is_used(locs: Seq<Location>, archive: Txt) -> bool {
    exists|i: int| 0 <= i < locs.len() && is_used_by((#[trigger] locs[i])@, archive)
}

/// Whether what was unpacked of an archive is still of use.
pub fn used(locs: &Vec<Location>, archive: &str) -> (yes: bool)
    ensures
        yes == is_used(locs@, archive@),
{
    let parent = winpath::parent(archive);
    let mut i: usize = 0;
    while i < locs.len()
        invariant
            i <= locs.len(),
            parent.deep_view() == winpath::path_parent(archive@),
            forall|j: int| 0 <= j < i ==> !is_used_by((#[trigger] locs@[j])@, archive@),
        decreases locs.len() - i,
    {
        let here = match &locs[i] {
            Location::Archive { archive: a, .. } => winpath::same(a.as_str(), archive),
            Location::Real(dir) => match &parent {
                Some(p) => winpath::same(p.as_str(), dir.as_str()),
                None => false,
            },
        };
        if here {
            assert(is_used_by(locs@[i as int]@, archive@));
            return true;
        }
        i += 1;
    }
    false
}

/// An archive that was unpacked, and where to.
pub struct TempDir {
    pub archive: String,
    pub root: String,
    pub marker: String,
}

/// The place of the directory for an archive among those that are known, from `from` on.
pub open spec fn known_at(dirs: Seq<TempDir>, archive: Txt, from: int) -> Option<int>
    decreases dirs.len() - from,
{
    if from < 0 || from >= dirs.len() {
        None
    } else if winpath::is_same_path(dirs[from].archive@, archive) {
        Some(from)
    } else {
        known_at(dirs, archive, from + 1)
    }
}

/// The directory for an archive becomes known. One that is known already stays as it is.
pub fn register_archive_temp(dirs: &mut Vec<TempDir>, archive: &str, root: &str, marker: &str)
    ensures
        match known_at(old(dirs)@, archive@, 0) {
            Some(_) => final(dirs)@ == old(dirs)@,
            None => {
                &&& final(dirs)@.len() == old(dirs)@.len() + 1
                &&& final(dirs)@.drop_last() == old(dirs)@
                &&& final(dirs)@.last().archive@ == archive@
                &&& final(dirs)@.last().root@ == root@
                &&& final(dirs)@.last().marker@ == marker@
            },
        },
{
    let mut i: usize = 0;
    while i < dirs.len()
        invariant
            i <= dirs.len(),
            dirs@ == old(dirs)@,
            known_at(dirs@, archive@, 0) == known_at(dirs@, archive@, i as int),
        decreases dirs.len() - i,
    {
        if winpath::same(dirs[i].archive.as_str(), archive) {
            return ;
        }
        i += 1;
    }
    dirs.push(
        TempDir {
            archive: text::copy(archive),
            root: text::copy(root),
            marker: text::copy(marker),
        },
    );
    assert(dirs@.drop_last() =~= old(dirs)@);
}

/// Those of the first `n` that are still of use, or those that are not.
pub open spec fn sorted_out(dirs: Seq<TempDir>, locs: Seq<Location>, wanted: bool, n: int) -> Seq<
    TempDir,
>
    decreases n,
{
    if n <= 0 {
        Seq::empty()
    } else {
        let before = sorted_out(dirs, locs, wanted, n - 1);
        if is_used(locs, dirs[n - 1].archive@) == wanted {
            before.push(dirs[n - 1])
        } else {
            before
        }
    }
}

/// What was unpacked is parted: what is still of use to some pane is kept, the rest is to be
/// removed. `locs` are the places of all panes of all tabs.
pub fn cleanup_unreferenced_temps(dirs: Vec<TempDir>, locs: &Vec<Location>) -> (parted: (
    Vec<TempDir>,
    Vec<TempDir>,
))
    ensures
        parted.0@ == sorted_out(dirs@, locs@, true, dirs@.len() as int),
        parted.1@ == sorted_out(dirs@, locs@, false, dirs@.len() as int),
{
    let ghost all = dirs@;
    let mut dirs = dirs;
    let mut kept: Vec<TempDir> = Vec::new();
    let mut gone: Vec<TempDir> = Vec::new();
    let ghost mut n: int = 0;
    while dirs.len() > 0
        invariant
            0 <= n <= all.len(),
            dirs@ == all.skip(n),
            kept@ == sorted_out(all, locs@, true, n),
            gone@ == sorted_out(all, locs@, false, n),
        ensures
            n == all.len(),
        decreases dirs.len(),
    {
        let dir = dirs.remove(0);
        assert(dir == all[n]);
        assert(dirs@ =~= all.skip(n + 1));
        if used(locs, dir.archive.as_str()) {
            kept.push(dir);
        } else {
            gone.push(dir);
        }
        proof {
            n = n + 1;
        }
    }
    (kept, gone)
}

/// Whether the directory `name` is what a process left behind: its name is the number of a
/// process that is not this one and does not run.
pub open spec fn is_left_behind(name: Txt, own: u32, alive: bool) -> bool {
    text::unsigned_value(name) matches Some(n) && n <= u32::MAX && n != own && !alive
}

/// Whether the directory `name` is what a process left behind. `alive` says whether the process
/// with that number runs.
pub fn sweep_dead_pid_temps(name: &str, own: u32, alive: bool) -> (yes: bool)
    ensures
        yes == is_left_behind(name@, own, alive),
{
    match text::parse_unsigned(name, u32::MAX as u64) {
        Some(pid) => pid != own as u64 && !alive,
        None => false,
    }
}

/// Whether a name is taken in an archive: by an entry, or by a directory that entries are in.
pub open spec fn is_taken(existing: Seq<Txt>, target: Txt) -> bool {
    exists|i: int| 0 <= i < existing.len() && archive::at_or_below(#[trigger] existing[i], target)
}

/// Whether a name is taken in an archive.
pub fn taken(existing: &Vec<String>, target: &str) -> (yes: bool)
    ensures
        yes == is_taken(existing.deep_view(), target@),
{
    let ghost all = existing.deep_view();
    let mut i: usize = 0;
    while i < existing.len()
        invariant
            i <= existing.len(),
            all == existing.deep_view(),
            forall|j: int| 0 <= j < i ==> !archive::at_or_below(#[trigger] all[j], target@),
        decreases existing.len() - i,
    {
        assert(all[i as int] == existing@[i as int]@);
        if is_at_or_below(existing[i].as_str(), target) {
            return true;
        }
        i += 1;
    }
    false
}

/// What an archive can do.
#[derive(Clone, Copy, Debug, PartialEq, Eq, Structural)]
pub struct ArchiveCaps {
    pub can_mkdir: bool,
    pub can_add: bool,
    pub can_rename: bool,
    pub can_remove: bool,
}

/// What a task that unpacks an archive is called.
pub const EXTRACT_TASK: &'static str = "展開";

/// What is said of a task that unpacks an archive.
pub fn extract_description(archive: &str) -> (said: String)
    ensures
        said@ == (match winpath::path_file_name(archive@) {
            Some(name) => name,
            None => Seq::empty(),
        }) + " を展開中"@,
{
    let name = match winpath::file_name(archive) {
        Some(name) => name,
        None => String::new(),
    };
    text::concat(name.as_str(), " を展開中")
}

/// Whether a task is stopped when the user stops the unpacking: it is one that unpacks an
/// archive.
pub fn cancel_archive_load(task: &str) -> (stopped: bool)
    ensures
        stopped == (task@ == EXTRACT_TASK@),
{
    text::same(task, EXTRACT_TASK)
}

/// What is done in an archive, apart from adding.
#[derive(Clone, Debug, PartialEq, Eq)]
pub enum ArchiveOp {
    Delete { names: Vec<String> },
    Rename { before: String, after: String },
}

/// A task in an archive that is written anew: what it is called, what is said of it, and the
/// rewriting with its first step.
pub struct OpTask {
    pub label: String,
    pub said: String,
    pub run: RewriteRun,
    pub step: Step,
}

/// Starts what is done in the directory `inner` of the archive `archive`. `short` names the files in
/// short; the process and the sequence number make the name of the new archive its own.
pub fn start_archive_op(
    op: ArchiveOp,
    archive: &str,
    inner: &str,
    short: &str,
    process: u32,
    sequence: u64,
) -> (task: OpTask)
    ensures
        task.run.wf(),
        task.step.ask@ == archive_ops::rewrite_ask(task.run@),
        operation::effects_of(task.step.effects@) == seq![
            operation::start_line(task.run@.plan.verb),
        ],
        match op {
            ArchiveOp::Delete { names } => {
                &&& task.label@ == "書庫から削除"@
                &&& task.said@ == short@ + " ("@ + archive@ + ")"@
                &&& task.run@ == archive_ops::deleting(
                    archive@,
                    inner@,
                    names.deep_view(),
                    process,
                    sequence,
                )
            },
            ArchiveOp::Rename { before, after } => {
                &&& task.label@ == "書庫内で改名"@
                &&& task.said@ == before@ + " -> "@ + after@
                &&& task.run@ == archive_ops::renaming(
                    archive@,
                    inner@,
                    before@,
                    after@,
                    process,
                    sequence,
                )
            },
        },
{
    match op {
        ArchiveOp::Delete { names } => {
            let head = text::concat3(short, " (", archive);
            let said = text::concat(head.as_str(), ")");
            let (run, step) = archive_ops::run_archive_delete(
                archive,
                inner,
                names,
                process,
                sequence,
            );
            OpTask { label: text::copy("書庫から削除"), said, run, step }
        },
        ArchiveOp::Rename { before, after } => {
            let said = text::concat3(before.as_str(), " -> ", after.as_str());
            let (run, step) = archive_ops::run_archive_rename(
                archive,
                inner,
                before.as_str(),
                after.as_str(),
                process,
                sequence,
            );
            OpTask { label: text::copy("書庫内で改名"), said, run, step }
        },
    }
}

/// What becomes of a wish of the user.
#[derive(Clone, Debug, PartialEq, Eq)]
pub enum Wish<S = String, L = Vec<String>> {
    /// Nothing: there is nothing to do.
    Nothing,
    /// The user is warned.
    Warn(S),
    /// The user is told of an error.
    Fail(S),
    /// Nothing is selected, which the user is told.
    NotSelected,
    /// The name is taken, which the user is told.
    Taken { name: S, why: S },
    /// A directory is made, and its name told.
    MakeDirectory { archive: S, target: S, name: S },
    /// Files are unpacked.
    Extract { archive: S, inner: S, names: L, target: S },
    /// The user is asked how to add, for some names are taken.
    AskHow { summary: S, taken: L },
    /// Files of a directory on disk are added to a directory of an archive; where they are moved,
    /// they are removed from the disk after that.
    Add { archive: S, inner: S, src_dir: S, names: L, move_it: bool, mode: ArchiveAddMode },
    /// A file is renamed.
    Rename { archive: S, inner: S, before: S, after: S },
    /// Files are removed, after the user confirmed it where that is asked.
    Delete { archive: S, inner: S, names: L, ask: bool },
}

/// What becomes of a wish, in specifications.
pub type WishModel = Wish<Txt, Seq<Txt>>;

impl View for Wish<String, Vec<String>> {
    type V = WishModel;

    open spec fn view(&self) -> WishModel {
        match *self {
            Wish::Nothing => Wish::Nothing,
            Wish::Warn(s) => Wish::Warn(s@),
            Wish::Fail(s) => Wish::Fail(s@),
            Wish::NotSelected => Wish::NotSelected,
            Wish::Taken { name, why } => Wish::Taken { name: name@, why: why@ },
            Wish::MakeDirectory { archive, target, name } => Wish::MakeDirectory {
                archive: archive@,
                target: target@,
                name: name@,
            },
            Wish::Extract { archive, inner, names, target } => Wish::Extract {
                archive: archive@,
                inner: inner@,
                names: names.deep_view(),
                target: target@,
            },
            Wish::AskHow { summary, taken } => Wish::AskHow {
                summary: summary@,
                taken: taken.deep_view(),
            },
            Wish::Add { archive, inner, src_dir, names, move_it, mode } => Wish::Add {
                archive: archive@,
                inner: inner@,
                src_dir: src_dir@,
                names: names.deep_view(),
                move_it,
                mode,
            },
            Wish::Rename { archive, inner, before, after } => Wish::Rename {
                archive: archive@,
                inner: inner@,
                before: before@,
                after: after@,
            },
            Wish::Delete { archive, inner, names, ask } => Wish::Delete {
                archive: archive@,
                inner: inner@,
                names: names.deep_view(),
                ask,
            },
        }
    }
}

/// Whether an archive can be worked on: it is opened, and can do it. What the user is told where
/// it cannot.
pub open spec fn not_possible(
    opened: Result<ArchiveCaps, Txt>,
    can: bool,
    unsupported: Txt,
) -> Option<WishModel> {
    match opened {
        Err(why) => Some(Wish::Fail("書庫を開けません: "@ + why)),
        Ok(caps) => if can {
            None
        } else {
            Some(Wish::Warn(unsupported))
        },
    }
}

/// What opening an archive came to, in specifications.
pub open spec fn opened_of(opened: Result<ArchiveCaps, String>) -> Result<ArchiveCaps, Txt> {
    match opened {
        Ok(caps) => Ok(caps),
        Err(why) => Err(why@),
    }
}

/// What the user is told where an archive cannot be worked on.
fn refusal(opened: &Result<ArchiveCaps, String>, can: bool, unsupported: &str) -> (wish: Option<
    Wish,
>)
    ensures
        match wish {
            Some(w) => not_possible(opened_of(*opened), can, unsupported@) == Some(w@),
            None => not_possible(opened_of(*opened), can, unsupported@) is None,
        },
{
    match opened {
        Err(why) => Some(Wish::Fail(text::concat("書庫を開けません: ", why.as_str()))),
        Ok(_) => if can {
            None
        } else {
            Some(Wish::Warn(text::copy(unsupported)))
        },
    }
}

/// Why a directory is not made under a name that is taken.
pub const EXISTS: &'static str = "すでに存在します";

/// Why a file does not get a name that is taken.
pub const SAME_NAME: &'static str = "同名が存在します";

/// Why a directory is not made in an archive.
pub const NO_MKDIR: &'static str = "この書庫形式はディレクトリの作成に未対応です";

/// Why files are not added to an archive.
pub const NO_ADD: &'static str = "この書庫形式はファイルの追加に未対応です";

/// Why a file of an archive is not renamed.
pub const NO_RENAME: &'static str = "この書庫形式は名前の変更に未対応です";

/// Why files of an archive are not removed.
pub const NO_REMOVE: &'static str = "この書庫形式は削除に未対応です";

/// What becomes of the wish to make a directory in an archive: `name` is what the user wrote, if
/// anything; `existing` are the names in the archive.
pub open spec fn mkdir_wish(
    loc: Location<Txt>,
    opened: Result<ArchiveCaps, Txt>,
    name: Option<Txt>,
    existing: Seq<Txt>,
) -> WishModel {
    match loc {
        Location::Real(_) => Wish::Nothing,
        Location::Archive { archive, inner } => mkdir_in(archive, inner, opened, name, existing),
    }
}

/// What becomes of the wish to make a directory in the directory `inner` of an archive.
pub open spec fn mkdir_in(
    archive: Txt,
    inner: Txt,
    opened: Result<ArchiveCaps, Txt>,
    name: Option<Txt>,
    existing: Seq<Txt>,
) -> WishModel {
    match not_possible(opened, opened matches Ok(caps) && caps.can_mkdir, NO_MKDIR@) {
        Some(wish) => wish,
        None => match name {
            None => Wish::Nothing,
            Some(written) => {
                let name = text::trimmed(written);
                let target = archive::inner_join(inner, name);
                if name.len() == 0 {
                    Wish::Nothing
                } else if is_taken(existing, target) {
                    Wish::Taken { name, why: EXISTS@ }
                } else {
                    Wish::MakeDirectory { archive, target, name }
                }
            },
        },
    }
}

/// What becomes of the wish to make a directory in an archive.
pub fn make_directory_in_archive(
    loc: &Location,
    opened: &Result<ArchiveCaps, String>,
    name: Option<String>,
    existing: &Vec<String>,
) -> (wish: Wish)
    ensures
        wish@ == mkdir_wish(
            loc@,
            opened_of(*opened),
            name.deep_view(),
            existing.deep_view(),
        ),
{
    let (archive, inner) = match loc {
        Location::Real(_) => {
            return Wish::Nothing;
        },
        Location::Archive { archive, inner } => (archive.as_str(), inner.as_str()),
    };
    let can = match opened {
        Ok(caps) => caps.can_mkdir,
        Err(_) => false,
    };
    if let Some(wish) = refusal(opened, can, NO_MKDIR) {
        return wish;
    }
    match name {
        None => Wish::Nothing,
        Some(written) => {
            let name = text::trim(written.as_str());
            if name.as_str().is_empty() {
                return Wish::Nothing;
            }
            let target = join_inner(inner, name.as_str());
            if taken(existing, target.as_str()) {
                return Wish::Taken { name, why: text::copy(EXISTS) };
            }
            Wish::MakeDirectory { archive: text::copy(archive), target, name }
        },
    }
}

/// What becomes of the wish to unpack files of the archive of one pane into the other pane.
pub open spec fn extract_wish(
    from: Location<Txt>,
    to: Location<Txt>,
    names: Seq<Txt>,
) -> WishModel {
    if names.len() == 0 {
        Wish::NotSelected
    } else {
        match from {
            Location::Real(_) => Wish::Nothing,
            Location::Archive { archive, inner } => match to {
                Location::Real(target) => Wish::Extract { archive, inner, names, target },
                Location::Archive { .. } => Wish::Warn("取り出し先が実フォルダではありません"@),
            },
        }
    }
}

/// What becomes of the wish to unpack files of the archive of one pane into the other pane.
pub fn extract_from_archive(from: &Location, to: &Location, names: Vec<String>) -> (wish: Wish)
    ensures
        wish@ == extract_wish(from@, to@, names.deep_view()),
{
    assert(names.deep_view().len() == names.len());
    if names.len() == 0 {
        return Wish::NotSelected;
    }
    match from {
        Location::Real(_) => Wish::Nothing,
        Location::Archive { archive, inner } => match to {
            Location::Real(target) => Wish::Extract {
                archive: text::copy(archive.as_str()),
                inner: text::copy(inner.as_str()),
                names,
                target: text::copy(target.as_str()),
            },
            Location::Archive { .. } => Wish::Warn(
                text::copy("取り出し先が実フォルダではありません"),
            ),
        },
    }
}

/// Those of the first `n` names that are taken in an archive, or those that are not.
pub open spec fn by_taken(
    names: Seq<Txt>,
    inner: Txt,
    existing: Seq<Txt>,
    wanted: bool,
    n: int,
) -> Seq<Txt>
    decreases n,
{
    if n <= 0 {
        Seq::empty()
    } else {
        let before = by_taken(names, inner, existing, wanted, n - 1);
        if is_taken(existing, archive::inner_join(inner, names[n - 1])) == wanted {
            before.push(names[n - 1])
        } else {
            before
        }
    }
}

/// Those of some names that are taken in an archive, or those that are not.
fn part_by_taken(names: &Vec<String>, inner: &str, existing: &Vec<String>, wanted: bool) -> (found:
    Vec<String>)
    ensures
        found.deep_view() == by_taken(
            names.deep_view(),
            inner@,
            existing.deep_view(),
            wanted,
            names@.len() as int,
        ),
{
    let ghost all = names.deep_view();
    let mut found: Vec<String> = Vec::new();
    let mut i: usize = 0;
    assert(found.deep_view() =~= by_taken(all, inner@, existing.deep_view(), wanted, 0));
    while i < names.len()
        invariant
            i <= names.len(),
            all == names.deep_view(),
            found.deep_view() == by_taken(all, inner@, existing.deep_view(), wanted, i as int),
        decreases names.len() - i,
    {
        assert(all[i as int] == names@[i as int]@);
        let target = join_inner(inner, names[i].as_str());
        if taken(existing, target.as_str()) == wanted {
            let ghost before = found.deep_view();
            let name = text::copy(names[i].as_str());
            found.push(name);
            assert(found.deep_view() =~= before.push(name@));
        }
        i += 1;
    }
    found
}

/// What becomes of the wish to add files of one pane to the archive of the other pane, before
/// the user is asked anything.
pub open spec fn add_wish(
    from: Location<Txt>,
    to: Location<Txt>,
    names: Seq<Txt>,
    opened: Result<ArchiveCaps, Txt>,
    existing: Seq<Txt>,
    move_it: bool,
) -> WishModel {
    if names.len() == 0 {
        Wish::NotSelected
    } else {
        match (from, to) {
            (Location::Archive { .. }, _) => Wish::Warn("追加元が実フォルダではありません"@),
            (_, Location::Real(_)) => Wish::Nothing,
            (Location::Real(src_dir), Location::Archive { archive, inner }) => match not_possible(
                opened,
                opened matches Ok(caps) && caps.can_add,
                NO_ADD@,
            ) {
                Some(wish) => wish,
                None => {
                    let taken = by_taken(names, inner, existing, true, names.len() as int);
                    if taken.len() == 0 {
                        Wish::Add {
                            archive,
                            inner,
                            src_dir,
                            names,
                            move_it,
                            mode: ArchiveAddMode::Append,
                        }
                    } else {
                        Wish::AskHow {
                            summary: text::decimal_text(taken.len())
                                + " 個が書庫内の既存と同名です。\n追加方式を選んでください。"@,
                            taken,
                        }
                    }
                },
            },
        }
    }
}

/// What becomes of the wish to add files of one pane to the archive of the other pane, before
/// the user is asked anything.
pub fn add_to_archive(
    from: &Location,
    to: &Location,
    names: &Vec<String>,
    opened: &Result<ArchiveCaps, String>,
    existing: &Vec<String>,
    move_it: bool,
) -> (wish: Wish)
    ensures
        wish@ == add_wish(
            from@,
            to@,
            names.deep_view(),
            opened_of(*opened),
            existing.deep_view(),
            move_it,
        ),
{
    assert(names.deep_view().len() == names.len());
    if names.len() == 0 {
        return Wish::NotSelected;
    }
    match (from, to) {
        (Location::Archive { .. }, _) => Wish::Warn(
            text::copy("追加元が実フォルダではありません"),
        ),
        (_, Location::Real(_)) => Wish::Nothing,
        (Location::Real(src_dir), Location::Archive { archive, inner }) => {
            let can = match opened {
                Ok(caps) => caps.can_add,
                Err(_) => false,
            };
            if let Some(wish) = refusal(opened, can, NO_ADD) {
                return wish;
            }
            let taken = part_by_taken(names, inner.as_str(), existing, true);
            assert(taken.deep_view().len() == taken.len());
            if taken.len() == 0 {
                return Wish::Add {
                    archive: text::copy(archive.as_str()),
                    inner: text::copy(inner.as_str()),
                    src_dir: text::copy(src_dir.as_str()),
                    names: text::copy_all(names),
                    move_it,
                    mode: ArchiveAddMode::Append,
                };
            }
            let count = text::decimal(taken.len() as u64);
            let summary = text::concat(
                count.as_str(),
                " 個が書庫内の既存と同名です。\n追加方式を選んでください。",
            );
            Wish::AskHow { summary, taken }
        },
    }
}

/// What is added to an archive, when the user was asked how: all names where the archive is written
/// anew, else those that are not taken. Where none is left the user is told.
pub open spec fn add_how(
    from: Location<Txt>,
    to: Location<Txt>,
    names: Seq<Txt>,
    existing: Seq<Txt>,
    move_it: bool,
    mode: ArchiveAddMode,
) -> WishModel {
    match (from, to) {
        (Location::Real(src_dir), Location::Archive { archive, inner }) => {
            let free = by_taken(names, inner, existing, false, names.len() as int);
            let taken = by_taken(names, inner, existing, true, names.len() as int);
            let targets = match mode {
                ArchiveAddMode::Append => free,
                ArchiveAddMode::Rebuild => names,
            };
            if targets.len() == 0 {
                Wish::Warn(
                    text::decimal_text(taken.len()) + " 件すべて同名のためスキップしました"@,
                )
            } else {
                Wish::Add { archive, inner, src_dir, names: targets, move_it, mode }
            }
        },
        _ => Wish::Nothing,
    }
}

/// What is added to an archive, when the user was asked how.
pub fn add_targets(
    from: &Location,
    to: &Location,
    names: &Vec<String>,
    existing: &Vec<String>,
    move_it: bool,
    mode: ArchiveAddMode,
) -> (wish: Wish)
    ensures
        wish@ == add_how(
            from@,
            to@,
            names.deep_view(),
            existing.deep_view(),
            move_it,
            mode,
        ),
{
    match (from, to) {
        (Location::Real(src_dir), Location::Archive { archive, inner }) => {
            let targets = match mode {
                ArchiveAddMode::Append => part_by_taken(names, inner.as_str(), existing, false),
                ArchiveAddMode::Rebuild => text::copy_all(names),
            };
            assert(targets.deep_view().len() == targets.len());
            if targets.len() == 0 {
                let taken = part_by_taken(names, inner.as_str(), existing, true);
                assert(taken.deep_view().len() == taken.len());
                let count = text::decimal(taken.len() as u64);
                return Wish::Warn(
                    text::concat(count.as_str(), " 件すべて同名のためスキップしました"),
                );
            }
            Wish::Add {
                archive: text::copy(archive.as_str()),
                inner: text::copy(inner.as_str()),
                src_dir: text::copy(src_dir.as_str()),
                names: targets,
                move_it,
                mode,
            }
        },
        _ => Wish::Nothing,
    }
}

/// An addition to an archive that is under way.
pub enum AddRun {
    /// To the archive as it is.
    Append(PackRun),
    /// To an archive that is written anew.
    Rebuild(RewriteRun),
}

/// A task that adds to an archive: what it is called, what is said of it, and the addition with its
/// first step.
pub struct AddTask {
    pub label: &'static str,
    pub said: String,
    pub run: AddRun,
    pub step: Step,
}

/// Starts to add `names` from `src_dir` to the directory `inner` of an archive, by writing behind it
/// or by writing it anew. `short` names the files in short.
pub fn start_archive_add(
    archive: &str,
    inner: &str,
    src_dir: &str,
    names: Vec<String>,
    move_it: bool,
    mode: ArchiveAddMode,
    short: &str,
    process: u32,
    sequence: u64,
) -> (task: AddTask)
    ensures
        task.label == label_of_addition(move_it),
        task.said@ == short@ + " -> "@ + archive@,
        operation::effects_of(task.step.effects@) == seq![operation::start_line(Verb::Add)],
        match (mode, task.run) {
            (ArchiveAddMode::Append, AddRun::Append(run)) => {
                &&& run.wf()
                &&& run@ == compress::pack_start(
                    src_dir@,
                    names.deep_view(),
                    archive@,
                    inner@,
                    PackJob::Append,
                )
                &&& task.step.ask@ == compress::pack_ask(run@)
            },
            (ArchiveAddMode::Rebuild, AddRun::Rebuild(run)) => {
                &&& run.wf()
                &&& run@ == archive_ops::rebuilding(
                    src_dir@,
                    names.deep_view(),
                    archive@,
                    inner@,
                    process,
                    sequence,
                )
                &&& task.step.ask@ == archive_ops::rewrite_ask(run@)
            },
            _ => false,
        },
{
    let label = add_label(move_it);
    let said = text::concat3(short, " -> ", archive);
    match mode {
        ArchiveAddMode::Append => {
            let (run, step) = compress::run_archive_add(src_dir, names, archive, inner);
            AddTask { label, said, run: AddRun::Append(run), step }
        },
        ArchiveAddMode::Rebuild => {
            let (run, step) = archive_ops::run_archive_rebuild(
                src_dir,
                names,
                archive,
                inner,
                process,
                sequence,
            );
            AddTask { label, said, run: AddRun::Rebuild(run), step }
        },
    }
}

/// What is removed from the disk once files were added to an archive: the files, but only where they
/// were to be moved and all of them were added.
pub open spec fn removed_after(
    move_it: bool,
    src_dir: Txt,
    names: Seq<Txt>,
    summary: OpSummary,
) -> Seq<Txt> {
    if move_it && summary.err == 0 && !summary.cancelled {
        names.map_values(|name: Txt| winpath::path_join(src_dir, name))
    } else {
        Seq::empty()
    }
}

/// What is removed from the disk once files were added to an archive.
pub fn remove_after_add(
    move_it: bool,
    src_dir: &str,
    names: &Vec<String>,
    summary: &OpSummary,
) -> (paths: Vec<String>)
    ensures
        paths.deep_view() == removed_after(move_it, src_dir@, names.deep_view(), *summary),
{
    let mut paths: Vec<String> = Vec::new();
    if !(move_it && summary.err == 0 && !summary.cancelled) {
        assert(paths.deep_view() =~= Seq::<Txt>::empty());
        return paths;
    }
    let ghost all = removed_after(move_it, src_dir@, names.deep_view(), *summary);
    let mut i: usize = 0;
    assert(paths.deep_view() =~= all.take(0));
    while i < names.len()
        invariant
            i <= names.len(),
            all == names.deep_view().map_values(|name: Txt| winpath::path_join(src_dir@, name)),
            paths.deep_view() == all.take(i as int),
        decreases names.len() - i,
    {
        let ghost before = paths.deep_view();
        let path = winpath::join(src_dir, names[i].as_str());
        paths.push(path);
        assert(paths.deep_view() =~= before.push(path@));
        i += 1;
        assert(all.take(i as int) =~= all.take(i - 1).push(path@));
    }
    assert(all.take(all.len() as int) =~= all);
    paths
}

/// What a task that adds to an archive is called.
pub open spec fn label_of_addition(move_it: bool) -> &'static str {
    if move_it {
        "書庫へ移動"
    } else {
        "書庫へ追加"
    }
}

/// What a task that adds to an archive is called.
pub fn add_label(move_it: bool) -> (label: &'static str)
    ensures
        label == label_of_addition(move_it),
{
    if move_it {
        "書庫へ移動"
    } else {
        "書庫へ追加"
    }
}

/// What becomes of the wish to rename a file of an archive: `item` is its name, if it is one
/// that can be renamed; `written` the new name, if the user wrote one.
pub open spec fn rename_wish(
    loc: Location<Txt>,
    opened: Result<ArchiveCaps, Txt>,
    item: Option<Txt>,
    written: Option<Txt>,
    existing: Seq<Txt>,
) -> WishModel {
    match loc {
        Location::Real(_) => Wish::Nothing,
        Location::Archive { archive, inner } => rename_in(
            archive,
            inner,
            opened,
            item,
            written,
            existing,
        ),
    }
}

/// What becomes of the wish to rename a file of the directory `inner` of an archive.
pub open spec fn rename_in(
    archive: Txt,
    inner: Txt,
    opened: Result<ArchiveCaps, Txt>,
    item: Option<Txt>,
    written: Option<Txt>,
    existing: Seq<Txt>,
) -> WishModel {
    match not_possible(opened, opened matches Ok(caps) && caps.can_rename, NO_RENAME@) {
        Some(wish) => wish,
        None => match (item, written) {
            (Some(before), Some(written)) => {
                let after = text::trimmed(written);
                if after.len() == 0 || after == before {
                    Wish::Nothing
                } else if is_taken(existing, archive::inner_join(inner, after)) {
                    Wish::Taken { name: before, why: SAME_NAME@ }
                } else {
                    Wish::Rename { archive, inner, before, after }
                }
            },
            _ => Wish::Nothing,
        },
    }
}

/// The name of the item under the cursor, where it can be renamed: it does not lead up.
pub open spec fn renamable(items: Seq<FileItem>, cursor: usize) -> Option<Txt> {
    if cursor < items.len() && !items[cursor as int].is_parent {
        Some(items[cursor as int].name@)
    } else {
        None
    }
}

/// The name of the item under the cursor, where it can be renamed.
pub fn item_to_rename(items: &Vec<FileItem>, cursor: usize) -> (name: Option<String>)
    ensures
        name.deep_view() == renamable(items@, cursor),
{
    if cursor < items.len() && !items[cursor].is_parent {
        Some(text::copy(items[cursor].name.as_str()))
    } else {
        None
    }
}

/// What becomes of the wish to rename a file of an archive.
pub fn rename_in_archive(
    loc: &Location,
    opened: &Result<ArchiveCaps, String>,
    item: Option<String>,
    written: Option<String>,
    existing: &Vec<String>,
) -> (wish: Wish)
    ensures
        wish@ == rename_wish(
            loc@,
            opened_of(*opened),
            item.deep_view(),
            written.deep_view(),
            existing.deep_view(),
        ),
{
    let (archive, inner) = match loc {
        Location::Real(_) => {
            return Wish::Nothing;
        },
        Location::Archive { archive, inner } => (archive.as_str(), inner.as_str()),
    };
    let can = match opened {
        Ok(caps) => caps.can_rename,
        Err(_) => false,
    };
    if let Some(wish) = refusal(opened, can, NO_RENAME) {
        return wish;
    }
    match (item, written) {
        (Some(before), Some(written)) => {
            let after = text::trim(written.as_str());
            if after.as_str().is_empty() || text::same(after.as_str(), before.as_str()) {
                return Wish::Nothing;
            }
            let target = join_inner(inner, after.as_str());
            if taken(existing, target.as_str()) {
                return Wish::Taken { name: before, why: text::copy(SAME_NAME) };
            }
            Wish::Rename {
                archive: text::copy(archive),
                inner: text::copy(inner),
                before,
                after,
            }
        },
        _ => Wish::Nothing,
    }
}

/// The names of those of the first `n` items that are selected and do not lead up.
pub open spec fn selected_names(items: Seq<FileItem>, n: int) -> Seq<Txt>
    decreases n,
{
    if n <= 0 {
        Seq::empty()
    } else if items[n - 1].selected && !items[n - 1].is_parent {
        selected_names(items, n - 1).push(items[n - 1].name@)
    } else {
        selected_names(items, n - 1)
    }
}

/// The names that are meant: those that are selected, or the one under the cursor where none is.
pub open spec fn names_meant(items: Seq<FileItem>, cursor: usize) -> Seq<Txt> {
    let selected = selected_names(items, items.len() as int);
    if selected.len() > 0 {
        selected
    } else if cursor < items.len() && !items[cursor as int].is_parent {
        seq![items[cursor as int].name@]
    } else {
        Seq::empty()
    }
}

/// The names that are meant.
pub fn selected_or_cursor_names(items: &Vec<FileItem>, cursor: usize) -> (names: Vec<String>)
    ensures
        names.deep_view() == names_meant(items@, cursor),
{
    let mut names: Vec<String> = Vec::new();
    let mut i: usize = 0;
    assert(names.deep_view() =~= selected_names(items@, 0));
    while i < items.len()
        invariant
            i <= items.len(),
            names.deep_view() == selected_names(items@, i as int),
        decreases items.len() - i,
    {
        if items[i].selected && !items[i].is_parent {
            let ghost before = names.deep_view();
            let name = text::copy(items[i].name.as_str());
            names.push(name);
            assert(names.deep_view() =~= before.push(name@));
        }
        i += 1;
    }
    assert(names.deep_view().len() == names.len());
    if names.len() == 0 && cursor < items.len() && !items[cursor].is_parent {
        names.push(text::copy(items[cursor].name.as_str()));
        assert(names.deep_view() =~= seq![items@[cursor as int].name@]);
    }
    names
}

/// What becomes of the wish to remove files of an archive.
pub open spec fn delete_wish(
    loc: Location<Txt>,
    opened: Result<ArchiveCaps, Txt>,
    items: Seq<FileItem>,
    cursor: usize,
    ask: bool,
) -> WishModel {
    match loc {
        Location::Real(_) => Wish::Nothing,
        Location::Archive { archive, inner } => match not_possible(
            opened,
            opened matches Ok(caps) && caps.can_remove,
            NO_REMOVE@,
        ) {
            Some(wish) => wish,
            None => if names_meant(items, cursor).len() == 0 {
                Wish::NotSelected
            } else {
                Wish::Delete { archive, inner, names: names_meant(items, cursor), ask }
            },
        },
    }
}

/// What becomes of the wish to remove files of an archive.
pub fn delete_in_archive(
    loc: &Location,
    opened: &Result<ArchiveCaps, String>,
    items: &Vec<FileItem>,
    cursor: usize,
    ask: bool,
) -> (wish: Wish)
    ensures
        wish@ == delete_wish(loc@, opened_of(*opened), items@, cursor, ask),
{
    let (archive, inner) = match loc {
        Location::Real(_) => {
            return Wish::Nothing;
        },
        Location::Archive { archive, inner } => (archive.as_str(), inner.as_str()),
    };
    let can = match opened {
        Ok(caps) => caps.can_remove,
        Err(_) => false,
    };
    if let Some(wish) = refusal(opened, can, NO_REMOVE) {
        return wish;
    }
    let names = selected_or_cursor_names(items, cursor);
    assert(names.deep_view().len() == names.len());
    if names.len() == 0 {
        return Wish::NotSelected;
    }
    Wish::Delete { archive: text::copy(archive), inner: text::copy(inner), names, ask }
}

/// What is moved into an archive leaves the disk only where the whole addition went well, and then
/// it is exactly what was added.
pub proof fn law_moved_files_go_last(
    move_it: bool,
    src_dir: Txt,
    names: Seq<Txt>,
    summary: OpSummary,
    i: int,
)
    requires
        0 <= i < removed_after(move_it, src_dir, names, summary).len(),
    ensures
        move_it && summary.err == 0 && !summary.cancelled,
        removed_after(move_it, src_dir, names, summary).len() == names.len(),
        removed_after(move_it, src_dir, names, summary)[i] == winpath::path_join(src_dir, names[i]),
{
}

proof fn lemma_parts_are_plain(s: Txt, c: char)
    ensures
        forall|i: int|
            0 <= i < text::nonempty_parts(s, c).len() ==> (#[trigger] text::nonempty_parts(
                s,
                c,
            )[i]).len() > 0 && !text::nonempty_parts(s, c)[i].contains(c),
    decreases s.len(),
{
    text::lemma_first_occurrence(s, c, 0);
    lemma_none_before(s, c, 0);
    match text::first_occurrence(s, c, 0) {
        Some(at) => {
            lemma_parts_are_plain(s.skip(at + 1), c);
            let head = text::kept(s.take(at));
            let tail = text::nonempty_parts(s.skip(at + 1), c);
            assert forall|i: int| 0 <= i < text::nonempty_parts(s, c).len() implies (
            #[trigger] text::nonempty_parts(s, c)[i]).len() > 0 && !text::nonempty_parts(
                s,
                c,
            )[i].contains(c) by {
                if i < head.len() {
                    assert(text::nonempty_parts(s, c)[i] == s.take(at));
                } else {
                    assert(text::nonempty_parts(s, c)[i] == tail[i - head.len()]);
                }
            }
        },
        None => {},
    }
}

proof fn lemma_none_before(s: Txt, c: char, from: int)
    requires
        0 <= from,
    ensures
        match text::first_occurrence(s, c, from) {
            Some(at) => forall|j: int| from <= j < at ==> s[j] != c,
            None => forall|j: int| from <= j < s.len() ==> s[j] != c,
        },
    decreases s.len() - from,
{
    if from < s.len() && s[from] != c {
        lemma_none_before(s, c, from + 1);
    }
}

/// What a file of an archive is unpacked to stays below the directory for the archive: no part
/// of it is empty, stays, goes up, names a drive, or holds a separator.
pub proof fn law_unpacking_stays_inside(inner: Txt, i: int)
    requires
        plain_parts(
            text::nonempty_parts(inner, '/'),
            text::nonempty_parts(inner, '/').len() as int,
        ) is Some,
        0 <= i < plain_parts(
            text::nonempty_parts(inner, '/'),
            text::nonempty_parts(inner, '/').len() as int,
        )->0.len(),
    ensures
        ({
            let parts = text::nonempty_parts(inner, '/');
            let part = plain_parts(parts, parts.len() as int)->0[i];
            &&& part.len() > 0
            &&& part != "."@ && part != ".."@
            &&& !part.contains('/') && !part.contains('\\')
            &&& winpath::path_prefix(part).0 == winpath::PrefixKind::Plain
        }),
{
    let parts = text::nonempty_parts(inner, '/');
    lemma_parts_are_plain(inner, '/');
    lemma_kept_is_plain(parts, parts.len() as int, i);
}

proof fn lemma_kept_is_plain(parts: Seq<Txt>, n: int, i: int)
    requires
        n <= parts.len(),
        plain_parts(parts, n) is Some,
        0 <= i < plain_parts(parts, n)->0.len(),
    ensures
        ({
            let part = plain_parts(parts, n)->0[i];
            part != "."@ && !leads_out(part) && exists|j: int| 0 <= j < n && part == #[trigger] parts[j]
        }),
    decreases n,
{
    if n > 0 {
        let before = plain_parts(parts, n - 1)->0;
        if i < before.len() {
            lemma_kept_is_plain(parts, n - 1, i);
        } else {
            assert(plain_parts(parts, n)->0[i] == parts[n - 1]);
        }
    }
}

/// What was unpacked is kept or removed, and nothing is both or neither: as many are kept and
/// removed as there were.
pub proof fn law_cleanup_parts_everything(dirs: Seq<TempDir>, locs: Seq<Location>, n: int)
    requires
        0 <= n <= dirs.len(),
    ensures
        sorted_out(dirs, locs, true, n).len() + sorted_out(dirs, locs, false, n).len() == n,
        forall|i: int|
            0 <= i < sorted_out(dirs, locs, true, n).len() ==> is_used(
                locs,
                (#[trigger] sorted_out(dirs, locs, true, n)[i]).archive@,
            ),
        forall|i: int|
            0 <= i < sorted_out(dirs, locs, false, n).len() ==> !is_used(
                locs,
                (#[trigger] sorted_out(dirs, locs, false, n)[i]).archive@,
            ),
    decreases n,
{
    if n > 0 {
        law_cleanup_parts_everything(dirs, locs, n - 1);
    }
}

/// Adding to an archive without writing it anew touches no name that is taken.
pub proof fn law_appending_takes_no_name(names: Seq<Txt>, inner: Txt, existing: Seq<Txt>, n: int, i: int)
    requires
        0 <= n <= names.len(),
        0 <= i < by_taken(names, inner, existing, false, n).len(),
    ensures
        !is_taken(
            existing,
            archive::inner_join(inner, by_taken(names, inner, existing, false, n)[i]),
        ),
    decreases n,
{
    if n > 0 {
        let before = by_taken(names, inner, existing, false, n - 1);
        if i < before.len() {
            law_appending_takes_no_name(names, inner, existing, n - 1, i);
        }
    }
}

/// How often the user may still be asked for a password.
pub open spec fn prompts_left(state: EntryStateModel) -> int {
    match state {
        EntryState::Prompting { left } => left as int,
        EntryState::Trying { left, .. } => left - 1,
        EntryState::Done { .. } | EntryState::FromDisk { .. } | EntryState::Plain => 0,
        _ => PASSWORD_TRIES as int,
    }
}

/// The user is asked for a password no more than three times: each answer uses one up, and no
/// step gives more.
pub proof fn law_password_tries_are_limited(
    state: EntryStateModel,
    cached: Option<Txt>,
    reply: EntryReplyModel,
)
    requires
        state matches EntryState::Prompting { left } ==> 0 < left <= PASSWORD_TRIES,
        state matches EntryState::Trying { left, .. } ==> 0 < left <= PASSWORD_TRIES,
    ensures
        ({
            let next = entry_next(state, cached, reply).0;
            &&& 0 <= prompts_left(next) <= prompts_left(state)
            &&& next matches EntryState::Prompting { left } ==> 0 < left <= PASSWORD_TRIES
            &&& next matches EntryState::Trying { left, .. } ==> 0 < left <= PASSWORD_TRIES
            &&& state is Prompting && next is Trying ==> prompts_left(next) < prompts_left(state)
        }),
{
}

/// A file that is unpacked gets its name only when all of it was written under another one: it
/// is renamed right after that, and what is written is what was read.
pub proof fn law_unpacked_files_are_whole(
    at: UnpackAtModel,
    path: Txt,
    scratch: Txt,
    reply: UnpackReplyModel,
)
    ensures
        ({
            let next = unpack_next(at, path, reply);
            &&& next is Renaming && !(at is Renaming) ==> {
                &&& unpack_ask(at, path, scratch) matches UnpackAsk::Write { path: to, .. }
                    && to == scratch
                &&& reply matches UnpackReply::Outcome(why) && why is None
            }
            &&& next is Writing && !(at is Writing) ==> {
                &&& at is Reading
                &&& reply matches UnpackReply::Contents(Contents::Bytes(read)) && unpack_ask(
                    next,
                    path,
                    scratch,
                ) == (UnpackAsk::Write { path: scratch, bytes: read })
            }
        }),
{
}

/// A password is kept only where a file was read with it.
pub proof fn law_only_right_passwords_are_kept(
    state: EntryStateModel,
    cached: Option<Txt>,
    reply: EntryReplyModel,
)
    ensures
        entry_next(state, cached, reply).1 matches EntryEffect::Remember { password } ==> {
            &&& state matches EntryState::Trying { password: tried, .. } && tried == password
            &&& reply matches EntryReply::Contents(Contents::Bytes(_))
        },
{
}

} // verus!
