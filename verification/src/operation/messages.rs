//! The log lines of file operations.

use crate::text;
use crate::operation::Txt;
use vstd::prelude::*;

verus! {

/// What an operation does, as the log calls it.
#[derive(Clone, Copy, Debug, PartialEq, Eq, Structural)]
pub enum Verb {
    Copy,
    Move,
    Delete,
    Extract,
    Compress,
    Add,
    Rename,
}

/// A log line.
#[derive(Clone, Debug, PartialEq, Eq)]
pub enum Message<S = String> {
    /// The operation begins.
    Started(Verb),
    /// The operation ended without an error.
    Finished(Verb),
    /// The operation ended with errors.
    FinishedWithErrors(Verb),
    /// The operation was stopped.
    Aborted(Verb),
    /// The counts of an operation that writes.
    CopyResult { ok: usize, skip: usize, err: usize },
    /// The counts of an operation that deletes.
    DeleteResult { ok: usize, err: usize },
    /// One item is being dealt with.
    Item(Verb, S),
    /// One item is being dealt with, and how far that is.
    ItemProgress(Verb, S, u32),
    /// One item could not be dealt with, and why.
    Failure(Verb, S, S),
    /// Source and destination are the same.
    SamePath(Verb, S),
    /// A directory would be written below itself.
    IntoSelf(Verb, S),
    /// One of source and destination is a directory, the other is not.
    KindMismatch(Verb, S),
    /// The directory is there already.
    AlreadyExists(S),
    CreateDirectory(S),
    CreateDirectoryFailure(S, S),
    DeleteDirectory(S),
    /// The item is left out.
    Skip(S),
    /// A link cannot be made again, so it is left out.
    SkipLink(Verb, S),
    /// One name becomes another.
    Renamed(S, S),
    /// The archive is being written anew.
    Rebuild,
    RebuildProgress(u32),
    /// The archive could not be changed, and why.
    UpdateFailure(S, S),
    /// How many items were measured so far.
    Measuring(u64),
    /// How many items were measured in all.
    MeasuredAll(u64),
}

/// The name of an operation in the log.
pub open spec fn verb_label(v: Verb) -> &'static str {
    match v {
        Verb::Copy => "コピー",
        Verb::Move => "移動",
        Verb::Delete => "削除",
        Verb::Extract => "展開",
        Verb::Compress => "圧縮",
        Verb::Add => "追加",
        Verb::Rename => "改名",
    }
}

/// The word that starts the line of a single item.
pub open spec fn verb_word(v: Verb) -> &'static str {
    match v {
        Verb::Copy | Verb::Extract => "Copy",
        Verb::Move => "Move",
        Verb::Delete => "Delete",
        Verb::Compress => "Compress",
        Verb::Add => "Add",
        Verb::Rename => "Rename",
    }
}

/// The name of an operation in the log.
pub fn label_of(v: Verb) -> (label: &'static str)
    ensures
        label == verb_label(v),
{
    match v {
        Verb::Copy => "コピー",
        Verb::Move => "移動",
        Verb::Delete => "削除",
        Verb::Extract => "展開",
        Verb::Compress => "圧縮",
        Verb::Add => "追加",
        Verb::Rename => "改名",
    }
}

/// The word that starts the line of a single item.
pub fn word_of(v: Verb) -> (word: &'static str)
    ensures
        word == verb_word(v),
{
    match v {
        Verb::Copy | Verb::Extract => "Copy",
        Verb::Move => "Move",
        Verb::Delete => "Delete",
        Verb::Compress => "Compress",
        Verb::Add => "Add",
        Verb::Rename => "Rename",
    }
}

/// The text of a log line.
pub open spec fn message_text(m: Message<Txt>) -> Txt {
    match m {
        Message::Started(v) => verb_label(v)@ + "開始"@,
        Message::Finished(v) => verb_label(v)@ + "終了"@,
        Message::FinishedWithErrors(v) => verb_label(v)@ + "警告終了"@,
        Message::Aborted(v) => verb_label(v)@ + "中止"@,
        Message::CopyResult { ok, skip, err } => text::decimal_text(ok as nat) + " Success, "@ + text::decimal_text(skip as nat) + " Skip, "@ + text::decimal_text(err as nat) + " Error"@,
        Message::DeleteResult { ok, err } => text::decimal_text(ok as nat) + " Success, "@ + text::decimal_text(err as nat) + " Error"@,
        Message::Item(v, name) => verb_word(v)@ + " "@ + name,
        Message::ItemProgress(v, name, pct) => verb_word(v)@ + " "@ + name + " "@ + text::decimal_text(pct as nat) + "%"@,
        Message::Failure(v, name, reason) => name + " の"@ + verb_label(v)@ + "に失敗しました: "@ + reason,
        Message::SamePath(v, name) => verb_label(v)@ + "先が同じです: "@ + name,
        Message::IntoSelf(v, name) => name + " を自身の下へは"@ + verb_label(v)@ + "できません"@,
        Message::KindMismatch(v, name) => "ディレクトリ属性が異なるため"@ + verb_label(v)@ + "しません: "@ + name,
        Message::AlreadyExists(name) => "すでに存在します: "@ + name,
        Message::CreateDirectory(name) => "CreateDirectory "@ + name,
        Message::CreateDirectoryFailure(name, reason) => name + " の作成に失敗しました: "@ + reason,
        Message::DeleteDirectory(name) => "DeleteDirectory "@ + name,
        Message::Skip(name) => "Skip "@ + name,
        Message::SkipLink(v, name) => "リンクの"@ + verb_label(v)@ + "を飛ばしました: "@ + name,
        Message::Renamed(from, to) => "Rename "@ + from + " -> "@ + to,
        Message::Rebuild => "書庫を再構築中"@,
        Message::RebuildProgress(pct) => "書庫を再構築中 "@ + text::decimal_text(pct as nat) + "%"@,
        Message::UpdateFailure(name, reason) => name + " の更新に失敗しました: "@ + reason,
        Message::Measuring(n) => "使用量計算中… "@ + text::decimal_text(n as nat) + "件"@,
        Message::MeasuredAll(n) => "使用量計算完了 "@ + text::decimal_text(n as nat) + "件"@,
    }
}

impl View for Message<String> {
    type V = Message<Txt>;

    open spec fn view(&self) -> Message<Txt> {
        match *self {
            Message::Started(v) => Message::Started(v),
            Message::Finished(v) => Message::Finished(v),
            Message::FinishedWithErrors(v) => Message::FinishedWithErrors(v),
            Message::Aborted(v) => Message::Aborted(v),
            Message::CopyResult { ok, skip, err } => Message::CopyResult { ok, skip, err },
            Message::DeleteResult { ok, err } => Message::DeleteResult { ok, err },
            Message::Item(v, name) => Message::Item(v, name@),
            Message::ItemProgress(v, name, pct) => Message::ItemProgress(v, name@, pct),
            Message::Failure(v, name, reason) => Message::Failure(v, name@, reason@),
            Message::SamePath(v, name) => Message::SamePath(v, name@),
            Message::IntoSelf(v, name) => Message::IntoSelf(v, name@),
            Message::KindMismatch(v, name) => Message::KindMismatch(v, name@),
            Message::AlreadyExists(name) => Message::AlreadyExists(name@),
            Message::CreateDirectory(name) => Message::CreateDirectory(name@),
            Message::CreateDirectoryFailure(name, reason) => Message::CreateDirectoryFailure(name@, reason@),
            Message::DeleteDirectory(name) => Message::DeleteDirectory(name@),
            Message::Skip(name) => Message::Skip(name@),
            Message::SkipLink(v, name) => Message::SkipLink(v, name@),
            Message::Renamed(from, to) => Message::Renamed(from@, to@),
            Message::Rebuild => Message::Rebuild,
            Message::RebuildProgress(pct) => Message::RebuildProgress(pct),
            Message::UpdateFailure(name, reason) => Message::UpdateFailure(name@, reason@),
            Message::Measuring(n) => Message::Measuring(n),
            Message::MeasuredAll(n) => Message::MeasuredAll(n),
        }
    }
}

impl Message<String> {
    /// The text of this log line.
    pub fn text(&self) -> (line: String)
        ensures
            line@ == message_text(self@),
    {
        let mut line = String::new();
        match self {
            Message::Started(v) => {
                line.append(label_of(*v));
                line.append("開始");
            },
            Message::Finished(v) => {
                line.append(label_of(*v));
                line.append("終了");
            },
            Message::FinishedWithErrors(v) => {
                line.append(label_of(*v));
                line.append("警告終了");
            },
            Message::Aborted(v) => {
                line.append(label_of(*v));
                line.append("中止");
            },
            Message::CopyResult { ok, skip, err } => {
                line.append(text::decimal(*ok as u64).as_str());
                line.append(" Success, ");
                line.append(text::decimal(*skip as u64).as_str());
                line.append(" Skip, ");
                line.append(text::decimal(*err as u64).as_str());
                line.append(" Error");
            },
            Message::DeleteResult { ok, err } => {
                line.append(text::decimal(*ok as u64).as_str());
                line.append(" Success, ");
                line.append(text::decimal(*err as u64).as_str());
                line.append(" Error");
            },
            Message::Item(v, name) => {
                line.append(word_of(*v));
                line.append(" ");
                line.append(name.as_str());
            },
            Message::ItemProgress(v, name, pct) => {
                line.append(word_of(*v));
                line.append(" ");
                line.append(name.as_str());
                line.append(" ");
                line.append(text::decimal(*pct as u64).as_str());
                line.append("%");
            },
            Message::Failure(v, name, reason) => {
                line.append(name.as_str());
                line.append(" の");
                line.append(label_of(*v));
                line.append("に失敗しました: ");
                line.append(reason.as_str());
            },
            Message::SamePath(v, name) => {
                line.append(label_of(*v));
                line.append("先が同じです: ");
                line.append(name.as_str());
            },
            Message::IntoSelf(v, name) => {
                line.append(name.as_str());
                line.append(" を自身の下へは");
                line.append(label_of(*v));
                line.append("できません");
            },
            Message::KindMismatch(v, name) => {
                line.append("ディレクトリ属性が異なるため");
                line.append(label_of(*v));
                line.append("しません: ");
                line.append(name.as_str());
            },
            Message::AlreadyExists(name) => {
                line.append("すでに存在します: ");
                line.append(name.as_str());
            },
            Message::CreateDirectory(name) => {
                line.append("CreateDirectory ");
                line.append(name.as_str());
            },
            Message::CreateDirectoryFailure(name, reason) => {
                line.append(name.as_str());
                line.append(" の作成に失敗しました: ");
                line.append(reason.as_str());
            },
            Message::DeleteDirectory(name) => {
                line.append("DeleteDirectory ");
                line.append(name.as_str());
            },
            Message::Skip(name) => {
                line.append("Skip ");
                line.append(name.as_str());
            },
            Message::SkipLink(v, name) => {
                line.append("リンクの");
                line.append(label_of(*v));
                line.append("を飛ばしました: ");
                line.append(name.as_str());
            },
            Message::Renamed(from, to) => {
                line.append("Rename ");
                line.append(from.as_str());
                line.append(" -> ");
                line.append(to.as_str());
            },
            Message::Rebuild => {
                line.append("書庫を再構築中");
            },
            Message::RebuildProgress(pct) => {
                line.append("書庫を再構築中 ");
                line.append(text::decimal(*pct as u64).as_str());
                line.append("%");
            },
            Message::UpdateFailure(name, reason) => {
                line.append(name.as_str());
                line.append(" の更新に失敗しました: ");
                line.append(reason.as_str());
            },
            Message::Measuring(n) => {
                line.append("使用量計算中… ");
                line.append(text::decimal(*n as u64).as_str());
                line.append("件");
            },
            Message::MeasuredAll(n) => {
                line.append("使用量計算完了 ");
                line.append(text::decimal(*n as u64).as_str());
                line.append("件");
            },
        }
        assert(line@ =~= message_text(self@));
        line
    }
}

} // verus!
