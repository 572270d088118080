//! Adding files and directories to an archive that is open for writing.

use crate::archive;
use crate::operation;
use crate::operation::messages::{Message, Verb};
use crate::operation::{
    and, nothing, Ask, Effect, LogLevel, OpSummary, ProgressHandle, ProgressTracker, Reply, Txt,
};
use crate::text;
use crate::winpath;
use vstd::prelude::*;

verus! {

/// How a file gets into the archive.
#[derive(Clone, Copy, Debug, PartialEq, Eq, Structural)]
pub enum AddStyle {
    /// The file is read to its end before its line is logged, and what was read is added in one go.
    ReadFirst,
    /// The file is opened before its line is logged, and added in one go.
    Whole,
    /// The line is logged, and the file is opened and added in one go.
    Streamed,
    /// The file is added piece by piece, and its line shows how far that is.
    Pieces,
}

/// A directory whose entries are being added.
pub struct AddFrame<S = String> {
    pub src: S,
    pub rel: S,
}

/// A file or directory that is being added: where it is, what it is called in the archive,
/// and what the log calls it.
pub struct Added<S = String> {
    pub src: S,
    pub rel: S,
    pub name: S,
}

/// How far a file has been written.
#[derive(Clone, Copy, Debug, PartialEq, Eq, Structural)]
pub struct Written {
    pub handle: ProgressHandle,
    pub tracker: ProgressTracker,
    pub done: u64,
    pub total: u64,
}

/// What an addition is waiting for.
pub enum AddPhase<S = String> {
    /// Whether to go on with the next name.
    NextName,
    IsDir { item: Added<S> },
    AddDir { item: Added<S> },
    OpenDir { item: Added<S> },
    /// The next entry of the innermost directory.
    NextEntry,
    /// Whether to go on with the entry.
    PollEntry { entry: Option<S> },
    /// The file being read to its end.
    ReadWhole { item: Added<S> },
    /// The file being opened.
    Open { item: Added<S> },
    /// The file being added in one go.
    AddFile { item: Added<S> },
    /// The log line of the file.
    Begin { item: Added<S>, total: u64 },
    /// The entry being started.
    StartEntry { item: Added<S>, written: Written },
    /// The next piece being read.
    Read { item: Added<S>, written: Written },
    /// The piece of this size being written.
    Write { item: Added<S>, written: Written, piece: u64 },
    /// How long it has taken so far.
    Clock { item: Added<S>, written: Written },
    /// All names were dealt with, or the addition was stopped.
    Finished,
}

/// The part of an addition that outlives a single question.
pub struct AddCore {
    pub src_dir: String,
    pub names: Vec<String>,
    /// The directory of the archive that the names go to.
    pub prefix: String,
    pub style: AddStyle,
    pub verb: Verb,
    pub next: usize,
    pub frames: Vec<AddFrame>,
    pub sum: OpSummary,
}

/// An addition that is under way.
pub struct Adder {
    pub core: AddCore,
    pub phase: AddPhase,
}

/// An addition's lasting part in specifications.
pub struct AddCoreModel {
    pub src_dir: Txt,
    pub names: Seq<Txt>,
    pub prefix: Txt,
    pub style: AddStyle,
    pub verb: Verb,
    pub next: int,
    pub frames: Seq<AddFrame<Txt>>,
    pub sum: OpSummary,
}

/// An addition in specifications.
pub struct AddModel {
    pub core: AddCoreModel,
    pub phase: AddPhase<Txt>,
}

impl View for AddFrame<String> {
    type V = AddFrame<Txt>;

    open spec fn view(&self) -> AddFrame<Txt> {
        AddFrame { src: self.src@, rel: self.rel@ }
    }
}

/// The directories of an addition, as a specification reads them.
pub open spec fn frames_of(frames: Seq<AddFrame>) -> Seq<AddFrame<Txt>> {
    frames.map_values(|f: AddFrame| f@)
}

impl View for Added<String> {
    type V = Added<Txt>;

    open spec fn view(&self) -> Added<Txt> {
        Added { src: self.src@, rel: self.rel@, name: self.name@ }
    }
}

impl View for AddCore {
    type V = AddCoreModel;

    open spec fn view(&self) -> AddCoreModel {
        AddCoreModel {
            src_dir: self.src_dir@,
            names: self.names.deep_view(),
            prefix: self.prefix@,
            style: self.style,
            verb: self.verb,
            next: self.next as int,
            frames: frames_of(self.frames@),
            sum: self.sum,
        }
    }
}

impl View for AddPhase<String> {
    type V = AddPhase<Txt>;

    open spec fn view(&self) -> AddPhase<Txt> {
        match *self {
            AddPhase::NextName => AddPhase::NextName,
            AddPhase::IsDir { item } => AddPhase::IsDir { item: item@ },
            AddPhase::AddDir { item } => AddPhase::AddDir { item: item@ },
            AddPhase::OpenDir { item } => AddPhase::OpenDir { item: item@ },
            AddPhase::NextEntry => AddPhase::NextEntry,
            AddPhase::PollEntry { entry } => AddPhase::PollEntry { entry: entry.deep_view() },
            AddPhase::ReadWhole { item } => AddPhase::ReadWhole { item: item@ },
            AddPhase::Open { item } => AddPhase::Open { item: item@ },
            AddPhase::AddFile { item } => AddPhase::AddFile { item: item@ },
            AddPhase::Begin { item, total } => AddPhase::Begin { item: item@, total },
            AddPhase::StartEntry { item, written } => AddPhase::StartEntry { item: item@, written },
            AddPhase::Read { item, written } => AddPhase::Read { item: item@, written },
            AddPhase::Write { item, written, piece } => AddPhase::Write {
                item: item@,
                written,
                piece,
            },
            AddPhase::Clock { item, written } => AddPhase::Clock { item: item@, written },
            AddPhase::Finished => AddPhase::Finished,
        }
    }
}

impl View for Adder {
    type V = AddModel;

    open spec fn view(&self) -> AddModel {
        AddModel { core: self.core@, phase: self.phase@ }
    }
}

/// The outcome of a step: the next state, and what is to be carried out.
pub type AddOutcome = (AddModel, Seq<Effect<Txt>>);

/// An outcome with `first` carried out before it.
pub open spec fn preceded(first: Seq<Effect<Txt>>, rest: AddOutcome) -> AddOutcome {
    (rest.0, first + rest.1)
}

/// On to another question, with nothing to carry out.
pub open spec fn wait_for(core: AddCoreModel, phase: AddPhase<Txt>) -> AddOutcome {
    (AddModel { core, phase }, Seq::empty())
}

/// The addition is stopped.
pub open spec fn cancelled(core: AddCoreModel) -> AddOutcome {
    wait_for(AddCoreModel { sum: core.sum.stopped(), ..core }, AddPhase::Finished)
}

/// An item is done: on to the next entry, the next name, or the end.
pub open spec fn after_item(core: AddCoreModel) -> AddOutcome {
    if core.frames.len() > 0 {
        wait_for(core, AddPhase::NextEntry)
    } else if core.next < core.names.len() {
        wait_for(core, AddPhase::NextName)
    } else {
        wait_for(core, AddPhase::Finished)
    }
}

/// An item could not be added.
pub open spec fn erred(core: AddCoreModel, item: Added<Txt>, reason: Txt) -> AddOutcome {
    preceded(
        seq![Effect::Log(LogLevel::Error, Message::Failure(core.verb, item.name, reason))],
        after_item(AddCoreModel { sum: core.sum.plus_err(), ..core }),
    )
}

/// A file that was being added piece by piece could not be added.
pub open spec fn broke_off(
    core: AddCoreModel,
    item: Added<Txt>,
    handle: ProgressHandle,
    reason: Txt,
) -> AddOutcome {
    preceded(
        seq![Effect::EndProgress(handle, Message::Item(core.verb, item.name))],
        erred(core, item, reason),
    )
}

/// A file is being added in one go.
pub open spec fn adding(core: AddCoreModel, item: Added<Txt>) -> AddOutcome {
    preceded(
        seq![Effect::Log(LogLevel::Normal, Message::Item(core.verb, item.name))],
        wait_for(core, AddPhase::AddFile { item }),
    )
}

/// The item with the source path `src` that is called `rel` in the archive.
pub open spec fn item_at(src: Txt, rel: Txt) -> Added<Txt> {
    Added { src, rel, name: winpath::path_display_name(src) }
}

/// A file that has been written this far, and `piece` more.
pub open spec fn farther(written: Written, piece: u64) -> Written {
    Written {
        done: if written.done + piece <= u64::MAX {
            (written.done + piece) as u64
        } else {
            u64::MAX
        },
        ..written
    }
}

/// How far a file is, is shown if it is due.
pub open spec fn shown(
    core: AddCoreModel,
    item: Added<Txt>,
    written: Written,
    seconds: u64,
) -> AddOutcome {
    let line = match written.tracker.due(seconds, written.done, written.total) {
        Some(pct) => seq![
            Effect::UpdateProgress(
                written.handle,
                Message::ItemProgress(core.verb, item.name, pct),
            ),
        ],
        None => Seq::empty(),
    };
    (
        AddModel {
            core,
            phase: AddPhase::Read {
                item,
                written: Written {
                    tracker: written.tracker.after(seconds, written.done, written.total),
                    ..written
                },
            },
        },
        line,
    )
}

/// What an addition does with a reply. A reply that does not answer the question changes
/// nothing.
pub open spec fn add_step(state: AddModel, reply: Reply<Txt>) -> AddOutcome {
    let core = state.core;
    match (state.phase, reply) {
        (AddPhase::NextName, Reply::Flag(stop)) => if stop {
            cancelled(core)
        } else {
            let name = core.names[core.next];
            wait_for(
                AddCoreModel { next: core.next + 1, ..core },
                AddPhase::IsDir {
                    item: item_at(
                        winpath::path_join(core.src_dir, name),
                        archive::inner_join(core.prefix, name),
                    ),
                },
            )
        },
        (AddPhase::IsDir { item }, Reply::Flag(is_dir)) => if is_dir {
            wait_for(core, AddPhase::AddDir { item })
        } else if core.style == AddStyle::Streamed {
            adding(core, item)
        } else if core.style == AddStyle::ReadFirst {
            wait_for(core, AddPhase::ReadWhole { item })
        } else {
            wait_for(core, AddPhase::Open { item })
        },
        (AddPhase::AddDir { item }, Reply::Done) => wait_for(core, AddPhase::OpenDir { item }),
        (AddPhase::AddDir { item }, Reply::Failed(reason)) => erred(core, item, reason),
        (AddPhase::OpenDir { item }, Reply::Done) => wait_for(
            AddCoreModel {
                frames: core.frames.push(AddFrame { src: item.src, rel: item.rel }),
                ..core
            },
            AddPhase::NextEntry,
        ),
        (AddPhase::OpenDir { item }, Reply::Failed(reason)) => erred(core, item, reason),
        (AddPhase::NextEntry, Reply::Entry(name)) => wait_for(
            core,
            AddPhase::PollEntry { entry: Some(name) },
        ),
        (AddPhase::NextEntry, Reply::Unreadable) => wait_for(
            core,
            AddPhase::PollEntry { entry: None },
        ),
        (AddPhase::NextEntry, Reply::End) => after_item(
            AddCoreModel { frames: core.frames.drop_last(), ..core },
        ),
        (AddPhase::PollEntry { entry }, Reply::Flag(stop)) => if stop {
            cancelled(core)
        } else {
            match entry {
                Some(name) => wait_for(
                    core,
                    AddPhase::IsDir {
                        item: item_at(
                            winpath::path_join(core.frames.last().src, name),
                            core.frames.last().rel.push('/') + name,
                        ),
                    },
                ),
                None => after_item(core),
            }
        },
        (AddPhase::ReadWhole { item }, Reply::Done) => adding(core, item),
        (AddPhase::ReadWhole { item }, Reply::Failed(reason)) => erred(core, item, reason),
        (AddPhase::Open { item }, Reply::Opened(total)) => if core.style == AddStyle::Pieces {
            wait_for(core, AddPhase::Begin { item, total })
        } else {
            adding(core, item)
        },
        (AddPhase::Open { item }, Reply::Failed(reason)) => erred(core, item, reason),
        (AddPhase::AddFile { item }, Reply::Done) => after_item(
            AddCoreModel { sum: core.sum.plus_ok(), ..core },
        ),
        (AddPhase::AddFile { item }, Reply::Failed(reason)) => erred(core, item, reason),
        (AddPhase::Begin { item, total }, Reply::Handle(handle)) => wait_for(
            core,
            AddPhase::StartEntry {
                item,
                written: Written { handle, tracker: operation::fresh_tracker(), done: 0, total },
            },
        ),
        (AddPhase::StartEntry { item, written }, Reply::Done) => wait_for(
            core,
            AddPhase::Read { item, written },
        ),
        (AddPhase::StartEntry { item, written }, Reply::Failed(reason)) => broke_off(
            core,
            item,
            written.handle,
            reason,
        ),
        (AddPhase::Read { item, written }, Reply::Bytes(piece)) => if piece == 0 {
            preceded(
                seq![Effect::EndProgress(written.handle, Message::Item(core.verb, item.name))],
                after_item(AddCoreModel { sum: core.sum.plus_ok(), ..core }),
            )
        } else {
            wait_for(core, AddPhase::Write { item, written, piece })
        },
        (AddPhase::Read { item, written }, Reply::Failed(reason)) => broke_off(
            core,
            item,
            written.handle,
            reason,
        ),
        (AddPhase::Write { item, written, piece }, Reply::Done) => wait_for(
            core,
            AddPhase::Clock { item, written: farther(written, piece) },
        ),
        (AddPhase::Write { item, written, piece }, Reply::Failed(reason)) => broke_off(
            core,
            item,
            written.handle,
            reason,
        ),
        (AddPhase::Clock { item, written }, Reply::Seconds(seconds)) => shown(
            core,
            item,
            written,
            seconds,
        ),
        _ => (state, Seq::empty()),
    }
}

/// The question that an addition waits to have answered.
pub open spec fn add_ask(state: AddModel) -> Ask<Txt> {
    match state.phase {
        AddPhase::NextName | AddPhase::PollEntry { .. } => Ask::Stop,
        AddPhase::IsDir { item } => Ask::IsDir(item.src),
        AddPhase::AddDir { item } => Ask::AddDir { src: item.src, rel: item.rel },
        AddPhase::OpenDir { item } => Ask::OpenDir(item.src),
        AddPhase::NextEntry => Ask::NextEntry(state.core.frames.last().src),
        AddPhase::ReadWhole { item } => Ask::ReadSource(item.src),
        AddPhase::Open { item } => Ask::OpenSource(item.src),
        AddPhase::AddFile { item } => if state.core.style == AddStyle::ReadFirst {
            Ask::AddRead(item.rel)
        } else {
            Ask::AddFile { src: item.src, rel: item.rel }
        },
        AddPhase::Begin { item, .. } => Ask::BeginProgress(
            LogLevel::Normal,
            Message::Item(state.core.verb, item.name),
        ),
        AddPhase::StartEntry { item, .. } => Ask::StartEntry(item.rel),
        AddPhase::Read { .. } => Ask::ReadChunk,
        AddPhase::Write { .. } => Ask::WriteChunk,
        AddPhase::Clock { .. } => Ask::Elapsed,
        AddPhase::Finished => Ask::Finish,
    }
}

/// What holds of every addition that is under way.
pub open spec fn add_wf(state: AddModel) -> bool {
    &&& 0 <= state.core.next <= state.core.names.len()
    &&& state.phase is NextName ==> state.core.next < state.core.names.len()
    &&& state.phase is NextEntry || state.phase is PollEntry ==> state.core.frames.len() > 0
}

/// The state of an addition before its first reply.
pub open spec fn add_start(
    src_dir: Txt,
    names: Seq<Txt>,
    prefix: Txt,
    style: AddStyle,
    verb: Verb,
    sum: OpSummary,
) -> AddModel {
    after_item(
        AddCoreModel { src_dir, names, prefix, style, verb, next: 0, frames: Seq::empty(), sum },
    ).0
}

proof fn lemma_nothing_first()
    ensures
        forall|rest: AddOutcome| #[trigger] preceded(Seq::empty(), rest) == rest,
{
    assert forall|rest: AddOutcome| #[trigger] preceded(Seq::empty(), rest) == rest by {
        assert(Seq::<Effect<Txt>>::empty() + rest.1 =~= rest.1);
    }
}

impl Adder {
    /// What holds of every addition that is under way.
    pub open spec fn wf(self) -> bool {
        add_wf(self@)
    }

    /// The addition is stopped.
    fn cancel(core: AddCore) -> (out: (Adder, Vec<Effect>))
        requires
            core.next <= core.names.len(),
        ensures
            (out.0@, operation::effects_of(out.1@)) == cancelled(core@),
            out.0.wf(),
    {
        assert(core@.names.len() == core.names.len());
        let stopped = AddCore { sum: core.sum.with_stop(), ..core };
        (Adder { core: stopped, phase: AddPhase::Finished }, nothing())
    }

    /// An item is done.
    fn next_item(core: AddCore, effects: Vec<Effect>) -> (out: (Adder, Vec<Effect>))
        requires
            core.next <= core.names.len(),
        ensures
            (out.0@, operation::effects_of(out.1@)) == preceded(
                operation::effects_of(effects@),
                after_item(core@),
            ),
            out.0.wf(),
    {
        proof {
            let e = operation::effects_of(effects@);
            assert(e + Seq::<Effect<Txt>>::empty() =~= e);
            assert(core@.names.len() == core.names.len());
        }
        if core.frames.len() > 0 {
            (Adder { core, phase: AddPhase::NextEntry }, effects)
        } else if core.next < core.names.len() {
            (Adder { core, phase: AddPhase::NextName }, effects)
        } else {
            (Adder { core, phase: AddPhase::Finished }, effects)
        }
    }

    /// An item could not be added.
    fn fail_item(core: AddCore, item: Added, reason: String, effects: Vec<Effect>) -> (out: (
        Adder,
        Vec<Effect>,
    ))
        requires
            core.next <= core.names.len(),
        ensures
            (out.0@, operation::effects_of(out.1@)) == preceded(
                operation::effects_of(effects@),
                erred(core@, item@, reason@),
            ),
            out.0.wf(),
    {
        let line = Effect::Log(LogLevel::Error, Message::Failure(core.verb, item.name, reason));
        proof {
            let e = operation::effects_of(effects@);
            let rest = after_item(AddCoreModel { sum: core@.sum.plus_err(), ..core@ }).1;
            assert(e.push(line@) + rest =~= e + (seq![line@] + rest));
        }
        let more = and(effects, line);
        Adder::next_item(AddCore { sum: core.sum.with_err(), ..core }, more)
    }

    /// A file that was being added piece by piece could not be added.
    fn break_off(core: AddCore, item: Added, handle: ProgressHandle, reason: String) -> (out: (
        Adder,
        Vec<Effect>,
    ))
        requires
            core.next <= core.names.len(),
        ensures
            (out.0@, operation::effects_of(out.1@)) == broke_off(core@, item@, handle, reason@),
            out.0.wf(),
    {
        let line = Effect::EndProgress(handle, Message::Item(core.verb, item.name.clone()));
        let effects = and(nothing(), line);
        assert(operation::effects_of(effects@) =~= seq![line@]);
        Adder::fail_item(core, item, reason, effects)
    }

    /// A file is being added in one go.
    fn add_whole(core: AddCore, item: Added) -> (out: (Adder, Vec<Effect>))
        requires
            core.next <= core.names.len(),
        ensures
            (out.0@, operation::effects_of(out.1@)) == adding(core@, item@),
            out.0.wf(),
    {
        assert(core@.names.len() == core.names.len());
        let line = Effect::Log(LogLevel::Normal, Message::Item(core.verb, item.name.clone()));
        let effects = and(nothing(), line);
        assert(operation::effects_of(effects@) =~= seq![line@] + Seq::empty());
        (Adder { core, phase: AddPhase::AddFile { item } }, effects)
    }

    /// How far a file is, is shown if it is due.
    fn show(core: AddCore, item: Added, written: Written, seconds: u64) -> (out: (
        Adder,
        Vec<Effect>,
    ))
        requires
            core.next <= core.names.len(),
        ensures
            (out.0@, operation::effects_of(out.1@)) == shown(core@, item@, written, seconds),
            out.0.wf(),
    {
        assert(core@.names.len() == core.names.len());
        let mut tracker = written.tracker;
        let mut effects = nothing();
        match tracker.tick_with_elapsed(seconds, written.done, written.total) {
            Some(pct) => {
                let line = Effect::UpdateProgress(
                    written.handle,
                    Message::ItemProgress(core.verb, item.name.clone(), pct),
                );
                effects = and(effects, line);
                assert(operation::effects_of(effects@) =~= seq![line@]);
            },
            None => {},
        }
        let written = Written { tracker, ..written };
        (Adder { core, phase: AddPhase::Read { item, written } }, effects)
    }

    /// The item with the source path `src` that is called `rel` in the archive.
    fn item(src: String, rel: String) -> (item: Added)
        ensures
            item@ == item_at(src@, rel@),
    {
        let name = winpath::display_name(src.as_str());
        Added { src, rel, name }
    }

    /// The question that the addition waits to have answered.
    pub fn ask(&self) -> (ask: Ask)
        requires
            self.wf(),
        ensures
            ask@ == add_ask(self@),
    {
        match &self.phase {
            AddPhase::NextName | AddPhase::PollEntry { .. } => Ask::Stop,
            AddPhase::IsDir { item } => Ask::IsDir(item.src.clone()),
            AddPhase::AddDir { item } => Ask::AddDir {
                src: item.src.clone(),
                rel: item.rel.clone(),
            },
            AddPhase::OpenDir { item } => Ask::OpenDir(item.src.clone()),
            AddPhase::NextEntry => {
                let last = self.core.frames.len() - 1;
                Ask::NextEntry(self.core.frames[last].src.clone())
            },
            AddPhase::ReadWhole { item } => Ask::ReadSource(item.src.clone()),
            AddPhase::Open { item } => Ask::OpenSource(item.src.clone()),
            AddPhase::AddFile { item } => if self.core.style == AddStyle::ReadFirst {
                Ask::AddRead(item.rel.clone())
            } else {
                Ask::AddFile { src: item.src.clone(), rel: item.rel.clone() }
            },
            AddPhase::Begin { item, .. } => Ask::BeginProgress(
                LogLevel::Normal,
                Message::Item(self.core.verb, item.name.clone()),
            ),
            AddPhase::StartEntry { item, .. } => Ask::StartEntry(item.rel.clone()),
            AddPhase::Read { .. } => Ask::ReadChunk,
            AddPhase::Write { .. } => Ask::WriteChunk,
            AddPhase::Clock { .. } => Ask::Elapsed,
            AddPhase::Finished => Ask::Finish,
        }
    }

    /// What the addition does with a reply while it looks for the next item.
    fn advance_walk(core: AddCore, phase: AddPhase, reply: Reply) -> (out: (Adder, Vec<Effect>))
        requires
            add_wf((AddModel { core: core@, phase: phase@ })),
            phase is NextName || phase is IsDir || phase is AddDir || phase is OpenDir || phase
                is NextEntry || phase is PollEntry,
        ensures
            (out.0@, operation::effects_of(out.1@)) == add_step(
                (AddModel { core: core@, phase: phase@ }),
                reply@,
            ),
            out.0.wf(),
    {
        proof {
            lemma_nothing_first();
            assert(core@.names.len() == core.names.len());
        }
        match (phase, reply) {
            (AddPhase::NextName, Reply::Flag(stop)) => if stop {
                Adder::cancel(core)
            } else {
                let name = &core.names[core.next];
                let src = winpath::join(core.src_dir.as_str(), name.as_str());
                let rel = archive::join_inner(core.prefix.as_str(), name.as_str());
                let item = Adder::item(src, rel);
                let core = AddCore { next: core.next + 1, ..core };
                (Adder { core, phase: AddPhase::IsDir { item } }, nothing())
            },
            (AddPhase::IsDir { item }, Reply::Flag(is_dir)) => if is_dir {
                (Adder { core, phase: AddPhase::AddDir { item } }, nothing())
            } else if core.style == AddStyle::Streamed {
                Adder::add_whole(core, item)
            } else if core.style == AddStyle::ReadFirst {
                (Adder { core, phase: AddPhase::ReadWhole { item } }, nothing())
            } else {
                (Adder { core, phase: AddPhase::Open { item } }, nothing())
            },
            (AddPhase::AddDir { item }, Reply::Done) => {
                (Adder { core, phase: AddPhase::OpenDir { item } }, nothing())
            },
            (AddPhase::AddDir { item }, Reply::Failed(reason)) => {
                Adder::fail_item(core, item, reason, nothing())
            },
            (AddPhase::OpenDir { item }, Reply::Done) => {
                let AddCore { src_dir, names, prefix, style, verb, next, frames, sum } = core;
                let mut frames = frames;
                let ghost before = frames@;
                let frame = AddFrame { src: item.src, rel: item.rel };
                frames.push(frame);
                assert(frames_of(frames@) =~= frames_of(before).push(frame@));
                let core = AddCore { src_dir, names, prefix, style, verb, next, frames, sum };
                (Adder { core, phase: AddPhase::NextEntry }, nothing())
            },
            (AddPhase::OpenDir { item }, Reply::Failed(reason)) => {
                Adder::fail_item(core, item, reason, nothing())
            },
            (AddPhase::NextEntry, Reply::Entry(name)) => {
                (Adder { core, phase: AddPhase::PollEntry { entry: Some(name) } }, nothing())
            },
            (AddPhase::NextEntry, Reply::Unreadable) => {
                (Adder { core, phase: AddPhase::PollEntry { entry: None } }, nothing())
            },
            (AddPhase::NextEntry, Reply::End) => {
                let AddCore { src_dir, names, prefix, style, verb, next, frames, sum } = core;
                let mut frames = frames;
                let ghost before = frames@;
                let _ = frames.pop();
                assert(frames_of(frames@) =~= frames_of(before).drop_last());
                let core = AddCore { src_dir, names, prefix, style, verb, next, frames, sum };
                Adder::next_item(core, nothing())
            },
            (AddPhase::PollEntry { entry }, Reply::Flag(stop)) => if stop {
                Adder::cancel(core)
            } else {
                match entry {
                    Some(name) => {
                        let frame = &core.frames[core.frames.len() - 1];
                        let src = winpath::join(frame.src.as_str(), name.as_str());
                        let mut rel = frame.rel.clone();
                        rel.push('/');
                        rel.append(name.as_str());
                        let item = Adder::item(src, rel);
                        (Adder { core, phase: AddPhase::IsDir { item } }, nothing())
                    },
                    None => Adder::next_item(core, nothing()),
                }
            },
            (phase, _) => (Adder { core, phase }, nothing()),
        }
    }

    /// What the addition does with a reply about a file.
    fn advance_file(core: AddCore, phase: AddPhase, reply: Reply) -> (out: (Adder, Vec<Effect>))
        requires
            add_wf((AddModel { core: core@, phase: phase@ })),
            !(phase is NextName || phase is IsDir || phase is AddDir || phase is OpenDir || phase
                is NextEntry || phase is PollEntry),
        ensures
            (out.0@, operation::effects_of(out.1@)) == add_step(
                (AddModel { core: core@, phase: phase@ }),
                reply@,
            ),
            out.0.wf(),
    {
        proof {
            lemma_nothing_first();
            assert(core@.names.len() == core.names.len());
        }
        match (phase, reply) {
            (AddPhase::ReadWhole { item }, Reply::Done) => Adder::add_whole(core, item),
            (AddPhase::ReadWhole { item }, Reply::Failed(reason)) => {
                Adder::fail_item(core, item, reason, nothing())
            },
            (AddPhase::Open { item }, Reply::Opened(total)) => {
                if core.style == AddStyle::Pieces {
                    (Adder { core, phase: AddPhase::Begin { item, total } }, nothing())
                } else {
                    Adder::add_whole(core, item)
                }
            },
            (AddPhase::Open { item }, Reply::Failed(reason)) => {
                Adder::fail_item(core, item, reason, nothing())
            },
            (AddPhase::AddFile { .. }, Reply::Done) => {
                Adder::next_item(AddCore { sum: core.sum.with_ok(), ..core }, nothing())
            },
            (AddPhase::AddFile { item }, Reply::Failed(reason)) => {
                Adder::fail_item(core, item, reason, nothing())
            },
            (AddPhase::Begin { item, total }, Reply::Handle(handle)) => {
                let written = Written { handle, tracker: ProgressTracker::new(), done: 0, total };
                (Adder { core, phase: AddPhase::StartEntry { item, written } }, nothing())
            },
            (AddPhase::StartEntry { item, written }, Reply::Done) => {
                (Adder { core, phase: AddPhase::Read { item, written } }, nothing())
            },
            (AddPhase::StartEntry { item, written }, Reply::Failed(reason)) => {
                Adder::break_off(core, item, written.handle, reason)
            },
            (AddPhase::Read { item, written }, Reply::Bytes(piece)) => if piece == 0 {
                let line = Effect::EndProgress(written.handle, Message::Item(core.verb, item.name));
                let effects = and(nothing(), line);
                assert(operation::effects_of(effects@) =~= seq![line@]);
                Adder::next_item(AddCore { sum: core.sum.with_ok(), ..core }, effects)
            } else {
                (Adder { core, phase: AddPhase::Write { item, written, piece } }, nothing())
            },
            (AddPhase::Read { item, written }, Reply::Failed(reason)) => {
                Adder::break_off(core, item, written.handle, reason)
            },
            (AddPhase::Write { item, written, piece }, Reply::Done) => {
                let written = Written { done: written.done.saturating_add(piece), ..written };
                (Adder { core, phase: AddPhase::Clock { item, written } }, nothing())
            },
            (AddPhase::Write { item, written, .. }, Reply::Failed(reason)) => {
                Adder::break_off(core, item, written.handle, reason)
            },
            (AddPhase::Clock { item, written }, Reply::Seconds(seconds)) => {
                Adder::show(core, item, written, seconds)
            },
            (phase, _) => (Adder { core, phase }, nothing()),
        }
    }

    /// What the addition does with a reply.
    pub fn advance(self, reply: Reply) -> (out: (Adder, Vec<Effect>))
        requires
            self.wf(),
        ensures
            (out.0@, operation::effects_of(out.1@)) == add_step(self@, reply@),
            out.0.wf(),
    {
        let Adder { core, phase } = self;
        match &phase {
            AddPhase::NextName | AddPhase::IsDir { .. } | AddPhase::AddDir { .. }
            | AddPhase::OpenDir { .. } | AddPhase::NextEntry | AddPhase::PollEntry { .. } => {
                Adder::advance_walk(core, phase, reply)
            },
            _ => Adder::advance_file(core, phase, reply),
        }
    }

    /// Starts to add `names` from `src_dir` to the directory `prefix` of an archive.
    pub fn new(
        src_dir: &str,
        names: Vec<String>,
        prefix: &str,
        style: AddStyle,
        verb: Verb,
        sum: OpSummary,
    ) -> (adder: Adder)
        ensures
            adder.wf(),
            adder@ == add_start(src_dir@, names.deep_view(), prefix@, style, verb, sum),
    {
        let frames: Vec<AddFrame> = Vec::new();
        let core = AddCore {
            src_dir: text::copy(src_dir),
            names,
            prefix: text::copy(prefix),
            style,
            verb,
            next: 0,
            frames,
            sum,
        };
        assert(core@.frames =~= Seq::<AddFrame<Txt>>::empty());
        let (adder, _) = Adder::next_item(core, nothing());
        adder
    }
}

/// Every state that an addition gets to is well-formed.
pub proof fn law_add_stays_well_formed(state: AddModel, reply: Reply<Txt>)
    requires
        add_wf(state),
    ensures
        add_wf(add_step(state, reply).0),
{
}

/// Every error that an addition counts has its own error line in the log, and no error line
/// goes uncounted.
pub proof fn law_add_counts_its_lines(state: AddModel, reply: Reply<Txt>)
    ensures
        operation::counted(
            state.core.sum.err,
            operation::errors_in(add_step(state, reply).1),
            add_step(state, reply).0.core.sum.err,
        ),
        add_step(state, reply).0.core.sum.skip == state.core.sum.skip,
        operation::skips_in(add_step(state, reply).1) == 0,
        state.core.sum.err <= add_step(state, reply).0.core.sum.err,
{
    operation::lemma_lines_push();
    operation::lemma_lines_add();
    assert(operation::errors_in(Seq::<Effect<Txt>>::empty()) == 0);
    assert(operation::skips_in(Seq::<Effect<Txt>>::empty()) == 0);
}

/// What lies below a directory is called by that directory's name in the archive, a slash, and
/// its own name.
pub proof fn law_entries_keep_their_place(state: AddModel, name: Txt)
    requires
        state.phase is PollEntry,
        state.phase->PollEntry_entry == Some(name),
    ensures
        add_step(state, Reply::Flag(false)).0.phase == (AddPhase::IsDir {
            item: item_at(
                winpath::path_join(state.core.frames.last().src, name),
                state.core.frames.last().rel + seq!['/'] + name,
            ),
        }),
{
    assert(state.core.frames.last().rel.push('/') =~= state.core.frames.last().rel + seq!['/']);
}

/// A file that is read before it is added has a line in the log only where all of it could be read:
/// where it could not, there is the line about the error and no other.
pub proof fn law_unreadable_files_have_no_line(state: AddModel, reply: Reply<Txt>)
    requires
        state.phase is ReadWhole,
    ensures
        reply is Failed ==> add_step(state, reply).1.len() == 1 && operation::errors_in(
            add_step(state, reply).1,
        ) == 1,
        add_step(state, reply).0.phase is AddFile ==> reply is Done,
{
    reveal_with_fuel(operation::errors_in, 2);
    if let Reply::Failed(_) = reply {
        let effects = add_step(state, reply).1;
        assert(effects.drop_last() =~= Seq::<Effect<Txt>>::empty());
    }
}

/// A file that is being added piece by piece is written to its end, or given up for an error;
/// a request to stop is heard only between files.
pub proof fn law_no_file_is_cut_short(state: AddModel, reply: Reply<Txt>)
    requires
        state.phase is StartEntry || state.phase is Read || state.phase is Write || state.phase
            is Clock,
    ensures
        add_step(state, reply).0.core.sum.cancelled == state.core.sum.cancelled,
        add_ask(state) != Ask::<Txt>::Stop,
{
}

} // verus!
