//! Extracting from an archive.
//!
//! Only single, checked components are ever joined to the destination, so nothing is written
//! outside of it, whatever the archive calls its entries.

use crate::archive;
use crate::archive::ArchiveEntry;
use crate::operation;
use crate::operation::messages::{Message, Verb};
use crate::operation::{
    and, closing, followed_by, is_newer, nothing, opening, Ask, ConflictResolution, Effect,
    LogLevel, OpSummary, Reply, ResultStyle, Step, Txt,
};
use crate::text;
use crate::winpath;
use vstd::prelude::*;

verus! {

/// Why an entry with an unsafe name is not extracted.
pub const BAD_NAME: &'static str = "不正な名前です";

/// A directory of the archive that is being extracted.
pub struct ExtractFrame {
    pub inner: String,
    /// Where the directory is extracted to.
    pub dst: String,
    pub children: Vec<String>,
    pub next: usize,
}

/// A directory of the archive that is being extracted, in specifications.
pub struct ExtractFrameModel {
    pub inner: Txt,
    pub dst: Txt,
    pub children: Seq<Txt>,
    pub next: int,
}

/// An entry that is being extracted: its name inside the archive, the directory it goes to,
/// and the name that it gets there.
pub struct Found<S = String> {
    pub inner: S,
    pub dir: S,
    pub name: S,
}

/// What an extraction is waiting for.
pub enum ExtractPhase<S = String> {
    /// Whether to go on with the next name.
    NextName,
    /// Whether to go on with the next entry of the innermost directory.
    NextChild,
    /// Whether the directory exists.
    DirExists { item: Found<S> },
    MakeDir { item: Found<S> },
    /// Whether the file exists, under the name `target`.
    Target { item: Found<S>, target: S },
    /// What to do about the file that exists.
    Conflict { item: Found<S>, target: S },
    /// The time of the file that exists.
    Newer { item: Found<S>, target: S },
    Read { item: Found<S>, target: S },
    Write { item: Found<S>, target: S },
    Ended,
}

/// The part of an extraction that outlives a single question.
pub struct ExtractCore {
    pub entries: Vec<ArchiveEntry>,
    pub src_inner: String,
    pub names: Vec<String>,
    pub dst_dir: String,
    pub next: usize,
    pub frames: Vec<ExtractFrame>,
    pub sum: OpSummary,
}

/// An extraction that is under way.
pub struct ExtractRun {
    pub core: ExtractCore,
    pub phase: ExtractPhase,
}

/// An extraction's lasting part in specifications.
pub struct ExtractCoreModel {
    pub entries: Seq<ArchiveEntry<Txt>>,
    pub src_inner: Txt,
    pub names: Seq<Txt>,
    pub dst_dir: Txt,
    pub next: int,
    pub frames: Seq<ExtractFrameModel>,
    pub sum: OpSummary,
}

/// An extraction in specifications.
pub struct ExtractModel {
    pub core: ExtractCoreModel,
    pub phase: ExtractPhase<Txt>,
}

impl View for ExtractFrame {
    type V = ExtractFrameModel;

    open spec fn view(&self) -> ExtractFrameModel {
        ExtractFrameModel {
            inner: self.inner@,
            dst: self.dst@,
            children: self.children.deep_view(),
            next: self.next as int,
        }
    }
}

/// The directories of an extraction, as a specification reads them.
pub open spec fn frames_of(frames: Seq<ExtractFrame>) -> Seq<ExtractFrameModel> {
    frames.map_values(|f: ExtractFrame| f@)
}

impl View for Found<String> {
    type V = Found<Txt>;

    open spec fn view(&self) -> Found<Txt> {
        Found { inner: self.inner@, dir: self.dir@, name: self.name@ }
    }
}

impl View for ExtractCore {
    type V = ExtractCoreModel;

    open spec fn view(&self) -> ExtractCoreModel {
        ExtractCoreModel {
            entries: archive::entries_of(self.entries@),
            src_inner: self.src_inner@,
            names: self.names.deep_view(),
            dst_dir: self.dst_dir@,
            next: self.next as int,
            frames: frames_of(self.frames@),
            sum: self.sum,
        }
    }
}

impl View for ExtractPhase<String> {
    type V = ExtractPhase<Txt>;

    open spec fn view(&self) -> ExtractPhase<Txt> {
        match *self {
            ExtractPhase::NextName => ExtractPhase::NextName,
            ExtractPhase::NextChild => ExtractPhase::NextChild,
            ExtractPhase::DirExists { item } => ExtractPhase::DirExists { item: item@ },
            ExtractPhase::MakeDir { item } => ExtractPhase::MakeDir { item: item@ },
            ExtractPhase::Target { item, target } => ExtractPhase::Target {
                item: item@,
                target: target@,
            },
            ExtractPhase::Conflict { item, target } => ExtractPhase::Conflict {
                item: item@,
                target: target@,
            },
            ExtractPhase::Newer { item, target } => ExtractPhase::Newer {
                item: item@,
                target: target@,
            },
            ExtractPhase::Read { item, target } => ExtractPhase::Read {
                item: item@,
                target: target@,
            },
            ExtractPhase::Write { item, target } => ExtractPhase::Write {
                item: item@,
                target: target@,
            },
            ExtractPhase::Ended => ExtractPhase::Ended,
        }
    }
}

impl View for ExtractRun {
    type V = ExtractModel;

    open spec fn view(&self) -> ExtractModel {
        ExtractModel { core: self.core@, phase: self.phase@ }
    }
}

/// The outcome of a step: the next state, and what is to be carried out.
pub type ExtractOutcome = (ExtractModel, Seq<Effect<Txt>>);

/// An outcome with `first` carried out before it.
pub open spec fn preceded(first: Seq<Effect<Txt>>, rest: ExtractOutcome) -> ExtractOutcome {
    (rest.0, first + rest.1)
}

/// On to another question, with nothing to carry out.
pub open spec fn wait_for(core: ExtractCoreModel, phase: ExtractPhase<Txt>) -> ExtractOutcome {
    (ExtractModel { core, phase }, Seq::empty())
}

/// The extraction ends.
pub open spec fn ended(core: ExtractCoreModel) -> ExtractOutcome {
    (
        ExtractModel { core, phase: ExtractPhase::Ended },
        operation::closing_lines(Verb::Extract, ResultStyle::Copy, core.sum),
    )
}

/// The extraction is stopped.
pub open spec fn cancelled(core: ExtractCoreModel) -> ExtractOutcome {
    ended(ExtractCoreModel { sum: core.sum.stopped(), ..core })
}

/// The directories without those that have been gone through.
pub open spec fn unfinished(frames: Seq<ExtractFrameModel>) -> Seq<ExtractFrameModel>
    decreases frames.len(),
{
    if frames.len() > 0 && frames.last().next >= frames.last().children.len() {
        unfinished(frames.drop_last())
    } else {
        frames
    }
}

/// An item is done: on to the next entry of a directory, the next name, or the end.
pub open spec fn after_item(core: ExtractCoreModel) -> ExtractOutcome {
    let left = ExtractCoreModel { frames: unfinished(core.frames), ..core };
    if left.frames.len() > 0 {
        wait_for(left, ExtractPhase::NextChild)
    } else if left.next < left.names.len() {
        wait_for(left, ExtractPhase::NextName)
    } else {
        ended(left)
    }
}

/// A line is logged and the item is done.
pub open spec fn logged(core: ExtractCoreModel, level: LogLevel, line: Message<Txt>) -> ExtractOutcome {
    preceded(seq![Effect::Log(level, line)], after_item(core))
}

/// An item is counted as an error, with a line.
pub open spec fn erred(core: ExtractCoreModel, line: Message<Txt>) -> ExtractOutcome {
    logged(ExtractCoreModel { sum: core.sum.plus_err(), ..core }, LogLevel::Error, line)
}

/// An item is left out.
pub open spec fn passed_over(core: ExtractCoreModel, name: Txt) -> ExtractOutcome {
    logged(
        ExtractCoreModel { sum: core.sum.plus_skip(), ..core },
        LogLevel::Warning,
        Message::Skip(name),
    )
}

/// The first look at `name` in the directory `inner` of the archive, which goes to `dir`.
pub open spec fn entered(core: ExtractCoreModel, inner: Txt, dir: Txt, name: Txt) -> ExtractOutcome {
    if !archive::is_safe(name) {
        erred(core, Message::Failure(Verb::Copy, name, BAD_NAME@))
    } else {
        let item = Found { inner: archive::inner_join(inner, name), dir, name };
        if archive::is_dir_entry(core.entries, item.inner) {
            wait_for(core, ExtractPhase::DirExists { item })
        } else {
            wait_for(core, ExtractPhase::Target { item, target: name })
        }
    }
}

/// A directory of the archive is gone into.
pub open spec fn opened(core: ExtractCoreModel, item: Found<Txt>) -> ExtractOutcome {
    after_item(
        ExtractCoreModel {
            frames: core.frames.push(
                ExtractFrameModel {
                    inner: item.inner,
                    dst: winpath::path_join(item.dir, item.name),
                    children: archive::children(core.entries, item.inner),
                    next: 0,
                },
            ),
            ..core
        },
    )
}

/// What becomes of a file that exists.
pub open spec fn resolved(
    core: ExtractCoreModel,
    item: Found<Txt>,
    target: Txt,
    choice: ConflictResolution<Txt>,
) -> ExtractOutcome {
    match choice {
        ConflictResolution::Newest => wait_for(core, ExtractPhase::Newer { item, target }),
        ConflictResolution::Overwrite => reading(core, item, target),
        ConflictResolution::OverwriteForce => preceded(
            seq![Effect::ClearAttributes(winpath::path_join(item.dir, target))],
            reading(core, item, target),
        ),
        ConflictResolution::Rename(new) => if archive::is_safe(new) && new != target {
            wait_for(core, ExtractPhase::Target { item, target: new })
        } else {
            passed_over(core, item.name)
        },
        ConflictResolution::Skip => passed_over(core, item.name),
        ConflictResolution::Cancel => cancelled(core),
    }
}

/// A file is being extracted.
pub open spec fn reading(core: ExtractCoreModel, item: Found<Txt>, target: Txt) -> ExtractOutcome {
    preceded(
        seq![Effect::Log(LogLevel::Normal, Message::Item(Verb::Copy, item.name))],
        wait_for(core, ExtractPhase::Read { item, target }),
    )
}

/// The innermost directory with its next entry taken.
pub open spec fn child_taken(frames: Seq<ExtractFrameModel>) -> Seq<ExtractFrameModel> {
    frames.update(
        frames.len() - 1,
        ExtractFrameModel { next: frames.last().next + 1, ..frames.last() },
    )
}

/// What an extraction does with a reply. A reply that does not answer the question changes
/// nothing.
pub open spec fn extract_step(state: ExtractModel, reply: Reply<Txt>) -> ExtractOutcome {
    let core = state.core;
    match (state.phase, reply) {
        (ExtractPhase::NextName, Reply::Flag(stop)) => if stop {
            cancelled(core)
        } else {
            entered(
                ExtractCoreModel { next: core.next + 1, ..core },
                core.src_inner,
                core.dst_dir,
                core.names[core.next],
            )
        },
        (ExtractPhase::NextChild, Reply::Flag(stop)) => if stop {
            cancelled(core)
        } else {
            let frame = core.frames.last();
            entered(
                ExtractCoreModel { frames: child_taken(core.frames), ..core },
                frame.inner,
                frame.dst,
                frame.children[frame.next],
            )
        },
        (ExtractPhase::DirExists { item }, Reply::Flag(exists)) => if exists {
            opened(core, item)
        } else {
            wait_for(core, ExtractPhase::MakeDir { item })
        },
        (ExtractPhase::MakeDir { item }, Reply::Done) => preceded(
            seq![Effect::Log(LogLevel::Normal, Message::CreateDirectory(item.name))],
            opened(ExtractCoreModel { sum: core.sum.plus_ok(), ..core }, item),
        ),
        (ExtractPhase::MakeDir { item }, Reply::Failed(reason)) => erred(
            core,
            Message::CreateDirectoryFailure(item.name, reason),
        ),
        (ExtractPhase::Target { item, target }, Reply::Flag(exists)) => if exists {
            wait_for(core, ExtractPhase::Conflict { item, target })
        } else {
            reading(core, item, target)
        },
        (ExtractPhase::Conflict { item, target }, Reply::Choice(choice)) => resolved(
            core,
            item,
            target,
            choice,
        ),
        (ExtractPhase::Newer { item, target }, Reply::Modified(there)) => if operation::counts_as_newer(
            archive::mtime_of(core.entries, item.inner),
            there,
        ) {
            reading(core, item, target)
        } else {
            passed_over(core, item.name)
        },
        (ExtractPhase::Read { item, target }, Reply::Done) => wait_for(
            core,
            ExtractPhase::Write { item, target },
        ),
        (ExtractPhase::Read { item, target }, Reply::Failed(reason)) => erred(
            core,
            Message::Failure(Verb::Copy, item.name, reason),
        ),
        (ExtractPhase::Write { item, target }, Reply::Done) => after_item(
            ExtractCoreModel { sum: core.sum.plus_ok(), ..core },
        ),
        (ExtractPhase::Write { item, target }, Reply::Failed(reason)) => erred(
            core,
            Message::Failure(Verb::Copy, item.name, reason),
        ),
        _ => (state, Seq::empty()),
    }
}

/// The question that an extraction waits to have answered.
pub open spec fn extract_ask(state: ExtractModel) -> Ask<Txt> {
    match state.phase {
        ExtractPhase::NextName | ExtractPhase::NextChild => Ask::Stop,
        ExtractPhase::DirExists { item } => Ask::Exists(winpath::path_join(item.dir, item.name)),
        ExtractPhase::MakeDir { item } => Ask::CreateDir(winpath::path_join(item.dir, item.name)),
        ExtractPhase::Target { item, target } => Ask::Exists(winpath::path_join(item.dir, target)),
        ExtractPhase::Conflict { target, .. } => Ask::Conflict(target),
        ExtractPhase::Newer { item, target } => Ask::ModifiedAt(
            winpath::path_join(item.dir, target),
        ),
        ExtractPhase::Read { item, .. } => Ask::ReadEntry(item.inner),
        ExtractPhase::Write { item, target } => Ask::WriteEntry {
            target: winpath::path_join(item.dir, target),
            mtime: archive::mtime_of(state.core.entries, item.inner),
        },
        ExtractPhase::Ended => Ask::Ended(state.core.sum),
    }
}

/// What holds of every extraction that is under way.
pub open spec fn extract_wf(state: ExtractModel) -> bool {
    &&& 0 <= state.core.next <= state.core.names.len()
    &&& state.phase is NextName ==> state.core.next < state.core.names.len()
    &&& state.phase is NextChild ==> state.core.frames.len() > 0 && state.core.frames.last().next
        < state.core.frames.last().children.len()
    &&& forall|i: int|
        0 <= i < state.core.frames.len() ==> 0 <= (#[trigger] state.core.frames[i]).next
            <= state.core.frames[i].children.len()
}

/// The state of an extraction before its first reply.
pub open spec fn extract_start(
    entries: Seq<ArchiveEntry<Txt>>,
    src_inner: Txt,
    names: Seq<Txt>,
    dst_dir: Txt,
) -> ExtractOutcome {
    preceded(
        seq![operation::start_line(Verb::Extract)],
        after_item(
            ExtractCoreModel {
                entries,
                src_inner,
                names,
                dst_dir,
                next: 0,
                frames: Seq::empty(),
                sum: operation::no_results(),
            },
        ),
    )
}

proof fn lemma_nothing_first()
    ensures
        forall|rest: ExtractOutcome| #[trigger] preceded(Seq::empty(), rest) == rest,
{
    assert forall|rest: ExtractOutcome| #[trigger] preceded(Seq::empty(), rest) == rest by {
        assert(Seq::<Effect<Txt>>::empty() + rest.1 =~= rest.1);
    }
}

impl ExtractCore {
    /// What holds of the lasting part of every extraction.
    pub open spec fn wf(self) -> bool {
        &&& self.next <= self.names.len()
        &&& forall|i: int|
            0 <= i < self.frames.len() ==> (#[trigger] self.frames@[i]).next
                <= self.frames@[i].children.len()
    }
}

impl ExtractRun {
    /// What holds of every extraction that is under way.
    pub open spec fn wf(self) -> bool {
        extract_wf(self@) && self.core.wf()
    }

    /// The extraction ends.
    fn end(core: ExtractCore, effects: Vec<Effect>) -> (out: (ExtractRun, Vec<Effect>))
        ensures
            (out.0@, operation::effects_of(out.1@)) == preceded(
                operation::effects_of(effects@),
                ended(core@),
            ),
            out.0.core == core,
    {
        let all = followed_by(effects, closing(Verb::Extract, ResultStyle::Copy, core.sum));
        (ExtractRun { core, phase: ExtractPhase::Ended }, all)
    }

    /// The extraction is stopped.
    fn cancel(core: ExtractCore) -> (out: (ExtractRun, Vec<Effect>))
        requires
            core.wf(),
        ensures
            (out.0@, operation::effects_of(out.1@)) == cancelled(core@),
            out.0.wf(),
    {
        proof {
            lemma_nothing_first();
            lemma_core(core);
        }
        ExtractRun::end(ExtractCore { sum: core.sum.with_stop(), ..core }, nothing())
    }

    /// An item is done.
    fn next_item(core: ExtractCore, effects: Vec<Effect>) -> (out: (ExtractRun, Vec<Effect>))
        requires
            core.wf(),
        ensures
            (out.0@, operation::effects_of(out.1@)) == preceded(
                operation::effects_of(effects@),
                after_item(core@),
            ),
            out.0.wf(),
    {
        proof {
            let e = operation::effects_of(effects@);
            assert(e + Seq::<Effect<Txt>>::empty() =~= e);
        }
        let ghost before = core@;
        let ExtractCore { entries, src_inner, names, dst_dir, next, frames, sum } = core;
        let mut frames = frames;
        while frames.len() > 0 && frames[frames.len() - 1].next >= frames[frames.len()
            - 1].children.len()
            invariant
                unfinished(frames_of(frames@)) == unfinished(before.frames),
                forall|i: int|
                    0 <= i < frames.len() ==> (#[trigger] frames@[i]).next
                        <= frames@[i].children.len(),
            decreases frames.len(),
        {
            let ghost prior = frames@;
            assert(frames_of(prior).last() == prior.last()@);
            assert(prior.last()@.children.len() == prior.last().children.len());
            let _ = frames.pop();
            assert(frames_of(frames@) =~= frames_of(prior).drop_last());
        }
        proof {
            if frames.len() > 0 {
                assert(frames_of(frames@).last() == frames@.last()@);
                assert(frames@.last()@.children.len() == frames@.last().children.len());
            }
        }
        let core = ExtractCore { entries, src_inner, names, dst_dir, next, frames, sum };
        proof {
            lemma_core(core);
        }
        if core.frames.len() > 0 {
            (ExtractRun { core, phase: ExtractPhase::NextChild }, effects)
        } else if core.next < core.names.len() {
            (ExtractRun { core, phase: ExtractPhase::NextName }, effects)
        } else {
            ExtractRun::end(core, effects)
        }
    }

    /// A line is logged and the item is done.
    fn log_item(core: ExtractCore, level: LogLevel, line: Message) -> (out: (
        ExtractRun,
        Vec<Effect>,
    ))
        requires
            core.wf(),
        ensures
            (out.0@, operation::effects_of(out.1@)) == logged(core@, level, line@),
            out.0.wf(),
    {
        let effects = and(nothing(), Effect::Log(level, line));
        assert(operation::effects_of(effects@) =~= seq![Effect::Log(level, line@)]);
        ExtractRun::next_item(core, effects)
    }

    /// An item is counted as an error.
    fn fail_item(core: ExtractCore, line: Message) -> (out: (ExtractRun, Vec<Effect>))
        requires
            core.wf(),
        ensures
            (out.0@, operation::effects_of(out.1@)) == erred(core@, line@),
            out.0.wf(),
    {
        let counted = ExtractCore { sum: core.sum.with_err(), ..core };
        ExtractRun::log_item(counted, LogLevel::Error, line)
    }

    /// An item is left out.
    fn skip_item(core: ExtractCore, name: String) -> (out: (ExtractRun, Vec<Effect>))
        requires
            core.wf(),
        ensures
            (out.0@, operation::effects_of(out.1@)) == passed_over(core@, name@),
            out.0.wf(),
    {
        let counted = ExtractCore { sum: core.sum.with_skip(), ..core };
        ExtractRun::log_item(counted, LogLevel::Warning, Message::Skip(name))
    }

    /// The first look at a name.
    fn enter(core: ExtractCore, inner: &str, dir: String, name: String) -> (out: (
        ExtractRun,
        Vec<Effect>,
    ))
        requires
            core.wf(),
        ensures
            (out.0@, operation::effects_of(out.1@)) == entered(core@, inner@, dir@, name@),
            out.0.wf(),
    {
        proof {
            lemma_core(core);
        }
        if !archive::is_safe_segment(name.as_str()) {
            let line = Message::Failure(Verb::Copy, name, text::copy(BAD_NAME));
            ExtractRun::fail_item(core, line)
        } else {
            let inner = archive::join_inner(inner, name.as_str());
            let target = name.clone();
            let item = Found { inner, dir, name };
            if archive::entry_is_dir(&core.entries, item.inner.as_str()) {
                (ExtractRun { core, phase: ExtractPhase::DirExists { item } }, nothing())
            } else {
                (ExtractRun { core, phase: ExtractPhase::Target { item, target } }, nothing())
            }
        }
    }

    /// A directory of the archive is gone into.
    fn open(core: ExtractCore, item: Found, effects: Vec<Effect>) -> (out: (ExtractRun, Vec<Effect>))
        requires
            core.wf(),
        ensures
            (out.0@, operation::effects_of(out.1@)) == preceded(
                operation::effects_of(effects@),
                opened(core@, item@),
            ),
            out.0.wf(),
    {
        let ExtractCore { entries, src_inner, names, dst_dir, next, frames, sum } = core;
        let mut frames = frames;
        let ghost before = frames@;
        let children = archive::entries_at(&entries, item.inner.as_str());
        let dst = winpath::join(item.dir.as_str(), item.name.as_str());
        let frame = ExtractFrame { inner: item.inner, dst, children, next: 0 };
        frames.push(frame);
        assert(frames_of(frames@) =~= frames_of(before).push(frame@));
        let core = ExtractCore { entries, src_inner, names, dst_dir, next, frames, sum };
        ExtractRun::next_item(core, effects)
    }

    /// A file is being extracted.
    fn read(core: ExtractCore, item: Found, target: String, effects: Vec<Effect>) -> (out: (
        ExtractRun,
        Vec<Effect>,
    ))
        requires
            core.wf(),
        ensures
            (out.0@, operation::effects_of(out.1@)) == preceded(
                operation::effects_of(effects@),
                reading(core@, item@, target@),
            ),
            out.0.wf(),
    {
        proof {
            lemma_core(core);
        }
        let line = Effect::Log(LogLevel::Normal, Message::Item(Verb::Copy, item.name.clone()));
        let more = and(effects, line);
        assert(operation::effects_of(more@) =~= operation::effects_of(effects@) + (seq![line@]
            + Seq::empty()));
        (ExtractRun { core, phase: ExtractPhase::Read { item, target } }, more)
    }

    /// What becomes of a file that exists.
    fn resolve(core: ExtractCore, item: Found, target: String, choice: ConflictResolution) -> (out: (
        ExtractRun,
        Vec<Effect>,
    ))
        requires
            core.wf(),
        ensures
            (out.0@, operation::effects_of(out.1@)) == resolved(core@, item@, target@, choice@),
            out.0.wf(),
    {
        proof {
            lemma_nothing_first();
            lemma_core(core);
        }
        match choice {
            ConflictResolution::Newest => {
                (ExtractRun { core, phase: ExtractPhase::Newer { item, target } }, nothing())
            },
            ConflictResolution::Overwrite => ExtractRun::read(core, item, target, nothing()),
            ConflictResolution::OverwriteForce => {
                let path = winpath::join(item.dir.as_str(), target.as_str());
                let effects = and(nothing(), Effect::ClearAttributes(path));
                assert(operation::effects_of(effects@) =~= seq![Effect::ClearAttributes(path@)]);
                ExtractRun::read(core, item, target, effects)
            },
            ConflictResolution::Rename(new) => {
                if archive::is_safe_segment(new.as_str()) && !text::same(
                    new.as_str(),
                    target.as_str(),
                ) {
                    (
                        ExtractRun { core, phase: ExtractPhase::Target { item, target: new } },
                        nothing(),
                    )
                } else {
                    ExtractRun::skip_item(core, item.name)
                }
            },
            ConflictResolution::Skip => ExtractRun::skip_item(core, item.name),
            ConflictResolution::Cancel => ExtractRun::cancel(core),
        }
    }

    /// The next entry of the innermost directory.
    fn take_child(core: ExtractCore) -> (out: (ExtractRun, Vec<Effect>))
        requires
            core.wf(),
            core.frames.len() > 0,
            core.frames@.last().next < core.frames@.last().children.len(),
        ensures
            ({
                let frame = core@.frames.last();
                (out.0@, operation::effects_of(out.1@)) == entered(
                    ExtractCoreModel { frames: child_taken(core@.frames), ..core@ },
                    frame.inner,
                    frame.dst,
                    frame.children[frame.next],
                )
            }),
            out.0.wf(),
    {
        let ExtractCore { entries, src_inner, names, dst_dir, next, frames, sum } = core;
        let mut frames = frames;
        let ghost before = frames@;
        match frames.pop() {
            Some(frame) => {
                let ExtractFrame { inner, dst, children, next: at } = frame;
                let name = children[at].clone();
                let dir = dst.clone();
                let parent = inner.clone();
                let taken = ExtractFrame { inner, dst, children, next: at + 1 };
                frames.push(taken);
                assert(frames_of(frames@) =~= child_taken(frames_of(before)));
                let core = ExtractCore { entries, src_inner, names, dst_dir, next, frames, sum };
                ExtractRun::enter(core, parent.as_str(), dir, name)
            },
            None => {
                let core = ExtractCore { entries, src_inner, names, dst_dir, next, frames, sum };
                (ExtractRun { core, phase: ExtractPhase::Ended }, nothing())
            },
        }
    }

    /// The question that the extraction waits to have answered.
    pub fn ask(&self) -> (ask: Ask)
        ensures
            ask@ == extract_ask(self@),
    {
        match &self.phase {
            ExtractPhase::NextName | ExtractPhase::NextChild => Ask::Stop,
            ExtractPhase::DirExists { item } => Ask::Exists(
                winpath::join(item.dir.as_str(), item.name.as_str()),
            ),
            ExtractPhase::MakeDir { item } => Ask::CreateDir(
                winpath::join(item.dir.as_str(), item.name.as_str()),
            ),
            ExtractPhase::Target { item, target } => Ask::Exists(
                winpath::join(item.dir.as_str(), target.as_str()),
            ),
            ExtractPhase::Conflict { target, .. } => Ask::Conflict(target.clone()),
            ExtractPhase::Newer { item, target } => Ask::ModifiedAt(
                winpath::join(item.dir.as_str(), target.as_str()),
            ),
            ExtractPhase::Read { item, .. } => Ask::ReadEntry(item.inner.clone()),
            ExtractPhase::Write { item, target } => Ask::WriteEntry {
                target: winpath::join(item.dir.as_str(), target.as_str()),
                mtime: archive::entry_mtime(&self.core.entries, item.inner.as_str()),
            },
            ExtractPhase::Ended => Ask::Ended(self.core.sum),
        }
    }

    /// What the extraction does with a reply.
    fn advance(self, reply: Reply) -> (out: (ExtractRun, Vec<Effect>))
        requires
            self.wf(),
        ensures
            (out.0@, operation::effects_of(out.1@)) == extract_step(self@, reply@),
            out.0.wf(),
    {
        proof {
            lemma_nothing_first();
        }
        let ExtractRun { core, phase } = self;
        proof {
            lemma_core(core);
        }
        match (phase, reply) {
            (ExtractPhase::NextName, Reply::Flag(stop)) => if stop {
                ExtractRun::cancel(core)
            } else {
                let name = core.names[core.next].clone();
                let inner = core.src_inner.clone();
                let dir = core.dst_dir.clone();
                let core = ExtractCore { next: core.next + 1, ..core };
                ExtractRun::enter(core, inner.as_str(), dir, name)
            },
            (ExtractPhase::NextChild, Reply::Flag(stop)) => if stop {
                ExtractRun::cancel(core)
            } else {
                ExtractRun::take_child(core)
            },
            (ExtractPhase::DirExists { item }, Reply::Flag(exists)) => if exists {
                ExtractRun::open(core, item, nothing())
            } else {
                (ExtractRun { core, phase: ExtractPhase::MakeDir { item } }, nothing())
            },
            (ExtractPhase::MakeDir { item }, Reply::Done) => {
                let line = Effect::Log(
                    LogLevel::Normal,
                    Message::CreateDirectory(item.name.clone()),
                );
                let effects = and(nothing(), line);
                assert(operation::effects_of(effects@) =~= seq![line@]);
                let counted = ExtractCore { sum: core.sum.with_ok(), ..core };
                ExtractRun::open(counted, item, effects)
            },
            (ExtractPhase::MakeDir { item }, Reply::Failed(reason)) => {
                ExtractRun::fail_item(core, Message::CreateDirectoryFailure(item.name, reason))
            },
            (ExtractPhase::Target { item, target }, Reply::Flag(exists)) => if exists {
                (ExtractRun { core, phase: ExtractPhase::Conflict { item, target } }, nothing())
            } else {
                ExtractRun::read(core, item, target, nothing())
            },
            (ExtractPhase::Conflict { item, target }, Reply::Choice(choice)) => {
                ExtractRun::resolve(core, item, target, choice)
            },
            (ExtractPhase::Newer { item, target }, Reply::Modified(there)) => {
                let own = archive::entry_mtime(&core.entries, item.inner.as_str());
                if is_newer(own, there) {
                    ExtractRun::read(core, item, target, nothing())
                } else {
                    ExtractRun::skip_item(core, item.name)
                }
            },
            (ExtractPhase::Read { item, target }, Reply::Done) => {
                (ExtractRun { core, phase: ExtractPhase::Write { item, target } }, nothing())
            },
            (ExtractPhase::Read { item, .. }, Reply::Failed(reason)) => {
                ExtractRun::fail_item(core, Message::Failure(Verb::Copy, item.name, reason))
            },
            (ExtractPhase::Write { .. }, Reply::Done) => {
                let counted = ExtractCore { sum: core.sum.with_ok(), ..core };
                ExtractRun::next_item(counted, nothing())
            },
            (ExtractPhase::Write { item, .. }, Reply::Failed(reason)) => {
                ExtractRun::fail_item(core, Message::Failure(Verb::Copy, item.name, reason))
            },
            (phase, _) => (ExtractRun { core, phase }, nothing()),
        }
    }

    /// Takes the answer to the last question, and says what is to be done next.
    pub fn step(self, reply: Reply) -> (out: (ExtractRun, Step))
        requires
            self.wf(),
        ensures
            out.0.wf(),
            (out.0@, operation::effects_of(out.1.effects@)) == extract_step(self@, reply@),
            out.1.ask@ == extract_ask(out.0@),
    {
        let (run, effects) = self.advance(reply);
        let ask = run.ask();
        (run, Step { effects, ask })
    }
}

proof fn lemma_core(core: ExtractCore)
    ensures
        core@.names.len() == core.names.len(),
        core@.frames.len() == core.frames.len(),
        forall|i: int|
            0 <= i < core.frames.len() ==> (#[trigger] core@.frames[i]).next
                == core.frames@[i].next && core@.frames[i].children.len()
                == core.frames@[i].children.len(),
{
}

/// Starts to extract `names`, which lie in the directory `src_inner` of the archive with these
/// `entries`, to `dst_dir`.
pub fn run_extract(
    entries: Vec<ArchiveEntry>,
    src_inner: &str,
    names: Vec<String>,
    dst_dir: &str,
) -> (out: (ExtractRun, Step))
    ensures
        out.0.wf(),
        (out.0@, operation::effects_of(out.1.effects@)) == extract_start(
            archive::entries_of(entries@),
            src_inner@,
            names.deep_view(),
            dst_dir@,
        ),
        out.1.ask@ == extract_ask(out.0@),
{
    let frames: Vec<ExtractFrame> = Vec::new();
    let core = ExtractCore {
        entries,
        src_inner: text::copy(src_inner),
        names,
        dst_dir: text::copy(dst_dir),
        next: 0,
        frames,
        sum: OpSummary::default(),
    };
    assert(core@.frames =~= Seq::<ExtractFrameModel>::empty());
    let (run, effects) = ExtractRun::next_item(core, opening(Verb::Extract));
    let ask = run.ask();
    (run, Step { effects, ask })
}

/// An extraction after all of `replies`, and everything that was to be carried out on the way.
pub open spec fn extract_run(state: ExtractModel, replies: Seq<Reply<Txt>>) -> ExtractOutcome
    decreases replies.len(),
{
    if replies.len() == 0 {
        (state, Seq::empty())
    } else {
        let (middle, before) = extract_run(state, replies.drop_last());
        let (last, now) = extract_step(middle, replies.last());
        (last, before + now)
    }
}

/// Single components behind a directory, one after the other.
pub open spec fn descended(root: Txt, components: Seq<Txt>) -> Txt
    decreases components.len(),
{
    if components.len() == 0 {
        root
    } else {
        winpath::path_join(descended(root, components.drop_last()), components.last())
    }
}

/// Whether all of these are safe components.
pub open spec fn all_safe(components: Seq<Txt>) -> bool {
    forall|i: int| 0 <= i < components.len() ==> archive::is_safe(#[trigger] components[i])
}

/// Whether a path is reached from a directory by safe components alone.
pub open spec fn inside(root: Txt, path: Txt) -> bool {
    exists|components: Seq<Txt>|
        all_safe(components) && path == #[trigger] descended(root, components)
}

/// Whether everything that an extraction has in hand lies inside its destination.
pub open spec fn stays_inside(state: ExtractModel) -> bool {
    let root = state.core.dst_dir;
    &&& forall|i: int|
        0 <= i < state.core.frames.len() ==> inside(root, (#[trigger] state.core.frames[i]).dst)
    &&& match state.phase {
        ExtractPhase::NextName | ExtractPhase::NextChild | ExtractPhase::Ended => true,
        ExtractPhase::DirExists { item } | ExtractPhase::MakeDir { item } => inside(root, item.dir)
            && archive::is_safe(item.name),
        ExtractPhase::Target { item, target }
        | ExtractPhase::Conflict { item, target }
        | ExtractPhase::Newer { item, target }
        | ExtractPhase::Read { item, target }
        | ExtractPhase::Write { item, target } => inside(root, item.dir) && archive::is_safe(
            item.name,
        ) && archive::is_safe(target),
    }
}

/// A safe component behind a directory that lies inside the destination lies inside it too.
pub proof fn law_one_step_down_stays_inside(root: Txt, dir: Txt, name: Txt)
    requires
        inside(root, dir),
        archive::is_safe(name),
    ensures
        inside(root, winpath::path_join(dir, name)),
{
    let components = choose|components: Seq<Txt>|
        all_safe(components) && dir == #[trigger] descended(root, components);
    let more = components.push(name);
    assert(more.drop_last() =~= components);
    assert(descended(root, more) == winpath::path_join(dir, name));
    assert(all_safe(more));
}

proof fn lemma_unfinished(frames: Seq<ExtractFrameModel>)
    ensures
        unfinished(frames).len() <= frames.len(),
        forall|i: int|
            0 <= i < unfinished(frames).len() ==> #[trigger] unfinished(frames)[i] == frames[i],
        unfinished(frames).len() > 0 ==> unfinished(frames).last().next < unfinished(
            frames,
        ).last().children.len(),
    decreases frames.len(),
{
    if frames.len() > 0 && frames.last().next >= frames.last().children.len() {
        lemma_unfinished(frames.drop_last());
    }
}

proof fn lemma_after_item_inside(core: ExtractCoreModel)
    requires
        forall|i: int|
            0 <= i < core.frames.len() ==> inside(core.dst_dir, (#[trigger] core.frames[i]).dst),
    ensures
        stays_inside(after_item(core).0),
        after_item(core).0.core.dst_dir == core.dst_dir,
{
    lemma_unfinished(core.frames);
    let left = unfinished(core.frames);
    assert forall|i: int| 0 <= i < left.len() implies inside(
        core.dst_dir,
        (#[trigger] left[i]).dst,
    ) by {
        assert(left[i] == core.frames[i]);
    }
}

/// The root itself lies inside the destination.
proof fn lemma_root_inside(root: Txt)
    ensures
        inside(root, root),
{
    assert(descended(root, Seq::<Txt>::empty()) == root);
    assert(all_safe(Seq::<Txt>::empty()));
}

/// Whatever an extraction is told, everything that it has in hand lies inside its
/// destination: entries with names that would lead elsewhere are refused, also where the user
/// gives the name.
pub proof fn law_extraction_stays_inside(state: ExtractModel, reply: Reply<Txt>)
    requires
        extract_wf(state),
        stays_inside(state),
    ensures
        stays_inside(extract_step(state, reply).0),
        extract_step(state, reply).0.core.dst_dir == state.core.dst_dir,
{
    let core = state.core;
    let root = core.dst_dir;
    lemma_root_inside(root);
    match (state.phase, reply) {
        (ExtractPhase::NextName, Reply::Flag(stop)) => {
            if !stop {
                let next = ExtractCoreModel { next: core.next + 1, ..core };
                lemma_after_item_inside(
                    ExtractCoreModel { sum: next.sum.plus_err(), ..next },
                );
            }
        },
        (ExtractPhase::NextChild, Reply::Flag(stop)) => {
            if !stop {
                let next = ExtractCoreModel { frames: child_taken(core.frames), ..core };
                assert forall|i: int| 0 <= i < next.frames.len() implies inside(
                    root,
                    (#[trigger] next.frames[i]).dst,
                ) by {
                    assert(next.frames[i].dst == core.frames[i].dst);
                }
                assert(inside(root, core.frames[core.frames.len() - 1].dst));
                lemma_after_item_inside(ExtractCoreModel { sum: next.sum.plus_err(), ..next });
            }
        },
        (ExtractPhase::DirExists { item }, Reply::Flag(exists)) => {
            law_one_step_down_stays_inside(root, item.dir, item.name);
            if exists {
                lemma_open_inside(core, item);
            }
        },
        (ExtractPhase::MakeDir { item }, Reply::Done) => {
            lemma_open_inside(ExtractCoreModel { sum: core.sum.plus_ok(), ..core }, item);
        },
        _ => {
            lemma_after_item_inside(ExtractCoreModel { sum: core.sum.plus_err(), ..core });
            lemma_after_item_inside(ExtractCoreModel { sum: core.sum.plus_skip(), ..core });
            lemma_after_item_inside(ExtractCoreModel { sum: core.sum.plus_ok(), ..core });
        },
    }
}

proof fn lemma_open_inside(core: ExtractCoreModel, item: Found<Txt>)
    requires
        forall|i: int|
            0 <= i < core.frames.len() ==> inside(core.dst_dir, (#[trigger] core.frames[i]).dst),
        inside(core.dst_dir, item.dir),
        archive::is_safe(item.name),
    ensures
        stays_inside(opened(core, item).0),
        opened(core, item).0.core.dst_dir == core.dst_dir,
{
    law_one_step_down_stays_inside(core.dst_dir, item.dir, item.name);
    let frame = ExtractFrameModel {
        inner: item.inner,
        dst: winpath::path_join(item.dir, item.name),
        children: archive::children(core.entries, item.inner),
        next: 0,
    };
    lemma_after_item_inside(ExtractCoreModel { frames: core.frames.push(frame), ..core });
}

/// Every run of an extraction stays inside its destination, from the first question on.
pub proof fn law_every_extraction_stays_inside(
    entries: Seq<ArchiveEntry<Txt>>,
    src_inner: Txt,
    names: Seq<Txt>,
    dst_dir: Txt,
    replies: Seq<Reply<Txt>>,
)
    ensures
        ({
            let first = extract_start(entries, src_inner, names, dst_dir).0;
            let last = extract_run(first, replies).0;
            &&& extract_wf(last)
            &&& stays_inside(last)
            &&& last.core.dst_dir == dst_dir
        }),
    decreases replies.len(),
{
    let first = extract_start(entries, src_inner, names, dst_dir).0;
    if replies.len() == 0 {
        assert(unfinished(Seq::<ExtractFrameModel>::empty()) =~= Seq::empty());
    } else {
        law_every_extraction_stays_inside(
            entries,
            src_inner,
            names,
            dst_dir,
            replies.drop_last(),
        );
        let middle = extract_run(first, replies.drop_last()).0;
        law_extraction_stays_inside(middle, replies.last());
        law_extract_stays_well_formed(middle, replies.last());
    }
}

/// Whether what is carried out leaves everything alone that lies outside a directory: it writes a
/// line to the log, or clears the attributes of something inside.
pub open spec fn is_carried_out_inside(root: Txt, effect: Effect<Txt>) -> bool {
    match effect {
        Effect::Log(..) => true,
        Effect::ClearAttributes(path) => inside(root, path),
        _ => false,
    }
}

/// Every path that an extraction asks to be looked at, created or written, and every one whose
/// attributes it clears, lies inside its destination; and it has nothing else carried out than
/// lines in the log.
#[verifier::rlimit(40)]
pub proof fn law_every_written_path_is_inside(state: ExtractModel, reply: Reply<Txt>)
    requires
        stays_inside(state),
    ensures
        match extract_ask(state) {
            Ask::Exists(path) => inside(state.core.dst_dir, path),
            Ask::CreateDir(path) => inside(state.core.dst_dir, path),
            Ask::ModifiedAt(path) => inside(state.core.dst_dir, path),
            Ask::WriteEntry { target, .. } => inside(state.core.dst_dir, target),
            Ask::Stop | Ask::Conflict(_) | Ask::ReadEntry(_) | Ask::Ended(_) => true,
            _ => false,
        },
        forall|i: int|
            0 <= i < extract_step(state, reply).1.len() ==> is_carried_out_inside(
                state.core.dst_dir,
                #[trigger] extract_step(state, reply).1[i],
            ),
{
    let core = state.core;
    let root = core.dst_dir;
    match state.phase {
        ExtractPhase::DirExists { item } | ExtractPhase::MakeDir { item } => {
            law_one_step_down_stays_inside(root, item.dir, item.name);
        },
        ExtractPhase::Target { item, target }
        | ExtractPhase::Newer { item, target }
        | ExtractPhase::Conflict { item, target }
        | ExtractPhase::Write { item, target } => {
            law_one_step_down_stays_inside(root, item.dir, target);
        },
        _ => {},
    }
}

/// A path inside a directory starts with that directory's path, as it is written once something is
/// joined to it: no component replaces what stands before it.
pub proof fn law_inside_extends_the_root(root: Txt, components: Seq<Txt>)
    requires
        all_safe(components),
    ensures
        components.len() > 0 ==> text::has_prefix(
            descended(root, components),
            winpath::tidied(root),
        ),
        components.len() > 0 ==> winpath::tidied(descended(root, components)) == descended(
            root,
            components,
        ),
    decreases components.len(),
{
    if components.len() > 0 {
        let before = components.drop_last();
        assert forall|i: int| 0 <= i < before.len() implies archive::is_safe(
            #[trigger] before[i],
        ) by {
            assert(before[i] == components[i]);
        }
        law_inside_extends_the_root(root, before);
        let dir = descended(root, before);
        let name = components.last();
        lemma_safe_is_relative(name);
        assert(descended(root, components) == winpath::path_join(dir, name));
        winpath::law_joining_tidies_once(dir, name);
        if before.len() > 0 {
            let top = winpath::tidied(root);
            let path = winpath::path_join(dir, name);
            assert(path.take(top.len() as int) =~= path.take(dir.len() as int).take(
                top.len() as int,
            ));
        }
    }
}

proof fn lemma_safe_is_relative(name: Txt)
    requires
        archive::is_safe(name),
    ensures
        winpath::path_prefix(name) == (winpath::PrefixKind::Plain, 0int),
        !winpath::has_root(name),
        winpath::is_plain_name(name),
{
    assert forall|i: int| 0 <= i < name.len() implies !winpath::is_separator(
        #[trigger] name[i],
    ) by {
        assert(name.contains(name[i]));
    }
    assert(name.contains(name[0]));
    if name.len() > 1 {
        assert(name.contains(name[1]));
    }
}

/// Every state that an extraction gets to is well-formed.
pub proof fn law_extract_stays_well_formed(state: ExtractModel, reply: Reply<Txt>)
    requires
        extract_wf(state),
    ensures
        extract_wf(extract_step(state, reply).0),
{
    let core = state.core;
    lemma_unfinished(core.frames);
    lemma_unfinished(child_taken(core.frames));
    match (state.phase, reply) {
        (ExtractPhase::DirExists { item }, _) | (ExtractPhase::MakeDir { item }, _) => {
            let frame = ExtractFrameModel {
                inner: item.inner,
                dst: winpath::path_join(item.dir, item.name),
                children: archive::children(core.entries, item.inner),
                next: 0,
            };
            lemma_unfinished(core.frames.push(frame));
        },
        _ => {},
    }
}

/// A file is written only where nothing was there, or where the user agreed to overwrite it.
/// A name that the user gave is looked at anew.
pub proof fn law_extraction_overwrites_with_consent(state: ExtractModel, reply: Reply<Txt>)
    requires
        extract_step(state, reply).0.phase is Read,
        !(state.phase is Read),
    ensures
        ({
            let target = extract_step(state, reply).0.phase->Read_target;
            ||| state.phase is Target && state.phase->Target_target == target && reply
                == Reply::<Txt>::Flag(false)
            ||| state.phase is Conflict && state.phase->Conflict_target == target && (reply
                == Reply::Choice(ConflictResolution::<Txt>::Overwrite) || reply == Reply::Choice(
                ConflictResolution::<Txt>::OverwriteForce,
            ))
            ||| state.phase is Newer && state.phase->Newer_target == target && reply is Modified
                && operation::counts_as_newer(
                archive::mtime_of(state.core.entries, state.phase->Newer_item.inner),
                reply->Modified_0,
            )
        }),
{
}

/// A request to stop ends the extraction: nothing is written after it.
pub proof fn law_stopping_ends_the_extraction(state: ExtractModel, reply: Reply<Txt>)
    requires
        (state.phase is NextName || state.phase is NextChild) && reply == Reply::<Txt>::Flag(true)
            || state.phase is Conflict && reply == Reply::Choice(ConflictResolution::<Txt>::Cancel),
    ensures
        extract_step(state, reply) == cancelled(state.core),
        extract_ask(extract_step(state, reply).0) == Ask::<Txt>::Ended(state.core.sum.stopped()),
{
}

proof fn lemma_simple_counts()
    ensures
        forall|core: ExtractCoreModel|
            #![trigger ended(core)]
            operation::errors_in(ended(core).1) == 0 && operation::skips_in(ended(core).1) == 0,
        forall|core: ExtractCoreModel|
            #![trigger after_item(core)]
            operation::errors_in(after_item(core).1) == 0 && operation::skips_in(after_item(core).1)
                == 0 && after_item(core).0.core.sum == core.sum,
        forall|core: ExtractCoreModel, level: LogLevel, line: Message<Txt>|
            #![trigger logged(core, level, line)]
            operation::errors_in(logged(core, level, line).1) == (if operation::is_error_line(
                Effect::Log(level, line),
            ) {
                1nat
            } else {
                0
            }) && operation::skips_in(logged(core, level, line).1) == (if operation::is_skip_line(
                Effect::Log(level, line),
            ) {
                1nat
            } else {
                0
            }) && logged(core, level, line).0.core.sum == core.sum,
{
    operation::lemma_lines_push();
    assert(operation::errors_in(Seq::<Effect<Txt>>::empty()) == 0);
    assert(operation::skips_in(Seq::<Effect<Txt>>::empty()) == 0);
    assert forall|core: ExtractCoreModel|
        #![trigger ended(core)]
        operation::errors_in(ended(core).1) == 0 && operation::skips_in(ended(core).1) == 0 by {
        let lines = operation::closing_lines(Verb::Extract, ResultStyle::Copy, core.sum);
        operation::lemma_lines_of_pair(lines[0], lines[1]);
        assert(lines =~= seq![lines[0], lines[1]]);
    }
    assert forall|core: ExtractCoreModel, level: LogLevel, line: Message<Txt>|
        #![trigger logged(core, level, line)]
        operation::errors_in(logged(core, level, line).1) == (if operation::is_error_line(
            Effect::Log(level, line),
        ) {
            1nat
        } else {
            0
        }) && operation::skips_in(logged(core, level, line).1) == (if operation::is_skip_line(
            Effect::Log(level, line),
        ) {
            1nat
        } else {
            0
        }) && logged(core, level, line).0.core.sum == core.sum by {
        let x = Effect::Log(level, line);
        assert(operation::errors_in(Seq::empty().push(x)) == (if operation::is_error_line(x) {
            1nat
        } else {
            0
        }));
        assert(operation::skips_in(Seq::empty().push(x)) == (if operation::is_skip_line(x) {
            1nat
        } else {
            0
        }));
        operation::lemma_lines_of_two(seq![x], after_item(core).1);
    }
}

proof fn lemma_step_counts(state: ExtractModel, reply: Reply<Txt>)
    ensures
        operation::counted(
            state.core.sum.err,
            operation::errors_in(extract_step(state, reply).1),
            extract_step(state, reply).0.core.sum.err,
        ),
        operation::counted(
            state.core.sum.skip,
            operation::skips_in(extract_step(state, reply).1),
            extract_step(state, reply).0.core.sum.skip,
        ),
        state.core.sum.err <= extract_step(state, reply).0.core.sum.err,
        state.core.sum.skip <= extract_step(state, reply).0.core.sum.skip,
{
    lemma_simple_counts();
    operation::lemma_lines_push();
    operation::lemma_lines_add();
    assert(operation::errors_in(Seq::<Effect<Txt>>::empty()) == 0);
    assert(operation::skips_in(Seq::<Effect<Txt>>::empty()) == 0);
}

/// Every error that an extraction counts has its own error line in the log, and every entry
/// that it leaves out its own warning; no line of these kinds goes uncounted.
pub proof fn law_extract_counts_its_lines(state: ExtractModel, replies: Seq<Reply<Txt>>)
    ensures
        operation::counted(
            state.core.sum.err,
            operation::errors_in(extract_run(state, replies).1),
            extract_run(state, replies).0.core.sum.err,
        ),
        operation::counted(
            state.core.sum.skip,
            operation::skips_in(extract_run(state, replies).1),
            extract_run(state, replies).0.core.sum.skip,
        ),
    decreases replies.len(),
{
    if replies.len() > 0 {
        law_extract_counts_its_lines(state, replies.drop_last());
        let (middle, before) = extract_run(state, replies.drop_last());
        lemma_step_counts(middle, replies.last());
        operation::lemma_lines_of_two(before, extract_step(middle, replies.last()).1);
    }
}

/// The log of an extraction opens with the line that says it started, and once the extraction
/// has ended it closes with the line that says how.
pub proof fn law_extract_is_framed(
    entries: Seq<ArchiveEntry<Txt>>,
    src: Txt,
    names: Seq<Txt>,
    dst: Txt,
    replies: Seq<Reply<Txt>>,
)
    ensures
        ({
            let (first, opening) = extract_start(entries, src, names, dst);
            let (last, rest) = extract_run(first, replies);
            &&& (opening + rest).first() == operation::start_line(Verb::Extract)
            &&& last.phase is Ended ==> (opening + rest).last() == operation::end_line(
                Verb::Extract,
                last.core.sum,
            )
        }),
    decreases replies.len(),
{
    let (first, opening) = extract_start(entries, src, names, dst);
    if replies.len() > 0 {
        law_extract_is_framed(entries, src, names, dst, replies.drop_last());
        let (middle, before) = extract_run(first, replies.drop_last());
        let (last, now) = extract_step(middle, replies.last());
        if last.phase is Ended {
            if middle.phase is Ended {
                assert(before + now =~= before);
            } else {
                assert((opening + (before + now)).last() == now.last());
            }
        }
    } else {
        assert(opening + Seq::empty() =~= opening);
    }
}

} // verus!
