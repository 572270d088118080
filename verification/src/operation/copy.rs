//! Copying and moving.

use crate::operation;
use crate::operation::messages::{Message, Verb};
use crate::operation::{
    and, closing, followed_by, is_newer, nothing, opening, Ask, ConflictResolution, CopySignal,
    Effect, ItemFacts, LogLevel, OpSummary, ProgressHandle, ProgressTracker, Reply, ResultStyle,
    Step, Txt,
};
use crate::outside;
use crate::text;
use crate::winpath;
use vstd::prelude::*;

verus! {

/// What is to be copied or moved.
pub struct CopyPlan {
    pub src_dir: String,
    pub dst_dir: String,
    pub names: Vec<String>,
    pub move_it: bool,
}

/// A directory whose entries are being copied.
pub struct DirFrame<S = String> {
    pub src: S,
    pub dst: S,
    /// The destination did not exist before.
    pub created: bool,
}

/// One file or directory.
pub struct Item<S = String> {
    pub src: S,
    pub dst: S,
    pub name: S,
}

/// What a copy is waiting for.
pub enum CopyPhase<S = String> {
    /// Whether to go on with the next name.
    NextName,
    /// Where source and destination of a name lie.
    Roots { item: Item<S> },
    /// The next entry of the innermost directory.
    NextEntry,
    /// Whether to go on with the entry.
    PollEntry { entry: Option<S> },
    /// What source and destination are.
    Inspect { item: Item<S> },
    /// The link being made again.
    Link { item: Item<S>, is_dir: bool },
    /// The attempt to move the item in one go.
    Renaming { item: Item<S> },
    /// What source and destination are, after the attempt failed.
    Reinspect { item: Item<S> },
    MakeDir { item: Item<S> },
    OpenDir { item: Item<S>, created: bool },
    /// Whether the target exists.
    Target { item: Item<S>, target: S },
    /// What to do about the target that exists.
    Conflict { item: Item<S>, target: S },
    /// The times of source and target.
    Newer { item: Item<S>, target: S },
    /// The log line of the copy.
    Begin { item: Item<S>, target: S },
    /// The directory of the target.
    Parent { item: Item<S>, target: S, handle: ProgressHandle },
    Copying {
        item: Item<S>,
        target: S,
        handle: ProgressHandle,
        tracker: ProgressTracker,
        signal: CopySignal,
    },
    /// The source being removed after it was copied.
    RemoveSource { item: Item<S>, handle: ProgressHandle },
    Ended,
}

/// The part of a copy that outlives a single question.
pub struct CopyCore {
    pub plan: CopyPlan,
    /// How many of the names were started.
    pub next: usize,
    pub frames: Vec<DirFrame>,
    pub sum: OpSummary,
}

/// A copy or move that is under way.
pub struct CopyRun {
    pub core: CopyCore,
    pub phase: CopyPhase,
}

/// The plan of a copy in specifications.
pub struct PlanModel {
    pub src_dir: Txt,
    pub dst_dir: Txt,
    pub names: Seq<Txt>,
    pub move_it: bool,
}

/// A copy's lasting part in specifications.
pub struct CoreModel {
    pub plan: PlanModel,
    pub next: int,
    pub frames: Seq<DirFrame<Txt>>,
    pub sum: OpSummary,
}

/// A copy in specifications.
pub struct CopyModel {
    pub core: CoreModel,
    pub phase: CopyPhase<Txt>,
}

impl View for Item<String> {
    type V = Item<Txt>;

    open spec fn view(&self) -> Item<Txt> {
        Item { src: self.src@, dst: self.dst@, name: self.name@ }
    }
}

impl View for DirFrame<String> {
    type V = DirFrame<Txt>;

    open spec fn view(&self) -> DirFrame<Txt> {
        DirFrame { src: self.src@, dst: self.dst@, created: self.created }
    }
}

impl View for CopyPlan {
    type V = PlanModel;

    open spec fn view(&self) -> PlanModel {
        PlanModel {
            src_dir: self.src_dir@,
            dst_dir: self.dst_dir@,
            names: self.names.deep_view(),
            move_it: self.move_it,
        }
    }
}

impl View for CopyCore {
    type V = CoreModel;

    open spec fn view(&self) -> CoreModel {
        CoreModel {
            plan: self.plan@,
            next: self.next as int,
            frames: self.frames@.map_values(|f: DirFrame| f@),
            sum: self.sum,
        }
    }
}

impl View for CopyPhase<String> {
    type V = CopyPhase<Txt>;

    open spec fn view(&self) -> CopyPhase<Txt> {
        match *self {
            CopyPhase::NextName => CopyPhase::NextName,
            CopyPhase::Roots { item } => CopyPhase::Roots { item: item@ },
            CopyPhase::NextEntry => CopyPhase::NextEntry,
            CopyPhase::PollEntry { entry } => CopyPhase::PollEntry { entry: entry.deep_view() },
            CopyPhase::Inspect { item } => CopyPhase::Inspect { item: item@ },
            CopyPhase::Link { item, is_dir } => CopyPhase::Link { item: item@, is_dir },
            CopyPhase::Renaming { item } => CopyPhase::Renaming { item: item@ },
            CopyPhase::Reinspect { item } => CopyPhase::Reinspect { item: item@ },
            CopyPhase::MakeDir { item } => CopyPhase::MakeDir { item: item@ },
            CopyPhase::OpenDir { item, created } => CopyPhase::OpenDir { item: item@, created },
            CopyPhase::Target { item, target } => CopyPhase::Target { item: item@, target: target@ },
            CopyPhase::Conflict { item, target } => CopyPhase::Conflict {
                item: item@,
                target: target@,
            },
            CopyPhase::Newer { item, target } => CopyPhase::Newer { item: item@, target: target@ },
            CopyPhase::Begin { item, target } => CopyPhase::Begin { item: item@, target: target@ },
            CopyPhase::Parent { item, target, handle } => CopyPhase::Parent {
                item: item@,
                target: target@,
                handle,
            },
            CopyPhase::Copying { item, target, handle, tracker, signal } => CopyPhase::Copying {
                item: item@,
                target: target@,
                handle,
                tracker,
                signal,
            },
            CopyPhase::RemoveSource { item, handle } => CopyPhase::RemoveSource {
                item: item@,
                handle,
            },
            CopyPhase::Ended => CopyPhase::Ended,
        }
    }
}

impl View for CopyRun {
    type V = CopyModel;

    open spec fn view(&self) -> CopyModel {
        CopyModel { core: self.core@, phase: self.phase@ }
    }
}

/// What the operation is called.
pub open spec fn verb_of(move_it: bool) -> Verb {
    if move_it {
        Verb::Move
    } else {
        Verb::Copy
    }
}

/// A path in the form in which two paths are held against each other: one kind of separator,
/// none at the end, lower case.
pub open spec fn compare_form(abs: Txt) -> Txt {
    outside::lowercase_text(text::trimmed_end(text::replaced(abs, '/', '\\'), '\\'))
}

/// Whether a source and its destination are the same place.
pub open spec fn same_place(item: Item<Txt>, src: Option<Txt>, dst: Option<Txt>) -> bool {
    match (src, dst) {
        (Some(a), Some(b)) => compare_form(a) == compare_form(b),
        _ => winpath::is_same_path(item.src, item.dst),
    }
}

/// Whether a destination is its source, or lies below it.
pub open spec fn lies_within(src: Option<Txt>, dst: Option<Txt>) -> bool {
    match (src, dst) {
        (Some(a), Some(b)) => {
            let s = compare_form(a);
            let d = compare_form(b);
            d == s || text::has_prefix(d, s.push('\\'))
        },
        _ => false,
    }
}

/// The item of a directory entry or a name.
pub open spec fn item_in(src_dir: Txt, dst_dir: Txt, name: Txt) -> Item<Txt> {
    Item {
        src: winpath::path_join(src_dir, name),
        dst: winpath::path_join(dst_dir, name),
        name,
    }
}

/// An item under the name that its source path ends in.
pub open spec fn renamed_by_path(item: Item<Txt>) -> Item<Txt> {
    Item { name: winpath::path_display_name(item.src), ..item }
}

/// The outcome of a step: the next state, and what is to be carried out.
pub type CopyOutcome = (CopyModel, Seq<Effect<Txt>>);

/// An outcome with `first` carried out before it.
pub open spec fn preceded(first: Seq<Effect<Txt>>, rest: CopyOutcome) -> CopyOutcome {
    (rest.0, first + rest.1)
}

/// The operation ends.
pub open spec fn ended(core: CoreModel) -> CopyOutcome {
    (
        CopyModel { core, phase: CopyPhase::Ended },
        operation::closing_lines(verb_of(core.plan.move_it), ResultStyle::Copy, core.sum),
    )
}

/// The operation is stopped.
pub open spec fn cancelled(core: CoreModel) -> CopyOutcome {
    ended(CoreModel { sum: core.sum.stopped(), ..core })
}

/// An item is done: on to the next entry, the next name, or the end.
pub open spec fn after_item(core: CoreModel) -> CopyOutcome {
    if core.frames.len() > 0 {
        (CopyModel { core, phase: CopyPhase::NextEntry }, Seq::empty())
    } else if core.next < core.plan.names.len() {
        (CopyModel { core, phase: CopyPhase::NextName }, Seq::empty())
    } else {
        ended(core)
    }
}

/// A line is logged and the item is done.
pub open spec fn logged(core: CoreModel, level: LogLevel, line: Message<Txt>) -> CopyOutcome {
    preceded(seq![Effect::Log(level, line)], after_item(core))
}

/// An item is counted as an error, with a line.
pub open spec fn erred(core: CoreModel, line: Message<Txt>) -> CopyOutcome {
    logged(CoreModel { sum: core.sum.plus_err(), ..core }, LogLevel::Error, line)
}

/// An item is left out, with a line.
pub open spec fn passed_over(core: CoreModel, line: Message<Txt>) -> CopyOutcome {
    logged(CoreModel { sum: core.sum.plus_skip(), ..core }, LogLevel::Warning, line)
}

/// On to another question, with nothing to carry out.
pub open spec fn wait_for(core: CoreModel, phase: CopyPhase<Txt>) -> CopyOutcome {
    (CopyModel { core, phase }, Seq::empty())
}

/// What becomes of an item that is no link and was not moved in one go.
pub open spec fn dispatched(core: CoreModel, item: Item<Txt>, facts: ItemFacts) -> CopyOutcome {
    let verb = verb_of(core.plan.move_it);
    if facts.dst_exists && facts.src_is_dir != facts.dst_is_dir {
        passed_over(core, Message::KindMismatch(verb, item.name))
    } else if !facts.src_is_dir {
        wait_for(core, CopyPhase::Target { item, target: item.dst })
    } else if facts.dst_exists {
        preceded(
            seq![Effect::Log(LogLevel::Warning, Message::AlreadyExists(item.name))],
            wait_for(
                CoreModel { sum: core.sum.plus_skip(), ..core },
                CopyPhase::OpenDir { item, created: false },
            ),
        )
    } else {
        wait_for(core, CopyPhase::MakeDir { item })
    }
}

/// What becomes of a file whose target exists.
pub open spec fn resolved(
    core: CoreModel,
    item: Item<Txt>,
    target: Txt,
    choice: ConflictResolution<Txt>,
) -> CopyOutcome {
    match choice {
        ConflictResolution::Newest => wait_for(core, CopyPhase::Newer { item, target }),
        ConflictResolution::Overwrite => wait_for(core, CopyPhase::Begin { item, target }),
        ConflictResolution::OverwriteForce => preceded(
            seq![Effect::ClearAttributes(target)],
            wait_for(core, CopyPhase::Begin { item, target }),
        ),
        ConflictResolution::Rename(new) => if new.len() == 0 || new == winpath::path_display_name(
            target,
        ) {
            passed_over(core, Message::Skip(item.name))
        } else {
            wait_for(
                core,
                CopyPhase::Target { item, target: winpath::path_with_file_name(target, new) },
            )
        },
        ConflictResolution::Skip => passed_over(core, Message::Skip(item.name)),
        ConflictResolution::Cancel => cancelled(core),
    }
}

/// A file was copied.
pub open spec fn completed(core: CoreModel, item: Item<Txt>, handle: ProgressHandle) -> CopyOutcome {
    preceded(
        seq![
            Effect::UpdateProgress(handle, Message::Item(verb_of(core.plan.move_it), item.name)),
        ],
        after_item(CoreModel { sum: core.sum.plus_ok(), ..core }),
    )
}

/// A file could not be copied.
pub open spec fn failed(
    core: CoreModel,
    item: Item<Txt>,
    handle: ProgressHandle,
    reason: Txt,
) -> CopyOutcome {
    let verb = verb_of(core.plan.move_it);
    preceded(
        seq![Effect::UpdateProgress(handle, Message::Item(verb, item.name))],
        erred(core, Message::Failure(verb, item.name, reason)),
    )
}

/// A directory has been gone through.
pub open spec fn left_directory(core: CoreModel) -> CopyOutcome {
    let frame = core.frames.last();
    let metadata = if frame.created {
        seq![Effect::ApplyDirMetadata { src: frame.src, dst: frame.dst }]
    } else {
        Seq::empty()
    };
    let removal = if core.plan.move_it {
        seq![Effect::RemoveDir(frame.src)]
    } else {
        Seq::empty()
    };
    preceded(metadata + removal, after_item(CoreModel { frames: core.frames.drop_last(), ..core }))
}

/// A link was made again.
pub open spec fn linked(core: CoreModel, item: Item<Txt>, is_dir: bool) -> CopyOutcome {
    let line = Effect::Log(
        LogLevel::Normal,
        Message::Item(verb_of(core.plan.move_it), item.name),
    );
    let effects = if core.plan.move_it {
        seq![line, Effect::RemoveLink { path: item.src, is_dir }]
    } else {
        seq![line]
    };
    preceded(effects, after_item(CoreModel { sum: core.sum.plus_ok(), ..core }))
}

/// Where the two roots of a name lead.
pub open spec fn placed(
    core: CoreModel,
    item: Item<Txt>,
    src: Option<Txt>,
    dst: Option<Txt>,
    src_is_dir: bool,
) -> CopyOutcome {
    let verb = verb_of(core.plan.move_it);
    if same_place(item, src, dst) {
        erred(core, Message::SamePath(verb, item.name))
    } else if src_is_dir && lies_within(src, dst) {
        erred(core, Message::IntoSelf(verb, item.name))
    } else {
        wait_for(core, CopyPhase::Inspect { item: renamed_by_path(item) })
    }
}

/// The first look at an item.
pub open spec fn inspected(core: CoreModel, item: Item<Txt>, facts: ItemFacts) -> CopyOutcome {
    match facts.link {
        Some(is_dir) => if facts.dst_exists {
            passed_over(core, Message::AlreadyExists(item.name))
        } else {
            wait_for(core, CopyPhase::Link { item, is_dir })
        },
        None => if core.plan.move_it && !facts.dst_exists {
            wait_for(core, CopyPhase::Renaming { item })
        } else {
            dispatched(core, item, facts)
        },
    }
}

/// News of a running copy.
pub open spec fn progressed(
    core: CoreModel,
    item: Item<Txt>,
    target: Txt,
    handle: ProgressHandle,
    tracker: ProgressTracker,
    reply: Reply<Txt>,
) -> CopyOutcome
    recommends
        reply is Copying,
{
    let elapsed_secs = reply->elapsed_secs;
    let transferred = reply->transferred;
    let total = reply->total;
    let shown = match tracker.due(elapsed_secs, transferred, total) {
        Some(pct) => seq![
            Effect::UpdateProgress(
                handle,
                Message::ItemProgress(verb_of(core.plan.move_it), item.name, pct),
            ),
        ],
        None => Seq::empty(),
    };
    let signal = if reply->cancelled {
        CopySignal::Abort
    } else {
        CopySignal::Continue
    };
    (
        CopyModel {
            core,
            phase: CopyPhase::Copying {
                item,
                target,
                handle,
                tracker: tracker.after(elapsed_secs, transferred, total),
                signal,
            },
        },
        shown,
    )
}

/// A copy was aborted in the middle of a file: what was written of it is removed.
pub open spec fn aborted(
    core: CoreModel,
    item: Item<Txt>,
    target: Txt,
    handle: ProgressHandle,
) -> CopyOutcome {
    preceded(
        seq![
            Effect::RemoveFile(target),
            Effect::UpdateProgress(handle, Message::Item(verb_of(core.plan.move_it), item.name)),
        ],
        cancelled(core),
    )
}

/// What a copy does with a reply. A reply that does not answer the question changes nothing.
pub open spec fn copy_step(state: CopyModel, reply: Reply<Txt>) -> CopyOutcome {
    let core = state.core;
    let verb = verb_of(core.plan.move_it);
    match (state.phase, reply) {
        (CopyPhase::NextName, Reply::Flag(stop)) => if stop {
            cancelled(core)
        } else {
            wait_for(
                CoreModel { next: core.next + 1, ..core },
                CopyPhase::Roots {
                    item: item_in(
                        core.plan.src_dir,
                        core.plan.dst_dir,
                        core.plan.names[core.next],
                    ),
                },
            )
        },
        (CopyPhase::Roots { item }, Reply::Roots { src, dst, src_is_dir }) => placed(
            core,
            item,
            src,
            dst,
            src_is_dir,
        ),
        (CopyPhase::NextEntry, Reply::Entry(name)) => wait_for(
            core,
            CopyPhase::PollEntry { entry: Some(name) },
        ),
        (CopyPhase::NextEntry, Reply::Unreadable) => wait_for(
            core,
            CopyPhase::PollEntry { entry: None },
        ),
        (CopyPhase::NextEntry, Reply::End) => left_directory(core),
        (CopyPhase::PollEntry { entry }, Reply::Flag(stop)) => if stop {
            cancelled(core)
        } else {
            match entry {
                Some(name) => wait_for(
                    core,
                    CopyPhase::Inspect {
                        item: renamed_by_path(
                            item_in(core.frames.last().src, core.frames.last().dst, name),
                        ),
                    },
                ),
                None => after_item(core),
            }
        },
        (CopyPhase::Inspect { item }, Reply::Facts(facts)) => inspected(core, item, facts),
        (CopyPhase::Link { item, is_dir }, Reply::Done) => linked(core, item, is_dir),
        (CopyPhase::Link { item, is_dir }, Reply::Failed(_)) => passed_over(
            core,
            Message::SkipLink(verb, item.name),
        ),
        (CopyPhase::Renaming { item }, Reply::Done) => logged(
            CoreModel { sum: core.sum.plus_ok(), ..core },
            LogLevel::Normal,
            Message::Item(Verb::Move, item.name),
        ),
        (CopyPhase::Renaming { item }, Reply::Failed(_)) => wait_for(
            core,
            CopyPhase::Reinspect { item },
        ),
        (CopyPhase::Reinspect { item }, Reply::Facts(facts)) => dispatched(core, item, facts),
        (CopyPhase::MakeDir { item }, Reply::Done) => preceded(
            seq![Effect::Log(LogLevel::Normal, Message::CreateDirectory(item.name))],
            wait_for(
                CoreModel { sum: core.sum.plus_ok(), ..core },
                CopyPhase::OpenDir { item, created: true },
            ),
        ),
        (CopyPhase::MakeDir { item }, Reply::Failed(reason)) => erred(
            core,
            Message::CreateDirectoryFailure(item.name, reason),
        ),
        (CopyPhase::OpenDir { item, created }, Reply::Done) => wait_for(
            CoreModel {
                frames: core.frames.push(DirFrame { src: item.src, dst: item.dst, created }),
                ..core
            },
            CopyPhase::NextEntry,
        ),
        (CopyPhase::OpenDir { item, created }, Reply::Failed(reason)) => erred(
            core,
            Message::Failure(Verb::Copy, item.name, reason),
        ),
        (CopyPhase::Target { item, target }, Reply::Flag(exists)) => if exists {
            wait_for(core, CopyPhase::Conflict { item, target })
        } else {
            wait_for(core, CopyPhase::Begin { item, target })
        },
        (CopyPhase::Conflict { item, target }, Reply::Choice(choice)) => resolved(
            core,
            item,
            target,
            choice,
        ),
        (CopyPhase::Newer { item, target }, Reply::Times(a, b)) => if operation::counts_as_newer(a, b) {
            wait_for(core, CopyPhase::Begin { item, target })
        } else {
            passed_over(core, Message::Skip(item.name))
        },
        (CopyPhase::Begin { item, target }, Reply::Handle(handle)) => wait_for(
            core,
            CopyPhase::Parent { item, target, handle },
        ),
        (CopyPhase::Parent { item, target, handle }, Reply::Done) => wait_for(
            core,
            CopyPhase::Copying {
                item,
                target,
                handle,
                tracker: operation::fresh_tracker(),
                signal: CopySignal::Start,
            },
        ),
        (CopyPhase::Parent { item, target, handle }, Reply::Failed(reason)) => failed(
            core,
            item,
            handle,
            reason,
        ),
        (
            CopyPhase::Copying { item, target, handle, tracker, signal },
            Reply::Copying { .. },
        ) => progressed(core, item, target, handle, tracker, reply),
        (CopyPhase::Copying { item, target, handle, tracker, signal }, Reply::Done) => if core.plan.move_it {
            wait_for(core, CopyPhase::RemoveSource { item, handle })
        } else {
            completed(core, item, handle)
        },
        (CopyPhase::Copying { item, target, handle, tracker, signal }, Reply::Aborted) => aborted(
            core,
            item,
            target,
            handle,
        ),
        (
            CopyPhase::Copying { item, target, handle, tracker, signal },
            Reply::Failed(reason),
        ) => failed(core, item, handle, reason),
        (CopyPhase::RemoveSource { item, handle }, Reply::Done) => completed(core, item, handle),
        (CopyPhase::RemoveSource { item, handle }, Reply::Failed(reason)) => failed(
            core,
            item,
            handle,
            reason,
        ),
        _ => (state, Seq::empty()),
    }
}

/// The question that a copy waits to have answered.
pub open spec fn copy_ask(state: CopyModel) -> Ask<Txt> {
    match state.phase {
        CopyPhase::NextName | CopyPhase::PollEntry { .. } => Ask::Stop,
        CopyPhase::Roots { item } => Ask::Roots { src: item.src, dst: item.dst },
        CopyPhase::NextEntry => Ask::NextEntry(state.core.frames.last().src),
        CopyPhase::Inspect { item } | CopyPhase::Reinspect { item } => Ask::Inspect {
            src: item.src,
            dst: item.dst,
        },
        CopyPhase::Link { item, is_dir } => Ask::MakeLink { src: item.src, dst: item.dst, is_dir },
        CopyPhase::Renaming { item } => Ask::Rename { src: item.src, dst: item.dst },
        CopyPhase::MakeDir { item } => Ask::CreateDir(item.dst),
        CopyPhase::OpenDir { item, .. } => Ask::OpenDir(item.src),
        CopyPhase::Target { target, .. } => Ask::Exists(target),
        CopyPhase::Conflict { target, .. } => Ask::Conflict(winpath::path_display_name(target)),
        CopyPhase::Newer { item, target } => Ask::Times { src: item.src, dst: target },
        CopyPhase::Begin { item, .. } => Ask::BeginProgress(
            LogLevel::Normal,
            Message::Item(verb_of(state.core.plan.move_it), item.name),
        ),
        CopyPhase::Parent { target, .. } => Ask::CreateParent(target),
        CopyPhase::Copying { item, target, signal, .. } => Ask::CopyFile {
            src: item.src,
            dst: target,
            signal,
        },
        CopyPhase::RemoveSource { item, .. } => Ask::RemoveFile(item.src),
        CopyPhase::Ended => Ask::Ended(state.core.sum),
    }
}

/// What holds of every copy that is under way.
pub open spec fn copy_wf(state: CopyModel) -> bool {
    &&& 0 <= state.core.next <= state.core.plan.names.len()
    &&& state.phase is NextName ==> state.core.next < state.core.plan.names.len()
    &&& state.phase is NextEntry || state.phase is PollEntry ==> state.core.frames.len() > 0
}

/// The state of a copy before its first reply.
pub open spec fn copy_start(plan: PlanModel) -> CopyOutcome {
    preceded(
        seq![operation::start_line(verb_of(plan.move_it))],
        after_item(CoreModel { plan, next: 0, frames: Seq::empty(), sum: operation::no_results() }),
    )
}

/// The verb of an operation.
fn verb(move_it: bool) -> (verb: Verb)
    ensures
        verb == verb_of(move_it),
{
    if move_it {
        Verb::Move
    } else {
        Verb::Copy
    }
}

/// The form of an absolute path in which two paths are held against each other.
fn norm_key(abs: &str) -> (key: String)
    ensures
        key@ == compare_form(abs@),
{
    let slashes = text::replace_char(abs, '/', '\\');
    outside::lowercase(text::trim_end_char(slashes.as_str(), '\\').as_str())
}

/// Whether a source and its destination are the same place.
fn same_path(item: &Item, src: &Option<String>, dst: &Option<String>) -> (same: bool)
    ensures
        same == same_place(item@, src.deep_view(), dst.deep_view()),
{
    match (src, dst) {
        (Some(a), Some(b)) => text::same(norm_key(a.as_str()).as_str(), norm_key(b.as_str()).as_str()),
        _ => winpath::same(item.src.as_str(), item.dst.as_str()),
    }
}

/// Whether a destination is its source, or lies below it.
fn dst_within_src(src: &Option<String>, dst: &Option<String>) -> (within: bool)
    ensures
        within == lies_within(src.deep_view(), dst.deep_view()),
{
    match (src, dst) {
        (Some(a), Some(b)) => {
            let mut s = norm_key(a.as_str());
            let d = norm_key(b.as_str());
            if text::same(d.as_str(), s.as_str()) {
                return true;
            }
            s.push('\\');
            text::starts_with(d.as_str(), s.as_str())
        },
        _ => false,
    }
}

impl CopyRun {
    /// What holds of every copy that is under way.
    pub open spec fn wf(self) -> bool {
        copy_wf(self@)
    }

    /// The copy waits for `phase`.
    fn waiting(core: CopyCore, phase: CopyPhase, effects: Vec<Effect>) -> (out: (
        CopyRun,
        Vec<Effect>,
    ))
        ensures
            (out.0@, operation::effects_of(out.1@)) == (
                CopyModel { core: core@, phase: phase@ },
                operation::effects_of(effects@),
            ),
    {
        (CopyRun { core, phase }, effects)
    }

    /// The copy ends.
    fn end(core: CopyCore, effects: Vec<Effect>) -> (out: (CopyRun, Vec<Effect>))
        ensures
            (out.0@, operation::effects_of(out.1@)) == preceded(
                operation::effects_of(effects@),
                ended(core@),
            ),
    {
        let lines = closing(verb(core.plan.move_it), ResultStyle::Copy, core.sum);
        let all = followed_by(effects, lines);
        (CopyRun { core, phase: CopyPhase::Ended }, all)
    }

    /// The copy is stopped.
    fn cancel(core: CopyCore, effects: Vec<Effect>) -> (out: (CopyRun, Vec<Effect>))
        ensures
            (out.0@, operation::effects_of(out.1@)) == preceded(
                operation::effects_of(effects@),
                cancelled(core@),
            ),
    {
        let stopped = CopyCore { sum: core.sum.with_stop(), ..core };
        CopyRun::end(stopped, effects)
    }

    /// An item is done.
    fn next_item(core: CopyCore, effects: Vec<Effect>) -> (out: (CopyRun, Vec<Effect>))
        requires
            core.next <= core.plan.names.len(),
        ensures
            (out.0@, operation::effects_of(out.1@)) == preceded(
                operation::effects_of(effects@),
                after_item(core@),
            ),
            out.0.wf(),
    {
        proof {
            let e = operation::effects_of(effects@);
            assert(e + Seq::<Effect<Txt>>::empty() =~= e);
        }
        if core.frames.len() > 0 {
            (CopyRun { core, phase: CopyPhase::NextEntry }, effects)
        } else if core.next < core.plan.names.len() {
            (CopyRun { core, phase: CopyPhase::NextName }, effects)
        } else {
            CopyRun::end(core, effects)
        }
    }

    /// A line is logged and the item is done.
    fn log_item(core: CopyCore, effects: Vec<Effect>, level: LogLevel, line: Message) -> (out: (
        CopyRun,
        Vec<Effect>,
    ))
        requires
            core.next <= core.plan.names.len(),
        ensures
            (out.0@, operation::effects_of(out.1@)) == preceded(
                operation::effects_of(effects@),
                logged(core@, level, line@),
            ),
            out.0.wf(),
    {
        proof {
            let e = operation::effects_of(effects@);
            let x = Effect::Log(level, line@);
            let rest = after_item(core@).1;
            assert(e.push(x) + rest =~= e + (seq![x] + rest));
        }
        CopyRun::next_item(core, and(effects, Effect::Log(level, line)))
    }

    /// An item is counted as an error.
    fn fail_item(core: CopyCore, effects: Vec<Effect>, line: Message) -> (out: (
        CopyRun,
        Vec<Effect>,
    ))
        requires
            core.next <= core.plan.names.len(),
        ensures
            (out.0@, operation::effects_of(out.1@)) == preceded(
                operation::effects_of(effects@),
                erred(core@, line@),
            ),
            out.0.wf(),
    {
        let counted = CopyCore { sum: core.sum.with_err(), ..core };
        CopyRun::log_item(counted, effects, LogLevel::Error, line)
    }

    /// An item is left out.
    fn skip_item(core: CopyCore, effects: Vec<Effect>, line: Message) -> (out: (
        CopyRun,
        Vec<Effect>,
    ))
        requires
            core.next <= core.plan.names.len(),
        ensures
            (out.0@, operation::effects_of(out.1@)) == preceded(
                operation::effects_of(effects@),
                passed_over(core@, line@),
            ),
            out.0.wf(),
    {
        let counted = CopyCore { sum: core.sum.with_skip(), ..core };
        CopyRun::log_item(counted, effects, LogLevel::Warning, line)
    }

    /// What becomes of an item that is no link and was not moved in one go.
    fn dispatch(core: CopyCore, item: Item, facts: ItemFacts) -> (out: (CopyRun, Vec<Effect>))
        requires
            core.next <= core.plan.names.len(),
        ensures
            (out.0@, operation::effects_of(out.1@)) == dispatched(core@, item@, facts),
            out.0.wf(),
    {
        proof {
            lemma_nothing_first();
        }
        if facts.dst_exists && facts.src_is_dir != facts.dst_is_dir {
            let line = Message::KindMismatch(verb(core.plan.move_it), item.name);
            CopyRun::skip_item(core, nothing(), line)
        } else if !facts.src_is_dir {
            let target = item.dst.clone();
            CopyRun::waiting(core, CopyPhase::Target { item, target }, nothing())
        } else if facts.dst_exists {
            let line = Effect::Log(LogLevel::Warning, Message::AlreadyExists(item.name.clone()));
            let effects = and(nothing(), line);
            let counted = CopyCore { sum: core.sum.with_skip(), ..core };
            assert(operation::effects_of(effects@) =~= seq![line@] + Seq::empty());
            CopyRun::waiting(counted, CopyPhase::OpenDir { item, created: false }, effects)
        } else {
            CopyRun::waiting(core, CopyPhase::MakeDir { item }, nothing())
        }
    }

    /// The first look at an item.
    fn inspect(core: CopyCore, item: Item, facts: ItemFacts) -> (out: (CopyRun, Vec<Effect>))
        requires
            core.next <= core.plan.names.len(),
        ensures
            (out.0@, operation::effects_of(out.1@)) == inspected(core@, item@, facts),
            out.0.wf(),
    {
        proof {
            lemma_nothing_first();
        }
        match facts.link {
            Some(is_dir) => if facts.dst_exists {
                CopyRun::skip_item(core, nothing(), Message::AlreadyExists(item.name))
            } else {
                CopyRun::waiting(core, CopyPhase::Link { item, is_dir }, nothing())
            },
            None => if core.plan.move_it && !facts.dst_exists {
                CopyRun::waiting(core, CopyPhase::Renaming { item }, nothing())
            } else {
                CopyRun::dispatch(core, item, facts)
            },
        }
    }

    /// Where the two roots of a name lead.
    fn place(
        core: CopyCore,
        item: Item,
        src: Option<String>,
        dst: Option<String>,
        src_is_dir: bool,
    ) -> (out: (CopyRun, Vec<Effect>))
        requires
            core.next <= core.plan.names.len(),
        ensures
            (out.0@, operation::effects_of(out.1@)) == placed(
                core@,
                item@,
                src.deep_view(),
                dst.deep_view(),
                src_is_dir,
            ),
            out.0.wf(),
    {
        proof {
            lemma_nothing_first();
        }
        let verb = verb(core.plan.move_it);
        if same_path(&item, &src, &dst) {
            CopyRun::fail_item(core, nothing(), Message::SamePath(verb, item.name))
        } else if src_is_dir && dst_within_src(&src, &dst) {
            CopyRun::fail_item(core, nothing(), Message::IntoSelf(verb, item.name))
        } else {
            let name = winpath::display_name(item.src.as_str());
            let item = Item { src: item.src, dst: item.dst, name };
            CopyRun::waiting(core, CopyPhase::Inspect { item }, nothing())
        }
    }

    /// A directory has been gone through.
    fn leave_directory(core: CopyCore) -> (out: (CopyRun, Vec<Effect>))
        requires
            core.next <= core.plan.names.len(),
            core.frames.len() > 0,
        ensures
            (out.0@, operation::effects_of(out.1@)) == left_directory(core@),
            out.0.wf(),
    {
        let CopyCore { plan, next, frames, sum } = core;
        let mut frames = frames;
        let ghost before = frames@;
        let mut effects = nothing();
        if let Some(frame) = frames.pop() {
            proof {
                assert(frames@.map_values(|f: DirFrame| f@) =~= before.map_values(
                    |f: DirFrame| f@,
                ).drop_last());
            }
            if frame.created {
                effects = and(
                    effects,
                    Effect::ApplyDirMetadata { src: frame.src.clone(), dst: frame.dst },
                );
            }
            if plan.move_it {
                effects = and(effects, Effect::RemoveDir(frame.src));
            }
            proof {
                let metadata = if frame.created {
                    seq![Effect::ApplyDirMetadata { src: frame.src@, dst: frame.dst@ }]
                } else {
                    Seq::empty()
                };
                let removal = if plan.move_it {
                    seq![Effect::RemoveDir(frame.src@)]
                } else {
                    Seq::empty()
                };
                assert(operation::effects_of(effects@) =~= metadata + removal);
            }
        }
        CopyRun::next_item(CopyCore { plan, next, frames, sum }, effects)
    }

    /// A link was made again.
    fn link(core: CopyCore, item: Item, is_dir: bool) -> (out: (CopyRun, Vec<Effect>))
        requires
            core.next <= core.plan.names.len(),
        ensures
            (out.0@, operation::effects_of(out.1@)) == linked(core@, item@, is_dir),
            out.0.wf(),
    {
        let line = Message::Item(verb(core.plan.move_it), item.name);
        let mut effects = and(nothing(), Effect::Log(LogLevel::Normal, line));
        if core.plan.move_it {
            effects = and(effects, Effect::RemoveLink { path: item.src, is_dir });
        }
        proof {
            let line = Effect::Log(LogLevel::Normal, line@);
            assert(operation::effects_of(effects@) =~= if core.plan.move_it {
                seq![line, Effect::RemoveLink { path: item.src@, is_dir }]
            } else {
                seq![line]
            });
        }
        CopyRun::next_item(CopyCore { sum: core.sum.with_ok(), ..core }, effects)
    }

    /// What becomes of a file whose target exists.
    fn resolve(core: CopyCore, item: Item, target: String, choice: ConflictResolution) -> (out: (
        CopyRun,
        Vec<Effect>,
    ))
        requires
            core.next <= core.plan.names.len(),
        ensures
            (out.0@, operation::effects_of(out.1@)) == resolved(core@, item@, target@, choice@),
            out.0.wf(),
    {
        proof {
            lemma_nothing_first();
        }
        match choice {
            ConflictResolution::Newest => {
                CopyRun::waiting(core, CopyPhase::Newer { item, target }, nothing())
            },
            ConflictResolution::Overwrite => {
                CopyRun::waiting(core, CopyPhase::Begin { item, target }, nothing())
            },
            ConflictResolution::OverwriteForce => {
                let effects = and(nothing(), Effect::ClearAttributes(target.clone()));
                assert(operation::effects_of(effects@) =~= seq![Effect::ClearAttributes(target@)]
                    + Seq::empty());
                CopyRun::waiting(core, CopyPhase::Begin { item, target }, effects)
            },
            ConflictResolution::Rename(new) => {
                let current = winpath::display_name(target.as_str());
                if new.as_str().is_empty() || text::same(new.as_str(), current.as_str()) {
                    CopyRun::skip_item(core, nothing(), Message::Skip(item.name))
                } else {
                    let target = winpath::with_file_name(target.as_str(), new.as_str());
                    CopyRun::waiting(core, CopyPhase::Target { item, target }, nothing())
                }
            },
            ConflictResolution::Skip => {
                CopyRun::skip_item(core, nothing(), Message::Skip(item.name))
            },
            ConflictResolution::Cancel => CopyRun::cancel(core, nothing()),
        }
    }

    /// A file was copied.
    fn complete(core: CopyCore, item: Item, handle: ProgressHandle) -> (out: (CopyRun, Vec<Effect>))
        requires
            core.next <= core.plan.names.len(),
        ensures
            (out.0@, operation::effects_of(out.1@)) == completed(core@, item@, handle),
            out.0.wf(),
    {
        let line = Message::Item(verb(core.plan.move_it), item.name);
        let effects = and(nothing(), Effect::UpdateProgress(handle, line));
        assert(operation::effects_of(effects@) =~= seq![Effect::UpdateProgress(handle, line@)]);
        CopyRun::next_item(CopyCore { sum: core.sum.with_ok(), ..core }, effects)
    }

    /// A file could not be copied.
    fn fail(core: CopyCore, item: Item, handle: ProgressHandle, reason: String) -> (out: (
        CopyRun,
        Vec<Effect>,
    ))
        requires
            core.next <= core.plan.names.len(),
        ensures
            (out.0@, operation::effects_of(out.1@)) == failed(core@, item@, handle, reason@),
            out.0.wf(),
    {
        let verb = verb(core.plan.move_it);
        let line = Message::Item(verb, item.name.clone());
        let effects = and(nothing(), Effect::UpdateProgress(handle, line));
        assert(operation::effects_of(effects@) =~= seq![Effect::UpdateProgress(handle, line@)]);
        CopyRun::fail_item(core, effects, Message::Failure(verb, item.name, reason))
    }

    /// News of a running copy.
    fn progress(
        core: CopyCore,
        item: Item,
        target: String,
        handle: ProgressHandle,
        tracker: ProgressTracker,
        news: (u64, u64, u64, bool),
    ) -> (out: (CopyRun, Vec<Effect>))
        requires
            core.next <= core.plan.names.len(),
        ensures
            (out.0@, operation::effects_of(out.1@)) == progressed(
                core@,
                item@,
                target@,
                handle,
                tracker,
                (Reply::Copying {
                    elapsed_secs: news.0,
                    transferred: news.1,
                    total: news.2,
                    cancelled: news.3,
                }),
            ),
            out.0.wf(),
    {
        let mut tracker = tracker;
        let mut effects = nothing();
        match tracker.tick_with_elapsed(news.0, news.1, news.2) {
            Some(pct) => {
                let line = Message::ItemProgress(verb(core.plan.move_it), item.name.clone(), pct);
                effects = and(effects, Effect::UpdateProgress(handle, line));
                assert(operation::effects_of(effects@) =~= seq![
                    Effect::UpdateProgress(handle, line@),
                ]);
            },
            None => {},
        }
        let signal = if news.3 {
            CopySignal::Abort
        } else {
            CopySignal::Continue
        };
        CopyRun::waiting(core, CopyPhase::Copying { item, target, handle, tracker, signal }, effects)
    }

    /// A copy was aborted in the middle of a file.
    fn abort(core: CopyCore, item: Item, target: String, handle: ProgressHandle) -> (out: (
        CopyRun,
        Vec<Effect>,
    ))
        requires
            core.next <= core.plan.names.len(),
        ensures
            (out.0@, operation::effects_of(out.1@)) == aborted(core@, item@, target@, handle),
            out.0.wf(),
    {
        let line = Message::Item(verb(core.plan.move_it), item.name);
        let effects = and(
            and(nothing(), Effect::RemoveFile(target)),
            Effect::UpdateProgress(handle, line),
        );
        assert(operation::effects_of(effects@) =~= seq![
            Effect::RemoveFile(target@),
            Effect::UpdateProgress(handle, line@),
        ]);
        CopyRun::cancel(core, effects)
    }

    /// The question that the copy waits to have answered.
    pub fn ask(&self) -> (ask: Ask)
        requires
            self.wf(),
        ensures
            ask@ == copy_ask(self@),
    {
        match &self.phase {
            CopyPhase::NextName | CopyPhase::PollEntry { .. } => Ask::Stop,
            CopyPhase::Roots { item } => Ask::Roots { src: item.src.clone(), dst: item.dst.clone() },
            CopyPhase::NextEntry => {
                let last = self.core.frames.len() - 1;
                Ask::NextEntry(self.core.frames[last].src.clone())
            },
            CopyPhase::Inspect { item } | CopyPhase::Reinspect { item } => Ask::Inspect {
                src: item.src.clone(),
                dst: item.dst.clone(),
            },
            CopyPhase::Link { item, is_dir } => Ask::MakeLink {
                src: item.src.clone(),
                dst: item.dst.clone(),
                is_dir: *is_dir,
            },
            CopyPhase::Renaming { item } => Ask::Rename {
                src: item.src.clone(),
                dst: item.dst.clone(),
            },
            CopyPhase::MakeDir { item } => Ask::CreateDir(item.dst.clone()),
            CopyPhase::OpenDir { item, .. } => Ask::OpenDir(item.src.clone()),
            CopyPhase::Target { target, .. } => Ask::Exists(target.clone()),
            CopyPhase::Conflict { target, .. } => Ask::Conflict(
                winpath::display_name(target.as_str()),
            ),
            CopyPhase::Newer { item, target } => Ask::Times {
                src: item.src.clone(),
                dst: target.clone(),
            },
            CopyPhase::Begin { item, .. } => Ask::BeginProgress(
                LogLevel::Normal,
                Message::Item(verb(self.core.plan.move_it), item.name.clone()),
            ),
            CopyPhase::Parent { target, .. } => Ask::CreateParent(target.clone()),
            CopyPhase::Copying { item, target, signal, .. } => Ask::CopyFile {
                src: item.src.clone(),
                dst: target.clone(),
                signal: *signal,
            },
            CopyPhase::RemoveSource { item, .. } => Ask::RemoveFile(item.src.clone()),
            CopyPhase::Ended => Ask::Ended(self.core.sum),
        }
    }

    /// The item of an entry of the innermost directory.
    fn entry_item(core: &CopyCore, name: String) -> (item: Item)
        requires
            core.frames.len() > 0,
        ensures
            item@ == renamed_by_path(
                item_in(core@.frames.last().src, core@.frames.last().dst, name@),
            ),
    {
        let frame = &core.frames[core.frames.len() - 1];
        let src = winpath::join(frame.src.as_str(), name.as_str());
        let dst = winpath::join(frame.dst.as_str(), name.as_str());
        let name = winpath::display_name(src.as_str());
        Item { src, dst, name }
    }

    /// What the copy does with a reply while it looks for the next item.
    fn advance_walk(core: CopyCore, phase: CopyPhase, reply: Reply) -> (out: (CopyRun, Vec<Effect>))
        requires
            copy_wf((CopyModel { core: core@, phase: phase@ })),
            phase is NextName || phase is Roots || phase is NextEntry || phase is PollEntry,
        ensures
            (out.0@, operation::effects_of(out.1@)) == copy_step(
                (CopyModel { core: core@, phase: phase@ }),
                reply@,
            ),
            out.0.wf(),
    {
        proof {
            lemma_nothing_first();
        }
        assert(core@.plan.names.len() == core.plan.names.len());
        match (phase, reply) {
            (CopyPhase::NextName, Reply::Flag(stop)) => if stop {
                CopyRun::cancel(core, nothing())
            } else {
                let name = core.plan.names[core.next].clone();
                let src = winpath::join(core.plan.src_dir.as_str(), name.as_str());
                let dst = winpath::join(core.plan.dst_dir.as_str(), name.as_str());
                let core = CopyCore { next: core.next + 1, ..core };
                let item = Item { src, dst, name };
                CopyRun::waiting(core, CopyPhase::Roots { item }, nothing())
            },
            (CopyPhase::Roots { item }, Reply::Roots { src, dst, src_is_dir }) => {
                CopyRun::place(core, item, src, dst, src_is_dir)
            },
            (CopyPhase::NextEntry, Reply::Entry(name)) => {
                CopyRun::waiting(core, CopyPhase::PollEntry { entry: Some(name) }, nothing())
            },
            (CopyPhase::NextEntry, Reply::Unreadable) => {
                CopyRun::waiting(core, CopyPhase::PollEntry { entry: None }, nothing())
            },
            (CopyPhase::NextEntry, Reply::End) => CopyRun::leave_directory(core),
            (CopyPhase::PollEntry { entry }, Reply::Flag(stop)) => if stop {
                CopyRun::cancel(core, nothing())
            } else {
                match entry {
                    Some(name) => {
                        let item = CopyRun::entry_item(&core, name);
                        CopyRun::waiting(core, CopyPhase::Inspect { item }, nothing())
                    },
                    None => CopyRun::next_item(core, nothing()),
                }
            },
            (phase, _) => CopyRun::waiting(core, phase, nothing()),
        }
    }

    /// What the copy does with a reply about an item.
    fn advance_item(core: CopyCore, phase: CopyPhase, reply: Reply) -> (out: (CopyRun, Vec<Effect>))
        requires
            copy_wf((CopyModel { core: core@, phase: phase@ })),
            phase is Inspect || phase is Link || phase is Renaming || phase is Reinspect || phase is MakeDir || phase is OpenDir,
        ensures
            (out.0@, operation::effects_of(out.1@)) == copy_step(
                (CopyModel { core: core@, phase: phase@ }),
                reply@,
            ),
            out.0.wf(),
    {
        proof {
            lemma_nothing_first();
        }
        assert(core@.plan.names.len() == core.plan.names.len());
        let verb = verb(core.plan.move_it);
        match (phase, reply) {
            (CopyPhase::Inspect { item }, Reply::Facts(facts)) => CopyRun::inspect(core, item, facts),
            (CopyPhase::Link { item, is_dir }, Reply::Done) => CopyRun::link(core, item, is_dir),
            (CopyPhase::Link { item, .. }, Reply::Failed(_)) => {
                CopyRun::skip_item(core, nothing(), Message::SkipLink(verb, item.name))
            },
            (CopyPhase::Renaming { item }, Reply::Done) => {
                let counted = CopyCore { sum: core.sum.with_ok(), ..core };
                let line = Message::Item(Verb::Move, item.name);
                CopyRun::log_item(counted, nothing(), LogLevel::Normal, line)
            },
            (CopyPhase::Renaming { item }, Reply::Failed(_)) => {
                CopyRun::waiting(core, CopyPhase::Reinspect { item }, nothing())
            },
            (CopyPhase::Reinspect { item }, Reply::Facts(facts)) => {
                CopyRun::dispatch(core, item, facts)
            },
            (CopyPhase::MakeDir { item }, Reply::Done) => {
                let line = Effect::Log(
                    LogLevel::Normal,
                    Message::CreateDirectory(item.name.clone()),
                );
                let effects = and(nothing(), line);
                assert(operation::effects_of(effects@) =~= seq![line@] + Seq::empty());
                let counted = CopyCore { sum: core.sum.with_ok(), ..core };
                CopyRun::waiting(counted, CopyPhase::OpenDir { item, created: true }, effects)
            },
            (CopyPhase::MakeDir { item }, Reply::Failed(reason)) => {
                let line = Message::CreateDirectoryFailure(item.name, reason);
                CopyRun::fail_item(core, nothing(), line)
            },
            (CopyPhase::OpenDir { item, created }, Reply::Done) => {
                let CopyCore { plan, next, frames, sum } = core;
                let mut frames = frames;
                let ghost before = frames@;
                let frame = DirFrame { src: item.src, dst: item.dst, created };
                frames.push(frame);
                assert(frames@.map_values(|f: DirFrame| f@) =~= before.map_values(
                    |f: DirFrame| f@,
                ).push(frame@));
                let core = CopyCore { plan, next, frames, sum };
                CopyRun::waiting(core, CopyPhase::NextEntry, nothing())
            },
            (CopyPhase::OpenDir { item, .. }, Reply::Failed(reason)) => {
                let line = Message::Failure(Verb::Copy, item.name, reason);
                CopyRun::fail_item(core, nothing(), line)
            },
            (phase, _) => CopyRun::waiting(core, phase, nothing()),
        }
    }

    /// What the copy does with a reply about the target of a file.
    fn advance_target(core: CopyCore, phase: CopyPhase, reply: Reply) -> (out: (CopyRun, Vec<Effect>))
        requires
            copy_wf((CopyModel { core: core@, phase: phase@ })),
            phase is Target || phase is Conflict || phase is Newer || phase is Begin,
        ensures
            (out.0@, operation::effects_of(out.1@)) == copy_step(
                (CopyModel { core: core@, phase: phase@ }),
                reply@,
            ),
            out.0.wf(),
    {
        proof {
            lemma_nothing_first();
        }
        assert(core@.plan.names.len() == core.plan.names.len());
        match (phase, reply) {
            (CopyPhase::Target { item, target }, Reply::Flag(exists)) => if exists {
                CopyRun::waiting(core, CopyPhase::Conflict { item, target }, nothing())
            } else {
                CopyRun::waiting(core, CopyPhase::Begin { item, target }, nothing())
            },
            (CopyPhase::Conflict { item, target }, Reply::Choice(choice)) => {
                CopyRun::resolve(core, item, target, choice)
            },
            (CopyPhase::Newer { item, target }, Reply::Times(a, b)) => if is_newer(a, b) {
                CopyRun::waiting(core, CopyPhase::Begin { item, target }, nothing())
            } else {
                CopyRun::skip_item(core, nothing(), Message::Skip(item.name))
            },
            (CopyPhase::Begin { item, target }, Reply::Handle(handle)) => {
                CopyRun::waiting(core, CopyPhase::Parent { item, target, handle }, nothing())
            },
            (phase, _) => CopyRun::waiting(core, phase, nothing()),
        }
    }

    /// What the copy does with a reply about a running copy.
    fn advance_transfer(core: CopyCore, phase: CopyPhase, reply: Reply) -> (out: (CopyRun, Vec<Effect>))
        requires
            copy_wf((CopyModel { core: core@, phase: phase@ })),
            phase is Parent || phase is Copying || phase is RemoveSource || phase is Ended,
        ensures
            (out.0@, operation::effects_of(out.1@)) == copy_step(
                (CopyModel { core: core@, phase: phase@ }),
                reply@,
            ),
            out.0.wf(),
    {
        proof {
            lemma_nothing_first();
        }
        assert(core@.plan.names.len() == core.plan.names.len());
        match (phase, reply) {
            (CopyPhase::Parent { item, target, handle }, Reply::Done) => {
                let tracker = ProgressTracker::new();
                let signal = CopySignal::Start;
                CopyRun::waiting(
                    core,
                    CopyPhase::Copying { item, target, handle, tracker, signal },
                    nothing(),
                )
            },
            (CopyPhase::Parent { item, handle, .. }, Reply::Failed(reason)) => {
                CopyRun::fail(core, item, handle, reason)
            },
            (
                CopyPhase::Copying { item, target, handle, tracker, .. },
                Reply::Copying { elapsed_secs, transferred, total, cancelled },
            ) => {
                let news = (elapsed_secs, transferred, total, cancelled);
                CopyRun::progress(core, item, target, handle, tracker, news)
            },
            (CopyPhase::Copying { item, handle, .. }, Reply::Done) => if core.plan.move_it {
                CopyRun::waiting(core, CopyPhase::RemoveSource { item, handle }, nothing())
            } else {
                CopyRun::complete(core, item, handle)
            },
            (CopyPhase::Copying { item, target, handle, .. }, Reply::Aborted) => {
                CopyRun::abort(core, item, target, handle)
            },
            (CopyPhase::Copying { item, handle, .. }, Reply::Failed(reason)) => {
                CopyRun::fail(core, item, handle, reason)
            },
            (CopyPhase::RemoveSource { item, handle }, Reply::Done) => {
                CopyRun::complete(core, item, handle)
            },
            (CopyPhase::RemoveSource { item, handle }, Reply::Failed(reason)) => {
                CopyRun::fail(core, item, handle, reason)
            },
            (phase, _) => CopyRun::waiting(core, phase, nothing()),
        }
    }

    /// What the copy does with a reply.
    fn advance(self, reply: Reply) -> (out: (CopyRun, Vec<Effect>))
        requires
            self.wf(),
        ensures
            (out.0@, operation::effects_of(out.1@)) == copy_step(self@, reply@),
            out.0.wf(),
    {
        let CopyRun { core, phase } = self;
        match &phase {
            CopyPhase::NextName | CopyPhase::Roots { .. } | CopyPhase::NextEntry
            | CopyPhase::PollEntry { .. } => CopyRun::advance_walk(core, phase, reply),
            CopyPhase::Inspect { .. } | CopyPhase::Link { .. } | CopyPhase::Renaming { .. }
            | CopyPhase::Reinspect { .. } | CopyPhase::MakeDir { .. } | CopyPhase::OpenDir { .. } => {
                CopyRun::advance_item(core, phase, reply)
            },
            CopyPhase::Target { .. } | CopyPhase::Conflict { .. } | CopyPhase::Newer { .. }
            | CopyPhase::Begin { .. } => CopyRun::advance_target(core, phase, reply),
            CopyPhase::Parent { .. } | CopyPhase::Copying { .. } | CopyPhase::RemoveSource { .. }
            | CopyPhase::Ended => CopyRun::advance_transfer(core, phase, reply),
        }
    }

    /// Takes the answer to the last question, and says what is to be done next.
    pub fn step(self, reply: Reply) -> (out: (CopyRun, Step))
        requires
            self.wf(),
        ensures
            out.0.wf(),
            (out.0@, operation::effects_of(out.1.effects@)) == copy_step(self@, reply@),
            out.1.ask@ == copy_ask(out.0@),
    {
        let (run, effects) = self.advance(reply);
        let ask = run.ask();
        (run, Step { effects, ask })
    }
}

proof fn lemma_nothing_first()
    ensures
        forall|rest: CopyOutcome| #[trigger] preceded(Seq::empty(), rest) == rest,
{
    assert forall|rest: CopyOutcome| #[trigger] preceded(Seq::empty(), rest) == rest by {
        assert(Seq::<Effect<Txt>>::empty() + rest.1 =~= rest.1);
    }
}

/// Starts to copy, or to move where `move_it` says so, `names` from `src_dir` to `dst_dir`.
pub fn run_copy(src_dir: &str, dst_dir: &str, names: Vec<String>, move_it: bool) -> (out: (
    CopyRun,
    Step,
))
    ensures
        out.0.wf(),
        (out.0@, operation::effects_of(out.1.effects@)) == copy_start(
            (PlanModel { src_dir: src_dir@, dst_dir: dst_dir@, names: names.deep_view(), move_it }),
        ),
        out.1.ask@ == copy_ask(out.0@),
{
    let plan = CopyPlan { src_dir: text::copy(src_dir), dst_dir: text::copy(dst_dir), names, move_it };
    let frames: Vec<DirFrame> = Vec::new();
    let core = CopyCore { plan, next: 0, frames, sum: OpSummary::default() };
    assert(core@.frames =~= Seq::<DirFrame<Txt>>::empty());
    let (run, effects) = CopyRun::next_item(core, opening(verb(move_it)));
    let ask = run.ask();
    (run, Step { effects, ask })
}

/// A copy after all of `replies`, and everything that was to be carried out on the way.
pub open spec fn copy_run(state: CopyModel, replies: Seq<Reply<Txt>>) -> CopyOutcome
    decreases replies.len(),
{
    if replies.len() == 0 {
        (state, Seq::empty())
    } else {
        let (middle, before) = copy_run(state, replies.drop_last());
        let (last, now) = copy_step(middle, replies.last());
        (last, before + now)
    }
}

proof fn lemma_step_counts(state: CopyModel, reply: Reply<Txt>)
    ensures
        operation::counted(
            state.core.sum.err,
            operation::errors_in(copy_step(state, reply).1),
            copy_step(state, reply).0.core.sum.err,
        ),
        operation::counted(
            state.core.sum.skip,
            operation::skips_in(copy_step(state, reply).1),
            copy_step(state, reply).0.core.sum.skip,
        ),
        copy_step(state, reply).0.core.plan == state.core.plan,
{
    lemma_simple_counts();
    let core = state.core;
    match (state.phase, reply) {
        (CopyPhase::Link { item, is_dir }, Reply::Done) => {
            operation::lemma_lines_push();
            operation::lemma_lines_add();
            operation::lemma_lines_of_pair(
                Effect::Log(
                    LogLevel::Normal,
                    Message::Item(verb_of(core.plan.move_it), item.name),
                ),
                Effect::RemoveLink { path: item.src, is_dir },
            );
        },
        (CopyPhase::Copying { item, target, handle, tracker, signal }, Reply::Aborted) => {
            operation::lemma_lines_of_pair(
                Effect::RemoveFile(target),
                Effect::UpdateProgress(
                    handle,
                    Message::Item(verb_of(core.plan.move_it), item.name),
                ),
            );
            operation::lemma_lines_add();
        },
        (CopyPhase::NextEntry, Reply::End) => {
            let frame = core.frames.last();
            let metadata = Effect::ApplyDirMetadata { src: frame.src, dst: frame.dst };
            let removal = Effect::RemoveDir(frame.src);
            operation::lemma_lines_push();
            let effects = (if frame.created {
                seq![metadata]
            } else {
                Seq::empty()
            }) + (if core.plan.move_it {
                seq![removal]
            } else {
                Seq::empty()
            });
            operation::lemma_lines_add();
            assert(operation::errors_in(effects) == 0);
            assert(operation::skips_in(effects) == 0);
        },
        _ => {
            operation::lemma_lines_push();
            operation::lemma_lines_add();
        },
    }
}

/// What the simplest outcomes of a step count.
proof fn lemma_simple_counts()
    ensures
        forall|core: CoreModel|
            #![trigger ended(core)]
            operation::errors_in(ended(core).1) == 0 && operation::skips_in(ended(core).1) == 0,
        forall|core: CoreModel|
            #![trigger after_item(core)]
            operation::errors_in(after_item(core).1) == 0 && operation::skips_in(after_item(core).1)
                == 0 && after_item(core).0.core == core,
        forall|core: CoreModel, level: LogLevel, line: Message<Txt>|
            #![trigger logged(core, level, line)]
            operation::errors_in(logged(core, level, line).1) == (if operation::is_error_line(
                Effect::Log(level, line),
            ) {
                1nat
            } else {
                0
            }) && operation::skips_in(logged(core, level, line).1) == (if operation::is_skip_line(
                Effect::Log(level, line),
            ) {
                1nat
            } else {
                0
            }) && logged(core, level, line).0.core == core,
{
    operation::lemma_lines_push();
    assert forall|core: CoreModel|
        #![trigger ended(core)]
        operation::errors_in(ended(core).1) == 0 && operation::skips_in(ended(core).1) == 0 by {
        let lines = operation::closing_lines(
            verb_of(core.plan.move_it),
            ResultStyle::Copy,
            core.sum,
        );
        assert(lines == Seq::empty().push(lines[0]).push(lines[1]));
    }
    assert forall|core: CoreModel, level: LogLevel, line: Message<Txt>|
        #![trigger logged(core, level, line)]
        operation::errors_in(logged(core, level, line).1) == (if operation::is_error_line(
            Effect::Log(level, line),
        ) {
            1nat
        } else {
            0
        }) && operation::skips_in(logged(core, level, line).1) == (if operation::is_skip_line(
            Effect::Log(level, line),
        ) {
            1nat
        } else {
            0
        }) && logged(core, level, line).0.core == core by {
        let x = Effect::Log(level, line);
        assert(operation::errors_in(Seq::empty().push(x)) == (if operation::is_error_line(x) {
            1nat
        } else {
            0
        }));
        assert(operation::skips_in(Seq::empty().push(x)) == (if operation::is_skip_line(x) {
            1nat
        } else {
            0
        }));
        operation::lemma_lines_of_two(seq![x], after_item(core).1);
    }
}

/// Every error that a copy counts has its own error line in the log, and every item that it
/// leaves out its own warning; no line of these kinds goes uncounted. (A count that has
/// reached the largest number stays there.)
pub proof fn law_copy_counts_its_lines(state: CopyModel, replies: Seq<Reply<Txt>>)
    ensures
        operation::counted(
            state.core.sum.err,
            operation::errors_in(copy_run(state, replies).1),
            copy_run(state, replies).0.core.sum.err,
        ),
        operation::counted(
            state.core.sum.skip,
            operation::skips_in(copy_run(state, replies).1),
            copy_run(state, replies).0.core.sum.skip,
        ),
    decreases replies.len(),
{
    if replies.len() > 0 {
        law_copy_counts_its_lines(state, replies.drop_last());
        let (middle, before) = copy_run(state, replies.drop_last());
        lemma_step_counts(middle, replies.last());
        operation::lemma_lines_of_two(before, copy_step(middle, replies.last()).1);
        lemma_step_is_monotonic(middle, replies.last());
    }
}

proof fn lemma_step_is_monotonic(state: CopyModel, reply: Reply<Txt>)
    ensures
        state.core.sum.err <= copy_step(state, reply).0.core.sum.err,
        state.core.sum.skip <= copy_step(state, reply).0.core.sum.skip,
        state.core.sum.ok <= copy_step(state, reply).0.core.sum.ok,
        state.core.sum.cancelled ==> copy_step(state, reply).0.core.sum.cancelled,
{
}

/// Every state that a copy gets to is well-formed.
pub proof fn law_copy_stays_well_formed(state: CopyModel, reply: Reply<Txt>)
    requires
        copy_wf(state),
    ensures
        copy_wf(copy_step(state, reply).0),
{
}

/// What takes a source away: moving it in one go, removing it, removing a link or a directory.
pub open spec fn takes_source(state: CopyModel) -> bool {
    state.phase is Renaming || state.phase is RemoveSource
}

/// Whether an effect removes a directory or a link.
pub open spec fn is_removal(e: Effect<Txt>) -> bool {
    e is RemoveDir || e is RemoveLink
}

/// A copy that is no move never takes a source away, whatever it is told.
pub proof fn law_only_a_move_takes_sources(plan: PlanModel, replies: Seq<Reply<Txt>>)
    requires
        !plan.move_it,
    ensures
        !takes_source(copy_run(copy_start(plan).0, replies).0),
        forall|i: int|
            0 <= i < copy_run(copy_start(plan).0, replies).1.len() ==> !is_removal(
                #[trigger] copy_run(copy_start(plan).0, replies).1[i],
            ),
        copy_run(copy_start(plan).0, replies).0.core.plan == plan,
    decreases replies.len(),
{
    if replies.len() > 0 {
        law_only_a_move_takes_sources(plan, replies.drop_last());
        let (middle, before) = copy_run(copy_start(plan).0, replies.drop_last());
        let (last, now) = copy_step(middle, replies.last());
        lemma_step_counts(middle, replies.last());
        assert forall|i: int| 0 <= i < now.len() implies !is_removal(#[trigger] now[i]) by {
            lemma_step_removes_nothing(middle, replies.last(), i);
        }
    }
}

proof fn lemma_step_removes_nothing(state: CopyModel, reply: Reply<Txt>, i: int)
    requires
        !state.core.plan.move_it,
        0 <= i < copy_step(state, reply).1.len(),
    ensures
        !is_removal(copy_step(state, reply).1[i]),
{
}

/// A source is removed only once its copy is complete: the request to remove it comes from
/// nothing but the news that this very file was copied.
pub proof fn law_source_goes_after_its_copy(state: CopyModel, reply: Reply<Txt>)
    requires
        copy_step(state, reply).0.phase is RemoveSource,
        !(state.phase is RemoveSource),
    ensures
        state.core.plan.move_it,
        state.phase is Copying,
        reply is Done,
        copy_step(state, reply).0.phase->RemoveSource_item == state.phase->Copying_item,
{
}

/// A file is written to a target only where nothing was there, or where the user agreed to
/// overwrite it: by saying so, or by leaving it to the dates and the source being newer. A
/// target that the user gave another name to is looked at anew.
pub proof fn law_overwriting_needs_consent(state: CopyModel, reply: Reply<Txt>)
    requires
        copy_step(state, reply).0.phase is Begin,
        !(state.phase is Begin),
    ensures
        ({
            let target = copy_step(state, reply).0.phase->Begin_target;
            ||| state.phase is Target && state.phase->Target_target == target && reply
                == Reply::<Txt>::Flag(false)
            ||| state.phase is Conflict && state.phase->Conflict_target == target && (reply
                == Reply::Choice(ConflictResolution::<Txt>::Overwrite) || reply == Reply::Choice(
                ConflictResolution::<Txt>::OverwriteForce,
            ))
            ||| state.phase is Newer && state.phase->Newer_target == target && reply is Times
                && operation::counts_as_newer(reply->Times_0, reply->Times_1)
        }),
{
}

/// What is copied is what the consent was given for: between the consent and the end of the
/// copy neither the source nor the target changes.
pub proof fn law_target_is_kept(state: CopyModel, reply: Reply<Txt>)
    ensures
        copy_step(state, reply).0.phase is Parent && !(state.phase is Parent) ==> state.phase
            is Begin && state.phase->Begin_target == copy_step(state, reply).0.phase->Parent_target
            && state.phase->Begin_item == copy_step(state, reply).0.phase->Parent_item,
        copy_step(state, reply).0.phase is Copying && !(state.phase is Copying) ==> state.phase
            is Parent && state.phase->Parent_target == copy_step(
            state,
            reply,
        ).0.phase->Copying_target && state.phase->Parent_item == copy_step(
            state,
            reply,
        ).0.phase->Copying_item,
        copy_step(state, reply).0.phase is Copying && state.phase is Copying ==> copy_step(
            state,
            reply,
        ).0.phase->Copying_target == state.phase->Copying_target && copy_step(
            state,
            reply,
        ).0.phase->Copying_item == state.phase->Copying_item,
{
}

/// A link is never followed: a source that turns out to be a link is made again as a link, or
/// left out, and nothing else is done with it.
pub proof fn law_links_are_not_followed(state: CopyModel, facts: ItemFacts)
    requires
        state.phase is Inspect,
        facts.link is Some,
    ensures
        copy_step(state, Reply::Facts(facts)) == (if facts.dst_exists {
            passed_over(state.core, Message::AlreadyExists(state.phase->Inspect_item.name))
        } else {
            wait_for(
                state.core,
                CopyPhase::Link { item: state.phase->Inspect_item, is_dir: facts.link->0 },
            )
        }),
{
}

/// A copy that has ended stays as it is.
pub proof fn law_an_ended_copy_is_final(state: CopyModel, reply: Reply<Txt>)
    requires
        state.phase is Ended,
    ensures
        copy_step(state, reply) == (state, Seq::<Effect<Txt>>::empty()),
{
}

/// A request to stop, wherever it is heard, ends the copy: nothing is asked of the disk after
/// it, and nothing is carried out but the closing lines, preceded by the removal of a file
/// that was left half written.
pub proof fn law_stopping_ends_the_copy(state: CopyModel, reply: Reply<Txt>)
    requires
        (state.phase is NextName || state.phase is PollEntry) && reply == Reply::<Txt>::Flag(true)
            || state.phase is Conflict && reply == Reply::Choice(ConflictResolution::<Txt>::Cancel)
            || state.phase is Copying && reply is Aborted,
    ensures
        copy_step(state, reply).0.phase is Ended,
        copy_step(state, reply).0.core.sum == state.core.sum.stopped(),
        copy_ask(copy_step(state, reply).0) == Ask::<Txt>::Ended(state.core.sum.stopped()),
        !(state.phase is Copying) ==> copy_step(state, reply).1 == operation::closing_lines(
            verb_of(state.core.plan.move_it),
            ResultStyle::Copy,
            state.core.sum.stopped(),
        ),
        state.phase is Copying ==> copy_step(state, reply).1.len() == 4 && copy_step(state, reply).1[0]
            == Effect::RemoveFile(state.phase->Copying_target),
{
}

/// The log of a copy opens with the line that says it started, and once the copy has ended it
/// closes with the line that says how.
pub proof fn law_copy_is_framed(plan: PlanModel, replies: Seq<Reply<Txt>>)
    ensures
        ({
            let (first, opening) = copy_start(plan);
            let (last, rest) = copy_run(first, replies);
            &&& (opening + rest).first() == operation::start_line(verb_of(plan.move_it))
            &&& last.phase is Ended ==> (opening + rest).last() == operation::end_line(
                verb_of(plan.move_it),
                last.core.sum,
            )
            &&& last.core.plan == plan
        }),
    decreases replies.len(),
{
    let (first, opening) = copy_start(plan);
    if replies.len() > 0 {
        law_copy_is_framed(plan, replies.drop_last());
        let (middle, before) = copy_run(first, replies.drop_last());
        let (last, now) = copy_step(middle, replies.last());
        lemma_step_counts(middle, replies.last());
        if last.phase is Ended {
            lemma_step_closes(middle, replies.last());
            if middle.phase is Ended {
                assert(before + now =~= before);
            } else {
                assert((opening + (before + now)).last() == now.last());
            }
        }
    } else {
        assert(opening + Seq::empty() =~= opening);
    }
}

proof fn lemma_step_closes(state: CopyModel, reply: Reply<Txt>)
    requires
        copy_step(state, reply).0.phase is Ended,
    ensures
        state.phase is Ended ==> copy_step(state, reply) == (state, Seq::<Effect<Txt>>::empty()),
        !(state.phase is Ended) ==> copy_step(state, reply).1.len() > 0 && copy_step(
            state,
            reply,
        ).1.last() == operation::end_line(
            verb_of(state.core.plan.move_it),
            copy_step(state, reply).0.core.sum,
        ),
{
}

/// Whether an entry of a directory is looked into.
pub open spec fn takes_entry(state: CopyModel, reply: Reply<Txt>) -> bool {
    match (state.phase, reply) {
        (CopyPhase::PollEntry { entry: Some(_) }, Reply::Flag(false)) => true,
        _ => false,
    }
}

/// Whether a directory cannot be read.
pub open spec fn misses_directory(state: CopyModel, reply: Reply<Txt>) -> bool {
    state.phase is OpenDir && reply is Failed
}

/// How many entries of directories were looked into.
pub open spec fn entries_taken(state: CopyModel, replies: Seq<Reply<Txt>>) -> nat
    decreases replies.len(),
{
    if replies.len() == 0 {
        0
    } else {
        let before = replies.drop_last();
        entries_taken(state, before) + if takes_entry(copy_run(state, before).0, replies.last()) {
            1nat
        } else {
            0nat
        }
    }
}

/// How many directories could not be read.
pub open spec fn unread_directories(state: CopyModel, replies: Seq<Reply<Txt>>) -> nat
    decreases replies.len(),
{
    if replies.len() == 0 {
        0
    } else {
        let before = replies.drop_last();
        unread_directories(state, before) + if misses_directory(
            copy_run(state, before).0,
            replies.last(),
        ) {
            1nat
        } else {
            0nat
        }
    }
}

/// How many results there are.
pub open spec fn results(sum: OpSummary) -> int {
    sum.ok + sum.skip + sum.err
}

/// Whether there is an item in hand that has no result yet.
pub open spec fn has_item_in_hand(phase: CopyPhase<Txt>) -> bool {
    match phase {
        CopyPhase::NextName
        | CopyPhase::NextEntry
        | CopyPhase::PollEntry { .. }
        | CopyPhase::OpenDir { .. }
        | CopyPhase::Ended => false,
        _ => true,
    }
}

/// How many items in hand have no result yet.
spec fn pending(phase: CopyPhase<Txt>) -> int {
    if has_item_in_hand(phase) {
        1
    } else {
        0
    }
}

#[verifier::rlimit(40)]
proof fn lemma_step_results(state: CopyModel, reply: Reply<Txt>)
    requires
        copy_wf(state),
        results(state.core.sum) < usize::MAX,
        state.core.sum.cancelled ==> state.phase is Ended,
        state.phase is Ended && !state.core.sum.cancelled ==> state.core.next
            == state.core.plan.names.len(),
    ensures
        ({
            let after = copy_step(state, reply).0;
            let taken: int = if takes_entry(state, reply) {
                1
            } else {
                0
            };
            let missed: int = if misses_directory(state, reply) {
                1
            } else {
                0
            };
            let sum = after.core.sum;
            &&& after.core.plan == state.core.plan
            &&& results(state.core.sum) <= results(sum) <= results(state.core.sum) + 1
            &&& state.core.sum.cancelled ==> after == state && taken + missed == 0
            &&& sum.cancelled ==> after.phase is Ended
            &&& after.phase is Ended && !sum.cancelled ==> after.core.next
                == after.core.plan.names.len()
            &&& sum.cancelled && !state.core.sum.cancelled ==> sum == state.core.sum.stopped()
                && after.core.next == state.core.next && taken + missed == 0
            &&& !sum.cancelled ==> results(sum) + pending(after.phase) == results(state.core.sum)
                + pending(state.phase) + (after.core.next - state.core.next) + taken + missed
        }),
{
}

#[verifier::rlimit(40)]
proof fn lemma_results(plan: PlanModel, replies: Seq<Reply<Txt>>)
    requires
        replies.len() < usize::MAX,
    ensures
        ({
            let first = copy_start(plan).0;
            let last = copy_run(first, replies).0;
            let sum = last.core.sum;
            let due = last.core.next + entries_taken(first, replies) + unread_directories(
                first,
                replies,
            );
            &&& copy_wf(last)
            &&& last.core.plan == plan
            &&& results(sum) <= replies.len()
            &&& last.phase is Ended && !sum.cancelled ==> last.core.next == plan.names.len()
            &&& !(last.phase is Ended) ==> !sum.cancelled
            &&& if sum.cancelled {
                due - 1 <= results(sum) <= due
            } else {
                results(sum) + pending(last.phase) == due
            }
        }),
    decreases replies.len(),
{
    let first = copy_start(plan).0;
    if replies.len() > 0 {
        lemma_results(plan, replies.drop_last());
        let middle = copy_run(first, replies.drop_last()).0;
        law_copy_stays_well_formed(middle, replies.last());
        lemma_step_results(middle, replies.last());
    }
}

/// Every item of a copy has exactly one result: it was copied, it was left out, or it failed. The
/// items are the names of the copy and the entries of directories that it looked into; a directory
/// that could be made but not read counts as failed once more. (Only an item that was in hand when
/// the copy was stopped has none.)
pub proof fn law_every_item_has_one_result(plan: PlanModel, replies: Seq<Reply<Txt>>)
    requires
        replies.len() < usize::MAX,
        copy_run(copy_start(plan).0, replies).0.phase is Ended,
    ensures
        ({
            let first = copy_start(plan).0;
            let last = copy_run(first, replies).0;
            let sum = last.core.sum;
            let more = entries_taken(first, replies) + unread_directories(first, replies);
            &&& !sum.cancelled ==> results(sum) == plan.names.len() + more
            &&& sum.cancelled ==> last.core.next + more - 1 <= results(sum) <= last.core.next + more
        }),
{
    lemma_results(plan, replies);
}

} // verus!
