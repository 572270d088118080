//! Deleting.

use crate::operation;
use crate::operation::messages::{Message, Verb};
use crate::operation::{
    and, closing, followed_by, nothing, opening, Ask, Attribute, DeleteWarnChoice, Effect, Kind,
    LogLevel, OpSummary, Reply, ResultStyle, Step, Txt,
};
use crate::text;
use crate::winpath;
use vstd::prelude::*;

verus! {

/// A directory whose entries are being deleted.
pub struct DeleteFrame<S = String> {
    pub target: S,
    pub name: S,
    /// Nothing was left in it so far.
    pub all_removed: bool,
}

/// How an item is removed.
#[derive(Clone, Copy, Debug, PartialEq, Eq, Structural)]
pub enum Removal {
    /// A file, or a link to one.
    File,
    /// A link to a directory.
    DirLink,
    /// A directory that was emptied.
    Directory,
}

/// An item that is to be deleted.
pub struct Doomed<S = String> {
    pub target: S,
    pub name: S,
}

/// What a deletion is waiting for.
pub enum DeletePhase<S = String> {
    /// Whether to go on with the item.
    Poll { item: Doomed<S> },
    /// What the item is.
    Inspect { item: Doomed<S> },
    OpenDir { item: Doomed<S> },
    /// The next entry of the innermost directory.
    NextEntry,
    /// The attributes of the item.
    Attributes { item: Doomed<S>, how: Removal },
    /// Whether the protected item may go.
    Confirm { item: Doomed<S>, how: Removal, attribute: Attribute },
    Removing { item: Doomed<S>, how: Removal },
    Ended,
}

/// The part of a deletion that outlives a single question.
pub struct DeleteCore {
    pub dir: String,
    pub names: Vec<String>,
    /// How many of the names were started.
    pub next: usize,
    pub frames: Vec<DeleteFrame>,
    pub sum: OpSummary,
}

/// A deletion that is under way.
pub struct DeleteRun {
    pub core: DeleteCore,
    pub phase: DeletePhase,
}

/// A deletion's lasting part in specifications.
pub struct DeleteCoreModel {
    pub dir: Txt,
    pub names: Seq<Txt>,
    pub next: int,
    pub frames: Seq<DeleteFrame<Txt>>,
    pub sum: OpSummary,
}

/// A deletion in specifications.
pub struct DeleteModel {
    pub core: DeleteCoreModel,
    pub phase: DeletePhase<Txt>,
}

impl View for Doomed<String> {
    type V = Doomed<Txt>;

    open spec fn view(&self) -> Doomed<Txt> {
        Doomed { target: self.target@, name: self.name@ }
    }
}

impl View for DeleteFrame<String> {
    type V = DeleteFrame<Txt>;

    open spec fn view(&self) -> DeleteFrame<Txt> {
        DeleteFrame { target: self.target@, name: self.name@, all_removed: self.all_removed }
    }
}

impl View for DeleteCore {
    type V = DeleteCoreModel;

    open spec fn view(&self) -> DeleteCoreModel {
        DeleteCoreModel {
            dir: self.dir@,
            names: self.names.deep_view(),
            next: self.next as int,
            frames: frames_of(self.frames@),
            sum: self.sum,
        }
    }
}

/// The directories of a deletion, as a specification reads them.
pub open spec fn frames_of(frames: Seq<DeleteFrame>) -> Seq<DeleteFrame<Txt>> {
    frames.map_values(|f: DeleteFrame| f@)
}

impl View for DeletePhase<String> {
    type V = DeletePhase<Txt>;

    open spec fn view(&self) -> DeletePhase<Txt> {
        match *self {
            DeletePhase::Poll { item } => DeletePhase::Poll { item: item@ },
            DeletePhase::Inspect { item } => DeletePhase::Inspect { item: item@ },
            DeletePhase::OpenDir { item } => DeletePhase::OpenDir { item: item@ },
            DeletePhase::NextEntry => DeletePhase::NextEntry,
            DeletePhase::Attributes { item, how } => DeletePhase::Attributes { item: item@, how },
            DeletePhase::Confirm { item, how, attribute } => DeletePhase::Confirm {
                item: item@,
                how,
                attribute,
            },
            DeletePhase::Removing { item, how } => DeletePhase::Removing { item: item@, how },
            DeletePhase::Ended => DeletePhase::Ended,
        }
    }
}

impl View for DeleteRun {
    type V = DeleteModel;

    open spec fn view(&self) -> DeleteModel {
        DeleteModel { core: self.core@, phase: self.phase@ }
    }
}

/// The attribute that protects an item with these attribute bits: system before hidden before
/// read-only. Bits that could not be read protect nothing.
pub open spec fn protecting(bits: Option<u32>) -> Option<Attribute> {
    match bits {
        None => None,
        Some(b) => if b & 0x4 != 0 {
            Some(Attribute::System)
        } else if b & 0x2 != 0 {
            Some(Attribute::Hidden)
        } else if b & 0x1 != 0 {
            Some(Attribute::ReadOnly)
        } else {
            None
        },
    }
}

/// The attribute that protects an item with these attribute bits.
pub fn attribute_label(bits: Option<u32>) -> (attribute: Option<Attribute>)
    ensures
        attribute == protecting(bits),
{
    match bits {
        None => None,
        Some(b) => if b & 0x4 != 0 {
            Some(Attribute::System)
        } else if b & 0x2 != 0 {
            Some(Attribute::Hidden)
        } else if b & 0x1 != 0 {
            Some(Attribute::ReadOnly)
        } else {
            None
        },
    }
}

impl Attribute {
    /// How the user is told of the attribute.
    pub open spec fn shown(self) -> &'static str {
        match self {
            Attribute::System => "システム",
            Attribute::Hidden => "隠し",
            Attribute::ReadOnly => "読み込み専用",
        }
    }

    /// How the user is told of the attribute.
    pub fn label(self) -> (label: &'static str)
        ensures
            label == self.shown(),
    {
        match self {
            Attribute::System => "システム",
            Attribute::Hidden => "隠し",
            Attribute::ReadOnly => "読み込み専用",
        }
    }
}

/// The outcome of a step: the next state, and what is to be carried out.
pub type DeleteOutcome = (DeleteModel, Seq<Effect<Txt>>);

/// An outcome with `first` carried out before it.
pub open spec fn preceded(first: Seq<Effect<Txt>>, rest: DeleteOutcome) -> DeleteOutcome {
    (rest.0, first + rest.1)
}

/// The deletion ends.
pub open spec fn ended(core: DeleteCoreModel) -> DeleteOutcome {
    (
        DeleteModel { core, phase: DeletePhase::Ended },
        operation::closing_lines(Verb::Delete, ResultStyle::Delete, core.sum),
    )
}

/// The deletion is stopped.
pub open spec fn cancelled(core: DeleteCoreModel) -> DeleteOutcome {
    ended(DeleteCoreModel { sum: core.sum.stopped(), ..core })
}

/// On to another question, with nothing to carry out.
pub open spec fn wait_for(core: DeleteCoreModel, phase: DeletePhase<Txt>) -> DeleteOutcome {
    (DeleteModel { core, phase }, Seq::empty())
}

/// The directories with the innermost one marked as not emptied.
pub open spec fn marked(frames: Seq<DeleteFrame<Txt>>) -> Seq<DeleteFrame<Txt>> {
    frames.update(
        frames.len() - 1,
        DeleteFrame { all_removed: false, ..frames.last() },
    )
}

/// An item is done, and it was removed or kept: on to the next entry, the next name, or the
/// end. A directory learns of every entry that was kept.
pub open spec fn after_item(core: DeleteCoreModel, removed: bool) -> DeleteOutcome {
    if core.frames.len() > 0 {
        wait_for(
            DeleteCoreModel {
                frames: if removed {
                    core.frames
                } else {
                    marked(core.frames)
                },
                ..core
            },
            DeletePhase::NextEntry,
        )
    } else if core.next < core.names.len() {
        let name = core.names[core.next];
        wait_for(
            DeleteCoreModel { next: core.next + 1, ..core },
            DeletePhase::Poll {
                item: Doomed { target: winpath::path_join(core.dir, name), name },
            },
        )
    } else {
        ended(core)
    }
}

/// The line that says that an item is being removed.
pub open spec fn removal_line(item: Doomed<Txt>, how: Removal) -> Effect<Txt> {
    Effect::Log(
        LogLevel::Normal,
        if how == Removal::Directory {
            Message::DeleteDirectory(item.name)
        } else {
            Message::Item(Verb::Delete, item.name)
        },
    )
}

/// An item could not be removed.
pub open spec fn kept_by_error(core: DeleteCoreModel, name: Txt, reason: Txt) -> DeleteOutcome {
    preceded(
        seq![Effect::Log(LogLevel::Error, Message::Failure(Verb::Delete, name, reason))],
        after_item(DeleteCoreModel { sum: core.sum.plus_err(), ..core }, false),
    )
}

/// A directory has been gone through.
pub open spec fn left_directory(core: DeleteCoreModel) -> DeleteOutcome {
    let frame = core.frames.last();
    let outer = DeleteCoreModel { frames: core.frames.drop_last(), ..core };
    if frame.all_removed {
        wait_for(
            outer,
            DeletePhase::Attributes {
                item: Doomed { target: frame.target, name: frame.name },
                how: Removal::Directory,
            },
        )
    } else {
        after_item(outer, false)
    }
}

/// What a deletion does with a reply. A reply that does not answer the question changes
/// nothing.
pub open spec fn delete_step(state: DeleteModel, reply: Reply<Txt>) -> DeleteOutcome {
    let core = state.core;
    match (state.phase, reply) {
        (DeletePhase::Poll { item }, Reply::Flag(stop)) => if stop {
            cancelled(core)
        } else {
            wait_for(core, DeletePhase::Inspect { item })
        },
        (DeletePhase::Inspect { item }, Reply::Kind(kind)) => match kind {
            Kind::Dir => wait_for(core, DeletePhase::OpenDir { item }),
            Kind::DirLink => wait_for(
                core,
                DeletePhase::Attributes { item, how: Removal::DirLink },
            ),
            Kind::File | Kind::FileLink => wait_for(
                core,
                DeletePhase::Attributes { item, how: Removal::File },
            ),
        },
        (DeletePhase::OpenDir { item }, Reply::Done) => wait_for(
            DeleteCoreModel {
                frames: core.frames.push(
                    DeleteFrame { target: item.target, name: item.name, all_removed: true },
                ),
                ..core
            },
            DeletePhase::NextEntry,
        ),
        (DeletePhase::OpenDir { item }, Reply::Failed(reason)) => kept_by_error(
            core,
            item.name,
            reason,
        ),
        (DeletePhase::NextEntry, Reply::Entry(name)) => wait_for(
            core,
            DeletePhase::Poll {
                item: Doomed {
                    target: winpath::path_join(core.frames.last().target, name),
                    name,
                },
            },
        ),
        (DeletePhase::NextEntry, Reply::Unreadable) => after_item(core, false),
        (DeletePhase::NextEntry, Reply::End) => left_directory(core),
        (DeletePhase::Attributes { item, how }, Reply::Attributes(bits)) => match protecting(bits) {
            Some(attribute) => wait_for(core, DeletePhase::Confirm { item, how, attribute }),
            None => preceded(
                seq![removal_line(item, how)],
                wait_for(core, DeletePhase::Removing { item, how }),
            ),
        },
        (DeletePhase::Confirm { item, how, attribute }, Reply::Warned(choice)) => match choice {
            DeleteWarnChoice::Yes => preceded(
                seq![Effect::ClearAttributes(item.target), removal_line(item, how)],
                wait_for(core, DeletePhase::Removing { item, how }),
            ),
            DeleteWarnChoice::No => after_item(core, false),
            DeleteWarnChoice::Cancel => cancelled(core),
        },
        (DeletePhase::Removing { item, how }, Reply::Done) => after_item(
            DeleteCoreModel { sum: core.sum.plus_ok(), ..core },
            true,
        ),
        (DeletePhase::Removing { item, how }, Reply::Failed(reason)) => kept_by_error(
            core,
            item.name,
            reason,
        ),
        _ => (state, Seq::empty()),
    }
}

/// The question that a deletion waits to have answered.
pub open spec fn delete_ask(state: DeleteModel) -> Ask<Txt> {
    match state.phase {
        DeletePhase::Poll { .. } => Ask::Stop,
        DeletePhase::Inspect { item } => Ask::KindOf(item.target),
        DeletePhase::OpenDir { item } => Ask::OpenDir(item.target),
        DeletePhase::NextEntry => Ask::NextEntry(state.core.frames.last().target),
        DeletePhase::Attributes { item, .. } => Ask::Attributes(item.target),
        DeletePhase::Confirm { item, attribute, .. } => Ask::ConfirmDelete {
            name: item.name,
            attribute,
        },
        DeletePhase::Removing { item, how } => if how == Removal::File {
            Ask::RemoveFile(item.target)
        } else {
            Ask::RemoveDir(item.target)
        },
        DeletePhase::Ended => Ask::Ended(state.core.sum),
    }
}

/// What holds of every deletion that is under way.
pub open spec fn delete_wf(state: DeleteModel) -> bool {
    &&& 0 <= state.core.next <= state.core.names.len()
    &&& state.phase is NextEntry ==> state.core.frames.len() > 0
}

/// The state of a deletion before its first reply.
pub open spec fn delete_start(dir: Txt, names: Seq<Txt>) -> DeleteOutcome {
    preceded(
        seq![operation::start_line(Verb::Delete)],
        after_item(
            DeleteCoreModel {
                dir,
                names,
                next: 0,
                frames: Seq::empty(),
                sum: operation::no_results(),
            },
            true,
        ),
    )
}

proof fn lemma_nothing_first()
    ensures
        forall|rest: DeleteOutcome| #[trigger] preceded(Seq::empty(), rest) == rest,
{
    assert forall|rest: DeleteOutcome| #[trigger] preceded(Seq::empty(), rest) == rest by {
        assert(Seq::<Effect<Txt>>::empty() + rest.1 =~= rest.1);
    }
}

impl DeleteRun {
    /// What holds of every deletion that is under way.
    pub open spec fn wf(self) -> bool {
        delete_wf(self@)
    }

    /// The deletion ends.
    fn end(core: DeleteCore, effects: Vec<Effect>) -> (out: (DeleteRun, Vec<Effect>))
        ensures
            (out.0@, operation::effects_of(out.1@)) == preceded(
                operation::effects_of(effects@),
                ended(core@),
            ),
    {
        let all = followed_by(effects, closing(Verb::Delete, ResultStyle::Delete, core.sum));
        (DeleteRun { core, phase: DeletePhase::Ended }, all)
    }

    /// The deletion is stopped.
    fn cancel(core: DeleteCore) -> (out: (DeleteRun, Vec<Effect>))
        ensures
            (out.0@, operation::effects_of(out.1@)) == cancelled(core@),
    {
        proof {
            lemma_nothing_first();
        }
        DeleteRun::end(DeleteCore { sum: core.sum.with_stop(), ..core }, nothing())
    }

    /// An item is done.
    fn next_item(core: DeleteCore, removed: bool, effects: Vec<Effect>) -> (out: (
        DeleteRun,
        Vec<Effect>,
    ))
        requires
            core.next <= core.names.len(),
        ensures
            (out.0@, operation::effects_of(out.1@)) == preceded(
                operation::effects_of(effects@),
                after_item(core@, removed),
            ),
            out.0.wf(),
    {
        proof {
            let e = operation::effects_of(effects@);
            assert(e + Seq::<Effect<Txt>>::empty() =~= e);
            assert(core@.names.len() == core.names.len());
        }
        let DeleteCore { dir, names, next, frames, sum } = core;
        if frames.len() > 0 {
            let mut frames = frames;
            if !removed {
                let ghost before = frames@;
                if let Some(frame) = frames.pop() {
                    let kept = DeleteFrame {
                        target: frame.target,
                        name: frame.name,
                        all_removed: false,
                    };
                    frames.push(kept);
                    assert(frames_of(frames@) =~= marked(frames_of(before)));
                }
            }
            let core = DeleteCore { dir, names, next, frames, sum };
            (DeleteRun { core, phase: DeletePhase::NextEntry }, effects)
        } else if next < names.len() {
            let name = names[next].clone();
            let target = winpath::join(dir.as_str(), name.as_str());
            let core = DeleteCore { dir, names, next: next + 1, frames, sum };
            (DeleteRun { core, phase: DeletePhase::Poll { item: Doomed { target, name } } }, effects)
        } else {
            DeleteRun::end(DeleteCore { dir, names, next, frames, sum }, effects)
        }
    }

    /// An item could not be removed.
    fn keep_by_error(core: DeleteCore, name: String, reason: String) -> (out: (
        DeleteRun,
        Vec<Effect>,
    ))
        requires
            core.next <= core.names.len(),
        ensures
            (out.0@, operation::effects_of(out.1@)) == kept_by_error(core@, name@, reason@),
            out.0.wf(),
    {
        let line = Effect::Log(LogLevel::Error, Message::Failure(Verb::Delete, name, reason));
        let effects = and(nothing(), line);
        assert(operation::effects_of(effects@) =~= seq![line@]);
        DeleteRun::next_item(DeleteCore { sum: core.sum.with_err(), ..core }, false, effects)
    }

    /// An item is being removed.
    fn remove(core: DeleteCore, item: Doomed, how: Removal, effects: Vec<Effect>) -> (out: (
        DeleteRun,
        Vec<Effect>,
    ))
        ensures
            (out.0@, operation::effects_of(out.1@)) == (
                DeleteModel { core: core@, phase: DeletePhase::Removing { item: item@, how } },
                operation::effects_of(effects@).push(removal_line(item@, how)),
            ),
    {
        let line = if how == Removal::Directory {
            Message::DeleteDirectory(item.name.clone())
        } else {
            Message::Item(Verb::Delete, item.name.clone())
        };
        let effects = and(effects, Effect::Log(LogLevel::Normal, line));
        (DeleteRun { core, phase: DeletePhase::Removing { item, how } }, effects)
    }

    /// A directory has been gone through.
    fn leave_directory(core: DeleteCore) -> (out: (DeleteRun, Vec<Effect>))
        requires
            core.next <= core.names.len(),
            core.frames.len() > 0,
        ensures
            (out.0@, operation::effects_of(out.1@)) == left_directory(core@),
            out.0.wf(),
    {
        proof {
            lemma_nothing_first();
        }
        let DeleteCore { dir, names, next, frames, sum } = core;
        let mut frames = frames;
        let ghost before = frames@;
        match frames.pop() {
            Some(frame) => {
                assert(frames_of(frames@) =~= frames_of(before).drop_last());
                let outer = DeleteCore { dir, names, next, frames, sum };
                if frame.all_removed {
                    let item = Doomed { target: frame.target, name: frame.name };
                    let phase = DeletePhase::Attributes { item, how: Removal::Directory };
                    (DeleteRun { core: outer, phase }, nothing())
                } else {
                    DeleteRun::next_item(outer, false, nothing())
                }
            },
            None => {
                let core = DeleteCore { dir, names, next, frames, sum };
                (DeleteRun { core, phase: DeletePhase::Ended }, nothing())
            },
        }
    }

    /// The question that the deletion waits to have answered.
    pub fn ask(&self) -> (ask: Ask)
        requires
            self.wf(),
        ensures
            ask@ == delete_ask(self@),
    {
        match &self.phase {
            DeletePhase::Poll { .. } => Ask::Stop,
            DeletePhase::Inspect { item } => Ask::KindOf(item.target.clone()),
            DeletePhase::OpenDir { item } => Ask::OpenDir(item.target.clone()),
            DeletePhase::NextEntry => {
                let last = self.core.frames.len() - 1;
                Ask::NextEntry(self.core.frames[last].target.clone())
            },
            DeletePhase::Attributes { item, .. } => Ask::Attributes(item.target.clone()),
            DeletePhase::Confirm { item, attribute, .. } => Ask::ConfirmDelete {
                name: item.name.clone(),
                attribute: *attribute,
            },
            DeletePhase::Removing { item, how } => if *how == Removal::File {
                Ask::RemoveFile(item.target.clone())
            } else {
                Ask::RemoveDir(item.target.clone())
            },
            DeletePhase::Ended => Ask::Ended(self.core.sum),
        }
    }

    /// What the deletion does with a reply.
    fn advance(self, reply: Reply) -> (out: (DeleteRun, Vec<Effect>))
        requires
            self.wf(),
        ensures
            (out.0@, operation::effects_of(out.1@)) == delete_step(self@, reply@),
            out.0.wf(),
    {
        proof {
            lemma_nothing_first();
        }
        let DeleteRun { core, phase } = self;
        assert(core@.names.len() == core.names.len());
        match (phase, reply) {
            (DeletePhase::Poll { item }, Reply::Flag(stop)) => if stop {
                DeleteRun::cancel(core)
            } else {
                (DeleteRun { core, phase: DeletePhase::Inspect { item } }, nothing())
            },
            (DeletePhase::Inspect { item }, Reply::Kind(kind)) => {
                let phase = match kind {
                    Kind::Dir => DeletePhase::OpenDir { item },
                    Kind::DirLink => DeletePhase::Attributes { item, how: Removal::DirLink },
                    Kind::File | Kind::FileLink => DeletePhase::Attributes {
                        item,
                        how: Removal::File,
                    },
                };
                (DeleteRun { core, phase }, nothing())
            },
            (DeletePhase::OpenDir { item }, Reply::Done) => {
                let DeleteCore { dir, names, next, frames, sum } = core;
                let mut frames = frames;
                let ghost before = frames@;
                let frame = DeleteFrame { target: item.target, name: item.name, all_removed: true };
                frames.push(frame);
                assert(frames_of(frames@) =~= frames_of(before).push(frame@));
                let core = DeleteCore { dir, names, next, frames, sum };
                (DeleteRun { core, phase: DeletePhase::NextEntry }, nothing())
            },
            (DeletePhase::OpenDir { item }, Reply::Failed(reason)) => {
                DeleteRun::keep_by_error(core, item.name, reason)
            },
            (DeletePhase::NextEntry, Reply::Entry(name)) => {
                let last = core.frames.len() - 1;
                let target = winpath::join(core.frames[last].target.as_str(), name.as_str());
                (DeleteRun { core, phase: DeletePhase::Poll { item: Doomed { target, name } } }, nothing())
            },
            (DeletePhase::NextEntry, Reply::Unreadable) => {
                DeleteRun::next_item(core, false, nothing())
            },
            (DeletePhase::NextEntry, Reply::End) => DeleteRun::leave_directory(core),
            (DeletePhase::Attributes { item, how }, Reply::Attributes(bits)) => {
                match attribute_label(bits) {
                    Some(attribute) => {
                        let phase = DeletePhase::Confirm { item, how, attribute };
                        (DeleteRun { core, phase }, nothing())
                    },
                    None => {
                        let out = DeleteRun::remove(core, item, how, nothing());
                        assert(operation::effects_of(out.1@) =~= seq![removal_line(item@, how)]
                            + Seq::empty());
                        out
                    },
                }
            },
            (DeletePhase::Confirm { item, how, attribute }, Reply::Warned(choice)) => match choice {
                DeleteWarnChoice::Yes => {
                    let effects = and(nothing(), Effect::ClearAttributes(item.target.clone()));
                    let out = DeleteRun::remove(core, item, how, effects);
                    assert(operation::effects_of(out.1@) =~= seq![
                        Effect::ClearAttributes(item.target@),
                        removal_line(item@, how),
                    ] + Seq::empty());
                    out
                },
                DeleteWarnChoice::No => DeleteRun::next_item(core, false, nothing()),
                DeleteWarnChoice::Cancel => DeleteRun::cancel(core),
            },
            (DeletePhase::Removing { .. }, Reply::Done) => {
                let counted = DeleteCore { sum: core.sum.with_ok(), ..core };
                DeleteRun::next_item(counted, true, nothing())
            },
            (DeletePhase::Removing { item, .. }, Reply::Failed(reason)) => {
                DeleteRun::keep_by_error(core, item.name, reason)
            },
            (phase, _) => (DeleteRun { core, phase }, nothing()),
        }
    }

    /// Takes the answer to the last question, and says what is to be done next.
    pub fn step(self, reply: Reply) -> (out: (DeleteRun, Step))
        requires
            self.wf(),
        ensures
            out.0.wf(),
            (out.0@, operation::effects_of(out.1.effects@)) == delete_step(self@, reply@),
            out.1.ask@ == delete_ask(out.0@),
    {
        let (run, effects) = self.advance(reply);
        let ask = run.ask();
        (run, Step { effects, ask })
    }
}

/// Starts to delete `names` in `dir`. What is in a directory goes before the directory.
pub fn run_delete(dir: &str, names: Vec<String>) -> (out: (DeleteRun, Step))
    ensures
        out.0.wf(),
        (out.0@, operation::effects_of(out.1.effects@)) == delete_start(dir@, names.deep_view()),
        out.1.ask@ == delete_ask(out.0@),
{
    let frames: Vec<DeleteFrame> = Vec::new();
    let core = DeleteCore {
        dir: text::copy(dir),
        names,
        next: 0,
        frames,
        sum: OpSummary::default(),
    };
    assert(core@.frames =~= Seq::<DeleteFrame<Txt>>::empty());
    let (run, effects) = DeleteRun::next_item(core, true, opening(Verb::Delete));
    let ask = run.ask();
    (run, Step { effects, ask })
}

/// A deletion after all of `replies`, and everything that was to be carried out on the way.
pub open spec fn delete_run(state: DeleteModel, replies: Seq<Reply<Txt>>) -> DeleteOutcome
    decreases replies.len(),
{
    if replies.len() == 0 {
        (state, Seq::empty())
    } else {
        let (middle, before) = delete_run(state, replies.drop_last());
        let (last, now) = delete_step(middle, replies.last());
        (last, before + now)
    }
}

proof fn lemma_ended_counts()
    ensures
        forall|core: DeleteCoreModel|
            #![trigger ended(core)]
            operation::errors_in(ended(core).1) == 0,
{
    assert forall|core: DeleteCoreModel|
        #![trigger ended(core)]
        operation::errors_in(ended(core).1) == 0 by {
        let lines = operation::closing_lines(Verb::Delete, ResultStyle::Delete, core.sum);
        operation::lemma_lines_of_pair(lines[0], lines[1]);
        assert(lines =~= seq![lines[0], lines[1]]);
    }
}

proof fn lemma_step_counts(state: DeleteModel, reply: Reply<Txt>)
    ensures
        operation::counted(
            state.core.sum.err,
            operation::errors_in(delete_step(state, reply).1),
            delete_step(state, reply).0.core.sum.err,
        ),
        state.core.sum.err <= delete_step(state, reply).0.core.sum.err,
        state.core.sum.ok <= delete_step(state, reply).0.core.sum.ok,
        delete_step(state, reply).0.core.sum.skip == state.core.sum.skip,
{
    lemma_ended_counts();
    operation::lemma_lines_push();
    operation::lemma_lines_add();
    match (state.phase, reply) {
        (DeletePhase::Confirm { item, how, attribute }, Reply::Warned(choice)) => {
            operation::lemma_lines_of_pair(
                Effect::ClearAttributes(item.target),
                removal_line(item, how),
            );
        },
        _ => {},
    }
}

/// Every error that a deletion counts has its own error line in the log, and no error line
/// goes uncounted. A deletion leaves nothing out.
pub proof fn law_delete_counts_its_lines(state: DeleteModel, replies: Seq<Reply<Txt>>)
    ensures
        operation::counted(
            state.core.sum.err,
            operation::errors_in(delete_run(state, replies).1),
            delete_run(state, replies).0.core.sum.err,
        ),
        delete_run(state, replies).0.core.sum.skip == state.core.sum.skip,
    decreases replies.len(),
{
    if replies.len() > 0 {
        law_delete_counts_its_lines(state, replies.drop_last());
        let (middle, before) = delete_run(state, replies.drop_last());
        lemma_step_counts(middle, replies.last());
        operation::lemma_lines_of_two(before, delete_step(middle, replies.last()).1);
    }
}

/// Every state that a deletion gets to is well-formed.
pub proof fn law_delete_stays_well_formed(state: DeleteModel, reply: Reply<Txt>)
    requires
        delete_wf(state),
    ensures
        delete_wf(delete_step(state, reply).0),
{
}

/// A directory is removed only where nothing was left in it: it comes up for removal only at
/// its end, and only while it is not marked.
pub proof fn law_only_empty_directories_go(state: DeleteModel, reply: Reply<Txt>)
    requires
        delete_step(state, reply).0.phase is Attributes,
        delete_step(state, reply).0.phase->Attributes_how == Removal::Directory,
        !(state.phase is Attributes),
    ensures
        state.phase is NextEntry,
        reply is End,
        state.core.frames.last().all_removed,
        delete_step(state, reply).0.phase->Attributes_item.target
            == state.core.frames.last().target,
{
}

/// An entry that is kept marks the directory that holds it, and a mark is never taken off:
/// after any step, every directory that is still open is marked where it was, and the
/// innermost one is marked where an entry of it was kept.
pub proof fn law_kept_entries_mark_their_directory(state: DeleteModel, reply: Reply<Txt>)
    requires
        delete_wf(state),
    ensures
        forall|i: int|
            0 <= i < state.core.frames.len() && i < delete_step(state, reply).0.core.frames.len()
                && !state.core.frames[i].all_removed ==> !(
            #[trigger] delete_step(state, reply).0.core.frames[i]).all_removed,
        (state.phase is Confirm && reply == Reply::<Txt>::Warned(DeleteWarnChoice::No)
            || state.phase is Removing && reply is Failed || state.phase is OpenDir && reply
            is Failed) && state.core.frames.len() > 0 ==> !delete_step(
            state,
            reply,
        ).0.core.frames.last().all_removed,
        state.phase is NextEntry && reply is Unreadable ==> !delete_step(
            state,
            reply,
        ).0.core.frames.last().all_removed,
        state.phase is NextEntry && reply is End && !state.core.frames.last().all_removed
            && state.core.frames.len() > 1 ==> !delete_step(
            state,
            reply,
        ).0.core.frames.last().all_removed,
{
}

/// A protected item goes only with the user's consent: it is removed either because it has no
/// protecting attribute, or because the user said yes to this very item.
pub proof fn law_protected_items_need_consent(state: DeleteModel, reply: Reply<Txt>)
    requires
        delete_step(state, reply).0.phase is Removing,
        !(state.phase is Removing),
    ensures
        ({
            let item = delete_step(state, reply).0.phase->Removing_item;
            ||| state.phase is Attributes && state.phase->Attributes_item == item && reply
                is Attributes && protecting(reply->Attributes_0) is None
            ||| state.phase is Confirm && state.phase->Confirm_item == item && reply
                == Reply::<Txt>::Warned(DeleteWarnChoice::Yes)
        }),
{
}

/// A link is never entered: only what is a directory itself is opened.
pub proof fn law_delete_does_not_enter_links(state: DeleteModel, reply: Reply<Txt>)
    requires
        delete_step(state, reply).0.phase is OpenDir,
        !(state.phase is OpenDir),
    ensures
        reply == Reply::<Txt>::Kind(Kind::Dir),
{
}

/// A request to stop ends the deletion at once: nothing is removed after it.
pub proof fn law_stopping_ends_the_deletion(state: DeleteModel, reply: Reply<Txt>)
    requires
        state.phase is Poll && reply == Reply::<Txt>::Flag(true) || state.phase is Confirm && reply
            == Reply::<Txt>::Warned(DeleteWarnChoice::Cancel),
    ensures
        delete_step(state, reply) == cancelled(state.core),
        delete_ask(delete_step(state, reply).0) == Ask::<Txt>::Ended(state.core.sum.stopped()),
{
}

/// The log of a deletion opens with the line that says it started, and once the deletion has
/// ended it closes with the line that says how.
pub proof fn law_delete_is_framed(dir: Txt, names: Seq<Txt>, replies: Seq<Reply<Txt>>)
    ensures
        ({
            let (first, opening) = delete_start(dir, names);
            let (last, rest) = delete_run(first, replies);
            &&& (opening + rest).first() == operation::start_line(Verb::Delete)
            &&& last.phase is Ended ==> (opening + rest).last() == operation::end_line(
                Verb::Delete,
                last.core.sum,
            )
        }),
    decreases replies.len(),
{
    let (first, opening) = delete_start(dir, names);
    if replies.len() > 0 {
        law_delete_is_framed(dir, names, replies.drop_last());
        let (middle, before) = delete_run(first, replies.drop_last());
        let (last, now) = delete_step(middle, replies.last());
        if last.phase is Ended {
            if middle.phase is Ended {
                assert(before + now =~= before);
            } else {
                assert((opening + (before + now)).last() == now.last());
            }
        }
    } else {
        assert(opening + Seq::empty() =~= opening);
    }
}

} // verus!
