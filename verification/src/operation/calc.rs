//! Measuring what files and directories hold.

use crate::operation;
use crate::operation::messages::Message;
use crate::operation::{
    and, nothing, Ask, DirInfo, Effect, LogLevel, ProgressHandle, Reply, Step, Txt,
};
use crate::text;
use crate::winpath;
use vstd::prelude::*;

verus! {

/// The progress line is rewritten each time this many more items were measured.
pub const CALC_REPORT_EVERY: u64 = 512;

/// Names that lie in one directory.
pub struct Group {
    pub dir: String,
    pub names: Vec<String>,
}

/// Names that lie in one directory, in specifications.
pub struct GroupModel {
    pub dir: Txt,
    pub names: Seq<Txt>,
}

impl View for Group {
    type V = GroupModel;

    open spec fn view(&self) -> GroupModel {
        GroupModel { dir: self.dir@, names: self.names.deep_view() }
    }
}

/// The groups, as a specification reads them.
pub open spec fn groups_of(groups: Seq<Group>) -> Seq<GroupModel> {
    groups.map_values(|g: Group| g@)
}

/// What a measurement is waiting for.
pub enum CalcPhase<S = String> {
    /// The log line of the measurement.
    Begin,
    /// Whether to go on with the next group.
    GroupPoll,
    /// Whether to go on with the next name.
    NamePoll,
    /// Whether to go on with the entry.
    EntryPoll { path: S },
    /// Whether to go on with the item.
    ItemPoll { path: S },
    Size { path: S },
    OpenDir { path: S },
    /// The next entry of the innermost directory.
    NextEntry,
    Ended,
}

/// The part of a measurement that outlives a single question.
pub struct CalcCore {
    pub groups: Vec<Group>,
    /// Whether there is a question before each group.
    pub ask_groups: bool,
    pub group: usize,
    pub next: usize,
    pub frames: Vec<String>,
    pub info: DirInfo,
    pub handle: ProgressHandle,
}

/// A measurement that is under way.
pub struct CalcRun {
    pub core: CalcCore,
    pub phase: CalcPhase,
}

/// A measurement's lasting part in specifications.
pub struct CalcCoreModel {
    pub groups: Seq<GroupModel>,
    pub ask_groups: bool,
    pub group: int,
    pub next: int,
    pub frames: Seq<Txt>,
    pub info: DirInfo,
    pub handle: ProgressHandle,
}

/// A measurement in specifications.
pub struct CalcModel {
    pub core: CalcCoreModel,
    pub phase: CalcPhase<Txt>,
}

impl View for CalcCore {
    type V = CalcCoreModel;

    open spec fn view(&self) -> CalcCoreModel {
        CalcCoreModel {
            groups: groups_of(self.groups@),
            ask_groups: self.ask_groups,
            group: self.group as int,
            next: self.next as int,
            frames: self.frames.deep_view(),
            info: self.info,
            handle: self.handle,
        }
    }
}

impl View for CalcPhase<String> {
    type V = CalcPhase<Txt>;

    open spec fn view(&self) -> CalcPhase<Txt> {
        match *self {
            CalcPhase::Begin => CalcPhase::Begin,
            CalcPhase::GroupPoll => CalcPhase::GroupPoll,
            CalcPhase::NamePoll => CalcPhase::NamePoll,
            CalcPhase::EntryPoll { path } => CalcPhase::EntryPoll { path: path@ },
            CalcPhase::ItemPoll { path } => CalcPhase::ItemPoll { path: path@ },
            CalcPhase::Size { path } => CalcPhase::Size { path: path@ },
            CalcPhase::OpenDir { path } => CalcPhase::OpenDir { path: path@ },
            CalcPhase::NextEntry => CalcPhase::NextEntry,
            CalcPhase::Ended => CalcPhase::Ended,
        }
    }
}

impl View for CalcRun {
    type V = CalcModel;

    open spec fn view(&self) -> CalcModel {
        CalcModel { core: self.core@, phase: self.phase@ }
    }
}

/// The sum of two counts, or the largest number where it is larger.
pub open spec fn capped_sum(a: u64, b: u64) -> u64 {
    if a + b <= u64::MAX {
        (a + b) as u64
    } else {
        u64::MAX
    }
}

/// How many items were measured.
pub open spec fn scanned(info: DirInfo) -> u64 {
    capped_sum(info.files, info.dirs)
}

/// The totals with one more item.
pub open spec fn with_item(info: DirInfo, is_dir: bool, len: u64) -> DirInfo {
    if is_dir {
        DirInfo { dirs: capped_sum(info.dirs, 1), ..info }
    } else {
        DirInfo { files: capped_sum(info.files, 1), bytes: capped_sum(info.bytes, len), ..info }
    }
}

/// What is shown of the totals after an item.
pub open spec fn report(core: CalcCoreModel) -> Seq<Effect<Txt>> {
    if scanned(core.info) % CALC_REPORT_EVERY == 0 {
        seq![Effect::UpdateProgress(core.handle, Message::Measuring(scanned(core.info)))]
    } else {
        Seq::empty()
    }
}

/// The outcome of a step: the next state, and what is to be carried out.
pub type CalcOutcome = (CalcModel, Seq<Effect<Txt>>);

/// An outcome with `first` carried out before it.
pub open spec fn preceded(first: Seq<Effect<Txt>>, rest: CalcOutcome) -> CalcOutcome {
    (rest.0, first + rest.1)
}

/// On to another question, with nothing to carry out.
pub open spec fn wait_for(core: CalcCoreModel, phase: CalcPhase<Txt>) -> CalcOutcome {
    (CalcModel { core, phase }, Seq::empty())
}

/// The measurement ends.
pub open spec fn ended(core: CalcCoreModel) -> CalcOutcome {
    (
        CalcModel { core, phase: CalcPhase::Ended },
        seq![Effect::UpdateProgress(core.handle, Message::MeasuredAll(scanned(core.info)))],
    )
}

/// On to the group at hand, if there is one.
pub open spec fn enter_groups(core: CalcCoreModel) -> CalcOutcome {
    if core.group < core.groups.len() {
        wait_for(core, CalcPhase::GroupPoll)
    } else {
        ended(core)
    }
}

/// On to the group after the one at hand.
pub open spec fn next_group(core: CalcCoreModel) -> CalcOutcome {
    enter_groups(CalcCoreModel { group: core.group + 1, next: 0, ..core })
}

/// On to the next name of the group at hand, or to the next group.
pub open spec fn next_name(core: CalcCoreModel) -> CalcOutcome {
    if core.group < core.groups.len() && core.next < core.groups[core.group].names.len() {
        wait_for(core, CalcPhase::NamePoll)
    } else {
        next_group(core)
    }
}

/// An item is done.
pub open spec fn after_item(core: CalcCoreModel) -> CalcOutcome {
    if core.frames.len() > 0 {
        wait_for(core, CalcPhase::NextEntry)
    } else {
        next_name(core)
    }
}

/// The innermost directory is done.
pub open spec fn left_directory(core: CalcCoreModel) -> CalcOutcome {
    after_item(CalcCoreModel { frames: core.frames.drop_last(), ..core })
}

/// An item was measured.
pub open spec fn measured(core: CalcCoreModel, path: Txt, is_dir: bool, len: u64) -> CalcOutcome {
    let counted = CalcCoreModel { info: with_item(core.info, is_dir, len), ..core };
    preceded(
        report(counted),
        if is_dir {
            wait_for(counted, CalcPhase::OpenDir { path })
        } else {
            after_item(counted)
        },
    )
}

/// What a measurement does with a reply. A reply that does not answer the question changes
/// nothing.
pub open spec fn calc_step(state: CalcModel, reply: Reply<Txt>) -> CalcOutcome {
    let core = state.core;
    match (state.phase, reply) {
        (CalcPhase::Begin, Reply::Handle(handle)) => {
            let begun = CalcCoreModel { handle, ..core };
            if core.ask_groups {
                enter_groups(begun)
            } else {
                next_name(begun)
            }
        },
        (CalcPhase::GroupPoll, Reply::Flag(stop)) => if stop {
            ended(core)
        } else {
            next_name(core)
        },
        (CalcPhase::NamePoll, Reply::Flag(stop)) => if stop {
            next_group(core)
        } else {
            let group = core.groups[core.group];
            wait_for(
                CalcCoreModel { next: core.next + 1, ..core },
                CalcPhase::ItemPoll { path: winpath::path_join(group.dir, group.names[core.next]) },
            )
        },
        (CalcPhase::EntryPoll { path }, Reply::Flag(stop)) => if stop {
            left_directory(core)
        } else {
            wait_for(core, CalcPhase::ItemPoll { path })
        },
        (CalcPhase::ItemPoll { path }, Reply::Flag(stop)) => if stop {
            after_item(core)
        } else {
            wait_for(core, CalcPhase::Size { path })
        },
        (CalcPhase::Size { path }, Reply::Size { is_dir, len }) => measured(
            core,
            path,
            is_dir,
            len,
        ),
        (CalcPhase::Size { path }, Reply::Failed(_)) => after_item(core),
        (CalcPhase::OpenDir { path }, Reply::Done) => wait_for(
            CalcCoreModel { frames: core.frames.push(path), ..core },
            CalcPhase::NextEntry,
        ),
        (CalcPhase::OpenDir { path }, Reply::Failed(_)) => after_item(core),
        (CalcPhase::NextEntry, Reply::Entry(name)) => wait_for(
            core,
            CalcPhase::EntryPoll { path: winpath::path_join(core.frames.last(), name) },
        ),
        (CalcPhase::NextEntry, Reply::End) => left_directory(core),
        _ => (state, Seq::empty()),
    }
}

/// The question that a measurement waits to have answered.
pub open spec fn calc_ask(state: CalcModel) -> Ask<Txt> {
    match state.phase {
        CalcPhase::Begin => Ask::BeginProgress(LogLevel::Normal, Message::Measuring(0)),
        CalcPhase::GroupPoll
        | CalcPhase::NamePoll
        | CalcPhase::EntryPoll { .. }
        | CalcPhase::ItemPoll { .. } => Ask::Stop,
        CalcPhase::Size { path } => Ask::SizeOf(path),
        CalcPhase::OpenDir { path } => Ask::OpenDir(path),
        CalcPhase::NextEntry => Ask::NextEntry(state.core.frames.last()),
        CalcPhase::Ended => Ask::Measured(state.core.info),
    }
}

/// What holds of every measurement that is under way.
pub open spec fn calc_wf(state: CalcModel) -> bool {
    let core = state.core;
    &&& 0 <= core.group
    &&& 0 <= core.next
    &&& core.group < core.groups.len() ==> core.next <= core.groups[core.group].names.len()
    &&& !(state.phase is Begin) && !(state.phase is Ended) ==> core.group < core.groups.len()
    &&& state.phase is NamePoll ==> core.next < core.groups[core.group].names.len()
    &&& state.phase is NextEntry || state.phase is EntryPoll ==> core.frames.len() > 0
    &&& state.phase is Begin ==> core.group == 0 && core.next == 0 && core.frames.len() == 0
    &&& state.phase is Begin && !core.ask_groups ==> core.groups.len() == 1
}

/// A measurement before its first reply.
pub open spec fn calc_start(groups: Seq<GroupModel>, ask_groups: bool) -> CalcModel {
    CalcModel {
        core: CalcCoreModel {
            groups,
            ask_groups,
            group: 0,
            next: 0,
            frames: Seq::empty(),
            info: DirInfo { bytes: 0, files: 0, dirs: 0 },
            handle: ProgressHandle(0),
        },
        phase: CalcPhase::Begin,
    }
}

impl CalcRun {
    /// What holds of every measurement that is under way.
    pub open spec fn wf(self) -> bool {
        calc_wf(self@)
    }

    /// The measurement ends.
    fn finish(core: CalcCore, effects: Vec<Effect>) -> (out: (CalcRun, Vec<Effect>))
        ensures
            (out.0@, operation::effects_of(out.1@)) == preceded(
                operation::effects_of(effects@),
                ended(core@),
            ),
    {
        let all: u64 = core.info.files.saturating_add(core.info.dirs);
        let line = Effect::UpdateProgress(core.handle, Message::MeasuredAll(all));
        let more = and(effects, line);
        assert(operation::effects_of(more@) =~= operation::effects_of(effects@) + seq![line@]);
        (CalcRun { core, phase: CalcPhase::Ended }, more)
    }

    /// On to the group at hand, if there is one.
    fn to_group(core: CalcCore, effects: Vec<Effect>) -> (out: (CalcRun, Vec<Effect>))
        requires
            core.next == 0,
        ensures
            (out.0@, operation::effects_of(out.1@)) == preceded(
                operation::effects_of(effects@),
                enter_groups(core@),
            ),
            out.0.wf(),
    {
        proof {
            let e = operation::effects_of(effects@);
            assert(e + Seq::<Effect<Txt>>::empty() =~= e);
        }
        if core.group < core.groups.len() {
            (CalcRun { core, phase: CalcPhase::GroupPoll }, effects)
        } else {
            CalcRun::finish(core, effects)
        }
    }

    /// On to the next name of the group at hand, or to the next group.
    fn to_name(core: CalcCore, effects: Vec<Effect>) -> (out: (CalcRun, Vec<Effect>))
        requires
            core.group < core.groups.len(),
            core.next <= core.groups@[core.group as int].names.len(),
        ensures
            (out.0@, operation::effects_of(out.1@)) == preceded(
                operation::effects_of(effects@),
                next_name(core@),
            ),
            out.0.wf(),
    {
        proof {
            let e = operation::effects_of(effects@);
            assert(e + Seq::<Effect<Txt>>::empty() =~= e);
            assert(core@.groups[core.group as int] == core.groups@[core.group as int]@);
        }
        if core.next < core.groups[core.group].names.len() {
            (CalcRun { core, phase: CalcPhase::NamePoll }, effects)
        } else {
            let core = CalcCore { group: core.group + 1, next: 0, ..core };
            CalcRun::to_group(core, effects)
        }
    }

    /// An item is done.
    fn next_item(core: CalcCore, effects: Vec<Effect>) -> (out: (CalcRun, Vec<Effect>))
        requires
            core.group < core.groups.len(),
            core.next <= core.groups@[core.group as int].names.len(),
        ensures
            (out.0@, operation::effects_of(out.1@)) == preceded(
                operation::effects_of(effects@),
                after_item(core@),
            ),
            out.0.wf(),
    {
        proof {
            let e = operation::effects_of(effects@);
            assert(e + Seq::<Effect<Txt>>::empty() =~= e);
            assert(core@.groups[core.group as int] == core.groups@[core.group as int]@);
        }
        if core.frames.len() > 0 {
            (CalcRun { core, phase: CalcPhase::NextEntry }, effects)
        } else {
            CalcRun::to_name(core, effects)
        }
    }

    /// The innermost directory is done.
    fn leave_directory(core: CalcCore) -> (out: (CalcRun, Vec<Effect>))
        requires
            core.group < core.groups.len(),
            core.next <= core.groups@[core.group as int].names.len(),
            core.frames.len() > 0,
        ensures
            (out.0@, operation::effects_of(out.1@)) == left_directory(core@),
            out.0.wf(),
    {
        proof {
            lemma_nothing_first();
        }
        let CalcCore { groups, ask_groups, group, next, frames, info, handle } = core;
        let mut frames = frames;
        let ghost before = frames.deep_view();
        let _ = frames.pop();
        assert(frames.deep_view() =~= before.drop_last());
        let core = CalcCore { groups, ask_groups, group, next, frames, info, handle };
        CalcRun::next_item(core, nothing())
    }

    /// An item was measured.
    fn count(core: CalcCore, path: String, is_dir: bool, len: u64) -> (out: (CalcRun, Vec<Effect>))
        requires
            core.group < core.groups.len(),
            core.next <= core.groups@[core.group as int].names.len(),
        ensures
            (out.0@, operation::effects_of(out.1@)) == measured(core@, path@, is_dir, len),
            out.0.wf(),
    {
        let info = if is_dir {
            DirInfo { dirs: core.info.dirs.saturating_add(1), ..core.info }
        } else {
            DirInfo {
                files: core.info.files.saturating_add(1),
                bytes: core.info.bytes.saturating_add(len),
                ..core.info
            }
        };
        let core = CalcCore { info, ..core };
        let all: u64 = info.files.saturating_add(info.dirs);
        let mut effects = nothing();
        if all % CALC_REPORT_EVERY == 0 {
            effects = and(effects, Effect::UpdateProgress(core.handle, Message::Measuring(all)));
        }
        assert(operation::effects_of(effects@) =~= report(core@));
        assert(operation::effects_of(effects@) + Seq::<Effect<Txt>>::empty()
            =~= operation::effects_of(effects@));
        assert(core@.groups[core.group as int] == core.groups@[core.group as int]@);
        if is_dir {
            (CalcRun { core, phase: CalcPhase::OpenDir { path } }, effects)
        } else {
            CalcRun::next_item(core, effects)
        }
    }

    /// The question that the measurement waits to have answered.
    pub fn ask(&self) -> (ask: Ask)
        requires
            self.wf(),
        ensures
            ask@ == calc_ask(self@),
    {
        match &self.phase {
            CalcPhase::Begin => Ask::BeginProgress(LogLevel::Normal, Message::Measuring(0)),
            CalcPhase::GroupPoll | CalcPhase::NamePoll | CalcPhase::EntryPoll { .. }
            | CalcPhase::ItemPoll { .. } => Ask::Stop,
            CalcPhase::Size { path } => Ask::SizeOf(path.clone()),
            CalcPhase::OpenDir { path } => Ask::OpenDir(path.clone()),
            CalcPhase::NextEntry => {
                let last = self.core.frames.len() - 1;
                Ask::NextEntry(self.core.frames[last].clone())
            },
            CalcPhase::Ended => Ask::Measured(self.core.info),
        }
    }

    /// What the measurement does with a reply.
    fn advance(self, reply: Reply) -> (out: (CalcRun, Vec<Effect>))
        requires
            self.wf(),
        ensures
            (out.0@, operation::effects_of(out.1@)) == calc_step(self@, reply@),
            out.0.wf(),
    {
        proof {
            lemma_nothing_first();
        }
        let CalcRun { core, phase } = self;
        proof {
            if core.group < core.groups.len() {
                assert(core@.groups[core.group as int] == core.groups@[core.group as int]@);
                assert(core@.groups[core.group as int].names.len()
                    == core.groups@[core.group as int].names.len());
            }
        }
        match (phase, reply) {
            (CalcPhase::Begin, Reply::Handle(handle)) => {
                let core = CalcCore { handle, ..core };
                if core.ask_groups {
                    CalcRun::to_group(core, nothing())
                } else {
                    assert(core@.groups[0] == core.groups@[0]@);
                    CalcRun::to_name(core, nothing())
                }
            },
            (CalcPhase::GroupPoll, Reply::Flag(stop)) => if stop {
                CalcRun::finish(core, nothing())
            } else {
                CalcRun::to_name(core, nothing())
            },
            (CalcPhase::NamePoll, Reply::Flag(stop)) => if stop {
                CalcRun::to_group(CalcCore { group: core.group + 1, next: 0, ..core }, nothing())
            } else {
                let group = &core.groups[core.group];
                let path = winpath::join(group.dir.as_str(), group.names[core.next].as_str());
                let core = CalcCore { next: core.next + 1, ..core };
                (CalcRun { core, phase: CalcPhase::ItemPoll { path } }, nothing())
            },
            (CalcPhase::EntryPoll { path }, Reply::Flag(stop)) => if stop {
                CalcRun::leave_directory(core)
            } else {
                (CalcRun { core, phase: CalcPhase::ItemPoll { path } }, nothing())
            },
            (CalcPhase::ItemPoll { path }, Reply::Flag(stop)) => if stop {
                CalcRun::next_item(core, nothing())
            } else {
                (CalcRun { core, phase: CalcPhase::Size { path } }, nothing())
            },
            (CalcPhase::Size { path }, Reply::Size { is_dir, len }) => {
                CalcRun::count(core, path, is_dir, len)
            },
            (CalcPhase::Size { .. }, Reply::Failed(_)) => CalcRun::next_item(core, nothing()),
            (CalcPhase::OpenDir { path }, Reply::Done) => {
                let CalcCore { groups, ask_groups, group, next, frames, info, handle } = core;
                let mut frames = frames;
                let ghost before = frames.deep_view();
                frames.push(path);
                assert(frames.deep_view() =~= before.push(path@));
                let core = CalcCore { groups, ask_groups, group, next, frames, info, handle };
                (CalcRun { core, phase: CalcPhase::NextEntry }, nothing())
            },
            (CalcPhase::OpenDir { .. }, Reply::Failed(_)) => CalcRun::next_item(core, nothing()),
            (CalcPhase::NextEntry, Reply::Entry(name)) => {
                let last = core.frames.len() - 1;
                let path = winpath::join(core.frames[last].as_str(), name.as_str());
                (CalcRun { core, phase: CalcPhase::EntryPoll { path } }, nothing())
            },
            (CalcPhase::NextEntry, Reply::End) => CalcRun::leave_directory(core),
            (phase, _) => (CalcRun { core, phase }, nothing()),
        }
    }

    /// Takes the answer to the last question, and says what is to be done next.
    pub fn step(self, reply: Reply) -> (out: (CalcRun, Step))
        requires
            self.wf(),
        ensures
            out.0.wf(),
            (out.0@, operation::effects_of(out.1.effects@)) == calc_step(self@, reply@),
            out.1.ask@ == calc_ask(out.0@),
    {
        let (run, effects) = self.advance(reply);
        let ask = run.ask();
        (run, Step { effects, ask })
    }
}

proof fn lemma_nothing_first()
    ensures
        forall|rest: CalcOutcome| #[trigger] preceded(Seq::empty(), rest) == rest,
{
    assert forall|rest: CalcOutcome| #[trigger] preceded(Seq::empty(), rest) == rest by {
        assert(Seq::<Effect<Txt>>::empty() + rest.1 =~= rest.1);
    }
}

/// Starts to measure.
fn start(groups: Vec<Group>, ask_groups: bool) -> (out: (CalcRun, Step))
    requires
        !ask_groups ==> groups.len() == 1,
    ensures
        out.0.wf(),
        out.0@ == calc_start(groups_of(groups@), ask_groups),
        out.1.effects@.len() == 0,
        out.1.ask@ == calc_ask(out.0@),
{
    let frames: Vec<String> = Vec::new();
    let core = CalcCore {
        groups,
        ask_groups,
        group: 0,
        next: 0,
        frames,
        info: DirInfo::default(),
        handle: ProgressHandle(0),
    };
    assert(core@.frames =~= Seq::<Txt>::empty());
    let run = CalcRun { core, phase: CalcPhase::Begin };
    let ask = run.ask();
    (run, Step { effects: Vec::new(), ask })
}

/// Starts to measure `names` in `dir`, with all that lies below them. A directory that is
/// named counts itself.
pub fn run_calc_size(dir: &str, names: Vec<String>) -> (out: (CalcRun, Step))
    ensures
        out.0.wf(),
        out.0@ == calc_start(
            seq![(GroupModel { dir: dir@, names: names.deep_view() })],
            false,
        ),
        out.1.effects@.len() == 0,
        out.1.ask@ == calc_ask(out.0@),
{
    let mut groups: Vec<Group> = Vec::new();
    let group = Group { dir: text::copy(dir), names };
    groups.push(group);
    assert(groups_of(groups@) =~= seq![group@]);
    start(groups, false)
}

/// Starts to measure names that lie in several directories, all in one total.
pub fn run_calc_size_groups(groups: Vec<Group>) -> (out: (CalcRun, Step))
    ensures
        out.0.wf(),
        out.0@ == calc_start(groups_of(groups@), true),
        out.1.effects@.len() == 0,
        out.1.ask@ == calc_ask(out.0@),
{
    start(groups, true)
}

/// Every state that a measurement gets to is well-formed.
pub proof fn law_calc_stays_well_formed(state: CalcModel, reply: Reply<Txt>)
    requires
        calc_wf(state),
    ensures
        calc_wf(calc_step(state, reply).0),
{
}

/// What the items of a run come to: every item whose size was asked for and told counts once.
pub open spec fn told(state: CalcModel, replies: Seq<Reply<Txt>>) -> DirInfo
    decreases replies.len(),
{
    if replies.len() == 0 {
        state.core.info
    } else {
        let before = told(state, replies.drop_last());
        match (calc_run(state, replies.drop_last()).phase, replies.last()) {
            (CalcPhase::Size { .. }, Reply::Size { is_dir, len }) => with_item(before, is_dir, len),
            _ => before,
        }
    }
}

/// A measurement after all of `replies`.
pub open spec fn calc_run(state: CalcModel, replies: Seq<Reply<Txt>>) -> CalcModel
    decreases replies.len(),
{
    if replies.len() == 0 {
        state
    } else {
        calc_step(calc_run(state, replies.drop_last()), replies.last()).0
    }
}

/// The totals of a measurement are those of the items whose size was told, over all groups
/// and directories; nothing else changes them.
pub proof fn law_totals_are_those_of_the_items(state: CalcModel, replies: Seq<Reply<Txt>>)
    ensures
        calc_run(state, replies).core.info == told(state, replies),
    decreases replies.len(),
{
    if replies.len() > 0 {
        law_totals_are_those_of_the_items(state, replies.drop_last());
    }
}

/// The result that a measurement hands over is its totals.
pub proof fn law_result_is_the_totals(state: CalcModel)
    requires
        state.phase is Ended,
    ensures
        calc_ask(state) == Ask::<Txt>::Measured(state.core.info),
{
}

/// What lies at a path.
pub enum Node {
    /// Nothing that can be looked at.
    Missing,
    File { len: u64 },
    /// A directory that cannot be read.
    Closed,
    Dir { children: Seq<Child> },
}

/// What lies in a directory, with its name.
pub struct Child {
    pub name: Txt,
    pub node: Node,
}

/// Totals without a largest number.
pub struct Totals {
    pub bytes: nat,
    pub files: nat,
    pub dirs: nat,
}

/// The totals of nothing.
pub open spec fn no_totals() -> Totals {
    Totals { bytes: 0, files: 0, dirs: 0 }
}

/// Two totals together.
pub open spec fn together(a: Totals, b: Totals) -> Totals {
    Totals { bytes: a.bytes + b.bytes, files: a.files + b.files, dirs: a.dirs + b.dirs }
}

/// What lies at a path comes to. A directory counts itself, also where it cannot be read.
pub open spec fn node_totals(node: Node) -> Totals
    decreases node, 0int,
{
    match node {
        Node::Missing => no_totals(),
        Node::File { len } => Totals { bytes: len as nat, files: 1, dirs: 0 },
        Node::Closed => Totals { bytes: 0, files: 0, dirs: 1 },
        Node::Dir { children } => together(
            Totals { bytes: 0, files: 0, dirs: 1 },
            children_totals(children, 0),
        ),
    }
}

/// What lies in a directory comes to, from one place in it on.
pub open spec fn children_totals(children: Seq<Child>, from: int) -> Totals
    decreases children, children.len() - from,
{
    if 0 <= from < children.len() {
        together(node_totals(children[from].node), children_totals(children, from + 1))
    } else {
        no_totals()
    }
}

/// What groups come to, from one of them on.
pub open spec fn group_totals(groups: Seq<Seq<Child>>, from: int) -> Totals
    decreases groups.len() - from,
{
    if 0 <= from < groups.len() {
        together(children_totals(groups[from], 0), group_totals(groups, from + 1))
    } else {
        no_totals()
    }
}

/// A directory that is being read, and how much of it was read.
pub struct Reading {
    pub children: Seq<Child>,
    pub from: int,
}

/// How far the files were read that a measurement asks for: what lies at the path at hand, and the
/// directories that are open.
pub struct Reader {
    pub at: Node,
    pub open: Seq<Reading>,
}

/// How far the files were read after a reply; nothing where that is not the reply of someone who
/// reads these files and never stops.
pub open spec fn read_on(
    groups: Seq<Seq<Child>>,
    state: CalcModel,
    reader: Reader,
    reply: Reply<Txt>,
) -> Option<Reader> {
    match (state.phase, reply) {
        (CalcPhase::Begin, Reply::Handle(_)) => Some(reader),
        (CalcPhase::GroupPoll, Reply::Flag(false)) => Some(reader),
        (CalcPhase::NamePoll, Reply::Flag(false)) => Some(
            Reader { at: groups[state.core.group][state.core.next].node, ..reader },
        ),
        (CalcPhase::EntryPoll { .. }, Reply::Flag(false)) => Some(reader),
        (CalcPhase::ItemPoll { .. }, Reply::Flag(false)) => Some(reader),
        (CalcPhase::Size { .. }, Reply::Size { is_dir, len }) => match reader.at {
            Node::File { len: n } if !is_dir && len == n => Some(reader),
            Node::Closed if is_dir => Some(reader),
            Node::Dir { .. } if is_dir => Some(reader),
            _ => None,
        },
        (CalcPhase::Size { .. }, Reply::Failed(_)) => if reader.at is Missing {
            Some(reader)
        } else {
            None
        },
        (CalcPhase::OpenDir { .. }, Reply::Done) => match reader.at {
            Node::Dir { children } => Some(
                Reader { open: reader.open.push(Reading { children, from: 0 }), ..reader },
            ),
            _ => None,
        },
        (CalcPhase::OpenDir { .. }, Reply::Failed(_)) => if reader.at is Closed {
            Some(reader)
        } else {
            None
        },
        (CalcPhase::NextEntry, Reply::Entry(name)) => {
            let last = reader.open.last();
            if reader.open.len() > 0 && 0 <= last.from < last.children.len() && name
                == last.children[last.from].name {
                Some(
                    Reader {
                        at: last.children[last.from].node,
                        open: reader.open.drop_last().push(
                            Reading { from: last.from + 1, ..last },
                        ),
                    },
                )
            } else {
                None
            }
        },
        (CalcPhase::NextEntry, Reply::End) => if reader.open.len() > 0 && reader.open.last().from
            >= reader.open.last().children.len() {
            Some(Reader { open: reader.open.drop_last(), ..reader })
        } else {
            None
        },
        (CalcPhase::NextEntry, Reply::Unreadable) => Some(reader),
        _ => None,
    }
}

/// How far the files were read after all of `replies`; nothing where one of them is not that of
/// someone who reads these files and never stops.
pub open spec fn read_all(
    groups: Seq<Seq<Child>>,
    state: CalcModel,
    replies: Seq<Reply<Txt>>,
) -> Option<Reader>
    decreases replies.len(),
{
    if replies.len() == 0 {
        Some(Reader { at: Node::Missing, open: Seq::empty() })
    } else {
        match read_all(groups, state, replies.drop_last()) {
            Some(reader) => read_on(
                groups,
                calc_run(state, replies.drop_last()),
                reader,
                replies.last(),
            ),
            None => None,
        }
    }
}

/// Whether the names of groups are those of what lies there.
pub open spec fn lie_there(models: Seq<GroupModel>, groups: Seq<Seq<Child>>) -> bool {
    &&& models.len() == groups.len()
    &&& forall|g: int|
        0 <= g < groups.len() ==> (#[trigger] models[g]).names == groups[g].map_values(
            |child: Child| child.name,
        )
}

/// A count that stays at the largest number once it gets there.
pub open spec fn capped(n: nat) -> u64 {
    if n <= u64::MAX {
        n as u64
    } else {
        u64::MAX
    }
}

/// Totals with others added to them.
pub open spec fn with_totals(info: DirInfo, t: Totals) -> DirInfo {
    DirInfo {
        bytes: capped(info.bytes as nat + t.bytes),
        files: capped(info.files as nat + t.files),
        dirs: capped(info.dirs as nat + t.dirs),
    }
}

/// What is left in the directories that are open.
spec fn open_totals(open: Seq<Reading>) -> Totals
    decreases open.len(),
{
    if open.len() == 0 {
        no_totals()
    } else {
        together(
            open_totals(open.drop_last()),
            children_totals(open.last().children, open.last().from),
        )
    }
}

/// What is left of the path at hand.
spec fn totals_at(state: CalcModel, at: Node) -> Totals {
    match state.phase {
        CalcPhase::EntryPoll { .. }
        | CalcPhase::ItemPoll { .. }
        | CalcPhase::Size { .. } => node_totals(at),
        CalcPhase::OpenDir { .. } => match at {
            Node::Dir { children } => children_totals(children, 0),
            _ => no_totals(),
        },
        _ => no_totals(),
    }
}

/// What is left of the groups.
spec fn totals_behind(groups: Seq<Seq<Child>>, core: CalcCoreModel) -> Totals {
    together(
        if core.group < groups.len() {
            children_totals(groups[core.group], core.next)
        } else {
            no_totals()
        },
        group_totals(groups, core.group + 1),
    )
}

/// What is left.
spec fn totals_left(groups: Seq<Seq<Child>>, state: CalcModel, reader: Reader) -> Totals {
    together(
        together(totals_at(state, reader.at), open_totals(reader.open)),
        totals_behind(groups, state.core),
    )
}

/// Whether what was counted and what is left come to what all comes to.
spec fn adds_up(groups: Seq<Seq<Child>>, state: CalcModel, reader: Reader, all: DirInfo) -> bool {
    &&& calc_wf(state)
    &&& lie_there(state.core.groups, groups)
    &&& reader.open.len() == state.core.frames.len()
    &&& state.phase is OpenDir ==> reader.at is Dir || reader.at is Closed
    &&& state.phase is Begin || state.phase is GroupPoll || state.phase is NamePoll
        || state.phase is Ended ==> reader.open.len() == 0
    &&& state.phase is GroupPoll ==> state.core.next == 0
    &&& state.phase is Ended ==> state.core.group >= groups.len()
    &&& with_totals(state.core.info, totals_left(groups, state, reader)) == all
}

/// Whether what was counted and what is left in the open directories and behind come to what all
/// comes to, with no path at hand.
spec fn adds_up_between(
    groups: Seq<Seq<Child>>,
    core: CalcCoreModel,
    open: Seq<Reading>,
    all: DirInfo,
) -> bool {
    &&& 0 <= core.group < core.groups.len()
    &&& 0 <= core.next <= core.groups[core.group].names.len()
    &&& lie_there(core.groups, groups)
    &&& open.len() == core.frames.len()
    &&& with_totals(
        core.info,
        together(open_totals(open), totals_behind(groups, core)),
    ) == all
}

proof fn lemma_next_group_adds_up(
    groups: Seq<Seq<Child>>,
    core: CalcCoreModel,
    reader: Reader,
    all: DirInfo,
)
    requires
        adds_up_between(groups, core, reader.open, all),
        core.frames.len() == 0,
        core.next == core.groups[core.group].names.len(),
    ensures
        adds_up(groups, next_group(core).0, reader, all),
{
    assert(core.groups[core.group].names.len() == groups[core.group].len());
    assert(children_totals(groups[core.group], core.next) == no_totals());
    let after = CalcCoreModel { group: core.group + 1, next: 0, ..core };
    if after.group < groups.len() {
        assert(group_totals(groups, after.group) == together(
            children_totals(groups[after.group], 0),
            group_totals(groups, after.group + 1),
        ));
    }
    assert(totals_behind(groups, core) == totals_behind(groups, after));
}

proof fn lemma_next_item_adds_up(
    groups: Seq<Seq<Child>>,
    core: CalcCoreModel,
    reader: Reader,
    all: DirInfo,
)
    requires
        adds_up_between(groups, core, reader.open, all),
    ensures
        adds_up(groups, after_item(core).0, reader, all),
{
    if core.frames.len() == 0 && core.next == core.groups[core.group].names.len() {
        lemma_next_group_adds_up(groups, core, reader, all);
    }
}

#[verifier::rlimit(40)]
proof fn lemma_measured_adds_up(
    groups: Seq<Seq<Child>>,
    core: CalcCoreModel,
    path: Txt,
    is_dir: bool,
    len: u64,
    reader: Reader,
    all: DirInfo,
)
    requires
        adds_up(groups, (CalcModel { core, phase: CalcPhase::Size { path } }), reader, all),
        match reader.at {
            Node::File { len: n } => !is_dir && len == n,
            Node::Closed | Node::Dir { .. } => is_dir,
            Node::Missing => false,
        },
    ensures
        adds_up(groups, measured(core, path, is_dir, len).0, reader, all),
{
    let counted = CalcCoreModel { info: with_item(core.info, is_dir, len), ..core };
    let left = together(open_totals(reader.open), totals_behind(groups, core));
    assert(totals_behind(groups, counted) == totals_behind(groups, core));
    match reader.at {
        Node::File { .. } => {
            assert(with_totals(counted.info, left) == with_totals(
                core.info,
                together(node_totals(reader.at), left),
            ));
            lemma_next_item_adds_up(groups, counted, reader, all);
        },
        Node::Dir { children } => {
            assert(with_totals(counted.info, together(children_totals(children, 0), left))
                == with_totals(core.info, together(node_totals(reader.at), left)));
        },
        _ => {
            assert(with_totals(counted.info, left) == with_totals(
                core.info,
                together(node_totals(reader.at), left),
            ));
        },
    }
}

#[verifier::rlimit(40)]
proof fn lemma_polled_adds_up(
    groups: Seq<Seq<Child>>,
    state: CalcModel,
    reader: Reader,
    all: DirInfo,
)
    requires
        adds_up(groups, state, reader, all),
        state.phase is NamePoll || state.phase is GroupPoll || state.phase is EntryPoll
            || state.phase is ItemPoll,
    ensures
        adds_up(
            groups,
            calc_step(state, Reply::Flag(false)).0,
            read_on(groups, state, reader, Reply::Flag(false))->0,
            all,
        ),
{
    let core = state.core;
    assert(core.groups[core.group].names.len() == groups[core.group].len());
    if let CalcPhase::GroupPoll = state.phase {
        lemma_next_item_adds_up(groups, core, reader, all);
    }
}

#[verifier::rlimit(40)]
proof fn lemma_entered_adds_up(
    groups: Seq<Seq<Child>>,
    state: CalcModel,
    reader: Reader,
    reply: Reply<Txt>,
    all: DirInfo,
)
    requires
        adds_up(groups, state, reader, all),
        state.phase is OpenDir || state.phase is NextEntry,
        read_on(groups, state, reader, reply) is Some,
    ensures
        adds_up(
            groups,
            calc_step(state, reply).0,
            read_on(groups, state, reader, reply)->0,
            all,
        ),
{
    let core = state.core;
    let reader2 = read_on(groups, state, reader, reply)->0;
    match (state.phase, reply) {
        (CalcPhase::OpenDir { .. }, Reply::Done) => {
            assert(reader2.open.drop_last() =~= reader.open);
        },
        (CalcPhase::OpenDir { .. }, Reply::Failed(_)) => {
            lemma_next_item_adds_up(groups, core, reader, all);
        },
        (CalcPhase::NextEntry, Reply::Entry(_)) => {
            assert(reader2.open.drop_last() =~= reader.open.drop_last());
        },
        (CalcPhase::NextEntry, Reply::End) => {
            let after = CalcCoreModel { frames: core.frames.drop_last(), ..core };
            assert(children_totals(reader.open.last().children, reader.open.last().from)
                == no_totals());
            assert(totals_behind(groups, after) == totals_behind(groups, core));
            lemma_next_item_adds_up(groups, after, reader2, all);
        },
        _ => {},
    }
}

#[verifier::rlimit(40)]
proof fn lemma_step_adds_up(
    groups: Seq<Seq<Child>>,
    state: CalcModel,
    reader: Reader,
    reply: Reply<Txt>,
    all: DirInfo,
)
    requires
        adds_up(groups, state, reader, all),
        read_on(groups, state, reader, reply) is Some,
    ensures
        adds_up(
            groups,
            calc_step(state, reply).0,
            read_on(groups, state, reader, reply)->0,
            all,
        ),
{
    let core = state.core;
    match (state.phase, reply) {
        (CalcPhase::Begin, Reply::Handle(handle)) => {
            let begun = CalcCoreModel { handle, ..core };
            assert(totals_behind(groups, begun) == totals_behind(groups, core));
            if !core.ask_groups {
                lemma_next_item_adds_up(groups, begun, reader, all);
            }
        },
        (CalcPhase::Size { path }, Reply::Size { is_dir, len }) => {
            lemma_measured_adds_up(groups, core, path, is_dir, len, reader, all);
        },
        (CalcPhase::Size { .. }, Reply::Failed(_)) => {
            lemma_next_item_adds_up(groups, core, reader, all);
        },
        (CalcPhase::OpenDir { .. }, _) | (CalcPhase::NextEntry, _) => {
            lemma_entered_adds_up(groups, state, reader, reply, all);
        },
        _ => {
            lemma_polled_adds_up(groups, state, reader, all);
        },
    }
}

proof fn lemma_run_adds_up(
    models: Seq<GroupModel>,
    ask_groups: bool,
    groups: Seq<Seq<Child>>,
    replies: Seq<Reply<Txt>>,
)
    requires
        lie_there(models, groups),
        !ask_groups ==> models.len() == 1,
        read_all(groups, calc_start(models, ask_groups), replies) is Some,
    ensures
        adds_up(
            groups,
            calc_run(calc_start(models, ask_groups), replies),
            read_all(groups, calc_start(models, ask_groups), replies)->0,
            with_totals(DirInfo { bytes: 0, files: 0, dirs: 0 }, group_totals(groups, 0)),
        ),
    decreases replies.len(),
{
    let first = calc_start(models, ask_groups);
    let all = with_totals(DirInfo { bytes: 0, files: 0, dirs: 0 }, group_totals(groups, 0));
    if replies.len() > 0 {
        lemma_run_adds_up(models, ask_groups, groups, replies.drop_last());
        lemma_step_adds_up(
            groups,
            calc_run(first, replies.drop_last()),
            read_all(groups, first, replies.drop_last())->0,
            replies.last(),
            all,
        );
    }
}

/// Whether files were measured to their end: the replies are those of someone who reads these
/// files and never stops, and the measurement has ended.
pub open spec fn was_measured(
    groups: Seq<Seq<Child>>,
    first: CalcModel,
    replies: Seq<Reply<Txt>>,
) -> bool {
    &&& read_all(groups, first, replies) is Some
    &&& calc_run(first, replies).phase is Ended
}

/// A measurement that nobody stops comes to what lies at all of its names and below, however it is
/// spread over directories.
pub proof fn law_result_is_what_lies_there(
    models: Seq<GroupModel>,
    ask_groups: bool,
    groups: Seq<Seq<Child>>,
    replies: Seq<Reply<Txt>>,
)
    requires
        lie_there(models, groups),
        !ask_groups ==> models.len() == 1,
        was_measured(groups, calc_start(models, ask_groups), replies),
    ensures
        calc_run(calc_start(models, ask_groups), replies).core.info == with_totals(
            DirInfo { bytes: 0, files: 0, dirs: 0 },
            group_totals(groups, 0),
        ),
{
    lemma_run_adds_up(models, ask_groups, groups, replies);
}

/// The results of the first `n` measurements together.
pub open spec fn summed(results: Seq<DirInfo>, n: int) -> DirInfo
    decreases n,
{
    if n <= 0 {
        DirInfo { bytes: 0, files: 0, dirs: 0 }
    } else {
        let before = summed(results, n - 1);
        let last = results[n - 1];
        DirInfo {
            bytes: capped_sum(before.bytes, last.bytes),
            files: capped_sum(before.files, last.files),
            dirs: capped_sum(before.dirs, last.dirs),
        }
    }
}

proof fn lemma_sums(groups: Seq<Seq<Child>>, results: Seq<DirInfo>, n: int)
    requires
        results.len() == groups.len(),
        0 <= n <= groups.len(),
        forall|i: int|
            0 <= i < groups.len() ==> #[trigger] results[i] == with_totals(
                DirInfo { bytes: 0, files: 0, dirs: 0 },
                children_totals(groups[i], 0),
            ),
    ensures
        with_totals(summed(results, n), group_totals(groups, n)) == with_totals(
            DirInfo { bytes: 0, files: 0, dirs: 0 },
            group_totals(groups, 0),
        ),
    decreases n,
{
    if n > 0 {
        lemma_sums(groups, results, n - 1);
        assert(results[n - 1] == with_totals(
            DirInfo { bytes: 0, files: 0, dirs: 0 },
            children_totals(groups[n - 1], 0),
        ));
    }
}

/// The totals of groups are the sums of what each group comes to by itself, as long as nobody stops
/// a measurement and the files stay as they are. (A count that has reached the largest number stays
/// there.)
pub proof fn law_groups_add_up(
    models: Seq<GroupModel>,
    groups: Seq<Seq<Child>>,
    replies: Seq<Reply<Txt>>,
    singly: Seq<Seq<Reply<Txt>>>,
    results: Seq<DirInfo>,
)
    requires
        lie_there(models, groups),
        was_measured(groups, calc_start(models, true), replies),
        singly.len() == groups.len(),
        results.len() == groups.len(),
        forall|i: int|
            0 <= i < groups.len() ==> {
                let first = calc_start(seq![models[i]], false);
                &&& was_measured(seq![groups[i]], first, #[trigger] singly[i])
                &&& results[i] == calc_run(first, singly[i]).core.info
            },
    ensures
        calc_run(calc_start(models, true), replies).core.info == summed(
            results,
            groups.len() as int,
        ),
{
    let none = DirInfo { bytes: 0, files: 0, dirs: 0 };
    law_result_is_what_lies_there(models, true, groups, replies);
    assert forall|i: int| 0 <= i < groups.len() implies #[trigger] results[i] == with_totals(
        none,
        children_totals(groups[i], 0),
    ) by {
        assert(was_measured(seq![groups[i]], calc_start(seq![models[i]], false), singly[i]));
        assert(models[i].names == groups[i].map_values(|child: Child| child.name));
        law_result_is_what_lies_there(seq![models[i]], false, seq![groups[i]], singly[i]);
        assert(group_totals(seq![groups[i]], 1) == no_totals());
    }
    lemma_sums(groups, results, groups.len() as int);
}

/// There is one progress line, whatever is measured: it is begun first, and never again.
pub proof fn law_measuring_has_one_line(state: CalcModel, reply: Reply<Txt>)
    requires
        calc_ask(calc_step(state, reply).0) is BeginProgress,
    ensures
        calc_step(state, reply).0 == state,
        !(reply is Handle),
{
}

} // verus!
