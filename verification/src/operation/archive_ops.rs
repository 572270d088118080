//! Changing archives by writing them anew.
//!
//! The new archive is written next to the old one and takes its place only when it is
//! complete, so that the old one is never damaged. Names are decoded on the way, so that the
//! new archive holds them as UTF-8.

use crate::archive;
use crate::operation;
use crate::operation::adding;
use crate::operation::adding::{AddModel, AddPhase, AddStyle, Adder};
use crate::operation::messages::{Message, Verb};
use crate::operation::{
    and, closing, followed_by, nothing, opening, ArchiveFormat, Ask, Effect, LogLevel, OpSummary,
    ProgressHandle, ProgressTracker, Reply, ResultStyle, Step, Txt,
};
use crate::text;
use crate::winpath;
use vstd::prelude::*;

verus! {

/// What becomes of the entries of the old archive.
pub enum Rule {
    /// These entries, and what lies below them, are left out.
    Drop(Vec<String>),
    /// The entry `from`, and what lies below it, is called `to`.
    Rename { from: String, to: String },
}

/// What becomes of the entries, in specifications.
pub enum RuleModel {
    Drop(Seq<Txt>),
    Rename { from: Txt, to: Txt },
}

impl View for Rule {
    type V = RuleModel;

    open spec fn view(&self) -> RuleModel {
        match *self {
            Rule::Drop(targets) => RuleModel::Drop(targets.deep_view()),
            Rule::Rename { from, to } => RuleModel::Rename { from: from@, to: to@ },
        }
    }
}

/// Whether an entry is one of `targets`, or lies below one.
pub open spec fn is_covered(targets: Seq<Txt>, name: Txt) -> bool {
    exists|i: int| 0 <= i < targets.len() && archive::at_or_below(name, #[trigger] targets[i])
}

/// What an entry is called in the new archive, if it is kept.
pub open spec fn decided(rule: RuleModel, name: Txt) -> Option<Txt> {
    match rule {
        RuleModel::Drop(targets) => if is_covered(targets, name) {
            None
        } else {
            Some(name)
        },
        RuleModel::Rename { from, to } => if name == from {
            Some(to)
        } else {
            match text::stripped(name, from.push('/')) {
                Some(rest) => Some(to.push('/') + rest),
                None => Some(name),
            }
        },
    }
}

/// What the entry `name` is called in the new archive, if it is kept.
pub fn decide(rule: &Rule, name: &str) -> (out: Option<String>)
    ensures
        out.deep_view() == decided(rule@, name@),
{
    match rule {
        Rule::Drop(targets) => {
            let ghost all = targets.deep_view();
            let mut i: usize = 0;
            while i < targets.len()
                invariant
                    i <= targets.len(),
                    all == targets.deep_view(),
                    rule@ == RuleModel::Drop(all),
                    forall|j: int| 0 <= j < i ==> !archive::at_or_below(name@, #[trigger] all[j]),
                decreases targets.len() - i,
            {
                assert(all[i as int] == targets@[i as int]@);
                if archive::is_at_or_below(name, targets[i].as_str()) {
                    assert(archive::at_or_below(name@, all[i as int]));
                    return None;
                }
                i += 1;
            }
            Some(text::copy(name))
        },
        Rule::Rename { from, to } => {
            if text::same(name, from.as_str()) {
                return Some(text::copy(to.as_str()));
            }
            let mut prefix = text::copy(from.as_str());
            prefix.push('/');
            match text::strip_prefix(name, prefix.as_str()) {
                Some(rest) => {
                    let mut out = text::copy(to.as_str());
                    out.push('/');
                    out.append(rest.as_str());
                    Some(out)
                },
                None => Some(text::copy(name)),
            }
        },
    }
}

/// What is reported once the new archive is in place.
pub enum Report {
    /// Nothing: what was added was reported when it was.
    Additions,
    /// These entries were deleted.
    Deletions(Vec<String>),
    /// One entry was renamed.
    Renaming { old_name: String, new_name: String },
}

/// What is reported once the new archive is in place, in specifications.
pub enum ReportModel {
    Additions,
    Deletions(Seq<Txt>),
    Renaming { old_name: Txt, new_name: Txt },
}

impl View for Report {
    type V = ReportModel;

    open spec fn view(&self) -> ReportModel {
        match *self {
            Report::Additions => ReportModel::Additions,
            Report::Deletions(names) => ReportModel::Deletions(names.deep_view()),
            Report::Renaming { old_name, new_name } => ReportModel::Renaming {
                old_name: old_name@,
                new_name: new_name@,
            },
        }
    }
}

/// What a rewriting is waiting for.
#[derive(Clone, Debug)]
pub enum RewriteStage<S = String> {
    /// The old archive being opened.
    Open,
    /// The new archive being created.
    Create,
    /// The log line of the rewriting.
    Begin,
    /// Whether to go on with the next entry.
    Poll,
    /// The name of the entry.
    Entry,
    /// The entry being copied under a name.
    Copy { name: S },
    /// How long it has taken so far.
    Clock,
    /// Files being added.
    Adding,
    /// The new archive being closed.
    Finish,
    /// The new archive taking the place of the old one.
    Replace,
    Ended,
}

impl View for RewriteStage<String> {
    type V = RewriteStage<Txt>;

    open spec fn view(&self) -> RewriteStage<Txt> {
        match *self {
            RewriteStage::Open => RewriteStage::Open,
            RewriteStage::Create => RewriteStage::Create,
            RewriteStage::Begin => RewriteStage::Begin,
            RewriteStage::Poll => RewriteStage::Poll,
            RewriteStage::Entry => RewriteStage::Entry,
            RewriteStage::Copy { name } => RewriteStage::Copy { name: name@ },
            RewriteStage::Clock => RewriteStage::Clock,
            RewriteStage::Adding => RewriteStage::Adding,
            RewriteStage::Finish => RewriteStage::Finish,
            RewriteStage::Replace => RewriteStage::Replace,
            RewriteStage::Ended => RewriteStage::Ended,
        }
    }
}

/// What a rewriting is for.
pub struct RewritePlan {
    pub archive: String,
    /// Where the new archive is written before it takes the place of the old one.
    pub tmp: String,
    pub rule: Rule,
    pub report: Report,
    pub verb: Verb,
    pub style: ResultStyle,
}

/// What a rewriting is for, in specifications.
pub struct RewritePlanModel {
    pub archive: Txt,
    pub tmp: Txt,
    pub rule: RuleModel,
    pub report: ReportModel,
    pub verb: Verb,
    pub style: ResultStyle,
}

impl View for RewritePlan {
    type V = RewritePlanModel;

    open spec fn view(&self) -> RewritePlanModel {
        RewritePlanModel {
            archive: self.archive@,
            tmp: self.tmp@,
            rule: self.rule@,
            report: self.report@,
            verb: self.verb,
            style: self.style,
        }
    }
}

/// How far a rewriting is.
#[derive(Clone, Copy, Debug, PartialEq, Eq, Structural)]
pub struct Progress {
    pub total: u64,
    pub index: u64,
    pub handle: ProgressHandle,
    pub tracker: ProgressTracker,
}

/// A rewriting that is under way. Its counts are those of `adder`.
pub struct RewriteRun {
    pub plan: RewritePlan,
    pub progress: Progress,
    pub adder: Adder,
    pub stage: RewriteStage,
}

/// A rewriting in specifications.
pub struct RewriteModel {
    pub plan: RewritePlanModel,
    pub progress: Progress,
    pub adder: AddModel,
    pub stage: RewriteStage<Txt>,
}

impl View for RewriteRun {
    type V = RewriteModel;

    open spec fn view(&self) -> RewriteModel {
        RewriteModel {
            plan: self.plan@,
            progress: self.progress,
            adder: self.adder@,
            stage: self.stage@,
        }
    }
}

/// The outcome of a step: the next state, and what is to be carried out.
pub type RewriteOutcome = (RewriteModel, Seq<Effect<Txt>>);

/// The counts of a rewriting.
pub open spec fn sum_of(state: RewriteModel) -> OpSummary {
    state.adder.core.sum
}

/// A rewriting with other counts.
pub open spec fn with_sum(state: RewriteModel, sum: OpSummary) -> RewriteModel {
    RewriteModel {
        adder: AddModel {
            core: adding::AddCoreModel { sum, ..state.adder.core },
            phase: state.adder.phase,
        },
        ..state
    }
}

/// A rewriting that waits for another reply.
pub open spec fn at(state: RewriteModel, stage: RewriteStage<Txt>) -> RewriteModel {
    RewriteModel { stage, ..state }
}

/// The line that says what went wrong with the archive.
pub open spec fn failure_line(state: RewriteModel, reason: Txt) -> Effect<Txt> {
    Effect::Log(
        LogLevel::Error,
        Message::UpdateFailure(winpath::path_display_name(state.plan.archive), reason),
    )
}

/// The rewriting ends, after `first`.
pub open spec fn ended(state: RewriteModel, first: Seq<Effect<Txt>>) -> RewriteOutcome {
    (
        at(state, RewriteStage::Ended),
        first + operation::closing_lines(state.plan.verb, state.plan.style, sum_of(state)),
    )
}

/// The rewriting ends with an error, after `first`.
pub open spec fn failed(state: RewriteModel, first: Seq<Effect<Txt>>, reason: Txt) -> RewriteOutcome {
    ended(
        with_sum(state, sum_of(state).plus_err()),
        first.push(failure_line(state, reason)),
    )
}

/// The new archive is to be closed, after `first`.
pub open spec fn wrapped_up(state: RewriteModel, first: Seq<Effect<Txt>>) -> RewriteOutcome {
    (
        at(state, RewriteStage::Finish),
        first.push(Effect::EndProgress(state.progress.handle, Message::Rebuild)),
    )
}

/// On to the entry at hand, to the files that are added, or to the end, after `first`.
pub open spec fn at_entry(state: RewriteModel, first: Seq<Effect<Txt>>) -> RewriteOutcome {
    if state.progress.index < state.progress.total {
        (at(state, RewriteStage::Poll), first)
    } else if state.adder.phase is Finished {
        wrapped_up(state, first)
    } else {
        (at(state, RewriteStage::Adding), first)
    }
}

/// On to the entry after the one at hand, after `first`.
pub open spec fn next_entry(state: RewriteModel, first: Seq<Effect<Txt>>) -> RewriteOutcome {
    at_entry(
        RewriteModel {
            progress: Progress {
                index: if state.progress.index < u64::MAX {
                    (state.progress.index + 1) as u64
                } else {
                    u64::MAX
                },
                ..state.progress
            },
            ..state
        },
        first,
    )
}

/// The name of the entry at hand is known.
pub open spec fn named(state: RewriteModel, raw: Seq<u8>, is_dir: bool) -> RewriteOutcome {
    let name = archive::normalized(archive::name_text(raw));
    if name.len() == 0 {
        next_entry(state, Seq::empty())
    } else {
        match decided(state.plan.rule, name) {
            None => (at(state, RewriteStage::Clock), Seq::empty()),
            Some(out) => (
                at(
                    state,
                    RewriteStage::Copy {
                        name: if is_dir {
                            out.push('/')
                        } else {
                            out
                        },
                    },
                ),
                Seq::empty(),
            ),
        }
    }
}

/// The entry at hand is done, and how far the rewriting is, is shown if it is due.
pub open spec fn ticked(state: RewriteModel, seconds: u64) -> RewriteOutcome {
    let p = state.progress;
    let done = if p.index < u64::MAX {
        (p.index + 1) as u64
    } else {
        u64::MAX
    };
    next_entry(
        RewriteModel {
            progress: Progress { tracker: p.tracker.after(seconds, done, p.total), ..p },
            ..state
        },
        match p.tracker.due(seconds, done, p.total) {
            Some(pct) => seq![Effect::UpdateProgress(p.handle, Message::RebuildProgress(pct))],
            None => Seq::empty(),
        },
    )
}

/// The lines that report what was done to the archive.
pub open spec fn report_lines(report: ReportModel) -> Seq<Effect<Txt>> {
    match report {
        ReportModel::Additions => Seq::empty(),
        ReportModel::Deletions(names) => names.map_values(
            |name: Txt| Effect::Log(LogLevel::Normal, Message::Item(Verb::Delete, name)),
        ),
        ReportModel::Renaming { old_name, new_name } => seq![
            Effect::Log(LogLevel::Normal, Message::Renamed(old_name, new_name)),
        ],
    }
}

/// The counts once the new archive is in place.
pub open spec fn reported(report: ReportModel, sum: OpSummary) -> OpSummary {
    match report {
        ReportModel::Additions => sum,
        ReportModel::Deletions(names) => OpSummary { ok: names.len() as usize, ..sum },
        ReportModel::Renaming { .. } => OpSummary { ok: 1, ..sum },
    }
}

/// What a rewriting does with a reply. A reply that does not answer the question changes
/// nothing.
pub open spec fn rewrite_step(state: RewriteModel, reply: Reply<Txt>) -> RewriteOutcome {
    let discard = seq![Effect::RemoveFile(state.plan.tmp)];
    match (state.stage, reply) {
        (RewriteStage::Open, Reply::Opened(total)) => (
            RewriteModel {
                progress: Progress { total, ..state.progress },
                stage: RewriteStage::Create,
                ..state
            },
            Seq::empty(),
        ),
        (RewriteStage::Open, Reply::Failed(reason)) => failed(state, Seq::empty(), reason),
        (RewriteStage::Create, Reply::Done) => (at(state, RewriteStage::Begin), Seq::empty()),
        (RewriteStage::Create, Reply::Failed(reason)) => failed(state, Seq::empty(), reason),
        (RewriteStage::Begin, Reply::Handle(handle)) => at_entry(
            RewriteModel { progress: Progress { handle, ..state.progress }, ..state },
            Seq::empty(),
        ),
        (RewriteStage::Poll, Reply::Flag(stop)) => if stop {
            wrapped_up(with_sum(state, sum_of(state).stopped()), Seq::empty())
        } else {
            (at(state, RewriteStage::Entry), Seq::empty())
        },
        (RewriteStage::Entry, Reply::Named { raw, is_dir }) => named(state, raw@, is_dir),
        (RewriteStage::Entry, Reply::Failed(reason)) => next_entry(
            with_sum(state, sum_of(state).plus_err()),
            seq![failure_line(state, reason)],
        ),
        (RewriteStage::Copy { name }, Reply::Done) => (
            at(state, RewriteStage::Clock),
            Seq::empty(),
        ),
        (RewriteStage::Copy { name }, Reply::Failed(reason)) => (
            at(with_sum(state, sum_of(state).plus_err()), RewriteStage::Clock),
            seq![failure_line(state, reason)],
        ),
        (RewriteStage::Clock, Reply::Seconds(seconds)) => ticked(state, seconds),
        (RewriteStage::Adding, _) => {
            let (adder, effects) = adding::add_step(state.adder, reply);
            let next = RewriteModel { adder, ..state };
            if adder.phase is Finished {
                wrapped_up(next, effects)
            } else {
                (next, effects)
            }
        },
        (RewriteStage::Finish, Reply::Done) => if sum_of(state).cancelled || sum_of(state).err > 0 {
            ended(state, discard)
        } else {
            (at(state, RewriteStage::Replace), Seq::empty())
        },
        (RewriteStage::Finish, Reply::Failed(reason)) => if sum_of(state).cancelled || sum_of(
            state,
        ).err > 0 {
            ended(state, discard)
        } else {
            failed(state, discard, reason)
        },
        (RewriteStage::Replace, Reply::Done) => ended(
            with_sum(state, reported(state.plan.report, sum_of(state))),
            report_lines(state.plan.report),
        ),
        (RewriteStage::Replace, Reply::Failed(reason)) => failed(state, discard, reason),
        _ => (state, Seq::empty()),
    }
}

/// The question that a rewriting waits to have answered.
pub open spec fn rewrite_ask(state: RewriteModel) -> Ask<Txt> {
    match state.stage {
        RewriteStage::Open => Ask::OpenArchive(state.plan.archive),
        RewriteStage::Create => Ask::CreateArchive {
            path: state.plan.tmp,
            format: ArchiveFormat::Zip,
        },
        RewriteStage::Begin => Ask::BeginProgress(LogLevel::Normal, Message::Rebuild),
        RewriteStage::Poll => Ask::Stop,
        RewriteStage::Entry => Ask::EntryAt(state.progress.index),
        RewriteStage::Copy { name } => Ask::CopyEntry { index: state.progress.index, name },
        RewriteStage::Clock => Ask::Elapsed,
        RewriteStage::Adding => adding::add_ask(state.adder),
        RewriteStage::Finish => Ask::Finish,
        RewriteStage::Replace => Ask::Rename { src: state.plan.tmp, dst: state.plan.archive },
        RewriteStage::Ended => Ask::Ended(sum_of(state)),
    }
}

/// Where the new archive is written: beside the old one, under a name that the process and
/// the sequence number make its own.
pub open spec fn tmp_path(archive: Txt, process: u32, sequence: u64) -> Txt {
    winpath::path_with_file_name(
        archive,
        winpath::path_display_name(archive) + ".rerics-tmp-"@ + text::decimal_text(process as nat)
            + "-"@ + text::decimal_text(sequence as nat),
    )
}

/// A rewriting before its first reply.
pub open spec fn rewrite_start(plan: RewritePlanModel, adder: AddModel) -> RewriteModel {
    RewriteModel {
        plan,
        progress: Progress {
            total: 0,
            index: 0,
            handle: ProgressHandle(0),
            tracker: operation::fresh_tracker(),
        },
        adder,
        stage: RewriteStage::Open,
    }
}

/// The entries with the given names in the directory `inner`.
pub open spec fn inner_names(inner: Txt, names: Seq<Txt>) -> Seq<Txt> {
    names.map_values(|name: Txt| archive::inner_join(inner, name))
}

impl RewriteRun {
    /// What holds of every rewriting that is under way.
    pub open spec fn wf(self) -> bool {
        self.adder.wf()
    }

    /// The rewriting with other counts.
    fn counting(self, sum: OpSummary) -> (run: RewriteRun)
        requires
            self.wf(),
        ensures
            run@ == with_sum(self@, sum),
            run.wf(),
    {
        let RewriteRun { plan, progress, adder, stage } = self;
        let Adder { core, phase } = adder;
        let core = adding::AddCore { sum, ..core };
        RewriteRun { plan, progress, adder: Adder { core, phase }, stage }
    }

    fn end(self, first: Vec<Effect>) -> (out: (RewriteRun, Vec<Effect>))
        requires
            self.wf(),
        ensures
            (out.0@, operation::effects_of(out.1@)) == ended(
                self@,
                operation::effects_of(first@),
            ),
            out.0.wf(),
    {
        let lines = closing(self.plan.verb, self.plan.style, self.adder.core.sum);
        let all = followed_by(first, lines);
        (RewriteRun { stage: RewriteStage::Ended, ..self }, all)
    }

    fn failure(&self, reason: String) -> (line: Effect)
        ensures
            line@ == failure_line(self@, reason@),
    {
        let name = winpath::display_name(self.plan.archive.as_str());
        Effect::Log(LogLevel::Error, Message::UpdateFailure(name, reason))
    }

    fn fail(self, first: Vec<Effect>, reason: String) -> (out: (RewriteRun, Vec<Effect>))
        requires
            self.wf(),
        ensures
            (out.0@, operation::effects_of(out.1@)) == failed(
                self@,
                operation::effects_of(first@),
                reason@,
            ),
            out.0.wf(),
    {
        let line = self.failure(reason);
        let effects = and(first, line);
        let sum = self.adder.core.sum.with_err();
        self.counting(sum).end(effects)
    }

    fn discard(&self) -> (effects: Vec<Effect>)
        ensures
            operation::effects_of(effects@) == seq![Effect::RemoveFile(self@.plan.tmp)],
    {
        let effects = and(nothing(), Effect::RemoveFile(self.plan.tmp.clone()));
        assert(operation::effects_of(effects@) =~= seq![Effect::RemoveFile(self@.plan.tmp)]);
        effects
    }

    fn wrap_up(self, first: Vec<Effect>) -> (out: (RewriteRun, Vec<Effect>))
        requires
            self.wf(),
        ensures
            (out.0@, operation::effects_of(out.1@)) == wrapped_up(
                self@,
                operation::effects_of(first@),
            ),
            out.0.wf(),
    {
        let effects = and(first, Effect::EndProgress(self.progress.handle, Message::Rebuild));
        (RewriteRun { stage: RewriteStage::Finish, ..self }, effects)
    }

    fn to_entry(self, first: Vec<Effect>) -> (out: (RewriteRun, Vec<Effect>))
        requires
            self.wf(),
        ensures
            (out.0@, operation::effects_of(out.1@)) == at_entry(
                self@,
                operation::effects_of(first@),
            ),
            out.0.wf(),
    {
        if self.progress.index < self.progress.total {
            (RewriteRun { stage: RewriteStage::Poll, ..self }, first)
        } else {
            match &self.adder.phase {
                AddPhase::Finished => self.wrap_up(first),
                _ => (RewriteRun { stage: RewriteStage::Adding, ..self }, first),
            }
        }
    }

    fn to_next_entry(self, first: Vec<Effect>) -> (out: (RewriteRun, Vec<Effect>))
        requires
            self.wf(),
        ensures
            (out.0@, operation::effects_of(out.1@)) == next_entry(
                self@,
                operation::effects_of(first@),
            ),
            out.0.wf(),
    {
        let progress = Progress { index: self.progress.index.saturating_add(1), ..self.progress };
        let run = RewriteRun { progress, ..self };
        run.to_entry(first)
    }

    fn name(self, raw: &Vec<u8>, is_dir: bool) -> (out: (RewriteRun, Vec<Effect>))
        requires
            self.wf(),
        ensures
            (out.0@, operation::effects_of(out.1@)) == named(self@, raw@, is_dir),
            out.0.wf(),
    {
        let decoded = archive::decode_name(raw);
        let name = archive::normalize_inner(decoded.as_str());
        if name.as_str().is_empty() {
            self.to_next_entry(nothing())
        } else {
            match decide(&self.plan.rule, name.as_str()) {
                None => (RewriteRun { stage: RewriteStage::Clock, ..self }, nothing()),
                Some(out) => {
                    let mut name = out;
                    if is_dir {
                        name.push('/');
                    }
                    (RewriteRun { stage: RewriteStage::Copy { name }, ..self }, nothing())
                },
            }
        }
    }

    fn tick(self, seconds: u64) -> (out: (RewriteRun, Vec<Effect>))
        requires
            self.wf(),
        ensures
            (out.0@, operation::effects_of(out.1@)) == ticked(self@, seconds),
            out.0.wf(),
    {
        let p = self.progress;
        let done: u64 = p.index.saturating_add(1);
        let mut tracker = p.tracker;
        let mut effects = nothing();
        match tracker.tick_with_elapsed(seconds, done, p.total) {
            Some(pct) => {
                let line = Effect::UpdateProgress(p.handle, Message::RebuildProgress(pct));
                effects = and(effects, line);
                assert(operation::effects_of(effects@) =~= seq![line@]);
            },
            None => {},
        }
        let run = RewriteRun { progress: Progress { tracker, ..p }, ..self };
        run.to_next_entry(effects)
    }

    fn succeed(self) -> (out: (RewriteRun, Vec<Effect>))
        requires
            self.wf(),
        ensures
            (out.0@, operation::effects_of(out.1@)) == ended(
                with_sum(self@, reported(self@.plan.report, sum_of(self@))),
                report_lines(self@.plan.report),
            ),
            out.0.wf(),
    {
        let sum = self.adder.core.sum;
        let mut effects = nothing();
        let ghost report = self.plan.report@;
        let sum = match &self.plan.report {
            Report::Additions => sum,
            Report::Deletions(names) => {
                let mut i: usize = 0;
                while i < names.len()
                    invariant
                        i <= names.len(),
                        report == ReportModel::Deletions(names.deep_view()),
                        operation::effects_of(effects@) == report_lines(report).take(i as int),
                    decreases names.len() - i,
                {
                    let line = Message::Item(Verb::Delete, names[i].clone());
                    effects = and(effects, Effect::Log(LogLevel::Normal, line));
                    i += 1;
                    assert(report_lines(report).take(i as int) =~= report_lines(report).take(
                        i - 1,
                    ).push(Effect::Log(LogLevel::Normal, line@)));
                }
                assert(report_lines(report).take(report_lines(report).len() as int)
                    =~= report_lines(report));
                OpSummary { ok: names.len(), ..sum }
            },
            Report::Renaming { old_name, new_name } => {
                let line = Effect::Log(
                    LogLevel::Normal,
                    Message::Renamed(old_name.clone(), new_name.clone()),
                );
                effects = and(effects, line);
                assert(operation::effects_of(effects@) =~= seq![line@]);
                OpSummary { ok: 1, ..sum }
            },
        };
        assert(operation::effects_of(effects@) == report_lines(report));
        self.counting(sum).end(effects)
    }

    /// The question that the rewriting waits to have answered.
    pub fn ask(&self) -> (ask: Ask)
        requires
            self.wf(),
        ensures
            ask@ == rewrite_ask(self@),
    {
        match &self.stage {
            RewriteStage::Open => Ask::OpenArchive(self.plan.archive.clone()),
            RewriteStage::Create => Ask::CreateArchive {
                path: self.plan.tmp.clone(),
                format: ArchiveFormat::Zip,
            },
            RewriteStage::Begin => Ask::BeginProgress(LogLevel::Normal, Message::Rebuild),
            RewriteStage::Poll => Ask::Stop,
            RewriteStage::Entry => Ask::EntryAt(self.progress.index),
            RewriteStage::Copy { name } => Ask::CopyEntry {
                index: self.progress.index,
                name: name.clone(),
            },
            RewriteStage::Clock => Ask::Elapsed,
            RewriteStage::Adding => self.adder.ask(),
            RewriteStage::Finish => Ask::Finish,
            RewriteStage::Replace => Ask::Rename {
                src: self.plan.tmp.clone(),
                dst: self.plan.archive.clone(),
            },
            RewriteStage::Ended => Ask::Ended(self.adder.core.sum),
        }
    }

    /// What the rewriting does with a reply about the entries of the old archive.
    fn advance_entries(self, reply: Reply) -> (out: (RewriteRun, Vec<Effect>))
        requires
            self.wf(),
            !(self.stage is Adding || self.stage is Finish || self.stage is Replace),
        ensures
            (out.0@, operation::effects_of(out.1@)) == rewrite_step(self@, reply@),
            out.0.wf(),
    {
        match (&self.stage, reply) {
            (RewriteStage::Open, Reply::Opened(total)) => {
                let progress = Progress { total, ..self.progress };
                (RewriteRun { progress, stage: RewriteStage::Create, ..self }, nothing())
            },
            (RewriteStage::Open, Reply::Failed(reason)) => self.fail(nothing(), reason),
            (RewriteStage::Create, Reply::Done) => {
                (RewriteRun { stage: RewriteStage::Begin, ..self }, nothing())
            },
            (RewriteStage::Create, Reply::Failed(reason)) => self.fail(nothing(), reason),
            (RewriteStage::Begin, Reply::Handle(handle)) => {
                let run = RewriteRun { progress: Progress { handle, ..self.progress }, ..self };
                run.to_entry(nothing())
            },
            (RewriteStage::Poll, Reply::Flag(stop)) => if stop {
                let sum = self.adder.core.sum.with_stop();
                self.counting(sum).wrap_up(nothing())
            } else {
                (RewriteRun { stage: RewriteStage::Entry, ..self }, nothing())
            },
            (RewriteStage::Entry, Reply::Named { raw, is_dir }) => self.name(&raw, is_dir),
            (RewriteStage::Entry, Reply::Failed(reason)) => {
                let line = self.failure(reason);
                let effects = and(nothing(), line);
                assert(operation::effects_of(effects@) =~= seq![line@]);
                let sum = self.adder.core.sum.with_err();
                self.counting(sum).to_next_entry(effects)
            },
            (RewriteStage::Copy { .. }, Reply::Done) => {
                (RewriteRun { stage: RewriteStage::Clock, ..self }, nothing())
            },
            (RewriteStage::Copy { .. }, Reply::Failed(reason)) => {
                let line = self.failure(reason);
                let effects = and(nothing(), line);
                assert(operation::effects_of(effects@) =~= seq![line@]);
                let sum = self.adder.core.sum.with_err();
                let run = self.counting(sum);
                (RewriteRun { stage: RewriteStage::Clock, ..run }, effects)
            },
            (RewriteStage::Clock, Reply::Seconds(seconds)) => self.tick(seconds),
            _ => (self, nothing()),
        }
    }

    /// What the rewriting does with a reply about the new archive.
    fn advance_end(self, reply: Reply) -> (out: (RewriteRun, Vec<Effect>))
        requires
            self.wf(),
            self.stage is Adding || self.stage is Finish || self.stage is Replace,
        ensures
            (out.0@, operation::effects_of(out.1@)) == rewrite_step(self@, reply@),
            out.0.wf(),
    {
        match (&self.stage, reply) {
            (RewriteStage::Adding, reply) => {
                let RewriteRun { plan, progress, adder, stage } = self;
                let (adder, effects) = adder.advance(reply);
                let finished = match &adder.phase {
                    AddPhase::Finished => true,
                    _ => false,
                };
                let run = RewriteRun { plan, progress, adder, stage };
                if finished {
                    run.wrap_up(effects)
                } else {
                    (run, effects)
                }
            },
            (RewriteStage::Finish, Reply::Done) => {
                let sum = self.adder.core.sum;
                if sum.cancelled || sum.err > 0 {
                    let effects = self.discard();
                    self.end(effects)
                } else {
                    (RewriteRun { stage: RewriteStage::Replace, ..self }, nothing())
                }
            },
            (RewriteStage::Finish, Reply::Failed(reason)) => {
                let sum = self.adder.core.sum;
                let effects = self.discard();
                if sum.cancelled || sum.err > 0 {
                    self.end(effects)
                } else {
                    self.fail(effects, reason)
                }
            },
            (RewriteStage::Replace, Reply::Done) => self.succeed(),
            (RewriteStage::Replace, Reply::Failed(reason)) => {
                let effects = self.discard();
                self.fail(effects, reason)
            },
            _ => (self, nothing()),
        }
    }

    /// Takes the answer to the last question, and says what is to be done next.
    pub fn step(self, reply: Reply) -> (out: (RewriteRun, Step))
        requires
            self.wf(),
        ensures
            out.0.wf(),
            (out.0@, operation::effects_of(out.1.effects@)) == rewrite_step(self@, reply@),
            out.1.ask@ == rewrite_ask(out.0@),
    {
        let ending = match &self.stage {
            RewriteStage::Adding | RewriteStage::Finish | RewriteStage::Replace => true,
            _ => false,
        };
        let (run, effects) = if ending {
            self.advance_end(reply)
        } else {
            self.advance_entries(reply)
        };
        let ask = run.ask();
        (run, Step { effects, ask })
    }
}

/// Where the new archive is written before it takes the place of `archive`.
fn tmp_for(archive: &str, process: u32, sequence: u64) -> (tmp: String)
    ensures
        tmp@ == tmp_path(archive@, process, sequence),
{
    let mut name = winpath::display_name(archive);
    name.append(".rerics-tmp-");
    name.append(text::decimal(process as u64).as_str());
    name.append("-");
    name.append(text::decimal(sequence).as_str());
    winpath::with_file_name(archive, name.as_str())
}

/// The entries with the given names in the directory `inner`.
fn names_in(inner: &str, names: &Vec<String>) -> (full: Vec<String>)
    ensures
        full.deep_view() == inner_names(inner@, names.deep_view()),
{
    let ghost all = inner_names(inner@, names.deep_view());
    let mut full: Vec<String> = Vec::new();
    let mut i: usize = 0;
    assert(full.deep_view() =~= all.take(0));
    while i < names.len()
        invariant
            i <= names.len(),
            all == inner_names(inner@, names.deep_view()),
            full.deep_view() == all.take(i as int),
        decreases names.len() - i,
    {
        let ghost before = full.deep_view();
        let name = archive::join_inner(inner, names[i].as_str());
        full.push(name);
        assert(full.deep_view() =~= before.push(name@));
        i += 1;
        assert(all.take(i as int) =~= all.take(i - 1).push(name@));
    }
    assert(all.take(all.len() as int) =~= all);
    full
}

fn start(plan: RewritePlan, adder: Adder) -> (out: (RewriteRun, Step))
    requires
        adder.wf(),
    ensures
        out.0.wf(),
        out.0@ == rewrite_start(plan@, adder@),
        operation::effects_of(out.1.effects@) == seq![operation::start_line(plan.verb)],
        out.1.ask@ == rewrite_ask(out.0@),
{
    let effects = opening(plan.verb);
    let run = RewriteRun {
        plan,
        progress: Progress {
            total: 0,
            index: 0,
            handle: ProgressHandle(0),
            tracker: ProgressTracker::new(),
        },
        adder,
        stage: RewriteStage::Open,
    };
    let ask = run.ask();
    (run, Step { effects, ask })
}

/// An addition by rewriting before its first reply.
pub open spec fn rebuilding(
    src_dir: Txt,
    names: Seq<Txt>,
    archive: Txt,
    inner: Txt,
    process: u32,
    sequence: u64,
) -> RewriteModel {
    rewrite_start(
        RewritePlanModel {
            archive,
            tmp: tmp_path(archive, process, sequence),
            rule: RuleModel::Drop(inner_names(inner, names)),
            report: ReportModel::Additions,
            verb: Verb::Add,
            style: ResultStyle::Copy,
        },
        adding::add_start(
            src_dir,
            names,
            inner,
            AddStyle::Pieces,
            Verb::Add,
            operation::no_results(),
        ),
    )
}

/// Starts to write the zip archive `dst_zip` anew with `names` from `src_dir` added to its
/// directory `inner_prefix`. Entries of the same names, and what lies below them, are
/// replaced.
pub fn run_archive_rebuild(
    src_dir: &str,
    names: Vec<String>,
    dst_zip: &str,
    inner_prefix: &str,
    process: u32,
    sequence: u64,
) -> (out: (RewriteRun, Step))
    ensures
        out.0.wf(),
        out.0@ == rebuilding(
            src_dir@,
            names.deep_view(),
            dst_zip@,
            inner_prefix@,
            process,
            sequence,
        ),
        operation::effects_of(out.1.effects@) == seq![operation::start_line(Verb::Add)],
        out.1.ask@ == rewrite_ask(out.0@),
{
    let targets = names_in(inner_prefix, &names);
    let plan = RewritePlan {
        archive: text::copy(dst_zip),
        tmp: tmp_for(dst_zip, process, sequence),
        rule: Rule::Drop(targets),
        report: Report::Additions,
        verb: Verb::Add,
        style: ResultStyle::Copy,
    };
    let adder = Adder::new(
        src_dir,
        names,
        inner_prefix,
        AddStyle::Pieces,
        Verb::Add,
        OpSummary::default(),
    );
    start(plan, adder)
}

/// A deletion before its first reply.
pub open spec fn deleting(
    archive: Txt,
    inner: Txt,
    names: Seq<Txt>,
    process: u32,
    sequence: u64,
) -> RewriteModel {
    rewrite_start(
        RewritePlanModel {
            archive,
            tmp: tmp_path(archive, process, sequence),
            rule: RuleModel::Drop(inner_names(inner, names)),
            report: ReportModel::Deletions(names),
            verb: Verb::Delete,
            style: ResultStyle::Delete,
        },
        no_additions(Verb::Delete),
    )
}

/// Starts to delete the entries `names` in the directory `inner` of an archive, with what lies
/// below them.
pub fn run_archive_delete(
    archive: &str,
    inner: &str,
    names: Vec<String>,
    process: u32,
    sequence: u64,
) -> (out: (RewriteRun, Step))
    ensures
        out.0.wf(),
        out.0@ == deleting(archive@, inner@, names.deep_view(), process, sequence),
        operation::effects_of(out.1.effects@) == seq![operation::start_line(Verb::Delete)],
        out.1.ask@ == rewrite_ask(out.0@),
{
    let targets = names_in(inner, &names);
    let plan = RewritePlan {
        archive: text::copy(archive),
        tmp: tmp_for(archive, process, sequence),
        rule: Rule::Drop(targets),
        report: Report::Deletions(names),
        verb: Verb::Delete,
        style: ResultStyle::Delete,
    };
    start(plan, add_nothing(Verb::Delete))
}

/// A renaming before its first reply.
pub open spec fn renaming(
    archive: Txt,
    inner: Txt,
    old_name: Txt,
    new_name: Txt,
    process: u32,
    sequence: u64,
) -> RewriteModel {
    rewrite_start(
        RewritePlanModel {
            archive,
            tmp: tmp_path(archive, process, sequence),
            rule: RuleModel::Rename {
                from: archive::inner_join(inner, old_name),
                to: archive::inner_join(inner, new_name),
            },
            report: ReportModel::Renaming { old_name, new_name },
            verb: Verb::Rename,
            style: ResultStyle::Delete,
        },
        no_additions(Verb::Rename),
    )
}

/// Starts to rename the entry `old_name` in the directory `inner` of an archive, with what
/// lies below it. Whether the new name is taken is for the caller to see to.
pub fn run_archive_rename(
    archive: &str,
    inner: &str,
    old_name: &str,
    new_name: &str,
    process: u32,
    sequence: u64,
) -> (out: (RewriteRun, Step))
    ensures
        out.0.wf(),
        out.0@ == renaming(archive@, inner@, old_name@, new_name@, process, sequence),
        operation::effects_of(out.1.effects@) == seq![operation::start_line(Verb::Rename)],
        out.1.ask@ == rewrite_ask(out.0@),
{
    let plan = RewritePlan {
        archive: text::copy(archive),
        tmp: tmp_for(archive, process, sequence),
        rule: Rule::Rename {
            from: archive::join_inner(inner, old_name),
            to: archive::join_inner(inner, new_name),
        },
        report: Report::Renaming {
            old_name: text::copy(old_name),
            new_name: text::copy(new_name),
        },
        verb: Verb::Rename,
        style: ResultStyle::Delete,
    };
    start(plan, add_nothing(Verb::Rename))
}

/// Nothing is added.
pub open spec fn no_additions(verb: Verb) -> AddModel {
    adding::add_start(
        Seq::empty(),
        Seq::empty(),
        Seq::empty(),
        AddStyle::Pieces,
        verb,
        operation::no_results(),
    )
}

fn add_nothing(verb: Verb) -> (adder: Adder)
    ensures
        adder.wf(),
        adder@ == no_additions(verb),
{
    let names: Vec<String> = Vec::new();
    proof {
        reveal_strlit("");
        assert(""@ =~= Seq::<char>::empty());
        assert(names.deep_view() =~= Seq::<Txt>::empty());
    }
    Adder::new("", names, "", AddStyle::Pieces, verb, OpSummary::default())
}

/// The old archive is replaced only by one that is complete: nothing went wrong, nobody
/// stopped the rewriting, and the new archive was closed.
pub proof fn law_only_complete_archives_replace(state: RewriteModel, reply: Reply<Txt>)
    requires
        rewrite_step(state, reply).0.stage is Replace,
        !(state.stage is Replace),
    ensures
        state.stage is Finish,
        reply is Done,
        sum_of(state).err == 0,
        !sum_of(state).cancelled,
        rewrite_ask(rewrite_step(state, reply).0) == (Ask::<Txt>::Rename {
            src: state.plan.tmp,
            dst: state.plan.archive,
        }),
{
}

/// The new archive does not stay behind: once it was created, the rewriting ends either with
/// it in the place of the old one, or with it removed.
pub proof fn law_no_unfinished_archive_stays(state: RewriteModel, reply: Reply<Txt>)
    requires
        !(state.stage is Open),
        !(state.stage is Create),
        !(state.stage is Ended),
        rewrite_step(state, reply).0.stage is Ended,
    ensures
        state.stage is Replace && reply is Done || rewrite_step(state, reply).1.first()
            == Effect::RemoveFile(state.plan.tmp),
{
}

/// A rewriting that is stopped, or in which something went wrong, ends without replacing the
/// old archive: from the moment on, all that is left is to close the new archive and to
/// remove it.
pub proof fn law_stopped_rewriting_keeps_the_archive(state: RewriteModel, reply: Reply<Txt>)
    requires
        state.stage is Finish,
        sum_of(state).cancelled || sum_of(state).err > 0,
    ensures
        !(rewrite_step(state, reply).0.stage is Replace),
        reply is Done || reply is Failed ==> rewrite_step(state, reply).0.stage is Ended
            && sum_of(rewrite_step(state, reply).0) == sum_of(state),
{
}

/// A request to stop leads straight to the closing of the new archive.
pub proof fn law_stopping_ends_the_rewriting(state: RewriteModel)
    requires
        state.stage is Poll,
    ensures
        rewrite_step(state, Reply::Flag(true)).0.stage is Finish,
        sum_of(rewrite_step(state, Reply::Flag(true)).0).cancelled,
{
}

/// Deleting leaves out exactly the named entries and what lies below them; every other entry
/// keeps its name.
pub proof fn law_deleting_takes_whole_subtrees(targets: Seq<Txt>, i: int, rest: Txt)
    requires
        0 <= i < targets.len(),
    ensures
        decided(RuleModel::Drop(targets), targets[i]) is None,
        decided(RuleModel::Drop(targets), targets[i].push('/') + rest) is None,
{
    let top = targets[i];
    assert(archive::at_or_below(top, targets[i]));
    let below = top.push('/') + rest;
    assert(below.take(top.push('/').len() as int) =~= top.push('/'));
    assert(archive::at_or_below(below, targets[i]));
}

/// An entry that is not covered by what is deleted keeps its name.
pub proof fn law_deleting_keeps_the_others(targets: Seq<Txt>, name: Txt)
    requires
        !is_covered(targets, name),
    ensures
        decided(RuleModel::Drop(targets), name) == Some(name),
{
}

/// Renaming moves an entry and what lies below it, and nothing else; no entry is left out.
pub proof fn law_renaming_moves_whole_subtrees(from: Txt, to: Txt, rest: Txt, other: Txt)
    requires
        !archive::at_or_below(other, from),
    ensures
        decided(RuleModel::Rename { from, to }, from) == Some(to),
        decided(RuleModel::Rename { from, to }, from.push('/') + rest) == Some(
            to.push('/') + rest,
        ),
        decided(RuleModel::Rename { from, to }, other) == Some(other),
{
    let below = from.push('/') + rest;
    assert(below.take(from.push('/').len() as int) =~= from.push('/'));
    assert(below.skip(from.push('/').len() as int) =~= rest);
    assert(below.len() > from.len());
}

} // verus!
