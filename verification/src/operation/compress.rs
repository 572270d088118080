//! Creating archives, and adding to one that exists.

use crate::operation;
use crate::operation::adding;
use crate::operation::adding::{AddModel, AddPhase, AddStyle, Adder};
use crate::operation::messages::{Message, Verb};
use crate::operation::{
    and, closing, followed_by, nothing, opening, ArchiveFormat, Ask, Effect, LogLevel, OpSummary,
    Reply, ResultStyle, Step, Txt,
};
use crate::text;
use crate::winpath;
use vstd::prelude::*;

verus! {

/// Whether an archive is made anew, in a format, or added to. Only zip archives are added to.
#[derive(Clone, Copy, Debug, PartialEq, Eq, Structural)]
pub enum PackJob {
    Create(ArchiveFormat),
    Append,
}

/// How far a packing is.
#[derive(Clone, Copy, Debug, PartialEq, Eq, Structural)]
pub enum PackStage {
    /// The archive is being created or opened.
    Opening,
    /// Files are being added, or the archive is being closed.
    Adding,
    Ended,
}

/// A packing that is under way.
pub struct PackRun {
    pub dst: String,
    pub job: PackJob,
    pub stage: PackStage,
    pub adder: Adder,
}

/// A packing in specifications.
pub struct PackModel {
    pub dst: Txt,
    pub job: PackJob,
    pub stage: PackStage,
    pub adder: AddModel,
}

impl View for PackRun {
    type V = PackModel;

    open spec fn view(&self) -> PackModel {
        PackModel { dst: self.dst@, job: self.job, stage: self.stage, adder: self.adder@ }
    }
}

/// The outcome of a step: the next state, and what is to be carried out.
pub type PackOutcome = (PackModel, Seq<Effect<Txt>>);

/// The summary of a packing.
pub open spec fn sum_of(state: PackModel) -> OpSummary {
    state.adder.core.sum
}

/// A packing with another summary.
pub open spec fn with_sum(state: PackModel, sum: OpSummary) -> PackModel {
    PackModel {
        adder: AddModel {
            core: adding::AddCoreModel { sum, ..state.adder.core },
            phase: state.adder.phase,
        },
        ..state
    }
}

/// The packing ends, after `first`.
pub open spec fn ended(state: PackModel, first: Seq<Effect<Txt>>) -> PackOutcome {
    (
        PackModel { stage: PackStage::Ended, ..state },
        first + operation::closing_lines(state.adder.core.verb, ResultStyle::Copy, sum_of(state)),
    )
}

/// The line that says that the archive itself could not be dealt with.
pub open spec fn archive_failure(state: PackModel, reason: Txt) -> Effect<Txt> {
    Effect::Log(
        LogLevel::Error,
        Message::Failure(
            state.adder.core.verb,
            winpath::path_display_name(state.dst),
            reason,
        ),
    )
}

/// The archive itself could not be dealt with.
pub open spec fn failed(state: PackModel, first: Seq<Effect<Txt>>, reason: Txt) -> PackOutcome {
    ended(
        with_sum(state, sum_of(state).plus_err()),
        first.push(archive_failure(state, reason)),
    )
}

/// What a packing does with a reply. A reply that does not answer the question changes
/// nothing. An archive that was being created is removed where the packing was stopped.
pub open spec fn pack_step(state: PackModel, reply: Reply<Txt>) -> PackOutcome {
    let unchanged = (state, Seq::<Effect<Txt>>::empty());
    match state.stage {
        PackStage::Opening => match (state.job, reply) {
            (PackJob::Create(_), Reply::Done) | (PackJob::Append, Reply::Opened(_)) => (
                PackModel { stage: PackStage::Adding, ..state },
                Seq::empty(),
            ),
            (_, Reply::Failed(reason)) => failed(state, Seq::empty(), reason),
            (PackJob::Create(_), Reply::Broken(reason)) => failed(
                state,
                seq![Effect::RemoveFile(state.dst)],
                reason,
            ),
            _ => unchanged,
        },
        PackStage::Adding => if state.adder.phase is Finished {
            if state.job is Create && sum_of(state).cancelled {
                match reply {
                    Reply::Done | Reply::Failed(_) => ended(
                        state,
                        seq![Effect::RemoveFile(state.dst)],
                    ),
                    _ => unchanged,
                }
            } else {
                match reply {
                    Reply::Done => ended(state, Seq::empty()),
                    Reply::Failed(reason) => failed(state, Seq::empty(), reason),
                    _ => unchanged,
                }
            }
        } else {
            let (adder, effects) = adding::add_step(state.adder, reply);
            (PackModel { adder, ..state }, effects)
        },
        PackStage::Ended => unchanged,
    }
}

/// The question that a packing waits to have answered.
pub open spec fn pack_ask(state: PackModel) -> Ask<Txt> {
    match state.stage {
        PackStage::Opening => match state.job {
            PackJob::Create(format) => Ask::CreateArchive { path: state.dst, format },
            PackJob::Append => Ask::OpenArchive(state.dst),
        },
        PackStage::Adding => adding::add_ask(state.adder),
        PackStage::Ended => Ask::Ended(sum_of(state)),
    }
}

/// A packing before its first reply.
pub open spec fn pack_start(
    src_dir: Txt,
    names: Seq<Txt>,
    dst: Txt,
    prefix: Txt,
    job: PackJob,
) -> PackModel {
    PackModel {
        dst,
        job,
        stage: PackStage::Opening,
        adder: adding::add_start(
            src_dir,
            names,
            prefix,
            style_of(job),
            verb_of(job),
            operation::no_results(),
        ),
    }
}

/// How files get into the archive.
pub open spec fn style_of(job: PackJob) -> AddStyle {
    match job {
        PackJob::Create(ArchiveFormat::Zip) => AddStyle::ReadFirst,
        PackJob::Create(ArchiveFormat::TarXz) => AddStyle::Streamed,
        PackJob::Create(_) => AddStyle::Whole,
        PackJob::Append => AddStyle::Pieces,
    }
}

/// What a packing is called.
pub open spec fn verb_of(job: PackJob) -> Verb {
    match job {
        PackJob::Create(_) => Verb::Compress,
        PackJob::Append => Verb::Add,
    }
}

impl PackRun {
    /// What holds of every packing that is under way.
    pub open spec fn wf(self) -> bool {
        self.adder.wf()
    }

    /// The packing ends.
    fn end(self, first: Vec<Effect>) -> (out: (PackRun, Vec<Effect>))
        requires
            self.wf(),
        ensures
            (out.0@, operation::effects_of(out.1@)) == ended(
                self@,
                operation::effects_of(first@),
            ),
            out.0.wf(),
    {
        let PackRun { dst, job, stage, adder } = self;
        let lines = closing(adder.core.verb, ResultStyle::Copy, adder.core.sum);
        let all = followed_by(first, lines);
        (PackRun { dst, job, stage: PackStage::Ended, adder }, all)
    }

    /// The archive itself could not be dealt with.
    fn fail(self, first: Vec<Effect>, reason: String) -> (out: (PackRun, Vec<Effect>))
        requires
            self.wf(),
        ensures
            (out.0@, operation::effects_of(out.1@)) == failed(
                self@,
                operation::effects_of(first@),
                reason@,
            ),
            out.0.wf(),
    {
        let PackRun { dst, job, stage, adder } = self;
        let Adder { core, phase } = adder;
        let name = winpath::display_name(dst.as_str());
        let line = Effect::Log(LogLevel::Error, Message::Failure(core.verb, name, reason));
        let effects = and(first, line);
        let core = adding::AddCore { sum: core.sum.with_err(), ..core };
        let run = PackRun { dst, job, stage, adder: Adder { core, phase } };
        run.end(effects)
    }

    /// The question that the packing waits to have answered.
    pub fn ask(&self) -> (ask: Ask)
        requires
            self.wf(),
        ensures
            ask@ == pack_ask(self@),
    {
        match self.stage {
            PackStage::Opening => match self.job {
                PackJob::Create(format) => Ask::CreateArchive { path: self.dst.clone(), format },
                PackJob::Append => Ask::OpenArchive(self.dst.clone()),
            },
            PackStage::Adding => self.adder.ask(),
            PackStage::Ended => Ask::Ended(self.adder.core.sum),
        }
    }

    /// What the packing does with a reply about its archive.
    fn advance_opening(self, reply: Reply) -> (out: (PackRun, Vec<Effect>))
        requires
            self.wf(),
            self.stage == PackStage::Opening,
        ensures
            (out.0@, operation::effects_of(out.1@)) == pack_step(self@, reply@),
            out.0.wf(),
    {
        match (self.job, reply) {
            (PackJob::Create(_), Reply::Done) | (PackJob::Append, Reply::Opened(_)) => {
                (PackRun { stage: PackStage::Adding, ..self }, nothing())
            },
            (_, Reply::Failed(reason)) => self.fail(nothing(), reason),
            (PackJob::Create(_), Reply::Broken(reason)) => {
                let effects = and(nothing(), Effect::RemoveFile(self.dst.clone()));
                assert(operation::effects_of(effects@) =~= seq![Effect::RemoveFile(self.dst@)]);
                self.fail(effects, reason)
            },
            _ => (self, nothing()),
        }
    }

    /// What the packing does with the reply to closing its archive.
    fn advance_closing(self, reply: Reply) -> (out: (PackRun, Vec<Effect>))
        requires
            self.wf(),
            self.stage == PackStage::Adding,
            self.adder.phase is Finished,
        ensures
            (out.0@, operation::effects_of(out.1@)) == pack_step(self@, reply@),
            out.0.wf(),
    {
        let creates = match self.job {
            PackJob::Create(_) => true,
            PackJob::Append => false,
        };
        if creates && self.adder.core.sum.cancelled {
            match reply {
                Reply::Done | Reply::Failed(_) => {
                    let effects = and(nothing(), Effect::RemoveFile(self.dst.clone()));
                    assert(operation::effects_of(effects@) =~= seq![Effect::RemoveFile(self.dst@)]);
                    self.end(effects)
                },
                _ => (self, nothing()),
            }
        } else {
            match reply {
                Reply::Done => self.end(nothing()),
                Reply::Failed(reason) => self.fail(nothing(), reason),
                _ => (self, nothing()),
            }
        }
    }

    /// Takes the answer to the last question, and says what is to be done next.
    pub fn step(self, reply: Reply) -> (out: (PackRun, Step))
        requires
            self.wf(),
        ensures
            out.0.wf(),
            (out.0@, operation::effects_of(out.1.effects@)) == pack_step(self@, reply@),
            out.1.ask@ == pack_ask(out.0@),
    {
        let (run, effects) = match self.stage {
            PackStage::Opening => self.advance_opening(reply),
            PackStage::Adding => match &self.adder.phase {
                AddPhase::Finished => self.advance_closing(reply),
                _ => {
                    let PackRun { dst, job, stage, adder } = self;
                    let (adder, effects) = adder.advance(reply);
                    (PackRun { dst, job, stage, adder }, effects)
                },
            },
            PackStage::Ended => (self, nothing()),
        };
        let ask = run.ask();
        (run, Step { effects, ask })
    }
}

/// Starts a packing.
fn start(
    src_dir: &str,
    names: Vec<String>,
    dst: &str,
    prefix: &str,
    job: PackJob,
) -> (out: (PackRun, Step))
    ensures
        out.0.wf(),
        out.0@ == pack_start(src_dir@, names.deep_view(), dst@, prefix@, job),
        operation::effects_of(out.1.effects@) == seq![operation::start_line(verb_of(job))],
        out.1.ask@ == pack_ask(out.0@),
{
    let verb = match job {
        PackJob::Create(_) => Verb::Compress,
        PackJob::Append => Verb::Add,
    };
    let style = match job {
        PackJob::Create(ArchiveFormat::Zip) => AddStyle::ReadFirst,
        PackJob::Create(ArchiveFormat::TarXz) => AddStyle::Streamed,
        PackJob::Create(_) => AddStyle::Whole,
        PackJob::Append => AddStyle::Pieces,
    };
    let adder = Adder::new(src_dir, names, prefix, style, verb, OpSummary::default());
    let run = PackRun { dst: text::copy(dst), job, stage: PackStage::Opening, adder };
    let ask = run.ask();
    (run, Step { effects: opening(verb), ask })
}

/// Starts to pack `names` from `src_dir` into a new zip archive. A packing that is stopped
/// leaves no archive behind.
pub fn run_compress(src_dir: &str, names: Vec<String>, dst_zip: &str) -> (out: (PackRun, Step))
    ensures
        out.0.wf(),
        out.0@ == pack_start(
            src_dir@,
            names.deep_view(),
            dst_zip@,
            Seq::empty(),
            PackJob::Create(ArchiveFormat::Zip),
        ),
        operation::effects_of(out.1.effects@) == seq![operation::start_line(Verb::Compress)],
        out.1.ask@ == pack_ask(out.0@),
{
    proof {
        reveal_strlit("");
        assert(""@ =~= Seq::<char>::empty());
    }
    start(src_dir, names, dst_zip, "", PackJob::Create(ArchiveFormat::Zip))
}

/// Starts to pack `names` from `src_dir` into a new 7z archive.
pub fn run_compress_7z(src_dir: &str, names: Vec<String>, dst: &str) -> (out: (PackRun, Step))
    ensures
        out.0.wf(),
        out.0@ == pack_start(
            src_dir@,
            names.deep_view(),
            dst@,
            Seq::empty(),
            PackJob::Create(ArchiveFormat::SevenZip),
        ),
        operation::effects_of(out.1.effects@) == seq![operation::start_line(Verb::Compress)],
        out.1.ask@ == pack_ask(out.0@),
{
    proof {
        reveal_strlit("");
        assert(""@ =~= Seq::<char>::empty());
    }
    start(src_dir, names, dst, "", PackJob::Create(ArchiveFormat::SevenZip))
}

/// Starts to pack `names` from `src_dir` into a new tar archive compressed with xz.
pub fn run_compress_tar_xz(src_dir: &str, names: Vec<String>, dst: &str) -> (out: (PackRun, Step))
    ensures
        out.0.wf(),
        out.0@ == pack_start(
            src_dir@,
            names.deep_view(),
            dst@,
            Seq::empty(),
            PackJob::Create(ArchiveFormat::TarXz),
        ),
        operation::effects_of(out.1.effects@) == seq![operation::start_line(Verb::Compress)],
        out.1.ask@ == pack_ask(out.0@),
{
    proof {
        reveal_strlit("");
        assert(""@ =~= Seq::<char>::empty());
    }
    start(src_dir, names, dst, "", PackJob::Create(ArchiveFormat::TarXz))
}

/// Starts to add `names` from `src_dir` to the directory `inner_prefix` of the zip archive
/// `dst_zip`. What the archive holds is not touched. Whether a name may occur in it twice is for
/// whoever writes the archive: a name that is refused is an error of that file.
pub fn run_archive_add(
    src_dir: &str,
    names: Vec<String>,
    dst_zip: &str,
    inner_prefix: &str,
) -> (out: (PackRun, Step))
    ensures
        out.0.wf(),
        out.0@ == pack_start(
            src_dir@,
            names.deep_view(),
            dst_zip@,
            inner_prefix@,
            PackJob::Append,
        ),
        operation::effects_of(out.1.effects@) == seq![operation::start_line(Verb::Add)],
        out.1.ask@ == pack_ask(out.0@),
{
    start(src_dir, names, dst_zip, inner_prefix, PackJob::Append)
}

/// A new archive whose packing was stopped is removed, whether or not it could be closed.
pub proof fn law_stopped_packing_leaves_no_archive(state: PackModel, reply: Reply<Txt>)
    requires
        state.job is Create,
        state.stage == PackStage::Adding,
        sum_of(state).cancelled,
        pack_step(state, reply).0.stage == PackStage::Ended,
    ensures
        pack_step(state, reply).1.first() == Effect::RemoveFile(state.dst),
        sum_of(pack_step(state, reply).0) == sum_of(state),
{
}

/// An archive that is added to is never removed, and it is always closed before the packing
/// ends, also where it was stopped.
pub proof fn law_archive_that_is_added_to_is_kept(state: PackModel, reply: Reply<Txt>, i: int)
    requires
        state.job == PackJob::Append,
        0 <= i < pack_step(state, reply).1.len(),
    ensures
        !(pack_step(state, reply).1[i] is RemoveFile),
        state.stage == PackStage::Adding && pack_step(state, reply).0.stage == PackStage::Ended
            ==> pack_ask(state) == Ask::<Txt>::Finish,
{
    if state.stage == PackStage::Adding && !(state.adder.phase is Finished) {
        lemma_adding_removes_nothing(state.adder, reply, i);
    }
}

proof fn lemma_adding_removes_nothing(state: AddModel, reply: Reply<Txt>, i: int)
    requires
        0 <= i < adding::add_step(state, reply).1.len(),
    ensures
        !(adding::add_step(state, reply).1[i] is RemoveFile),
{
}

/// The log of a packing closes with the line that says how it ended.
pub proof fn law_packing_is_framed(state: PackModel, reply: Reply<Txt>)
    requires
        state.stage != PackStage::Ended,
        pack_step(state, reply).0.stage == PackStage::Ended,
    ensures
        pack_step(state, reply).1.last() == operation::end_line(
            state.adder.core.verb,
            sum_of(pack_step(state, reply).0),
        ),
{
}

/// What the single file that is compressed waits for.
#[derive(Clone, Copy, Debug, PartialEq, Eq, Structural)]
pub enum XzStage {
    OpenSource,
    Create,
    /// Whether to go on with the next piece.
    Poll,
    Read,
    Write,
    /// The archive being closed, after everything went well or something did not.
    Finish { failed: bool },
    Ended,
}

/// A single file that is being compressed.
pub struct XzRun {
    pub src: String,
    pub name: String,
    pub dst: String,
    pub sum: OpSummary,
    pub stage: XzStage,
}

/// A single file that is being compressed, in specifications.
pub struct XzModel {
    pub src: Txt,
    pub name: Txt,
    pub dst: Txt,
    pub sum: OpSummary,
    pub stage: XzStage,
}

impl View for XzRun {
    type V = XzModel;

    open spec fn view(&self) -> XzModel {
        XzModel {
            src: self.src@,
            name: self.name@,
            dst: self.dst@,
            sum: self.sum,
            stage: self.stage,
        }
    }
}

/// The outcome of a step: the next state, and what is to be carried out.
pub type XzOutcome = (XzModel, Seq<Effect<Txt>>);

/// The line that says that `name` could not be compressed.
pub open spec fn xz_failure(name: Txt, reason: Txt) -> Effect<Txt> {
    Effect::Log(LogLevel::Error, Message::Failure(Verb::Compress, name, reason))
}

/// The compression ends, after `first`.
pub open spec fn xz_ended(state: XzModel, first: Seq<Effect<Txt>>) -> XzOutcome {
    (
        XzModel { stage: XzStage::Ended, ..state },
        first + operation::closing_lines(Verb::Compress, ResultStyle::Copy, state.sum),
    )
}

/// The compression fails at the archive or at its start.
pub open spec fn xz_failed(state: XzModel, first: Seq<Effect<Txt>>, name: Txt, reason: Txt) -> XzOutcome {
    xz_ended(
        XzModel { sum: state.sum.plus_err(), ..state },
        first.push(xz_failure(name, reason)),
    )
}

/// The file cannot be read or written any further.
pub open spec fn xz_broken(state: XzModel, reason: Txt) -> XzOutcome {
    (
        XzModel { sum: state.sum.plus_err(), stage: XzStage::Finish { failed: true }, ..state },
        seq![xz_failure(state.name, reason)],
    )
}

/// What the compression of a single file does with a reply. A reply that does not answer the
/// question changes nothing.
pub open spec fn xz_step(state: XzModel, reply: Reply<Txt>) -> XzOutcome {
    let archive = winpath::path_display_name(state.dst);
    match (state.stage, reply) {
        (XzStage::OpenSource, Reply::Opened(_)) => (
            XzModel { stage: XzStage::Create, ..state },
            Seq::empty(),
        ),
        (XzStage::OpenSource, Reply::Failed(reason)) => xz_failed(
            state,
            Seq::empty(),
            state.name,
            reason,
        ),
        (XzStage::Create, Reply::Done) => (
            XzModel { stage: XzStage::Poll, ..state },
            seq![Effect::Log(LogLevel::Normal, Message::Item(Verb::Compress, state.name))],
        ),
        (XzStage::Create, Reply::Failed(reason)) => xz_failed(
            state,
            Seq::empty(),
            archive,
            reason,
        ),
        (XzStage::Create, Reply::Broken(reason)) => xz_failed(
            state,
            seq![Effect::RemoveFile(state.dst)],
            archive,
            reason,
        ),
        (XzStage::Poll, Reply::Flag(stop)) => if stop {
            (
                XzModel {
                    sum: state.sum.stopped(),
                    stage: XzStage::Finish { failed: false },
                    ..state
                },
                Seq::empty(),
            )
        } else {
            (XzModel { stage: XzStage::Read, ..state }, Seq::empty())
        },
        (XzStage::Read, Reply::Bytes(n)) => (
            XzModel {
                stage: if n == 0 {
                    XzStage::Finish { failed: false }
                } else {
                    XzStage::Write
                },
                ..state
            },
            Seq::empty(),
        ),
        (XzStage::Read, Reply::Failed(reason)) => xz_broken(state, reason),
        (XzStage::Write, Reply::Done) => (XzModel { stage: XzStage::Poll, ..state }, Seq::empty()),
        (XzStage::Write, Reply::Failed(reason)) => xz_broken(state, reason),
        (XzStage::Finish { failed }, Reply::Done) => if state.sum.cancelled || failed {
            xz_ended(state, seq![Effect::RemoveFile(state.dst)])
        } else {
            xz_ended(XzModel { sum: state.sum.plus_ok(), ..state }, Seq::empty())
        },
        (XzStage::Finish { failed }, Reply::Failed(reason)) => if state.sum.cancelled || failed {
            xz_ended(state, seq![Effect::RemoveFile(state.dst)])
        } else {
            xz_failed(state, Seq::empty(), archive, reason)
        },
        _ => (state, Seq::empty()),
    }
}

/// The question that the compression of a single file waits to have answered.
pub open spec fn xz_ask(state: XzModel) -> Ask<Txt> {
    match state.stage {
        XzStage::OpenSource => Ask::OpenSource(state.src),
        XzStage::Create => Ask::CreateArchive { path: state.dst, format: ArchiveFormat::Xz },
        XzStage::Poll => Ask::Stop,
        XzStage::Read => Ask::ReadChunk,
        XzStage::Write => Ask::WriteChunk,
        XzStage::Finish { .. } => Ask::Finish,
        XzStage::Ended => Ask::Ended(state.sum),
    }
}

impl XzRun {
    fn end(self, first: Vec<Effect>) -> (out: (XzRun, Vec<Effect>))
        ensures
            (out.0@, operation::effects_of(out.1@)) == xz_ended(
                self@,
                operation::effects_of(first@),
            ),
    {
        let all = followed_by(first, closing(Verb::Compress, ResultStyle::Copy, self.sum));
        (XzRun { stage: XzStage::Ended, ..self }, all)
    }

    fn fail(self, first: Vec<Effect>, name: String, reason: String) -> (out: (XzRun, Vec<Effect>))
        ensures
            (out.0@, operation::effects_of(out.1@)) == xz_failed(
                self@,
                operation::effects_of(first@),
                name@,
                reason@,
            ),
    {
        let line = Effect::Log(LogLevel::Error, Message::Failure(Verb::Compress, name, reason));
        let effects = and(first, line);
        let run = XzRun { sum: self.sum.with_err(), ..self };
        run.end(effects)
    }

    fn broken(self, reason: String) -> (out: (XzRun, Vec<Effect>))
        ensures
            (out.0@, operation::effects_of(out.1@)) == xz_broken(self@, reason@),
    {
        let line = Effect::Log(
            LogLevel::Error,
            Message::Failure(Verb::Compress, self.name.clone(), reason),
        );
        let effects = and(nothing(), line);
        assert(operation::effects_of(effects@) =~= seq![line@]);
        let sum = self.sum.with_err();
        (XzRun { sum, stage: XzStage::Finish { failed: true }, ..self }, effects)
    }

    fn discard(self) -> (out: (XzRun, Vec<Effect>))
        ensures
            (out.0@, operation::effects_of(out.1@)) == xz_ended(
                self@,
                seq![Effect::RemoveFile(self@.dst)],
            ),
    {
        let effects = and(nothing(), Effect::RemoveFile(self.dst.clone()));
        assert(operation::effects_of(effects@) =~= seq![Effect::RemoveFile(self.dst@)]);
        self.end(effects)
    }

    /// The question that the compression waits to have answered.
    pub fn ask(&self) -> (ask: Ask)
        ensures
            ask@ == xz_ask(self@),
    {
        match self.stage {
            XzStage::OpenSource => Ask::OpenSource(self.src.clone()),
            XzStage::Create => Ask::CreateArchive {
                path: self.dst.clone(),
                format: ArchiveFormat::Xz,
            },
            XzStage::Poll => Ask::Stop,
            XzStage::Read => Ask::ReadChunk,
            XzStage::Write => Ask::WriteChunk,
            XzStage::Finish { .. } => Ask::Finish,
            XzStage::Ended => Ask::Ended(self.sum),
        }
    }

    fn advance(self, reply: Reply) -> (out: (XzRun, Vec<Effect>))
        ensures
            (out.0@, operation::effects_of(out.1@)) == xz_step(self@, reply@),
    {
        match (self.stage, reply) {
            (XzStage::OpenSource, Reply::Opened(_)) => {
                (XzRun { stage: XzStage::Create, ..self }, nothing())
            },
            (XzStage::OpenSource, Reply::Failed(reason)) => {
                let name = self.name.clone();
                self.fail(nothing(), name, reason)
            },
            (XzStage::Create, Reply::Done) => {
                let line = Effect::Log(
                    LogLevel::Normal,
                    Message::Item(Verb::Compress, self.name.clone()),
                );
                let effects = and(nothing(), line);
                assert(operation::effects_of(effects@) =~= seq![line@]);
                (XzRun { stage: XzStage::Poll, ..self }, effects)
            },
            (XzStage::Create, Reply::Failed(reason)) => {
                let name = winpath::display_name(self.dst.as_str());
                self.fail(nothing(), name, reason)
            },
            (XzStage::Create, Reply::Broken(reason)) => {
                let name = winpath::display_name(self.dst.as_str());
                let effects = and(nothing(), Effect::RemoveFile(self.dst.clone()));
                assert(operation::effects_of(effects@) =~= seq![Effect::RemoveFile(self.dst@)]);
                self.fail(effects, name, reason)
            },
            (XzStage::Poll, Reply::Flag(stop)) => if stop {
                let sum = self.sum.with_stop();
                (XzRun { sum, stage: XzStage::Finish { failed: false }, ..self }, nothing())
            } else {
                (XzRun { stage: XzStage::Read, ..self }, nothing())
            },
            (XzStage::Read, Reply::Bytes(n)) => {
                let stage = if n == 0 {
                    XzStage::Finish { failed: false }
                } else {
                    XzStage::Write
                };
                (XzRun { stage, ..self }, nothing())
            },
            (XzStage::Read, Reply::Failed(reason)) => self.broken(reason),
            (XzStage::Write, Reply::Done) => (XzRun { stage: XzStage::Poll, ..self }, nothing()),
            (XzStage::Write, Reply::Failed(reason)) => self.broken(reason),
            (XzStage::Finish { failed }, Reply::Done) => if self.sum.cancelled || failed {
                self.discard()
            } else {
                let sum = self.sum.with_ok();
                let run = XzRun { sum, ..self };
                run.end(nothing())
            },
            (XzStage::Finish { failed }, Reply::Failed(reason)) => if self.sum.cancelled || failed {
                self.discard()
            } else {
                let name = winpath::display_name(self.dst.as_str());
                self.fail(nothing(), name, reason)
            },
            _ => (self, nothing()),
        }
    }

    /// Takes the answer to the last question, and says what is to be done next.
    pub fn step(self, reply: Reply) -> (out: (XzRun, Step))
        ensures
            (out.0@, operation::effects_of(out.1.effects@)) == xz_step(self@, reply@),
            out.1.ask@ == xz_ask(out.0@),
    {
        let (run, effects) = self.advance(reply);
        let ask = run.ask();
        (run, Step { effects, ask })
    }
}

/// Starts to compress the single file `name` in `src_dir` with xz, without a tar archive round
/// it.
pub fn run_compress_xz_single(src_dir: &str, name: &str, dst: &str) -> (out: (XzRun, Step))
    ensures
        out.0@ == (XzModel {
            src: winpath::path_join(src_dir@, name@),
            name: name@,
            dst: dst@,
            sum: operation::no_results(),
            stage: XzStage::OpenSource,
        }),
        operation::effects_of(out.1.effects@) == seq![operation::start_line(Verb::Compress)],
        out.1.ask@ == xz_ask(out.0@),
{
    let run = XzRun {
        src: winpath::join(src_dir, name),
        name: text::copy(name),
        dst: text::copy(dst),
        sum: OpSummary::default(),
        stage: XzStage::OpenSource,
    };
    let ask = run.ask();
    (run, Step { effects: opening(Verb::Compress), ask })
}

/// A compressed file is left behind only where it is complete: where the compression was
/// stopped or something could not be read or written, it is removed.
pub proof fn law_only_complete_files_are_kept(state: XzModel, reply: Reply<Txt>)
    requires
        state.stage is Finish,
        xz_step(state, reply).0.stage == XzStage::Ended,
        state.sum.cancelled || state.stage == (XzStage::Finish { failed: true }),
    ensures
        xz_step(state, reply).1.first() == Effect::RemoveFile(state.dst),
        xz_step(state, reply).0.sum.ok == state.sum.ok,
{
}

} // verus!
