//! Unpacking a whole archive whose files cannot be read one by one.
//!
//! All of it is unpacked to a directory, and a mark beside that directory says that it is complete.
//! Without the mark the directory counts as rubbish, so the mark is set last, and what was unpacked
//! in part is removed.

use crate::archive_ctl::extract_outcome;
use crate::archive_ctl::percent_of;
use crate::archive_ctl::ArchiveOutcome;
use crate::archive_ctl::ExtractProgress;
use vstd::prelude::*;

verus! {

/// A text in specifications.
pub type Txt = Seq<char>;

/// Whether the unpacking is to begin, to go on, or to end early.
#[derive(Clone, Copy, Debug, PartialEq, Eq, Structural)]
pub enum Signal {
    Begin,
    GoOn,
    Abort,
}

/// What the unpacking asks for.
#[derive(Clone, Debug, PartialEq, Eq)]
pub enum AllAsk<S = String> {
    /// Open the archive. Reply: `Outcome`.
    Open { archive: S },
    /// Remove what an earlier unpacking left behind, if anything. Reply: `Tried`.
    Clear { root: S },
    /// Make the directory. Reply: `Outcome`.
    MakeDir { root: S },
    /// Unpack everything to the directory. Reply: `Reached`, and once it has ended, `Outcome`.
    Unpack { root: S, signal: Signal },
    /// Set the mark that all is there. Reply: `Tried`.
    Mark { marker: S },
    /// Remove the directory. Reply: `Tried`.
    Discard { root: S },
    /// Nothing more: this is what it came to.
    Ended(ArchiveOutcome<S>),
}

/// What is told to the unpacking.
#[derive(Clone, Debug, PartialEq, Eq)]
pub enum AllReply<S = String> {
    /// It was done, or why it was not.
    Outcome(Option<S>),
    /// It was tried. Whether it went well does not matter.
    Tried,
    /// So much of so much is unpacked, and whether the user wants to stop.
    Reached { done: u64, total: u64, stop: bool },
}

/// What is shown in the log.
#[derive(Clone, Copy, Debug, PartialEq, Eq, Structural)]
pub enum AllLine {
    /// The line that says that the archive is unpacked.
    Begin,
    /// The line says how much is unpacked.
    Percent(u32),
    /// The line says that no longer.
    End,
}

/// Where the unpacking stands.
#[derive(Clone, Debug, PartialEq, Eq)]
pub enum AllAt<S = String> {
    Opening,
    Clearing,
    Making,
    /// Everything is unpacked, unless the user wanted to stop.
    Unpacking { signal: Signal },
    Marking,
    Discarding { outcome: ArchiveOutcome<S> },
    Ended { outcome: ArchiveOutcome<S> },
}

/// The unpacking of a whole archive.
pub struct AllRun {
    pub archive: String,
    pub root: String,
    pub marker: String,
    /// What was last said of how far it is.
    pub progress: ExtractProgress,
    pub at: AllAt,
}

/// The unpacking of a whole archive, in specifications.
pub struct AllModel {
    pub archive: Txt,
    pub root: Txt,
    pub marker: Txt,
    pub said: Option<u32>,
    pub at: AllAt<Txt>,
}

impl View for ArchiveOutcome<String> {
    type V = ArchiveOutcome<Txt>;

    open spec fn view(&self) -> ArchiveOutcome<Txt> {
        match *self {
            ArchiveOutcome::Done => ArchiveOutcome::Done,
            ArchiveOutcome::Cancelled => ArchiveOutcome::Cancelled,
            ArchiveOutcome::Failed(why) => ArchiveOutcome::Failed(why@),
        }
    }
}

impl View for AllAsk<String> {
    type V = AllAsk<Txt>;

    open spec fn view(&self) -> AllAsk<Txt> {
        match *self {
            AllAsk::Open { archive } => AllAsk::Open { archive: archive@ },
            AllAsk::Clear { root } => AllAsk::Clear { root: root@ },
            AllAsk::MakeDir { root } => AllAsk::MakeDir { root: root@ },
            AllAsk::Unpack { root, signal } => AllAsk::Unpack { root: root@, signal },
            AllAsk::Mark { marker } => AllAsk::Mark { marker: marker@ },
            AllAsk::Discard { root } => AllAsk::Discard { root: root@ },
            AllAsk::Ended(outcome) => AllAsk::Ended(outcome@),
        }
    }
}

impl View for AllReply<String> {
    type V = AllReply<Txt>;

    open spec fn view(&self) -> AllReply<Txt> {
        match *self {
            AllReply::Outcome(why) => AllReply::Outcome(why.deep_view()),
            AllReply::Tried => AllReply::Tried,
            AllReply::Reached { done, total, stop } => AllReply::Reached { done, total, stop },
        }
    }
}

impl View for AllAt<String> {
    type V = AllAt<Txt>;

    open spec fn view(&self) -> AllAt<Txt> {
        match *self {
            AllAt::Opening => AllAt::Opening,
            AllAt::Clearing => AllAt::Clearing,
            AllAt::Making => AllAt::Making,
            AllAt::Unpacking { signal } => AllAt::Unpacking { signal },
            AllAt::Marking => AllAt::Marking,
            AllAt::Discarding { outcome } => AllAt::Discarding { outcome: outcome@ },
            AllAt::Ended { outcome } => AllAt::Ended { outcome: outcome@ },
        }
    }
}

impl View for AllRun {
    type V = AllModel;

    open spec fn view(&self) -> AllModel {
        AllModel {
            archive: self.archive@,
            root: self.root@,
            marker: self.marker@,
            said: self.progress.last,
            at: self.at@,
        }
    }
}

/// An unpacking before its first reply.
pub open spec fn all_start(archive: Txt, root: Txt, marker: Txt) -> AllModel {
    AllModel { archive, root, marker, said: None, at: AllAt::Opening }
}

/// What the unpacking waits to have done.
pub open spec fn all_ask(state: AllModel) -> AllAsk<Txt> {
    match state.at {
        AllAt::Opening => AllAsk::Open { archive: state.archive },
        AllAt::Clearing => AllAsk::Clear { root: state.root },
        AllAt::Making => AllAsk::MakeDir { root: state.root },
        AllAt::Unpacking { signal } => AllAsk::Unpack { root: state.root, signal },
        AllAt::Marking => AllAsk::Mark { marker: state.marker },
        AllAt::Discarding { .. } => AllAsk::Discard { root: state.root },
        AllAt::Ended { outcome } => AllAsk::Ended(outcome),
    }
}

/// The percentage that is to be said, if the total is known and it is not what was said last.
pub open spec fn news(said: Option<u32>, done: u64, total: u64) -> Option<u32> {
    if total == 0 || said == Some(percent_of(done, total) as u32) {
        None
    } else {
        Some(percent_of(done, total) as u32)
    }
}

/// What the unpacking does with a reply, and what is shown in the log. A reply that does not answer
/// what was asked changes nothing.
pub open spec fn all_step(state: AllModel, reply: AllReply<Txt>) -> (AllModel, Seq<AllLine>) {
    let to = |at: AllAt<Txt>| (AllModel { at, ..state }, Seq::<AllLine>::empty());
    let end = |outcome: ArchiveOutcome<Txt>|
        (AllModel { at: AllAt::Ended { outcome }, ..state }, seq![AllLine::End]);
    match (state.at, reply) {
        (AllAt::Opening, AllReply::Outcome(None)) => to(AllAt::Clearing),
        (AllAt::Clearing, AllReply::Tried) => to(AllAt::Making),
        (AllAt::Making, AllReply::Outcome(None)) => to(
            AllAt::Unpacking { signal: Signal::Begin },
        ),
        (AllAt::Opening, AllReply::Outcome(Some(why))) => to(
            AllAt::Discarding { outcome: ArchiveOutcome::Failed(why) },
        ),
        (AllAt::Making, AllReply::Outcome(Some(why))) => to(
            AllAt::Discarding { outcome: ArchiveOutcome::Failed(why) },
        ),
        (AllAt::Unpacking { signal }, AllReply::Reached { done, total, stop }) => {
            let told = news(state.said, done, total);
            let next = AllModel {
                said: if told is Some {
                    told
                } else {
                    state.said
                },
                at: AllAt::Unpacking {
                    signal: if stop || signal == Signal::Abort {
                        Signal::Abort
                    } else {
                        Signal::GoOn
                    },
                },
                ..state
            };
            match told {
                Some(percent) => (next, seq![AllLine::Percent(percent)]),
                None => (next, Seq::empty()),
            }
        },
        (AllAt::Unpacking { signal }, AllReply::Outcome(None)) => if signal == Signal::Abort {
            to(AllAt::Discarding { outcome: ArchiveOutcome::Cancelled })
        } else {
            to(AllAt::Marking)
        },
        (AllAt::Unpacking { .. }, AllReply::Outcome(Some(why))) => to(
            AllAt::Discarding { outcome: ArchiveOutcome::Failed(why) },
        ),
        (AllAt::Marking, AllReply::Tried) => end(ArchiveOutcome::Done),
        (AllAt::Discarding { outcome }, AllReply::Tried) => end(outcome),
        _ => (state, Seq::empty()),
    }
}

impl AllRun {
    /// Starts to unpack the archive `archive` to `root`, with the mark `marker`. The log says so.
    pub fn start_archive_extract(archive: String, root: String, marker: String) -> (started: (
        AllRun,
        Vec<AllLine>,
    ))
        ensures
            started.0@ == all_start(archive@, root@, marker@),
            started.1@ == seq![AllLine::Begin],
    {
        let run = AllRun {
            archive,
            root,
            marker,
            progress: ExtractProgress::new(),
            at: AllAt::Opening,
        };
        (run, vec![AllLine::Begin])
    }

    /// What the unpacking waits to have done.
    pub fn ask(&self) -> (ask: AllAsk)
        ensures
            ask@ == all_ask(self@),
    {
        match &self.at {
            AllAt::Opening => AllAsk::Open { archive: self.archive.clone() },
            AllAt::Clearing => AllAsk::Clear { root: self.root.clone() },
            AllAt::Making => AllAsk::MakeDir { root: self.root.clone() },
            AllAt::Unpacking { signal } => AllAsk::Unpack {
                root: self.root.clone(),
                signal: *signal,
            },
            AllAt::Marking => AllAsk::Mark { marker: self.marker.clone() },
            AllAt::Discarding { .. } => AllAsk::Discard { root: self.root.clone() },
            AllAt::Ended { outcome } => AllAsk::Ended(copy_of(outcome)),
        }
    }

    /// The unpacking goes on to `at`, with a line or without.
    fn to(self, at: AllAt, line: Option<AllLine>) -> (next: (AllRun, Vec<AllLine>))
        ensures
            next.0@ == (AllModel { at: at@, ..self@ }),
            next.1@ == (match line {
                Some(l) => seq![l],
                None => Seq::empty(),
            }),
    {
        let AllRun { archive, root, marker, progress, at: _ } = self;
        let lines: Vec<AllLine> = match line {
            Some(l) => vec![l],
            None => Vec::new(),
        };
        (AllRun { archive, root, marker, progress, at }, lines)
    }

    /// The archive is done with: the mark is set where all of it is there, and else the directory is
    /// removed.
    fn closed(self, why: Option<String>, cancelled: bool) -> (next: (AllRun, Vec<AllLine>))
        ensures
            next.0@ == (AllModel {
                at: match why {
                    Some(e) => AllAt::Discarding { outcome: ArchiveOutcome::Failed(e@) },
                    None => if cancelled {
                        AllAt::Discarding { outcome: ArchiveOutcome::Cancelled }
                    } else {
                        AllAt::Marking
                    },
                },
                ..self@
            }),
            next.1@ == Seq::<AllLine>::empty(),
    {
        let (outcome, removed) = extract_outcome(why, cancelled);
        if removed {
            self.to(AllAt::Discarding { outcome }, None)
        } else {
            self.to(AllAt::Marking, None)
        }
    }

    /// So much was unpacked.
    fn reached(self, signal: Signal, done: u64, total: u64, stop: bool) -> (next: (
        AllRun,
        Vec<AllLine>,
    ))
        requires
            self.at@ == (AllAt::<Txt>::Unpacking { signal }),
        ensures
            (next.0@, next.1@) == all_step(self@, AllReply::Reached { done, total, stop }),
    {
        let signal = if stop || signal == Signal::Abort {
            Signal::Abort
        } else {
            Signal::GoOn
        };
        let AllRun { archive, root, marker, progress, at: _ } = self;
        let mut progress = progress;
        let told = progress.report(done, total);
        let run = AllRun { archive, root, marker, progress, at: AllAt::Unpacking { signal } };
        match told {
            Some(percent) => (run, vec![AllLine::Percent(percent)]),
            None => (run, Vec::new()),
        }
    }

    /// Takes the reply to what was asked: the next state, and what is shown in the log.
    pub fn step(self, reply: AllReply) -> (next: (AllRun, Vec<AllLine>))
        ensures
            (next.0@, next.1@) == all_step(self@, reply@),
    {
        match (&self.at, reply) {
            (AllAt::Opening, AllReply::Outcome(None)) => self.to(AllAt::Clearing, None),
            (AllAt::Clearing, AllReply::Tried) => self.to(AllAt::Making, None),
            (AllAt::Making, AllReply::Outcome(None)) => {
                self.to(AllAt::Unpacking { signal: Signal::Begin }, None)
            },
            (AllAt::Opening, AllReply::Outcome(why)) => self.closed(why, false),
            (AllAt::Making, AllReply::Outcome(why)) => self.closed(why, false),
            (AllAt::Unpacking { signal }, AllReply::Reached { done, total, stop }) => {
                let signal = *signal;
                self.reached(signal, done, total, stop)
            },
            (AllAt::Unpacking { signal }, AllReply::Outcome(why)) => {
                let cancelled = *signal == Signal::Abort;
                self.closed(why, cancelled)
            },
            (AllAt::Marking, AllReply::Tried) => {
                self.to(AllAt::Ended { outcome: ArchiveOutcome::Done }, Some(AllLine::End))
            },
            (AllAt::Discarding { outcome }, AllReply::Tried) => {
                let outcome = copy_of(outcome);
                self.to(AllAt::Ended { outcome }, Some(AllLine::End))
            },
            _ => (self, Vec::new()),
        }
    }
}

/// The same outcome once more.
fn copy_of(outcome: &ArchiveOutcome) -> (copy: ArchiveOutcome)
    ensures
        copy@ == outcome@,
{
    match outcome {
        ArchiveOutcome::Done => ArchiveOutcome::Done,
        ArchiveOutcome::Cancelled => ArchiveOutcome::Cancelled,
        ArchiveOutcome::Failed(why) => ArchiveOutcome::Failed(why.clone()),
    }
}

/// Whether the unpacking can stand so: what is removed is not all there.
pub open spec fn is_sound(state: AllModel) -> bool {
    match state.at {
        AllAt::Discarding { outcome } => !(outcome is Done),
        _ => true,
    }
}

/// The mark is set only where everything was unpacked: right after the archive said so, and only
/// while nobody wanted to stop.
pub proof fn law_only_complete_archives_are_marked(state: AllModel, reply: AllReply<Txt>)
    requires
        all_step(state, reply).0.at is Marking,
        !(state.at is Marking),
    ensures
        state.at matches AllAt::Unpacking { signal } && signal != Signal::Abort,
        reply == AllReply::<Txt>::Outcome(None),
        all_ask(all_step(state, reply).0) == (AllAsk::<Txt>::Mark { marker: state.marker }),
{
}

/// An unpacking ends as done right after it set the mark, and in any other way right after it removed
/// the directory. Either way the line in the log says no longer how far it is.
pub proof fn law_unfinished_archives_are_removed(state: AllModel, reply: AllReply<Txt>)
    requires
        is_sound(state),
        all_step(state, reply).0.at is Ended,
        !(state.at is Ended),
    ensures
        all_step(state, reply).0.at == (AllAt::Ended { outcome: ArchiveOutcome::<Txt>::Done })
            <==> all_ask(state) == (AllAsk::<Txt>::Mark { marker: state.marker }),
        all_step(state, reply).0.at != (AllAt::Ended { outcome: ArchiveOutcome::<Txt>::Done })
            <==> all_ask(state) == (AllAsk::<Txt>::Discard { root: state.root }),
        all_step(state, reply).1 == seq![AllLine::End],
{
}

/// Every unpacking is sound from its start on, and its archive, its directory and its mark stay the
/// same.
pub proof fn law_unpacking_stays_sound(
    archive: Txt,
    root: Txt,
    marker: Txt,
    state: AllModel,
    reply: AllReply<Txt>,
)
    ensures
        is_sound(all_start(archive, root, marker)),
        is_sound(state) ==> is_sound(all_step(state, reply).0),
        all_step(state, reply).0.archive == state.archive,
        all_step(state, reply).0.root == state.root,
        all_step(state, reply).0.marker == state.marker,
{
}

/// Whether the unpacking cannot end as done any more.
pub open spec fn is_stopped(state: AllModel) -> bool {
    match state.at {
        AllAt::Unpacking { signal } => signal == Signal::Abort,
        AllAt::Discarding { outcome } => !(outcome is Done),
        AllAt::Ended { outcome } => !(outcome is Done),
        _ => false,
    }
}

/// Once the user wanted to stop, the unpacking does not end as done, whatever else is told to it.
pub proof fn law_stopping_ends_the_unpacking(state: AllModel, reply: AllReply<Txt>)
    ensures
        is_stopped(state) ==> is_stopped(all_step(state, reply).0),
        state.at is Unpacking && (reply matches AllReply::Reached { stop, .. } && stop)
            ==> is_stopped(all_step(state, reply).0),
{
}

/// The state after a reply.
pub open spec fn next_state(state: AllModel, reply: AllReply<Txt>) -> AllModel {
    all_step(state, reply).0
}

/// The state in which everything is about to be unpacked: the archive was opened, what was left of an
/// earlier attempt was cleared away, and the directory was made.
pub open spec fn ready(archive: Txt, root: Txt, marker: Txt) -> AllModel {
    next_state(
        next_state(
            next_state(all_start(archive, root, marker), AllReply::Outcome(None)),
            AllReply::Tried,
        ),
        AllReply::Outcome(None),
    )
}

/// An archive is opened first, and its directory is cleared before it is made anew. Only what can be
/// opened is cleared and only what was made is filled; what fails on the way is removed and told.
pub proof fn law_unpacking_starts_clean(archive: Txt, root: Txt, marker: Txt, why: Txt)
    ensures
        ({
            let first = all_start(archive, root, marker);
            let opened = next_state(first, AllReply::Outcome(None));
            let cleared = next_state(opened, AllReply::Tried);
            let removed = AllAsk::<Txt>::Discard { root };
            let failed = AllAsk::<Txt>::Ended(ArchiveOutcome::Failed(why));
            let unopened = next_state(first, AllReply::Outcome(Some(why)));
            let unmade = next_state(cleared, AllReply::Outcome(Some(why)));
            &&& all_ask(first) == AllAsk::<Txt>::Open { archive }
            &&& all_ask(opened) == AllAsk::<Txt>::Clear { root }
            &&& all_ask(cleared) == AllAsk::<Txt>::MakeDir { root }
            &&& all_ask(ready(archive, root, marker)) == AllAsk::<Txt>::Unpack {
                root,
                signal: Signal::Begin,
            }
            &&& all_ask(unopened) == removed && all_ask(next_state(unopened, AllReply::Tried))
                == failed
            &&& all_ask(unmade) == removed && all_ask(next_state(unmade, AllReply::Tried))
                == failed
        }),
{
}

/// What is told while everything is unpacked keeps it going, or ends it early where the user wants to
/// stop, and shows a percentage only where it is another one: what is unpacked of the whole, rounded
/// down, and never more than a hundred.
pub proof fn law_unpacking_shows_how_far_it_is(state: AllModel, done: u64, total: u64, stop: bool)
    requires
        state.at == (AllAt::<Txt>::Unpacking { signal: Signal::GoOn }),
    ensures
        ({
            let (next, lines) = all_step(state, AllReply::Reached { done, total, stop });
            let reached = if done < total {
                done
            } else {
                total
            };
            &&& all_ask(next) == (AllAsk::<Txt>::Unpack {
                root: state.root,
                signal: if stop {
                    Signal::Abort
                } else {
                    Signal::GoOn
                },
            })
            &&& lines.len() <= 1
            &&& lines.len() == 1 ==> {
                &&& total > 0
                &&& lines[0] matches AllLine::Percent(p) && next.said == Some(p) && state.said
                    != Some(p) && p <= 100 && p * total <= reached * 100 && reached * 100 < (p + 1)
                    * total
            }
            &&& lines.len() == 0 ==> next.said == state.said && (total == 0 || (state.said
                matches Some(p) && p * total <= reached * 100 && reached * 100 < (p + 1) * total))
        }),
{
    if total > 0 {
        let reached: int = if done < total {
            done as int
        } else {
            total as int
        };
        let q = reached * 100 / (total as int);
        vstd::arithmetic::div_mod::lemma_fundamental_div_mod(reached * 100, total as int);
        assert(0 <= q <= 100) by (nonlinear_arith)
            requires
                q == reached * 100 / (total as int),
                0 <= reached <= total,
                total > 0,
        ;
        assert(total * q == q * total) by (nonlinear_arith);
        assert((q + 1) * total == q * total + total) by (nonlinear_arith);
    }
}

/// Everything that was unpacked is marked and kept; an unpacking that the user stopped, or in which
/// something failed, is removed and told as what it is.
pub proof fn law_unpacking_ends_as_it_went(state: AllModel, signal: Signal, why: Txt)
    requires
        state.at == (AllAt::<Txt>::Unpacking { signal }),
    ensures
        ({
            let over = next_state(state, AllReply::Outcome(None));
            let broken = next_state(state, AllReply::Outcome(Some(why)));
            &&& signal != Signal::Abort ==> all_ask(over) == (AllAsk::<Txt>::Mark {
                marker: state.marker,
            }) && all_ask(next_state(over, AllReply::Tried)) == AllAsk::<Txt>::Ended(
                ArchiveOutcome::Done,
            )
            &&& signal == Signal::Abort ==> all_ask(over) == (AllAsk::<Txt>::Discard {
                root: state.root,
            }) && all_ask(next_state(over, AllReply::Tried)) == AllAsk::<Txt>::Ended(
                ArchiveOutcome::Cancelled,
            )
            &&& all_ask(broken) == (AllAsk::<Txt>::Discard { root: state.root })
            &&& all_ask(next_state(broken, AllReply::Tried)) == AllAsk::<Txt>::Ended(
                ArchiveOutcome::Failed(why),
            )
        }),
{
}

} // verus!
