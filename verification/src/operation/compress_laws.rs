//! What is packed into an archive, told by what there is to pack.

use crate::operation;
use crate::operation::adding::AddStyle;
use crate::operation::adding_laws;
use crate::operation::adding_laws::{
    fit_names, law_everything_is_added, names_effects, names_tally, names_turns, Manner, Thing,
    Wanted,
};
use crate::operation::compress::{
    pack_ask, pack_start, pack_step, PackJob, PackModel, PackOutcome, PackStage,
};
use crate::operation::copy_laws::{counted_on, outcome, sum_of, tally, Turn};
use crate::operation::messages::{Message, Verb};
use crate::operation::{ArchiveFormat, Ask, Effect, LogLevel, OpSummary, Reply, Txt};
use crate::winpath;
use vstd::prelude::*;

verus! {

/// Where a packing stands after a conversation, and what it carried out on the way; nothing where it
/// did not ask these questions.
pub open spec fn answered(state: PackModel, turns: Seq<Turn>) -> Option<PackOutcome>
    decreases turns.len(),
{
    if turns.len() == 0 {
        Some((state, Seq::empty()))
    } else {
        match answered(state, turns.drop_last()) {
            None => None,
            Some((middle, before)) => if pack_ask(middle) == turns.last().0 {
                let (last, now) = pack_step(middle, turns.last().1);
                Some((last, before + now))
            } else {
                None
            },
        }
    }
}

/// How the files of a packing get into the archive, and what the log calls it: a zip archive gets
/// files that were read first, a tar archive files as they are, a 7z archive files that could be
/// opened, and an archive that is there already gets them in pieces.
pub open spec fn manner_of(job: PackJob) -> Manner {
    match job {
        PackJob::Create(ArchiveFormat::Zip) => Manner {
            style: AddStyle::ReadFirst,
            verb: Verb::Compress,
        },
        PackJob::Create(ArchiveFormat::TarXz) => Manner {
            style: AddStyle::Streamed,
            verb: Verb::Compress,
        },
        PackJob::Create(_) => Manner { style: AddStyle::Whole, verb: Verb::Compress },
        PackJob::Append => Manner { style: AddStyle::Pieces, verb: Verb::Add },
    }
}

/// The archive is created, or opened where it is there already.
pub open spec fn first_turn(dst: Txt, job: PackJob, entries: u64) -> Turn {
    match job {
        PackJob::Create(format) => (Ask::CreateArchive { path: dst, format }, Reply::Done),
        PackJob::Append => (Ask::OpenArchive(dst), Reply::Opened(entries)),
    }
}

/// The lines at the end of the log: the counts, and how it went.
pub open spec fn last_lines(verb: Verb, sum: OpSummary) -> Seq<Effect<Txt>> {
    seq![
        Effect::Log(
            if sum.err == 0 {
                LogLevel::Info
            } else {
                LogLevel::Error
            },
            Message::CopyResult { ok: sum.ok, skip: sum.skip, err: sum.err },
        ),
        if sum.err == 0 {
            Effect::Log(LogLevel::Info, Message::Finished(verb))
        } else {
            Effect::Log(LogLevel::Warning, Message::FinishedWithErrors(verb))
        },
    ]
}

/// Why the archive itself is not there, where it is not.
pub open spec fn archive_error(dst: Txt, verb: Verb, why: Option<Txt>) -> Seq<Effect<Txt>> {
    match why {
        None => Seq::empty(),
        Some(reason) => seq![
            Effect::Log(
                LogLevel::Error,
                Message::Failure(verb, winpath::path_display_name(dst), reason),
            ),
        ],
    }
}

/// The counts of a packing whose archive could be closed, or not.
pub open spec fn final_counts(w: Wanted, things: Seq<Thing>, unfinished: Option<Txt>) -> OpSummary {
    counted_on(
        OpSummary { ok: 0, skip: 0, err: 0, cancelled: false },
        sum_of(
            names_tally(w, things, 0),
            if unfinished is Some {
                tally(0, 0, 1)
            } else {
                tally(0, 0, 0)
            },
        ),
    )
}

/// The outcome of a conversation that goes on after `out`.
spec fn going_on(out: PackOutcome, turns: Seq<Turn>) -> Option<PackOutcome> {
    match answered(out.0, turns) {
        None => None,
        Some((last, effects)) => Some((last, out.1 + effects)),
    }
}

/// What a conversation carried out.
spec fn carried(out: Option<PackOutcome>) -> Seq<Effect<Txt>> {
    match out {
        Some((_, effects)) => effects,
        None => Seq::empty(),
    }
}

proof fn lemma_two(state: PackModel, a: Seq<Turn>, b: Seq<Turn>)
    ensures
        answered(state, a) is None ==> answered(state, a + b) is None,
        answered(state, a) matches Some(out) ==> answered(state, a + b) == going_on(out, b),
    decreases b.len(),
{
    if b.len() == 0 {
        assert(a + b =~= a);
        if let Some(out) = answered(state, a) {
            assert(out.1 + Seq::<Effect<Txt>>::empty() =~= out.1);
        }
    } else {
        lemma_two(state, a, b.drop_last());
        assert((a + b).drop_last() =~= a + b.drop_last());
        if let Some(out) = answered(state, a) {
            if let Some((middle, before)) = answered(out.0, b.drop_last()) {
                let now = pack_step(middle, b.last().1).1;
                assert(out.1 + (before + now) =~= (out.1 + before) + now);
            }
        }
    }
}

proof fn lemma_one(state: PackModel, turn: Turn)
    requires
        pack_ask(state) == turn.0,
    ensures
        answered(state, seq![turn]) == Some(pack_step(state, turn.1)),
{
    assert(seq![turn].drop_last() =~= Seq::<Turn>::empty());
    assert(answered(state, Seq::<Turn>::empty()) == Some((state, Seq::<Effect<Txt>>::empty())));
    assert(Seq::<Effect<Txt>>::empty() + pack_step(state, turn.1).1 =~= pack_step(
        state,
        turn.1,
    ).1);
}

proof fn lemma_lifted(state: PackModel, turns: Seq<Turn>)
    requires
        state.stage == PackStage::Adding,
        adding_laws::answered(state.adder, turns) is Some,
    ensures
        adding_laws::answered(state.adder, turns) matches Some((adder, effects)) && answered(
            state,
            turns,
        ) == Some((PackModel { adder, ..state }, effects)),
    decreases turns.len(),
{
    if turns.len() > 0 {
        lemma_lifted(state, turns.drop_last());
    }
}

/// A packing that nobody stops puts everything that the names stand for, and everything below every
/// directory that can be read, into the archive, closes it, and says so. An archive that cannot be
/// closed is one more error.
#[verifier::rlimit(60)]
pub proof fn law_everything_is_packed(
    w: Wanted,
    dst: Txt,
    job: PackJob,
    entries: u64,
    things: Seq<Thing>,
    unfinished: Option<Txt>,
)
    requires
        w.how == manner_of(job),
        fit_names(w, things),
    ensures
        ({
            let sum = final_counts(w, things, unfinished);
            &&& answered(
                pack_start(w.dir, w.names, dst, w.inner, job),
                seq![first_turn(dst, job, entries)] + names_turns(w, things, 0) + seq![
                    (Ask::Finish, outcome(unfinished)),
                ],
            ) matches Some((last, effects)) && {
                &&& effects == names_effects(w, things, 0) + archive_error(
                    dst,
                    w.how.verb,
                    unfinished,
                ) + last_lines(w.how.verb, sum)
                &&& pack_ask(last) == Ask::<Txt>::Ended(sum)
            }
        }),
{
    let sum = final_counts(w, things, unfinished);
    let none = operation::no_results();
    let first = pack_start(w.dir, w.names, dst, w.inner, job);
    let open = first_turn(dst, job, entries);
    let mine = names_turns(w, things, 0);
    let close: Turn = (Ask::Finish, outcome(unfinished));
    law_everything_is_added(w, things, none);
    let begun = PackModel { stage: PackStage::Adding, ..first };
    lemma_one(first, open);
    lemma_lifted(begun, mine);
    lemma_two(first, seq![open], mine);
    let (adder, effects) = adding_laws::answered(first.adder, mine)->0;
    let filled = PackModel { adder, ..begun };
    lemma_one(filled, close);
    lemma_two(first, seq![open] + mine, seq![close]);
    assert(final_counts(w, things, None) == adder.core.sum);
    let got = answered(first, seq![open] + mine + seq![close]);
    assert(carried(got) =~= names_effects(w, things, 0) + archive_error(
        dst,
        w.how.verb,
        unfinished,
    ) + last_lines(w.how.verb, sum));
}

/// A packing whose archive cannot be created or opened packs nothing: it says why and ends with that
/// one error. What was left of an archive that broke while it was created is removed.
pub proof fn law_no_archive_no_packing(
    w: Wanted,
    dst: Txt,
    job: PackJob,
    why: Txt,
    broken: bool,
)
    requires
        w.how == manner_of(job),
        broken ==> job is Create,
    ensures
        ({
            let sum = OpSummary { ok: 0, skip: 0, err: 1, cancelled: false };
            let first = pack_start(w.dir, w.names, dst, w.inner, job);
            let reply = if broken {
                Reply::Broken(why)
            } else {
                Reply::Failed(why)
            };
            let (last, effects) = pack_step(first, reply);
            &&& pack_ask(first) == first_turn(dst, job, 0).0
            &&& pack_ask(last) == Ask::<Txt>::Ended(sum)
            &&& effects == (if broken {
                seq![Effect::RemoveFile(dst)]
            } else {
                Seq::empty()
            }) + archive_error(dst, w.how.verb, Some(why)) + last_lines(w.how.verb, sum)
        }),
{
    let sum = OpSummary { ok: 0, skip: 0, err: 1, cancelled: false };
    let first = pack_start(w.dir, w.names, dst, w.inner, job);
    let reply = if broken {
        Reply::Broken(why)
    } else {
        Reply::Failed(why)
    };
    assert(pack_step(first, reply).1 =~= (if broken {
        seq![Effect::RemoveFile(dst)]
    } else {
        Seq::empty()
    }) + archive_error(dst, w.how.verb, Some(why)) + last_lines(w.how.verb, sum));
}

} // verus!
