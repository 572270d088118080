//! What becomes of the entries of an archive that is changed.

use crate::archive;
use crate::archive_laws::{is_of, is_under, lemma_path_in, lemma_under, path_in};
use crate::operation;
use crate::operation::adding::{AddModel, AddStyle};
use crate::operation::adding_laws;
use crate::operation::adding_laws::{
    fit_names, law_everything_is_added, names_effects, names_tally, names_turns, Manner, Thing,
    Wanted,
};
use crate::operation::archive_ops::{
    at_entry, decided, deleting, inner_names, is_covered, rebuilding, renaming, rewrite_ask,
    rewrite_step, tmp_path, with_sum, Progress, RewriteModel, RewriteOutcome, RewriteStage,
    RuleModel,
};
use crate::operation::archive_ops;
use crate::operation::copy_laws::{counted_on, outcome, sum_of, tally, Tally, Turn};
use crate::operation::messages::{Message, Verb};
use crate::operation::{
    ArchiveFormat, Ask, Effect, LogLevel, OpSummary, ProgressHandle, Reply, Txt,
};
use crate::text;
use crate::winpath;
use vstd::prelude::*;

verus! {

/// Whether an entry is one of the names in the directory `inner`, or lies below one.
pub open spec fn is_named(inner: Txt, names: Seq<Txt>, path: Txt) -> bool {
    exists|i: int| 0 <= i < names.len() && is_of(path, path_in(inner, #[trigger] names[i]))
}

proof fn lemma_covered(inner: Txt, names: Seq<Txt>, path: Txt)
    ensures
        is_covered(inner_names(inner, names), path) == is_named(inner, names, path),
{
    let tops = inner_names(inner, names);
    assert forall|i: int| 0 <= i < names.len() implies archive::at_or_below(
        path,
        #[trigger] tops[i],
    ) == is_of(path, path_in(inner, names[i])) by {
        lemma_path_in(inner, names[i]);
        lemma_under(path, tops[i]);
    }
    if is_named(inner, names, path) {
        let i = choose|i: int|
            0 <= i < names.len() && is_of(path, path_in(inner, #[trigger] names[i]));
        assert(archive::at_or_below(path, tops[i]));
    }
    if is_covered(tops, path) {
        let i = choose|i: int| 0 <= i < tops.len() && archive::at_or_below(path, #[trigger] tops[i]);
        assert(is_of(path, path_in(inner, names[i])));
    }
}

/// Deleting names in a directory of an archive leaves out exactly the entries of that directory with
/// these names and what lies below them. Every other entry stays under its name: also one with such a
/// name in another directory, and one whose name only begins like it.
pub proof fn law_deleting_drops_what_is_named(
    archive: Txt,
    inner: Txt,
    names: Seq<Txt>,
    process: u32,
    sequence: u64,
    path: Txt,
)
    ensures
        decided(deleting(archive, inner, names, process, sequence).plan.rule, path) == (if is_named(
            inner,
            names,
            path,
        ) {
            None
        } else {
            Some(path)
        }),
        inner.len() > 0 && !is_under(path, inner) ==> decided(
            deleting(archive, inner, names, process, sequence).plan.rule,
            path,
        ) == Some(path),
{
    lemma_covered(inner, names, path);
    if inner.len() > 0 && is_named(inner, names, path) {
        let i = choose|i: int|
            0 <= i < names.len() && is_of(path, path_in(inner, #[trigger] names[i]));
        let top = path_in(inner, names[i]);
        if path == top {
            assert(path == inner + seq!['/'] + names[i]);
        } else {
            let rest = choose|rest: Txt| path == #[trigger] (top + seq!['/'] + rest);
            assert(path =~= inner + seq!['/'] + (names[i] + seq!['/'] + rest));
        }
    }
}

/// Adding names to a directory of an archive by writing it anew replaces exactly the entries with these
/// names there and what lies below them; every other entry stays under its name. What is added comes
/// from the directory on the disk and goes to that directory of the archive.
pub proof fn law_adding_replaces_what_is_named(
    src_dir: Txt,
    names: Seq<Txt>,
    archive: Txt,
    inner: Txt,
    process: u32,
    sequence: u64,
    path: Txt,
)
    ensures
        ({
            let state = rebuilding(src_dir, names, archive, inner, process, sequence);
            &&& decided(state.plan.rule, path) == (if is_named(inner, names, path) {
                None
            } else {
                Some(path)
            })
            &&& state.adder.core.src_dir == src_dir
            &&& state.adder.core.prefix == inner
            &&& state.adder.core.names == names
            &&& state.plan.archive == archive
        }),
{
    lemma_covered(inner, names, path);
}

/// Renaming an entry of a directory gives the new name to it and to the paths of all that lies below
/// it; every other entry stays under its name.
pub proof fn law_renaming_changes_what_is_named(
    archive: Txt,
    inner: Txt,
    old_name: Txt,
    new_name: Txt,
    process: u32,
    sequence: u64,
    path: Txt,
    rest: Txt,
)
    ensures
        ({
            let rule = renaming(archive, inner, old_name, new_name, process, sequence).plan.rule;
            let from = path_in(inner, old_name);
            let to = path_in(inner, new_name);
            &&& decided(rule, from) == Some(to)
            &&& decided(rule, from + seq!['/'] + rest) == Some(to + seq!['/'] + rest)
            &&& !is_of(path, from) ==> decided(rule, path) == Some(path)
        }),
{
    let from = path_in(inner, old_name);
    let to = path_in(inner, new_name);
    let rule = renaming(archive, inner, old_name, new_name, process, sequence).plan.rule;
    lemma_path_in(inner, old_name);
    lemma_path_in(inner, new_name);
    assert(rule == RuleModel::Rename { from, to });
    let below = from + seq!['/'] + rest;
    assert(is_under(below, from));
    lemma_under(below, from);
    lemma_under(path, from);
    assert(below.skip(from.push('/').len() as int) =~= rest);
    assert(below.len() > from.len());
    assert(to.push('/') + rest =~= to + seq!['/'] + rest);
    assert(text::stripped(below, from.push('/')) == Some(rest));
}

/// Where a change of an archive stands after a conversation, and what it carried out on the way; nothing where it
/// did not ask these questions.
pub open spec fn answered(state: RewriteModel, turns: Seq<Turn>) -> Option<RewriteOutcome>
    decreases turns.len(),
{
    if turns.len() == 0 {
        Some((state, Seq::empty()))
    } else {
        match answered(state, turns.drop_last()) {
            None => None,
            Some((middle, before)) => if rewrite_ask(middle) == turns.last().0 {
                let (last, now) = rewrite_step(middle, turns.last().1);
                Some((last, before + now))
            } else {
                None
            },
        }
    }
}

/// How an archive is changed.
pub enum Change {
    Delete { inner: Txt, names: Seq<Txt> },
    Add { dir: Txt, inner: Txt, names: Seq<Txt> },
    Rename { inner: Txt, old_name: Txt, new_name: Txt },
}

/// What an entry is called after a change, if it stays.
pub open spec fn new_path(change: Change, path: Txt) -> Option<Txt> {
    match change {
        Change::Delete { inner, names } | Change::Add { inner, names, .. } => if is_named(
            inner,
            names,
            path,
        ) {
            None
        } else {
            Some(path)
        },
        Change::Rename { inner, old_name, new_name } => if is_of(path, path_in(inner, old_name)) {
            Some(path_in(inner, new_name) + path.skip(path_in(inner, old_name).len() as int))
        } else {
            Some(path)
        },
    }
}

/// A change of `archive` before its first reply.
pub open spec fn changing(archive: Txt, change: Change, process: u32, sequence: u64) -> RewriteModel {
    match change {
        Change::Delete { inner, names } => deleting(archive, inner, names, process, sequence),
        Change::Add { dir, inner, names } => rebuilding(
            dir,
            names,
            archive,
            inner,
            process,
            sequence,
        ),
        Change::Rename { inner, old_name, new_name } => renaming(
            archive,
            inner,
            old_name,
            new_name,
            process,
            sequence,
        ),
    }
}

/// What the log calls a change.
pub open spec fn change_verb(change: Change) -> Verb {
    match change {
        Change::Delete { .. } => Verb::Delete,
        Change::Add { .. } => Verb::Add,
        Change::Rename { .. } => Verb::Rename,
    }
}

/// What a change adds.
pub open spec fn additions(change: Change) -> Wanted {
    match change {
        Change::Add { dir, inner, names } => Wanted {
            dir,
            names,
            inner,
            how: Manner { style: AddStyle::Pieces, verb: Verb::Add },
        },
        _ => Wanted {
            dir: Seq::empty(),
            names: Seq::empty(),
            inner: Seq::empty(),
            how: Manner { style: AddStyle::Pieces, verb: change_verb(change) },
        },
    }
}

/// An entry of the old archive: it could not be read, or it has a name, and where it is copied it may
/// fail to be.
pub enum Seen {
    Unread { why: Txt },
    Entry { raw: Vec<u8>, is_dir: bool, failed: Option<Txt>, seconds: u64 },
}

/// Whether the entries came so quickly that nothing was said of how far it is.
pub open spec fn are_quick(entries: Seq<Seen>) -> bool {
    forall|i: int|
        0 <= i < entries.len() ==> (#[trigger] entries[i] matches Seen::Entry { seconds, .. }
            ==> seconds < 3)
}

/// The path that the raw name of an entry stands for.
pub open spec fn path_of(raw: Seq<u8>) -> Txt {
    archive::normalized(archive::name_text(raw))
}

/// The conversation about the entry at place `i`. One without a path is passed over; one that stays is
/// copied under its new path, with a slash behind it where it is a directory.
pub open spec fn entry_turns(change: Change, entry: Seen, i: int) -> Seq<Turn> {
    let stop: Turn = (Ask::Stop, Reply::Flag(false));
    match entry {
        Seen::Unread { why } => seq![stop, (Ask::EntryAt(i as u64), Reply::Failed(why))],
        Seen::Entry { raw, is_dir, failed, seconds } => {
            let named: Turn = (Ask::EntryAt(i as u64), Reply::Named { raw, is_dir });
            let clock: Turn = (Ask::Elapsed, Reply::Seconds(seconds));
            if path_of(raw@).len() == 0 {
                seq![stop, named]
            } else {
                match new_path(change, path_of(raw@)) {
                    None => seq![stop, named, clock],
                    Some(path) => seq![
                        stop,
                        named,
                        (
                            Ask::CopyEntry {
                                index: i as u64,
                                name: if is_dir {
                                    path + seq!['/']
                                } else {
                                    path
                                },
                            },
                            outcome(failed),
                        ),
                        clock,
                    ],
                }
            }
        },
    }
}

/// Why an entry could not be taken over, where it could not.
pub open spec fn entry_failure(change: Change, entry: Seen) -> Option<Txt> {
    match entry {
        Seen::Unread { why } => Some(why),
        Seen::Entry { raw, failed, .. } => if path_of(raw@).len() == 0 || new_path(
            change,
            path_of(raw@),
        ) is None {
            None
        } else {
            failed
        },
    }
}

/// The line that says what is wrong with the archive.
pub open spec fn trouble(archive: Txt, why: Txt) -> Effect<Txt> {
    Effect::Log(
        LogLevel::Error,
        Message::UpdateFailure(winpath::path_display_name(archive), why),
    )
}

/// The conversation about the entries from one place on.
pub open spec fn entries_turns(change: Change, entries: Seq<Seen>, from: int) -> Seq<Turn>
    decreases entries.len() - from,
{
    if 0 <= from < entries.len() {
        entry_turns(change, entries[from], from) + entries_turns(change, entries, from + 1)
    } else {
        Seq::empty()
    }
}

pub open spec fn entries_effects(
    archive: Txt,
    change: Change,
    entries: Seq<Seen>,
    from: int,
) -> Seq<Effect<Txt>>
    decreases entries.len() - from,
{
    if 0 <= from < entries.len() {
        (match entry_failure(change, entries[from]) {
            None => Seq::empty(),
            Some(why) => seq![trouble(archive, why)],
        }) + entries_effects(archive, change, entries, from + 1)
    } else {
        Seq::empty()
    }
}

pub open spec fn entries_tally(change: Change, entries: Seq<Seen>, from: int) -> Tally
    decreases entries.len() - from,
{
    if 0 <= from < entries.len() {
        sum_of(
            if entry_failure(change, entries[from]) is Some {
                tally(0, 0, 1)
            } else {
                tally(0, 0, 0)
            },
            entries_tally(change, entries, from + 1),
        )
    } else {
        tally(0, 0, 0)
    }
}

/// The counts before the new archive is closed.
pub open spec fn counts_so_far(change: Change, entries: Seq<Seen>, things: Seq<Thing>) -> OpSummary {
    counted_on(
        OpSummary { ok: 0, skip: 0, err: 0, cancelled: false },
        sum_of(entries_tally(change, entries, 0), names_tally(additions(change), things, 0)),
    )
}

/// How the new archive was closed and put in the place of the old one.
pub struct Close {
    pub unfinished: Option<Txt>,
    pub unplaced: Option<Txt>,
}

/// The new archive is closed. It takes the place of the old one only where nothing went wrong.
pub open spec fn close_turns(archive: Txt, tmp: Txt, sum: OpSummary, close: Close) -> Seq<Turn> {
    let finish: Turn = (Ask::Finish, outcome(close.unfinished));
    if sum.err > 0 || close.unfinished is Some {
        seq![finish]
    } else {
        seq![finish, (Ask::Rename { src: tmp, dst: archive }, outcome(close.unplaced))]
    }
}

/// The counts of a change: those of what was added, and where entries were deleted or renamed, how many.
pub open spec fn final_counts(change: Change, sum: OpSummary, close: Close) -> OpSummary {
    if sum.err > 0 {
        sum
    } else if close.unfinished is Some || close.unplaced is Some {
        OpSummary { err: 1, ..sum }
    } else {
        match change {
            Change::Delete { names, .. } => OpSummary { ok: names.len() as usize, ..sum },
            Change::Add { .. } => sum,
            Change::Rename { .. } => OpSummary { ok: 1, ..sum },
        }
    }
}

/// What is said of a change that went well.
pub open spec fn report(change: Change) -> Seq<Effect<Txt>> {
    match change {
        Change::Delete { names, .. } => Seq::new(
            names.len(),
            |i: int| Effect::Log(LogLevel::Normal, Message::Item(Verb::Delete, names[i])),
        ),
        Change::Add { .. } => Seq::empty(),
        Change::Rename { old_name, new_name, .. } => seq![
            Effect::Log(LogLevel::Normal, Message::Renamed(old_name, new_name)),
        ],
    }
}

/// What is carried out once the new archive is written: where something went wrong it is removed.
pub open spec fn close_effects(
    archive: Txt,
    tmp: Txt,
    change: Change,
    sum: OpSummary,
    close: Close,
) -> Seq<Effect<Txt>> {
    if sum.err > 0 {
        seq![Effect::RemoveFile(tmp)]
    } else if close.unfinished is Some {
        seq![Effect::RemoveFile(tmp), trouble(archive, close.unfinished->0)]
    } else if close.unplaced is Some {
        seq![Effect::RemoveFile(tmp), trouble(archive, close.unplaced->0)]
    } else {
        report(change)
    }
}

/// The lines at the end of the log: the counts, and how it went. What is added is counted like a copy,
/// what is deleted or renamed like a deletion.
pub open spec fn last_lines(change: Change, sum: OpSummary) -> Seq<Effect<Txt>> {
    seq![
        Effect::Log(
            if sum.err == 0 {
                LogLevel::Info
            } else {
                LogLevel::Error
            },
            if change is Add {
                Message::CopyResult { ok: sum.ok, skip: sum.skip, err: sum.err }
            } else {
                Message::DeleteResult { ok: sum.ok, err: sum.err }
            },
        ),
        if sum.err == 0 {
            Effect::Log(LogLevel::Info, Message::Finished(change_verb(change)))
        } else {
            Effect::Log(LogLevel::Warning, Message::FinishedWithErrors(change_verb(change)))
        },
    ]
}

/// The outcome of a conversation that goes on after `out`.
spec fn going_on(out: RewriteOutcome, turns: Seq<Turn>) -> Option<RewriteOutcome> {
    match answered(out.0, turns) {
        None => None,
        Some((last, effects)) => Some((last, out.1 + effects)),
    }
}

/// What a conversation carried out.
spec fn carried(out: Option<RewriteOutcome>) -> Seq<Effect<Txt>> {
    match out {
        Some((_, effects)) => effects,
        None => Seq::empty(),
    }
}

proof fn lemma_two(state: RewriteModel, a: Seq<Turn>, b: Seq<Turn>)
    ensures
        answered(state, a) is None ==> answered(state, a + b) is None,
        answered(state, a) matches Some(out) ==> answered(state, a + b) == going_on(out, b),
    decreases b.len(),
{
    if b.len() == 0 {
        assert(a + b =~= a);
        if let Some(out) = answered(state, a) {
            assert(out.1 + Seq::<Effect<Txt>>::empty() =~= out.1);
        }
    } else {
        lemma_two(state, a, b.drop_last());
        assert((a + b).drop_last() =~= a + b.drop_last());
        if let Some(out) = answered(state, a) {
            if let Some((middle, before)) = answered(out.0, b.drop_last()) {
                let now = rewrite_step(middle, b.last().1).1;
                assert(out.1 + (before + now) =~= (out.1 + before) + now);
            }
        }
    }
}

proof fn lemma_one(state: RewriteModel, turn: Turn)
    requires
        rewrite_ask(state) == turn.0,
    ensures
        answered(state, seq![turn]) == Some(rewrite_step(state, turn.1)),
{
    assert(seq![turn].drop_last() =~= Seq::<Turn>::empty());
    assert(answered(state, Seq::<Turn>::empty()) == Some((state, Seq::<Effect<Txt>>::empty())));
    assert(Seq::<Effect<Txt>>::empty() + rewrite_step(state, turn.1).1 =~= rewrite_step(
        state,
        turn.1,
    ).1);
}

proof fn lemma_pair(state: RewriteModel, a: Turn, b: Turn)
    requires
        rewrite_ask(state) == a.0,
        rewrite_ask(rewrite_step(state, a.1).0) == b.0,
    ensures
        ({
            let one = rewrite_step(state, a.1);
            let two = rewrite_step(one.0, b.1);
            answered(state, seq![a, b]) == Some((two.0, one.1 + two.1))
        }),
{
    lemma_one(state, a);
    lemma_one(rewrite_step(state, a.1).0, b);
    lemma_two(state, seq![a], seq![b]);
    assert(seq![a, b] =~= seq![a] + seq![b]);
}

proof fn lemma_three(state: RewriteModel, a: Turn, b: Turn, c: Turn)
    requires
        rewrite_ask(state) == a.0,
        rewrite_ask(rewrite_step(state, a.1).0) == b.0,
        rewrite_ask(rewrite_step(rewrite_step(state, a.1).0, b.1).0) == c.0,
    ensures
        ({
            let one = rewrite_step(state, a.1);
            let two = rewrite_step(one.0, b.1);
            let three = rewrite_step(two.0, c.1);
            answered(state, seq![a, b, c]) == Some((three.0, one.1 + two.1 + three.1))
        }),
{
    lemma_pair(state, a, b);
    lemma_one(rewrite_step(rewrite_step(state, a.1).0, b.1).0, c);
    lemma_two(state, seq![a, b], seq![c]);
    assert(seq![a, b, c] =~= seq![a, b] + seq![c]);
}

proof fn lemma_four(state: RewriteModel, a: Turn, b: Turn, c: Turn, d: Turn)
    requires
        rewrite_ask(state) == a.0,
        rewrite_ask(rewrite_step(state, a.1).0) == b.0,
        rewrite_ask(rewrite_step(rewrite_step(state, a.1).0, b.1).0) == c.0,
        rewrite_ask(rewrite_step(rewrite_step(rewrite_step(state, a.1).0, b.1).0, c.1).0) == d.0,
    ensures
        ({
            let one = rewrite_step(state, a.1);
            let two = rewrite_step(one.0, b.1);
            let three = rewrite_step(two.0, c.1);
            let four = rewrite_step(three.0, d.1);
            answered(state, seq![a, b, c, d]) == Some(
                (four.0, one.1 + two.1 + three.1 + four.1),
            )
        }),
{
    lemma_three(state, a, b, c);
    lemma_one(rewrite_step(rewrite_step(rewrite_step(state, a.1).0, b.1).0, c.1).0, d);
    lemma_two(state, seq![a, b, c], seq![d]);
    assert(seq![a, b, c, d] =~= seq![a, b, c] + seq![d]);
}

proof fn lemma_new_path(archive: Txt, change: Change, process: u32, sequence: u64, path: Txt)
    ensures
        decided(changing(archive, change, process, sequence).plan.rule, path) == new_path(
            change,
            path,
        ),
{
    match change {
        Change::Delete { inner, names } => {
            law_deleting_drops_what_is_named(archive, inner, names, process, sequence, path);
        },
        Change::Add { dir, inner, names } => {
            law_adding_replaces_what_is_named(
                dir,
                names,
                archive,
                inner,
                process,
                sequence,
                path,
            );
        },
        Change::Rename { inner, old_name, new_name } => {
            let from = path_in(inner, old_name);
            let to = path_in(inner, new_name);
            if path == from {
                assert(to + path.skip(from.len() as int) =~= to);
            }
            let rest = if is_under(path, from) && path != from {
                choose|rest: Txt| path == #[trigger] (from + seq!['/'] + rest)
            } else {
                Seq::empty()
            };
            if is_under(path, from) && path != from {
                assert(path.skip(from.len() as int) =~= seq!['/'] + rest);
                assert(to + (seq!['/'] + rest) =~= to + seq!['/'] + rest);
            }
            law_renaming_changes_what_is_named(
                archive,
                inner,
                old_name,
                new_name,
                process,
                sequence,
                path,
                rest,
            );
        },
    }
}

/// The rewriting with more counts.
spec fn tallied(state: RewriteModel, t: Tally) -> RewriteModel {
    with_sum(state, counted_on(archive_ops::sum_of(state), t))
}

/// The rewriting at another entry.
spec fn moved(state: RewriteModel, i: int) -> RewriteModel {
    RewriteModel { progress: Progress { index: i as u64, ..state.progress }, ..state }
}

proof fn lemma_at_entry(state: RewriteModel, first: Seq<Effect<Txt>>)
    ensures
        at_entry(state, first) == (
            at_entry(state, Seq::empty()).0,
            first + at_entry(state, Seq::empty()).1,
        ),
{
    assert(at_entry(state, first).1 =~= first + at_entry(state, Seq::empty()).1);
}

proof fn lemma_tallied(state: RewriteModel)
    ensures
        tallied(state, tally(0, 0, 0)) == state,
        tallied(state, tally(0, 0, 1)) == with_sum(state, archive_ops::sum_of(state).plus_err()),
{
}

/// Whether a state is that of a change whose entries are being copied.
spec fn is_copying(
    state: RewriteModel,
    archive: Txt,
    change: Change,
    process: u32,
    sequence: u64,
    entries: Seq<Seen>,
    i: int,
) -> bool {
    &&& state.plan == changing(archive, change, process, sequence).plan
    &&& state.progress.total == entries.len()
    &&& state.progress.index == i
    &&& 0 <= i <= entries.len()
}

#[verifier::rlimit(80)]
proof fn lemma_entry(
    state: RewriteModel,
    archive: Txt,
    change: Change,
    process: u32,
    sequence: u64,
    entries: Seq<Seen>,
    i: int,
)
    requires
        is_copying(state, archive, change, process, sequence, entries, i),
        i < entries.len(),
        are_quick(entries),
    ensures
        ({
            let why = entry_failure(change, entries[i]);
            let next = moved(
                tallied(
                    state,
                    if why is Some {
                        tally(0, 0, 1)
                    } else {
                        tally(0, 0, 0)
                    },
                ),
                i + 1,
            );
            let effects = match why {
                None => Seq::empty(),
                Some(w) => seq![trouble(archive, w)],
            };
            &&& answered(
                archive_ops::at(state, RewriteStage::Poll),
                entry_turns(change, entries[i], i),
            ) == Some(
                (at_entry(next, Seq::empty()).0, effects + at_entry(next, Seq::empty()).1),
            )
        }),
{
    let turns = entry_turns(change, entries[i], i);
    let start = archive_ops::at(state, RewriteStage::Poll);
    lemma_tallied(state);
    match entries[i] {
        Seen::Unread { why } => {
            lemma_pair(start, turns[0], turns[1]);
            let next = moved(tallied(state, tally(0, 0, 1)), i + 1);
            lemma_at_entry(next, seq![trouble(archive, why)]);
            assert(carried(answered(start, turns)) =~= seq![trouble(archive, why)] + at_entry(
                next,
                Seq::empty(),
            ).1);
        },
        Seen::Entry { raw, is_dir, failed, seconds } => {
            let path = path_of(raw@);
            assert(seconds < 3);
            lemma_new_path(archive, change, process, sequence, path);
            let next = moved(state, i + 1);
            if path.len() == 0 {
                lemma_pair(start, turns[0], turns[1]);
                assert(carried(answered(start, turns)) =~= Seq::empty() + at_entry(
                    next,
                    Seq::empty(),
                ).1);
            } else if new_path(change, path) is None {
                lemma_three(start, turns[0], turns[1], turns[2]);
                assert(carried(answered(start, turns)) =~= Seq::empty() + at_entry(
                    next,
                    Seq::empty(),
                ).1);
            } else {
                let out = new_path(change, path)->0;
                assert(out.push('/') =~= out + seq!['/']);
                lemma_four(start, turns[0], turns[1], turns[2], turns[3]);
                if failed is Some {
                    let wrong = moved(tallied(state, tally(0, 0, 1)), i + 1);
                    assert(carried(answered(start, turns)) =~= seq![
                        trouble(archive, failed->0),
                    ] + at_entry(wrong, Seq::empty()).1);
                } else {
                    assert(carried(answered(start, turns)) =~= Seq::empty() + at_entry(
                        next,
                        Seq::empty(),
                    ).1);
                }
            }
        },
    }
}

proof fn lemma_joined(
    state: RewriteModel,
    turns: Seq<Turn>,
    next: RewriteOutcome,
    effects: Seq<Effect<Txt>>,
    rest: Seq<Turn>,
)
    requires
        answered(state, turns) == going_on((next.0, effects + next.1), rest),
        going_on(next, rest) is Some,
    ensures
        going_on((state, Seq::empty()), turns) == (match going_on(next, rest) {
            Some((last, more)) => Some((last, effects + more)),
            None => None,
        }),
{
    let (last, f) = answered(next.0, rest)->0;
    assert((effects + next.1) + f =~= effects + (next.1 + f));
    assert(Seq::<Effect<Txt>>::empty() + ((effects + next.1) + f) =~= (effects + next.1) + f);
}

#[verifier::rlimit(80)]
proof fn lemma_entries(
    state: RewriteModel,
    archive: Txt,
    change: Change,
    process: u32,
    sequence: u64,
    entries: Seq<Seen>,
    i: int,
)
    requires
        is_copying(state, archive, change, process, sequence, entries, i),
        are_quick(entries),
    ensures
        ({
            let end = moved(
                tallied(state, entries_tally(change, entries, i)),
                entries.len() as int,
            );
            let out = at_entry(end, Seq::empty());
            going_on(at_entry(state, Seq::empty()), entries_turns(change, entries, i)) == Some(
                (out.0, entries_effects(archive, change, entries, i) + out.1),
            )
        }),
    decreases entries.len() - i,
{
    let turns = entries_turns(change, entries, i);
    if i == entries.len() {
        lemma_tallied(state);
        let out = at_entry(state, Seq::empty());
        assert(moved(state, i) == state);
        assert(carried(going_on(out, turns)) =~= entries_effects(archive, change, entries, i)
            + out.1);
    } else {
        let why = entry_failure(change, entries[i]);
        let t = if why is Some {
            tally(0, 0, 1)
        } else {
            tally(0, 0, 0)
        };
        let effects = match why {
            None => Seq::empty(),
            Some(w) => seq![trouble(archive, w)],
        };
        let next = moved(tallied(state, t), i + 1);
        let start = archive_ops::at(state, RewriteStage::Poll);
        let mine = entry_turns(change, entries[i], i);
        let rest = entries_turns(change, entries, i + 1);
        lemma_entry(state, archive, change, process, sequence, entries, i);
        lemma_entries(next, archive, change, process, sequence, entries, i + 1);
        lemma_two(start, mine, rest);
        lemma_joined(start, turns, at_entry(next, Seq::empty()), effects, rest);
        let end = moved(
            tallied(state, entries_tally(change, entries, i)),
            entries.len() as int,
        );
        assert(end == moved(
            tallied(next, entries_tally(change, entries, i + 1)),
            entries.len() as int,
        ));
        let out = at_entry(end, Seq::empty());
        assert(effects + (entries_effects(archive, change, entries, i + 1) + out.1)
            =~= entries_effects(archive, change, entries, i) + out.1);
    }
}

/// The additions of a rewriting go as they go by themselves; after the last of them the rewriting
/// closes the new archive.
proof fn lemma_lifted(state: RewriteModel, turns: Seq<Turn>)
    requires
        state.stage is Adding,
        !(state.adder.phase is Finished),
        adding_laws::answered(state.adder, turns) is Some,
    ensures
        adding_laws::answered(state.adder, turns) matches Some((adder, effects)) && answered(
            state,
            turns,
        ) == Some(
            if adder.phase is Finished {
                archive_ops::wrapped_up(RewriteModel { adder, ..state }, effects)
            } else {
                (RewriteModel { adder, ..state }, effects)
            },
        ),
    decreases turns.len(),
{
    if turns.len() > 0 {
        lemma_lifted(state, turns.drop_last());
        let (middle, before) = adding_laws::answered(state.adder, turns.drop_last())->0;
        let (adder, now) = operation::adding::add_step(middle, turns.last().1);
        let line: Effect<Txt> = Effect::EndProgress(state.progress.handle, Message::Rebuild);
        assert((before + now).push(line) =~= before + now.push(line));
    }
}

/// What is added after the entries, and the end of the progress line.
#[verifier::rlimit(80)]
proof fn lemma_additions(state: RewriteModel, change: Change, things: Seq<Thing>, sum: OpSummary)
    requires
        fit_names(additions(change), things),
        state.adder.core.sum == sum,
        ({
            let w = additions(change);
            let start = operation::adding::add_start(
                w.dir,
                w.names,
                w.inner,
                w.how.style,
                w.how.verb,
                sum,
            );
            state.adder == start
        }),
        state.progress.index == state.progress.total,
    ensures
        going_on(at_entry(state, Seq::empty()), names_turns(additions(change), things, 0)) matches Some(
            (last, effects),
        ) && {
            &&& effects == names_effects(additions(change), things, 0).push(
                Effect::EndProgress(state.progress.handle, Message::Rebuild),
            )
            &&& last.stage is Finish
            &&& last.plan == state.plan
            &&& archive_ops::sum_of(last) == counted_on(
                sum,
                names_tally(additions(change), things, 0),
            )
        },
{
    let w = additions(change);
    let turns = names_turns(w, things, 0);
    let line: Effect<Txt> = Effect::EndProgress(state.progress.handle, Message::Rebuild);
    law_everything_is_added(w, things, sum);
    if w.names.len() == 0 {
        assert(turns =~= Seq::<Turn>::empty());
        assert(carried(going_on(at_entry(state, Seq::empty()), turns)) =~= names_effects(
            w,
            things,
            0,
        ).push(line));
        assert(sum == counted_on(sum, tally(0, 0, 0)));
    } else {
        let adding = archive_ops::at(state, RewriteStage::Adding);
        lemma_lifted(adding, turns);
        assert(carried(going_on(at_entry(state, Seq::empty()), turns)) =~= names_effects(
            w,
            things,
            0,
        ).push(line));
    }
}

#[verifier::rlimit(80)]
proof fn lemma_close(
    state: RewriteModel,
    archive: Txt,
    change: Change,
    process: u32,
    sequence: u64,
    sum: OpSummary,
    close: Close,
)
    requires
        state.plan == changing(archive, change, process, sequence).plan,
        state.stage is Finish,
        archive_ops::sum_of(state) == sum,
        !sum.cancelled,
    ensures
        ({
            let tmp = tmp_path(archive, process, sequence);
            let all = final_counts(change, sum, close);
            answered(state, close_turns(archive, tmp, sum, close)) matches Some((last, effects)) && {
                &&& effects == close_effects(archive, tmp, change, sum, close) + last_lines(
                    change,
                    all,
                )
                &&& rewrite_ask(last) == Ask::<Txt>::Ended(all)
            }
        }),
{
    let tmp = tmp_path(archive, process, sequence);
    let turns = close_turns(archive, tmp, sum, close);
    let all = final_counts(change, sum, close);
    if sum.err > 0 || close.unfinished is Some {
        lemma_one(state, turns[0]);
    } else {
        lemma_pair(state, turns[0], turns[1]);
        if close.unplaced is None {
            assert(archive_ops::report_lines(state.plan.report) =~= report(change));
        }
    }
    assert(carried(answered(state, turns)) =~= close_effects(archive, tmp, change, sum, close)
        + last_lines(change, all));
}

/// A change of an archive that nobody stops copies every entry that stays, in the old order and under
/// its new path, adds what is to be added, and puts the new archive in the place of the old one; where
/// anything went wrong, the new archive is removed and the old one stays. It asks these questions and
/// no others, carries out these effects and no others, and ends with these counts.
#[verifier::rlimit(80)]
pub proof fn law_archives_are_changed_as_asked(
    archive: Txt,
    change: Change,
    process: u32,
    sequence: u64,
    handle: ProgressHandle,
    entries: Seq<Seen>,
    things: Seq<Thing>,
    close: Close,
)
    requires
        are_quick(entries),
        entries.len() <= u64::MAX,
        fit_names(additions(change), things),
    ensures
        ({
            let tmp = tmp_path(archive, process, sequence);
            let so_far = counts_so_far(change, entries, things);
            let sum = final_counts(change, so_far, close);
            let end: Effect<Txt> = Effect::EndProgress(handle, Message::Rebuild);
            &&& answered(
                changing(archive, change, process, sequence),
                seq![
                    (Ask::OpenArchive(archive), Reply::Opened(entries.len() as u64)),
                    (Ask::CreateArchive { path: tmp, format: ArchiveFormat::Zip }, Reply::Done),
                    (
                        Ask::BeginProgress(LogLevel::Normal, Message::Rebuild),
                        Reply::Handle(handle),
                    ),
                ] + entries_turns(change, entries, 0) + names_turns(additions(change), things, 0)
                    + close_turns(archive, tmp, so_far, close),
            ) matches Some((last, effects)) && {
                &&& effects == entries_effects(archive, change, entries, 0) + names_effects(
                    additions(change),
                    things,
                    0,
                ) + seq![end] + close_effects(archive, tmp, change, so_far, close) + last_lines(
                    change,
                    sum,
                )
                &&& rewrite_ask(last) == Ask::<Txt>::Ended(sum)
            }
        }),
{
    let tmp = tmp_path(archive, process, sequence);
    let w = additions(change);
    let none = operation::no_results();
    let first = changing(archive, change, process, sequence);
    let a: Turn = (Ask::OpenArchive(archive), Reply::Opened(entries.len() as u64));
    let b: Turn = (Ask::CreateArchive { path: tmp, format: ArchiveFormat::Zip }, Reply::Done);
    let c: Turn = (Ask::BeginProgress(LogLevel::Normal, Message::Rebuild), Reply::Handle(handle));
    let front = seq![a, b, c];
    let mine = entries_turns(change, entries, 0);
    let more = names_turns(w, things, 0);
    let begun = RewriteModel {
        progress: Progress { total: entries.len() as u64, handle, ..first.progress },
        stage: RewriteStage::Begin,
        ..first
    };
    let so_far = counts_so_far(change, entries, things);
    let tail = close_turns(archive, tmp, so_far, close);
    lemma_three(first, a, b, c);
    assert(Seq::<Effect<Txt>>::empty() + Seq::<Effect<Txt>>::empty() + at_entry(
        begun,
        Seq::empty(),
    ).1 =~= at_entry(begun, Seq::empty()).1);
    lemma_entries(begun, archive, change, process, sequence, entries, 0);
    lemma_two(first, front, mine);
    let counted = moved(tallied(begun, entries_tally(change, entries, 0)), entries.len() as int);
    let sum = counted_on(none, entries_tally(change, entries, 0));
    lemma_add_start(w, none, sum);
    lemma_additions(counted, change, things, sum);
    let effects1 = entries_effects(archive, change, entries, 0);
    let out = at_entry(counted, Seq::empty());
    assert(answered(first, front + mine) == Some((out.0, effects1 + out.1)));
    lemma_two(first, front + mine, more);
    let (done, effects2) = going_on(out, more)->0;
    let f = carried(answered(out.0, more));
    assert((effects1 + out.1) + f =~= effects1 + (out.1 + f));
    assert(answered(first, front + mine + more) == Some((done, effects1 + effects2)));
    lemma_close(done, archive, change, process, sequence, so_far, close);
    lemma_two(first, front + mine + more, tail);
    let end: Effect<Txt> = Effect::EndProgress(handle, Message::Rebuild);
    assert(carried(answered(first, front + mine + more + tail)) =~= effects1 + names_effects(
        w,
        things,
        0,
    ) + seq![end] + close_effects(archive, tmp, change, so_far, close) + last_lines(
        change,
        final_counts(change, so_far, close),
    ));
}

/// An addition that starts with other counts differs in its counts alone.
proof fn lemma_add_start(w: Wanted, before: OpSummary, after: OpSummary)
    ensures
        ({
            let a = operation::adding::add_start(
                w.dir,
                w.names,
                w.inner,
                w.how.style,
                w.how.verb,
                before,
            );
            operation::adding::add_start(
                w.dir,
                w.names,
                w.inner,
                w.how.style,
                w.how.verb,
                after,
            ) == (AddModel {
                core: operation::adding::AddCoreModel { sum: after, ..a.core },
                phase: a.phase,
            })
        }),
{
}

/// An archive that cannot be opened, or beside which no new one can be made, stays as it is: that is
/// one error, and nothing is removed.
pub proof fn law_no_archive_no_change(
    archive: Txt,
    change: Change,
    process: u32,
    sequence: u64,
    total: u64,
    why: Txt,
)
    ensures
        ({
            let sum = OpSummary { ok: 0, skip: 0, err: 1, cancelled: false };
            let first = changing(archive, change, process, sequence);
            let opened = rewrite_step(first, Reply::Opened(total)).0;
            let a = rewrite_step(first, Reply::Failed(why));
            let b = rewrite_step(opened, Reply::Failed(why));
            &&& a.1 == seq![trouble(archive, why)] + last_lines(change, sum)
            &&& b.1 == seq![trouble(archive, why)] + last_lines(change, sum)
            &&& rewrite_ask(a.0) == Ask::<Txt>::Ended(sum)
            &&& rewrite_ask(b.0) == Ask::<Txt>::Ended(sum)
        }),
{
    let sum = OpSummary { ok: 0, skip: 0, err: 1, cancelled: false };
    let first = changing(archive, change, process, sequence);
    let opened = rewrite_step(first, Reply::Opened(total)).0;
    assert(rewrite_step(first, Reply::Failed(why)).1 =~= seq![trouble(archive, why)] + last_lines(
        change,
        sum,
    ));
    assert(rewrite_step(opened, Reply::Failed(why)).1 =~= seq![trouble(archive, why)] + last_lines(
        change,
        sum,
    ));
}

/// While an archive is written anew, its line shows how many of its entries are done, the one at hand
/// counted, where that is due; nothing else is carried out for it.
pub proof fn law_rewriting_shows_how_far_it_is(state: RewriteModel, seconds: u64)
    requires
        state.stage is Clock,
        state.progress.index + 1 < state.progress.total,
    ensures
        ({
            let (next, effects) = rewrite_step(state, Reply::Seconds(seconds));
            let p = state.progress;
            &&& rewrite_ask(state) == Ask::<Txt>::Elapsed
            &&& rewrite_ask(next) == Ask::<Txt>::Stop
            &&& next.progress.index == p.index + 1
            &&& effects == (match p.tracker.due(seconds, (p.index + 1) as u64, p.total) {
                Some(pct) => seq![
                    Effect::UpdateProgress(p.handle, Message::<Txt>::RebuildProgress(pct)),
                ],
                None => Seq::empty(),
            })
        }),
{
}

/// A change that is stopped between two entries copies none of the others, closes the new archive and
/// removes it; the old archive stays, and the change is told as stopped.
pub proof fn law_a_stopped_change_leaves_the_archive(state: RewriteModel, reply: Reply<Txt>)
    requires
        state.stage is Poll,
        reply is Done || reply is Failed,
    ensures
        ({
            let (closing, lines) = rewrite_step(state, Reply::Flag(true));
            let (last, effects) = rewrite_step(closing, reply);
            let sum = OpSummary { cancelled: true, ..archive_ops::sum_of(state) };
            &&& lines == seq![
                Effect::EndProgress(state.progress.handle, Message::<Txt>::Rebuild),
            ]
            &&& rewrite_ask(closing) == Ask::<Txt>::Finish
            &&& rewrite_ask(last) == Ask::<Txt>::Ended(sum)
            &&& effects.len() == 3
            &&& effects[0] == Effect::RemoveFile(state.plan.tmp)
            &&& effects[2] == Effect::<Txt>::Log(
                LogLevel::Warning,
                Message::Aborted(state.plan.verb),
            )
        }),
{
    assert(rewrite_step(state, Reply::Flag(true)).1 =~= seq![
        Effect::EndProgress(state.progress.handle, Message::Rebuild),
    ]);
}

} // verus!
