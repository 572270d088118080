//! What a copy or a move comes to, told by what there is to copy.
//!
//! A copy is a conversation: a question, its answer, the next question. Here the whole conversation is
//! told from the tree that is copied: what lies at each source and destination, what the user says of
//! each conflict, and what cannot be done. The law is that a copy asks exactly these questions, carries
//! out exactly what is told here, and ends with exactly these counts.

use crate::operation;
use crate::operation::copy::{
    after_item, copy_ask, copy_start, copy_step, CopyModel, CopyOutcome, CopyPhase, CoreModel,
    DirFrame, Item, PlanModel,
};
use crate::operation::messages::{Message, Verb};
use crate::operation::{
    Ask, ConflictResolution, CopySignal, Effect, ItemFacts, LogLevel, OpSummary, ProgressHandle,
    ProgressTracker, Reply, Txt,
};
use crate::outside;
use crate::text;
use crate::winpath;
use vstd::prelude::*;

verus! {

/// A question and its answer.
pub type Turn = (Ask<Txt>, Reply<Txt>);

/// Where a copy stands after a conversation, and what it carried out on the way; nothing where it did
/// not ask these questions.
pub open spec fn answered(state: CopyModel, turns: Seq<Turn>) -> Option<CopyOutcome>
    decreases turns.len(),
{
    if turns.len() == 0 {
        Some((state, Seq::empty()))
    } else {
        match answered(state, turns.drop_last()) {
            None => None,
            Some((middle, before)) => if copy_ask(middle) == turns.last().0 {
                let (last, now) = copy_step(middle, turns.last().1);
                Some((last, before + now))
            } else {
                None
            },
        }
    }
}

/// How an item was looked at: once, or again after it could not be moved in one go.
pub struct Look {
    pub first: ItemFacts,
    pub again: Option<(Txt, ItemFacts)>,
}

/// How the question ended whether a file is written to a target.
pub enum Leave {
    /// Nothing is there.
    Free,
    /// The user leaves it to the dates.
    Newest { src: Option<i64>, dst: Option<i64> },
    Overwrite,
    OverwriteForce,
    Skip,
    /// The user gives no other name, or the same.
    SameName(Txt),
}

/// How the bytes of a file were moved: what failed, where something did.
pub struct Transfer {
    pub handle: ProgressHandle,
    pub parent: Option<Txt>,
    pub copying: Option<Txt>,
    pub removing: Option<Txt>,
}

/// What lies at a source, and what became of it.
pub enum Thing {
    /// A link; `refused` says why it could not be made again.
    Link { facts: ItemFacts, refused: Option<Txt> },
    /// Something that is moved in one go.
    Moved { facts: ItemFacts },
    /// A file where a directory is, or the other way round.
    Unlike { look: Look },
    /// A file. The user gave the names `renames` in turn.
    File { look: Look, renames: Seq<Txt>, leave: Leave, transfer: Transfer },
    /// A directory that could not be made.
    Unmade { look: Look, why: Txt },
    /// A directory that could not be read.
    Closed { look: Look, why: Txt },
    Dir { look: Look, children: Seq<Child> },
}

/// What a directory hands out.
pub enum Child {
    Unreadable,
    Named { name: Txt, thing: Thing },
}

/// How many items were dealt with, left out, and failed.
pub struct Tally {
    pub ok: nat,
    pub skip: nat,
    pub err: nat,
}

pub open spec fn tally(ok: nat, skip: nat, err: nat) -> Tally {
    Tally { ok, skip, err }
}

/// Two tallies together.
pub open spec fn sum_of(a: Tally, b: Tally) -> Tally {
    tally(a.ok + b.ok, a.skip + b.skip, a.err + b.err)
}

/// A count that stays at the largest number.
pub open spec fn capped(n: nat) -> usize {
    if n <= usize::MAX {
        n as usize
    } else {
        usize::MAX
    }
}

/// The counts after a tally was added.
pub open spec fn counted_on(sum: OpSummary, t: Tally) -> OpSummary {
    OpSummary {
        ok: capped(sum.ok as nat + t.ok),
        skip: capped(sum.skip as nat + t.skip),
        err: capped(sum.err as nat + t.err),
        cancelled: sum.cancelled,
    }
}

/// A copy whose counts went on.
pub open spec fn tallied(core: CoreModel, t: Tally) -> CoreModel {
    CoreModel { sum: counted_on(core.sum, t), ..core }
}

/// What the log calls the work.
pub open spec fn work(move_it: bool) -> Verb {
    if move_it {
        Verb::Move
    } else {
        Verb::Copy
    }
}

/// What counts of the looks at an item.
pub open spec fn seen(look: Look) -> ItemFacts {
    match look.again {
        None => look.first,
        Some((_, facts)) => facts,
    }
}

/// Whether an item was looked at as often as it has to be: again only after an attempt to move it in
/// one go, which is made in a move where nothing is at the destination.
pub open spec fn is_look(look: Look, move_it: bool) -> bool {
    &&& look.first.link is None
    &&& look.again is Some == (move_it && !look.first.dst_exists)
}

pub open spec fn look_turns(src: Txt, dst: Txt, look: Look) -> Seq<Turn> {
    match look.again {
        None => seq![(Ask::Inspect { src, dst }, Reply::Facts(look.first))],
        Some((why, facts)) => seq![
            (Ask::Inspect { src, dst }, Reply::Facts(look.first)),
            (Ask::Rename { src, dst }, Reply::Failed(why)),
            (Ask::Inspect { src, dst }, Reply::Facts(facts)),
        ],
    }
}

/// Done, or why it failed.
pub open spec fn outcome(why: Option<Txt>) -> Reply<Txt> {
    match why {
        None => Reply::Done,
        Some(w) => Reply::Failed(w),
    }
}

/// Whether the file is written in the end.
pub open spec fn is_written(leave: Leave) -> bool {
    match leave {
        Leave::Free | Leave::Overwrite | Leave::OverwriteForce => true,
        Leave::Newest { src: Some(a), dst: Some(b) } => b < a,
        Leave::Newest { .. } => true,
        Leave::Skip | Leave::SameName(_) => false,
    }
}

/// The target once the user gave all names.
pub open spec fn final_target(target: Txt, renames: Seq<Txt>) -> Txt
    decreases renames.len(),
{
    if renames.len() == 0 {
        target
    } else {
        final_target(winpath::path_with_file_name(target, renames[0]), renames.drop_first())
    }
}

/// Whether the names are other names, and the last answer gives none.
pub open spec fn are_other_names(target: Txt, renames: Seq<Txt>, leave: Leave) -> bool
    decreases renames.len(),
{
    if renames.len() == 0 {
        leave matches Leave::SameName(new) ==> new.len() == 0 || new
            == winpath::path_display_name(target)
    } else {
        &&& renames[0].len() > 0
        &&& renames[0] != winpath::path_display_name(target)
        &&& are_other_names(
            winpath::path_with_file_name(target, renames[0]),
            renames.drop_first(),
            leave,
        )
    }
}

/// The question whether a file is written to `target`.
pub open spec fn leave_turns(src: Txt, target: Txt, leave: Leave) -> Seq<Turn> {
    let ask = Ask::Conflict(winpath::path_display_name(target));
    let there = (Ask::Exists(target), Reply::Flag(true));
    match leave {
        Leave::Free => seq![(Ask::Exists(target), Reply::Flag(false))],
        Leave::Newest { src: a, dst: b } => seq![
            there,
            (ask, Reply::Choice(ConflictResolution::Newest)),
            (Ask::Times { src, dst: target }, Reply::Times(a, b)),
        ],
        Leave::Overwrite => seq![there, (ask, Reply::Choice(ConflictResolution::Overwrite))],
        Leave::OverwriteForce => seq![
            there,
            (ask, Reply::Choice(ConflictResolution::OverwriteForce)),
        ],
        Leave::Skip => seq![there, (ask, Reply::Choice(ConflictResolution::Skip))],
        Leave::SameName(new) => seq![there, (ask, Reply::Choice(ConflictResolution::Rename(new)))],
    }
}

/// The moving of the bytes of a file.
pub open spec fn transfer_turns(
    src: Txt,
    target: Txt,
    name: Txt,
    move_it: bool,
    t: Transfer,
) -> Seq<Turn> {
    let begin = (
        Ask::BeginProgress(LogLevel::Normal, Message::Item(work(move_it), name)),
        Reply::Handle(t.handle),
    );
    let parent = (Ask::CreateParent(target), outcome(t.parent));
    let copy = (
        Ask::CopyFile { src, dst: target, signal: CopySignal::Start },
        outcome(t.copying),
    );
    let removal = (Ask::RemoveFile(src), outcome(t.removing));
    if t.parent is Some {
        seq![begin, parent]
    } else if t.copying is Some || !move_it {
        seq![begin, parent, copy]
    } else {
        seq![begin, parent, copy, removal]
    }
}

/// Why a file was not copied or moved, where it was not.
pub open spec fn failure(move_it: bool, t: Transfer) -> Option<Txt> {
    if t.parent is Some {
        t.parent
    } else if t.copying is Some || !move_it {
        t.copying
    } else {
        t.removing
    }
}

/// The whole conversation about a file, from the question whether its target is there.
pub open spec fn file_turns(
    src: Txt,
    target: Txt,
    name: Txt,
    move_it: bool,
    renames: Seq<Txt>,
    leave: Leave,
    t: Transfer,
) -> Seq<Turn>
    decreases renames.len(),
{
    if renames.len() > 0 {
        seq![
            (Ask::Exists(target), Reply::Flag(true)),
            (
                Ask::Conflict(winpath::path_display_name(target)),
                Reply::Choice(ConflictResolution::Rename(renames[0])),
            ),
        ] + file_turns(
            src,
            winpath::path_with_file_name(target, renames[0]),
            name,
            move_it,
            renames.drop_first(),
            leave,
            t,
        )
    } else if is_written(leave) {
        leave_turns(src, target, leave) + transfer_turns(src, target, name, move_it, t)
    } else {
        leave_turns(src, target, leave)
    }
}

/// What is carried out for a file whose last target is `target`.
pub open spec fn file_effects(
    target: Txt,
    name: Txt,
    move_it: bool,
    leave: Leave,
    t: Transfer,
) -> Seq<Effect<Txt>> {
    if !is_written(leave) {
        seq![Effect::Log(LogLevel::Warning, Message::Skip(name))]
    } else {
        (if leave is OverwriteForce {
            seq![Effect::ClearAttributes(target)]
        } else {
            Seq::empty()
        }) + seq![Effect::UpdateProgress(t.handle, Message::Item(work(move_it), name))] + (
        match failure(move_it, t) {
            None => Seq::empty(),
            Some(why) => seq![
                Effect::Log(LogLevel::Error, Message::Failure(work(move_it), name, why)),
            ],
        })
    }
}

/// What a file counts.
pub open spec fn file_tally(move_it: bool, leave: Leave, t: Transfer) -> Tally {
    if !is_written(leave) {
        tally(0, 1, 0)
    } else if failure(move_it, t) is Some {
        tally(0, 0, 1)
    } else {
        tally(1, 0, 0)
    }
}

/// Whether this can lie there, and can have become of it.
pub open spec fn makes_sense(dst: Txt, move_it: bool, thing: Thing) -> bool
    decreases thing, 0int,
{
    match thing {
        Thing::Link { facts, .. } => facts.link is Some,
        Thing::Moved { facts } => move_it && facts.link is None && !facts.dst_exists,
        Thing::Unlike { look } => is_look(look, move_it) && seen(look).dst_exists && seen(
            look,
        ).src_is_dir != seen(look).dst_is_dir,
        Thing::File { look, renames, leave, .. } => is_look(look, move_it) && !seen(look).src_is_dir
            && (seen(look).dst_exists ==> !seen(look).dst_is_dir) && are_other_names(
            dst,
            renames,
            leave,
        ),
        Thing::Unmade { look, .. } => is_look(look, move_it) && seen(look).src_is_dir && !seen(
            look,
        ).dst_exists,
        Thing::Closed { look, .. } => is_look(look, move_it) && seen(look).src_is_dir && (seen(
            look,
        ).dst_exists ==> seen(look).dst_is_dir),
        Thing::Dir { look, children } => is_look(look, move_it) && seen(look).src_is_dir && (seen(
            look,
        ).dst_exists ==> seen(look).dst_is_dir) && all_make_sense(dst, move_it, children, 0),
    }
}

pub open spec fn all_make_sense(dst: Txt, move_it: bool, children: Seq<Child>, from: int) -> bool
    decreases children, children.len() - from,
{
    if 0 <= from < children.len() {
        (match children[from] {
            Child::Unreadable => true,
            Child::Named { name, thing } => makes_sense(
                winpath::path_join(dst, name),
                move_it,
                thing,
            ),
        }) && all_make_sense(dst, move_it, children, from + 1)
    } else {
        true
    }
}

/// The start of the conversation about a directory: where nothing is at the destination, it is made.
pub open spec fn dir_turns(dst: Txt, look: Look) -> Seq<Turn> {
    if seen(look).dst_exists {
        Seq::empty()
    } else {
        seq![(Ask::CreateDir(dst), Reply::Done)]
    }
}

/// The conversation about what lies at `src` and goes to `dst`.
pub open spec fn thing_turns(src: Txt, dst: Txt, move_it: bool, thing: Thing) -> Seq<Turn>
    decreases thing, 0int,
{
    let name = winpath::path_display_name(src);
    match thing {
        Thing::Link { facts, refused } => if facts.dst_exists {
            seq![(Ask::Inspect { src, dst }, Reply::Facts(facts))]
        } else {
            seq![
                (Ask::Inspect { src, dst }, Reply::Facts(facts)),
                (Ask::MakeLink { src, dst, is_dir: facts.link->0 }, outcome(refused)),
            ]
        },
        Thing::Moved { facts } => seq![
            (Ask::Inspect { src, dst }, Reply::Facts(facts)),
            (Ask::Rename { src, dst }, Reply::Done),
        ],
        Thing::Unlike { look } => look_turns(src, dst, look),
        Thing::File { look, renames, leave, transfer } => look_turns(src, dst, look) + file_turns(
            src,
            dst,
            name,
            move_it,
            renames,
            leave,
            transfer,
        ),
        Thing::Unmade { look, why } => look_turns(src, dst, look) + seq![
            (Ask::CreateDir(dst), Reply::Failed(why)),
        ],
        Thing::Closed { look, why } => look_turns(src, dst, look) + dir_turns(dst, look) + seq![
            (Ask::OpenDir(src), Reply::Failed(why)),
        ],
        Thing::Dir { look, children } => look_turns(src, dst, look) + dir_turns(dst, look) + seq![
            (Ask::OpenDir(src), Reply::Done),
        ] + child_turns(src, dst, move_it, children, 0) + seq![(Ask::NextEntry(src), Reply::End)],
    }
}

/// The conversation about what a directory hands out, from one place on: each entry goes under its
/// name from the one directory to the other.
pub open spec fn child_turns(
    src: Txt,
    dst: Txt,
    move_it: bool,
    children: Seq<Child>,
    from: int,
) -> Seq<Turn>
    decreases children, children.len() - from,
{
    if 0 <= from < children.len() {
        (match children[from] {
            Child::Unreadable => seq![
                (Ask::NextEntry(src), Reply::Unreadable),
                (Ask::Stop, Reply::Flag(false)),
            ],
            Child::Named { name, thing } => seq![
                (Ask::NextEntry(src), Reply::Entry(name)),
                (Ask::Stop, Reply::Flag(false)),
            ] + thing_turns(
                winpath::path_join(src, name),
                winpath::path_join(dst, name),
                move_it,
                thing,
            ),
        }) + child_turns(src, dst, move_it, children, from + 1)
    } else {
        Seq::empty()
    }
}

/// What is said of a directory before it is read: that it is there already, or that it was made.
pub open spec fn dir_line(name: Txt, look: Look) -> Effect<Txt> {
    if seen(look).dst_exists {
        Effect::Log(LogLevel::Warning, Message::AlreadyExists(name))
    } else {
        Effect::Log(LogLevel::Normal, Message::CreateDirectory(name))
    }
}

pub open spec fn dir_tally(look: Look) -> Tally {
    if seen(look).dst_exists {
        tally(0, 1, 0)
    } else {
        tally(1, 0, 0)
    }
}

/// What is done with a directory after all that was in it: one that was made gets the dates of its
/// source, and a move removes the source.
pub open spec fn dir_close(src: Txt, dst: Txt, move_it: bool, look: Look) -> Seq<Effect<Txt>> {
    (if seen(look).dst_exists {
        Seq::empty()
    } else {
        seq![Effect::ApplyDirMetadata { src, dst }]
    }) + (if move_it {
        seq![Effect::RemoveDir(src)]
    } else {
        Seq::empty()
    })
}

/// What is carried out for what lies at `src` and goes to `dst`.
pub open spec fn thing_effects(src: Txt, dst: Txt, move_it: bool, thing: Thing) -> Seq<Effect<Txt>>
    decreases thing, 0int,
{
    let name = winpath::path_display_name(src);
    match thing {
        Thing::Link { facts, refused } => if facts.dst_exists {
            seq![Effect::Log(LogLevel::Warning, Message::AlreadyExists(name))]
        } else if refused is Some {
            seq![Effect::Log(LogLevel::Warning, Message::SkipLink(work(move_it), name))]
        } else if move_it {
            seq![
                Effect::Log(LogLevel::Normal, Message::Item(Verb::Move, name)),
                Effect::RemoveLink { path: src, is_dir: facts.link->0 },
            ]
        } else {
            seq![Effect::Log(LogLevel::Normal, Message::Item(Verb::Copy, name))]
        },
        Thing::Moved { .. } => seq![Effect::Log(LogLevel::Normal, Message::Item(Verb::Move, name))],
        Thing::Unlike { .. } => seq![
            Effect::Log(LogLevel::Warning, Message::KindMismatch(work(move_it), name)),
        ],
        Thing::File { renames, leave, transfer, .. } => file_effects(
            final_target(dst, renames),
            name,
            move_it,
            leave,
            transfer,
        ),
        Thing::Unmade { why, .. } => seq![
            Effect::Log(LogLevel::Error, Message::CreateDirectoryFailure(name, why)),
        ],
        Thing::Closed { look, why } => seq![
            dir_line(name, look),
            Effect::Log(LogLevel::Error, Message::Failure(Verb::Copy, name, why)),
        ],
        Thing::Dir { look, children } => seq![dir_line(name, look)] + child_effects(
            src,
            dst,
            move_it,
            children,
            0,
        ) + dir_close(src, dst, move_it, look),
    }
}

pub open spec fn child_effects(
    src: Txt,
    dst: Txt,
    move_it: bool,
    children: Seq<Child>,
    from: int,
) -> Seq<Effect<Txt>>
    decreases children, children.len() - from,
{
    if 0 <= from < children.len() {
        (match children[from] {
            Child::Unreadable => Seq::empty(),
            Child::Named { name, thing } => thing_effects(
                winpath::path_join(src, name),
                winpath::path_join(dst, name),
                move_it,
                thing,
            ),
        }) + child_effects(src, dst, move_it, children, from + 1)
    } else {
        Seq::empty()
    }
}

/// What lies at a source counts.
pub open spec fn thing_tally(move_it: bool, thing: Thing) -> Tally
    decreases thing, 0int,
{
    match thing {
        Thing::Link { facts, refused } => if facts.dst_exists || refused is Some {
            tally(0, 1, 0)
        } else {
            tally(1, 0, 0)
        },
        Thing::Moved { .. } => tally(1, 0, 0),
        Thing::Unlike { .. } => tally(0, 1, 0),
        Thing::File { leave, transfer, .. } => file_tally(move_it, leave, transfer),
        Thing::Unmade { .. } => tally(0, 0, 1),
        Thing::Closed { look, .. } => sum_of(dir_tally(look), tally(0, 0, 1)),
        Thing::Dir { look, children } => sum_of(dir_tally(look), child_tally(move_it, children, 0)),
    }
}

pub open spec fn child_tally(move_it: bool, children: Seq<Child>, from: int) -> Tally
    decreases children, children.len() - from,
{
    if 0 <= from < children.len() {
        sum_of(
            match children[from] {
                Child::Unreadable => tally(0, 0, 0),
                Child::Named { thing, .. } => thing_tally(move_it, thing),
            },
            child_tally(move_it, children, from + 1),
        )
    } else {
        tally(0, 0, 0)
    }
}

/// The outcome of a conversation that goes on after `out`.
spec fn going_on(out: CopyOutcome, turns: Seq<Turn>) -> Option<CopyOutcome> {
    match answered(out.0, turns) {
        None => None,
        Some((last, effects)) => Some((last, out.1 + effects)),
    }
}

proof fn lemma_two(state: CopyModel, a: Seq<Turn>, b: Seq<Turn>)
    ensures
        answered(state, a) is None ==> answered(state, a + b) is None,
        answered(state, a) matches Some(out) ==> answered(state, a + b) == going_on(out, b),
    decreases b.len(),
{
    if b.len() == 0 {
        assert(a + b =~= a);
        if let Some(out) = answered(state, a) {
            assert(out.1 + Seq::<Effect<Txt>>::empty() =~= out.1);
        }
    } else {
        lemma_two(state, a, b.drop_last());
        assert((a + b).drop_last() =~= a + b.drop_last());
        if let Some(out) = answered(state, a) {
            if let Some((middle, before)) = answered(out.0, b.drop_last()) {
                let now = copy_step(middle, b.last().1).1;
                assert(out.1 + (before + now) =~= (out.1 + before) + now);
            }
        }
    }
}

proof fn lemma_one(state: CopyModel, turn: Turn)
    requires
        copy_ask(state) == turn.0,
    ensures
        answered(state, seq![turn]) == Some(copy_step(state, turn.1)),
{
    assert(seq![turn].drop_last() =~= Seq::<Turn>::empty());
    assert(answered(state, Seq::<Turn>::empty()) == Some((state, Seq::<Effect<Txt>>::empty())));
    assert(Seq::<Effect<Txt>>::empty() + copy_step(state, turn.1).1 =~= copy_step(state, turn.1).1);
}

proof fn lemma_pair(state: CopyModel, a: Turn, b: Turn)
    requires
        copy_ask(state) == a.0,
        copy_ask(copy_step(state, a.1).0) == b.0,
    ensures
        ({
            let one = copy_step(state, a.1);
            let two = copy_step(one.0, b.1);
            answered(state, seq![a, b]) == Some((two.0, one.1 + two.1))
        }),
{
    lemma_one(state, a);
    lemma_one(copy_step(state, a.1).0, b);
    lemma_two(state, seq![a], seq![b]);
    assert(seq![a, b] =~= seq![a] + seq![b]);
}

proof fn lemma_three(state: CopyModel, a: Turn, b: Turn, c: Turn)
    requires
        copy_ask(state) == a.0,
        copy_ask(copy_step(state, a.1).0) == b.0,
        copy_ask(copy_step(copy_step(state, a.1).0, b.1).0) == c.0,
    ensures
        ({
            let one = copy_step(state, a.1);
            let two = copy_step(one.0, b.1);
            let three = copy_step(two.0, c.1);
            answered(state, seq![a, b, c]) == Some((three.0, one.1 + two.1 + three.1))
        }),
{
    lemma_pair(state, a, b);
    lemma_one(copy_step(copy_step(state, a.1).0, b.1).0, c);
    lemma_two(state, seq![a, b], seq![c]);
    assert(seq![a, b, c] =~= seq![a, b] + seq![c]);
}

proof fn lemma_four(state: CopyModel, a: Turn, b: Turn, c: Turn, d: Turn)
    requires
        copy_ask(state) == a.0,
        copy_ask(copy_step(state, a.1).0) == b.0,
        copy_ask(copy_step(copy_step(state, a.1).0, b.1).0) == c.0,
        copy_ask(copy_step(copy_step(copy_step(state, a.1).0, b.1).0, c.1).0) == d.0,
    ensures
        ({
            let one = copy_step(state, a.1);
            let two = copy_step(one.0, b.1);
            let three = copy_step(two.0, c.1);
            let four = copy_step(three.0, d.1);
            answered(state, seq![a, b, c, d]) == Some(
                (four.0, one.1 + two.1 + three.1 + four.1),
            )
        }),
{
    lemma_three(state, a, b, c);
    lemma_one(copy_step(copy_step(copy_step(state, a.1).0, b.1).0, c.1).0, d);
    lemma_two(state, seq![a, b, c], seq![d]);
    assert(seq![a, b, c, d] =~= seq![a, b, c] + seq![d]);
}

/// The state that waits for `phase`.
spec fn at(core: CoreModel, phase: CopyPhase<Txt>) -> CopyModel {
    CopyModel { core, phase }
}

/// An item is done, with its counts and effects.
spec fn done_with(core: CoreModel, t: Tally, effects: Seq<Effect<Txt>>) -> Option<CopyOutcome> {
    let next = after_item(tallied(core, t));
    Some((next.0, effects + next.1))
}

/// What a conversation carried out.
spec fn carried(out: Option<CopyOutcome>) -> Seq<Effect<Txt>> {
    match out {
        Some((_, effects)) => effects,
        None => Seq::empty(),
    }
}

proof fn lemma_one_more(core: CoreModel)
    ensures
        tallied(core, tally(1, 0, 0)) == (CoreModel { sum: core.sum.plus_ok(), ..core }),
        tallied(core, tally(0, 1, 0)) == (CoreModel { sum: core.sum.plus_skip(), ..core }),
        tallied(core, tally(0, 0, 1)) == (CoreModel { sum: core.sum.plus_err(), ..core }),
        tallied(core, tally(0, 0, 0)) == core,
{
}

proof fn lemma_tallies_add(core: CoreModel, a: Tally, b: Tally)
    ensures
        tallied(tallied(core, a), b) == tallied(core, sum_of(a, b)),
{
}

#[verifier::rlimit(40)]
proof fn lemma_transfer(core: CoreModel, item: Item<Txt>, target: Txt, t: Transfer)
    ensures
        answered(
            at(core, CopyPhase::Begin { item, target }),
            transfer_turns(item.src, target, item.name, core.plan.move_it, t),
        ) == done_with(
            core,
            file_tally(core.plan.move_it, Leave::Free, t),
            file_effects(target, item.name, core.plan.move_it, Leave::Free, t),
        ),
{
    let move_it = core.plan.move_it;
    let state = at(core, CopyPhase::Begin { item, target });
    let begin = (
        Ask::BeginProgress(LogLevel::Normal, Message::Item(work(move_it), item.name)),
        Reply::Handle(t.handle),
    );
    let parent = (Ask::CreateParent(target), outcome(t.parent));
    let copy = (
        Ask::CopyFile { src: item.src, dst: target, signal: CopySignal::Start },
        outcome(t.copying),
    );
    let removal = (Ask::RemoveFile(item.src), outcome(t.removing));
    lemma_one_more(core);
    if t.parent is Some {
        lemma_pair(state, begin, parent);
    } else if t.copying is Some || !move_it {
        lemma_three(state, begin, parent, copy);
    } else {
        lemma_four(state, begin, parent, copy, removal);
    }
    let got = answered(state, transfer_turns(item.src, target, item.name, move_it, t));
    let due = done_with(
        core,
        file_tally(move_it, Leave::Free, t),
        file_effects(target, item.name, move_it, Leave::Free, t),
    );
    assert(carried(got) =~= carried(due));
}

#[verifier::rlimit(40)]
proof fn lemma_leave(core: CoreModel, item: Item<Txt>, target: Txt, leave: Leave, t: Transfer)
    requires
        are_other_names(target, Seq::empty(), leave),
    ensures
        answered(
            at(core, CopyPhase::Target { item, target }),
            file_turns(item.src, target, item.name, core.plan.move_it, Seq::empty(), leave, t),
        ) == done_with(
            core,
            file_tally(core.plan.move_it, leave, t),
            file_effects(target, item.name, core.plan.move_it, leave, t),
        ),
{
    let move_it = core.plan.move_it;
    let state = at(core, CopyPhase::Target { item, target });
    let turns = leave_turns(item.src, target, leave);
    let there: Turn = (Ask::Exists(target), Reply::Flag(true));
    lemma_one_more(core);
    match leave {
        Leave::Free => {
            lemma_one(state, turns[0]);
        },
        Leave::Newest { .. } => {
            lemma_three(state, turns[0], turns[1], turns[2]);
        },
        _ => {
            lemma_pair(state, turns[0], turns[1]);
        },
    }
    let due = done_with(
        core,
        file_tally(move_it, leave, t),
        file_effects(target, item.name, move_it, leave, t),
    );
    if is_written(leave) {
        let out = answered(state, turns)->0;
        assert(out.0 == at(core, CopyPhase::Begin { item, target }));
        lemma_transfer(core, item, target, t);
        lemma_two(state, turns, transfer_turns(item.src, target, item.name, move_it, t));
        let got = answered(
            state,
            file_turns(item.src, target, item.name, move_it, Seq::empty(), leave, t),
        );
        assert(carried(got) =~= carried(due));
    } else {
        assert(carried(answered(state, turns)) =~= carried(due));
    }
}

#[verifier::rlimit(40)]
proof fn lemma_file(
    core: CoreModel,
    item: Item<Txt>,
    target: Txt,
    renames: Seq<Txt>,
    leave: Leave,
    t: Transfer,
)
    requires
        are_other_names(target, renames, leave),
    ensures
        answered(
            at(core, CopyPhase::Target { item, target }),
            file_turns(item.src, target, item.name, core.plan.move_it, renames, leave, t),
        ) == done_with(
            core,
            file_tally(core.plan.move_it, leave, t),
            file_effects(
                final_target(target, renames),
                item.name,
                core.plan.move_it,
                leave,
                t,
            ),
        ),
    decreases renames.len(),
{
    if renames.len() == 0 {
        assert(renames =~= Seq::<Txt>::empty());
        lemma_leave(core, item, target, leave, t);
    } else {
        let state = at(core, CopyPhase::Target { item, target });
        let next = winpath::path_with_file_name(target, renames[0]);
        let a: Turn = (Ask::Exists(target), Reply::Flag(true));
        let b: Turn = (
            Ask::Conflict(winpath::path_display_name(target)),
            Reply::Choice(ConflictResolution::Rename(renames[0])),
        );
        lemma_pair(state, a, b);
        lemma_file(core, item, next, renames.drop_first(), leave, t);
        let rest = file_turns(
            item.src,
            next,
            item.name,
            core.plan.move_it,
            renames.drop_first(),
            leave,
            t,
        );
        lemma_two(state, seq![a, b], rest);
        let due = done_with(
            core,
            file_tally(core.plan.move_it, leave, t),
            file_effects(
                final_target(target, renames),
                item.name,
                core.plan.move_it,
                leave,
                t,
            ),
        );
        assert(carried(answered(state, seq![a, b] + rest)) =~= carried(due));
    }
}

/// A look leads to what the facts that count lead to.
proof fn lemma_look(core: CoreModel, item: Item<Txt>, look: Look)
    requires
        is_look(look, core.plan.move_it),
    ensures
        answered(at(core, CopyPhase::Inspect { item }), look_turns(item.src, item.dst, look)) == Some(
            copy_step(
                at(core, CopyPhase::Reinspect { item }),
                Reply::Facts(seen(look)),
            ),
        ),
{
    let state = at(core, CopyPhase::Inspect { item });
    let turns = look_turns(item.src, item.dst, look);
    let due = copy_step(at(core, CopyPhase::Reinspect { item }), Reply::Facts(seen(look)));
    match look.again {
        None => {
            lemma_one(state, turns[0]);
        },
        Some(_) => {
            lemma_three(state, turns[0], turns[1], turns[2]);
            assert(carried(answered(state, turns)) =~= due.1);
        },
    }
}

#[verifier::rlimit(60)]
proof fn lemma_simple_thing(core: CoreModel, item: Item<Txt>, thing: Thing)
    requires
        makes_sense(item.dst, core.plan.move_it, thing),
        item.name == winpath::path_display_name(item.src),
        thing is Link || thing is Moved || thing is Unlike || thing is File || thing is Unmade,
    ensures
        answered(
            at(core, CopyPhase::Inspect { item }),
            thing_turns(item.src, item.dst, core.plan.move_it, thing),
        ) == done_with(
            core,
            thing_tally(core.plan.move_it, thing),
            thing_effects(item.src, item.dst, core.plan.move_it, thing),
        ),
{
    let move_it = core.plan.move_it;
    let state = at(core, CopyPhase::Inspect { item });
    let turns = thing_turns(item.src, item.dst, move_it, thing);
    let due = done_with(
        core,
        thing_tally(move_it, thing),
        thing_effects(item.src, item.dst, move_it, thing),
    );
    lemma_one_more(core);
    match thing {
        Thing::Link { facts, .. } => {
            if facts.dst_exists {
                lemma_one(state, turns[0]);
            } else {
                lemma_pair(state, turns[0], turns[1]);
            }
        },
        Thing::Moved { .. } => {
            lemma_pair(state, turns[0], turns[1]);
        },
        Thing::Unlike { look } => {
            lemma_look(core, item, look);
        },
        Thing::File { look, renames, leave, transfer } => {
            lemma_look(core, item, look);
            lemma_file(core, item, item.dst, renames, leave, transfer);
            let rest = file_turns(
                item.src,
                item.dst,
                item.name,
                move_it,
                renames,
                leave,
                transfer,
            );
            lemma_two(state, look_turns(item.src, item.dst, look), rest);
        },
        Thing::Unmade { look, why } => {
            lemma_look(core, item, look);
            let turn: Turn = (Ask::CreateDir(item.dst), Reply::Failed(why));
            lemma_one(at(core, CopyPhase::MakeDir { item }), turn);
            lemma_two(state, look_turns(item.src, item.dst, look), seq![turn]);
        },
        _ => {},
    }
    assert(carried(answered(state, turns)) =~= carried(due));
}

/// A directory is looked at, and made where it is not there, before it is opened.
#[verifier::rlimit(60)]
proof fn lemma_dir_start(core: CoreModel, item: Item<Txt>, look: Look)
    requires
        is_look(look, core.plan.move_it),
        seen(look).src_is_dir,
        seen(look).dst_exists ==> seen(look).dst_is_dir,
    ensures
        answered(
            at(core, CopyPhase::Inspect { item }),
            look_turns(item.src, item.dst, look) + dir_turns(item.dst, look),
        ) == Some(
            (
                at(
                    tallied(core, dir_tally(look)),
                    CopyPhase::OpenDir { item, created: !seen(look).dst_exists },
                ),
                seq![dir_line(item.name, look)],
            ),
        ),
{
    let state = at(core, CopyPhase::Inspect { item });
    let first = look_turns(item.src, item.dst, look);
    lemma_one_more(core);
    lemma_look(core, item, look);
    lemma_two(state, first, dir_turns(item.dst, look));
    if seen(look).dst_exists {
        assert(first + dir_turns(item.dst, look) =~= first);
    } else {
        let turn: Turn = (Ask::CreateDir(item.dst), Reply::Done);
        lemma_one(at(core, CopyPhase::MakeDir { item }), turn);
    }
    assert(carried(answered(state, first + dir_turns(item.dst, look))) =~= seq![
        dir_line(item.name, look),
    ]);
}

#[verifier::rlimit(60)]
proof fn lemma_thing(core: CoreModel, item: Item<Txt>, thing: Thing)
    requires
        makes_sense(item.dst, core.plan.move_it, thing),
        item.name == winpath::path_display_name(item.src),
    ensures
        answered(
            at(core, CopyPhase::Inspect { item }),
            thing_turns(item.src, item.dst, core.plan.move_it, thing),
        ) == done_with(
            core,
            thing_tally(core.plan.move_it, thing),
            thing_effects(item.src, item.dst, core.plan.move_it, thing),
        ),
    decreases thing, 0int,
{
    let move_it = core.plan.move_it;
    let state = at(core, CopyPhase::Inspect { item });
    let turns = thing_turns(item.src, item.dst, move_it, thing);
    let due = done_with(
        core,
        thing_tally(move_it, thing),
        thing_effects(item.src, item.dst, move_it, thing),
    );
    match thing {
        Thing::Closed { look, why } => {
            let first = look_turns(item.src, item.dst, look) + dir_turns(item.dst, look);
            let counted = tallied(core, dir_tally(look));
            lemma_dir_start(core, item, look);
            lemma_tallies_add(core, dir_tally(look), tally(0, 0, 1));
            lemma_one_more(counted);
            let turn: Turn = (Ask::OpenDir(item.src), Reply::Failed(why));
            lemma_one(
                at(counted, CopyPhase::OpenDir { item, created: !seen(look).dst_exists }),
                turn,
            );
            lemma_two(state, first, seq![turn]);
            assert(carried(answered(state, turns)) =~= carried(due));
        },
        Thing::Dir { look, children } => {
            let created = !seen(look).dst_exists;
            let first = look_turns(item.src, item.dst, look) + dir_turns(item.dst, look);
            let counted = tallied(core, dir_tally(look));
            let frame = DirFrame { src: item.src, dst: item.dst, created };
            let inside = CoreModel { frames: counted.frames.push(frame), ..counted };
            let open: Turn = (Ask::OpenDir(item.src), Reply::Done);
            let inner = child_turns(item.src, item.dst, move_it, children, 0);
            let close: Turn = (Ask::NextEntry(item.src), Reply::End);
            let t = child_tally(move_it, children, 0);
            lemma_dir_start(core, item, look);
            lemma_one(at(counted, CopyPhase::OpenDir { item, created }), open);
            lemma_two(state, first, seq![open]);
            lemma_children(inside, children, 0);
            lemma_two(state, first + seq![open], inner);
            let left = at(tallied(inside, t), CopyPhase::NextEntry);
            lemma_one(left, close);
            lemma_two(state, first + seq![open] + inner, seq![close]);
            lemma_tallies_add(core, dir_tally(look), t);
            assert(tallied(inside, t).frames.drop_last() =~= core.frames);
            assert((CoreModel { frames: core.frames, ..tallied(inside, t) }) == tallied(
                core,
                thing_tally(move_it, thing),
            ));
            assert(carried(answered(state, turns)) =~= carried(due));
        },
        _ => {
            lemma_simple_thing(core, item, thing);
        },
    }
}

#[verifier::rlimit(60)]
proof fn lemma_children(core: CoreModel, children: Seq<Child>, from: int)
    requires
        core.frames.len() > 0,
        0 <= from <= children.len(),
        all_make_sense(core.frames.last().dst, core.plan.move_it, children, from),
    ensures
        answered(
            at(core, CopyPhase::NextEntry),
            child_turns(
                core.frames.last().src,
                core.frames.last().dst,
                core.plan.move_it,
                children,
                from,
            ),
        ) == Some(
            (
                at(
                    tallied(core, child_tally(core.plan.move_it, children, from)),
                    CopyPhase::NextEntry,
                ),
                child_effects(
                    core.frames.last().src,
                    core.frames.last().dst,
                    core.plan.move_it,
                    children,
                    from,
                ),
            ),
        ),
    decreases children, children.len() - from,
{
    let move_it = core.plan.move_it;
    let src = core.frames.last().src;
    let dst = core.frames.last().dst;
    let state = at(core, CopyPhase::NextEntry);
    if from < children.len() {
        let rest = child_turns(src, dst, move_it, children, from + 1);
        match children[from] {
            Child::Unreadable => {
                let a: Turn = (Ask::NextEntry(src), Reply::Unreadable);
                let b: Turn = (Ask::Stop, Reply::Flag(false));
                lemma_pair(state, a, b);
                lemma_children(core, children, from + 1);
                lemma_two(state, seq![a, b], rest);
            },
            Child::Named { name, thing } => {
                let a: Turn = (Ask::NextEntry(src), Reply::Entry(name));
                let b: Turn = (Ask::Stop, Reply::Flag(false));
                let path = winpath::path_join(src, name);
                let item = Item {
                    src: path,
                    dst: winpath::path_join(dst, name),
                    name: winpath::path_display_name(path),
                };
                let t = thing_tally(move_it, thing);
                lemma_pair(state, a, b);
                lemma_thing(core, item, thing);
                lemma_two(state, seq![a, b], thing_turns(item.src, item.dst, move_it, thing));
                lemma_children(tallied(core, t), children, from + 1);
                lemma_tallies_add(core, t, child_tally(move_it, children, from + 1));
                lemma_two(
                    state,
                    seq![a, b] + thing_turns(item.src, item.dst, move_it, thing),
                    rest,
                );
            },
        }
        assert(carried(answered(state, child_turns(src, dst, move_it, children, from)))
            =~= child_effects(src, dst, move_it, children, from));
    }
}

/// What one of the names of a copy comes to.
pub enum Named {
    /// The source is its own destination.
    Itself { src: Option<Txt>, dst: Option<Txt>, src_is_dir: bool },
    /// A directory, and its destination lies in it.
    Within { src: Txt, dst: Txt },
    Apart { src: Option<Txt>, dst: Option<Txt>, src_is_dir: bool, thing: Thing },
}

/// The form in which paths are compared: without case, with one kind of separator, and with none at
/// the end.
pub open spec fn key_of(path: Txt) -> Txt {
    outside::lowercase_text(text::trimmed_end(text::replaced(path, '/', '\\'), '\\'))
}

/// Whether two paths are the same place.
pub open spec fn are_same(src_path: Txt, dst_path: Txt, src: Option<Txt>, dst: Option<Txt>) -> bool {
    if src is Some && dst is Some {
        key_of(src->0) == key_of(dst->0)
    } else {
        winpath::is_same_path(src_path, dst_path)
    }
}

/// Whether the second path lies below the first.
pub open spec fn is_below(src: Txt, dst: Txt) -> bool {
    exists|rest: Txt| key_of(dst) == #[trigger] (key_of(src).push('\\') + rest)
}

/// Whether a name of a copy from `src_dir` to `dst_dir` can come to this.
pub open spec fn name_makes_sense(plan: PlanModel, name: Txt, named: Named) -> bool {
    let src_path = winpath::path_join(plan.src_dir, name);
    let dst_path = winpath::path_join(plan.dst_dir, name);
    match named {
        Named::Itself { src, dst, .. } => are_same(src_path, dst_path, src, dst),
        Named::Within { src, dst } => !are_same(src_path, dst_path, Some(src), Some(dst))
            && is_below(src, dst),
        Named::Apart { src, dst, src_is_dir, thing } => {
            &&& !are_same(src_path, dst_path, src, dst)
            &&& src_is_dir && src is Some && dst is Some ==> !is_below(src->0, dst->0)
            &&& makes_sense(dst_path, plan.move_it, thing)
        },
    }
}

/// The conversation about a name.
pub open spec fn name_turns(plan: PlanModel, name: Txt, named: Named) -> Seq<Turn> {
    let src_path = winpath::path_join(plan.src_dir, name);
    let dst_path = winpath::path_join(plan.dst_dir, name);
    let ask = Ask::Roots { src: src_path, dst: dst_path };
    match named {
        Named::Itself { src, dst, src_is_dir } => seq![
            (Ask::Stop, Reply::Flag(false)),
            (ask, Reply::Roots { src, dst, src_is_dir }),
        ],
        Named::Within { src, dst } => seq![
            (Ask::Stop, Reply::Flag(false)),
            (ask, Reply::Roots { src: Some(src), dst: Some(dst), src_is_dir: true }),
        ],
        Named::Apart { src, dst, src_is_dir, thing } => seq![
            (Ask::Stop, Reply::Flag(false)),
            (ask, Reply::Roots { src, dst, src_is_dir }),
        ] + thing_turns(src_path, dst_path, plan.move_it, thing),
    }
}

/// What is carried out for a name.
pub open spec fn name_effects(plan: PlanModel, name: Txt, named: Named) -> Seq<Effect<Txt>> {
    match named {
        Named::Itself { .. } => seq![
            Effect::Log(LogLevel::Error, Message::SamePath(work(plan.move_it), name)),
        ],
        Named::Within { .. } => seq![
            Effect::Log(LogLevel::Error, Message::IntoSelf(work(plan.move_it), name)),
        ],
        Named::Apart { thing, .. } => thing_effects(
            winpath::path_join(plan.src_dir, name),
            winpath::path_join(plan.dst_dir, name),
            plan.move_it,
            thing,
        ),
    }
}

/// What a name counts.
pub open spec fn name_tally(plan: PlanModel, named: Named) -> Tally {
    match named {
        Named::Apart { thing, .. } => thing_tally(plan.move_it, thing),
        _ => tally(0, 0, 1),
    }
}

/// The conversation about the names from one place on.
pub open spec fn names_turns(plan: PlanModel, named: Seq<Named>, from: int) -> Seq<Turn>
    decreases named.len() - from,
{
    if 0 <= from < named.len() {
        name_turns(plan, plan.names[from], named[from]) + names_turns(plan, named, from + 1)
    } else {
        Seq::empty()
    }
}

pub open spec fn names_effects(plan: PlanModel, named: Seq<Named>, from: int) -> Seq<Effect<Txt>>
    decreases named.len() - from,
{
    if 0 <= from < named.len() {
        name_effects(plan, plan.names[from], named[from]) + names_effects(plan, named, from + 1)
    } else {
        Seq::empty()
    }
}

pub open spec fn names_tally(plan: PlanModel, named: Seq<Named>, from: int) -> Tally
    decreases named.len() - from,
{
    if 0 <= from < named.len() {
        sum_of(name_tally(plan, named[from]), names_tally(plan, named, from + 1))
    } else {
        tally(0, 0, 0)
    }
}

/// The lines at the end of the log: the counts, and how it went.
pub open spec fn last_lines(move_it: bool, sum: OpSummary) -> Seq<Effect<Txt>> {
    seq![
        Effect::Log(
            if sum.err == 0 {
                LogLevel::Info
            } else {
                LogLevel::Error
            },
            Message::CopyResult { ok: sum.ok, skip: sum.skip, err: sum.err },
        ),
        if sum.err == 0 {
            Effect::Log(LogLevel::Info, Message::Finished(work(move_it)))
        } else {
            Effect::Log(LogLevel::Warning, Message::FinishedWithErrors(work(move_it)))
        },
    ]
}

proof fn lemma_below(src: Txt, dst: Txt)
    ensures
        is_below(src, dst) == text::has_prefix(key_of(dst), key_of(src).push('\\')),
{
    let s = key_of(src).push('\\');
    let d = key_of(dst);
    if text::has_prefix(d, s) {
        assert(d =~= s + d.skip(s.len() as int));
    }
    if is_below(src, dst) {
        let rest = choose|rest: Txt| d == #[trigger] (s + rest);
        assert((s + rest).subrange(0, s.len() as int) =~= s);
    }
}

#[verifier::rlimit(60)]
proof fn lemma_name(core: CoreModel, named: Named)
    requires
        core.frames.len() == 0,
        0 <= core.next < core.plan.names.len(),
        name_makes_sense(core.plan, core.plan.names[core.next], named),
    ensures
        answered(
            at(core, CopyPhase::NextName),
            name_turns(core.plan, core.plan.names[core.next], named),
        ) == done_with(
            (CoreModel { next: core.next + 1, ..core }),
            name_tally(core.plan, named),
            name_effects(core.plan, core.plan.names[core.next], named),
        ),
{
    let name = core.plan.names[core.next];
    let src_path = winpath::path_join(core.plan.src_dir, name);
    let dst_path = winpath::path_join(core.plan.dst_dir, name);
    let state = at(core, CopyPhase::NextName);
    let begun = CoreModel { next: core.next + 1, ..core };
    let turns = name_turns(core.plan, name, named);
    let due = done_with(
        begun,
        name_tally(core.plan, named),
        name_effects(core.plan, name, named),
    );
    lemma_one_more(begun);
    lemma_pair(state, turns[0], turns[1]);
    match named {
        Named::Itself { .. } => {
            assert(turns =~= seq![turns[0], turns[1]]);
        },
        Named::Within { src, dst } => {
            lemma_below(src, dst);
            assert(turns =~= seq![turns[0], turns[1]]);
        },
        Named::Apart { src, dst, src_is_dir, thing } => {
            if src is Some && dst is Some {
                lemma_below(src->0, dst->0);
            }
            let item = Item {
                src: src_path,
                dst: dst_path,
                name: winpath::path_display_name(src_path),
            };
            lemma_thing(begun, item, thing);
            lemma_two(
                state,
                seq![turns[0], turns[1]],
                thing_turns(src_path, dst_path, core.plan.move_it, thing),
            );
            assert(turns =~= seq![turns[0], turns[1]] + thing_turns(
                src_path,
                dst_path,
                core.plan.move_it,
                thing,
            ));
        },
    }
    assert(carried(answered(state, turns)) =~= carried(due));
}

/// Where the conversation about the names from `core.next` on leads.
spec fn names_end(core: CoreModel, named: Seq<Named>) -> Option<CopyOutcome> {
    let sum = counted_on(core.sum, names_tally(core.plan, named, core.next));
    Some(
        (
            at(
                CoreModel { sum, next: core.plan.names.len() as int, ..core },
                CopyPhase::Ended,
            ),
            names_effects(core.plan, named, core.next) + last_lines(core.plan.move_it, sum),
        ),
    )
}

proof fn lemma_no_names(core: CoreModel, named: Seq<Named>)
    requires
        core.frames.len() == 0,
        core.next == core.plan.names.len(),
        named.len() == core.plan.names.len(),
        !core.sum.cancelled,
    ensures
        going_on(after_item(core), names_turns(core.plan, named, core.next)) == names_end(
            core,
            named,
        ),
{
    let turns = names_turns(core.plan, named, core.next);
    assert(turns =~= Seq::<Turn>::empty());
    assert(tallied(core, tally(0, 0, 0)) == core);
    assert(carried(going_on(after_item(core), turns)) =~= carried(names_end(core, named)));
}

proof fn lemma_first_name(core: CoreModel, named: Seq<Named>)
    requires
        core.frames.len() == 0,
        0 <= core.next < core.plan.names.len(),
        named.len() == core.plan.names.len(),
        ({
            let next = tallied(
                CoreModel { next: core.next + 1, ..core },
                name_tally(core.plan, named[core.next]),
            );
            &&& going_on(after_item(next), names_turns(core.plan, named, core.next + 1))
                == names_end(next, named)
            &&& answered(
                at(core, CopyPhase::NextName),
                name_turns(core.plan, core.plan.names[core.next], named[core.next]),
            ) == Some(
                (
                    after_item(next).0,
                    name_effects(core.plan, core.plan.names[core.next], named[core.next])
                        + after_item(next).1,
                ),
            )
        }),
    ensures
        going_on(after_item(core), names_turns(core.plan, named, core.next)) == names_end(
            core,
            named,
        ),
{
    let one = named[core.next];
    let state = at(core, CopyPhase::NextName);
    let t = name_tally(core.plan, one);
    let next = tallied(CoreModel { next: core.next + 1, ..core }, t);
    let turns = names_turns(core.plan, named, core.next);
    let rest = names_turns(core.plan, named, core.next + 1);
    let effects = name_effects(core.plan, core.plan.names[core.next], one);
    lemma_tallies_add(core, t, names_tally(core.plan, named, core.next + 1));
    lemma_two(state, name_turns(core.plan, core.plan.names[core.next], one), rest);
    lemma_joined(state, turns, after_item(next), effects, rest);
    assert(carried(names_end(core, named)) =~= effects + carried(names_end(next, named)));
}

proof fn lemma_names(core: CoreModel, named: Seq<Named>)
    requires
        core.frames.len() == 0,
        0 <= core.next <= core.plan.names.len(),
        named.len() == core.plan.names.len(),
        !core.sum.cancelled,
        forall|i: int|
            0 <= i < named.len() ==> name_makes_sense(
                core.plan,
                core.plan.names[i],
                #[trigger] named[i],
            ),
    ensures
        going_on(after_item(core), names_turns(core.plan, named, core.next)) == names_end(
            core,
            named,
        ),
    decreases core.plan.names.len() - core.next,
{
    if core.next == core.plan.names.len() {
        lemma_no_names(core, named);
    } else {
        let next = tallied(
            CoreModel { next: core.next + 1, ..core },
            name_tally(core.plan, named[core.next]),
        );
        lemma_name(core, named[core.next]);
        lemma_names(next, named);
        lemma_first_name(core, named);
    }
}

proof fn lemma_joined(
    state: CopyModel,
    turns: Seq<Turn>,
    next: CopyOutcome,
    effects: Seq<Effect<Txt>>,
    rest: Seq<Turn>,
)
    requires
        answered(state, turns) == going_on((next.0, effects + next.1), rest),
        going_on(next, rest) is Some,
    ensures
        going_on((state, Seq::empty()), turns) == (match going_on(next, rest) {
            Some((last, more)) => Some((last, effects + more)),
            None => None,
        }),
{
    let (last, f) = answered(next.0, rest)->0;
    assert((effects + next.1) + f =~= effects + (next.1 + f));
    assert(Seq::<Effect<Txt>>::empty() + ((effects + next.1) + f) =~= (effects + next.1) + f);
}

/// A copy or a move that nobody stops does with every name, and with everything below every directory
/// that can be read, exactly what is told of it: links are made again and not followed; what a move can
/// move in one go is moved so; a file is written where nothing is or where the user agrees; a
/// directory that is there already is gone into like one that was made. It asks these questions and no
/// others, carries out these effects and no others, and ends with these counts.
pub proof fn law_everything_is_copied(plan: PlanModel, named: Seq<Named>)
    requires
        named.len() == plan.names.len(),
        forall|i: int|
            0 <= i < named.len() ==> name_makes_sense(plan, plan.names[i], #[trigger] named[i]),
    ensures
        ({
            let sum = counted_on(
                OpSummary { ok: 0, skip: 0, err: 0, cancelled: false },
                names_tally(plan, named, 0),
            );
            let (first, opening) = copy_start(plan);
            &&& opening.first() == Effect::<Txt>::Log(
                LogLevel::Info,
                Message::Started(work(plan.move_it)),
            )
            &&& answered(first, names_turns(plan, named, 0)) matches Some((last, effects)) && {
                &&& opening.drop_first() + effects == names_effects(plan, named, 0) + last_lines(
                    plan.move_it,
                    sum,
                )
                &&& copy_ask(last) == Ask::<Txt>::Ended(sum)
            }
        }),
{
    let core = CoreModel {
        plan,
        next: 0,
        frames: Seq::empty(),
        sum: operation::no_results(),
    };
    lemma_names(core, named);
    assert(copy_start(plan).1.drop_first() =~= after_item(core).1);
}

/// The lines at the end of the log of a copy that was stopped.
pub open spec fn lines_of_a_stop(move_it: bool, sum: OpSummary) -> Seq<Effect<Txt>> {
    seq![
        Effect::Log(
            if sum.err == 0 {
                LogLevel::Info
            } else {
                LogLevel::Error
            },
            Message::CopyResult { ok: sum.ok, skip: sum.skip, err: sum.err },
        ),
        Effect::Log(LogLevel::Warning, Message::Aborted(work(move_it))),
    ]
}

/// A request to stop ends a copy at once, wherever it is heard: nothing is asked any more, nothing is
/// carried out but the closing lines, and the counts stay as they are, marked as stopped.
pub proof fn law_a_stopped_copy_ends_at_once(state: CopyModel, reply: Reply<Txt>)
    requires
        copy_ask(state) == Ask::<Txt>::Stop && reply == Reply::<Txt>::Flag(true) || copy_ask(state) is Conflict
            && reply == Reply::Choice(ConflictResolution::<Txt>::Cancel),
    ensures
        ({
            let sum = OpSummary { cancelled: true, ..state.core.sum };
            let (last, effects) = copy_step(state, reply);
            &&& copy_ask(last) == Ask::<Txt>::Ended(sum)
            &&& effects == lines_of_a_stop(state.core.plan.move_it, sum)
        }),
{
    let sum = OpSummary { cancelled: true, ..state.core.sum };
    assert(copy_step(state, reply).1 =~= lines_of_a_stop(state.core.plan.move_it, sum));
}

/// A percentage is rounded down, and one is shown where three seconds have passed, the size is known,
/// and it is not the one that was shown last.
pub proof fn law_percentages_are_rounded_down(
    tracker: ProgressTracker,
    elapsed_secs: u64,
    transferred: u64,
    total: u64,
)
    requires
        transferred <= total,
        tracker.shown <= 100 || tracker.shown == u32::MAX,
    ensures
        match tracker.due(elapsed_secs, transferred, total) {
            Some(pct) => {
                &&& elapsed_secs >= 3
                &&& pct * total <= transferred * 100
                &&& transferred * 100 < (pct + 1) * total
                &&& pct != tracker.shown
                &&& tracker.after(elapsed_secs, transferred, total).shown == pct
            },
            None => {
                &&& tracker.after(elapsed_secs, transferred, total) == tracker
                &&& elapsed_secs < 3 || total == 0 || (tracker.shown * total <= transferred * 100
                    && transferred * 100 < (tracker.shown + 1) * total)
            },
        },
{
    if total > 0 {
        let q = (transferred * 100) / (total as int);
        vstd::arithmetic::div_mod::lemma_fundamental_div_mod(transferred * 100, total as int);
        assert(0 <= q <= 100) by (nonlinear_arith)
            requires
                q == (transferred * 100) / (total as int),
                transferred <= total,
                total > 0,
        ;
        assert(total * q == q * total) by (nonlinear_arith);
        assert((q + 1) * total == q * total + total) by (nonlinear_arith);
    }
}

/// While a file is copied, news of it changes neither what is copied nor where to: the copy goes on,
/// or is told to end where the user wants to stop. The line of the file shows the percentage that is
/// due, and nothing else is carried out.
pub proof fn law_news_keeps_the_copy_going(
    state: CopyModel,
    src: Txt,
    dst: Txt,
    before: CopySignal,
    elapsed_secs: u64,
    transferred: u64,
    total: u64,
    cancelled: bool,
)
    requires
        copy_ask(state) == (Ask::<Txt>::CopyFile { src, dst, signal: before }),
    ensures
        ({
            let reply = Reply::Copying { elapsed_secs, transferred, total, cancelled };
            let (next, effects) = copy_step(state, reply);
            let phase = state.phase;
            let due = phase->Copying_tracker.due(elapsed_secs, transferred, total);
            &&& copy_ask(next) == (Ask::<Txt>::CopyFile {
                src,
                dst,
                signal: if cancelled {
                    CopySignal::Abort
                } else {
                    CopySignal::Continue
                },
            })
            &&& next.core == state.core
            &&& effects == (match due {
                Some(pct) => seq![
                    Effect::UpdateProgress(
                        phase->Copying_handle,
                        Message::ItemProgress(
                            work(state.core.plan.move_it),
                            phase->Copying_item.name,
                            pct,
                        ),
                    ),
                ],
                None => Seq::empty(),
            })
        }),
{
}

/// A copy that ends in the middle of a file takes away what was written of it, drops the percentage
/// from its line, and is stopped.
pub proof fn law_a_cut_off_file_is_removed(state: CopyModel, src: Txt, dst: Txt, signal: CopySignal)
    requires
        copy_ask(state) == (Ask::<Txt>::CopyFile { src, dst, signal }),
    ensures
        ({
            let (last, effects) = copy_step(state, Reply::Aborted);
            let sum = OpSummary { cancelled: true, ..state.core.sum };
            let line: Effect<Txt> = Effect::UpdateProgress(
                state.phase->Copying_handle,
                Message::Item(work(state.core.plan.move_it), state.phase->Copying_item.name),
            );
            &&& copy_ask(last) == Ask::<Txt>::Ended(sum)
            &&& effects == seq![Effect::RemoveFile(dst), line] + lines_of_a_stop(
                state.core.plan.move_it,
                sum,
            )
        }),
{
    let sum = OpSummary { cancelled: true, ..state.core.sum };
    let line: Effect<Txt> = Effect::UpdateProgress(
        state.phase->Copying_handle,
        Message::Item(work(state.core.plan.move_it), state.phase->Copying_item.name),
    );
    assert(copy_step(state, Reply::Aborted).1 =~= seq![Effect::RemoveFile(dst), line]
        + lines_of_a_stop(state.core.plan.move_it, sum));
}

} // verus!
