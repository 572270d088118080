//! What a deletion comes to, told by what there is to delete.
//!
//! As with a copy, the whole conversation is told from the trees that are deleted: what lies there,
//! what protects it, what the user says, and what cannot be removed.

use crate::operation;
use crate::operation::copy_laws::{counted_on, outcome, sum_of, tally, Tally, Turn};
use crate::operation::delete::{
    after_item, delete_ask, delete_start, delete_step, DeleteCoreModel, DeleteFrame, DeleteModel,
    DeleteOutcome, DeletePhase, Doomed, Removal,
};
use crate::operation::messages::{Message, Verb};
use crate::operation::{
    Ask, Attribute, DeleteWarnChoice, Effect, Kind, LogLevel, OpSummary, Reply, Txt,
};
use crate::winpath;
use vstd::prelude::*;

verus! {

/// Where a deletion stands after a conversation, and what it carried out on the way; nothing where it
/// did not ask these questions.
pub open spec fn answered(state: DeleteModel, turns: Seq<Turn>) -> Option<DeleteOutcome>
    decreases turns.len(),
{
    if turns.len() == 0 {
        Some((state, Seq::empty()))
    } else {
        match answered(state, turns.drop_last()) {
            None => None,
            Some((middle, before)) => if delete_ask(middle) == turns.last().0 {
                let (last, now) = delete_step(middle, turns.last().1);
                Some((last, before + now))
            } else {
                None
            },
        }
    }
}

/// What became of an item that was to be removed: its attribute bits, what the user said where it is
/// protected, and why it could not be removed.
pub struct Fate {
    pub bits: Option<u32>,
    pub agreed: bool,
    pub failed: Option<Txt>,
}

/// What lies at a path, and what became of it.
pub enum Thing {
    /// A file or a link.
    Leaf { kind: Kind, fate: Fate },
    /// A directory that could not be read.
    Closed { why: Txt },
    /// A directory; its own fate matters only where nothing is left in it.
    Dir { children: Seq<Child>, fate: Fate },
}

/// What a directory hands out.
pub enum Child {
    Unreadable,
    Named { name: Txt, thing: Thing },
}

/// Whether the bit of the value `place` is set.
pub open spec fn has_bit(bits: u32, place: int) -> bool {
    (bits as int / place) % 2 == 1
}

/// What protects an item: of system, hidden and read-only the first that is set. Nothing does where
/// the bits could not be read.
pub open spec fn guard(bits: Option<u32>) -> Option<Attribute> {
    if bits is None {
        None
    } else if has_bit(bits->0, 4) {
        Some(Attribute::System)
    } else if has_bit(bits->0, 2) {
        Some(Attribute::Hidden)
    } else if has_bit(bits->0, 1) {
        Some(Attribute::ReadOnly)
    } else {
        None
    }
}

/// Whether the removal of an item is tried.
pub open spec fn is_tried(fate: Fate) -> bool {
    guard(fate.bits) is None || fate.agreed
}

/// Whether an item is gone in the end.
pub open spec fn is_gone(thing: Thing) -> bool
    decreases thing, 0int,
{
    match thing {
        Thing::Leaf { fate, .. } => is_tried(fate) && fate.failed is None,
        Thing::Closed { .. } => false,
        Thing::Dir { children, fate } => are_gone(children, 0) && is_tried(fate) && fate.failed
            is None,
    }
}

/// Whether a directory is empty in the end, from one place on.
pub open spec fn are_gone(children: Seq<Child>, from: int) -> bool
    decreases children, children.len() - from,
{
    if 0 <= from < children.len() {
        (match children[from] {
            Child::Unreadable => false,
            Child::Named { thing, .. } => is_gone(thing),
        }) && are_gone(children, from + 1)
    } else {
        true
    }
}

/// Whether files are files and directories directories.
pub open spec fn makes_sense(thing: Thing) -> bool
    decreases thing, 0int,
{
    match thing {
        Thing::Leaf { kind, .. } => kind != Kind::Dir,
        Thing::Closed { .. } => true,
        Thing::Dir { children, .. } => all_make_sense(children, 0),
    }
}

pub open spec fn all_make_sense(children: Seq<Child>, from: int) -> bool
    decreases children, children.len() - from,
{
    if 0 <= from < children.len() {
        (match children[from] {
            Child::Unreadable => true,
            Child::Named { thing, .. } => makes_sense(thing),
        }) && all_make_sense(children, from + 1)
    } else {
        true
    }
}

/// The conversation about the removal of an item, which `removal` asks for.
pub open spec fn fate_turns(path: Txt, name: Txt, removal: Ask<Txt>, fate: Fate) -> Seq<Turn> {
    seq![(Ask::Attributes(path), Reply::Attributes(fate.bits))] + (match guard(fate.bits) {
        None => Seq::empty(),
        Some(attribute) => seq![
            (
                Ask::ConfirmDelete { name, attribute },
                Reply::Warned(
                    if fate.agreed {
                        DeleteWarnChoice::Yes
                    } else {
                        DeleteWarnChoice::No
                    },
                ),
            ),
        ],
    }) + (if is_tried(fate) {
        seq![(removal, outcome(fate.failed))]
    } else {
        Seq::empty()
    })
}

/// What is carried out for the removal of an item, of which the log says `line`.
pub open spec fn fate_effects(path: Txt, name: Txt, line: Message<Txt>, fate: Fate) -> Seq<
    Effect<Txt>,
> {
    if !is_tried(fate) {
        Seq::empty()
    } else {
        (if guard(fate.bits) is Some {
            seq![Effect::ClearAttributes(path)]
        } else {
            Seq::empty()
        }) + seq![Effect::Log(LogLevel::Normal, line)] + (match fate.failed {
            None => Seq::empty(),
            Some(why) => seq![
                Effect::Log(LogLevel::Error, Message::Failure(Verb::Delete, name, why)),
            ],
        })
    }
}

pub open spec fn fate_tally(fate: Fate) -> Tally {
    if !is_tried(fate) {
        tally(0, 0, 0)
    } else if fate.failed is Some {
        tally(0, 0, 1)
    } else {
        tally(1, 0, 0)
    }
}

/// How a file or a link is removed: a link to a directory like a directory, all else like a file.
pub open spec fn leaf_removal(path: Txt, kind: Kind) -> Ask<Txt> {
    if kind == Kind::DirLink {
        Ask::RemoveDir(path)
    } else {
        Ask::RemoveFile(path)
    }
}

/// The conversation about what lies at `path`. A directory goes after everything in it, and only where
/// nothing is left in it.
pub open spec fn thing_turns(path: Txt, name: Txt, thing: Thing) -> Seq<Turn>
    decreases thing, 0int,
{
    let stop: Turn = (Ask::Stop, Reply::Flag(false));
    match thing {
        Thing::Leaf { kind, fate } => seq![stop, (Ask::KindOf(path), Reply::Kind(kind))]
            + fate_turns(path, name, leaf_removal(path, kind), fate),
        Thing::Closed { why } => seq![
            stop,
            (Ask::KindOf(path), Reply::Kind(Kind::Dir)),
            (Ask::OpenDir(path), Reply::Failed(why)),
        ],
        Thing::Dir { children, fate } => seq![
            stop,
            (Ask::KindOf(path), Reply::Kind(Kind::Dir)),
            (Ask::OpenDir(path), Reply::Done),
        ] + child_turns(path, children, 0) + seq![(Ask::NextEntry(path), Reply::End)] + (
        if are_gone(children, 0) {
            fate_turns(path, name, Ask::RemoveDir(path), fate)
        } else {
            Seq::empty()
        }),
    }
}

pub open spec fn child_turns(path: Txt, children: Seq<Child>, from: int) -> Seq<Turn>
    decreases children, children.len() - from,
{
    if 0 <= from < children.len() {
        (match children[from] {
            Child::Unreadable => seq![(Ask::NextEntry(path), Reply::Unreadable)],
            Child::Named { name, thing } => seq![(Ask::NextEntry(path), Reply::Entry(name))]
                + thing_turns(winpath::path_join(path, name), name, thing),
        }) + child_turns(path, children, from + 1)
    } else {
        Seq::empty()
    }
}

/// What is carried out for what lies at `path`.
pub open spec fn thing_effects(path: Txt, name: Txt, thing: Thing) -> Seq<Effect<Txt>>
    decreases thing, 0int,
{
    match thing {
        Thing::Leaf { fate, .. } => fate_effects(
            path,
            name,
            Message::Item(Verb::Delete, name),
            fate,
        ),
        Thing::Closed { why } => seq![
            Effect::Log(LogLevel::Error, Message::Failure(Verb::Delete, name, why)),
        ],
        Thing::Dir { children, fate } => child_effects(path, children, 0) + (if are_gone(
            children,
            0,
        ) {
            fate_effects(path, name, Message::DeleteDirectory(name), fate)
        } else {
            Seq::empty()
        }),
    }
}

pub open spec fn child_effects(path: Txt, children: Seq<Child>, from: int) -> Seq<Effect<Txt>>
    decreases children, children.len() - from,
{
    if 0 <= from < children.len() {
        (match children[from] {
            Child::Unreadable => Seq::empty(),
            Child::Named { name, thing } => thing_effects(
                winpath::path_join(path, name),
                name,
                thing,
            ),
        }) + child_effects(path, children, from + 1)
    } else {
        Seq::empty()
    }
}

/// What lies at a path counts.
pub open spec fn thing_tally(thing: Thing) -> Tally
    decreases thing, 0int,
{
    match thing {
        Thing::Leaf { fate, .. } => fate_tally(fate),
        Thing::Closed { .. } => tally(0, 0, 1),
        Thing::Dir { children, fate } => sum_of(
            child_tally(children, 0),
            if are_gone(children, 0) {
                fate_tally(fate)
            } else {
                tally(0, 0, 0)
            },
        ),
    }
}

pub open spec fn child_tally(children: Seq<Child>, from: int) -> Tally
    decreases children, children.len() - from,
{
    if 0 <= from < children.len() {
        sum_of(
            match children[from] {
                Child::Unreadable => tally(0, 0, 0),
                Child::Named { thing, .. } => thing_tally(thing),
            },
            child_tally(children, from + 1),
        )
    } else {
        tally(0, 0, 0)
    }
}

/// The conversation about the names from one place on.
pub open spec fn names_turns(dir: Txt, names: Seq<Txt>, things: Seq<Thing>, from: int) -> Seq<Turn>
    decreases things.len() - from,
{
    if 0 <= from < things.len() {
        thing_turns(winpath::path_join(dir, names[from]), names[from], things[from]) + names_turns(
            dir,
            names,
            things,
            from + 1,
        )
    } else {
        Seq::empty()
    }
}

pub open spec fn names_effects(
    dir: Txt,
    names: Seq<Txt>,
    things: Seq<Thing>,
    from: int,
) -> Seq<Effect<Txt>>
    decreases things.len() - from,
{
    if 0 <= from < things.len() {
        thing_effects(winpath::path_join(dir, names[from]), names[from], things[from])
            + names_effects(dir, names, things, from + 1)
    } else {
        Seq::empty()
    }
}

pub open spec fn names_tally(things: Seq<Thing>, from: int) -> Tally
    decreases things.len() - from,
{
    if 0 <= from < things.len() {
        sum_of(thing_tally(things[from]), names_tally(things, from + 1))
    } else {
        tally(0, 0, 0)
    }
}

/// The lines at the end of the log: the counts, and how it went.
pub open spec fn last_lines(sum: OpSummary) -> Seq<Effect<Txt>> {
    seq![
        Effect::Log(
            if sum.err == 0 {
                LogLevel::Info
            } else {
                LogLevel::Error
            },
            Message::DeleteResult { ok: sum.ok, err: sum.err },
        ),
        if sum.err == 0 {
            Effect::Log(LogLevel::Info, Message::Finished(Verb::Delete))
        } else {
            Effect::Log(LogLevel::Warning, Message::FinishedWithErrors(Verb::Delete))
        },
    ]
}

/// The outcome of a conversation that goes on after `out`.
spec fn going_on(out: DeleteOutcome, turns: Seq<Turn>) -> Option<DeleteOutcome> {
    match answered(out.0, turns) {
        None => None,
        Some((last, effects)) => Some((last, out.1 + effects)),
    }
}

/// What a conversation carried out.
spec fn carried(out: Option<DeleteOutcome>) -> Seq<Effect<Txt>> {
    match out {
        Some((_, effects)) => effects,
        None => Seq::empty(),
    }
}

proof fn lemma_two(state: DeleteModel, a: Seq<Turn>, b: Seq<Turn>)
    ensures
        answered(state, a) is None ==> answered(state, a + b) is None,
        answered(state, a) matches Some(out) ==> answered(state, a + b) == going_on(out, b),
    decreases b.len(),
{
    if b.len() == 0 {
        assert(a + b =~= a);
        if let Some(out) = answered(state, a) {
            assert(out.1 + Seq::<Effect<Txt>>::empty() =~= out.1);
        }
    } else {
        lemma_two(state, a, b.drop_last());
        assert((a + b).drop_last() =~= a + b.drop_last());
        if let Some(out) = answered(state, a) {
            if let Some((middle, before)) = answered(out.0, b.drop_last()) {
                let now = delete_step(middle, b.last().1).1;
                assert(out.1 + (before + now) =~= (out.1 + before) + now);
            }
        }
    }
}

proof fn lemma_one(state: DeleteModel, turn: Turn)
    requires
        delete_ask(state) == turn.0,
    ensures
        answered(state, seq![turn]) == Some(delete_step(state, turn.1)),
{
    assert(seq![turn].drop_last() =~= Seq::<Turn>::empty());
    assert(answered(state, Seq::<Turn>::empty()) == Some((state, Seq::<Effect<Txt>>::empty())));
    assert(Seq::<Effect<Txt>>::empty() + delete_step(state, turn.1).1 =~= delete_step(
        state,
        turn.1,
    ).1);
}

proof fn lemma_pair(state: DeleteModel, a: Turn, b: Turn)
    requires
        delete_ask(state) == a.0,
        delete_ask(delete_step(state, a.1).0) == b.0,
    ensures
        ({
            let one = delete_step(state, a.1);
            let two = delete_step(one.0, b.1);
            answered(state, seq![a, b]) == Some((two.0, one.1 + two.1))
        }),
{
    lemma_one(state, a);
    lemma_one(delete_step(state, a.1).0, b);
    lemma_two(state, seq![a], seq![b]);
    assert(seq![a, b] =~= seq![a] + seq![b]);
}

proof fn lemma_three(state: DeleteModel, a: Turn, b: Turn, c: Turn)
    requires
        delete_ask(state) == a.0,
        delete_ask(delete_step(state, a.1).0) == b.0,
        delete_ask(delete_step(delete_step(state, a.1).0, b.1).0) == c.0,
    ensures
        ({
            let one = delete_step(state, a.1);
            let two = delete_step(one.0, b.1);
            let three = delete_step(two.0, c.1);
            answered(state, seq![a, b, c]) == Some((three.0, one.1 + two.1 + three.1))
        }),
{
    lemma_pair(state, a, b);
    lemma_one(delete_step(delete_step(state, a.1).0, b.1).0, c);
    lemma_two(state, seq![a, b], seq![c]);
    assert(seq![a, b, c] =~= seq![a, b] + seq![c]);
}

/// The state that waits for `phase`.
spec fn at(core: DeleteCoreModel, phase: DeletePhase<Txt>) -> DeleteModel {
    DeleteModel { core, phase }
}

/// A deletion whose counts went on.
spec fn tallied(core: DeleteCoreModel, t: Tally) -> DeleteCoreModel {
    DeleteCoreModel { sum: counted_on(core.sum, t), ..core }
}

/// An item is done, with its counts and effects.
spec fn done_with(
    core: DeleteCoreModel,
    t: Tally,
    effects: Seq<Effect<Txt>>,
    gone: bool,
) -> Option<DeleteOutcome> {
    let next = after_item(tallied(core, t), gone);
    Some((next.0, effects + next.1))
}

proof fn lemma_one_more(core: DeleteCoreModel)
    ensures
        tallied(core, tally(1, 0, 0)) == (DeleteCoreModel { sum: core.sum.plus_ok(), ..core }),
        tallied(core, tally(0, 0, 1)) == (DeleteCoreModel { sum: core.sum.plus_err(), ..core }),
        tallied(core, tally(0, 0, 0)) == core,
{
}

proof fn lemma_tallies_add(core: DeleteCoreModel, a: Tally, b: Tally)
    ensures
        tallied(tallied(core, a), b) == tallied(core, sum_of(a, b)),
{
}

proof fn lemma_bits(b: u32)
    ensures
        (b & 0x4 != 0) == has_bit(b, 4),
        (b & 0x2 != 0) == has_bit(b, 2),
        (b & 0x1 != 0) == has_bit(b, 1),
        (b & 0x7 == 0) == (!has_bit(b, 4) && !has_bit(b, 2) && !has_bit(b, 1)),
{
    assert((b & 0x4 != 0) == ((b / 4) % 2 == 1)) by (bit_vector);
    assert((b & 0x2 != 0) == ((b / 2) % 2 == 1)) by (bit_vector);
    assert((b & 0x1 != 0) == ((b / 1) % 2 == 1)) by (bit_vector);
    assert((b & 0x7 == 0) == (b & 0x4 == 0 && b & 0x2 == 0 && b & 0x1 == 0)) by (bit_vector);
}

/// How the removal `how` is asked for.
spec fn asked(path: Txt, how: Removal) -> Ask<Txt> {
    if how == Removal::File {
        Ask::RemoveFile(path)
    } else {
        Ask::RemoveDir(path)
    }
}

/// What the log says of the removal `how`.
spec fn told(name: Txt, how: Removal) -> Message<Txt> {
    if how == Removal::Directory {
        Message::DeleteDirectory(name)
    } else {
        Message::Item(Verb::Delete, name)
    }
}

#[verifier::rlimit(60)]
proof fn lemma_fate(core: DeleteCoreModel, item: Doomed<Txt>, how: Removal, fate: Fate)
    ensures
        answered(
            at(core, DeletePhase::Attributes { item, how }),
            fate_turns(item.target, item.name, asked(item.target, how), fate),
        ) == done_with(
            core,
            fate_tally(fate),
            fate_effects(item.target, item.name, told(item.name, how), fate),
            is_tried(fate) && fate.failed is None,
        ),
{
    let state = at(core, DeletePhase::Attributes { item, how });
    let turns = fate_turns(item.target, item.name, asked(item.target, how), fate);
    let due = done_with(
        core,
        fate_tally(fate),
        fate_effects(item.target, item.name, told(item.name, how), fate),
        is_tried(fate) && fate.failed is None,
    );
    if let Some(b) = fate.bits {
        lemma_bits(b);
    }
    lemma_one_more(core);
    if guard(fate.bits) is None {
        lemma_pair(state, turns[0], turns[1]);
        assert(turns =~= seq![turns[0], turns[1]]);
    } else if fate.agreed {
        lemma_three(state, turns[0], turns[1], turns[2]);
        assert(turns =~= seq![turns[0], turns[1], turns[2]]);
    } else {
        lemma_pair(state, turns[0], turns[1]);
        assert(turns =~= seq![turns[0], turns[1]]);
    }
    assert(carried(answered(state, turns)) =~= carried(due));
}

/// Directories with the innermost one marked as emptied or not.
spec fn flagged(frames: Seq<DeleteFrame<Txt>>, empty: bool) -> Seq<DeleteFrame<Txt>> {
    frames.drop_last().push(DeleteFrame { all_removed: empty, ..frames.last() })
}

proof fn lemma_after_item_inside(core: DeleteCoreModel, gone: bool)
    requires
        core.frames.len() > 0,
    ensures
        after_item(core, gone) == (
            at(
                DeleteCoreModel {
                    frames: flagged(core.frames, core.frames.last().all_removed && gone),
                    ..core
                },
                DeletePhase::NextEntry,
            ),
            Seq::<Effect<Txt>>::empty(),
        ),
{
    let kept = flagged(core.frames, core.frames.last().all_removed && gone);
    assert(after_item(core, gone).0.core.frames =~= kept);
}

#[verifier::rlimit(60)]
proof fn lemma_thing(core: DeleteCoreModel, item: Doomed<Txt>, thing: Thing)
    requires
        makes_sense(thing),
    ensures
        answered(
            at(core, DeletePhase::Poll { item }),
            thing_turns(item.target, item.name, thing),
        ) == done_with(
            core,
            thing_tally(thing),
            thing_effects(item.target, item.name, thing),
            is_gone(thing),
        ),
    decreases thing, 0int,
{
    let state = at(core, DeletePhase::Poll { item });
    let turns = thing_turns(item.target, item.name, thing);
    let stop: Turn = (Ask::Stop, Reply::Flag(false));
    let due = done_with(
        core,
        thing_tally(thing),
        thing_effects(item.target, item.name, thing),
        is_gone(thing),
    );
    lemma_one_more(core);
    match thing {
        Thing::Leaf { kind, fate } => {
            let how = if kind == Kind::DirLink {
                Removal::DirLink
            } else {
                Removal::File
            };
            let look: Turn = (Ask::KindOf(item.target), Reply::Kind(kind));
            lemma_pair(state, stop, look);
            lemma_fate(core, item, how, fate);
            let rest = fate_turns(item.target, item.name, leaf_removal(item.target, kind), fate);
            lemma_two(state, seq![stop, look], rest);
            assert(carried(answered(state, turns)) =~= carried(due));
        },
        Thing::Closed { why } => {
            lemma_three(state, turns[0], turns[1], turns[2]);
            assert(carried(answered(state, turns)) =~= carried(due));
        },
        Thing::Dir { children, fate } => {
            lemma_dir(core, item, children, fate);
        },
    }
}

#[verifier::rlimit(60)]
proof fn lemma_dir(core: DeleteCoreModel, item: Doomed<Txt>, children: Seq<Child>, fate: Fate)
    requires
        all_make_sense(children, 0),
    ensures
        ({
            let thing = Thing::Dir { children, fate };
            answered(
                at(core, DeletePhase::Poll { item }),
                thing_turns(item.target, item.name, thing),
            ) == done_with(
                core,
                thing_tally(thing),
                thing_effects(item.target, item.name, thing),
                is_gone(thing),
            )
        }),
    decreases children, children.len() + 1,
{
    let thing = Thing::Dir { children, fate };
    let state = at(core, DeletePhase::Poll { item });
    let turns = thing_turns(item.target, item.name, thing);
    let due = done_with(
        core,
        thing_tally(thing),
        thing_effects(item.target, item.name, thing),
        is_gone(thing),
    );
    let stop: Turn = (Ask::Stop, Reply::Flag(false));
    let look: Turn = (Ask::KindOf(item.target), Reply::Kind(Kind::Dir));
    let open: Turn = (Ask::OpenDir(item.target), Reply::Done);
    let close: Turn = (Ask::NextEntry(item.target), Reply::End);
    let frame = DeleteFrame { target: item.target, name: item.name, all_removed: true };
    let inside = DeleteCoreModel { frames: core.frames.push(frame), ..core };
    let inner = child_turns(item.target, children, 0);
    let empty = are_gone(children, 0);
    let t = child_tally(children, 0);
    let first = seq![stop, look, open];
    lemma_three(state, stop, look, open);
    assert(carried(answered(state, first)) =~= Seq::<Effect<Txt>>::empty());
    lemma_children(inside, children, 0);
    lemma_two(state, first, inner);
    let left = DeleteCoreModel { frames: flagged(inside.frames, empty), ..tallied(inside, t) };
    assert(left.frames.last().all_removed == empty);
    assert(left.frames.drop_last() =~= core.frames);
    lemma_one(at(left, DeletePhase::NextEntry), close);
    lemma_two(state, first + inner, seq![close]);
    let outer = tallied(core, t);
    if empty {
        let rest = fate_turns(item.target, item.name, Ask::RemoveDir(item.target), fate);
        lemma_fate(outer, item, Removal::Directory, fate);
        lemma_two(state, first + inner + seq![close], rest);
        lemma_tallies_add(core, t, fate_tally(fate));
    } else {
        assert(turns =~= first + inner + seq![close]);
        lemma_tallies_add(core, t, tally(0, 0, 0));
        lemma_one_more(outer);
    }
    assert(carried(answered(state, turns)) =~= carried(due));
}

#[verifier::rlimit(60)]
proof fn lemma_children(core: DeleteCoreModel, children: Seq<Child>, from: int)
    requires
        core.frames.len() > 0,
        0 <= from <= children.len(),
        all_make_sense(children, from),
    ensures
        answered(
            at(core, DeletePhase::NextEntry),
            child_turns(core.frames.last().target, children, from),
        ) == Some(
            (
                at(
                    DeleteCoreModel {
                        frames: flagged(
                            core.frames,
                            core.frames.last().all_removed && are_gone(children, from),
                        ),
                        ..tallied(core, child_tally(children, from))
                    },
                    DeletePhase::NextEntry,
                ),
                child_effects(core.frames.last().target, children, from),
            ),
        ),
    decreases children, children.len() - from,
{
    let path = core.frames.last().target;
    let state = at(core, DeletePhase::NextEntry);
    let flag = core.frames.last().all_removed;
    lemma_one_more(core);
    if from < children.len() {
        let rest = child_turns(path, children, from + 1);
        match children[from] {
            Child::Unreadable => {
                let a: Turn = (Ask::NextEntry(path), Reply::Unreadable);
                lemma_one(state, a);
                lemma_after_item_inside(core, false);
                let next = DeleteCoreModel { frames: flagged(core.frames, false), ..core };
                lemma_children(next, children, from + 1);
                assert(flagged(next.frames, false) =~= flagged(core.frames, false));
                lemma_two(state, seq![a], rest);
            },
            Child::Named { name, thing } => {
                let a: Turn = (Ask::NextEntry(path), Reply::Entry(name));
                let item = Doomed { target: winpath::path_join(path, name), name };
                let t = thing_tally(thing);
                let counted = tallied(core, t);
                let now = flag && is_gone(thing);
                let next = DeleteCoreModel { frames: flagged(core.frames, now), ..counted };
                lemma_one(state, a);
                lemma_thing(core, item, thing);
                lemma_after_item_inside(counted, is_gone(thing));
                lemma_two(state, seq![a], thing_turns(item.target, name, thing));
                lemma_children(next, children, from + 1);
                lemma_tallies_add(core, t, child_tally(children, from + 1));
                assert(flagged(next.frames, now && are_gone(children, from + 1)) =~= flagged(
                    core.frames,
                    flag && are_gone(children, from),
                ));
                lemma_two(state, seq![a] + thing_turns(item.target, name, thing), rest);
            },
        }
        assert(carried(answered(state, child_turns(path, children, from))) =~= child_effects(
            path,
            children,
            from,
        ));
    } else {
        assert(flagged(core.frames, flag) =~= core.frames);
    }
}

/// Where the conversation about the names from `core.next` on leads.
spec fn names_end(core: DeleteCoreModel, things: Seq<Thing>) -> Option<DeleteOutcome> {
    let sum = counted_on(core.sum, names_tally(things, core.next));
    Some(
        (
            at(
                DeleteCoreModel { sum, next: core.names.len() as int, ..core },
                DeletePhase::Ended,
            ),
            names_effects(core.dir, core.names, things, core.next) + last_lines(sum),
        ),
    )
}

proof fn lemma_no_names(core: DeleteCoreModel, things: Seq<Thing>, gone: bool)
    requires
        core.frames.len() == 0,
        core.next == core.names.len(),
        things.len() == core.names.len(),
        !core.sum.cancelled,
    ensures
        going_on(
            after_item(core, gone),
            names_turns(core.dir, core.names, things, core.next),
        ) == names_end(core, things),
{
    let turns = names_turns(core.dir, core.names, things, core.next);
    assert(turns =~= Seq::<Turn>::empty());
    lemma_one_more(core);
    assert(carried(going_on(after_item(core, gone), turns)) =~= carried(names_end(core, things)));
}

proof fn lemma_joined(
    state: DeleteModel,
    turns: Seq<Turn>,
    next: DeleteOutcome,
    effects: Seq<Effect<Txt>>,
    rest: Seq<Turn>,
)
    requires
        answered(state, turns) == going_on((next.0, effects + next.1), rest),
        going_on(next, rest) is Some,
    ensures
        going_on((state, Seq::empty()), turns) == (match going_on(next, rest) {
            Some((last, more)) => Some((last, effects + more)),
            None => None,
        }),
{
    let (last, f) = answered(next.0, rest)->0;
    assert((effects + next.1) + f =~= effects + (next.1 + f));
    assert(Seq::<Effect<Txt>>::empty() + ((effects + next.1) + f) =~= (effects + next.1) + f);
}

proof fn lemma_names(core: DeleteCoreModel, things: Seq<Thing>, gone: bool)
    requires
        core.frames.len() == 0,
        0 <= core.next <= core.names.len(),
        things.len() == core.names.len(),
        !core.sum.cancelled,
        forall|i: int| 0 <= i < things.len() ==> makes_sense(#[trigger] things[i]),
    ensures
        going_on(
            after_item(core, gone),
            names_turns(core.dir, core.names, things, core.next),
        ) == names_end(core, things),
    decreases core.names.len() - core.next,
{
    if core.next == core.names.len() {
        lemma_no_names(core, things, gone);
    } else {
        let name = core.names[core.next];
        let thing = things[core.next];
        let item = Doomed { target: winpath::path_join(core.dir, name), name };
        let begun = DeleteCoreModel { next: core.next + 1, ..core };
        let state = at(begun, DeletePhase::Poll { item });
        let t = thing_tally(thing);
        let next = tallied(begun, t);
        let turns = names_turns(core.dir, core.names, things, core.next);
        let rest = names_turns(core.dir, core.names, things, core.next + 1);
        let effects = thing_effects(item.target, name, thing);
        lemma_thing(begun, item, thing);
        lemma_names(next, things, is_gone(thing));
        lemma_tallies_add(core, t, names_tally(things, core.next + 1));
        lemma_two(state, thing_turns(item.target, name, thing), rest);
        lemma_joined(state, turns, after_item(next, is_gone(thing)), effects, rest);
        assert(carried(names_end(core, things)) =~= effects + carried(names_end(next, things)));
    }
}

/// A deletion that nobody stops removes every name and everything below every directory that can be
/// read, from the inside out, and asks before anything that is read-only, hidden or a system file.
/// What the user keeps, what cannot be read and what cannot be removed stays, and with it every
/// directory that it lies in. Links are removed and not followed. The deletion asks these questions
/// and no others, carries out these effects and no others, and ends with these counts.
pub proof fn law_everything_is_deleted(dir: Txt, names: Seq<Txt>, things: Seq<Thing>)
    requires
        things.len() == names.len(),
        forall|i: int| 0 <= i < things.len() ==> makes_sense(#[trigger] things[i]),
    ensures
        ({
            let sum = counted_on(
                OpSummary { ok: 0, skip: 0, err: 0, cancelled: false },
                names_tally(things, 0),
            );
            let (first, opening) = delete_start(dir, names);
            &&& opening.first() == Effect::<Txt>::Log(LogLevel::Info, Message::Started(Verb::Delete))
            &&& answered(first, names_turns(dir, names, things, 0)) matches Some((last, effects))
                && {
                &&& opening.drop_first() + effects == names_effects(dir, names, things, 0)
                    + last_lines(sum)
                &&& delete_ask(last) == Ask::<Txt>::Ended(sum)
            }
        }),
{
    let core = DeleteCoreModel {
        dir,
        names,
        next: 0,
        frames: Seq::empty(),
        sum: operation::no_results(),
    };
    lemma_names(core, things, true);
    assert(delete_start(dir, names).1.drop_first() =~= after_item(core, true).1);
}

/// Nothing is removed without a question but what has none of the bits for read-only, hidden and
/// system, or no bits that can be read: whenever a deletion asks for a removal, it has just been told
/// such bits, or the user has just said yes.
pub proof fn law_only_bare_items_go_unasked(state: DeleteModel, reply: Reply<Txt>)
    requires
        ({
            let ask = delete_ask(delete_step(state, reply).0);
            ask is RemoveFile || ask is RemoveDir
        }),
        delete_ask(delete_step(state, reply).0) != delete_ask(state),
    ensures
        ({
            ||| reply == Reply::<Txt>::Warned(DeleteWarnChoice::Yes) && delete_ask(state)
                is ConfirmDelete
            ||| reply matches Reply::Attributes(bits) && delete_ask(state) is Attributes && (bits
                is None || bits->0 & 0x7 == 0)
        }),
{
    if let Reply::Attributes(Some(b)) = reply {
        lemma_bits(b);
    }
}

/// Any of the bits for read-only, hidden and system brings a question, and the question names one
/// that is set: system before hidden before read-only.
pub proof fn law_protected_items_are_asked_for(state: DeleteModel, bits: u32)
    requires
        delete_ask(state) is Attributes,
        bits & 0x7 != 0,
    ensures
        ({
            let (next, effects) = delete_step(state, Reply::Attributes(Some(bits)));
            &&& effects.len() == 0
            &&& delete_ask(next) matches Ask::ConfirmDelete { attribute, .. } && {
                &&& attribute == Attribute::System <==> bits & 0x4 != 0
                &&& attribute == Attribute::Hidden <==> bits & 0x4 == 0 && bits & 0x2 != 0
                &&& attribute == Attribute::ReadOnly <==> bits & 0x7 == 0x1
            }
        }),
{
    lemma_bits(bits);
    assert((bits & 0x7 == 0x1) == (bits & 0x4 == 0 && bits & 0x2 == 0 && bits & 0x1 != 0))
        by (bit_vector);
}

/// The lines at the end of the log of a deletion that was stopped.
pub open spec fn lines_of_a_stop(sum: OpSummary) -> Seq<Effect<Txt>> {
    seq![
        Effect::Log(
            if sum.err == 0 {
                LogLevel::Info
            } else {
                LogLevel::Error
            },
            Message::DeleteResult { ok: sum.ok, err: sum.err },
        ),
        Effect::Log(LogLevel::Warning, Message::Aborted(Verb::Delete)),
    ]
}

/// A request to stop ends a deletion at once, wherever it is heard: nothing is asked any more, nothing is
/// carried out but the closing lines, and the counts stay as they are, marked as stopped.
pub proof fn law_a_stopped_deletion_ends_at_once(state: DeleteModel, reply: Reply<Txt>)
    requires
        delete_ask(state) == Ask::<Txt>::Stop && reply == Reply::<Txt>::Flag(true) || delete_ask(state)
            is ConfirmDelete && reply == Reply::<Txt>::Warned(DeleteWarnChoice::Cancel),
    ensures
        ({
            let sum = OpSummary { cancelled: true, ..state.core.sum };
            let (last, effects) = delete_step(state, reply);
            &&& delete_ask(last) == Ask::<Txt>::Ended(sum)
            &&& effects == lines_of_a_stop(sum)
        }),
{
    let sum = OpSummary { cancelled: true, ..state.core.sum };
    assert(delete_step(state, reply).1 =~= lines_of_a_stop(sum));
}

} // verus!
