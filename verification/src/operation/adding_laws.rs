//! What is added to an archive, told by what there is to add.

use crate::archive_laws::{lemma_path_in, path_in};
use crate::operation::adding::{
    add_ask, add_start, add_step, after_item, farther, item_at, AddCoreModel, AddFrame, AddModel,
    AddOutcome, AddPhase, AddStyle, Added, Written,
};
use crate::operation::copy_laws::{counted_on, outcome, sum_of, tally, Tally, Turn};
use crate::operation::messages::{Message, Verb};
use crate::operation::{Ask, Effect, LogLevel, OpSummary, ProgressHandle, Reply, Txt};
use crate::winpath;
use vstd::prelude::*;

verus! {

/// Where an addition stands after a conversation, and what it carried out on the way; nothing where it
/// did not ask these questions, or had finished before.
pub open spec fn answered(state: AddModel, turns: Seq<Turn>) -> Option<AddOutcome>
    decreases turns.len(),
{
    if turns.len() == 0 {
        Some((state, Seq::empty()))
    } else {
        match answered(state, turns.drop_last()) {
            None => None,
            Some((middle, before)) => if add_ask(middle) == turns.last().0 && !(middle.phase
                is Finished) {
                let (last, now) = add_step(middle, turns.last().1);
                Some((last, before + now))
            } else {
                None
            },
        }
    }
}

/// A piece of a file: its size, and the whole seconds that had passed once it was written.
pub struct Piece {
    pub size: u64,
    pub seconds: u64,
}

/// What became of a file: it could not be read or opened, it could not be added or its entry not be
/// begun, and where it is added in pieces, it broke off after them, while one was read or written.
pub struct Filing {
    pub unread: Option<Txt>,
    pub size: u64,
    pub refused: Option<Txt>,
    pub handle: ProgressHandle,
    pub pieces: Seq<Piece>,
    pub unread_piece: Option<Txt>,
    pub unwritten_piece: Option<(u64, Txt)>,
}

/// What lies at a path, and what became of it.
pub enum Thing {
    File { filing: Filing },
    /// A directory whose entry could not be added.
    Refused { why: Txt },
    /// A directory that could not be read.
    Closed { why: Txt },
    Dir { children: Seq<Child> },
}

/// What a directory hands out.
pub enum Child {
    Unreadable,
    Named { name: Txt, thing: Thing },
}

/// What is being done, and how.
pub struct Manner {
    pub style: AddStyle,
    pub verb: Verb,
}

/// Whether a file can have been added so: its pieces are no empty ones, and they came so quickly that
/// nothing was said of how far it is.
pub open spec fn is_filing(filing: Filing) -> bool {
    &&& forall|i: int|
        0 <= i < filing.pieces.len() ==> (#[trigger] filing.pieces[i]).size > 0
            && filing.pieces[i].seconds < 3
    &&& filing.unwritten_piece matches Some((size, _)) ==> size > 0
}

pub open spec fn makes_sense(thing: Thing) -> bool
    decreases thing, 0int,
{
    match thing {
        Thing::File { filing } => is_filing(filing),
        Thing::Dir { children } => all_make_sense(children, 0),
        _ => true,
    }
}

pub open spec fn all_make_sense(children: Seq<Child>, from: int) -> bool
    decreases children, children.len() - from,
{
    if 0 <= from < children.len() {
        (match children[from] {
            Child::Unreadable => true,
            Child::Named { thing, .. } => makes_sense(thing),
        }) && all_make_sense(children, from + 1)
    } else {
        true
    }
}

/// The size of a file that was opened, or why it was not.
pub open spec fn opening(filing: Filing) -> Reply<Txt> {
    match filing.unread {
        None => Reply::Opened(filing.size),
        Some(why) => Reply::Failed(why),
    }
}

/// The pieces of a file, from one on: each is read and written, up to an empty one.
pub open spec fn piece_turns(filing: Filing, from: int) -> Seq<Turn>
    decreases filing.pieces.len() - from,
{
    if 0 <= from < filing.pieces.len() {
        seq![
            (Ask::ReadChunk, Reply::Bytes(filing.pieces[from].size)),
            (Ask::WriteChunk, Reply::Done),
            (Ask::Elapsed, Reply::Seconds(filing.pieces[from].seconds)),
        ] + piece_turns(filing, from + 1)
    } else if filing.unread_piece is Some {
        seq![(Ask::ReadChunk, Reply::Failed(filing.unread_piece->0))]
    } else if filing.unwritten_piece is Some {
        seq![
            (Ask::ReadChunk, Reply::Bytes((filing.unwritten_piece->0).0)),
            (Ask::WriteChunk, Reply::Failed((filing.unwritten_piece->0).1)),
        ]
    } else {
        seq![(Ask::ReadChunk, Reply::Bytes(0))]
    }
}

/// The conversation about a file, which is called `rel` in the archive.
pub open spec fn file_turns(src: Txt, rel: Txt, how: Manner, filing: Filing) -> Seq<Turn> {
    let name = winpath::path_display_name(src);
    let add: Turn = (Ask::AddFile { src, rel }, outcome(filing.refused));
    match how.style {
        AddStyle::Streamed => seq![add],
        AddStyle::ReadFirst => if filing.unread is Some {
            seq![(Ask::ReadSource(src), outcome(filing.unread))]
        } else {
            seq![
                (Ask::ReadSource(src), Reply::Done),
                (Ask::AddRead(rel), outcome(filing.refused)),
            ]
        },
        AddStyle::Whole => if filing.unread is Some {
            seq![(Ask::OpenSource(src), opening(filing))]
        } else {
            seq![(Ask::OpenSource(src), opening(filing)), add]
        },
        AddStyle::Pieces => if filing.unread is Some {
            seq![(Ask::OpenSource(src), opening(filing))]
        } else {
            seq![
                (Ask::OpenSource(src), opening(filing)),
                (
                    Ask::BeginProgress(LogLevel::Normal, Message::Item(how.verb, name)),
                    Reply::Handle(filing.handle),
                ),
                (Ask::StartEntry(rel), outcome(filing.refused)),
            ] + (if filing.refused is Some {
                Seq::empty()
            } else {
                piece_turns(filing, 0)
            })
        },
    }
}

/// Why a file was not added, where it was not.
pub open spec fn file_failure(how: Manner, filing: Filing) -> Option<Txt> {
    if how.style != AddStyle::Streamed && filing.unread is Some {
        filing.unread
    } else if filing.refused is Some {
        filing.refused
    } else if how.style != AddStyle::Pieces {
        None
    } else if filing.unread_piece is Some {
        filing.unread_piece
    } else if filing.unwritten_piece is Some {
        Some((filing.unwritten_piece->0).1)
    } else {
        None
    }
}

/// What is carried out for a file: its line, except where it could not be read, and the error.
pub open spec fn file_effects(src: Txt, how: Manner, filing: Filing) -> Seq<Effect<Txt>> {
    let name = winpath::path_display_name(src);
    (if how.style != AddStyle::Streamed && filing.unread is Some {
        Seq::empty()
    } else if how.style == AddStyle::Pieces {
        seq![Effect::EndProgress(filing.handle, Message::Item(how.verb, name))]
    } else {
        seq![Effect::Log(LogLevel::Normal, Message::Item(how.verb, name))]
    }) + (match file_failure(how, filing) {
        None => Seq::empty(),
        Some(why) => seq![Effect::Log(LogLevel::Error, Message::Failure(how.verb, name, why))],
    })
}

pub open spec fn file_tally(how: Manner, filing: Filing) -> Tally {
    if file_failure(how, filing) is Some {
        tally(0, 0, 1)
    } else {
        tally(1, 0, 0)
    }
}

/// The conversation about what lies at `src` and is called `rel` in the archive.
pub open spec fn thing_turns(src: Txt, rel: Txt, how: Manner, thing: Thing) -> Seq<Turn>
    decreases thing, 0int,
{
    match thing {
        Thing::File { filing } => seq![(Ask::IsDir(src), Reply::Flag(false))] + file_turns(
            src,
            rel,
            how,
            filing,
        ),
        Thing::Refused { why } => seq![
            (Ask::IsDir(src), Reply::Flag(true)),
            (Ask::AddDir { src, rel }, Reply::Failed(why)),
        ],
        Thing::Closed { why } => seq![
            (Ask::IsDir(src), Reply::Flag(true)),
            (Ask::AddDir { src, rel }, Reply::Done),
            (Ask::OpenDir(src), Reply::Failed(why)),
        ],
        Thing::Dir { children } => seq![
            (Ask::IsDir(src), Reply::Flag(true)),
            (Ask::AddDir { src, rel }, Reply::Done),
            (Ask::OpenDir(src), Reply::Done),
        ] + child_turns(src, rel, how, children, 0) + seq![(Ask::NextEntry(src), Reply::End)],
    }
}

/// The conversation about what a directory hands out: each entry is called in the archive by the name
/// of the directory there, a slash, and its own name.
pub open spec fn child_turns(
    src: Txt,
    rel: Txt,
    how: Manner,
    children: Seq<Child>,
    from: int,
) -> Seq<Turn>
    decreases children, children.len() - from,
{
    if 0 <= from < children.len() {
        (match children[from] {
            Child::Unreadable => seq![
                (Ask::NextEntry(src), Reply::Unreadable),
                (Ask::Stop, Reply::Flag(false)),
            ],
            Child::Named { name, thing } => seq![
                (Ask::NextEntry(src), Reply::Entry(name)),
                (Ask::Stop, Reply::Flag(false)),
            ] + thing_turns(winpath::path_join(src, name), rel + seq!['/'] + name, how, thing),
        }) + child_turns(src, rel, how, children, from + 1)
    } else {
        Seq::empty()
    }
}

/// What is carried out for what lies at `src`.
pub open spec fn thing_effects(src: Txt, how: Manner, thing: Thing) -> Seq<Effect<Txt>>
    decreases thing, 0int,
{
    let name = winpath::path_display_name(src);
    match thing {
        Thing::File { filing } => file_effects(src, how, filing),
        Thing::Refused { why } | Thing::Closed { why } => seq![
            Effect::Log(LogLevel::Error, Message::Failure(how.verb, name, why)),
        ],
        Thing::Dir { children } => child_effects(src, how, children, 0),
    }
}

pub open spec fn child_effects(src: Txt, how: Manner, children: Seq<Child>, from: int) -> Seq<
    Effect<Txt>,
>
    decreases children, children.len() - from,
{
    if 0 <= from < children.len() {
        (match children[from] {
            Child::Unreadable => Seq::empty(),
            Child::Named { name, thing } => thing_effects(
                winpath::path_join(src, name),
                how,
                thing,
            ),
        }) + child_effects(src, how, children, from + 1)
    } else {
        Seq::empty()
    }
}

/// What lies at a path counts. Directories count only where something is wrong with them.
pub open spec fn thing_tally(how: Manner, thing: Thing) -> Tally
    decreases thing, 0int,
{
    match thing {
        Thing::File { filing } => file_tally(how, filing),
        Thing::Refused { .. } | Thing::Closed { .. } => tally(0, 0, 1),
        Thing::Dir { children } => child_tally(how, children, 0),
    }
}

pub open spec fn child_tally(how: Manner, children: Seq<Child>, from: int) -> Tally
    decreases children, children.len() - from,
{
    if 0 <= from < children.len() {
        sum_of(
            match children[from] {
                Child::Unreadable => tally(0, 0, 0),
                Child::Named { thing, .. } => thing_tally(how, thing),
            },
            child_tally(how, children, from + 1),
        )
    } else {
        tally(0, 0, 0)
    }
}

/// What is to be added: names of a directory on the disk, and the directory of the archive.
pub struct Wanted {
    pub dir: Txt,
    pub names: Seq<Txt>,
    pub inner: Txt,
    pub how: Manner,
}

/// The conversation about the names from one place on.
pub open spec fn names_turns(w: Wanted, things: Seq<Thing>, from: int) -> Seq<Turn>
    decreases things.len() - from,
{
    if 0 <= from < things.len() {
        seq![(Ask::Stop, Reply::Flag(false))] + thing_turns(
            winpath::path_join(w.dir, w.names[from]),
            path_in(w.inner, w.names[from]),
            w.how,
            things[from],
        ) + names_turns(w, things, from + 1)
    } else {
        Seq::empty()
    }
}

pub open spec fn names_effects(w: Wanted, things: Seq<Thing>, from: int) -> Seq<Effect<Txt>>
    decreases things.len() - from,
{
    if 0 <= from < things.len() {
        thing_effects(winpath::path_join(w.dir, w.names[from]), w.how, things[from])
            + names_effects(w, things, from + 1)
    } else {
        Seq::empty()
    }
}

pub open spec fn names_tally(w: Wanted, things: Seq<Thing>, from: int) -> Tally
    decreases things.len() - from,
{
    if 0 <= from < things.len() {
        sum_of(thing_tally(w.how, things[from]), names_tally(w, things, from + 1))
    } else {
        tally(0, 0, 0)
    }
}

/// Whether this can lie at the names.
pub open spec fn fit_names(w: Wanted, things: Seq<Thing>) -> bool {
    &&& things.len() == w.names.len()
    &&& forall|i: int| 0 <= i < things.len() ==> makes_sense(#[trigger] things[i])
}

/// The outcome of a conversation that goes on after `out`.
spec fn going_on(out: AddOutcome, turns: Seq<Turn>) -> Option<AddOutcome> {
    match answered(out.0, turns) {
        None => None,
        Some((last, effects)) => Some((last, out.1 + effects)),
    }
}

/// What a conversation carried out.
spec fn carried(out: Option<AddOutcome>) -> Seq<Effect<Txt>> {
    match out {
        Some((_, effects)) => effects,
        None => Seq::empty(),
    }
}

proof fn lemma_two(state: AddModel, a: Seq<Turn>, b: Seq<Turn>)
    ensures
        answered(state, a) is None ==> answered(state, a + b) is None,
        answered(state, a) matches Some(out) ==> answered(state, a + b) == going_on(out, b),
    decreases b.len(),
{
    if b.len() == 0 {
        assert(a + b =~= a);
        if let Some(out) = answered(state, a) {
            assert(out.1 + Seq::<Effect<Txt>>::empty() =~= out.1);
        }
    } else {
        lemma_two(state, a, b.drop_last());
        assert((a + b).drop_last() =~= a + b.drop_last());
        if let Some(out) = answered(state, a) {
            if let Some((middle, before)) = answered(out.0, b.drop_last()) {
                let now = add_step(middle, b.last().1).1;
                assert(out.1 + (before + now) =~= (out.1 + before) + now);
            }
        }
    }
}

proof fn lemma_one(state: AddModel, turn: Turn)
    requires
        add_ask(state) == turn.0,
        !(state.phase is Finished),
    ensures
        answered(state, seq![turn]) == Some(add_step(state, turn.1)),
{
    assert(seq![turn].drop_last() =~= Seq::<Turn>::empty());
    assert(answered(state, Seq::<Turn>::empty()) == Some((state, Seq::<Effect<Txt>>::empty())));
    assert(Seq::<Effect<Txt>>::empty() + add_step(state, turn.1).1 =~= add_step(
        state,
        turn.1,
    ).1);
}

proof fn lemma_pair(state: AddModel, a: Turn, b: Turn)
    requires
        add_ask(state) == a.0,
        add_ask(add_step(state, a.1).0) == b.0,
        !(state.phase is Finished),
        !(add_step(state, a.1).0.phase is Finished),
    ensures
        ({
            let one = add_step(state, a.1);
            let two = add_step(one.0, b.1);
            answered(state, seq![a, b]) == Some((two.0, one.1 + two.1))
        }),
{
    lemma_one(state, a);
    lemma_one(add_step(state, a.1).0, b);
    lemma_two(state, seq![a], seq![b]);
    assert(seq![a, b] =~= seq![a] + seq![b]);
}

proof fn lemma_three(state: AddModel, a: Turn, b: Turn, c: Turn)
    requires
        add_ask(state) == a.0,
        add_ask(add_step(state, a.1).0) == b.0,
        !(state.phase is Finished),
        !(add_step(state, a.1).0.phase is Finished),
        add_ask(add_step(add_step(state, a.1).0, b.1).0) == c.0,
        !(add_step(add_step(state, a.1).0, b.1).0.phase is Finished),
    ensures
        ({
            let one = add_step(state, a.1);
            let two = add_step(one.0, b.1);
            let three = add_step(two.0, c.1);
            answered(state, seq![a, b, c]) == Some((three.0, one.1 + two.1 + three.1))
        }),
{
    lemma_pair(state, a, b);
    lemma_one(add_step(add_step(state, a.1).0, b.1).0, c);
    lemma_two(state, seq![a, b], seq![c]);
    assert(seq![a, b, c] =~= seq![a, b] + seq![c]);
}

/// The state that waits for `phase`.
spec fn at(core: AddCoreModel, phase: AddPhase<Txt>) -> AddModel {
    AddModel { core, phase }
}

/// An addition whose counts went on.
spec fn tallied(core: AddCoreModel, t: Tally) -> AddCoreModel {
    AddCoreModel { sum: counted_on(core.sum, t), ..core }
}

/// How an addition adds.
spec fn manner(core: AddCoreModel) -> Manner {
    Manner { style: core.style, verb: core.verb }
}

/// An item is done, with its counts and effects.
spec fn done_with(core: AddCoreModel, t: Tally, effects: Seq<Effect<Txt>>) -> Option<AddOutcome> {
    let next = after_item(tallied(core, t));
    Some((next.0, effects + next.1))
}

proof fn lemma_one_more(core: AddCoreModel)
    ensures
        tallied(core, tally(1, 0, 0)) == (AddCoreModel { sum: core.sum.plus_ok(), ..core }),
        tallied(core, tally(0, 0, 1)) == (AddCoreModel { sum: core.sum.plus_err(), ..core }),
        tallied(core, tally(0, 0, 0)) == core,
{
}

proof fn lemma_tallies_add(core: AddCoreModel, a: Tally, b: Tally)
    ensures
        tallied(tallied(core, a), b) == tallied(core, sum_of(a, b)),
{
}

#[verifier::rlimit(60)]
proof fn lemma_pieces(
    core: AddCoreModel,
    item: Added<Txt>,
    written: Written,
    filing: Filing,
    from: int,
)
    requires
        is_filing(filing),
        filing.unread is None,
        filing.refused is None,
        written.handle == filing.handle,
        core.style == AddStyle::Pieces,
        item.name == winpath::path_display_name(item.src),
        0 <= from <= filing.pieces.len(),
    ensures
        answered(at(core, AddPhase::Read { item, written }), piece_turns(filing, from))
            == done_with(
            core,
            file_tally(manner(core), filing),
            file_effects(item.src, manner(core), filing),
        ),
    decreases filing.pieces.len() - from,
{
    let state = at(core, AddPhase::Read { item, written });
    let turns = piece_turns(filing, from);
    let due = done_with(
        core,
        file_tally(manner(core), filing),
        file_effects(item.src, manner(core), filing),
    );
    lemma_one_more(core);
    if from < filing.pieces.len() {
        let piece = filing.pieces[from];
        let a: Turn = (Ask::ReadChunk, Reply::Bytes(piece.size));
        let b: Turn = (Ask::WriteChunk, Reply::Done);
        let c: Turn = (Ask::Elapsed, Reply::Seconds(piece.seconds));
        let next = farther(written, piece.size);
        lemma_three(state, a, b, c);
        lemma_pieces(core, item, next, filing, from + 1);
        lemma_two(state, seq![a, b, c], piece_turns(filing, from + 1));
    } else if filing.unread_piece is Some || filing.unwritten_piece is None {
        lemma_one(state, turns[0]);
    } else {
        lemma_pair(state, turns[0], turns[1]);
    }
    assert(carried(answered(state, turns)) =~= carried(due));
}

#[verifier::rlimit(60)]
proof fn lemma_file(core: AddCoreModel, item: Added<Txt>, filing: Filing)
    requires
        is_filing(filing),
        item.name == winpath::path_display_name(item.src),
    ensures
        answered(
            at(core, AddPhase::IsDir { item }),
            thing_turns(item.src, item.rel, manner(core), Thing::File { filing }),
        ) == done_with(
            core,
            file_tally(manner(core), filing),
            file_effects(item.src, manner(core), filing),
        ),
{
    let how = manner(core);
    let state = at(core, AddPhase::IsDir { item });
    let first: Turn = (Ask::IsDir(item.src), Reply::Flag(false));
    let rest = file_turns(item.src, item.rel, how, filing);
    let turns = thing_turns(item.src, item.rel, how, Thing::File { filing });
    let due = done_with(core, file_tally(how, filing), file_effects(item.src, how, filing));
    let next = add_step(state, Reply::Flag(false)).0;
    lemma_one_more(core);
    lemma_one(state, first);
    lemma_two(state, seq![first], rest);
    match how.style {
        AddStyle::Streamed => {
            lemma_one(next, rest[0]);
        },
        AddStyle::ReadFirst | AddStyle::Whole => {
            if filing.unread is Some {
                lemma_one(next, rest[0]);
            } else {
                lemma_pair(next, rest[0], rest[1]);
            }
        },
        AddStyle::Pieces => {
            if filing.unread is Some {
                lemma_one(next, rest[0]);
            } else {
                let front = seq![rest[0], rest[1], rest[2]];
                lemma_three(next, rest[0], rest[1], rest[2]);
                if filing.refused is Some {
                    assert(rest =~= front);
                } else {
                    let written = Written {
                        handle: filing.handle,
                        tracker: crate::operation::fresh_tracker(),
                        done: 0,
                        total: filing.size,
                    };
                    lemma_pieces(core, item, written, filing, 0);
                    lemma_two(next, front, piece_turns(filing, 0));
                    assert(rest =~= front + piece_turns(filing, 0));
                }
            }
        },
    }
    assert(carried(answered(state, turns)) =~= carried(due));
}

#[verifier::rlimit(60)]
proof fn lemma_thing(core: AddCoreModel, item: Added<Txt>, thing: Thing)
    requires
        makes_sense(thing),
        item.name == winpath::path_display_name(item.src),
    ensures
        answered(
            at(core, AddPhase::IsDir { item }),
            thing_turns(item.src, item.rel, manner(core), thing),
        ) == done_with(
            core,
            thing_tally(manner(core), thing),
            thing_effects(item.src, manner(core), thing),
        ),
    decreases thing, 0int,
{
    let how = manner(core);
    let state = at(core, AddPhase::IsDir { item });
    let turns = thing_turns(item.src, item.rel, how, thing);
    let due = done_with(core, thing_tally(how, thing), thing_effects(item.src, how, thing));
    lemma_one_more(core);
    match thing {
        Thing::File { filing } => {
            lemma_file(core, item, filing);
        },
        Thing::Refused { .. } => {
            lemma_pair(state, turns[0], turns[1]);
            assert(carried(answered(state, turns)) =~= carried(due));
        },
        Thing::Closed { .. } => {
            lemma_three(state, turns[0], turns[1], turns[2]);
            assert(carried(answered(state, turns)) =~= carried(due));
        },
        Thing::Dir { children } => {
            let a: Turn = (Ask::IsDir(item.src), Reply::Flag(true));
            let b: Turn = (Ask::AddDir { src: item.src, rel: item.rel }, Reply::Done);
            let c: Turn = (Ask::OpenDir(item.src), Reply::Done);
            let close: Turn = (Ask::NextEntry(item.src), Reply::End);
            let front = seq![a, b, c];
            let inner = child_turns(item.src, item.rel, how, children, 0);
            let frame = AddFrame { src: item.src, rel: item.rel };
            let inside = AddCoreModel { frames: core.frames.push(frame), ..core };
            let t = child_tally(how, children, 0);
            lemma_three(state, a, b, c);
            lemma_children(inside, children, 0);
            lemma_two(state, front, inner);
            let left = tallied(inside, t);
            assert(left.frames.drop_last() =~= core.frames);
            lemma_one(at(left, AddPhase::NextEntry), close);
            lemma_two(state, front + inner, seq![close]);
            assert((AddCoreModel { frames: core.frames, ..left }) == tallied(core, t));
            assert(carried(answered(state, turns)) =~= carried(due));
        },
    }
}

#[verifier::rlimit(60)]
proof fn lemma_children(core: AddCoreModel, children: Seq<Child>, from: int)
    requires
        core.frames.len() > 0,
        0 <= from <= children.len(),
        all_make_sense(children, from),
    ensures
        answered(
            at(core, AddPhase::NextEntry),
            child_turns(
                core.frames.last().src,
                core.frames.last().rel,
                manner(core),
                children,
                from,
            ),
        ) == Some(
            (
                at(tallied(core, child_tally(manner(core), children, from)), AddPhase::NextEntry),
                child_effects(core.frames.last().src, manner(core), children, from),
            ),
        ),
    decreases children, children.len() - from,
{
    let how = manner(core);
    let src = core.frames.last().src;
    let rel = core.frames.last().rel;
    let state = at(core, AddPhase::NextEntry);
    lemma_one_more(core);
    if from < children.len() {
        let rest = child_turns(src, rel, how, children, from + 1);
        match children[from] {
            Child::Unreadable => {
                let a: Turn = (Ask::NextEntry(src), Reply::Unreadable);
                let b: Turn = (Ask::Stop, Reply::Flag(false));
                lemma_pair(state, a, b);
                lemma_children(core, children, from + 1);
                lemma_two(state, seq![a, b], rest);
            },
            Child::Named { name, thing } => {
                let a: Turn = (Ask::NextEntry(src), Reply::Entry(name));
                let b: Turn = (Ask::Stop, Reply::Flag(false));
                let item = item_at(winpath::path_join(src, name), rel + seq!['/'] + name);
                let t = thing_tally(how, thing);
                assert(rel.push('/') + name =~= rel + seq!['/'] + name);
                lemma_pair(state, a, b);
                lemma_thing(core, item, thing);
                lemma_two(state, seq![a, b], thing_turns(item.src, item.rel, how, thing));
                lemma_children(tallied(core, t), children, from + 1);
                lemma_tallies_add(core, t, child_tally(how, children, from + 1));
                lemma_two(
                    state,
                    seq![a, b] + thing_turns(item.src, item.rel, how, thing),
                    rest,
                );
            },
        }
        assert(carried(answered(state, child_turns(src, rel, how, children, from)))
            =~= child_effects(src, how, children, from));
    }
}

/// What an addition is to add.
spec fn wanted(core: AddCoreModel) -> Wanted {
    Wanted { dir: core.src_dir, names: core.names, inner: core.prefix, how: manner(core) }
}

#[verifier::rlimit(60)]
proof fn lemma_names(core: AddCoreModel, things: Seq<Thing>)
    requires
        core.frames.len() == 0,
        0 <= core.next <= core.names.len(),
        fit_names(wanted(core), things),
    ensures
        answered(after_item(core).0, names_turns(wanted(core), things, core.next)) == Some(
            (
                at(
                    AddCoreModel {
                        next: core.names.len() as int,
                        ..tallied(core, names_tally(wanted(core), things, core.next))
                    },
                    AddPhase::Finished,
                ),
                names_effects(wanted(core), things, core.next),
            ),
        ),
    decreases core.names.len() - core.next,
{
    let w = wanted(core);
    lemma_one_more(core);
    if core.next < core.names.len() {
        let name = core.names[core.next];
        let thing = things[core.next];
        let state = at(core, AddPhase::NextName);
        let stop: Turn = (Ask::Stop, Reply::Flag(false));
        let begun = AddCoreModel { next: core.next + 1, ..core };
        let src = winpath::path_join(core.src_dir, name);
        let rel = path_in(core.prefix, name);
        let mine = thing_turns(src, rel, w.how, thing);
        let rest = names_turns(w, things, core.next + 1);
        let t = thing_tally(w.how, thing);
        lemma_path_in(core.prefix, name);
        lemma_one(state, stop);
        lemma_thing(begun, item_at(src, rel), thing);
        lemma_two(state, seq![stop], mine);
        lemma_names(tallied(begun, t), things);
        lemma_tallies_add(core, t, names_tally(w, things, core.next + 1));
        lemma_two(state, seq![stop] + mine, rest);
        assert(carried(answered(state, names_turns(w, things, core.next))) =~= names_effects(
            w,
            things,
            core.next,
        ));
    }
}

/// Everything that the names stand for, and everything below every directory that can be read, is
/// added under its place: a name under the directory of the archive, and what is in a directory under
/// that directory. An addition asks these questions and no others, carries out these effects and no
/// others, and finishes with these counts.
pub proof fn law_everything_is_added(w: Wanted, things: Seq<Thing>, sum: OpSummary)
    requires
        fit_names(w, things),
    ensures
        answered(
            add_start(w.dir, w.names, w.inner, w.how.style, w.how.verb, sum),
            names_turns(w, things, 0),
        ) matches Some((last, effects)) && {
            &&& effects == names_effects(w, things, 0)
            &&& last.phase is Finished
            &&& last.core.sum == counted_on(sum, names_tally(w, things, 0))
            &&& last.core.verb == w.how.verb
        },
{
    let core = AddCoreModel {
        src_dir: w.dir,
        names: w.names,
        prefix: w.inner,
        style: w.how.style,
        verb: w.how.verb,
        next: 0,
        frames: Seq::empty(),
        sum,
    };
    lemma_names(core, things);
}

/// Of a file that is added in pieces, each piece that was written counts with its size, and the line of
/// the file shows what all pieces so far are of its size, where that is due; nothing else is carried
/// out, and the next piece is read.
pub proof fn law_pieces_count_towards_the_size(
    state: AddModel,
    item: Added<Txt>,
    written: Written,
    piece: u64,
    seconds: u64,
)
    requires
        state.phase == (AddPhase::<Txt>::Write { item, written, piece }),
        written.done + piece <= u64::MAX,
    ensures
        ({
            let (counted, none) = add_step(state, Reply::Done);
            let (next, effects) = add_step(counted, Reply::Seconds(seconds));
            let done = (written.done + piece) as u64;
            &&& none.len() == 0
            &&& add_ask(counted) == Ask::<Txt>::Elapsed
            &&& add_ask(next) == Ask::<Txt>::ReadChunk
            &&& next.core == state.core
            &&& next.phase matches AddPhase::Read { written: now, .. } && now.done == done
                && now.total == written.total && now.handle == written.handle
            &&& effects == (match written.tracker.due(seconds, done, written.total) {
                Some(pct) => seq![
                    Effect::UpdateProgress(
                        written.handle,
                        Message::ItemProgress(state.core.verb, item.name, pct),
                    ),
                ],
                None => Seq::empty(),
            })
        }),
{
}

/// A request to stop an addition is heard before every name and every entry, and finishes it: nothing
/// more is added, and the counts stay as they are, marked as stopped.
pub proof fn law_a_stopped_addition_finishes(state: AddModel)
    requires
        add_ask(state) == Ask::<Txt>::Stop,
    ensures
        ({
            let (last, effects) = add_step(state, Reply::Flag(true));
            &&& last.phase is Finished
            &&& effects.len() == 0
            &&& last.core.sum == (OpSummary { cancelled: true, ..state.core.sum })
        }),
{
}

} // verus!
