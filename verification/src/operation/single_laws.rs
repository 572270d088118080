//! What the compression of a single file comes to.

use crate::operation::compress::{xz_ask, xz_step, XzModel, XzOutcome, XzStage};
use crate::operation::compress_laws::{archive_error, last_lines};
use crate::operation::copy_laws::{outcome, Turn};
use crate::operation::messages::{Message, Verb};
use crate::operation::{ArchiveFormat, Ask, Effect, LogLevel, OpSummary, Reply, Txt};
use vstd::prelude::*;

verus! {

/// Where the compression stands after a conversation, and what it carried out on the way; nothing where it
/// did not ask these questions.
pub open spec fn answered(state: XzModel, turns: Seq<Turn>) -> Option<XzOutcome>
    decreases turns.len(),
{
    if turns.len() == 0 {
        Some((state, Seq::empty()))
    } else {
        match answered(state, turns.drop_last()) {
            None => None,
            Some((middle, before)) => if xz_ask(middle) == turns.last().0 {
                let (last, now) = xz_step(middle, turns.last().1);
                Some((last, before + now))
            } else {
                None
            },
        }
    }
}

/// How the compression of a file went: the sizes of its pieces, and where it broke off.
pub struct Course {
    pub size: u64,
    pub pieces: Seq<u64>,
    pub unread: Option<Txt>,
    pub unwritten: Option<(u64, Txt)>,
    pub unfinished: Option<Txt>,
}

/// Whether no piece is empty.
pub open spec fn is_course(course: Course) -> bool {
    &&& forall|i: int| 0 <= i < course.pieces.len() ==> #[trigger] course.pieces[i] > 0
    &&& course.unwritten matches Some((size, _)) ==> size > 0
}

/// The pieces from one on: before each the user may stop, and an empty one is the end of the file.
pub open spec fn piece_turns(course: Course, from: int) -> Seq<Turn>
    decreases course.pieces.len() - from,
{
    let stop: Turn = (Ask::Stop, Reply::Flag(false));
    if 0 <= from < course.pieces.len() {
        seq![
            stop,
            (Ask::ReadChunk, Reply::Bytes(course.pieces[from])),
            (Ask::WriteChunk, Reply::Done),
        ] + piece_turns(course, from + 1)
    } else if course.unread is Some {
        seq![stop, (Ask::ReadChunk, Reply::Failed(course.unread->0))]
    } else if course.unwritten is Some {
        seq![
            stop,
            (Ask::ReadChunk, Reply::Bytes((course.unwritten->0).0)),
            (Ask::WriteChunk, Reply::Failed((course.unwritten->0).1)),
        ]
    } else {
        seq![stop, (Ask::ReadChunk, Reply::Bytes(0))]
    }
}

/// Why the file could not be read or written to its end.
pub open spec fn breakage(course: Course) -> Option<Txt> {
    if course.unread is Some {
        course.unread
    } else if course.unwritten is Some {
        Some((course.unwritten->0).1)
    } else {
        None
    }
}

/// The counts of the compression of a single file.
pub open spec fn final_counts(course: Course) -> OpSummary {
    if breakage(course) is Some || course.unfinished is Some {
        OpSummary { ok: 0, skip: 0, err: 1, cancelled: false }
    } else {
        OpSummary { ok: 1, skip: 0, err: 0, cancelled: false }
    }
}

/// What is carried out after the line of the file.
pub open spec fn last_effects(name: Txt, dst: Txt, course: Course) -> Seq<Effect<Txt>> {
    (match breakage(course) {
        Some(why) => seq![
            Effect::Log(LogLevel::Error, Message::Failure(Verb::Compress, name, why)),
            Effect::RemoveFile(dst),
        ],
        None => archive_error(dst, Verb::Compress, course.unfinished),
    }) + last_lines(Verb::Compress, final_counts(course))
}

/// The compression of a file before its first reply.
pub open spec fn xz_first(src: Txt, name: Txt, dst: Txt) -> XzModel {
    XzModel {
        src,
        name,
        dst,
        sum: OpSummary { ok: 0, skip: 0, err: 0, cancelled: false },
        stage: XzStage::OpenSource,
    }
}

/// The outcome of a conversation that goes on after `out`.
spec fn going_on(out: XzOutcome, turns: Seq<Turn>) -> Option<XzOutcome> {
    match answered(out.0, turns) {
        None => None,
        Some((last, effects)) => Some((last, out.1 + effects)),
    }
}

/// What a conversation carried out.
spec fn carried(out: Option<XzOutcome>) -> Seq<Effect<Txt>> {
    match out {
        Some((_, effects)) => effects,
        None => Seq::empty(),
    }
}

proof fn lemma_two(state: XzModel, a: Seq<Turn>, b: Seq<Turn>)
    ensures
        answered(state, a) is None ==> answered(state, a + b) is None,
        answered(state, a) matches Some(out) ==> answered(state, a + b) == going_on(out, b),
    decreases b.len(),
{
    if b.len() == 0 {
        assert(a + b =~= a);
        if let Some(out) = answered(state, a) {
            assert(out.1 + Seq::<Effect<Txt>>::empty() =~= out.1);
        }
    } else {
        lemma_two(state, a, b.drop_last());
        assert((a + b).drop_last() =~= a + b.drop_last());
        if let Some(out) = answered(state, a) {
            if let Some((middle, before)) = answered(out.0, b.drop_last()) {
                let now = xz_step(middle, b.last().1).1;
                assert(out.1 + (before + now) =~= (out.1 + before) + now);
            }
        }
    }
}

proof fn lemma_one(state: XzModel, turn: Turn)
    requires
        xz_ask(state) == turn.0,
    ensures
        answered(state, seq![turn]) == Some(xz_step(state, turn.1)),
{
    assert(seq![turn].drop_last() =~= Seq::<Turn>::empty());
    assert(answered(state, Seq::<Turn>::empty()) == Some((state, Seq::<Effect<Txt>>::empty())));
    assert(Seq::<Effect<Txt>>::empty() + xz_step(state, turn.1).1 =~= xz_step(
        state,
        turn.1,
    ).1);
}

proof fn lemma_pair(state: XzModel, a: Turn, b: Turn)
    requires
        xz_ask(state) == a.0,
        xz_ask(xz_step(state, a.1).0) == b.0,
    ensures
        ({
            let one = xz_step(state, a.1);
            let two = xz_step(one.0, b.1);
            answered(state, seq![a, b]) == Some((two.0, one.1 + two.1))
        }),
{
    lemma_one(state, a);
    lemma_one(xz_step(state, a.1).0, b);
    lemma_two(state, seq![a], seq![b]);
    assert(seq![a, b] =~= seq![a] + seq![b]);
}

proof fn lemma_three(state: XzModel, a: Turn, b: Turn, c: Turn)
    requires
        xz_ask(state) == a.0,
        xz_ask(xz_step(state, a.1).0) == b.0,
        xz_ask(xz_step(xz_step(state, a.1).0, b.1).0) == c.0,
    ensures
        ({
            let one = xz_step(state, a.1);
            let two = xz_step(one.0, b.1);
            let three = xz_step(two.0, c.1);
            answered(state, seq![a, b, c]) == Some((three.0, one.1 + two.1 + three.1))
        }),
{
    lemma_pair(state, a, b);
    lemma_one(xz_step(xz_step(state, a.1).0, b.1).0, c);
    lemma_two(state, seq![a, b], seq![c]);
    assert(seq![a, b, c] =~= seq![a, b] + seq![c]);
}

#[verifier::rlimit(60)]
proof fn lemma_pieces(state: XzModel, course: Course, from: int)
    requires
        is_course(course),
        0 <= from <= course.pieces.len(),
        state.stage == XzStage::Poll,
        state.sum == (OpSummary { ok: 0, skip: 0, err: 0, cancelled: false }),
    ensures
        answered(
            state,
            piece_turns(course, from) + seq![(Ask::Finish, outcome(course.unfinished))],
        ) matches Some((last, effects)) && {
            &&& effects == last_effects(state.name, state.dst, course)
            &&& xz_ask(last) == Ask::<Txt>::Ended(final_counts(course))
        },
    decreases course.pieces.len() - from,
{
    let close: Turn = (Ask::Finish, outcome(course.unfinished));
    let turns = piece_turns(course, from);
    let all = turns + seq![close];
    if from < course.pieces.len() {
        let rest = piece_turns(course, from + 1) + seq![close];
        lemma_three(state, turns[0], turns[1], turns[2]);
        lemma_pieces(state, course, from + 1);
        lemma_two(state, seq![turns[0], turns[1], turns[2]], rest);
        assert(all =~= seq![turns[0], turns[1], turns[2]] + rest);
        assert(carried(answered(state, all)) =~= last_effects(state.name, state.dst, course));
    } else {
        if course.unread is None && course.unwritten is Some {
            lemma_three(state, turns[0], turns[1], turns[2]);
        } else {
            lemma_pair(state, turns[0], turns[1]);
        }
        let (middle, before) = answered(state, turns)->0;
        lemma_one(middle, close);
        lemma_two(state, turns, seq![close]);
        assert(carried(answered(state, all)) =~= last_effects(state.name, state.dst, course));
    }
}

/// A single file that nobody stops is read piece by piece to its end and written; it counts as dealt
/// with only where the compressed file could be closed. Where something could not be read or written,
/// the compressed file is removed, and that is the one error.
pub proof fn law_a_file_is_compressed_whole(src: Txt, name: Txt, dst: Txt, course: Course)
    requires
        is_course(course),
    ensures
        ({
            let line: Effect<Txt> = Effect::Log(
                LogLevel::Normal,
                Message::Item(Verb::Compress, name),
            );
            &&& answered(
                xz_first(src, name, dst),
                seq![
                    (Ask::OpenSource(src), Reply::Opened(course.size)),
                    (Ask::CreateArchive { path: dst, format: ArchiveFormat::Xz }, Reply::Done),
                ] + (piece_turns(course, 0) + seq![(Ask::Finish, outcome(course.unfinished))]),
            ) matches Some((last, effects)) && {
                &&& effects == seq![line] + last_effects(name, dst, course)
                &&& xz_ask(last) == Ask::<Txt>::Ended(final_counts(course))
            }
        }),
{
    let line: Effect<Txt> = Effect::Log(LogLevel::Normal, Message::Item(Verb::Compress, name));
    let first = xz_first(src, name, dst);
    let a: Turn = (Ask::OpenSource(src), Reply::Opened(course.size));
    let b: Turn = (Ask::CreateArchive { path: dst, format: ArchiveFormat::Xz }, Reply::Done);
    let rest = piece_turns(course, 0) + seq![(Ask::Finish, outcome(course.unfinished))];
    lemma_pair(first, a, b);
    lemma_pieces(XzModel { stage: XzStage::Poll, ..first }, course, 0);
    lemma_two(first, seq![a, b], rest);
    assert(carried(answered(first, seq![a, b] + rest)) =~= seq![line] + last_effects(
        name,
        dst,
        course,
    ));
}

/// A file that cannot be opened, or for which no compressed file can be made, is one error and
/// nothing else. What was left of a compressed file that broke while it was made is removed.
pub proof fn law_no_file_no_compression(
    src: Txt,
    name: Txt,
    dst: Txt,
    size: u64,
    why: Txt,
    broken: bool,
)
    ensures
        ({
            let sum = OpSummary { ok: 0, skip: 0, err: 1, cancelled: false };
            let first = xz_first(src, name, dst);
            let opened = xz_step(first, Reply::Opened(size)).0;
            let unread = xz_step(first, Reply::Failed(why));
            let unmade = xz_step(
                opened,
                if broken {
                    Reply::Broken(why)
                } else {
                    Reply::Failed(why)
                },
            );
            &&& unread.1 == seq![
                Effect::Log(LogLevel::Error, Message::Failure(Verb::Compress, name, why)),
            ] + last_lines(Verb::Compress, sum)
            &&& xz_ask(unread.0) == Ask::<Txt>::Ended(sum)
            &&& unmade.1 == (if broken {
                seq![Effect::RemoveFile(dst)]
            } else {
                Seq::empty()
            }) + archive_error(dst, Verb::Compress, Some(why)) + last_lines(Verb::Compress, sum)
            &&& xz_ask(unmade.0) == Ask::<Txt>::Ended(sum)
        }),
{
    let sum = OpSummary { ok: 0, skip: 0, err: 1, cancelled: false };
    let first = xz_first(src, name, dst);
    let opened = xz_step(first, Reply::Opened(size)).0;
    assert(xz_step(first, Reply::Failed(why)).1 =~= seq![
        Effect::Log(LogLevel::Error, Message::Failure(Verb::Compress, name, why)),
    ] + last_lines(Verb::Compress, sum));
    assert(xz_step(opened, Reply::Failed(why)).1 =~= Seq::empty() + archive_error(
        dst,
        Verb::Compress,
        Some(why),
    ) + last_lines(Verb::Compress, sum));
    assert(xz_step(opened, Reply::Broken(why)).1 =~= seq![Effect::RemoveFile(dst)] + archive_error(
        dst,
        Verb::Compress,
        Some(why),
    ) + last_lines(Verb::Compress, sum));
}

} // verus!
