//! What an extraction comes to, told by what is in the archive and on the disk.

use crate::archive;
use crate::archive::ArchiveEntry;
use crate::archive_laws::{
    is_under, law_directories_are_said_or_used, law_safe_names, lemma_path_in, path_in,
};
use crate::operation;
use crate::operation::copy_laws::{counted_on, outcome, sum_of, tally, Tally, Turn};
use crate::operation::extract::{
    after_item, entered, extract_ask, extract_start, extract_step, ExtractCoreModel,
    ExtractFrameModel, ExtractModel, ExtractOutcome, ExtractPhase, Found, BAD_NAME,
};
use crate::operation::messages::{Message, Verb};
use crate::operation::{Ask, ConflictResolution, Effect, LogLevel, OpSummary, Reply, Txt};
use crate::winpath;
use vstd::prelude::*;

verus! {

/// Where an extraction stands after a conversation, and what it carried out on the way; nothing where it
/// did not ask these questions.
pub open spec fn answered(state: ExtractModel, turns: Seq<Turn>) -> Option<ExtractOutcome>
    decreases turns.len(),
{
    if turns.len() == 0 {
        Some((state, Seq::empty()))
    } else {
        match answered(state, turns.drop_last()) {
            None => None,
            Some((middle, before)) => if extract_ask(middle) == turns.last().0 {
                let (last, now) = extract_step(middle, turns.last().1);
                Some((last, before + now))
            } else {
                None
            },
        }
    }
}

/// How the question ended whether a file is written under a name.
pub enum Leave {
    /// Nothing is there.
    Free,
    /// The user leaves it to the dates; the file that is there has this one.
    Newest { there: Option<i64> },
    Overwrite,
    OverwriteForce,
    Skip,
    /// The user gives a name that cannot be used, or the same.
    NoName(Txt),
}

/// What an entry of the archive is, and what became of it.
pub enum Thing {
    /// Its name cannot be used on the disk.
    Unsafe,
    /// A file. The user gave the names `renames` in turn; it could not be read, or not be written.
    File { renames: Seq<Txt>, leave: Leave, unread: Option<Txt>, unwritten: Option<Txt> },
    /// A directory that could not be made.
    Unmade { why: Txt },
    /// A directory, which was there already or was made.
    Dir { there: bool, things: Seq<Thing> },
}

/// Whether a name can be used on the disk: it has no separator and no colon, and is more than one or
/// two dots.
pub open spec fn is_usable(name: Txt) -> bool {
    &&& forall|i: int| 0 <= i < name.len() ==> name[i] != '/' && name[i] != '\\' && name[i] != ':'
    &&& name.len() > 2 || exists|i: int| 0 <= i < name.len() && name[i] != '.'
}

/// Whether a path of the archive is a directory: an entry says so, or lies below it.
pub open spec fn is_directory(entries: Seq<ArchiveEntry<Txt>>, path: Txt) -> bool {
    exists|i: int|
        0 <= i < entries.len() && ((#[trigger] entries[i]).path == path && entries[i].is_dir
            || is_under(entries[i].path, path))
}

/// Whether the file is written in the end; `time` is that of the entry.
pub open spec fn is_written(time: Option<i64>, leave: Leave) -> bool {
    match leave {
        Leave::Free | Leave::Overwrite | Leave::OverwriteForce => true,
        Leave::Newest { there } => !(time is Some && there is Some && time->0 <= there->0),
        Leave::Skip | Leave::NoName(_) => false,
    }
}

/// The name once the user gave all names.
pub open spec fn final_name(name: Txt, renames: Seq<Txt>) -> Txt {
    if renames.len() == 0 {
        name
    } else {
        renames.last()
    }
}

/// Whether each of the names can be used and is another one, and the last answer gives none.
pub open spec fn are_other_names(name: Txt, renames: Seq<Txt>, leave: Leave) -> bool
    decreases renames.len(),
{
    if renames.len() == 0 {
        leave matches Leave::NoName(new) ==> !is_usable(new) || new == name
    } else {
        &&& is_usable(renames[0])
        &&& renames[0] != name
        &&& are_other_names(renames[0], renames.drop_first(), leave)
    }
}

/// Whether what `name` stands for in the directory `inner` of the archive can be this.
pub open spec fn makes_sense(
    entries: Seq<ArchiveEntry<Txt>>,
    inner: Txt,
    name: Txt,
    thing: Thing,
) -> bool
    decreases thing, 0int,
{
    let path = path_in(inner, name);
    match thing {
        Thing::Unsafe => !is_usable(name),
        Thing::File { renames, leave, .. } => is_usable(name) && !is_directory(entries, path)
            && are_other_names(name, renames, leave),
        Thing::Unmade { .. } => is_usable(name) && is_directory(entries, path),
        Thing::Dir { things, .. } => {
            &&& is_usable(name)
            &&& is_directory(entries, path)
            &&& things.len() == archive::children(entries, path).len()
            &&& all_make_sense(entries, path, things, 0)
        },
    }
}

/// Whether what is in the directory `inner` can be this, from one place on.
pub open spec fn all_make_sense(
    entries: Seq<ArchiveEntry<Txt>>,
    inner: Txt,
    things: Seq<Thing>,
    from: int,
) -> bool
    decreases things, things.len() - from,
{
    if 0 <= from < things.len() {
        makes_sense(entries, inner, archive::children(entries, inner)[from], things[from])
            && all_make_sense(entries, inner, things, from + 1)
    } else {
        true
    }
}

/// The question whether a file is written under `name` in `dir`.
pub open spec fn leave_turns(dir: Txt, name: Txt, leave: Leave) -> Seq<Turn> {
    let path = winpath::path_join(dir, name);
    let there = (Ask::Exists(path), Reply::Flag(true));
    match leave {
        Leave::Free => seq![(Ask::Exists(path), Reply::Flag(false))],
        Leave::Newest { there: time } => seq![
            there,
            (Ask::Conflict(name), Reply::Choice(ConflictResolution::Newest)),
            (Ask::ModifiedAt(path), Reply::Modified(time)),
        ],
        Leave::Overwrite => seq![
            there,
            (Ask::Conflict(name), Reply::Choice(ConflictResolution::Overwrite)),
        ],
        Leave::OverwriteForce => seq![
            there,
            (Ask::Conflict(name), Reply::Choice(ConflictResolution::OverwriteForce)),
        ],
        Leave::Skip => seq![there, (Ask::Conflict(name), Reply::Choice(ConflictResolution::Skip))],
        Leave::NoName(new) => seq![
            there,
            (Ask::Conflict(name), Reply::Choice(ConflictResolution::Rename(new))),
        ],
    }
}

/// The entry is read and written.
pub open spec fn transfer_turns(
    path: Txt,
    target: Txt,
    time: Option<i64>,
    unread: Option<Txt>,
    unwritten: Option<Txt>,
) -> Seq<Turn> {
    if unread is Some {
        seq![(Ask::ReadEntry(path), outcome(unread))]
    } else {
        seq![
            (Ask::ReadEntry(path), Reply::Done),
            (Ask::WriteEntry { target, mtime: time }, outcome(unwritten)),
        ]
    }
}

/// The conversation about a file, from the question whether it is there under `name`.
pub open spec fn file_turns(
    path: Txt,
    dir: Txt,
    name: Txt,
    time: Option<i64>,
    renames: Seq<Txt>,
    leave: Leave,
    unread: Option<Txt>,
    unwritten: Option<Txt>,
) -> Seq<Turn>
    decreases renames.len(),
{
    if renames.len() > 0 {
        seq![
            (Ask::Exists(winpath::path_join(dir, name)), Reply::Flag(true)),
            (Ask::Conflict(name), Reply::Choice(ConflictResolution::Rename(renames[0]))),
        ] + file_turns(
            path,
            dir,
            renames[0],
            time,
            renames.drop_first(),
            leave,
            unread,
            unwritten,
        )
    } else if is_written(time, leave) {
        leave_turns(dir, name, leave) + transfer_turns(
            path,
            winpath::path_join(dir, name),
            time,
            unread,
            unwritten,
        )
    } else {
        leave_turns(dir, name, leave)
    }
}

/// What is carried out for a file `name` that is written under `last` in `dir`.
pub open spec fn file_effects(
    dir: Txt,
    last: Txt,
    name: Txt,
    time: Option<i64>,
    leave: Leave,
    unread: Option<Txt>,
    unwritten: Option<Txt>,
) -> Seq<Effect<Txt>> {
    if !is_written(time, leave) {
        seq![Effect::Log(LogLevel::Warning, Message::Skip(name))]
    } else {
        (if leave is OverwriteForce {
            seq![Effect::ClearAttributes(winpath::path_join(dir, last))]
        } else {
            Seq::empty()
        }) + seq![Effect::Log(LogLevel::Normal, Message::Item(Verb::Copy, name))] + (
        if unread is Some {
            seq![Effect::Log(LogLevel::Error, Message::Failure(Verb::Copy, name, unread->0))]
        } else if unwritten is Some {
            seq![Effect::Log(LogLevel::Error, Message::Failure(Verb::Copy, name, unwritten->0))]
        } else {
            Seq::empty()
        })
    }
}

pub open spec fn file_tally(
    time: Option<i64>,
    leave: Leave,
    unread: Option<Txt>,
    unwritten: Option<Txt>,
) -> Tally {
    if !is_written(time, leave) {
        tally(0, 1, 0)
    } else if unread is Some || unwritten is Some {
        tally(0, 0, 1)
    } else {
        tally(1, 0, 0)
    }
}

/// The conversation about what `name` stands for in the directory `inner` of the archive, which goes
/// to the directory `dir` on the disk. A directory that is there is gone into like one that was made.
pub open spec fn thing_turns(
    entries: Seq<ArchiveEntry<Txt>>,
    inner: Txt,
    dir: Txt,
    name: Txt,
    thing: Thing,
) -> Seq<Turn>
    decreases thing, 0int,
{
    let path = path_in(inner, name);
    let dst = winpath::path_join(dir, name);
    match thing {
        Thing::Unsafe => Seq::empty(),
        Thing::File { renames, leave, unread, unwritten } => file_turns(
            path,
            dir,
            name,
            archive::mtime_of(entries, path),
            renames,
            leave,
            unread,
            unwritten,
        ),
        Thing::Unmade { why } => seq![
            (Ask::Exists(dst), Reply::Flag(false)),
            (Ask::CreateDir(dst), Reply::Failed(why)),
        ],
        Thing::Dir { there, things } => (if there {
            seq![(Ask::Exists(dst), Reply::Flag(true))]
        } else {
            seq![(Ask::Exists(dst), Reply::Flag(false)), (Ask::CreateDir(dst), Reply::Done)]
        }) + child_turns(entries, path, dst, things, 0),
    }
}

/// The conversation about what is in the directory `inner`, from one place on.
pub open spec fn child_turns(
    entries: Seq<ArchiveEntry<Txt>>,
    inner: Txt,
    dir: Txt,
    things: Seq<Thing>,
    from: int,
) -> Seq<Turn>
    decreases things, things.len() - from,
{
    if 0 <= from < things.len() {
        seq![(Ask::Stop, Reply::Flag(false))] + thing_turns(
            entries,
            inner,
            dir,
            archive::children(entries, inner)[from],
            things[from],
        ) + child_turns(entries, inner, dir, things, from + 1)
    } else {
        Seq::empty()
    }
}

/// What is carried out for what `name` stands for in `inner`.
pub open spec fn thing_effects(
    entries: Seq<ArchiveEntry<Txt>>,
    inner: Txt,
    dir: Txt,
    name: Txt,
    thing: Thing,
) -> Seq<Effect<Txt>>
    decreases thing, 0int,
{
    let path = path_in(inner, name);
    match thing {
        Thing::Unsafe => seq![
            Effect::Log(LogLevel::Error, Message::Failure(Verb::Copy, name, BAD_NAME@)),
        ],
        Thing::File { renames, leave, unread, unwritten } => file_effects(
            dir,
            final_name(name, renames),
            name,
            archive::mtime_of(entries, path),
            leave,
            unread,
            unwritten,
        ),
        Thing::Unmade { why } => seq![
            Effect::Log(LogLevel::Error, Message::CreateDirectoryFailure(name, why)),
        ],
        Thing::Dir { there, things } => (if there {
            Seq::empty()
        } else {
            seq![Effect::Log(LogLevel::Normal, Message::CreateDirectory(name))]
        }) + child_effects(entries, path, winpath::path_join(dir, name), things, 0),
    }
}

pub open spec fn child_effects(
    entries: Seq<ArchiveEntry<Txt>>,
    inner: Txt,
    dir: Txt,
    things: Seq<Thing>,
    from: int,
) -> Seq<Effect<Txt>>
    decreases things, things.len() - from,
{
    if 0 <= from < things.len() {
        thing_effects(
            entries,
            inner,
            dir,
            archive::children(entries, inner)[from],
            things[from],
        ) + child_effects(entries, inner, dir, things, from + 1)
    } else {
        Seq::empty()
    }
}

/// What `name` stands for in `inner` counts. A directory counts where it was made.
pub open spec fn thing_tally(
    entries: Seq<ArchiveEntry<Txt>>,
    inner: Txt,
    name: Txt,
    thing: Thing,
) -> Tally
    decreases thing, 0int,
{
    let path = path_in(inner, name);
    match thing {
        Thing::Unsafe | Thing::Unmade { .. } => tally(0, 0, 1),
        Thing::File { leave, unread, unwritten, .. } => file_tally(
            archive::mtime_of(entries, path),
            leave,
            unread,
            unwritten,
        ),
        Thing::Dir { there, things } => sum_of(
            if there {
                tally(0, 0, 0)
            } else {
                tally(1, 0, 0)
            },
            child_tally(entries, path, things, 0),
        ),
    }
}

pub open spec fn child_tally(
    entries: Seq<ArchiveEntry<Txt>>,
    inner: Txt,
    things: Seq<Thing>,
    from: int,
) -> Tally
    decreases things, things.len() - from,
{
    if 0 <= from < things.len() {
        sum_of(
            thing_tally(entries, inner, archive::children(entries, inner)[from], things[from]),
            child_tally(entries, inner, things, from + 1),
        )
    } else {
        tally(0, 0, 0)
    }
}

/// What is to be extracted.
pub struct Wanted {
    pub entries: Seq<ArchiveEntry<Txt>>,
    pub inner: Txt,
    pub names: Seq<Txt>,
    pub dir: Txt,
}

/// The conversation about the names from one place on.
pub open spec fn names_turns(w: Wanted, things: Seq<Thing>, from: int) -> Seq<Turn>
    decreases things.len() - from,
{
    if 0 <= from < things.len() {
        seq![(Ask::Stop, Reply::Flag(false))] + thing_turns(
            w.entries,
            w.inner,
            w.dir,
            w.names[from],
            things[from],
        ) + names_turns(w, things, from + 1)
    } else {
        Seq::empty()
    }
}

pub open spec fn names_effects(w: Wanted, things: Seq<Thing>, from: int) -> Seq<Effect<Txt>>
    decreases things.len() - from,
{
    if 0 <= from < things.len() {
        thing_effects(w.entries, w.inner, w.dir, w.names[from], things[from]) + names_effects(
            w,
            things,
            from + 1,
        )
    } else {
        Seq::empty()
    }
}

pub open spec fn names_tally(w: Wanted, things: Seq<Thing>, from: int) -> Tally
    decreases things.len() - from,
{
    if 0 <= from < things.len() {
        sum_of(
            thing_tally(w.entries, w.inner, w.names[from], things[from]),
            names_tally(w, things, from + 1),
        )
    } else {
        tally(0, 0, 0)
    }
}

/// The lines at the end of the log: the counts, and how it went.
pub open spec fn last_lines(sum: OpSummary) -> Seq<Effect<Txt>> {
    seq![
        Effect::Log(
            if sum.err == 0 {
                LogLevel::Info
            } else {
                LogLevel::Error
            },
            Message::CopyResult { ok: sum.ok, skip: sum.skip, err: sum.err },
        ),
        if sum.err == 0 {
            Effect::Log(LogLevel::Info, Message::Finished(Verb::Extract))
        } else {
            Effect::Log(LogLevel::Warning, Message::FinishedWithErrors(Verb::Extract))
        },
    ]
}

/// The outcome of a conversation that goes on after `out`.
spec fn going_on(out: ExtractOutcome, turns: Seq<Turn>) -> Option<ExtractOutcome> {
    match answered(out.0, turns) {
        None => None,
        Some((last, effects)) => Some((last, out.1 + effects)),
    }
}

/// What a conversation carried out.
spec fn carried(out: Option<ExtractOutcome>) -> Seq<Effect<Txt>> {
    match out {
        Some((_, effects)) => effects,
        None => Seq::empty(),
    }
}

proof fn lemma_two(state: ExtractModel, a: Seq<Turn>, b: Seq<Turn>)
    ensures
        answered(state, a) is None ==> answered(state, a + b) is None,
        answered(state, a) matches Some(out) ==> answered(state, a + b) == going_on(out, b),
    decreases b.len(),
{
    if b.len() == 0 {
        assert(a + b =~= a);
        if let Some(out) = answered(state, a) {
            assert(out.1 + Seq::<Effect<Txt>>::empty() =~= out.1);
        }
    } else {
        lemma_two(state, a, b.drop_last());
        assert((a + b).drop_last() =~= a + b.drop_last());
        if let Some(out) = answered(state, a) {
            if let Some((middle, before)) = answered(out.0, b.drop_last()) {
                let now = extract_step(middle, b.last().1).1;
                assert(out.1 + (before + now) =~= (out.1 + before) + now);
            }
        }
    }
}

proof fn lemma_one(state: ExtractModel, turn: Turn)
    requires
        extract_ask(state) == turn.0,
    ensures
        answered(state, seq![turn]) == Some(extract_step(state, turn.1)),
{
    assert(seq![turn].drop_last() =~= Seq::<Turn>::empty());
    assert(answered(state, Seq::<Turn>::empty()) == Some((state, Seq::<Effect<Txt>>::empty())));
    assert(Seq::<Effect<Txt>>::empty() + extract_step(state, turn.1).1 =~= extract_step(
        state,
        turn.1,
    ).1);
}

proof fn lemma_pair(state: ExtractModel, a: Turn, b: Turn)
    requires
        extract_ask(state) == a.0,
        extract_ask(extract_step(state, a.1).0) == b.0,
    ensures
        ({
            let one = extract_step(state, a.1);
            let two = extract_step(one.0, b.1);
            answered(state, seq![a, b]) == Some((two.0, one.1 + two.1))
        }),
{
    lemma_one(state, a);
    lemma_one(extract_step(state, a.1).0, b);
    lemma_two(state, seq![a], seq![b]);
    assert(seq![a, b] =~= seq![a] + seq![b]);
}

proof fn lemma_three(state: ExtractModel, a: Turn, b: Turn, c: Turn)
    requires
        extract_ask(state) == a.0,
        extract_ask(extract_step(state, a.1).0) == b.0,
        extract_ask(extract_step(extract_step(state, a.1).0, b.1).0) == c.0,
    ensures
        ({
            let one = extract_step(state, a.1);
            let two = extract_step(one.0, b.1);
            let three = extract_step(two.0, c.1);
            answered(state, seq![a, b, c]) == Some((three.0, one.1 + two.1 + three.1))
        }),
{
    lemma_pair(state, a, b);
    lemma_one(extract_step(extract_step(state, a.1).0, b.1).0, c);
    lemma_two(state, seq![a, b], seq![c]);
    assert(seq![a, b, c] =~= seq![a, b] + seq![c]);
}

proof fn lemma_joined(
    state: ExtractModel,
    turns: Seq<Turn>,
    next: ExtractOutcome,
    effects: Seq<Effect<Txt>>,
    rest: Seq<Turn>,
)
    requires
        answered(state, turns) == going_on((next.0, effects + next.1), rest),
        going_on(next, rest) is Some,
    ensures
        going_on((state, Seq::empty()), turns) == (match going_on(next, rest) {
            Some((last, more)) => Some((last, effects + more)),
            None => None,
        }),
{
    let (last, f) = answered(next.0, rest)->0;
    assert((effects + next.1) + f =~= effects + (next.1 + f));
    assert(Seq::<Effect<Txt>>::empty() + ((effects + next.1) + f) =~= (effects + next.1) + f);
}

/// The state that waits for `phase`.
spec fn at(core: ExtractCoreModel, phase: ExtractPhase<Txt>) -> ExtractModel {
    ExtractModel { core, phase }
}

/// An extraction whose counts went on.
spec fn tallied(core: ExtractCoreModel, t: Tally) -> ExtractCoreModel {
    ExtractCoreModel { sum: counted_on(core.sum, t), ..core }
}

/// An item is done, with its counts and effects.
spec fn done_with(core: ExtractCoreModel, t: Tally, effects: Seq<Effect<Txt>>) -> Option<
    ExtractOutcome,
> {
    let next = after_item(tallied(core, t));
    Some((next.0, effects + next.1))
}

proof fn lemma_one_more(core: ExtractCoreModel)
    ensures
        tallied(core, tally(1, 0, 0)) == (ExtractCoreModel { sum: core.sum.plus_ok(), ..core }),
        tallied(core, tally(0, 1, 0)) == (ExtractCoreModel { sum: core.sum.plus_skip(), ..core }),
        tallied(core, tally(0, 0, 1)) == (ExtractCoreModel { sum: core.sum.plus_err(), ..core }),
        tallied(core, tally(0, 0, 0)) == core,
{
}

proof fn lemma_tallies_add(core: ExtractCoreModel, a: Tally, b: Tally)
    ensures
        tallied(tallied(core, a), b) == tallied(core, sum_of(a, b)),
{
}

/// What `item` is written as where it is read under `target`.
#[verifier::rlimit(60)]
proof fn lemma_transfer(
    core: ExtractCoreModel,
    item: Found<Txt>,
    target: Txt,
    unread: Option<Txt>,
    unwritten: Option<Txt>,
)
    ensures
        ({
            let time = archive::mtime_of(core.entries, item.inner);
            answered(
                at(core, ExtractPhase::Read { item, target }),
                transfer_turns(
                    item.inner,
                    winpath::path_join(item.dir, target),
                    time,
                    unread,
                    unwritten,
                ),
            ) == done_with(
                core,
                file_tally(time, Leave::Free, unread, unwritten),
                file_effects(
                    item.dir,
                    target,
                    item.name,
                    time,
                    Leave::Free,
                    unread,
                    unwritten,
                ).drop_first(),
            )
        }),
{
    let time = archive::mtime_of(core.entries, item.inner);
    let state = at(core, ExtractPhase::Read { item, target });
    let path = winpath::path_join(item.dir, target);
    let turns = transfer_turns(item.inner, path, time, unread, unwritten);
    lemma_one_more(core);
    if unread is Some {
        lemma_one(state, turns[0]);
    } else {
        lemma_pair(state, turns[0], turns[1]);
    }
    let due = done_with(
        core,
        file_tally(time, Leave::Free, unread, unwritten),
        file_effects(
            item.dir,
            target,
            item.name,
            time,
            Leave::Free,
            unread,
            unwritten,
        ).drop_first(),
    );
    assert(carried(answered(state, turns)) =~= carried(due));
}

#[verifier::rlimit(60)]
proof fn lemma_leave(
    core: ExtractCoreModel,
    item: Found<Txt>,
    target: Txt,
    leave: Leave,
    unread: Option<Txt>,
    unwritten: Option<Txt>,
)
    requires
        are_other_names(target, Seq::empty(), leave),
    ensures
        ({
            let time = archive::mtime_of(core.entries, item.inner);
            answered(
                at(core, ExtractPhase::Target { item, target }),
                file_turns(
                    item.inner,
                    item.dir,
                    target,
                    time,
                    Seq::empty(),
                    leave,
                    unread,
                    unwritten,
                ),
            ) == done_with(
                core,
                file_tally(time, leave, unread, unwritten),
                file_effects(item.dir, target, item.name, time, leave, unread, unwritten),
            )
        }),
{
    let time = archive::mtime_of(core.entries, item.inner);
    let state = at(core, ExtractPhase::Target { item, target });
    let turns = leave_turns(item.dir, target, leave);
    lemma_one_more(core);
    match leave {
        Leave::Free => {
            lemma_one(state, turns[0]);
        },
        Leave::Newest { .. } => {
            lemma_three(state, turns[0], turns[1], turns[2]);
        },
        Leave::NoName(new) => {
            law_safe_names(new);
            lemma_pair(state, turns[0], turns[1]);
        },
        _ => {
            lemma_pair(state, turns[0], turns[1]);
        },
    }
    let due = done_with(
        core,
        file_tally(time, leave, unread, unwritten),
        file_effects(item.dir, target, item.name, time, leave, unread, unwritten),
    );
    if is_written(time, leave) {
        let more = transfer_turns(
            item.inner,
            winpath::path_join(item.dir, target),
            time,
            unread,
            unwritten,
        );
        assert(answered(state, turns) matches Some(out) && out.0 == at(
            core,
            ExtractPhase::Read { item, target },
        ));
        lemma_transfer(core, item, target, unread, unwritten);
        lemma_two(state, turns, more);
        assert(carried(answered(state, turns + more)) =~= carried(due));
    } else {
        assert(carried(answered(state, turns)) =~= carried(due));
    }
}

#[verifier::rlimit(60)]
proof fn lemma_file(
    core: ExtractCoreModel,
    item: Found<Txt>,
    target: Txt,
    renames: Seq<Txt>,
    leave: Leave,
    unread: Option<Txt>,
    unwritten: Option<Txt>,
)
    requires
        are_other_names(target, renames, leave),
    ensures
        ({
            let time = archive::mtime_of(core.entries, item.inner);
            answered(
                at(core, ExtractPhase::Target { item, target }),
                file_turns(
                    item.inner,
                    item.dir,
                    target,
                    time,
                    renames,
                    leave,
                    unread,
                    unwritten,
                ),
            ) == done_with(
                core,
                file_tally(time, leave, unread, unwritten),
                file_effects(
                    item.dir,
                    final_name(target, renames),
                    item.name,
                    time,
                    leave,
                    unread,
                    unwritten,
                ),
            )
        }),
    decreases renames.len(),
{
    let time = archive::mtime_of(core.entries, item.inner);
    if renames.len() == 0 {
        assert(renames =~= Seq::<Txt>::empty());
        lemma_leave(core, item, target, leave, unread, unwritten);
    } else {
        let state = at(core, ExtractPhase::Target { item, target });
        let a: Turn = (Ask::Exists(winpath::path_join(item.dir, target)), Reply::Flag(true));
        let b: Turn = (
            Ask::Conflict(target),
            Reply::Choice(ConflictResolution::Rename(renames[0])),
        );
        let rest = file_turns(
            item.inner,
            item.dir,
            renames[0],
            time,
            renames.drop_first(),
            leave,
            unread,
            unwritten,
        );
        law_safe_names(renames[0]);
        lemma_pair(state, a, b);
        lemma_file(core, item, renames[0], renames.drop_first(), leave, unread, unwritten);
        assert(final_name(renames[0], renames.drop_first()) == final_name(target, renames));
        lemma_two(state, seq![a, b], rest);
        let due = done_with(
            core,
            file_tally(time, leave, unread, unwritten),
            file_effects(
                item.dir,
                final_name(target, renames),
                item.name,
                time,
                leave,
                unread,
                unwritten,
            ),
        );
        assert(carried(answered(state, seq![a, b] + rest)) =~= carried(due));
    }
}

proof fn lemma_silent(state: ExtractModel, turns: Seq<Turn>)
    ensures
        going_on((state, Seq::empty()), turns) == answered(state, turns),
{
    if let Some((last, effects)) = answered(state, turns) {
        assert(Seq::<Effect<Txt>>::empty() + effects =~= effects);
    }
}

#[verifier::rlimit(60)]
proof fn lemma_thing(core: ExtractCoreModel, inner: Txt, dir: Txt, name: Txt, thing: Thing)
    requires
        makes_sense(core.entries, inner, name, thing),
    ensures
        going_on(
            entered(core, inner, dir, name),
            thing_turns(core.entries, inner, dir, name, thing),
        ) == done_with(
            core,
            thing_tally(core.entries, inner, name, thing),
            thing_effects(core.entries, inner, dir, name, thing),
        ),
    decreases thing, 0int,
{
    let path = path_in(inner, name);
    let item = Found { inner: path, dir, name };
    let turns = thing_turns(core.entries, inner, dir, name, thing);
    law_safe_names(name);
    lemma_path_in(inner, name);
    law_directories_are_said_or_used(core.entries, path);
    lemma_one_more(core);
    match thing {
        Thing::Unsafe => {
            let due = done_with(
                core,
                thing_tally(core.entries, inner, name, thing),
                thing_effects(core.entries, inner, dir, name, thing),
            );
            assert(carried(going_on(entered(core, inner, dir, name), turns)) =~= carried(due));
        },
        Thing::File { renames, leave, unread, unwritten } => {
            lemma_file(core, item, name, renames, leave, unread, unwritten);
            lemma_silent(at(core, ExtractPhase::Target { item, target: name }), turns);
        },
        Thing::Unmade { .. } => {
            let state = at(core, ExtractPhase::DirExists { item });
            let due = done_with(
                core,
                thing_tally(core.entries, inner, name, thing),
                thing_effects(core.entries, inner, dir, name, thing),
            );
            lemma_pair(state, turns[0], turns[1]);
            lemma_silent(state, turns);
            assert(carried(answered(state, turns)) =~= carried(due));
        },
        Thing::Dir { there, things } => {
            lemma_dir(core, item, there, things);
            lemma_silent(at(core, ExtractPhase::DirExists { item }), turns);
        },
    }
}

#[verifier::rlimit(60)]
proof fn lemma_dir(core: ExtractCoreModel, item: Found<Txt>, there: bool, things: Seq<Thing>)
    requires
        things.len() == archive::children(core.entries, item.inner).len(),
        all_make_sense(core.entries, item.inner, things, 0),
    ensures
        ({
            let dst = winpath::path_join(item.dir, item.name);
            answered(
                at(core, ExtractPhase::DirExists { item }),
                (if there {
                    seq![(Ask::Exists(dst), Reply::Flag(true))]
                } else {
                    seq![(Ask::Exists(dst), Reply::Flag(false)), (Ask::CreateDir(dst), Reply::Done)]
                }) + child_turns(core.entries, item.inner, dst, things, 0),
            ) == done_with(
                core,
                sum_of(
                    if there {
                        tally(0, 0, 0)
                    } else {
                        tally(1, 0, 0)
                    },
                    child_tally(core.entries, item.inner, things, 0),
                ),
                (if there {
                    Seq::empty()
                } else {
                    seq![Effect::Log(LogLevel::Normal, Message::CreateDirectory(item.name))]
                }) + child_effects(core.entries, item.inner, dst, things, 0),
            )
        }),
    decreases things, things.len() + 1,
{
    let dst = winpath::path_join(item.dir, item.name);
    let state = at(core, ExtractPhase::DirExists { item });
    let inner = child_turns(core.entries, item.inner, dst, things, 0);
    let frame = ExtractFrameModel {
        inner: item.inner,
        dst,
        children: archive::children(core.entries, item.inner),
        next: 0,
    };
    let t = child_tally(core.entries, item.inner, things, 0);
    let effects = child_effects(core.entries, item.inner, dst, things, 0);
    lemma_one_more(core);
    if there {
        let a: Turn = (Ask::Exists(dst), Reply::Flag(true));
        lemma_one(state, a);
        lemma_children(core, frame, things);
        lemma_two(state, seq![a], inner);
        lemma_tallies_add(core, tally(0, 0, 0), t);
        let due = done_with(core, sum_of(tally(0, 0, 0), t), Seq::empty() + effects);
        assert(carried(answered(state, seq![a] + inner)) =~= carried(due));
    } else {
        let a: Turn = (Ask::Exists(dst), Reply::Flag(false));
        let b: Turn = (Ask::CreateDir(dst), Reply::Done);
        let made = tallied(core, tally(1, 0, 0));
        let line: Effect<Txt> = Effect::Log(LogLevel::Normal, Message::CreateDirectory(item.name));
        lemma_pair(state, a, b);
        lemma_children(made, frame, things);
        lemma_two(state, seq![a, b], inner);
        lemma_tallies_add(core, tally(1, 0, 0), t);
        let due = done_with(core, sum_of(tally(1, 0, 0), t), seq![line] + effects);
        assert(carried(answered(state, seq![a, b] + inner)) =~= carried(due));
    }
}

/// The extraction with a directory open.
spec fn inside(core: ExtractCoreModel, frame: ExtractFrameModel) -> ExtractCoreModel {
    ExtractCoreModel { frames: core.frames.push(frame), ..core }
}

#[verifier::rlimit(60)]
proof fn lemma_children(core: ExtractCoreModel, frame: ExtractFrameModel, things: Seq<Thing>)
    requires
        0 <= frame.next <= things.len(),
        frame.children == archive::children(core.entries, frame.inner),
        things.len() == frame.children.len(),
        all_make_sense(core.entries, frame.inner, things, frame.next),
    ensures
        going_on(
            after_item(inside(core, frame)),
            child_turns(core.entries, frame.inner, frame.dst, things, frame.next),
        ) == done_with(
            core,
            child_tally(core.entries, frame.inner, things, frame.next),
            child_effects(core.entries, frame.inner, frame.dst, things, frame.next),
        ),
    decreases things, things.len() - frame.next,
{
    let from = frame.next;
    let turns = child_turns(core.entries, frame.inner, frame.dst, things, from);
    lemma_one_more(core);
    assert(inside(core, frame).frames.drop_last() =~= core.frames);
    if from == things.len() {
        let due = done_with(core, tally(0, 0, 0), Seq::empty());
        assert(after_item(inside(core, frame)) == after_item(core));
        assert(carried(going_on(after_item(core), Seq::<Turn>::empty())) =~= carried(due));
    } else {
        let name = frame.children[from];
        let thing = things[from];
        let now = inside(core, frame);
        let state = at(now, ExtractPhase::NextChild);
        let stop: Turn = (Ask::Stop, Reply::Flag(false));
        let taken = ExtractFrameModel { next: from + 1, ..frame };
        let next = inside(core, taken);
        let mine = thing_turns(core.entries, frame.inner, frame.dst, name, thing);
        let rest = child_turns(core.entries, frame.inner, frame.dst, things, from + 1);
        let t = thing_tally(core.entries, frame.inner, name, thing);
        let effects = thing_effects(core.entries, frame.inner, frame.dst, name, thing);
        assert(after_item(now) == (state, Seq::<Effect<Txt>>::empty()));
        assert(operation::extract::child_taken(now.frames) =~= next.frames);
        lemma_one(state, stop);
        lemma_two(state, seq![stop], mine);
        lemma_thing(next, frame.inner, frame.dst, name, thing);
        assert(tallied(next, t) == inside(tallied(core, t), taken));
        lemma_two(state, seq![stop] + mine, rest);
        lemma_children(tallied(core, t), taken, things);
        lemma_tallies_add(core, t, child_tally(core.entries, frame.inner, things, from + 1));
        lemma_joined(state, turns, after_item(tallied(next, t)), effects, rest);
        let due = done_with(
            core,
            child_tally(core.entries, frame.inner, things, from),
            child_effects(core.entries, frame.inner, frame.dst, things, from),
        );
        assert(carried(going_on(after_item(now), turns)) =~= carried(due));
    }
}

/// Where the conversation about the names from `core.next` on leads.
spec fn names_end(core: ExtractCoreModel, things: Seq<Thing>) -> Option<ExtractOutcome> {
    let w = wanted(core);
    let sum = counted_on(core.sum, names_tally(w, things, core.next));
    Some(
        (
            at(
                ExtractCoreModel { sum, next: core.names.len() as int, ..core },
                ExtractPhase::Ended,
            ),
            names_effects(w, things, core.next) + last_lines(sum),
        ),
    )
}

/// What an extraction is to extract.
spec fn wanted(core: ExtractCoreModel) -> Wanted {
    Wanted {
        entries: core.entries,
        inner: core.src_inner,
        names: core.names,
        dir: core.dst_dir,
    }
}

proof fn lemma_no_names(core: ExtractCoreModel, things: Seq<Thing>)
    requires
        core.frames == Seq::<ExtractFrameModel>::empty(),
        core.next == core.names.len(),
        things.len() == core.names.len(),
        !core.sum.cancelled,
    ensures
        going_on(after_item(core), names_turns(wanted(core), things, core.next)) == names_end(
            core,
            things,
        ),
{
    let turns = names_turns(wanted(core), things, core.next);
    assert(turns =~= Seq::<Turn>::empty());
    lemma_one_more(core);
    assert(carried(going_on(after_item(core), turns)) =~= carried(names_end(core, things)));
}

#[verifier::rlimit(60)]
proof fn lemma_names(core: ExtractCoreModel, things: Seq<Thing>)
    requires
        core.frames == Seq::<ExtractFrameModel>::empty(),
        0 <= core.next <= core.names.len(),
        things.len() == core.names.len(),
        !core.sum.cancelled,
        forall|i: int|
            0 <= i < things.len() ==> makes_sense(
                core.entries,
                core.src_inner,
                core.names[i],
                #[trigger] things[i],
            ),
    ensures
        going_on(after_item(core), names_turns(wanted(core), things, core.next)) == names_end(
            core,
            things,
        ),
    decreases core.names.len() - core.next,
{
    if core.next == core.names.len() {
        lemma_no_names(core, things);
    } else {
        let w = wanted(core);
        let name = core.names[core.next];
        let thing = things[core.next];
        let begun = ExtractCoreModel { next: core.next + 1, ..core };
        let state = at(core, ExtractPhase::NextName);
        let stop: Turn = (Ask::Stop, Reply::Flag(false));
        let t = thing_tally(core.entries, core.src_inner, name, thing);
        let next = tallied(begun, t);
        let turns = names_turns(w, things, core.next);
        let mine = thing_turns(core.entries, core.src_inner, core.dst_dir, name, thing);
        let rest = names_turns(w, things, core.next + 1);
        let effects = thing_effects(core.entries, core.src_inner, core.dst_dir, name, thing);
        assert(after_item(core) == (state, Seq::<Effect<Txt>>::empty()));
        lemma_one(state, stop);
        lemma_two(state, seq![stop], mine);
        lemma_thing(begun, core.src_inner, core.dst_dir, name, thing);
        lemma_names(next, things);
        lemma_tallies_add(core, t, names_tally(w, things, core.next + 1));
        lemma_two(state, seq![stop] + mine, rest);
        lemma_joined(state, turns, after_item(next), effects, rest);
        assert(carried(names_end(core, things)) =~= effects + carried(names_end(next, things)));
    }
}

/// An extraction that nobody stops writes every entry that a name stands for, and everything below
/// every directory of the archive, under its name below the directory that it goes to: each is
/// written, left out by the user, or an error. A directory that is there already is gone into like
/// one that was made, and counts nothing. The extraction asks these questions and no others, carries
/// out these effects and no others, and ends with these counts.
pub proof fn law_everything_is_extracted(w: Wanted, things: Seq<Thing>)
    requires
        things.len() == w.names.len(),
        forall|i: int|
            0 <= i < things.len() ==> makes_sense(
                w.entries,
                w.inner,
                w.names[i],
                #[trigger] things[i],
            ),
    ensures
        ({
            let sum = counted_on(
                OpSummary { ok: 0, skip: 0, err: 0, cancelled: false },
                names_tally(w, things, 0),
            );
            let (first, opening) = extract_start(w.entries, w.inner, w.names, w.dir);
            &&& opening.first() == Effect::<Txt>::Log(LogLevel::Info, Message::Started(Verb::Extract))
            &&& answered(first, names_turns(w, things, 0)) matches Some((last, effects)) && {
                &&& opening.drop_first() + effects == names_effects(w, things, 0) + last_lines(sum)
                &&& extract_ask(last) == Ask::<Txt>::Ended(sum)
            }
        }),
{
    let core = ExtractCoreModel {
        entries: w.entries,
        src_inner: w.inner,
        names: w.names,
        dst_dir: w.dir,
        next: 0,
        frames: Seq::empty(),
        sum: operation::no_results(),
    };
    lemma_names(core, things);
    assert(extract_start(w.entries, w.inner, w.names, w.dir).1.drop_first() =~= after_item(core).1);
}

/// The lines at the end of the log of an extraction that was stopped.
pub open spec fn lines_of_a_stop(sum: OpSummary) -> Seq<Effect<Txt>> {
    seq![
        Effect::Log(
            if sum.err == 0 {
                LogLevel::Info
            } else {
                LogLevel::Error
            },
            Message::CopyResult { ok: sum.ok, skip: sum.skip, err: sum.err },
        ),
        Effect::Log(LogLevel::Warning, Message::Aborted(Verb::Extract)),
    ]
}

/// A request to stop ends an extraction at once, wherever it is heard: nothing is asked any more, nothing is
/// carried out but the closing lines, and the counts stay as they are, marked as stopped.
pub proof fn law_a_stopped_extraction_ends_at_once(state: ExtractModel, reply: Reply<Txt>)
    requires
        extract_ask(state) == Ask::<Txt>::Stop && reply == Reply::<Txt>::Flag(true) || extract_ask(state) is Conflict
            && reply == Reply::Choice(ConflictResolution::<Txt>::Cancel),
    ensures
        ({
            let sum = OpSummary { cancelled: true, ..state.core.sum };
            let (last, effects) = extract_step(state, reply);
            &&& extract_ask(last) == Ask::<Txt>::Ended(sum)
            &&& effects == lines_of_a_stop(sum)
        }),
{
    let sum = OpSummary { cancelled: true, ..state.core.sum };
    assert(extract_step(state, reply).1 =~= lines_of_a_stop(sum));
}

} // verus!
