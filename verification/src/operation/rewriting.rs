//! What a rewriting makes of a whole archive.

use crate::archive;
use crate::operation::adding;
use crate::operation::adding::AddModel;
use crate::operation::archive_ops;
use crate::operation::archive_ops::{
    rewrite_start, rewrite_step, sum_of, RewriteModel, RewritePlanModel, RewriteStage, RuleModel,
};
use crate::operation::{Reply, Txt};
use crate::text;
use vstd::prelude::*;

verus! {

/// An entry of an archive.
pub struct EntryModel {
    /// Its name as it is written in the archive.
    pub raw: Seq<u8>,
    pub is_dir: bool,
    pub content: Seq<u8>,
}

/// What an entry that is copied is called, and which one it is.
pub struct Copied {
    pub index: int,
    pub name: Txt,
}

/// The name of an entry.
pub open spec fn entry_name(entry: EntryModel) -> Txt {
    archive::normalized(archive::name_text(entry.raw))
}

/// What is written of the first `n` entries of an archive.
pub open spec fn rewritten(rule: RuleModel, entries: Seq<EntryModel>, n: int) -> Seq<Copied>
    decreases n,
{
    if n <= 0 {
        Seq::empty()
    } else {
        let before = rewritten(rule, entries, n - 1);
        let entry = entries[n - 1];
        let name = entry_name(entry);
        if name.len() == 0 {
            before
        } else {
            match archive_ops::decided(rule, name) {
                None => before,
                Some(out) => before.push(
                    Copied {
                        index: n - 1,
                        name: if entry.is_dir {
                            out.push('/')
                        } else {
                            out
                        },
                    },
                ),
            }
        }
    }
}

/// The state of a rewriting after a number of replies.
pub open spec fn rewrite_run(state: RewriteModel, replies: Seq<Reply<Txt>>) -> RewriteModel
    decreases replies.len(),
{
    if replies.len() == 0 {
        state
    } else {
        rewrite_step(rewrite_run(state, replies.drop_last()), replies.last()).0
    }
}

/// The entries that were copied, in their order.
pub open spec fn written(state: RewriteModel, replies: Seq<Reply<Txt>>) -> Seq<Copied>
    decreases replies.len(),
{
    if replies.len() == 0 {
        Seq::empty()
    } else {
        let before = written(state, replies.drop_last());
        let middle = rewrite_run(state, replies.drop_last());
        match (middle.stage, replies.last()) {
            (RewriteStage::Copy { name }, Reply::Done) => before.push(
                Copied { index: middle.progress.index as int, name },
            ),
            _ => before,
        }
    }
}

/// Whether a reply tells of `entries` what is so.
pub open spec fn tells(entries: Seq<EntryModel>, state: RewriteModel, reply: Reply<Txt>) -> bool {
    match (state.stage, reply) {
        (RewriteStage::Open, Reply::Opened(total)) => total == entries.len(),
        (RewriteStage::Entry, Reply::Named { raw, is_dir }) => {
            let entry = entries[state.progress.index as int];
            raw@ == entry.raw && is_dir == entry.is_dir
        },
        _ => true,
    }
}

/// Whether all replies tell of `entries` what is so.
pub open spec fn all_tell(
    entries: Seq<EntryModel>,
    state: RewriteModel,
    replies: Seq<Reply<Txt>>,
) -> bool
    decreases replies.len(),
{
    replies.len() == 0 || (all_tell(entries, state, replies.drop_last()) && tells(
        entries,
        rewrite_run(state, replies.drop_last()),
        replies.last(),
    ))
}

/// Whether what was copied is what is to be written so far, or the archive is not going to be
/// replaced.
spec fn is_on_its_way(
    state: RewriteModel,
    rule: RuleModel,
    entries: Seq<EntryModel>,
    copied: Seq<Copied>,
) -> bool {
    let sum = sum_of(state);
    let i = state.progress.index as int;
    let n = entries.len() as int;
    &&& state.plan.rule == rule
    &&& match state.stage {
        RewriteStage::Open => i == 0 && copied.len() == 0,
        RewriteStage::Create | RewriteStage::Begin => i == 0 && copied.len() == 0
            && state.progress.total == n,
        RewriteStage::Poll | RewriteStage::Entry => {
            &&& i < n && state.progress.total == n
            &&& sum.err > 0 || copied == rewritten(rule, entries, i)
        },
        RewriteStage::Copy { name } => {
            &&& i < n && state.progress.total == n
            &&& sum.err > 0 || copied.push(Copied { index: i, name }) == rewritten(
                rule,
                entries,
                i + 1,
            )
        },
        RewriteStage::Clock => {
            &&& i < n && state.progress.total == n
            &&& sum.err > 0 || copied == rewritten(rule, entries, i + 1)
        },
        RewriteStage::Adding => sum.err > 0 || copied == rewritten(rule, entries, n),
        RewriteStage::Finish => sum.err > 0 || sum.cancelled || copied == rewritten(
            rule,
            entries,
            n,
        ),
        RewriteStage::Replace => copied == rewritten(rule, entries, n),
        RewriteStage::Ended => true,
    }
}

#[verifier::rlimit(40)]
proof fn lemma_step_is_on_its_way(
    state: RewriteModel,
    rule: RuleModel,
    entries: Seq<EntryModel>,
    copied: Seq<Copied>,
    reply: Reply<Txt>,
)
    requires
        is_on_its_way(state, rule, entries, copied),
        tells(entries, state, reply),
    ensures
        is_on_its_way(
            rewrite_step(state, reply).0,
            rule,
            entries,
            match (state.stage, reply) {
                (RewriteStage::Copy { name }, Reply::Done) => copied.push(
                    Copied { index: state.progress.index as int, name },
                ),
                _ => copied,
            },
        ),
{
    if copied.len() == 0 {
        assert(copied =~= rewritten(rule, entries, 0));
    }
    if state.stage is Adding {
        adding::law_add_counts_its_lines(state.adder, reply);
    }
}

proof fn lemma_run_is_on_its_way(
    plan: RewritePlanModel,
    adder: AddModel,
    entries: Seq<EntryModel>,
    replies: Seq<Reply<Txt>>,
)
    requires
        all_tell(entries, rewrite_start(plan, adder), replies),
    ensures
        is_on_its_way(
            rewrite_run(rewrite_start(plan, adder), replies),
            plan.rule,
            entries,
            written(rewrite_start(plan, adder), replies),
        ),
    decreases replies.len(),
{
    let first = rewrite_start(plan, adder);
    if replies.len() > 0 {
        lemma_run_is_on_its_way(plan, adder, entries, replies.drop_last());
        lemma_step_is_on_its_way(
            rewrite_run(first, replies.drop_last()),
            plan.rule,
            entries,
            written(first, replies.drop_last()),
            replies.last(),
        );
    }
}

/// What takes the place of an archive holds every entry that its rule keeps, under the name that
/// the rule gives it and in the old order, and no other entry of the old archive.
pub proof fn law_archives_are_rewritten_as_decided(
    plan: RewritePlanModel,
    adder: AddModel,
    entries: Seq<EntryModel>,
    replies: Seq<Reply<Txt>>,
)
    requires
        all_tell(entries, rewrite_start(plan, adder), replies),
        rewrite_run(rewrite_start(plan, adder), replies).stage is Replace,
    ensures
        written(rewrite_start(plan, adder), replies) == rewritten(
            plan.rule,
            entries,
            entries.len() as int,
        ),
{
    lemma_run_is_on_its_way(plan, adder, entries, replies);
}

/// Whether `new` is an archive to which those entries of `old` were copied, and nothing else.
pub open spec fn was_written(
    new: Seq<EntryModel>,
    old: Seq<EntryModel>,
    copied: Seq<Copied>,
) -> bool {
    &&& new.len() == copied.len()
    &&& forall|k: int|
        0 <= k < new.len() ==> {
            let entry = #[trigger] new[k];
            &&& archive::name_text(entry.raw) == copied[k].name
            &&& entry.is_dir == old[copied[k].index].is_dir
            &&& entry.content == old[copied[k].index].content
        }
}

/// What a reader sees of an archive: the names of its entries, which of them are directories, and
/// what they hold.
pub open spec fn seen(entries: Seq<EntryModel>) -> Seq<(Txt, bool, Seq<u8>)> {
    entries.map_values(|e: EntryModel| (entry_name(e), e.is_dir, e.content))
}

/// Renaming an entry and renaming it back gives the old name, where nothing is called by the new
/// name or lies below it.
pub proof fn law_renaming_back_gives_the_old_name(from: Txt, to: Txt, name: Txt)
    requires
        !archive::at_or_below(name, to),
    ensures
        archive_ops::decided(RuleModel::Rename { from, to }, name) matches Some(out)
            && archive_ops::decided(RuleModel::Rename { from: to, to: from }, out) == Some(name),
{
    let rename = RuleModel::Rename { from, to };
    if name == from {
    } else if text::has_prefix(name, from.push('/')) {
        let rest = name.skip(from.push('/').len() as int);
        let out = to.push('/') + rest;
        assert(out.take(to.push('/').len() as int) =~= to.push('/'));
        assert(out.skip(to.push('/').len() as int) =~= rest);
        assert(from.push('/') + rest =~= name) by {
            assert(name.take(from.push('/').len() as int) == from.push('/'));
        }
        assert(out.len() > to.len());
        assert(archive_ops::decided(rename, name) == Some(out));
    } else {
        assert(archive_ops::decided(rename, name) == Some(name));
    }
}

proof fn lemma_renamed_is_normal(from: Txt, to: Txt, name: Txt)
    requires
        archive::is_normal(to),
        to.len() > 0,
        archive::is_normal(name),
        name.len() > 0,
    ensures
        archive_ops::decided(RuleModel::Rename { from, to }, name) matches Some(out)
            && archive::is_normal(out) && out.len() > 0,
{
    if name != from && text::has_prefix(name, from.push('/')) {
        let n = from.len() as int + 1;
        let rest = name.skip(n);
        let out = to.push('/') + rest;
        let head = name.take(n);
        assert(head == from.push('/'));
        assert(name[n - 1] == head[n - 1]);
        assert(crate::winpath::is_separator(name[n - 1]));
        assert forall|i: int|
            0 <= i < out.len() && crate::winpath::is_separator(#[trigger] out[i]) implies out[i]
            == '/' && 0 < i < out.len() - 1 && !crate::winpath::is_separator(out[i + 1]) by {
            if i < to.len() {
                assert(out[i] == to[i]);
                assert(out[i + 1] == to[i + 1]);
            } else if i == to.len() {
                assert(out[i + 1] == name[n]);
            } else {
                let j = i - to.len() - 1 + n;
                assert(out[i] == name[j]);
                assert(out[i + 1] == name[j + 1]);
            }
        }
    }
}

/// What an entry is called once it was renamed, where that reads as it is written.
spec fn is_renamed_well(from: Txt, to: Txt, name: Txt) -> bool {
    archive_ops::decided(RuleModel::Rename { from, to }, name) matches Some(out)
        && archive::is_normal(out) && out.len() > 0
}

/// All entries are copied, in order, under a name that reads as it was decided.
proof fn lemma_all_are_renamed(from: Txt, to: Txt, entries: Seq<EntryModel>, n: int)
    requires
        0 <= n <= entries.len(),
        forall|k: int|
            0 <= k < n ==> entry_name(#[trigger] entries[k]).len() > 0 && is_renamed_well(
                from,
                to,
                entry_name(entries[k]),
            ),
    ensures
        ({
            let copied = rewritten(RuleModel::Rename { from, to }, entries, n);
            &&& copied.len() == n
            &&& forall|k: int|
                0 <= k < n ==> {
                    &&& (#[trigger] copied[k]).index == k
                    &&& Some(archive::normalized(copied[k].name)) == archive_ops::decided(
                        RuleModel::Rename { from, to },
                        entry_name(entries[k]),
                    )
                }
        }),
    decreases n,
{
    if n > 0 {
        lemma_all_are_renamed(from, to, entries, n - 1);
        let entry = entries[n - 1];
        assert(is_renamed_well(from, to, entry_name(entry)));
        let out = archive_ops::decided(RuleModel::Rename { from, to }, entry_name(entry))->0;
        archive::lemma_normal_is_kept(out);
    }
}

/// Whether nothing is added, and nothing counts as done before the archive is replaced.
spec fn only_rewrites(state: RewriteModel, copied: Seq<Copied>, all: Seq<Copied>) -> bool {
    &&& state.adder.phase is Finished
    &&& !(state.stage is Adding)
    &&& if state.stage is Ended {
        sum_of(state).ok > 0 ==> copied == all
    } else {
        sum_of(state).ok == 0
    }
}

#[verifier::rlimit(40)]
proof fn lemma_what_counts_was_replaced(
    first: RewriteModel,
    entries: Seq<EntryModel>,
    replies: Seq<Reply<Txt>>,
)
    requires
        first == rewrite_start(first.plan, first.adder),
        first.adder.phase is Finished,
        sum_of(first).ok == 0,
        all_tell(entries, first, replies),
    ensures
        only_rewrites(
            rewrite_run(first, replies),
            written(first, replies),
            rewritten(first.plan.rule, entries, entries.len() as int),
        ),
    decreases replies.len(),
{
    if replies.len() > 0 {
        lemma_what_counts_was_replaced(first, entries, replies.drop_last());
        lemma_run_is_on_its_way(first.plan, first.adder, entries, replies.drop_last());
    }
}

/// A renaming that counts as done has written every entry under the name that was decided.
proof fn lemma_renaming_is_complete(
    first: RewriteModel,
    entries: Seq<EntryModel>,
    replies: Seq<Reply<Txt>>,
)
    requires
        first == rewrite_start(first.plan, archive_ops::no_additions(first.plan.verb)),
        all_tell(entries, first, replies),
        rewrite_run(first, replies).stage is Ended,
        sum_of(rewrite_run(first, replies)).ok == 1,
    ensures
        written(first, replies) == rewritten(first.plan.rule, entries, entries.len() as int),
{
    lemma_what_counts_was_replaced(first, entries, replies);
}

/// Whether a renaming was answered as `entries` are, has ended, counts as done, and wrote `made`.
pub open spec fn renamed(
    first: RewriteModel,
    replies: Seq<Reply<Txt>>,
    entries: Seq<EntryModel>,
    made: Seq<EntryModel>,
) -> bool {
    &&& all_tell(entries, first, replies)
    &&& rewrite_run(first, replies).stage is Ended
    &&& sum_of(rewrite_run(first, replies)).ok == 1
    &&& was_written(made, entries, written(first, replies))
}

/// Renaming an entry and renaming it back gives the archive back that was there before, subtree
/// and contents included, where nothing had the new name before. `made` is what the first renaming
/// put in the place of `entries`, and `again` what the second put in the place of that. Where
/// something is renamed at all, the new name is one that reads as it is written.
pub proof fn law_renaming_back_gives_the_archive_back(
    there: RewriteModel,
    back: RewriteModel,
    archive: Txt,
    inner: Txt,
    old_name: Txt,
    new_name: Txt,
    process: u32,
    sequence: u64,
    process_back: u32,
    sequence_back: u64,
    replies: Seq<Reply<Txt>>,
    replies_back: Seq<Reply<Txt>>,
    entries: Seq<EntryModel>,
    made: Seq<EntryModel>,
    again: Seq<EntryModel>,
)
    requires
        there == archive_ops::renaming(archive, inner, old_name, new_name, process, sequence),
        back == archive_ops::renaming(
            archive,
            inner,
            new_name,
            old_name,
            process_back,
            sequence_back,
        ),
        (archive::is_normal(archive::inner_join(inner, new_name)) && archive::inner_join(
            inner,
            new_name,
        ).len() > 0) || forall|k: int|
            0 <= k < entries.len() ==> !archive::at_or_below(
                entry_name(#[trigger] entries[k]),
                archive::inner_join(inner, old_name),
            ),
        forall|k: int|
            0 <= k < entries.len() ==> entry_name(#[trigger] entries[k]).len() > 0
                && !archive::at_or_below(
                entry_name(entries[k]),
                archive::inner_join(inner, new_name),
            ),
        renamed(there, replies, entries, made),
        renamed(back, replies_back, made, again),
    ensures
        seen(again) == seen(entries),
{
    let from = archive::inner_join(inner, old_name);
    let to = archive::inner_join(inner, new_name);
    lemma_renaming_is_complete(there, entries, replies);
    lemma_renaming_is_complete(back, made, replies_back);
    let n = entries.len() as int;
    let first = rewritten(there.plan.rule, entries, n);
    assert forall|k: int| 0 <= k < n implies is_renamed_well(
        from,
        to,
        entry_name(#[trigger] entries[k]),
    ) by {
        archive::lemma_normalized_is_normal(archive::name_text(entries[k].raw));
        if archive::at_or_below(entry_name(entries[k]), from) {
            lemma_renamed_is_normal(from, to, entry_name(entries[k]));
        }
    }
    lemma_all_are_renamed(from, to, entries, n);
    assert forall|k: int| 0 <= k < n implies entry_name(#[trigger] made[k]).len() > 0
        && is_renamed_well(to, from, entry_name(made[k])) && archive_ops::decided(
        back.plan.rule,
        entry_name(made[k]),
    ) == Some(entry_name(entries[k])) by {
        assert(first[k].index == k);
        assert(is_renamed_well(from, to, entry_name(entries[k])));
        assert(archive::name_text(made[k].raw) == first[k].name);
        archive::lemma_normalized_is_normal(archive::name_text(entries[k].raw));
        law_renaming_back_gives_the_old_name(from, to, entry_name(entries[k]));
    }
    lemma_all_are_renamed(to, from, made, n);
    let second = rewritten(back.plan.rule, made, n);
    assert forall|k: int| 0 <= k < n implies #[trigger] seen(again)[k] == seen(entries)[k] by {
        assert(first[k].index == k);
        assert(second[k].index == k);
        assert(archive::name_text(again[k].raw) == second[k].name);
        assert(entry_name(made[k]).len() > 0);
    }
    assert(seen(again) =~= seen(entries));
}

} // verus!
