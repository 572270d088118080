//! Which items an operation is for.

use crate::archive_ctl::{by_taken, is_taken, names_meant, selected_names, Txt};
use crate::archive_laws::{lemma_path_in, path_in};
use crate::file_item::{selected_in, selected_size_in, FileItem};
use vstd::prelude::*;

verus! {

/// The selected items, in their order.
pub open spec fn selection(items: Seq<FileItem>) -> Seq<FileItem> {
    items.filter(|item: FileItem| item.selected)
}

/// The selected items that do not lead up, in their order.
pub open spec fn selected_here(items: Seq<FileItem>) -> Seq<FileItem> {
    items.filter(|item: FileItem| item.selected && !item.is_parent)
}

proof fn lemma_selected_names(items: Seq<FileItem>, n: int)
    requires
        0 <= n <= items.len(),
    ensures
        selected_names(items, n) == selected_here(items.take(n)).map_values(
            |item: FileItem| item.name@,
        ),
    decreases n,
{
    reveal(Seq::filter);
    let name = |item: FileItem| item.name@;
    if n > 0 {
        lemma_selected_names(items, n - 1);
        assert(items.take(n).drop_last() =~= items.take(n - 1));
        let before = selected_here(items.take(n - 1));
        let last = items[n - 1];
        assert(before.push(last).map_values(name) =~= before.map_values(name).push(last.name@));
    } else {
        assert(items.take(0) =~= Seq::<FileItem>::empty());
        assert(selected_here(items.take(0)).map_values(name) =~= Seq::<Txt>::empty());
    }
}

/// An operation is for all items that are selected, in their order; where none is, for the one under
/// the cursor. The item that leads up is never meant.
pub proof fn law_the_selection_is_meant(items: Seq<FileItem>, cursor: usize)
    ensures
        selected_here(items).len() > 0 ==> names_meant(items, cursor) == selected_here(
            items,
        ).map_values(|item: FileItem| item.name@),
        selected_here(items).len() == 0 && cursor < items.len() && !items[cursor as int].is_parent
            ==> names_meant(items, cursor) == seq![items[cursor as int].name@],
        selected_here(items).len() == 0 && (cursor >= items.len()
            || items[cursor as int].is_parent) ==> names_meant(items, cursor).len() == 0,
{
    lemma_selected_names(items, items.len() as int);
    assert(items.take(items.len() as int) =~= items);
}

/// All selected items are counted, and no others.
pub proof fn law_selected_items_are_counted(items: Seq<FileItem>)
    ensures
        selected_in(items, items.len() as int) == selection(items).len(),
{
    lemma_counted(items, items.len() as int);
    assert(items.take(items.len() as int) =~= items);
}

proof fn lemma_counted(items: Seq<FileItem>, n: int)
    requires
        0 <= n <= items.len(),
    ensures
        selected_in(items, n) == selection(items.take(n)).len(),
    decreases n,
{
    reveal(Seq::filter);
    if n > 0 {
        lemma_counted(items, n - 1);
        assert(items.take(n).drop_last() =~= items.take(n - 1));
    } else {
        assert(items.take(0) =~= Seq::<FileItem>::empty());
    }
}

/// The sizes of items together; an item without a size adds nothing.
pub open spec fn size_together(items: Seq<FileItem>) -> nat {
    items.fold_left(
        0nat,
        |sum: nat, item: FileItem|
            sum + (match item.size {
                Some(size) => size as nat,
                None => 0,
            }),
    )
}

/// The sizes of all selected items are added up, and no others; what does not fit stays at the largest
/// number.
pub proof fn law_selected_sizes_add_up(items: Seq<FileItem>)
    ensures
        size_together(selection(items)) <= u64::MAX ==> selected_size_in(items, items.len() as int)
            == size_together(selection(items)),
        size_together(selection(items)) > u64::MAX ==> selected_size_in(items, items.len() as int)
            == u64::MAX,
{
    lemma_sizes(items, items.len() as int);
    assert(items.take(items.len() as int) =~= items);
}

proof fn lemma_sizes(items: Seq<FileItem>, n: int)
    requires
        0 <= n <= items.len(),
    ensures
        selected_size_in(items, n) == (if size_together(selection(items.take(n))) <= u64::MAX {
            size_together(selection(items.take(n)))
        } else {
            u64::MAX as nat
        }),
    decreases n,
{
    reveal(Seq::filter);
    reveal_with_fuel(Seq::fold_left, 2);
    if n > 0 {
        lemma_sizes(items, n - 1);
        assert(items.take(n).drop_last() =~= items.take(n - 1));
        let before = selection(items.take(n - 1));
        let last = items[n - 1];
        assert(before.push(last).drop_last() =~= before);
    } else {
        assert(items.take(0) =~= Seq::<FileItem>::empty());
    }
}

/// Names are parted by whether their path in the archive is taken, in their order; every name is in one
/// of the two parts.
pub proof fn law_taken_names_are_parted(names: Seq<Txt>, inner: Txt, existing: Seq<Txt>, wanted: bool)
    ensures
        by_taken(names, inner, existing, wanted, names.len() as int) == names.filter(
            |name: Txt| is_taken(existing, path_in(inner, name)) == wanted,
        ),
{
    lemma_parted(names, inner, existing, wanted, names.len() as int);
    assert(names.take(names.len() as int) =~= names);
}

proof fn lemma_parted(
    names: Seq<Txt>,
    inner: Txt,
    existing: Seq<Txt>,
    wanted: bool,
    n: int,
)
    requires
        0 <= n <= names.len(),
    ensures
        by_taken(names, inner, existing, wanted, n) == names.take(n).filter(
            |name: Txt| is_taken(existing, path_in(inner, name)) == wanted,
        ),
    decreases n,
{
    reveal(Seq::filter);
    if n > 0 {
        lemma_parted(names, inner, existing, wanted, n - 1);
        assert(names.take(n).drop_last() =~= names.take(n - 1));
        lemma_path_in(inner, names[n - 1]);
    } else {
        assert(names.take(0) =~= Seq::<Txt>::empty());
    }
}

} // verus!
