//! Where things go: names beside names, directories of processes, and what is added to archives.

use crate::archive;
use crate::archive_ctl::{add_how, is_left_behind, is_taken, temp_dir, Txt, Wish};
use crate::archive_laws::{is_of, lemma_under, path_in};
use crate::dialog::choices::ArchiveAddMode;
use crate::dialog::find::{law_sizes_are_in_kilobytes, size_value};
use crate::operation::archive_ops::tmp_path;
use crate::selection_laws::law_taken_names_are_parted;
use crate::text;
use crate::text_laws::{
    is_blank, law_ends_are_taken_off, law_numbers_are_read_back, law_trimming_takes_white_space,
};
use crate::viewer_laws::lemma_decimal;
use crate::vfs::Location;
use crate::winpath;
use crate::winpath::PrefixKind;
use vstd::prelude::*;

verus! {

/// Whether a name can be joined to a directory and taken off again.
pub open spec fn can_be_joined(dir: Txt, name: Txt) -> bool {
    &&& winpath::is_root(dir) || winpath::is_named(dir)
    &&& winpath::is_plain_name(name)
    &&& winpath::path_prefix(name).0 == PrefixKind::Plain
    &&& winpath::tidied(dir) == dir
    &&& !winpath::leaves_share_open(dir)
}

/// A file is shown under the name that it has in its directory, and what takes another name stays in
/// the directory.
pub proof fn law_other_names_stay_in_the_directory(dir: Txt, name: Txt, other: Txt)
    requires
        can_be_joined(dir, name),
    ensures
        winpath::path_display_name(winpath::path_join(dir, name)) == name,
        winpath::path_with_file_name(winpath::path_join(dir, name), other) == winpath::path_join(
            dir,
            other,
        ),
{
    winpath::law_parent_undoes_join(dir, name);
}

/// A new archive is written beside the old one, under the name of the old one with the numbers of the
/// process and of the change behind it.
pub proof fn law_new_archives_are_beside_the_old(dir: Txt, name: Txt, process: u32, sequence: u64)
    requires
        can_be_joined(dir, name),
    ensures
        tmp_path(winpath::path_join(dir, name), process, sequence) == winpath::path_join(
            dir,
            name + ".rerics-tmp-"@ + text::decimal_text(process as nat) + "-"@
                + text::decimal_text(sequence as nat),
        ),
{
    winpath::law_parent_undoes_join(dir, name);
}

/// The directory of a process is swept by another process once the first does not run any more; nobody
/// sweeps a directory of its own, or one of a process that runs.
pub proof fn law_directories_of_the_dead_are_swept(data: Txt, pid: u32, own: u32, alive: bool)
    ensures
        temp_dir(data, pid) == winpath::path_join(
            winpath::path_join(winpath::path_join(data, "cache"@), "archive"@),
            text::decimal_text(pid as nat),
        ),
        is_left_behind(text::decimal_text(pid as nat), own, alive) == (pid != own && !alive),
{
    law_numbers_are_read_back(pid as nat);
}

/// Whether a path is in use in an archive: by an entry, or as a directory that entries are in.
pub open spec fn is_in_use(existing: Seq<Txt>, path: Txt) -> bool {
    exists|i: int| 0 <= i < existing.len() && is_of(#[trigger] existing[i], path)
}

proof fn lemma_in_use(existing: Seq<Txt>, path: Txt)
    ensures
        is_taken(existing, path) == is_in_use(existing, path),
{
    assert forall|i: int| 0 <= i < existing.len() implies archive::at_or_below(
        #[trigger] existing[i],
        path,
    ) == is_of(existing[i], path) by {
        lemma_under(existing[i], path);
    }
    if is_in_use(existing, path) {
        let i = choose|i: int| 0 <= i < existing.len() && is_of(#[trigger] existing[i], path);
        assert(archive::at_or_below(existing[i], path));
    }
    if is_taken(existing, path) {
        let i = choose|i: int|
            0 <= i < existing.len() && archive::at_or_below(#[trigger] existing[i], path);
        assert(is_of(existing[i], path));
    }
}

/// What is added to an archive that is written anew are all names. What is added to the end of one are
/// exactly the names whose path is not in use, in their order; where none is left, nothing is added.
pub proof fn law_free_names_are_added(
    src_dir: Txt,
    archive: Txt,
    inner: Txt,
    names: Seq<Txt>,
    existing: Seq<Txt>,
    move_it: bool,
)
    requires
        names.len() > 0,
    ensures
        ({
            let from = Location::Real(src_dir);
            let to = Location::Archive { archive, inner };
            let anew = add_how(from, to, names, existing, move_it, ArchiveAddMode::Rebuild);
            let free = names.filter(|n: Txt| !is_in_use(existing, path_in(inner, n)));
            let more = add_how(from, to, names, existing, move_it, ArchiveAddMode::Append);
            &&& anew == (Wish::Add {
                archive,
                inner,
                src_dir,
                names,
                move_it,
                mode: ArchiveAddMode::Rebuild,
            })
            &&& free.len() == 0 ==> more is Warn
            &&& free.len() > 0 ==> more == (Wish::Add {
                archive,
                inner,
                src_dir,
                names: free,
                move_it,
                mode: ArchiveAddMode::Append,
            })
        }),
{
    law_taken_names_are_parted(names, inner, existing, false);
    let a = |n: Txt| is_taken(existing, path_in(inner, n)) == false;
    let b = |n: Txt| !is_in_use(existing, path_in(inner, n));
    assert forall|n: Txt| #[trigger] a(n) == b(n) by {
        lemma_in_use(existing, path_in(inner, n));
    }
    assert(a =~= b);
}

proof fn lemma_digits_stay(s: Txt)
    requires
        text::digits_value(s) is Some,
    ensures
        text::trimmed(s) == s,
{
    law_trimming_takes_white_space(s);
    lemma_all_digits(s);
    let t = text::trimmed(s);
    let (a, b) = choose|a: Txt, b: Txt|
        s == #[trigger] (a + t + b) && is_blank(a) && is_blank(b);
    if a.len() > 0 {
        assert(s[0] == a[0]);
        assert(text::is_white(a[0]));
    }
    if b.len() > 0 {
        assert(s[s.len() - 1] == b[b.len() - 1]);
        assert(text::is_white(b[b.len() - 1]));
    }
    assert(s =~= t);
}

proof fn lemma_all_digits(s: Txt)
    requires
        text::digits_value(s) is Some,
    ensures
        forall|i: int| 0 <= i < s.len() ==> '0' <= #[trigger] s[i] <= '9',
    decreases s.len(),
{
    if s.len() > 0 {
        lemma_all_digits(s.drop_last());
        assert forall|i: int| 0 <= i < s.len() implies '0' <= #[trigger] s[i] <= '9' by {
            if i < s.len() - 1 {
                assert(s.drop_last()[i] == s[i]);
            }
        }
    }
}

/// A size to search for is a number of kilobytes, or of what stands behind it: each unit is 1024 of the
/// one before.
pub proof fn law_sizes_have_units(n: u64)
    ensures
        size_value(text::decimal_text(n as nat) + "KB"@) == Some((n * 1024) as nat),
        size_value(text::decimal_text(n as nat) + "MB"@) == Some((n * 0x10_0000) as nat),
        size_value(text::decimal_text(n as nat) + "GB"@) == Some((n * 0x4000_0000) as nat),
        size_value(text::decimal_text(n as nat)) == Some((n * 1024) as nat),
{
    reveal_strlit("KB");
    reveal_strlit("MB");
    reveal_strlit("GB");
    let d = text::decimal_text(n as nat);
    lemma_decimal(n as nat);
    law_numbers_are_read_back(n as nat);
    lemma_digits_stay(d);
    law_sizes_are_in_kilobytes(d);
    let kb = d + "KB"@;
    let mb = d + "MB"@;
    let gb = d + "GB"@;
    law_ends_are_taken_off(kb, "KB"@, d);
    law_ends_are_taken_off(mb, "MB"@, d);
    law_ends_are_taken_off(gb, "GB"@, d);
    assert(kb.skip(kb.len() - 2) =~= "KB"@);
    assert(mb.skip(mb.len() - 2) =~= "MB"@);
    assert("KB"@[0] != "GB"@[0] && "KB"@[0] != "MB"@[0] && "MB"@[0] != "GB"@[0]);
}

} // verus!
