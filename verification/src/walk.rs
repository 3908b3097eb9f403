//! Finding descriptor files under a set of directories.
//!
//! A [`Walk`] decides which directory to list next and what to keep of each
//! listing. Listing a directory is left to the caller.

use crate::paths::{has_desktop_extension, is_desktop_file, path_less};
use crate::paths::same_path;
use crate::sorted::{
    first_spelling, sorted_lists_of_the_same_paths_agree, sorted_paths, sorts_paths, spells,
};
use crate::text::texts;
use vstd::prelude::*;

verus! {

/// What kind of thing a directory entry is, without following links.
#[derive(Debug, Clone, Copy, PartialEq, Eq)]
pub enum EntryKind {
    /// A symbolic link, whatever it points to.
    Symlink,
    /// A directory.
    Directory,
    /// A regular file.
    File,
    /// Anything else, or an entry whose kind could not be read.
    Other,
}

/// One entry of a directory listing.
#[derive(Debug, Clone, PartialEq, Eq)]
pub struct DirEntry {
    /// The path of the entry: the directory's path joined with its name.
    pub path: String,
    /// What the entry is.
    pub kind: EntryKind,
}

/// The directories among `entries`, in order. Symbolic links are not among
/// them, also where they point to a directory.
pub open spec fn subdirectories(entries: Seq<DirEntry>) -> Seq<Seq<char>>
    decreases entries.len(),
{
    if entries.len() == 0 {
        Seq::empty()
    } else {
        let before = subdirectories(entries.drop_last());
        if entries.last().kind is Directory {
            before.push(entries.last().path@)
        } else {
            before
        }
    }
}

/// The regular files among `entries` that are named `*.desktop`, in order.
pub open spec fn desktop_files(entries: Seq<DirEntry>) -> Seq<Seq<char>>
    decreases entries.len(),
{
    if entries.len() == 0 {
        Seq::empty()
    } else {
        let before = desktop_files(entries.drop_last());
        if entries.last().kind is File && is_desktop_file(entries.last().path@) {
            before.push(entries.last().path@)
        } else {
            before
        }
    }
}

/// A walk over directory trees, in progress.
///
/// The caller takes a directory ([`Walk::next_directory`]), lists it, and
/// hands the listing over ([`Walk::visit`]); a directory that cannot be
/// listed is simply not handed over. When no directory is left,
/// [`Walk::finish`] gives the files found.
pub struct Walk {
    /// The roots that are still to be listed, the next one last.
    roots: Vec<String>,
    stack: Vec<String>,
    found: Vec<String>,
}

impl Walk {
    /// The subdirectories that are still to be listed; the last one comes
    /// first.
    pub closed spec fn stack(self) -> Seq<Seq<char>> {
        texts(self.stack@)
    }

    /// The root directories that are still to be listed, in order. They
    /// come after the subdirectories.
    pub closed spec fn roots_left(self) -> Seq<Seq<char>> {
        texts(self.roots@).reverse()
    }

    /// The descriptor files found so far, in the order of discovery.
    pub closed spec fn found(self) -> Seq<Seq<char>> {
        texts(self.found@)
    }

    /// The directory to list next, if any is left: the subdirectory found
    /// last, or else the next root.
    pub fn next_directory(&mut self) -> (r: Option<String>)
        ensures
            final(self).found() == old(self).found(),
            match r {
                Some(dir) => if old(self).stack().len() > 0 {
                    &&& dir@ == old(self).stack().last()
                    &&& final(self).stack() == old(self).stack().drop_last()
                    &&& final(self).roots_left() == old(self).roots_left()
                } else {
                    &&& old(self).roots_left().len() > 0
                    &&& dir@ == old(self).roots_left()[0]
                    &&& final(self).stack() == old(self).stack()
                    &&& final(self).roots_left() == old(self).roots_left().drop_first()
                },
                None => {
                    &&& old(self).stack().len() == 0
                    &&& old(self).roots_left().len() == 0
                    &&& final(self).stack() == old(self).stack()
                    &&& final(self).roots_left() == old(self).roots_left()
                },
            },
    {
        let ghost before = texts(self.stack@);
        match self.stack.pop() {
            Some(dir) => {
                assert(texts(self.stack@) == before.drop_last());
                Some(dir)
            },
            None => {
                let ghost roots = texts(self.roots@);
                match self.roots.pop() {
                    Some(dir) => {
                        assert(texts(self.roots@) == roots.drop_last());
                        assert(roots.drop_last().reverse() == roots.reverse().drop_first());
                        Some(dir)
                    },
                    None => None,
                }
            },
        }
    }

    /// Takes the listing of a directory: its subdirectories will be listed
    /// in turn, and its descriptor files are kept. Symbolic links and
    /// everything else are passed over.
    pub fn visit(&mut self, entries: &[DirEntry])
        ensures
            final(self).stack() == old(self).stack() + subdirectories(entries@),
            final(self).found() == old(self).found() + desktop_files(entries@),
            final(self).roots_left() == old(self).roots_left(),
    {
        let ghost stack0 = texts(self.stack@);
        let ghost found0 = texts(self.found@);
        let mut i: usize = 0;
        assert(entries@.take(0) == Seq::<DirEntry>::empty());
        assert(stack0 + Seq::<Seq<char>>::empty() == stack0);
        assert(found0 + Seq::<Seq<char>>::empty() == found0);
        while i < entries.len()
            invariant
                i <= entries.len(),
                self.roots == old(self).roots,
                texts(self.stack@) == stack0 + subdirectories(entries@.take(i as int)),
                texts(self.found@) == found0 + desktop_files(entries@.take(i as int)),
            decreases entries.len() - i,
        {
            assert(entries@.take(i + 1).drop_last() == entries@.take(i as int));
            assert(entries@.take(i + 1).last() == entries@[i as int]);
            let entry = &entries[i];
            match entry.kind {
                EntryKind::Directory => {
                    let ghost s = texts(self.stack@);
                    self.stack.push(entry.path.clone());
                    assert(texts(self.stack@) == s.push(entry.path@));
                },
                EntryKind::File => {
                    if has_desktop_extension(entry.path.as_str()) {
                        let ghost f = texts(self.found@);
                        self.found.push(entry.path.clone());
                        assert(texts(self.found@) == f.push(entry.path@));
                    }
                },
                _ => {},
            }
            i += 1;
        }
        assert(entries@.take(i as int) == entries@);
    }

    /// The descriptor files found, in the order of their paths and each
    /// path once. Where a path was found in several spellings, such as
    /// `/a/x.desktop` and `/a/./x.desktop`, the one found first stays.
    pub fn finish(self) -> (r: Vec<String>)
        ensures
            forall|i: int, j: int|
                0 <= i < j < r.len() ==> path_less(#[trigger] r[i]@, #[trigger] r[j]@),
            forall|i: int| 0 <= i < r.len() ==> self.found().contains(#[trigger] r[i]@),
            forall|p: Seq<char>|
                self.found().contains(p) ==> exists|i: int|
                    0 <= i < r.len() && same_path(#[trigger] r[i]@, p),
            sorts_paths(texts(r@), self.found()),
    {
        let r = sorted_paths(self.found);
        proof {
            let found = self.found();
            let sorted = texts(r@);
            assert forall|i: int, j: int| 0 <= i < j < r.len() implies path_less(
                #[trigger] r[i]@,
                #[trigger] r[j]@,
            ) by {
                assert(path_less(sorted[i], sorted[j]));
            }
            assert forall|i: int| 0 <= i < r.len() implies found.contains(#[trigger] r[i]@) by {
                assert(first_spelling(found, sorted[i]));
            }
            assert forall|p: Seq<char>| found.contains(p) implies exists|i: int|
                0 <= i < r.len() && same_path(#[trigger] r[i]@, p) by {
                let k = choose|k: int| 0 <= k < found.len() && found[k] == p;
                assert(spells(sorted, found[k]));
                let w = choose|w: int|
                    0 <= w < sorted.len() && same_path(#[trigger] sorted[w], found[k]);
                assert(same_path(r[w]@, p));
            }
        }
        r
    }
}

/// Starts a walk that collects the `.desktop` files under `dirs`.
///
/// Each root is walked depth first with an explicit stack; symbolic links
/// are never followed. The result is in the order of paths and has each
/// path once, so overlapping roots do no harm.
pub fn collect_desktop_files(dirs: &[String]) -> (r: Walk)
    ensures
        r.roots_left() == texts(dirs@),
        r.stack() == Seq::<Seq<char>>::empty(),
        r.found() == Seq::<Seq<char>>::empty(),
{
    let mut roots: Vec<String> = Vec::new();
    let mut i: usize = dirs.len();
    assert(texts(dirs@).skip(i as int) == Seq::<Seq<char>>::empty());
    while i > 0
        invariant
            i <= dirs.len(),
            texts(roots@).reverse() == texts(dirs@).skip(i as int),
        decreases i,
    {
        let ghost before = texts(roots@);
        i -= 1;
        roots.push(dirs[i].clone());
        assert(texts(roots@) == before.push(dirs@[i as int]@));
        assert(before.push(dirs@[i as int]@).reverse() == seq![dirs@[i as int]@]
            + before.reverse());
        assert(texts(dirs@).skip(i as int) == seq![dirs@[i as int]@] + texts(dirs@).skip(i + 1));
    }
    assert(texts(dirs@).skip(0) == texts(dirs@));
    let r = Walk { roots, stack: Vec::new(), found: Vec::new() };
    assert(r.stack() == Seq::<Seq<char>>::empty());
    assert(r.found() == Seq::<Seq<char>>::empty());
    r
}

/// Only directories are walked into: every path that a listing adds to the
/// directories still to be listed is the path of an entry that is a
/// directory itself, and so never that of a symbolic link.
pub proof fn symlinks_are_not_traversed(entries: Seq<DirEntry>, path: Seq<char>)
    requires
        subdirectories(entries).contains(path),
    ensures
        exists|i: int|
            0 <= i < entries.len() && (#[trigger] entries[i]).kind is Directory && entries[i].path@
                == path,
    decreases entries.len(),
{
    let dirs = subdirectories(entries);
    let k = choose|k: int| 0 <= k < dirs.len() && dirs[k] == path;
    if entries.len() > 0 {
        let before = entries.drop_last();
        if entries.last().kind is Directory && k == dirs.len() - 1 {
            assert(entries[entries.len() - 1].path@ == path);
        } else {
            assert(subdirectories(before)[k] == path);
            symlinks_are_not_traversed(before, path);
            let i = choose|i: int|
                0 <= i < before.len() && (#[trigger] before[i]).kind is Directory && before[i].path@
                    == path;
            assert(entries[i] == before[i]);
        }
    }
}

/// Only regular files named `*.desktop` are collected: every path that a
/// listing adds to the files found is the path of such an entry.
pub proof fn only_descriptor_files_are_collected(entries: Seq<DirEntry>, path: Seq<char>)
    requires
        desktop_files(entries).contains(path),
    ensures
        is_desktop_file(path),
        exists|i: int|
            0 <= i < entries.len() && (#[trigger] entries[i]).kind is File && entries[i].path@
                == path,
    decreases entries.len(),
{
    let files = desktop_files(entries);
    let k = choose|k: int| 0 <= k < files.len() && files[k] == path;
    if entries.len() > 0 {
        let before = entries.drop_last();
        if entries.last().kind is File && is_desktop_file(entries.last().path@) && k == files.len()
            - 1 {
            assert(entries[entries.len() - 1].path@ == path);
        } else {
            assert(desktop_files(before)[k] == path);
            only_descriptor_files_are_collected(before, path);
            let i = choose|i: int|
                0 <= i < before.len() && (#[trigger] before[i]).kind is File && before[i].path@
                    == path;
            assert(entries[i] == before[i]);
        }
    }
}

/// Two walks that found the same paths end with lists of the same paths,
/// whatever the order of their roots and however often, or in how many
/// spellings, a file was found: a root listed twice, or listed beside one
/// of its own subdirectories, changes nothing.
pub proof fn walks_that_find_the_same_files_agree(
    found: Seq<Seq<char>>,
    files: Seq<Seq<char>>,
    other_found: Seq<Seq<char>>,
    other_files: Seq<Seq<char>>,
)
    requires
        sorts_paths(files, found),
        sorts_paths(other_files, other_found),
        forall|k: int| 0 <= k < found.len() ==> spells(other_found, #[trigger] found[k]),
        forall|k: int| 0 <= k < other_found.len() ==> spells(found, #[trigger] other_found[k]),
    ensures
        files.len() == other_files.len(),
        forall|i: int| 0 <= i < files.len() ==> same_path(#[trigger] files[i], other_files[i]),
{
    assert forall|i: int| 0 <= i < files.len() implies spells(other_files, #[trigger] files[i]) by {
        lemma_found_elsewhere(found, files[i], other_found, other_files);
    }
    assert forall|i: int| 0 <= i < other_files.len() implies spells(
        files,
        #[trigger] other_files[i],
    ) by {
        lemma_found_elsewhere(other_found, other_files[i], found, files);
    }
    sorted_lists_of_the_same_paths_agree(files, other_files);
}

/// A file that one walk kept is spelled by what the other walk kept.
proof fn lemma_found_elsewhere(
    found: Seq<Seq<char>>,
    file: Seq<char>,
    other_found: Seq<Seq<char>>,
    other_files: Seq<Seq<char>>,
)
    requires
        first_spelling(found, file),
        sorts_paths(other_files, other_found),
        forall|k: int| 0 <= k < found.len() ==> spells(other_found, #[trigger] found[k]),
    ensures
        spells(other_files, file),
{
    let k = choose|k: int|
        0 <= k < found.len() && #[trigger] found[k] == file && forall|m: int|
            0 <= m < k ==> !#[trigger] same_path(found[m], file);
    assert(spells(other_found, found[k]));
    let w = choose|w: int| 0 <= w < other_found.len() && #[trigger] same_path(other_found[w], file);
    assert(spells(other_files, other_found[w]));
    let j = choose|j: int|
        0 <= j < other_files.len() && #[trigger] same_path(other_files[j], other_found[w]);
    assert(same_path(other_files[j], file));
}

} // verus!
