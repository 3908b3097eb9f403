//! Where descriptor files are looked for.
//!
//! The default directories follow the XDG base directory conventions; the
//! exports of Flatpak and Snap are common extras.

use crate::args::Args;
use crate::paths::{join, join_path};
use crate::sorted::{sorted_by_path, sorted_paths, sorts_paths, spells};
use crate::text::{text_of, texts};
use vstd::prelude::*;
use vstd::string::*;

verus! {

/// The base directories of the `xdg` crate, as an opaque value.
#[verifier::external_type_specification]
#[verifier::external_body]
pub struct ExBaseDirectories(xdg::BaseDirectories);

/// Calls `xdg::BaseDirectories::new`, which reads the base directories from
/// the environment of the process. Nothing is claimed of the result.
#[verifier::external_body]
fn base_directories() -> xdg::BaseDirectories {
    xdg::BaseDirectories::new()
}

/// Calls `xdg::BaseDirectories::get_data_home` and gives the path as text.
/// Nothing is claimed of the result.
#[verifier::external_body]
fn data_home(base: &xdg::BaseDirectories) -> Option<String> {
    base.get_data_home().map(|p| p.to_string_lossy().into_owned())
}

/// Calls `xdg::BaseDirectories::get_data_dirs` and gives the paths as text.
/// Nothing is claimed of the result.
#[verifier::external_body]
fn data_dirs(base: &xdg::BaseDirectories) -> Vec<String> {
    base.get_data_dirs().iter().map(|p| p.to_string_lossy().into_owned()).collect()
}

/// The `applications` directory of each data directory.
pub open spec fn system_dirs(data_dirs: Seq<Seq<char>>) -> Seq<Seq<char>> {
    Seq::new(data_dirs.len(), |i: int| join(data_dirs[i], "applications"@))
}

/// The directories under the user's data directory.
pub open spec fn home_dirs(data_home: Option<Seq<char>>, extras: bool) -> Seq<Seq<char>> {
    match data_home {
        None => Seq::empty(),
        Some(home) => if extras {
            seq![join(home, "applications"@), join(home, "flatpak/exports/share/applications"@)]
        } else {
            seq![join(home, "applications"@)]
        },
    }
}

/// The system-wide exports of Flatpak and Snap.
pub open spec fn export_dirs(extras: bool) -> Seq<Seq<char>> {
    if extras {
        seq![
            "/var/lib/flatpak/exports/share/applications"@,
            "/var/lib/snapd/desktop/applications"@,
        ]
    } else {
        Seq::empty()
    }
}

/// The directories to scan, before sorting: the defaults unless they are
/// switched off, then the directories given by the user.
pub open spec fn scan_dirs(
    data_home: Option<Seq<char>>,
    data_dirs: Seq<Seq<char>>,
    no_default: bool,
    no_common_extras: bool,
    extra_dirs: Seq<Seq<char>>,
) -> Seq<Seq<char>> {
    if no_default {
        extra_dirs
    } else {
        home_dirs(data_home, !no_common_extras) + system_dirs(data_dirs) + export_dirs(
            !no_common_extras,
        ) + extra_dirs
    }
}

/// Appends copies of `items` to `out`.
fn append_copies(out: &mut Vec<String>, items: &Vec<String>)
    ensures
        texts(final(out)@) == texts(old(out)@) + texts(items@),
{
    let ghost before = texts(out@);
    let mut i: usize = 0;
    assert(texts(items@).take(0) == Seq::<Seq<char>>::empty());
    assert(before + Seq::<Seq<char>>::empty() == before);
    while i < items.len()
        invariant
            i <= items.len(),
            texts(out@) == before + texts(items@).take(i as int),
        decreases items.len() - i,
    {
        let ghost so_far = texts(out@);
        out.push(items[i].clone());
        assert(texts(out@) == so_far.push(items@[i as int]@));
        assert(texts(items@).take(i + 1) == texts(items@).take(i as int).push(items@[i as int]@));
        i += 1;
    }
    assert(texts(items@).take(i as int) == texts(items@));
}

/// The directories to scan, given the user's data directory and the
/// system's data directories: [`scan_dirs`] in the order of paths, each
/// path once, in the spelling that comes first.
pub fn application_dirs(data_home: Option<String>, data_dirs: Vec<String>, args: &Args) -> (r: Vec<
    String,
>)
    ensures
        sorts_paths(
            texts(r@),
            scan_dirs(
                text_of(data_home),
                texts(data_dirs@),
                args.no_default,
                args.no_common_extras,
                texts(args.extra_dirs@),
            ),
        ),
{
    let mut all: Vec<String> = Vec::new();
    assert(texts(all@) == Seq::<Seq<char>>::empty());
    if !args.no_default {
        match &data_home {
            Some(home) => {
                all.push(join_path(home.as_str(), "applications"));
                if !args.no_common_extras {
                    all.push(join_path(home.as_str(), "flatpak/exports/share/applications"));
                }
            },
            None => {},
        }
        assert(texts(all@) == home_dirs(text_of(data_home), !args.no_common_extras));
        let mut i: usize = 0;
        let ghost home = texts(all@);
        assert(home + system_dirs(texts(data_dirs@)).take(0) == home);
        while i < data_dirs.len()
            invariant
                i <= data_dirs.len(),
                texts(all@) == home + system_dirs(texts(data_dirs@)).take(i as int),
            decreases data_dirs.len() - i,
        {
            let ghost so_far = texts(all@);
            let ghost system = system_dirs(texts(data_dirs@));
            all.push(join_path(data_dirs[i].as_str(), "applications"));
            assert(texts(all@) == so_far.push(system[i as int]));
            assert(system.take(i + 1) == system.take(i as int).push(system[i as int]));
            i += 1;
        }
        assert(system_dirs(texts(data_dirs@)).take(i as int) == system_dirs(texts(data_dirs@)));
        let ghost with_system = texts(all@);
        if !args.no_common_extras {
            all.push(String::from_str("/var/lib/flatpak/exports/share/applications"));
            all.push(String::from_str("/var/lib/snapd/desktop/applications"));
        }
        assert(texts(all@) == with_system + export_dirs(!args.no_common_extras));
    }
    let ghost defaults = texts(all@);
    append_copies(&mut all, &args.extra_dirs);
    assert(texts(all@) == scan_dirs(
        text_of(data_home),
        texts(data_dirs@),
        args.no_default,
        args.no_common_extras,
        texts(args.extra_dirs@),
    ));
    sorted_paths(all)
}

/// The directories that may hold `.desktop` files, in the order of paths
/// and each path once: the XDG data directories of this process and the
/// common extras, unless `args` switches them off, and the directories that
/// `args` adds.
///
/// Which data directories the process has is for its environment to say;
/// whatever they are, the result is [`scan_dirs`] of them, put in order.
pub fn collect_application_dirs(args: &Args) -> (r: Vec<String>)
    ensures
        sorted_by_path(texts(r@)),
        exists|home: Option<Seq<char>>, dirs: Seq<Seq<char>>|
            sorts_paths(
                texts(r@),
                #[trigger] scan_dirs(
                    home,
                    dirs,
                    args.no_default,
                    args.no_common_extras,
                    texts(args.extra_dirs@),
                ),
            ),
        forall|k: int|
            0 <= k < args.extra_dirs.len() ==> spells(
                texts(r@),
                #[trigger] texts(args.extra_dirs@)[k],
            ),
        args.no_default ==> sorts_paths(texts(r@), texts(args.extra_dirs@)),
{
    let base = base_directories();
    let home = data_home(&base);
    let dirs = data_dirs(&base);
    let r = application_dirs(home, dirs, args);
    proof {
        let all = scan_dirs(
            text_of(home),
            texts(dirs@),
            args.no_default,
            args.no_common_extras,
            texts(args.extra_dirs@),
        );
        let extra = texts(args.extra_dirs@);
        assert forall|k: int| 0 <= k < extra.len() implies spells(texts(r@), #[trigger] extra[k]) by {
            assert(all[all.len() - extra.len() + k] == extra[k]);
        }
    }
    r
}

} // verus!
