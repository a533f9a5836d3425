//! The walk through a directory tree, one decision at a time. The caller lists
//! the directories and reads the files; what becomes of each entry is decided
//! here.

use crate::config::{Config, Options};
use crate::filter::{
    extension_kind, extension_of, file_is_interesting, file_name, file_name_of, ignored_names,
    is_ignored, is_interesting,
};
use vstd::prelude::*;

verus! {

/// What the walk does with one entry of a directory.
#[derive(Clone, Copy, Debug, PartialEq, Eq, Structural)]
pub enum Visit {
    /// A directory that is never entered.
    Ignore,
    /// A directory that is walked in turn.
    Descend,
    /// A file that is read and searched.
    Search,
    /// A file that is passed over.
    Pass,
}

/// What becomes of the entry at this path. A directory is ignored where its
/// name is one of the ignored names, and entered otherwise; the filter plays
/// no part in that. A file is searched where it is interesting under the
/// filter, and passed over otherwise.
pub open spec fn visit_of(path: Seq<char>, is_dir: bool, filter: Seq<char>) -> Visit {
    if is_dir {
        if ignored_names().contains(file_name_of(path)) {
            Visit::Ignore
        } else {
            Visit::Descend
        }
    } else if is_interesting(path, filter) {
        Visit::Search
    } else {
        Visit::Pass
    }
}

/// What becomes of the place at which the walk starts: a directory is entered,
/// whatever its name, and anything else ends the walk.
pub open spec fn visit_of_root(is_dir: bool) -> Visit {
    if is_dir {
        Visit::Descend
    } else {
        Visit::Pass
    }
}

/// Under a configuration without a filter, a file whose extension the table
/// does not list is passed over.
pub proof fn lemma_unlisted_extension_passed_over(cfg: Options, name: Seq<char>, ext: Seq<char>)
    requires
        cfg.query.len() > 0,
        cfg.ext.len() == 0,
        extension_of(name) == Some(ext),
        extension_kind(ext) is None,
    ensures
        visit_of(name, false, cfg.ext) == Visit::Pass,
{
}

/// A directory named `node_modules` is not entered, wherever it lies and
/// whatever the filter.
pub proof fn lemma_node_modules_not_entered(path: Seq<char>, filter: Seq<char>)
    requires
        file_name_of(path) == "node_modules"@,
    ensures
        visit_of(path, true, filter) == Visit::Ignore,
{
}

/// What is decided for a directory does not depend on the filter, and a
/// directory with an ignored name is never entered.
pub proof fn lemma_ignored_directory(path: Seq<char>, filter: Seq<char>, other: Seq<char>)
    ensures
        visit_of(path, true, filter) == visit_of(path, true, other),
        ignored_names().contains(file_name_of(path)) ==> visit_of(path, true, filter)
            == Visit::Ignore,
{
}

/// Decides on the start of the walk and counts it if it is a directory.
pub fn visit_root(is_dir: bool, ndirs: &mut u32) -> (v: Visit)
    requires
        is_dir ==> *old(ndirs) < u32::MAX,
    ensures
        v == visit_of_root(is_dir),
        *final(ndirs) == *old(ndirs) + if v == Visit::Descend {
            1int
        } else {
            0int
        },
{
    if is_dir {
        *ndirs = *ndirs + 1;
        Visit::Descend
    } else {
        Visit::Pass
    }
}

/// Decides as `visit_root` does where the counter has room for a directory;
/// where it has not, nothing is counted and nothing decided.
pub fn try_visit_root(is_dir: bool, ndirs: &mut u32) -> (r: Option<Visit>)
    ensures
        r is None <==> is_dir && *old(ndirs) == u32::MAX,
        r matches Some(v) ==> v == visit_of_root(is_dir) && *final(ndirs) == *old(ndirs) + if v
            == Visit::Descend {
            1int
        } else {
            0int
        },
        r is None ==> *final(ndirs) == *old(ndirs),
{
    if is_dir && *ndirs == u32::MAX {
        None
    } else {
        Some(visit_root(is_dir, ndirs))
    }
}

/// Decides on one entry of a directory, from its path or name and from whether
/// it is a directory, and counts each directory that is to be entered. The
/// counter must have room where the directory is entered.
pub fn visit_entry(path: &str, is_dir: bool, cfg: &Config, ndirs: &mut u32) -> (v: Visit)
    requires
        visit_of(path@, is_dir, cfg@.ext) == Visit::Descend ==> *old(ndirs) < u32::MAX,
    ensures
        v == visit_of(path@, is_dir, cfg@.ext),
        *final(ndirs) == *old(ndirs) + if v == Visit::Descend {
            1int
        } else {
            0int
        },
{
    if is_dir {
        if is_ignored(file_name(path)) {
            Visit::Ignore
        } else {
            *ndirs = *ndirs + 1;
            Visit::Descend
        }
    } else if file_is_interesting(path, cfg) {
        Visit::Search
    } else {
        Visit::Pass
    }
}

/// Decides as `visit_entry` does where the counter has room for a directory
/// that is to be entered; where it has not, nothing is counted and nothing
/// decided.
pub fn try_visit_entry(path: &str, is_dir: bool, cfg: &Config, ndirs: &mut u32) -> (r: Option<Visit>)
    ensures
        r is None <==> visit_of(path@, is_dir, cfg@.ext) == Visit::Descend && *old(ndirs)
            == u32::MAX,
        r matches Some(v) ==> v == visit_of(path@, is_dir, cfg@.ext) && *final(ndirs) == *old(ndirs)
            + if v == Visit::Descend {
            1int
        } else {
            0int
        },
        r is None ==> *final(ndirs) == *old(ndirs),
{
    if is_dir && *ndirs == u32::MAX && !is_ignored(file_name(path)) {
        None
    } else {
        Some(visit_entry(path, is_dir, cfg, ndirs))
    }
}

} // verus!
