//! How a mutant's copy of the repository is laid out: which entries are
//! copied, which are linked to the original (the dependencies under
//! `node_modules`), which are left out, and where a copied symbolic link
//! points.

use vstd::prelude::*;

use crate::discovery::{pattern_segments, pieces_of};
use crate::mutant::{join, join_texts, text_views};
use crate::text::{owned, text_equals};

verus! {

/// What kind of entry a directory holds, without following symbolic links.
#[derive(Clone, Copy, Debug, PartialEq, Eq, Structural)]
pub enum EntryKind {
    Directory,
    Symlink,
    File,
    Other,
}

/// What the copy makes of an entry of the repository.
#[derive(Clone, Copy, Debug, PartialEq, Eq, Structural)]
pub enum CopyAction {
    /// The entry is left out.
    Skip,
    /// The directory is created and its entries copied.
    CopyDirectory,
    /// The directory is created and its entries copied as dependencies:
    /// their files and packages are linked, not copied.
    CopyDependencies,
    /// The symbolic link is recreated, pointing into the copy when its
    /// target lies in the repository.
    CopySymlink,
    /// The file is copied with its permissions.
    CopyFile,
    /// A symbolic link to the original entry is made.
    LinkOriginal,
}

/// What the copy makes of an entry of the repository outside `node_modules`:
/// `.git` is left out, `node_modules` directories are copied as
/// dependencies, other directories, links and files are copied.
pub open spec fn repository_action(name: Seq<char>, kind: EntryKind) -> CopyAction {
    if name == ".git"@ {
        CopyAction::Skip
    } else {
        match kind {
            EntryKind::Directory => if name == "node_modules"@ {
                CopyAction::CopyDependencies
            } else {
                CopyAction::CopyDirectory
            },
            EntryKind::Symlink => CopyAction::CopySymlink,
            EntryKind::File => CopyAction::CopyFile,
            EntryKind::Other => CopyAction::Skip,
        }
    }
}

/// What the copy makes of an entry of the repository outside `node_modules`.
pub fn repository_entry_action(name: &str, kind: EntryKind) -> (action: CopyAction)
    ensures
        action == repository_action(name@, kind),
{
    if text_equals(name, ".git") {
        return CopyAction::Skip;
    }
    match kind {
        EntryKind::Directory => if text_equals(name, "node_modules") {
            CopyAction::CopyDependencies
        } else {
            CopyAction::CopyDirectory
        },
        EntryKind::Symlink => CopyAction::CopySymlink,
        EntryKind::File => CopyAction::CopyFile,
        EntryKind::Other => CopyAction::Skip,
    }
}

/// Whether a directory among dependencies holds packages rather than being
/// one: `node_modules`, a scope (`@...`), pnpm's store `.pnpm`, or one that
/// holds a `node_modules` directory of its own.
pub open spec fn container(name: Seq<char>, holds_node_modules: bool) -> bool {
    name == "node_modules"@ || (name.len() > 0 && name[0] == '@') || name == ".pnpm"@
        || holds_node_modules
}

/// Whether a directory among dependencies holds packages rather than being
/// one.
pub fn is_node_modules_container(name: &str, holds_node_modules: bool) -> (holds: bool)
    ensures
        holds == container(name@, holds_node_modules),
{
    text_equals(name, "node_modules") || (name.unicode_len() > 0 && name.get_char(0) == '@')
        || text_equals(name, ".pnpm") || holds_node_modules
}

/// What the copy makes of an entry among dependencies: links are recreated,
/// files are linked, containers are descended into and packages linked.
pub open spec fn dependency_action(
    name: Seq<char>,
    kind: EntryKind,
    holds_node_modules: bool,
) -> CopyAction {
    match kind {
        EntryKind::Symlink => CopyAction::CopySymlink,
        EntryKind::File => CopyAction::LinkOriginal,
        EntryKind::Directory => if container(name, holds_node_modules) {
            CopyAction::CopyDependencies
        } else {
            CopyAction::LinkOriginal
        },
        EntryKind::Other => CopyAction::Skip,
    }
}

/// What the copy makes of an entry among dependencies; `holds_node_modules`
/// says whether a directory holds a `node_modules` directory.
pub fn dependency_entry_action(name: &str, kind: EntryKind, holds_node_modules: bool) -> (action:
    CopyAction)
    ensures
        action == dependency_action(name@, kind, holds_node_modules),
{
    match kind {
        EntryKind::Symlink => CopyAction::CopySymlink,
        EntryKind::File => CopyAction::LinkOriginal,
        EntryKind::Directory => if is_node_modules_container(name, holds_node_modules) {
            CopyAction::CopyDependencies
        } else {
            CopyAction::LinkOriginal
        },
        EntryKind::Other => CopyAction::Skip,
    }
}

/// Dependencies are linked, never copied: no entry under `node_modules` is
/// copied as a file or as a directory of its own.
pub proof fn lemma_dependencies_are_linked(
    name: Seq<char>,
    kind: EntryKind,
    holds_node_modules: bool,
)
    ensures
        dependency_action(name, kind, holds_node_modules) != CopyAction::CopyFile,
        dependency_action(name, kind, holds_node_modules) != CopyAction::CopyDirectory,
{
}

/// Whether a path starts at the root.
pub open spec fn rooted(path: Seq<char>) -> bool {
    path.len() > 0 && path[0] == '/'
}

/// Whether `path` lies in `base`, component by component: both start at the
/// root or neither does, and the components of `base` begin those of
/// `path`.
pub open spec fn within(path: Seq<char>, base: Seq<char>) -> bool {
    let (full, prefix) = (pattern_segments(path), pattern_segments(base));
    rooted(path) == rooted(base) && prefix.len() <= full.len() && full.take(prefix.len() as int)
        == prefix
}

/// `base` joined with the components `rest`: a separator is added unless
/// `base` is empty or ends with one.
pub open spec fn joined_path(base: Seq<char>, rest: Seq<Seq<char>>) -> Seq<char> {
    base + (if base.len() > 0 && base.last() != '/' {
        "/"@
    } else {
        Seq::<char>::empty()
    }) + join(rest, "/"@)
}

/// Where a copied symbolic link points: a resolved target in the repository
/// is moved to the same place in the copy; another target is kept.
pub open spec fn linked_target(
    resolved: Seq<char>,
    repository: Seq<char>,
    materialized: Seq<char>,
) -> Seq<char> {
    if within(resolved, repository) {
        joined_path(
            materialized,
            pattern_segments(resolved).skip(pattern_segments(repository).len() as int),
        )
    } else {
        resolved
    }
}

/// Where a copied symbolic link points, given its resolved target, the
/// repository and its copy (each as `canonicalize` gives a path).
pub fn symlink_target(resolved: &str, repository: &str, materialized: &str) -> (target: String)
    ensures
        target@ == linked_target(resolved@, repository@, materialized@),
{
    let full = pieces_of(resolved, true);
    let prefix = pieces_of(repository, true);
    let resolved_rooted = resolved.unicode_len() > 0 && resolved.get_char(0) == '/';
    let repository_rooted = repository.unicode_len() > 0 && repository.get_char(0) == '/';
    if resolved_rooted != repository_rooted || prefix.len() > full.len() {
        return owned(resolved);
    }
    let ghost (f, p) = (full.deep_view(), prefix.deep_view());
    let mut index: usize = 0;
    while index < prefix.len()
        invariant
            f == full.deep_view(),
            p == prefix.deep_view(),
            f == pattern_segments(resolved@),
            p == pattern_segments(repository@),
            rooted(resolved@) == rooted(repository@),
            p.len() <= f.len(),
            index <= p.len(),
            forall|j: int| 0 <= j < index ==> f[j] == p[j],
        decreases prefix.len() - index,
    {
        proof {
            assert(f[index as int] == full@[index as int]@);
            assert(p[index as int] == prefix@[index as int]@);
        }
        if !text_equals(full[index].as_str(), prefix[index].as_str()) {
            proof {
                assert(f.take(p.len() as int)[index as int] != p[index as int]);
            }
            return owned(resolved);
        }
        index += 1;
    }
    assert(f.take(p.len() as int) =~= p);
    let mut rest: Vec<String> = Vec::new();
    let mut index = prefix.len();
    while index < full.len()
        invariant
            f == full.deep_view(),
            p.len() <= index <= f.len(),
            rest.deep_view() == f.subrange(p.len() as int, index as int),
        decreases full.len() - index,
    {
        let ghost before = rest.deep_view();
        rest.push(full[index].clone());
        assert(rest.deep_view() =~= before.push(f[index as int]));
        index += 1;
    }
    let mut target = owned(materialized);
    let length = materialized.unicode_len();
    if length > 0 && materialized.get_char(length - 1) != '/' {
        target.append("/");
    }
    let joined = join_texts(&rest, "/");
    proof {
        assert(text_views(rest@) =~= rest.deep_view());
        assert(f.skip(p.len() as int) =~= f.subrange(p.len() as int, f.len() as int));
    }
    target.append(joined.as_str());
    target
}

} // verus!
