//! The Crystal files of a workspace.
//!
//! The directory tree is walked outside; this module decides which directories are entered and
//! what the files that were met make of the workspace.

use std::time::SystemTime;
use vstd::prelude::*;

use crate::order::{
    lemma_sort_maps, lemma_stable_sorted, ranking, ranks, stable_sort, stable_sorted,
    Order, Ranked,
};
use crate::paths::{
    are_parts_at_most, crystal_file, file_name, file_name_of, is_crystal_file, is_same_path,
    join_path, joined_path, lemma_parts_total, lemma_parts_transitive, lies_under, parent,
    parent_path, part_views, parts_of, path_at_most, path_parts, path_starts_with, same_path,
};
use crate::resolver::root_of;
use crate::text::{copy, opt_text, same, texts};

verus! {

#[verifier::external_type_specification]
#[verifier::external_body]
pub struct TimeHandle(SystemTime);

// ---------------------------------------------------------------------------
// Which directories are entered
// ---------------------------------------------------------------------------

/// Whether directories of this name are never entered.
pub open spec fn skipped_dir(name: Seq<char>) -> bool {
    name == "node_modules"@ || name == ".git"@ || name == "target"@
}

/// The file beside the directory `path` that makes it a directory of shards; only one that is
/// called `lib` can be one.
pub open spec fn shard_marker(path: Seq<char>) -> Option<Seq<char>> {
    if file_name_of(path) == Some("lib"@) {
        match parent_path(path) {
            Some(dir) => Some(joined_path(dir, "shard.yml"@)),
            None => None,
        }
    } else {
        None
    }
}

/// Tells which file has to be looked for to decide whether a directory is entered.
pub fn marker_of(path: &str) -> (r: Option<String>)
    ensures
        opt_text(r) == shard_marker(path@),
{
    match file_name(path) {
        Some(name) => if same(&name, "lib") {
            match parent(path) {
                Some(dir) => Some(join_path(&dir, "shard.yml")),
                None => None,
            }
        } else {
            None
        },
        None => None,
    }
}

/// Whether the directory `path` is entered, where `marked` tells whether its marker exists.
pub open spec fn entered(path: Seq<char>, marked: bool) -> bool {
    !(file_name_of(path) matches Some(name) && skipped_dir(name)) && !(shard_marker(path) is Some
        && marked)
}

/// Decides whether a directory is entered: not one that never holds sources, nor the `lib`
/// directory beside a `shard.yml`.
pub fn enters_dir(path: &str, marked: bool) -> (r: bool)
    ensures
        r == entered(path@, marked),
{
    if let Some(name) = file_name(path) {
        if same(&name, "node_modules") || same(&name, ".git") || same(&name, "target") {
            return false;
        }
    }
    match marker_of(path) {
        Some(_) => !marked,
        None => true,
    }
}

// ---------------------------------------------------------------------------
// Project roots
// ---------------------------------------------------------------------------

/// How deep a path is.
pub open spec fn depth(path: Seq<char>) -> nat {
    path_parts(path).len()
}

/// Deeper paths first.
pub open spec fn depth_order() -> Order<Seq<char>> {
    |a: Seq<char>, b: Seq<char>| depth(a) >= depth(b)
}

/// A directory that is ranked by its depth.
struct ShardDir {
    path: String,
    depth: usize,
}

impl Ranked for ShardDir {
    closed spec fn before(self, other: Self) -> bool {
        self.depth >= other.depth
    }

    fn may_precede(&self, other: &Self) -> (r: bool) {
        self.depth >= other.depth
    }
}

/// Sorts directories, the deepest first.
pub fn sort_by_depth(dirs: Vec<String>) -> (r: Vec<String>)
    ensures
        texts(r@) == stable_sorted(depth_order(), texts(dirs@)),
{
    let ghost all = texts(dirs@);
    let ghost f = |d: ShardDir| d.path@;
    let mut found: Vec<ShardDir> = Vec::new();
    for d in it: dirs
        invariant
            it.seq() == dirs@,
            all == texts(dirs@),
            found@.len() == it.index(),
            forall|k: int|
                0 <= k < found@.len() ==> (#[trigger] found@[k]).path@ == all[k] && found@[k].depth
                    == depth(all[k]),
    {
        let parts = parts_of(&d);
        assert(part_views(parts@).len() == parts@.len());
        assert(all[it.index() as int] == d@);
        found.push(ShardDir { depth: parts.len(), path: d });
    }
    let ghost held = found@;
    let sorted = stable_sort(found);
    proof {
        let le = ranking::<ShardDir>();
        let me = depth_order();
        assert forall|a: ShardDir, b: ShardDir|
            #![trigger le(a, b)]
            held.contains(a) && held.contains(b) implies le(a, b) == me(f(a), f(b)) by {
            let i = choose|i: int| 0 <= i < held.len() && held[i] == a;
            let j = choose|j: int| 0 <= j < held.len() && held[j] == b;
            assert(held[i].depth == depth(held[i].path@));
            assert(held[j].depth == depth(held[j].path@));
        }
        lemma_sort_maps(le, me, f, held);
        assert(held.map_values(f) =~= all);
    }
    let ghost names = sorted@.map_values(f);
    let mut out: Vec<String> = Vec::new();
    assert(texts(out@) =~= names.take(0));
    for d in it: sorted
        invariant
            it.seq() == sorted@,
            f == (|d: ShardDir| d.path@),
            names == sorted@.map_values(f),
            texts(out@) == names.take(it.index() as int),
    {
        let ghost before = texts(out@);
        let ghost k = it.index() as int;
        assert(names[k] == d.path@);
        out.push(d.path);
        assert(texts(out@) =~= before.push(names[k]));
        assert(names.take(k + 1) =~= names.take(k).push(names[k]));
    }
    assert(names.take(names.len() as int) =~= names);
    out
}

/// Finds the first of the directories that a path lies under.
pub fn find_project_root(path: &str, shard_dirs: &Vec<String>) -> (r: Option<String>)
    ensures
        opt_text(r) == root_of(texts(shard_dirs@), path@, 0),
{
    let ghost dirs = texts(shard_dirs@);
    let mut i: usize = 0;
    while i < shard_dirs.len()
        invariant
            i <= shard_dirs@.len(),
            dirs == texts(shard_dirs@),
            root_of(dirs, path@, 0) == root_of(dirs, path@, i as int),
        decreases shard_dirs@.len() - i,
    {
        assert(dirs[i as int] == shard_dirs@[i as int]@);
        if lies_under(path, &shard_dirs[i]) {
            return Some(copy(&shard_dirs[i]));
        }
        i = i + 1;
    }
    None
}

proof fn lemma_root_of(roots: Seq<Seq<char>>, from: Seq<char>, i: int)
    requires
        0 <= i,
    ensures
        match root_of(roots, from, i) {
            Some(r) => exists|k: int|
                i <= k < roots.len() && #[trigger] roots[k] == r && path_starts_with(from, r)
                    && forall|j: int|
                    i <= j < k ==> !path_starts_with(from, #[trigger] roots[j]),
            None => forall|j: int|
                i <= j < roots.len() ==> !path_starts_with(from, #[trigger] roots[j]),
        },
    decreases roots.len() - i,
{
    if i < roots.len() {
        if path_starts_with(from, roots[i]) {
            assert(roots[i] == root_of(roots, from, i)->0);
        } else {
            lemma_root_of(roots, from, i + 1);
            if let Some(r) = root_of(roots, from, i + 1) {
                let k = choose|k: int|
                    i + 1 <= k < roots.len() && #[trigger] roots[k] == r && path_starts_with(
                        from,
                        r,
                    ) && forall|j: int|
                        i + 1 <= j < k ==> !path_starts_with(from, #[trigger] roots[j]);
                assert(roots[k] == r);
            }
        }
    }
}

/// The project of a file is the innermost one: among the directories with a `shard.yml` that the
/// file lies under, none is deeper than the one that is found.
pub proof fn lemma_project_root_is_innermost(dirs: Seq<Seq<char>>, path: Seq<char>, other: Seq<char>)
    requires
        dirs.contains(other),
        path_starts_with(path, other),
    ensures
        root_of(stable_sorted(depth_order(), dirs), path, 0) matches Some(root) && path_starts_with(
            path,
            root,
        ) && depth(other) <= depth(root),
{
    broadcast use vstd::seq_lib::group_to_multiset_ensures;

    let le = depth_order();
    assert(ranks(le));
    lemma_stable_sorted(le, dirs);
    let sorted = stable_sorted(le, dirs);
    assert(dirs.to_multiset().count(other) > 0);
    assert(sorted.contains(other));
    let j = choose|j: int| 0 <= j < sorted.len() && sorted[j] == other;
    lemma_root_of(sorted, path, 0);
    assert(path_starts_with(path, sorted[j]));
    let r = root_of(sorted, path, 0)->0;
    let k = choose|k: int|
        0 <= k < sorted.len() && #[trigger] sorted[k] == r && path_starts_with(path, r)
            && forall|i: int| 0 <= i < k ==> !path_starts_with(path, #[trigger] sorted[i]);
    if k < j {
        assert(le(sorted[k], sorted[j]));
    }
}

// ---------------------------------------------------------------------------
// The workspace
// ---------------------------------------------------------------------------

/// A file that was met when the workspace was walked.
#[derive(Debug)]
pub struct WalkedFile {
    pub path: String,
    pub modified: SystemTime,
}

/// A Crystal source file.
#[derive(Debug)]
pub struct FileEntry {
    pub path: String,
    pub modified: SystemTime,
    /// The innermost directory with a `shard.yml` that the file lies under.
    pub project_root: Option<String>,
    pub parsed: bool,
}

/// The model of a [`FileEntry`].
#[verifier::ext_equal]
pub struct Entry {
    pub path: Seq<char>,
    pub modified: SystemTime,
    pub project_root: Option<Seq<char>>,
    pub parsed: bool,
}

impl View for FileEntry {
    type V = Entry;

    open spec fn view(&self) -> Entry {
        Entry {
            path: self.path@,
            modified: self.modified,
            project_root: opt_text(self.project_root),
            parsed: self.parsed,
        }
    }
}

/// The models of several entries.
pub open spec fn file_entry_views(s: Seq<FileEntry>) -> Seq<Entry> {
    Seq::new(s.len(), |i: int| s[i]@)
}

/// The directories with a `shard.yml` among the files that were met.
pub open spec fn shard_dirs_of(walked: Seq<WalkedFile>) -> Seq<Seq<char>>
    decreases walked.len(),
{
    if walked.len() == 0 {
        Seq::empty()
    } else {
        let before = shard_dirs_of(walked.drop_last());
        let path = walked.last().path@;
        if file_name_of(path) == Some("shard.yml"@) && parent_path(path) is Some {
            before.push(parent_path(path)->0)
        } else {
            before
        }
    }
}

/// Whether entries are in the order of their paths, each path once.
pub open spec fn ordered_entries(files: Seq<Entry>) -> bool {
    forall|i: int, j: int|
        0 <= i < j < files.len() ==> path_at_most(
            (#[trigger] files[i]).path,
            (#[trigger] files[j]).path,
        ) && !same_path(files[i].path, files[j].path)
}

/// `files` with the entry `e` in its place; it replaces one of the same path.
pub open spec fn with_entry(files: Seq<Entry>, e: Entry) -> Seq<Entry>
    decreases files.len(),
{
    if files.len() == 0 {
        seq![e]
    } else if same_path(files[0].path, e.path) {
        seq![e] + files.skip(1)
    } else if path_at_most(e.path, files[0].path) {
        seq![e] + files
    } else {
        seq![files[0]] + with_entry(files.skip(1), e)
    }
}

/// The entries of the Crystal files that were met, where `roots` are the project roots.
pub open spec fn entries_of(walked: Seq<WalkedFile>, roots: Seq<Seq<char>>) -> Seq<Entry>
    decreases walked.len(),
{
    if walked.len() == 0 {
        Seq::empty()
    } else {
        let before = entries_of(walked.drop_last(), roots);
        let w = walked.last();
        if crystal_file(w.path@) {
            with_entry(
                before,
                Entry {
                    path: w.path@,
                    modified: w.modified,
                    project_root: root_of(roots, w.path@, 0),
                    parsed: false,
                },
            )
        } else {
            before
        }
    }
}

proof fn lemma_with_entry(files: Seq<Entry>, e: Entry)
    requires
        ordered_entries(files),
    ensures
        ordered_entries(with_entry(files, e)),
        forall|x: Entry|
            #![trigger with_entry(files, e).contains(x)]
            with_entry(files, e).contains(x) <==> x == e || (files.contains(x) && !same_path(
                x.path,
                e.path,
            )),
    decreases files.len(),
{
    let r = with_entry(files, e);
    if files.len() == 0 {
        assert(r =~= seq![e]);
        assert forall|x: Entry| #![trigger r.contains(x)] r.contains(x) <==> x == e by {
            assert(r[0] == e);
        }
    } else {
        let rest = files.skip(1);
        let first = files[0];
        assert forall|i: int, j: int| 0 <= i < j < rest.len() implies path_at_most(
            (#[trigger] rest[i]).path,
            (#[trigger] rest[j]).path,
        ) && !same_path(rest[i].path, rest[j].path) by {
            assert(rest[i] == files[i + 1] && rest[j] == files[j + 1]);
        }
        assert forall|x: Entry| #![trigger rest.contains(x)] rest.contains(x) implies path_at_most(
            first.path,
            x.path,
        ) && !same_path(first.path, x.path) && files.contains(x) by {
            let k = choose|k: int| 0 <= k < rest.len() && rest[k] == x;
            assert(files[k + 1] == x);
        }
        assert forall|x: Entry| #![trigger files.contains(x)] files.contains(x) implies x == first
            || rest.contains(x) by {
            let k = choose|k: int| 0 <= k < files.len() && files[k] == x;
            if k > 0 {
                assert(rest[k - 1] == x);
            }
        }
        if same_path(first.path, e.path) {
            lemma_join_entries(e, rest);
        } else if path_at_most(e.path, first.path) {
            assert forall|x: Entry| #![trigger files.contains(x)] files.contains(x) implies path_at_most(
                e.path,
                x.path,
            ) && !same_path(e.path, x.path) by {
                if x != first {
                    assert(rest.contains(x));
                    lemma_parts_transitive(
                        path_parts(e.path),
                        path_parts(first.path),
                        path_parts(x.path),
                    );
                    lemma_parts_total(path_parts(e.path), path_parts(first.path));
                }
            }
            lemma_join_entries(e, files);
        } else {
            lemma_with_entry(rest, e);
            let t = with_entry(rest, e);
            lemma_parts_total(path_parts(e.path), path_parts(first.path));
            assert forall|x: Entry| #![trigger t.contains(x)] t.contains(x) implies path_at_most(
                first.path,
                x.path,
            ) && !same_path(first.path, x.path) by {}
            lemma_join_entries(first, t);
            assert(files.contains(first));
        }
    }
}

proof fn lemma_join_entries(first: Entry, t: Seq<Entry>)
    requires
        ordered_entries(t),
        forall|x: Entry|
            #![trigger t.contains(x)]
            t.contains(x) ==> path_at_most(first.path, x.path) && !same_path(first.path, x.path),
    ensures
        ordered_entries(seq![first] + t),
        forall|x: Entry|
            #![trigger (seq![first] + t).contains(x)]
            (seq![first] + t).contains(x) <==> x == first || t.contains(x),
{
    let r = seq![first] + t;
    assert forall|i: int, j: int| 0 <= i < j < r.len() implies path_at_most(
        (#[trigger] r[i]).path,
        (#[trigger] r[j]).path,
    ) && !same_path(r[i].path, r[j].path) by {
        assert(r[j] == t[j - 1]);
        if i == 0 {
            assert(t.contains(t[j - 1]));
        } else {
            assert(r[i] == t[i - 1]);
        }
    }
    assert forall|x: Entry| #![trigger r.contains(x)] r.contains(x) <==> x == first || t.contains(
        x,
    ) by {
        if r.contains(x) {
            let k = choose|k: int| 0 <= k < r.len() && r[k] == x;
            if k > 0 {
                assert(t[k - 1] == x);
            }
        }
        if t.contains(x) {
            let k = choose|k: int| 0 <= k < t.len() && t[k] == x;
            assert(r[k + 1] == x);
        }
        if x == first {
            assert(r[0] == x);
        }
    }
}

/// A scan lists its files in the order of their paths, each once, and lists a path if and only if
/// the walk met a Crystal file there.
pub proof fn lemma_entries(walked: Seq<WalkedFile>, roots: Seq<Seq<char>>, path: Seq<char>)
    ensures
        ordered_entries(entries_of(walked, roots)),
        (exists|i: int|
            0 <= i < entries_of(walked, roots).len() && same_path(
                (#[trigger] entries_of(walked, roots)[i]).path,
                path,
            )) <==> exists|k: int|
            0 <= k < walked.len() && crystal_file((#[trigger] walked[k]).path@) && same_path(
                walked[k].path@,
                path,
            ),
    decreases walked.len(),
{
    if walked.len() > 0 {
        let rest = walked.drop_last();
        lemma_entries(rest, roots, path);
        let w = walked.last();
        let before = entries_of(rest, roots);
        let after = entries_of(walked, roots);
        let met = exists|k: int|
            0 <= k < walked.len() && crystal_file((#[trigger] walked[k]).path@) && same_path(
                walked[k].path@,
                path,
            );
        let met_before = exists|k: int|
            0 <= k < rest.len() && crystal_file((#[trigger] rest[k]).path@) && same_path(
                rest[k].path@,
                path,
            );
        assert(met <==> met_before || (crystal_file(w.path@) && same_path(w.path@, path))) by {
            if met_before {
                let k = choose|k: int|
                    0 <= k < rest.len() && crystal_file((#[trigger] rest[k]).path@) && same_path(
                        rest[k].path@,
                        path,
                    );
                assert(walked[k] == rest[k]);
            }
            if crystal_file(w.path@) && same_path(w.path@, path) {
                assert(walked[walked.len() - 1] == w);
            }
            if met {
                let k = choose|k: int|
                    0 <= k < walked.len() && crystal_file((#[trigger] walked[k]).path@)
                        && same_path(walked[k].path@, path);
                if k < rest.len() {
                    assert(rest[k] == walked[k]);
                }
            }
        }
        if crystal_file(w.path@) {
            let e = Entry {
                path: w.path@,
                modified: w.modified,
                project_root: root_of(roots, w.path@, 0),
                parsed: false,
            };
            lemma_with_entry(before, e);
            if exists|i: int| 0 <= i < after.len() && same_path((#[trigger] after[i]).path, path) {
                let i = choose|i: int| 0 <= i < after.len() && same_path((#[trigger] after[i]).path, path);
                assert(after.contains(after[i]));
                if after[i] != e {
                    assert(before.contains(after[i]));
                    let j = choose|j: int| 0 <= j < before.len() && before[j] == after[i];
                    assert(same_path(before[j].path, path));
                }
            }
            if met {
                if same_path(w.path@, path) {
                    assert(after.contains(e));
                    let i = choose|i: int| 0 <= i < after.len() && after[i] == e;
                    assert(same_path(after[i].path, path));
                } else {
                    let j = choose|j: int|
                        0 <= j < before.len() && same_path((#[trigger] before[j]).path, path);
                    assert(before.contains(before[j]));
                    assert(after.contains(before[j]));
                    let i = choose|i: int| 0 <= i < after.len() && after[i] == before[j];
                    assert(same_path(after[i].path, path));
                }
            }
        }
    }
}

/// A workspace that was scanned.
#[derive(Debug)]
pub struct Workspace {
    pub root: String,
    /// The Crystal files in the order of their paths.
    pub files: Vec<FileEntry>,
    /// The directories that hold a `shard.yml`, the deepest first.
    pub project_roots: Vec<String>,
}

fn put_entry(files: &mut Vec<FileEntry>, e: FileEntry)
    ensures
        file_entry_views(final(files)@) == with_entry(file_entry_views(old(files)@), e@),
{
    let ghost all = file_entry_views(files@);
    let mut i: usize = 0;
    assert(all.skip(0) =~= all);
    assert(all.take(0) + with_entry(all, e@) =~= with_entry(all, e@));
    let parts = parts_of(&e.path);
    while i < files.len()
        invariant
            i <= files@.len(),
            files@ == old(files)@,
            all == file_entry_views(files@),
            part_views(parts@) == path_parts(e.path@),
            with_entry(all, e@) == all.take(i as int) + with_entry(all.skip(i as int), e@),
        decreases files@.len() - i,
    {
        assert(all[i as int] == files@[i as int]@);
        let ghost rest = all.skip(i as int);
        assert(rest.skip(1) =~= all.skip(i + 1));
        if is_same_path(&files[i].path, &e.path) {
            files.set(i, e);
            assert(file_entry_views(files@) =~= all.take(i as int) + (seq![e@] + all.skip(i + 1)));
            return ;
        }
        if are_parts_at_most(&parts, &parts_of(&files[i].path)) {
            files.insert(i, e);
            assert(file_entry_views(files@) =~= all.take(i as int) + (seq![e@] + rest));
            return ;
        }
        assert(all.take(i as int) + (seq![rest[0]] + with_entry(rest.skip(1), e@)) =~= all.take(
            i + 1,
        ) + with_entry(all.skip(i + 1), e@));
        i = i + 1;
    }
    files.push(e);
    assert(file_entry_views(files@) =~= all.take(i as int) + seq![e@]);
}

impl Workspace {
    /// Makes the workspace at `root` from the files that were met when it was walked.
    pub fn scan(root: &str, walked: &Vec<WalkedFile>) -> (r: Self)
        ensures
            r.root@ == root@,
            texts(r.project_roots@) == stable_sorted(depth_order(), shard_dirs_of(walked@)),
            file_entry_views(r.files@) == entries_of(walked@, texts(r.project_roots@)),
    {
        let mut dirs: Vec<String> = Vec::new();
        let mut i: usize = 0;
        assert(walked@.take(0) =~= Seq::empty());
        assert(texts(dirs@) =~= Seq::empty());
        while i < walked.len()
            invariant
                i <= walked@.len(),
                texts(dirs@) == shard_dirs_of(walked@.take(i as int)),
            decreases walked@.len() - i,
        {
            let ghost before = texts(dirs@);
            assert(walked@.take(i + 1).drop_last() =~= walked@.take(i as int));
            let path = &walked[i].path;
            if let Some(name) = file_name(path) {
                if same(&name, "shard.yml") {
                    if let Some(dir) = parent(path) {
                        dirs.push(dir);
                        assert(texts(dirs@) =~= before.push(dir@));
                    }
                }
            }
            i = i + 1;
        }
        assert(walked@.take(i as int) =~= walked@);
        let project_roots = sort_by_depth(dirs);
        let ghost roots = texts(project_roots@);
        let mut files: Vec<FileEntry> = Vec::new();
        let mut j: usize = 0;
        assert(file_entry_views(files@) =~= Seq::empty());
        while j < walked.len()
            invariant
                j <= walked@.len(),
                roots == texts(project_roots@),
                file_entry_views(files@) == entries_of(walked@.take(j as int), roots),
            decreases walked@.len() - j,
        {
            assert(walked@.take(j + 1).drop_last() =~= walked@.take(j as int));
            let w = &walked[j];
            if is_crystal_file(&w.path) {
                let project_root = find_project_root(&w.path, &project_roots);
                put_entry(
                    &mut files,
                    FileEntry { path: copy(&w.path), modified: w.modified, project_root, parsed: false },
                );
            }
            j = j + 1;
        }
        assert(walked@.take(j as int) =~= walked@);
        Workspace { root: copy(root), files, project_roots }
    }
}

} // verus!
