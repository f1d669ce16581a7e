//! What a finished search for the files of a glob has found.
//!
//! The laws of [`GlobSearch`](crate::resolver::GlobSearch): the files that it finds are exactly the
//! Crystal files in the directories that are reached from the one it starts at, and where the
//! directories end, so does the search.

use vstd::multiset::Multiset;
use vstd::prelude::*;

use crate::resolver::{
    after_dir, after_entries, glob_dirs, glob_files, glob_start, GlobEntry, GlobModel,
};

verus! {

/// What is on disk: the entries of a directory; none where it cannot be listed.
pub type Disk = spec_fn(Seq<char>) -> Seq<GlobEntry>;

/// The search after one more directory was handed out, listed, and its entries taken over.
pub open spec fn search_step(disk: Disk, g: GlobModel) -> GlobModel {
    if g.pending.len() == 0 {
        g
    } else {
        after_entries(after_dir(g), disk(g.pending.last()))
    }
}

/// The search `g` after `n` more directories.
pub open spec fn searched(disk: Disk, g: GlobModel, n: nat) -> GlobModel
    decreases n,
{
    if n == 0 {
        g
    } else {
        search_step(disk, searched(disk, g, (n - 1) as nat))
    }
}

/// Whether `chain` leads from the directory `from` to `dir`, each directory of it holding the next.
pub open spec fn descends(
    disk: Disk,
    from: Seq<char>,
    dir: Seq<char>,
    chain: Seq<Seq<char>>,
) -> bool {
    &&& chain.len() > 0
    &&& chain[0] == from
    &&& chain.last() == dir
    &&& forall|i: int|
        0 <= i < chain.len() - 1 ==> glob_dirs(disk(#[trigger] chain[i])).contains(chain[i + 1])
}

/// Whether the search looks into the directory `dir`: it is the one to start at or, where the search
/// is recursive, one below it.
pub open spec fn looked_into(disk: Disk, from: Seq<char>, recursive: bool, dir: Seq<char>) -> bool {
    dir == from || recursive && exists|chain: Seq<Seq<char>>| descends(disk, from, dir, chain)
}

/// Whether `file` is a Crystal file in a directory that the search looks into.
pub open spec fn reached_file(
    disk: Disk,
    from: Seq<char>,
    recursive: bool,
    file: Seq<char>,
) -> bool {
    exists|dir: Seq<char>| #[trigger]
        looked_into(disk, from, recursive, dir) && glob_files(disk(dir)).contains(file)
}

/// What holds of a search that has handed out the directories `dirs`: the one to start at and those
/// below each of them were handed out or are still to come, their files were found, and nothing is
/// found or still to come but what is reached.
spec fn handed_out(disk: Disk, g: GlobModel, dirs: Seq<Seq<char>>) -> bool {
    &&& forall|d: Seq<char>| #[trigger]
        g.pending.contains(d) ==> looked_into(disk, g.dir, g.recursive, d)
    &&& dirs.contains(g.dir) || g.pending.contains(g.dir)
    &&& g.recursive ==> forall|d: Seq<char>, e: Seq<char>| #[trigger]
        dirs.contains(d) && #[trigger] glob_dirs(disk(d)).contains(e) ==> dirs.contains(e)
            || g.pending.contains(e)
    &&& forall|x: Seq<char>| #[trigger]
        g.files.contains(x) ==> reached_file(disk, g.dir, g.recursive, x)
    &&& forall|d: Seq<char>, x: Seq<char>| #[trigger]
        dirs.contains(d) && #[trigger] glob_files(disk(d)).contains(x) ==> g.files.contains(x)
}

proof fn lemma_below_looked_into(
    disk: Disk,
    from: Seq<char>,
    dir: Seq<char>,
    next: Seq<char>,
)
    requires
        looked_into(disk, from, true, dir),
        glob_dirs(disk(dir)).contains(next),
    ensures
        looked_into(disk, from, true, next),
{
    let chain = if dir == from {
        seq![from]
    } else {
        choose|chain: Seq<Seq<char>>| descends(disk, from, dir, chain)
    };
    let longer = chain.push(next);
    assert forall|i: int| 0 <= i < longer.len() - 1 implies glob_dirs(
        disk(#[trigger] longer[i]),
    ).contains(longer[i + 1]) by {
        if i < chain.len() - 1 {
            assert(glob_dirs(disk(chain[i])).contains(chain[i + 1]));
        }
    }
    assert(descends(disk, from, next, longer));
}

/// What two sequences in a row hold is what one or the other holds.
pub proof fn lemma_sum_contains<A>(a: Seq<A>, b: Seq<A>, x: A)
    ensures
        (a + b).contains(x) <==> a.contains(x) || b.contains(x),
{
    let s = a + b;
    if a.contains(x) {
        let i = choose|i: int| 0 <= i < a.len() && a[i] == x;
        assert(s[i] == x);
    }
    if b.contains(x) {
        let i = choose|i: int| 0 <= i < b.len() && b[i] == x;
        assert(s[a.len() + i] == x);
    }
    if s.contains(x) {
        let i = choose|i: int| 0 <= i < s.len() && s[i] == x;
        if i < a.len() {
            assert(a[i] == x);
        } else {
            assert(b[i - a.len()] == x);
        }
    }
}

proof fn lemma_step_handed_out(disk: Disk, g: GlobModel, dirs: Seq<Seq<char>>)
    requires
        handed_out(disk, g, dirs),
        g.pending.len() > 0,
    ensures
        handed_out(disk, search_step(disk, g), dirs.push(g.pending.last())),
        search_step(disk, g).dir == g.dir,
        search_step(disk, g).recursive == g.recursive,
{
    let dir = g.pending.last();
    let rest = g.pending.drop_last();
    let more = dirs.push(dir);
    let found = glob_files(disk(dir));
    let below = glob_dirs(disk(dir));
    let h = search_step(disk, g);
    assert(g.pending.contains(dir));
    assert forall|d: Seq<char>| #[trigger] more.contains(d) <==> dirs.contains(d) || d == dir by {
        assert(more =~= dirs + seq![dir]);
        lemma_sum_contains(dirs, seq![dir], d);
        assert(seq![dir].contains(d) <==> d == dir) by {
            assert(seq![dir][0] == dir);
        }
    }
    assert forall|d: Seq<char>| #[trigger] g.pending.contains(d) <==> rest.contains(d) || d
        == dir by {
        assert(g.pending =~= rest + seq![dir]);
        lemma_sum_contains(rest, seq![dir], d);
        assert(seq![dir].contains(d) <==> d == dir) by {
            assert(seq![dir][0] == dir);
        }
    }
    assert forall|d: Seq<char>| #[trigger] h.pending.contains(d) <==> rest.contains(d)
        || g.recursive && below.contains(d) by {
        lemma_sum_contains(rest, below, d);
    }
    assert forall|x: Seq<char>| #[trigger] h.files.contains(x) <==> g.files.contains(x)
        || found.contains(x) by {
        lemma_sum_contains(g.files, found, x);
    }
    assert forall|d: Seq<char>| #[trigger] h.pending.contains(d) implies looked_into(
        disk,
        g.dir,
        g.recursive,
        d,
    ) by {
        if rest.contains(d) {
            assert(g.pending.contains(d));
        } else {
            lemma_below_looked_into(disk, g.dir, dir, d);
        }
    }
    assert forall|x: Seq<char>| #[trigger] h.files.contains(x) implies reached_file(
        disk,
        g.dir,
        g.recursive,
        x,
    ) by {
        if !g.files.contains(x) {
            assert(looked_into(disk, g.dir, g.recursive, dir));
        }
    }
}

proof fn lemma_searched(disk: Disk, dir: Seq<char>, recursive: bool, n: nat) -> (dirs: Seq<
    Seq<char>,
>)
    ensures
        handed_out(disk, searched(disk, glob_start(dir, recursive), n), dirs),
        searched(disk, glob_start(dir, recursive), n).dir == dir,
        searched(disk, glob_start(dir, recursive), n).recursive == recursive,
    decreases n,
{
    if n == 0 {
        assert(glob_start(dir, recursive).pending[0] == dir);
        Seq::empty()
    } else {
        let dirs = lemma_searched(disk, dir, recursive, (n - 1) as nat);
        let g = searched(disk, glob_start(dir, recursive), (n - 1) as nat);
        if g.pending.len() == 0 {
            dirs
        } else {
            lemma_step_handed_out(disk, g, dirs);
            dirs.push(g.pending.last())
        }
    }
}

proof fn lemma_chain_handed_out(
    disk: Disk,
    g: GlobModel,
    dirs: Seq<Seq<char>>,
    chain: Seq<Seq<char>>,
    i: int,
)
    requires
        handed_out(disk, g, dirs),
        g.pending.len() == 0,
        g.recursive,
        0 <= i < chain.len(),
        descends(disk, g.dir, chain.last(), chain),
    ensures
        dirs.contains(chain[i]),
    decreases i,
{
    if i > 0 {
        lemma_chain_handed_out(disk, g, dirs, chain, i - 1);
        assert(glob_dirs(disk(chain[i - 1])).contains(chain[i - 1 + 1]));
    }
}

/// When no directory is left, the files that were found are exactly the Crystal files in the
/// directory to start at and, where the search is recursive, in the directories below it.
pub proof fn lemma_glob_is_what_is_reached(
    disk: Disk,
    dir: Seq<char>,
    recursive: bool,
    n: nat,
    file: Seq<char>,
)
    requires
        searched(disk, glob_start(dir, recursive), n).pending.len() == 0,
    ensures
        searched(disk, glob_start(dir, recursive), n).files.contains(file) <==> reached_file(
            disk,
            dir,
            recursive,
            file,
        ),
{
    let g = searched(disk, glob_start(dir, recursive), n);
    let dirs = lemma_searched(disk, dir, recursive, n);
    if reached_file(disk, dir, recursive, file) {
        let d = choose|d: Seq<char>| #[trigger]
            looked_into(disk, dir, recursive, d) && glob_files(disk(d)).contains(file);
        if d != dir {
            let chain = choose|chain: Seq<Seq<char>>| descends(disk, dir, d, chain);
            lemma_chain_handed_out(disk, g, dirs, chain, chain.len() - 1);
        }
        assert(dirs.contains(d));
    }
}

// ---------------------------------------------------------------------------
// How often
// ---------------------------------------------------------------------------

/// Whether the directories below `dir` end: it and they stand on at most `depth` levels.
pub open spec fn ends_within(disk: Disk, dir: Seq<char>, depth: nat) -> bool
    decreases depth,
{
    depth > 0 && forall|i: int|
        0 <= i < glob_dirs(disk(dir)).len() ==> ends_within(
            disk,
            #[trigger] glob_dirs(disk(dir))[i],
            (depth - 1) as nat,
        )
}

/// The Crystal files in the directory `dir` and in those below it, on `depth` levels.
pub open spec fn files_below(disk: Disk, dir: Seq<char>, depth: nat) -> Multiset<Seq<char>>
    decreases depth, 0nat,
{
    if depth == 0 {
        Multiset::empty()
    } else {
        glob_files(disk(dir)).to_multiset().add(
            files_below_all(disk, glob_dirs(disk(dir)), (depth - 1) as nat),
        )
    }
}

/// The Crystal files in the directories `dirs` and in those below them, on `depth` levels.
pub open spec fn files_below_all(
    disk: Disk,
    dirs: Seq<Seq<char>>,
    depth: nat,
) -> Multiset<Seq<char>>
    decreases depth, dirs.len() + 1,
{
    if dirs.len() == 0 {
        Multiset::empty()
    } else {
        files_below_all(disk, dirs.drop_last(), depth).add(files_below(disk, dirs.last(), depth))
    }
}

proof fn lemma_searched_sum(disk: Disk, g: GlobModel, m: nat, n: nat)
    ensures
        searched(disk, searched(disk, g, m), n) == searched(disk, g, m + n),
    decreases n,
{
    if n > 0 {
        lemma_searched_sum(disk, g, m, (n - 1) as nat);
    }
}

/// The search of the last directory, and of all below it, ends and leaves the others.
proof fn lemma_search_last(disk: Disk, g: GlobModel, depth: nat) -> (n: nat)
    requires
        g.recursive,
        g.pending.len() > 0,
        ends_within(disk, g.pending.last(), depth),
    ensures
        searched(disk, g, n).recursive,
        searched(disk, g, n).pending == g.pending.drop_last(),
        searched(disk, g, n).files.to_multiset() == g.files.to_multiset().add(
            files_below(disk, g.pending.last(), depth),
        ),
    decreases depth, 0nat,
{
    let dir = g.pending.last();
    let dirs = glob_dirs(disk(dir));
    let h = search_step(disk, g);
    assert(searched(disk, g, 0) == g);
    assert(searched(disk, g, 1) == h);
    let n = lemma_search_all(disk, h, g.pending.drop_last(), dirs, (depth - 1) as nat);
    lemma_searched_sum(disk, g, 1, n);
    vstd::seq_lib::lemma_multiset_commutative(g.files, glob_files(disk(dir)));
    let end = searched(disk, g, 1 + n);
    assert(end.files.to_multiset() =~= g.files.to_multiset().add(files_below(disk, dir, depth)));
    1 + n
}

/// The search of the directories `dirs`, and of all below them, ends and leaves those before them.
proof fn lemma_search_all(
    disk: Disk,
    g: GlobModel,
    rest: Seq<Seq<char>>,
    dirs: Seq<Seq<char>>,
    depth: nat,
) -> (n: nat)
    requires
        g.recursive,
        g.pending == rest + dirs,
        forall|i: int| 0 <= i < dirs.len() ==> ends_within(disk, #[trigger] dirs[i], depth),
    ensures
        searched(disk, g, n).recursive,
        searched(disk, g, n).pending == rest,
        searched(disk, g, n).files.to_multiset() == g.files.to_multiset().add(
            files_below_all(disk, dirs, depth),
        ),
    decreases depth, dirs.len() + 1,
{
    if dirs.len() == 0 {
        assert(rest + dirs =~= rest);
        assert(g.files.to_multiset().add(Multiset::empty()) =~= g.files.to_multiset());
        assert(searched(disk, g, 0) == g);
        0
    } else {
        let front = dirs.drop_last();
        assert(g.pending.drop_last() =~= rest + front);
        assert(ends_within(disk, dirs[dirs.len() - 1], depth));
        let m = lemma_search_last(disk, g, depth);
        let h = searched(disk, g, m);
        assert forall|i: int| 0 <= i < front.len() implies ends_within(
            disk,
            #[trigger] front[i],
            depth,
        ) by {
            assert(front[i] == dirs[i]);
        }
        let n = lemma_search_all(disk, h, rest, front, depth);
        lemma_searched_sum(disk, g, m, n);
        assert(searched(disk, g, m + n).files.to_multiset() =~= g.files.to_multiset().add(
            files_below_all(disk, dirs, depth),
        ));
        m + n
    }
}

proof fn lemma_ended_stays(disk: Disk, g: GlobModel, n: nat)
    requires
        g.pending.len() == 0,
    ensures
        searched(disk, g, n) == g,
    decreases n,
{
    if n > 0 {
        lemma_ended_stays(disk, g, (n - 1) as nat);
    }
}

proof fn lemma_one_end(disk: Disk, g: GlobModel, m: nat, n: nat)
    requires
        searched(disk, g, m).pending.len() == 0,
        searched(disk, g, n).pending.len() == 0,
    ensures
        searched(disk, g, m) == searched(disk, g, n),
{
    if m <= n {
        lemma_searched_sum(disk, g, m, (n - m) as nat);
        lemma_ended_stays(disk, searched(disk, g, m), (n - m) as nat);
    } else {
        lemma_searched_sum(disk, g, n, (m - n) as nat);
        lemma_ended_stays(disk, searched(disk, g, n), (m - n) as nat);
    }
}

/// A recursive search ends where the directories below the one to start at do, and has found each
/// Crystal file as often as they hold it.
pub proof fn lemma_recursive_glob_ends(disk: Disk, dir: Seq<char>, depth: nat)
    requires
        ends_within(disk, dir, depth),
    ensures
        exists|n: nat| #[trigger] searched(disk, glob_start(dir, true), n).pending.len() == 0,
        forall|n: nat|
            (#[trigger] searched(disk, glob_start(dir, true), n)).pending.len() == 0 ==> searched(
                disk,
                glob_start(dir, true),
                n,
            ).files.to_multiset() == files_below(disk, dir, depth),
{
    let g = glob_start(dir, true);
    let m = lemma_search_last(disk, g, depth);
    let end = searched(disk, g, m);
    assert(end.pending.len() == 0);
    g.files.to_multiset_ensures();
    assert(g.files.to_multiset() =~= Multiset::empty());
    assert(end.files.to_multiset() =~= files_below(disk, dir, depth));
    assert forall|n: nat|
        (#[trigger] searched(disk, g, n)).pending.len() == 0 implies searched(
        disk,
        g,
        n,
    ).files.to_multiset() == files_below(disk, dir, depth) by {
        lemma_one_end(disk, g, m, n);
    }
}

/// A search that is not recursive ends after the directory to start at, with the Crystal files in it.
pub proof fn lemma_flat_glob_ends(disk: Disk, dir: Seq<char>)
    ensures
        ({
            let end = searched(disk, glob_start(dir, false), 1);
            end.pending.len() == 0 && end.files == glob_files(disk(dir))
        }),
{
    let g = glob_start(dir, false);
    assert(searched(disk, g, 0) == g);
    assert(searched(disk, g, 1).files =~= glob_files(disk(dir)));
}

} // verus!
