//! What the finished graph of requires is.
//!
//! The laws of [`GraphBuilder`](crate::resolver::GraphBuilder): the graph holds exactly the files
//! that can be read and are reached from those it starts from, and depends on nothing but their set.

use vstd::prelude::*;

use crate::paths::{path_parts, same_path, Part};
use crate::resolver::{
    after_next, after_requires, among, distinct_paths, graph_keys, graph_link, graph_start,
    lemma_after_next_wf, lemma_after_requires_wf, lemma_next_place, lemma_start_wf, leads,
    next_place, reached, Graph, GraphModel, Link,
};

verus! {

/// What is on disk: the files that a file requires, or `None` where it cannot be read.
pub type Project = spec_fn(Seq<char>) -> Option<Seq<Seq<char>>>;

/// Whether reading the same path gives the same answer, however the path is written.
pub open spec fn steady(project: Project) -> bool {
    forall|a: Seq<char>, b: Seq<char>|
        same_path(a, b) ==> #[trigger] project(a) == #[trigger] project(b)
}

/// Which file requires which.
pub open spec fn project_link(project: Project) -> Link {
    |a: Seq<char>, b: Seq<char>| project(a) is Some && among(project(a)->0, b)
}

/// The builder after one more file was handed out, read, and its requires taken over; a file that
/// cannot be read is passed over.
pub open spec fn build_step(project: Project, g: GraphModel) -> GraphModel {
    let a = after_next(g);
    match a.current {
        Some(file) => match project(file) {
            Some(files) => after_requires(a, files),
            None => a,
        },
        None => a,
    }
}

/// The builder that starts from `roots` after `n` files.
pub open spec fn built(project: Project, roots: Seq<Seq<char>>, n: nat) -> GraphModel
    decreases n,
{
    if n == 0 {
        graph_start(roots)
    } else {
        build_step(project, built(project, roots, (n - 1) as nat))
    }
}

/// Whether no file is left to be handed out.
pub open spec fn ended(g: GraphModel) -> bool {
    next_place(g.queue, g.visited, g.queue.len() as int) is None
}

/// Whether the entries of the graph say what is on disk, and every file that was handed out and can
/// be read has one.
spec fn faithful(project: Project, g: GraphModel) -> bool {
    &&& forall|i: int| 0 <= i < g.graph.len() ==> project((#[trigger] g.graph[i]).0) == Some(
        g.graph[i].1,
    )
    &&& forall|k: int|
        0 <= k < g.visited.len() && project(#[trigger] g.visited[k]) is Some ==> among(
            graph_keys(g.graph),
            g.visited[k],
        )
}

proof fn lemma_step(project: Project, g: GraphModel)
    requires
        g.wf(),
        faithful(project, g),
    ensures
        build_step(project, g).wf(),
        faithful(project, build_step(project, g)),
        build_step(project, g).roots == g.roots,
        !ended(g) ==> build_step(project, g).visited.len() == g.visited.len() + 1,
{
    lemma_after_next_wf(g);
    lemma_next_place(g.queue, g.visited, g.queue.len() as int);
    let a = after_next(g);
    let b = build_step(project, g);
    if let Some(file) = a.current {
        if let Some(files) = project(file) {
            lemma_after_requires_wf(a, files);
            let n = g.graph.len() as int;
            let keys = graph_keys(b.graph);
            assert forall|i: int| 0 <= i < b.graph.len() implies project((#[trigger] b.graph[i]).0)
                == Some(b.graph[i].1) by {
                if i < n {
                    assert(b.graph[i] == g.graph[i]);
                }
            }
            assert forall|k: int|
                0 <= k < b.visited.len() && project(#[trigger] b.visited[k]) is Some implies among(
                keys,
                b.visited[k],
            ) by {
                if k < g.visited.len() {
                    assert(b.visited[k] == g.visited[k]);
                    let held = graph_keys(g.graph);
                    let i = choose|i: int|
                        0 <= i < held.len() && same_path(#[trigger] held[i], g.visited[k]);
                    assert(keys[i] == held[i]);
                    assert(same_path(keys[i], b.visited[k]));
                } else {
                    assert(keys[n] == file);
                    assert(same_path(keys[n], b.visited[k]));
                }
            }
        } else {
            assert forall|k: int|
                0 <= k < b.visited.len() && project(#[trigger] b.visited[k]) is Some implies among(
                graph_keys(b.graph),
                b.visited[k],
            ) by {
                assert(b.visited[k] == g.visited[k]);
            }
        }
    }
}

proof fn lemma_built(project: Project, roots: Seq<Seq<char>>, n: nat)
    ensures
        built(project, roots, n).wf(),
        faithful(project, built(project, roots, n)),
        built(project, roots, n).roots == roots,
    decreases n,
{
    if n == 0 {
        lemma_start_wf(roots);
    } else {
        lemma_built(project, roots, (n - 1) as nat);
        lemma_step(project, built(project, roots, (n - 1) as nat));
    }
}

proof fn lemma_same_among(paths: Seq<Seq<char>>, x: Seq<char>, y: Seq<char>)
    requires
        among(paths, x),
        same_path(x, y),
    ensures
        among(paths, y),
{
    let i = choose|i: int| 0 <= i < paths.len() && same_path(#[trigger] paths[i], x);
    assert(same_path(paths[i], y));
}

/// At the end, what is in the queue was handed out.
proof fn lemma_ended(g: GraphModel, x: Seq<char>)
    requires
        ended(g),
        among(g.visited, x) || among(g.queue, x),
    ensures
        among(g.visited, x),
{
    lemma_next_place(g.queue, g.visited, g.queue.len() as int);
    if among(g.queue, x) {
        let k = choose|k: int| 0 <= k < g.queue.len() && same_path(#[trigger] g.queue[k], x);
        lemma_same_among(g.visited, g.queue[k], x);
    }
}

/// At the end, what a file requires was handed out where the file was.
proof fn lemma_next_visited(project: Project, g: GraphModel, a: Seq<char>, b: Seq<char>)
    requires
        steady(project),
        g.wf(),
        faithful(project, g),
        ended(g),
        among(g.visited, a),
        project_link(project)(a, b),
    ensures
        among(g.visited, b),
{
    let keys = graph_keys(g.graph);
    let v = choose|v: int| 0 <= v < g.visited.len() && same_path(#[trigger] g.visited[v], a);
    assert(project(g.visited[v]) == project(a));
    let k = choose|k: int| 0 <= k < keys.len() && same_path(#[trigger] keys[k], g.visited[v]);
    assert(g.graph[k].0 == keys[k]);
    assert(project(g.graph[k].0) == project(a));
    let files = g.graph[k].1;
    let j = choose|j: int| 0 <= j < files.len() && same_path(#[trigger] files[j], b);
    assert(g.graph[k].1[j] == files[j]);
    lemma_ended(g, files[j]);
    lemma_same_among(g.visited, files[j], b);
}

proof fn lemma_root_visited(g: GraphModel, x: Seq<char>)
    requires
        g.wf(),
        ended(g),
        among(g.roots, x),
    ensures
        among(g.visited, x),
{
    let r = choose|r: int| 0 <= r < g.roots.len() && same_path(#[trigger] g.roots[r], x);
    lemma_ended(g, g.roots[r]);
    lemma_same_among(g.visited, g.roots[r], x);
}

proof fn lemma_chain_visited(
    project: Project,
    g: GraphModel,
    x: Seq<char>,
    chain: Seq<Seq<char>>,
    i: int,
)
    requires
        steady(project),
        g.wf(),
        faithful(project, g),
        ended(g),
        leads(project_link(project), g.roots, x, chain),
        0 <= i < chain.len(),
    ensures
        among(g.visited, chain[i]),
    decreases i,
{
    if i == 0 {
        lemma_root_visited(g, chain[0]);
    } else {
        lemma_chain_visited(project, g, x, chain, i - 1);
        assert(project_link(project)(chain[i - 1], chain[i - 1 + 1]));
        lemma_next_visited(project, g, chain[i - 1], chain[i]);
    }
}

proof fn lemma_visited(project: Project, g: GraphModel, x: Seq<char>)
    requires
        steady(project),
        g.wf(),
        faithful(project, g),
    ensures
        among(g.visited, x) ==> reached(project_link(project), g.roots, x),
        ended(g) && reached(project_link(project), g.roots, x) ==> among(g.visited, x),
{
    let link = project_link(project);
    let held = graph_link(g.graph);
    if among(g.visited, x) {
        assert(reached(held, g.roots, x));
        let chain = choose|chain: Seq<Seq<char>>| leads(held, g.roots, x, chain);
        assert forall|i: int| 0 <= i < chain.len() - 1 implies link(
            #[trigger] chain[i],
            chain[i + 1],
        ) by {
            assert(held(chain[i], chain[i + 1]));
            let k = choose|k: int|
                0 <= k < g.graph.len() && same_path((#[trigger] g.graph[k]).0, chain[i]) && among(
                    g.graph[k].1,
                    chain[i + 1],
                );
            assert(project(g.graph[k].0) == project(chain[i]));
        }
        assert(leads(link, g.roots, x, chain));
    }
    if ended(g) && reached(link, g.roots, x) {
        let chain = choose|chain: Seq<Seq<char>>| leads(link, g.roots, x, chain);
        lemma_chain_visited(project, g, x, chain, chain.len() - 1);
        lemma_same_among(g.visited, chain.last(), x);
    }
}

/// When the builder has ended, the files that were handed out are exactly those that are reached
/// from the files to start from; those that have an entry in the graph are exactly those of them
/// that can be read; and each entry holds what its file requires.
pub proof fn lemma_graph_is_what_is_reached(
    project: Project,
    roots: Seq<Seq<char>>,
    n: nat,
    x: Seq<char>,
)
    requires
        steady(project),
        ended(built(project, roots, n)),
    ensures
        ({
            let g = built(project, roots, n);
            &&& among(g.visited, x) <==> reached(project_link(project), roots, x)
            &&& among(graph_keys(g.graph), x) <==> reached(project_link(project), roots, x)
                && project(x) is Some
            &&& forall|i: int|
                0 <= i < g.graph.len() ==> project((#[trigger] g.graph[i]).0) == Some(g.graph[i].1)
        }),
{
    let g = built(project, roots, n);
    let keys = graph_keys(g.graph);
    lemma_built(project, roots, n);
    lemma_visited(project, g, x);
    if among(keys, x) {
        let k = choose|k: int| 0 <= k < keys.len() && same_path(#[trigger] keys[k], x);
        assert(g.graph[k].0 == keys[k]);
        assert(among(g.visited, g.graph[k].0));
        lemma_same_among(g.visited, keys[k], x);
        assert(project(g.graph[k].0) == project(x));
    }
    if among(g.visited, x) && project(x) is Some {
        let v = choose|v: int| 0 <= v < g.visited.len() && same_path(#[trigger] g.visited[v], x);
        assert(project(g.visited[v]) == project(x));
        lemma_same_among(keys, g.visited[v], x);
    }
}

/// Whether the graph holds the entry of `file`, with what it requires.
pub open spec fn holds(graph: Graph, file: Seq<char>, files: Seq<Seq<char>>) -> bool {
    exists|i: int|
        0 <= i < graph.len() && same_path((#[trigger] graph[i]).0, file) && graph[i].1 == files
}

/// Whether every entry of the graph `a` is one of `b`.
pub open spec fn within(a: Graph, b: Graph) -> bool {
    forall|i: int| 0 <= i < a.len() ==> holds(b, (#[trigger] a[i]).0, a[i].1)
}

/// Whether two graphs have the same entries.
pub open spec fn same_graph(a: Graph, b: Graph) -> bool {
    within(a, b) && within(b, a)
}

proof fn lemma_within(
    project: Project,
    f1: Seq<Seq<char>>,
    n1: nat,
    f2: Seq<Seq<char>>,
    n2: nat,
)
    requires
        steady(project),
        ended(built(project, f1, n1)),
        ended(built(project, f2, n2)),
        forall|x: Seq<char>| #[trigger]
            reached(project_link(project), f1, x) && project(x) is Some ==> reached(
                project_link(project),
                f2,
                x,
            ),
    ensures
        within(built(project, f1, n1).graph, built(project, f2, n2).graph),
{
    let a = built(project, f1, n1).graph;
    let b = built(project, f2, n2).graph;
    assert forall|i: int| 0 <= i < a.len() implies holds(b, (#[trigger] a[i]).0, a[i].1) by {
        let x = a[i].0;
        assert(same_path(graph_keys(a)[i], x));
        assert(among(graph_keys(a), x));
        lemma_graph_is_what_is_reached(project, f1, n1, x);
        lemma_graph_is_what_is_reached(project, f2, n2, x);
        let keys = graph_keys(b);
        let j = choose|j: int| 0 <= j < keys.len() && same_path(#[trigger] keys[j], x);
        assert(b[j].0 == keys[j]);
        assert(project(b[j].0) == project(x));
        assert(same_path(b[j].0, a[i].0));
    }
}

/// The texts of paths as what they denote.
spec fn parts_seq(paths: Seq<Seq<char>>) -> Seq<Seq<Part>> {
    Seq::new(paths.len(), |i: int| path_parts(paths[i]))
}

/// Different paths that are all among others are no more than those.
proof fn lemma_no_more(a: Seq<Seq<char>>, b: Seq<Seq<char>>)
    requires
        distinct_paths(a),
        forall|i: int| 0 <= i < a.len() ==> among(b, #[trigger] a[i]),
    ensures
        a.len() <= b.len(),
{
    let pa = parts_seq(a);
    let pb = parts_seq(b);
    assert(pa.no_duplicates()) by {
        assert forall|i: int, j: int|
            0 <= i < pa.len() && 0 <= j < pa.len() && i != j implies pa[i] != pa[j] by {
            if i < j {
                assert(!same_path(a[i], a[j]));
            } else {
                assert(!same_path(a[j], a[i]));
            }
        }
    }
    pa.unique_seq_to_set();
    pb.lemma_cardinality_of_set();
    assert(pa.to_set().subset_of(pb.to_set())) by {
        assert forall|p: Seq<Part>| #[trigger] pa.to_set().contains(p) implies pb.to_set().contains(
            p,
        ) by {
            let i = choose|i: int| 0 <= i < pa.len() && pa[i] == p;
            assert(among(b, a[i]));
            let j = choose|j: int| 0 <= j < b.len() && same_path(#[trigger] b[j], a[i]);
            assert(pb[j] == p);
        }
    }
    vstd::seq_lib::seq_to_set_is_finite(pb);
    vstd::set_lib::lemma_len_subset(pa.to_set(), pb.to_set());
}

/// Each step that does not end hands out one more file.
proof fn lemma_visited_count(project: Project, roots: Seq<Seq<char>>, n: nat)
    requires
        forall|m: nat| m < n ==> !ended(#[trigger] built(project, roots, m)),
    ensures
        built(project, roots, n).visited.len() == n,
    decreases n,
{
    if n > 0 {
        let m = (n - 1) as nat;
        lemma_visited_count(project, roots, m);
        lemma_built(project, roots, m);
        lemma_step(project, built(project, roots, m));
        assert(!ended(built(project, roots, m)));
    }
}

proof fn lemma_ends(
    project: Project,
    f1: Seq<Seq<char>>,
    n1: nat,
    f2: Seq<Seq<char>>,
)
    requires
        steady(project),
        ended(built(project, f1, n1)),
        forall|x: Seq<char>| #[trigger]
            reached(project_link(project), f2, x) ==> reached(project_link(project), f1, x),
    ensures
        exists|n2: nat| ended(#[trigger] built(project, f2, n2)),
{
    let all = built(project, f1, n1).visited;
    let n = all.len() + 1;
    if forall|n2: nat| !ended(#[trigger] built(project, f2, n2)) {
        lemma_visited_count(project, f2, n);
        lemma_built(project, f2, n);
        lemma_built(project, f1, n1);
        let g = built(project, f2, n);
        assert forall|i: int| 0 <= i < g.visited.len() implies among(
            all,
            #[trigger] g.visited[i],
        ) by {
            assert(same_path(g.visited[i], g.visited[i]));
            assert(among(g.visited, g.visited[i]));
            lemma_visited(project, g, g.visited[i]);
            lemma_visited(project, built(project, f1, n1), g.visited[i]);
        }
        lemma_no_more(g.visited, all);
    }
}

proof fn lemma_reached_from_same(
    link: Link,
    f1: Seq<Seq<char>>,
    f2: Seq<Seq<char>>,
    x: Seq<char>,
)
    requires
        forall|y: Seq<char>| among(f1, y) <==> #[trigger] among(f2, y),
        reached(link, f1, x),
    ensures
        reached(link, f2, x),
{
    let chain = choose|chain: Seq<Seq<char>>| leads(link, f1, x, chain);
    assert(among(f2, chain[0]));
    assert(leads(link, f2, x, chain));
}

/// The graph depends on nothing but the set of the files it starts from: where `f2` holds the same
/// paths as `f1`, in whatever order and however often, and building from `f1` ends, building from
/// `f2` ends too, and with the same graph.
pub proof fn lemma_graph_by_set_of_roots(
    project: Project,
    f1: Seq<Seq<char>>,
    n1: nat,
    f2: Seq<Seq<char>>,
)
    requires
        steady(project),
        forall|x: Seq<char>| among(f1, x) <==> #[trigger] among(f2, x),
        ended(built(project, f1, n1)),
    ensures
        exists|n2: nat| ended(#[trigger] built(project, f2, n2)),
        forall|n2: nat|
            ended(#[trigger] built(project, f2, n2)) ==> same_graph(
                built(project, f1, n1).graph,
                built(project, f2, n2).graph,
            ),
{
    let link = project_link(project);
    assert forall|x: Seq<char>| #[trigger] reached(link, f1, x) implies reached(link, f2, x) by {
        lemma_reached_from_same(link, f1, f2, x);
    }
    assert forall|x: Seq<char>| #[trigger] reached(link, f2, x) implies reached(link, f1, x) by {
        assert forall|y: Seq<char>| among(f2, y) <==> #[trigger] among(f1, y) by {
            assert(among(f1, y) <==> among(f2, y));
        }
        lemma_reached_from_same(link, f2, f1, x);
    }
    lemma_ends(project, f1, n1, f2);
    assert forall|n2: nat| ended(#[trigger] built(project, f2, n2)) implies same_graph(
        built(project, f1, n1).graph,
        built(project, f2, n2).graph,
    ) by {
        lemma_within(project, f1, n1, f2, n2);
        lemma_within(project, f2, n2, f1, n1);
    }
}

/// Building from the files that have an entry in a finished graph gives that graph again.
pub proof fn lemma_graph_from_its_keys(project: Project, roots: Seq<Seq<char>>, n: nat)
    requires
        steady(project),
        ended(built(project, roots, n)),
    ensures
        ({
            let g = built(project, roots, n).graph;
            &&& exists|m: nat| ended(#[trigger] built(project, graph_keys(g), m))
            &&& forall|m: nat|
                ended(#[trigger] built(project, graph_keys(g), m)) ==> same_graph(
                    g,
                    built(project, graph_keys(g), m).graph,
                )
        }),
{
    let link = project_link(project);
    let g = built(project, roots, n).graph;
    let keys = graph_keys(g);
    assert forall|x: Seq<char>| #[trigger] reached(link, keys, x) implies reached(
        link,
        roots,
        x,
    ) by {
        let chain = choose|chain: Seq<Seq<char>>| leads(link, keys, x, chain);
        lemma_chain_reached(project, roots, n, chain, chain.len() - 1);
        lemma_reached_same(link, roots, chain.last(), x);
    }
    assert forall|x: Seq<char>| #[trigger]
        reached(link, roots, x) && project(x) is Some implies reached(link, keys, x) by {
        lemma_graph_is_what_is_reached(project, roots, n, x);
        assert(leads(link, keys, x, seq![x]));
    }
    lemma_ends(project, roots, n, keys);
    assert forall|m: nat| ended(#[trigger] built(project, keys, m)) implies same_graph(
        g,
        built(project, keys, m).graph,
    ) by {
        lemma_within(project, roots, n, keys, m);
        lemma_within(project, keys, m, roots, n);
    }
}

proof fn lemma_reached_same(link: Link, roots: Seq<Seq<char>>, x: Seq<char>, y: Seq<char>)
    requires
        reached(link, roots, x),
        same_path(x, y),
    ensures
        reached(link, roots, y),
{
    let chain = choose|chain: Seq<Seq<char>>| leads(link, roots, x, chain);
    assert(leads(link, roots, y, chain));
}

/// A chain that starts at an entry of a finished graph stays among what is reached.
proof fn lemma_chain_reached(
    project: Project,
    roots: Seq<Seq<char>>,
    n: nat,
    chain: Seq<Seq<char>>,
    i: int,
)
    requires
        steady(project),
        ended(built(project, roots, n)),
        0 <= i < chain.len(),
        among(graph_keys(built(project, roots, n).graph), chain[0]),
        forall|k: int|
            0 <= k < chain.len() - 1 ==> project_link(project)(#[trigger] chain[k], chain[k + 1]),
    ensures
        reached(project_link(project), roots, chain[i]),
    decreases i,
{
    let link = project_link(project);
    if i == 0 {
        lemma_graph_is_what_is_reached(project, roots, n, chain[0]);
    } else {
        lemma_chain_reached(project, roots, n, chain, i - 1);
        assert(link(chain[i - 1], chain[i - 1 + 1]));
        let last = chain[i - 1];
        let front = choose|front: Seq<Seq<char>>| leads(link, roots, last, front);
        let longer = front.push(chain[i]);
        assert forall|k: int| 0 <= k < longer.len() - 1 implies link(
            #[trigger] longer[k],
            longer[k + 1],
        ) by {
            if k < front.len() - 1 {
                assert(link(front[k], front[k + 1]));
            } else {
                assert(project(front.last()) == project(chain[i - 1]));
            }
        }
        assert(leads(link, roots, chain[i], longer));
    }
}

} // verus!
