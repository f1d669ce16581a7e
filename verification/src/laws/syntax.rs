//! What is found in a syntax tree.

use vstd::prelude::*;

use crate::laws::receivers::lemma_below_child;
use crate::syntax::{
    asked_field, asked_fields, field_from, field_of, first_named, last_named, last_named_before,
    lemma_valid_prefix, located, named_from, parsed, path_at, preorder, preorder_below, subtree,
    valid_path, SynTree,
};

verus! {

/// The fields in which the library looks for something are all read.
pub proof fn lemma_fields_are_read()
    ensures
        asked_field("arguments"@),
        asked_field("body"@),
        asked_field("lhs"@),
        asked_field("method"@),
        asked_field("name"@),
        asked_field("params"@),
        asked_field("receiver"@),
        asked_field("rhs"@),
        asked_field("superclass"@),
        asked_field("type"@),
        asked_field("var"@),
{
    let all = asked_fields();
    assert(all[0] == "arguments"@);
    assert(all[1] == "body"@);
    assert(all[2] == "lhs"@);
    assert(all[3] == "method"@);
    assert(all[4] == "name"@);
    assert(all[5] == "params"@);
    assert(all[6] == "receiver"@);
    assert(all[7] == "rhs"@);
    assert(all[8] == "superclass"@);
    assert(all[9] == "type"@);
    assert(all[10] == "var"@);
}

/// The child that fills a field is the first that has the field, and there is one whenever a child has
/// it.
pub proof fn lemma_field_of(t: SynTree, name: Seq<char>, k: int)
    requires
        0 <= k < t.children.len(),
        t.children[k].fields.contains(name),
        forall|i: int| 0 <= i < k ==> !(#[trigger] t.children[i]).fields.contains(name),
    ensures
        field_of(t, name) == Some(t.children[k]),
{
    lemma_field_at(t, name, k, 0);
}

proof fn lemma_field_at(t: SynTree, name: Seq<char>, k: int, i: int)
    requires
        0 <= i <= k < t.children.len(),
        t.children[k].fields.contains(name),
        forall|i: int| 0 <= i < k ==> !(#[trigger] t.children[i]).fields.contains(name),
    ensures
        field_from(t, name, i) == Some(k),
    decreases k - i,
{
    if i < k {
        assert(!t.children[i].fields.contains(name));
        lemma_field_at(t, name, k, i + 1);
    }
}

/// The first named child is the first child that is named.
pub proof fn lemma_first_named(t: SynTree, k: int)
    requires
        0 <= k < t.children.len(),
        t.children[k].named,
        forall|i: int| 0 <= i < k ==> !(#[trigger] t.children[i]).named,
    ensures
        first_named(t) == Some(t.children[k]),
{
    lemma_named_at(t, k, 0);
}

proof fn lemma_named_at(t: SynTree, k: int, i: int)
    requires
        0 <= i <= k < t.children.len(),
        t.children[k].named,
        forall|i: int| 0 <= i < k ==> !(#[trigger] t.children[i]).named,
    ensures
        named_from(t, i) == Some(t.children[k]),
    decreases k - i,
{
    if i < k {
        assert(!t.children[i].named);
        lemma_named_at(t, k, i + 1);
    }
}

/// The last named child is the last child that is named.
pub proof fn lemma_last_named(t: SynTree, k: int)
    requires
        0 <= k < t.children.len(),
        t.children[k].named,
        forall|i: int| k < i < t.children.len() ==> !(#[trigger] t.children[i]).named,
    ensures
        last_named(t) == Some(t.children[k]),
{
    lemma_last_named_at(t, k, t.children.len() as int);
}

proof fn lemma_last_named_at(t: SynTree, k: int, n: int)
    requires
        0 <= k < n <= t.children.len(),
        t.children[k].named,
        forall|i: int| k < i < t.children.len() ==> !(#[trigger] t.children[i]).named,
    ensures
        last_named_before(t, n) == Some(t.children[k]),
    decreases n,
{
    if k < n - 1 {
        assert(!t.children[n - 1].named);
        lemma_last_named_at(t, k, n - 1);
    }
}

/// Every node of a tree is visited, however deep it stands.
pub proof fn lemma_every_node_is_visited(t: SynTree, path: Seq<usize>)
    requires
        valid_path(t, path),
    ensures
        preorder(t).contains(subtree(t, path)),
    decreases path.len(),
{
    let n = t.children.len() as int;
    let below = preorder_below(t, n);
    assert(preorder(t) == seq![t] + below);
    if path.len() == 0 {
        assert(preorder(t)[0] == t);
    } else {
        let k = path[0];
        let rest = path.skip(1);
        assert(path.take(0) =~= Seq::empty());
        lemma_valid_prefix(t, path, 0);
        assert(seq![k] + rest =~= path);
        lemma_below_child(t, k, rest);
        let c = t.children[k as int];
        lemma_every_node_is_visited(c, rest);
        lemma_visited_below(t, n, k as int, subtree(c, rest));
        crate::require_glob::lemma_sum_contains(seq![t], below, subtree(t, path));
    }
}

proof fn lemma_visited_below(t: SynTree, n: int, k: int, x: SynTree)
    requires
        0 <= k < n <= t.children.len(),
        preorder(t.children[k]).contains(x),
    ensures
        preorder_below(t, n).contains(x),
    decreases n,
{
    let a = preorder_below(t, n - 1);
    let b = preorder(t.children[n - 1]);
    crate::require_glob::lemma_sum_contains(a, b, x);
    if k < n - 1 {
        lemma_visited_below(t, n - 1, k, x);
    }
}

/// A text is looked at where the parser says that the place is, whenever it can be parsed.
pub proof fn lemma_located(source: Seq<char>, row: u32, column: u32)
    ensures
        parsed(source) is Some ==> located(source, row, column) == path_at(source, row, column),
        parsed(source) is None ==> located(source, row, column) is None,
{
}

} // verus!
