//! Which types variables have.

use vstd::prelude::*;

use crate::analyzer::{
    assign_side, first_element, first_of_kind, inferred, lemma_last_assignment_counts,
    lemma_walk_is_local, member_types, merged_scopes, name_order, named_from, nth_type, opens_scope,
    rising, type_text, var_from, var_type, visible_completions, visible_type, walked, with_named,
    with_scope, with_var, NamedTexts, Ty, Vars,
};
use crate::order::{lemma_stable_sorted, ranks};
use crate::paths::{lemma_text_total, lemma_text_transitive, text_at_most};
use crate::syntax::SynTree;
use crate::text::joined;

verus! {

// ---------------------------------------------------------------------------
// Expressions
// ---------------------------------------------------------------------------

/// A literal has the type of its kind, whatever variables are visible.
pub proof fn lemma_literal_types(scopes: Seq<Vars>, t: SynTree)
    ensures
        t.kind == "nil"@ ==> inferred(scopes, t) == Ty::Nil,
        t.kind == "true"@ || t.kind == "false"@ ==> inferred(scopes, t) == Ty::Bool,
        t.kind == "integer"@ ==> inferred(scopes, t) == Ty::Int32,
        t.kind == "float"@ ==> inferred(scopes, t) == Ty::Float64,
        t.kind == "char"@ ==> inferred(scopes, t) == Ty::Char,
        t.kind == "string"@ || t.kind == "chained_string"@ ==> inferred(scopes, t) == Ty::String,
        t.kind == "symbol"@ ==> inferred(scopes, t) == Ty::Symbol,
{
    lemma_expression_kinds();
}

/// An identifier has the type of the variable of its name, and none where there is no such variable.
pub proof fn lemma_identifier_type(scopes: Seq<Vars>, t: SynTree, name: Seq<char>)
    requires
        t.kind == "identifier"@,
        t.text == Some(name),
    ensures
        inferred(scopes, t) == match visible_type(scopes, name, scopes.len() as int) {
            Some(ty) => ty,
            None => Ty::Unknown,
        },
{
    lemma_expression_kinds();
}

/// An array is one of its first element's type; punctuation in front of the element does not count.
pub proof fn lemma_array_type(scopes: Seq<Vars>, t: SynTree, i: int)
    requires
        t.kind == "array"@,
        0 <= i < t.children.len(),
        !array_mark(t.children[i]),
        forall|k: int| 0 <= k < i ==> array_mark(#[trigger] t.children[k]),
    ensures
        inferred(scopes, t) == Ty::Array(Box::new(inferred(scopes, t.children[i]))),
{
    lemma_expression_kinds();
    lemma_first_element(t, i, 0);
}

/// Whether the node is a bracket, a comma or the `of` of an array.
pub open spec fn array_mark(n: SynTree) -> bool {
    n.kind == "["@ || n.kind == "]"@ || n.kind == ","@ || n.kind == "of"@
}

proof fn lemma_first_element(t: SynTree, i: int, k: int)
    requires
        0 <= k <= i < t.children.len(),
        !array_mark(t.children[i]),
        forall|k: int| 0 <= k < i ==> array_mark(#[trigger] t.children[k]),
    ensures
        first_element(t, k) == Some(i),
    decreases i - k,
{
    if k < i {
        assert(array_mark(t.children[k]));
        lemma_first_element(t, i, k + 1);
    }
}

/// An empty array is one of an unknown type.
pub proof fn lemma_empty_array_type(scopes: Seq<Vars>, t: SynTree)
    requires
        t.kind == "array"@,
        forall|k: int| 0 <= k < t.children.len() ==> array_mark(#[trigger] t.children[k]),
    ensures
        inferred(scopes, t) == Ty::Array(Box::new(Ty::Unknown)),
{
    lemma_expression_kinds();
    lemma_no_element(t, 0);
}

proof fn lemma_no_element(t: SynTree, k: int)
    requires
        0 <= k,
        forall|k: int| 0 <= k < t.children.len() ==> array_mark(#[trigger] t.children[k]),
    ensures
        first_element(t, k) is None,
    decreases t.children.len() - k,
{
    if k < t.children.len() {
        assert(array_mark(t.children[k]));
        lemma_no_element(t, k + 1);
    }
}

/// A hash has the types of the key and of the value of its first entry.
pub proof fn lemma_hash_type(scopes: Seq<Vars>, t: SynTree, i: int)
    requires
        t.kind == "hash"@,
        0 <= i < t.children.len(),
        t.children[i].kind == "hash_entry"@,
        forall|k: int| 0 <= k < i ==> (#[trigger] t.children[k]).kind != "hash_entry"@,
        t.children[i].children.len() >= 3,
    ensures
        inferred(scopes, t) == Ty::Hash(
            Box::new(inferred(scopes, t.children[i].children[0])),
            Box::new(inferred(scopes, t.children[i].children[2])),
        ),
{
    lemma_expression_kinds();
    lemma_first_of_kind(t, "hash_entry"@, i, 0);
    let entry = t.children[i];
    assert(nth_type(scopes, entry, 0) == inferred(scopes, entry.children[0]));
    assert(nth_type(scopes, entry, 2) == inferred(scopes, entry.children[2]));
}

proof fn lemma_first_of_kind(t: SynTree, kind: Seq<char>, i: int, k: int)
    requires
        0 <= k <= i < t.children.len(),
        t.children[i].kind == kind,
        forall|k: int| 0 <= k < i ==> (#[trigger] t.children[k]).kind != kind,
    ensures
        first_of_kind(t, kind, k) == Some(i),
    decreases i - k,
{
    if k < i {
        assert(t.children[k].kind != kind);
        lemma_first_of_kind(t, kind, i, k + 1);
    }
}

/// Whether the node is a brace or a comma of a tuple.
pub open spec fn tuple_mark(n: SynTree) -> bool {
    n.kind == "{"@ || n.kind == "}"@ || n.kind == ","@
}

/// A tuple has the types of its members, in their order.
pub proof fn lemma_tuple_type(scopes: Seq<Vars>, t: SynTree, members: Seq<int>)
    requires
        t.kind == "tuple"@,
        forall|i: int, j: int|
            0 <= i < j < members.len() ==> #[trigger] members[i] < #[trigger] members[j],
        forall|k: int|
            0 <= k < t.children.len() ==> (!tuple_mark(#[trigger] t.children[k]) <==> members.contains(
                k,
            )),
        forall|i: int| 0 <= i < members.len() ==> 0 <= #[trigger] members[i] < t.children.len(),
    ensures
        inferred(scopes, t) matches Ty::Tuple(types) && types.len() == members.len() && forall|i: int|
            0 <= i < members.len() ==> types[i] == inferred(scopes, t.children[#[trigger] members[i]]),
{
    lemma_expression_kinds();
    let n = t.children.len() as int;
    lemma_members(scopes, t, members, n, members.len() as int);
}

proof fn lemma_members(scopes: Seq<Vars>, t: SynTree, members: Seq<int>, n: int, m: int)
    requires
        0 <= n <= t.children.len(),
        0 <= m <= members.len(),
        forall|i: int, j: int|
            0 <= i < j < members.len() ==> #[trigger] members[i] < #[trigger] members[j],
        forall|k: int|
            0 <= k < t.children.len() ==> (!tuple_mark(#[trigger] t.children[k]) <==> members.contains(
                k,
            )),
        forall|i: int| 0 <= i < members.len() ==> 0 <= #[trigger] members[i] < t.children.len(),
        forall|i: int| 0 <= i < members.len() ==> (i < m <==> #[trigger] members[i] < n),
    ensures
        member_types(scopes, t, n).len() == m,
        forall|i: int|
            0 <= i < m ==> member_types(scopes, t, n)[i] == inferred(
                scopes,
                t.children[#[trigger] members[i]],
            ),
    decreases n,
{
    if n > 0 {
        let c = t.children[n - 1];
        if tuple_mark(c) {
            assert forall|i: int| 0 <= i < members.len() implies (i < m <==> #[trigger] members[i]
                < n - 1) by {
                assert(members.contains(members[i]));
            }
            lemma_members(scopes, t, members, n - 1, m);
        } else {
            assert(members.contains(n - 1));
            let k = choose|k: int| 0 <= k < members.len() && members[k] == n - 1;
            assert(members[k] < n);
            assert(k == m - 1) by {
                if k < m - 1 {
                    assert(members[k] < members[m - 1]);
                    assert(members[m - 1] < n);
                }
            }
            assert forall|i: int| 0 <= i < members.len() implies (i < m - 1 <==> #[trigger] members[i]
                < n - 1) by {
                if i < k {
                    assert(members[i] < members[k]);
                } else if i > k {
                    assert(members[k] < members[i]);
                }
            }
            lemma_members(scopes, t, members, n - 1, m - 1);
        }
    } else if m > 0 {
        assert(members[0] < n);
    }
}

/// A call of a conversion has the type that it converts to, and any other call an unknown one.
pub proof fn lemma_conversion_type(scopes: Seq<Vars>, t: SynTree, i: int, name: Seq<char>)
    requires
        t.kind == "call"@,
        0 <= i < t.children.len(),
        t.children[i].kind == "identifier"@,
        t.children[i].text == Some(name),
        forall|k: int| 0 <= k < i ==> (#[trigger] t.children[k]).kind != "identifier"@,
    ensures
        inferred(scopes, t) == Ty::String <==> name == "to_s"@,
        inferred(scopes, t) == Ty::Int32 <==> name == "to_i"@ || name == "to_i32"@,
        inferred(scopes, t) == Ty::Float64 <==> name == "to_f"@ || name == "to_f64"@,
        inferred(scopes, t) == Ty::Unknown <==> name != "to_s"@ && name != "to_i"@ && name
            != "to_i32"@ && name != "to_f"@ && name != "to_f64"@,
{
    lemma_expression_kinds();
    lemma_conversions();
    lemma_first_of_kind(t, "identifier"@, i, 0);
}

// ---------------------------------------------------------------------------
// Assignments and scopes
// ---------------------------------------------------------------------------

/// An assignment gives the variable on its left the type of what is on its right, in the innermost
/// scope; no other variable changes.
pub proof fn lemma_assignment(
    scopes: Seq<Vars>,
    t: SynTree,
    name: Seq<char>,
    other: Seq<char>,
)
    requires
        scopes.len() > 0,
        t.kind == "assign"@,
        t.children.len() == 3,
        t.children[0].kind != "="@,
        t.children[1].kind == "="@,
        t.children[2].kind != "="@,
        t.children[0].text == Some(name),
        name.len() > 0,
        !(inferred(scopes, t.children[2]) is Unknown),
        other != name,
    ensures
        ({
            let after = walked(scopes, t);
            &&& after.len() == scopes.len()
            &&& var_type(after.last(), name) == Some(inferred(scopes, t.children[2]))
            &&& var_type(after.last(), other) == var_type(scopes.last(), other)
            &&& after.drop_last() == scopes.drop_last()
        }),
{
    lemma_sides(t);
    lemma_walk_is_local(scopes, t);
    let ty = inferred(scopes, t.children[2]);
    lemma_last_assignment_counts(scopes.last(), name, ty, other);
    assert(walked(scopes, t) == scopes.update(
        scopes.len() - 1,
        with_var(scopes.last(), name, ty),
    ));
}

proof fn lemma_sides(t: SynTree)
    requires
        t.children.len() == 3,
        t.children[0].kind != "="@,
        t.children[1].kind == "="@,
        t.children[2].kind != "="@,
    ensures
        assign_side(t, false, false, 0) == Some(0int),
        assign_side(t, true, false, 0) == Some(2int),
{
    assert(assign_side(t, true, true, 2) == Some(2int));
    assert(assign_side(t, true, false, 1) == assign_side(t, true, true, 2));
    assert(assign_side(t, true, false, 0) == assign_side(t, true, false, 1));
}

/// Something of an unknown type is not assigned.
pub proof fn lemma_unknown_assignment(scopes: Seq<Vars>, t: SynTree)
    requires
        t.kind == "assign"@,
        t.children.len() == 3,
        t.children[0].kind != "="@,
        t.children[1].kind == "="@,
        t.children[2].kind != "="@,
        inferred(scopes, t.children[2]) is Unknown,
    ensures
        walked(scopes, t) == scopes,
{
    lemma_sides(t);
}

/// Methods, classes, modules, structs and blocks have variables of their own, and nothing else has.
pub proof fn lemma_own_scopes(kind: Seq<char>)
    ensures
        opens_scope(kind) <==> kind == "method_def"@ || kind == "class_def"@ || kind
            == "module_def"@ || kind == "struct_def"@ || kind == "block"@ || kind == "do"@,
{
}

/// The type of a variable is that in the innermost scope that has it.
pub proof fn lemma_innermost_counts(scopes: Seq<Vars>, name: Seq<char>, k: int)
    requires
        0 <= k < scopes.len(),
        var_type(scopes[k], name) is Some,
        forall|j: int| k < j < scopes.len() ==> var_type(#[trigger] scopes[j], name) is None,
    ensures
        visible_type(scopes, name, scopes.len() as int) == var_type(scopes[k], name),
{
    lemma_visible(scopes, name, k, scopes.len() as int);
}

proof fn lemma_visible(scopes: Seq<Vars>, name: Seq<char>, k: int, n: int)
    requires
        0 <= k < n <= scopes.len(),
        var_type(scopes[k], name) is Some,
        forall|j: int| k < j < scopes.len() ==> var_type(#[trigger] scopes[j], name) is None,
    ensures
        visible_type(scopes, name, n) == var_type(scopes[k], name),
    decreases n,
{
    if k < n - 1 {
        assert(var_type(scopes[n - 1], name) is None);
        lemma_visible(scopes, name, k, n - 1);
    }
}

// ---------------------------------------------------------------------------
// How types are written
// ---------------------------------------------------------------------------

/// A type is written as Crystal writes it: arrays and hashes with what they hold in brackets.
pub proof fn lemma_written_types(e: Ty, k: Ty, v: Ty)
    ensures
        type_text(Ty::Nil) == "Nil"@,
        type_text(Ty::Bool) == "Bool"@,
        type_text(Ty::Int32) == "Int32"@,
        type_text(Ty::Float64) == "Float64"@,
        type_text(Ty::Char) == "Char"@,
        type_text(Ty::String) == "String"@,
        type_text(Ty::Symbol) == "Symbol"@,
        type_text(Ty::Unknown) == "Unknown"@,
        type_text(Ty::Array(Box::new(e))) == "Array("@ + type_text(e) + ")"@,
        type_text(Ty::Hash(Box::new(k), Box::new(v))) == "Hash("@ + type_text(k) + ", "@
            + type_text(v) + ")"@,
        type_text(Ty::Tuple(seq![k, v])) == "{"@ + type_text(k) + ", "@ + type_text(v) + "}"@,
{
    let ts = seq![k, v];
    let a = crate::analyzer::tuple_texts(ts, 0);
    assert(a =~= Seq::empty());
    let b = crate::analyzer::tuple_texts(ts, 1);
    assert(b =~= seq![type_text(k)]);
    let c = crate::analyzer::tuple_texts(ts, 2);
    assert(c =~= seq![type_text(k), type_text(v)]);
    assert(c.drop_last() =~= b);
    assert(joined(b, ", "@) == type_text(k));
    assert(joined(c, ", "@) == type_text(k) + ", "@ + type_text(v));
    assert("{"@ + joined(c, ", "@) + "}"@ =~= "{"@ + type_text(k) + ", "@ + type_text(v) + "}"@);
}

// ---------------------------------------------------------------------------
// Completions
// ---------------------------------------------------------------------------

/// What is said of `name`.
pub open spec fn said_of(s: NamedTexts, name: Seq<char>) -> Option<Seq<char>> {
    match named_from(s, name, 0) {
        Some(i) => Some(s[i].1),
        None => None,
    }
}

spec fn once(s: NamedTexts) -> bool {
    forall|i: int, j: int|
        0 <= i < j < s.len() ==> (#[trigger] s[i]).0 != (#[trigger] s[j]).0
}

proof fn lemma_named_from(s: NamedTexts, name: Seq<char>, i: int)
    requires
        0 <= i,
    ensures
        match named_from(s, name, i) {
            Some(k) => i <= k < s.len() && s[k].0 == name && forall|j: int|
                i <= j < k ==> (#[trigger] s[j]).0 != name,
            None => forall|j: int| i <= j < s.len() ==> (#[trigger] s[j]).0 != name,
        },
    decreases s.len() - i,
{
    if i < s.len() && s[i].0 != name {
        lemma_named_from(s, name, i + 1);
    }
}

proof fn lemma_with_named(s: NamedTexts, name: Seq<char>, text: Seq<char>, other: Seq<char>)
    requires
        once(s),
    ensures
        once(with_named(s, name, text)),
        said_of(with_named(s, name, text), name) == Some(text),
        other != name ==> said_of(with_named(s, name, text), other) == said_of(s, other),
{
    let after = with_named(s, name, text);
    lemma_named_from(s, name, 0);
    lemma_named_from(s, other, 0);
    lemma_named_from(after, name, 0);
    lemma_named_from(after, other, 0);
    match named_from(s, name, 0) {
        Some(i) => {
            assert(after[i] == (name, text));
            assert(forall|j: int| 0 <= j < s.len() ==> (#[trigger] after[j]).0 == s[j].0);
            if let Some(k) = named_from(after, name, 0) {
                assert(s[k].0 == name);
            }
            if let Some(k) = named_from(after, other, 0) {
                assert(s[k].0 == other);
            }
            if let Some(k) = named_from(s, other, 0) {
                assert(after[k].0 == other);
            }
        },
        None => {
            assert(after[s.len() as int] == (name, text));
            assert(forall|j: int| 0 <= j < s.len() ==> #[trigger] after[j] == s[j]);
            if let Some(k) = named_from(after, other, 0) {
                if other != name {
                    assert(s[k].0 == other);
                }
            }
            if let Some(k) = named_from(s, other, 0) {
                assert(after[k].0 == other);
            }
        },
    }
}

proof fn lemma_with_scope(s: NamedTexts, vars: Vars, n: int, name: Seq<char>)
    requires
        once(s),
        rising(vars),
        0 <= n <= vars.len(),
    ensures
        once(with_scope(s, vars, n)),
        (forall|i: int| 0 <= i < n ==> (#[trigger] vars[i]).0 != name) ==> said_of(
            with_scope(s, vars, n),
            name,
        ) == said_of(s, name),
        forall|i: int|
            0 <= i < n && (#[trigger] vars[i]).0 == name ==> said_of(with_scope(s, vars, n), name)
                == Some(type_text(vars[i].1)),
    decreases n,
{
    if n > 0 {
        lemma_with_scope(s, vars, n - 1, name);
        let before = with_scope(s, vars, n - 1);
        lemma_with_named(before, vars[n - 1].0, type_text(vars[n - 1].1), name);
        assert forall|i: int| 0 <= i < n && (#[trigger] vars[i]).0 == name implies said_of(
            with_scope(s, vars, n),
            name,
        ) == Some(type_text(vars[i].1)) by {
            if i < n - 1 {
                assert(vars[i].0 != vars[n - 1].0);
            }
        }
    }
}

proof fn lemma_merged(scopes: Seq<Vars>, n: int, name: Seq<char>)
    requires
        0 <= n <= scopes.len(),
        forall|i: int| 0 <= i < scopes.len() ==> rising(#[trigger] scopes[i]),
    ensures
        once(merged_scopes(scopes, n)),
        said_of(merged_scopes(scopes, n), name) == match visible_type(scopes, name, n) {
            Some(t) => Some(type_text(t)),
            None => None,
        },
    decreases n,
{
    if n > 0 {
        let vars = scopes[n - 1];
        lemma_merged(scopes, n - 1, name);
        lemma_with_scope(merged_scopes(scopes, n - 1), vars, vars.len() as int, name);
        lemma_var_from_is(vars, name, 0);
        if let Some(i) = var_from(vars, name, 0) {
            assert(vars[i].0 == name);
        }
    } else {
        assert(named_from(merged_scopes(scopes, 0), name, 0) is None);
    }
}

proof fn lemma_var_from_is(vars: Vars, name: Seq<char>, i: int)
    requires
        0 <= i,
    ensures
        match var_from(vars, name, i) {
            Some(k) => i <= k < vars.len() && vars[k].0 == name,
            None => forall|j: int| i <= j < vars.len() ==> (#[trigger] vars[j]).0 != name,
        },
    decreases vars.len() - i,
{
    if i < vars.len() && vars[i].0 != name {
        lemma_var_from_is(vars, name, i + 1);
    }
}

/// The variables that are offered are the visible ones, each with the type that is visible, written
/// out.
pub proof fn lemma_completions(scopes: Seq<Vars>, name: Seq<char>, text: Seq<char>)
    requires
        forall|i: int| 0 <= i < scopes.len() ==> rising(#[trigger] scopes[i]),
    ensures
        visible_completions(scopes).contains((name, text)) <==> (visible_type(
            scopes,
            name,
            scopes.len() as int,
        ) matches Some(t) && text == type_text(t)),
{
    let n = scopes.len() as int;
    let merged = merged_scopes(scopes, n);
    let sorted = visible_completions(scopes);
    lemma_merged(scopes, n, name);
    lemma_name_order();
    lemma_stable_sorted(name_order(), merged);
    sorted.to_multiset_ensures();
    merged.to_multiset_ensures();
    let entry = (name, text);
    assert(sorted.to_multiset().count(entry) == merged.to_multiset().count(entry));
    lemma_named_from(merged, name, 0);
    if merged.contains(entry) {
        let k = choose|k: int| 0 <= k < merged.len() && merged[k] == entry;
        assert(merged[k].0 == name);
        if let Some(i) = named_from(merged, name, 0) {
            if i < k {
                assert(merged[i].0 != merged[k].0);
            } else if k < i {
                assert(merged[k].0 != merged[i].0);
            }
        }
    }
    if let Some(i) = named_from(merged, name, 0) {
        assert(merged.contains(merged[i]));
        assert(merged[i] == (name, merged[i].1));
    }
}

/// The variables are offered in the order of their names.
pub proof fn lemma_completions_in_order(scopes: Seq<Vars>, i: int, j: int)
    requires
        0 <= i < j < visible_completions(scopes).len(),
    ensures
        text_at_most(visible_completions(scopes)[i].0, visible_completions(scopes)[j].0),
{
    lemma_name_order();
    lemma_stable_sorted(name_order(), merged_scopes(scopes, scopes.len() as int));
    let le = name_order();
    assert(le(visible_completions(scopes)[i], visible_completions(scopes)[j]));
}

proof fn lemma_name_order()
    ensures
        ranks(name_order()),
{
    let le = name_order();
    assert forall|a: (Seq<char>, Seq<char>), b: (Seq<char>, Seq<char>)| #[trigger]
        le(a, b) || le(b, a) by {
        lemma_text_total(a.0, b.0);
    }
    assert forall|
        a: (Seq<char>, Seq<char>),
        b: (Seq<char>, Seq<char>),
        c: (Seq<char>, Seq<char>),
    | #[trigger] le(a, b) && #[trigger] le(b, c) implies le(a, c) by {
        lemma_text_transitive(a.0, b.0, c.0);
    }
}

/// The kinds of expressions whose type is inferred are different words.
proof fn lemma_expression_kinds()
    ensures
        "nil"@.len() == 3,
        "true"@.len() == 4,
        "char"@.len() == 4,
        "hash"@.len() == 4,
        "call"@.len() == 4,
        "true"@[2] == 'u',
        "char"@[2] == 'a',
        "hash"@[2] == 's',
        "call"@[2] == 'l',
        "false"@.len() == 5,
        "float"@.len() == 5,
        "array"@.len() == 5,
        "tuple"@.len() == 5,
        "false"@[1] == 'a',
        "float"@[1] == 'l',
        "array"@[1] == 'r',
        "tuple"@[1] == 'u',
        "integer"@.len() == 7,
        "string"@.len() == 6,
        "symbol"@.len() == 6,
        "string"@[1] == 't',
        "symbol"@[1] == 'y',
        "chained_string"@.len() == 14,
        "identifier"@.len() == 10,
{
    reveal_strlit("nil");
    reveal_strlit("true");
    reveal_strlit("false");
    reveal_strlit("integer");
    reveal_strlit("float");
    reveal_strlit("char");
    reveal_strlit("string");
    reveal_strlit("chained_string");
    reveal_strlit("symbol");
    reveal_strlit("array");
    reveal_strlit("hash");
    reveal_strlit("tuple");
    reveal_strlit("identifier");
    reveal_strlit("call");
}


/// The names of the conversions are different words.
proof fn lemma_conversions()
    ensures
        "to_s"@.len() == 4,
        "to_i"@.len() == 4,
        "to_f"@.len() == 4,
        "to_s"@[3] == 's',
        "to_i"@[3] == 'i',
        "to_f"@[3] == 'f',
        "to_i32"@.len() == 6,
        "to_f64"@.len() == 6,
        "to_i32"@[3] == 'i',
        "to_f64"@[3] == 'f',
{
    reveal_strlit("to_s");
    reveal_strlit("to_i");
    reveal_strlit("to_i32");
    reveal_strlit("to_f");
    reveal_strlit("to_f64");
}


} // verus!
