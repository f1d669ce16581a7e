//! What the type of a receiver is.

use vstd::prelude::*;

use crate::definition::{
    base_type, enclosing_scope, param_type, receiver_type, type_below, type_in_scope, variable_type,
};
use crate::syntax::{field_of, field_text, lemma_valid_prefix, subtree, valid_path, SynTree};
use crate::text::{
    split_on, trimmed, trimmed_end, trimmed_start, uppercase, whitespace, without_trailing,
};

verus! {

/// A constant stands for the class of its name.
pub proof fn lemma_constant_receiver(t: SynTree, path: Seq<usize>, name: Seq<char>)
    requires
        subtree(t, path).kind == "constant"@,
        subtree(t, path).text == Some(name),
    ensures
        receiver_type(t, path) == Some(name),
{
}

/// Whether a variable's type is looked for in a node of this kind and no further up.
pub open spec fn closes_scope(kind: Seq<char>) -> bool {
    ||| kind == "method_def"@
    ||| kind == "abstract_method_def"@
    ||| kind == "class_def"@
    ||| kind == "module_def"@
    ||| kind == "struct_def"@
    ||| kind == "block"@
    ||| kind == "program"@
    ||| kind == "expressions"@
}

/// The type of a variable is looked for in the nearest node at or above it that is a method, a class,
/// a module, a struct, a block, a body or the whole file.
pub proof fn lemma_nearest_scope(t: SynTree, path: Seq<usize>, n: int, var: Seq<char>)
    requires
        0 <= n <= path.len(),
        closes_scope(subtree(t, path.take(n)).kind),
        forall|k: int|
            n < k <= path.len() ==> !closes_scope((#[trigger] subtree(t, path.take(k))).kind),
    ensures
        variable_type(t, path, var) == type_in_scope(subtree(t, path.take(n)), var),
{
    lemma_enclosing(t, path, n, path.len() as int);
    assert(path.take(path.len() as int) =~= path);
}

proof fn lemma_enclosing(t: SynTree, path: Seq<usize>, n: int, m: int)
    requires
        0 <= n <= m <= path.len(),
        closes_scope(subtree(t, path.take(n)).kind),
        forall|k: int|
            n < k <= path.len() ==> !closes_scope((#[trigger] subtree(t, path.take(k))).kind),
    ensures
        enclosing_scope(t, path.take(m)) == Some(path.take(n)),
    decreases m - n,
{
    if n < m {
        assert(!closes_scope(subtree(t, path.take(m)).kind));
        assert(path.take(m).drop_last() =~= path.take(m - 1));
        lemma_enclosing(t, path, n, m - 1);
    }
}

/// A lower case identifier has the type of the variable of its name.
pub proof fn lemma_variable_receiver(t: SynTree, path: Seq<usize>, name: Seq<char>)
    requires
        subtree(t, path).kind == "identifier"@,
        subtree(t, path).text == Some(name),
        name.len() > 0,
        !uppercase(name[0]),
    ensures
        receiver_type(t, path) == variable_type(t, path, name),
{
    reveal_strlit("constant");
    reveal_strlit("identifier");
    assert("constant"@.len() != "identifier"@.len());
}

/// Whether the node `n` says that the variable `var` is of the type `class`: it assigns
/// `class.new` to it, or declares it with a type.
pub open spec fn says_type(n: SynTree, var: Seq<char>, class: Seq<char>) -> bool {
    ||| n.kind == "assign"@ && field_text(n, "lhs"@) == Some(var) && field_of(n, "rhs"@) is Some && {
        let rhs = field_of(n, "rhs"@)->0;
        rhs.kind == "call"@ && field_text(rhs, "method"@) == Some("new"@) && field_text(
            rhs,
            "receiver"@,
        ) == Some(class) && class.len() > 0 && uppercase(class[0])
    }
    ||| n.kind == "type_declaration"@ && field_text(n, "var"@) == Some(var) && field_of(n, "type"@)
        is Some && base_type(field_of(n, "type"@)->0) == Some(class)
}

/// What a scope says of a variable is what an assignment or a declaration in it says.
pub proof fn lemma_type_comes_from(t: SynTree, var: Seq<char>, i: int) -> (path: Seq<usize>)
    requires
        0 <= i,
        t.children.len() <= usize::MAX,
        forall|path: Seq<usize>|
            valid_path(t, path) ==> (#[trigger] subtree(t, path)).children.len() <= usize::MAX,
        type_below(t, var, i) is Some,
    ensures
        valid_path(t, path),
        path.len() > 0,
        says_type(subtree(t, path), var, type_below(t, var, i)->0),
    decreases t, t.children.len() - i,
{
    let c = t.children[i];
    let k = i as usize;
    let step = seq![k];
    lemma_statement_kinds();
    assert(step.drop_last() =~= Seq::empty());
    assert(subtree(t, step.drop_last()) == t);
    assert(subtree(t, step) == c);
    assert(valid_path(t, step.drop_last()));
    assert(valid_path(t, step));
    if c.kind == "assign"@ || c.kind == "type_declaration"@ {
        if says_type(c, var, type_below(t, var, i)->0) {
            step
        } else {
            lemma_type_comes_from(t, var, i + 1)
        }
    } else if type_below(c, var, 0) is Some {
        assert forall|path: Seq<usize>| valid_path(c, path) implies (#[trigger] subtree(
            c,
            path,
        )).children.len() <= usize::MAX by {
            lemma_below_child(t, k, path);
        }
        assert(subtree(c, Seq::<usize>::empty()) == c);
        let rest = lemma_type_comes_from(c, var, 0);
        lemma_below_child(t, k, rest);
        seq![k] + rest
    } else {
        lemma_type_comes_from(t, var, i + 1)
    }
}

/// A path below a child, seen from the node itself.
pub proof fn lemma_below_child(t: SynTree, k: usize, path: Seq<usize>)
    requires
        k < t.children.len(),
    ensures
        subtree(t, seq![k] + path) == subtree(t.children[k as int], path),
        valid_path(t.children[k as int], path) ==> valid_path(t, seq![k] + path),
        valid_path(t, seq![k] + path) ==> valid_path(t.children[k as int], path),
    decreases path.len(),
{
    let whole = seq![k] + path;
    if path.len() == 0 {
        assert(whole =~= seq![k]);
        assert(whole.drop_last() =~= Seq::empty());
        assert(valid_path(t, whole.drop_last()));
        assert(subtree(t, whole.drop_last()) == t);
    } else {
        lemma_below_child(t, k, path.drop_last());
        assert(whole.drop_last() =~= seq![k] + path.drop_last());
    }
}

/// Where an assignment or a declaration below a scope says a type, a type is found, unless the node
/// stands inside another assignment or declaration.
pub proof fn lemma_type_is_found(
    t: SynTree,
    path: Seq<usize>,
    var: Seq<char>,
    class: Seq<char>,
    i: int,
)
    requires
        valid_path(t, path),
        path.len() > 0,
        0 <= i <= path[0],
        says_type(subtree(t, path), var, class),
        forall|k: int|
            0 < k < path.len() ==> {
                let n = #[trigger] subtree(t, path.take(k));
                n.kind != "assign"@ && n.kind != "type_declaration"@
            },
    ensures
        type_below(t, var, i) is Some,
    decreases t, t.children.len() - i,
{
    lemma_statement_kinds();
    lemma_valid_prefix(t, path, 0);
    lemma_valid_prefix(t, path, 1);
    assert(path.take(0) =~= Seq::empty());
    let k = path[0];
    assert(path[0] < subtree(t, path.take(0)).children.len());
    if i < k {
        if !(type_below(t, var, i) is Some) {
            lemma_type_is_found(t, path, var, class, i + 1);
        }
    } else {
        let c = t.children[k as int];
        let rest = path.skip(1);
        assert(seq![k] + rest =~= path);
        lemma_below_child(t, k, rest);
        if path.len() == 1 {
            assert(rest =~= Seq::empty());
            assert(subtree(c, rest) == c);
        } else {
            assert(path.take(1) =~= seq![k] + Seq::<usize>::empty());
            lemma_below_child(t, k, Seq::empty());
            assert(subtree(t, path.take(1)) == c);
            assert forall|m: int| 0 < m < rest.len() implies {
                let n = #[trigger] subtree(c, rest.take(m));
                n.kind != "assign"@ && n.kind != "type_declaration"@
            } by {
                assert(path.take(m + 1) =~= seq![k] + rest.take(m));
                lemma_below_child(t, k, rest.take(m));
                assert(subtree(t, path.take(m + 1)).kind != "assign"@);
            }
            lemma_type_is_found(c, rest, var, class, 0);
        }
    }
}

/// A parameter of the method around a variable has the type that is written behind its name, whatever
/// is assigned to it; parameters before it have other names.
pub proof fn lemma_parameter_type(
    scope: SynTree,
    params: SynTree,
    i: int,
    var: Seq<char>,
    ty: SynTree,
    class: Seq<char>,
)
    requires
        scope.kind == "method_def"@ || scope.kind == "abstract_method_def"@,
        field_of(scope, "params"@) == Some(params),
        0 <= i < params.children.len(),
        params.children[i].kind == "param"@,
        field_text(params.children[i], "name"@) == Some(var),
        field_of(params.children[i], "type"@) == Some(ty),
        base_type(ty) == Some(class),
        forall|k: int|
            0 <= k < i && (#[trigger] params.children[k]).kind == "param"@ ==> field_text(
                params.children[k],
                "name"@,
            ) is Some && field_text(params.children[k], "name"@) != Some(var),
    ensures
        type_in_scope(scope, var) == Some(class),
{
    lemma_param_from(params.children, 0, i, var);
}

proof fn lemma_param_from(params: Seq<SynTree>, k: int, i: int, var: Seq<char>)
    requires
        0 <= k <= i < params.len(),
        params[i].kind == "param"@,
        field_text(params[i], "name"@) == Some(var),
        forall|k: int|
            0 <= k < i && (#[trigger] params[k]).kind == "param"@ ==> field_text(
                params[k],
                "name"@,
            ) is Some && field_text(params[k], "name"@) != Some(var),
    ensures
        param_type(params, var, k) == match field_of(params[i], "type"@) {
            Some(ty) => base_type(ty),
            None => None,
        },
    decreases i - k,
{
    if k < i {
        lemma_param_from(params, k + 1, i, var);
    }
}

/// The type that is written is its name: question marks and type arguments behind it do not count.
pub proof fn lemma_written_type(t: SynTree, name: Seq<char>, tail: Seq<char>)
    requires
        t.text == Some(name + tail),
        name.len() > 0,
        uppercase(name[0]),
        !whitespace(name[0]),
        !whitespace(name.last()),
        !name.contains('('),
        name.last() != '?',
        (forall|i: int| 0 <= i < tail.len() ==> #[trigger] tail[i] == '?') || (tail.len() > 0
            && tail[0] == '(' && !whitespace(tail.last())),
    ensures
        base_type(t) == Some(name),
{
    let text = name + tail;
    assert(text[0] == name[0]);
    assert(trimmed_start(text) == text);
    assert(!whitespace(text.last())) by {
        if tail.len() > 0 {
            assert(text.last() == tail.last());
        } else {
            assert(text =~= name);
        }
    }
    assert(trimmed(text) == text);
    let base = without_trailing(text, '?', '?');
    if tail.len() > 0 && tail[0] == '(' {
        lemma_keeps_bracket(name, tail);
        let rest = choose|rest: Seq<char>| base == name + rest && rest.len() > 0 && rest[0] == '(';
        lemma_split_first(name, rest);
    } else {
        lemma_drops_marks(name, tail);
        lemma_split_first(name, Seq::empty());
        assert(name + Seq::empty() =~= name);
    }
    assert(trimmed_start(name) == name);
    assert(trimmed_end(name) == name);
}

proof fn lemma_drops_marks(name: Seq<char>, tail: Seq<char>)
    requires
        name.len() > 0,
        name.last() != '?',
        forall|i: int| 0 <= i < tail.len() ==> #[trigger] tail[i] == '?',
    ensures
        without_trailing(name + tail, '?', '?') == name,
    decreases tail.len(),
{
    if tail.len() > 0 {
        assert((name + tail).drop_last() =~= name + tail.drop_last());
        assert((name + tail).last() == tail.last());
        lemma_drops_marks(name, tail.drop_last());
    } else {
        assert(name + tail =~= name);
    }
}

proof fn lemma_keeps_bracket(name: Seq<char>, tail: Seq<char>)
    requires
        tail.len() > 0,
        tail[0] == '(',
    ensures
        exists|rest: Seq<char>|
            without_trailing(name + tail, '?', '?') == name + rest && rest.len() > 0 && rest[0]
                == '(',
    decreases tail.len(),
{
    let text = name + tail;
    if text.last() == '?' {
        assert(tail.last() == text.last());
        assert(text.drop_last() =~= name + tail.drop_last());
        lemma_keeps_bracket(name, tail.drop_last());
    } else {
        assert(without_trailing(text, '?', '?') == name + tail);
    }
}

proof fn lemma_split_first(name: Seq<char>, rest: Seq<char>)
    requires
        !name.contains('('),
        rest.len() > 0 ==> rest[0] == '(',
    ensures
        split_on(name + rest, '(').len() > 0,
        split_on(name + rest, '(')[0] == name,
        rest.len() == 0 ==> split_on(name + rest, '(').len() == 1,
    decreases name.len() + rest.len(),
{
    let s = name + rest;
    if rest.len() > 0 {
        assert(s.drop_last() =~= name + rest.drop_last());
        lemma_split_first(name, rest.drop_last());
        let before = split_on(s.drop_last(), '(');
        if s.last() == '(' {
            assert(split_on(s, '(')[0] == before[0]);
        } else {
            assert(rest.len() > 1);
            lemma_more_pieces(name, rest.drop_last());
            assert(split_on(s, '(')[0] == before[0]);
        }
    } else {
        assert(s =~= name);
        if name.len() > 0 {
            let front = name.drop_last();
            assert(!front.contains('(')) by {
                if front.contains('(') {
                    let i = choose|i: int| 0 <= i < front.len() && front[i] == '(';
                    assert(name[i] == '(');
                }
            }
            assert(front + Seq::empty() =~= front);
            lemma_split_first(front, Seq::empty());
            assert(name.contains(name.last()));
            assert(front.push(name.last()) =~= name);
        }
    }
}

proof fn lemma_more_pieces(name: Seq<char>, rest: Seq<char>)
    requires
        rest.len() > 0,
        rest[0] == '(',
    ensures
        split_on(name + rest, '(').len() > 1,
    decreases rest.len(),
{
    let s = name + rest;
    assert(s.drop_last() =~= name + rest.drop_last());
    crate::text::lemma_split_on_nonempty(s.drop_last(), '(');
    if rest.len() > 1 {
        lemma_more_pieces(name, rest.drop_last());
    }
}

/// The kinds of statements that say something of a variable are different words.
pub(crate) proof fn lemma_statement_kinds()
    ensures
        "assign"@.len() == 6,
        "type_declaration"@.len() == 16,
        "call"@.len() == 4,
{
    reveal_strlit("assign");
    reveal_strlit("type_declaration");
    reveal_strlit("call");
}


} // verus!
