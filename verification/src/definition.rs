//! Going to the definition of what the cursor is on.

use vstd::prelude::*;

use crate::extract::{
    capitalized, constructed_type, constructor_of, is_capitalized, Sym, Symbol, SymbolKind,
};
use crate::index::{hit_views, hits, method_search, DocumentIndex, Hit, IndexModel, Want};
use crate::order::{
    lemma_sort_maps, lemma_stable_sorted, ranking, ranks, stable_sort, stable_sorted, Order, Ranked,
};
use crate::paths::{
    are_parts_at_most, is_same_path, lemma_path_order, part_views, parts_at_most, parts_of,
    path_at_most, path_order, path_parts, same_path, PathPart,
};
use crate::protocol::{location_views, narrow, Location, Position, TextRange};
use crate::syntax::{
    child_by_field, field_index, field_of, field_text, find_field, is_kind, lemma_model, lemma_step,
    lemma_valid_prefix, located, node_at, parse_at, parsed, subtree, text_of, text_of_field,
    valid_path, SynTree, SyntaxNode,
};
use crate::text::{
    alphanumeric, chars_of, copy, drop_trailing, is_alphanumeric, opt_str, opt_text, same, split,
    split_on, string_of, trim, trimmed, views, without_trailing,
};
use crate::uri::{from_path, path_uri, to_path, uri_path};

verus! {

// ---------------------------------------------------------------------------
// Results
// ---------------------------------------------------------------------------

/// Whether the definition `a` is shown before `b` to a reader of the file `current`: those in the
/// file itself come first, then files are in the order of their paths.
pub open spec fn shown_before(current: Seq<char>, a: Hit, b: Hit) -> bool {
    if same_path(a.0, current) != same_path(b.0, current) {
        same_path(a.0, current)
    } else {
        path_at_most(a.0, b.0)
    }
}

/// The order in which definitions are shown to a reader of the file `current`.
pub open spec fn hit_order(current: Seq<char>) -> Order<Hit> {
    |a: Hit, b: Hit| shown_before(current, a, b)
}

/// Definitions are ranked by the order in which they are shown.
pub proof fn lemma_hit_order(current: Seq<char>)
    ensures
        ranks(hit_order(current)),
{
    let le = hit_order(current);
    let paths = path_order();
    lemma_path_order();
    assert forall|a: Hit, b: Hit| #[trigger] le(a, b) || le(b, a) by {
        assert(paths(a.0, b.0) || paths(b.0, a.0));
    }
    assert forall|a: Hit, b: Hit, c: Hit| #[trigger] le(a, b) && #[trigger] le(b, c) implies le(
        a,
        c,
    ) by {
        if paths(a.0, b.0) && paths(b.0, c.0) {
            assert(paths(a.0, c.0));
        }
    }
}

/// Sorting keeps every definition, and puts those of the current file before all others.
pub proof fn lemma_local_results_first(found: Seq<Hit>, current: Seq<char>)
    ensures
        ({
            let sorted = stable_sorted(hit_order(current), found);
            &&& sorted.to_multiset() =~= found.to_multiset()
            &&& forall|i: int, j: int|
                0 <= i < j < sorted.len() && same_path((#[trigger] sorted[j]).0, current)
                    ==> same_path((#[trigger] sorted[i]).0, current)
        }),
{
    let le = hit_order(current);
    lemma_hit_order(current);
    lemma_stable_sorted(le, found);
    let sorted = stable_sorted(le, found);
    assert forall|i: int, j: int|
        0 <= i < j < sorted.len() && same_path((#[trigger] sorted[j]).0, current) implies same_path(
        (#[trigger] sorted[i]).0,
        current,
    ) by {
        assert(le(sorted[i], sorted[j]));
    }
}

/// A definition with what it is ranked by.
struct Found<'a> {
    path: &'a str,
    symbol: &'a Symbol,
    local: bool,
    parts: Vec<PathPart>,
}

impl<'a> Ranked for Found<'a> {
    closed spec fn before(self, other: Self) -> bool {
        if self.local != other.local {
            self.local
        } else {
            parts_at_most(part_views(self.parts@), part_views(other.parts@))
        }
    }

    fn may_precede(&self, other: &Self) -> (r: bool) {
        if self.local != other.local {
            self.local
        } else {
            are_parts_at_most(&self.parts, &other.parts)
        }
    }
}

spec fn found_hit(f: Found<'_>) -> Hit {
    (f.path@, f.symbol@)
}

/// Sorts definitions: those of the current file first, then by path.
pub fn sort_results<'a>(results: Vec<(&'a str, &'a Symbol)>, current_path: &str) -> (r: Vec<
    (&'a str, &'a Symbol),
>)
    ensures
        hit_views(r@) == stable_sorted(hit_order(current_path@), hit_views(results@)),
{
    let mut found: Vec<Found<'a>> = Vec::new();
    let mut i: usize = 0;
    while i < results.len()
        invariant
            i <= results@.len(),
            found@.len() == i,
            forall|k: int|
                0 <= k < i ==> {
                    let f = #[trigger] found@[k];
                    &&& f.path@ == results@[k].0@
                    &&& f.symbol == results@[k].1
                    &&& f.local == same_path(f.path@, current_path@)
                    &&& part_views(f.parts@) == path_parts(f.path@)
                },
        decreases results@.len() - i,
    {
        let (path, symbol) = results[i];
        found.push(
            Found {
                path,
                symbol,
                local: is_same_path(path, current_path),
                parts: parts_of(path),
            },
        );
        i = i + 1;
    }
    let ghost f = |x: Found<'a>| found_hit(x);
    let ghost all = found@;
    let sorted = stable_sort(found);
    proof {
        let le = ranking::<Found<'a>>();
        let me = hit_order(current_path@);
        assert forall|a: Found<'a>, b: Found<'a>|
            #![trigger le(a, b)]
            all.contains(a) && all.contains(b) implies le(a, b) == me(f(a), f(b)) by {
            let i = choose|i: int| 0 <= i < all.len() && all[i] == a;
            let j = choose|j: int| 0 <= j < all.len() && all[j] == b;
            assert(all[i].local == same_path(all[i].path@, current_path@));
            assert(all[j].local == same_path(all[j].path@, current_path@));
        }
        lemma_sort_maps(le, me, f, all);
        assert(all.map_values(f) =~= hit_views(results@));
    }
    let mut out: Vec<(&'a str, &'a Symbol)> = Vec::new();
    let mut j: usize = 0;
    while j < sorted.len()
        invariant
            j <= sorted@.len(),
            out@.len() == j,
            forall|k: int|
                0 <= k < j ==> (#[trigger] out@[k]).0@ == sorted@[k].path@ && out@[k].1
                    == sorted@[k].symbol,
        decreases sorted@.len() - j,
    {
        out.push((sorted[j].path, sorted[j].symbol));
        j = j + 1;
    }
    assert(hit_views(out@) =~= sorted@.map_values(f));
    out
}

/// Where the name of a symbol stands.
pub open spec fn name_range(s: Sym) -> TextRange {
    TextRange {
        start: Position { line: s.start_line as u32, character: s.start_col as u32 },
        end: Position { line: s.end_line as u32, character: s.end_col as u32 },
    }
}

/// The range of a symbol's name.
pub fn range_of_name(s: &Symbol) -> (r: TextRange)
    ensures
        r == name_range(s@),
{
    TextRange {
        start: Position { line: narrow(s.start_line), character: narrow(s.start_col) },
        end: Position { line: narrow(s.end_line), character: narrow(s.end_col) },
    }
}

/// The locations of definitions. A file that has no URI is left out.
pub open spec fn locations_of(found: Seq<Hit>) -> Seq<(Seq<char>, TextRange)>
    decreases found.len(),
{
    if found.len() == 0 {
        Seq::empty()
    } else {
        let before = locations_of(found.drop_last());
        match path_uri(found.last().0) {
            Some(u) => before.push((u, name_range(found.last().1))),
            None => before,
        }
    }
}

/// Converts definitions to locations.
pub fn results_to_locations(results: &Vec<(&str, &Symbol)>) -> (r: Vec<Location>)
    ensures
        location_views(r@) == locations_of(hit_views(results@)),
{
    let ghost all = hit_views(results@);
    let mut out: Vec<Location> = Vec::new();
    let mut i: usize = 0;
    assert(all.take(0) =~= Seq::empty());
    assert(location_views(out@) =~= Seq::empty());
    while i < results.len()
        invariant
            i <= results@.len(),
            all == hit_views(results@),
            location_views(out@) == locations_of(all.take(i as int)),
        decreases results@.len() - i,
    {
        let ghost before = location_views(out@);
        assert(all.take(i + 1).drop_last() =~= all.take(i as int));
        if let Some(uri) = from_path(results[i].0) {
            let range = range_of_name(results[i].1);
            out.push(Location { uri, range });
            assert(location_views(out@) =~= before.push((uri@, range)));
        }
        i = i + 1;
    }
    assert(all.take(i as int) =~= all);
    out
}

// ---------------------------------------------------------------------------
// Types of variables
// ---------------------------------------------------------------------------

/// The name of the type that the type expression `t` writes, without `?` and type arguments.
pub open spec fn base_type(t: SynTree) -> Option<Seq<char>> {
    match t.text {
        Some(text) => {
            let base = without_trailing(trimmed(text), '?', '?');
            let name = trimmed(split_on(base, '(')[0]);
            if capitalized(name) {
                Some(name)
            } else {
                None
            }
        },
        None => None,
    }
}

/// Reads the name of a type, without `?` and type arguments.
pub fn extract_type_name(type_node: &SyntaxNode) -> (r: Option<String>)
    ensures
        opt_text(r) == base_type(type_node@),
{
    match text_of(type_node) {
        Some(text) => {
            let chars = chars_of(text);
            let base = drop_trailing(trim(&chars), '?', '?');
            let pieces = split(base, '(');
            assert(views(pieces@)[0] == pieces@[0]@);
            let name = string_of(trim(&pieces[0]));
            if is_capitalized(&name) {
                Some(name)
            } else {
                None
            }
        },
        None => None,
    }
}

/// The class that the expression `t` makes an object of.
pub open spec fn made_type(t: SynTree) -> Option<Seq<char>> {
    if t.kind == "call"@ {
        constructed_type(t)
    } else {
        None
    }
}

/// Reads the class name from a `ClassName.new` call.
pub fn extract_constructor_type(node: &SyntaxNode) -> (r: Option<String>)
    ensures
        opt_text(r) == made_type(node@),
{
    if is_kind(node, "call") {
        constructor_of(node)
    } else {
        None
    }
}

/// The type that the assignment `t` gives to the variable `var`.
pub open spec fn assigned_type(t: SynTree, var: Seq<char>) -> Option<Seq<char>> {
    if field_text(t, "lhs"@) == Some(var) {
        match field_of(t, "rhs"@) {
            Some(rhs) => made_type(rhs),
            None => None,
        }
    } else {
        None
    }
}

/// Infers the type of a variable from an assignment.
pub fn infer_from_assign(node: &SyntaxNode, var_name: &str) -> (r: Option<String>)
    ensures
        opt_text(r) == assigned_type(node@, var_name@),
{
    match text_of_field(node, "lhs") {
        Some(lhs) => if same(lhs, var_name) {
            match child_by_field(node, "rhs") {
                Some(rhs) => extract_constructor_type(rhs),
                None => None,
            }
        } else {
            None
        },
        None => None,
    }
}

/// The type that the type declaration `t` gives to the variable `var`.
pub open spec fn declared_type(t: SynTree, var: Seq<char>) -> Option<Seq<char>> {
    if field_text(t, "var"@) == Some(var) {
        match field_of(t, "type"@) {
            Some(ty) => base_type(ty),
            None => None,
        }
    } else {
        None
    }
}

/// Infers the type of a variable from a type declaration.
pub fn infer_from_type_decl(node: &SyntaxNode, var_name: &str) -> (r: Option<String>)
    ensures
        opt_text(r) == declared_type(node@, var_name@),
{
    match text_of_field(node, "var") {
        Some(var) => if same(var, var_name) {
            match child_by_field(node, "type") {
                Some(ty) => extract_type_name(ty),
                None => None,
            }
        } else {
            None
        },
        None => None,
    }
}

/// The first type that the children of `t` from `i` on give to the variable `var`. Assignments and
/// type declarations are asked themselves, other nodes for what is below them.
pub open spec fn type_below(t: SynTree, var: Seq<char>, i: int) -> Option<Seq<char>>
    decreases t, t.children.len() - i,
{
    if i < 0 || i >= t.children.len() {
        None
    } else {
        let c = t.children[i];
        let found = if c.kind == "assign"@ {
            assigned_type(c, var)
        } else if c.kind == "type_declaration"@ {
            declared_type(c, var)
        } else {
            type_below(c, var, 0)
        };
        if found is Some {
            found
        } else {
            type_below(t, var, i + 1)
        }
    }
}

/// Infers the type of a variable from the nodes below a node.
pub fn infer_from_children(node: &SyntaxNode, var_name: &str) -> (r: Option<String>)
    ensures
        opt_text(r) == type_below(node@, var_name@, 0),
    decreases node@,
{
    proof {
        lemma_model(*node);
    }
    let mut i: usize = 0;
    while i < node.children.len()
        invariant
            i <= node.children@.len(),
            node@.children.len() == node.children@.len(),
            type_below(node@, var_name@, 0) == type_below(node@, var_name@, i as int),
        decreases node.children@.len() - i,
    {
        proof {
            lemma_model(*node);
            assert(decreases_to!(node@ => node@.children[i as int]));
        }
        let child = &node.children[i];
        let found = if is_kind(child, "assign") {
            infer_from_assign(child, var_name)
        } else if is_kind(child, "type_declaration") {
            infer_from_type_decl(child, var_name)
        } else {
            infer_from_children(child, var_name)
        };
        if found.is_some() {
            return found;
        }
        i = i + 1;
    }
    None
}

/// The type of the parameter `var` among the parameters `params` from `i` on. A parameter without
/// a name that can be read ends the search.
pub open spec fn param_type(params: Seq<SynTree>, var: Seq<char>, i: int) -> Option<Seq<char>>
    decreases params.len() - i,
{
    if i < 0 || i >= params.len() {
        None
    } else if params[i].kind != "param"@ {
        param_type(params, var, i + 1)
    } else {
        match field_text(params[i], "name"@) {
            Some(name) => if name == var {
                match field_of(params[i], "type"@) {
                    Some(ty) => base_type(ty),
                    None => None,
                }
            } else {
                param_type(params, var, i + 1)
            },
            None => None,
        }
    }
}

/// Finds the type of a method's parameter.
pub fn find_param_type(params: &SyntaxNode, var_name: &str) -> (r: Option<String>)
    ensures
        opt_text(r) == param_type(params@.children, var_name@, 0),
{
    proof {
        lemma_model(*params);
    }
    let mut i: usize = 0;
    while i < params.children.len()
        invariant
            i <= params.children@.len(),
            params@.children.len() == params.children@.len(),
            param_type(params@.children, var_name@, 0) == param_type(
                params@.children,
                var_name@,
                i as int,
            ),
        decreases params.children@.len() - i,
    {
        proof {
            lemma_model(*params);
        }
        let child = &params.children[i];
        if is_kind(child, "param") {
            match text_of_field(child, "name") {
                Some(name) => {
                    if same(name, var_name) {
                        return match child_by_field(child, "type") {
                            Some(ty) => extract_type_name(ty),
                            None => None,
                        };
                    }
                },
                None => {
                    return None;
                },
            }
        }
        i = i + 1;
    }
    None
}

/// Whether nodes of this kind bound the scope in which a variable's type is looked for.
pub open spec fn bounds_scope(kind: Seq<char>) -> bool {
    kind == "method_def"@ || kind == "abstract_method_def"@ || kind == "class_def"@ || kind
        == "module_def"@ || kind == "struct_def"@ || kind == "block"@ || kind == "program"@ || kind
        == "expressions"@
}

/// The path to the nearest node at or above `path` that bounds a scope.
pub open spec fn enclosing_scope(t: SynTree, path: Seq<usize>) -> Option<Seq<usize>>
    decreases path.len(),
{
    if bounds_scope(subtree(t, path).kind) {
        Some(path)
    } else if path.len() == 0 {
        None
    } else {
        enclosing_scope(t, path.drop_last())
    }
}

fn is_scope_bound(n: &SyntaxNode) -> (r: bool)
    ensures
        r == bounds_scope(n@.kind),
{
    is_kind(n, "method_def") || is_kind(n, "abstract_method_def") || is_kind(n, "class_def")
        || is_kind(n, "module_def") || is_kind(n, "struct_def") || is_kind(n, "block") || is_kind(
        n,
        "program",
    ) || is_kind(n, "expressions")
}

/// Finds the nearest node at or above a node that bounds a scope.
pub fn find_enclosing_scope<'a>(root: &'a SyntaxNode, path: &Vec<usize>) -> (r: Option<
    &'a SyntaxNode,
>)
    requires
        valid_path(root@, path@),
    ensures
        match r {
            Some(n) => enclosing_scope(root@, path@) matches Some(p) && n@ == subtree(root@, p),
            None => enclosing_scope(root@, path@) is None,
        },
{
    let mut n: usize = path.len();
    assert(path@.take(n as int) =~= path@);
    loop
        invariant
            n <= path@.len(),
            valid_path(root@, path@),
            enclosing_scope(root@, path@) == enclosing_scope(root@, path@.take(n as int)),
        decreases n,
    {
        let node = node_at(root, path, n);
        if is_scope_bound(node) {
            return Some(node);
        }
        if n == 0 {
            return None;
        }
        assert(path@.take(n as int).drop_last() =~= path@.take(n - 1));
        n = n - 1;
    }
}

/// The type of the variable `var` in the scope `scope`: that of a parameter, or what the nodes
/// below the scope say.
pub open spec fn type_in_scope(scope: SynTree, var: Seq<char>) -> Option<Seq<char>> {
    let from_params = if scope.kind == "method_def"@ || scope.kind == "abstract_method_def"@ {
        match field_of(scope, "params"@) {
            Some(params) => param_type(params.children, var, 0),
            None => None,
        }
    } else {
        None
    };
    if from_params is Some {
        from_params
    } else {
        type_below(scope, var, 0)
    }
}

/// The type of the variable `var` at `path`.
pub open spec fn variable_type(t: SynTree, path: Seq<usize>, var: Seq<char>) -> Option<Seq<char>> {
    match enclosing_scope(t, path) {
        Some(p) => type_in_scope(subtree(t, p), var),
        None => None,
    }
}

/// Infers a variable's type from the scope around a node: from parameters, type declarations and
/// `Foo.new` assignments.
pub fn infer_variable_type(root: &SyntaxNode, path: &Vec<usize>, var_name: &str) -> (r: Option<
    String,
>)
    requires
        valid_path(root@, path@),
    ensures
        opt_text(r) == variable_type(root@, path@, var_name@),
{
    match find_enclosing_scope(root, path) {
        Some(scope) => {
            if is_kind(scope, "method_def") || is_kind(scope, "abstract_method_def") {
                if let Some(params) = child_by_field(scope, "params") {
                    let found = find_param_type(params, var_name);
                    if found.is_some() {
                        return found;
                    }
                }
            }
            infer_from_children(scope, var_name)
        },
        None => None,
    }
}

/// The type of the receiver at `path`.
pub open spec fn receiver_type(t: SynTree, path: Seq<usize>) -> Option<Seq<char>> {
    let n = subtree(t, path);
    match n.text {
        Some(text) => if n.kind == "constant"@ || capitalized(text) {
            Some(text)
        } else if text.len() == 0 {
            None
        } else if n.kind == "identifier"@ {
            variable_type(t, path, text)
        } else {
            made_type(n)
        },
        None => None,
    }
}

/// Infers the type of a receiver.
pub fn infer_receiver_type(root: &SyntaxNode, path: &Vec<usize>) -> (r: Option<String>)
    requires
        valid_path(root@, path@),
    ensures
        opt_text(r) == receiver_type(root@, path@),
{
    assert(path@.take(path@.len() as int) =~= path@);
    let n = node_at(root, path, path.len());
    match text_of(n) {
        Some(text) => {
            if is_kind(n, "constant") || is_capitalized(text) {
                Some(copy(text))
            } else if chars_of(text).len() == 0 {
                None
            } else if is_kind(n, "identifier") {
                infer_variable_type(root, path, text)
            } else {
                extract_constructor_type(n)
            }
        },
        None => None,
    }
}

/// The methods that the call around the node at `path` can mean, by the type of its receiver;
/// `None` where the node is not the method name of a call with a receiver of known type, or where
/// no method is found.
pub open spec fn typed_hits(ix: IndexModel, t: SynTree, path: Seq<usize>) -> Option<Seq<Hit>> {
    if path.len() == 0 {
        None
    } else {
        let above = path.drop_last();
        let call = subtree(t, above);
        if call.kind == "call"@ && field_index(call, "method"@) == Some(path.last() as int) {
            match (field_index(call, "receiver"@), subtree(t, path).text) {
                (Some(r), Some(method)) => match receiver_type(t, above.push(r as usize)) {
                    Some(class) => {
                        let found = method_search(ix, seq![class], method, Set::empty());
                        if found.len() > 0 {
                            Some(found)
                        } else {
                            None
                        }
                    },
                    None => None,
                },
                _ => None,
            }
        } else {
            None
        }
    }
}

/// The model of optional results.
pub open spec fn opt_hits(r: Option<Vec<(&str, &Symbol)>>) -> Option<Seq<Hit>> {
    match r {
        Some(v) => Some(hit_views(v@)),
        None => None,
    }
}

/// Resolves a method call by the type of its receiver.
pub fn try_type_aware_resolution<'a>(
    index: &'a DocumentIndex,
    root: &SyntaxNode,
    path: &Vec<usize>,
) -> (r: Option<Vec<(&'a str, &'a Symbol)>>)
    requires
        index@.wf(),
        valid_path(root@, path@),
    ensures
        opt_hits(r) == typed_hits(index@, root@, path@),
{
    let n: usize = path.len();
    if n == 0 {
        return None;
    }
    assert(path@.take(n as int) =~= path@);
    assert(path@.take(n - 1) =~= path@.drop_last());
    let call = node_at(root, path, n - 1);
    if !is_kind(call, "call") {
        return None;
    }
    match find_field(call, "method") {
        Some(m) => if m != path[n - 1] {
            return None;
        },
        None => {
            return None;
        },
    }
    let receiver: usize = match find_field(call, "receiver") {
        Some(i) => i,
        None => {
            return None;
        },
    };
    let node = node_at(root, path, n);
    let method = match text_of(node) {
        Some(t) => t,
        None => {
            return None;
        },
    };
    let mut receiver_path: Vec<usize> = path.clone();
    receiver_path.pop();
    receiver_path.push(receiver);
    proof {
        lemma_model(*call);
        lemma_valid_prefix(root@, path@, n - 1);
        lemma_step(root@, path@.drop_last(), receiver);
        assert(receiver_path@ =~= path@.drop_last().push(receiver));
    }
    match infer_receiver_type(root, &receiver_path) {
        Some(class) => {
            let found = index.find_method_in_hierarchy(&class, method);
            assert(hit_views(found@).len() == found@.len());
            if found.len() > 0 {
                Some(found)
            } else {
                None
            }
        },
        None => None,
    }
}

// ---------------------------------------------------------------------------
// Names
// ---------------------------------------------------------------------------

/// Whether `s` is made of letters, digits and underscores.
pub open spec fn word(s: Seq<char>) -> bool {
    forall|i: int| 0 <= i < s.len() ==> alphanumeric(#[trigger] s[i]) || s[i] == '_'
}

fn is_word(s: &[char]) -> (r: bool)
    ensures
        r == word(s@),
{
    let mut i: usize = 0;
    while i < s.len()
        invariant
            i <= s@.len(),
            forall|k: int| 0 <= k < i ==> alphanumeric(#[trigger] s@[k]) || s@[k] == '_',
        decreases s@.len() - i,
    {
        if !is_alphanumeric(s[i]) && s[i] != '_' {
            assert(!alphanumeric(s@[i as int]));
            return false;
        }
        i = i + 1;
    }
    true
}

/// The name that the node at `path` stands for, and the kinds of symbols that it can mean. No
/// kinds stand for all of them.
pub open spec fn classified(t: SynTree, path: Seq<usize>) -> Option<(Seq<char>, Seq<SymbolKind>)> {
    let n = subtree(t, path);
    match n.text {
        Some(text) => if text.len() == 0 {
            None
        } else if n.kind == "instance_var"@ || n.kind == "class_var"@ {
            Some((text, seq![SymbolKind::Field]))
        } else if n.kind == "constant"@ {
            Some(
                (
                    text,
                    seq![
                        SymbolKind::Class,
                        SymbolKind::Module,
                        SymbolKind::Struct,
                        SymbolKind::Enum,
                        SymbolKind::Constant,
                        SymbolKind::Type,
                    ],
                ),
            )
        } else if n.kind == "identifier"@ {
            let above = if path.len() > 0 {
                Some(subtree(t, path.drop_last()).kind)
            } else {
                None
            };
            if above == Some("call"@) || above == Some("method_def"@) || above == Some(
                "abstract_method_def"@,
            ) {
                Some((text, seq![SymbolKind::Method]))
            } else {
                Some((text, seq![SymbolKind::Method, SymbolKind::Macro, SymbolKind::Function]))
            }
        } else if n.kind == "named_type"@ || n.kind == "generic_type"@ {
            let name = match field_text(n, "name"@) {
                Some(name) => name,
                None => text,
            };
            Some(
                (
                    name,
                    seq![
                        SymbolKind::Class,
                        SymbolKind::Module,
                        SymbolKind::Struct,
                        SymbolKind::Enum,
                        SymbolKind::Type,
                    ],
                ),
            )
        } else if word(text) {
            Some((text, Seq::empty()))
        } else {
            None
        },
        None => None,
    }
}

/// The model of a classified node.
pub open spec fn opt_classified(r: Option<(String, Vec<SymbolKind>)>) -> Option<
    (Seq<char>, Seq<SymbolKind>),
> {
    match r {
        Some(c) => Some((c.0@, c.1@)),
        None => None,
    }
}

/// Whether the node above the one at `path` makes an identifier a method name.
fn names_method(root: &SyntaxNode, path: &Vec<usize>) -> (r: bool)
    requires
        valid_path(root@, path@),
    ensures
        r == (path@.len() > 0 && {
            let above = subtree(root@, path@.drop_last()).kind;
            above == "call"@ || above == "method_def"@ || above == "abstract_method_def"@
        }),
{
    let n: usize = path.len();
    if n == 0 {
        return false;
    }
    assert(path@.take(n - 1) =~= path@.drop_last());
    let above = node_at(root, path, n - 1);
    is_kind(above, "call") || is_kind(above, "method_def") || is_kind(above, "abstract_method_def")
}

/// Tells which name a node stands for and which kinds of symbols to search for.
pub fn classify_node(root: &SyntaxNode, path: &Vec<usize>) -> (r: Option<
    (String, Vec<SymbolKind>),
>)
    requires
        valid_path(root@, path@),
    ensures
        opt_classified(r) == classified(root@, path@),
{
    assert(path@.take(path@.len() as int) =~= path@);
    let n = node_at(root, path, path.len());
    let text = match text_of(n) {
        Some(t) => t,
        None => {
            return None;
        },
    };
    let chars = chars_of(text);
    if chars.len() == 0 {
        return None;
    }
    if is_kind(n, "instance_var") || is_kind(n, "class_var") {
        let kinds = vec![SymbolKind::Field];
        assert(kinds@ =~= seq![SymbolKind::Field]);
        Some((copy(text), kinds))
    } else if is_kind(n, "constant") {
        let kinds = vec![
            SymbolKind::Class,
            SymbolKind::Module,
            SymbolKind::Struct,
            SymbolKind::Enum,
            SymbolKind::Constant,
            SymbolKind::Type,
        ];
        assert(kinds@ =~= (classified(root@, path@)->0).1);
        Some((copy(text), kinds))
    } else if is_kind(n, "identifier") {
        let kinds = if names_method(root, path) {
            vec![SymbolKind::Method]
        } else {
            vec![SymbolKind::Method, SymbolKind::Macro, SymbolKind::Function]
        };
        assert(kinds@ =~= (classified(root@, path@)->0).1);
        Some((copy(text), kinds))
    } else if is_kind(n, "named_type") || is_kind(n, "generic_type") {
        let kinds = vec![
            SymbolKind::Class,
            SymbolKind::Module,
            SymbolKind::Struct,
            SymbolKind::Enum,
            SymbolKind::Type,
        ];
        assert(kinds@ =~= (classified(root@, path@)->0).1);
        let name = match text_of_field(n, "name") {
            Some(name) => copy(name),
            None => copy(text),
        };
        Some((name, kinds))
    } else if is_word(&chars) {
        let kinds: Vec<SymbolKind> = Vec::new();
        assert(kinds@ =~= (classified(root@, path@)->0).1);
        Some((copy(text), kinds))
    } else {
        None
    }
}

/// The definitions of the name `name` of the first `n` of `kinds`, one kind after the other.
pub open spec fn hits_of_kinds(
    ix: IndexModel,
    name: Seq<char>,
    kinds: Seq<SymbolKind>,
    n: int,
) -> Seq<Hit>
    decreases n,
{
    if n <= 0 {
        Seq::empty()
    } else {
        hits_of_kinds(ix, name, kinds, n - 1) + hits(ix.files, Want::Definition(name, kinds[n - 1]))
    }
}

/// The definitions that a name of one of the kinds can mean.
pub open spec fn named_hits(ix: IndexModel, name: Seq<char>, kinds: Seq<SymbolKind>) -> Seq<Hit> {
    if kinds.len() == 0 {
        hits(ix.files, Want::Name(name))
    } else {
        hits_of_kinds(ix, name, kinds, kinds.len() as int)
    }
}

/// Finds the definitions that a name can mean.
pub fn find_named<'a>(index: &'a DocumentIndex, name: &str, kinds: &Vec<SymbolKind>) -> (r: Vec<
    (&'a str, &'a Symbol),
>)
    ensures
        hit_views(r@) == named_hits(index@, name@, kinds@),
{
    if kinds.len() == 0 {
        return index.find_by_name(name);
    }
    let mut out: Vec<(&'a str, &'a Symbol)> = Vec::new();
    let mut i: usize = 0;
    assert(hit_views(out@) =~= Seq::empty());
    while i < kinds.len()
        invariant
            i <= kinds@.len(),
            hit_views(out@) == hits_of_kinds(index@, name@, kinds@, i as int),
        decreases kinds@.len() - i,
    {
        let ghost before = out@;
        let mut more = index.find_definition(name, kinds[i]);
        let ghost m = more@;
        out.append(&mut more);
        assert(hit_views(out@) =~= hit_views(before) + hit_views(m));
        i = i + 1;
    }
    out
}

// ---------------------------------------------------------------------------
// The request
// ---------------------------------------------------------------------------

/// Where the definitions of the node at `at` are, for a reader of the file `current` with the tree
/// `t`: by the type of the receiver where that leads somewhere, else by name.
pub open spec fn goto(
    ix: IndexModel,
    current: Seq<char>,
    t: SynTree,
    at: Seq<usize>,
) -> Option<Seq<(Seq<char>, TextRange)>> {
    let typed = match typed_hits(ix, t, at) {
        Some(found) => locations_of(stable_sorted(hit_order(current), found)),
        None => Seq::empty(),
    };
    if typed.len() > 0 {
        Some(typed)
    } else {
        match classified(t, at) {
            Some((name, kinds)) => Some(
                locations_of(stable_sorted(hit_order(current), named_hits(ix, name, kinds))),
            ),
            None => None,
        }
    }
}

/// The model of optional locations.
pub open spec fn opt_locations(r: Option<Vec<Location>>) -> Option<Seq<(Seq<char>, TextRange)>> {
    match r {
        Some(v) => Some(location_views(v@)),
        None => None,
    }
}

/// Finds the definitions of the node at `at` of a parsed file.
pub fn definitions_at(
    index: &DocumentIndex,
    current_path: &str,
    root: &SyntaxNode,
    at: &Vec<usize>,
) -> (r: Option<Vec<Location>>)
    requires
        index@.wf(),
        valid_path(root@, at@),
    ensures
        opt_locations(r) == goto(index@, current_path@, root@, at@),
{
    if let Some(found) = try_type_aware_resolution(index, root, at) {
        let sorted = sort_results(found, current_path);
        let locations = results_to_locations(&sorted);
        assert(location_views(locations@).len() == locations@.len());
        if locations.len() > 0 {
            return Some(locations);
        }
    }
    match classify_node(root, at) {
        Some((name, kinds)) => {
            let found = find_named(index, &name, &kinds);
            let sorted = sort_results(found, current_path);
            Some(results_to_locations(&sorted))
        },
        None => None,
    }
}

/// The answer to a definition request.
pub open spec fn definition_answer(
    ix: IndexModel,
    uri: Seq<char>,
    position: Position,
    source: Option<Seq<char>>,
) -> Option<Seq<(Seq<char>, TextRange)>> {
    match (uri_path(uri), source) {
        (Some(path), Some(text)) => match located(text, position.line, position.character) {
            Some(at) => goto(ix, path, parsed(text)->0, at),
            None => None,
        },
        _ => None,
    }
}

/// Answers a definition request. There is no answer for a URI that names no file, a document that
/// is not open, or a place at which there is no name.
pub fn handle(
    index: &DocumentIndex,
    uri: &str,
    position: Position,
    source: Option<&str>,
) -> (r: Option<Vec<Location>>)
    requires
        index@.wf(),
    ensures
        opt_locations(r) == definition_answer(index@, uri@, position, opt_str(source)),
{
    let path = match to_path(uri) {
        Some(p) => p,
        None => {
            return None;
        },
    };
    let source = match source {
        Some(s) => s,
        None => {
            return None;
        },
    };
    match parse_at(source, position.line, position.character) {
        Some((root, at)) => definitions_at(index, &path, &root, &at),
        None => None,
    }
}

} // verus!
