//! What a file defines.

use vstd::prelude::*;

use crate::extract::{
    class_entries, class_entry, definition_capture, match_symbol, match_symbols,
    mixed_in, name_capture, parent_scope, value_type, ClassModel, Sym, SymbolKind,
};
use crate::index::{with_entries, with_tree, IndexModel};
use crate::syntax::{field_of, field_text, first_named, last_named, preorder, subtree, SynTree};
use crate::text::uppercase;

verus! {

// ---------------------------------------------------------------------------
// Symbols
// ---------------------------------------------------------------------------

/// Captures of a match: the name of each and the path to its node.
pub type Captures = Seq<(Seq<char>, Seq<usize>)>;

/// Whether `tag` is a name under which definitions are captured.
pub open spec fn definition_tag(tag: Seq<char>) -> bool {
    ||| tag == "definition.class"@
    ||| tag == "definition.module"@
    ||| tag == "definition.struct"@
    ||| tag == "definition.enum"@
    ||| tag == "definition.lib"@
    ||| tag == "definition.method"@
    ||| tag == "definition.macro"@
    ||| tag == "definition.function"@
    ||| tag == "definition.constant"@
    ||| tag == "definition.type"@
    ||| tag == "definition.field"@
}

/// Whether the match `m` captures a definition at `d` and its name at `n`, each the first of its
/// sort.
pub open spec fn captures_definition(m: Captures, d: int, n: int) -> bool {
    &&& 0 <= d < m.len()
    &&& definition_tag(m[d].0)
    &&& forall|i: int| 0 <= i < d ==> !"definition."@.is_prefix_of((#[trigger] m[i]).0)
    &&& 0 <= n < m.len()
    &&& m[n].0 == "name"@
    &&& forall|i: int| 0 <= i < n ==> (#[trigger] m[i]).0 != "name"@
}

proof fn lemma_definition_capture(m: Captures, d: int, i: int)
    requires
        0 <= i <= d < m.len(),
        "definition."@.is_prefix_of(m[d].0),
        forall|i: int| 0 <= i < d ==> !"definition."@.is_prefix_of((#[trigger] m[i]).0),
    ensures
        definition_capture(m, i) == Some(d),
    decreases d - i,
{
    if i < d {
        assert(!"definition."@.is_prefix_of(m[i].0));
        lemma_definition_capture(m, d, i + 1);
    }
}

proof fn lemma_name_capture(m: Captures, n: int, i: int)
    requires
        0 <= i <= n < m.len(),
        m[n].0 == "name"@,
        forall|i: int| 0 <= i < n ==> (#[trigger] m[i]).0 != "name"@,
    ensures
        name_capture(m, i) == Some(n),
    decreases n - i,
{
    if i < n {
        lemma_name_capture(m, n, i + 1);
    }
}

proof fn lemma_tag_prefix(tag: Seq<char>)
    requires
        definition_tag(tag),
    ensures
        "definition."@.is_prefix_of(tag),
{
    reveal_strlit("definition.");
    reveal_strlit("definition.class");
    reveal_strlit("definition.module");
    reveal_strlit("definition.struct");
    reveal_strlit("definition.enum");
    reveal_strlit("definition.lib");
    reveal_strlit("definition.method");
    reveal_strlit("definition.macro");
    reveal_strlit("definition.function");
    reveal_strlit("definition.constant");
    reveal_strlit("definition.type");
    reveal_strlit("definition.field");
    assert(tag.len() >= 11);
    assert(tag[0] == 'd' && tag[1] == 'e' && tag[2] == 'f' && tag[3] == 'i' && tag[4] == 'n' && tag[5]
        == 'i' && tag[6] == 't' && tag[7] == 'i' && tag[8] == 'o' && tag[9] == 'n' && tag[10]
        == '.');
    assert("definition."@ =~= tag.take(11));
}

/// A captured definition with a name that can be read is a symbol: it is called by that name, is of
/// the kind that it is captured as, and stands where the name and the whole definition stand.
pub proof fn lemma_definition_is_symbol(
    t: SynTree,
    m: Captures,
    d: int,
    n: int,
    name: Seq<char>,
)
    requires
        captures_definition(m, d, n),
        subtree(t, m[n].1).text == Some(name),
    ensures
        match_symbol(t, m) matches Some(s) && {
            let at_name = subtree(t, m[n].1);
            let whole = subtree(t, m[d].1);
            &&& s.name == name
            &&& m[d].0 == "definition.class"@ ==> s.kind == SymbolKind::Class
            &&& m[d].0 == "definition.module"@ ==> s.kind == SymbolKind::Module
            &&& m[d].0 == "definition.struct"@ ==> s.kind == SymbolKind::Struct
            &&& m[d].0 == "definition.enum"@ ==> s.kind == SymbolKind::Enum
            &&& m[d].0 == "definition.lib"@ ==> s.kind == SymbolKind::Lib
            &&& m[d].0 == "definition.method"@ ==> s.kind == SymbolKind::Method
            &&& m[d].0 == "definition.macro"@ ==> s.kind == SymbolKind::Macro
            &&& m[d].0 == "definition.function"@ ==> s.kind == SymbolKind::Function
            &&& m[d].0 == "definition.constant"@ ==> s.kind == SymbolKind::Constant
            &&& m[d].0 == "definition.type"@ ==> s.kind == SymbolKind::Type
            &&& m[d].0 == "definition.field"@ ==> s.kind == SymbolKind::Field
            &&& s.byte_range.start == at_name.start_byte
            &&& s.byte_range.end == at_name.end_byte
            &&& (s.start_line, s.start_col) == (at_name.start.row, at_name.start.column)
            &&& (s.end_line, s.end_col) == (at_name.end.row, at_name.end.column)
            &&& (s.def_start_line, s.def_start_col) == (whole.start.row, whole.start.column)
            &&& (s.def_end_line, s.def_end_col) == (whole.end.row, whole.end.column)
        },
{
    lemma_tags();
    lemma_tag_prefix(m[d].0);
    lemma_definition_capture(m, d, 0);
    lemma_name_capture(m, n, 0);
}

/// Whether a node of this kind is the parent of the definitions inside it.
pub open spec fn encloses(n: SynTree) -> bool {
    &&& n.kind == "class_def"@ || n.kind == "module_def"@ || n.kind == "struct_def"@ || n.kind
        == "enum_def"@ || n.kind == "lib_def"@
    &&& field_of(n, "name"@) is Some
}

proof fn lemma_parent_scope(t: SynTree, path: Seq<usize>, n: int, m: int)
    requires
        0 <= n < m <= path.len(),
        encloses(subtree(t, path.take(n))),
        forall|k: int| n < k < path.len() ==> !encloses(#[trigger] subtree(t, path.take(k))),
    ensures
        parent_scope(t, path.take(m)) == field_text(subtree(t, path.take(n)), "name"@),
    decreases m - n,
{
    assert(path.take(m).drop_last() =~= path.take(m - 1));
    if n < m - 1 {
        assert(!encloses(subtree(t, path.take(m - 1))));
        lemma_parent_scope(t, path, n, m - 1);
    }
}

proof fn lemma_no_parent_scope(t: SynTree, path: Seq<usize>, m: int)
    requires
        0 <= m <= path.len(),
        forall|k: int| 0 <= k < path.len() ==> !encloses(#[trigger] subtree(t, path.take(k))),
    ensures
        parent_scope(t, path.take(m)) is None,
    decreases m,
{
    if m > 0 {
        assert(path.take(m).drop_last() =~= path.take(m - 1));
        assert(!encloses(subtree(t, path.take(m - 1))));
        lemma_no_parent_scope(t, path, m - 1);
    }
}

/// The parent of a symbol is the name of the nearest class, module, struct, enum or lib around its
/// definition that has a name.
pub proof fn lemma_parent_is_nearest(
    t: SynTree,
    m: Captures,
    d: int,
    n: int,
    up: int,
)
    requires
        captures_definition(m, d, n),
        subtree(t, m[n].1).text is Some,
        0 <= up < m[d].1.len(),
        encloses(subtree(t, m[d].1.take(up))),
        forall|k: int|
            up < k < m[d].1.len() ==> !encloses(#[trigger] subtree(t, m[d].1.take(k))),
    ensures
        match_symbol(t, m) matches Some(s) && s.parent == field_text(
            subtree(t, m[d].1.take(up)),
            "name"@,
        ),
{
    let path = m[d].1;
    lemma_definition_is_symbol(t, m, d, n, subtree(t, m[n].1).text->0);
    lemma_tag_prefix(m[d].0);
    lemma_definition_capture(m, d, 0);
    lemma_name_capture(m, n, 0);
    lemma_parent_scope(t, path, up, path.len() as int);
    assert(path.take(path.len() as int) =~= path);
}

/// A definition that stands in no class, module, struct, enum or lib has no parent.
pub proof fn lemma_top_level_has_no_parent(t: SynTree, m: Captures, d: int, n: int)
    requires
        captures_definition(m, d, n),
        subtree(t, m[n].1).text is Some,
        forall|k: int| 0 <= k < m[d].1.len() ==> !encloses(#[trigger] subtree(t, m[d].1.take(k))),
    ensures
        match_symbol(t, m) matches Some(s) && s.parent is None,
{
    let path = m[d].1;
    lemma_definition_is_symbol(t, m, d, n, subtree(t, m[n].1).text->0);
    lemma_tag_prefix(m[d].0);
    lemma_definition_capture(m, d, 0);
    lemma_name_capture(m, n, 0);
    lemma_no_parent_scope(t, path, path.len() as int);
    assert(path.take(path.len() as int) =~= path);
}

/// Whether the expression `t` shows that its value is of the type `ty`: it is a literal, or a call of
/// `new` on a class.
pub open spec fn shows_type(t: SynTree, ty: Seq<char>) -> bool {
    ||| t.kind == "string"@ && ty == "String"@
    ||| t.kind == "integer"@ && ty == "Int32"@
    ||| t.kind == "float"@ && ty == "Float64"@
    ||| t.kind == "true"@ && ty == "Bool"@
    ||| t.kind == "false"@ && ty == "Bool"@
    ||| t.kind == "array"@ && ty == "Array"@
    ||| t.kind == "hash"@ && ty == "Hash"@
    ||| t.kind == "nil"@ && ty == "Nil"@
    ||| t.kind == "call"@ && field_text(t, "method"@) == Some("new"@) && field_text(t, "receiver"@)
        == Some(ty) && ty.len() > 0 && uppercase(ty[0])
}

/// An expression has a type exactly where it shows one, and that is its type.
pub proof fn lemma_shown_type(t: SynTree, ty: Seq<char>)
    ensures
        value_type(t) == Some(ty) <==> shows_type(t, ty),
{
    lemma_value_kinds();
}

/// A method gives back what its body ends with: its return type is the one that the last expression
/// of the body shows. Nothing else has a return type.
pub proof fn lemma_return_type(t: SynTree, m: Captures, d: int, n: int, ty: Seq<char>)
    requires
        captures_definition(m, d, n),
        subtree(t, m[n].1).text is Some,
    ensures
        match_symbol(t, m) matches Some(s) && (s.return_type == Some(ty) <==> {
            let whole = subtree(t, m[d].1);
            &&& m[d].0 == "definition.method"@
            &&& field_of(whole, "body"@) is Some
            &&& last_named(field_of(whole, "body"@)->0) is Some
            &&& shows_type(last_named(field_of(whole, "body"@)->0)->0, ty)
        }),
{
    lemma_tags();
    lemma_definition_is_symbol(t, m, d, n, subtree(t, m[n].1).text->0);
    lemma_tag_prefix(m[d].0);
    lemma_definition_capture(m, d, 0);
    lemma_name_capture(m, n, 0);
    let whole = subtree(t, m[d].1);
    if field_of(whole, "body"@) is Some && last_named(field_of(whole, "body"@)->0) is Some {
        lemma_shown_type(last_named(field_of(whole, "body"@)->0)->0, ty);
    }
}

/// The symbols of a file are what its matches define, and nothing else.
pub proof fn lemma_symbols_of_matches(t: SynTree, ms: Seq<Captures>, s: Sym)
    ensures
        match_symbols(t, ms).contains(s) <==> exists|i: int|
            0 <= i < ms.len() && match_symbol(t, #[trigger] ms[i]) == Some(s),
    decreases ms.len(),
{
    if ms.len() > 0 {
        let front = ms.drop_last();
        let before = match_symbols(t, front);
        lemma_symbols_of_matches(t, front, s);
        assert(forall|i: int| 0 <= i < front.len() ==> #[trigger] front[i] == ms[i]);
        if let Some(x) = match_symbol(t, ms.last()) {
            let after = before.push(x);
            assert(after[before.len() as int] == x);
            if before.contains(s) {
                let k = choose|k: int| 0 <= k < before.len() && before[k] == s;
                assert(after[k] == s);
            }
            if x == s {
                assert(match_symbol(t, ms[ms.len() - 1]) == Some(s));
            }
        }
        if before.contains(s) {
            let i = choose|i: int|
                0 <= i < front.len() && match_symbol(t, #[trigger] front[i]) == Some(s);
            assert(match_symbol(t, ms[i]) == Some(s));
        }
        if exists|i: int| 0 <= i < ms.len() && match_symbol(t, #[trigger] ms[i]) == Some(s) {
            let i = choose|i: int| 0 <= i < ms.len() && match_symbol(t, #[trigger] ms[i]) == Some(s);
            if i < front.len() {
                assert(match_symbol(t, front[i]) == Some(s));
            }
        }
    }
}

// ---------------------------------------------------------------------------
// The class hierarchy
// ---------------------------------------------------------------------------

/// Whether the node `n` defines the class, struct or module `name`.
pub open spec fn opens_class(n: SynTree, name: Seq<char>) -> bool {
    &&& n.kind == "class_def"@ || n.kind == "struct_def"@ || n.kind == "module_def"@
    &&& field_text(n, "name"@) == Some(name)
}

/// Whether the body of the node `n` holds a statement of the kind `kind` that names `module`.
pub open spec fn mixes_in(n: SynTree, kind: Seq<char>, module: Seq<char>) -> bool {
    field_of(n, "body"@) matches Some(body) && exists|i: int|
        0 <= i < body.children.len() && names_module(#[trigger] body.children[i], kind, module)
}

/// Whether `s` is a statement of the kind `kind` that names `module`.
pub open spec fn names_module(s: SynTree, kind: Seq<char>, module: Seq<char>) -> bool {
    s.kind == kind && first_named(s) is Some && (first_named(s)->0).text == Some(module)
}

proof fn lemma_mixed_in(statements: Seq<SynTree>, kind: Seq<char>, module: Seq<char>)
    ensures
        mixed_in(statements, kind).contains(module) <==> exists|i: int|
            0 <= i < statements.len() && names_module(#[trigger] statements[i], kind, module),
    decreases statements.len(),
{
    if statements.len() > 0 {
        let front = statements.drop_last();
        let before = mixed_in(front, kind);
        let s = statements.last();
        lemma_mixed_in(front, kind, module);
        assert(forall|i: int| 0 <= i < front.len() ==> #[trigger] front[i] == statements[i]);
        if s.kind == kind && first_named(s) is Some && first_named(s)->0.text is Some {
            let x = first_named(s)->0.text->0;
            let after = before.push(x);
            assert(after[before.len() as int] == x);
            if before.contains(module) {
                let k = choose|k: int| 0 <= k < before.len() && before[k] == module;
                assert(after[k] == module);
            }
        }
        if names_module(s, kind, module) {
            assert(names_module(statements[statements.len() - 1], kind, module));
        }
        if before.contains(module) {
            let i = choose|i: int|
                0 <= i < front.len() && names_module(#[trigger] front[i], kind, module);
            assert(names_module(statements[i], kind, module));
        }
        if exists|i: int|
            0 <= i < statements.len() && names_module(#[trigger] statements[i], kind, module) {
            let i = choose|i: int|
                0 <= i < statements.len() && names_module(#[trigger] statements[i], kind, module);
            if i < front.len() {
                assert(names_module(front[i], kind, module));
            }
        }
    }
}

/// What the hierarchy says of one class after the nodes `nodes` were read, the `k`-th of which is the
/// last that defines it.
proof fn lemma_last_entry(
    h: Map<Seq<char>, ClassModel>,
    nodes: Seq<SynTree>,
    k: int,
    name: Seq<char>,
)
    requires
        0 <= k < nodes.len(),
        opens_class(nodes[k], name),
        forall|j: int| k < j < nodes.len() ==> !opens_class(#[trigger] nodes[j], name),
    ensures
        with_entries(h, class_entries(nodes)).contains_key(name),
        class_entry(nodes[k]) == Some((name, with_entries(h, class_entries(nodes))[name])),
    decreases nodes.len(),
{
    let front = nodes.drop_last();
    let last = nodes.last();
    if k < nodes.len() - 1 {
        assert(forall|j: int| k < j < front.len() ==> #[trigger] front[j] == nodes[j]);
        lemma_last_entry(h, front, k, name);
        assert(!opens_class(nodes[nodes.len() - 1], name));
        if let Some(e) = class_entry(last) {
            assert(e.0 != name);
            assert(class_entries(nodes).drop_last() =~= class_entries(front));
        }
    } else {
        assert(class_entries(nodes).drop_last() =~= class_entries(front));
    }
}

/// After a file was read, each class, struct and module that it defines has the superclass that its
/// last definition names, if it is no module, and takes methods from the modules that it includes.
pub proof fn lemma_hierarchy_of_file(
    ix: IndexModel,
    path: Seq<char>,
    tree: SynTree,
    matches: Seq<Captures>,
    k: int,
    name: Seq<char>,
    module: Seq<char>,
)
    requires
        0 <= k < preorder(tree).len(),
        opens_class(preorder(tree)[k], name),
        forall|j: int|
            k < j < preorder(tree).len() ==> !opens_class(#[trigger] preorder(tree)[j], name),
    ensures
        ({
            let n = preorder(tree)[k];
            let h = with_tree(ix, path, tree, matches).hierarchy;
            &&& h.contains_key(name)
            &&& n.kind == "class_def"@ || n.kind == "struct_def"@ ==> h[name].superclass
                == field_text(n, "superclass"@)
            &&& n.kind == "module_def"@ ==> h[name].superclass is None
            &&& h[name].includes.contains(module) <==> mixes_in(n, "include"@, module)
            &&& h[name].extends.contains(module) <==> mixes_in(n, "extend"@, module)
        }),
{
    let n = preorder(tree)[k];
    lemma_def_kinds();
    lemma_last_entry(ix.hierarchy, preorder(tree), k, name);
    let statements = match field_of(n, "body"@) {
        Some(body) => body.children,
        None => Seq::empty(),
    };
    lemma_mixed_in(statements, "include"@, module);
    lemma_mixed_in(statements, "extend"@, module);
}

proof fn lemma_other_entry(h: Map<Seq<char>, ClassModel>, nodes: Seq<SynTree>, name: Seq<char>)
    requires
        forall|j: int| 0 <= j < nodes.len() ==> !opens_class(#[trigger] nodes[j], name),
    ensures
        with_entries(h, class_entries(nodes)).contains_key(name) == h.contains_key(name),
        h.contains_key(name) ==> with_entries(h, class_entries(nodes))[name] == h[name],
    decreases nodes.len(),
{
    if nodes.len() > 0 {
        let front = nodes.drop_last();
        assert(forall|j: int| 0 <= j < front.len() ==> #[trigger] front[j] == nodes[j]);
        lemma_other_entry(h, front, name);
        assert(!opens_class(nodes[nodes.len() - 1], name));
        if let Some(e) = class_entry(nodes.last()) {
            assert(class_entries(nodes).drop_last() =~= class_entries(front));
        }
    }
}

/// Reading a file leaves the place in the hierarchy of every class alone that it does not define.
pub proof fn lemma_other_classes_stay(
    ix: IndexModel,
    path: Seq<char>,
    tree: SynTree,
    matches: Seq<Captures>,
    name: Seq<char>,
)
    requires
        forall|j: int|
            0 <= j < preorder(tree).len() ==> !opens_class(#[trigger] preorder(tree)[j], name),
    ensures
        ({
            let h = with_tree(ix, path, tree, matches).hierarchy;
            &&& h.contains_key(name) == ix.hierarchy.contains_key(name)
            &&& h.contains_key(name) ==> h[name] == ix.hierarchy[name]
        }),
{
    lemma_other_entry(ix.hierarchy, preorder(tree), name);
}

/// The modules that a class includes stand in the order in which it names them: a further statement
/// adds its module behind those before it.
pub proof fn lemma_includes_in_order(statements: Seq<SynTree>, s: SynTree, kind: Seq<char>)
    ensures
        mixed_in(statements.push(s), kind) == if s.kind == kind && first_named(s) is Some && (
        first_named(s)->0).text is Some {
            mixed_in(statements, kind).push((first_named(s)->0).text->0)
        } else {
            mixed_in(statements, kind)
        },
        mixed_in(Seq::empty(), kind).len() == 0,
{
    assert(statements.push(s).drop_last() =~= statements);
}

/// The kinds of nodes that define something with a body are different words.
proof fn lemma_def_kinds()
    ensures
        "class_def"@.len() == 9,
        "module_def"@.len() == 10,
        "struct_def"@.len() == 10,
        "module_def"@[0] == 'm',
        "struct_def"@[0] == 's',
        "enum_def"@.len() == 8,
        "lib_def"@.len() == 7,
{
    reveal_strlit("class_def");
    reveal_strlit("module_def");
    reveal_strlit("struct_def");
    reveal_strlit("enum_def");
    reveal_strlit("lib_def");
}


/// The kinds of nodes that show the type of their value are different words.
proof fn lemma_value_kinds()
    ensures
        "call"@.len() == 4,
        "true"@.len() == 4,
        "hash"@.len() == 4,
        "call"@[0] == 'c',
        "true"@[0] == 't',
        "hash"@[0] == 'h',
        "string"@.len() == 6,
        "integer"@.len() == 7,
        "float"@.len() == 5,
        "false"@.len() == 5,
        "array"@.len() == 5,
        "float"@[1] == 'l',
        "false"@[1] == 'a',
        "array"@[1] == 'r',
        "nil"@.len() == 3,
{
    reveal_strlit("call");
    reveal_strlit("string");
    reveal_strlit("integer");
    reveal_strlit("float");
    reveal_strlit("true");
    reveal_strlit("false");
    reveal_strlit("array");
    reveal_strlit("hash");
    reveal_strlit("nil");
}


/// The names under which definitions are captured are different words.
proof fn lemma_tags()
    ensures
        "definition.class"@.len() == 16,
        "definition.macro"@.len() == 16,
        "definition.field"@.len() == 16,
        "definition.class"@[11] == 'c',
        "definition.macro"@[11] == 'm',
        "definition.field"@[11] == 'f',
        "definition.module"@.len() == 17,
        "definition.struct"@.len() == 17,
        "definition.method"@.len() == 17,
        "definition.module"@[12] == 'o',
        "definition.struct"@[12] == 't',
        "definition.method"@[12] == 'e',
        "definition.enum"@.len() == 15,
        "definition.type"@.len() == 15,
        "definition.enum"@[11] == 'e',
        "definition.type"@[11] == 't',
        "definition.lib"@.len() == 14,
        "definition.function"@.len() == 19,
        "definition.constant"@.len() == 19,
        "definition.function"@[11] == 'f',
        "definition.constant"@[11] == 'c',
        "name"@.len() == 4,
{
    reveal_strlit("definition.class");
    reveal_strlit("definition.module");
    reveal_strlit("definition.struct");
    reveal_strlit("definition.enum");
    reveal_strlit("definition.lib");
    reveal_strlit("definition.method");
    reveal_strlit("definition.macro");
    reveal_strlit("definition.function");
    reveal_strlit("definition.constant");
    reveal_strlit("definition.type");
    reveal_strlit("definition.field");
    reveal_strlit("name");
}


} // verus!
