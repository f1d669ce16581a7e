//! Where going to a definition leads.

use vstd::prelude::*;

use crate::definition::{
    classified, goto, hit_order, hits_of_kinds, lemma_hit_order, locations_of, named_hits,
    typed_hits, word,
};
use crate::extract::{Sym, SymbolKind};
use crate::index::{hits, Hit, IndexModel, Want};
use crate::laws::index::{defines, lemma_found_by_kind, lemma_found_by_name};
use crate::order::{lemma_stable_sorted, stable_sorted};
use crate::paths::{path_at_most, same_path};
use crate::protocol::TextRange;
use crate::syntax::{field_from, field_text, subtree, SynTree};
use crate::text::alphanumeric;
use crate::uri::path_uri;

verus! {

/// Whether `loc` is where the name of the symbol `s` of the file `path` stands.
pub open spec fn points_at(loc: (Seq<char>, TextRange), path: Seq<char>, s: Sym) -> bool {
    &&& path_uri(path) == Some(loc.0)
    &&& loc.1.start.line == s.start_line as u32
    &&& loc.1.start.character == s.start_col as u32
    &&& loc.1.end.line == s.end_line as u32
    &&& loc.1.end.character == s.end_col as u32
}

/// Whether `loc` is where a symbol called `name` of one of the kinds `kinds` stands.
pub open spec fn defined_at(
    ix: IndexModel,
    name: Seq<char>,
    kinds: Set<SymbolKind>,
    loc: (Seq<char>, TextRange),
) -> bool {
    exists|path: Seq<char>, s: Sym|
        #![trigger defines(ix, path, s)]
        defines(ix, path, s) && s.name == name && kinds.contains(s.kind) && points_at(loc, path, s)
}

/// Whether the node at `at` is looked up by its name alone: it is not the name of the method in a
/// call that has a receiver.
pub open spec fn by_name(t: SynTree, at: Seq<usize>) -> bool {
    at.len() > 0 ==> {
        let call = subtree(t, at.drop_last());
        ||| call.kind != "call"@
        ||| !subtree(t, at).fields.contains("method"@)
        ||| forall|i: int|
            0 <= i < call.children.len() ==> !(#[trigger] call.children[i]).fields.contains(
                "receiver"@,
            )
    }
}

pub(crate) proof fn lemma_field_from(t: SynTree, name: Seq<char>, i: int)
    requires
        0 <= i,
    ensures
        match field_from(t, name, i) {
            Some(k) => i <= k < t.children.len() && t.children[k].fields.contains(name) && forall|
                j: int,
            |
                i <= j < k ==> !(#[trigger] t.children[j]).fields.contains(name),
            None => forall|j: int|
                i <= j < t.children.len() ==> !(#[trigger] t.children[j]).fields.contains(name),
        },
    decreases t.children.len() - i,
{
    if i < t.children.len() && !t.children[i].fields.contains(name) {
        lemma_field_from(t, name, i + 1);
    }
}

proof fn lemma_untyped(ix: IndexModel, t: SynTree, at: Seq<usize>)
    requires
        by_name(t, at),
    ensures
        typed_hits(ix, t, at) is None,
{
    if at.len() > 0 {
        let call = subtree(t, at.drop_last());
        lemma_field_from(call, "method"@, 0);
        lemma_field_from(call, "receiver"@, 0);
    }
}

proof fn lemma_locations(found: Seq<Hit>, loc: (Seq<char>, TextRange))
    ensures
        locations_of(found).contains(loc) <==> exists|i: int|
            0 <= i < found.len() && points_at(loc, (#[trigger] found[i]).0, found[i].1),
    decreases found.len(),
{
    if found.len() > 0 {
        let front = found.drop_last();
        let last = found.last();
        lemma_locations(front, loc);
        let before = locations_of(front);
        assert(forall|i: int| 0 <= i < front.len() ==> #[trigger] front[i] == found[i]);
        if let Some(u) = path_uri(last.0) {
            let entry = (u, crate::definition::name_range(last.1));
            let after = before.push(entry);
            assert(after[before.len() as int] == entry);
            if before.contains(loc) {
                let k = choose|k: int| 0 <= k < before.len() && before[k] == loc;
                assert(after[k] == loc);
            }
            if points_at(loc, last.0, last.1) {
                assert(loc.1 == entry.1);
                assert(loc == entry);
            }
        }
        if exists|i: int|
            0 <= i < found.len() && points_at(loc, (#[trigger] found[i]).0, found[i].1) {
            let i = choose|i: int|
                0 <= i < found.len() && points_at(loc, (#[trigger] found[i]).0, found[i].1);
            if i < front.len() {
                assert(points_at(loc, front[i].0, front[i].1));
            }
        }
        if locations_of(found).contains(loc) && !before.contains(loc) {
            assert(points_at(loc, last.0, last.1));
            assert(found[found.len() - 1] == last);
        }
        if before.contains(loc) {
            let i = choose|i: int|
                0 <= i < front.len() && points_at(loc, (#[trigger] front[i]).0, front[i].1);
            assert(points_at(loc, found[i].0, found[i].1));
        }
    }
}

pub(crate) proof fn lemma_sorted_contains(current: Seq<char>, found: Seq<Hit>, h: Hit)
    ensures
        stable_sorted(hit_order(current), found).contains(h) <==> found.contains(h),
{
    lemma_hit_order(current);
    lemma_stable_sorted(hit_order(current), found);
    let sorted = stable_sorted(hit_order(current), found);
    sorted.to_multiset_ensures();
    found.to_multiset_ensures();
    assert(sorted.to_multiset().count(h) == found.to_multiset().count(h));
}

pub(crate) proof fn lemma_shown(current: Seq<char>, found: Seq<Hit>, loc: (Seq<char>, TextRange))
    ensures
        locations_of(stable_sorted(hit_order(current), found)).contains(loc) <==> exists|h: Hit|
            #[trigger] found.contains(h) && points_at(loc, h.0, h.1),
{
    let sorted = stable_sorted(hit_order(current), found);
    lemma_locations(sorted, loc);
    if exists|h: Hit| #[trigger] found.contains(h) && points_at(loc, h.0, h.1) {
        let h = choose|h: Hit| #[trigger] found.contains(h) && points_at(loc, h.0, h.1);
        lemma_sorted_contains(current, found, h);
        let i = choose|i: int| 0 <= i < sorted.len() && sorted[i] == h;
        assert(points_at(loc, sorted[i].0, sorted[i].1));
    }
    if locations_of(sorted).contains(loc) {
        let i = choose|i: int|
            0 <= i < sorted.len() && points_at(loc, (#[trigger] sorted[i]).0, sorted[i].1);
        lemma_sorted_contains(current, found, sorted[i]);
        assert(sorted.contains(sorted[i]));
    }
}

proof fn lemma_hits_of_kinds(
    ix: IndexModel,
    name: Seq<char>,
    kinds: Seq<SymbolKind>,
    n: int,
    h: Hit,
)
    requires
        0 <= n <= kinds.len(),
    ensures
        hits_of_kinds(ix, name, kinds, n).contains(h) <==> defines(ix, h.0, h.1) && h.1.name == name
            && exists|k: int| 0 <= k < n && #[trigger] kinds[k] == h.1.kind,
    decreases n,
{
    if n > 0 {
        lemma_hits_of_kinds(ix, name, kinds, n - 1, h);
        lemma_found_by_kind(ix, name, kinds[n - 1], h.0, h.1);
        let a = hits_of_kinds(ix, name, kinds, n - 1);
        let b = hits(ix.files, Want::Definition(name, kinds[n - 1]));
        crate::require_glob::lemma_sum_contains(a, b, h);
    }
}

pub(crate) proof fn lemma_named_hits(
    ix: IndexModel,
    name: Seq<char>,
    kinds: Seq<SymbolKind>,
    h: Hit,
)
    ensures
        named_hits(ix, name, kinds).contains(h) <==> defines(ix, h.0, h.1) && h.1.name == name && (
        kinds.len() == 0 || kinds.contains(h.1.kind)),
{
    if kinds.len() == 0 {
        lemma_found_by_name(ix, name, h.0, h.1);
    } else {
        lemma_hits_of_kinds(ix, name, kinds, kinds.len() as int, h);
    }
}

proof fn lemma_goto_named(
    ix: IndexModel,
    current: Seq<char>,
    t: SynTree,
    at: Seq<usize>,
    kinds: Set<SymbolKind>,
    loc: (Seq<char>, TextRange),
)
    requires
        by_name(t, at),
        classified(t, at) is Some,
        forall|k: SymbolKind| #[trigger]
            kinds.contains(k) <==> ((classified(t, at)->0).1.len() == 0 || (classified(
                t,
                at,
            )->0).1.contains(k)),
    ensures
        goto(ix, current, t, at) is Some,
        (goto(ix, current, t, at)->0).contains(loc) <==> defined_at(
            ix,
            (classified(t, at)->0).0,
            kinds,
            loc,
        ),
{
    let (name, listed) = classified(t, at)->0;
    let found = named_hits(ix, name, listed);
    lemma_untyped(ix, t, at);
    lemma_shown(current, found, loc);
    if exists|h: Hit| #[trigger] found.contains(h) && points_at(loc, h.0, h.1) {
        let h = choose|h: Hit| #[trigger] found.contains(h) && points_at(loc, h.0, h.1);
        lemma_named_hits(ix, name, listed, h);
        assert(kinds.contains(h.1.kind));
        assert(defines(ix, h.0, h.1));
    }
    if defined_at(ix, name, kinds, loc) {
        let (path, s) = choose|path: Seq<char>, s: Sym|
            #![trigger defines(ix, path, s)]
            defines(ix, path, s) && s.name == name && kinds.contains(s.kind) && points_at(
                loc,
                path,
                s,
            );
        lemma_named_hits(ix, name, listed, (path, s));
        assert(found.contains((path, s)));
    }
}

/// A constant leads to the classes, modules, structs, enums, constants and type aliases of its name,
/// in every file that has a URI, and nowhere else.
pub proof fn lemma_constant_leads_to(
    ix: IndexModel,
    current: Seq<char>,
    t: SynTree,
    at: Seq<usize>,
    name: Seq<char>,
    loc: (Seq<char>, TextRange),
)
    requires
        by_name(t, at),
        subtree(t, at).kind == "constant"@,
        subtree(t, at).text == Some(name),
        name.len() > 0,
    ensures
        goto(ix, current, t, at) matches Some(found) && (found.contains(loc) <==> defined_at(
            ix,
            name,
            set![SymbolKind::Class, SymbolKind::Module, SymbolKind::Struct, SymbolKind::Enum, SymbolKind::Constant, SymbolKind::Type],
            loc,
        )),
{
    lemma_name_kinds();
    let kinds = set![SymbolKind::Class, SymbolKind::Module, SymbolKind::Struct, SymbolKind::Enum, SymbolKind::Constant, SymbolKind::Type];
    let listed = (classified(t, at)->0).1;
    assert(listed[0] == SymbolKind::Class);
    assert(listed[1] == SymbolKind::Module);
    assert(listed[2] == SymbolKind::Struct);
    assert(listed[3] == SymbolKind::Enum);
    assert(listed[4] == SymbolKind::Constant);
    assert(listed[5] == SymbolKind::Type);
    assert forall|k: SymbolKind| #[trigger] kinds.contains(k) <==> (listed.len() == 0
        || listed.contains(k)) by {}
    lemma_goto_named(ix, current, t, at, kinds, loc);
}

/// An instance variable or a class variable leads to the fields of its name.
pub proof fn lemma_field_leads_to(
    ix: IndexModel,
    current: Seq<char>,
    t: SynTree,
    at: Seq<usize>,
    name: Seq<char>,
    loc: (Seq<char>, TextRange),
)
    requires
        by_name(t, at),
        subtree(t, at).kind == "instance_var"@ || subtree(t, at).kind == "class_var"@,
        subtree(t, at).text == Some(name),
        name.len() > 0,
    ensures
        goto(ix, current, t, at) matches Some(found) && (found.contains(loc) <==> defined_at(
            ix,
            name,
            set![SymbolKind::Field],
            loc,
        )),
{
    lemma_name_kinds();
    let kinds = set![SymbolKind::Field];
    let listed = (classified(t, at)->0).1;
    assert(listed[0] == SymbolKind::Field);
    assert forall|k: SymbolKind| #[trigger] kinds.contains(k) <==> (listed.len() == 0
        || listed.contains(k)) by {}
    lemma_goto_named(ix, current, t, at, kinds, loc);
}

/// Whether the node at `at` names a method: it stands in a call or is the name of a definition.
pub open spec fn stands_for_method(t: SynTree, at: Seq<usize>) -> bool {
    at.len() > 0 && {
        let above = subtree(t, at.drop_last()).kind;
        above == "call"@ || above == "method_def"@ || above == "abstract_method_def"@
    }
}

/// An identifier in a call or in the definition of a method leads to the methods of its name.
pub proof fn lemma_method_name_leads_to(
    ix: IndexModel,
    current: Seq<char>,
    t: SynTree,
    at: Seq<usize>,
    name: Seq<char>,
    loc: (Seq<char>, TextRange),
)
    requires
        by_name(t, at),
        subtree(t, at).kind == "identifier"@,
        stands_for_method(t, at),
        subtree(t, at).text == Some(name),
        name.len() > 0,
    ensures
        goto(ix, current, t, at) matches Some(found) && (found.contains(loc) <==> defined_at(
            ix,
            name,
            set![SymbolKind::Method],
            loc,
        )),
{
    lemma_name_kinds();
    let kinds = set![SymbolKind::Method];
    let listed = (classified(t, at)->0).1;
    assert(listed[0] == SymbolKind::Method);
    assert forall|k: SymbolKind| #[trigger] kinds.contains(k) <==> (listed.len() == 0
        || listed.contains(k)) by {}
    lemma_goto_named(ix, current, t, at, kinds, loc);
}

/// Any other identifier leads to the methods, macros and functions of its name.
pub proof fn lemma_identifier_leads_to(
    ix: IndexModel,
    current: Seq<char>,
    t: SynTree,
    at: Seq<usize>,
    name: Seq<char>,
    loc: (Seq<char>, TextRange),
)
    requires
        by_name(t, at),
        subtree(t, at).kind == "identifier"@,
        !stands_for_method(t, at),
        subtree(t, at).text == Some(name),
        name.len() > 0,
    ensures
        goto(ix, current, t, at) matches Some(found) && (found.contains(loc) <==> defined_at(
            ix,
            name,
            set![SymbolKind::Method, SymbolKind::Macro, SymbolKind::Function],
            loc,
        )),
{
    lemma_name_kinds();
    let kinds = set![SymbolKind::Method, SymbolKind::Macro, SymbolKind::Function];
    let listed = (classified(t, at)->0).1;
    assert(listed[0] == SymbolKind::Method);
    assert(listed[1] == SymbolKind::Macro);
    assert(listed[2] == SymbolKind::Function);
    assert forall|k: SymbolKind| #[trigger] kinds.contains(k) <==> (listed.len() == 0
        || listed.contains(k)) by {}
    lemma_goto_named(ix, current, t, at, kinds, loc);
}

/// A type leads to the classes, modules, structs, enums and type aliases of the name that it writes;
/// type arguments do not count.
pub proof fn lemma_type_leads_to(
    ix: IndexModel,
    current: Seq<char>,
    t: SynTree,
    at: Seq<usize>,
    name: Seq<char>,
    loc: (Seq<char>, TextRange),
)
    requires
        by_name(t, at),
        subtree(t, at).kind == "named_type"@ || subtree(t, at).kind == "generic_type"@,
        subtree(t, at).text is Some,
        (subtree(t, at).text->0).len() > 0,
        match field_text(subtree(t, at), "name"@) {
            Some(written) => name == written,
            None => Some(name) == subtree(t, at).text,
        },
    ensures
        goto(ix, current, t, at) matches Some(found) && (found.contains(loc) <==> defined_at(
            ix,
            name,
            set![SymbolKind::Class, SymbolKind::Module, SymbolKind::Struct, SymbolKind::Enum, SymbolKind::Type],
            loc,
        )),
{
    lemma_name_kinds();
    let kinds = set![SymbolKind::Class, SymbolKind::Module, SymbolKind::Struct, SymbolKind::Enum, SymbolKind::Type];
    let listed = (classified(t, at)->0).1;
    assert(listed[0] == SymbolKind::Class);
    assert(listed[1] == SymbolKind::Module);
    assert(listed[2] == SymbolKind::Struct);
    assert(listed[3] == SymbolKind::Enum);
    assert(listed[4] == SymbolKind::Type);
    assert forall|k: SymbolKind| #[trigger] kinds.contains(k) <==> (listed.len() == 0
        || listed.contains(k)) by {}
    lemma_goto_named(ix, current, t, at, kinds, loc);
}

/// Whether nodes of this kind are told apart by what they can name.
pub open spec fn known_name_kind(kind: Seq<char>) -> bool {
    kind == "instance_var"@ || kind == "class_var"@ || kind == "constant"@ || kind == "identifier"@
        || kind == "named_type"@ || kind == "generic_type"@
}

/// Any other word leads to whatever has its name, of any kind.
pub proof fn lemma_word_leads_to(
    ix: IndexModel,
    current: Seq<char>,
    t: SynTree,
    at: Seq<usize>,
    name: Seq<char>,
    loc: (Seq<char>, TextRange),
)
    requires
        by_name(t, at),
        !known_name_kind(subtree(t, at).kind),
        subtree(t, at).text == Some(name),
        name.len() > 0,
        forall|i: int| 0 <= i < name.len() ==> alphanumeric(#[trigger] name[i]) || name[i] == '_',
    ensures
        goto(ix, current, t, at) matches Some(found) && (found.contains(loc) <==> defined_at(
            ix,
            name,
            Set::full(),
            loc,
        )),
{
    assert(word(name));
    lemma_goto_named(ix, current, t, at, Set::full(), loc);
}

/// What is no name leads nowhere: a node without text, and text that holds anything but letters,
/// digits and underscores, unless the grammar says that it is a name.
pub proof fn lemma_no_name_leads_nowhere(
    ix: IndexModel,
    current: Seq<char>,
    t: SynTree,
    at: Seq<usize>,
    i: int,
)
    requires
        by_name(t, at),
        match subtree(t, at).text {
            Some(text) => text.len() == 0 || (!known_name_kind(subtree(t, at).kind) && 0 <= i
                < text.len() && !alphanumeric(text[i]) && text[i] != '_'),
            None => true,
        },
    ensures
        goto(ix, current, t, at) is None,
{
    lemma_untyped(ix, t, at);
    if let Some(text) = subtree(t, at).text {
        if text.len() > 0 {
            assert(!word(text));
        }
    }
}

/// Whether the location `loc` is in the file `path`.
pub open spec fn in_file(loc: (Seq<char>, TextRange), path: Seq<char>) -> bool {
    same_path(loc.0.skip(7), path)
}

proof fn lemma_locations_in_turn(found: Seq<Hit>, i: int, j: int) -> (r: (int, int))
    requires
        0 <= i < j < locations_of(found).len(),
    ensures
        0 <= r.0 < r.1 < found.len(),
        path_uri(found[r.0].0) == Some(locations_of(found)[i].0),
        path_uri(found[r.1].0) == Some(locations_of(found)[j].0),
    decreases found.len(),
{
    let front = found.drop_last();
    let before = locations_of(front);
    if j < before.len() {
        lemma_locations_in_turn(front, i, j)
    } else {
        assert(before.contains(before[i]));
        lemma_locations(front, before[i]);
        let a = choose|a: int|
            0 <= a < front.len() && points_at(before[i], (#[trigger] front[a]).0, front[a].1);
        (a, found.len() - 1)
    }
}

/// The definitions in the file itself are shown first; among those in it, and among those in other
/// files, the order is that of the paths.
pub proof fn lemma_shown_in_order(current: Seq<char>, found: Seq<Hit>, i: int, j: int)
    requires
        0 <= i < j < locations_of(stable_sorted(hit_order(current), found)).len(),
    ensures
        ({
            let shown = locations_of(stable_sorted(hit_order(current), found));
            &&& in_file(shown[j], current) ==> in_file(shown[i], current)
            &&& in_file(shown[j], current) == in_file(shown[i], current) ==> path_at_most(
                shown[i].0.skip(7),
                shown[j].0.skip(7),
            )
        }),
{
    let sorted = stable_sorted(hit_order(current), found);
    let shown = locations_of(sorted);
    let (a, b) = lemma_locations_in_turn(sorted, i, j);
    lemma_hit_order(current);
    lemma_stable_sorted(hit_order(current), found);
    let le = hit_order(current);
    assert(le(sorted[a], sorted[b]));
    reveal_strlit("file://");
    assert(shown[i].0.skip(7) =~= sorted[a].0);
    assert(shown[j].0.skip(7) =~= sorted[b].0);
}

proof fn lemma_goto_is_sorted(ix: IndexModel, current: Seq<char>, t: SynTree, at: Seq<usize>) -> (r:
    Seq<Hit>)
    requires
        goto(ix, current, t, at) is Some,
    ensures
        goto(ix, current, t, at) == Some(locations_of(stable_sorted(hit_order(current), r))),
{
    let typed = match typed_hits(ix, t, at) {
        Some(found) => locations_of(stable_sorted(hit_order(current), found)),
        None => Seq::empty(),
    };
    if typed.len() > 0 {
        typed_hits(ix, t, at)->0
    } else {
        let (name, kinds) = classified(t, at)->0;
        named_hits(ix, name, kinds)
    }
}

/// Going to a definition shows the definitions in the file itself first, and otherwise goes by the
/// order of the paths.
pub proof fn lemma_goto_in_order(
    ix: IndexModel,
    current: Seq<char>,
    t: SynTree,
    at: Seq<usize>,
    i: int,
    j: int,
)
    requires
        goto(ix, current, t, at) is Some,
        0 <= i < j < (goto(ix, current, t, at)->0).len(),
    ensures
        ({
            let shown = goto(ix, current, t, at)->0;
            &&& in_file(shown[j], current) ==> in_file(shown[i], current)
            &&& in_file(shown[j], current) == in_file(shown[i], current) ==> path_at_most(
                shown[i].0.skip(7),
                shown[j].0.skip(7),
            )
        }),
{
    let found = lemma_goto_is_sorted(ix, current, t, at);
    lemma_shown_in_order(current, found, i, j);
}

/// The kinds of nodes that names are told apart by are different words.
pub(crate) proof fn lemma_name_kinds()
    ensures
        "instance_var"@.len() == 12,
        "generic_type"@.len() == 12,
        "instance_var"@[0] == 'i',
        "generic_type"@[0] == 'g',
        "class_var"@.len() == 9,
        "constant"@.len() == 8,
        "identifier"@.len() == 10,
        "named_type"@.len() == 10,
        "identifier"@[0] == 'i',
        "named_type"@[0] == 'n',
{
    reveal_strlit("instance_var");
    reveal_strlit("class_var");
    reveal_strlit("constant");
    reveal_strlit("identifier");
    reveal_strlit("named_type");
    reveal_strlit("generic_type");
}


} // verus!
