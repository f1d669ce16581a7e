//! Where a method comes from.

use vstd::prelude::*;

use crate::definition::{goto, hit_order, locations_of, receiver_type, typed_hits};
use crate::extract::SymbolKind;
use crate::index::{
    gives_methods, gives_over, hits, lemma_asked_shrinks, lemma_search_is_complete,
    lemma_search_is_sound, method_search, sources_of, Hit, IndexModel, Want,
};
use crate::laws::definition::{lemma_shown, points_at};
use crate::laws::index::{defines, lemma_found_methods};
use crate::order::stable_sorted;
use crate::protocol::TextRange;
use crate::syntax::{field_index, subtree, SynTree};

verus! {

/// Whether the class `class` takes methods from `other` directly: it includes it, or has it as its
/// superclass.
pub open spec fn takes_from(ix: IndexModel, class: Seq<char>, other: Seq<char>) -> bool {
    ix.hierarchy.contains_key(class) && (ix.hierarchy[class].includes.contains(other)
        || ix.hierarchy[class].superclass == Some(other))
}

/// Whether `chain` leads from `class` up to `other`, each taking methods from the next.
pub open spec fn climbs(
    ix: IndexModel,
    class: Seq<char>,
    other: Seq<char>,
    chain: Seq<Seq<char>>,
) -> bool {
    &&& chain.len() > 0
    &&& chain[0] == class
    &&& chain.last() == other
    &&& forall|i: int| 0 <= i < chain.len() - 1 ==> takes_from(ix, #[trigger] chain[i], chain[i + 1])
}

/// Whether `other` is `class` itself, or a module or class above it.
pub open spec fn above(ix: IndexModel, class: Seq<char>, other: Seq<char>) -> bool {
    exists|chain: Seq<Seq<char>>| climbs(ix, class, other, chain)
}

/// Whether `h` is a method called `name` of the class `class`.
pub open spec fn method_of(ix: IndexModel, class: Seq<char>, name: Seq<char>, h: Hit) -> bool {
    defines(ix, h.0, h.1) && h.1.parent == Some(class) && h.1.name == name && h.1.kind
        == SymbolKind::Method
}

proof fn lemma_sources(ix: IndexModel, class: Seq<char>, other: Seq<char>)
    ensures
        sources_of(ix, class).contains(other) <==> takes_from(ix, class, other),
{
    if ix.hierarchy.contains_key(class) {
        let info = ix.hierarchy[class];
        if let Some(s) = info.superclass {
            let all = info.includes.push(s);
            assert(all[info.includes.len() as int] == s);
            if info.includes.contains(other) {
                let k = choose|k: int| 0 <= k < info.includes.len() && info.includes[k] == other;
                assert(all[k] == other);
            }
        }
    }
}

proof fn lemma_above(ix: IndexModel, class: Seq<char>, other: Seq<char>)
    ensures
        above(ix, class, other) <==> gives_methods(ix, class, other),
{
    if above(ix, class, other) {
        let chain = choose|chain: Seq<Seq<char>>| climbs(ix, class, other, chain);
        assert forall|i: int| 0 <= i < chain.len() - 1 implies sources_of(
            ix,
            #[trigger] chain[i],
        ).contains(chain[i + 1]) by {
            lemma_sources(ix, chain[i], chain[i + 1]);
        }
        assert(gives_over(ix, class, other, chain));
    }
    if gives_methods(ix, class, other) {
        let chain = choose|chain: Seq<Seq<char>>| gives_over(ix, class, other, chain);
        assert forall|i: int| 0 <= i < chain.len() - 1 implies takes_from(
            ix,
            #[trigger] chain[i],
            chain[i + 1],
        ) by {
            lemma_sources(ix, chain[i], chain[i + 1]);
        }
        assert(climbs(ix, class, other, chain));
    }
}

proof fn lemma_own_methods(ix: IndexModel, class: Seq<char>, name: Seq<char>)
    ensures
        hits(ix.files, Want::Method(class, name)).len() > 0 <==> exists|h: Hit| #[trigger]
            method_of(ix, class, name, h),
        forall|h: Hit|
            hits(ix.files, Want::Method(class, name)).contains(h) <==> #[trigger] method_of(
                ix,
                class,
                name,
                h,
            ),
{
    let own = hits(ix.files, Want::Method(class, name));
    assert forall|h: Hit| own.contains(h) <==> #[trigger] method_of(ix, class, name, h) by {
        lemma_found_methods(ix, class, name, h.0, h.1);
        assert(h == (h.0, h.1));
    }
    if own.len() > 0 {
        assert(own.contains(own[0]));
        assert(method_of(ix, class, name, own[0]));
    }
}

/// A method that any class or module above the receiver's class defines is found; and what is found
/// are exactly the methods of that name of one class or module at or above it.
pub proof fn lemma_method_is_found(
    ix: IndexModel,
    class: Seq<char>,
    name: Seq<char>,
    other: Seq<char>,
    h: Hit,
)
    requires
        ix.wf(),
        above(ix, class, other),
        method_of(ix, other, name, h),
    ensures
        ({
            let found = method_search(ix, seq![class], name, Set::empty());
            &&& found.len() > 0
            &&& exists|c: Seq<char>| #[trigger]
                above(ix, class, c) && forall|g: Hit|
                    found.contains(g) <==> #[trigger] method_of(ix, c, name, g)
        }),
{
    let found = method_search(ix, seq![class], name, Set::empty());
    lemma_above(ix, class, other);
    lemma_own_methods(ix, other, name);
    if found.len() == 0 {
        lemma_search_is_complete(ix, class, name, other);
    }
    lemma_search_is_sound(ix, class, name);
    let c = choose|c: Seq<char>| #[trigger]
        gives_methods(ix, class, c) && found == hits(ix.files, Want::Method(c, name));
    lemma_above(ix, class, c);
    lemma_own_methods(ix, c, name);
    assert(above(ix, class, c));
}

/// Where neither the class nor anything above it defines the method, nothing is found.
pub proof fn lemma_unknown_method(ix: IndexModel, class: Seq<char>, name: Seq<char>)
    requires
        ix.wf(),
        forall|other: Seq<char>, h: Hit|
            above(ix, class, other) ==> !#[trigger] method_of(ix, other, name, h),
    ensures
        method_search(ix, seq![class], name, Set::empty()).len() == 0,
{
    let found = method_search(ix, seq![class], name, Set::empty());
    lemma_search_is_sound(ix, class, name);
    if found.len() > 0 {
        let c = choose|c: Seq<char>| #[trigger]
            gives_methods(ix, class, c) && found == hits(ix.files, Want::Method(c, name));
        lemma_above(ix, class, c);
        lemma_own_methods(ix, c, name);
        assert(found.contains(found[0]));
        assert(method_of(ix, c, name, found[0]));
    }
}

/// A class overrides everything above it: its own methods of a name are all that is found.
pub proof fn lemma_own_method_wins(ix: IndexModel, class: Seq<char>, name: Seq<char>, h: Hit)
    requires
        ix.wf(),
        method_of(ix, class, name, h),
    ensures
        forall|g: Hit|
            method_search(ix, seq![class], name, Set::empty()).contains(g)
                <==> #[trigger] method_of(ix, class, name, g),
{
    lemma_own_methods(ix, class, name);
    lemma_search_is_sound(ix, class, name);
}

/// An included module goes before the superclass: where a class does not define a method itself, and
/// the module that it includes first does, the methods of the module are all that is found.
pub proof fn lemma_module_wins(
    ix: IndexModel,
    class: Seq<char>,
    name: Seq<char>,
    module: Seq<char>,
    h: Hit,
)
    requires
        ix.wf(),
        forall|g: Hit| !#[trigger] method_of(ix, class, name, g),
        ix.hierarchy.contains_key(class),
        ix.hierarchy[class].includes.len() > 0,
        ix.hierarchy[class].includes[0] == module,
        method_of(ix, module, name, h),
    ensures
        forall|g: Hit|
            method_search(ix, seq![class], name, Set::empty()).contains(g)
                <==> #[trigger] method_of(ix, module, name, g),
{
    lemma_own_methods(ix, class, name);
    lemma_own_methods(ix, module, name);
    let todo = sources_of(ix, class) + seq![class].skip(1);
    assert(module != class);
    assert(todo[0] == module);
    let asked = Set::<Seq<char>>::empty().insert(class);
    lemma_asked_shrinks(ix.hierarchy.dom(), Set::empty(), class);
    assert(method_search(ix, seq![class], name, Set::empty()) == method_search(
        ix,
        todo,
        name,
        asked,
    ));
}

/// A class that includes nothing takes from its superclass what it does not define itself.
pub proof fn lemma_superclass_is_next(
    ix: IndexModel,
    class: Seq<char>,
    name: Seq<char>,
    superclass: Seq<char>,
    h: Hit,
)
    requires
        ix.wf(),
        forall|g: Hit| !#[trigger] method_of(ix, class, name, g),
        ix.hierarchy.contains_key(class),
        ix.hierarchy[class].includes.len() == 0,
        ix.hierarchy[class].superclass == Some(superclass),
        method_of(ix, superclass, name, h),
    ensures
        forall|g: Hit|
            method_search(ix, seq![class], name, Set::empty()).contains(g)
                <==> #[trigger] method_of(ix, superclass, name, g),
{
    lemma_own_methods(ix, class, name);
    lemma_own_methods(ix, superclass, name);
    let todo = sources_of(ix, class) + seq![class].skip(1);
    assert(superclass != class);
    assert(todo[0] == superclass);
    let asked = Set::<Seq<char>>::empty().insert(class);
    lemma_asked_shrinks(ix.hierarchy.dom(), Set::empty(), class);
    assert(method_search(ix, seq![class], name, Set::empty()) == method_search(
        ix,
        todo,
        name,
        asked,
    ));
}

/// Whether the node at `at` is the method name `method` of a call, on a receiver that is the child
/// `r` of the call.
pub open spec fn calls_method(t: SynTree, at: Seq<usize>, method: Seq<char>, r: usize) -> bool {
    &&& at.len() > 0
    &&& subtree(t, at.drop_last()).kind == "call"@
    &&& field_index(subtree(t, at.drop_last()), "method"@) == Some(at.last() as int)
    &&& field_index(subtree(t, at.drop_last()), "receiver"@) == Some(r as int)
    &&& subtree(t, at).text == Some(method)
}

/// The name of a method that is called on a receiver of the class `class` leads to the methods of
/// that class, where it defines one in a file that has a URI, whatever else has the same name.
pub proof fn lemma_call_leads_to_method(
    ix: IndexModel,
    current: Seq<char>,
    t: SynTree,
    at: Seq<usize>,
    method: Seq<char>,
    r: usize,
    class: Seq<char>,
    h: Hit,
    at_h: (Seq<char>, TextRange),
    loc: (Seq<char>, TextRange),
)
    requires
        ix.wf(),
        calls_method(t, at, method, r),
        receiver_type(t, at.drop_last().push(r)) == Some(class),
        method_of(ix, class, method, h),
        points_at(at_h, h.0, h.1),
    ensures
        goto(ix, current, t, at) matches Some(found) && (found.contains(loc) <==> exists|g: Hit|
            #[trigger] method_of(ix, class, method, g) && points_at(loc, g.0, g.1)),
{
    lemma_own_method_wins(ix, class, method, h);
    let found = method_search(ix, seq![class], method, Set::empty());
    assert(found.contains(h));
    assert(typed_hits(ix, t, at) == Some(found));
    let shown = locations_of(stable_sorted(hit_order(current), found));
    lemma_shown(current, found, at_h);
    lemma_shown(current, found, loc);
    assert(shown.contains(at_h));
    assert(goto(ix, current, t, at) == Some(shown));
    if exists|g: Hit| #[trigger] method_of(ix, class, method, g) && points_at(loc, g.0, g.1) {
        let g = choose|g: Hit| #[trigger]
            method_of(ix, class, method, g) && points_at(loc, g.0, g.1);
        assert(found.contains(g));
    }
    if shown.contains(loc) {
        let g = choose|g: Hit| #[trigger] found.contains(g) && points_at(loc, g.0, g.1);
        assert(method_of(ix, class, method, g));
    }
}

/// The name of a method that the receiver's class does not define itself leads to methods of that
/// name of a class or module above it, where one of those that are found has a URI.
pub proof fn lemma_call_leads_above(
    ix: IndexModel,
    current: Seq<char>,
    t: SynTree,
    at: Seq<usize>,
    method: Seq<char>,
    r: usize,
    class: Seq<char>,
    loc: (Seq<char>, TextRange),
    first: (Seq<char>, TextRange),
)
    requires
        ix.wf(),
        calls_method(t, at, method, r),
        receiver_type(t, at.drop_last().push(r)) == Some(class),
        exists|h: Hit| #[trigger]
            method_search(ix, seq![class], method, Set::empty()).contains(h) && points_at(
                first,
                h.0,
                h.1,
            ),
    ensures
        goto(ix, current, t, at) matches Some(found) && (found.contains(loc) <==> exists|g: Hit|
            #[trigger] method_search(ix, seq![class], method, Set::empty()).contains(g)
                && points_at(loc, g.0, g.1)),
{
    let found = method_search(ix, seq![class], method, Set::empty());
    assert(typed_hits(ix, t, at) == Some(found));
    let shown = locations_of(stable_sorted(hit_order(current), found));
    lemma_shown(current, found, first);
    lemma_shown(current, found, loc);
    assert(shown.contains(first));
}

} // verus!
