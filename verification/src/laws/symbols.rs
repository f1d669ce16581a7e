//! What the outline and a search of the workspace show.

use vstd::prelude::*;

use crate::extract::{Sym, SymbolKind};
use crate::index::{hits, Hit, IndexModel, Want};
use crate::laws::definition::points_at;
use crate::laws::index::{defines, lemma_found_all};
use crate::symbols::{
    document_outline, fuzzy, lemma_document_outline, nests, nests_all, outline,
    outlines, symbols_inside, workspace_info, workspace_infos, workspace_symbols, Info, Outline,
    OutlineKind,
};
use crate::text::folded;

verus! {

/// Whether a symbol of the kind `kind` is shown in an outline as `shown`.
pub open spec fn outlined_as(kind: SymbolKind, shown: OutlineKind) -> bool {
    ||| kind == SymbolKind::Class && shown == OutlineKind::Class
    ||| kind == SymbolKind::Module && shown == OutlineKind::Module
    ||| kind == SymbolKind::Struct && shown == OutlineKind::Struct
    ||| kind == SymbolKind::Enum && shown == OutlineKind::Enum
    ||| kind == SymbolKind::Lib && shown == OutlineKind::Module
    ||| kind == SymbolKind::Method && shown == OutlineKind::Method
    ||| kind == SymbolKind::Macro && shown == OutlineKind::Function
    ||| kind == SymbolKind::Function && shown == OutlineKind::Function
    ||| kind == SymbolKind::Constant && shown == OutlineKind::Constant
    ||| kind == SymbolKind::Type && shown == OutlineKind::TypeParameter
    ||| kind == SymbolKind::Field && shown == OutlineKind::Field
}

// ---------------------------------------------------------------------------
// Outline
// ---------------------------------------------------------------------------

/// Whether `o` shows the symbol `s`: its name, its kind, where it stands and where its name stands.
pub open spec fn outlines_symbol(o: Outline, s: Sym) -> bool {
    &&& o.name == s.name
    &&& outlined_as(s.kind, o.kind)
    &&& o.range.start.line == s.def_start_line as u32
    &&& o.range.start.character == s.def_start_col as u32
    &&& o.range.end.line == s.def_end_line as u32
    &&& o.range.end.character == s.def_end_col as u32
    &&& o.selection_range.start.line == s.start_line as u32
    &&& o.selection_range.start.character == s.start_col as u32
    &&& o.selection_range.end.line == s.end_line as u32
    &&& o.selection_range.end.character == s.end_col as u32
}

proof fn lemma_inside_exactly(symbols: Seq<Sym>, name: Seq<char>, n: int, x: Sym)
    requires
        0 <= n <= symbols.len(),
    ensures
        symbols_inside(symbols, name, n).contains(x) <==> x.parent == Some(name) && symbols.take(
            n,
        ).contains(x),
    decreases n,
{
    if n > 0 {
        let last = symbols[n - 1];
        let front = symbols_inside(symbols, name, n - 1);
        lemma_inside_exactly(symbols, name, n - 1, x);
        assert(symbols.take(n) =~= symbols.take(n - 1) + seq![last]);
        crate::require_glob::lemma_sum_contains(symbols.take(n - 1), seq![last], x);
        crate::require_glob::lemma_sum_contains(front, seq![last], x);
        assert(front.push(last) =~= front + seq![last]);
        assert(seq![last].contains(x) <==> x == last) by {
            assert(seq![last][0] == last);
        }
    }
}

/// Whether `o` is the outline of a symbol that has `s` as its parent.
pub open spec fn outlines_child(symbols: Seq<Sym>, s: Sym, o: Outline, d: nat) -> bool {
    exists|y: Sym| #[trigger]
        symbols.contains(y) && y.parent == Some(s.name) && o == outline(symbols, y, d)
}

/// A symbol is shown in the outline as what it is, and under it exactly the symbols that have it as
/// their parent.
pub proof fn lemma_outline_of_symbol(symbols: Seq<Sym>, s: Sym, d: nat, x: Sym)
    requires
        nests(symbols, s.name, d),
    ensures
        outlines_symbol(outline(symbols, s, d), s),
        symbols.contains(x) && x.parent == Some(s.name) ==> d > 0 && outline(
            symbols,
            s,
            d,
        ).children.contains(outline(symbols, x, (d - 1) as nat)),
        forall|k: int|
            0 <= k < outline(symbols, s, d).children.len() ==> outlines_child(
                symbols,
                s,
                #[trigger] outline(symbols, s, d).children[k],
                (d - 1) as nat,
            ),
{
    let n = symbols.len() as int;
    let inside = symbols_inside(symbols, s.name, n);
    let children = outline(symbols, s, d).children;
    assert(symbols.take(n) =~= symbols);
    lemma_inside_exactly(symbols, s.name, n, x);
    if symbols.contains(x) && x.parent == Some(s.name) {
        let i = choose|i: int| 0 <= i < symbols.len() && symbols[i] == x;
        assert(symbols[i].parent == Some(s.name));
        let k = choose|k: int| 0 <= k < inside.len() && inside[k] == x;
        assert(children[k] == outline(symbols, x, (d - 1) as nat));
    }
    assert forall|k: int| 0 <= k < children.len() implies outlines_child(
        symbols,
        s,
        #[trigger] children[k],
        (d - 1) as nat,
    ) by {
        let y = inside[k];
        assert(inside.contains(y));
        lemma_inside_exactly(symbols, s.name, n, y);
        assert(symbols.contains(y));
    }
}

proof fn lemma_roots(symbols: Seq<Sym>, n: int, d: nat, o: Outline)
    requires
        0 <= n <= symbols.len(),
    ensures
        outlines(symbols, n, d).contains(o) <==> exists|i: int|
            0 <= i < n && (#[trigger] symbols[i]).parent is None && o == outline(
                symbols,
                symbols[i],
                d,
            ),
    decreases n,
{
    if n > 0 {
        let last = symbols[n - 1];
        let front = outlines(symbols, n - 1, d);
        lemma_roots(symbols, n - 1, d, o);
        let added = outline(symbols, last, d);
        crate::require_glob::lemma_sum_contains(front, seq![added], o);
        assert(front.push(added) =~= front + seq![added]);
        assert(seq![added].contains(o) <==> o == added) by {
            assert(seq![added][0] == added);
        }
    }
}

/// The outline of a document starts with exactly the symbols that have no parent.
pub proof fn lemma_outline_roots(symbols: Seq<Sym>, d: nat, o: Outline)
    requires
        nests_all(symbols, d),
    ensures
        document_outline(symbols).contains(o) <==> exists|i: int|
            0 <= i < symbols.len() && (#[trigger] symbols[i]).parent is None && o == outline(
                symbols,
                symbols[i],
                d,
            ),
{
    lemma_document_outline(symbols, d);
    lemma_roots(symbols, symbols.len() as int, d, o);
}

proof fn lemma_outlines_grow(symbols: Seq<Sym>, m: int, n: int, d: nat)
    requires
        0 <= m <= n <= symbols.len(),
    ensures
        outlines(symbols, m, d).is_prefix_of(outlines(symbols, n, d)),
    decreases n - m,
{
    if m < n {
        lemma_outlines_grow(symbols, m, n - 1, d);
        let a = outlines(symbols, m, d);
        let b = outlines(symbols, n - 1, d);
        let c = outlines(symbols, n, d);
        assert(c.take(a.len() as int) =~= b.take(a.len() as int));
    } else {
        assert(outlines(symbols, m, d).take(outlines(symbols, m, d).len() as int) =~= outlines(
            symbols,
            m,
            d,
        ));
    }
}

/// The outline keeps the order of the document: of two symbols without a parent the one that comes
/// first is shown first.
pub proof fn lemma_outline_in_order(symbols: Seq<Sym>, d: nat, i: int, j: int) -> (at: (int, int))
    requires
        nests_all(symbols, d),
        0 <= i < j < symbols.len(),
        symbols[i].parent is None,
        symbols[j].parent is None,
    ensures
        0 <= at.0 < at.1 < document_outline(symbols).len(),
        document_outline(symbols)[at.0] == outline(symbols, symbols[i], d),
        document_outline(symbols)[at.1] == outline(symbols, symbols[j], d),
{
    let n = symbols.len() as int;
    let all = outlines(symbols, n, d);
    let one = outlines(symbols, i + 1, d);
    let two = outlines(symbols, j + 1, d);
    lemma_document_outline(symbols, d);
    lemma_outlines_grow(symbols, i + 1, j, d);
    lemma_outlines_grow(symbols, i + 1, n, d);
    lemma_outlines_grow(symbols, j + 1, n, d);
    let a = one.len() - 1;
    let b = two.len() - 1;
    assert(all.take(one.len() as int)[a] == all[a]);
    assert(all.take(two.len() as int)[b] == all[b]);
    assert(one.len() <= outlines(symbols, j, d).len());
    (a, b)
}

/// The symbols inside another are shown in the order of the document too: one more symbol is shown
/// behind those before it.
pub proof fn lemma_inside_in_order(symbols: Seq<Sym>, name: Seq<char>, n: int)
    requires
        0 <= n < symbols.len(),
    ensures
        symbols_inside(symbols, name, n + 1) == if symbols[n].parent == Some(name) {
            symbols_inside(symbols, name, n).push(symbols[n])
        } else {
            symbols_inside(symbols, name, n)
        },
{
}

// ---------------------------------------------------------------------------
// Searching the workspace
// ---------------------------------------------------------------------------

/// Whether `i` shows the symbol `s` of the file `path`.
pub open spec fn informs_of(i: Info, path: Seq<char>, s: Sym) -> bool {
    &&& i.name == s.name
    &&& outlined_as(s.kind, i.kind)
    &&& points_at((i.uri, i.range), path, s)
    &&& i.container_name == s.parent
}

/// Whether the search for `query` is for symbols such as `s`: it is no field, and the characters of
/// the query stand in its name in their order.
pub open spec fn searched_for(s: Sym, query: Seq<char>) -> bool {
    s.kind != SymbolKind::Field && fuzzy(s.name, query)
}

proof fn lemma_info(h: Hit, query: Seq<char>, i: Info)
    ensures
        workspace_info(h, query) == Some(i) <==> searched_for(h.1, query) && informs_of(i, h.0, h.1),
{
    if query.len() == 0 {
        assert(crate::symbols::stands_at(h.1.name, query, Seq::<int>::empty()));
    }
    if let Some(uri) = crate::uri::path_uri(h.0) {
        if informs_of(i, h.0, h.1) && searched_for(h.1, query) {
            assert(i.range == crate::definition::name_range(h.1));
            assert(workspace_info(h, query)->0 =~= i);
        }
    }
}

proof fn lemma_infos(found: Seq<Hit>, query: Seq<char>, i: Info)
    ensures
        workspace_infos(found, query).contains(i) <==> exists|k: int|
            0 <= k < found.len() && searched_for((#[trigger] found[k]).1, query) && informs_of(
                i,
                found[k].0,
                found[k].1,
            ),
    decreases found.len(),
{
    if found.len() > 0 {
        let front = found.drop_last();
        let last = found.last();
        let before = workspace_infos(front, query);
        lemma_infos(front, query, i);
        lemma_info(last, query, i);
        assert(forall|k: int| 0 <= k < front.len() ==> #[trigger] front[k] == found[k]);
        assert(found[found.len() - 1] == last);
        if let Some(x) = workspace_info(last, query) {
            crate::require_glob::lemma_sum_contains(before, seq![x], i);
            assert(before.push(x) =~= before + seq![x]);
            assert(seq![x].contains(i) <==> i == x) by {
                assert(seq![x][0] == x);
            }
        }
        if before.contains(i) {
            let k = choose|k: int|
                0 <= k < front.len() && searched_for((#[trigger] front[k]).1, query) && informs_of(
                    i,
                    front[k].0,
                    front[k].1,
                );
            assert(searched_for(found[k].1, query));
        }
        if exists|k: int|
            0 <= k < found.len() && searched_for((#[trigger] found[k]).1, query) && informs_of(
                i,
                found[k].0,
                found[k].1,
            ) {
            let k = choose|k: int|
                0 <= k < found.len() && searched_for((#[trigger] found[k]).1, query) && informs_of(
                    i,
                    found[k].0,
                    found[k].1,
                );
            if k < front.len() {
                assert(searched_for(front[k].1, query));
            }
        }
    }
}

/// A search shows every symbol that it is for and that is in a file with a URI, unless there are too
/// many; it shows nothing else, and no more than its limit.
pub proof fn lemma_search_shows(ix: IndexModel, query: Seq<char>, i: Info)
    ensures
        workspace_symbols(ix, query).len() <= 100,
        workspace_symbols(ix, query).contains(i) ==> exists|path: Seq<char>, s: Sym| #[trigger]
            defines(ix, path, s) && searched_for(s, query) && informs_of(i, path, s),
        workspace_symbols(ix, query).len() < 100 && (exists|path: Seq<char>, s: Sym| #[trigger]
            defines(ix, path, s) && searched_for(s, query) && informs_of(i, path, s))
            ==> workspace_symbols(ix, query).contains(i),
{
    let found = hits(ix.files, Want::All);
    let all = workspace_infos(found, query);
    let shown = workspace_symbols(ix, query);
    lemma_infos(found, query, i);
    if shown.contains(i) {
        let k = choose|k: int| 0 <= k < shown.len() && shown[k] == i;
        assert(all[k] == i);
        let j = choose|j: int|
            0 <= j < found.len() && searched_for((#[trigger] found[j]).1, query) && informs_of(
                i,
                found[j].0,
                found[j].1,
            );
        assert(found.contains(found[j]));
        lemma_found_all(ix, found[j].0, found[j].1);
        assert(defines(ix, found[j].0, found[j].1));
    }
    if exists|path: Seq<char>, s: Sym| #[trigger]
        defines(ix, path, s) && searched_for(s, query) && informs_of(i, path, s) {
        let (path, s) = choose|path: Seq<char>, s: Sym| #[trigger]
            defines(ix, path, s) && searched_for(s, query) && informs_of(i, path, s);
        lemma_found_all(ix, path, s);
        let j = choose|j: int| 0 <= j < found.len() && found[j] == (path, s);
        assert(searched_for(found[j].1, query));
    }
}

/// A name is found by every start of it.
pub proof fn lemma_fuzzy_prefix(name: Seq<char>, n: int)
    requires
        0 <= n <= name.len(),
    ensures
        fuzzy(name, name.take(n)),
{
    let at = Seq::new(n as nat, |i: int| i);
    assert(crate::symbols::stands_at(name, name.take(n), at));
}

/// The case of ASCII letters makes no difference to a search.
pub proof fn lemma_fuzzy_ignores_case(name: Seq<char>, query: Seq<char>, other: Seq<char>)
    requires
        query.len() == other.len(),
        forall|i: int|
            0 <= i < query.len() ==> #[trigger] query[i] == other[i] || ('A' <= query[i] <= 'Z'
                && 'a' <= other[i] <= 'z' && other[i] == (query[i] as u8 + 32) as u8 as char),
        fuzzy(name, query),
    ensures
        fuzzy(name, other),
{
    let at = choose|at: Seq<int>| crate::symbols::stands_at(name, query, at);
    assert forall|i: int| 0 <= i < at.len() implies folded(name[#[trigger] at[i]]) == folded(
        other[i],
    ) by {
        assert(folded(name[at[i]]) == folded(query[i]));
        if query[i] != other[i] {
            assert(folded(query[i]) == other[i]);
            assert(folded(other[i]) == other[i]);
        }
    }
    assert(crate::symbols::stands_at(name, other, at));
}

} // verus!
