//! The outline of a document, and searching the workspace for symbols.

use vstd::prelude::*;

use crate::definition::{name_range, range_of_name};
use crate::extract::{symbol_views, Sym, Symbol, SymbolKind};
use crate::index::{file_symbols, hit_views, hits, DocumentIndex, Hit, IndexModel, Want};
use crate::protocol::{narrow, Position, TextRange};
use crate::text::{chars_of, copy, fold_case, folded, opt_text, same};
use crate::uri::{from_path, path_uri, to_path, uri_path};

verus! {

/// What the editor shows a symbol as.
#[derive(Debug, Clone, Copy, PartialEq, Eq, Structural)]
pub enum OutlineKind {
    Class,
    Module,
    Struct,
    Enum,
    Method,
    Function,
    Constant,
    TypeParameter,
    Field,
}

/// What a kind of symbol is shown as.
pub open spec fn outline_kind(kind: SymbolKind) -> OutlineKind {
    match kind {
        SymbolKind::Class => OutlineKind::Class,
        SymbolKind::Module => OutlineKind::Module,
        SymbolKind::Struct => OutlineKind::Struct,
        SymbolKind::Enum => OutlineKind::Enum,
        SymbolKind::Lib => OutlineKind::Module,
        SymbolKind::Method => OutlineKind::Method,
        SymbolKind::Macro => OutlineKind::Function,
        SymbolKind::Function => OutlineKind::Function,
        SymbolKind::Constant => OutlineKind::Constant,
        SymbolKind::Type => OutlineKind::TypeParameter,
        SymbolKind::Field => OutlineKind::Field,
    }
}

/// Tells what a kind of symbol is shown as.
pub fn to_lsp_symbol_kind(kind: SymbolKind) -> (r: OutlineKind)
    ensures
        r == outline_kind(kind),
{
    match kind {
        SymbolKind::Class => OutlineKind::Class,
        SymbolKind::Module => OutlineKind::Module,
        SymbolKind::Struct => OutlineKind::Struct,
        SymbolKind::Enum => OutlineKind::Enum,
        SymbolKind::Lib => OutlineKind::Module,
        SymbolKind::Method => OutlineKind::Method,
        SymbolKind::Macro => OutlineKind::Function,
        SymbolKind::Function => OutlineKind::Function,
        SymbolKind::Constant => OutlineKind::Constant,
        SymbolKind::Type => OutlineKind::TypeParameter,
        SymbolKind::Field => OutlineKind::Field,
    }
}

/// Where a definition stands as a whole.
pub open spec fn whole_range(s: Sym) -> TextRange {
    TextRange {
        start: Position { line: s.def_start_line as u32, character: s.def_start_col as u32 },
        end: Position { line: s.def_end_line as u32, character: s.def_end_col as u32 },
    }
}

/// The range of a whole definition.
pub fn def_range(s: &Symbol) -> (r: TextRange)
    ensures
        r == whole_range(s@),
{
    TextRange {
        start: Position { line: narrow(s.def_start_line), character: narrow(s.def_start_col) },
        end: Position { line: narrow(s.def_end_line), character: narrow(s.def_end_col) },
    }
}

// ---------------------------------------------------------------------------
// Outline
// ---------------------------------------------------------------------------

/// A symbol in the outline of a document, with the symbols inside it.
#[derive(Debug)]
pub struct DocumentSymbol {
    pub name: String,
    pub kind: OutlineKind,
    /// The whole definition.
    pub range: TextRange,
    /// The name.
    pub selection_range: TextRange,
    pub children: Vec<DocumentSymbol>,
}

/// The model of a [`DocumentSymbol`].
#[verifier::ext_equal]
pub struct Outline {
    pub name: Seq<char>,
    pub kind: OutlineKind,
    pub range: TextRange,
    pub selection_range: TextRange,
    pub children: Seq<Outline>,
}

impl DocumentSymbol {
    /// The outline that this symbol stands for.
    pub open spec fn model(self) -> Outline
        decreases self,
    {
        Outline {
            name: self.name@,
            kind: self.kind,
            range: self.range,
            selection_range: self.selection_range,
            children: Seq::new(
                self.children@.len(),
                |i: int|
                    if 0 <= i < self.children@.len() {
                        self.children@[i].model()
                    } else {
                        arbitrary()
                    },
            ),
        }
    }
}

impl View for DocumentSymbol {
    type V = Outline;

    open spec fn view(&self) -> Outline {
        self.model()
    }
}

/// The models of several outlines.
pub open spec fn outline_views(s: Seq<DocumentSymbol>) -> Seq<Outline> {
    Seq::new(s.len(), |i: int| s[i]@)
}

/// Whether the symbols inside those called `name` nest at most `d` deep.
pub open spec fn nests(symbols: Seq<Sym>, name: Seq<char>, d: nat) -> bool
    decreases d,
{
    forall|i: int|
        0 <= i < symbols.len() && (#[trigger] symbols[i]).parent == Some(name) ==> d > 0 && nests(
            symbols,
            symbols[i].name,
            (d - 1) as nat,
        )
}

/// Whether the symbols that are inside no other nest at most `d` deep.
pub open spec fn nests_all(symbols: Seq<Sym>, d: nat) -> bool {
    forall|i: int|
        0 <= i < symbols.len() && (#[trigger] symbols[i]).parent is None ==> nests(
            symbols,
            symbols[i].name,
            d,
        )
}

/// Whether the nesting of symbols comes to an end. Symbols are put inside those that have the name
/// of their parent, so that a class inside a class of its own name would go on forever.
pub open spec fn nesting_ends(symbols: Seq<Sym>) -> bool {
    exists|d: nat| nests_all(symbols, d)
}

/// The first `n` of `symbols` that are inside those called `name`.
pub open spec fn symbols_inside(symbols: Seq<Sym>, name: Seq<char>, n: int) -> Seq<Sym>
    decreases n,
{
    if n <= 0 || n > symbols.len() {
        Seq::empty()
    } else if symbols[n - 1].parent == Some(name) {
        symbols_inside(symbols, name, n - 1).push(symbols[n - 1])
    } else {
        symbols_inside(symbols, name, n - 1)
    }
}

/// The outline of the symbol `s`, `d` levels deep.
pub open spec fn outline(symbols: Seq<Sym>, s: Sym, d: nat) -> Outline
    decreases d,
{
    let inside = symbols_inside(symbols, s.name, symbols.len() as int);
    Outline {
        name: s.name,
        kind: outline_kind(s.kind),
        range: whole_range(s),
        selection_range: name_range(s),
        children: if d == 0 {
            Seq::empty()
        } else {
            Seq::new(inside.len(), |i: int| outline(symbols, inside[i], (d - 1) as nat))
        },
    }
}

/// The outlines of the first `n` symbols that are inside no other, `d` levels deep.
pub open spec fn outlines(symbols: Seq<Sym>, n: int, d: nat) -> Seq<Outline>
    decreases n,
{
    if n <= 0 || n > symbols.len() {
        Seq::empty()
    } else if symbols[n - 1].parent is None {
        outlines(symbols, n - 1, d).push(outline(symbols, symbols[n - 1], d))
    } else {
        outlines(symbols, n - 1, d)
    }
}

/// The outline of a document: the symbols that are inside no other, in the order of the document,
/// as deep as they nest.
pub open spec fn document_outline(symbols: Seq<Sym>) -> Seq<Outline> {
    outlines(symbols, symbols.len() as int, choose|d: nat| nests_all(symbols, d))
}

proof fn lemma_nests_deeper(symbols: Seq<Sym>, name: Seq<char>, d: nat, e: nat)
    requires
        nests(symbols, name, d),
        d <= e,
    ensures
        nests(symbols, name, e),
    decreases d,
{
    assert forall|i: int| 0 <= i < symbols.len() && (#[trigger] symbols[i]).parent == Some(
        name,
    ) implies e > 0 && nests(symbols, symbols[i].name, (e - 1) as nat) by {
        lemma_nests_deeper(symbols, symbols[i].name, (d - 1) as nat, (e - 1) as nat);
    }
}

proof fn lemma_inside(symbols: Seq<Sym>, name: Seq<char>, n: int)
    requires
        0 <= n <= symbols.len(),
    ensures
        forall|k: int|
            0 <= k < symbols_inside(symbols, name, n).len() ==> (#[trigger] symbols_inside(
                symbols,
                name,
                n,
            )[k]).parent == Some(name) && symbols.contains(symbols_inside(symbols, name, n)[k]),
    decreases n,
{
    if n > 0 {
        lemma_inside(symbols, name, n - 1);
    }
}

/// Where the nesting of a symbol ends, its outline is the same to every depth that reaches the end.
pub proof fn lemma_outline_depth(symbols: Seq<Sym>, s: Sym, d: nat, e: nat)
    requires
        nests(symbols, s.name, d),
        nests(symbols, s.name, e),
    ensures
        outline(symbols, s, d) == outline(symbols, s, e),
    decreases d,
{
    let n = symbols.len() as int;
    let inside = symbols_inside(symbols, s.name, n);
    lemma_inside(symbols, s.name, n);
    if inside.len() > 0 {
        assert(inside[0].parent == Some(s.name));
        let i = choose|i: int| 0 <= i < symbols.len() && symbols[i] == inside[0];
        assert(symbols[i].parent == Some(s.name));
        assert(d > 0 && e > 0);
        assert forall|k: int| 0 <= k < inside.len() implies outline(
            symbols,
            #[trigger] inside[k],
            (d - 1) as nat,
        ) == outline(symbols, inside[k], (e - 1) as nat) by {
            let j = choose|j: int| 0 <= j < symbols.len() && symbols[j] == inside[k];
            assert(symbols[j].parent == Some(s.name));
            lemma_outline_depth(symbols, inside[k], (d - 1) as nat, (e - 1) as nat);
        }
        assert(outline(symbols, s, d).children =~= outline(symbols, s, e).children);
    } else {
        assert(outline(symbols, s, d).children =~= Seq::empty());
        assert(outline(symbols, s, e).children =~= Seq::empty());
    }
}

proof fn lemma_outlines_depth(symbols: Seq<Sym>, n: int, d: nat, e: nat)
    requires
        nests_all(symbols, d),
        nests_all(symbols, e),
        0 <= n <= symbols.len(),
    ensures
        outlines(symbols, n, d) == outlines(symbols, n, e),
    decreases n,
{
    if n > 0 {
        lemma_outlines_depth(symbols, n - 1, d, e);
        if symbols[n - 1].parent is None {
            lemma_outline_depth(symbols, symbols[n - 1], d, e);
        }
    }
}

/// The outline of a document is the same to every depth that its symbols do not nest beyond.
pub proof fn lemma_document_outline(symbols: Seq<Sym>, d: nat)
    requires
        nests_all(symbols, d),
    ensures
        document_outline(symbols) == outlines(symbols, symbols.len() as int, d),
{
    let e = choose|e: nat| nests_all(symbols, e);
    lemma_outlines_depth(symbols, symbols.len() as int, e, d);
}

fn is_inside(s: &Symbol, name: &str) -> (r: bool)
    ensures
        r == (s@.parent == Some(name@)),
{
    match &s.parent {
        Some(p) => same(p, name),
        None => false,
    }
}

/// Makes the outline of a symbol.
fn symbol_to_doc_symbol(symbols: &Vec<Symbol>, i: usize, Ghost(d): Ghost<nat>) -> (r:
    DocumentSymbol)
    requires
        i < symbols@.len(),
        nests(symbol_views(symbols@), symbols@[i as int]@.name, d),
    ensures
        r@ == outline(symbol_views(symbols@), symbols@[i as int]@, d),
    decreases d,
{
    let ghost all = symbol_views(symbols@);
    let sym = &symbols[i];
    let mut children: Vec<DocumentSymbol> = Vec::new();
    let mut j: usize = 0;
    assert(outline_views(children@) =~= Seq::empty());
    while j < symbols.len()
        invariant
            j <= symbols@.len(),
            all == symbol_views(symbols@),
            sym == symbols@[i as int],
            nests(all, sym.name@, d),
            children@.len() == symbols_inside(all, sym.name@, j as int).len(),
            children@.len() > 0 ==> d > 0,
            forall|k: int|
                0 <= k < children@.len() ==> (#[trigger] children@[k])@ == outline(
                    all,
                    symbols_inside(all, sym.name@, j as int)[k],
                    (d - 1) as nat,
                ),
        decreases symbols@.len() - j,
    {
        assert(all[j as int] == symbols@[j as int]@);
        if is_inside(&symbols[j], &sym.name) {
            assert(d > 0);
            let child = symbol_to_doc_symbol(symbols, j, Ghost((d - 1) as nat));
            children.push(child);
        }
        j = j + 1;
    }
    let r = DocumentSymbol {
        name: copy(&sym.name),
        kind: to_lsp_symbol_kind(sym.kind),
        range: def_range(sym),
        selection_range: range_of_name(sym),
        children,
    };
    proof {
        reveal_with_fuel(DocumentSymbol::model, 2);
        assert(r@.children =~= outline(all, sym@, d).children);
    }
    r
}

/// Builds the outline of a document from its symbols.
pub fn build_symbol_tree(symbols: &Vec<Symbol>) -> (r: Vec<DocumentSymbol>)
    requires
        nesting_ends(symbol_views(symbols@)),
    ensures
        outline_views(r@) == document_outline(symbol_views(symbols@)),
{
    let ghost all = symbol_views(symbols@);
    let ghost d = choose|d: nat| nests_all(all, d);
    let mut roots: Vec<DocumentSymbol> = Vec::new();
    let mut i: usize = 0;
    assert(outline_views(roots@) =~= Seq::empty());
    while i < symbols.len()
        invariant
            i <= symbols@.len(),
            all == symbol_views(symbols@),
            nests_all(all, d),
            outline_views(roots@) == outlines(all, i as int, d),
        decreases symbols@.len() - i,
    {
        let ghost before = outline_views(roots@);
        assert(all[i as int] == symbols@[i as int]@);
        if symbols[i].parent.is_none() {
            let root = symbol_to_doc_symbol(symbols, i, Ghost(d));
            roots.push(root);
            assert(outline_views(roots@) =~= before.push(root@));
        }
        i = i + 1;
    }
    roots
}

/// Which symbols are called so that what is inside them nests at most `d` deep.
spec fn bounded(symbols: Seq<Sym>, d: nat) -> Seq<bool> {
    Seq::new(symbols.len(), |i: int| nests(symbols, symbols[i].name, d))
}

/// How many of the first `n` are not bounded.
spec fn unbounded_count(marks: Seq<bool>, n: int) -> nat
    decreases n,
{
    if n <= 0 || n > marks.len() {
        0
    } else {
        unbounded_count(marks, n - 1) + if marks[n - 1] {
            0nat
        } else {
            1nat
        }
    }
}

proof fn lemma_fewer_unbounded(a: Seq<bool>, b: Seq<bool>, n: int)
    requires
        a.len() == b.len(),
        0 <= n <= a.len(),
        forall|i: int| 0 <= i < a.len() && #[trigger] a[i] ==> b[i],
    ensures
        unbounded_count(b, n) <= unbounded_count(a, n),
        (exists|i: int| 0 <= i < n && #[trigger] a[i] != b[i]) ==> unbounded_count(b, n)
            < unbounded_count(a, n),
    decreases n,
{
    if n > 0 {
        lemma_fewer_unbounded(a, b, n - 1);
        if exists|i: int| 0 <= i < n && #[trigger] a[i] != b[i] {
            let i = choose|i: int| 0 <= i < n && #[trigger] a[i] != b[i];
            if i < n - 1 {
                assert(exists|i: int| 0 <= i < n - 1 && #[trigger] a[i] != b[i]);
            }
        }
        assert(a[n - 1] ==> b[n - 1]);
    }
}

proof fn lemma_bounded_stays(symbols: Seq<Sym>, d: nat, e: nat)
    requires
        bounded(symbols, d) == bounded(symbols, d + 1),
        d <= e,
    ensures
        bounded(symbols, e) == bounded(symbols, d),
    decreases e,
{
    if e > d {
        lemma_bounded_stays(symbols, d, (e - 1) as nat);
        let marks = bounded(symbols, d);
        assert forall|i: int| 0 <= i < symbols.len() implies bounded(symbols, e)[i] == #[trigger] bounded(
            symbols,
            d + 1,
        )[i] by {
            let name = symbols[i].name;
            assert forall|j: int| 0 <= j < symbols.len() implies nests(
                symbols,
                (#[trigger] symbols[j]).name,
                (e - 1) as nat,
            ) == nests(symbols, symbols[j].name, d) by {
                assert(bounded(symbols, (e - 1) as nat)[j] == marks[j]);
            }
            assert(nests(symbols, name, e) == nests(symbols, name, d + 1));
        }
        assert(bounded(symbols, e) =~= bounded(symbols, d + 1));
    }
}

/// Whether all symbols inside those called `name` are marked.
fn all_inside_marked(symbols: &Vec<Symbol>, name: &str, marks: &Vec<bool>, Ghost(d): Ghost<nat>) -> (r:
    bool)
    requires
        marks@ == bounded(symbol_views(symbols@), d),
    ensures
        r == nests(symbol_views(symbols@), name@, d + 1),
{
    let ghost all = symbol_views(symbols@);
    let mut j: usize = 0;
    while j < symbols.len()
        invariant
            j <= symbols@.len(),
            all == symbol_views(symbols@),
            marks@ == bounded(all, d),
            forall|k: int|
                0 <= k < j && (#[trigger] all[k]).parent == Some(name@) ==> nests(
                    all,
                    all[k].name,
                    d,
                ),
        decreases symbols@.len() - j,
    {
        assert(all[j as int] == symbols@[j as int]@);
        assert(marks@[j as int] == nests(all, all[j as int].name, d));
        if is_inside(&symbols[j], name) && !marks[j] {
            assert(all[j as int].parent == Some(name@));
            return false;
        }
        j = j + 1;
    }
    true
}

/// Decides whether the nesting of symbols comes to an end.
pub fn is_nesting_finite(symbols: &Vec<Symbol>) -> (r: bool)
    ensures
        r == nesting_ends(symbol_views(symbols@)),
{
    let ghost all = symbol_views(symbols@);
    let mut marks: Vec<bool> = Vec::new();
    let mut i: usize = 0;
    while i < symbols.len()
        invariant
            i <= symbols@.len(),
            all == symbol_views(symbols@),
            marks@.len() == i,
            forall|k: int| 0 <= k < i ==> #[trigger] marks@[k] == nests(all, all[k].name, 0),
        decreases symbols@.len() - i,
    {
        let mut none = true;
        let mut j: usize = 0;
        while j < symbols.len()
            invariant
                j <= symbols@.len(),
                i < symbols@.len(),
                all == symbol_views(symbols@),
                none == (forall|k: int|
                    0 <= k < j ==> (#[trigger] all[k]).parent != Some(all[i as int].name)),
            decreases symbols@.len() - j,
        {
            assert(all[j as int] == symbols@[j as int]@);
            assert(all[i as int] == symbols@[i as int]@);
            if is_inside(&symbols[j], &symbols[i].name) {
                none = false;
            }
            j = j + 1;
        }
        marks.push(none);
        i = i + 1;
    }
    let ghost mut d: nat = 0;
    assert(marks@ =~= bounded(all, d));
    let mut changed = true;
    while changed
        invariant
            all == symbol_views(symbols@),
            marks@ == bounded(all, d),
            !changed ==> bounded(all, d) == bounded(all, d + 1),
        decreases unbounded_count(marks@, marks@.len() as int) + if changed {
            1nat
        } else {
            0
        },
    {
        let ghost before = marks@;
        let mut next: Vec<bool> = Vec::new();
        changed = false;
        let mut k: usize = 0;
        while k < symbols.len()
            invariant
                k <= symbols@.len(),
                all == symbol_views(symbols@),
                marks@ == before,
                before == bounded(all, d),
                next@.len() == k,
                forall|m: int| 0 <= m < k ==> #[trigger] next@[m] == nests(all, all[m].name, d + 1),
                changed == (exists|m: int| 0 <= m < k && #[trigger] before[m] != next@[m]),
            decreases symbols@.len() - k,
        {
            assert(all[k as int] == symbols@[k as int]@);
            let ghost held = next@;
            let mark = all_inside_marked(symbols, &symbols[k].name, &marks, Ghost(d));
            let differs = mark != marks[k];
            next.push(mark);
            proof {
                if changed {
                    let m = choose|m: int| 0 <= m < k && #[trigger] before[m] != held[m];
                    assert(before[m] != next@[m]);
                }
                if differs {
                    assert(before[k as int] != next@[k as int]);
                }
                if exists|m: int| 0 <= m < k + 1 && #[trigger] before[m] != next@[m] {
                    let m = choose|m: int| 0 <= m < k + 1 && #[trigger] before[m] != next@[m];
                    if m < k {
                        assert(held[m] == next@[m]);
                    }
                }
            }
            changed = changed || differs;
            k = k + 1;
        }
        marks = next;
        proof {
            assert(marks@ =~= bounded(all, d + 1));
            assert forall|m: int| 0 <= m < before.len() && #[trigger] before[m] implies marks@[m] by {
                lemma_nests_deeper(all, all[m].name, d, d + 1);
            }
            lemma_fewer_unbounded(before, marks@, before.len() as int);
            if !changed {
                assert(before =~= marks@);
                lemma_bounded_stays(all, d, d + 2);
            }
            d = d + 1;
        }
    }
    let mut n: usize = 0;
    while n < symbols.len()
        invariant
            n <= symbols@.len(),
            all == symbol_views(symbols@),
            marks@ == bounded(all, d),
            bounded(all, d) == bounded(all, d + 1),
            forall|k: int|
                0 <= k < n && (#[trigger] all[k]).parent is None ==> nests(all, all[k].name, d),
        decreases symbols@.len() - n,
    {
        assert(all[n as int] == symbols@[n as int]@);
        assert(marks@[n as int] == nests(all, all[n as int].name, d));
        if symbols[n].parent.is_none() && !marks[n] {
            proof {
                if nesting_ends(all) {
                    let e = choose|e: nat| nests_all(all, e);
                    assert(nests(all, all[n as int].name, e));
                    if e <= d {
                        lemma_nests_deeper(all, all[n as int].name, e, d);
                    } else {
                        lemma_bounded_stays(all, d, e);
                        assert(bounded(all, e)[n as int] == marks@[n as int]);
                    }
                }
            }
            return false;
        }
        n = n + 1;
    }
    assert(nests_all(all, d));
    true
}

/// The answer to a request for the outline of a document.
pub open spec fn document_symbols(ix: IndexModel, uri: Seq<char>) -> Option<Seq<Outline>> {
    match uri_path(uri) {
        Some(path) => match file_symbols(ix.files, path) {
            Some(symbols) => Some(document_outline(symbols)),
            None => None,
        },
        None => None,
    }
}

/// Whether the symbols of the document `uri` nest to an end.
pub open spec fn outline_exists(ix: IndexModel, uri: Seq<char>) -> bool {
    uri_path(uri) matches Some(path) ==> (file_symbols(ix.files, path) matches Some(symbols)
        ==> nesting_ends(symbols))
}

/// Decides whether the symbols of a document nest to an end.
pub fn has_outline(index: &DocumentIndex, uri: &str) -> (r: bool)
    ensures
        r == outline_exists(index@, uri@),
{
    match to_path(uri) {
        Some(path) => match index.symbols_for_file(&path) {
            Some(symbols) => is_nesting_finite(symbols),
            None => true,
        },
        None => true,
    }
}

/// Answers a request for the outline of a document. There is no answer for a URI that names no
/// file and for a file that is not indexed.
pub fn handle_document_symbols(index: &DocumentIndex, uri: &str) -> (r: Option<
    Vec<DocumentSymbol>,
>)
    requires
        outline_exists(index@, uri@),
    ensures
        match r {
            Some(v) => document_symbols(index@, uri@) == Some(outline_views(v@)),
            None => document_symbols(index@, uri@) is None,
        },
{
    match to_path(uri) {
        Some(path) => match index.symbols_for_file(&path) {
            Some(symbols) => Some(build_symbol_tree(symbols)),
            None => None,
        },
        None => None,
    }
}

// ---------------------------------------------------------------------------
// Searching the workspace
// ---------------------------------------------------------------------------

/// Whether the characters of `query` stand in `name` at the places `at`, in this order and
/// whatever their case.
pub open spec fn stands_at(name: Seq<char>, query: Seq<char>, at: Seq<int>) -> bool {
    &&& at.len() == query.len()
    &&& forall|i: int| 0 <= i < at.len() ==> 0 <= #[trigger] at[i] < name.len()
    &&& forall|i: int, j: int| 0 <= i < j < at.len() ==> #[trigger] at[i] < #[trigger] at[j]
    &&& forall|i: int|
        0 <= i < at.len() ==> folded(name[#[trigger] at[i]]) == folded(query[i])
}

/// Whether every character of `query` appears in `name`, in order and whatever their case.
pub open spec fn fuzzy(name: Seq<char>, query: Seq<char>) -> bool {
    exists|at: Seq<int>| stands_at(name, query, at)
}

proof fn lemma_fuzzy_step(name: Seq<char>, query: Seq<char>)
    requires
        name.len() > 0,
        query.len() > 0,
    ensures
        fuzzy(name, query) == if folded(name[0]) == folded(query[0]) {
            fuzzy(name.skip(1), query.skip(1))
        } else {
            fuzzy(name.skip(1), query)
        },
{
    let rest = name.skip(1);
    if folded(name[0]) == folded(query[0]) {
        let q = query.skip(1);
        if fuzzy(name, query) {
            let at = choose|at: Seq<int>| stands_at(name, query, at);
            let down = Seq::new((at.len() - 1) as nat, |i: int| at[i + 1] - 1);
            assert forall|i: int| 0 <= i < down.len() implies 0 <= #[trigger] down[i] < rest.len()
                && folded(rest[down[i]]) == folded(q[i]) by {
                assert(at[0] < at[i + 1]);
                assert(folded(name[at[i + 1]]) == folded(query[i + 1]));
            }
            assert forall|i: int, j: int| 0 <= i < j < down.len() implies #[trigger] down[i]
                < #[trigger] down[j] by {
                assert(at[i + 1] < at[j + 1]);
            }
            assert(stands_at(rest, q, down));
        }
        if fuzzy(rest, q) {
            let at = choose|at: Seq<int>| stands_at(rest, q, at);
            let up = seq![0int] + at.map_values(|i: int| i + 1);
            assert forall|i: int| 0 <= i < up.len() implies 0 <= #[trigger] up[i] < name.len()
                && folded(name[up[i]]) == folded(query[i]) by {
                if i > 0 {
                    assert(up[i] == at[i - 1] + 1);
                    assert(folded(rest[at[i - 1]]) == folded(q[i - 1]));
                }
            }
            assert forall|i: int, j: int| 0 <= i < j < up.len() implies #[trigger] up[i]
                < #[trigger] up[j] by {
                assert(up[j] == at[j - 1] + 1);
                if i > 0 {
                    assert(up[i] == at[i - 1] + 1);
                    assert(at[i - 1] < at[j - 1]);
                }
            }
            assert(stands_at(name, query, up));
        }
    } else {
        if fuzzy(name, query) {
            let at = choose|at: Seq<int>| stands_at(name, query, at);
            let down = at.map_values(|i: int| i - 1);
            assert(at[0] != 0);
            assert forall|i: int| 0 <= i < down.len() implies 0 <= #[trigger] down[i] < rest.len()
                && folded(rest[down[i]]) == folded(query[i]) by {
                if i > 0 {
                    assert(at[0] < at[i]);
                }
                assert(folded(name[at[i]]) == folded(query[i]));
            }
            assert forall|i: int, j: int| 0 <= i < j < down.len() implies #[trigger] down[i]
                < #[trigger] down[j] by {
                assert(at[i] < at[j]);
            }
            assert(stands_at(rest, query, down));
        }
        if fuzzy(rest, query) {
            let at = choose|at: Seq<int>| stands_at(rest, query, at);
            let up = at.map_values(|i: int| i + 1);
            assert forall|i: int| 0 <= i < up.len() implies 0 <= #[trigger] up[i] < name.len()
                && folded(name[up[i]]) == folded(query[i]) by {
                assert(folded(rest[at[i]]) == folded(query[i]));
            }
            assert forall|i: int, j: int| 0 <= i < j < up.len() implies #[trigger] up[i]
                < #[trigger] up[j] by {
                assert(at[i] < at[j]);
            }
            assert(stands_at(name, query, up));
        }
    }
}

/// Decides whether every character of `query` appears in `name` in order.
pub fn fuzzy_match(name: &str, query: &str) -> (r: bool)
    ensures
        r == fuzzy(name@, query@),
{
    let n = chars_of(name);
    let q = chars_of(query);
    let mut i: usize = 0;
    let mut j: usize = 0;
    assert(n@.skip(0) =~= n@);
    assert(q@.skip(0) =~= q@);
    while j < q.len()
        invariant
            i <= n@.len(),
            j <= q@.len(),
            n@ == name@,
            q@ == query@,
            fuzzy(name@, query@) == fuzzy(n@.skip(i as int), q@.skip(j as int)),
        decreases q@.len() - j + n@.len() - i,
    {
        if i >= n.len() {
            proof {
                if fuzzy(n@.skip(i as int), q@.skip(j as int)) {
                    let at = choose|at: Seq<int>|
                        stands_at(n@.skip(i as int), q@.skip(j as int), at);
                    assert(at.len() == q@.skip(j as int).len());
                    assert(0 <= at[0] < n@.skip(i as int).len());
                }
            }
            return false;
        }
        proof {
            lemma_fuzzy_step(n@.skip(i as int), q@.skip(j as int));
            assert(n@.skip(i as int).skip(1) =~= n@.skip(i + 1));
            assert(q@.skip(j as int).skip(1) =~= q@.skip(j + 1));
        }
        if fold_case(n[i]) == fold_case(q[j]) {
            j = j + 1;
        }
        i = i + 1;
    }
    proof {
        assert(stands_at(n@.skip(i as int), q@.skip(j as int), Seq::empty()));
    }
    true
}

/// A symbol that was found in the workspace.
#[derive(Debug)]
pub struct SymbolInformation {
    pub name: String,
    pub kind: OutlineKind,
    pub uri: String,
    pub range: TextRange,
    /// The name of the class or module that it is inside.
    pub container_name: Option<String>,
}

/// The model of a [`SymbolInformation`].
#[verifier::ext_equal]
pub struct Info {
    pub name: Seq<char>,
    pub kind: OutlineKind,
    pub uri: Seq<char>,
    pub range: TextRange,
    pub container_name: Option<Seq<char>>,
}

impl View for SymbolInformation {
    type V = Info;

    open spec fn view(&self) -> Info {
        Info {
            name: self.name@,
            kind: self.kind,
            uri: self.uri@,
            range: self.range,
            container_name: opt_text(self.container_name),
        }
    }
}

/// The models of several found symbols.
pub open spec fn info_views(s: Seq<SymbolInformation>) -> Seq<Info> {
    Seq::new(s.len(), |i: int| s[i]@)
}

/// How many symbols a search of the workspace gives at most.
pub const MAX_WORKSPACE_RESULTS: usize = 100;

/// How the search for `query` shows the symbol `h`. Fields, symbols that do not match and those of
/// files that have no URI are not shown.
pub open spec fn workspace_info(h: Hit, query: Seq<char>) -> Option<Info> {
    if h.1.kind != SymbolKind::Field && (query.len() == 0 || fuzzy(h.1.name, query)) {
        match path_uri(h.0) {
            Some(uri) => Some(
                Info {
                    name: h.1.name,
                    kind: outline_kind(h.1.kind),
                    uri,
                    range: name_range(h.1),
                    container_name: h.1.parent,
                },
            ),
            None => None,
        }
    } else {
        None
    }
}

/// How the search for `query` shows the symbols `found`.
pub open spec fn workspace_infos(found: Seq<Hit>, query: Seq<char>) -> Seq<Info>
    decreases found.len(),
{
    if found.len() == 0 {
        Seq::empty()
    } else {
        let before = workspace_infos(found.drop_last(), query);
        match workspace_info(found.last(), query) {
            Some(i) => before.push(i),
            None => before,
        }
    }
}

/// The answer to a search of the workspace: the symbols that match, up to
/// [`MAX_WORKSPACE_RESULTS`].
pub open spec fn workspace_symbols(ix: IndexModel, query: Seq<char>) -> Seq<Info> {
    let all = workspace_infos(hits(ix.files, Want::All), query);
    if all.len() > MAX_WORKSPACE_RESULTS {
        all.take(MAX_WORKSPACE_RESULTS as int)
    } else {
        all
    }
}

fn make_info(path: &str, sym: &Symbol, query: &str) -> (r: Option<SymbolInformation>)
    ensures
        match r {
            Some(i) => workspace_info((path@, sym@), query@) == Some(i@),
            None => workspace_info((path@, sym@), query@) is None,
        },
{
    if sym.kind != SymbolKind::Field && (chars_of(query).len() == 0 || fuzzy_match(&sym.name, query)) {
        match from_path(path) {
            Some(uri) => {
                let container_name = match &sym.parent {
                    Some(p) => Some(copy(p)),
                    None => None,
                };
                Some(
                    SymbolInformation {
                        name: copy(&sym.name),
                        kind: to_lsp_symbol_kind(sym.kind),
                        uri,
                        range: range_of_name(sym),
                        container_name,
                    },
                )
            },
            None => None,
        }
    } else {
        None
    }
}

/// Answers a search of the workspace.
pub fn handle_workspace_symbols(index: &DocumentIndex, query: &str) -> (r: Vec<SymbolInformation>)
    ensures
        info_views(r@) == workspace_symbols(index@, query@),
{
    let found = index.all_symbols();
    let ghost all = hit_views(found@);
    let mut out: Vec<SymbolInformation> = Vec::new();
    let mut i: usize = 0;
    assert(all.take(0) =~= Seq::empty());
    assert(info_views(out@) =~= Seq::empty());
    while i < found.len()
        invariant
            i <= found@.len(),
            all == hit_views(found@),
            info_views(out@) == workspace_infos(all.take(i as int), query@),
        decreases found@.len() - i,
    {
        let ghost before = info_views(out@);
        assert(all.take(i + 1).drop_last() =~= all.take(i as int));
        if let Some(info) = make_info(found[i].0, found[i].1, query) {
            out.push(info);
            assert(info_views(out@) =~= before.push(info@));
        }
        i = i + 1;
    }
    assert(all.take(i as int) =~= all);
    let ghost infos = info_views(out@);
    if out.len() > MAX_WORKSPACE_RESULTS {
        out.truncate(MAX_WORKSPACE_RESULTS);
        assert(info_views(out@) =~= infos.take(MAX_WORKSPACE_RESULTS as int));
    }
    out
}

} // verus!
