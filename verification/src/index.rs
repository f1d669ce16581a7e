//! The index of the definitions in a project.
//!
//! For every file the index holds its symbols; for the project as a whole it holds the class
//! hierarchy and the instance variables of each class.

use vstd::hash_map::StringHashMap;
use vstd::hash_set::StringHashSet;
use vstd::prelude::*;

use crate::paths::{is_same_path, same_path};
use crate::syntax::{
    captures_within, match_views, new_query, accepted_query, parse_and_match, parsed, preorder,
    query_matches, query_text, Capture, SynTree, SyntaxNode,
};
use crate::text::{copy, opt_text, same, texts};

pub use crate::extract::{
    class_entries, entry_views, extract_hierarchy, extract_instance_vars, extract_symbols,
    group_views, ivar_views, match_symbols, symbol_views, with_classes, ClassInfo, ClassModel,
    InstanceVariable, Ivar, IvarGroups, Sym, Symbol, SymbolKind,
};

verus! {

/// A file with its symbols.
#[derive(Debug)]
pub struct FileSymbols {
    pub path: String,
    pub symbols: Vec<Symbol>,
}

/// Parses Crystal source files and keeps the symbols of each.
pub struct DocumentIndex {
    /// The query that finds definitions.
    pub query: tree_sitter::Query,
    pub files: Vec<FileSymbols>,
    /// From the name of a class or module to its place in the hierarchy.
    pub class_hierarchy: StringHashMap<ClassInfo>,
    /// From the name of a class to its instance variables.
    pub instance_vars: StringHashMap<Vec<InstanceVariable>>,
}

/// The model of the files of an index: each with its path and its symbols.
pub type Files = Seq<(Seq<char>, Seq<Sym>)>;

/// A definition that was found: the path of its file and its symbol.
pub type Hit = (Seq<char>, Sym);

/// The model of a [`DocumentIndex`].
#[verifier::ext_equal]
pub struct IndexModel {
    pub query: Seq<char>,
    pub files: Files,
    pub hierarchy: Map<Seq<char>, ClassModel>,
    pub ivars: Map<Seq<char>, Seq<Ivar>>,
}

/// The model of the files of an index.
pub open spec fn file_views(files: Seq<FileSymbols>) -> Files {
    Seq::new(files.len(), |i: int| (files[i].path@, symbol_views(files[i].symbols@)))
}

impl View for DocumentIndex {
    type V = IndexModel;

    open spec fn view(&self) -> IndexModel {
        IndexModel {
            query: query_text(self.query),
            files: file_views(self.files@),
            hierarchy: self.class_hierarchy@.map_values(|c: ClassInfo| c@),
            ivars: self.instance_vars@.map_values(|v: Vec<InstanceVariable>| ivar_views(v@)),
        }
    }
}

impl IndexModel {
    /// No file is there twice, and the hierarchy is finite.
    pub open spec fn wf(self) -> bool {
        &&& forall|i: int, j: int|
            0 <= i < j < self.files.len() ==> !same_path(
                (#[trigger] self.files[i]).0,
                (#[trigger] self.files[j]).0,
            )
        &&& self.hierarchy.dom().finite()
    }
}

/// Where the file `path` stands among `files` from `i` on.
pub open spec fn file_from(files: Files, path: Seq<char>, i: int) -> Option<int>
    decreases files.len() - i,
{
    if i < 0 || i >= files.len() {
        None
    } else if same_path(files[i].0, path) {
        Some(i)
    } else {
        file_from(files, path, i + 1)
    }
}

/// Where the file `path` stands among `files`.
pub open spec fn file_index(files: Files, path: Seq<char>) -> Option<int> {
    file_from(files, path, 0)
}

/// The symbols of the file `path`.
pub open spec fn file_symbols(files: Files, path: Seq<char>) -> Option<Seq<Sym>> {
    match file_index(files, path) {
        Some(i) => Some(files[i].1),
        None => None,
    }
}

/// `files` with the symbols of the file `path` replaced.
pub open spec fn with_file(files: Files, path: Seq<char>, symbols: Seq<Sym>) -> Files {
    match file_index(files, path) {
        Some(i) => files.update(i, (files[i].0, symbols)),
        None => files.push((path, symbols)),
    }
}

/// `hierarchy` with the entries put in one after the other.
pub open spec fn with_entries(
    hierarchy: Map<Seq<char>, ClassModel>,
    entries: Seq<(Seq<char>, ClassModel)>,
) -> Map<Seq<char>, ClassModel>
    decreases entries.len(),
{
    if entries.len() == 0 {
        hierarchy
    } else {
        with_entries(hierarchy, entries.drop_last()).insert(entries.last().0, entries.last().1)
    }
}

/// `ivars` with the variables of each class replaced, one group after the other.
pub open spec fn with_groups(
    ivars: Map<Seq<char>, Seq<Ivar>>,
    groups: IvarGroups,
) -> Map<Seq<char>, Seq<Ivar>>
    decreases groups.len(),
{
    if groups.len() == 0 {
        ivars
    } else {
        with_groups(ivars, groups.drop_last()).insert(groups.last().0, groups.last().1)
    }
}

/// The index after the file `path` was read as `tree`, in which the tags query has the matches
/// `matches`.
pub open spec fn with_tree(
    ix: IndexModel,
    path: Seq<char>,
    tree: SynTree,
    matches: Seq<Seq<(Seq<char>, Seq<usize>)>>,
) -> IndexModel {
    IndexModel {
        files: with_file(ix.files, path, match_symbols(tree, matches)),
        hierarchy: with_entries(ix.hierarchy, class_entries(preorder(tree))),
        ivars: with_groups(ix.ivars, with_classes(Seq::empty(), preorder(tree))),
        ..ix
    }
}

/// The index after the file `path` was read with the text `source`. A text that cannot be parsed
/// leaves the file without symbols.
pub open spec fn with_source(ix: IndexModel, path: Seq<char>, source: Seq<char>) -> IndexModel {
    match parsed(source) {
        Some(tree) => with_tree(ix, path, tree, query_matches(ix.query, source)),
        None => IndexModel { files: with_file(ix.files, path, Seq::empty()), ..ix },
    }
}

/// The index after the file `path` was read from disk, where that gave the text `source`.
pub open spec fn with_contents(
    ix: IndexModel,
    path: Seq<char>,
    source: Option<Seq<char>>,
) -> IndexModel {
    match source {
        Some(s) => with_source(ix, path, s),
        None => ix,
    }
}

/// The index after several files were read from disk.
pub open spec fn with_all_contents(
    ix: IndexModel,
    files: Seq<(String, Option<String>)>,
) -> IndexModel
    decreases files.len(),
{
    if files.len() == 0 {
        ix
    } else {
        with_contents(
            with_all_contents(ix, files.drop_last()),
            files.last().0@,
            opt_text(files.last().1),
        )
    }
}

/// Which definitions are looked for.
pub enum Want {
    All,
    /// Those of a name.
    Name(Seq<char>),
    /// Those of a name and a kind.
    Definition(Seq<char>, SymbolKind),
    /// Those inside a class or module.
    Child(Seq<char>),
    /// The methods of a name inside a class or module.
    Method(Seq<char>, Seq<char>),
}

/// Whether the symbol `s` is looked for.
pub open spec fn wanted(w: Want, s: Sym) -> bool {
    match w {
        Want::All => true,
        Want::Name(name) => s.name == name,
        Want::Definition(name, kind) => s.kind == kind && s.name == name,
        Want::Child(parent) => s.parent == Some(parent),
        Want::Method(parent, name) => s.parent == Some(parent) && s.name == name && s.kind
            == SymbolKind::Method,
    }
}

/// The wanted symbols of one file.
pub open spec fn file_hits(path: Seq<char>, symbols: Seq<Sym>, w: Want) -> Seq<Hit>
    decreases symbols.len(),
{
    if symbols.len() == 0 {
        Seq::empty()
    } else {
        let before = file_hits(path, symbols.drop_last(), w);
        if wanted(w, symbols.last()) {
            before.push((path, symbols.last()))
        } else {
            before
        }
    }
}

/// The wanted symbols of several files.
pub open spec fn hits(files: Files, w: Want) -> Seq<Hit>
    decreases files.len(),
{
    if files.len() == 0 {
        Seq::empty()
    } else {
        hits(files.drop_last(), w) + file_hits(files.last().0, files.last().1, w)
    }
}

/// The models of what was found.
pub open spec fn hit_views(s: Seq<(&str, &Symbol)>) -> Seq<Hit> {
    Seq::new(s.len(), |i: int| (s[i].0@, s[i].1@))
}

/// The executable form of [`Want`].
enum Search<'a> {
    All,
    Name(&'a str),
    Definition(&'a str, SymbolKind),
    Child(&'a str),
    Method(&'a str, &'a str),
}

spec fn want_of(q: Search<'_>) -> Want {
    match q {
        Search::All => Want::All,
        Search::Name(name) => Want::Name(name@),
        Search::Definition(name, kind) => Want::Definition(name@, kind),
        Search::Child(parent) => Want::Child(parent@),
        Search::Method(parent, name) => Want::Method(parent@, name@),
    }
}

fn is_inside(s: &Symbol, parent: &str) -> (r: bool)
    ensures
        r == (s@.parent == Some(parent@)),
{
    match &s.parent {
        Some(p) => same(p, parent),
        None => false,
    }
}

fn is_wanted(q: &Search<'_>, s: &Symbol) -> (r: bool)
    ensures
        r == wanted(want_of(*q), s@),
{
    match q {
        Search::All => true,
        Search::Name(name) => same(&s.name, name),
        Search::Definition(name, kind) => s.kind == *kind && same(&s.name, name),
        Search::Child(parent) => is_inside(s, parent),
        Search::Method(parent, name) => is_inside(s, parent) && same(&s.name, name) && s.kind
            == SymbolKind::Method,
    }
}

/// Adds the wanted symbols of one file.
fn collect_file<'a>(file: &'a FileSymbols, q: &Search<'_>, out: &mut Vec<(&'a str, &'a Symbol)>)
    ensures
        hit_views(final(out)@) == hit_views(old(out)@) + file_hits(
            file.path@,
            symbol_views(file.symbols@),
            want_of(*q),
        ),
{
    let ghost start = hit_views(out@);
    let ghost all = symbol_views(file.symbols@);
    let mut i: usize = 0;
    assert(all.take(0) =~= Seq::empty());
    assert(start + file_hits(file.path@, all.take(0), want_of(*q)) =~= start);
    while i < file.symbols.len()
        invariant
            i <= file.symbols@.len(),
            all == symbol_views(file.symbols@),
            hit_views(out@) == start + file_hits(file.path@, all.take(i as int), want_of(*q)),
        decreases file.symbols@.len() - i,
    {
        let ghost before = hit_views(out@);
        let s = &file.symbols[i];
        assert(all[i as int] == s@);
        assert(all.take(i + 1).drop_last() =~= all.take(i as int));
        if is_wanted(q, s) {
            out.push((file.path.as_str(), s));
            assert(hit_views(out@) =~= before.push((file.path@, s@)));
            assert(start + file_hits(file.path@, all.take(i as int), want_of(*q)).push(
                (file.path@, s@),
            ) =~= before.push((file.path@, s@)));
        }
        i = i + 1;
    }
    assert(all.take(i as int) =~= all);
}

// ---------------------------------------------------------------------------
// Inherited methods
// ---------------------------------------------------------------------------

/// The modules and the superclass that the class `class` takes methods from, in the order in which
/// they are asked.
pub open spec fn sources_of(ix: IndexModel, class: Seq<char>) -> Seq<Seq<char>> {
    if ix.hierarchy.contains_key(class) {
        let info = ix.hierarchy[class];
        match info.superclass {
            Some(s) => info.includes.push(s),
            None => info.includes,
        }
    } else {
        Seq::empty()
    }
}

/// Asks the classes `todo` in order for the method `name`: a class that was not asked before gives
/// its own methods of that name, or where it has none what its modules and its superclass give.
pub open spec fn method_search(
    ix: IndexModel,
    todo: Seq<Seq<char>>,
    name: Seq<char>,
    asked: Set<Seq<char>>,
) -> Seq<Hit>
    decreases ix.hierarchy.dom().difference(asked).len(), todo.len(),
    when ix.hierarchy.dom().finite()
{
    if todo.len() == 0 {
        Seq::empty()
    } else {
        let class = todo[0];
        proof {
            if !asked.contains(class) {
                lemma_asked_shrinks(ix.hierarchy.dom(), asked, class);
            }
        }
        if asked.contains(class) {
            method_search(ix, todo.skip(1), name, asked)
        } else {
            let own = hits(ix.files, Want::Method(class, name));
            if own.len() > 0 {
                own
            } else {
                method_search(ix, sources_of(ix, class) + todo.skip(1), name, asked.insert(class))
            }
        }
    }
}

/// Asking one more class leaves fewer classes of the hierarchy to be asked.
pub proof fn lemma_asked_shrinks(dom: Set<Seq<char>>, asked: Set<Seq<char>>, class: Seq<char>)
    requires
        dom.finite(),
        !asked.contains(class),
    ensures
        dom.difference(asked.insert(class)).len() <= dom.difference(asked).len(),
        dom.contains(class) ==> dom.difference(asked.insert(class)).len() < dom.difference(
            asked,
        ).len(),
{
    let a = dom.difference(asked);
    let b = dom.difference(asked.insert(class));
    assert(a.finite());
    assert(b =~= a.remove(class));
}

/// Whether the class `to` gives methods to the class `from` over the steps of `chain`.
pub open spec fn gives_over(
    ix: IndexModel,
    from: Seq<char>,
    to: Seq<char>,
    chain: Seq<Seq<char>>,
) -> bool {
    &&& chain.len() > 0
    &&& chain[0] == from
    &&& chain.last() == to
    &&& forall|i: int|
        0 <= i < chain.len() - 1 ==> sources_of(ix, #[trigger] chain[i]).contains(chain[i + 1])
}

/// Whether methods of the class `to` can be called on the class `from`: the two are the same, or
/// `to` is reached over included modules and superclasses.
pub open spec fn gives_methods(ix: IndexModel, from: Seq<char>, to: Seq<char>) -> bool {
    exists|chain: Seq<Seq<char>>| gives_over(ix, from, to, chain)
}

/// The classes that were asked once a search that found nothing has ended.
spec fn asked_in_vain(
    ix: IndexModel,
    todo: Seq<Seq<char>>,
    asked: Set<Seq<char>>,
) -> Set<Seq<char>>
    decreases ix.hierarchy.dom().difference(asked).len(), todo.len(),
    when ix.hierarchy.dom().finite()
{
    if todo.len() == 0 {
        asked
    } else {
        let class = todo[0];
        proof {
            if !asked.contains(class) {
                lemma_asked_shrinks(ix.hierarchy.dom(), asked, class);
            }
        }
        if asked.contains(class) {
            asked_in_vain(ix, todo.skip(1), asked)
        } else {
            asked_in_vain(ix, sources_of(ix, class) + todo.skip(1), asked.insert(class))
        }
    }
}

proof fn lemma_asked_in_vain(
    ix: IndexModel,
    todo: Seq<Seq<char>>,
    name: Seq<char>,
    asked: Set<Seq<char>>,
)
    requires
        ix.wf(),
        method_search(ix, todo, name, asked).len() == 0,
    ensures
        ({
            let end = asked_in_vain(ix, todo, asked);
            &&& asked.subset_of(end)
            &&& forall|i: int| 0 <= i < todo.len() ==> end.contains(#[trigger] todo[i])
            &&& forall|c: Seq<char>, k: int|
                #![trigger end.contains(c), sources_of(ix, c)[k]]
                end.contains(c) && !asked.contains(c) && 0 <= k < sources_of(ix, c).len()
                    ==> end.contains(sources_of(ix, c)[k])
            &&& forall|c: Seq<char>|
                #[trigger] end.contains(c) && !asked.contains(c) ==> hits(
                    ix.files,
                    Want::Method(c, name),
                ).len() == 0
        }),
    decreases ix.hierarchy.dom().difference(asked).len(), todo.len(),
{
    if todo.len() > 0 {
        let class = todo[0];
        let rest = todo.skip(1);
        if asked.contains(class) {
            lemma_asked_in_vain(ix, rest, name, asked);
            let end = asked_in_vain(ix, todo, asked);
            assert forall|i: int| 0 <= i < todo.len() implies end.contains(#[trigger] todo[i]) by {
                if i > 0 {
                    assert(rest[i - 1] == todo[i]);
                }
            }
        } else {
            lemma_asked_shrinks(ix.hierarchy.dom(), asked, class);
            let next = sources_of(ix, class) + rest;
            lemma_asked_in_vain(ix, next, name, asked.insert(class));
            let end = asked_in_vain(ix, todo, asked);
            assert(end.contains(class));
            assert forall|i: int| 0 <= i < todo.len() implies end.contains(#[trigger] todo[i]) by {
                if i > 0 {
                    assert(next[sources_of(ix, class).len() + i - 1] == todo[i]);
                }
            }
            assert forall|c: Seq<char>, k: int|
                #![trigger end.contains(c), sources_of(ix, c)[k]]
                end.contains(c) && !asked.contains(c) && 0 <= k < sources_of(
                    ix,
                    c,
                ).len() implies end.contains(sources_of(ix, c)[k]) by {
                if c == class {
                    assert(next[k] == sources_of(ix, c)[k]);
                }
            }
        }
    }
}

/// A method search that finds nothing has missed nothing: no class that gives methods to `class`
/// defines a method of that name.
pub proof fn lemma_search_is_complete(
    ix: IndexModel,
    class: Seq<char>,
    name: Seq<char>,
    other: Seq<char>,
)
    requires
        ix.wf(),
        method_search(ix, seq![class], name, Set::empty()).len() == 0,
        gives_methods(ix, class, other),
    ensures
        hits(ix.files, Want::Method(other, name)).len() == 0,
{
    let chain = choose|chain: Seq<Seq<char>>| gives_over(ix, class, other, chain);
    lemma_asked_in_vain(ix, seq![class], name, Set::empty());
    let end = asked_in_vain(ix, seq![class], Set::empty());
    assert(seq![class][0] == class);
    lemma_chain_asked(ix, chain, end, chain.len() - 1);
}

proof fn lemma_chain_asked(
    ix: IndexModel,
    chain: Seq<Seq<char>>,
    end: Set<Seq<char>>,
    i: int,
)
    requires
        0 <= i < chain.len(),
        end.contains(chain[0]),
        forall|i: int|
            0 <= i < chain.len() - 1 ==> sources_of(ix, #[trigger] chain[i]).contains(chain[i + 1]),
        forall|c: Seq<char>, k: int|
            #![trigger end.contains(c), sources_of(ix, c)[k]]
            end.contains(c) && 0 <= k < sources_of(ix, c).len() ==> end.contains(
                sources_of(ix, c)[k],
            ),
    ensures
        end.contains(chain[i]),
    decreases i,
{
    if i > 0 {
        lemma_chain_asked(ix, chain, end, i - 1);
        let c = chain[i - 1];
        assert(sources_of(ix, c).contains(chain[i - 1 + 1]));
        let k = choose|k: int| 0 <= k < sources_of(ix, c).len() && sources_of(ix, c)[k] == chain[i];
        assert(end.contains(sources_of(ix, c)[k]));
    }
}

proof fn lemma_search_source(
    ix: IndexModel,
    from: Seq<char>,
    todo: Seq<Seq<char>>,
    name: Seq<char>,
    asked: Set<Seq<char>>,
)
    requires
        ix.wf(),
        forall|i: int| 0 <= i < todo.len() ==> gives_methods(ix, from, #[trigger] todo[i]),
        method_search(ix, todo, name, asked).len() > 0,
    ensures
        exists|c: Seq<char>| #[trigger]
            gives_methods(ix, from, c) && method_search(ix, todo, name, asked) == hits(
                ix.files,
                Want::Method(c, name),
            ),
    decreases ix.hierarchy.dom().difference(asked).len(), todo.len(),
{
    let class = todo[0];
    let rest = todo.skip(1);
    assert(gives_methods(ix, from, todo[0]));
    if asked.contains(class) {
        assert forall|i: int| 0 <= i < rest.len() implies gives_methods(
            ix,
            from,
            #[trigger] rest[i],
        ) by {
            assert(rest[i] == todo[i + 1]);
        }
        lemma_search_source(ix, from, rest, name, asked);
    } else if hits(ix.files, Want::Method(class, name)).len() == 0 {
        lemma_asked_shrinks(ix.hierarchy.dom(), asked, class);
        let next = sources_of(ix, class) + rest;
        let n = sources_of(ix, class).len();
        assert forall|i: int| 0 <= i < next.len() implies gives_methods(
            ix,
            from,
            #[trigger] next[i],
        ) by {
            if i < n {
                let chain = choose|chain: Seq<Seq<char>>| gives_over(ix, from, class, chain);
                let longer = chain.push(next[i]);
                assert(sources_of(ix, class)[i] == next[i]);
                assert forall|j: int| 0 <= j < longer.len() - 1 implies sources_of(
                    ix,
                    #[trigger] longer[j],
                ).contains(longer[j + 1]) by {
                    if j < chain.len() - 1 {
                        assert(sources_of(ix, chain[j]).contains(chain[j + 1]));
                    }
                }
                assert(gives_over(ix, from, next[i], longer));
            } else {
                assert(next[i] == todo[i - n + 1]);
            }
        }
        lemma_search_source(ix, from, next, name, asked.insert(class));
    }
}

/// What a method search finds are the methods of that name of one class that gives methods to
/// `class`; the class itself goes before all others.
pub proof fn lemma_search_is_sound(ix: IndexModel, class: Seq<char>, name: Seq<char>)
    requires
        ix.wf(),
    ensures
        method_search(ix, seq![class], name, Set::empty()).len() > 0 ==> exists|c: Seq<char>|
            #[trigger] gives_methods(ix, class, c) && method_search(
                ix,
                seq![class],
                name,
                Set::empty(),
            ) == hits(ix.files, Want::Method(c, name)),
        hits(ix.files, Want::Method(class, name)).len() > 0 ==> method_search(
            ix,
            seq![class],
            name,
            Set::empty(),
        ) == hits(ix.files, Want::Method(class, name)),
{
    assert(gives_over(ix, class, class, seq![class]));
    if method_search(ix, seq![class], name, Set::empty()).len() > 0 {
        lemma_search_source(ix, class, seq![class], name, Set::empty());
    }
}

// ---------------------------------------------------------------------------
// What is found
// ---------------------------------------------------------------------------

proof fn lemma_file_hits(path: Seq<char>, symbols: Seq<Sym>, w: Want, h: Hit)
    ensures
        file_hits(path, symbols, w).contains(h) <==> h.0 == path && wanted(w, h.1)
            && symbols.contains(h.1),
    decreases symbols.len(),
{
    if symbols.len() > 0 {
        let rest = symbols.drop_last();
        lemma_file_hits(path, rest, w, h);
        let before = file_hits(path, rest, w);
        let r = file_hits(path, symbols, w);
        assert(symbols =~= rest.push(symbols.last()));
        assert(symbols.contains(h.1) <==> rest.contains(h.1) || h.1 == symbols.last()) by {
            if rest.contains(h.1) {
                let k = choose|k: int| 0 <= k < rest.len() && rest[k] == h.1;
                assert(symbols[k] == h.1);
            }
            if h.1 == symbols.last() {
                assert(symbols[symbols.len() - 1] == h.1);
            }
        }
        if wanted(w, symbols.last()) {
            let last = (path, symbols.last());
            assert(r == before.push(last));
            assert(r.contains(h) <==> before.contains(h) || h == last) by {
                if before.contains(h) {
                    let k = choose|k: int| 0 <= k < before.len() && before[k] == h;
                    assert(r[k] == h);
                }
                if h == last {
                    assert(r[before.len() as int] == h);
                }
            }
        }
    }
}

/// A search finds exactly the wanted symbols of the indexed files, each with the path of its file.
pub proof fn lemma_hits(files: Files, w: Want, h: Hit)
    ensures
        hits(files, w).contains(h) <==> wanted(w, h.1) && exists|i: int|
            0 <= i < files.len() && (#[trigger] files[i]).0 == h.0 && files[i].1.contains(h.1),
    decreases files.len(),
{
    if files.len() > 0 {
        let rest = files.drop_last();
        lemma_hits(rest, w, h);
        lemma_file_hits(files.last().0, files.last().1, w, h);
        let a = hits(rest, w);
        let b = file_hits(files.last().0, files.last().1, w);
        assert(hits(files, w).contains(h) <==> a.contains(h) || b.contains(h)) by {
            if a.contains(h) {
                let k = choose|k: int| 0 <= k < a.len() && a[k] == h;
                assert((a + b)[k] == h);
            }
            if b.contains(h) {
                let k = choose|k: int| 0 <= k < b.len() && b[k] == h;
                assert((a + b)[a.len() + k] == h);
            }
        }
        if a.contains(h) {
            let i = choose|i: int|
                0 <= i < rest.len() && (#[trigger] rest[i]).0 == h.0 && rest[i].1.contains(h.1);
            assert(files[i].0 == h.0 && files[i].1.contains(h.1));
        }
        if b.contains(h) {
            let i = files.len() - 1;
            assert(files[i].0 == h.0 && files[i].1.contains(h.1));
        }
        if exists|i: int|
            0 <= i < files.len() && (#[trigger] files[i]).0 == h.0 && files[i].1.contains(h.1) {
            let i = choose|i: int|
                0 <= i < files.len() && (#[trigger] files[i]).0 == h.0 && files[i].1.contains(h.1);
            if i < rest.len() {
                assert(rest[i].0 == h.0 && rest[i].1.contains(h.1));
            }
        }
    }
}

proof fn lemma_file_from(files: Files, path: Seq<char>, i: int)
    requires
        0 <= i,
    ensures
        match file_from(files, path, i) {
            Some(k) => i <= k < files.len() && same_path(files[k].0, path) && forall|j: int|
                i <= j < k ==> !same_path((#[trigger] files[j]).0, path),
            None => forall|j: int|
                i <= j < files.len() ==> !same_path((#[trigger] files[j]).0, path),
        },
    decreases files.len() - i,
{
    if i < files.len() && !same_path(files[i].0, path) {
        lemma_file_from(files, path, i + 1);
    }
}

/// Reading a file again replaces its symbols and leaves those of every other file alone.
pub proof fn lemma_update_replaces(
    ix: IndexModel,
    path: Seq<char>,
    symbols: Seq<Sym>,
    other: Seq<char>,
)
    requires
        ix.wf(),
    ensures
        file_symbols(with_file(ix.files, path, symbols), path) == Some(symbols),
        !same_path(other, path) ==> file_symbols(with_file(ix.files, path, symbols), other)
            == file_symbols(ix.files, other),
{
    let after = with_file(ix.files, path, symbols);
    lemma_file_from(ix.files, path, 0);
    lemma_file_from(after, path, 0);
    lemma_file_from(ix.files, other, 0);
    lemma_file_from(after, other, 0);
    match file_index(ix.files, path) {
        Some(i) => {
            assert(after[i] == (ix.files[i].0, symbols));
            assert(forall|j: int|
                0 <= j < after.len() ==> (#[trigger] after[j]).0 == ix.files[j].0);
            let k = file_index(after, path)->0;
            assert(same_path(after[i].0, path));
            if k != i {
                assert(same_path(after[k].0, path));
                assert(same_path(ix.files[k].0, ix.files[i].0));
            }
            if !same_path(other, path) {
                if let Some(a) = file_index(after, other) {
                    assert(same_path(ix.files[a].0, other));
                }
                if let Some(a) = file_index(ix.files, other) {
                    assert(same_path(after[a].0, other));
                }
            }
        },
        None => {
            let n = ix.files.len() as int;
            assert(after[n] == (path, symbols));
            assert(forall|j: int| 0 <= j < n ==> #[trigger] after[j] == ix.files[j]);
            let k = file_index(after, path)->0;
            assert(same_path(after[n].0, path));
            if !same_path(other, path) {
                if let Some(a) = file_index(after, other) {
                    if a < n {
                        assert(same_path(ix.files[a].0, other));
                    } else {
                        assert(same_path(after[n].0, other));
                    }
                }
                if let Some(a) = file_index(ix.files, other) {
                    assert(same_path(after[a].0, other));
                }
            }
        },
    }
}

/// What a file defines can be found once the file is read, and nothing else of that file can be:
/// the definitions that it had before are gone.
pub proof fn lemma_update_is_found(
    ix: IndexModel,
    path: Seq<char>,
    tree: SynTree,
    matches: Seq<Seq<(Seq<char>, Seq<usize>)>>,
    s: Sym,
)
    requires
        ix.wf(),
    ensures
        (exists|p: Seq<char>|
            same_path(p, path) && #[trigger] hits(
                with_tree(ix, path, tree, matches).files,
                Want::Definition(s.name, s.kind),
            ).contains((p, s))) <==> match_symbols(tree, matches).contains(s),
{
    let symbols = match_symbols(tree, matches);
    let after = with_tree(ix, path, tree, matches).files;
    let w = Want::Definition(s.name, s.kind);
    lemma_file_from(ix.files, path, 0);
    let at: int = match file_index(ix.files, path) {
        Some(i) => i,
        None => ix.files.len() as int,
    };
    assert(after[at].1 == symbols && same_path(after[at].0, path));
    if symbols.contains(s) {
        lemma_hits(after, w, (after[at].0, s));
        assert(hits(after, w).contains((after[at].0, s)));
    }
    if exists|p: Seq<char>| same_path(p, path) && #[trigger] hits(after, w).contains((p, s)) {
        let p = choose|p: Seq<char>|
            same_path(p, path) && #[trigger] hits(after, w).contains((p, s));
        lemma_hits(after, w, (p, s));
        let i = choose|i: int|
            0 <= i < after.len() && (#[trigger] after[i]).0 == p && after[i].1.contains(s);
        if i != at {
            assert(after[i] == ix.files[i]);
            if file_index(ix.files, path) is Some {
                assert(same_path(ix.files[i].0, ix.files[at].0));
            } else {
                assert(!same_path(ix.files[i].0, path));
            }
        }
    }
}

proof fn lemma_with_file_wf(ix: IndexModel, path: Seq<char>, symbols: Seq<Sym>)
    requires
        ix.wf(),
    ensures
        (IndexModel { files: with_file(ix.files, path, symbols), ..ix }).wf(),
{
    lemma_file_from(ix.files, path, 0);
}

proof fn lemma_with_entries_finite(
    hierarchy: Map<Seq<char>, ClassModel>,
    entries: Seq<(Seq<char>, ClassModel)>,
)
    requires
        hierarchy.dom().finite(),
    ensures
        with_entries(hierarchy, entries).dom().finite(),
    decreases entries.len(),
{
    if entries.len() > 0 {
        lemma_with_entries_finite(hierarchy, entries.drop_last());
    }
}

/// Reading a file keeps the index well formed.
pub proof fn lemma_with_tree_wf(
    ix: IndexModel,
    path: Seq<char>,
    tree: SynTree,
    matches: Seq<Seq<(Seq<char>, Seq<usize>)>>,
)
    requires
        ix.wf(),
    ensures
        with_tree(ix, path, tree, matches).wf(),
{
    lemma_with_file_wf(ix, path, match_symbols(tree, matches));
    lemma_with_entries_finite(ix.hierarchy, class_entries(preorder(tree)));
    let read = IndexModel { files: with_file(ix.files, path, match_symbols(tree, matches)), ..ix };
    assert(read.wf());
    assert(with_tree(ix, path, tree, matches).files == read.files);
}

/// Reading a file keeps the index well formed, whatever its text is.
pub proof fn lemma_with_source_wf(ix: IndexModel, path: Seq<char>, source: Seq<char>)
    requires
        ix.wf(),
    ensures
        with_source(ix, path, source).wf(),
{
    match parsed(source) {
        Some(tree) => lemma_with_tree_wf(ix, path, tree, query_matches(ix.query, source)),
        None => lemma_with_file_wf(ix, path, Seq::empty()),
    }
}

// ---------------------------------------------------------------------------
// The index
// ---------------------------------------------------------------------------

impl DocumentIndex {
    /// Makes an empty index that finds definitions with the query `tags_query`; `None` where that
    /// is no query for the Crystal grammar.
    pub fn new(tags_query: &str) -> (r: Option<Self>)
        ensures
            r is Some <==> accepted_query(tags_query@),
            r matches Some(ix) ==> ix@ == (IndexModel {
                query: tags_query@,
                files: Seq::empty(),
                hierarchy: Map::empty(),
                ivars: Map::empty(),
            }) && ix@.wf(),
    {
        match new_query(tags_query) {
            Some(query) => {
                let ix = DocumentIndex {
                    query,
                    files: Vec::new(),
                    class_hierarchy: StringHashMap::new(),
                    instance_vars: StringHashMap::new(),
                };
                assert(ix@.files =~= Seq::empty());
                assert(ix@.hierarchy =~= Map::empty());
                assert(ix@.ivars =~= Map::empty());
                Some(ix)
            },
            None => None,
        }
    }

    fn find_file(&self, path: &str) -> (r: Option<usize>)
        ensures
            match r {
                Some(i) => i < self.files@.len() && file_index(self@.files, path@) == Some(
                    i as int,
                ),
                None => file_index(self@.files, path@) is None,
            },
    {
        let ghost files = self@.files;
        let mut i: usize = 0;
        while i < self.files.len()
            invariant
                i <= self.files@.len(),
                files == file_views(self.files@),
                file_index(files, path@) == file_from(files, path@, i as int),
            decreases self.files@.len() - i,
        {
            assert(files[i as int].0 == self.files@[i as int].path@);
            if is_same_path(&self.files[i].path, path) {
                return Some(i);
            }
            i = i + 1;
        }
        None
    }

    /// Replaces the symbols of a file.
    fn set_symbols(&mut self, path: &str, symbols: Vec<Symbol>)
        requires
            old(self)@.wf(),
        ensures
            final(self)@ == (IndexModel {
                files: with_file(old(self)@.files, path@, symbol_views(symbols@)),
                ..old(self)@
            }),
            final(self)@.wf(),
    {
        let ghost before = self@;
        proof {
            lemma_with_file_wf(before, path@, symbol_views(symbols@));
        }
        match self.find_file(path) {
            Some(i) => {
                let held = copy(&self.files[i].path);
                self.files.set(i, FileSymbols { path: held, symbols });
                assert(self@.files =~= before.files.update(
                    i as int,
                    (before.files[i as int].0, symbol_views(symbols@)),
                ));
            },
            None => {
                self.files.push(FileSymbols { path: copy(path), symbols });
                assert(self@.files =~= before.files.push((path@, symbol_views(symbols@))));
            },
        }
    }

    /// Puts entries into the class hierarchy.
    fn set_classes(&mut self, entries: Vec<(String, ClassInfo)>)
        requires
            old(self)@.wf(),
        ensures
            final(self)@ == (IndexModel {
                hierarchy: with_entries(old(self)@.hierarchy, entry_views(entries@)),
                ..old(self)@
            }),
            final(self)@.wf(),
    {
        let ghost before = self@;
        let ghost all = entry_views(entries@);
        assert(all.take(0) =~= Seq::empty());
        for e in it: entries
            invariant
                it.seq() == entries@,
                all == entry_views(entries@),
                self@ == (IndexModel {
                    hierarchy: with_entries(before.hierarchy, all.take(it.index() as int)),
                    ..before
                }),
        {
            let ghost k = it.index() as int;
            let ghost held = self@.hierarchy;
            assert(all[k] == (e.0@, e.1@));
            assert(all.take(k + 1).drop_last() =~= all.take(k));
            self.class_hierarchy.insert(e.0, e.1);
            assert(self@.hierarchy =~= held.insert(e.0@, e.1@));
        }
        assert(all.take(all.len() as int) =~= all);
        proof {
            lemma_with_entries_finite(before.hierarchy, all);
        }
    }

    /// Replaces the instance variables of classes.
    fn set_instance_vars(&mut self, groups: Vec<(String, Vec<InstanceVariable>)>)
        requires
            old(self)@.wf(),
        ensures
            final(self)@ == (IndexModel {
                ivars: with_groups(old(self)@.ivars, group_views(groups@)),
                ..old(self)@
            }),
            final(self)@.wf(),
    {
        let ghost before = self@;
        let ghost all = group_views(groups@);
        assert(all.take(0) =~= Seq::empty());
        for g in it: groups
            invariant
                it.seq() == groups@,
                all == group_views(groups@),
                self@ == (IndexModel {
                    ivars: with_groups(before.ivars, all.take(it.index() as int)),
                    ..before
                }),
        {
            let ghost k = it.index() as int;
            let ghost held = self@.ivars;
            assert(all[k] == (g.0@, ivar_views(g.1@)));
            assert(all.take(k + 1).drop_last() =~= all.take(k));
            self.instance_vars.insert(g.0, g.1);
            assert(self@.ivars =~= held.insert(g.0@, ivar_views(g.1@)));
        }
        assert(all.take(all.len() as int) =~= all);
    }

    /// Takes over what a parsed file defines: its symbols replace those that the file had, its
    /// classes those of the same name.
    pub fn update_parsed(
        &mut self,
        path: &str,
        tree: &SyntaxNode,
        matches: &Vec<Vec<Capture>>,
    )
        requires
            old(self)@.wf(),
            captures_within(tree@, match_views(matches@)),
        ensures
            final(self)@ == with_tree(old(self)@, path@, tree@, match_views(matches@)),
            final(self)@.wf(),
    {
        let symbols = extract_symbols(tree, matches);
        let hierarchy = extract_hierarchy(tree);
        let ivars = extract_instance_vars(tree);
        self.set_symbols(path, symbols);
        self.set_classes(hierarchy);
        self.set_instance_vars(ivars);
    }

    /// Parses a file from its contents in memory. Used when the editor sends a change.
    pub fn update_file(&mut self, path: &str, source: &str)
        requires
            old(self)@.wf(),
        ensures
            final(self)@ == with_source(old(self)@, path@, source@),
            final(self)@.wf(),
    {
        match parse_and_match(source, &self.query) {
            Some((tree, matches)) => self.update_parsed(path, &tree, &matches),
            None => {
                let none: Vec<Symbol> = Vec::new();
                assert(symbol_views(none@) =~= Seq::empty());
                self.set_symbols(path, none);
            },
        }
    }

    /// Indexes a file that was read from disk; where reading it failed, the index stays as it is.
    pub fn index_file(&mut self, path: &str, source: Option<&str>)
        requires
            old(self)@.wf(),
        ensures
            final(self)@ == with_contents(old(self)@, path@, crate::text::opt_str(source)),
            final(self)@.wf(),
    {
        if let Some(s) = source {
            self.update_file(path, s);
        }
    }

    /// Indexes several files, each with what was read from disk.
    pub fn index_files(&mut self, files: &Vec<(String, Option<String>)>)
        requires
            old(self)@.wf(),
        ensures
            final(self)@ == with_all_contents(old(self)@, files@),
            final(self)@.wf(),
    {
        let ghost before = self@;
        let mut i: usize = 0;
        assert(files@.take(0) =~= Seq::empty());
        while i < files.len()
            invariant
                i <= files@.len(),
                self@.wf(),
                self@ == with_all_contents(before, files@.take(i as int)),
            decreases files@.len() - i,
        {
            assert(files@.take(i + 1).drop_last() =~= files@.take(i as int));
            let source = match &files[i].1 {
                Some(s) => Some(s.as_str()),
                None => None,
            };
            self.index_file(&files[i].0, source);
            i = i + 1;
        }
        assert(files@.take(i as int) =~= files@);
    }

    fn search(&self, q: &Search<'_>) -> (r: Vec<(&str, &Symbol)>)
        ensures
            hit_views(r@) == hits(self@.files, want_of(*q)),
    {
        let ghost files = self@.files;
        let mut out: Vec<(&str, &Symbol)> = Vec::new();
        let mut i: usize = 0;
        assert(files.take(0) =~= Seq::empty());
        assert(hit_views(out@) =~= Seq::empty());
        while i < self.files.len()
            invariant
                i <= self.files@.len(),
                files == file_views(self.files@),
                hit_views(out@) == hits(files.take(i as int), want_of(*q)),
            decreases self.files@.len() - i,
        {
            assert(files.take(i + 1).drop_last() =~= files.take(i as int));
            collect_file(&self.files[i], q, &mut out);
            i = i + 1;
        }
        assert(files.take(i as int) =~= files);
        out
    }

    /// The definitions of a name and a kind in all files.
    pub fn find_definition(&self, name: &str, kind: SymbolKind) -> (r: Vec<(&str, &Symbol)>)
        ensures
            hit_views(r@) == hits(self@.files, Want::Definition(name@, kind)),
    {
        self.search(&Search::Definition(name, kind))
    }

    /// The definitions of a name in all files, whatever their kind.
    pub fn find_by_name(&self, name: &str) -> (r: Vec<(&str, &Symbol)>)
        ensures
            hit_views(r@) == hits(self@.files, Want::Name(name@)),
    {
        self.search(&Search::Name(name))
    }

    /// The symbols of a file.
    pub fn symbols_for_file(&self, path: &str) -> (r: Option<&Vec<Symbol>>)
        ensures
            match r {
                Some(v) => file_symbols(self@.files, path@) == Some(symbol_views(v@)),
                None => file_symbols(self@.files, path@) is None,
            },
    {
        match self.find_file(path) {
            Some(i) => Some(&self.files[i].symbols),
            None => None,
        }
    }

    /// The paths of all indexed files.
    pub fn indexed_paths(&self) -> (r: Vec<&str>)
        ensures
            r@.len() == self@.files.len(),
            forall|i: int| 0 <= i < r@.len() ==> (#[trigger] r@[i])@ == self@.files[i].0,
    {
        let mut out: Vec<&str> = Vec::new();
        let mut i: usize = 0;
        while i < self.files.len()
            invariant
                i <= self.files@.len(),
                out@.len() == i,
                forall|k: int| 0 <= k < i ==> (#[trigger] out@[k])@ == self.files@[k].path@,
            decreases self.files@.len() - i,
        {
            out.push(self.files[i].path.as_str());
            i = i + 1;
        }
        out
    }

    /// The symbols inside a class or module.
    pub fn find_by_parent(&self, parent_name: &str) -> (r: Vec<(&str, &Symbol)>)
        ensures
            hit_views(r@) == hits(self@.files, Want::Child(parent_name@)),
    {
        self.search(&Search::Child(parent_name))
    }

    /// All symbols of all files.
    pub fn all_symbols(&self) -> (r: Vec<(&str, &Symbol)>)
        ensures
            hit_views(r@) == hits(self@.files, Want::All),
    {
        self.search(&Search::All)
    }

    /// Puts the sources of a class on top of a stack of names.
    fn push_sources(&self, class: &str, stack: &mut Vec<String>)
        ensures
            pending(final(stack)@) == sources_of(self@, class@) + pending(old(stack)@),
    {
        let ghost below = pending(stack@);
        let ghost sources = sources_of(self@, class@);
        match self.class_hierarchy.get(class) {
            Some(info) => {
                let mut n: usize = info.includes.len();
                assert(self@.hierarchy[class@] == info@);
                assert(info@.includes.len() == n);
                if let Some(superclass) = &info.superclass {
                    let ghost held = texts(stack@);
                    stack.push(copy(superclass));
                    assert(texts(stack@) =~= held.push(superclass@));
                    assert(pending(stack@) =~= sources.skip(n as int) + below);
                } else {
                    assert(pending(stack@) =~= sources.skip(n as int) + below);
                }
                while n > 0
                    invariant
                        n <= info.includes@.len(),
                        sources.len() >= info.includes@.len(),
                        forall|k: int|
                            0 <= k < info.includes@.len() ==> sources[k] == (
                            #[trigger] info.includes@[k])@,
                        pending(stack@) == sources.skip(n as int) + below,
                    decreases n,
                {
                    let ghost held = texts(stack@);
                    stack.push(copy(&info.includes[n - 1]));
                    assert(info.includes@[n - 1]@ == sources[n - 1]);
                    assert(texts(stack@) =~= held.push(sources[n - 1]));
                    assert(pending(stack@) =~= seq![sources[n - 1]] + (sources.skip(n as int)
                        + below));
                    assert(sources.skip(n - 1) =~= seq![sources[n - 1]] + sources.skip(n as int));
                    n = n - 1;
                    assert(pending(stack@) =~= sources.skip(n as int) + below);
                }
                assert(sources.skip(0) =~= sources);
            },
            None => {
                assert(sources + below =~= below);
            },
        }
    }

    /// Looks for a method along the class hierarchy: in the class itself, in the modules that it
    /// mixes in, then along the superclasses.
    pub fn find_method_in_hierarchy(&self, class_name: &str, method_name: &str) -> (r: Vec<
        (&str, &Symbol),
    >)
        requires
            self@.wf(),
        ensures
            hit_views(r@) == method_search(self@, seq![class_name@], method_name@, Set::empty()),
    {
        let mut stack: Vec<String> = Vec::new();
        stack.push(copy(class_name));
        let mut asked: StringHashSet = StringHashSet::new();
        assert(pending(stack@) =~= seq![class_name@]);
        while stack.len() > 0
            invariant
                self@.wf(),
                method_search(self@, seq![class_name@], method_name@, Set::empty())
                    == method_search(self@, pending(stack@), method_name@, asked@),
            decreases self@.hierarchy.dom().difference(asked@).len(), stack@.len(),
        {
            let ghost todo = pending(stack@);
            let class = stack.pop().unwrap();
            assert(todo[0] == class@);
            assert(todo.skip(1) =~= pending(stack@));
            if !asked.contains(&class) {
                let own = self.search(&Search::Method(&class, method_name));
                if own.len() > 0 {
                    assert(hit_views(own@).len() > 0);
                    return own;
                }
                assert(hit_views(own@).len() == 0);
                proof {
                    lemma_asked_shrinks(self@.hierarchy.dom(), asked@, class@);
                }
                self.push_sources(&class, &mut stack);
                asked.insert(class);
            }
        }
        let none: Vec<(&str, &Symbol)> = Vec::new();
        assert(hit_views(none@) =~= Seq::empty());
        none
    }

    /// The instance variables of a class.
    pub fn find_instance_vars(&self, class_name: &str) -> (r: &[InstanceVariable])
        ensures
            ivar_views(r@) == if self@.ivars.contains_key(class_name@) {
                self@.ivars[class_name@]
            } else {
                Seq::empty()
            },
    {
        match self.instance_vars.get(class_name) {
            Some(v) => v.as_slice(),
            None => {
                let none: &[InstanceVariable] = &[];
                assert(ivar_views(none@) =~= Seq::empty());
                none
            },
        }
    }

    /// An instance variable of a class.
    pub fn find_instance_var(&self, class_name: &str, ivar_name: &str) -> (r: Option<
        &InstanceVariable,
    >)
        ensures
            match r {
                Some(v) => first_ivar(self@, class_name@, ivar_name@) == Some(v@),
                None => first_ivar(self@, class_name@, ivar_name@) is None,
            },
    {
        let vars = match self.instance_vars.get(class_name) {
            Some(v) => v,
            None => { return None; },
        };
        let ghost all = ivar_views(vars@);
        let mut i: usize = 0;
        while i < vars.len()
            invariant
                i <= vars@.len(),
                all == ivar_views(vars@),
                self@.ivars.contains_key(class_name@),
                self@.ivars[class_name@] == all,
                first_ivar(self@, class_name@, ivar_name@) == ivar_from(all, ivar_name@, i as int),
            decreases vars@.len() - i,
        {
            assert(all[i as int] == vars@[i as int]@);
            if same(&vars[i].name, ivar_name) {
                return Some(&vars[i]);
            }
            i = i + 1;
        }
        None
    }
}

/// The names on a stack, the top first.
pub open spec fn pending(stack: Seq<String>) -> Seq<Seq<char>> {
    texts(stack).reverse()
}

/// The first of `vars` from `i` on that is called `name`.
pub open spec fn ivar_from(vars: Seq<Ivar>, name: Seq<char>, i: int) -> Option<Ivar>
    decreases vars.len() - i,
{
    if i < 0 || i >= vars.len() {
        None
    } else if vars[i].name == name {
        Some(vars[i])
    } else {
        ivar_from(vars, name, i + 1)
    }
}

/// The instance variable `name` of the class `class`.
pub open spec fn first_ivar(ix: IndexModel, class: Seq<char>, name: Seq<char>) -> Option<Ivar> {
    if ix.ivars.contains_key(class) {
        ivar_from(ix.ivars[class], name, 0)
    } else {
        None
    }
}

} // verus!
