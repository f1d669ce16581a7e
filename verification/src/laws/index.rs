//! Which symbols a file has, and which of them are found.

use vstd::prelude::*;

use crate::extract::{match_symbols, Sym, SymbolKind};
use crate::index::{
    file_hits, file_symbols, hits, lemma_hits, lemma_update_replaces, with_all_contents,
    with_source, Files, IndexModel, Want,
};
use crate::syntax::{parsed, query_matches};

verus! {

/// Whether the file `path` of the index defines the symbol `s`.
pub open spec fn defines(ix: IndexModel, path: Seq<char>, s: Sym) -> bool {
    exists|i: int|
        0 <= i < ix.files.len() && (#[trigger] ix.files[i]).0 == path && ix.files[i].1.contains(s)
}

/// Looking up a name and a kind finds the symbols of that name and that kind, in whichever file they
/// are, and nothing else.
pub proof fn lemma_found_by_kind(
    ix: IndexModel,
    name: Seq<char>,
    kind: SymbolKind,
    path: Seq<char>,
    s: Sym,
)
    ensures
        hits(ix.files, Want::Definition(name, kind)).contains((path, s)) <==> defines(ix, path, s)
            && s.name == name && s.kind == kind,
{
    lemma_hits(ix.files, Want::Definition(name, kind), (path, s));
}

/// Looking up a name finds the symbols of that name, whatever their kind, and nothing else.
pub proof fn lemma_found_by_name(ix: IndexModel, name: Seq<char>, path: Seq<char>, s: Sym)
    ensures
        hits(ix.files, Want::Name(name)).contains((path, s)) <==> defines(ix, path, s) && s.name
            == name,
{
    lemma_hits(ix.files, Want::Name(name), (path, s));
}

/// Looking into a class or module finds the symbols that have it as their parent, and nothing else.
pub proof fn lemma_found_by_parent(ix: IndexModel, parent: Seq<char>, path: Seq<char>, s: Sym)
    ensures
        hits(ix.files, Want::Child(parent)).contains((path, s)) <==> defines(ix, path, s)
            && s.parent == Some(parent),
{
    lemma_hits(ix.files, Want::Child(parent), (path, s));
}

/// Asking for all symbols gives every symbol of every file.
pub proof fn lemma_found_all(ix: IndexModel, path: Seq<char>, s: Sym)
    ensures
        hits(ix.files, Want::All).contains((path, s)) <==> defines(ix, path, s),
{
    lemma_hits(ix.files, Want::All, (path, s));
}

/// The methods of a class are the symbols of the kind method that have it as their parent.
pub proof fn lemma_found_methods(
    ix: IndexModel,
    class: Seq<char>,
    name: Seq<char>,
    path: Seq<char>,
    s: Sym,
)
    ensures
        hits(ix.files, Want::Method(class, name)).contains((path, s)) <==> defines(ix, path, s)
            && s.parent == Some(class) && s.name == name && s.kind == SymbolKind::Method,
{
    lemma_hits(ix.files, Want::Method(class, name), (path, s));
}

/// What is found stands in the order of the files, and in each file in the order of its symbols.
pub proof fn lemma_found_in_order(
    files: Files,
    path: Seq<char>,
    symbols: Seq<Sym>,
    s: Sym,
    name: Seq<char>,
)
    ensures
        hits(files.push((path, symbols.push(s))), Want::Name(name)) == if s.name == name {
            hits(files.push((path, symbols)), Want::Name(name)).push((path, s))
        } else {
            hits(files.push((path, symbols)), Want::Name(name))
        },
        hits(files.push((path, symbols.push(s))), Want::All) == hits(
            files.push((path, symbols)),
            Want::All,
        ).push((path, s)),
        hits(files.push((path, Seq::empty())), Want::Name(name)) == hits(files, Want::Name(name)),
        hits(Seq::empty(), Want::Name(name)).len() == 0,
{
    let more = symbols.push(s);
    assert(more.drop_last() =~= symbols);
    assert(files.push((path, more)).drop_last() =~= files);
    assert(files.push((path, symbols)).drop_last() =~= files);
    assert(files.push((path, Seq::empty())).drop_last() =~= files);
    let front = hits(files, Want::Name(name));
    let own = file_hits(path, symbols, Want::Name(name));
    assert(front + own.push((path, s)) =~= (front + own).push((path, s)));
    let front_all = hits(files, Want::All);
    let own_all = file_hits(path, symbols, Want::All);
    assert(front_all + own_all.push((path, s)) =~= (front_all + own_all).push((path, s)));
    assert(front + Seq::empty() =~= front);
}

/// Files are read one after the other; one that cannot be read leaves the index as it is.
pub proof fn lemma_files_are_read(
    ix: IndexModel,
    files: Seq<(String, Option<String>)>,
    path: String,
    text: String,
)
    ensures
        with_all_contents(ix, Seq::empty()) == ix,
        with_all_contents(ix, files.push((path, Some(text)))) == with_source(
            with_all_contents(ix, files),
            path@,
            text@,
        ),
        with_all_contents(ix, files.push((path, None))) == with_all_contents(ix, files),
{
    assert(files.push((path, Some(text))).drop_last() =~= files);
    assert(files.push((path, None)).drop_last() =~= files);
}

/// A file that can be parsed has the symbols of its tree, and one that cannot has none.
pub proof fn lemma_read_file(ix: IndexModel, path: Seq<char>, source: Seq<char>)
    requires
        ix.wf(),
    ensures
        file_symbols(with_source(ix, path, source).files, path) == Some(
            match parsed(source) {
                Some(tree) => match_symbols(tree, query_matches(ix.query, source)),
                None => Seq::empty(),
            },
        ),
        with_source(ix, path, source).query == ix.query,
{
    let symbols = match parsed(source) {
        Some(tree) => match_symbols(tree, query_matches(ix.query, source)),
        None => Seq::empty(),
    };
    lemma_update_replaces(ix, path, symbols, path);
}

} // verus!
