//! What is offered to complete a text.

use vstd::prelude::*;
use vstd::utf8::encode_utf8;

use crate::completion::{
    already, completion_answer, completion_of, dot_items, general_items, line_prefix,
    lemma_offers_complete, lemma_offers_distinct, lemma_text_order, offered, offers, repeats,
    require_items, require_listing, require_name, require_names, scope_items, symbol_item,
    symbol_items, text_order, trailing_name, CompletionKind, DirEntry, Item, Listing, Offer, Plan,
};
use crate::extract::{Sym, SymbolKind};
use crate::index::{hits, Hit, IndexModel, Want};
use crate::laws::index::{defines, lemma_found_all, lemma_found_by_parent};
use crate::laws::text::{blank, lemma_trim_around, lemma_trim_back};
use crate::order::{lemma_stable_sorted, stable_sorted};
use crate::protocol::Position;
use crate::text::{after_prefix, alphanumeric, text_lines, trimmed, trimmed_end, uppercase, whitespace};
use crate::uri::uri_path;

verus! {

// ---------------------------------------------------------------------------
// Symbols
// ---------------------------------------------------------------------------

/// Whether a symbol of the kind `kind` is shown as a completion of the kind `shown`.
pub open spec fn shown_as(kind: SymbolKind, shown: CompletionKind) -> bool {
    ||| kind == SymbolKind::Class && shown == CompletionKind::Class
    ||| kind == SymbolKind::Module && shown == CompletionKind::Module
    ||| kind == SymbolKind::Struct && shown == CompletionKind::Struct
    ||| kind == SymbolKind::Enum && shown == CompletionKind::Enum
    ||| kind == SymbolKind::Lib && shown == CompletionKind::Module
    ||| kind == SymbolKind::Method && shown == CompletionKind::Method
    ||| kind == SymbolKind::Macro && shown == CompletionKind::Keyword
    ||| kind == SymbolKind::Function && shown == CompletionKind::Function
    ||| kind == SymbolKind::Constant && shown == CompletionKind::Constant
    ||| kind == SymbolKind::Type && shown == CompletionKind::TypeParameter
    ||| kind == SymbolKind::Field && shown == CompletionKind::Field
}

/// Whether the completion `item` is that of the symbol `s`.
pub open spec fn completes_to(item: Item, s: Sym) -> bool {
    &&& item.label == s.name
    &&& shown_as(s.kind, item.kind)
    &&& item.detail == match s.parent {
        Some(parent) => Some("("@ + parent + ")"@),
        None => None,
    }
    &&& item.insert_text is None
}

proof fn lemma_symbol_item(s: Sym)
    ensures
        completes_to(symbol_item(s), s),
{
}

/// The symbols that `::` offers: classes, modules, structs, enums, constants and type aliases.
pub open spec fn named_thing(kind: SymbolKind) -> bool {
    ||| kind == SymbolKind::Class
    ||| kind == SymbolKind::Module
    ||| kind == SymbolKind::Struct
    ||| kind == SymbolKind::Enum
    ||| kind == SymbolKind::Constant
    ||| kind == SymbolKind::Type
}

/// The symbols that a word offers: besides those named things, methods, macros and functions.
pub open spec fn word_thing(kind: SymbolKind) -> bool {
    ||| named_thing(kind)
    ||| kind == SymbolKind::Method
    ||| kind == SymbolKind::Macro
    ||| kind == SymbolKind::Function
}

proof fn lemma_found_of_offers(o: Offer, found: Seq<Hit>, k: int) -> (i: int)
    requires
        0 <= k < offers(o, found).len(),
    ensures
        0 <= i < found.len(),
        found[i].1 == offers(o, found)[k],
    decreases found.len(),
{
    let front = found.drop_last();
    if k < offers(o, front).len() {
        lemma_found_of_offers(o, front, k)
    } else {
        found.len() - 1
    }
}

/// Whether `items` holds a completion of the name of `s`, and where `exact` is set of its kind.
pub open spec fn is_offered(items: Seq<Item>, s: Sym, exact: bool) -> bool {
    exists|k: int|
        0 <= k < items.len() && (#[trigger] items[k]).label == s.name && (exact ==> shown_as(
            s.kind,
            items[k].kind,
        ))
}

/// The item at `k` comes from a symbol that was found and is offered.
proof fn lemma_item_source(o: Offer, found: Seq<Hit>, k: int) -> (i: int)
    requires
        0 <= k < symbol_items(offers(o, found)).len(),
    ensures
        0 <= i < found.len(),
        completes_to(symbol_items(offers(o, found))[k], found[i].1),
        offered(o, found[i].1),
{
    let kept = offers(o, found);
    lemma_offers_complete(o, found);
    let i = lemma_found_of_offers(o, found, k);
    lemma_symbol_item(kept[k]);
    assert(offered(o, kept[k]));
    i
}

/// A symbol that was found and is offered has an item of its name.
proof fn lemma_item_of(o: Offer, found: Seq<Hit>, h: Hit)
    requires
        found.contains(h),
        offered(o, h.1),
    ensures
        is_offered(symbol_items(offers(o, found)), h.1, o is General),
{
    let kept = offers(o, found);
    let items = symbol_items(kept);
    lemma_offers_complete(o, found);
    let i = choose|i: int| 0 <= i < found.len() && found[i] == h;
    assert(offered(o, found[i].1));
    assert(already(o, kept, found[i].1));
    let k = choose|k: int| 0 <= k < kept.len() && repeats(o, #[trigger] kept[k], h.1);
    lemma_symbol_item(kept[k]);
    assert(items[k] == symbol_item(kept[k]));
    assert(items[k].label == h.1.name);
}

/// A word offers every class, module, struct, enum, constant, type alias, method, macro and function
/// whose name starts with it, unless there are too many.
pub proof fn lemma_word_offers(ix: IndexModel, word: Seq<char>, path: Seq<char>, s: Sym)
    requires
        defines(ix, path, s),
        word_thing(s.kind),
        word.is_prefix_of(s.name),
        general_items(ix, word).len() < 100,
    ensures
        is_offered(general_items(ix, word), s, true),
{
    let found = hits(ix.files, Want::All);
    lemma_found_all(ix, path, s);
    lemma_item_of(Offer::General(word), found, (path, s));
}

/// Whether the index has a symbol that is called as the completion `item` says, of one of the kinds,
/// and with the parent `parent` where one is given.
pub open spec fn has_source(
    ix: IndexModel,
    item: Item,
    kinds: spec_fn(SymbolKind) -> bool,
    parent: Option<Seq<char>>,
) -> bool {
    exists|path: Seq<char>, s: Sym| #[trigger]
        defines(ix, path, s) && kinds(s.kind) && completes_to(item, s) && (parent is Some
            ==> s.parent == parent)
}

/// A word offers at most a hundred completions, and nothing but the symbols that start with it.
pub proof fn lemma_word_offers_only(ix: IndexModel, word: Seq<char>, k: int)
    requires
        0 <= k < general_items(ix, word).len(),
    ensures
        general_items(ix, word).len() <= 100,
        word.is_prefix_of(general_items(ix, word)[k].label),
        has_source(ix, general_items(ix, word)[k], |kind: SymbolKind| word_thing(kind), None),
{
    let o = Offer::General(word);
    let found = hits(ix.files, Want::All);
    let all = symbol_items(offers(o, found));
    let i = lemma_item_source(o, found, k);
    assert(general_items(ix, word)[k] == all[k]);
    lemma_found_all(ix, found[i].0, found[i].1);
    assert(found.contains(found[i]));
    assert(defines(ix, found[i].0, found[i].1));
}

/// No two completions of a word come from symbols of the same name and kind.
pub proof fn lemma_word_offers_once(ix: IndexModel, word: Seq<char>, i: int, j: int)
    requires
        0 <= i < j < general_items(ix, word).len(),
    ensures
        ({
            let kept = offers(Offer::General(word), hits(ix.files, Want::All));
            &&& completes_to(general_items(ix, word)[i], kept[i])
            &&& completes_to(general_items(ix, word)[j], kept[j])
            &&& kept[i].name != kept[j].name || kept[i].kind != kept[j].kind
        }),
{
    let o = Offer::General(word);
    let found = hits(ix.files, Want::All);
    lemma_offers_distinct(o, found);
    let kept = offers(o, found);
    assert(!repeats(o, kept[i], kept[j]));
    lemma_symbol_item(kept[i]);
    lemma_symbol_item(kept[j]);
}

/// `::` behind a scope offers the classes, modules, structs, enums, constants and type aliases that
/// have the scope as their parent.
pub proof fn lemma_scope_offers(ix: IndexModel, scope: Seq<char>, path: Seq<char>, s: Sym)
    requires
        defines(ix, path, s),
        s.parent == Some(scope),
        named_thing(s.kind),
    ensures
        is_offered(scope_items(ix, scope), s, false),
{
    let found = hits(ix.files, Want::Child(scope));
    lemma_found_by_parent(ix, scope, path, s);
    lemma_item_of(Offer::Scope, found, (path, s));
}

/// `::` behind a scope offers nothing but those.
pub proof fn lemma_scope_offers_only(ix: IndexModel, scope: Seq<char>, k: int)
    requires
        0 <= k < scope_items(ix, scope).len(),
    ensures
        has_source(
            ix,
            scope_items(ix, scope)[k],
            |kind: SymbolKind| named_thing(kind),
            Some(scope),
        ),
{
    let found = hits(ix.files, Want::Child(scope));
    let i = lemma_item_source(Offer::Scope, found, k);
    lemma_found_by_parent(ix, scope, found[i].0, found[i].1);
    assert(found.contains(found[i]));
    assert(defines(ix, found[i].0, found[i].1));
}

/// Behind a dot and behind `::` no name is offered twice.
pub proof fn lemma_names_are_offered_once(ix: IndexModel, name: Seq<char>, i: int, j: int)
    requires
        0 <= i < j,
    ensures
        j < scope_items(ix, name).len() ==> scope_items(ix, name)[i].label != scope_items(
            ix,
            name,
        )[j].label,
        j < dot_items(ix, name).len() ==> dot_items(ix, name)[i].label != dot_items(
            ix,
            name,
        )[j].label,
{
    let children = hits(ix.files, Want::Child(name));
    lemma_distinct_labels(Offer::Scope, children, i, j);
    lemma_distinct_labels(Offer::TypeMethods, children, i, j);
    lemma_distinct_labels(Offer::AllMethods, hits(ix.files, Want::All), i, j);
}

proof fn lemma_distinct_labels(o: Offer, found: Seq<Hit>, i: int, j: int)
    requires
        !(o is General),
        0 <= i < j,
    ensures
        j < offers(o, found).len() ==> symbol_items(offers(o, found))[i].label != symbol_items(
            offers(o, found),
        )[j].label,
{
    let kept = offers(o, found);
    lemma_offers_distinct(o, found);
    if j < kept.len() {
        assert(!repeats(o, kept[i], kept[j]));
    }
}

/// A dot behind a type offers the methods and functions that have the type as their parent.
pub proof fn lemma_type_dot_offers(ix: IndexModel, receiver: Seq<char>, path: Seq<char>, s: Sym)
    requires
        receiver.len() > 0,
        uppercase(receiver[0]),
        defines(ix, path, s),
        s.parent == Some(receiver),
        s.kind == SymbolKind::Method || s.kind == SymbolKind::Function,
    ensures
        is_offered(dot_items(ix, receiver), s, false),
{
    let found = hits(ix.files, Want::Child(receiver));
    lemma_found_by_parent(ix, receiver, path, s);
    lemma_item_of(Offer::TypeMethods, found, (path, s));
}

/// A dot behind a type offers nothing but methods and functions that have the type as their parent.
pub proof fn lemma_type_dot_offers_only(ix: IndexModel, receiver: Seq<char>, k: int)
    requires
        receiver.len() > 0,
        uppercase(receiver[0]),
        0 <= k < dot_items(ix, receiver).len(),
    ensures
        has_source(
            ix,
            dot_items(ix, receiver)[k],
            |kind: SymbolKind| kind == SymbolKind::Method || kind == SymbolKind::Function,
            Some(receiver),
        ),
{
    let found = hits(ix.files, Want::Child(receiver));
    let i = lemma_item_source(Offer::TypeMethods, found, k);
    lemma_found_by_parent(ix, receiver, found[i].0, found[i].1);
    assert(found.contains(found[i]));
    assert(defines(ix, found[i].0, found[i].1));
}

/// A dot behind anything else offers every method.
pub proof fn lemma_value_dot_offers(ix: IndexModel, receiver: Seq<char>, path: Seq<char>, s: Sym)
    requires
        receiver.len() > 0 ==> !uppercase(receiver[0]),
        defines(ix, path, s),
        s.kind == SymbolKind::Method,
    ensures
        is_offered(dot_items(ix, receiver), s, false),
{
    let found = hits(ix.files, Want::All);
    lemma_found_all(ix, path, s);
    lemma_item_of(Offer::AllMethods, found, (path, s));
}

/// A dot behind anything else offers nothing but methods.
pub proof fn lemma_value_dot_offers_only(ix: IndexModel, receiver: Seq<char>, k: int)
    requires
        receiver.len() > 0 ==> !uppercase(receiver[0]),
        0 <= k < dot_items(ix, receiver).len(),
    ensures
        has_source(
            ix,
            dot_items(ix, receiver)[k],
            |kind: SymbolKind| kind == SymbolKind::Method,
            None,
        ),
{
    let found = hits(ix.files, Want::All);
    let i = lemma_item_source(Offer::AllMethods, found, k);
    lemma_found_all(ix, found[i].0, found[i].1);
    assert(found.contains(found[i]));
    assert(defines(ix, found[i].0, found[i].1));
}

// ---------------------------------------------------------------------------
// What is being typed
// ---------------------------------------------------------------------------

/// Whether `s` is made of letters, digits and underscores, and of `@` where `at` is set.
pub open spec fn name_chars(s: Seq<char>, at: bool) -> bool {
    forall|i: int|
        0 <= i < s.len() ==> alphanumeric(#[trigger] s[i]) || s[i] == '_' || (at && s[i] == '@')
}

/// Whether a name cannot go on in front of `front`'s end.
pub open spec fn name_starts(front: Seq<char>, at: bool) -> bool {
    front.len() > 0 ==> !alphanumeric(front.last()) && front.last() != '_' && !(at && front.last()
        == '@')
}

proof fn lemma_trailing_name(front: Seq<char>, name: Seq<char>, at: bool)
    requires
        name_chars(name, at),
        name_starts(front, at),
    ensures
        trailing_name(front + name, at) == name,
    decreases name.len(),
{
    let s = front + name;
    if name.len() > 0 {
        assert(s.last() == name[name.len() - 1]);
        assert(s.drop_last() =~= front + name.drop_last());
        assert(name_chars(name.drop_last(), at)) by {
            assert(forall|i: int|
                0 <= i < name.drop_last().len() ==> #[trigger] name.drop_last()[i] == name[i]);
        }
        lemma_trailing_name(front, name.drop_last(), at);
        assert(name.drop_last().push(name.last()) =~= name);
    } else {
        assert(s =~= front);
        assert(trailing_name(front, at) =~= name);
    }
}

/// A name and a dot in front of the cursor are completed with what the name offers behind a dot,
/// whatever stands before it and with or without white space behind it.
pub proof fn lemma_dot_is_completed(
    ix: IndexModel,
    current: Seq<char>,
    front: Seq<char>,
    name: Seq<char>,
    gap: Seq<char>,
)
    requires
        name.len() > 0,
        name_chars(name, true),
        name_starts(front, true),
        blank(gap),
    ensures
        completion_of(ix, current, front + name + "."@ + gap) == Plan::Items(dot_items(ix, name)),
{
    reveal_strlit(".");
    let typed = front + name + "."@;
    assert(typed.last() == '.');
    lemma_trim_back(typed, gap);
    assert(typed.drop_last() =~= front + name);
    lemma_trailing_name(front, name, true);
}

/// A name and `::` in front of the cursor are completed with what is in the scope of that name.
pub proof fn lemma_scope_is_completed(
    ix: IndexModel,
    current: Seq<char>,
    front: Seq<char>,
    name: Seq<char>,
    gap: Seq<char>,
)
    requires
        name.len() > 0,
        name_chars(name, false),
        name_starts(front, false),
        blank(gap),
    ensures
        completion_of(ix, current, front + name + "::"@ + gap) == Plan::Items(scope_items(ix, name)),
{
    reveal_strlit("::");
    let typed = front + name + "::"@;
    assert(typed.last() == ':');
    lemma_trim_back(typed, gap);
    assert(typed.skip(typed.len() - 2) =~= "::"@);
    assert("::"@.is_suffix_of(typed));
    assert(typed.take(typed.len() - 2) =~= front + name);
    lemma_trailing_name(front, name, false);
}

/// A word in front of the cursor is completed with the symbols that start with it, unless a path to
/// require is being typed.
pub proof fn lemma_word_is_completed(
    ix: IndexModel,
    current: Seq<char>,
    front: Seq<char>,
    word: Seq<char>,
)
    requires
        word.len() > 0,
        name_chars(word, false),
        name_starts(front, false),
        !whitespace(word.last()),
        !("require \""@.is_prefix_of(trimmed(front + word))),
    ensures
        completion_of(ix, current, front + word) == Plan::Items(general_items(ix, word)),
{
    reveal_strlit("::");
    reveal_strlit("require ");
    reveal_strlit("\"");
    reveal_strlit("require \"");
    let prefix = front + word;
    let c = word[word.len() - 1];
    assert(prefix.last() == c);
    assert(trimmed_end(prefix) == prefix);
    assert(c != '.' && c != ':');
    if "::"@.is_suffix_of(prefix) {
        assert(prefix.skip(prefix.len() - 2)[1] == prefix.last());
    }
    let t = trimmed(prefix);
    if let Some(rest) = after_prefix(t, "require "@) {
        if "\""@.is_prefix_of(rest) {
            assert(rest.take(1)[0] == rest[0]);
            assert(t.take(8) =~= "require "@);
            assert(t[8] == rest[0]);
            assert(t.take(9) =~= "require \""@) by {
                assert forall|i: int| 0 <= i < 9 implies t.take(9)[i] == "require \""@[i] by {
                    if i < 8 {
                        assert(t.take(8)[i] == t[i]);
                    }
                }
            }
        }
    }
    lemma_trailing_name(front, word, false);
}

/// A path that is being required is completed with the entries of a directory: for a path that
/// starts with `./` or `../` the one it names up to its last slash, else the one that the file is in.
pub proof fn lemma_require_is_completed(
    ix: IndexModel,
    current: Seq<char>,
    gap: Seq<char>,
    typed: Seq<char>,
)
    requires
        blank(gap),
        typed.len() > 0,
        !typed.contains('"'),
        !whitespace(typed.last()),
        typed.last() != '.',
        typed.last() != ':',
    ensures
        completion_of(ix, current, gap + ("require \""@ + typed)) == match require_listing(
            current,
            typed,
        ) {
            Some(listing) => Plan::List(listing),
            None => Plan::Items(Seq::empty()),
        },
{
    reveal_strlit("::");
    reveal_strlit("require ");
    reveal_strlit("\"");
    reveal_strlit("require \"");
    let line = "require \""@ + typed;
    let prefix = gap + line;
    let none = Seq::<char>::empty();
    assert(prefix.last() == typed.last());
    assert(trimmed_end(prefix) == prefix);
    if "::"@.is_suffix_of(prefix) {
        assert(prefix.skip(prefix.len() - 2)[1] == prefix.last());
    }
    assert(line[0] == 'r');
    assert(gap + line + none =~= prefix);
    lemma_trim_around(gap, line, none);
    assert(line.take(8) =~= "require "@);
    let rest = line.skip(8);
    assert(rest =~= "\""@ + typed);
    assert(rest.take(1) =~= "\""@);
    assert(rest.skip(1) =~= typed);
}

proof fn lemma_encode_sum(a: Seq<char>, b: Seq<char>)
    ensures
        encode_utf8(a + b) == encode_utf8(a) + encode_utf8(b),
    decreases a.len(),
{
    let s = a + b;
    if a.len() == 0 {
        assert(s =~= b);
        assert(encode_utf8(a) + encode_utf8(b) =~= encode_utf8(b));
    } else {
        assert(s[0] == a[0]);
        assert(s.drop_first() =~= a.drop_first() + b);
        lemma_encode_sum(a.drop_first(), b);
        assert(encode_utf8(s) =~= encode_utf8(a) + encode_utf8(b));
    }
}

/// The column is a number of bytes: what stands before the cursor are the characters that take up just
/// these bytes, or the whole line where it is shorter.
pub proof fn lemma_before_cursor(before: Seq<char>, after: Seq<char>, beyond: int)
    requires
        beyond > encode_utf8(before + after).len(),
    ensures
        line_prefix(before + after, encode_utf8(before).len() as int) == before,
        line_prefix(before + after, beyond) == before + after,
{
    lemma_encode_sum(before, after);
    let bytes = encode_utf8(before + after);
    assert(bytes.take(encode_utf8(before).len() as int) =~= encode_utf8(before));
    vstd::utf8::encode_utf8_decode_utf8(before);
}

/// A completion is for what stands before the cursor on its line of the document.
pub proof fn lemma_completion_request(
    ix: IndexModel,
    uri: Seq<char>,
    path: Seq<char>,
    position: Position,
    text: Seq<char>,
    before: Seq<char>,
    after: Seq<char>,
)
    requires
        uri_path(uri) == Some(path),
        position.line < text_lines(text).len(),
        text_lines(text)[position.line as int] == before + after,
        position.character == encode_utf8(before).len(),
    ensures
        completion_answer(ix, uri, position, Some(text)) == Some(completion_of(ix, path, before)),
{
    lemma_encode_sum(before, after);
    let bytes = encode_utf8(before + after);
    assert(bytes.take(encode_utf8(before).len() as int) =~= encode_utf8(before));
    vstd::utf8::encode_utf8_decode_utf8(before);
}

// ---------------------------------------------------------------------------
// Files to require
// ---------------------------------------------------------------------------

/// Whether the entry `e` of a directory is offered as `name`: a directory that is not hidden under
/// its own name, a Crystal file under its name without `.cr`; both only where that starts with what
/// was typed.
pub open spec fn entry_offers(e: DirEntry, typed: Seq<char>, name: Seq<char>) -> bool {
    &&& typed.is_prefix_of(name)
    &&& e.is_dir ==> e.name@ == name && (name.len() > 0 ==> name[0] != '.')
    &&& !e.is_dir ==> name.len() > 0 && e.name@ == name + ".cr"@
}

proof fn lemma_require_name(e: DirEntry, typed: Seq<char>, name: Seq<char>)
    ensures
        require_name(e.name@, e.is_dir, typed) == Some(name) <==> entry_offers(e, typed, name),
{
    reveal_strlit(".cr");
    let full = e.name@;
    if !e.is_dir {
        if entry_offers(e, typed, name) {
            assert(full.skip(full.len() - 3) =~= ".cr"@);
            assert(full.take(full.len() - 3) =~= name);
        }
        if full.len() > 3 && ".cr"@.is_suffix_of(full) {
            assert(full =~= full.take(full.len() - 3) + ".cr"@);
        }
    }
}

proof fn lemma_require_names(entries: Seq<DirEntry>, typed: Seq<char>, name: Seq<char>)
    ensures
        require_names(entries, typed).contains(name) <==> exists|i: int|
            0 <= i < entries.len() && entry_offers(#[trigger] entries[i], typed, name),
    decreases entries.len(),
{
    if entries.len() > 0 {
        let front = entries.drop_last();
        let last = entries.last();
        let before = require_names(front, typed);
        lemma_require_names(front, typed, name);
        lemma_require_name(last, typed, name);
        assert(forall|i: int| 0 <= i < front.len() ==> #[trigger] front[i] == entries[i]);
        assert(entries[entries.len() - 1] == last);
        if let Some(x) = require_name(last.name@, last.is_dir, typed) {
            crate::require_glob::lemma_sum_contains(before, seq![x], name);
            assert(before.push(x) =~= before + seq![x]);
            assert(seq![x].contains(name) <==> x == name) by {
                assert(seq![x][0] == x);
            }
        }
        if exists|i: int| 0 <= i < entries.len() && entry_offers(#[trigger] entries[i], typed, name) {
            let i = choose|i: int|
                0 <= i < entries.len() && entry_offers(#[trigger] entries[i], typed, name);
            if i < front.len() {
                assert(entry_offers(front[i], typed, name));
            }
        }
        if before.contains(name) {
            let i = choose|i: int|
                0 <= i < front.len() && entry_offers(#[trigger] front[i], typed, name);
            assert(entry_offers(entries[i], typed, name));
        }
    }
}

/// A `require` offers the directories and Crystal files of its directory that start with what was
/// typed, and inserts their path as it is written; nothing else.
pub proof fn lemma_require_offers(listing: Listing, entries: Seq<DirEntry>, name: Seq<char>)
    ensures
        (exists|k: int|
            0 <= k < require_items(listing, entries).len() && (#[trigger] require_items(
                listing,
                entries,
            )[k]).label == name) <==> exists|i: int|
            0 <= i < entries.len() && entry_offers(#[trigger] entries[i], listing.2, name),
        forall|k: int|
            0 <= k < require_items(listing, entries).len() ==> {
                let item = #[trigger] require_items(listing, entries)[k];
                &&& item.kind == CompletionKind::File
                &&& item.detail is None
                &&& item.insert_text == Some(listing.1 + "/"@ + item.label)
            },
{
    let found = require_names(entries, listing.2);
    let names = stable_sorted(text_order(), found);
    let items = require_items(listing, entries);
    lemma_text_order();
    lemma_stable_sorted(text_order(), found);
    lemma_require_names(entries, listing.2, name);
    names.to_multiset_ensures();
    found.to_multiset_ensures();
    assert(names.to_multiset().count(name) == found.to_multiset().count(name));
    if names.contains(name) {
        let k = choose|k: int| 0 <= k < names.len() && names[k] == name;
        assert(items[k].label == name);
    }
    if exists|k: int| 0 <= k < items.len() && (#[trigger] items[k]).label == name {
        let k = choose|k: int| 0 <= k < items.len() && (#[trigger] items[k]).label == name;
        assert(names[k] == name);
    }
}

} // verus!
