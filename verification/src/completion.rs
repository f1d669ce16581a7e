//! Completing what is being typed.

use vstd::prelude::*;
use vstd::slice::slice_subrange;
use vstd::string::StringSliceAdditionalSpecFns;
use vstd::utf8::{decode_utf8, encode_utf8, is_char_boundary};

use crate::extract::{capitalized, is_capitalized, Sym, Symbol, SymbolKind};
use crate::index::{hit_views, hits, DocumentIndex, Hit, IndexModel, Want};
use crate::order::{lemma_sort_maps, ranking, ranks, stable_sort, stable_sorted, Order, Ranked};
use crate::paths::{
    is_text_at_most, join_path, joined_path, lemma_text_total, lemma_text_transitive, parent,
    parent_path, text_at_most,
};
use crate::protocol::Position;
use crate::text::{
    after_prefix, alphanumeric, chars_of, contains_char, copy, ends_with_text, find_last,
    is_alphanumeric, last_index, lines, opt_str, opt_text, same, starts_with,
    starts_with_text, string_of, strip_prefix, text_lines, texts, trim, trim_end, trimmed,
    trimmed_end, views,
};
use crate::uri::{to_path, uri_path};

verus! {

/// What kind of thing a completion inserts.
#[derive(Debug, Clone, Copy, PartialEq, Eq, Structural)]
pub enum CompletionKind {
    Class,
    Module,
    Struct,
    Enum,
    Method,
    Keyword,
    Function,
    Constant,
    TypeParameter,
    Field,
    File,
}

/// One completion.
#[derive(Debug)]
pub struct CompletionItem {
    pub label: String,
    pub kind: CompletionKind,
    pub detail: Option<String>,
    /// What is inserted, where that is not the label.
    pub insert_text: Option<String>,
}

/// The model of a [`CompletionItem`].
#[verifier::ext_equal]
pub struct Item {
    pub label: Seq<char>,
    pub kind: CompletionKind,
    pub detail: Option<Seq<char>>,
    pub insert_text: Option<Seq<char>>,
}

impl View for CompletionItem {
    type V = Item;

    open spec fn view(&self) -> Item {
        Item {
            label: self.label@,
            kind: self.kind,
            detail: opt_text(self.detail),
            insert_text: opt_text(self.insert_text),
        }
    }
}

/// The models of several completions.
pub open spec fn item_views(s: Seq<CompletionItem>) -> Seq<Item> {
    Seq::new(s.len(), |i: int| s[i]@)
}

// ---------------------------------------------------------------------------
// What is being typed
// ---------------------------------------------------------------------------

/// Whether `c` can be part of a name; `at` tells whether `@` can.
pub open spec fn name_char(c: char, at: bool) -> bool {
    alphanumeric(c) || c == '_' || (at && c == '@')
}

/// The longest end of `s` that is made of name characters.
pub open spec fn trailing_name(s: Seq<char>, at: bool) -> Seq<char>
    decreases s.len(),
{
    if s.len() > 0 && name_char(s.last(), at) {
        trailing_name(s.drop_last(), at).push(s.last())
    } else {
        Seq::empty()
    }
}

fn find_trailing_name(s: &[char], at: bool) -> (r: &[char])
    ensures
        r@ == trailing_name(s@, at),
{
    let mut n: usize = s.len();
    assert(s@.take(n as int) =~= s@);
    assert(s@.skip(n as int) =~= Seq::empty());
    assert(trailing_name(s@, at) + Seq::<char>::empty() =~= trailing_name(s@, at));
    while n > 0 && (is_alphanumeric(s[n - 1]) || s[n - 1] == '_' || (at && s[n - 1] == '@'))
        invariant
            n <= s@.len(),
            trailing_name(s@, at) == trailing_name(s@.take(n as int), at) + s@.skip(n as int),
        decreases n,
    {
        let ghost front = s@.take(n as int);
        assert(front.drop_last() =~= s@.take(n - 1));
        assert(trailing_name(front.drop_last(), at).push(s@[n - 1]) + s@.skip(n as int)
            =~= trailing_name(s@.take(n - 1), at) + s@.skip(n - 1));
        n = n - 1;
    }
    let r = slice_subrange(s, n, s.len());
    assert(r@ =~= s@.skip(n as int));
    assert(trailing_name(s@.take(n as int), at) + r@ =~= r@);
    r
}

/// `None` for an empty name.
pub open spec fn nonempty(s: Seq<char>) -> Option<Seq<char>> {
    if s.len() == 0 {
        None
    } else {
        Some(s)
    }
}

/// The receiver in front of the dot that `prefix` ends with.
pub open spec fn dot_receiver(prefix: Seq<char>) -> Option<Seq<char>> {
    let s = trimmed_end(prefix);
    if s.len() > 0 && s.last() == '.' {
        nonempty(trailing_name(s.drop_last(), true))
    } else {
        None
    }
}

/// Detects `receiver.` and gives the receiver.
pub fn detect_dot_completion(prefix: &str) -> (r: Option<String>)
    ensures
        opt_text(r) == dot_receiver(prefix@),
{
    let chars = chars_of(prefix);
    let s = trim_end(&chars);
    if s.len() == 0 || s[s.len() - 1] != '.' {
        return None;
    }
    let before = slice_subrange(s, 0, s.len() - 1);
    assert(before@ =~= s@.drop_last());
    let name = find_trailing_name(before, true);
    if name.len() == 0 {
        None
    } else {
        Some(string_of(name))
    }
}

/// The scope in front of the `::` that `prefix` ends with.
pub open spec fn scope_receiver(prefix: Seq<char>) -> Option<Seq<char>> {
    let s = trimmed_end(prefix);
    if "::"@.is_suffix_of(s) {
        nonempty(trailing_name(s.take(s.len() - 2), false))
    } else {
        None
    }
}

/// Detects `Scope::` and gives the scope.
pub fn detect_scope_completion(prefix: &str) -> (r: Option<String>)
    ensures
        opt_text(r) == scope_receiver(prefix@),
{
    let chars = chars_of(prefix);
    let s = trim_end(&chars);
    if !ends_with_text(s, "::") {
        return None;
    }
    proof {
        reveal_strlit("::");
    }
    let before = slice_subrange(s, 0, s.len() - 2);
    assert(before@ =~= s@.take(s@.len() - 2));
    let name = find_trailing_name(before, false);
    if name.len() == 0 {
        None
    } else {
        Some(string_of(name))
    }
}

/// What was typed of the path in `require "`, where its closing quote is not there yet.
pub open spec fn require_partial(prefix: Seq<char>) -> Option<Seq<char>> {
    match after_prefix(trimmed(prefix), "require "@) {
        Some(rest) => match after_prefix(rest, "\""@) {
            Some(partial) => if partial.contains('"') {
                None
            } else {
                Some(partial)
            },
            None => None,
        },
        None => None,
    }
}

/// Detects `require "partial` and gives the partial path.
pub fn detect_require_completion(prefix: &str) -> (r: Option<String>)
    ensures
        opt_text(r) == require_partial(prefix@),
{
    let chars = chars_of(prefix);
    match strip_prefix(trim(&chars), "require ") {
        Some(rest) => match strip_prefix(rest, "\"") {
            Some(partial) => if contains_char(partial, '"') {
                None
            } else {
                Some(string_of(partial))
            },
            None => None,
        },
        None => None,
    }
}

/// The part of a word that stands before the cursor.
pub fn extract_word_before_cursor(prefix: &str) -> (r: String)
    ensures
        r@ == trailing_name(prefix@, false),
{
    let chars = chars_of(prefix);
    string_of(find_trailing_name(&chars, false))
}

// ---------------------------------------------------------------------------
// Symbols to offer
// ---------------------------------------------------------------------------

/// Which symbols are offered.
pub enum Offer {
    /// The methods and functions of a type.
    TypeMethods,
    /// All methods.
    AllMethods,
    /// The constants and types in a scope.
    Scope,
    /// Whatever starts with a text.
    General(Seq<char>),
}

/// Whether the symbol `s` is one of those offered.
pub open spec fn offered(o: Offer, s: Sym) -> bool {
    let named_type = s.kind == SymbolKind::Class || s.kind == SymbolKind::Module || s.kind
        == SymbolKind::Struct || s.kind == SymbolKind::Enum || s.kind == SymbolKind::Constant
        || s.kind == SymbolKind::Type;
    match o {
        Offer::TypeMethods => s.kind == SymbolKind::Method || s.kind == SymbolKind::Function,
        Offer::AllMethods => s.kind == SymbolKind::Method,
        Offer::Scope => named_type,
        Offer::General(partial) => (named_type || s.kind == SymbolKind::Method || s.kind
            == SymbolKind::Macro || s.kind == SymbolKind::Function) && partial.is_prefix_of(s.name),
    }
}

/// Whether offering `b` after `a` would offer the same twice: they have the same name, and in a
/// general completion the same kind.
pub open spec fn repeats(o: Offer, a: Sym, b: Sym) -> bool {
    a.name == b.name && (o is General ==> a.kind == b.kind)
}

/// Whether one of `s` makes it needless to offer `b`.
pub open spec fn already(o: Offer, s: Seq<Sym>, b: Sym) -> bool {
    exists|i: int| 0 <= i < s.len() && repeats(o, #[trigger] s[i], b)
}

/// The symbols among `found` that are offered, the first of those that repeat each other.
pub open spec fn offers(o: Offer, found: Seq<Hit>) -> Seq<Sym>
    decreases found.len(),
{
    if found.len() == 0 {
        Seq::empty()
    } else {
        let before = offers(o, found.drop_last());
        let s = found.last().1;
        if offered(o, s) && !already(o, before, s) {
            before.push(s)
        } else {
            before
        }
    }
}

/// Nothing is offered twice.
pub proof fn lemma_offers_distinct(o: Offer, found: Seq<Hit>)
    ensures
        forall|i: int, j: int|
            0 <= i < j < offers(o, found).len() ==> !repeats(
                o,
                #[trigger] offers(o, found)[i],
                #[trigger] offers(o, found)[j],
            ),
    decreases found.len(),
{
    if found.len() > 0 {
        lemma_offers_distinct(o, found.drop_last());
        let before = offers(o, found.drop_last());
        let after = offers(o, found);
        assert forall|i: int, j: int| 0 <= i < j < after.len() implies !repeats(
            o,
            #[trigger] after[i],
            #[trigger] after[j],
        ) by {
            assert(after[i] == before[i]);
            if j < before.len() {
                assert(after[j] == before[j]);
            }
        }
    }
}

/// Every symbol that was found and is one of those offered is offered, itself or by one that it
/// repeats; and only such symbols are.
pub proof fn lemma_offers_complete(o: Offer, found: Seq<Hit>)
    ensures
        forall|i: int|
            0 <= i < found.len() && offered(o, (#[trigger] found[i]).1) ==> already(
                o,
                offers(o, found),
                found[i].1,
            ),
        forall|k: int| 0 <= k < offers(o, found).len() ==> offered(o, #[trigger] offers(o, found)[k]),
    decreases found.len(),
{
    if found.len() > 0 {
        let rest = found.drop_last();
        let before = offers(o, rest);
        let after = offers(o, found);
        lemma_offers_complete(o, rest);
        assert forall|i: int| 0 <= i < found.len() && offered(o, (#[trigger] found[i]).1) implies already(
            o,
            after,
            found[i].1,
        ) by {
            if i < rest.len() {
                assert(rest[i] == found[i]);
                let k = choose|k: int|
                    0 <= k < before.len() && repeats(o, #[trigger] before[k], found[i].1);
                assert(after[k] == before[k]);
                assert(repeats(o, after[k], found[i].1));
            } else if already(o, before, found[i].1) {
                let k = choose|k: int|
                    0 <= k < before.len() && repeats(o, #[trigger] before[k], found[i].1);
                assert(repeats(o, after[k], found[i].1));
            } else {
                assert(repeats(o, after[before.len() as int], found[i].1));
            }
        }
    }
}

/// The kind of completion for a kind of symbol.
pub open spec fn completion_kind(kind: SymbolKind) -> CompletionKind {
    match kind {
        SymbolKind::Class => CompletionKind::Class,
        SymbolKind::Module => CompletionKind::Module,
        SymbolKind::Struct => CompletionKind::Struct,
        SymbolKind::Enum => CompletionKind::Enum,
        SymbolKind::Lib => CompletionKind::Module,
        SymbolKind::Method => CompletionKind::Method,
        SymbolKind::Macro => CompletionKind::Keyword,
        SymbolKind::Function => CompletionKind::Function,
        SymbolKind::Constant => CompletionKind::Constant,
        SymbolKind::Type => CompletionKind::TypeParameter,
        SymbolKind::Field => CompletionKind::Field,
    }
}

/// Tells the kind of completion for a kind of symbol.
pub fn symbol_kind_to_completion_kind(kind: SymbolKind) -> (r: CompletionKind)
    ensures
        r == completion_kind(kind),
{
    match kind {
        SymbolKind::Class => CompletionKind::Class,
        SymbolKind::Module => CompletionKind::Module,
        SymbolKind::Struct => CompletionKind::Struct,
        SymbolKind::Enum => CompletionKind::Enum,
        SymbolKind::Lib => CompletionKind::Module,
        SymbolKind::Method => CompletionKind::Method,
        SymbolKind::Macro => CompletionKind::Keyword,
        SymbolKind::Function => CompletionKind::Function,
        SymbolKind::Constant => CompletionKind::Constant,
        SymbolKind::Type => CompletionKind::TypeParameter,
        SymbolKind::Field => CompletionKind::Field,
    }
}

/// The completion that offers the symbol `s`, with the name of its parent in brackets.
pub open spec fn symbol_item(s: Sym) -> Item {
    Item {
        label: s.name,
        kind: completion_kind(s.kind),
        detail: match s.parent {
            Some(p) => Some("("@ + p + ")"@),
            None => None,
        },
        insert_text: None,
    }
}

/// Makes the completion that offers a symbol.
pub fn symbol_to_completion(sym: &Symbol) -> (r: CompletionItem)
    ensures
        r@ == symbol_item(sym@),
{
    let detail = match &sym.parent {
        Some(p) => {
            let mut d = copy("(");
            d.append(p);
            d.append(")");
            Some(d)
        },
        None => None,
    };
    CompletionItem {
        label: copy(&sym.name),
        kind: symbol_kind_to_completion_kind(sym.kind),
        detail,
        insert_text: None,
    }
}

/// The completions that offer symbols.
pub open spec fn symbol_items(s: Seq<Sym>) -> Seq<Item> {
    Seq::new(s.len(), |i: int| symbol_item(s[i]))
}

/// The executable form of [`Offer`].
enum Offering<'a> {
    TypeMethods,
    AllMethods,
    Scope,
    General(&'a [char]),
}

spec fn offer_of(o: Offering<'_>) -> Offer {
    match o {
        Offering::TypeMethods => Offer::TypeMethods,
        Offering::AllMethods => Offer::AllMethods,
        Offering::Scope => Offer::Scope,
        Offering::General(partial) => Offer::General(partial@),
    }
}

fn is_offered(o: &Offering<'_>, s: &Symbol) -> (r: bool)
    ensures
        r == offered(offer_of(*o), s@),
{
    let named_type = s.kind == SymbolKind::Class || s.kind == SymbolKind::Module || s.kind
        == SymbolKind::Struct || s.kind == SymbolKind::Enum || s.kind == SymbolKind::Constant
        || s.kind == SymbolKind::Type;
    match o {
        Offering::TypeMethods => s.kind == SymbolKind::Method || s.kind == SymbolKind::Function,
        Offering::AllMethods => s.kind == SymbolKind::Method,
        Offering::Scope => named_type,
        Offering::General(partial) => (named_type || s.kind == SymbolKind::Method || s.kind
            == SymbolKind::Macro || s.kind == SymbolKind::Function) && starts_with(
            &chars_of(&s.name),
            partial,
        ),
    }
}

fn is_already(o: &Offering<'_>, kept: &Vec<&Symbol>, b: &Symbol) -> (r: bool)
    ensures
        r == already(offer_of(*o), Seq::new(kept@.len(), |i: int| kept@[i]@), b@),
{
    let ghost model = Seq::new(kept@.len(), |i: int| kept@[i]@);
    let general = match o {
        Offering::General(_) => true,
        _ => false,
    };
    let mut i: usize = 0;
    while i < kept.len()
        invariant
            i <= kept@.len(),
            model == Seq::new(kept@.len(), |i: int| kept@[i]@),
            general == (offer_of(*o) is General),
            forall|k: int| 0 <= k < i ==> !repeats(offer_of(*o), #[trigger] model[k], b@),
        decreases kept@.len() - i,
    {
        assert(model[i as int] == kept@[i as int]@);
        if same(&kept[i].name, &b.name) && (!general || kept[i].kind == b.kind) {
            assert(repeats(offer_of(*o), model[i as int], b@));
            return true;
        }
        i = i + 1;
    }
    false
}

/// Makes the completions for the symbols that are offered.
fn collect_offers(o: &Offering<'_>, found: &Vec<(&str, &Symbol)>) -> (r: Vec<CompletionItem>)
    ensures
        item_views(r@) == symbol_items(offers(offer_of(*o), hit_views(found@))),
{
    let ghost all = hit_views(found@);
    let mut kept: Vec<&Symbol> = Vec::new();
    let mut out: Vec<CompletionItem> = Vec::new();
    let mut i: usize = 0;
    assert(all.take(0) =~= Seq::empty());
    assert(Seq::new(kept@.len(), |i: int| kept@[i]@) =~= Seq::empty());
    assert(item_views(out@) =~= Seq::empty());
    assert(symbol_items(Seq::empty()) =~= Seq::empty());
    while i < found.len()
        invariant
            i <= found@.len(),
            all == hit_views(found@),
            Seq::new(kept@.len(), |i: int| kept@[i]@) == offers(offer_of(*o), all.take(i as int)),
            item_views(out@) == symbol_items(offers(offer_of(*o), all.take(i as int))),
        decreases found@.len() - i,
    {
        let ghost before = offers(offer_of(*o), all.take(i as int));
        let ghost items = item_views(out@);
        let ghost held = kept@;
        let s = found[i].1;
        assert(all[i as int].1 == s@);
        assert(all.take(i + 1).drop_last() =~= all.take(i as int));
        if is_offered(o, s) && !is_already(o, &kept, s) {
            kept.push(s);
            out.push(symbol_to_completion(s));
            assert(Seq::new(kept@.len(), |i: int| kept@[i]@) =~= Seq::new(
                held.len(),
                |i: int| held[i]@,
            ).push(s@));
            assert(item_views(out@) =~= items.push(symbol_item(s@)));
            assert(symbol_items(before.push(s@)) =~= symbol_items(before).push(symbol_item(s@)));
        }
        i = i + 1;
    }
    assert(all.take(i as int) =~= all);
    out
}

/// The completions after a dot: the methods of the receiver where that is a type, else all methods.
pub open spec fn dot_items(ix: IndexModel, receiver: Seq<char>) -> Seq<Item> {
    if capitalized(receiver) {
        symbol_items(offers(Offer::TypeMethods, hits(ix.files, Want::Child(receiver))))
    } else {
        symbol_items(offers(Offer::AllMethods, hits(ix.files, Want::All)))
    }
}

/// Completes methods after a dot.
pub fn complete_dot(index: &DocumentIndex, receiver: &str) -> (r: Vec<CompletionItem>)
    ensures
        item_views(r@) == dot_items(index@, receiver@),
{
    if is_capitalized(receiver) {
        collect_offers(&Offering::TypeMethods, &index.find_by_parent(receiver))
    } else {
        collect_offers(&Offering::AllMethods, &index.all_symbols())
    }
}

/// The completions after `::`: the constants and types in the scope.
pub open spec fn scope_items(ix: IndexModel, scope: Seq<char>) -> Seq<Item> {
    symbol_items(offers(Offer::Scope, hits(ix.files, Want::Child(scope))))
}

/// Completes constants and types after `::`.
pub fn complete_scope(index: &DocumentIndex, scope: &str) -> (r: Vec<CompletionItem>)
    ensures
        item_views(r@) == scope_items(index@, scope@),
{
    collect_offers(&Offering::Scope, &index.find_by_parent(scope))
}

/// How many completions are offered at most.
pub const MAX_COMPLETIONS: usize = 100;

/// The completions of a word: the symbols that start with it, up to [`MAX_COMPLETIONS`].
pub open spec fn general_items(ix: IndexModel, partial: Seq<char>) -> Seq<Item> {
    let all = symbol_items(offers(Offer::General(partial), hits(ix.files, Want::All)));
    if all.len() > MAX_COMPLETIONS {
        all.take(MAX_COMPLETIONS as int)
    } else {
        all
    }
}

/// Completes a word.
pub fn complete_general(index: &DocumentIndex, partial: &str) -> (r: Vec<CompletionItem>)
    ensures
        item_views(r@) == general_items(index@, partial@),
{
    let chars = chars_of(partial);
    let mut items = collect_offers(&Offering::General(&chars), &index.all_symbols());
    let ghost all = item_views(items@);
    if items.len() > MAX_COMPLETIONS {
        items.truncate(MAX_COMPLETIONS);
        assert(item_views(items@) =~= all.take(MAX_COMPLETIONS as int));
    }
    items
}

// ---------------------------------------------------------------------------
// Files to require
// ---------------------------------------------------------------------------

/// An entry of a directory.
#[derive(Debug)]
pub struct DirEntry {
    pub name: String,
    pub is_dir: bool,
}

/// A directory whose entries complete a `require`.
#[derive(Debug)]
pub struct RequireListing {
    /// The directory.
    pub dir: String,
    /// The directory as it is written in the `require`.
    pub written: String,
    /// What the names of the entries must start with.
    pub file_prefix: String,
}

/// The model of a [`RequireListing`]: the directory, how it is written, and the prefix.
pub type Listing = (Seq<char>, Seq<char>, Seq<char>);

impl View for RequireListing {
    type V = Listing;

    open spec fn view(&self) -> Listing {
        (self.dir@, self.written@, self.file_prefix@)
    }
}

/// The directory that completes the path `partial` typed in the file `current`. A path that starts
/// with `./` or `../` is taken up to its last slash; another one is looked up beside the file.
pub open spec fn require_listing(current: Seq<char>, partial: Seq<char>) -> Option<Listing> {
    match parent_path(current) {
        Some(dir) => if "./"@.is_prefix_of(partial) || "../"@.is_prefix_of(partial) {
            let i = last_index(partial, '/')->0;
            Some((joined_path(dir, partial.take(i)), partial.take(i), partial.skip(i + 1)))
        } else {
            Some((dir, "."@, partial))
        },
        None => None,
    }
}

/// Tells which directory completes a `require`.
pub fn plan_require(current_file: &str, partial: &str) -> (r: Option<RequireListing>)
    ensures
        match r {
            Some(l) => require_listing(current_file@, partial@) == Some(l@),
            None => require_listing(current_file@, partial@) is None,
        },
{
    let dir = match parent(current_file) {
        Some(d) => d,
        None => {
            return None;
        },
    };
    let chars = chars_of(partial);
    if starts_with_text(&chars, "./") || starts_with_text(&chars, "../") {
        match find_last(&chars, '/') {
            Some(i) => {
                let front = slice_subrange(&chars, 0, i);
                let back = slice_subrange(&chars, i + 1, chars.len());
                assert(front@ =~= partial@.take(i as int));
                assert(back@ =~= partial@.skip(i + 1));
                let written = string_of(front);
                Some(
                    RequireListing {
                        dir: join_path(&dir, &written),
                        written,
                        file_prefix: string_of(back),
                    },
                )
            },
            None => {
                proof {
                    reveal_strlit("./");
                    reveal_strlit("../");
                    let at: int = if "./"@.is_prefix_of(partial@) {
                        assert(partial@.take(2)[1] == "./"@[1]);
                        1
                    } else {
                        assert(partial@.take(3)[2] == "../"@[2]);
                        2
                    };
                    lemma_last_index_found(partial@, '/', partial@.len() as int, at);
                }
                None
            },
        }
    } else {
        Some(RequireListing { dir, written: copy("."), file_prefix: copy(partial) })
    }
}

proof fn lemma_last_index_found(s: Seq<char>, c: char, n: int, at: int)
    requires
        0 <= at < n <= s.len(),
        s[at] == c,
    ensures
        crate::text::last_index_before(s, c, n) is Some,
    decreases n,
{
    if s[n - 1] != c {
        lemma_last_index_found(s, c, n - 1, at);
    }
}

/// What the entry `name` of a directory is called in a `require`: a directory by its name unless
/// that is hidden, a Crystal file by its name without the extension.
pub open spec fn require_name(name: Seq<char>, is_dir: bool, prefix: Seq<char>) -> Option<
    Seq<char>,
> {
    if is_dir {
        if prefix.is_prefix_of(name) && !(name.len() > 0 && name[0] == '.') {
            Some(name)
        } else {
            None
        }
    } else if name.len() > 3 && ".cr"@.is_suffix_of(name) && prefix.is_prefix_of(
        name.take(name.len() - 3),
    ) {
        Some(name.take(name.len() - 3))
    } else {
        None
    }
}

/// What the entries of a directory are called in a `require`, as they come.
pub open spec fn require_names(entries: Seq<DirEntry>, prefix: Seq<char>) -> Seq<Seq<char>>
    decreases entries.len(),
{
    if entries.len() == 0 {
        Seq::empty()
    } else {
        let before = require_names(entries.drop_last(), prefix);
        match require_name(entries.last().name@, entries.last().is_dir, prefix) {
            Some(name) => before.push(name),
            None => before,
        }
    }
}

/// The order of texts.
pub open spec fn text_order() -> Order<Seq<char>> {
    |a: Seq<char>, b: Seq<char>| text_at_most(a, b)
}

/// Texts are ranked by their order.
pub proof fn lemma_text_order()
    ensures
        ranks(text_order()),
{
    let le = text_order();
    assert forall|a: Seq<char>, b: Seq<char>| #[trigger] le(a, b) || le(b, a) by {
        lemma_text_total(a, b);
    }
    assert forall|a: Seq<char>, b: Seq<char>, c: Seq<char>| #[trigger]
        le(a, b) && #[trigger] le(b, c) implies le(a, c) by {
        lemma_text_transitive(a, b, c);
    }
}

/// A name that is ranked by its text.
struct Label {
    name: String,
}

impl Ranked for Label {
    closed spec fn before(self, other: Self) -> bool {
        text_at_most(self.name@, other.name@)
    }

    fn may_precede(&self, other: &Self) -> (r: bool) {
        let a = chars_of(&self.name);
        let b = chars_of(&other.name);
        is_text_at_most(&a, &b)
    }
}

fn read_require_name(entry: &DirEntry, prefix: &[char]) -> (r: Option<String>)
    ensures
        opt_text(r) == require_name(entry.name@, entry.is_dir, prefix@),
{
    let name = chars_of(&entry.name);
    if entry.is_dir {
        if starts_with(&name, prefix) && !(name.len() > 0 && name[0] == '.') {
            Some(copy(&entry.name))
        } else {
            None
        }
    } else if name.len() > 3 && ends_with_text(&name, ".cr") {
        let stem = slice_subrange(&name, 0, name.len() - 3);
        assert(stem@ =~= name@.take(name@.len() - 3));
        if starts_with(stem, prefix) {
            Some(string_of(stem))
        } else {
            None
        }
    } else {
        None
    }
}

/// The names of the directories and Crystal files among the entries of a directory that start with
/// `prefix`, in order and without the extension.
pub fn list_cr_files(entries: &Vec<DirEntry>, prefix: &str) -> (r: Vec<String>)
    ensures
        texts(r@) == stable_sorted(text_order(), require_names(entries@, prefix@)),
{
    let prefix = chars_of(prefix);
    let mut found: Vec<Label> = Vec::new();
    let ghost f = |l: Label| l.name@;
    let mut i: usize = 0;
    assert(entries@.take(0) =~= Seq::empty());
    assert(found@.map_values(f) =~= Seq::empty());
    while i < entries.len()
        invariant
            i <= entries@.len(),
            f == (|l: Label| l.name@),
            found@.map_values(f) == require_names(entries@.take(i as int), prefix@),
        decreases entries@.len() - i,
    {
        let ghost before = found@.map_values(f);
        assert(entries@.take(i + 1).drop_last() =~= entries@.take(i as int));
        if let Some(name) = read_require_name(&entries[i], &prefix) {
            found.push(Label { name });
            assert(found@.map_values(f) =~= before.push(name@));
        }
        i = i + 1;
    }
    assert(entries@.take(i as int) =~= entries@);
    let ghost all = found@;
    let sorted = stable_sort(found);
    proof {
        lemma_sort_maps(ranking::<Label>(), text_order(), f, all);
    }
    let mut out: Vec<String> = Vec::new();
    let ghost names = sorted@.map_values(f);
    assert(texts(out@) =~= names.take(0));
    for l in it: sorted
        invariant
            it.seq() == sorted@,
            f == (|l: Label| l.name@),
            names == sorted@.map_values(f),
            texts(out@) == names.take(it.index() as int),
    {
        let ghost before = texts(out@);
        let ghost k = it.index() as int;
        assert(names[k] == l.name@);
        out.push(l.name);
        assert(texts(out@) =~= before.push(names[k]));
        assert(names.take(k + 1) =~= names.take(k).push(names[k]));
    }
    assert(names.take(names.len() as int) =~= names);
    out
}

/// The completion that requires the file `name` from the directory that is written `written`.
pub open spec fn file_item(written: Seq<char>, name: Seq<char>) -> Item {
    Item {
        label: name,
        kind: CompletionKind::File,
        detail: None,
        insert_text: Some(written + "/"@ + name),
    }
}

/// The completions of a `require` from the entries of its directory.
pub open spec fn require_items(listing: Listing, entries: Seq<DirEntry>) -> Seq<Item> {
    let names = stable_sorted(text_order(), require_names(entries, listing.2));
    Seq::new(names.len(), |i: int| file_item(listing.1, names[i]))
}

/// Completes a `require` from the entries of its directory; a directory that cannot be read has
/// none.
pub fn complete_require(listing: &RequireListing, entries: &Vec<DirEntry>) -> (r: Vec<
    CompletionItem,
>)
    ensures
        item_views(r@) == require_items(listing@, entries@),
{
    let names = list_cr_files(entries, &listing.file_prefix);
    let ghost model = texts(names@);
    let mut out: Vec<CompletionItem> = Vec::new();
    for name in it: names
        invariant
            it.seq() == names@,
            model == texts(names@),
            out@.len() == it.index(),
            forall|k: int|
                0 <= k < out@.len() ==> (#[trigger] out@[k])@ == file_item(
                    listing.written@,
                    model[k],
                ),
    {
        assert(model[it.index() as int] == name@);
        let mut insert = copy(&listing.written);
        insert.append("/");
        insert.append(&name);
        out.push(
            CompletionItem {
                label: name,
                kind: CompletionKind::File,
                detail: None,
                insert_text: Some(insert),
            },
        );
    }
    assert(item_views(out@) =~= require_items(listing@, entries@));
    out
}

// ---------------------------------------------------------------------------
// The request
// ---------------------------------------------------------------------------

/// The text of a line in front of the byte column `col`, or the whole line where it is shorter.
pub open spec fn line_prefix(line: Seq<char>, col: int) -> Seq<char> {
    let bytes = encode_utf8(line);
    if col <= bytes.len() {
        decode_utf8(bytes.take(col))
    } else {
        line
    }
}

/// Whether the byte column `col` of a line does not fall inside a character.
pub open spec fn column_ok(line: Seq<char>, col: int) -> bool {
    col <= encode_utf8(line).len() ==> is_char_boundary(encode_utf8(line), col)
}

/// Whether a position in a document does not fall inside a character.
pub open spec fn position_ok(source: Seq<char>, position: Position) -> bool {
    position.line < text_lines(source).len() ==> column_ok(
        text_lines(source)[position.line as int],
        position.character as int,
    )
}

/// What a completion request leads to.
#[derive(Debug)]
pub enum CompletionPlan {
    /// These completions are the answer.
    Items(Vec<CompletionItem>),
    /// The entries of a directory have to be listed first.
    List(RequireListing),
}

/// The model of a [`CompletionPlan`].
pub enum Plan {
    Items(Seq<Item>),
    List(Listing),
}

impl View for CompletionPlan {
    type V = Plan;

    open spec fn view(&self) -> Plan {
        match self {
            CompletionPlan::Items(items) => Plan::Items(item_views(items@)),
            CompletionPlan::List(listing) => Plan::List(listing@),
        }
    }
}

/// How the text `prefix` in front of the cursor in the file `current` is completed.
pub open spec fn completion_of(ix: IndexModel, current: Seq<char>, prefix: Seq<char>) -> Plan {
    match dot_receiver(prefix) {
        Some(receiver) => Plan::Items(dot_items(ix, receiver)),
        None => match scope_receiver(prefix) {
            Some(scope) => Plan::Items(scope_items(ix, scope)),
            None => match require_partial(prefix) {
                Some(partial) => match require_listing(current, partial) {
                    Some(listing) => Plan::List(listing),
                    None => Plan::Items(Seq::empty()),
                },
                None => Plan::Items(general_items(ix, trailing_name(prefix, false))),
            },
        },
    }
}

/// Completes the text in front of the cursor.
pub fn complete_prefix(index: &DocumentIndex, current_path: &str, prefix: &str) -> (r:
    CompletionPlan)
    ensures
        r@ == completion_of(index@, current_path@, prefix@),
{
    if let Some(receiver) = detect_dot_completion(prefix) {
        CompletionPlan::Items(complete_dot(index, &receiver))
    } else if let Some(scope) = detect_scope_completion(prefix) {
        CompletionPlan::Items(complete_scope(index, &scope))
    } else if let Some(partial) = detect_require_completion(prefix) {
        match plan_require(current_path, &partial) {
            Some(listing) => CompletionPlan::List(listing),
            None => {
                let none: Vec<CompletionItem> = Vec::new();
                assert(item_views(none@) =~= Seq::empty());
                CompletionPlan::Items(none)
            },
        }
    } else {
        let partial = extract_word_before_cursor(prefix);
        CompletionPlan::Items(complete_general(index, &partial))
    }
}

/// The answer to a completion request.
pub open spec fn completion_answer(
    ix: IndexModel,
    uri: Seq<char>,
    position: Position,
    source: Option<Seq<char>>,
) -> Option<Plan> {
    match (uri_path(uri), source) {
        (Some(path), Some(text)) => if position.line < text_lines(text).len() {
            let line = text_lines(text)[position.line as int];
            Some(completion_of(ix, path, line_prefix(line, position.character as int)))
        } else {
            None
        },
        _ => None,
    }
}

/// The model of an optional plan.
pub open spec fn opt_plan(p: Option<CompletionPlan>) -> Option<Plan> {
    match p {
        Some(p) => Some(p@),
        None => None,
    }
}

/// Decides whether a position does not fall inside a character.
pub fn is_position_ok(source: &str, position: Position) -> (r: bool)
    ensures
        r == position_ok(source@, position),
{
    let all = lines(source);
    let row: usize = position.line as usize;
    let col: usize = position.character as usize;
    if row >= all.len() {
        assert(views(all@).len() == all@.len());
        return true;
    }
    assert(views(all@)[row as int] == all@[row as int]@);
    let line = string_of(&all[row]);
    let s = line.as_str();
    col > s.as_bytes().len() || s.is_char_boundary(col)
}

/// Answers a completion request. There is no answer for a URI that names no file, a document that
/// is not open, or a line beyond its end.
pub fn handle(
    index: &DocumentIndex,
    uri: &str,
    position: Position,
    source: Option<&str>,
) -> (r: Option<CompletionPlan>)
    requires
        uri_path(uri@) is Some ==> (source matches Some(text) ==> position_ok(text@, position)),
    ensures
        opt_plan(r) == completion_answer(index@, uri@, position, opt_str(source)),
{
    let path = match to_path(uri) {
        Some(p) => p,
        None => {
            return None;
        },
    };
    let source = match source {
        Some(s) => s,
        None => {
            return None;
        },
    };
    let all = lines(source);
    let row: usize = position.line as usize;
    let col: usize = position.character as usize;
    assert(views(all@).len() == all@.len());
    if row >= all.len() {
        return None;
    }
    assert(views(all@)[row as int] == all@[row as int]@);
    let line = string_of(&all[row]);
    let s = line.as_str();
    if col <= s.as_bytes().len() {
        let (prefix, _) = s.split_at(col);
        proof {
            let bytes = encode_utf8(line@);
            assert(prefix.spec_bytes() =~= bytes.take(col as int));
            vstd::utf8::encode_utf8_decode_utf8(prefix@);
        }
        Some(complete_prefix(index, &path, prefix))
    } else {
        Some(complete_prefix(index, &path, s))
    }
}

} // verus!
