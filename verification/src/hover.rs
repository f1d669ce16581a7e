//! What is shown for the thing under the cursor.
//!
//! Some answers need a file to be read, a path to be looked up or the compiler to be run. For these
//! [`handle`] tells what is needed, and the functions that finish the answer take the outcome.

use vstd::prelude::*;
use vstd::slice::slice_subrange;

use crate::definition::{
    classified, classify_node, find_named, hit_order, named_hits, sort_results,
};
use crate::extract::{Sym, Symbol, SymbolKind};
use crate::index::{first_ivar, hit_views, DocumentIndex, IndexModel};
use crate::literals::{is_unclosed, unclosed};
use crate::order::stable_sorted;
use crate::paths::{
    is_same_path, join_path, joined_path, parent, parent_path, path_with_extension, same_path,
    with_extension,
};
use crate::protocol::{narrow, Position};
use crate::resolver::relative;
use crate::syntax::{
    child_by_field, field_of, field_text, first_named, first_named_child, is_kind, lemma_model,
    located, node_at, parse_at, parsed, subtree, text_of, text_of_field,
    valid_path, SynTree, SyntaxNode,
};
use crate::text::{
    after_prefix, chars_of, contains_char, copy, copy_opt, find_last, find_text, first_occurrence,
    join, joined, last_index, lines, opt_str, opt_text, push_chars, same, starts_with_text,
    string_of, strip_prefix, text_lines, texts, trim, trim_end, trim_start, trimmed, trimmed_end,
    trimmed_start, until_space, views,
};
use crate::uri::{to_path, uri_path};

verus! {

// ---------------------------------------------------------------------------
// Macro expansions
// ---------------------------------------------------------------------------

/// An expansion that is kept.
#[derive(Debug)]
pub struct CachedExpansion {
    pub path: String,
    pub line: u32,
    pub col: u32,
    /// The expansion; `None` where the compiler gave none.
    pub expansion: Option<String>,
}

/// Keeps the expansions of macros by file, line and column. Those of a file are dropped when the
/// file changes.
#[derive(Debug)]
pub struct MacroExpansionCache {
    pub entries: Vec<CachedExpansion>,
}

/// Whether the expansion `e` is that at a place.
pub open spec fn expansion_at(e: CachedExpansion, path: Seq<char>, line: u32, col: u32) -> bool {
    same_path(e.path@, path) && e.line == line && e.col == col
}

/// What is kept for a place among the entries from `i` on.
pub open spec fn cached_from(
    entries: Seq<CachedExpansion>,
    path: Seq<char>,
    line: u32,
    col: u32,
    i: int,
) -> Option<Option<Seq<char>>>
    decreases entries.len() - i,
{
    if i < 0 || i >= entries.len() {
        None
    } else if expansion_at(entries[i], path, line, col) {
        Some(opt_text(entries[i].expansion))
    } else {
        cached_from(entries, path, line, col, i + 1)
    }
}

proof fn lemma_cached_push(
    entries: Seq<CachedExpansion>,
    e: CachedExpansion,
    path: Seq<char>,
    line: u32,
    col: u32,
    i: int,
)
    requires
        0 <= i <= entries.len(),
    ensures
        cached_from(entries.push(e), path, line, col, i) == if cached_from(
            entries,
            path,
            line,
            col,
            i,
        ) is Some {
            cached_from(entries, path, line, col, i)
        } else if expansion_at(e, path, line, col) {
            Some(opt_text(e.expansion))
        } else {
            None
        },
    decreases entries.len() - i,
{
    let more = entries.push(e);
    if i < entries.len() {
        assert(more[i] == entries[i]);
        lemma_cached_push(entries, e, path, line, col, i + 1);
    } else {
        assert(more[i] == e);
        assert(cached_from(more, path, line, col, i + 1) is None);
    }
}

impl MacroExpansionCache {
    /// What is kept for a place: nothing, or the outcome of an expansion.
    pub open spec fn cached(&self, path: Seq<char>, line: u32, col: u32) -> Option<
        Option<Seq<char>>,
    > {
        cached_from(self.entries@, path, line, col, 0)
    }

    pub fn new() -> (r: Self)
        ensures
            forall|path: Seq<char>, line: u32, col: u32| r.cached(path, line, col) is None,
    {
        MacroExpansionCache { entries: Vec::new() }
    }

    /// Drops what is kept for a file.
    pub fn invalidate(&mut self, path: &str)
        ensures
            forall|p: Seq<char>, line: u32, col: u32|
                #![trigger final(self).cached(p, line, col)]
                final(self).cached(p, line, col) == if same_path(p, path@) {
                    None
                } else {
                    old(self).cached(p, line, col)
                },
    {
        let ghost before = self.entries@;
        let mut kept: Vec<CachedExpansion> = Vec::new();
        let mut old_entries: Vec<CachedExpansion> = Vec::new();
        std::mem::swap(&mut self.entries, &mut old_entries);
        for e in it: old_entries
            invariant
                it.seq() == before,
                forall|p: Seq<char>, line: u32, col: u32|
                    #![trigger cached_from(kept@, p, line, col, 0)]
                    cached_from(kept@, p, line, col, 0) == if same_path(p, path@) {
                        None
                    } else {
                        cached_from(before.take(it.index() as int), p, line, col, 0)
                    },
        {
            let ghost k = it.index() as int;
            let ghost held = kept@;
            let drop = is_same_path(&e.path, path);
            assert(before.take(k + 1) =~= before.take(k).push(before[k]));
            if !drop {
                kept.push(e);
            }
            proof {
                assert forall|p: Seq<char>, line: u32, col: u32|
                    #![trigger cached_from(kept@, p, line, col, 0)]
                    cached_from(kept@, p, line, col, 0) == if same_path(p, path@) {
                        None
                    } else {
                        cached_from(before.take(k + 1), p, line, col, 0)
                    } by {
                    lemma_cached_push(before.take(k), before[k], p, line, col, 0);
                    assert(cached_from(held, p, line, col, 0) == if same_path(p, path@) {
                        None
                    } else {
                        cached_from(before.take(k), p, line, col, 0)
                    });
                    if !drop {
                        lemma_cached_push(held, e, p, line, col, 0);
                    }
                }
            }
        }
        assert(before.take(before.len() as int) =~= before);
        self.entries = kept;
    }

    /// What is kept for a place.
    pub fn lookup(&self, path: &str, line: u32, col: u32) -> (r: Option<&Option<String>>)
        ensures
            match r {
                Some(e) => self.cached(path@, line, col) == Some(opt_text(*e)),
                None => self.cached(path@, line, col) is None,
            },
    {
        let mut i: usize = 0;
        while i < self.entries.len()
            invariant
                i <= self.entries@.len(),
                self.cached(path@, line, col) == cached_from(
                    self.entries@,
                    path@,
                    line,
                    col,
                    i as int,
                ),
            decreases self.entries@.len() - i,
        {
            let e = &self.entries[i];
            if e.line == line && e.col == col && is_same_path(&e.path, path) {
                return Some(&e.expansion);
            }
            i = i + 1;
        }
        None
    }

    /// The expansion at a place: what is kept for it, or the outcome `result` of asking the
    /// compiler, which is kept from then on.
    pub fn get_or_expand(&mut self, path: &str, line: u32, col: u32, result: Option<String>) -> (r:
        Option<String>)
        ensures
            opt_text(r) == match old(self).cached(path@, line, col) {
                Some(kept) => kept,
                None => opt_text(result),
            },
            forall|p: Seq<char>, l: u32, c: u32|
                #![trigger final(self).cached(p, l, c)]
                final(self).cached(p, l, c) == if same_path(p, path@) && l == line && c == col {
                    Some(opt_text(r))
                } else {
                    old(self).cached(p, l, c)
                },
    {
        if let Some(kept) = self.lookup(path, line, col) {
            let r = match kept {
                Some(t) => Some(copy(t)),
                None => None,
            };
            proof {
                assert forall|p: Seq<char>, l: u32, c: u32|
                    #![trigger self.cached(p, l, c)]
                    same_path(p, path@) && l == line && c == col implies self.cached(p, l, c)
                    == Some(opt_text(r)) by {
                    lemma_cached_same(self.entries@, p, path@, l, c, 0);
                }
            }
            return r;
        }
        let r = match &result {
            Some(t) => Some(copy(t)),
            None => None,
        };
        self.store(path, line, col, result);
        r
    }

    /// Keeps the outcome of an expansion for a place for which nothing is kept.
    pub fn store(&mut self, path: &str, line: u32, col: u32, expansion: Option<String>)
        requires
            old(self).cached(path@, line, col) is None,
        ensures
            forall|p: Seq<char>, l: u32, c: u32|
                #![trigger final(self).cached(p, l, c)]
                final(self).cached(p, l, c) == if same_path(p, path@) && l == line && c == col {
                    Some(opt_text(expansion))
                } else {
                    old(self).cached(p, l, c)
                },
    {
        let ghost before = self.entries@;
        let e = CachedExpansion { path: copy(path), line, col, expansion };
        self.entries.push(e);
        proof {
            assert forall|p: Seq<char>, l: u32, c: u32|
                #![trigger cached_from(self.entries@, p, l, c, 0)]
                cached_from(self.entries@, p, l, c, 0) == if same_path(p, path@) && l == line && c
                    == col {
                    Some(opt_text(expansion))
                } else {
                    cached_from(before, p, l, c, 0)
                } by {
                lemma_cached_push(before, e, p, l, c, 0);
                if same_path(p, path@) && l == line && c == col {
                    lemma_cached_same(before, p, path@, l, c, 0);
                }
            }
        }
    }

    /// Whether something is kept for a place.
    pub fn contains_key(&self, path: &str, line: u32, col: u32) -> (r: bool)
        ensures
            r == self.cached(path@, line, col) is Some,
    {
        self.lookup(path, line, col).is_some()
    }

    /// Whether nothing is kept.
    pub fn is_empty(&self) -> (r: bool)
        ensures
            r == forall|path: Seq<char>, line: u32, col: u32|
                #![trigger self.cached(path, line, col)]
                self.cached(path, line, col) is None,
    {
        if self.entries.len() == 0 {
            true
        } else {
            proof {
                let e = self.entries@[0];
                assert(expansion_at(e, e.path@, e.line, e.col));
                assert(self.cached(e.path@, e.line, e.col) is Some);
            }
            false
        }
    }
}

proof fn lemma_cached_same(
    entries: Seq<CachedExpansion>,
    p: Seq<char>,
    q: Seq<char>,
    line: u32,
    col: u32,
    i: int,
)
    requires
        same_path(p, q),
    ensures
        cached_from(entries, p, line, col, i) == cached_from(entries, q, line, col, i),
    decreases entries.len() - i,
{
    if 0 <= i < entries.len() {
        lemma_cached_same(entries, p, q, line, col, i + 1);
    }
}

// ---------------------------------------------------------------------------
// Signatures and comments
// ---------------------------------------------------------------------------

/// The line `i` without the white space around it; empty where there is no such line.
pub open spec fn line_at(lines: Seq<Seq<char>>, i: int) -> Seq<char> {
    if 0 <= i < lines.len() {
        trimmed(lines[i])
    } else {
        Seq::empty()
    }
}

fn get_line(lines: &Vec<Vec<char>>, index: usize) -> (r: String)
    ensures
        r@ == line_at(views(lines@), index as int),
{
    if index < lines.len() {
        assert(views(lines@)[index as int] == lines@[index as int]@);
        string_of(trim(&lines[index]))
    } else {
        let r = String::new();
        assert(r@ =~= Seq::empty());
        r
    }
}

/// The signature `sig` with the lines from `i` on, each after a line feed, up to the one that closes
/// its brackets.
pub open spec fn closed_signature(sig: Seq<char>, lines: Seq<Seq<char>>, i: int) -> Seq<char>
    decreases lines.len() - i,
{
    if i < 0 || i >= lines.len() || !unclosed(sig) {
        sig
    } else {
        closed_signature(sig + "\n"@ + lines[i], lines, i + 1)
    }
}

/// The signature that starts on the line `start`. Where its round brackets are not closed there, the
/// lines up to the one that closes them belong to it; brackets in literals and comments do not
/// count.
pub open spec fn signature(lines: Seq<Seq<char>>, start: int) -> Seq<char> {
    closed_signature(line_at(lines, start), lines, start + 1)
}

/// Reads the signature that starts on a line.
fn extract_signature(lines: &Vec<Vec<char>>, start: usize) -> (r: String)
    ensures
        r@ == signature(views(lines@), start as int),
{
    let ghost all = views(lines@);
    let mut sig = get_line(lines, start);
    let n: usize = lines.len();
    if start >= n {
        return sig;
    }
    let mut i: usize = start + 1;
    while i < n && is_unclosed(&chars_of(&sig))
        invariant
            start < i <= n,
            n == lines@.len(),
            all == views(lines@),
            signature(all, start as int) == closed_signature(sig@, all, i as int),
        decreases n - i,
    {
        assert(all[i as int] == lines@[i as int]@);
        sig.append("\n");
        push_chars(&mut sig, &lines[i]);
        i = i + 1;
    }
    sig
}

/// The text of the comment line `t`: what follows `# ` or `#`.
pub open spec fn comment_text(t: Seq<char>) -> Seq<char> {
    match after_prefix(t, "# "@) {
        Some(rest) => rest,
        None => t.skip(1),
    }
}

/// The comment lines that end in front of the line `i`.
pub open spec fn comment_lines(lines: Seq<Seq<char>>, i: int) -> Seq<Seq<char>>
    decreases i,
{
    if i <= 0 || i > lines.len() {
        Seq::empty()
    } else {
        let t = trimmed(lines[i - 1]);
        if t.len() > 0 && t[0] == '#' {
            comment_lines(lines, i - 1).push(comment_text(t))
        } else {
            Seq::empty()
        }
    }
}

/// The comment above the line `line`.
pub open spec fn doc_comment(lines: Seq<Seq<char>>, line: int) -> Option<Seq<char>> {
    let found = comment_lines(lines, line);
    if found.len() == 0 {
        None
    } else {
        Some(joined(found, "\n"@))
    }
}

fn collect_comments(lines: &Vec<Vec<char>>, i: usize, out: &mut Vec<String>)
    requires
        i <= lines@.len(),
    ensures
        texts(final(out)@) == texts(old(out)@) + comment_lines(views(lines@), i as int),
    decreases i,
{
    let ghost start = texts(out@);
    let ghost all = views(lines@);
    if i == 0 {
        assert(start + comment_lines(all, 0) =~= start);
        return ;
    }
    assert(all[i - 1] == lines@[i - 1]@);
    let t = trim(&lines[i - 1]);
    if t.len() > 0 && t[0] == '#' {
        collect_comments(lines, i - 1, out);
        let ghost before = texts(out@);
        let text = match strip_prefix(t, "# ") {
            Some(rest) => string_of(rest),
            None => {
                let rest = slice_subrange(t, 1, t.len());
                assert(rest@ =~= t@.skip(1));
                string_of(rest)
            },
        };
        out.push(text);
        assert(texts(out@) =~= before.push(text@));
        assert(start + comment_lines(all, i - 1).push(text@) =~= before.push(text@));
    } else {
        assert(start + comment_lines(all, i as int) =~= start);
    }
}

/// Reads the comment above a line.
fn extract_doc_comment(lines: &Vec<Vec<char>>, def_line: usize) -> (r: Option<String>)
    requires
        def_line <= lines@.len(),
    ensures
        opt_text(r) == doc_comment(views(lines@), def_line as int),
{
    let mut found: Vec<String> = Vec::new();
    assert(texts(found@) =~= Seq::empty());
    collect_comments(lines, def_line, &mut found);
    assert(texts(found@) =~= comment_lines(views(lines@), def_line as int));
    assert(texts(found@).len() == found@.len());
    if found.len() == 0 {
        None
    } else {
        Some(join(&found, "\n"))
    }
}

/// Whether the signature `sig` names a return type: a colon after its last closing bracket, or
/// without one right after the name of the method.
pub open spec fn names_return_type(sig: Seq<char>) -> bool {
    match last_index(sig, ')') {
        Some(i) => sig.skip(i + 1).contains(':'),
        None => match first_occurrence(sig, "def "@) {
            Some(p) => {
                let after = sig.skip(p + 4);
                let rest = trimmed_start(after.skip(until_space(after).len() as int));
                rest.len() > 0 && rest[0] == ':'
            },
            None => false,
        },
    }
}

proof fn lemma_until_space(s: Seq<char>)
    ensures
        until_space(s).len() <= s.len(),
        until_space(s) == s.take(until_space(s).len() as int),
    decreases s.len(),
{
    if s.len() > 0 && !crate::text::whitespace(s[0]) {
        lemma_until_space(s.skip(1));
        let n = until_space(s.skip(1)).len() as int;
        assert(s.take(n + 1) =~= seq![s[0]] + s.skip(1).take(n));
    } else {
        assert(s.take(0) =~= Seq::empty());
    }
}

/// What stands after the first word of `s`, from the white space on.
fn after_word(s: &[char]) -> (r: &[char])
    ensures
        r@ == s@.skip(until_space(s@).len() as int),
{
    proof {
        lemma_until_space(s@);
    }
    let mut i: usize = 0;
    assert(s@.skip(0) =~= s@);
    while i < s.len() && !crate::text::is_whitespace(s[i])
        invariant
            i <= s@.len(),
            until_space(s@).len() == i + until_space(s@.skip(i as int)).len(),
        decreases s@.len() - i,
    {
        assert(s@.skip(i as int).skip(1) =~= s@.skip(i + 1));
        i = i + 1;
    }
    let r = slice_subrange(s, i, s.len());
    assert(r@ =~= s@.skip(i as int));
    r
}

/// Decides whether a signature names a return type.
pub fn signature_has_return_type(sig: &str) -> (r: bool)
    ensures
        r == names_return_type(sig@),
{
    let chars = chars_of(sig);
    let n: usize = chars.len();
    if let Some(i) = find_last(&chars, ')') {
        let after = slice_subrange(&chars, i + 1, n);
        assert(after@ =~= sig@.skip(i + 1));
        return contains_char(after, ':');
    }
    match find_text(&chars, "def ") {
        Some(p) => {
            proof {
                reveal_strlit("def ");
            }
            let after = slice_subrange(&chars, p + 4, n);
            assert(after@ =~= sig@.skip(p + 4));
            let rest = trim_start(after_word(after));
            rest.len() > 0 && rest[0] == ':'
        },
        None => false,
    }
}

// ---------------------------------------------------------------------------
// Markdown
// ---------------------------------------------------------------------------

/// A block of Crystal code.
pub open spec fn code_block(code: Seq<char>) -> Seq<char> {
    "```crystal\n"@ + code + "\n```"@
}

fn make_code_block(code: &str) -> (r: String)
    ensures
        r@ == code_block(code@),
{
    let mut s = copy("```crystal\n");
    s.append(code);
    s.append("\n```");
    s
}

/// A sequence of the text that is there.
pub open spec fn if_some(s: Option<Seq<char>>) -> Seq<Seq<char>> {
    match s {
        Some(t) => seq![t],
        None => Seq::empty(),
    }
}

/// The code, unless it is empty, as a block.
pub open spec fn shown_code(code: Seq<char>) -> Seq<Seq<char>> {
    if code.len() == 0 {
        Seq::empty()
    } else {
        seq![code_block(code)]
    }
}

/// Code with its comment.
pub open spec fn hover_text(code: Seq<char>, doc: Option<Seq<char>>) -> Seq<char> {
    joined(shown_code(code) + if_some(doc), "\n\n"@)
}

fn format_hover(code: &str, doc: &Option<String>) -> (r: String)
    ensures
        r@ == hover_text(code@, opt_text(*doc)),
{
    let mut parts: Vec<String> = Vec::new();
    if chars_of(code).len() > 0 {
        parts.push(make_code_block(code));
    }
    assert(texts(parts@) =~= shown_code(code@));
    if let Some(d) = doc {
        parts.push(copy(d));
    }
    assert(texts(parts@) =~= shown_code(code@) + if_some(opt_text(*doc)));
    join(&parts, "\n\n")
}

/// What is shown for a method with the signature `sig`, the comment `doc` and the type
/// `return_type` that its body ends with. The type is added where the signature names none, and is
/// marked as inferred.
pub open spec fn method_text(
    sig: Seq<char>,
    doc: Option<Seq<char>>,
    return_type: Option<Seq<char>>,
) -> Seq<char> {
    if !names_return_type(sig) && return_type is Some {
        let ty = return_type->0;
        joined(
            seq![
                code_block(trimmed_end(sig) + " : "@ + ty),
                "*inferred return type: "@ + ty + "*"@,
            ] + if_some(doc),
            "\n\n"@,
        )
    } else {
        hover_text(sig, doc)
    }
}

fn format_method_hover(signature: &str, doc: &Option<String>, sym: &Symbol) -> (r: String)
    ensures
        r@ == method_text(signature@, opt_text(*doc), sym@.return_type),
{
    if !signature_has_return_type(signature) {
        if let Some(ty) = &sym.return_type {
            let chars = chars_of(signature);
            let mut shown = string_of(trim_end(&chars));
            shown.append(" : ");
            shown.append(ty);
            let mut label = copy("*inferred return type: ");
            label.append(ty);
            label.append("*");
            let mut parts: Vec<String> = Vec::new();
            parts.push(make_code_block(&shown));
            parts.push(label);
            let ghost two = texts(parts@);
            if let Some(d) = doc {
                parts.push(copy(d));
            }
            assert(texts(parts@) =~= seq![
                code_block(trimmed_end(signature@) + " : "@ + ty@),
                "*inferred return type: "@ + ty@ + "*"@,
            ] + if_some(opt_text(*doc)));
            return join(&parts, "\n\n");
        }
    }
    format_hover(signature, doc)
}

/// What is shown for the symbol `s` that is defined in the source text `source`: the signature of a
/// method, function or macro, else the line of the definition; and the comment above it, except for
/// constants and fields.
pub open spec fn hover_content(s: Sym, source: Seq<char>) -> Seq<char> {
    let lines = text_lines(source);
    let at = s.start_line as int;
    match s.kind {
        SymbolKind::Method | SymbolKind::Function | SymbolKind::Macro => method_text(
            signature(lines, at),
            doc_comment(lines, at),
            s.return_type,
        ),
        SymbolKind::Constant | SymbolKind::Field => hover_text(line_at(lines, at), None),
        _ => hover_text(line_at(lines, at), doc_comment(lines, at)),
    }
}

/// Whether the definition of `s` can be looked up in `source`: where a comment is shown, the text
/// reaches up to the line of the definition.
pub open spec fn describable(s: Sym, source: Seq<char>) -> bool {
    s.kind == SymbolKind::Constant || s.kind == SymbolKind::Field || s.start_line <= text_lines(
        source,
    ).len()
}

/// Decides whether the definition of a symbol can be looked up in a source text.
pub fn is_describable(sym: &Symbol, source: &str) -> (r: bool)
    ensures
        r == describable(sym@, source@),
{
    let all = lines(source);
    assert(views(all@).len() == all@.len());
    sym.kind == SymbolKind::Constant || sym.kind == SymbolKind::Field || sym.start_line <= all.len()
}

/// Builds what is shown for a symbol from the source text that defines it.
pub fn build_hover_content(sym: &Symbol, source: &str) -> (r: String)
    requires
        describable(sym@, source@),
    ensures
        r@ == hover_content(sym@, source@),
{
    let all = lines(source);
    assert(views(all@).len() == all@.len());
    let at = sym.start_line;
    match sym.kind {
        SymbolKind::Method | SymbolKind::Function | SymbolKind::Macro => {
            let signature = extract_signature(&all, at);
            let doc = extract_doc_comment(&all, at);
            format_method_hover(&signature, &doc, sym)
        },
        SymbolKind::Constant | SymbolKind::Field => format_hover(&get_line(&all, at), &None),
        _ => {
            let doc = extract_doc_comment(&all, at);
            format_hover(&get_line(&all, at), &doc)
        },
    }
}

// ---------------------------------------------------------------------------
// Macro calls
// ---------------------------------------------------------------------------

/// Whether `name` is that of a macro that makes methods.
pub open spec fn macro_method(name: Seq<char>) -> bool {
    ||| name == "property"@ || name == "property?"@ || name == "property!"@
    ||| name == "getter"@ || name == "getter?"@ || name == "getter!"@
    ||| name == "setter"@ || name == "setter?"@ || name == "setter!"@
    ||| name == "class_property"@ || name == "class_property?"@ || name == "class_property!"@
    ||| name == "class_getter"@ || name == "class_getter?"@ || name == "class_getter!"@
    ||| name == "class_setter"@ || name == "class_setter?"@ || name == "class_setter!"@
    ||| name == "delegate"@ || name == "forward_missing_to"@ || name == "record"@
    ||| name == "def_equals"@ || name == "def_hash"@ || name == "def_equals_and_hash"@
    ||| name == "def_clone"@
}

/// Decides whether a name is that of a macro that makes methods.
pub fn is_macro_method(name: &str) -> (r: bool)
    ensures
        r == macro_method(name@),
{
    same(name, "property") || same(name, "property?") || same(name, "property!") || same(
        name,
        "getter",
    ) || same(name, "getter?") || same(name, "getter!") || same(name, "setter") || same(
        name,
        "setter?",
    ) || same(name, "setter!") || same(name, "class_property") || same(name, "class_property?")
        || same(name, "class_property!") || same(name, "class_getter") || same(
        name,
        "class_getter?",
    ) || same(name, "class_getter!") || same(name, "class_setter") || same(name, "class_setter?")
        || same(name, "class_setter!") || same(name, "delegate") || same(
        name,
        "forward_missing_to",
    ) || same(name, "record") || same(name, "def_equals") || same(name, "def_hash") || same(
        name,
        "def_equals_and_hash",
    ) || same(name, "def_clone")
}

/// The name of the macro that the node `n` calls: a call of a known macro, or an annotation.
pub open spec fn called_macro(n: SynTree) -> Option<Seq<char>> {
    if n.kind == "call"@ {
        match field_text(n, "method"@) {
            Some(name) => if macro_method(name) {
                Some(name)
            } else {
                None
            },
            None => None,
        }
    } else if n.kind == "annotation"@ {
        match first_named(n) {
            Some(c) => c.text,
            None => None,
        }
    } else {
        None
    }
}

fn read_called_macro(n: &SyntaxNode) -> (r: Option<String>)
    ensures
        opt_text(r) == called_macro(n@),
{
    if is_kind(n, "call") {
        match text_of_field(n, "method") {
            Some(name) => if is_macro_method(name) {
                Some(copy(name))
            } else {
                None
            },
            None => None,
        }
    } else if is_kind(n, "annotation") {
        match first_named_child(n) {
            Some(c) => copy_opt(text_of(c)),
            None => None,
        }
    } else {
        None
    }
}

/// The macro call at or above the node at `path`: the name of the macro and the path of the call.
pub open spec fn macro_call(t: SynTree, path: Seq<usize>) -> Option<(Seq<char>, Seq<usize>)>
    decreases path.len(),
{
    match called_macro(subtree(t, path)) {
        Some(name) => Some((name, path)),
        None => if path.len() == 0 {
            None
        } else {
            macro_call(t, path.drop_last())
        },
    }
}

/// Walks up from a node to a macro call. Gives the name of the macro and how many steps of the path
/// lead to the call.
pub fn find_macro_call(root: &SyntaxNode, path: &Vec<usize>) -> (r: Option<(String, usize)>)
    requires
        valid_path(root@, path@),
    ensures
        match r {
            Some((name, n)) => n <= path@.len() && macro_call(root@, path@) == Some(
                (name@, path@.take(n as int)),
            ),
            None => macro_call(root@, path@) is None,
        },
{
    let mut n: usize = path.len();
    assert(path@.take(n as int) =~= path@);
    loop
        invariant
            n <= path@.len(),
            valid_path(root@, path@),
            macro_call(root@, path@) == macro_call(root@, path@.take(n as int)),
        decreases n,
    {
        let node = node_at(root, path, n);
        if let Some(name) = read_called_macro(node) {
            return Some((name, n));
        }
        if n == 0 {
            return None;
        }
        assert(path@.take(n as int).drop_last() =~= path@.take(n - 1));
        n = n - 1;
    }
}

/// What is shown for a call of the macro `name`: its expansion, or that there is none.
pub open spec fn macro_text(name: Seq<char>, expansion: Option<Seq<char>>) -> Seq<char> {
    match expansion {
        Some(code) => "**Macro:** `"@ + name + "`\n\n```crystal\n"@ + trimmed(code) + "\n```"@,
        None => "**Macro:** `"@ + name + "`\n\n*Crystal compiler not available for expansion*"@,
    }
}

/// Builds what is shown for a macro call.
pub fn format_macro_hover(name: &str, expansion: &Option<String>) -> (r: String)
    ensures
        r@ == macro_text(name@, opt_text(*expansion)),
{
    let mut s = copy("**Macro:** `");
    s.append(name);
    match expansion {
        Some(code) => {
            s.append("`\n\n```crystal\n");
            let chars = chars_of(code);
            push_chars(&mut s, trim(&chars));
            s.append("\n```");
        },
        None => {
            s.append("`\n\n*Crystal compiler not available for expansion*");
        },
    }
    s
}

// ---------------------------------------------------------------------------
// Instance variables
// ---------------------------------------------------------------------------

/// The name of the class or struct at or above the node at `path` that is nearest and has a name.
pub open spec fn enclosing_class(t: SynTree, path: Seq<usize>) -> Option<Seq<char>>
    decreases path.len(),
{
    let n = subtree(t, path);
    if (n.kind == "class_def"@ || n.kind == "struct_def"@) && field_of(n, "name"@) is Some {
        field_text(n, "name"@)
    } else if path.len() == 0 {
        None
    } else {
        enclosing_class(t, path.drop_last())
    }
}

/// Walks up from a node to the enclosing class or struct and gives its name.
pub fn find_enclosing_class(root: &SyntaxNode, path: &Vec<usize>) -> (r: Option<String>)
    requires
        valid_path(root@, path@),
    ensures
        opt_text(r) == enclosing_class(root@, path@),
{
    let mut n: usize = path.len();
    assert(path@.take(n as int) =~= path@);
    loop
        invariant
            n <= path@.len(),
            valid_path(root@, path@),
            enclosing_class(root@, path@) == enclosing_class(root@, path@.take(n as int)),
        decreases n,
    {
        let node = node_at(root, path, n);
        if is_kind(node, "class_def") || is_kind(node, "struct_def") {
            if let Some(name) = child_by_field(node, "name") {
                return copy_opt(text_of(name));
            }
        }
        if n == 0 {
            return None;
        }
        assert(path@.take(n as int).drop_last() =~= path@.take(n - 1));
        n = n - 1;
    }
}

/// What is shown for the instance variable `name` at `path`, from what its class declares.
pub open spec fn ivar_text(
    ix: IndexModel,
    name: Seq<char>,
    t: SynTree,
    path: Seq<usize>,
) -> Option<Seq<char>> {
    match enclosing_class(t, path) {
        Some(class) => match first_ivar(ix, class, name) {
            Some(v) => Some(
                "```crystal\n"@ + name + match v.var_type {
                    Some(ty) => " : "@ + ty,
                    None => Seq::empty(),
                } + "\n```\n\n("@ + class + ")"@,
            ),
            None => None,
        },
        None => None,
    }
}

/// Builds what is shown for an instance variable.
pub fn hover_instance_var(
    index: &DocumentIndex,
    ivar_name: &str,
    root: &SyntaxNode,
    path: &Vec<usize>,
) -> (r: Option<String>)
    requires
        valid_path(root@, path@),
    ensures
        opt_text(r) == ivar_text(index@, ivar_name@, root@, path@),
{
    match find_enclosing_class(root, path) {
        Some(class) => match index.find_instance_var(&class, ivar_name) {
            Some(v) => {
                let mut s = copy("```crystal\n");
                s.append(ivar_name);
                let ghost head = s@;
                match &v.var_type {
                    Some(ty) => {
                        s.append(" : ");
                        s.append(ty);
                        assert(s@ =~= head + (" : "@ + ty@));
                    },
                    None => {
                        assert(s@ =~= head + Seq::<char>::empty());
                    },
                }
                s.append("\n```\n\n(");
                s.append(&class);
                s.append(")");
                Some(s)
            },
            None => None,
        },
        None => None,
    }
}

// ---------------------------------------------------------------------------
// Requires
// ---------------------------------------------------------------------------

/// What is shown for a `require`: `resolved` between fences.
pub open spec fn require_text(resolved: Seq<char>) -> Seq<char> {
    "```\n"@ + resolved + "\n```"@
}

fn make_require_text(resolved: &str, suffix: &str) -> (r: String)
    ensures
        r@ == require_text(resolved@ + suffix@),
{
    let mut s = copy("```\n");
    s.append(resolved);
    s.append(suffix);
    s.append("\n```");
    assert(s@ =~= require_text(resolved@ + suffix@));
    s
}

/// Builds what is shown for a relative `require`: the canonical path of its file, where there is
/// one.
pub fn format_require_hover(require_path: &str, found: &Option<String>) -> (r: String)
    ensures
        r@ == match *found {
            Some(p) => require_text(p@),
            None => require_text(require_path@ + " (not found)"@),
        },
{
    match found {
        Some(p) => {
            let r = make_require_text(p, "");
            proof {
                reveal_strlit("");
                assert(p@ + ""@ =~= p@);
            }
            r
        },
        None => make_require_text(require_path, " (not found)"),
    }
}

// ---------------------------------------------------------------------------
// The request
// ---------------------------------------------------------------------------

/// What a hover request leads to.
#[derive(Debug)]
pub enum HoverPlan<'a> {
    /// There is nothing to show.
    Nothing,
    /// This is shown.
    Show(String),
    /// The file `target` has to be looked up; [`format_require_hover`] finishes the answer.
    Require { require: String, target: String },
    /// The macro at a place has to be expanded; [`MacroExpansionCache::get_or_expand`] keeps the
    /// outcome, and [`format_macro_hover`] finishes the answer.
    Expand { name: String, path: String, line: u32, col: u32 },
    /// The text of the file `file` is needed, which is the current document where `local` is set;
    /// [`build_hover_content`] finishes the answer.
    Describe { file: &'a str, symbol: &'a Symbol, local: bool },
}

/// The model of a [`HoverPlan`].
pub enum HoverModel {
    Nothing,
    Show(Seq<char>),
    Require(Seq<char>, Seq<char>),
    Expand(Seq<char>, Seq<char>, u32, u32),
    Describe(Seq<char>, Sym, bool),
}

impl<'a> View for HoverPlan<'a> {
    type V = HoverModel;

    open spec fn view(&self) -> HoverModel {
        match self {
            HoverPlan::Nothing => HoverModel::Nothing,
            HoverPlan::Show(s) => HoverModel::Show(s@),
            HoverPlan::Require { require, target } => HoverModel::Require(require@, target@),
            HoverPlan::Expand { name, path, line, col } => HoverModel::Expand(
                name@,
                path@,
                *line,
                *col,
            ),
            HoverPlan::Describe { file, symbol, local } => HoverModel::Describe(
                file@,
                symbol@,
                *local,
            ),
        }
    }
}

/// What the `require` in the file `current` leads to.
pub open spec fn require_hover(require: Seq<char>, current: Seq<char>) -> HoverModel {
    match parent_path(current) {
        Some(dir) => if relative(require) {
            HoverModel::Require(
                require,
                path_with_extension(joined_path(dir, require), "cr"@),
            )
        } else {
            HoverModel::Show(require_text(require + " (stdlib/shard)"@))
        },
        None => HoverModel::Nothing,
    }
}

/// Tells what a `require` leads to.
pub fn hover_require<'a>(require_path: &str, current_file: &str) -> (r: HoverPlan<'a>)
    ensures
        r@ == require_hover(require_path@, current_file@),
{
    match parent(current_file) {
        Some(dir) => {
            let chars = chars_of(require_path);
            if starts_with_text(&chars, "./") || starts_with_text(&chars, "../") {
                proof {
                    reveal_strlit("cr");
                    assert(!"cr"@.contains('/'));
                }
                let target = with_extension(&join_path(&dir, require_path), "cr");
                HoverPlan::Require { require: copy(require_path), target }
            } else {
                HoverPlan::Show(make_require_text(require_path, " (stdlib/shard)"))
            }
        },
        None => HoverPlan::Nothing,
    }
}

/// A row or column, counted from one in 32 bits.
pub open spec fn from_one(n: usize) -> u32 {
    if n as u32 == u32::MAX {
        0
    } else {
        (n as u32 + 1) as u32
    }
}

fn count_from_one(n: usize) -> (r: u32)
    ensures
        r == from_one(n),
{
    let x: u32 = narrow(n);
    if x == u32::MAX {
        0
    } else {
        x + 1
    }
}

/// What the macro call at or above the node at `path` leads to: what is shown where its expansion
/// is kept, else the expansion.
pub open spec fn macro_hover(
    cache: MacroExpansionCache,
    current: Seq<char>,
    t: SynTree,
    path: Seq<usize>,
) -> Option<HoverModel> {
    match macro_call(t, path) {
        Some((name, at)) => {
            let start = subtree(t, at).start;
            let line = from_one(start.row);
            let col = from_one(start.column);
            match cache.cached(current, line, col) {
                Some(expansion) => Some(HoverModel::Show(macro_text(name, expansion))),
                None => Some(HoverModel::Expand(name, current, line, col)),
            }
        },
        None => None,
    }
}

/// Tells what a macro call leads to.
pub fn try_macro_hover<'a>(
    root: &SyntaxNode,
    path: &Vec<usize>,
    current_path: &str,
    cache: &MacroExpansionCache,
) -> (r: Option<HoverPlan<'a>>)
    requires
        valid_path(root@, path@),
    ensures
        match r {
            Some(p) => macro_hover(*cache, current_path@, root@, path@) == Some(p@),
            None => macro_hover(*cache, current_path@, root@, path@) is None,
        },
{
    match find_macro_call(root, path) {
        Some((name, n)) => {
            let call = node_at(root, path, n);
            proof {
                lemma_model(*call);
            }
            let line = count_from_one(call.start.row);
            let col = count_from_one(call.start.column);
            match cache.lookup(current_path, line, col) {
                Some(expansion) => Some(HoverPlan::Show(format_macro_hover(&name, expansion))),
                None => Some(HoverPlan::Expand { name, path: copy(current_path), line, col }),
            }
        },
        None => None,
    }
}

/// What the name at `path` leads to: the first of its definitions.
pub open spec fn name_hover(
    ix: IndexModel,
    current: Seq<char>,
    t: SynTree,
    path: Seq<usize>,
) -> HoverModel {
    match classified(t, path) {
        Some((name, kinds)) => {
            let found = stable_sorted(hit_order(current), named_hits(ix, name, kinds));
            if found.len() > 0 {
                HoverModel::Describe(found[0].0, found[0].1, same_path(found[0].0, current))
            } else {
                HoverModel::Nothing
            }
        },
        None => HoverModel::Nothing,
    }
}

fn hover_name<'a>(
    index: &'a DocumentIndex,
    current_path: &str,
    root: &SyntaxNode,
    path: &Vec<usize>,
) -> (r: HoverPlan<'a>)
    requires
        valid_path(root@, path@),
    ensures
        r@ == name_hover(index@, current_path@, root@, path@),
{
    match classify_node(root, path) {
        Some((name, kinds)) => {
            let found = find_named(index, &name, &kinds);
            let sorted = sort_results(found, current_path);
            assert(hit_views(sorted@).len() == sorted@.len());
            if sorted.len() > 0 {
                let (p, symbol) = sorted[0];
                assert(hit_views(sorted@)[0] == (p@, symbol@));
                let local = is_same_path(p, current_path);
                HoverPlan::Describe { file: p, symbol, local }
            } else {
                HoverPlan::Nothing
            }
        },
        None => HoverPlan::Nothing,
    }
}

/// Whether the node at `path` is the text of a `require`.
pub open spec fn in_require(t: SynTree, path: Seq<usize>) -> bool {
    path.len() >= 2 && subtree(t, path).kind == "literal_content"@ && subtree(
        t,
        path.take(path.len() - 2),
    ).kind == "require"@
}

/// What the node at `path` of the document `current` leads to: a `require`, an instance variable
/// that its class declares, a macro call, or a name.
pub open spec fn hover_of(
    ix: IndexModel,
    cache: MacroExpansionCache,
    current: Seq<char>,
    t: SynTree,
    path: Seq<usize>,
) -> HoverModel {
    let n = subtree(t, path);
    if in_require(t, path) {
        match n.text {
            Some(require) => require_hover(require, current),
            None => HoverModel::Nothing,
        }
    } else if n.kind == "instance_var"@ && n.text is None {
        HoverModel::Nothing
    } else if n.kind == "instance_var"@ && ivar_text(ix, n.text->0, t, path) is Some {
        HoverModel::Show(ivar_text(ix, n.text->0, t, path)->0)
    } else {
        match macro_hover(cache, current, t, path) {
            Some(m) => m,
            None => name_hover(ix, current, t, path),
        }
    }
}

fn is_in_require(root: &SyntaxNode, path: &Vec<usize>) -> (r: bool)
    requires
        valid_path(root@, path@),
    ensures
        r == in_require(root@, path@),
{
    let n: usize = path.len();
    if n < 2 {
        return false;
    }
    assert(path@.take(n as int) =~= path@);
    is_kind(node_at(root, path, n), "literal_content") && is_kind(
        node_at(root, path, n - 2),
        "require",
    )
}

/// Tells what a node of a parsed document leads to.
pub fn hover_at<'a>(
    index: &'a DocumentIndex,
    cache: &MacroExpansionCache,
    current_path: &str,
    root: &SyntaxNode,
    path: &Vec<usize>,
) -> (r: HoverPlan<'a>)
    requires
        valid_path(root@, path@),
    ensures
        r@ == hover_of(index@, *cache, current_path@, root@, path@),
{
    assert(path@.take(path@.len() as int) =~= path@);
    let node = node_at(root, path, path.len());
    if is_in_require(root, path) {
        return match text_of(node) {
            Some(require) => hover_require(require, current_path),
            None => HoverPlan::Nothing,
        };
    }
    if is_kind(node, "instance_var") {
        match text_of(node) {
            Some(name) => {
                if let Some(s) = hover_instance_var(index, name, root, path) {
                    return HoverPlan::Show(s);
                }
            },
            None => {
                return HoverPlan::Nothing;
            },
        }
    }
    match try_macro_hover(root, path, current_path, cache) {
        Some(plan) => plan,
        None => hover_name(index, current_path, root, path),
    }
}

/// What a hover request leads to.
pub open spec fn hover_answer(
    ix: IndexModel,
    cache: MacroExpansionCache,
    uri: Seq<char>,
    position: Position,
    source: Option<Seq<char>>,
) -> HoverModel {
    match (uri_path(uri), source) {
        (Some(path), Some(text)) => match located(text, position.line, position.character) {
            Some(at) => hover_of(ix, cache, path, parsed(text)->0, at),
            None => HoverModel::Nothing,
        },
        _ => HoverModel::Nothing,
    }
}

/// Tells what a hover request leads to. There is nothing to show for a URI that names no file and
/// for a document that is not open.
pub fn handle<'a>(
    index: &'a DocumentIndex,
    cache: &MacroExpansionCache,
    uri: &str,
    position: Position,
    source: Option<&str>,
) -> (r: HoverPlan<'a>)
    ensures
        r@ == hover_answer(index@, *cache, uri@, position, opt_str(source)),
{
    let path = match to_path(uri) {
        Some(p) => p,
        None => {
            return HoverPlan::Nothing;
        },
    };
    let source = match source {
        Some(s) => s,
        None => {
            return HoverPlan::Nothing;
        },
    };
    match parse_at(source, position.line, position.character) {
        Some((root, at)) => hover_at(index, cache, &path, &root, &at),
        None => HoverPlan::Nothing,
    }
}

} // verus!
