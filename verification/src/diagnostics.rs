//! Syntax errors, and the diagnostics that are shown for a file.

use vstd::prelude::*;
use vstd::utf8::encode_utf8;

use crate::path_map::PathMap;
use crate::paths::{path_parts, Part};
use crate::protocol::{
    copy_diagnostic, copy_diagnostics, diag_views, narrow, Diag, Diagnostic, DiagnosticSeverity,
    Position, TextRange,
};
use crate::syntax::{lemma_model, parse, parsed, Point, SynTree, SyntaxNode};
use crate::text::{chars_of, copy, push_chars, trim, trimmed};

verus! {

/// What diagnostics about the syntax are said to come from.
pub const SOURCE_SYNTAX: &'static str = "zircon-syntax";

// ---------------------------------------------------------------------------
// Syntax errors
// ---------------------------------------------------------------------------

/// The position of a place.
pub open spec fn position_of(p: Point) -> Position {
    Position { line: p.row as u32, character: p.column as u32 }
}

fn to_position(p: Point) -> (r: Position)
    ensures
        r == position_of(p),
{
    Position { line: narrow(p.row), character: narrow(p.column) }
}

/// What is said of text that could not be parsed: the text itself where it is short.
pub open spec fn error_message(text: Seq<char>) -> Seq<char> {
    if text.len() == 0 || encode_utf8(text).len() > 50 {
        "Syntax error"@
    } else if trimmed(text).len() == 0 {
        "Unexpected token"@
    } else {
        "Unexpected `"@ + trimmed(text) + "`"@
    }
}

/// The diagnostic for text that could not be parsed.
pub open spec fn error_diagnostic(t: SynTree) -> Diag {
    Diag {
        range: TextRange { start: position_of(t.start), end: position_of(t.end) },
        severity: Some(DiagnosticSeverity::Error),
        source: Some(SOURCE_SYNTAX@),
        message: error_message(
            match t.text {
                Some(text) => text,
                None => Seq::empty(),
            },
        ),
        tags: None,
    }
}

/// The diagnostic for something that the parser had to put in.
pub open spec fn missing_diagnostic(t: SynTree) -> Diag {
    Diag {
        range: TextRange { start: position_of(t.start), end: position_of(t.start) },
        severity: Some(DiagnosticSeverity::Error),
        source: Some(SOURCE_SYNTAX@),
        message: "Missing `"@ + t.kind + "`"@,
        tags: None,
    }
}

/// The diagnostics for the syntax errors in `t`. Nothing is said of what is below an error.
pub open spec fn syntax_errors(t: SynTree) -> Seq<Diag>
    decreases t, t.children.len() + 1,
{
    if t.error {
        seq![error_diagnostic(t)]
    } else {
        (if t.missing {
            seq![missing_diagnostic(t)]
        } else {
            Seq::empty()
        }) + errors_below(t, t.children.len() as int)
    }
}

/// The diagnostics for the syntax errors in the first `n` children of `t`.
pub open spec fn errors_below(t: SynTree, n: int) -> Seq<Diag>
    decreases t, n,
{
    if n <= 0 || n > t.children.len() {
        Seq::empty()
    } else {
        errors_below(t, n - 1) + syntax_errors(t.children[n - 1])
    }
}

/// Whether `t` holds neither an error nor a missing node.
pub open spec fn clean(t: SynTree) -> bool
    decreases t,
{
    !t.error && !t.missing && forall|i: int|
        0 <= i < t.children.len() ==> clean(#[trigger] t.children[i])
}

proof fn lemma_errors_below_clean(t: SynTree, n: int)
    requires
        0 <= n <= t.children.len(),
    ensures
        errors_below(t, n).len() == 0 <==> forall|i: int|
            0 <= i < n ==> clean(#[trigger] t.children[i]),
    decreases t, n,
{
    if n > 0 {
        lemma_errors_below_clean(t, n - 1);
        lemma_errors_iff_unclean(t.children[n - 1]);
    }
}

/// There are diagnostics for a tree if and only if it holds an error or a missing node.
pub proof fn lemma_errors_iff_unclean(t: SynTree)
    ensures
        syntax_errors(t).len() == 0 <==> clean(t),
    decreases t, t.children.len() + 1,
{
    lemma_errors_below_clean(t, t.children.len() as int);
}

fn make_error_diagnostic(node: &SyntaxNode) -> (r: Diagnostic)
    ensures
        r@ == error_diagnostic(node@),
{
    proof {
        lemma_model(*node);
    }
    let text = match &node.text {
        Some(t) => copy(t),
        None => String::new(),
    };
    let chars = chars_of(&text);
    assert(chars@ =~= match node@.text {
        Some(text) => text,
        None => Seq::empty(),
    });
    let message = if chars.len() == 0 || text.as_str().as_bytes().len() > 50 {
        copy("Syntax error")
    } else {
        let inner = trim(&chars);
        if inner.len() == 0 {
            copy("Unexpected token")
        } else {
            let mut m = copy("Unexpected `");
            push_chars(&mut m, inner);
            m.append("`");
            m
        }
    };
    Diagnostic {
        range: TextRange { start: to_position(node.start), end: to_position(node.end) },
        severity: Some(DiagnosticSeverity::Error),
        source: Some(copy(SOURCE_SYNTAX)),
        message,
        tags: None,
    }
}

fn make_missing_diagnostic(node: &SyntaxNode) -> (r: Diagnostic)
    ensures
        r@ == missing_diagnostic(node@),
{
    proof {
        lemma_model(*node);
    }
    let mut message = copy("Missing `");
    message.append(&node.kind);
    message.append("`");
    let at = to_position(node.start);
    Diagnostic {
        range: TextRange { start: at, end: at },
        severity: Some(DiagnosticSeverity::Error),
        source: Some(copy(SOURCE_SYNTAX)),
        message,
        tags: None,
    }
}

/// Adds the diagnostics for the syntax errors in a tree.
pub fn collect_errors(node: &SyntaxNode, diagnostics: &mut Vec<Diagnostic>)
    ensures
        diag_views(final(diagnostics)@) == diag_views(old(diagnostics)@) + syntax_errors(node@),
    decreases node@,
{
    let ghost start = diag_views(diagnostics@);
    let ghost t = node@;
    proof {
        lemma_model(*node);
    }
    if node.error {
        let d = make_error_diagnostic(node);
        diagnostics.push(d);
        assert(diag_views(diagnostics@) =~= start + seq![d@]);
        return ;
    }
    let ghost own: Seq<Diag> = if t.missing {
        seq![missing_diagnostic(t)]
    } else {
        Seq::empty()
    };
    if node.missing {
        let d = make_missing_diagnostic(node);
        diagnostics.push(d);
    }
    assert(diag_views(diagnostics@) =~= start + (own + errors_below(t, 0)));
    let mut i: usize = 0;
    while i < node.children.len()
        invariant
            i <= node.children@.len(),
            t == node@,
            t.children.len() == node.children@.len(),
            diag_views(diagnostics@) == start + (own + errors_below(t, i as int)),
        decreases node.children@.len() - i,
    {
        proof {
            lemma_model(*node);
            assert(decreases_to!(t => t.children[i as int]));
            let b = syntax_errors(t.children[i as int]);
            assert((start + (own + errors_below(t, i as int))) + b =~= start + (own
                + errors_below(t, i + 1)));
        }
        collect_errors(&node.children[i], diagnostics);
        i = i + 1;
    }
}

/// The diagnostics for the syntax errors in a source text. Where the text cannot be parsed there
/// are none.
pub open spec fn source_errors(source: Seq<char>) -> Seq<Diag> {
    match parsed(source) {
        Some(t) => syntax_errors(t),
        None => Seq::empty(),
    }
}

/// Finds the syntax errors in a source text.
pub fn extract_syntax_errors(source: &str) -> (r: Vec<Diagnostic>)
    ensures
        diag_views(r@) == source_errors(source@),
{
    let mut out: Vec<Diagnostic> = Vec::new();
    assert(diag_views(out@) =~= Seq::empty());
    if let Some(root) = parse(source) {
        collect_errors(&root, &mut out);
        assert(Seq::<Diag>::empty() + syntax_errors(root@) =~= syntax_errors(root@));
    }
    out
}

// ---------------------------------------------------------------------------
// The store
// ---------------------------------------------------------------------------

/// Whether one of `diags` starts on the line `line`.
pub open spec fn covers_line(diags: Seq<Diag>, line: u32) -> bool {
    exists|i: int| 0 <= i < diags.len() && (#[trigger] diags[i]).range.start.line == line
}

/// Those of `diags` that start on a line on which none of `others` starts.
pub open spec fn on_other_lines(diags: Seq<Diag>, others: Seq<Diag>) -> Seq<Diag>
    decreases diags.len(),
{
    if diags.len() == 0 {
        Seq::empty()
    } else {
        let before = on_other_lines(diags.drop_last(), others);
        if covers_line(others, diags.last().range.start.line) {
            before
        } else {
            before.push(diags.last())
        }
    }
}

fn is_line_covered(diags: &Vec<Diagnostic>, line: u32) -> (r: bool)
    ensures
        r == covers_line(diag_views(diags@), line),
{
    let ghost all = diag_views(diags@);
    let mut i: usize = 0;
    while i < diags.len()
        invariant
            i <= diags@.len(),
            all == diag_views(diags@),
            forall|k: int| 0 <= k < i ==> (#[trigger] all[k]).range.start.line != line,
        decreases diags@.len() - i,
    {
        assert(all[i as int] == diags@[i as int]@);
        if diags[i].range.start.line == line {
            return true;
        }
        i = i + 1;
    }
    false
}

/// Merges diagnostics: those of the compiler, then those about the syntax on other lines.
pub fn merge_diagnostics(syntax: &Vec<Diagnostic>, compiler: &Vec<Diagnostic>) -> (r: Vec<
    Diagnostic,
>)
    ensures
        diag_views(r@) == diag_views(compiler@) + on_other_lines(
            diag_views(syntax@),
            diag_views(compiler@),
        ),
{
    let ghost c = diag_views(compiler@);
    let ghost s = diag_views(syntax@);
    let mut out = copy_diagnostics(compiler);
    let mut i: usize = 0;
    assert(s.take(0) =~= Seq::empty());
    assert(c + on_other_lines(s.take(0), c) =~= c);
    while i < syntax.len()
        invariant
            i <= syntax@.len(),
            c == diag_views(compiler@),
            s == diag_views(syntax@),
            diag_views(out@) == c + on_other_lines(s.take(i as int), c),
        decreases syntax@.len() - i,
    {
        let ghost before = diag_views(out@);
        let ghost rest = on_other_lines(s.take(i as int), c);
        assert(s[i as int] == syntax@[i as int]@);
        assert(s.take(i + 1).drop_last() =~= s.take(i as int));
        if !is_line_covered(compiler, syntax[i].range.start.line) {
            let d = copy_diagnostic(&syntax[i]);
            out.push(d);
            assert(diag_views(out@) =~= before.push(d@));
            assert(c + rest.push(d@) =~= before.push(d@));
        }
        i = i + 1;
    }
    assert(s.take(i as int) =~= s);
    out
}

/// Keeps the diagnostics about the syntax and those of the compiler for each file.
#[derive(Debug)]
pub struct DiagnosticStore {
    pub syntax: PathMap<Vec<Diagnostic>>,
    pub compiler: PathMap<Vec<Diagnostic>>,
}

/// The model of a [`DiagnosticStore`].
#[verifier::ext_equal]
pub struct StoreModel {
    pub syntax: Map<Seq<Part>, Seq<Diag>>,
    pub compiler: Map<Seq<Part>, Seq<Diag>>,
}

/// The diagnostics of each file.
pub open spec fn diag_map(m: Map<Seq<Part>, Vec<Diagnostic>>) -> Map<Seq<Part>, Seq<Diag>> {
    m.map_values(|v: Vec<Diagnostic>| diag_views(v@))
}

impl View for DiagnosticStore {
    type V = StoreModel;

    open spec fn view(&self) -> StoreModel {
        StoreModel { syntax: diag_map(self.syntax@), compiler: diag_map(self.compiler@) }
    }
}

/// What is shown for the file `path`. Without diagnostics of one kind those of the other are shown;
/// with both, a diagnostic about the syntax gives way to those of the compiler on its line.
pub open spec fn merged_diagnostics(s: StoreModel, path: Seq<char>) -> Seq<Diag> {
    let key = path_parts(path);
    if !s.compiler.contains_key(key) {
        if s.syntax.contains_key(key) {
            s.syntax[key]
        } else {
            Seq::empty()
        }
    } else if !s.syntax.contains_key(key) {
        s.compiler[key]
    } else {
        s.compiler[key] + on_other_lines(s.syntax[key], s.compiler[key])
    }
}

impl DiagnosticStore {
    pub open spec fn wf(&self) -> bool {
        self.syntax.wf() && self.compiler.wf()
    }

    pub fn new() -> (r: Self)
        ensures
            r@ == (StoreModel { syntax: Map::empty(), compiler: Map::empty() }),
            r.wf(),
    {
        let r = DiagnosticStore { syntax: PathMap::new(), compiler: PathMap::new() };
        assert(r@.syntax =~= Map::empty());
        assert(r@.compiler =~= Map::empty());
        r
    }

    /// Replaces the diagnostics about the syntax of a file.
    pub fn set_syntax(&mut self, path: &str, diags: Vec<Diagnostic>)
        requires
            old(self).wf(),
        ensures
            final(self)@ == (StoreModel {
                syntax: old(self)@.syntax.insert(path_parts(path@), diag_views(diags@)),
                ..old(self)@
            }),
            final(self).wf(),
    {
        let ghost before = self@;
        self.syntax.insert(path, diags);
        assert(self@.syntax =~= before.syntax.insert(path_parts(path@), diag_views(diags@)));
    }

    /// Replaces the diagnostics of the compiler for a file.
    pub fn set_compiler(&mut self, path: &str, diags: Vec<Diagnostic>)
        requires
            old(self).wf(),
        ensures
            final(self)@ == (StoreModel {
                compiler: old(self)@.compiler.insert(path_parts(path@), diag_views(diags@)),
                ..old(self)@
            }),
            final(self).wf(),
    {
        let ghost before = self@;
        self.compiler.insert(path, diags);
        assert(self@.compiler =~= before.compiler.insert(path_parts(path@), diag_views(diags@)));
    }

    /// Drops all diagnostics of a file.
    pub fn clear(&mut self, path: &str)
        requires
            old(self).wf(),
        ensures
            final(self)@ == (StoreModel {
                syntax: old(self)@.syntax.remove(path_parts(path@)),
                compiler: old(self)@.compiler.remove(path_parts(path@)),
            }),
            final(self).wf(),
    {
        let ghost before = self@;
        self.syntax.remove(path);
        self.compiler.remove(path);
        assert(self@.syntax =~= before.syntax.remove(path_parts(path@)));
        assert(self@.compiler =~= before.compiler.remove(path_parts(path@)));
    }

    /// The diagnostics to show for a file.
    pub fn merged(&self, path: &str) -> (r: Vec<Diagnostic>)
        requires
            self.wf(),
        ensures
            diag_views(r@) == merged_diagnostics(self@, path@),
    {
        match (self.syntax.get(path), self.compiler.get(path)) {
            (None, None) => {
                let none: Vec<Diagnostic> = Vec::new();
                assert(diag_views(none@) =~= Seq::empty());
                none
            },
            (Some(s), None) => copy_diagnostics(s),
            (None, Some(c)) => copy_diagnostics(c),
            (Some(s), Some(c)) => merge_diagnostics(s, c),
        }
    }
}

proof fn lemma_on_other_lines(diags: Seq<Diag>, others: Seq<Diag>)
    ensures
        forall|i: int|
            0 <= i < on_other_lines(diags, others).len() ==> !covers_line(
                others,
                (#[trigger] on_other_lines(diags, others)[i]).range.start.line,
            ) && diags.contains(on_other_lines(diags, others)[i]),
        forall|k: int|
            0 <= k < diags.len() && !covers_line(others, (#[trigger] diags[k]).range.start.line)
                ==> on_other_lines(diags, others).contains(diags[k]),
    decreases diags.len(),
{
    if diags.len() > 0 {
        let rest = diags.drop_last();
        lemma_on_other_lines(rest, others);
        let before = on_other_lines(rest, others);
        let after = on_other_lines(diags, others);
        assert forall|i: int| 0 <= i < after.len() implies !covers_line(
            others,
            (#[trigger] after[i]).range.start.line,
        ) && diags.contains(after[i]) by {
            if i < before.len() {
                assert(after[i] == before[i]);
                let k = choose|k: int| 0 <= k < rest.len() && rest[k] == before[i];
                assert(diags[k] == after[i]);
            } else {
                assert(diags[diags.len() - 1] == after[i]);
            }
        }
        assert forall|k: int|
            0 <= k < diags.len() && !covers_line(
                others,
                (#[trigger] diags[k]).range.start.line,
            ) implies after.contains(diags[k]) by {
            if k < rest.len() {
                assert(rest[k] == diags[k]);
                let i = choose|i: int| 0 <= i < before.len() && before[i] == diags[k];
                assert(after[i] == diags[k]);
            } else {
                assert(after[before.len() as int] == diags[k]);
            }
        }
    }
}

/// Where there are diagnostics of both kinds, all of the compiler are shown, and a diagnostic about
/// the syntax is shown if and only if the compiler says nothing about its line.
pub proof fn lemma_merge_prefers_compiler(s: StoreModel, path: Seq<char>, d: Diag)
    requires
        s.syntax.contains_key(path_parts(path)),
        s.compiler.contains_key(path_parts(path)),
    ensures
        s.compiler[path_parts(path)].contains(d) ==> merged_diagnostics(s, path).contains(d),
        s.syntax[path_parts(path)].contains(d) && !covers_line(
            s.compiler[path_parts(path)],
            d.range.start.line,
        ) ==> merged_diagnostics(s, path).contains(d),
        merged_diagnostics(s, path).contains(d) ==> s.compiler[path_parts(path)].contains(d) || (
        s.syntax[path_parts(path)].contains(d) && !covers_line(
            s.compiler[path_parts(path)],
            d.range.start.line,
        )),
{
    let c = s.compiler[path_parts(path)];
    let x = s.syntax[path_parts(path)];
    let kept = on_other_lines(x, c);
    lemma_on_other_lines(x, c);
    if c.contains(d) {
        let k = choose|k: int| 0 <= k < c.len() && c[k] == d;
        assert((c + kept)[k] == d);
    }
    if x.contains(d) && !covers_line(c, d.range.start.line) {
        let k = choose|k: int| 0 <= k < x.len() && x[k] == d;
        assert(kept.contains(x[k]));
        let i = choose|i: int| 0 <= i < kept.len() && kept[i] == d;
        assert((c + kept)[c.len() + i] == d);
    }
    if (c + kept).contains(d) {
        let i = choose|i: int| 0 <= i < (c + kept).len() && (c + kept)[i] == d;
        if i < c.len() {
            assert(c[i] == d);
        } else {
            assert(kept[i - c.len()] == d);
        }
    }
}

} // verus!
