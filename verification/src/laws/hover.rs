//! What is shown for what the cursor is on.

use vstd::prelude::*;

use crate::definition::{classified, hit_order, lemma_local_results_first, named_hits};
use crate::extract::{Sym, SymbolKind};
use crate::hover::{
    called_macro, closed_signature, comment_lines, comment_text, doc_comment, enclosing_class,
    hover_content, hover_of, hover_text, macro_call, macro_hover, macro_method, macro_text,
    method_text, name_hover, names_return_type, require_hover, signature, HoverModel,
    MacroExpansionCache,
};
use crate::index::{first_ivar, Hit, IndexModel};
use crate::laws::definition::{
    lemma_name_kinds, lemma_named_hits, lemma_sorted_contains, stands_for_method,
};
use crate::laws::index::defines;
use crate::laws::ivars::property_word;
use crate::laws::text::{
    blank, lemma_first_occurrence, lemma_has_middle, lemma_last_index, lemma_until_space,
};
use crate::literals::{brackets_from, last_after, literal_at, unclosed};
use crate::order::stable_sorted;
use crate::paths::same_path;
use crate::syntax::{field_of, field_text, first_named, subtree, SynTree};
use crate::text::{
    first_occurrence, has_text, joined, last_index, occurs_at, text_lines, trimmed, trimmed_end,
    trimmed_start, whitespace,
};

verus! {

// ---------------------------------------------------------------------------
// Return types
// ---------------------------------------------------------------------------

/// A signature with brackets names its return type exactly where a colon stands behind the last
/// closing bracket.
pub proof fn lemma_type_behind_brackets(a: Seq<char>, b: Seq<char>)
    requires
        !b.contains(')'),
    ensures
        names_return_type(a + ")"@ + b) <==> b.contains(':'),
{
    reveal_strlit(")");
    let sig = a + ")"@ + b;
    let k = a.len() as int;
    assert(sig[k] == ')');
    lemma_last_index(sig, ')');
    let i = last_index(sig, ')')->0;
    if i > k {
        assert(b[i - k - 1] == ')');
    }
    assert(sig.skip(k + 1) =~= b);
}

/// A signature without brackets names its return type exactly where a colon follows the name.
pub proof fn lemma_type_behind_name(name: Seq<char>, gap: Seq<char>, rest: Seq<char>)
    requires
        !("def "@ + name + gap + rest).contains(')'),
        forall|i: int| 0 <= i < name.len() ==> !whitespace(#[trigger] name[i]),
        blank(gap),
        rest.len() > 0 ==> gap.len() > 0 && !whitespace(rest[0]),
    ensures
        names_return_type("def "@ + name + gap + rest) <==> rest.len() > 0 && rest[0] == ':',
{
    reveal_strlit("def ");
    let sig = "def "@ + name + gap + rest;
    let none = Seq::<char>::empty();
    lemma_last_index(sig, ')');
    if let Some(i) = last_index(sig, ')') {
        assert(sig.contains(sig[i]));
    }
    assert(sig.subrange(0, 4) =~= "def "@);
    assert(occurs_at(sig, "def "@, 0));
    lemma_first_occurrence(sig, "def "@);
    assert(first_occurrence(sig, "def "@) == Some(0int));
    let after = sig.skip(4);
    assert(after =~= name + (gap + rest));
    if gap.len() > 0 {
        assert((gap + rest)[0] == gap[0]);
    }
    lemma_until_space(name, gap + rest);
    assert(after.skip(name.len() as int) =~= gap + rest);
    lemma_gap(gap, rest);
}

proof fn lemma_gap(gap: Seq<char>, rest: Seq<char>)
    requires
        blank(gap),
        rest.len() > 0 ==> !whitespace(rest[0]),
    ensures
        trimmed_start(gap + rest) == rest,
    decreases gap.len(),
{
    let s = gap + rest;
    if gap.len() > 0 {
        assert(s[0] == gap[0]);
        assert(s.skip(1) =~= gap.skip(1) + rest);
        assert(blank(gap.skip(1))) by {
            assert(forall|i: int|
                0 <= i < gap.skip(1).len() ==> #[trigger] gap.skip(1)[i] == gap[i + 1]);
        }
        lemma_gap(gap.skip(1), rest);
    } else {
        assert(s =~= rest);
    }
}

/// Code between fences, and under it the comment where there is one.
pub open spec fn fenced(code: Seq<char>, doc: Option<Seq<char>>) -> Seq<char> {
    "```crystal\n"@ + code + "\n```"@ + match doc {
        Some(text) => "\n\n"@ + text,
        None => Seq::empty(),
    }
}

proof fn lemma_hover_text(code: Seq<char>, doc: Option<Seq<char>>)
    requires
        code.len() > 0,
    ensures
        hover_text(code, doc) == fenced(code, doc),
{
    let block = "```crystal\n"@ + code + "\n```"@;
    match doc {
        Some(text) => {
            assert(seq![block] + seq![text] =~= seq![block, text]);
            assert(seq![block, text].drop_last() =~= seq![block]);
            assert(joined(seq![block], "\n\n"@) == block);
            assert(hover_text(code, doc) =~= fenced(code, doc));
        },
        None => {
            assert(seq![block] + Seq::<Seq<char>>::empty() =~= seq![block]);
            assert(hover_text(code, doc) =~= fenced(code, doc));
        },
    }
}

/// A method that is written with its return type is shown as it is written, whatever its body ends
/// with: nothing is added to the signature, and no type is called inferred.
pub proof fn lemma_written_type_is_shown(
    a: Seq<char>,
    b: Seq<char>,
    doc: Option<Seq<char>>,
    inferred: Option<Seq<char>>,
)
    requires
        !b.contains(')'),
        b.contains(':'),
    ensures
        method_text(a + ")"@ + b, doc, inferred) == fenced(a + ")"@ + b, doc),
{
    reveal_strlit(")");
    lemma_type_behind_brackets(a, b);
    lemma_hover_text(a + ")"@ + b, doc);
}

/// A method that is written without a return type is shown with the one that its body ends with, and
/// that type is called inferred.
pub proof fn lemma_inferred_type_is_shown(
    a: Seq<char>,
    b: Seq<char>,
    doc: Option<Seq<char>>,
    ty: Seq<char>,
)
    requires
        !b.contains(')'),
        !b.contains(':'),
    ensures
        method_text(a + ")"@ + b, doc, Some(ty)) == "```crystal\n"@ + trimmed_end(a + ")"@ + b)
            + " : "@ + ty + "\n```"@ + "\n\n*inferred return type: "@ + ty + "*"@ + match doc {
            Some(text) => "\n\n"@ + text,
            None => Seq::empty(),
        },
{
    let sig = a + ")"@ + b;
    lemma_type_behind_brackets(a, b);
    let block = "```crystal\n"@ + (trimmed_end(sig) + " : "@ + ty) + "\n```"@;
    let label = "*inferred return type: "@ + ty + "*"@;
    reveal_strlit("\n\n");
    reveal_strlit("\n\n*inferred return type: ");
    reveal_strlit("*inferred return type: ");
    assert("\n\n*inferred return type: "@ =~= "\n\n"@ + "*inferred return type: "@);
    let two = seq![block, label];
    assert(two.drop_last() =~= seq![block]);
    assert(joined(seq![block], "\n\n"@) == block);
    assert(joined(two, "\n\n"@) == block + "\n\n"@ + label);
    let whole = "```crystal\n"@ + trimmed_end(sig) + " : "@ + ty + "\n```"@
        + "\n\n*inferred return type: "@ + ty + "*"@;
    assert(block + "\n\n"@ + label =~= whole);
    match doc {
        Some(text) => {
            let three = two + seq![text];
            assert(three.drop_last() =~= two);
            assert(three.last() == text);
            assert(joined(three, "\n\n"@) == whole + "\n\n"@ + text);
            assert(whole + "\n\n"@ + text =~= whole + ("\n\n"@ + text));
        },
        None => {
            assert(two + Seq::<Seq<char>>::empty() =~= two);
            assert(whole + Seq::<char>::empty() =~= whole);
        },
    }
}

/// A method of which no type is known is shown as it is written.
pub proof fn lemma_unknown_type_is_not_shown(sig: Seq<char>, doc: Option<Seq<char>>)
    requires
        sig.len() > 0,
    ensures
        method_text(sig, doc, None) == fenced(sig, doc),
{
    lemma_hover_text(sig, doc);
}

// ---------------------------------------------------------------------------
// Signatures and comments
// ---------------------------------------------------------------------------

/// Whether `c` starts no literal and no comment.
pub open spec fn plain_char(c: char) -> bool {
    c != '"' && c != '\'' && c != '/' && c != '`' && c != '%' && c != '#'
}

/// How often `c` occurs in `s`.
pub open spec fn number_of(s: Seq<char>, c: char) -> nat
    decreases s.len(),
{
    if s.len() == 0 {
        0
    } else {
        number_of(s.skip(1), c) + if s[0] == c {
            1nat
        } else {
            0
        }
    }
}

proof fn lemma_plain_from(s: Seq<char>, i: int, last: char)
    requires
        0 <= i <= s.len(),
        forall|k: int| 0 <= k < s.len() ==> plain_char(#[trigger] s[k]),
    ensures
        brackets_from(s, i, last) == number_of(s.skip(i), '(') - number_of(s.skip(i), ')'),
    decreases s.len() - i,
{
    if i < s.len() {
        assert(plain_char(s[i]));
        assert(literal_at(s, i, last) is None);
        lemma_plain_from(s, i + 1, last_after(last, s[i]));
        assert(s.skip(i).skip(1) =~= s.skip(i + 1));
        assert(s.skip(i)[0] == s[i]);
    }
}

/// Code without literals and comments is unclosed exactly where it opens more brackets than it
/// closes.
pub proof fn lemma_plain_brackets(s: Seq<char>)
    requires
        forall|k: int| 0 <= k < s.len() ==> plain_char(#[trigger] s[k]),
    ensures
        unclosed(s) <==> number_of(s, '(') > number_of(s, ')'),
{
    lemma_plain_from(s, 0, '\n');
    assert(s.skip(0) =~= s);
}

/// A signature whose brackets are closed on its first line is that line.
pub proof fn lemma_one_line_signature(lines: Seq<Seq<char>>, start: int)
    requires
        0 <= start < lines.len(),
        !unclosed(trimmed(lines[start])),
    ensures
        signature(lines, start) == trimmed(lines[start]),
{
}

/// A signature whose brackets are closed on a later line goes on up to that line and no further.
pub proof fn lemma_signature_of_two_lines(lines: Seq<Seq<char>>, start: int)
    requires
        0 <= start < lines.len() - 1,
        unclosed(trimmed(lines[start])),
        !unclosed(trimmed(lines[start]) + "\n"@ + lines[start + 1]),
    ensures
        signature(lines, start) == trimmed(lines[start]) + "\n"@ + lines[start + 1],
{
    let sig = trimmed(lines[start]) + "\n"@ + lines[start + 1];
    assert(closed_signature(sig, lines, start + 2) == sig);
}

/// The comment above a definition is made of the lines right above it that start with `#`, without
/// the `#` and one space behind it.
pub proof fn lemma_comment_above(
    lines: Seq<Seq<char>>,
    from: int,
    line: int,
    comment: Seq<Seq<char>>,
)
    requires
        0 <= from < line <= lines.len(),
        comment.len() == line - from,
        forall|i: int|
            0 <= i < comment.len() ==> trimmed(lines[from + i]) == "# "@ + #[trigger] comment[i],
        from > 0 ==> (trimmed(lines[from - 1]).len() == 0 || trimmed(lines[from - 1])[0] != '#'),
    ensures
        doc_comment(lines, line) == Some(joined(comment, "\n"@)),
{
    lemma_comment_lines(lines, from, line, comment);
}

proof fn lemma_comment_lines(
    lines: Seq<Seq<char>>,
    from: int,
    line: int,
    comment: Seq<Seq<char>>,
)
    requires
        0 <= from <= line <= lines.len(),
        comment.len() == line - from,
        forall|i: int|
            0 <= i < comment.len() ==> trimmed(lines[from + i]) == "# "@ + #[trigger] comment[i],
        from > 0 ==> (trimmed(lines[from - 1]).len() == 0 || trimmed(lines[from - 1])[0] != '#'),
    ensures
        comment_lines(lines, line) == comment,
    decreases line - from,
{
    reveal_strlit("# ");
    if from < line {
        let front = comment.drop_last();
        let last = comment[comment.len() - 1];
        assert forall|i: int| 0 <= i < front.len() implies trimmed(lines[from + i]) == "# "@
            + #[trigger] front[i] by {
            assert(front[i] == comment[i]);
        }
        lemma_comment_lines(lines, from, line - 1, front);
        let t = trimmed(lines[line - 1]);
        assert(t == "# "@ + last);
        assert(t[0] == '#');
        assert(t.take(2) =~= "# "@);
        assert(t.skip(2) =~= last);
        assert(comment_text(t) == last);
        assert(front.push(last) =~= comment);
    } else {
        assert(comment =~= Seq::empty());
    }
}

/// A line of a comment without a space behind the `#` is what follows the `#`.
pub proof fn lemma_comment_without_space(lines: Seq<Seq<char>>, line: int, text: Seq<char>)
    requires
        1 <= line <= lines.len(),
        trimmed(lines[line - 1]) == "#"@ + text,
        text.len() > 0 ==> text[0] != ' ',
        line > 1 ==> (trimmed(lines[line - 2]).len() == 0 || trimmed(lines[line - 2])[0] != '#'),
    ensures
        doc_comment(lines, line) == Some(text),
{
    reveal_strlit("#");
    reveal_strlit("# ");
    let t = trimmed(lines[line - 1]);
    assert(t[0] == '#');
    if "# "@.is_prefix_of(t) {
        assert(t.take(2)[1] == t[1]);
        assert(t[1] == text[0]);
    }
    assert(t.skip(1) =~= text);
    assert(comment_lines(lines, line - 1) =~= Seq::empty());
    assert(comment_lines(lines, line) =~= seq![text]);
}

/// A definition that has no line with `#` right above it has no comment.
pub proof fn lemma_no_comment(lines: Seq<Seq<char>>, line: int)
    requires
        0 <= line <= lines.len(),
        line > 0 ==> (trimmed(lines[line - 1]).len() == 0 || trimmed(lines[line - 1])[0] != '#'),
    ensures
        doc_comment(lines, line) is None,
{
}

/// A class, module, struct, enum, lib or type alias is shown with the line that defines it and its
/// comment.
pub proof fn lemma_type_is_shown(s: Sym, source: Seq<char>)
    requires
        s.kind == SymbolKind::Class || s.kind == SymbolKind::Module || s.kind == SymbolKind::Struct
            || s.kind == SymbolKind::Enum || s.kind == SymbolKind::Lib || s.kind
            == SymbolKind::Type,
        s.start_line < text_lines(source).len(),
        trimmed(text_lines(source)[s.start_line as int]).len() > 0,
    ensures
        hover_content(s, source) == fenced(
            trimmed(text_lines(source)[s.start_line as int]),
            doc_comment(text_lines(source), s.start_line as int),
        ),
{
    lemma_hover_text(
        trimmed(text_lines(source)[s.start_line as int]),
        doc_comment(text_lines(source), s.start_line as int),
    );
}

/// A constant or a field is shown with the line that defines it and no comment.
pub proof fn lemma_constant_is_shown(s: Sym, source: Seq<char>)
    requires
        s.kind == SymbolKind::Constant || s.kind == SymbolKind::Field,
        s.start_line < text_lines(source).len(),
        trimmed(text_lines(source)[s.start_line as int]).len() > 0,
    ensures
        hover_content(s, source) == fenced(
            trimmed(text_lines(source)[s.start_line as int]),
            None,
        ),
{
    lemma_hover_text(trimmed(text_lines(source)[s.start_line as int]), None);
}

/// A method, function or macro is shown with its signature, its comment and what is known of its
/// return type.
pub proof fn lemma_method_is_shown(s: Sym, source: Seq<char>)
    requires
        s.kind == SymbolKind::Method || s.kind == SymbolKind::Function || s.kind
            == SymbolKind::Macro,
    ensures
        hover_content(s, source) == method_text(
            signature(text_lines(source), s.start_line as int),
            doc_comment(text_lines(source), s.start_line as int),
            s.return_type,
        ),
{
}

/// A method that is written on one line with its return type is shown as that line.
pub proof fn lemma_typed_method_is_shown(
    s: Sym,
    source: Seq<char>,
    a: Seq<char>,
    b: Seq<char>,
)
    requires
        s.kind == SymbolKind::Method || s.kind == SymbolKind::Function || s.kind
            == SymbolKind::Macro,
        s.start_line < text_lines(source).len(),
        trimmed(text_lines(source)[s.start_line as int]) == a + ")"@ + b,
        !unclosed(a + ")"@ + b),
        !b.contains(')'),
        b.contains(':'),
    ensures
        hover_content(s, source) == fenced(
            a + ")"@ + b,
            doc_comment(text_lines(source), s.start_line as int),
        ),
{
    let lines = text_lines(source);
    lemma_one_line_signature(lines, s.start_line as int);
    lemma_written_type_is_shown(a, b, doc_comment(lines, s.start_line as int), s.return_type);
}

// ---------------------------------------------------------------------------
// Macros
// ---------------------------------------------------------------------------

/// Whether calls of `name` are expanded: a macro that declares properties, plain or with one mark, or
/// one of those that make methods.
pub open spec fn expandable(name: Seq<char>) -> bool {
    ||| property_word(name)
    ||| name.len() > 0 && (name.last() == '?' || name.last() == '!') && property_word(
        name.drop_last(),
    )
    ||| name == "delegate"@
    ||| name == "forward_missing_to"@
    ||| name == "record"@
    ||| name == "def_equals"@
    ||| name == "def_hash"@
    ||| name == "def_equals_and_hash"@
    ||| name == "def_clone"@
}

proof fn lemma_marked(word: Seq<char>, marked: Seq<char>, mark: char, name: Seq<char>)
    requires
        marked == word.push(mark),
    ensures
        name == marked <==> name.len() > 0 && name.last() == mark && name.drop_last() == word,
{
    if name.len() > 0 {
        assert(name =~= name.drop_last().push(name.last()));
    }
    assert(marked.drop_last() =~= word);
}

/// The macros whose calls are expanded are known by their names.
pub proof fn lemma_expandable(name: Seq<char>)
    ensures
        macro_method(name) <==> expandable(name),
{
    reveal_strlit("property");
    reveal_strlit("property?");
    assert("property?"@ =~= "property"@.push('?'));
    lemma_marked("property"@, "property?"@, '?', name);
    reveal_strlit("property");
    reveal_strlit("property!");
    assert("property!"@ =~= "property"@.push('!'));
    lemma_marked("property"@, "property!"@, '!', name);
    reveal_strlit("getter");
    reveal_strlit("getter?");
    assert("getter?"@ =~= "getter"@.push('?'));
    lemma_marked("getter"@, "getter?"@, '?', name);
    reveal_strlit("getter");
    reveal_strlit("getter!");
    assert("getter!"@ =~= "getter"@.push('!'));
    lemma_marked("getter"@, "getter!"@, '!', name);
    reveal_strlit("setter");
    reveal_strlit("setter?");
    assert("setter?"@ =~= "setter"@.push('?'));
    lemma_marked("setter"@, "setter?"@, '?', name);
    reveal_strlit("setter");
    reveal_strlit("setter!");
    assert("setter!"@ =~= "setter"@.push('!'));
    lemma_marked("setter"@, "setter!"@, '!', name);
    reveal_strlit("class_property");
    reveal_strlit("class_property?");
    assert("class_property?"@ =~= "class_property"@.push('?'));
    lemma_marked("class_property"@, "class_property?"@, '?', name);
    reveal_strlit("class_property");
    reveal_strlit("class_property!");
    assert("class_property!"@ =~= "class_property"@.push('!'));
    lemma_marked("class_property"@, "class_property!"@, '!', name);
    reveal_strlit("class_getter");
    reveal_strlit("class_getter?");
    assert("class_getter?"@ =~= "class_getter"@.push('?'));
    lemma_marked("class_getter"@, "class_getter?"@, '?', name);
    reveal_strlit("class_getter");
    reveal_strlit("class_getter!");
    assert("class_getter!"@ =~= "class_getter"@.push('!'));
    lemma_marked("class_getter"@, "class_getter!"@, '!', name);
    reveal_strlit("class_setter");
    reveal_strlit("class_setter?");
    assert("class_setter?"@ =~= "class_setter"@.push('?'));
    lemma_marked("class_setter"@, "class_setter?"@, '?', name);
    reveal_strlit("class_setter");
    reveal_strlit("class_setter!");
    assert("class_setter!"@ =~= "class_setter"@.push('!'));
    lemma_marked("class_setter"@, "class_setter!"@, '!', name);
}

/// A call of such a macro, or an annotation, is found from every node inside it, unless another one is
/// nearer.
pub proof fn lemma_nearest_macro_call(t: SynTree, path: Seq<usize>, n: int, name: Seq<char>)
    requires
        0 <= n <= path.len(),
        calls_macro(subtree(t, path.take(n)), name),
        forall|k: int, other: Seq<char>|
            n < k <= path.len() ==> !#[trigger] calls_macro(subtree(t, path.take(k)), other),
    ensures
        macro_call(t, path) == Some((name, path.take(n))),
{
    lemma_macro_call(t, path, n, path.len() as int, name);
    assert(path.take(path.len() as int) =~= path);
}

/// Whether the node `n` is a call of the macro `name`, or an annotation of that name.
pub open spec fn calls_macro(n: SynTree, name: Seq<char>) -> bool {
    ||| n.kind == "call"@ && field_text(n, "method"@) == Some(name) && expandable(name)
    ||| n.kind == "annotation"@ && first_named(n) is Some && (first_named(n)->0).text == Some(name)
}

proof fn lemma_called_macro(n: SynTree, name: Seq<char>)
    ensures
        called_macro(n) == Some(name) <==> calls_macro(n, name),
{
    reveal_strlit("call");
    reveal_strlit("annotation");
    assert("call"@.len() != "annotation"@.len());
    if let Some(method) = field_text(n, "method"@) {
        lemma_expandable(method);
    }
}

proof fn lemma_macro_call(t: SynTree, path: Seq<usize>, n: int, m: int, name: Seq<char>)
    requires
        0 <= n <= m <= path.len(),
        calls_macro(subtree(t, path.take(n)), name),
        forall|k: int, other: Seq<char>|
            n < k <= path.len() ==> !#[trigger] calls_macro(subtree(t, path.take(k)), other),
    ensures
        macro_call(t, path.take(m)) == Some((name, path.take(n))),
    decreases m - n,
{
    let here = subtree(t, path.take(m));
    if n < m {
        if let Some(other) = called_macro(here) {
            lemma_called_macro(here, other);
            assert(!calls_macro(here, other));
        }
        assert(path.take(m).drop_last() =~= path.take(m - 1));
        lemma_macro_call(t, path, n, m - 1, name);
    } else {
        lemma_called_macro(here, name);
    }
}

/// A macro call is expanded at the place where it starts, with line and column counted from one.
pub proof fn lemma_macro_is_expanded(
    cache: MacroExpansionCache,
    current: Seq<char>,
    t: SynTree,
    path: Seq<usize>,
    n: int,
    name: Seq<char>,
)
    requires
        0 <= n <= path.len(),
        calls_macro(subtree(t, path.take(n)), name),
        forall|k: int, other: Seq<char>|
            n < k <= path.len() ==> !#[trigger] calls_macro(subtree(t, path.take(k)), other),
        subtree(t, path.take(n)).start.row < u32::MAX,
        subtree(t, path.take(n)).start.column < u32::MAX,
    ensures
        ({
            let start = subtree(t, path.take(n)).start;
            let line = (start.row + 1) as u32;
            let col = (start.column + 1) as u32;
            macro_hover(cache, current, t, path) == Some(
                match cache.cached(current, line, col) {
                    Some(expansion) => HoverModel::Show(macro_text(name, expansion)),
                    None => HoverModel::Expand(name, current, line, col),
                },
            )
        }),
{
    lemma_nearest_macro_call(t, path, n, name);
}

/// A macro is shown by its name and its expansion, without the white space around it.
pub proof fn lemma_expansion_is_shown(name: Seq<char>, code: Seq<char>)
    ensures
        has_text(macro_text(name, Some(code)), name),
        has_text(macro_text(name, Some(code)), trimmed(code)),
{
    let front = "**Macro:** `"@;
    let middle = "`\n\n```crystal\n"@;
    let back = "\n```"@;
    let text = macro_text(name, Some(code));
    assert(text =~= front + name + (middle + trimmed(code) + back));
    lemma_has_middle(front, name, middle + trimmed(code) + back);
    assert(text =~= (front + name + middle) + trimmed(code) + back);
    lemma_has_middle(front + name + middle, trimmed(code), back);
}

/// A macro without an expansion is shown by its name, and that there is none.
pub proof fn lemma_missing_expansion_is_shown(name: Seq<char>)
    ensures
        has_text(macro_text(name, None), name),
        has_text(macro_text(name, None), "*Crystal compiler not available for expansion*"@),
{
    let none = Seq::<char>::empty();
    let front = "**Macro:** `"@;
    let back = "`\n\n*Crystal compiler not available for expansion*"@;
    let note = "*Crystal compiler not available for expansion*"@;
    let text = macro_text(name, None);
    lemma_has_middle(front, name, back);
    assert(back =~= "`\n\n"@ + note) by {
        reveal_strlit("`\n\n*Crystal compiler not available for expansion*");
        reveal_strlit("`\n\n");
        reveal_strlit("*Crystal compiler not available for expansion*");
    }
    assert(text =~= (front + name + "`\n\n"@) + note + none);
    lemma_has_middle(front + name + "`\n\n"@, note, none);
}

/// The text of a `require` leads to what the `require` leads to, whatever else is known.
pub proof fn lemma_require_is_shown(
    ix: IndexModel,
    cache: MacroExpansionCache,
    current: Seq<char>,
    t: SynTree,
    path: Seq<usize>,
    text: Seq<char>,
)
    requires
        path.len() >= 2,
        subtree(t, path).kind == "literal_content"@,
        subtree(t, path.drop_last().drop_last()).kind == "require"@,
        subtree(t, path).text == Some(text),
    ensures
        hover_of(ix, cache, current, t, path) == require_hover(text, current),
{
    assert(path.drop_last().drop_last() =~= path.take(path.len() - 2));
}

// ---------------------------------------------------------------------------
// Instance variables
// ---------------------------------------------------------------------------

/// Whether the node `n` is a class or struct with a name.
pub open spec fn named_class(n: SynTree) -> bool {
    (n.kind == "class_def"@ || n.kind == "struct_def"@) && field_of(n, "name"@) is Some
}

proof fn lemma_class_around(t: SynTree, path: Seq<usize>, n: int, m: int)
    requires
        0 <= n <= m <= path.len(),
        named_class(subtree(t, path.take(n))),
        forall|k: int| n < k <= path.len() ==> !named_class(#[trigger] subtree(t, path.take(k))),
    ensures
        enclosing_class(t, path.take(m)) == field_text(subtree(t, path.take(n)), "name"@),
    decreases m - n,
{
    if n < m {
        assert(!named_class(subtree(t, path.take(m))));
        assert(path.take(m).drop_last() =~= path.take(m - 1));
        lemma_class_around(t, path, n, m - 1);
    }
}

/// An instance variable is shown with the type and the class that the nearest class or struct around
/// it declares it with.
pub proof fn lemma_ivar_is_shown(
    ix: IndexModel,
    cache: MacroExpansionCache,
    current: Seq<char>,
    t: SynTree,
    path: Seq<usize>,
    n: int,
    name: Seq<char>,
    class: Seq<char>,
    v: crate::extract::Ivar,
)
    requires
        0 <= n <= path.len(),
        subtree(t, path).kind == "instance_var"@,
        subtree(t, path).text == Some(name),
        named_class(subtree(t, path.take(n))),
        field_text(subtree(t, path.take(n)), "name"@) == Some(class),
        forall|k: int| n < k <= path.len() ==> !named_class(#[trigger] subtree(t, path.take(k))),
        first_ivar(ix, class, name) == Some(v),
    ensures
        hover_of(ix, cache, current, t, path) == HoverModel::Show(
            "```crystal\n"@ + name + match v.var_type {
                Some(ty) => " : "@ + ty,
                None => Seq::empty(),
            } + "\n```\n\n("@ + class + ")"@,
        ),
{
    reveal_strlit("instance_var");
    reveal_strlit("literal_content");
    assert("instance_var"@.len() != "literal_content"@.len());
    lemma_class_around(t, path, n, path.len() as int);
    assert(path.take(path.len() as int) =~= path);
}

/// The variable that is looked up is one of the class's that has the name, and there is one whenever
/// the class has one.
pub proof fn lemma_first_ivar(ix: IndexModel, class: Seq<char>, name: Seq<char>)
    ensures
        match first_ivar(ix, class, name) {
            Some(v) => ix.ivars.contains_key(class) && ix.ivars[class].contains(v) && v.name == name,
            None => ix.ivars.contains_key(class) ==> forall|i: int|
                0 <= i < ix.ivars[class].len() ==> (#[trigger] ix.ivars[class][i]).name != name,
        },
{
    if ix.ivars.contains_key(class) {
        lemma_ivar_from(ix.ivars[class], name, 0);
    }
}

proof fn lemma_ivar_from(vars: Seq<crate::extract::Ivar>, name: Seq<char>, i: int)
    requires
        0 <= i,
    ensures
        match crate::index::ivar_from(vars, name, i) {
            Some(v) => vars.contains(v) && v.name == name,
            None => forall|k: int| i <= k < vars.len() ==> (#[trigger] vars[k]).name != name,
        },
    decreases vars.len() - i,
{
    if i < vars.len() && vars[i].name != name {
        lemma_ivar_from(vars, name, i + 1);
    }
}

// ---------------------------------------------------------------------------
// Names
// ---------------------------------------------------------------------------

/// Whether `kinds` are the kinds of symbols that the node at `path` can name.
pub open spec fn names_kinds(t: SynTree, path: Seq<usize>, kinds: Set<SymbolKind>) -> bool {
    let kind = subtree(t, path).kind;
    ||| kind == "constant"@ && kinds == set![
        SymbolKind::Class,
        SymbolKind::Module,
        SymbolKind::Struct,
        SymbolKind::Enum,
        SymbolKind::Constant,
        SymbolKind::Type,
    ]
    ||| kind == "identifier"@ && stands_for_method(t, path) && kinds == set![SymbolKind::Method]
    ||| kind == "identifier"@ && !stands_for_method(t, path) && kinds == set![
        SymbolKind::Method,
        SymbolKind::Macro,
        SymbolKind::Function,
    ]
    ||| (kind == "instance_var"@ || kind == "class_var"@) && kinds == set![SymbolKind::Field]
}

proof fn lemma_classified_kinds(t: SynTree, path: Seq<usize>, name: Seq<char>, kinds: Set<SymbolKind>)
    requires
        names_kinds(t, path, kinds),
        subtree(t, path).text == Some(name),
        name.len() > 0,
    ensures
        classified(t, path) matches Some((n, listed)) && n == name && listed.len() > 0 && forall|
            k: SymbolKind,
        | #[trigger] kinds.contains(k) <==> listed.contains(k),
{
    lemma_name_kinds();
    let listed = (classified(t, path)->0).1;
    let kind = subtree(t, path).kind;
    if kind == "constant"@ {
        assert(listed[0] == SymbolKind::Class);
        assert(listed[1] == SymbolKind::Module);
        assert(listed[2] == SymbolKind::Struct);
        assert(listed[3] == SymbolKind::Enum);
        assert(listed[4] == SymbolKind::Constant);
        assert(listed[5] == SymbolKind::Type);
    } else if kind == "identifier"@ {
        assert(listed[0] == SymbolKind::Method);
        if !stands_for_method(t, path) {
            assert(listed[1] == SymbolKind::Macro);
            assert(listed[2] == SymbolKind::Function);
        }
    } else {
        assert(listed[0] == SymbolKind::Field);
    }
    assert forall|k: SymbolKind| #[trigger] kinds.contains(k) <==> listed.contains(k) by {}
}

/// A name is shown by one of the symbols that it can mean: there is something to show whenever such a
/// symbol is defined, and one in the file itself goes before all others.
pub proof fn lemma_name_is_shown(
    ix: IndexModel,
    current: Seq<char>,
    t: SynTree,
    path: Seq<usize>,
    name: Seq<char>,
    kinds: Set<SymbolKind>,
    h: Hit,
)
    requires
        names_kinds(t, path, kinds),
        subtree(t, path).text == Some(name),
        name.len() > 0,
        defines(ix, h.0, h.1),
        h.1.name == name,
        kinds.contains(h.1.kind),
    ensures
        name_hover(ix, current, t, path) matches HoverModel::Describe(file, s, local) && {
            &&& defines(ix, file, s)
            &&& s.name == name
            &&& kinds.contains(s.kind)
            &&& local == same_path(file, current)
            &&& same_path(h.0, current) ==> local
        },
{
    lemma_classified_kinds(t, path, name, kinds);
    let listed = (classified(t, path)->0).1;
    let found = named_hits(ix, name, listed);
    let sorted = stable_sorted(hit_order(current), found);
    lemma_named_hits(ix, name, listed, h);
    lemma_sorted_contains(current, found, h);
    let i = choose|i: int| 0 <= i < sorted.len() && sorted[i] == h;
    let first = sorted[0];
    assert(sorted.contains(first));
    lemma_sorted_contains(current, found, first);
    lemma_named_hits(ix, name, listed, first);
    assert(kinds.contains(first.1.kind));
    lemma_local_results_first(found, current);
    if i > 0 && same_path(sorted[i].0, current) {
        assert(same_path(sorted[0].0, current));
    }
}

/// Where no symbol is defined that the name can mean, nothing is shown.
pub proof fn lemma_unknown_name_is_not_shown(
    ix: IndexModel,
    current: Seq<char>,
    t: SynTree,
    path: Seq<usize>,
    name: Seq<char>,
    kinds: Set<SymbolKind>,
)
    requires
        names_kinds(t, path, kinds),
        subtree(t, path).text == Some(name),
        name.len() > 0,
        forall|p: Seq<char>, s: Sym| #[trigger]
            defines(ix, p, s) && s.name == name ==> !kinds.contains(s.kind),
    ensures
        name_hover(ix, current, t, path) is Nothing,
{
    lemma_classified_kinds(t, path, name, kinds);
    let listed = (classified(t, path)->0).1;
    let found = named_hits(ix, name, listed);
    let sorted = stable_sorted(hit_order(current), found);
    if sorted.len() > 0 {
        let first = sorted[0];
        assert(sorted.contains(first));
        lemma_sorted_contains(current, found, first);
        lemma_named_hits(ix, name, listed, first);
        assert(defines(ix, first.0, first.1));
        assert(kinds.contains(first.1.kind));
    }
}

/// A name that is in no macro call, and is no `require`, is shown by its definition.
pub proof fn lemma_plain_name_is_shown(
    ix: IndexModel,
    cache: MacroExpansionCache,
    current: Seq<char>,
    t: SynTree,
    path: Seq<usize>,
)
    requires
        subtree(t, path).kind == "constant"@ || subtree(t, path).kind == "identifier"@,
        macro_call(t, path) is None,
    ensures
        hover_of(ix, cache, current, t, path) == name_hover(ix, current, t, path),
{
    lemma_name_kinds();
    reveal_strlit("constant");
    reveal_strlit("identifier");
    reveal_strlit("literal_content");
    assert("constant"@.len() != "literal_content"@.len());
    assert("identifier"@.len() != "literal_content"@.len());
}

} // verus!
