//! Which diagnostics are shown.

use vstd::prelude::*;

use crate::crystal_cli::{
    check_command, compiler_diagnostic, compiler_diagnostics, expand_command, nil_risk, printed,
    wait_action, CompilerDiagnostic, ProcessState, WaitAction, COMPILER_TIMEOUT_MS,
    POLL_INTERVAL_MS,
};
use crate::diagnostics::{
    errors_below, merged_diagnostics, syntax_errors, StoreModel,
};
use crate::laws::receivers::lemma_below_child;
use crate::laws::text::{blank, lemma_trim_around};
use crate::paths::{path_parts, same_path};
use crate::protocol::{Diag, DiagnosticSeverity, DiagnosticTag};
use crate::syntax::{lemma_valid_prefix, subtree, valid_path, SynTree};
use crate::text::{decimal, has_text, occurs_at, trimmed, whitespace};

verus! {

// ---------------------------------------------------------------------------
// Syntax errors
// ---------------------------------------------------------------------------

/// Whether the diagnostic `d` is about the node `n`, from its start up to `end`.
pub open spec fn about(d: Diag, n: SynTree, end: crate::syntax::Point) -> bool {
    &&& d.range.start.line == n.start.row as u32
    &&& d.range.start.character == n.start.column as u32
    &&& d.range.end.line == end.row as u32
    &&& d.range.end.character == end.column as u32
    &&& d.severity == Some(DiagnosticSeverity::Error)
    &&& d.source == Some("zircon-syntax"@)
    &&& d.tags is None
}

/// Whether `d` reports the node `n`: text that could not be parsed, over all of it, or something that
/// is missing, at its place and by its name.
pub open spec fn reports(d: Diag, n: SynTree) -> bool {
    ||| n.error && about(d, n, n.end)
    ||| !n.error && n.missing && about(d, n, n.start) && d.message == "Missing `"@ + n.kind + "`"@
}

/// Whether the node at the end of `path` is inside no text that could not be parsed.
pub open spec fn outside_errors(t: SynTree, path: Seq<usize>) -> bool {
    forall|k: int| 0 <= k < path.len() ==> !(#[trigger] subtree(t, path.take(k))).error
}

proof fn lemma_below_contains(t: SynTree, n: int, k: int, d: Diag)
    requires
        0 <= k < n <= t.children.len(),
        syntax_errors(t.children[k]).contains(d),
    ensures
        errors_below(t, n).contains(d),
    decreases n,
{
    let a = errors_below(t, n - 1);
    let b = syntax_errors(t.children[n - 1]);
    crate::require_glob::lemma_sum_contains(a, b, d);
    if k < n - 1 {
        lemma_below_contains(t, n - 1, k, d);
    }
}

/// Every error and everything that is missing is reported, unless it is inside text that could not be
/// parsed.
pub proof fn lemma_error_is_reported(t: SynTree, path: Seq<usize>)
    requires
        valid_path(t, path),
        outside_errors(t, path),
        subtree(t, path).error || subtree(t, path).missing,
    ensures
        exists|i: int|
            0 <= i < syntax_errors(t).len() && reports(#[trigger] syntax_errors(t)[i], subtree(t, path)),
    decreases path.len(),
{
    let n = t.children.len() as int;
    let own = if t.missing {
        seq![crate::diagnostics::missing_diagnostic(t)]
    } else {
        Seq::empty()
    };
    if path.len() == 0 {
        if t.error {
            assert(reports(syntax_errors(t)[0], t));
        } else {
            assert((own + errors_below(t, n))[0] == own[0]);
            assert(reports(syntax_errors(t)[0], t));
        }
    } else {
        let k = path[0];
        let rest = path.skip(1);
        assert(path.take(0) =~= Seq::empty());
        assert(!subtree(t, path.take(0)).error);
        lemma_valid_prefix(t, path, 0);
        let c = t.children[k as int];
        assert(seq![k] + rest =~= path);
        lemma_below_child(t, k, rest);
        assert forall|j: int| 0 <= j < rest.len() implies !(#[trigger] subtree(
            c,
            rest.take(j),
        )).error by {
            assert(seq![k] + rest.take(j) =~= path.take(j + 1));
            lemma_below_child(t, k, rest.take(j));
            assert(!subtree(t, path.take(j + 1)).error);
        }
        lemma_error_is_reported(c, rest);
        let i = choose|i: int|
            0 <= i < syntax_errors(c).len() && reports(
                #[trigger] syntax_errors(c)[i],
                subtree(c, rest),
            );
        let d = syntax_errors(c)[i];
        assert(syntax_errors(c).contains(d));
        lemma_below_contains(t, n, k as int, d);
        crate::require_glob::lemma_sum_contains(own, errors_below(t, n), d);
        let j = choose|j: int| 0 <= j < syntax_errors(t).len() && syntax_errors(t)[j] == d;
        assert(reports(syntax_errors(t)[j], subtree(t, path)));
    }
}

/// Text that could not be parsed is named in the message where it is short, without the white space
/// around it.
pub proof fn lemma_error_message(t: SynTree, text: Seq<char>)
    requires
        t.error,
        t.text == Some(text),
    ensures
        syntax_errors(t).len() == 1,
        trimmed(text).len() > 0 && vstd::utf8::encode_utf8(text).len() <= 50 ==> syntax_errors(
            t,
        )[0].message == "Unexpected `"@ + trimmed(text) + "`"@,
        text.len() > 0 && trimmed(text).len() == 0 && vstd::utf8::encode_utf8(text).len() <= 50
            ==> syntax_errors(t)[0].message == "Unexpected token"@,
        vstd::utf8::encode_utf8(text).len() > 50 || text.len() == 0 ==> syntax_errors(t)[0].message
            == "Syntax error"@,
{
    if text.len() == 0 {
        assert(trimmed(text) =~= Seq::empty());
    }
}

// ---------------------------------------------------------------------------
// What is shown for a file
// ---------------------------------------------------------------------------

/// A file with diagnostics of one sort shows just those, and a file without any shows none.
pub proof fn lemma_one_sort_is_shown(s: StoreModel, path: Seq<char>)
    ensures
        !s.compiler.contains_key(path_parts(path)) && s.syntax.contains_key(path_parts(path))
            ==> merged_diagnostics(s, path) == s.syntax[path_parts(path)],
        s.compiler.contains_key(path_parts(path)) && !s.syntax.contains_key(path_parts(path))
            ==> merged_diagnostics(s, path) == s.compiler[path_parts(path)],
        !s.compiler.contains_key(path_parts(path)) && !s.syntax.contains_key(path_parts(path))
            ==> merged_diagnostics(s, path).len() == 0,
{
}

/// What is shown for a file does not depend on how its path is written, nor on what is known of
/// other files.
pub proof fn lemma_shown_by_file(
    s: StoreModel,
    path: Seq<char>,
    same: Seq<char>,
    other: Seq<char>,
    diags: Seq<Diag>,
)
    requires
        same_path(path, same),
        !same_path(path, other),
    ensures
        merged_diagnostics(s, path) == merged_diagnostics(s, same),
        merged_diagnostics(
            StoreModel { syntax: s.syntax.insert(path_parts(other), diags), ..s },
            path,
        ) == merged_diagnostics(s, path),
        merged_diagnostics(
            StoreModel { compiler: s.compiler.insert(path_parts(other), diags), ..s },
            path,
        ) == merged_diagnostics(s, path),
{
}

// ---------------------------------------------------------------------------
// The compiler's messages
// ---------------------------------------------------------------------------

/// Whether the diagnostic `d` says what the message `e` of the compiler says, which counts lines and
/// columns from one.
pub open spec fn says_as(d: Diag, e: CompilerDiagnostic) -> bool {
    &&& d.message == e.message@
    &&& d.range.start.line + 1 == e.line
    &&& d.range.end.line + 1 == e.line
    &&& d.range.start.character + 1 == e.column
    &&& e.size matches Some(n) ==> d.range.end.character == d.range.start.character + n
    &&& e.size is None ==> d.range.end.character == d.range.start.character + 1
    &&& e.severity@ == "warning"@ ==> d.severity == Some(DiagnosticSeverity::Warning)
    &&& e.severity@ != "warning"@ ==> d.severity == Some(DiagnosticSeverity::Error)
    &&& d.source == Some("zircon-compiler"@)
}

/// A message of the compiler becomes a diagnostic that says the same at the same place.
pub proof fn lemma_message_is_shown(e: CompilerDiagnostic)
    requires
        0 < e.line <= u32::MAX,
        0 < e.column <= u32::MAX,
        e.size matches Some(n) ==> e.column + n <= u32::MAX,
    ensures
        says_as(compiler_diagnostic(e), e),
{
}

/// A message is marked exactly where it says that a value may be `Nil`.
pub proof fn lemma_nil_is_marked(e: CompilerDiagnostic)
    ensures
        compiler_diagnostic(e).tags == Some(seq![DiagnosticTag::Unnecessary]) <==> has_text(
            e.message@,
            "for Nil"@,
        ) || has_text(e.message@, "not Nil"@) || has_text(e.message@, "| Nil"@),
        compiler_diagnostic(e).tags is None || compiler_diagnostic(e).tags == Some(
            seq![DiagnosticTag::Unnecessary],
        ),
{
    lemma_nil_risk(e.message@);
}

/// A message says that a value may be `Nil` where it holds `for Nil`, `not Nil` or `| Nil`.
pub proof fn lemma_nil_risk(message: Seq<char>)
    ensures
        nil_risk(message) <==> has_text(message, "for Nil"@) || has_text(message, "not Nil"@)
            || has_text(message, "| Nil"@),
{
    reveal_strlit("Nil");
    reveal_strlit("for Nil");
    reveal_strlit("not Nil");
    reveal_strlit("| Nil");
    assert("for Nil"@.subrange(4, 7) =~= "Nil"@);
    assert("not Nil"@.subrange(4, 7) =~= "Nil"@);
    assert("| Nil"@.subrange(2, 5) =~= "Nil"@);
    if has_text(message, "for Nil"@) {
        lemma_has_part(message, "for Nil"@, 4);
    }
    if has_text(message, "not Nil"@) {
        lemma_has_part(message, "not Nil"@, 4);
    }
    if has_text(message, "| Nil"@) {
        lemma_has_part(message, "| Nil"@, 2);
    }
}

proof fn lemma_has_part(s: Seq<char>, p: Seq<char>, k: int)
    requires
        has_text(s, p),
        0 <= k <= p.len(),
    ensures
        has_text(s, p.subrange(k, p.len() as int)),
{
    let i = choose|i: int| occurs_at(s, p, i);
    let q = p.subrange(k, p.len() as int);
    assert(s.subrange(i + k, i + k + q.len()) =~= q) by {
        assert forall|j: int| 0 <= j < q.len() implies s.subrange(i + k, i + k + q.len())[j]
            == q[j] by {
            assert(s.subrange(i, i + p.len())[k + j] == p[k + j]);
        }
    }
    assert(occurs_at(s, q, i + k));
}

/// Whether a message is about the file `target`: its file is written the same, or is an end of the
/// path of `target`.
pub open spec fn message_about(e: CompilerDiagnostic, target: Seq<char>) -> bool {
    e.file@ == target || path_parts(e.file@).is_suffix_of(path_parts(target))
}

/// The diagnostics of a file are those of the messages about it, in their order, and no others.
pub proof fn lemma_messages_of_file(
    entries: Seq<CompilerDiagnostic>,
    target: Seq<char>,
    e: CompilerDiagnostic,
)
    ensures
        compiler_diagnostics(entries.push(e), target) == if message_about(e, target) {
            compiler_diagnostics(entries, target).push(compiler_diagnostic(e))
        } else {
            compiler_diagnostics(entries, target)
        },
        compiler_diagnostics(Seq::empty(), target).len() == 0,
{
    assert(entries.push(e).drop_last() =~= entries);
}

// ---------------------------------------------------------------------------
// Running the compiler
// ---------------------------------------------------------------------------

/// A check builds the file without generating code, and asks for messages in JSON.
pub proof fn lemma_check_command(file: Seq<char>)
    ensures
        ({
            let args = check_command(file);
            &&& args.len() == 5
            &&& args[0] == "build"@
            &&& args.contains("--no-codegen"@)
            &&& exists|i: int| 0 <= i < 4 && #[trigger] args[i] == "-f"@ && args[i + 1] == "json"@
            &&& args.last() == file
        }),
{
    let args = check_command(file);
    assert(args[1] == "--no-codegen"@);
    assert(args[2] == "-f"@ && args[3] == "json"@);
}

/// An expansion names the file and, behind `-c`, the place in it.
pub proof fn lemma_expand_command(file: Seq<char>, line: u32, col: u32)
    ensures
        ({
            let args = expand_command(file, line, col);
            &&& args.len() == 5
            &&& args[0] == "tool"@ && args[1] == "expand"@
            &&& args[2] == "-c"@
            &&& args[3] == file + ":"@ + decimal(line as nat) + ":"@ + decimal(col as nat)
            &&& args[4] == file
        }),
{
}

/// What a program printed counts without the white space around it, and not at all where it is
/// nothing else.
pub proof fn lemma_printed(front: Seq<char>, text: Seq<char>, back: Seq<char>)
    requires
        blank(front),
        blank(back),
        text.len() > 0 ==> !whitespace(text[0]) && !whitespace(text.last()),
    ensures
        text.len() > 0 ==> printed(front + text + back) == Some(text),
        text.len() == 0 ==> printed(front + text + back) is None,
{
    lemma_trim_around(front, text, back);
}

/// The compiler is stopped after half a minute, and looked at twenty times in each second.
pub proof fn lemma_compiler_times()
    ensures
        COMPILER_TIMEOUT_MS == 30 * 1000,
        POLL_INTERVAL_MS * 20 == 1000,
{
}

/// The output of a process is taken exactly once it has ended; one that runs is stopped exactly from
/// its deadline on, and is looked at again before.
pub proof fn lemma_waiting(state: ProcessState, now: u64, deadline: u64)
    ensures
        wait_action(state, now, deadline) == WaitAction::Collect <==> state
            == ProcessState::Exited,
        wait_action(state, now, deadline) == WaitAction::Kill <==> state == ProcessState::Running
            && now >= deadline,
        wait_action(state, now, deadline) == WaitAction::Sleep <==> state == ProcessState::Running
            && now < deadline,
        wait_action(state, now, deadline) == WaitAction::GiveUp <==> state
            == ProcessState::Unknown,
{
}

} // verus!
