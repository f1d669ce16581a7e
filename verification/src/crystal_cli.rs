//! Running the Crystal compiler.
//!
//! Processes are started outside; this module tells with which arguments, decides how long to wait
//! for them, and makes diagnostics of what they print.

use vstd::prelude::*;

use crate::paths::{ends_with_path, path_ends_with};
use crate::protocol::{
    diag_views, narrow_u64, Diag, Diagnostic, DiagnosticSeverity, DiagnosticTag, Position,
    TextRange,
};
use crate::text::{
    chars_of, copy, decimal, has_text, opt_text, push_decimal, same, string_of, text_contains, texts,
    trim, trimmed,
};

verus! {

/// What diagnostics of the compiler are said to come from.
pub const SOURCE_COMPILER: &'static str = "zircon-compiler";

/// How long the compiler may run, in milliseconds.
pub const COMPILER_TIMEOUT_MS: u64 = 30_000;

/// How long to wait before looking again whether the compiler has ended, in milliseconds.
pub const POLL_INTERVAL_MS: u64 = 50;

// ---------------------------------------------------------------------------
// Diagnostics
// ---------------------------------------------------------------------------

/// A message of the compiler, as it prints it.
#[derive(Debug)]
pub struct CompilerDiagnostic {
    pub file: String,
    /// The line, counted from one.
    pub line: u64,
    /// The column, counted from one.
    pub column: u64,
    /// The number of characters that the message is about.
    pub size: Option<u64>,
    pub message: String,
    pub severity: String,
}

/// The severity of a message that names none.
pub fn default_severity() -> (r: String)
    ensures
        r@ == "error"@,
{
    copy("error")
}

/// Whether a message says that a value may be `Nil`.
pub open spec fn nil_risk(message: Seq<char>) -> bool {
    has_text(message, "Nil"@) && (has_text(message, "for Nil"@) || has_text(message, "not Nil"@)
        || has_text(message, "| Nil"@))
}

/// Decides whether a message says that a value may be `Nil`.
pub fn is_nil_risk(message: &str) -> (r: bool)
    ensures
        r == nil_risk(message@),
{
    text_contains(message, "Nil") && (text_contains(message, "for Nil") || text_contains(
        message,
        "not Nil",
    ) || text_contains(message, "| Nil"))
}

/// Whether a message about the file `file` concerns the file `target`: the two are written the
/// same, or `target` ends with `file`.
pub open spec fn concerns(file: Seq<char>, target: Seq<char>) -> bool {
    file == target || path_ends_with(target, file)
}

/// A number counted from one, counted from zero.
pub open spec fn from_zero(n: u64) -> u64 {
    if n > 0 {
        (n - 1) as u64
    } else {
        0
    }
}

/// How many characters the message `e` is about.
pub open spec fn extent(e: CompilerDiagnostic) -> u64 {
    match e.size {
        Some(n) => n,
        None => 1,
    }
}

/// The diagnostic for the message `e`.
pub open spec fn compiler_diagnostic(e: CompilerDiagnostic) -> Diag {
    let line = from_zero(e.line) as u32;
    let start = from_zero(e.column);
    Diag {
        range: TextRange {
            start: Position { line, character: start as u32 },
            end: Position { line, character: (start + extent(e)) as u32 },
        },
        severity: Some(
            if e.severity@ == "warning"@ {
                DiagnosticSeverity::Warning
            } else {
                DiagnosticSeverity::Error
            },
        ),
        source: Some(SOURCE_COMPILER@),
        message: e.message@,
        tags: if nil_risk(e.message@) {
            Some(seq![DiagnosticTag::Unnecessary])
        } else {
            None
        },
    }
}

/// The diagnostics for those of the messages that concern the file `target`.
pub open spec fn compiler_diagnostics(
    entries: Seq<CompilerDiagnostic>,
    target: Seq<char>,
) -> Seq<Diag>
    decreases entries.len(),
{
    if entries.len() == 0 {
        Seq::empty()
    } else {
        let before = compiler_diagnostics(entries.drop_last(), target);
        if concerns(entries.last().file@, target) {
            before.push(compiler_diagnostic(entries.last()))
        } else {
            before
        }
    }
}

/// Whether the end column of the message `e` can be computed.
pub open spec fn column_fits(e: CompilerDiagnostic) -> bool {
    from_zero(e.column) + extent(e) <= u64::MAX
}

/// Whether the end columns of the messages that concern `target` can be computed.
pub open spec fn columns_fit(entries: Option<Vec<CompilerDiagnostic>>, target: Seq<char>) -> bool {
    entries matches Some(v) ==> forall|i: int|
        0 <= i < v@.len() && concerns((#[trigger] v@[i]).file@, target) ==> column_fits(v@[i])
}

fn is_concerned(file: &str, target: &str) -> (r: bool)
    ensures
        r == concerns(file@, target@),
{
    same(file, target) || ends_with_path(target, file)
}

/// Decides whether the end columns of the messages that concern a file can be computed.
pub fn has_fitting_columns(entries: &Option<Vec<CompilerDiagnostic>>, target_file: &str) -> (r:
    bool)
    ensures
        r == columns_fit(*entries, target_file@),
{
    if let Some(v) = entries {
        let mut i: usize = 0;
        while i < v.len()
            invariant
                i <= v@.len(),
                *entries == Some(*v),
                forall|k: int|
                    0 <= k < i && concerns((#[trigger] v@[k]).file@, target_file@) ==> column_fits(
                        v@[k],
                    ),
            decreases v@.len() - i,
        {
            let e = &v[i];
            let start: u64 = if e.column > 0 {
                e.column - 1
            } else {
                0
            };
            let size: u64 = match e.size {
                Some(n) => n,
                None => 1,
            };
            if start > u64::MAX - size && is_concerned(&e.file, target_file) {
                assert(!column_fits(v@[i as int]));
                return false;
            }
            i = i + 1;
        }
    }
    true
}

fn to_diagnostic(e: &CompilerDiagnostic) -> (r: Diagnostic)
    requires
        column_fits(*e),
    ensures
        r@ == compiler_diagnostic(*e),
{
    let line: u64 = if e.line > 0 {
        e.line - 1
    } else {
        0
    };
    let col: u64 = if e.column > 0 {
        e.column - 1
    } else {
        0
    };
    let size: u64 = match e.size {
        Some(n) => n,
        None => 1,
    };
    let end_col: u64 = col + size;
    let severity = if same(&e.severity, "warning") {
        DiagnosticSeverity::Warning
    } else {
        DiagnosticSeverity::Error
    };
    let tags = if is_nil_risk(&e.message) {
        let t = vec![DiagnosticTag::Unnecessary];
        assert(t@ =~= seq![DiagnosticTag::Unnecessary]);
        Some(t)
    } else {
        None
    };
    Diagnostic {
        range: TextRange {
            start: Position { line: narrow_u64(line), character: narrow_u64(col) },
            end: Position { line: narrow_u64(line), character: narrow_u64(end_col) },
        },
        severity: Some(severity),
        source: Some(copy(SOURCE_COMPILER)),
        message: copy(&e.message),
        tags,
    }
}

/// Makes diagnostics of the messages that the compiler printed about a file. `entries` is `None`
/// where what it printed is not a list of messages; that gives no diagnostics.
pub fn parse_compiler_output(entries: &Option<Vec<CompilerDiagnostic>>, target_file: &str) -> (r:
    Vec<Diagnostic>)
    requires
        columns_fit(*entries, target_file@),
    ensures
        diag_views(r@) == match *entries {
            Some(v) => compiler_diagnostics(v@, target_file@),
            None => Seq::empty(),
        },
{
    let mut out: Vec<Diagnostic> = Vec::new();
    assert(diag_views(out@) =~= Seq::empty());
    if let Some(v) = entries {
        let mut i: usize = 0;
        assert(v@.take(0) =~= Seq::empty());
        while i < v.len()
            invariant
                i <= v@.len(),
                forall|k: int|
                    0 <= k < v@.len() && concerns((#[trigger] v@[k]).file@, target_file@)
                        ==> column_fits(v@[k]),
                diag_views(out@) == compiler_diagnostics(v@.take(i as int), target_file@),
            decreases v@.len() - i,
        {
            let ghost before = diag_views(out@);
            assert(v@.take(i + 1).drop_last() =~= v@.take(i as int));
            if is_concerned(&v[i].file, target_file) {
                let d = to_diagnostic(&v[i]);
                out.push(d);
                assert(diag_views(out@) =~= before.push(d@));
            }
            i = i + 1;
        }
        assert(v@.take(i as int) =~= v@);
    }
    out
}

/// What became of a run of the compiler on a file.
#[derive(Debug)]
pub enum CheckOutcome {
    /// There is no compiler.
    NotFound,
    /// The compiler could not be started.
    NotStarted,
    /// The compiler was stopped after [`COMPILER_TIMEOUT_MS`].
    TimedOut,
    /// The compiler has ended, and printed these messages.
    Finished(Option<Vec<CompilerDiagnostic>>),
}

/// Makes diagnostics of a run of the compiler on `file`. There are none to show where it could not
/// be run, and an empty list where it was stopped or found nothing.
pub fn check_file(outcome: &CheckOutcome, file: &str) -> (r: Option<Vec<Diagnostic>>)
    requires
        outcome matches CheckOutcome::Finished(entries) ==> columns_fit(*entries, file@),
    ensures
        match *outcome {
            CheckOutcome::NotFound | CheckOutcome::NotStarted => r is None,
            CheckOutcome::TimedOut => r matches Some(d) && d@.len() == 0,
            CheckOutcome::Finished(entries) => r matches Some(d) && diag_views(d@)
                == match entries {
                Some(v) => compiler_diagnostics(v@, file@),
                None => Seq::empty(),
            },
        },
{
    match outcome {
        CheckOutcome::NotFound | CheckOutcome::NotStarted => None,
        CheckOutcome::TimedOut => Some(Vec::new()),
        CheckOutcome::Finished(entries) => Some(parse_compiler_output(entries, file)),
    }
}

// ---------------------------------------------------------------------------
// Commands
// ---------------------------------------------------------------------------

/// The arguments with which the compiler checks the file `file`.
pub open spec fn check_command(file: Seq<char>) -> Seq<Seq<char>> {
    seq!["build"@, "--no-codegen"@, "-f"@, "json"@, file]
}

/// The arguments with which the compiler checks a file.
pub fn check_args(file: &str) -> (r: Vec<String>)
    ensures
        texts(r@) == check_command(file@),
{
    let r = vec![copy("build"), copy("--no-codegen"), copy("-f"), copy("json"), copy(file)];
    assert(texts(r@) =~= seq!["build"@, "--no-codegen"@, "-f"@, "json"@, file@]);
    r
}

/// A place in a file, as the compiler takes it.
pub open spec fn cursor(file: Seq<char>, line: u32, col: u32) -> Seq<char> {
    file + ":"@ + decimal(line as nat) + ":"@ + decimal(col as nat)
}

/// The arguments with which the compiler expands the macro at a place of the file `file`.
pub open spec fn expand_command(file: Seq<char>, line: u32, col: u32) -> Seq<Seq<char>> {
    seq!["tool"@, "expand"@, "-c"@, cursor(file, line, col), file]
}

/// The arguments with which the compiler expands the macro at a place.
pub fn expand_args(file: &str, line: u32, col: u32) -> (r: Vec<String>)
    ensures
        texts(r@) == expand_command(file@, line, col),
{
    let mut at = copy(file);
    at.append(":");
    push_decimal(&mut at, line as u64);
    at.append(":");
    push_decimal(&mut at, col as u64);
    let r = vec![copy("tool"), copy("expand"), copy("-c"), at, copy(file)];
    assert(texts(r@) =~= seq!["tool"@, "expand"@, "-c"@, cursor(file@, line, col), file@]);
    r
}

/// What is left of a program's output, if anything.
pub open spec fn printed(stdout: Seq<char>) -> Option<Seq<char>> {
    if trimmed(stdout).len() == 0 {
        None
    } else {
        Some(trimmed(stdout))
    }
}

fn trim_output(stdout: &str) -> (r: Option<String>)
    ensures
        opt_text(r) == printed(stdout@),
{
    let chars = chars_of(stdout);
    let t = trim(&chars);
    if t.len() == 0 {
        None
    } else {
        Some(string_of(t))
    }
}

/// What became of a run of the compiler to expand a macro.
#[derive(Debug)]
pub enum ExpandOutcome {
    /// There is no compiler.
    NotFound,
    /// The compiler could not be started.
    NotStarted,
    /// The compiler was stopped after [`COMPILER_TIMEOUT_MS`].
    TimedOut,
    /// The compiler has ended, and printed this.
    Finished(String),
}

/// The expansion of a macro. There is none where the compiler could not be run to its end or
/// printed nothing.
pub fn macro_expand(outcome: &ExpandOutcome) -> (r: Option<String>)
    ensures
        opt_text(r) == match *outcome {
            ExpandOutcome::Finished(stdout) => printed(stdout@),
            _ => None,
        },
{
    match outcome {
        ExpandOutcome::Finished(stdout) => trim_output(stdout),
        _ => None,
    }
}

/// The path of the compiler, from what `which` printed and whether it succeeded.
pub fn find_crystal_binary(success: bool, stdout: &str) -> (r: Option<String>)
    ensures
        opt_text(r) == if success {
            printed(stdout@)
        } else {
            None
        },
{
    if success {
        trim_output(stdout)
    } else {
        None
    }
}

/// Whether a process that is waited for has ended.
#[derive(Debug, Clone, Copy, PartialEq, Eq, Structural)]
pub enum ProcessState {
    Exited,
    Running,
    /// This cannot be told.
    Unknown,
}

/// What to do with a process that is waited for.
#[derive(Debug, Clone, Copy, PartialEq, Eq, Structural)]
pub enum WaitAction {
    /// Take its output.
    Collect,
    /// Stop it, and give up.
    Kill,
    /// Look again after [`POLL_INTERVAL_MS`].
    Sleep,
    /// Give up.
    GiveUp,
}

/// What to do with a process that is waited for until `deadline`, at the time `now`.
pub open spec fn wait_action(state: ProcessState, now: u64, deadline: u64) -> WaitAction {
    match state {
        ProcessState::Exited => WaitAction::Collect,
        ProcessState::Unknown => WaitAction::GiveUp,
        ProcessState::Running => if now >= deadline {
            WaitAction::Kill
        } else {
            WaitAction::Sleep
        },
    }
}

/// Decides what to do with a process that is waited for until `deadline`, at the time `now`.
pub fn wait_with_timeout(state: ProcessState, now: u64, deadline: u64) -> (r: WaitAction)
    ensures
        r == wait_action(state, now, deadline),
{
    match state {
        ProcessState::Exited => WaitAction::Collect,
        ProcessState::Unknown => WaitAction::GiveUp,
        ProcessState::Running => if now >= deadline {
            WaitAction::Kill
        } else {
            WaitAction::Sleep
        },
    }
}

} // verus!
