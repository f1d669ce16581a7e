//! Reports, compiler messages, URIs, paths, syntax errors, requires and workspaces.

use std::collections::HashSet;
use std::time::SystemTime;

use zircon::completion::{
    detect_dot_completion, detect_require_completion, detect_scope_completion,
    extract_word_before_cursor, list_cr_files, plan_require, DirEntry,
};
use zircon::crystal_cli::{self, CheckOutcome, CompilerDiagnostic, ExpandOutcome, ProcessState, WaitAction, SOURCE_COMPILER};
use zircon::diagnostics::{extract_syntax_errors, DiagnosticStore, SOURCE_SYNTAX};
use zircon::hover::MacroExpansionCache;
use zircon::path_map::PathMap;
use zircon::paths;
use zircon::protocol::{
    Diagnostic, DiagnosticSeverity, DiagnosticTag, Position, TextRange,
};
use zircon::resolver::{
    extract_requires, finish_first, finish_shard, GlobEntry, GlobSearch, RequireResolver,
    ResolvePlan, ResolvedRequire,
};
use zircon::spec_runner::{format_inline_annotations, parse_spec_output, SpecFailure, SpecResult};
use zircon::symbols::fuzzy_match;
use zircon::uri;
use zircon::workspace::{self, WalkedFile, Workspace};

// ---------------------------------------------------------------------------
// Spec reports
// ---------------------------------------------------------------------------

#[test]
fn test_parse_passing() {
    let output = "..\n\nFinished in 0.5 seconds\n2 examples, 0 failures\n";
    let result = parse_spec_output(output);
    assert!(result.failures.is_empty());
    assert_eq!(result.total, 2);
    assert_eq!(result.failed, 0);
}

#[test]
fn test_parse_single_failure() {
    let output = r#"F

Failures:

  1) Foo should return bar
     Failure/Error: foo.should eq("bar")

       Expected: "bar"
            Got: "baz"

     # spec/foo_spec.cr:5

Finished in 0.3 seconds
1 example, 1 failure
"#;
    let result = parse_spec_output(output);
    assert_eq!(result.failures.len(), 1);
    assert_eq!(result.failures[0].description, "Foo should return bar");
    assert_eq!(result.failures[0].file, "spec/foo_spec.cr");
    assert_eq!(result.failures[0].line, 5);
    assert_eq!(result.failures[0].expected, "\"bar\"");
    assert_eq!(result.failures[0].actual, "\"baz\"");
    assert_eq!(result.total, 1);
    assert_eq!(result.failed, 1);
}

#[test]
fn test_parse_multiple_failures() {
    let output = r#"FF.

Failures:

  1) A should work
     Failure/Error: a.should eq(1)

       Expected: 1
            Got: 2

     # spec/a_spec.cr:3

  2) B should also work
     Failure/Error: b.should eq("x")

       Expected: "x"
            Got: "y"

     # spec/b_spec.cr:10

Finished in 1.2 seconds
3 examples, 2 failures
"#;
    let result = parse_spec_output(output);
    assert_eq!(result.failures.len(), 2);
    assert_eq!(result.failures[0].file, "spec/a_spec.cr");
    assert_eq!(result.failures[0].line, 3);
    assert_eq!(result.failures[1].file, "spec/b_spec.cr");
    assert_eq!(result.failures[1].line, 10);
    assert_eq!(result.total, 3);
    assert_eq!(result.failed, 2);
}

#[test]
fn test_format_annotations_passing() {
    let result = SpecResult {
        failures: vec![],
        total: 5,
        failed: 0,
        errored: 0,
        pending: 0,
        duration: "0.1 seconds".to_string(),
    };
    let text = format_inline_annotations(&result);
    assert_eq!(text, "All specs passed (5 examples, 0.1 seconds)");
}

#[test]
fn test_format_annotations_with_failure() {
    let result = SpecResult {
        failures: vec![SpecFailure {
            description: "should work".to_string(),
            file: "spec/foo_spec.cr".to_string(),
            line: 5,
            expected: "42".to_string(),
            actual: "0".to_string(),
            raw_message: "Expected: 42\n     Got: 0".to_string(),
        }],
        total: 1,
        failed: 1,
        errored: 0,
        pending: 0,
        duration: "0.5 seconds".to_string(),
    };
    let text = format_inline_annotations(&result);
    assert!(text.contains("spec/foo_spec.cr:5 | FAIL: should work"));
    assert!(text.contains("Expected: 42"));
    assert!(text.contains("Got: 0"));
    assert_eq!(
        text,
        "spec/foo_spec.cr:5 | FAIL: should work\n  Expected: 42\n       Got: 0\n\n1 examples, 1 failures (0.5 seconds)"
    );
}

#[test]
fn reports_count_everything() {
    let r = parse_spec_output("Finished in 1 s\r\n7 examples, 2 failures, 1 errors, 3 pending\r\n");
    assert_eq!((r.total, r.failed, r.errored, r.pending), (7, 2, 1, 3));
    assert_eq!(r.duration, "1 s");
    let r = parse_spec_output("Failures:\n1) broken\n  some text\n  more\n");
    assert_eq!(r.failures[0].raw_message, "some text\nmore");
    assert_eq!(
        format_inline_annotations(&r),
        "FAIL: broken\n  some text\n  more\n\n0 examples, 0 failures"
    );
}

// ---------------------------------------------------------------------------
// Compiler messages
// ---------------------------------------------------------------------------

/// Reads the messages that the compiler prints.
fn entries(json: &str) -> Option<Vec<CompilerDiagnostic>> {
    let value: serde_json::Value = serde_json::from_str(json).ok()?;
    value
        .as_array()?
        .iter()
        .map(|e| {
            Some(CompilerDiagnostic {
                file: e.get("file")?.as_str()?.to_string(),
                line: e.get("line")?.as_u64()?,
                column: e.get("column")?.as_u64()?,
                size: e.get("size").and_then(|s| s.as_u64()),
                message: e.get("message")?.as_str()?.to_string(),
                severity: match e.get("severity") {
                    Some(s) => s.as_str()?.to_string(),
                    None => crystal_cli::default_severity(),
                },
            })
        })
        .collect()
}

fn parse_compiler_output(json: &str, file: &str) -> Vec<Diagnostic> {
    let entries = entries(json);
    assert!(crystal_cli::has_fitting_columns(&entries, file));
    crystal_cli::parse_compiler_output(&entries, file)
}

#[test]
fn test_parse_compiler_output_error() {
    let json = r#"[{"file":"test.cr","line":5,"column":3,"size":4,"message":"undefined method 'foo'","severity":"error"}]"#;
    let diags = parse_compiler_output(json, "test.cr");
    assert_eq!(diags.len(), 1);
    assert_eq!(diags[0].message, "undefined method 'foo'");
    assert_eq!(diags[0].severity, Some(DiagnosticSeverity::Error));
    assert_eq!(diags[0].source.as_deref(), Some(SOURCE_COMPILER));
    assert_eq!(diags[0].range.start.line, 4);
    assert_eq!(diags[0].range.start.character, 2);
    assert_eq!(diags[0].range.end.character, 6);
}

#[test]
fn test_parse_compiler_output_warning() {
    let json = r#"[{"file":"test.cr","line":1,"column":1,"message":"unused var","severity":"warning"}]"#;
    let diags = parse_compiler_output(json, "test.cr");
    assert_eq!(diags.len(), 1);
    assert_eq!(diags[0].severity, Some(DiagnosticSeverity::Warning));
}

#[test]
fn test_parse_compiler_output_nil_risk() {
    let json = r#"[{"file":"test.cr","line":3,"column":5,"message":"undefined method 'size' for Nil","severity":"error"}]"#;
    let diags = parse_compiler_output(json, "test.cr");
    assert_eq!(diags.len(), 1);
    assert_eq!(diags[0].tags, Some(vec![DiagnosticTag::Unnecessary]));
}

#[test]
fn test_parse_compiler_output_no_nil_tag_for_normal_error() {
    let json = r#"[{"file":"test.cr","line":1,"column":1,"message":"syntax error","severity":"error"}]"#;
    let diags = parse_compiler_output(json, "test.cr");
    assert_eq!(diags.len(), 1);
    assert!(diags[0].tags.is_none());
}

#[test]
fn test_parse_compiler_output_filters_other_files() {
    let json = r#"[
            {"file":"test.cr","line":1,"column":1,"message":"err1","severity":"error"},
            {"file":"other.cr","line":1,"column":1,"message":"err2","severity":"error"}
        ]"#;
    let diags = parse_compiler_output(json, "test.cr");
    assert_eq!(diags.len(), 1);
    assert_eq!(diags[0].message, "err1");
}

#[test]
fn test_parse_compiler_output_invalid_json() {
    let diags = parse_compiler_output("not json at all", "test.cr");
    assert!(diags.is_empty());
}

#[test]
fn test_parse_compiler_output_empty_array() {
    let diags = parse_compiler_output("[]", "test.cr");
    assert!(diags.is_empty());
}

#[test]
fn test_is_nil_risk() {
    for is_nil_risk in [crystal_cli::is_nil_risk, zircon::semantic::is_nil_risk] {
        assert!(is_nil_risk("undefined method 'size' for Nil"));
        assert!(is_nil_risk("expected not Nil but got Nil"));
        assert!(is_nil_risk("type is String | Nil"));
        assert!(!is_nil_risk("undefined method 'foo'"));
        assert!(!is_nil_risk("syntax error"));
    }
}

#[test]
fn test_parse_compiler_output_missing_size() {
    let json = r#"[{"file":"test.cr","line":2,"column":4,"message":"some error","severity":"error"}]"#;
    let diags = parse_compiler_output(json, "test.cr");
    assert_eq!(diags.len(), 1);
    assert_eq!(diags[0].range.start.character, 3);
    assert_eq!(diags[0].range.end.character, 4);
}

#[test]
fn test_parse_compiler_output_default_severity() {
    let json = r#"[{"file":"test.cr","line":1,"column":1,"message":"something"}]"#;
    let diags = parse_compiler_output(json, "test.cr");
    assert_eq!(diags.len(), 1);
    assert_eq!(diags[0].severity, Some(DiagnosticSeverity::Error));
}

#[test]
fn messages_concern_a_file_by_its_last_parts() {
    let json = r#"[{"file":"src/test.cr","line":0,"column":0,"message":"m"},
                   {"file":"est.cr","line":1,"column":1,"message":"n"}]"#;
    let diags = parse_compiler_output(json, "/work/src/test.cr");
    assert_eq!(diags.len(), 1);
    assert_eq!(diags[0].range.start, Position { line: 0, character: 0 });
    let huge = r#"[{"file":"a.cr","line":1,"column":2,"size":18446744073709551615,"message":"m"}]"#;
    assert!(!crystal_cli::has_fitting_columns(&entries(huge), "a.cr"));
    assert!(crystal_cli::has_fitting_columns(&entries(huge), "b.cr"));
}

#[test]
fn outcomes_of_a_check() {
    assert!(crystal_cli::check_file(&CheckOutcome::NotFound, "a.cr").is_none());
    assert!(crystal_cli::check_file(&CheckOutcome::NotStarted, "a.cr").is_none());
    assert!(crystal_cli::check_file(&CheckOutcome::TimedOut, "a.cr").unwrap().is_empty());
    let done = CheckOutcome::Finished(entries(r#"[{"file":"a.cr","line":1,"column":1,"message":"m"}]"#));
    assert_eq!(crystal_cli::check_file(&done, "a.cr").unwrap().len(), 1);
    assert!(crystal_cli::check_file(&CheckOutcome::Finished(None), "a.cr").unwrap().is_empty());
}

#[test]
fn compiler_commands() {
    assert_eq!(crystal_cli::check_args("a.cr"), vec!["build", "--no-codegen", "-f", "json", "a.cr"]);
    assert_eq!(
        crystal_cli::expand_args("a.cr", 12, 340),
        vec!["tool", "expand", "-c", "a.cr:12:340", "a.cr"]
    );
    assert_eq!(crystal_cli::find_crystal_binary(true, "/usr/bin/crystal\n").as_deref(), Some("/usr/bin/crystal"));
    assert_eq!(crystal_cli::find_crystal_binary(true, " \n"), None);
    assert_eq!(crystal_cli::find_crystal_binary(false, "/usr/bin/crystal\n"), None);
    let printed = |s: &str| crystal_cli::macro_expand(&ExpandOutcome::Finished(s.to_string()));
    assert_eq!(printed("  def x\nend\n\n").as_deref(), Some("def x\nend"));
    assert_eq!(printed(" \n"), None);
    assert_eq!(crystal_cli::macro_expand(&ExpandOutcome::NotFound), None);
    assert_eq!(crystal_cli::macro_expand(&ExpandOutcome::NotStarted), None);
    assert_eq!(crystal_cli::macro_expand(&ExpandOutcome::TimedOut), None);
}

#[test]
fn waiting_for_the_compiler() {
    let act = crystal_cli::wait_with_timeout;
    assert_eq!(act(ProcessState::Exited, 99, 10), WaitAction::Collect);
    assert_eq!(act(ProcessState::Running, 9, 10), WaitAction::Sleep);
    assert_eq!(act(ProcessState::Running, 10, 10), WaitAction::Kill);
    assert_eq!(act(ProcessState::Unknown, 0, 10), WaitAction::GiveUp);
}

// ---------------------------------------------------------------------------
// URIs and paths
// ---------------------------------------------------------------------------

#[test]
fn test_roundtrip() {
    let path = "/tmp/src/app.cr";
    let uri = uri::from_path(path).unwrap();
    let back = uri::to_path(&uri).unwrap();
    assert_eq!(back, path);
}

#[test]
fn test_percent_decode() {
    let uri = "file:///tmp/my%20project/app.cr";
    let path = uri::to_path(uri).unwrap();
    assert_eq!(path, "/tmp/my project/app.cr");
}

#[test]
fn uris_of_paths() {
    assert_eq!(uri::from_path("/tmp/a.cr").as_deref(), Some("file:///tmp/a.cr"));
    assert_eq!(uri::from_path("/tmp/a b.cr"), None);
    assert_eq!(uri::from_path("/tmp/é.cr"), None);
    assert_eq!(uri::from_path("/tmp/a+b@c:1!$&'()*,;=~-_.cr").as_deref(), Some("file:///tmp/a+b@c:1!$&'()*,;=~-_.cr"));
    for c in ['"', '<', '>', '[', ']', '\\', '^', '`', '{', '|', '}', '\n'] {
        assert_eq!(uri::from_path(&format!("/tmp/a{}b", c)), None, "{:?}", c);
    }
    assert_eq!(uri::to_path("http://x/y"), None);
    assert_eq!(uri::percent_decode("%41%7a%zz%4"), "Az%%");
    assert_eq!(uri::percent_decode("100%"), "100%");
    assert_eq!(uri::percent_decode("%c3%A9"), "\u{c3}\u{a9}");
    assert_eq!(uri::hex_val(b'F'), Some(15));
    assert_eq!(uri::hex_val(b'g'), None);
}

#[test]
fn paths_are_compared_by_their_parts() {
    assert!(paths::is_same_path("/a//b/./c/", "/a/b/c"));
    assert!(!paths::is_same_path("./a", "a"));
    assert!(!paths::is_same_path("/a", "a"));
    assert!(paths::lies_under("/a/b/c.cr", "/a/b"));
    assert!(!paths::lies_under("/a/bc.cr", "/a/b"));
    assert!(paths::ends_with_path("/a/b/c.cr", "b/c.cr"));
    assert!(!paths::ends_with_path("/a/b/c.cr", "/c.cr"));
    assert_eq!(paths::file_name("/a/b.cr").as_deref(), Some("b.cr"));
    assert_eq!(paths::file_name("/a/.."), None);
    assert_eq!(paths::file_name("/"), None);
    assert!(paths::is_crystal_file("src/a.cr"));
    assert!(!paths::is_crystal_file("src/.cr"));
    assert!(!paths::is_crystal_file("src/a.crx"));
    assert_eq!(paths::join_path("/a", "b"), "/a/b");
    assert_eq!(paths::join_path("/a/", "b"), "/a/b");
    assert_eq!(paths::join_path("", "b"), "b");
    assert_eq!(paths::join_path("/a", "/b"), "/b");
}

#[test]
fn paths_are_sorted_by_their_parts() {
    let v = ["b", "a/z", "a-b", "/x", "../q", "a"].iter().map(|s| s.to_string()).collect();
    assert_eq!(paths::sort_paths(v), vec!["/x", "../q", "a", "a/z", "a-b", "b"]);
}

#[test]
fn path_parts_agree_with_std() {
    for p in [
        "", ".", "./a", "a/.", "/", "//", "/./a", "a/../b", "..", "a//b///c", "/a/b/", "./", "x/./.",
        "/a", "//a", "/.", "/./", "./.", "a/..", "../..", "a.cr", "a.b.cr/", ".cr", "..cr", "a.", "x/.y.z/.",
        "/a/b.c/d", "é/ü.ö",
    ] {
        let std_parts: Vec<String> = std::path::Path::new(p)
            .components()
            .map(|c| match c {
                std::path::Component::RootDir => "Root".to_string(),
                std::path::Component::CurDir => "Current".to_string(),
                std::path::Component::ParentDir => "Parent".to_string(),
                other => format!("Normal({:?})", other.as_os_str().to_str().unwrap()),
            })
            .collect();
        let own: Vec<String> = paths::parts_of(p).iter().map(|c| format!("{:?}", c)).collect();
        assert_eq!(own, std_parts, "parts of {:?}", p);
        let std_path = std::path::Path::new(p);
        let std_parent = std_path.parent().map(|d| d.to_str().unwrap().to_string());
        assert_eq!(paths::parent(p), std_parent, "parent of {:?}", p);
    }
}

#[test]
fn path_maps_go_by_path() {
    let mut m: PathMap<u32> = PathMap::new();
    assert!(m.is_empty());
    m.insert("/a/b", 1);
    m.insert("/a//b", 2);
    m.insert("/c", 3);
    assert_eq!(m.get("/a/./b"), Some(&2));
    assert_eq!(m.remove("/a/b"), Some(2));
    assert_eq!(m.remove("/a/b"), None);
    assert!(m.contains_key("/c"));
    assert!(!m.is_empty());
}

// ---------------------------------------------------------------------------
// Text in front of the cursor
// ---------------------------------------------------------------------------

#[test]
fn test_detect_dot_completion() {
    assert_eq!(detect_dot_completion("user."), Some("user".to_string()));
    assert_eq!(detect_dot_completion("User."), Some("User".to_string()));
    assert_eq!(detect_dot_completion("  foo."), Some("foo".to_string()));
    assert_eq!(detect_dot_completion("abc"), None);
}

#[test]
fn test_detect_scope_completion() {
    assert_eq!(detect_scope_completion("HTTP::"), Some("HTTP".to_string()));
    assert_eq!(detect_scope_completion("Foo::"), Some("Foo".to_string()));
    assert_eq!(detect_scope_completion("foo."), None);
}

#[test]
fn test_detect_require_completion() {
    assert_eq!(
        detect_require_completion("require \"./models/"),
        Some("./models/".to_string())
    );
    assert_eq!(detect_require_completion("require \"json"), Some("json".to_string()));
    // Closed string — no completion.
    assert_eq!(detect_require_completion("require \"json\""), None);
}

#[test]
fn words_before_the_cursor() {
    assert_eq!(detect_dot_completion("x = @user. "), Some("@user".to_string()));
    assert_eq!(detect_dot_completion("(1)."), None);
    assert_eq!(detect_scope_completion("@x::"), Some("x".to_string()));
    assert_eq!(detect_scope_completion("::"), None);
    assert_eq!(extract_word_before_cursor("foo(bär_1"), "bär_1");
    assert_eq!(extract_word_before_cursor("foo("), "");
}

#[test]
fn test_fuzzy_match() {
    assert!(fuzzy_match("FooBar", "FoB"));
    assert!(fuzzy_match("FooClient", "FClient"));
    assert!(fuzzy_match("FooBar", "fob")); // case-insensitive
    assert!(fuzzy_match("initialize", "init"));
    assert!(!fuzzy_match("Foo", "Bar"));
    assert!(!fuzzy_match("Foo", "Fooo"));
    assert!(fuzzy_match("ÉTÉ", "été"));
}

fn entry(name: &str, is_dir: bool) -> DirEntry {
    DirEntry { name: name.to_string(), is_dir }
}

#[test]
fn files_to_require() {
    let found = vec![
        entry("user.cr", false),
        entry(".cr", false),
        entry("notes.txt", false),
        entry("Models", true),
        entry(".git", true),
        entry("user_spec.cr", false),
    ];
    assert_eq!(list_cr_files(&found, ""), vec!["Models", "user", "user_spec"]);
    assert_eq!(list_cr_files(&found, "user_"), vec!["user_spec"]);
    let plan = plan_require("/p/src/app.cr", "../lib/x").unwrap();
    assert_eq!((plan.dir.as_str(), plan.written.as_str(), plan.file_prefix.as_str()), ("/p/src/../lib", "../lib", "x"));
    let plan = plan_require("/p/src/app.cr", "us").unwrap();
    assert_eq!((plan.dir.as_str(), plan.written.as_str(), plan.file_prefix.as_str()), ("/p/src", ".", "us"));
    assert!(plan_require("/", "us").is_none());
}

// ---------------------------------------------------------------------------
// Macro expansions
// ---------------------------------------------------------------------------

#[test]
fn test_macro_cache_invalidation() {
    let mut cache = MacroExpansionCache::new();
    let path = "/tmp/test_cache.cr";
    cache.store(path, 1, 1, Some("expanded code".to_string()));
    assert!(cache.contains_key(path, 1, 1));
    cache.invalidate(path);
    assert!(cache.is_empty(), "cache should be cleared for the file");
}

#[test]
fn test_macro_cache_invalidation_preserves_other_files() {
    let mut cache = MacroExpansionCache::new();
    let path_a = "/tmp/a.cr";
    let path_b = "/tmp/b.cr";
    cache.store(path_a, 1, 1, Some("code a".to_string()));
    cache.store(path_b, 2, 3, Some("code b".to_string()));
    cache.invalidate(path_a);
    assert!(!cache.contains_key(path_a, 1, 1));
    assert!(cache.contains_key(path_b, 2, 3), "other file should be preserved");
    assert_eq!(cache.lookup(path_b, 2, 3), Some(&Some("code b".to_string())));
}

#[test]
fn expansions_are_asked_for_once() {
    let mut cache = MacroExpansionCache::new();
    assert_eq!(cache.get_or_expand("/a.cr", 1, 2, None), None);
    assert_eq!(cache.get_or_expand("/a.cr", 1, 2, Some("late".to_string())), None);
    assert_eq!(cache.get_or_expand("/a.cr", 1, 3, Some("x".to_string())).as_deref(), Some("x"));
    assert_eq!(cache.get_or_expand("/a.cr", 1, 3, None).as_deref(), Some("x"));
}

// ---------------------------------------------------------------------------
// Syntax errors and the store
// ---------------------------------------------------------------------------

#[test]
fn test_valid_code_no_errors() {
    let diags = extract_syntax_errors("class Foo\n  def bar\n  end\nend\n");
    assert!(diags.is_empty());
}

#[test]
fn test_missing_end() {
    let diags = extract_syntax_errors("class Foo\n  def bar\n  end\n");
    assert!(!diags.is_empty(), "should report error for missing end");
    assert!(diags.iter().all(|d| d.severity == Some(DiagnosticSeverity::Error)));
    assert!(diags.iter().all(|d| d.source.as_deref() == Some(SOURCE_SYNTAX)));
}

#[test]
fn test_unexpected_token() {
    let diags = extract_syntax_errors("def foo\n  @@@ invalid\nend\n");
    assert!(!diags.is_empty());
}

#[test]
fn test_diagnostics_have_position() {
    let diags = extract_syntax_errors("class Foo\n");
    assert!(!diags.is_empty(), "incomplete class should have errors");
    for d in &diags {
        assert!(
            d.range.start.line < d.range.end.line
                || (d.range.start.line == d.range.end.line
                    && d.range.start.character <= d.range.end.character)
        );
    }
}

#[test]
fn test_fixing_error_clears_diagnostics() {
    let diags = extract_syntax_errors("class Foo\n");
    assert!(!diags.is_empty(), "broken code should have errors");
    let diags = extract_syntax_errors("class Foo\nend\n");
    assert!(diags.is_empty(), "fixed code should have no errors");
}

#[test]
fn test_multiple_errors() {
    let diags = extract_syntax_errors("class\ndef\n");
    assert!(!diags.is_empty());
}

#[test]
fn test_malformed_string_literal() {
    let diags = extract_syntax_errors("x = \"hello\n");
    assert!(!diags.is_empty(), "unclosed string should produce errors");
}

#[test]
fn test_source_label() {
    let diags = extract_syntax_errors("class Foo\n");
    for d in &diags {
        assert_eq!(d.source.as_deref(), Some("zircon-syntax"));
    }
}

fn make_diag(line: u32, source: &str, message: &str) -> Diagnostic {
    Diagnostic {
        range: TextRange {
            start: Position { line, character: 0 },
            end: Position { line, character: 5 },
        },
        severity: Some(DiagnosticSeverity::Error),
        source: Some(source.to_string()),
        message: message.to_string(),
        tags: None,
    }
}

#[test]
fn test_store_syntax_only() {
    let mut store = DiagnosticStore::new();
    store.set_syntax("test.cr", vec![make_diag(0, SOURCE_SYNTAX, "syntax err")]);
    let merged = store.merged("test.cr");
    assert_eq!(merged.len(), 1);
    assert_eq!(merged[0].source.as_deref(), Some(SOURCE_SYNTAX));
}

#[test]
fn test_store_compiler_only() {
    let mut store = DiagnosticStore::new();
    store.set_compiler("test.cr", vec![make_diag(0, SOURCE_COMPILER, "type err")]);
    let merged = store.merged("test.cr");
    assert_eq!(merged.len(), 1);
    assert_eq!(merged[0].source.as_deref(), Some(SOURCE_COMPILER));
}

#[test]
fn test_store_dedup_same_line_prefers_compiler() {
    let mut store = DiagnosticStore::new();
    store.set_syntax("test.cr", vec![make_diag(5, SOURCE_SYNTAX, "unexpected token")]);
    store.set_compiler("test.cr", vec![make_diag(5, SOURCE_COMPILER, "undefined method 'foo'")]);
    let merged = store.merged("test.cr");
    assert_eq!(merged.len(), 1);
    assert_eq!(merged[0].message, "undefined method 'foo'");
    assert_eq!(merged[0].source.as_deref(), Some(SOURCE_COMPILER));
}

#[test]
fn test_store_different_lines_kept() {
    let mut store = DiagnosticStore::new();
    store.set_syntax("test.cr", vec![make_diag(1, SOURCE_SYNTAX, "syntax err")]);
    store.set_compiler("test.cr", vec![make_diag(5, SOURCE_COMPILER, "type err")]);
    let merged = store.merged("test.cr");
    assert_eq!(merged.len(), 2);
}

#[test]
fn test_store_clear_removes_both() {
    let mut store = DiagnosticStore::new();
    store.set_syntax("test.cr", vec![make_diag(0, SOURCE_SYNTAX, "a")]);
    store.set_compiler("test.cr", vec![make_diag(1, SOURCE_COMPILER, "b")]);
    store.clear("test.cr");
    let merged = store.merged("test.cr");
    assert!(merged.is_empty());
}

#[test]
fn test_store_update_syntax_preserves_compiler() {
    let mut store = DiagnosticStore::new();
    store.set_compiler("test.cr", vec![make_diag(3, SOURCE_COMPILER, "type err")]);
    store.set_syntax("test.cr", vec![]);
    let merged = store.merged("test.cr");
    assert_eq!(merged.len(), 1);
    assert_eq!(merged[0].message, "type err");
}

#[test]
fn test_store_update_compiler_preserves_syntax() {
    let mut store = DiagnosticStore::new();
    store.set_syntax("test.cr", vec![make_diag(0, SOURCE_SYNTAX, "syntax err")]);
    store.set_compiler("test.cr", vec![]);
    let merged = store.merged("test.cr");
    assert_eq!(merged.len(), 1);
    assert_eq!(merged[0].message, "syntax err");
}

#[test]
fn test_store_empty_file() {
    let store = DiagnosticStore::new();
    let merged = store.merged("unknown.cr");
    assert!(merged.is_empty());
}

// ---------------------------------------------------------------------------
// Requires
// ---------------------------------------------------------------------------

/// A file system in memory.
struct Files(Vec<(String, String)>);

impl Files {
    fn new(paths: &[&str]) -> Files {
        Files(paths.iter().map(|p| (canon(p), String::new())).collect())
    }

    fn with_sources(files: &[(&str, &str)]) -> Files {
        Files(files.iter().map(|(p, s)| (canon(p), s.to_string())).collect())
    }

    fn is_file(&self, path: &str) -> bool {
        self.0.iter().any(|f| f.0 == canon(path))
    }

    fn read(&self, path: &str) -> Option<String> {
        self.0.iter().find(|f| f.0 == canon(path)).map(|f| f.1.clone())
    }

    fn list(&self, dir: &str) -> Vec<GlobEntry> {
        let base = format!("{}/", canon(dir));
        let mut seen = HashSet::new();
        let mut out = vec![];
        for (path, _) in &self.0 {
            if let Some(rest) = path.strip_prefix(&base) {
                let name = rest.split('/').next().unwrap();
                if seen.insert(name.to_string()) {
                    let is_file = name == rest;
                    out.push(GlobEntry {
                        path: format!("{}/{}", dir, name),
                        canonical: format!("{}{}", base, name),
                        is_file,
                        is_dir: !is_file,
                    });
                }
            }
        }
        out
    }

    fn resolve(&self, resolver: &RequireResolver, require: &str, from: &str) -> ResolvedRequire {
        match resolver.resolve(require, from) {
            ResolvePlan::First { candidates, require } => {
                let found = candidates
                    .iter()
                    .map(|c| if self.is_file(c) { Some(canon(c)) } else { None })
                    .collect();
                finish_first(&require, &found)
            }
            ResolvePlan::Glob { dir, recursive } => {
                let mut search = GlobSearch::new(&dir, recursive);
                while let Some(d) = search.next_dir() {
                    search.collect_cr_files(&self.list(&d));
                }
                search.resolve_glob()
            }
            ResolvePlan::Shard { entry, sub, require } => {
                let sub_is_file = sub.as_ref().map_or(false, |s| self.is_file(s));
                finish_shard(&entry, &sub, &require, self.is_file(&entry), sub_is_file)
            }
            ResolvePlan::Stdlib(s) => ResolvedRequire::Stdlib(s),
        }
    }

    fn build_graph(&self, resolver: &RequireResolver, roots: &[&str]) -> Vec<(String, Vec<String>)> {
        let roots = roots.iter().map(|r| r.to_string()).collect();
        let mut builder = resolver.build_graph(&roots);
        while let Some(file) = builder.next_file() {
            if let Some(source) = self.read(&file) {
                let resolved = extract_requires(&source)
                    .iter()
                    .map(|r| self.resolve(resolver, r, &file))
                    .collect();
                builder.add_requires(&resolved);
            }
        }
        builder.graph
    }
}

/// The path without `.` and `..`.
fn canon(path: &str) -> String {
    let mut parts: Vec<&str> = vec![];
    for p in path.split('/') {
        match p {
            "" | "." => {}
            ".." => {
                parts.pop();
            }
            _ => parts.push(p),
        }
    }
    format!("/{}", parts.join("/"))
}

fn deps<'a>(graph: &'a [(String, Vec<String>)], file: &str) -> &'a Vec<String> {
    &graph.iter().find(|e| e.0 == file).expect("an entry of the graph").1
}

fn resolver(roots: &[&str]) -> RequireResolver {
    RequireResolver::new(roots.iter().map(|r| r.to_string()).collect())
}

#[test]
fn test_extract_requires() {
    let source = r#"
require "json"
require "./models/user"
require "../shared/utils"

class Foo
end
"#;
    let reqs = extract_requires(source);
    assert_eq!(reqs, vec!["json", "./models/user", "../shared/utils"]);
}

#[test]
fn requires_need_quotes_around_something() {
    assert!(extract_requires("require \"\"\nrequire json\nrequire \"a\nrequired \"b\"\n").is_empty());
    assert_eq!(extract_requires("  require   \"a b\"  \n"), vec!["a b"]);
}

#[test]
fn test_relative_require() {
    let fs = Files::new(&["/t/src/app.cr", "/t/src/models/user.cr", "/t/src/models/post.cr"]);
    let result = fs.resolve(&resolver(&[]), "./models/user", "/t/src/app.cr");
    assert_eq!(result, ResolvedRequire::Files(vec!["/t/src/models/user.cr".to_string()]));
}

#[test]
fn test_relative_parent_require() {
    let fs = Files::new(&["/t/src/models/user.cr", "/t/src/utils.cr"]);
    let result = fs.resolve(&resolver(&[]), "../utils", "/t/src/models/user.cr");
    assert_eq!(result, ResolvedRequire::Files(vec!["/t/src/utils.cr".to_string()]));
}

#[test]
fn test_glob_require() {
    let fs = Files::new(&["/t/src/app.cr", "/t/src/models/post.cr", "/t/src/models/user.cr"]);
    match fs.resolve(&resolver(&[]), "./models/*", "/t/src/app.cr") {
        ResolvedRequire::Files(files) => {
            assert_eq!(files.len(), 2);
            assert!(files.contains(&"/t/src/models/post.cr".to_string()));
            assert!(files.contains(&"/t/src/models/user.cr".to_string()));
        }
        other => panic!("expected Files, got {:?}", other),
    }
}

#[test]
fn test_recursive_glob_require() {
    let fs = Files::new(&[
        "/t/src/app.cr",
        "/t/src/models/user.cr",
        "/t/src/models/concerns/validatable.cr",
    ]);
    match fs.resolve(&resolver(&[]), "./models/**", "/t/src/app.cr") {
        ResolvedRequire::Files(files) => {
            assert_eq!(files.len(), 2);
            assert!(files.contains(&"/t/src/models/user.cr".to_string()));
            assert!(files.contains(&"/t/src/models/concerns/validatable.cr".to_string()));
            assert_eq!(files[0], "/t/src/models/concerns/validatable.cr");
        }
        other => panic!("expected Files, got {:?}", other),
    }
    assert_eq!(
        fs.resolve(&resolver(&[]), "./none/*", "/t/src/app.cr"),
        ResolvedRequire::Unresolved("/t/src/./none/*".to_string())
    );
}

#[test]
fn globs_stand_for_the_files_below() {
    let fs = Files::new(&[
        "/t/app.cr",
        "/t/m/b.cr",
        "/t/m/a.cr",
        "/t/m/notes.txt",
        "/t/m/x/y/deep.cr",
        "/t/m/x/near.cr",
        "/t/m/z/last.cr",
        "/t/n/other.cr",
    ]);
    let found = |require: &str| match fs.resolve(&resolver(&[]), require, "/t/app.cr") {
        ResolvedRequire::Files(files) => files,
        other => panic!("expected Files, got {:?}", other),
    };
    assert_eq!(found("./m/*"), ["/t/m/a.cr", "/t/m/b.cr"]);
    assert_eq!(
        found("./m/**"),
        ["/t/m/a.cr", "/t/m/b.cr", "/t/m/x/near.cr", "/t/m/x/y/deep.cr", "/t/m/z/last.cr"]
    );
    assert_eq!(found("./m/x/y/**"), ["/t/m/x/y/deep.cr"]);
    let only_dirs = Files::new(&["/t/app.cr", "/t/m/x/a.cr"]);
    assert_eq!(
        only_dirs.resolve(&resolver(&[]), "./m/*", "/t/app.cr"),
        ResolvedRequire::Unresolved("/t/./m/*".to_string())
    );
}

#[test]
fn test_stdlib_require() {
    let fs = Files::new(&["/t/shard.yml", "/t/src/app.cr"]);
    let result = fs.resolve(&resolver(&["/t"]), "json", "/t/src/app.cr");
    assert_eq!(result, ResolvedRequire::Stdlib("json".to_string()));
}

#[test]
fn test_shard_require() {
    let fs = Files::new(&["/t/shard.yml", "/t/src/app.cr", "/t/lib/my_shard/src/my_shard.cr"]);
    match fs.resolve(&resolver(&["/t"]), "my_shard", "/t/src/app.cr") {
        ResolvedRequire::Files(files) => {
            assert_eq!(files.len(), 1);
            assert_eq!(paths::file_name(&files[0]).unwrap(), "my_shard.cr");
        }
        other => panic!("expected Files, got {:?}", other),
    }
}

#[test]
fn files_get_the_extension_of_crystal() {
    let r = resolver(&[]);
    let first = |require: &str| match r.resolve(require, "/t/a.cr") {
        ResolvePlan::First { candidates, .. } => candidates,
        other => panic!("unexpected {:?}", other),
    };
    assert_eq!(first("./x"), vec!["/t/./x.cr", "/t/./x/x.cr"]);
    assert_eq!(first("./x.y.z"), vec!["/t/./x.y.cr", "/t/./x.y.z/x.y.cr"]);
    assert_eq!(first("./x/"), vec!["/t/./x.cr", "/t/./x/x.cr"]);
    assert_eq!(first("./.x"), vec!["/t/./.x.cr", "/t/./.x/.x.cr"]);
    assert_eq!(first("./.."), vec!["/t/./.."]);
}

#[test]
fn parts_of_a_shard() {
    let fs = Files::new(&["/t/lib/s/src/s.cr", "/t/lib/s/src/sub/x.cr"]);
    let r = resolver(&["/other", "/t"]);
    let file = |f: &str| ResolvedRequire::Files(vec![f.to_string()]);
    assert_eq!(fs.resolve(&r, "s/sub/x", "/t/src/app.cr"), file("/t/lib/s/src/sub/x.cr"));
    assert_eq!(fs.resolve(&r, "s/none", "/t/src/app.cr"), file("/t/lib/s/src/s.cr"));
    assert_eq!(r.resolve("s", "/u/app.cr"), ResolvePlan::Stdlib("s".to_string()));
}

#[test]
fn test_unresolved_relative() {
    let fs = Files::new(&["/t/src/app.cr"]);
    let result = fs.resolve(&resolver(&[]), "./nonexistent", "/t/src/app.cr");
    assert_eq!(result, ResolvedRequire::Unresolved("./nonexistent".to_string()));
}

#[test]
fn test_circular_requires() {
    let fs = Files::with_sources(&[("/t/a.cr", "require \"./b\"\n"), ("/t/b.cr", "require \"./a\"\n")]);
    let graph = fs.build_graph(&resolver(&[]), &["/t/a.cr"]);
    assert_eq!(graph.len(), 2);
    assert_eq!(deps(&graph, "/t/a.cr"), &vec!["/t/b.cr".to_string()]);
    assert_eq!(deps(&graph, "/t/b.cr"), &vec!["/t/a.cr".to_string()]);
}

#[test]
fn test_build_graph_follows_dependencies() {
    let fs = Files::with_sources(&[
        ("/t/src/app.cr", "require \"./models/user\"\nrequire \"./models/post\"\n"),
        ("/t/src/models/user.cr", "require \"json\"\n"),
        ("/t/src/models/post.cr", ""),
    ]);
    let graph = fs.build_graph(&resolver(&[]), &["/t/src/app.cr"]);
    let app = deps(&graph, "/t/src/app.cr");
    assert_eq!(app.len(), 2);
    assert!(app.contains(&"/t/src/models/user.cr".to_string()));
    assert!(app.contains(&"/t/src/models/post.cr".to_string()));
    assert_eq!(graph.len(), 3);
    assert!(deps(&graph, "/t/src/models/post.cr").is_empty());
    assert!(deps(&graph, "/t/src/models/user.cr").is_empty());
}

#[test]
fn graph_by_set_of_start_files() {
    let fs = Files::with_sources(&[
        ("/t/a.cr", "require \"./b\"\nrequire \"./c\"\n"),
        ("/t/b.cr", "require \"./a\"\nrequire \"./missing\"\n"),
        ("/t/c.cr", ""),
        ("/t/d.cr", "require \"./c\"\n"),
        ("/t/e.cr", "require \"./a\"\n"),
    ]);
    let sorted = |mut g: Vec<(String, Vec<String>)>| {
        g.sort();
        g
    };
    let r = resolver(&[]);
    let graph = sorted(fs.build_graph(&r, &["/t/a.cr", "/t/d.cr", "/t/gone.cr"]));
    let keys: Vec<&str> = graph.iter().map(|e| e.0.as_str()).collect();
    assert_eq!(keys, ["/t/a.cr", "/t/b.cr", "/t/c.cr", "/t/d.cr"]);
    assert_eq!(deps(&graph, "/t/a.cr"), &vec!["/t/b.cr".to_string(), "/t/c.cr".to_string()]);
    assert_eq!(deps(&graph, "/t/b.cr"), &vec!["/t/a.cr".to_string()]);

    let other = ["/t/gone.cr", "/t/d.cr", "/t/a.cr", "/t/d.cr", "/t/gone.cr"];
    assert_eq!(sorted(fs.build_graph(&r, &other)), graph);
    assert_eq!(sorted(fs.build_graph(&r, &keys)), graph);
    assert!(fs.build_graph(&r, &["/t/gone.cr"]).is_empty());
}

#[test]
fn test_directory_form_require() {
    let fs = Files::new(&["/t/src/app.cr", "/t/src/foo/foo.cr"]);
    let result = fs.resolve(&resolver(&[]), "./foo", "/t/src/app.cr");
    assert_eq!(result, ResolvedRequire::Files(vec!["/t/src/foo/foo.cr".to_string()]));
}

// ---------------------------------------------------------------------------
// Workspaces
// ---------------------------------------------------------------------------

/// Walks a tree of files: those in directories that are not entered, and hidden ones, are not met.
fn scan(root: &str, files: &[&str], ignored: &[&str]) -> Workspace {
    let all: Vec<String> = files.iter().map(|f| format!("{}/{}", root, f)).collect();
    let mut walked = vec![];
    'files: for (file, path) in files.iter().zip(&all) {
        let mut dir = root.to_string();
        let parts: Vec<&str> = file.split('/').collect();
        for part in &parts[..parts.len() - 1] {
            dir = format!("{}/{}", dir, part);
            let marked = workspace::marker_of(&dir).map_or(false, |m| all.contains(&m));
            if part.starts_with('.') || !workspace::enters_dir(&dir, marked) {
                continue 'files;
            }
        }
        let name = parts[parts.len() - 1];
        if !name.is_empty() && !name.starts_with('.') && !ignored.contains(file) {
            walked.push(WalkedFile { path: path.clone(), modified: SystemTime::UNIX_EPOCH });
        }
    }
    Workspace::scan(root, &walked)
}

fn paths_of(ws: &Workspace) -> Vec<&str> {
    ws.files.iter().map(|e| e.path.as_str()).collect()
}

#[test]
fn test_monorepo_with_shard_yml() {
    let ws = scan(
        "/w",
        &[
            "backend/shard.yml",
            "backend/src/app.cr",
            "backend/src/models/user.cr",
            "backend/spec/user_spec.cr",
            "frontend/index.html",
            "internal/README.md",
        ],
        &[],
    );
    assert_eq!(ws.files.len(), 3);
    assert_eq!(ws.project_roots.len(), 1);
    assert_eq!(ws.project_roots[0], "/w/backend");
    for entry in &ws.files {
        assert_eq!(entry.project_root.as_deref(), Some("/w/backend"));
        assert!(!entry.parsed);
        assert_eq!(entry.modified, SystemTime::UNIX_EPOCH);
    }
    assert_eq!(ws.root, "/w");
}

#[test]
fn test_standalone_crystal_project() {
    let ws = scan(
        "/w",
        &["shard.yml", "src/main.cr", "src/lib/helper.cr", "spec/main_spec.cr"],
        &[],
    );
    assert_eq!(ws.files.len(), 3);
    assert_eq!(ws.project_roots.len(), 1);
    assert_eq!(ws.project_roots[0], "/w");
}

#[test]
fn test_no_shard_yml_fallback() {
    let ws = scan("/w", &["src/app.cr", "src/models/user.cr"], &[]);
    assert_eq!(ws.files.len(), 2);
    assert!(ws.project_roots.is_empty());
    for entry in &ws.files {
        assert!(entry.project_root.is_none());
    }
}

#[test]
fn test_gitignore_exclusion() {
    let ws = scan(
        "/w",
        &[".git/", "shard.yml", "src/app.cr", "src/generated.cr", ".gitignore"],
        &["src/generated.cr"],
    );
    assert_eq!(ws.files.len(), 1);
    assert!(ws.files.iter().any(|e| e.path.ends_with("src/app.cr")));
    assert!(!ws.files.iter().any(|e| e.path.ends_with("src/generated.cr")));
}

#[test]
fn test_skip_dirs() {
    let ws = scan(
        "/w",
        &[
            "shard.yml",
            "src/app.cr",
            "lib/some_shard/src/shard.cr",
            "node_modules/dep/src/dep.cr",
            "target/debug/build.cr",
            ".git/objects/foo.cr",
        ],
        &[],
    );
    assert_eq!(ws.files.len(), 1);
    assert!(ws.files.iter().any(|e| e.path.ends_with("src/app.cr")));
    assert!(!workspace::enters_dir("/w/.git", false));
}

#[test]
fn test_lib_not_skipped_without_shard_yml() {
    let ws = scan("/w", &["src/app.cr", "src/lib/helper.cr"], &[]);
    assert_eq!(ws.files.len(), 2);
}

#[test]
fn test_multiple_shard_ymls() {
    let ws = scan(
        "/w",
        &[
            "services/api/shard.yml",
            "services/api/src/main.cr",
            "services/worker/shard.yml",
            "services/worker/src/job.cr",
            "shared/utils.cr",
        ],
        &[],
    );
    assert_eq!(ws.files.len(), 3);
    assert_eq!(ws.project_roots.len(), 2);
    let api_file = ws.files.iter().find(|e| e.path.ends_with("main.cr")).unwrap();
    assert_eq!(api_file.project_root.as_deref(), Some("/w/services/api"));
    let worker_file = ws.files.iter().find(|e| e.path.ends_with("job.cr")).unwrap();
    assert_eq!(worker_file.project_root.as_deref(), Some("/w/services/worker"));
    let shared_file = ws.files.iter().find(|e| e.path.ends_with("utils.cr")).unwrap();
    assert!(shared_file.project_root.is_none());
}

#[test]
fn the_innermost_project_counts() {
    let ws = scan("/w", &["shard.yml", "sub/deep/shard.yml", "sub/deep/a.cr", "sub/b.cr", "z.cr", "a.cr"], &[]);
    assert_eq!(ws.project_roots, vec!["/w/sub/deep", "/w"]);
    assert_eq!(paths_of(&ws), vec!["/w/a.cr", "/w/sub/b.cr", "/w/sub/deep/a.cr", "/w/z.cr"]);
    assert_eq!(ws.files[2].project_root.as_deref(), Some("/w/sub/deep"));
    assert_eq!(ws.files[1].project_root.as_deref(), Some("/w"));
}
