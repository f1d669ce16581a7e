//! The extension's commands, the server's state, and the outside libraries behind them.

use zircon::crystal_cli;
use zircon::extension::{
    self, Architecture, BinaryStep, Os, ReleaseAsset, ServerBinaryManager,
};
use zircon::index::{DocumentIndex, SymbolKind};
use zircon::semantic::{self, CompletionKind};
use zircon::protocol::Position;
use zircon::server::{
    self, Answer, Event, Followup, LoopStep, Notification, NotificationKind, Request, RequestKind,
    ServerState,
};
use zircon::symbols;
use zircon::syntax;
use zircon::text;

// ---------------------------------------------------------------------------
// Messages of the compiler
// ---------------------------------------------------------------------------

#[test]
fn json_messages_are_read() {
    let json = r#"[{"file":"a.cr","line":3,"column":7,"message":"undefined method for Nil"},
        {"file":"b.cr","line":4294967297,"column":1,"message":"m","severity":"warning"},
        {"file":"c.cr","line":-1,"column":1,"message":"m"},
        {"line":1,"column":1,"message":"m"}, 5]"#;
    let d = semantic::parse_diagnostics(json);
    assert_eq!(d.len(), 2);
    assert_eq!((d[0].file.as_str(), d[0].line, d[0].column), ("a.cr", 3, 7));
    assert_eq!(d[0].severity, "error");
    assert_eq!((d[1].line, d[1].severity.as_str()), (1, "warning"));
    assert!(semantic::parse_diagnostics("{").is_empty());
    assert!(semantic::parse_diagnostics("{}").is_empty());
    let value = serde_json::Value::Array(vec![serde_json::Value::Null]);
    assert!(semantic::diagnostics_of(&value).is_empty());
}

#[test]
fn types_are_highlighted() {
    assert!(semantic::is_nil_type(" Nil "));
    assert!(!semantic::is_nil_type("Nil?"));
    assert!(semantic::is_nilable_union("String | Nil"));
    assert!(semantic::is_nilable_union("Nil|Int32"));
    assert!(semantic::is_nilable_union("String | Nil | Int32"));
    assert!(!semantic::is_nilable_union("Nil"));
    assert!(!semantic::is_nilable_union("Nilable | String"));
    assert!(!semantic::is_nilable_union("Array(Nil) | String"));
    assert_eq!(semantic::highlight_for_type("Nilable | String"), "type");
    assert_eq!(semantic::highlight_for_type("Nil"), "constant.builtin");
    assert_eq!(semantic::highlight_for_type("String | Nil"), "type.builtin");
    assert_eq!(semantic::highlight_for_type("String"), "type");
    assert_eq!(semantic::highlight_for_completion_kind(&CompletionKind::Snippet), "keyword");
    assert_eq!(semantic::highlight_for_completion_kind(&CompletionKind::Constructor), "function.method");
    assert_eq!(semantic::highlight_for_completion_kind(&CompletionKind::Other(3)), "variable");
    assert_eq!(semantic::highlight_for_symbol_kind(&semantic::SymbolKind::Namespace), "type");
    assert_eq!(semantic::highlight_for_symbol_kind(&semantic::SymbolKind::Field), "property");
    assert_eq!(semantic::highlight_for_symbol_kind(&semantic::SymbolKind::Key), "variable");
}

// ---------------------------------------------------------------------------
// The extension
// ---------------------------------------------------------------------------

fn asset(name: &str, url: &str) -> ReleaseAsset {
    ReleaseAsset { name: name.to_string(), download_url: url.to_string() }
}

#[test]
fn the_binary_is_downloaded_once() {
    let mut m = ServerBinaryManager::new();
    assert_eq!(m.server_binary_path(), BinaryStep::FetchRelease);
    let path = "zircon-server-v1/zircon-server".to_string();
    assert_eq!(m.fetched_release(&Ok("v1".to_string())), BinaryStep::CheckFile(path.clone()));
    assert_eq!(m.fetched_release(&Err("offline".to_string())), BinaryStep::Fail("offline".to_string()));
    let assets = vec![
        asset("zircon-server_arm64-apple-darwin.gz", "u1"),
        asset("zircon-server_x86_64-unknown-linux-musl.gz", "u2"),
    ];
    assert_eq!(
        m.checked_file(&path, false, Os::Linux, Architecture::X8664, &assets),
        BinaryStep::Download { url: "u2".to_string(), path: path.clone() }
    );
    assert!(m.cached_binary_path.is_none());
    assert_eq!(
        m.checked_file(&path, false, Os::Linux, Architecture::Aarch64, &assets),
        BinaryStep::Fail("no release asset found: zircon-server_arm64-unknown-linux-musl.gz".to_string())
    );
    assert_eq!(
        m.checked_file(&path, false, Os::Windows, Architecture::X8664, &assets),
        BinaryStep::Fail("unsupported platform for zircon-server".to_string())
    );
    assert_eq!(m.downloaded(&path, &Ok(())), BinaryStep::MakeExecutable(path.clone()));
    assert_eq!(m.downloaded(&path, &Err("e".to_string())), BinaryStep::Fail("e".to_string()));
    assert_eq!(m.made_executable(&path, &Err("e".to_string())), BinaryStep::Fail("e".to_string()));
    assert!(m.cached_binary_path.is_none());
    assert_eq!(m.made_executable(&path, &Ok(())), BinaryStep::Use(path.clone()));
    assert_eq!(m.server_binary_path(), BinaryStep::CheckCached(path.clone()));
    assert_eq!(m.checked_cached(&path, true), BinaryStep::Use(path.clone()));
    assert_eq!(m.checked_cached(&path, false), BinaryStep::FetchRelease);
    let mut n = ServerBinaryManager::new();
    assert_eq!(n.checked_file(&path, true, Os::Mac, Architecture::X86, &assets), BinaryStep::Use(path.clone()));
    assert_eq!(n.cached_binary_path, Some(path));
    assert_eq!(extension::asset_name(Os::Mac, Architecture::X8664), Some("zircon-server_x86_64-apple-darwin.gz"));
}

fn args(v: &[&str]) -> Vec<String> {
    v.iter().map(|s| s.to_string()).collect()
}

#[test]
fn slash_commands() {
    let run = |name: &str, a: &[&str]| extension::run_slash_command(name, &args(a));
    assert_eq!(run("crystal-expand", &["a.cr"]).unwrap(), args(&["tool", "expand", "a.cr"]));
    assert_eq!(
        run("crystal-expand", &["a.cr", "1:2", "x"]).unwrap(),
        args(&["tool", "expand", "-c", "1:2", "a.cr"])
    );
    assert_eq!(run("crystal-expand", &[]).unwrap_err(), "usage: /crystal-expand <file> [line:col]");
    assert_eq!(run("crystal-check", &["a.cr"]).unwrap(), crystal_cli::check_args("a.cr"));
    assert_eq!(run("crystal-check", &[]).unwrap_err(), "usage: /crystal-check <file>");
    assert_eq!(run("crystal-spec", &[]).unwrap(), args(&["spec", "spec/", "--no-color"]));
    assert_eq!(run("crystal-run", &[]).unwrap_err(), "unknown command: crystal-run");
}

#[test]
fn expansions_are_shown() {
    let out = extension::run_macro_expand(&args(&["a.cr", "1:2"]), "def x\nend\n", "").unwrap();
    assert_eq!(out.text, "```crystal\ndef x\nend\n```");
    assert_eq!(out.label, "Macro expansion: a.cr:1:2");
    assert_eq!(out.end as usize, out.text.len());
    let out = extension::run_macro_expand(&args(&["a.cr"]), "é", "warning").unwrap();
    assert_eq!(out.label, "Macro expansion: a.cr");
    assert_eq!(out.end as usize, out.text.len());
    let failed = extension::run_macro_expand(&args(&["a.cr"]), "", "boom").unwrap_err();
    assert_eq!(failed, "crystal tool expand failed:\nboom");
    let empty = extension::run_macro_expand(&args(&["a.cr"]), "", "").unwrap_err();
    assert_eq!(empty, "crystal tool expand produced no output");
}

#[test]
fn checks_are_shown() {
    let clean = extension::run_crystal_check("a.cr", "", "");
    assert_eq!(clean.text, "No type issues found in `a.cr`.");
    assert_eq!(clean.label, "Crystal check: a.cr");
    let json = r#"[{"file":"a.cr","line":3,"column":7,"message":"undefined method 'x' for Nil"}]"#;
    let found = extension::run_crystal_check("a.cr", "", json);
    assert_eq!(found.text, "a.cr:3:7 [error] [nil-risk]\n  undefined method 'x' for Nil\n\n");
    assert_eq!(found.label, "Crystal check: a.cr (1 issues)");
    assert_eq!(found.end as usize, found.text.len());
}

#[test]
fn spec_runs_are_shown() {
    let ok = extension::run_crystal_spec(&vec![], "Finished in 1 s\n2 examples, 0 failures\n", "");
    assert_eq!(ok.label, "Specs passed: spec/");
    assert_eq!(ok.text, "All specs passed (2 examples, 1 s)");
    let bad = "Failures:\n1) broken\nExpected: 1\nGot: 2\n# a.cr:4\n3 examples, 1 failures\n";
    let bad = extension::run_crystal_spec(&args(&["spec/a.cr"]), "", bad);
    assert_eq!(bad.label, "Spec failures: spec/a.cr (1/3)");
    assert!(bad.text.starts_with("a.cr:4 | FAIL: broken\n"));
}

#[test]
fn arguments_are_completed() {
    let labels = |name: &str| -> Vec<(String, bool)> {
        extension::complete_slash_command_argument(name)
            .into_iter()
            .map(|c| (c.new_text, c.run_command))
            .collect()
    };
    assert_eq!(labels("crystal-expand"), vec![("file.cr".to_string(), false), ("file.cr 1:1".to_string(), false)]);
    assert_eq!(labels("crystal-check"), vec![("file.cr".to_string(), true)]);
    assert_eq!(labels("crystal-spec"), vec![("spec/file_spec.cr".to_string(), true), ("spec/".to_string(), true)]);
    assert!(labels("other").is_empty());
}

// ---------------------------------------------------------------------------
// Parsing
// ---------------------------------------------------------------------------

#[test]
fn sources_are_parsed() {
    let root = syntax::parse("class Foo\n  x = 1\nend\n").unwrap();
    assert_eq!(root.kind, "source_file");
    assert!(root.fields.is_empty());
    assert_eq!(root.text.as_deref(), Some("class Foo\n  x = 1\nend\n"));
    let class = &root.children[0];
    assert_eq!(class.kind, "class_declaration");
    assert!(class.named && !class.error && !class.missing);
    assert_eq!((class.start_byte, class.end_byte), (0, 21));
    assert_eq!((class.end.row, class.end.column), (2, 3));
    let name = syntax::child_by_field(class, "name").unwrap();
    assert_eq!(name.text.as_deref(), Some("Foo"));
    assert_eq!(name.fields, vec!["name"]);
    assert!(class.children.iter().all(|c| c.text == name.text || c.fields.is_empty()));
    assert_eq!((name.start.row, name.start.column), (0, 6));
    assert!(!class.children[0].named);
    assert_eq!(class.children[0].kind, "class");
}

#[test]
fn places_are_found() {
    let (root, path) = syntax::parse_at("class Foo\nend\n", 0, 7).unwrap();
    assert_eq!(path, vec![0, 1]);
    let node = syntax::node_at(&root, &path, path.len());
    assert_eq!(node.text.as_deref(), Some("Foo"));
    let broken = syntax::parse("class Foo\n").unwrap();
    let mut bad = false;
    let mut todo = vec![&broken];
    while let Some(n) = todo.pop() {
        bad = bad || n.error || n.missing;
        todo.extend(n.children.iter());
    }
    assert!(bad);
}

const TAGS: &str = "(class_declaration name: (identifier) @name) @definition.class
(method_definition name: (identifier) @name) @definition.method
(call name: (identifier) @name) @reference.call";

#[test]
fn definitions_are_found_by_a_query() {
    assert!(DocumentIndex::new("(no_such_kind) @x").is_none());
    let mut index = DocumentIndex::new(TAGS).unwrap();
    index.update_file("/a.cr", "class Foo\n  def bar\n  end\nend\n");
    let foo = index.find_definition("Foo", SymbolKind::Class);
    assert_eq!(foo.len(), 1);
    assert_eq!(foo[0].0, "/a.cr");
    assert_eq!((foo[0].1.start_line, foo[0].1.start_col), (0, 6));
    assert_eq!(foo[0].1.def_end_line, 3);
    assert_eq!(index.find_definition("bar", SymbolKind::Method).len(), 1);
    assert_eq!(index.all_symbols().len(), 2);
    index.index_files(&vec![
        ("/b.cr".to_string(), Some("def go\nend\n".to_string())),
        ("/c.cr".to_string(), None),
    ]);
    assert_eq!(index.find_by_name("go").len(), 1);
    assert_eq!(index.indexed_paths(), vec!["/a.cr", "/b.cr"]);
    let found = symbols::handle_workspace_symbols(&index, "go");
    assert_eq!(found[0].uri, "file:///b.cr");
}

// ---------------------------------------------------------------------------
// Text
// ---------------------------------------------------------------------------

#[test]
fn text_is_cut_like_std_does() {
    for s in ["", " ", "a b", "\u{2003}x\u{85}", "a\r\nb\n\r", "\n\n", "x\r", "#a#", "ab,cd,,"] {
        let chars = text::chars_of(s);
        assert_eq!(text::string_of(text::trim(&chars)), s.trim());
        assert_eq!(text::string_of(text::trim_start(&chars)), s.trim_start());
        assert_eq!(text::string_of(text::trim_end(&chars)), s.trim_end());
        let lines: Vec<String> = text::lines(s).iter().map(|l| text::string_of(l)).collect();
        assert_eq!(lines, s.lines().collect::<Vec<&str>>());
        let pieces: Vec<String> = text::split(&chars, ',').iter().map(|l| text::string_of(l)).collect();
        assert_eq!(pieces, s.split(',').collect::<Vec<&str>>());
        assert_eq!(text::string_of(text::leading_word(&chars)), s.split_whitespace().next().unwrap_or(""));
    }
    for n in ["0", "+7", "4294967295", "4294967296", "-1", "", "+", "1a"] {
        assert_eq!(text::parse_u32(&text::chars_of(n)), n.parse::<u32>().ok());
    }
    for n in [0, 7, 10, 4294967295u32] {
        let mut written = String::new();
        text::push_decimal(&mut written, n as u64);
        assert_eq!(written, n.to_string());
        assert_eq!(text::parse_u32(&text::chars_of(&written)), Some(n));
    }
    for c in ['a', 'É', 'İ', 'ß', '7', '_'] {
        assert_eq!(text::fold_case(c), c.to_lowercase().next().unwrap_or(c));
    }
}

// ---------------------------------------------------------------------------
// The server
// ---------------------------------------------------------------------------

#[test]
fn messages_are_told_apart() {
    assert_eq!(server::classify_request("textDocument/hover"), RequestKind::Hover);
    assert_eq!(server::classify_request("textDocument/definition"), RequestKind::Definition);
    assert_eq!(server::classify_request("textDocument/completion"), RequestKind::Completion);
    assert_eq!(server::classify_request("textDocument/documentSymbol"), RequestKind::DocumentSymbols);
    assert_eq!(server::classify_request("workspace/symbol"), RequestKind::WorkspaceSymbols);
    assert_eq!(server::classify_request("shutdown"), RequestKind::Other);
    assert_eq!(server::classify_notification("textDocument/didOpen"), NotificationKind::DidOpen);
    assert_eq!(server::classify_notification("textDocument/didChange"), NotificationKind::DidChange);
    assert_eq!(server::classify_notification("textDocument/didClose"), NotificationKind::DidClose);
    assert_eq!(server::classify_notification("textDocument/didSave"), NotificationKind::DidSave);
    assert_eq!(server::classify_notification("initialized"), NotificationKind::Initialized);
    assert_eq!(server::classify_notification("exit"), NotificationKind::Other);
    assert_eq!(server::document_path("file:///a%20b.cr").as_deref(), Some("/a%20b.cr"));
    assert_eq!(server::document_path("untitled:1"), None);
}

#[test]
fn documents_are_kept_and_checked() {
    assert!(ServerState::new("(", &vec![]).is_none());
    let files = vec![("/b.cr".to_string(), Some("class Old\nend\n".to_string()))];
    let mut s = ServerState::new(TAGS, &files).unwrap();
    assert_eq!(s.index.find_by_name("Old").len(), 1);
    assert_eq!(s.next_diagnostic_deadline(), None);

    s.did_open("file:///a.cr", "class Foo\n", 1000);
    s.did_open("untitled:1", "class Bar\n", 1000);
    s.did_open("file:///b.cr", "class New\nend\n", 1100);
    assert_eq!(s.get_source("/a.cr", Some("disk")).as_deref(), Some("class Foo\n"));
    assert_eq!(s.get_source("/z.cr", Some("disk")).as_deref(), Some("disk"));
    assert_eq!(s.get_source("/z.cr", None), None);
    assert_eq!(s.index.find_by_name("Old").len(), 0);
    assert_eq!(s.next_diagnostic_deadline(), Some(1150));
    assert!(s.ready_diagnostics(1149).is_empty());
    assert_eq!(s.ready_diagnostics(1150), vec!["/a.cr"]);

    let source = s.get_source("/a.cr", None);
    let sent = s.publish_syntax("/a.cr", source.as_deref()).unwrap();
    assert_eq!(sent.uri, "file:///a.cr");
    assert!(!sent.diagnostics.is_empty());
    assert_eq!(s.next_diagnostic_deadline(), Some(1250));

    s.macro_cache.store("/a.cr", 1, 1, None);
    s.did_change("file:///a.cr", &vec![], 1200);
    assert!(!s.macro_cache.is_empty());
    s.did_change("file:///a.cr", &vec!["x".to_string(), "class Foo\nend\n".to_string()], 1300);
    assert!(s.macro_cache.is_empty());
    assert_eq!(s.index.find_by_name("Foo").len(), 1);
    let source = s.get_source("/a.cr", None);
    let sent = s.publish_syntax("/a.cr", source.as_deref()).unwrap();
    assert!(sent.diagnostics.is_empty());
    assert_eq!(s.did_save("file:///a.cr").as_deref(), Some("/a.cr"));

    let compiled = crystal_cli::CheckOutcome::TimedOut;
    let sent = s.publish_compiled("/a.cr", crystal_cli::check_file(&compiled, "/a.cr").unwrap()).unwrap();
    assert!(sent.diagnostics.is_empty());
    assert!(s.publish_syntax("/a b.cr", None).is_none());

    assert_eq!(s.did_close("file:///a.cr").as_deref(), Some("/a.cr"));
    assert_eq!(s.get_source("/a.cr", None), None);
    let sent = s.reindex("/a.cr", Some("class Saved\nend\n")).unwrap();
    assert!(sent.diagnostics.is_empty());
    assert_eq!(s.index.find_by_name("Saved").len(), 1);
    assert_eq!(s.did_close("untitled:1"), None);
}

#[test]
fn requests_are_answered() {
    let mut s = ServerState::new(TAGS, &vec![]).unwrap();
    s.did_open("file:///a.cr", "class Foo\nend\n", 0);
    let uri = "file:///a.cr".to_string();
    let position = Position { line: 0, character: 6 };
    let source = s.get_source("/a.cr", None);
    let source = source.as_deref();
    let ask = Request::Definition { uri: uri.clone(), position };
    assert!(s.can_answer(&ask, source));
    match s.handle_request(&ask, source) {
        Answer::Definition(Some(locs)) => assert_eq!(locs.len(), 0),
        other => panic!("unexpected {:?}", other),
    }
    let ask = Request::Hover { uri: uri.clone(), position };
    assert!(matches!(s.handle_request(&ask, source), Answer::Hover(_)));
    let ask = Request::Completion { uri: uri.clone(), position: Position { line: 0, character: 9 } };
    match s.handle_request(&ask, source) {
        Answer::Completion(Some(zircon::completion::CompletionPlan::Items(items))) => {
            assert_eq!(items.len(), 1);
            assert_eq!(items[0].label, "Foo");
        }
        other => panic!("unexpected {:?}", other),
    }
    assert!(!s.can_answer(
        &Request::Completion { uri: uri.clone(), position: Position { line: 0, character: 1 } },
        Some("é")
    ));
    let nowhere = Request::Completion {
        uri: "untitled:a.cr".to_string(),
        position: Position { line: 0, character: 1 },
    };
    assert!(s.can_answer(&nowhere, Some("é")));
    assert!(matches!(s.handle_request(&nowhere, Some("é")), Answer::Completion(None)));
    let ask = Request::DocumentSymbols { uri };
    assert!(s.can_answer(&ask, None));
    match s.handle_request(&ask, None) {
        Answer::DocumentSymbols(Some(roots)) => assert_eq!(roots[0].name, "Foo"),
        other => panic!("unexpected {:?}", other),
    }
    match s.handle_request(&Request::WorkspaceSymbols { query: "fo".to_string() }, None) {
        Answer::WorkspaceSymbols(found) => assert_eq!(found[0].uri, "file:///a.cr"),
        other => panic!("unexpected {:?}", other),
    }
    assert!(matches!(s.handle_request(&Request::Other, None), Answer::Null));
}

#[test]
fn notifications_are_followed_up() {
    let mut s = ServerState::new(TAGS, &vec![]).unwrap();
    let uri = "file:///a.cr".to_string();
    let open = Notification::DidOpen { uri: uri.clone(), text: "class A\nend\n".to_string() };
    assert_eq!(s.handle_notification(&open, 10), Followup::Nothing);
    assert_eq!(s.index.find_by_name("A").len(), 1);
    let change = Notification::DidChange { uri: uri.clone(), changes: vec!["class B\n".to_string()] };
    assert_eq!(s.handle_notification(&change, 20), Followup::Nothing);
    assert_eq!(s.index.find_by_name("A").len(), 0);
    assert_eq!(s.next_diagnostic_deadline(), Some(170));
    let due: Vec<(String, Option<String>)> = s
        .ready_diagnostics(200)
        .into_iter()
        .map(|p| {
            let source = s.get_source(&p, None);
            (p, source)
        })
        .collect();
    let sent = s.publish_pending_diagnostics(&due);
    assert_eq!(sent.len(), 1);
    assert!(!sent[0].diagnostics.is_empty());
    assert_eq!(s.next_diagnostic_deadline(), None);
    let save = Notification::DidSave { uri: uri.clone() };
    assert_eq!(s.handle_notification(&save, 30), Followup::Compile("/a.cr".to_string()));
    let close = Notification::DidClose { uri };
    assert_eq!(s.handle_notification(&close, 40), Followup::Reindex("/a.cr".to_string()));
    let other = Notification::DidClose { uri: "untitled:1".to_string() };
    assert_eq!(s.handle_notification(&other, 50), Followup::Nothing);
    assert_eq!(s.handle_notification(&Notification::Initialized, 60), Followup::Nothing);
    assert_eq!(s.handle_notification(&Notification::Other, 70), Followup::Nothing);
}

#[test]
fn the_loop_goes_on_until_shutdown() {
    assert_eq!(server::main_loop(Event::Deadline), LoopStep::PublishPending);
    assert_eq!(server::main_loop(Event::Request(false)), LoopStep::HandleRequest);
    assert_eq!(server::main_loop(Event::Request(true)), LoopStep::Stop);
    assert_eq!(server::main_loop(Event::Notification), LoopStep::HandleNotification);
    assert_eq!(server::main_loop(Event::Response), LoopStep::Wait);
    assert_eq!(server::main_loop(Event::Compiled), LoopStep::PublishCompiled);
    assert_eq!(server::main_loop(Event::Disconnected), LoopStep::Stop);
}
