//! The language features on small Crystal programs.
//!
//! The programs are read by a small parser below, which builds the trees that the features work on.

use zircon::analyzer::{Analyzer, CrystalType, TypeMap};
use zircon::completion::{self, CompletionItem, CompletionKind, CompletionPlan, DirEntry};
use zircon::definition;
use zircon::hover::{self, HoverPlan, MacroExpansionCache};
use zircon::index::{ClassInfo, DocumentIndex, InstanceVariable, Symbol, SymbolKind};
use zircon::protocol::{Location, Position};
use zircon::symbols::{self, OutlineKind};
use zircon::syntax::{Capture, Point, SyntaxNode};
use zircon::uri;

// ---------------------------------------------------------------------------
// A small parser
// ---------------------------------------------------------------------------

struct Reader<'a> {
    src: &'a str,
    pos: usize,
}

fn point(src: &str, at: usize) -> Point {
    let before = &src[..at];
    let row = before.matches('\n').count();
    let column = match before.rfind('\n') {
        Some(i) => at - i - 1,
        None => at,
    };
    Point { row, column }
}

fn node(src: &str, kind: &str, named: bool, start: usize, end: usize, children: Vec<SyntaxNode>) -> SyntaxNode {
    SyntaxNode {
        kind: kind.to_string(),
        fields: vec![],
        named,
        error: false,
        missing: false,
        start_byte: start,
        end_byte: end,
        start: point(src, start),
        end: point(src, end),
        text: Some(src[start..end].to_string()),
        children,
    }
}

fn field(name: &str, mut n: SyntaxNode) -> SyntaxNode {
    n.fields = vec![name.to_string()];
    n
}

impl<'a> Reader<'a> {
    fn rest(&self) -> &'a str {
        &self.src[self.pos..]
    }

    fn spaces(&mut self) {
        while self.rest().starts_with(' ') {
            self.pos += 1;
        }
    }

    fn blank(&mut self) {
        loop {
            if self.rest().starts_with(|c: char| c.is_whitespace()) {
                self.pos += 1;
            } else if self.rest().starts_with('#') {
                self.pos += self.rest().find('\n').unwrap_or(self.rest().len());
            } else {
                return;
            }
        }
    }

    fn word(&self) -> &'a str {
        let r = self.rest();
        let n = r
            .find(|c: char| !(c.is_alphanumeric() || c == '_' || c == '@'))
            .unwrap_or(r.len());
        &r[..n]
    }

    fn token(&mut self, text: &str) -> SyntaxNode {
        assert!(self.rest().starts_with(text), "expected {:?} at {:?}", text, self.rest());
        let start = self.pos;
        self.pos += text.len();
        node(self.src, text, false, start, self.pos, vec![])
    }

    fn name(&mut self) -> SyntaxNode {
        let start = self.pos;
        let w = self.word();
        assert!(!w.is_empty(), "expected a name at {:?}", self.rest());
        self.pos += w.len();
        let kind = if w.starts_with("@@") {
            "class_var"
        } else if w.starts_with('@') {
            "instance_var"
        } else if w.starts_with(|c: char| c.is_uppercase()) {
            "constant"
        } else {
            if self.rest().starts_with('?') || self.rest().starts_with('!') {
                self.pos += 1;
            }
            "identifier"
        };
        node(self.src, kind, true, start, self.pos, vec![])
    }

    fn a_type(&mut self) -> SyntaxNode {
        let start = self.pos;
        let r = self.rest();
        let mut depth = 0;
        let mut n = r.len();
        for (i, c) in r.char_indices() {
            if c == '\n' || (depth == 0 && (c == ')' || c == ',' || c == '=')) {
                n = i;
                break;
            }
            depth += match c {
                '(' => 1,
                ')' => -1,
                _ => 0,
            };
        }
        self.pos += r[..n].trim_end().len();
        node(self.src, "constant", true, start, self.pos, vec![])
    }

    fn string(&mut self) -> SyntaxNode {
        let start = self.pos;
        self.pos += 1;
        let inner = self.pos;
        self.pos += self.rest().find('"').unwrap();
        let content = node(self.src, "literal_content", true, inner, self.pos, vec![]);
        self.pos += 1;
        node(self.src, "string", true, start, self.pos, vec![content])
    }

    fn list(&mut self, kind: &str, open: &str, close: &str) -> SyntaxNode {
        let start = self.pos;
        let mut kids = vec![self.token(open)];
        loop {
            self.spaces();
            if self.rest().starts_with(close) {
                break;
            }
            let item = self.expression();
            self.spaces();
            if self.rest().starts_with("=>") {
                let arrow = self.token("=>");
                self.spaces();
                let value = self.expression();
                let (a, b) = (item.start_byte, value.end_byte);
                kids.push(node(self.src, "hash_entry", true, a, b, vec![item, arrow, value]));
            } else {
                kids.push(item);
            }
            self.spaces();
            if self.rest().starts_with(',') {
                kids.push(self.token(","));
            }
        }
        kids.push(self.token(close));
        let kind = if kids.iter().any(|k| k.kind == "hash_entry") { "hash" } else { kind };
        node(self.src, kind, true, start, self.pos, kids)
    }

    fn primary(&mut self) -> SyntaxNode {
        let start = self.pos;
        let c = self.rest().chars().next().unwrap();
        if c == '"' {
            return self.string();
        }
        if c == '[' {
            return self.list("array", "[", "]");
        }
        if c == '{' {
            return self.list("tuple", "{", "}");
        }
        if c == ':' {
            self.pos += 1 + self.src[self.pos + 1..].find(|c: char| !c.is_alphanumeric()).unwrap();
            return node(self.src, "symbol", true, start, self.pos, vec![]);
        }
        if c.is_ascii_digit() {
            let r = self.rest();
            let n = r.find(|c: char| !(c.is_ascii_digit() || c == '.')).unwrap_or(r.len());
            self.pos += n;
            let kind = if r[..n].contains('.') { "float" } else { "integer" };
            return node(self.src, kind, true, start, self.pos, vec![]);
        }
        let w = self.word();
        if w == "true" || w == "false" || w == "nil" {
            self.pos += w.len();
            return node(self.src, w, true, start, self.pos, vec![]);
        }
        self.name()
    }

    fn expression(&mut self) -> SyntaxNode {
        let mut e = self.primary();
        loop {
            if self.rest().starts_with('.') {
                let start = e.start_byte;
                let dot = self.token(".");
                let m = self.name();
                let kids = vec![field("receiver", e), dot, field("method", m)];
                e = node(self.src, "call", true, start, self.pos, kids);
            } else if self.rest().starts_with('(') && e.kind == "identifier" {
                let start = e.start_byte;
                let args = self.list("argument_list", "(", ")");
                let kids = vec![field("method", e), field("arguments", args)];
                e = node(self.src, "call", true, start, self.pos, kids);
            } else {
                return e;
            }
        }
    }

    fn argument(&mut self) -> SyntaxNode {
        let e = self.expression();
        if e.kind == "identifier" && self.rest().starts_with(" : ") {
            let start = e.start_byte;
            self.spaces();
            let colon = self.token(":");
            self.spaces();
            let t = self.a_type();
            let kids = vec![field("var", e), colon, field("type", t)];
            return node(self.src, "type_declaration", true, start, self.pos, kids);
        }
        e
    }

    fn statement(&mut self) -> SyntaxNode {
        let start = self.pos;
        match self.word() {
            "class" | "struct" | "module" | "enum" | "lib" => return self.scope(start, vec![]),
            "abstract" => {
                let first = self.token("abstract");
                self.spaces();
                if self.word() == "class" {
                    return self.scope(start, vec![first]);
                }
                return self.method(start, vec![first], "abstract_method_def");
            }
            "def" => return self.method(start, vec![], "method_def"),
            "macro" => {
                let mut kids = vec![self.token("macro")];
                self.spaces();
                kids.push(field("name", self.name()));
                kids.push(field("body", self.body()));
                kids.push(self.end());
                return node(self.src, "macro_def", true, start, self.pos, kids);
            }
            "fun" => {
                let mut kids = vec![self.token("fun")];
                self.spaces();
                kids.push(field("name", self.name()));
                self.pos += self.rest().find('\n').unwrap_or(self.rest().len());
                return node(self.src, "fun_def", true, start, self.pos, kids);
            }
            "alias" => {
                let mut kids = vec![self.token("alias")];
                self.spaces();
                kids.push(field("name", self.name()));
                self.spaces();
                kids.push(self.token("="));
                self.spaces();
                kids.push(field("type", self.a_type()));
                return node(self.src, "alias", true, start, self.pos, kids);
            }
            "require" => {
                let mut kids = vec![self.token("require")];
                self.spaces();
                kids.push(self.string());
                return node(self.src, "require", true, start, self.pos, kids);
            }
            "include" | "extend" => {
                let w = self.word();
                let mut kids = vec![self.token(w)];
                self.spaces();
                kids.push(self.name());
                return node(self.src, w, true, start, self.pos, kids);
            }
            _ => {}
        }
        let e = self.expression();
        if self.rest().starts_with(" = ") {
            self.spaces();
            let eq = self.token("=");
            self.spaces();
            let kind = if e.kind == "constant" { "const_assign" } else { "assign" };
            let rhs = self.expression();
            let kids = vec![field("lhs", e), eq, field("rhs", rhs)];
            return node(self.src, kind, true, start, self.pos, kids);
        }
        if self.rest().starts_with(" : ") {
            self.spaces();
            let colon = self.token(":");
            self.spaces();
            let t = self.a_type();
            let mut kids = vec![field("var", e), colon, field("type", t)];
            self.spaces();
            if self.rest().starts_with('=') {
                kids.push(self.token("="));
                self.spaces();
                kids.push(field("value", self.expression()));
            }
            return node(self.src, "type_declaration", true, start, self.pos, kids);
        }
        if e.kind == "identifier" && self.rest().starts_with(' ') {
            self.spaces();
            let first = self.pos;
            let args = vec![self.argument()];
            let args = node(self.src, "argument_list", true, first, self.pos, args);
            let kids = vec![field("method", e), field("arguments", args)];
            return node(self.src, "call", true, start, self.pos, kids);
        }
        e
    }

    fn scope(&mut self, start: usize, mut kids: Vec<SyntaxNode>) -> SyntaxNode {
        let w = self.word();
        kids.push(self.token(w));
        self.spaces();
        kids.push(field("name", self.name()));
        self.spaces();
        if self.rest().starts_with('<') {
            kids.push(self.token("<"));
            self.spaces();
            kids.push(field("superclass", self.name()));
        }
        kids.push(field("body", self.body()));
        kids.push(self.end());
        node(self.src, &format!("{}_def", w), true, start, self.pos, kids)
    }

    fn method(&mut self, start: usize, mut kids: Vec<SyntaxNode>, kind: &str) -> SyntaxNode {
        kids.push(self.token("def"));
        self.spaces();
        if self.rest().starts_with("self.") {
            kids.push(self.token("self"));
            kids.push(self.token("."));
        }
        kids.push(field("name", self.name()));
        if self.rest().starts_with('(') {
            let at = self.pos;
            let mut params = vec![self.token("(")];
            while !self.rest().starts_with(')') {
                let from = self.pos;
                let mut p = vec![field("name", self.name())];
                self.spaces();
                if self.rest().starts_with(':') {
                    p.push(self.token(":"));
                    self.spaces();
                    p.push(field("type", self.a_type()));
                }
                params.push(node(self.src, "param", true, from, self.pos, p));
                if self.rest().starts_with(',') {
                    params.push(self.token(","));
                    self.spaces();
                }
            }
            params.push(self.token(")"));
            kids.push(field("params", node(self.src, "param_list", true, at, self.pos, params)));
        }
        if self.rest().starts_with(" : ") {
            self.spaces();
            kids.push(self.token(":"));
            self.spaces();
            kids.push(field("type", self.a_type()));
        }
        if kind == "method_def" {
            kids.push(field("body", self.body()));
            kids.push(self.end());
        }
        node(self.src, kind, true, start, self.pos, kids)
    }

    fn body(&mut self) -> SyntaxNode {
        self.blank();
        let start = self.pos;
        let mut kids = vec![];
        let mut last = start;
        loop {
            self.blank();
            if self.rest().is_empty() || self.word() == "end" {
                return node(self.src, "expressions", true, start, last, kids);
            }
            kids.push(self.statement());
            last = self.pos;
        }
    }

    fn end(&mut self) -> SyntaxNode {
        self.blank();
        if self.word() == "end" {
            self.token("end")
        } else {
            let mut n = node(self.src, "end", false, self.pos, self.pos, vec![]);
            n.missing = true;
            n
        }
    }
}

fn tree(src: &str) -> SyntaxNode {
    let mut r = Reader { src, pos: 0 };
    let mut root = r.body();
    assert!(r.rest().trim().is_empty(), "left over: {:?}", r.rest());
    root.start_byte = 0;
    root.start = Point { row: 0, column: 0 };
    root.end_byte = src.len();
    root.end = point(src, src.len());
    root.text = Some(src.to_string());
    root
}

/// The path to the innermost node around a place.
fn locate(root: &SyntaxNode, row: usize, column: usize) -> Vec<usize> {
    let mut path = vec![];
    let mut n = root;
    'down: loop {
        for (i, c) in n.children.iter().enumerate() {
            let start = (c.start.row, c.start.column);
            let end = (c.end.row, c.end.column);
            if start <= (row, column) && (row, column) < end {
                path.push(i);
                n = c;
                continue 'down;
            }
        }
        return path;
    }
}

fn tag(kind: &str, path: &[usize], name: &[usize]) -> Vec<Capture> {
    let mut full = path.to_vec();
    full.extend_from_slice(name);
    vec![
        Capture { name: format!("definition.{}", kind), path: path.to_vec() },
        Capture { name: "name".to_string(), path: full },
    ]
}

fn child_of(n: &SyntaxNode, f: &str) -> Option<usize> {
    n.children.iter().position(|c| c.fields.iter().any(|x| x == f))
}

/// What a query for definitions matches in a tree.
fn tags(n: &SyntaxNode, path: &mut Vec<usize>, out: &mut Vec<Vec<Capture>>) {
    let named = |f: &str| child_of(n, f);
    match if n.named { n.kind.as_str() } else { "" } {
        "class_def" => out.push(tag("class", path, &[named("name").unwrap()])),
        "module_def" => out.push(tag("module", path, &[named("name").unwrap()])),
        "struct_def" => out.push(tag("struct", path, &[named("name").unwrap()])),
        "enum_def" => out.push(tag("enum", path, &[named("name").unwrap()])),
        "lib_def" => out.push(tag("lib", path, &[named("name").unwrap()])),
        "method_def" | "abstract_method_def" => {
            out.push(tag("method", path, &[named("name").unwrap()]))
        }
        "macro_def" => out.push(tag("macro", path, &[named("name").unwrap()])),
        "fun_def" => out.push(tag("function", path, &[named("name").unwrap()])),
        "const_assign" => out.push(tag("constant", path, &[named("lhs").unwrap()])),
        "alias" => out.push(tag("type", path, &[named("name").unwrap()])),
        "assign" => {
            let l = named("lhs").unwrap();
            if n.children[l].kind.ends_with("_var") {
                out.push(tag("field", path, &[l]));
            }
        }
        "type_declaration" => {
            let v = named("var").unwrap();
            if n.children[v].kind.ends_with("_var") {
                out.push(tag("field", path, &[v]));
            }
        }
        "call" => {
            if let (Some(m), Some(a)) = (named("method"), named("arguments")) {
                let macro_name = n.children[m].text.as_deref().unwrap();
                let arg = &n.children[a].children[0];
                if ["property", "getter", "setter"].contains(&macro_name)
                    && arg.kind == "type_declaration"
                {
                    out.push(tag("method", path, &[a, 0, child_of(arg, "var").unwrap()]));
                }
            }
        }
        "require" => out.push(vec![
            Capture { name: "reference.call".to_string(), path: path.clone() },
            Capture { name: "name".to_string(), path: [path.clone(), vec![1, 0]].concat() },
        ]),
        _ => {}
    }
    for (i, c) in n.children.iter().enumerate() {
        path.push(i);
        tags(c, path, out);
        path.pop();
    }
}

fn new_index() -> DocumentIndex {
    DocumentIndex::new("").unwrap()
}

fn update(index: &mut DocumentIndex, path: &str, source: &str) {
    let root = tree(source);
    let mut found = vec![];
    tags(&root, &mut vec![], &mut found);
    index.update_parsed(path, &root, &found);
}

fn index_source(source: &str) -> DocumentIndex {
    let mut idx = new_index();
    update(&mut idx, "test.cr", source);
    idx
}

fn defs(idx: &DocumentIndex) -> Vec<(&str, SymbolKind, Option<&str>)> {
    idx.symbols_for_file("test.cr")
        .unwrap()
        .iter()
        .map(|s| (s.name.as_str(), s.kind, s.parent.as_deref()))
        .collect()
}

// ---------------------------------------------------------------------------
// Index
// ---------------------------------------------------------------------------

#[test]
fn test_nested_class_and_method() {
    let idx = index_source("class Foo\n  def bar\n  end\nend\n");
    let d = defs(&idx);
    assert!(d.contains(&("Foo", SymbolKind::Class, None)));
    assert!(d.contains(&("bar", SymbolKind::Method, Some("Foo"))));
}

#[test]
fn test_module_with_methods() {
    let idx = index_source(
        "module Utils\n  def self.help\n  end\n\n  def format(str)\n  end\nend\n",
    );
    let d = defs(&idx);
    assert!(d.contains(&("Utils", SymbolKind::Module, None)));
    assert!(d.contains(&("help", SymbolKind::Method, Some("Utils"))));
    assert!(d.contains(&("format", SymbolKind::Method, Some("Utils"))));
}

#[test]
fn test_constants_and_alias() {
    let idx = index_source("MAX = 100\nalias Name = String\n");
    let d = defs(&idx);
    assert!(d.contains(&("MAX", SymbolKind::Constant, None)));
    assert!(d.contains(&("Name", SymbolKind::Type, None)));
}

#[test]
fn test_macro_def() {
    let idx = index_source("macro my_macro\nend\n");
    let d = defs(&idx);
    assert!(d.contains(&("my_macro", SymbolKind::Macro, None)));
}

#[test]
fn test_instance_and_class_vars() {
    let idx = index_source("class Foo\n  @name = \"\"\n  @@count = 0\n  @age : Int32\nend\n");
    let d = defs(&idx);
    assert!(d.contains(&("@name", SymbolKind::Field, Some("Foo"))));
    assert!(d.contains(&("@@count", SymbolKind::Field, Some("Foo"))));
    assert!(d.contains(&("@age", SymbolKind::Field, Some("Foo"))));
}

#[test]
fn test_abstract_method() {
    let idx = index_source("abstract class Base\n  abstract def run\nend\n");
    let d = defs(&idx);
    assert!(d.contains(&("Base", SymbolKind::Class, None)));
    assert!(d.contains(&("run", SymbolKind::Method, Some("Base"))));
}

#[test]
fn test_enum_def() {
    let idx = index_source("enum Color\n  Red\n  Green\nend\n");
    let d = defs(&idx);
    assert!(d.contains(&("Color", SymbolKind::Enum, None)));
}

#[test]
fn test_property_macro() {
    let idx = index_source("class User\n  property name : String\n  getter age : Int32\nend\n");
    let d = defs(&idx);
    assert!(d.contains(&("name", SymbolKind::Method, Some("User"))));
    assert!(d.contains(&("age", SymbolKind::Method, Some("User"))));
}

#[test]
fn test_find_definition() {
    let mut idx = new_index();
    update(&mut idx, "a.cr", "class Foo\n  def greet\n  end\nend\n");
    update(&mut idx, "b.cr", "class Bar\n  def greet\n  end\nend\n");

    let results = idx.find_definition("greet", SymbolKind::Method);
    assert_eq!(results.len(), 2);

    let foo_results = idx.find_definition("Foo", SymbolKind::Class);
    assert_eq!(foo_results.len(), 1);
    assert_eq!(foo_results[0].0, "a.cr");
    assert_eq!(foo_results[0].1.start_line, 0);
    assert_eq!(foo_results[0].1.start_col, 6); // "class Foo" → col 6
}

#[test]
fn test_update_file_replaces() {
    let mut idx = new_index();
    update(&mut idx, "a.cr", "def old_method\nend\n");
    assert_eq!(idx.find_definition("old_method", SymbolKind::Method).len(), 1);

    update(&mut idx, "a.cr", "def new_method\nend\n");
    assert_eq!(idx.find_definition("old_method", SymbolKind::Method).len(), 0);
    assert_eq!(idx.find_definition("new_method", SymbolKind::Method).len(), 1);
}

#[test]
fn test_nested_classes() {
    let idx = index_source("module App\n  class Server\n    def start\n    end\n  end\nend\n");
    let d = defs(&idx);
    assert!(d.contains(&("App", SymbolKind::Module, None)));
    assert!(d.contains(&("Server", SymbolKind::Class, Some("App"))));
    assert!(d.contains(&("start", SymbolKind::Method, Some("Server"))));
}

#[test]
fn test_require_statements_not_indexed_as_definitions() {
    let idx = index_source("require \"json\"\nrequire \"./models/user\"\n");
    let symbols = idx.symbols_for_file("test.cr").unwrap();
    assert!(symbols.iter().all(|s| s.kind != SymbolKind::Class), "no class definitions expected");
    assert!(symbols.is_empty());
}

#[test]
fn test_fun_def() {
    let idx = index_source("lib LibC\n  fun printf(format : UInt8*, ...) : Int32\nend\n");
    let d = defs(&idx);
    assert!(d.contains(&("LibC", SymbolKind::Lib, None)));
    assert!(d.contains(&("printf", SymbolKind::Function, Some("LibC"))));
}

#[test]
fn test_hierarchy_superclass() {
    let mut idx = new_index();
    update(
        &mut idx,
        "a.cr",
        "class Animal\n  def breathe\n  end\nend\n\nclass Dog < Animal\n  def bark\n  end\nend\n",
    );

    let info = idx.class_hierarchy.get("Dog").expect("Dog should be in hierarchy");
    assert_eq!(info.superclass.as_deref(), Some("Animal"));

    let bark = idx.find_method_in_hierarchy("Dog", "bark");
    assert_eq!(bark.len(), 1);
    assert_eq!(bark[0].1.name, "bark");

    let breathe = idx.find_method_in_hierarchy("Dog", "breathe");
    assert_eq!(breathe.len(), 1);
    assert_eq!(breathe[0].1.name, "breathe");
    assert_eq!(breathe[0].1.parent.as_deref(), Some("Animal"));
}

#[test]
fn test_hierarchy_includes() {
    let mut idx = new_index();
    update(
        &mut idx,
        "a.cr",
        "module Greetable\n  def greet\n  end\nend\n\nclass Person\n  include Greetable\n  def name\n  end\nend\n",
    );

    let info = idx.class_hierarchy.get("Person").expect("Person in hierarchy");
    assert_eq!(info.includes, vec!["Greetable"]);

    let greet = idx.find_method_in_hierarchy("Person", "greet");
    assert_eq!(greet.len(), 1);
    assert_eq!(greet[0].1.parent.as_deref(), Some("Greetable"));
}

#[test]
fn test_hierarchy_not_found() {
    let mut idx = new_index();
    update(&mut idx, "a.cr", "class Foo\n  def bar\n  end\nend\n");
    let results = idx.find_method_in_hierarchy("Foo", "nonexistent");
    assert!(results.is_empty());
}

#[test]
fn hierarchy_in_a_circle_ends() {
    let mut idx = new_index();
    update(&mut idx, "a.cr", "class A < B\nend\n\nclass B < A\n  def here\n  end\nend\n");
    assert!(idx.find_method_in_hierarchy("A", "nowhere").is_empty());
    assert_eq!(idx.find_method_in_hierarchy("A", "here").len(), 1);
}

#[test]
fn modules_go_before_the_superclass() {
    let mut idx = new_index();
    update(
        &mut idx,
        "a.cr",
        "module M\n  def go\n  end\nend\n\nclass S\n  def go\n  end\nend\n\nclass C < S\n  include M\n  extend M\nend\n",
    );
    let go = idx.find_method_in_hierarchy("C", "go");
    assert_eq!(go.len(), 1);
    assert_eq!(go[0].1.parent.as_deref(), Some("M"));
    assert_eq!(idx.class_hierarchy.get("C").unwrap().extends, vec!["M"]);
}

#[test]
fn test_ivar_direct_assignment() {
    let mut idx = new_index();
    update(&mut idx, "a.cr", "class User\n  @name = \"\"\n  @age = 0\nend\n");

    let vars = idx.find_instance_vars("User");
    assert_eq!(vars.len(), 2);
    let name_var = vars.iter().find(|v| v.name == "@name").unwrap();
    assert_eq!(name_var.var_type.as_deref(), Some("String"));
    let age_var = vars.iter().find(|v| v.name == "@age").unwrap();
    assert_eq!(age_var.var_type.as_deref(), Some("Int32"));
}

#[test]
fn test_ivar_type_declaration() {
    let mut idx = new_index();
    update(&mut idx, "a.cr", "class User\n  @name : String\n  @email : String?\nend\n");

    let vars = idx.find_instance_vars("User");
    assert_eq!(vars.len(), 2);
    let name_var = vars.iter().find(|v| v.name == "@name").unwrap();
    assert_eq!(name_var.var_type.as_deref(), Some("String"));
}

#[test]
fn test_ivar_from_property_macro() {
    let mut idx = new_index();
    update(
        &mut idx,
        "a.cr",
        "class User\n  property name : String\n  getter age : Int32\n  setter email : String\nend\n",
    );

    let vars = idx.find_instance_vars("User");
    assert_eq!(vars.len(), 3);
    assert!(vars.iter().any(|v| v.name == "@name" && v.var_type.as_deref() == Some("String")));
    assert!(vars.iter().any(|v| v.name == "@age" && v.var_type.as_deref() == Some("Int32")));
    assert!(vars.iter().any(|v| v.name == "@email" && v.var_type.as_deref() == Some("String")));
}

#[test]
fn test_ivar_constructor_inference() {
    let mut idx = new_index();
    update(&mut idx, "a.cr", "class App\n  @logger = Logger.new\nend\n");

    let vars = idx.find_instance_vars("App");
    assert_eq!(vars.len(), 1);
    assert_eq!(vars[0].name, "@logger");
    assert_eq!(vars[0].var_type.as_deref(), Some("Logger"));
}

#[test]
fn test_ivar_empty_class() {
    let mut idx = new_index();
    update(&mut idx, "a.cr", "class Empty\nend\n");
    let vars = idx.find_instance_vars("Empty");
    assert!(vars.is_empty());
}

#[test]
fn instance_variables_are_declared_once() {
    let mut idx = new_index();
    update(
        &mut idx,
        "a.cr",
        "class Foo\n  @a = 1\n  @a = \"x\"\n  @b = 2\n  @b : String\n  getter :c\n  getter? d\nend\n",
    );
    let vars: Vec<(&str, Option<&str>)> = idx
        .find_instance_vars("Foo")
        .iter()
        .map(|v| (v.name.as_str(), v.var_type.as_deref()))
        .collect();
    assert_eq!(
        vars,
        vec![("@a", Some("Int32")), ("@b", Some("String")), ("@c", None), ("@d", None)]
    );
}

#[test]
fn values_show_their_types() {
    let mut idx = new_index();
    update(
        &mut idx,
        "a.cr",
        "class Foo\n  @f = 1.5\n  @t = true\n  @l = [1]\n  @h = {1 => 2}\n  @n = nil\n  @x = other\n  @w = foo.new\nend\n",
    );
    let types: Vec<Option<&str>> =
        idx.find_instance_vars("Foo").iter().map(|v| v.var_type.as_deref()).collect();
    assert_eq!(
        types,
        vec![Some("Float64"), Some("Bool"), Some("Array"), Some("Hash"), Some("Nil"), None, None]
    );
}

#[test]
fn the_same_path_is_one_file() {
    let mut idx = new_index();
    update(&mut idx, "src/a.cr", "def one\nend\n");
    update(&mut idx, "src/./a.cr", "def two\nend\n");
    assert_eq!(idx.indexed_paths(), vec!["src/a.cr"]);
    assert_eq!(idx.all_symbols().len(), 1);
    assert_eq!(idx.find_by_name("two").len(), 1);
    assert!(idx.symbols_for_file("other.cr").is_none());
}

#[test]
fn a_symbol_knows_where_it_stands() {
    let idx = index_source("class Foo\n  def bar\n    \"x\"\n  end\nend\n");
    let bar: &Symbol = idx.find_definition("bar", SymbolKind::Method)[0].1;
    assert_eq!(bar.byte_range, 16..19);
    assert_eq!((bar.start_line, bar.start_col, bar.end_line, bar.end_col), (1, 6, 1, 9));
    assert_eq!((bar.def_start_line, bar.def_start_col), (1, 2));
    assert_eq!((bar.def_end_line, bar.def_end_col), (3, 5));
    assert_eq!(bar.return_type.as_deref(), Some("String"));
}

// ---------------------------------------------------------------------------
// Definition
// ---------------------------------------------------------------------------

fn goto(index: &DocumentIndex, path: &str, line: usize, character: usize, source: &str) -> Vec<Location> {
    let root = tree(source);
    let at = locate(&root, line, character);
    definition::definitions_at(index, path, &root, &at).expect("an answer")
}

#[test]
fn test_definition_method_call() {
    let mut index = new_index();
    let source = "class Foo\n  def greet\n    \"hello\"\n  end\n\n  def run\n    greet\n  end\nend\n";
    update(&mut index, "/tmp/test_def.cr", source);
    let locs = goto(&index, "/tmp/test_def.cr", 6, 4, source);
    assert!(!locs.is_empty(), "should find at least one definition");
    assert_eq!(locs[0].range.start.line, 1);
}

#[test]
fn test_definition_class_name() {
    let mut index = new_index();
    let source_a = "class User\n  def name\n  end\nend\n";
    let source_b = "user = User.new\n";
    update(&mut index, "/tmp/a.cr", source_a);
    update(&mut index, "/tmp/b.cr", source_b);
    let locs = goto(&index, "/tmp/b.cr", 0, 7, source_b);
    assert!(!locs.is_empty());
    let uri_a = uri::from_path("/tmp/a.cr").unwrap();
    assert_eq!(locs[0].uri, uri_a);
    assert_eq!(locs[0].range.start.line, 0);
}

#[test]
fn test_definition_constant() {
    let mut index = new_index();
    let source = "MAX = 100\nputs MAX\n";
    update(&mut index, "/tmp/const.cr", source);
    let locs = goto(&index, "/tmp/const.cr", 1, 5, source);
    assert!(!locs.is_empty());
    assert_eq!(locs[0].range.start.line, 0);
}

#[test]
fn test_definition_instance_var() {
    let mut index = new_index();
    let source = "class Foo\n  @name = \"\"\n\n  def show\n    @name\n  end\nend\n";
    update(&mut index, "/tmp/ivar.cr", source);
    let locs = goto(&index, "/tmp/ivar.cr", 4, 4, source);
    assert!(!locs.is_empty());
    assert_eq!(locs[0].range.start.line, 1);
}

#[test]
fn test_definition_unknown_symbol() {
    let mut index = new_index();
    let source = "puts unknown_method\n";
    update(&mut index, "/tmp/unknown.cr", source);
    let locs = goto(&index, "/tmp/unknown.cr", 0, 5, source);
    assert!(locs.is_empty(), "unknown symbol should return empty");
}

#[test]
fn test_definition_cross_file() {
    let mut index = new_index();
    let source_a = "class User\n  getter name : String\nend\n";
    let source_b = "user = User.new\nuser.name\n";
    update(&mut index, "/tmp/models/user.cr", source_a);
    update(&mut index, "/tmp/app.cr", source_b);
    let locs = goto(&index, "/tmp/app.cr", 1, 5, source_b);
    assert!(!locs.is_empty(), "should find name definition");
    let uri_a = uri::from_path("/tmp/models/user.cr").unwrap();
    let user_locs: Vec<_> = locs.iter().filter(|l| l.uri == uri_a).collect();
    assert!(!user_locs.is_empty(), "should find def in user.cr");
}

#[test]
fn test_type_aware_constructor_resolution() {
    let mut index = new_index();
    let source_a = "class User\n  def name\n    \"alice\"\n  end\nend\n";
    let source_b = "class Pet\n  def name\n    \"fido\"\n  end\nend\n";
    let source_c = "user = User.new\nuser.name\n";
    update(&mut index, "/tmp/user.cr", source_a);
    update(&mut index, "/tmp/pet.cr", source_b);
    update(&mut index, "/tmp/main.cr", source_c);
    let locs = goto(&index, "/tmp/main.cr", 1, 5, source_c);
    assert_eq!(locs.len(), 1, "should find exactly one definition");
    let uri_a = uri::from_path("/tmp/user.cr").unwrap();
    assert_eq!(locs[0].uri, uri_a, "should resolve to User#name");
    assert_eq!(locs[0].range.start.line, 1);
}

#[test]
fn test_type_aware_superclass_resolution() {
    let mut index = new_index();
    let source_a = "class Parent\n  def greet\n    \"hello\"\n  end\nend\n";
    let source_b = "class Child < Parent\nend\n";
    let source_c = "c = Child.new\nc.greet\n";
    update(&mut index, "/tmp/parent.cr", source_a);
    update(&mut index, "/tmp/child.cr", source_b);
    update(&mut index, "/tmp/run.cr", source_c);
    let locs = goto(&index, "/tmp/run.cr", 1, 2, source_c);
    assert!(!locs.is_empty(), "should find inherited method");
    let uri_a = uri::from_path("/tmp/parent.cr").unwrap();
    assert_eq!(locs[0].uri, uri_a, "should resolve to Parent#greet");
    assert_eq!(locs[0].range.start.line, 1);
}

#[test]
fn test_type_aware_include_resolution() {
    let mut index = new_index();
    let source_a = "module Greetable\n  def say_hi\n    \"hi\"\n  end\nend\n";
    let source_b = "class Greeter\n  include Greetable\nend\n";
    let source_c = "g = Greeter.new\ng.say_hi\n";
    update(&mut index, "/tmp/greetable.cr", source_a);
    update(&mut index, "/tmp/greeter.cr", source_b);
    update(&mut index, "/tmp/use.cr", source_c);
    let locs = goto(&index, "/tmp/use.cr", 1, 2, source_c);
    assert!(!locs.is_empty(), "should find included method");
    let uri_a = uri::from_path("/tmp/greetable.cr").unwrap();
    assert_eq!(locs[0].uri, uri_a, "should resolve to Greetable#say_hi");
    assert_eq!(locs[0].range.start.line, 1);
}

#[test]
fn test_type_aware_fallback() {
    let mut index = new_index();
    let source_a = "class Foo\n  def do_thing\n  end\nend\n";
    let source_b = "x.do_thing\n";
    update(&mut index, "/tmp/defs.cr", source_a);
    update(&mut index, "/tmp/call.cr", source_b);
    let locs = goto(&index, "/tmp/call.cr", 0, 2, source_b);
    assert!(!locs.is_empty(), "fallback should find do_thing");
}

#[test]
fn parameters_and_declarations_type_receivers() {
    let mut index = new_index();
    update(&mut index, "/u.cr", "class User\n  def name\n  end\nend\nclass Pet\n  def name\n  end\nend\n");
    let source = "def show(u : User?, n : Int32)\n  u.name\nend\npet : Pet(Int32)\npet.name\n";
    update(&mut index, "/m.cr", source);
    // The statements of the body are a scope of their own, in which `u` has no type.
    assert_eq!(goto(&index, "/m.cr", 1, 4, source).len(), 2);
    let mut root = tree(source);
    let body = child_of(&root.children[0], "body").unwrap();
    root.children[0].children[body].kind = "begin".to_string();
    let at = locate(&root, 1, 4);
    let user = definition::definitions_at(&index, "/m.cr", &root, &at).unwrap();
    assert_eq!(user.len(), 1);
    assert_eq!(user[0].range.start.line, 1);
    let pet = goto(&index, "/m.cr", 4, 4, source);
    assert_eq!(pet.len(), 1);
    assert_eq!(pet[0].range.start.line, 5);
}

#[test]
fn definitions_in_the_file_come_first() {
    let mut index = new_index();
    let source = "def go\nend\ngo\n";
    update(&mut index, "/z.cr", source);
    update(&mut index, "/a.cr", "def go\nend\n");
    update(&mut index, "/b.cr", "def go\nend\n");
    let uris: Vec<String> = goto(&index, "/z.cr", 2, 0, source).into_iter().map(|l| l.uri).collect();
    assert_eq!(uris, vec!["file:///z.cr", "file:///a.cr", "file:///b.cr"]);
}

#[test]
fn results_are_sorted_by_path_parts() {
    let mut index = new_index();
    for p in ["/b.cr", "/a-b/x.cr", "/a/x.cr", "/here.cr"] {
        update(&mut index, p, "def go\nend\n");
    }
    let sorted = definition::sort_results(index.find_by_name("go"), "/here.cr");
    let paths: Vec<&str> = sorted.iter().map(|r| r.0).collect();
    assert_eq!(paths, vec!["/here.cr", "/a/x.cr", "/a-b/x.cr", "/b.cr"]);
}

#[test]
fn results_of_one_file_keep_their_order() {
    let mut index = new_index();
    update(&mut index, "/b.cr", "def go\nend\ndef go\nend\ndef go\nend\n");
    update(&mut index, "/a.cr", "def go\nend\n");
    let sorted = definition::sort_results(index.find_by_name("go"), "/c.cr");
    let lines: Vec<(&str, usize)> = sorted.iter().map(|r| (r.0, r.1.start_line)).collect();
    assert_eq!(lines, vec![("/a.cr", 0), ("/b.cr", 0), ("/b.cr", 2), ("/b.cr", 4)]);
}

#[test]
fn nodes_are_classified() {
    let source = "class Foo\n  @@n = 1\n  def go\n    run + 1\n  end\nend\n".replace(" + 1", "");
    let root = tree(&source);
    let kinds = |row: usize, col: usize| {
        definition::classify_node(&root, &locate(&root, row, col)).unwrap()
    };
    assert_eq!(kinds(0, 6).0, "Foo");
    assert_eq!(kinds(0, 6).1.len(), 6);
    assert_eq!(kinds(1, 3), ("@@n".to_string(), vec![SymbolKind::Field]));
    assert_eq!(kinds(2, 6), ("go".to_string(), vec![SymbolKind::Method]));
    assert_eq!(
        kinds(3, 4),
        ("run".to_string(), vec![SymbolKind::Method, SymbolKind::Macro, SymbolKind::Function])
    );
    assert_eq!(kinds(1, 8), ("1".to_string(), vec![]));
    assert!(definition::classify_node(&root, &locate(&root, 1, 6)).is_none());
}

#[test]
fn requests_go_by_uri_and_source() {
    let mut index = new_index();
    update(&mut index, "/a.cr", "def go\nend\n");
    let at = Position { line: 0, character: 0 };
    assert!(definition::handle(&index, "untitled:1", at, Some("go\n")).is_none());
    assert!(definition::handle(&index, "file:///b.cr", at, None).is_none());
    let locs = definition::handle(&index, "file:///b.cr", at, Some("go\n")).unwrap();
    assert_eq!(locs.len(), 1);
    assert_eq!(locs[0].uri, "file:///a.cr");
    assert_eq!(locs[0].range.start, Position { line: 0, character: 4 });
}

// ---------------------------------------------------------------------------
// Hover
// ---------------------------------------------------------------------------

fn plan<'a>(index: &'a DocumentIndex, path: &str, line: usize, col: usize, source: &str) -> HoverPlan<'a> {
    let root = tree(source);
    let at = locate(&root, line, col);
    hover::hover_at(index, &MacroExpansionCache::new(), path, &root, &at)
}

/// What is shown; `other` is the text of a file that is not the current one.
fn shown(index: &DocumentIndex, path: &str, line: usize, col: usize, source: &str, other: &str) -> String {
    match plan(index, path, line, col, source) {
        HoverPlan::Show(s) => s,
        HoverPlan::Describe { symbol, local, .. } => {
            let text = if local { source } else { other };
            assert!(hover::is_describable(symbol, text));
            hover::build_hover_content(symbol, text)
        }
        p => panic!("expected something to show, got {:?}", p),
    }
}

#[test]
fn test_hover_method_signature() {
    let mut index = new_index();
    let source = "class Foo\n  def greet(name : String) : String\n    \"hello #{name}\"\n  end\nend\n";
    update(&mut index, "/tmp/hover_method.cr", source);
    let source2 = "class Foo\n  def greet(name : String) : String\n    \"hello #{name}\"\n  end\n\n  def run\n    greet(\"world\")\n  end\nend\n";
    update(&mut index, "/tmp/hover_method.cr", source2);
    let md = shown(&index, "/tmp/hover_method.cr", 6, 4, source2, "");
    assert!(md.contains("def greet(name : String) : String"));
}

#[test]
fn test_hover_class_with_doc_comment() {
    let def_source = "# A user in the system.\n# Has a name and email.\nclass User\n  def name\n  end\nend\n";
    let ref_source = "u = User.new\n";
    let mut index = new_index();
    update(&mut index, "/tmp/user.cr", def_source);
    update(&mut index, "/tmp/app.cr", ref_source);
    match plan(&index, "/tmp/app.cr", 0, 4, ref_source) {
        HoverPlan::Describe { file, local, .. } => {
            assert_eq!(file, "/tmp/user.cr");
            assert!(!local);
        }
        p => panic!("expected a description, got {:?}", p),
    }
    let md = shown(&index, "/tmp/app.cr", 0, 4, ref_source, def_source);
    assert!(md.contains("class User"), "should show class definition");
    assert!(md.contains("A user in the system"), "should show doc comment, got: {}", md);
    assert_eq!(
        md,
        "```crystal\nclass User\n```\n\nA user in the system.\nHas a name and email."
    );
}

#[test]
fn test_hover_constant() {
    let mut index = new_index();
    let source = "MAX = 100\nputs MAX\n";
    update(&mut index, "/tmp/hover_const.cr", source);
    let md = shown(&index, "/tmp/hover_const.cr", 1, 5, source, "");
    assert!(md.contains("MAX = 100"));
}

#[test]
fn test_hover_instance_var() {
    let mut index = new_index();
    let source = "class Foo\n  @name : String = \"\"\n\n  def show\n    @name\n  end\nend\n";
    update(&mut index, "/tmp/hover_ivar.cr", source);
    let md = shown(&index, "/tmp/hover_ivar.cr", 4, 4, source, "");
    assert!(md.contains("@name"));
}

#[test]
fn test_hover_unknown_returns_none() {
    let mut index = new_index();
    let source = "unknown_thing\n";
    update(&mut index, "/tmp/hover_unknown.cr", source);
    let result = plan(&index, "/tmp/hover_unknown.cr", 0, 5, source);
    assert!(matches!(result, HoverPlan::Nothing), "unknown symbol should return None");
}

#[test]
fn test_hover_require_path() {
    let source = "require \"./models/user\"\n";
    let mut index = new_index();
    update(&mut index, "/tmp/src/app.cr", source);
    let md = match plan(&index, "/tmp/src/app.cr", 0, 12, source) {
        HoverPlan::Require { require, target } => {
            assert_eq!(require, "./models/user");
            assert_eq!(target, "/tmp/src/./models/user.cr");
            hover::format_require_hover(&require, &Some("/tmp/src/models/user.cr".to_string()))
        }
        p => panic!("expected a file to look up, got {:?}", p),
    };
    assert!(md.contains("user.cr"), "should show resolved path, got: {}", md);
    assert_eq!(
        hover::format_require_hover("./models/user", &None),
        "```\n./models/user (not found)\n```"
    );
}

#[test]
fn test_hover_stdlib_require() {
    let mut index = new_index();
    let source = "require \"json\"\n";
    update(&mut index, "/tmp/hover_stdlib.cr", source);
    let md = shown(&index, "/tmp/hover_stdlib.cr", 0, 10, source, "");
    assert!(md.contains("stdlib/shard"), "should indicate stdlib, got: {}", md);
}

#[test]
fn test_hover_ivar_with_type() {
    let mut index = new_index();
    let source = "class User\n  @name : String\n\n  def show\n    @name\n  end\nend\n";
    update(&mut index, "/tmp/hover_ivar_type.cr", source);
    let md = shown(&index, "/tmp/hover_ivar_type.cr", 4, 4, source, "");
    assert!(md.contains("@name : String"), "should show type, got: {}", md);
    assert!(md.contains("User"), "should show class name, got: {}", md);
}

#[test]
fn test_hover_ivar_from_property() {
    let mut index = new_index();
    let source = "class User\n  property name : String\n\n  def show\n    @name\n  end\nend\n";
    update(&mut index, "/tmp/hover_ivar_prop.cr", source);
    let md = shown(&index, "/tmp/hover_ivar_prop.cr", 4, 4, source, "");
    assert!(md.contains("@name : String"), "should show type from property, got: {}", md);
}

#[test]
fn test_hover_ivar_no_type() {
    let mut index = new_index();
    let source = "class Foo\n  @data = something\n\n  def show\n    @data\n  end\nend\n";
    update(&mut index, "/tmp/hover_ivar_notype.cr", source);
    let md = shown(&index, "/tmp/hover_ivar_notype.cr", 4, 4, source, "");
    assert!(md.contains("@data"), "should show ivar name, got: {}", md);
    assert!(md.contains("Foo"), "should show class name, got: {}", md);
}

#[test]
fn test_hover_method_inferred_string() {
    let mut index = new_index();
    let source = "class Foo\n  def greet\n    \"hello\"\n  end\n\n  def run\n    greet\n  end\nend\n";
    update(&mut index, "/tmp/hover_infer.cr", source);
    let md = shown(&index, "/tmp/hover_infer.cr", 6, 4, source, "");
    assert!(md.contains("def greet"), "should show signature, got: {}", md);
    assert!(md.contains(": String"), "should show inferred String, got: {}", md);
    assert!(md.contains("*inferred"), "should mark as inferred, got: {}", md);
}

#[test]
fn test_hover_method_explicit_type_no_inferred_label() {
    let mut index = new_index();
    let source = "class Foo\n  def greet : String\n    \"hello\"\n  end\n\n  def run\n    greet\n  end\nend\n";
    update(&mut index, "/tmp/hover_explicit.cr", source);
    let md = shown(&index, "/tmp/hover_explicit.cr", 6, 4, source, "");
    assert!(md.contains("def greet : String"), "should show explicit type, got: {}", md);
    assert!(!md.contains("*inferred"), "should NOT show inferred label, got: {}", md);
}

#[test]
fn test_hover_method_inferred_constructor() {
    let mut index = new_index();
    let source = "class Factory\n  def build\n    Widget.new\n  end\n\n  def run\n    build\n  end\nend\n";
    update(&mut index, "/tmp/hover_ctor.cr", source);
    let md = shown(&index, "/tmp/hover_ctor.cr", 6, 4, source, "");
    assert!(md.contains(": Widget"), "should infer Widget, got: {}", md);
}

#[test]
fn test_find_macro_call_property() {
    let root = tree("class User\n  property name : String\nend\n");
    let result = hover::find_macro_call(&root, &locate(&root, 1, 2));
    assert!(result.is_some(), "should detect property as macro call");
    let (name, _steps) = result.unwrap();
    assert_eq!(name, "property");
}

#[test]
fn test_find_macro_call_getter() {
    let root = tree("class User\n  getter age : Int32\nend\n");
    let result = hover::find_macro_call(&root, &locate(&root, 1, 2));
    assert!(result.is_some(), "should detect getter as macro call");
    assert_eq!(result.unwrap().0, "getter");
}

#[test]
fn test_find_macro_call_not_a_macro() {
    let root = tree("class User\n  def name\n    @name\n  end\nend\n");
    let result = hover::find_macro_call(&root, &locate(&root, 1, 6));
    assert!(result.is_none(), "regular method should not be detected as macro");
}

#[test]
fn test_find_macro_call_on_argument() {
    let root = tree("class User\n  property name : String\nend\n");
    let result = hover::find_macro_call(&root, &locate(&root, 1, 11));
    assert!(result.is_some(), "should detect macro even when cursor is on argument");
    assert_eq!(result.unwrap().0, "property");
}

#[test]
fn test_try_macro_hover_fallback_without_compiler() {
    let root = tree("class User\n  property name : String\nend\n");
    let mut cache = MacroExpansionCache::new();
    let path = "/nonexistent/test.cr";
    let result = hover::try_macro_hover(&root, &locate(&root, 1, 2), path, &cache);
    let md = match result {
        Some(HoverPlan::Expand { name, path, line, col }) => {
            assert_eq!((line, col), (2, 3));
            let expansion = cache.get_or_expand(&path, line, col, None);
            hover::format_macro_hover(&name, &expansion)
        }
        other => panic!("expected an expansion, got {:?}", other),
    };
    assert!(md.contains("**Macro:** `property`"), "should show macro name, got: {}", md);
    assert!(md.contains("*Crystal compiler not available for expansion*"));
    let again = hover::try_macro_hover(&root, &locate(&root, 1, 2), path, &cache);
    assert!(matches!(again, Some(HoverPlan::Show(s)) if s == md));
}

#[test]
fn signatures_and_comments() {
    let mut index = new_index();
    let source = "#! top\n#about\ndef add(a : Int32, b : Int32)\n  1\nend\n";
    update(&mut index, "/s.cr", source);
    let add = index.find_by_name("add")[0].1;
    assert_eq!(
        hover::build_hover_content(add, source),
        "```crystal\ndef add(a : Int32, b : Int32) : Int32\n```\n\n*inferred return type: Int32*\n\n! top\nabout"
    );
    // The same symbol, in a text in which its brackets close further down.
    let long = "\n\n  def add(\n    a,\n    b)\n  rest\n";
    assert_eq!(
        hover::build_hover_content(add, long),
        "```crystal\ndef add(\n    a,\n    b) : Int32\n```\n\n*inferred return type: Int32*"
    );
    // Brackets inside the parameters close nothing but themselves.
    let nested = "\n\ndef add(\n  a : Array(Int32),\n  b : Int32)\n  rest\n";
    assert!(hover::build_hover_content(add, nested)
        .starts_with("```crystal\ndef add(\n  a : Array(Int32),\n  b : Int32) : Int32\n```"));
    let first = "\n\ndef add(a : Array(Int32),\n  b)\n  rest\n";
    assert!(hover::build_hover_content(add, first)
        .starts_with("```crystal\ndef add(a : Array(Int32),\n  b) : Int32\n```"));
    // Brackets in literals and comments are no brackets.
    for line in [
        "def add(a = \"(\")",
        "def add(a = '(')",
        "def add(a = \"\\\"(\")",
        "def add(a = \"#{f(\")\")}(\")",
        "def add(a = \"#{ {\"}\" => 1} }(\")",
        "def add(a = /[(]/)",
        "def add(a = %w[( (])",
        "def add(a = %(a (b)), b = %q<(>)",
        "def add(a = :\"(\")",
        "def add(a) # of (",
        "def %(add)",
        "def /(add)",
        "def `(add)",
        "def add(a = b / 2)",
    ] {
        let text = format!("\n\n{}\n  a)\nend\n", line);
        let wanted = format!("```crystal\n{} : Int32\n```", line);
        assert!(hover::build_hover_content(add, &text).starts_with(&wanted), "{}", line);
    }
    for lines in [
        "def add(a = \")\",\n  b)",
        "def add(a, # the first)\n  b)",
        "def add(a = ')',\n  b = %w[)],\n  c)",
    ] {
        let text = format!("\n\n{}\n  a)\nend\n", lines);
        let wanted = format!("```crystal\n{} : Int32\n```", lines);
        assert!(hover::build_hover_content(add, &text).starts_with(&wanted), "{}", lines);
    }
    assert!(hover::is_describable(add, "a\nb\n"));
    assert!(!hover::is_describable(add, "a\n"));
}

#[test]
fn annotations_are_macros() {
    let source = "JSON\n";
    let mut root = tree(source);
    root.children = vec![node(source, "annotation", true, 0, 4, vec![node(source, "constant", true, 0, 4, vec![])])];
    let (name, steps) = hover::find_macro_call(&root, &vec![0, 0]).unwrap();
    assert_eq!(name, "JSON");
    assert_eq!(steps, 1);
}

#[test]
fn hover_requests_go_by_uri_and_source() {
    let mut index = new_index();
    update(&mut index, "/a.cr", "def go\nend\n");
    let cache = MacroExpansionCache::new();
    let at = Position { line: 0, character: 0 };
    assert!(matches!(hover::handle(&index, &cache, "x:1", at, Some("go\n")), HoverPlan::Nothing));
    assert!(matches!(hover::handle(&index, &cache, "file:///a.cr", at, None), HoverPlan::Nothing));
    match hover::handle(&index, &cache, "file:///b.cr", at, Some("go\n")) {
        HoverPlan::Describe { file, symbol, local } => {
            assert_eq!(file, "/a.cr");
            assert_eq!(symbol.name, "go");
            assert!(!local);
        }
        p => panic!("expected a description, got {:?}", p),
    }
}

// ---------------------------------------------------------------------------
// Completion
// ---------------------------------------------------------------------------

fn items(index: &DocumentIndex, line: u32, character: u32, source: &str) -> Vec<CompletionItem> {
    let at = Position { line, character };
    assert!(completion::is_position_ok(source, at));
    match completion::handle(index, "file:///tmp/comp.cr", at, Some(source)) {
        Some(CompletionPlan::Items(items)) => items,
        other => panic!("expected items, got {:?}", other),
    }
}

fn labels(index: &DocumentIndex, line: u32, character: u32, source: &str) -> Vec<String> {
    items(index, line, character, source).into_iter().map(|i| i.label).collect()
}

#[test]
fn test_dot_completion_typed_receiver() {
    let mut index = new_index();
    update(&mut index, "/tmp/user.cr", "class User\n  def name\n  end\n  def email\n  end\nend\n");
    let labels = labels(&index, 1, 2, "u = User.new\nu.\n");
    assert!(labels.contains(&"name".to_string()));
    assert!(labels.contains(&"email".to_string()));
}

#[test]
fn test_dot_completion_class_receiver() {
    let mut index = new_index();
    update(&mut index, "/tmp/user.cr", "class User\n  def name\n  end\n  def email\n  end\nend\n");
    let labels = labels(&index, 0, 5, "User.\n");
    assert!(labels.contains(&"name".to_string()));
    assert!(labels.contains(&"email".to_string()));
}

#[test]
fn test_scope_completion() {
    let mut index = new_index();
    update(
        &mut index,
        "/tmp/http.cr",
        "module HTTP\n  class Client\n  end\n  VERSION = \"1.0\"\nend\n",
    );
    let labels = labels(&index, 0, 6, "HTTP::\n");
    assert!(labels.contains(&"Client".to_string()));
    assert!(labels.contains(&"VERSION".to_string()));
}

#[test]
fn test_general_completion_with_prefix() {
    let mut index = new_index();
    update(
        &mut index,
        "/tmp/types.cr",
        "class UserProfile\nend\nclass UserSession\nend\nclass Order\nend\n",
    );
    let labels = labels(&index, 0, 4, "User\n");
    assert!(labels.contains(&"UserProfile".to_string()));
    assert!(labels.contains(&"UserSession".to_string()));
    assert!(!labels.contains(&"Order".to_string()));
}

#[test]
fn test_completion_item_kinds() {
    let mut index = new_index();
    update(&mut index, "/tmp/kinds.cr", "class Foo\n  def bar\n  end\nend\nMAX = 10\n");
    let items = items(&index, 0, 0, "\n");
    let foo = items.iter().find(|i| i.label == "Foo").unwrap();
    assert_eq!(foo.kind, CompletionKind::Class);
    let bar = items.iter().find(|i| i.label == "bar").unwrap();
    assert_eq!(bar.kind, CompletionKind::Method);
    let max = items.iter().find(|i| i.label == "MAX").unwrap();
    assert_eq!(max.kind, CompletionKind::Constant);
}

#[test]
fn test_completion_detail_shows_parent() {
    let mut index = new_index();
    update(&mut index, "/tmp/parent.cr", "class Foo\n  def bar\n  end\nend\n");
    let items = items(&index, 0, 4, "Foo.\n");
    let bar = items.iter().find(|i| i.label == "bar").unwrap();
    assert_eq!(bar.detail, Some("(Foo)".to_string()));
}

fn entry(name: &str, is_dir: bool) -> DirEntry {
    DirEntry { name: name.to_string(), is_dir }
}

#[test]
fn test_require_completion() {
    let index = new_index();
    let source = "require \"./models/\n";
    let at = Position { line: 0, character: 18 };
    let listing = match completion::handle(&index, "file:///tmp/src/app.cr", at, Some(source)) {
        Some(CompletionPlan::List(l)) => l,
        other => panic!("expected a directory, got {:?}", other),
    };
    assert_eq!(listing.dir, "/tmp/src/./models");
    let entries = vec![entry("user.cr", false), entry("post.cr", false)];
    let items = completion::complete_require(&listing, &entries);
    let labels: Vec<&str> = items.iter().map(|i| i.label.as_str()).collect();
    assert!(labels.contains(&"user"));
    assert!(labels.contains(&"post"));
    assert_eq!(labels, vec!["post", "user"]);
    assert_eq!(items[1].insert_text.as_deref(), Some("./models/user"));
    assert_eq!(items[1].kind, CompletionKind::File);
}

#[test]
fn completions_are_not_repeated() {
    let mut index = new_index();
    update(&mut index, "/a.cr", "class Go\n  def go\n  end\nend\ndef go\nend\nmacro go\nend\n");
    assert_eq!(labels(&index, 0, 2, "x.\n"), vec!["go"]);
    let general: Vec<(String, CompletionKind)> =
        items(&index, 0, 2, "go\n").into_iter().map(|i| (i.label, i.kind)).collect();
    assert_eq!(
        general,
        vec![
            ("go".to_string(), CompletionKind::Method),
            ("go".to_string(), CompletionKind::Keyword),
        ]
    );
}

#[test]
fn at_most_a_hundred_completions() {
    let mut index = new_index();
    let mut source = String::new();
    for i in 0..150 {
        source.push_str(&format!("class C{}\nend\n", i));
    }
    update(&mut index, "/many.cr", &source);
    assert_eq!(labels(&index, 0, 1, "C\n").len(), 100);
}

#[test]
fn no_completion_without_a_document() {
    let index = new_index();
    let at = |line: u32, character: u32| Position { line, character };
    assert!(completion::handle(&index, "x:1", at(0, 0), Some("a\n")).is_none());
    assert!(completion::handle(&index, "file:///a.cr", at(0, 0), None).is_none());
    assert!(completion::handle(&index, "file:///a.cr", at(1, 0), Some("a\n")).is_none());
    assert!(completion::handle(&index, "file:///a.cr", at(0, 9), Some("a\n")).is_some());
    assert!(!completion::is_position_ok("é\n", at(0, 1)));
    assert!(completion::is_position_ok("é\n", at(0, 2)));
}

// ---------------------------------------------------------------------------
// Symbols
// ---------------------------------------------------------------------------

#[test]
fn test_document_symbols_nested_hierarchy() {
    let mut index = new_index();
    let source = "module App\n  class Server\n    def start\n    end\n    def stop\n    end\n  end\nend\n";
    update(&mut index, "/tmp/ds.cr", source);
    assert!(symbols::has_outline(&index, "file:///tmp/ds.cr"));
    let roots = symbols::handle_document_symbols(&index, "file:///tmp/ds.cr").unwrap();
    assert_eq!(roots.len(), 1);
    let app = &roots[0];
    assert_eq!(app.name, "App");
    assert_eq!(app.kind, OutlineKind::Module);
    let server = app.children.iter().find(|c| c.name == "Server").unwrap();
    assert_eq!(server.kind, OutlineKind::Class);
    let method_names: Vec<&str> = server.children.iter().map(|c| c.name.as_str()).collect();
    assert!(method_names.contains(&"start"));
    assert!(method_names.contains(&"stop"));
}

#[test]
fn test_document_symbols_kinds() {
    let mut index = new_index();
    let source = "class Foo\nend\nenum Color\nend\nMAX = 10\nalias Name = String\n";
    update(&mut index, "/tmp/kinds.cr", source);
    let roots = symbols::handle_document_symbols(&index, "file:///tmp/kinds.cr").unwrap();
    let foo = roots.iter().find(|s| s.name == "Foo").unwrap();
    assert_eq!(foo.kind, OutlineKind::Class);
    let color = roots.iter().find(|s| s.name == "Color").unwrap();
    assert_eq!(color.kind, OutlineKind::Enum);
    let max = roots.iter().find(|s| s.name == "MAX").unwrap();
    assert_eq!(max.kind, OutlineKind::Constant);
    let name = roots.iter().find(|s| s.name == "Name").unwrap();
    assert_eq!(name.kind, OutlineKind::TypeParameter);
}

#[test]
fn test_document_symbols_range() {
    let mut index = new_index();
    let source = "class Foo\n  def bar\n  end\nend\n";
    update(&mut index, "/tmp/range.cr", source);
    let roots = symbols::handle_document_symbols(&index, "file:///tmp/range.cr").unwrap();
    let foo = &roots[0];
    assert_eq!(foo.range.start.line, 0);
    assert_eq!(foo.range.end.line, 3);
    assert_eq!(foo.selection_range.start.line, 0);
    assert_eq!(foo.selection_range.start.character, 6); // "class Foo" → col 6
}

#[test]
fn a_class_inside_its_own_name_has_no_outline() {
    let mut index = new_index();
    update(&mut index, "/a.cr", "class Foo\n  class Foo\n  end\nend\n");
    assert!(!symbols::has_outline(&index, "file:///a.cr"));
    assert!(symbols::has_outline(&index, "file:///none.cr"));
    assert!(symbols::handle_document_symbols(&index, "file:///none.cr").is_none());
}

#[test]
fn test_workspace_symbols_prefix() {
    let mut index = new_index();
    update(&mut index, "/tmp/ws.cr", "class FooClient\nend\nclass BarService\nend\n");
    let results = symbols::handle_workspace_symbols(&index, "Foo");
    assert_eq!(results.len(), 1);
    assert_eq!(results[0].name, "FooClient");
}

#[test]
fn test_workspace_symbols_fuzzy() {
    let mut index = new_index();
    update(&mut index, "/tmp/fz.cr", "class FooBar\nend\nclass FooBaz\nend\nclass Quux\nend\n");
    let results = symbols::handle_workspace_symbols(&index, "FoB");
    let names: Vec<&str> = results.iter().map(|r| r.name.as_str()).collect();
    assert!(names.contains(&"FooBar"));
    assert!(names.contains(&"FooBaz"));
    assert!(!names.contains(&"Quux"));
}

#[test]
fn test_workspace_symbols_empty_query() {
    let mut index = new_index();
    update(&mut index, "/tmp/all.cr", "class A\nend\ndef b\nend\n");
    let results = symbols::handle_workspace_symbols(&index, "");
    assert!(results.len() >= 2);
}

#[test]
fn test_workspace_symbols_container_name() {
    let mut index = new_index();
    update(&mut index, "/tmp/cn.cr", "class Foo\n  def bar\n  end\nend\n");
    let results = symbols::handle_workspace_symbols(&index, "bar");
    assert_eq!(results.len(), 1);
    assert_eq!(results[0].container_name, Some("Foo".to_string()));
    assert_eq!(results[0].uri, "file:///tmp/cn.cr");
}

#[test]
fn test_workspace_symbols_limit() {
    let mut index = new_index();
    let mut source = String::new();
    for i in 0..150 {
        source.push_str(&format!("class C{}\nend\n", i));
    }
    update(&mut index, "/tmp/many.cr", &source);
    let results = symbols::handle_workspace_symbols(&index, "C");
    assert!(results.len() <= symbols::MAX_WORKSPACE_RESULTS);
    assert_eq!(results.len(), 100);
}

#[test]
fn fields_are_not_searched() {
    let mut index = new_index();
    update(&mut index, "/f.cr", "class Foo\n  @foo = 1\nend\n");
    assert_eq!(symbols::handle_workspace_symbols(&index, "foo").len(), 1);
}

// ---------------------------------------------------------------------------
// Analyzer
// ---------------------------------------------------------------------------

fn analyze(source: &str) -> std::collections::HashMap<String, String> {
    let mut analyzer = Analyzer::new();
    analyzer.analyze(&tree(source));
    analyzer.completions().into_iter().collect()
}

#[test]
fn test_literal_inference() {
    let source = r#"
            a = 1
            b = "hello"
            c = true
            d = :symbol
            e = [1, 2, 3]
            f = {"key" => 1.5}
            g = {1, "a"}
        "#;
    let map = analyze(source);
    assert_eq!(map.get("a").unwrap(), "Int32");
    assert_eq!(map.get("b").unwrap(), "String");
    assert_eq!(map.get("c").unwrap(), "Bool");
    assert_eq!(map.get("d").unwrap(), "Symbol");
    assert_eq!(map.get("e").unwrap(), "Array(Int32)");
    assert_eq!(map.get("f").unwrap(), "Hash(String, Float64)");
    assert_eq!(map.get("g").unwrap(), "{Int32, String}");
}

#[test]
fn test_variable_reassignment() {
    let source = r#"
            a = 1
            a = "string"
            b = a
        "#;
    let map = analyze(source);
    assert_eq!(map.get("a").unwrap(), "String");
    assert_eq!(map.get("b").unwrap(), "String");
}

#[test]
fn test_scope_inference() {
    let source = r#"
            a = 1
            def method
              a = "inner"
            end
            c = a
        "#;
    let map = analyze(source);
    assert_eq!(map.get("a").unwrap(), "Int32");
    assert_eq!(map.get("c").unwrap(), "Int32");
}

#[test]
fn completions_are_in_order_and_conversions_are_known() {
    let mut analyzer = Analyzer::new();
    analyzer.analyze(&tree("z = to_s(1)\nb = nil\na = []\nu = other\n"));
    let found: Vec<(String, String)> = analyzer.completions();
    let pairs: Vec<(&str, &str)> = found.iter().map(|(n, t)| (n.as_str(), t.as_str())).collect();
    assert_eq!(pairs, vec![("a", "Array(Unknown)"), ("b", "Nil"), ("z", "String")]);
}

// ---------------------------------------------------------------------------
// Copies
// ---------------------------------------------------------------------------

#[test]
fn copies_keep_every_field() {
    let symbol = Symbol {
        name: "name".to_string(),
        kind: SymbolKind::Method,
        byte_range: 1..5,
        start_line: 2,
        start_col: 3,
        end_line: 4,
        end_col: 5,
        def_start_line: 6,
        def_start_col: 7,
        def_end_line: 8,
        def_end_col: 9,
        parent: Some("User".to_string()),
        return_type: None,
    };
    assert_eq!(format!("{:?}", symbol.clone()), format!("{:?}", symbol));

    let info = ClassInfo {
        superclass: Some("Base".to_string()),
        includes: vec!["A".to_string(), "B".to_string()],
        extends: vec!["C".to_string()],
    };
    assert_eq!(format!("{:?}", info.clone()), format!("{:?}", info));
    let empty = ClassInfo::default();
    assert!(empty.superclass.is_none() && empty.includes.is_empty() && empty.extends.is_empty());

    let variable = InstanceVariable {
        name: "@name".to_string(),
        var_type: Some("String".to_string()),
        class_name: "User".to_string(),
        line: 1,
        col: 2,
    };
    assert_eq!(format!("{:?}", variable.clone()), format!("{:?}", variable));

    let mut members = TypeMap::new();
    members.insert(
        "n",
        CrystalType::Hash(Box::new(CrystalType::Symbol), Box::new(CrystalType::Nil)),
    );
    let ty = CrystalType::Tuple(vec![
        CrystalType::Array(Box::new(CrystalType::Int32)),
        CrystalType::NamedTuple(members),
        CrystalType::Custom("User".to_string()),
    ]);
    assert_eq!(ty.clone(), ty);
    assert_ne!(ty.clone(), CrystalType::Unknown);
}

#[test]
fn named_tuples_go_by_their_members() {
    let named = |members: &[(&str, CrystalType)]| {
        let mut m = TypeMap::new();
        for (name, t) in members {
            m.insert(name, t.clone());
        }
        m
    };
    let a = named(&[("x", CrystalType::Int32), ("y", CrystalType::String), ("b", CrystalType::Nil)]);
    let b = named(&[("b", CrystalType::Nil), ("y", CrystalType::String), ("x", CrystalType::Int32)]);
    assert_eq!(a, b);
    assert_eq!(CrystalType::NamedTuple(a.clone()), CrystalType::NamedTuple(b.clone()));
    assert_eq!(CrystalType::NamedTuple(b).to_string(), "{b: Nil, x: Int32, y: String}");

    let mut c = a.clone();
    c.insert("x", CrystalType::Bool);
    assert_ne!(a, c);
    assert_eq!(c.get("x"), Some(&CrystalType::Bool));
    assert_eq!(c.get("y"), Some(&CrystalType::String));
    assert_eq!(c.get("z"), None);
    c.insert("x", CrystalType::Int32);
    assert_eq!(a, c);
    assert_ne!(a, named(&[("x", CrystalType::Int32), ("y", CrystalType::String)]));

    // The members are written in the order of their texts.
    let d = named(&[("a", CrystalType::Nil), ("a!", CrystalType::Bool)]);
    assert_eq!(CrystalType::NamedTuple(d).to_string(), "{a!: Bool, a: Nil}");
}

#[test]
fn types_are_compared_by_their_parts() {
    let array = |t: CrystalType| CrystalType::Array(Box::new(t));
    let hash = |k: CrystalType, v: CrystalType| CrystalType::Hash(Box::new(k), Box::new(v));
    let custom = |s: &str| CrystalType::Custom(s.to_string());
    assert_eq!(array(CrystalType::Int32), array(CrystalType::Int32));
    assert_ne!(array(CrystalType::Int32), array(CrystalType::Char));
    assert_eq!(hash(CrystalType::Nil, custom("A")), hash(CrystalType::Nil, custom("A")));
    assert_ne!(hash(CrystalType::Nil, custom("A")), hash(CrystalType::Nil, custom("B")));
    let tuple = |ts: Vec<CrystalType>| CrystalType::Tuple(ts);
    assert_eq!(tuple(vec![]), tuple(vec![]));
    assert_ne!(tuple(vec![CrystalType::Nil]), tuple(vec![]));
    assert_ne!(
        tuple(vec![CrystalType::Nil, CrystalType::Bool]),
        tuple(vec![CrystalType::Bool, CrystalType::Nil])
    );
    assert_ne!(CrystalType::Nil, CrystalType::Unknown);
    assert_ne!(CrystalType::String, custom("String"));
}
