//! What a syntax tree says about the definitions in a file.

use std::ops::Range;
use vstd::prelude::*;

use crate::syntax::{
    captures_within, child_by_field, field_of, field_text, first_named, first_named_child, is_kind,
    last_named, last_named_child, lemma_model, match_views, node_at, preorder,
    preorder_below, subtree, text_of, text_of_field, valid_path, Capture, SynTree, SyntaxNode,
};
use crate::text::{
    chars_of, copy, copy_held, copy_opt, copy_texts, drop_leading, drop_trailing, is_text,
    is_uppercase, opt_text,
    push_chars, same, starts_with_text, texts, uppercase, without_leading, without_trailing,
};

verus! {

// ---------------------------------------------------------------------------
// Symbols, classes and instance variables
// ---------------------------------------------------------------------------

/// What a definition defines.
#[derive(Debug, Clone, Copy, PartialEq, Eq, Hash, Structural)]
pub enum SymbolKind {
    Class,
    Module,
    Struct,
    Enum,
    Lib,
    Method,
    Macro,
    Function,
    Constant,
    Type,
    Field,
}

/// The kind that the capture name `@definition.<kind>` stands for.
pub open spec fn kind_of_tag(tag: Seq<char>) -> Option<SymbolKind> {
    if tag == "definition.class"@ {
        Some(SymbolKind::Class)
    } else if tag == "definition.module"@ {
        Some(SymbolKind::Module)
    } else if tag == "definition.struct"@ {
        Some(SymbolKind::Struct)
    } else if tag == "definition.enum"@ {
        Some(SymbolKind::Enum)
    } else if tag == "definition.lib"@ {
        Some(SymbolKind::Lib)
    } else if tag == "definition.method"@ {
        Some(SymbolKind::Method)
    } else if tag == "definition.macro"@ {
        Some(SymbolKind::Macro)
    } else if tag == "definition.function"@ {
        Some(SymbolKind::Function)
    } else if tag == "definition.constant"@ {
        Some(SymbolKind::Constant)
    } else if tag == "definition.type"@ {
        Some(SymbolKind::Type)
    } else if tag == "definition.field"@ {
        Some(SymbolKind::Field)
    } else {
        None
    }
}

impl SymbolKind {
    /// Maps a `@definition.<kind>` capture name to a kind.
    pub fn from_tag(tag: &str) -> (r: Option<Self>)
        ensures
            r == kind_of_tag(tag@),
    {
        if same(tag, "definition.class") {
            Some(SymbolKind::Class)
        } else if same(tag, "definition.module") {
            Some(SymbolKind::Module)
        } else if same(tag, "definition.struct") {
            Some(SymbolKind::Struct)
        } else if same(tag, "definition.enum") {
            Some(SymbolKind::Enum)
        } else if same(tag, "definition.lib") {
            Some(SymbolKind::Lib)
        } else if same(tag, "definition.method") {
            Some(SymbolKind::Method)
        } else if same(tag, "definition.macro") {
            Some(SymbolKind::Macro)
        } else if same(tag, "definition.function") {
            Some(SymbolKind::Function)
        } else if same(tag, "definition.constant") {
            Some(SymbolKind::Constant)
        } else if same(tag, "definition.type") {
            Some(SymbolKind::Type)
        } else if same(tag, "definition.field") {
            Some(SymbolKind::Field)
        } else {
            None
        }
    }
}

/// A definition in a file.
#[derive(Debug)]
pub struct Symbol {
    pub name: String,
    pub kind: SymbolKind,
    /// The bytes of the name.
    pub byte_range: Range<usize>,
    /// Where the name starts and ends.
    pub start_line: usize,
    pub start_col: usize,
    pub end_line: usize,
    pub end_col: usize,
    /// Where the whole definition starts and ends.
    pub def_start_line: usize,
    pub def_start_col: usize,
    pub def_end_line: usize,
    pub def_end_col: usize,
    /// The name of the enclosing class, module, struct, enum or lib.
    pub parent: Option<String>,
    /// The type of the value that a method's body ends with, where it can be told.
    pub return_type: Option<String>,
}

impl Clone for Symbol {
    fn clone(&self) -> (r: Self)
        ensures
            r@ == self@,
    {
        Symbol {
            name: copy(&self.name),
            kind: self.kind,
            byte_range: Range { start: self.byte_range.start, end: self.byte_range.end },
            start_line: self.start_line,
            start_col: self.start_col,
            end_line: self.end_line,
            end_col: self.end_col,
            def_start_line: self.def_start_line,
            def_start_col: self.def_start_col,
            def_end_line: self.def_end_line,
            def_end_col: self.def_end_col,
            parent: copy_held(&self.parent),
            return_type: copy_held(&self.return_type),
        }
    }
}

/// The model of a [`Symbol`].
#[verifier::ext_equal]
pub struct Sym {
    pub name: Seq<char>,
    pub kind: SymbolKind,
    pub byte_range: Range<usize>,
    pub start_line: usize,
    pub start_col: usize,
    pub end_line: usize,
    pub end_col: usize,
    pub def_start_line: usize,
    pub def_start_col: usize,
    pub def_end_line: usize,
    pub def_end_col: usize,
    pub parent: Option<Seq<char>>,
    pub return_type: Option<Seq<char>>,
}

impl View for Symbol {
    type V = Sym;

    open spec fn view(&self) -> Sym {
        Sym {
            name: self.name@,
            kind: self.kind,
            byte_range: self.byte_range,
            start_line: self.start_line,
            start_col: self.start_col,
            end_line: self.end_line,
            end_col: self.end_col,
            def_start_line: self.def_start_line,
            def_start_col: self.def_start_col,
            def_end_line: self.def_end_line,
            def_end_col: self.def_end_col,
            parent: opt_text(self.parent),
            return_type: opt_text(self.return_type),
        }
    }
}

/// The models of several symbols.
pub open spec fn symbol_views(s: Seq<Symbol>) -> Seq<Sym> {
    Seq::new(s.len(), |i: int| s[i]@)
}

/// The place of one class, struct or module in the class hierarchy.
#[derive(Debug)]
pub struct ClassInfo {
    pub superclass: Option<String>,
    pub includes: Vec<String>,
    pub extends: Vec<String>,
}

impl Clone for ClassInfo {
    fn clone(&self) -> (r: Self)
        ensures
            r@ == self@,
    {
        ClassInfo {
            superclass: copy_held(&self.superclass),
            includes: copy_texts(&self.includes),
            extends: copy_texts(&self.extends),
        }
    }
}

impl Default for ClassInfo {
    fn default() -> (r: Self)
        ensures
            r@ == (ClassModel {
                superclass: None,
                includes: Seq::empty(),
                extends: Seq::empty(),
            }),
    {
        let r = ClassInfo { superclass: None, includes: Vec::new(), extends: Vec::new() };
        assert(r@.includes =~= Seq::empty());
        assert(r@.extends =~= Seq::empty());
        r
    }
}

/// The model of a [`ClassInfo`].
#[verifier::ext_equal]
pub struct ClassModel {
    pub superclass: Option<Seq<char>>,
    pub includes: Seq<Seq<char>>,
    pub extends: Seq<Seq<char>>,
}

impl View for ClassInfo {
    type V = ClassModel;

    open spec fn view(&self) -> ClassModel {
        ClassModel {
            superclass: opt_text(self.superclass),
            includes: texts(self.includes@),
            extends: texts(self.extends@),
        }
    }
}

/// An instance variable of a class, with its type where that is known.
#[derive(Debug)]
pub struct InstanceVariable {
    pub name: String,
    pub var_type: Option<String>,
    pub class_name: String,
    pub line: usize,
    pub col: usize,
}

impl Clone for InstanceVariable {
    fn clone(&self) -> (r: Self)
        ensures
            r@ == self@,
    {
        InstanceVariable {
            name: copy(&self.name),
            var_type: copy_held(&self.var_type),
            class_name: copy(&self.class_name),
            line: self.line,
            col: self.col,
        }
    }
}

/// The model of an [`InstanceVariable`].
#[verifier::ext_equal]
pub struct Ivar {
    pub name: Seq<char>,
    pub var_type: Option<Seq<char>>,
    pub class_name: Seq<char>,
    pub line: usize,
    pub col: usize,
}

impl View for InstanceVariable {
    type V = Ivar;

    open spec fn view(&self) -> Ivar {
        Ivar {
            name: self.name@,
            var_type: opt_text(self.var_type),
            class_name: self.class_name@,
            line: self.line,
            col: self.col,
        }
    }
}

/// The models of several instance variables.
pub open spec fn ivar_views(s: Seq<InstanceVariable>) -> Seq<Ivar> {
    Seq::new(s.len(), |i: int| s[i]@)
}

// ---------------------------------------------------------------------------
// Types of values
// ---------------------------------------------------------------------------

/// The type of the value that the expression `t` gives, as far as its form shows it: that of a
/// literal, or the class on which `new` is called.
pub open spec fn value_type(t: SynTree) -> Option<Seq<char>> {
    if t.kind == "call"@ {
        constructed_type(t)
    } else if t.kind == "string"@ {
        Some("String"@)
    } else if t.kind == "integer"@ {
        Some("Int32"@)
    } else if t.kind == "float"@ {
        Some("Float64"@)
    } else if t.kind == "true"@ || t.kind == "false"@ {
        Some("Bool"@)
    } else if t.kind == "array"@ {
        Some("Array"@)
    } else if t.kind == "hash"@ {
        Some("Hash"@)
    } else if t.kind == "nil"@ {
        Some("Nil"@)
    } else {
        None
    }
}

/// Whether `s` starts with an upper case letter.
pub open spec fn capitalized(s: Seq<char>) -> bool {
    s.len() > 0 && uppercase(s[0])
}

/// The class on which the call `t` calls `new`.
pub open spec fn constructed_type(t: SynTree) -> Option<Seq<char>> {
    if field_text(t, "method"@) == Some("new"@) {
        match field_text(t, "receiver"@) {
            Some(name) => if capitalized(name) {
                Some(name)
            } else {
                None
            },
            None => None,
        }
    } else {
        None
    }
}

/// Whether a text starts with an upper case letter.
pub fn is_capitalized(s: &str) -> (r: bool)
    ensures
        r == capitalized(s@),
{
    let c = chars_of(s);
    c.len() > 0 && is_uppercase(c[0])
}

/// Finds the class on which a call calls `new`.
pub fn constructor_of(call: &SyntaxNode) -> (r: Option<String>)
    ensures
        opt_text(r) == constructed_type(call@),
{
    match text_of_field(call, "method") {
        Some(method) => if same(method, "new") {
            match text_of_field(call, "receiver") {
                Some(name) => if is_capitalized(name) {
                    Some(copy(name))
                } else {
                    None
                },
                None => None,
            }
        } else {
            None
        },
        None => None,
    }
}

/// Infers a type from the right side of an assignment.
pub fn infer_type_from_rhs(rhs: &SyntaxNode) -> (r: Option<String>)
    ensures
        opt_text(r) == value_type(rhs@),
{
    if is_kind(rhs, "call") {
        constructor_of(rhs)
    } else if is_kind(rhs, "string") {
        Some(copy("String"))
    } else if is_kind(rhs, "integer") {
        Some(copy("Int32"))
    } else if is_kind(rhs, "float") {
        Some(copy("Float64"))
    } else if is_kind(rhs, "true") || is_kind(rhs, "false") {
        Some(copy("Bool"))
    } else if is_kind(rhs, "array") {
        Some(copy("Array"))
    } else if is_kind(rhs, "hash") {
        Some(copy("Hash"))
    } else if is_kind(rhs, "nil") {
        Some(copy("Nil"))
    } else {
        None
    }
}

/// The type of the value that the body of the method definition `t` ends with.
pub open spec fn body_type(t: SynTree) -> Option<Seq<char>> {
    match field_of(t, "body"@) {
        Some(body) => match last_named(body) {
            Some(last) => value_type(last),
            None => None,
        },
        None => None,
    }
}

/// Infers the return type of a method from the last expression of its body.
pub fn infer_return_type(def: &SyntaxNode) -> (r: Option<String>)
    ensures
        opt_text(r) == body_type(def@),
{
    match child_by_field(def, "body") {
        Some(body) => match last_named_child(body) {
            Some(last) => infer_type_from_rhs(last),
            None => None,
        },
        None => None,
    }
}

// ---------------------------------------------------------------------------
// Symbols
// ---------------------------------------------------------------------------

/// Whether nodes of this kind enclose the definitions inside them.
pub open spec fn scope_kind(kind: Seq<char>) -> bool {
    kind == "class_def"@ || kind == "module_def"@ || kind == "struct_def"@ || kind == "enum_def"@
        || kind == "lib_def"@
}

/// The name of the nearest scope above the node at `path` that has a name.
pub open spec fn parent_scope(t: SynTree, path: Seq<usize>) -> Option<Seq<char>>
    decreases path.len(),
{
    if path.len() == 0 {
        None
    } else {
        let above = path.drop_last();
        let n = subtree(t, above);
        if scope_kind(n.kind) && field_of(n, "name"@) is Some {
            field_text(n, "name"@)
        } else {
            parent_scope(t, above)
        }
    }
}

fn is_scope(n: &SyntaxNode) -> (r: bool)
    ensures
        r == scope_kind(n@.kind),
{
    is_kind(n, "class_def") || is_kind(n, "module_def") || is_kind(n, "struct_def") || is_kind(
        n,
        "enum_def",
    ) || is_kind(n, "lib_def")
}

/// Walks up from the node at `path` to the nearest enclosing scope and gives its name.
pub fn find_parent_scope(root: &SyntaxNode, path: &Vec<usize>) -> (r: Option<String>)
    requires
        valid_path(root@, path@),
    ensures
        opt_text(r) == parent_scope(root@, path@),
{
    let mut n: usize = path.len();
    assert(path@.take(n as int) =~= path@);
    while n > 0
        invariant
            n <= path@.len(),
            valid_path(root@, path@),
            parent_scope(root@, path@) == parent_scope(root@, path@.take(n as int)),
        decreases n,
    {
        assert(path@.take(n as int).drop_last() =~= path@.take(n - 1));
        n = n - 1;
        let above = node_at(root, path, n);
        if is_scope(above) {
            if let Some(name) = child_by_field(above, "name") {
                return copy_opt(text_of(name));
            }
        }
    }
    None
}

/// The first capture of `m` from `i` on whose name starts with `definition.`.
pub open spec fn definition_capture(m: Seq<(Seq<char>, Seq<usize>)>, i: int) -> Option<int>
    decreases m.len() - i,
{
    if i < 0 || i >= m.len() {
        None
    } else if "definition."@.is_prefix_of(m[i].0) {
        Some(i)
    } else {
        definition_capture(m, i + 1)
    }
}

/// The first capture of `m` from `i` on that is called `name`.
pub open spec fn name_capture(m: Seq<(Seq<char>, Seq<usize>)>, i: int) -> Option<int>
    decreases m.len() - i,
{
    if i < 0 || i >= m.len() {
        None
    } else if m[i].0 == "name"@ {
        Some(i)
    } else {
        name_capture(m, i + 1)
    }
}

/// The symbol that a definition makes: `name_path` leads to its name, `def_path` to the whole of it.
pub open spec fn symbol_at(
    t: SynTree,
    kind: SymbolKind,
    name: Seq<char>,
    name_path: Seq<usize>,
    def_path: Seq<usize>,
) -> Sym {
    let n = subtree(t, name_path);
    let d = subtree(t, def_path);
    Sym {
        name,
        kind,
        byte_range: Range { start: n.start_byte, end: n.end_byte },
        start_line: n.start.row,
        start_col: n.start.column,
        end_line: n.end.row,
        end_col: n.end.column,
        def_start_line: d.start.row,
        def_start_col: d.start.column,
        def_end_line: d.end.row,
        def_end_col: d.end.column,
        parent: parent_scope(t, def_path),
        return_type: if kind == SymbolKind::Method {
            body_type(d)
        } else {
            None
        },
    }
}

/// The symbol that the match `m` of the tags query in `t` defines. A match without a definition of
/// a known kind or without a name that can be read defines nothing.
pub open spec fn match_symbol(t: SynTree, m: Seq<(Seq<char>, Seq<usize>)>) -> Option<Sym> {
    match definition_capture(m, 0) {
        Some(d) => match kind_of_tag(m[d].0) {
            Some(kind) => match name_capture(m, 0) {
                Some(n) => match subtree(t, m[n].1).text {
                    Some(name) => Some(symbol_at(t, kind, name, m[n].1, m[d].1)),
                    None => None,
                },
                None => None,
            },
            None => None,
        },
        None => None,
    }
}

/// The symbols that the matches `ms` of the tags query in `t` define.
pub open spec fn match_symbols(t: SynTree, ms: Seq<Seq<(Seq<char>, Seq<usize>)>>) -> Seq<Sym>
    decreases ms.len(),
{
    if ms.len() == 0 {
        Seq::empty()
    } else {
        let before = match_symbols(t, ms.drop_last());
        match match_symbol(t, ms.last()) {
            Some(s) => before.push(s),
            None => before,
        }
    }
}

fn find_definition_capture(m: &Vec<Capture>) -> (r: Option<usize>)
    ensures
        match r {
            Some(i) => i < m@.len() && definition_capture(crate::syntax::capture_views(m@), 0)
                == Some(i as int),
            None => definition_capture(crate::syntax::capture_views(m@), 0) is None,
        },
{
    let ghost v = crate::syntax::capture_views(m@);
    let mut i: usize = 0;
    while i < m.len()
        invariant
            i <= m@.len(),
            v == crate::syntax::capture_views(m@),
            definition_capture(v, 0) == definition_capture(v, i as int),
        decreases m@.len() - i,
    {
        assert(v[i as int].0 == m@[i as int].name@);
        if starts_with_text(&chars_of(&m[i].name), "definition.") {
            return Some(i);
        }
        i = i + 1;
    }
    None
}

fn find_name_capture(m: &Vec<Capture>) -> (r: Option<usize>)
    ensures
        match r {
            Some(i) => i < m@.len() && name_capture(crate::syntax::capture_views(m@), 0) == Some(
                i as int,
            ),
            None => name_capture(crate::syntax::capture_views(m@), 0) is None,
        },
{
    let ghost v = crate::syntax::capture_views(m@);
    let mut i: usize = 0;
    while i < m.len()
        invariant
            i <= m@.len(),
            v == crate::syntax::capture_views(m@),
            name_capture(v, 0) == name_capture(v, i as int),
        decreases m@.len() - i,
    {
        assert(v[i as int].0 == m@[i as int].name@);
        if same(&m[i].name, "name") {
            return Some(i);
        }
        i = i + 1;
    }
    None
}

/// The model of an optional symbol.
pub open spec fn opt_sym(s: Option<Symbol>) -> Option<Sym> {
    match s {
        Some(s) => Some(s@),
        None => None,
    }
}

/// Reads the symbol that one match of the tags query defines.
pub fn symbol_of_match(root: &SyntaxNode, m: &Vec<Capture>) -> (r: Option<Symbol>)
    requires
        forall|j: int| 0 <= j < m@.len() ==> valid_path(root@, (#[trigger] m@[j]).path@),
    ensures
        opt_sym(r) == match_symbol(root@, crate::syntax::capture_views(m@)),
{
    let ghost v = crate::syntax::capture_views(m@);
    let d: usize = match find_definition_capture(m) {
        Some(d) => d,
        None => { return None; },
    };
    assert(v[d as int] == m@[d as int]@);
    let kind = match SymbolKind::from_tag(&m[d].name) {
        Some(k) => k,
        None => { return None; },
    };
    let n: usize = match find_name_capture(m) {
        Some(n) => n,
        None => { return None; },
    };
    assert(v[n as int] == m@[n as int]@);
    let name_path = &m[n].path;
    let def_path = &m[d].path;
    assert(valid_path(root@, m@[n as int].path@));
    assert(valid_path(root@, m@[d as int].path@));
    assert(name_path@.take(name_path@.len() as int) =~= name_path@);
    assert(def_path@.take(def_path@.len() as int) =~= def_path@);
    let node = node_at(root, name_path, name_path.len());
    let def = node_at(root, def_path, def_path.len());
    let name = match text_of(node) {
        Some(t) => copy(t),
        None => { return None; },
    };
    proof {
        lemma_model(*node);
        lemma_model(*def);
    }
    let return_type = if kind == SymbolKind::Method {
        infer_return_type(def)
    } else {
        None
    };
    Some(
        Symbol {
            name,
            kind,
            byte_range: Range { start: node.start_byte, end: node.end_byte },
            start_line: node.start.row,
            start_col: node.start.column,
            end_line: node.end.row,
            end_col: node.end.column,
            def_start_line: def.start.row,
            def_start_col: def.start.column,
            def_end_line: def.end.row,
            def_end_col: def.end.column,
            parent: find_parent_scope(root, def_path),
            return_type,
        },
    )
}

/// Reads the symbols that the matches of the tags query define.
pub fn extract_symbols(root: &SyntaxNode, matches: &Vec<Vec<Capture>>) -> (r: Vec<Symbol>)
    requires
        captures_within(root@, match_views(matches@)),
    ensures
        symbol_views(r@) == match_symbols(root@, match_views(matches@)),
{
    let ghost ms = match_views(matches@);
    let mut out: Vec<Symbol> = Vec::new();
    let mut i: usize = 0;
    assert(ms.take(0) =~= Seq::empty());
    assert(symbol_views(out@) =~= Seq::empty());
    while i < matches.len()
        invariant
            i <= matches@.len(),
            ms == match_views(matches@),
            captures_within(root@, ms),
            symbol_views(out@) == match_symbols(root@, ms.take(i as int)),
        decreases matches@.len() - i,
    {
        let ghost before = symbol_views(out@);
        let m = &matches[i];
        assert(ms[i as int] == crate::syntax::capture_views(m@));
        assert forall|j: int| 0 <= j < m@.len() implies valid_path(
            root@,
            (#[trigger] m@[j]).path@,
        ) by {
            assert(ms[i as int][j] == m@[j]@);
        }
        assert(ms.take(i + 1).drop_last() =~= ms.take(i as int));
        if let Some(s) = symbol_of_match(root, m) {
            out.push(s);
            assert(symbol_views(out@) =~= before.push(s@));
        }
        i = i + 1;
    }
    assert(ms.take(i as int) =~= ms);
    out
}

// ---------------------------------------------------------------------------
// Class hierarchy
// ---------------------------------------------------------------------------

/// The modules that the statements of the kind `kind` among `statements` name.
pub open spec fn mixed_in(statements: Seq<SynTree>, kind: Seq<char>) -> Seq<Seq<char>>
    decreases statements.len(),
{
    if statements.len() == 0 {
        Seq::empty()
    } else {
        let before = mixed_in(statements.drop_last(), kind);
        let s = statements.last();
        if s.kind == kind && first_named(s) is Some && first_named(s)->0.text is Some {
            before.push(first_named(s)->0.text->0)
        } else {
            before
        }
    }
}

/// The class, struct or module that the node `t` defines, with its place in the hierarchy.
pub open spec fn class_entry(t: SynTree) -> Option<(Seq<char>, ClassModel)> {
    if t.kind == "class_def"@ || t.kind == "struct_def"@ || t.kind == "module_def"@ {
        match field_text(t, "name"@) {
            Some(name) => {
                let statements = match field_of(t, "body"@) {
                    Some(body) => body.children,
                    None => Seq::empty(),
                };
                Some(
                    (
                        name,
                        ClassModel {
                            superclass: if t.kind == "module_def"@ {
                                None
                            } else {
                                field_text(t, "superclass"@)
                            },
                            includes: mixed_in(statements, "include"@),
                            extends: mixed_in(statements, "extend"@),
                        },
                    ),
                )
            },
            None => None,
        }
    } else {
        None
    }
}

/// The classes, structs and modules that the nodes define.
pub open spec fn class_entries(nodes: Seq<SynTree>) -> Seq<(Seq<char>, ClassModel)>
    decreases nodes.len(),
{
    if nodes.len() == 0 {
        Seq::empty()
    } else {
        let before = class_entries(nodes.drop_last());
        match class_entry(nodes.last()) {
            Some(e) => before.push(e),
            None => before,
        }
    }
}

proof fn lemma_class_entries_add(a: Seq<SynTree>, b: Seq<SynTree>)
    ensures
        class_entries(a + b) == class_entries(a) + class_entries(b),
    decreases b.len(),
{
    if b.len() == 0 {
        assert(a + b =~= a);
        assert(class_entries(a) + class_entries(b) =~= class_entries(a));
    } else {
        lemma_class_entries_add(a, b.drop_last());
        assert((a + b).drop_last() =~= a + b.drop_last());
        assert(class_entries(a + b) =~= class_entries(a) + class_entries(b));
    }
}

/// The models of several entries of the class hierarchy.
pub open spec fn entry_views(s: Seq<(String, ClassInfo)>) -> Seq<(Seq<char>, ClassModel)> {
    Seq::new(s.len(), |i: int| (s[i].0@, s[i].1@))
}

/// Finds the modules that the statements of one kind name.
fn mixins(body: &SyntaxNode, kind: &str) -> (r: Vec<String>)
    ensures
        texts(r@) == mixed_in(body@.children, kind@),
{
    proof {
        lemma_model(*body);
    }
    let ghost all = body@.children;
    let mut out: Vec<String> = Vec::new();
    let mut i: usize = 0;
    assert(all.take(0) =~= Seq::empty());
    assert(texts(out@) =~= Seq::empty());
    while i < body.children.len()
        invariant
            i <= body.children@.len(),
            all == body@.children,
            all.len() == body.children@.len(),
            texts(out@) == mixed_in(all.take(i as int), kind@),
        decreases body.children@.len() - i,
    {
        let ghost before = texts(out@);
        proof {
            lemma_model(*body);
            assert(all.take(i + 1).drop_last() =~= all.take(i as int));
        }
        let child = &body.children[i];
        if is_kind(child, kind) {
            if let Some(module) = first_named_child(child) {
                if let Some(name) = text_of(module) {
                    out.push(copy(name));
                    assert(texts(out@) =~= before.push(name@));
                }
            }
        }
        i = i + 1;
    }
    assert(all.take(i as int) =~= all);
    out
}

/// Scans the body of a class or module for the modules that it mixes in.
pub fn collect_includes_extends(body: &SyntaxNode, info: &mut ClassInfo)
    ensures
        final(info)@ == (ClassModel {
            superclass: old(info)@.superclass,
            includes: old(info)@.includes + mixed_in(body@.children, "include"@),
            extends: old(info)@.extends + mixed_in(body@.children, "extend"@),
        }),
{
    let ghost before = info@;
    let mut included = mixins(body, "include");
    let mut extended = mixins(body, "extend");
    let ghost a = texts(included@);
    let ghost b = texts(extended@);
    info.includes.append(&mut included);
    assert(info@.includes =~= before.includes + a);
    info.extends.append(&mut extended);
    assert(info@.extends =~= before.extends + b);
}

/// Reads the class, struct or module that a node defines.
fn read_class(node: &SyntaxNode) -> (r: Option<(String, ClassInfo)>)
    ensures
        match r {
            Some(e) => class_entry(node@) == Some((e.0@, e.1@)),
            None => class_entry(node@) is None,
        },
{
    if is_kind(node, "class_def") || is_kind(node, "struct_def") || is_kind(node, "module_def") {
        match text_of_field(node, "name") {
            Some(name) => {
                let superclass = if is_kind(node, "module_def") {
                    None
                } else {
                    copy_opt(text_of_field(node, "superclass"))
                };
                let mut info = ClassInfo::default();
                info.superclass = superclass;
                if let Some(body) = child_by_field(node, "body") {
                    collect_includes_extends(body, &mut info);
                    proof {
                        let statements = body@.children;
                        assert(info@.includes =~= mixed_in(statements, "include"@));
                        assert(info@.extends =~= mixed_in(statements, "extend"@));
                    }
                }
                Some((copy(name), info))
            },
            None => None,
        }
    } else {
        None
    }
}

/// Walks a tree and adds the classes, structs and modules that it defines.
pub fn collect_hierarchy(node: &SyntaxNode, result: &mut Vec<(String, ClassInfo)>)
    ensures
        entry_views(final(result)@) == entry_views(old(result)@) + class_entries(preorder(node@)),
    decreases node@,
{
    let ghost start = entry_views(result@);
    let ghost t = node@;
    proof {
        lemma_model(*node);
        assert(seq![t].drop_last() =~= Seq::empty());
        assert(class_entries(seq![t].drop_last()) =~= Seq::empty());
    }
    if let Some(e) = read_class(node) {
        result.push(e);
        assert(entry_views(result@) =~= start.push((e.0@, e.1@)));
        assert(class_entries(seq![t]) =~= seq![(e.0@, e.1@)]);
    } else {
        assert(class_entries(seq![t]) =~= Seq::empty());
    }
    assert(entry_views(result@) =~= start + class_entries(seq![t] + preorder_below(t, 0))) by {
        assert(seq![t] + preorder_below(t, 0) =~= seq![t]);
    }
    let mut i: usize = 0;
    while i < node.children.len()
        invariant
            i <= node.children@.len(),
            t == node@,
            t.children.len() == node.children@.len(),
            entry_views(result@) == start + class_entries(seq![t] + preorder_below(t, i as int)),
        decreases node.children@.len() - i,
    {
        proof {
            lemma_model(*node);
            assert(decreases_to!(t => t.children[i as int]));
            let a = seq![t] + preorder_below(t, i as int);
            let b = preorder(t.children[i as int]);
            lemma_class_entries_add(a, b);
            assert(a + b =~= seq![t] + preorder_below(t, i + 1));
            assert((start + class_entries(a)) + class_entries(b) =~= start + (class_entries(a)
                + class_entries(b)));
        }
        collect_hierarchy(&node.children[i], result);
        i = i + 1;
    }
}

/// Reads the class hierarchy of a file.
pub fn extract_hierarchy(root: &SyntaxNode) -> (r: Vec<(String, ClassInfo)>)
    ensures
        entry_views(r@) == class_entries(preorder(root@)),
{
    let mut result: Vec<(String, ClassInfo)> = Vec::new();
    collect_hierarchy(root, &mut result);
    assert(entry_views(result@) =~= class_entries(preorder(root@)));
    result
}

// ---------------------------------------------------------------------------
// Instance variables
// ---------------------------------------------------------------------------

/// Whether one of `vars` is called `name`.
pub open spec fn has_ivar(vars: Seq<Ivar>, name: Seq<char>) -> bool {
    exists|i: int| 0 <= i < vars.len() && (#[trigger] vars[i]).name == name
}

/// `vars` with `v` added, unless one of that name is there.
pub open spec fn with_ivar(vars: Seq<Ivar>, v: Ivar) -> Seq<Ivar> {
    if has_ivar(vars, v.name) {
        vars
    } else {
        vars.push(v)
    }
}

/// The variables that are not called `name`.
pub open spec fn without_ivar(vars: Seq<Ivar>, name: Seq<char>) -> Seq<Ivar>
    decreases vars.len(),
{
    if vars.len() == 0 {
        vars
    } else {
        let before = without_ivar(vars.drop_last(), name);
        if vars.last().name == name {
            before
        } else {
            before.push(vars.last())
        }
    }
}

/// Whether calls of the method `name` in a class body declare an instance variable.
pub open spec fn property_macro(name: Seq<char>) -> bool {
    let base = without_trailing(name, '?', '!');
    base == "property"@ || base == "getter"@ || base == "setter"@ || base == "class_property"@
        || base == "class_getter"@ || base == "class_setter"@
}

/// Decides whether a method name is that of a property macro.
pub fn is_property_macro(name: &str) -> (r: bool)
    ensures
        r == property_macro(name@),
{
    let name = chars_of(name);
    let base = drop_trailing(&name, '?', '!');
    is_text(base, "property") || is_text(base, "getter") || is_text(base, "setter") || is_text(
        base,
        "class_property",
    ) || is_text(base, "class_getter") || is_text(base, "class_setter")
}

/// The variable that the argument `arg` of a property macro declares: `name : Type`, `name` or
/// `:name`.
pub open spec fn macro_ivar(arg: SynTree, class: Seq<char>) -> Option<Ivar> {
    if arg.kind == "type_declaration"@ {
        match field_of(arg, "var"@) {
            Some(var) => match var.text {
                Some(name) => Some(
                    Ivar {
                        name: seq!['@'] + name,
                        var_type: field_text(arg, "type"@),
                        class_name: class,
                        line: var.start.row,
                        col: var.start.column,
                    },
                ),
                None => None,
            },
            None => None,
        }
    } else if arg.kind == "identifier"@ || arg.kind == "symbol"@ {
        match arg.text {
            Some(text) => Some(
                Ivar {
                    name: seq!['@'] + if arg.kind == "symbol"@ {
                        without_leading(text, ':')
                    } else {
                        text
                    },
                    var_type: None,
                    class_name: class,
                    line: arg.start.row,
                    col: arg.start.column,
                },
            ),
            None => None,
        }
    } else {
        None
    }
}

/// `vars` with those that the arguments `args` of a property macro declare.
pub open spec fn with_macro_ivars(
    vars: Seq<Ivar>,
    args: Seq<SynTree>,
    class: Seq<char>,
) -> Seq<Ivar>
    decreases args.len(),
{
    if args.len() == 0 {
        vars
    } else {
        let before = with_macro_ivars(vars, args.drop_last(), class);
        match macro_ivar(args.last(), class) {
            Some(v) => with_ivar(before, v),
            None => before,
        }
    }
}

/// `vars` with those that the statement `s` in the body of the class `class` declares. The first
/// assignment or macro that names a variable counts, but a type declaration replaces what came
/// before it.
pub open spec fn with_statement(vars: Seq<Ivar>, s: SynTree, class: Seq<char>) -> Seq<Ivar> {
    if s.kind == "assign"@ {
        match field_of(s, "lhs"@) {
            Some(lhs) => if lhs.kind == "instance_var"@ && lhs.text is Some {
                with_ivar(
                    vars,
                    Ivar {
                        name: lhs.text->0,
                        var_type: match field_of(s, "rhs"@) {
                            Some(rhs) => value_type(rhs),
                            None => None,
                        },
                        class_name: class,
                        line: lhs.start.row,
                        col: lhs.start.column,
                    },
                )
            } else {
                vars
            },
            None => vars,
        }
    } else if s.kind == "type_declaration"@ {
        match field_of(s, "var"@) {
            Some(var) => if var.kind == "instance_var"@ && var.text is Some {
                without_ivar(vars, var.text->0).push(
                    Ivar {
                        name: var.text->0,
                        var_type: field_text(s, "type"@),
                        class_name: class,
                        line: var.start.row,
                        col: var.start.column,
                    },
                )
            } else {
                vars
            },
            None => vars,
        }
    } else if s.kind == "call"@ {
        match field_text(s, "method"@) {
            Some(name) => if property_macro(name) {
                match field_of(s, "arguments"@) {
                    Some(args) => with_macro_ivars(vars, args.children, class),
                    None => vars,
                }
            } else {
                vars
            },
            None => vars,
        }
    } else {
        vars
    }
}

/// The variables that the statements of a class body declare.
pub open spec fn body_ivars(statements: Seq<SynTree>, class: Seq<char>) -> Seq<Ivar>
    decreases statements.len(),
{
    if statements.len() == 0 {
        Seq::empty()
    } else {
        with_statement(body_ivars(statements.drop_last(), class), statements.last(), class)
    }
}

/// Adds a variable, unless one of its name is there.
fn add_ivar(vars: &mut Vec<InstanceVariable>, v: InstanceVariable)
    ensures
        ivar_views(final(vars)@) == with_ivar(ivar_views(old(vars)@), v@),
{
    let ghost before = ivar_views(vars@);
    let mut i: usize = 0;
    while i < vars.len()
        invariant
            i <= vars@.len(),
            before == ivar_views(vars@),
            vars@ == old(vars)@,
            forall|k: int| 0 <= k < i ==> (#[trigger] before[k]).name != v.name@,
        decreases vars@.len() - i,
    {
        if same(&vars[i].name, &v.name) {
            assert(before[i as int].name == v@.name);
            return ;
        }
        assert(before[i as int].name == vars@[i as int].name@);
        i = i + 1;
    }
    vars.push(v);
    assert(ivar_views(vars@) =~= before.push(v@));
}

/// Drops the variables of one name.
fn drop_ivar(vars: Vec<InstanceVariable>, name: &str) -> (r: Vec<InstanceVariable>)
    ensures
        ivar_views(r@) == without_ivar(ivar_views(vars@), name@),
{
    let ghost all = ivar_views(vars@);
    let mut out: Vec<InstanceVariable> = Vec::new();
    assert(all.take(0) =~= Seq::empty());
    assert(ivar_views(out@) =~= Seq::empty());
    for v in it: vars
        invariant
            it.seq() == vars@,
            all == ivar_views(vars@),
            ivar_views(out@) == without_ivar(all.take(it.index() as int), name@),
    {
        let ghost before = ivar_views(out@);
        let ghost k = it.index() as int;
        assert(all[k] == v@);
        assert(all.take(k + 1).drop_last() =~= all.take(k));
        if !same(&v.name, name) {
            out.push(v);
            assert(ivar_views(out@) =~= before.push(v@));
        }
    }
    assert(all.take(all.len() as int) =~= all);
    out
}

/// The name of the instance variable behind a property.
fn ivar_name(property: &[char]) -> (r: String)
    ensures
        r@ == seq!['@'] + property@,
{
    let mut name = String::new();
    name.push('@');
    push_chars(&mut name, property);
    assert(name@ =~= seq!['@'] + property@);
    name
}

/// Reads the variable that an argument of a property macro declares.
fn read_macro_ivar(arg: &SyntaxNode, class_name: &str) -> (r: Option<InstanceVariable>)
    ensures
        match r {
            Some(v) => macro_ivar(arg@, class_name@) == Some(v@),
            None => macro_ivar(arg@, class_name@) is None,
        },
{
    proof {
        lemma_model(*arg);
    }
    if is_kind(arg, "type_declaration") {
        match child_by_field(arg, "var") {
            Some(var) => match text_of(var) {
                Some(name) => {
                    proof {
                        lemma_model(*var);
                    }
                    Some(
                        InstanceVariable {
                            name: ivar_name(&chars_of(name)),
                            var_type: copy_opt(text_of_field(arg, "type")),
                            class_name: copy(class_name),
                            line: var.start.row,
                            col: var.start.column,
                        },
                    )
                },
                None => None,
            },
            None => None,
        }
    } else if is_kind(arg, "identifier") || is_kind(arg, "symbol") {
        match text_of(arg) {
            Some(text) => {
                let text = chars_of(text);
                let name = if is_kind(arg, "symbol") {
                    ivar_name(drop_leading(&text, ':'))
                } else {
                    ivar_name(&text)
                };
                Some(
                    InstanceVariable {
                        name,
                        var_type: None,
                        class_name: copy(class_name),
                        line: arg.start.row,
                        col: arg.start.column,
                    },
                )
            },
            None => None,
        }
    } else {
        None
    }
}

/// Adds the variables that the arguments of a property macro declare.
pub fn extract_ivar_from_property_macro(
    args: &SyntaxNode,
    class_name: &str,
    vars: &mut Vec<InstanceVariable>,
)
    ensures
        ivar_views(final(vars)@) == with_macro_ivars(
            ivar_views(old(vars)@),
            args@.children,
            class_name@,
        ),
{
    let ghost start = ivar_views(vars@);
    let ghost all = args@.children;
    proof {
        lemma_model(*args);
        assert(all.take(0) =~= Seq::empty());
    }
    let mut i: usize = 0;
    while i < args.children.len()
        invariant
            i <= args.children@.len(),
            all == args@.children,
            all.len() == args.children@.len(),
            ivar_views(vars@) == with_macro_ivars(start, all.take(i as int), class_name@),
        decreases args.children@.len() - i,
    {
        proof {
            lemma_model(*args);
            assert(all.take(i + 1).drop_last() =~= all.take(i as int));
        }
        if let Some(v) = read_macro_ivar(&args.children[i], class_name) {
            add_ivar(vars, v);
        }
        i = i + 1;
    }
    assert(all.take(i as int) =~= all);
}

/// Adds the variable that a statement of a class body declares.
fn add_statement(
    s: &SyntaxNode,
    class_name: &str,
    vars: Vec<InstanceVariable>,
) -> (r: Vec<InstanceVariable>)
    ensures
        ivar_views(r@) == with_statement(ivar_views(vars@), s@, class_name@),
{
    let mut vars = vars;
    if is_kind(s, "assign") {
        if let Some(lhs) = child_by_field(s, "lhs") {
            if is_kind(lhs, "instance_var") {
                if let Some(name) = text_of(lhs) {
                    proof {
                        lemma_model(*lhs);
                    }
                    let var_type = match child_by_field(s, "rhs") {
                        Some(rhs) => infer_type_from_rhs(rhs),
                        None => None,
                    };
                    add_ivar(
                        &mut vars,
                        InstanceVariable {
                            name: copy(name),
                            var_type,
                            class_name: copy(class_name),
                            line: lhs.start.row,
                            col: lhs.start.column,
                        },
                    );
                }
            }
        }
    } else if is_kind(s, "type_declaration") {
        if let Some(var) = child_by_field(s, "var") {
            if is_kind(var, "instance_var") {
                if let Some(name) = text_of(var) {
                    proof {
                        lemma_model(*var);
                    }
                    vars = drop_ivar(vars, name);
                    let ghost before = ivar_views(vars@);
                    let v = InstanceVariable {
                        name: copy(name),
                        var_type: copy_opt(text_of_field(s, "type")),
                        class_name: copy(class_name),
                        line: var.start.row,
                        col: var.start.column,
                    };
                    vars.push(v);
                    assert(ivar_views(vars@) =~= before.push(v@));
                }
            }
        }
    } else if is_kind(s, "call") {
        if let Some(method) = text_of_field(s, "method") {
            if is_property_macro(method) {
                if let Some(args) = child_by_field(s, "arguments") {
                    extract_ivar_from_property_macro(args, class_name, &mut vars);
                }
            }
        }
    }
    vars
}

/// Reads the variables that a class body declares.
pub fn extract_ivars_from_body(body: &SyntaxNode, class_name: &str) -> (r: Vec<InstanceVariable>)
    ensures
        ivar_views(r@) == body_ivars(body@.children, class_name@),
{
    let ghost all = body@.children;
    let mut vars: Vec<InstanceVariable> = Vec::new();
    proof {
        lemma_model(*body);
        assert(all.take(0) =~= Seq::empty());
        assert(ivar_views(vars@) =~= Seq::empty());
    }
    let mut i: usize = 0;
    while i < body.children.len()
        invariant
            i <= body.children@.len(),
            all == body@.children,
            all.len() == body.children@.len(),
            ivar_views(vars@) == body_ivars(all.take(i as int), class_name@),
        decreases body.children@.len() - i,
    {
        proof {
            lemma_model(*body);
            assert(all.take(i + 1).drop_last() =~= all.take(i as int));
            assert(all.take(i + 1).last() == body.children@[i as int]@);
        }
        vars = add_statement(&body.children[i], class_name, vars);
        i = i + 1;
    }
    assert(all.take(i as int) =~= all);
    vars
}

/// The instance variables of several classes: each class once, in the order in which they come up.
pub type IvarGroups = Seq<(Seq<char>, Seq<Ivar>)>;

/// Where the group of the class `name` stands among the first `n` groups.
pub open spec fn group_index(groups: IvarGroups, name: Seq<char>, n: int) -> Option<int>
    decreases n,
{
    if n <= 0 || n > groups.len() {
        None
    } else if groups[n - 1].0 == name {
        Some(n - 1)
    } else {
        group_index(groups, name, n - 1)
    }
}

/// `groups` with `vars` added to those of the class `name`.
pub open spec fn with_group(groups: IvarGroups, name: Seq<char>, vars: Seq<Ivar>) -> IvarGroups {
    match group_index(groups, name, groups.len() as int) {
        Some(i) => groups.update(i, (name, groups[i].1 + vars)),
        None => groups.push((name, vars)),
    }
}

/// `groups` with the variables of the class that the node `t` defines.
pub open spec fn with_class(groups: IvarGroups, t: SynTree) -> IvarGroups {
    if t.kind == "class_def"@ || t.kind == "struct_def"@ {
        match field_text(t, "name"@) {
            Some(name) => match field_of(t, "body"@) {
                Some(body) => {
                    let vars = body_ivars(body.children, name);
                    if vars.len() > 0 {
                        with_group(groups, name, vars)
                    } else {
                        groups
                    }
                },
                None => groups,
            },
            None => groups,
        }
    } else {
        groups
    }
}

/// `groups` with the variables of the classes that the nodes define.
pub open spec fn with_classes(groups: IvarGroups, nodes: Seq<SynTree>) -> IvarGroups
    decreases nodes.len(),
{
    if nodes.len() == 0 {
        groups
    } else {
        with_class(with_classes(groups, nodes.drop_last()), nodes.last())
    }
}

proof fn lemma_with_classes_add(groups: IvarGroups, a: Seq<SynTree>, b: Seq<SynTree>)
    ensures
        with_classes(groups, a + b) == with_classes(with_classes(groups, a), b),
    decreases b.len(),
{
    if b.len() == 0 {
        assert(a + b =~= a);
    } else {
        lemma_with_classes_add(groups, a, b.drop_last());
        assert((a + b).drop_last() =~= a + b.drop_last());
    }
}

/// The models of several groups.
pub open spec fn group_views(s: Seq<(String, Vec<InstanceVariable>)>) -> IvarGroups {
    Seq::new(s.len(), |i: int| (s[i].0@, ivar_views(s[i].1@)))
}

fn find_group(groups: &Vec<(String, Vec<InstanceVariable>)>, name: &str) -> (r: Option<usize>)
    ensures
        match r {
            Some(i) => i < groups@.len() && group_index(
                group_views(groups@),
                name@,
                groups@.len() as int,
            ) == Some(i as int),
            None => group_index(group_views(groups@), name@, groups@.len() as int) is None,
        },
{
    let ghost g = group_views(groups@);
    let mut n: usize = groups.len();
    while n > 0
        invariant
            n <= groups@.len(),
            g == group_views(groups@),
            group_index(g, name@, groups@.len() as int) == group_index(g, name@, n as int),
        decreases n,
    {
        assert(g[n - 1].0 == groups@[n - 1].0@);
        if same(&groups[n - 1].0, name) {
            return Some(n - 1);
        }
        n = n - 1;
    }
    None
}

/// Adds variables to those of a class.
fn add_group(
    groups: &mut Vec<(String, Vec<InstanceVariable>)>,
    name: &str,
    vars: Vec<InstanceVariable>,
)
    ensures
        group_views(final(groups)@) == with_group(
            group_views(old(groups)@),
            name@,
            ivar_views(vars@),
        ),
{
    let ghost before = group_views(groups@);
    match find_group(groups, name) {
        Some(i) => {
            let ghost own = ivar_views(groups@[i as int].1@);
            let mut held = groups.remove(i);
            let mut more = vars;
            let ghost h = held.1@;
            held.1.append(&mut more);
            assert(held.1@ =~= h + vars@);
            assert(ivar_views(held.1@) =~= own + ivar_views(vars@));
            groups.insert(i, (copy(name), held.1));
            assert(group_views(groups@) =~= before.update(i as int, (name@, own + ivar_views(vars@))));
        },
        None => {
            groups.push((copy(name), vars));
            assert(group_views(groups@) =~= before.push((name@, ivar_views(vars@))));
        },
    }
}

/// Adds the variables of the class that a node defines.
fn add_class(node: &SyntaxNode, groups: &mut Vec<(String, Vec<InstanceVariable>)>)
    ensures
        group_views(final(groups)@) == with_class(group_views(old(groups)@), node@),
{
    if is_kind(node, "class_def") || is_kind(node, "struct_def") {
        if let Some(name) = text_of_field(node, "name") {
            if let Some(body) = child_by_field(node, "body") {
                let vars = extract_ivars_from_body(body, name);
                assert(ivar_views(vars@).len() == vars@.len());
                if vars.len() > 0 {
                    add_group(groups, name, vars);
                }
            }
        }
    }
}

/// Walks a tree and adds the instance variables of the classes and structs that it defines.
pub fn collect_instance_vars(
    node: &SyntaxNode,
    result: &mut Vec<(String, Vec<InstanceVariable>)>,
)
    ensures
        group_views(final(result)@) == with_classes(group_views(old(result)@), preorder(node@)),
    decreases node@,
{
    let ghost start = group_views(result@);
    let ghost t = node@;
    add_class(node, result);
    proof {
        lemma_model(*node);
        assert(seq![t].drop_last() =~= Seq::empty());
        assert(with_classes(start, seq![t].drop_last()) =~= start);
        assert(with_classes(start, seq![t]) == with_class(start, t));
        assert(seq![t] + preorder_below(t, 0) =~= seq![t]);
    }
    let mut i: usize = 0;
    while i < node.children.len()
        invariant
            i <= node.children@.len(),
            t == node@,
            t.children.len() == node.children@.len(),
            group_views(result@) == with_classes(start, seq![t] + preorder_below(t, i as int)),
        decreases node.children@.len() - i,
    {
        proof {
            lemma_model(*node);
            assert(decreases_to!(t => t.children[i as int]));
            let a = seq![t] + preorder_below(t, i as int);
            let b = preorder(t.children[i as int]);
            lemma_with_classes_add(start, a, b);
            assert(a + b =~= seq![t] + preorder_below(t, i + 1));
        }
        collect_instance_vars(&node.children[i], result);
        i = i + 1;
    }
}

/// Reads the instance variables of the classes and structs of a file.
pub fn extract_instance_vars(root: &SyntaxNode) -> (r: Vec<(String, Vec<InstanceVariable>)>)
    ensures
        group_views(r@) == with_classes(Seq::empty(), preorder(root@)),
{
    let mut result: Vec<(String, Vec<InstanceVariable>)> = Vec::new();
    assert(group_views(result@) =~= Seq::empty());
    collect_instance_vars(root, &mut result);
    result
}

/// Whether no two of `vars` have the same name.
pub open spec fn distinct_ivars(vars: Seq<Ivar>) -> bool {
    forall|i: int, j: int|
        0 <= i < j < vars.len() ==> (#[trigger] vars[i]).name != (#[trigger] vars[j]).name
}

proof fn lemma_without_ivar(vars: Seq<Ivar>, name: Seq<char>)
    requires
        distinct_ivars(vars),
    ensures
        distinct_ivars(without_ivar(vars, name)),
        !has_ivar(without_ivar(vars, name), name),
        forall|n: Seq<char>| #[trigger] has_ivar(without_ivar(vars, name), n) ==> has_ivar(vars, n),
    decreases vars.len(),
{
    if vars.len() > 0 {
        let rest = vars.drop_last();
        lemma_without_ivar(rest, name);
        let kept = without_ivar(rest, name);
        let r = without_ivar(vars, name);
        assert forall|i: int, j: int| 0 <= i < j < r.len() implies (#[trigger] r[i]).name != (
        #[trigger] r[j]).name by {
            if j == kept.len() {
                assert(has_ivar(kept, kept[i].name));
                let k = choose|k: int| 0 <= k < rest.len() && (#[trigger] rest[k]).name == kept[i].name;
                assert(vars[k].name != vars[vars.len() - 1].name);
            }
        }
        assert forall|n: Seq<char>| #[trigger] has_ivar(r, n) implies has_ivar(vars, n) by {
            let i = choose|i: int| 0 <= i < r.len() && (#[trigger] r[i]).name == n;
            if i < kept.len() {
                assert(has_ivar(kept, n));
                let k = choose|k: int| 0 <= k < rest.len() && (#[trigger] rest[k]).name == n;
                assert(vars[k].name == n);
            } else {
                assert(vars[vars.len() - 1].name == n);
            }
        }
    }
}

proof fn lemma_macro_ivars_distinct(vars: Seq<Ivar>, args: Seq<SynTree>, class: Seq<char>)
    requires
        distinct_ivars(vars),
    ensures
        distinct_ivars(with_macro_ivars(vars, args, class)),
    decreases args.len(),
{
    if args.len() > 0 {
        lemma_macro_ivars_distinct(vars, args.drop_last(), class);
    }
}

/// A class body declares each instance variable once, however often it names it.
pub proof fn lemma_body_ivars_distinct(statements: Seq<SynTree>, class: Seq<char>)
    ensures
        distinct_ivars(body_ivars(statements, class)),
    decreases statements.len(),
{
    if statements.len() > 0 {
        let before = body_ivars(statements.drop_last(), class);
        let s = statements.last();
        lemma_body_ivars_distinct(statements.drop_last(), class);
        if s.kind == "assign"@ {
        } else if s.kind == "type_declaration"@ {
            if let Some(var) = field_of(s, "var"@) {
                if var.text is Some {
                    lemma_without_ivar(before, var.text->0);
                    let kept = without_ivar(before, var.text->0);
                    assert forall|i: int| 0 <= i < kept.len() implies (#[trigger] kept[i]).name
                        != var.text->0 by {
                        if kept[i].name == var.text->0 {
                            assert(has_ivar(kept, var.text->0));
                        }
                    }
                }
            }
        } else if s.kind == "call"@ {
            if let Some(args) = field_of(s, "arguments"@) {
                lemma_macro_ivars_distinct(before, args.children, class);
            }
        }
    }
}

/// A type declaration decides: after `@name : Type` the variable has that type, whatever was
/// assigned to it before.
pub proof fn lemma_type_declaration_decides(vars: Seq<Ivar>, s: SynTree, class: Seq<char>)
    requires
        s.kind == "type_declaration"@,
        field_of(s, "var"@) is Some,
        field_of(s, "var"@)->0.kind == "instance_var"@,
        field_of(s, "var"@)->0.text is Some,
    ensures
        ({
            let name = field_of(s, "var"@)->0.text->0;
            let after = with_statement(vars, s, class);
            forall|i: int|
                0 <= i < after.len() && (#[trigger] after[i]).name == name ==> after[i].var_type
                    == field_text(s, "type"@)
        }),
{
    let name = field_of(s, "var"@)->0.text->0;
    reveal_strlit("type_declaration");
    reveal_strlit("assign");
    assert("type_declaration"@.len() != "assign"@.len());
    lemma_without_ivar_gone(vars, name);
    let kept = without_ivar(vars, name);
    let after = with_statement(vars, s, class);
    assert forall|i: int| 0 <= i < after.len() && (#[trigger] after[i]).name == name implies after[i].var_type
        == field_text(s, "type"@) by {
        if i < kept.len() {
            assert(kept[i].name == name);
        }
    }
}

proof fn lemma_without_ivar_gone(vars: Seq<Ivar>, name: Seq<char>)
    ensures
        forall|i: int|
            0 <= i < without_ivar(vars, name).len() ==> (#[trigger] without_ivar(vars, name)[i]).name
                != name,
    decreases vars.len(),
{
    if vars.len() > 0 {
        lemma_without_ivar_gone(vars.drop_last(), name);
    }
}

} // verus!
