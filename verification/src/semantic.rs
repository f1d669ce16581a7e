//! What the compiler says about types, as the editor shows it.

use vstd::prelude::*;

use crate::protocol::narrow_u64;
use crate::text::{
    chars_of, copy, is_text, opt_str, split, split_on, text_contains, trim, trimmed, views,
};

verus! {

// ---------------------------------------------------------------------------
// JSON
// ---------------------------------------------------------------------------

#[verifier::external_type_specification]
#[verifier::external_body]
pub struct ValueHandle(serde_json::Value);

/// The model of a JSON value. Of a number only its value as an unsigned integer is kept.
pub enum Json {
    Null,
    Bool(bool),
    Number(Option<u64>),
    Text(Seq<char>),
    Array(Seq<Json>),
    Object(Map<Seq<char>, Json>),
}

/// What a JSON value holds.
pub uninterp spec fn json_of(v: serde_json::Value) -> Json;

/// The value that `serde_json::from_str` reads from a text; `None` where it fails.
pub uninterp spec fn json_text(s: Seq<char>) -> Option<Json>;

/// What several JSON values hold.
pub open spec fn json_views(s: Seq<serde_json::Value>) -> Seq<Json> {
    Seq::new(s.len(), |i: int| json_of(s[i]))
}

/// Calls `serde_json::from_str::<serde_json::Value>`. What it reads depends on the text alone.
#[verifier::external_body]
fn parse_json(s: &str) -> (r: Option<serde_json::Value>)
    ensures
        match r {
            Some(v) => json_text(s@) == Some(json_of(v)),
            None => json_text(s@) is None,
        },
{
    serde_json::from_str::<serde_json::Value>(s).ok()
}

/// Calls `serde_json::Value::as_array`, which gives the items of an array and nothing for another
/// value.
#[verifier::external_body]
fn as_array(v: &serde_json::Value) -> (r: Option<&Vec<serde_json::Value>>)
    ensures
        match r {
            Some(items) => json_of(*v) == Json::Array(json_views(items@)),
            None => !(json_of(*v) is Array),
        },
{
    v.as_array()
}

/// The member `key` of the value `j`.
pub open spec fn member(j: Json, key: Seq<char>) -> Option<Json> {
    match j {
        Json::Object(m) => if m.contains_key(key) {
            Some(m[key])
        } else {
            None
        },
        _ => None,
    }
}

/// Calls `serde_json::Value::get` with a text, which gives the member of that name of an object and
/// nothing for another value.
#[verifier::external_body]
fn get_member<'a>(v: &'a serde_json::Value, key: &str) -> (r: Option<&'a serde_json::Value>)
    ensures
        match r {
            Some(m) => member(json_of(*v), key@) == Some(json_of(*m)),
            None => member(json_of(*v), key@) is None,
        },
{
    v.get(key)
}

/// The text that the value `j` is.
pub open spec fn json_str(j: Json) -> Option<Seq<char>> {
    match j {
        Json::Text(s) => Some(s),
        _ => None,
    }
}

/// Calls `serde_json::Value::as_str`, which gives the text of a string and nothing for another
/// value.
#[verifier::external_body]
fn as_str(v: &serde_json::Value) -> (r: Option<&str>)
    ensures
        opt_str(r) == json_str(json_of(*v)),
{
    v.as_str()
}

/// The unsigned integer that the value `j` is.
pub open spec fn json_u64(j: Json) -> Option<u64> {
    match j {
        Json::Number(n) => n,
        _ => None,
    }
}

/// Calls `serde_json::Value::as_u64`, which gives the value of a number that is an unsigned integer
/// and nothing for another value.
#[verifier::external_body]
fn as_u64(v: &serde_json::Value) -> (r: Option<u64>)
    ensures
        r == json_u64(json_of(*v)),
{
    v.as_u64()
}

// ---------------------------------------------------------------------------
// Diagnostics
// ---------------------------------------------------------------------------

/// A message of the compiler.
#[derive(Debug)]
pub struct CrystalDiagnostic {
    pub file: String,
    pub line: u32,
    pub column: u32,
    pub message: String,
    pub severity: String,
}

/// The model of a [`CrystalDiagnostic`].
#[verifier::ext_equal]
pub struct Message {
    pub file: Seq<char>,
    pub line: u32,
    pub column: u32,
    pub message: Seq<char>,
    pub severity: Seq<char>,
}

impl View for CrystalDiagnostic {
    type V = Message;

    open spec fn view(&self) -> Message {
        Message {
            file: self.file@,
            line: self.line,
            column: self.column,
            message: self.message@,
            severity: self.severity@,
        }
    }
}

/// The models of several messages.
pub open spec fn message_views(s: Seq<CrystalDiagnostic>) -> Seq<Message> {
    Seq::new(s.len(), |i: int| s[i]@)
}

/// The text of the member `key` of `j`.
pub open spec fn member_text(j: Json, key: Seq<char>) -> Option<Seq<char>> {
    match member(j, key) {
        Some(m) => json_str(m),
        None => None,
    }
}

/// The unsigned integer of the member `key` of `j`.
pub open spec fn member_u64(j: Json, key: Seq<char>) -> Option<u64> {
    match member(j, key) {
        Some(m) => json_u64(m),
        None => None,
    }
}

/// The message that the value `j` writes. Without a severity it is an error; a value that lacks
/// anything else is no message.
pub open spec fn message_of(j: Json) -> Option<Message> {
    match (
        member_text(j, "file"@),
        member_u64(j, "line"@),
        member_u64(j, "column"@),
        member_text(j, "message"@),
    ) {
        (Some(file), Some(line), Some(column), Some(message)) => Some(
            Message {
                file,
                line: line as u32,
                column: column as u32,
                message,
                severity: match member_text(j, "severity"@) {
                    Some(s) => s,
                    None => "error"@,
                },
            },
        ),
        _ => None,
    }
}

/// The messages that the values write.
pub open spec fn messages_of(items: Seq<Json>) -> Seq<Message>
    decreases items.len(),
{
    if items.len() == 0 {
        Seq::empty()
    } else {
        let before = messages_of(items.drop_last());
        match message_of(items.last()) {
            Some(m) => before.push(m),
            None => before,
        }
    }
}

/// The messages that the value `j` lists; only an array lists any.
pub open spec fn listed_messages(j: Json) -> Seq<Message> {
    match j {
        Json::Array(items) => messages_of(items),
        _ => Seq::empty(),
    }
}

fn text_member<'a>(v: &'a serde_json::Value, key: &str) -> (r: Option<&'a str>)
    ensures
        opt_str(r) == member_text(json_of(*v), key@),
{
    match get_member(v, key) {
        Some(m) => as_str(m),
        None => None,
    }
}

fn u64_member(v: &serde_json::Value, key: &str) -> (r: Option<u64>)
    ensures
        r == member_u64(json_of(*v), key@),
{
    match get_member(v, key) {
        Some(m) => as_u64(m),
        None => None,
    }
}

fn read_message(v: &serde_json::Value) -> (r: Option<CrystalDiagnostic>)
    ensures
        match r {
            Some(d) => message_of(json_of(*v)) == Some(d@),
            None => message_of(json_of(*v)) is None,
        },
{
    match (
        text_member(v, "file"),
        u64_member(v, "line"),
        u64_member(v, "column"),
        text_member(v, "message"),
    ) {
        (Some(file), Some(line), Some(column), Some(message)) => {
            let severity = match text_member(v, "severity") {
                Some(s) => copy(s),
                None => copy("error"),
            };
            Some(
                CrystalDiagnostic {
                    file: copy(file),
                    line: narrow_u64(line),
                    column: narrow_u64(column),
                    message: copy(message),
                    severity,
                },
            )
        },
        _ => None,
    }
}

/// Reads the messages that a JSON value lists.
pub fn diagnostics_of(value: &serde_json::Value) -> (r: Vec<CrystalDiagnostic>)
    ensures
        message_views(r@) == listed_messages(json_of(*value)),
{
    let mut out: Vec<CrystalDiagnostic> = Vec::new();
    assert(message_views(out@) =~= Seq::empty());
    if let Some(items) = as_array(value) {
        let ghost all = json_views(items@);
        let mut i: usize = 0;
        assert(all.take(0) =~= Seq::empty());
        while i < items.len()
            invariant
                i <= items@.len(),
                all == json_views(items@),
                message_views(out@) == messages_of(all.take(i as int)),
            decreases items@.len() - i,
        {
            let ghost before = message_views(out@);
            assert(all.take(i + 1).drop_last() =~= all.take(i as int));
            assert(all[i as int] == json_of(items@[i as int]));
            if let Some(d) = read_message(&items[i]) {
                out.push(d);
                assert(message_views(out@) =~= before.push(d@));
            }
            i = i + 1;
        }
        assert(all.take(i as int) =~= all);
    }
    out
}

/// Reads the messages that `crystal build --no-codegen -f json` printed. What is not JSON gives
/// none.
pub fn parse_diagnostics(json_output: &str) -> (r: Vec<CrystalDiagnostic>)
    ensures
        message_views(r@) == match json_text(json_output@) {
            Some(j) => listed_messages(j),
            None => Seq::empty(),
        },
{
    match parse_json(json_output) {
        Some(value) => diagnostics_of(&value),
        None => {
            let none: Vec<CrystalDiagnostic> = Vec::new();
            assert(message_views(none@) =~= Seq::empty());
            none
        },
    }
}

/// Whether a message says that a value may be `Nil`.
pub fn is_nil_risk(message: &str) -> (r: bool)
    ensures
        r == crate::crystal_cli::nil_risk(message@),
{
    (text_contains(message, "for Nil") || text_contains(message, "not Nil") || text_contains(
        message,
        "| Nil",
    )) && text_contains(message, "Nil")
}

// ---------------------------------------------------------------------------
// Highlighting
// ---------------------------------------------------------------------------

/// Whether a type is exactly `Nil`.
pub fn is_nil_type(type_str: &str) -> (r: bool)
    ensures
        r == (trimmed(type_str@) == "Nil"@),
{
    let chars = chars_of(type_str);
    is_text(trim(&chars), "Nil")
}

/// Whether the type `s` is a union with `Nil` among its members, such as `String | Nil`.
pub open spec fn nilable_union(s: Seq<char>) -> bool {
    let members = split_on(s, '|');
    members.len() > 1 && exists|i: int|
        0 <= i < members.len() && trimmed(#[trigger] members[i]) == "Nil"@
}

/// Decides whether a type is a union with `Nil` among its members.
pub fn is_nilable_union(type_str: &str) -> (r: bool)
    ensures
        r == nilable_union(type_str@),
{
    let chars = chars_of(type_str);
    let members = split(&chars, '|');
    let ghost model = split_on(type_str@, '|');
    assert(model.len() == members@.len());
    let mut i: usize = 0;
    while i < members.len()
        invariant
            i <= members@.len(),
            model == views(members@),
            model == split_on(type_str@, '|'),
            forall|k: int| 0 <= k < i ==> trimmed(#[trigger] model[k]) != "Nil"@,
        decreases members@.len() - i,
    {
        assert(model[i as int] == members@[i as int]@);
        if is_text(trim(&members[i]), "Nil") {
            return members.len() > 1;
        }
        i = i + 1;
    }
    false
}

/// The name under which the type `s` is highlighted.
pub open spec fn type_highlight(s: Seq<char>) -> Seq<char> {
    if trimmed(s) == "Nil"@ {
        "constant.builtin"@
    } else if nilable_union(s) {
        "type.builtin"@
    } else {
        "type"@
    }
}

/// Tells under which name a type is highlighted.
pub fn highlight_for_type(type_str: &str) -> (r: &'static str)
    ensures
        r@ == type_highlight(type_str@),
{
    if is_nil_type(type_str) {
        "constant.builtin"
    } else if is_nilable_union(type_str) {
        "type.builtin"
    } else {
        "type"
    }
}

/// The kinds of completions that the editor knows.
#[derive(Debug, Clone, Copy, PartialEq, Eq, Structural)]
pub enum CompletionKind {
    Text,
    Method,
    Function,
    Constructor,
    Field,
    Variable,
    Class,
    Interface,
    Module,
    Property,
    Unit,
    Value,
    Enum,
    Keyword,
    Snippet,
    Color,
    File,
    Reference,
    Folder,
    EnumMember,
    Constant,
    Struct,
    Event,
    Operator,
    TypeParameter,
    Other(i32),
}

/// The name under which a kind of completion is highlighted.
pub open spec fn completion_highlight(kind: CompletionKind) -> Seq<char> {
    match kind {
        CompletionKind::Method | CompletionKind::Function | CompletionKind::Constructor =>
        "function.method"@,
        CompletionKind::Constant
        | CompletionKind::Class
        | CompletionKind::Module
        | CompletionKind::Struct
        | CompletionKind::Interface
        | CompletionKind::Enum
        | CompletionKind::EnumMember => "type"@,
        CompletionKind::Keyword | CompletionKind::Snippet => "keyword"@,
        CompletionKind::Property | CompletionKind::Field => "property"@,
        _ => "variable"@,
    }
}

/// Tells under which name a kind of completion is highlighted.
pub fn highlight_for_completion_kind(kind: &CompletionKind) -> (r: &'static str)
    ensures
        r@ == completion_highlight(*kind),
{
    match kind {
        CompletionKind::Method | CompletionKind::Function | CompletionKind::Constructor =>
        "function.method",
        CompletionKind::Variable => "variable",
        CompletionKind::Constant => "type",
        CompletionKind::Class | CompletionKind::Module | CompletionKind::Struct => "type",
        CompletionKind::Interface => "type",
        CompletionKind::Enum | CompletionKind::EnumMember => "type",
        CompletionKind::Keyword | CompletionKind::Snippet => "keyword",
        CompletionKind::Property | CompletionKind::Field => "property",
        _ => "variable",
    }
}

/// The kinds of symbols that the editor knows.
#[derive(Debug, Clone, Copy, PartialEq, Eq, Structural)]
pub enum SymbolKind {
    File,
    Module,
    Namespace,
    Package,
    Class,
    Method,
    Property,
    Field,
    Constructor,
    Enum,
    Interface,
    Function,
    Variable,
    Constant,
    String,
    Number,
    Boolean,
    Array,
    Object,
    Key,
    Null,
    EnumMember,
    Struct,
    Event,
    Operator,
    TypeParameter,
    Other(i32),
}

/// The name under which a kind of symbol is highlighted.
pub open spec fn symbol_highlight(kind: SymbolKind) -> Seq<char> {
    match kind {
        SymbolKind::Method | SymbolKind::Function | SymbolKind::Constructor => "function.method"@,
        SymbolKind::Constant
        | SymbolKind::Class
        | SymbolKind::Module
        | SymbolKind::Struct
        | SymbolKind::Interface
        | SymbolKind::Namespace
        | SymbolKind::Enum
        | SymbolKind::EnumMember => "type"@,
        SymbolKind::Property | SymbolKind::Field => "property"@,
        _ => "variable"@,
    }
}

/// Tells under which name a kind of symbol is highlighted.
pub fn highlight_for_symbol_kind(kind: &SymbolKind) -> (r: &'static str)
    ensures
        r@ == symbol_highlight(*kind),
{
    match kind {
        SymbolKind::Method | SymbolKind::Function | SymbolKind::Constructor => "function.method",
        SymbolKind::Variable => "variable",
        SymbolKind::Constant => "type",
        SymbolKind::Class | SymbolKind::Module | SymbolKind::Struct => "type",
        SymbolKind::Interface | SymbolKind::Namespace => "type",
        SymbolKind::Enum | SymbolKind::EnumMember => "type",
        SymbolKind::Property | SymbolKind::Field => "property",
        _ => "variable",
    }
}

} // verus!
