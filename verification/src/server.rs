//! The state of the language server.
//!
//! Messages are received and sent outside, files are read and the compiler is run there. This
//! module keeps the state, and tells what has to be done next. Times are in milliseconds.

use vstd::prelude::*;

use crate::completion::{
    self, completion_answer, is_position_ok, opt_plan, position_ok, CompletionPlan,
};
use crate::definition::{self, definition_answer, opt_locations};
use crate::diagnostics::{
    extract_syntax_errors, merged_diagnostics, source_errors, DiagnosticStore, StoreModel,
};
use crate::hover::{self, hover_answer, HoverPlan, MacroExpansionCache};
use crate::index::{with_all_contents, with_source, DocumentIndex, IndexModel};
use crate::path_map::{holds_key, PathMap};
use crate::paths::{path_parts, same_path, Part};
use crate::protocol::{diag_views, Diag, Diagnostic, Location, Position};
use crate::symbols::{
    document_symbols, handle_document_symbols, handle_workspace_symbols, has_outline, info_views,
    outline_exists, outline_views, workspace_symbols, DocumentSymbol, SymbolInformation,
};
use crate::text::{
    after_prefix, chars_of, copy, copy_opt, opt_str, opt_text, same, string_of, strip_prefix,
};
use crate::uri::{from_path, path_uri, to_path, uri_path};

verus! {

/// How long a document must be left alone before its syntax is checked.
pub const DIAGNOSTICS_DEBOUNCE_MS: u64 = 150;

// ---------------------------------------------------------------------------
// Messages
// ---------------------------------------------------------------------------

/// The requests that the server answers.
#[derive(Debug, Clone, Copy, PartialEq, Eq, Structural)]
pub enum RequestKind {
    Definition,
    Hover,
    Completion,
    DocumentSymbols,
    WorkspaceSymbols,
    /// Answered with nothing.
    Other,
}

/// The request that a method name stands for.
pub open spec fn request_kind(method: Seq<char>) -> RequestKind {
    if method == "textDocument/definition"@ {
        RequestKind::Definition
    } else if method == "textDocument/hover"@ {
        RequestKind::Hover
    } else if method == "textDocument/completion"@ {
        RequestKind::Completion
    } else if method == "textDocument/documentSymbol"@ {
        RequestKind::DocumentSymbols
    } else if method == "workspace/symbol"@ {
        RequestKind::WorkspaceSymbols
    } else {
        RequestKind::Other
    }
}

/// Tells which request a method name stands for.
pub fn classify_request(method: &str) -> (r: RequestKind)
    ensures
        r == request_kind(method@),
{
    if same(method, "textDocument/definition") {
        RequestKind::Definition
    } else if same(method, "textDocument/hover") {
        RequestKind::Hover
    } else if same(method, "textDocument/completion") {
        RequestKind::Completion
    } else if same(method, "textDocument/documentSymbol") {
        RequestKind::DocumentSymbols
    } else if same(method, "workspace/symbol") {
        RequestKind::WorkspaceSymbols
    } else {
        RequestKind::Other
    }
}

/// The notifications that the server acts on.
#[derive(Debug, Clone, Copy, PartialEq, Eq, Structural)]
pub enum NotificationKind {
    DidOpen,
    DidChange,
    DidClose,
    DidSave,
    Initialized,
    Other,
}

/// The notification that a method name stands for.
pub open spec fn notification_kind(method: Seq<char>) -> NotificationKind {
    if method == "textDocument/didOpen"@ {
        NotificationKind::DidOpen
    } else if method == "textDocument/didChange"@ {
        NotificationKind::DidChange
    } else if method == "textDocument/didClose"@ {
        NotificationKind::DidClose
    } else if method == "textDocument/didSave"@ {
        NotificationKind::DidSave
    } else if method == "initialized"@ {
        NotificationKind::Initialized
    } else {
        NotificationKind::Other
    }
}

/// Tells which notification a method name stands for.
pub fn classify_notification(method: &str) -> (r: NotificationKind)
    ensures
        r == notification_kind(method@),
{
    if same(method, "textDocument/didOpen") {
        NotificationKind::DidOpen
    } else if same(method, "textDocument/didChange") {
        NotificationKind::DidChange
    } else if same(method, "textDocument/didClose") {
        NotificationKind::DidClose
    } else if same(method, "textDocument/didSave") {
        NotificationKind::DidSave
    } else if same(method, "initialized") {
        NotificationKind::Initialized
    } else {
        NotificationKind::Other
    }
}

/// The path under which the text of the document `uri` is looked up for a request: what follows
/// `file://`, as it is written.
pub fn document_path(uri: &str) -> (r: Option<String>)
    ensures
        opt_text(r) == after_prefix(uri@, "file://"@),
{
    let chars = chars_of(uri);
    match strip_prefix(&chars, "file://") {
        Some(rest) => Some(string_of(rest)),
        None => None,
    }
}

/// A request of the editor.
#[derive(Debug)]
pub enum Request {
    Definition { uri: String, position: Position },
    Hover { uri: String, position: Position },
    Completion { uri: String, position: Position },
    DocumentSymbols { uri: String },
    WorkspaceSymbols { query: String },
    Other,
}

/// The answer to a request.
#[derive(Debug)]
pub enum Answer<'a> {
    Definition(Option<Vec<Location>>),
    Hover(HoverPlan<'a>),
    Completion(Option<CompletionPlan>),
    DocumentSymbols(Option<Vec<DocumentSymbol>>),
    WorkspaceSymbols(Vec<SymbolInformation>),
    Null,
}

/// Whether a request can be answered, where `source` is the text of its document: the place of a
/// completion in a file does not fall inside a character, and the symbols of an outline nest to an end.
pub open spec fn answerable(ix: IndexModel, request: Request, source: Option<Seq<char>>) -> bool {
    match request {
        Request::Completion { uri, position } => uri_path(uri@) is Some ==> (source matches Some(
            text,
        ) ==> position_ok(text, position)),
        Request::DocumentSymbols { uri } => outline_exists(ix, uri@),
        _ => true,
    }
}

/// Whether `answer` is the answer to a request, where `source` is the text of its document.
pub open spec fn answers(
    ix: IndexModel,
    cache: MacroExpansionCache,
    request: Request,
    source: Option<Seq<char>>,
    answer: Answer<'_>,
) -> bool {
    match request {
        Request::Definition { uri, position } => answer matches Answer::Definition(r)
            && opt_locations(r) == definition_answer(ix, uri@, position, source),
        Request::Hover { uri, position } => answer matches Answer::Hover(r) && r@ == hover_answer(
            ix,
            cache,
            uri@,
            position,
            source,
        ),
        Request::Completion { uri, position } => answer matches Answer::Completion(r) && opt_plan(r)
            == completion_answer(ix, uri@, position, source),
        Request::DocumentSymbols { uri } => answer matches Answer::DocumentSymbols(r) && match r {
            Some(v) => document_symbols(ix, uri@) == Some(outline_views(v@)),
            None => document_symbols(ix, uri@) is None,
        },
        Request::WorkspaceSymbols { query } => answer matches Answer::WorkspaceSymbols(r)
            && info_views(r@) == workspace_symbols(ix, query@),
        Request::Other => answer is Null,
    }
}

/// A notification of the editor.
#[derive(Debug)]
pub enum Notification {
    DidOpen { uri: String, text: String },
    DidChange { uri: String, changes: Vec<String> },
    DidClose { uri: String },
    DidSave { uri: String },
    Initialized,
    Other,
}

/// What has to be done after a notification.
#[derive(Debug, PartialEq)]
pub enum Followup {
    Nothing,
    /// Read this file and hand it to [`reindex`](ServerState::reindex).
    Reindex(String),
    /// Run the compiler on this file in the background.
    Compile(String),
}

/// Whether a notification leads to `f`.
pub open spec fn leads_to(n: Notification, f: Followup) -> bool {
    match n {
        Notification::DidClose { uri } => match uri_path(uri@) {
            Some(path) => f matches Followup::Reindex(p) && p@ == path,
            None => f is Nothing,
        },
        Notification::DidSave { uri } => match uri_path(uri@) {
            Some(path) => f matches Followup::Compile(p) && p@ == path,
            None => f is Nothing,
        },
        _ => f is Nothing,
    }
}

/// What the server's loop was woken by.
#[derive(Debug, Clone, Copy, PartialEq, Eq, Structural)]
pub enum Event {
    /// The deadline of a check has come.
    Deadline,
    /// The editor has closed the connection.
    Disconnected,
    /// A request; `true` where it is the one to shut down.
    Request(bool),
    Notification,
    /// A response to a request of the server.
    Response,
    /// The compiler has ended.
    Compiled,
}

/// What the server's loop does next.
#[derive(Debug, Clone, Copy, PartialEq, Eq, Structural)]
pub enum LoopStep {
    PublishPending,
    HandleRequest,
    HandleNotification,
    PublishCompiled,
    Wait,
    Stop,
}

/// What the server's loop does after an event.
pub open spec fn loop_step(event: Event) -> LoopStep {
    match event {
        Event::Deadline => LoopStep::PublishPending,
        Event::Disconnected => LoopStep::Stop,
        Event::Request(shutdown) => if shutdown {
            LoopStep::Stop
        } else {
            LoopStep::HandleRequest
        },
        Event::Notification => LoopStep::HandleNotification,
        Event::Response => LoopStep::Wait,
        Event::Compiled => LoopStep::PublishCompiled,
    }
}

/// Decides what the server's loop does next.
pub fn main_loop(event: Event) -> (r: LoopStep)
    ensures
        r == loop_step(event),
{
    match event {
        Event::Deadline => LoopStep::PublishPending,
        Event::Disconnected => LoopStep::Stop,
        Event::Request(shutdown) => if shutdown {
            LoopStep::Stop
        } else {
            LoopStep::HandleRequest
        },
        Event::Notification => LoopStep::HandleNotification,
        Event::Response => LoopStep::Wait,
        Event::Compiled => LoopStep::PublishCompiled,
    }
}

/// Diagnostics to be sent to the editor.
#[derive(Debug)]
pub struct Publication {
    pub uri: String,
    pub diagnostics: Vec<Diagnostic>,
}

/// The model of diagnostics to be sent, if there are any.
pub open spec fn opt_publication(p: Option<Publication>) -> Option<(Seq<char>, Seq<Diag>)> {
    match p {
        Some(p) => Some((p.uri@, diag_views(p.diagnostics@))),
        None => None,
    }
}

/// What is sent for the file `path`; nothing where it has no URI.
pub open spec fn publication(s: StoreModel, path: Seq<char>) -> Option<(Seq<char>, Seq<Diag>)> {
    match path_uri(path) {
        Some(uri) => Some((uri, merged_diagnostics(s, path))),
        None => None,
    }
}

// ---------------------------------------------------------------------------
// The state
// ---------------------------------------------------------------------------

/// What the server keeps between messages.
pub struct ServerState {
    pub index: DocumentIndex,
    /// The text of each open document.
    pub open_docs: PathMap<String>,
    /// When each document changed whose syntax is still to be checked.
    pub pending_diagnostics: PathMap<u64>,
    pub diagnostic_store: DiagnosticStore,
    pub macro_cache: MacroExpansionCache,
}

/// The model of a [`ServerState`], but for the expansions that are kept.
#[verifier::ext_equal]
pub struct ServerModel {
    pub index: IndexModel,
    pub open_docs: Map<Seq<Part>, Seq<char>>,
    pub pending: Map<Seq<Part>, u64>,
    pub store: StoreModel,
}

impl View for ServerState {
    type V = ServerModel;

    open spec fn view(&self) -> ServerModel {
        ServerModel {
            index: self.index@,
            open_docs: self.open_docs@.map_values(|s: String| s@),
            pending: self.pending_diagnostics@,
            store: self.diagnostic_store@,
        }
    }
}

/// The models of diagnostics to be sent.
pub open spec fn publication_views(s: Seq<Publication>) -> Seq<(Seq<char>, Seq<Diag>)> {
    Seq::new(s.len(), |i: int| (s[i].uri@, diag_views(s[i].diagnostics@)))
}

/// The text of the file `path`: that of the open document, else what is on disk.
pub open spec fn current_text(
    s: ServerModel,
    path: Seq<char>,
    on_disk: Option<Seq<char>>,
) -> Option<Seq<char>> {
    if s.open_docs.contains_key(path_parts(path)) {
        Some(s.open_docs[path_parts(path)])
    } else {
        on_disk
    }
}

/// The server after the compiler has said `diags` about the file `path`.
pub open spec fn with_compiled(s: ServerModel, path: Seq<char>, diags: Seq<Diag>) -> ServerModel {
    ServerModel {
        store: StoreModel {
            compiler: s.store.compiler.insert(path_parts(path), diags),
            ..s.store
        },
        ..s
    }
}

/// The server after the syntax of the file `path` with the text `source` was checked.
pub open spec fn with_syntax(
    s: ServerModel,
    path: Seq<char>,
    source: Option<Seq<char>>,
) -> ServerModel {
    ServerModel {
        pending: s.pending.remove(path_parts(path)),
        store: StoreModel {
            syntax: s.store.syntax.insert(
                path_parts(path),
                match source {
                    Some(text) => source_errors(text),
                    None => Seq::empty(),
                },
            ),
            ..s.store
        },
        ..s
    }
}

/// The server after the syntax of several files was checked, one after the other.
pub open spec fn with_checks(s: ServerModel, files: Seq<(String, Option<String>)>) -> ServerModel
    decreases files.len(),
{
    if files.len() == 0 {
        s
    } else {
        with_syntax(
            with_checks(s, files.drop_last()),
            files.last().0@,
            opt_text(files.last().1),
        )
    }
}

/// What is sent while the syntax of several files is checked.
pub open spec fn check_publications(s: ServerModel, files: Seq<(String, Option<String>)>) -> Seq<
    (Seq<char>, Seq<Diag>),
>
    decreases files.len(),
{
    if files.len() == 0 {
        Seq::empty()
    } else {
        let before = check_publications(s, files.drop_last());
        match publication(with_checks(s, files).store, files.last().0@) {
            Some(p) => before.push(p),
            None => before,
        }
    }
}

/// Whether a wait that starts at the time `t` has an end.
pub open spec fn time_ok(t: u64) -> bool {
    t <= u64::MAX - DIAGNOSTICS_DEBOUNCE_MS
}

/// Whether the expansions of one file were dropped, and no others.
pub open spec fn dropped_expansions(
    before: MacroExpansionCache,
    after: MacroExpansionCache,
    path: Seq<char>,
) -> bool {
    forall|p: Seq<char>, line: u32, col: u32|
        #![trigger after.cached(p, line, col)]
        after.cached(p, line, col) == if same_path(p, path) {
            None
        } else {
            before.cached(p, line, col)
        }
}

/// The server after the document `path` was opened or changed to `text` at the time `now`.
pub open spec fn with_document(
    s: ServerModel,
    path: Seq<char>,
    text: Seq<char>,
    now: u64,
) -> ServerModel {
    ServerModel {
        index: with_source(s.index, path, text),
        open_docs: s.open_docs.insert(path_parts(path), text),
        pending: s.pending.insert(path_parts(path), now),
        ..s
    }
}

/// The server after the document `path` was closed.
pub open spec fn without_document(s: ServerModel, path: Seq<char>) -> ServerModel {
    ServerModel {
        open_docs: s.open_docs.remove(path_parts(path)),
        pending: s.pending.remove(path_parts(path)),
        store: StoreModel {
            syntax: s.store.syntax.remove(path_parts(path)),
            compiler: s.store.compiler.remove(path_parts(path)),
        },
        ..s
    }
}

/// The server after a notification that came at the time `now`.
pub open spec fn after_notification(s: ServerModel, n: Notification, now: u64) -> ServerModel {
    match n {
        Notification::DidOpen { uri, text } => match uri_path(uri@) {
            Some(path) => with_document(s, path, text@, now),
            None => s,
        },
        Notification::DidChange { uri, changes } => match uri_path(uri@) {
            Some(path) => if changes@.len() > 0 {
                with_document(s, path, changes@.last()@, now)
            } else {
                s
            },
            None => s,
        },
        Notification::DidClose { uri } => match uri_path(uri@) {
            Some(path) => without_document(s, path),
            None => s,
        },
        _ => s,
    }
}

impl ServerState {
    pub open spec fn wf(&self) -> bool {
        &&& self.index@.wf()
        &&& self.open_docs.wf()
        &&& self.pending_diagnostics.wf()
        &&& self.diagnostic_store.wf()
        &&& forall|key: Seq<Part>|
            self.pending_diagnostics@.contains_key(key) ==> time_ok(
                #[trigger] self.pending_diagnostics@[key],
            )
    }

    /// Starts with an index that finds definitions with `tags_query`, and with the files of the
    /// workspace and what was read of them; `None` where `tags_query` is no query for the grammar.
    pub fn new(tags_query: &str, files: &Vec<(String, Option<String>)>) -> (r: Option<Self>)
        ensures
            r is Some <==> crate::syntax::accepted_query(tags_query@),
            r matches Some(s) ==> s.wf() && s@ == (ServerModel {
                index: with_all_contents(
                    IndexModel {
                        query: tags_query@,
                        files: Seq::empty(),
                        hierarchy: Map::empty(),
                        ivars: Map::empty(),
                    },
                    files@,
                ),
                open_docs: Map::empty(),
                pending: Map::empty(),
                store: StoreModel { syntax: Map::empty(), compiler: Map::empty() },
            }),
    {
        match DocumentIndex::new(tags_query) {
            Some(index) => {
                let mut index = index;
                index.index_files(files);
                let s = ServerState {
                    index,
                    open_docs: PathMap::new(),
                    pending_diagnostics: PathMap::new(),
                    diagnostic_store: DiagnosticStore::new(),
                    macro_cache: MacroExpansionCache::new(),
                };
                assert(s@.open_docs =~= Map::empty());
                Some(s)
            },
            None => None,
        }
    }

    /// The text of a file: that of the open document, else what is on disk.
    pub fn get_source(&self, path: &str, on_disk: Option<&str>) -> (r: Option<String>)
        requires
            self.wf(),
        ensures
            opt_text(r) == current_text(self@, path@, opt_str(on_disk)),
    {
        match self.open_docs.get(path) {
            Some(text) => Some(copy(text)),
            None => copy_opt(on_disk),
        }
    }

    /// Notes that the syntax of a file is to be checked.
    pub fn schedule_diagnostics(&mut self, path: &str, now: u64)
        requires
            old(self).wf(),
            time_ok(now),
        ensures
            final(self).wf(),
            final(self)@ == (ServerModel {
                pending: old(self)@.pending.insert(path_parts(path@), now),
                ..old(self)@
            }),
            final(self).macro_cache == old(self).macro_cache,
    {
        self.pending_diagnostics.insert(path, now);
    }

    /// When the next check of a file's syntax is due.
    pub fn next_diagnostic_deadline(&self) -> (r: Option<u64>)
        requires
            self.wf(),
        ensures
            match r {
                Some(t) => (exists|key: Seq<Part>|
                    self@.pending.contains_key(key) && #[trigger] self@.pending[key]
                        + DIAGNOSTICS_DEBOUNCE_MS == t) && forall|key: Seq<Part>|
                    self@.pending.contains_key(key) ==> t <= #[trigger] self@.pending[key]
                        + DIAGNOSTICS_DEBOUNCE_MS,
                None => self@.pending == Map::<Seq<Part>, u64>::empty(),
            },
    {
        let ghost entries = self.pending_diagnostics.entries@;
        let n: usize = self.pending_diagnostics.entries.len();
        if n == 0 {
            assert(self@.pending =~= Map::empty());
            return None;
        }
        let mut least: u64 = self.pending_diagnostics.entries[0].1;
        let ghost mut at: int = 0;
        let mut i: usize = 1;
        while i < n
            invariant
                1 <= i <= n,
                entries == self.pending_diagnostics.entries@,
                n == entries.len(),
                0 <= at < i,
                least == entries[at].1,
                forall|k: int| 0 <= k < i ==> least <= (#[trigger] entries[k]).1,
            decreases n - i,
        {
            let t: u64 = self.pending_diagnostics.entries[i].1;
            if t < least {
                least = t;
                proof {
                    at = i as int;
                }
            }
            i = i + 1;
        }
        proof {
            let key = path_parts(entries[at].0@);
            self.pending_diagnostics.lemma_entry(at);
            assert(self@.pending.contains_key(key) && self@.pending[key] == least);
            assert forall|key: Seq<Part>| self@.pending.contains_key(key) implies least
                + DIAGNOSTICS_DEBOUNCE_MS <= #[trigger] self@.pending[key]
                + DIAGNOSTICS_DEBOUNCE_MS by {
                let k = choose|k: int| holds_key(entries, k, key);
                assert(holds_key(entries, k, key));
                self.pending_diagnostics.lemma_entry(k);
            }
        }
        Some(least + DIAGNOSTICS_DEBOUNCE_MS)
    }

    /// The files whose syntax is to be checked at the time `now`: those that were left alone for
    /// long enough.
    pub fn ready_diagnostics(&self, now: u64) -> (r: Vec<String>)
        requires
            self.wf(),
        ensures
            forall|key: Seq<Part>|
                (exists|i: int| 0 <= i < r@.len() && path_parts((#[trigger] r@[i])@) == key) <==> (
                #[trigger] self@.pending.contains_key(key) && self@.pending[key]
                    + DIAGNOSTICS_DEBOUNCE_MS <= now),
            forall|i: int, j: int|
                0 <= i < j < r@.len() ==> !same_path((#[trigger] r@[i])@, (#[trigger] r@[j])@),
    {
        let ghost entries = self.pending_diagnostics.entries@;
        let n: usize = self.pending_diagnostics.entries.len();
        let mut out: Vec<String> = Vec::new();
        let ghost mut from: Seq<int> = Seq::empty();
        let mut i: usize = 0;
        while i < n
            invariant
                i <= n,
                self.wf(),
                entries == self.pending_diagnostics.entries@,
                n == entries.len(),
                from.len() == out@.len(),
                forall|k: int|
                    0 <= k < out@.len() ==> 0 <= #[trigger] from[k] < i && out@[k]@
                        == entries[from[k]].0@ && entries[from[k]].1 + DIAGNOSTICS_DEBOUNCE_MS
                        <= now,
                forall|k: int, m: int|
                    0 <= k < m < out@.len() ==> #[trigger] from[k] < #[trigger] from[m],
                forall|k: int|
                    0 <= k < i && (#[trigger] entries[k]).1 + DIAGNOSTICS_DEBOUNCE_MS <= now
                        ==> from.contains(k),
            decreases n - i,
        {
            let e = &self.pending_diagnostics.entries[i];
            proof {
                self.pending_diagnostics.lemma_entry(i as int);
                assert(time_ok(entries[i as int].1));
            }
            let ghost held = from;
            if now >= e.1 + DIAGNOSTICS_DEBOUNCE_MS {
                out.push(copy(&e.0));
                proof {
                    from = from.push(i as int);
                    assert(from[held.len() as int] == i);
                    assert forall|k: int|
                        0 <= k <= i && (#[trigger] entries[k]).1 + DIAGNOSTICS_DEBOUNCE_MS
                            <= now implies from.contains(k) by {
                        if k < i {
                            assert(held.contains(k));
                            let m = choose|m: int| 0 <= m < held.len() && held[m] == k;
                            assert(from[m] == k);
                        }
                    }
                }
            }
            i = i + 1;
        }
        proof {
            let pending = self@.pending;
            assert forall|key: Seq<Part>|
                (exists|i: int| 0 <= i < out@.len() && path_parts((#[trigger] out@[i])@) == key)
                    <==> (#[trigger] pending.contains_key(key) && pending[key]
                    + DIAGNOSTICS_DEBOUNCE_MS <= now) by {
                if exists|i: int| 0 <= i < out@.len() && path_parts((#[trigger] out@[i])@) == key {
                    let k = choose|i: int|
                        0 <= i < out@.len() && path_parts((#[trigger] out@[i])@) == key;
                    assert(0 <= from[k] < n);
                    self.pending_diagnostics.lemma_entry(from[k]);
                }
                if pending.contains_key(key) && pending[key] + DIAGNOSTICS_DEBOUNCE_MS <= now {
                    let m = choose|m: int| holds_key(entries, m, key);
                    assert(holds_key(entries, m, key));
                    self.pending_diagnostics.lemma_entry(m);
                    assert(from.contains(m));
                    let k = choose|k: int| 0 <= k < from.len() && from[k] == m;
                    assert(path_parts(out@[k]@) == key);
                }
            }
            assert forall|i: int, j: int| 0 <= i < j < out@.len() implies !same_path(
                (#[trigger] out@[i])@,
                (#[trigger] out@[j])@,
            ) by {
                assert(from[i] < from[j]);
                if same_path(out@[i]@, out@[j]@) {
                    let key = path_parts(out@[i]@);
                    assert(holds_key(entries, from[i], key));
                    assert(holds_key(entries, from[j], key));
                }
            }
        }
        out
    }

    /// Checks the syntax of a file with the text `source`, and gives what is to be sent.
    pub fn publish_syntax(&mut self, path: &str, source: Option<&str>) -> (r: Option<Publication>)
        requires
            old(self).wf(),
        ensures
            final(self).wf(),
            final(self)@ == with_syntax(old(self)@, path@, opt_str(source)),
            final(self).macro_cache == old(self).macro_cache,
            opt_publication(r) == publication(final(self)@.store, path@),
    {
        self.pending_diagnostics.remove(path);
        let diags = match source {
            Some(s) => extract_syntax_errors(s),
            None => {
                let none: Vec<Diagnostic> = Vec::new();
                assert(diag_views(none@) =~= Seq::empty());
                none
            },
        };
        self.diagnostic_store.set_syntax(path, diags);
        self.publish(path)
    }

    /// Checks the syntax of the files that are due, each with its text, and gives what is to be sent.
    pub fn publish_pending_diagnostics(&mut self, files: &Vec<(String, Option<String>)>) -> (r: Vec<
        Publication,
    >)
        requires
            old(self).wf(),
        ensures
            final(self).wf(),
            final(self)@ == with_checks(old(self)@, files@),
            publication_views(r@) == check_publications(old(self)@, files@),
            final(self).macro_cache == old(self).macro_cache,
    {
        let ghost before = self@;
        let ghost cache = self.macro_cache;
        let mut out: Vec<Publication> = Vec::new();
        let mut i: usize = 0;
        assert(files@.take(0) =~= Seq::empty());
        assert(publication_views(out@) =~= Seq::empty());
        while i < files.len()
            invariant
                i <= files@.len(),
                self.wf(),
                self.macro_cache == cache,
                self@ == with_checks(before, files@.take(i as int)),
                publication_views(out@) == check_publications(before, files@.take(i as int)),
            decreases files@.len() - i,
        {
            let ghost sent = publication_views(out@);
            assert(files@.take(i + 1).drop_last() =~= files@.take(i as int));
            let source = match &files[i].1 {
                Some(s) => Some(s.as_str()),
                None => None,
            };
            if let Some(p) = self.publish_syntax(&files[i].0, source) {
                out.push(p);
                assert(publication_views(out@) =~= sent.push((p.uri@, diag_views(p.diagnostics@))));
            }
            i = i + 1;
        }
        assert(files@.take(i as int) =~= files@);
        out
    }

    /// Takes over what the compiler says about a file, and gives what is to be sent.
    pub fn publish_compiled(&mut self, path: &str, diags: Vec<Diagnostic>) -> (r: Option<
        Publication,
    >)
        requires
            old(self).wf(),
        ensures
            final(self).wf(),
            final(self)@ == with_compiled(old(self)@, path@, diag_views(diags@)),
            final(self).macro_cache == old(self).macro_cache,
            opt_publication(r) == publication(final(self)@.store, path@),
    {
        self.diagnostic_store.set_compiler(path, diags);
        self.publish(path)
    }

    fn publish(&self, path: &str) -> (r: Option<Publication>)
        requires
            self.wf(),
        ensures
            opt_publication(r) == publication(self@.store, path@),
    {
        match from_path(path) {
            Some(uri) => Some(
                Publication { uri, diagnostics: self.diagnostic_store.merged(path) },
            ),
            None => None,
        }
    }

    fn set_document(&mut self, path: &str, text: &str, now: u64)
        requires
            old(self).wf(),
            time_ok(now),
        ensures
            final(self).wf(),
            final(self)@ == with_document(old(self)@, path@, text@, now),
            final(self).macro_cache == old(self).macro_cache,
    {
        let ghost before = self@;
        self.index.update_file(path, text);
        self.open_docs.insert(path, copy(text));
        assert(self@.open_docs =~= before.open_docs.insert(path_parts(path@), text@));
        self.schedule_diagnostics(path, now);
    }

    /// The document `uri` was opened with `text`.
    pub fn did_open(&mut self, uri: &str, text: &str, now: u64)
        requires
            old(self).wf(),
            time_ok(now),
        ensures
            final(self).wf(),
            final(self)@ == match uri_path(uri@) {
                Some(path) => with_document(old(self)@, path, text@, now),
                None => old(self)@,
            },
            final(self).macro_cache == old(self).macro_cache,
    {
        if let Some(path) = to_path(uri) {
            self.set_document(&path, text, now);
        }
    }

    /// The document `uri` was changed; the last of `changes` is its text. The expansions that are
    /// kept for it are dropped.
    pub fn did_change(&mut self, uri: &str, changes: &Vec<String>, now: u64)
        requires
            old(self).wf(),
            time_ok(now),
        ensures
            final(self).wf(),
            match (uri_path(uri@), changes@.len() > 0) {
                (Some(path), true) => final(self)@ == with_document(
                    old(self)@,
                    path,
                    changes@.last()@,
                    now,
                ) && dropped_expansions(old(self).macro_cache, final(self).macro_cache, path),
                _ => *final(self) == *old(self),
            },
    {
        if let Some(path) = to_path(uri) {
            let n: usize = changes.len();
            if n > 0 {
                self.set_document(&path, &changes[n - 1], now);
                self.macro_cache.invalidate(&path);
            }
        }
    }

    /// The document `uri` was closed. Gives the path of its file, which is to be indexed again from
    /// disk by [`reindex`](ServerState::reindex).
    pub fn did_close(&mut self, uri: &str) -> (r: Option<String>)
        requires
            old(self).wf(),
        ensures
            final(self).wf(),
            opt_text(r) == uri_path(uri@),
            final(self)@ == match uri_path(uri@) {
                Some(path) => without_document(old(self)@, path),
                None => old(self)@,
            },
            final(self).macro_cache == old(self).macro_cache,
    {
        match to_path(uri) {
            Some(path) => {
                let ghost before = self@;
                self.open_docs.remove(&path);
                assert(self@.open_docs =~= before.open_docs.remove(path_parts(path@)));
                self.pending_diagnostics.remove(&path);
                self.diagnostic_store.clear(&path);
                Some(path)
            },
            None => None,
        }
    }

    /// Indexes a closed file from what was read of it on disk, and gives what is to be sent: that
    /// there is nothing to show for it.
    pub fn reindex(&mut self, path: &str, on_disk: Option<&str>) -> (r: Option<Publication>)
        requires
            old(self).wf(),
        ensures
            final(self).wf(),
            final(self)@ == (ServerModel {
                index: crate::index::with_contents(old(self)@.index, path@, opt_str(on_disk)),
                ..old(self)@
            }),
            final(self).macro_cache == old(self).macro_cache,
            opt_publication(r) == match path_uri(path@) {
                Some(uri) => Some((uri, Seq::<Diag>::empty())),
                None => None,
            },
    {
        self.index.index_file(path, on_disk);
        match from_path(path) {
            Some(uri) => {
                let diagnostics: Vec<Diagnostic> = Vec::new();
                assert(diag_views(diagnostics@) =~= Seq::empty());
                Some(Publication { uri, diagnostics })
            },
            None => None,
        }
    }

    /// Decides whether a request can be answered.
    pub fn can_answer(&self, request: &Request, source: Option<&str>) -> (r: bool)
        ensures
            r == answerable(self@.index, *request, opt_str(source)),
    {
        match request {
            Request::Completion { uri, position } => match (to_path(uri), source) {
                (Some(_), Some(text)) => is_position_ok(text, *position),
                _ => true,
            },
            Request::DocumentSymbols { uri } => has_outline(&self.index, uri),
            _ => true,
        }
    }

    /// Answers a request, where `source` is the text of its document.
    pub fn handle_request(&self, request: &Request, source: Option<&str>) -> (r: Answer<'_>)
        requires
            self.wf(),
            answerable(self@.index, *request, opt_str(source)),
        ensures
            answers(self@.index, self.macro_cache, *request, opt_str(source), r),
    {
        match request {
            Request::Definition { uri, position } => Answer::Definition(
                definition::handle(&self.index, uri, *position, source),
            ),
            Request::Hover { uri, position } => Answer::Hover(
                hover::handle(&self.index, &self.macro_cache, uri, *position, source),
            ),
            Request::Completion { uri, position } => Answer::Completion(
                completion::handle(&self.index, uri, *position, source),
            ),
            Request::DocumentSymbols { uri } => Answer::DocumentSymbols(
                handle_document_symbols(&self.index, uri),
            ),
            Request::WorkspaceSymbols { query } => Answer::WorkspaceSymbols(
                handle_workspace_symbols(&self.index, query),
            ),
            Request::Other => Answer::Null,
        }
    }

    /// Takes over a notification that came at the time `now`, and tells what has to be done.
    pub fn handle_notification(&mut self, notification: &Notification, now: u64) -> (r: Followup)
        requires
            old(self).wf(),
            time_ok(now),
        ensures
            final(self).wf(),
            leads_to(*notification, r),
            final(self)@ == after_notification(old(self)@, *notification, now),
            match *notification {
                Notification::DidChange { uri, changes } => if uri_path(uri@) is Some
                    && changes@.len() > 0 {
                    dropped_expansions(
                        old(self).macro_cache,
                        final(self).macro_cache,
                        uri_path(uri@)->0,
                    )
                } else {
                    final(self).macro_cache == old(self).macro_cache
                },
                _ => final(self).macro_cache == old(self).macro_cache,
            },
    {
        match notification {
            Notification::DidOpen { uri, text } => {
                self.did_open(uri, text, now);
                Followup::Nothing
            },
            Notification::DidChange { uri, changes } => {
                self.did_change(uri, changes, now);
                Followup::Nothing
            },
            Notification::DidClose { uri } => match self.did_close(uri) {
                Some(path) => Followup::Reindex(path),
                None => Followup::Nothing,
            },
            Notification::DidSave { uri } => match self.did_save(uri) {
                Some(path) => Followup::Compile(path),
                None => Followup::Nothing,
            },
            Notification::Initialized | Notification::Other => Followup::Nothing,
        }
    }

    /// The document `uri` was saved. Gives the path of its file, on which the compiler is to be run.
    pub fn did_save(&self, uri: &str) -> (r: Option<String>)
        ensures
            opt_text(r) == uri_path(uri@),
    {
        to_path(uri)
    }
}

/// What was opened or changed is what is read back, it is indexed with that text, its syntax is to
/// be checked, and no other open document changes.
pub proof fn lemma_document_is_current(
    s: ServerModel,
    path: Seq<char>,
    text: Seq<char>,
    now: u64,
    other: Seq<char>,
)
    ensures
        ({
            let after = with_document(s, path, text, now);
            &&& after.open_docs.contains_key(path_parts(path))
            &&& after.open_docs[path_parts(path)] == text
            &&& after.index == with_source(s.index, path, text)
            &&& after.pending.contains_key(path_parts(path))
            &&& after.pending[path_parts(path)] == now
            &&& !same_path(other, path) ==> after.open_docs.contains_key(path_parts(other))
                == s.open_docs.contains_key(path_parts(other)) && (s.open_docs.contains_key(
                path_parts(other),
            ) ==> after.open_docs[path_parts(other)] == s.open_docs[path_parts(other)])
        }),
{
}

} // verus!
