//! What the server does with messages.

use vstd::prelude::*;

use crate::diagnostics::{merged_diagnostics, source_errors};
use crate::index::with_source;
use crate::laws::uri::lemma_file_uri;
use crate::paths::{path_parts, same_path};
use crate::protocol::Diag;
use crate::server::{
    after_notification, check_publications, current_text, leads_to, loop_step, notification_kind, publication, request_kind,
    with_checks, with_compiled, with_syntax, Event, Followup, LoopStep, Notification,
    NotificationKind, RequestKind, ServerModel, DIAGNOSTICS_DEBOUNCE_MS,
};
use crate::text::opt_text;
use crate::uri::{path_uri, uri_path};

verus! {

/// Each request is known by its method name, and no other name stands for it.
pub proof fn lemma_request_names(method: Seq<char>)
    ensures
        request_kind(method) == RequestKind::Definition <==> method == "textDocument/definition"@,
        request_kind(method) == RequestKind::Hover <==> method == "textDocument/hover"@,
        request_kind(method) == RequestKind::Completion <==> method == "textDocument/completion"@,
        request_kind(method) == RequestKind::DocumentSymbols <==> method
            == "textDocument/documentSymbol"@,
        request_kind(method) == RequestKind::WorkspaceSymbols <==> method == "workspace/symbol"@,
{
    lemma_request_methods();
}

/// Each notification is known by its method name, and no other name stands for it.
pub proof fn lemma_notification_names(method: Seq<char>)
    ensures
        notification_kind(method) == NotificationKind::DidOpen <==> method
            == "textDocument/didOpen"@,
        notification_kind(method) == NotificationKind::DidChange <==> method
            == "textDocument/didChange"@,
        notification_kind(method) == NotificationKind::DidClose <==> method
            == "textDocument/didClose"@,
        notification_kind(method) == NotificationKind::DidSave <==> method
            == "textDocument/didSave"@,
        notification_kind(method) == NotificationKind::Initialized <==> method == "initialized"@,
{
    lemma_notification_methods();
}

/// The loop stops exactly when the connection is closed or it is asked to; every request but that one
/// and every notification is handled, and what the compiler says is sent.
pub proof fn lemma_loop(event: Event)
    ensures
        loop_step(event) == LoopStep::Stop <==> event == Event::Disconnected || event
            == Event::Request(true),
        loop_step(event) == LoopStep::HandleRequest <==> event == Event::Request(false),
        loop_step(event) == LoopStep::HandleNotification <==> event == Event::Notification,
        loop_step(event) == LoopStep::PublishPending <==> event == Event::Deadline,
        loop_step(event) == LoopStep::PublishCompiled <==> event == Event::Compiled,
        loop_step(event) == LoopStep::Wait <==> event == Event::Response,
{
}

/// A document that is opened or changed is indexed with its new text, under the path that its URI
/// names; of several changes the last counts.
pub proof fn lemma_document_notifications(
    s: ServerModel,
    uri: String,
    path: Seq<char>,
    text: String,
    changes: Vec<String>,
    now: u64,
)
    requires
        uri_path(uri@) == Some(path),
        changes@.len() > 0,
    ensures
        ({
            let opened = after_notification(s, Notification::DidOpen { uri, text }, now);
            let changed = after_notification(s, Notification::DidChange { uri, changes }, now);
            let key = path_parts(path);
            &&& opened.open_docs.contains_key(key) && opened.open_docs[key] == text@
            &&& opened.index == with_source(s.index, path, text@)
            &&& opened.pending.contains_key(key) && opened.pending[key] == now
            &&& opened.store == s.store
            &&& changed.open_docs.contains_key(key) && changed.open_docs[key] == changes@[changes@.len()
                - 1]@
            &&& changed.index == with_source(s.index, path, changes@[changes@.len() - 1]@)
            &&& changed.pending.contains_key(key) && changed.pending[key] == now
            &&& changed.store == s.store
        }),
{
}

/// A document that is closed is forgotten: its text, its check and its diagnostics. Those of every
/// other document stay.
pub proof fn lemma_close_forgets(
    s: ServerModel,
    uri: String,
    path: Seq<char>,
    other: Seq<char>,
    now: u64,
)
    requires
        uri_path(uri@) == Some(path),
        !same_path(path, other),
    ensures
        ({
            let closed = after_notification(s, Notification::DidClose { uri }, now);
            let key = path_parts(path);
            &&& !closed.open_docs.contains_key(key)
            &&& !closed.pending.contains_key(key)
            &&& merged_diagnostics(closed.store, path).len() == 0
            &&& closed.index == s.index
            &&& closed.open_docs.contains_key(path_parts(other)) == s.open_docs.contains_key(
                path_parts(other),
            )
            &&& s.open_docs.contains_key(path_parts(other)) ==> closed.open_docs[path_parts(other)]
                == s.open_docs[path_parts(other)]
            &&& merged_diagnostics(closed.store, other) == merged_diagnostics(s.store, other)
        }),
{
}

/// A file is read again from disk when its document is closed, and compiled when it is saved; nothing
/// else leads to either.
pub proof fn lemma_followups(n: Notification, f: Followup)
    requires
        leads_to(n, f),
    ensures
        f matches Followup::Reindex(p) ==> (n matches Notification::DidClose { uri } && uri_path(
            uri@,
        ) == Some(p@)),
        f matches Followup::Compile(p) ==> (n matches Notification::DidSave { uri } && uri_path(uri@)
            == Some(p@)),
        n matches Notification::DidClose { uri } && uri_path(uri@) is Some ==> f is Reindex,
        n matches Notification::DidSave { uri } && uri_path(uri@) is Some ==> f is Compile,
{
}

/// A notification about something that is no file changes nothing and leads to nothing.
pub proof fn lemma_foreign_documents(
    s: ServerModel,
    uri: String,
    text: String,
    changes: Vec<String>,
    now: u64,
)
    requires
        !"file://"@.is_prefix_of(uri@),
    ensures
        after_notification(s, Notification::DidOpen { uri, text }, now) == s,
        after_notification(s, Notification::DidChange { uri, changes }, now) == s,
        after_notification(s, Notification::DidClose { uri }, now) == s,
        leads_to(Notification::DidClose { uri }, Followup::Nothing),
        leads_to(Notification::DidSave { uri }, Followup::Nothing),
{
    lemma_file_uri(uri@);
}

/// A check takes a file off the list of those to be checked, and what is sent for it is what is known
/// of it from then on; what the compiler said of it stays.
pub proof fn lemma_check_is_published(s: ServerModel, path: Seq<char>, text: Seq<char>)
    ensures
        ({
            let checked = with_syntax(s, path, Some(text));
            let key = path_parts(path);
            &&& !checked.pending.contains_key(key)
            &&& checked.store.syntax.contains_key(key)
            &&& checked.store.syntax[key] == source_errors(text)
            &&& checked.store.compiler == s.store.compiler
            &&& checked.open_docs == s.open_docs
            &&& checked.index == s.index
            &&& publication(checked.store, path) matches Some((uri, diags)) ==> path_uri(path)
                == Some(uri) && diags == merged_diagnostics(checked.store, path)
            &&& !s.store.compiler.contains_key(key) && path_uri(path) is Some ==> publication(
                checked.store,
                path,
            ) == Some((path_uri(path)->0, source_errors(text)))
        }),
{
}

/// Several files are checked one after the other, and what is sent for each is what is known of it
/// right then.
pub proof fn lemma_checks_in_turn(
    s: ServerModel,
    files: Seq<(String, Option<String>)>,
    path: String,
    text: Option<String>,
)
    ensures
        ({
            let more = files.push((path, text));
            let after = with_syntax(with_checks(s, files), path@, opt_text(text));
            &&& with_checks(s, more) == after
            &&& path_uri(path@) matches Some(uri) ==> check_publications(s, more)
                == check_publications(s, files).push(
                (uri, merged_diagnostics(after.store, path@)),
            )
            &&& path_uri(path@) is None ==> check_publications(s, more) == check_publications(
                s,
                files,
            )
            &&& with_checks(s, Seq::empty()) == s
            &&& check_publications(s, Seq::empty()).len() == 0
        }),
{
    assert(files.push((path, text)).drop_last() =~= files);
}

/// The text of a document that is open goes before what is on disk: what was opened or changed last is
/// what is read, until the document is closed.
pub proof fn lemma_open_text_counts(
    s: ServerModel,
    uri: String,
    path: Seq<char>,
    text: String,
    now: u64,
    on_disk: Option<Seq<char>>,
)
    requires
        uri_path(uri@) == Some(path),
    ensures
        ({
            let opened = after_notification(s, Notification::DidOpen { uri, text }, now);
            let closed = after_notification(opened, Notification::DidClose { uri }, now);
            &&& current_text(opened, path, on_disk) == Some(text@)
            &&& current_text(closed, path, on_disk) == on_disk
        }),
{
}

/// What the compiler says of a file is shown for it, all of it, and changes nothing else.
pub proof fn lemma_compiled_is_shown(
    s: ServerModel,
    path: Seq<char>,
    diags: Seq<Diag>,
    d: Diag,
    other: Seq<char>,
)
    requires
        diags.contains(d),
        !same_path(path, other),
    ensures
        ({
            let after = with_compiled(s, path, diags);
            &&& merged_diagnostics(after.store, path).contains(d)
            &&& merged_diagnostics(after.store, other) == merged_diagnostics(s.store, other)
            &&& after.open_docs == s.open_docs
            &&& after.pending == s.pending
            &&& after.index == s.index
            &&& after.store.syntax == s.store.syntax
        }),
{
    let after = with_compiled(s, path, diags);
    let key = path_parts(path);
    if s.store.syntax.contains_key(key) {
        crate::diagnostics::lemma_merge_prefers_compiler(after.store, path, d);
    }
}

/// A document is checked once it was left alone for three twentieths of a second.
pub proof fn lemma_check_delay()
    ensures
        DIAGNOSTICS_DEBOUNCE_MS * 20 == 3 * 1000,
{
}

/// A file without text has no syntax errors.
pub proof fn lemma_check_without_text(s: ServerModel, path: Seq<char>)
    ensures
        with_syntax(s, path, None).store.syntax[path_parts(path)].len() == 0,
{
}

/// The names of the requests are different words.
proof fn lemma_request_methods()
    ensures
        "textDocument/definition"@.len() == 23,
        "textDocument/completion"@.len() == 23,
        "textDocument/definition"@[13] == 'd',
        "textDocument/completion"@[13] == 'c',
        "textDocument/hover"@.len() == 18,
        "textDocument/documentSymbol"@.len() == 27,
        "workspace/symbol"@.len() == 16,
{
    reveal_strlit("textDocument/definition");
    reveal_strlit("textDocument/hover");
    reveal_strlit("textDocument/completion");
    reveal_strlit("textDocument/documentSymbol");
    reveal_strlit("workspace/symbol");
}


/// The names of the notifications are different words.
proof fn lemma_notification_methods()
    ensures
        "textDocument/didOpen"@.len() == 20,
        "textDocument/didSave"@.len() == 20,
        "textDocument/didOpen"@[16] == 'O',
        "textDocument/didSave"@[16] == 'S',
        "textDocument/didChange"@.len() == 22,
        "textDocument/didClose"@.len() == 21,
        "initialized"@.len() == 11,
{
    reveal_strlit("textDocument/didOpen");
    reveal_strlit("textDocument/didChange");
    reveal_strlit("textDocument/didClose");
    reveal_strlit("textDocument/didSave");
    reveal_strlit("initialized");
}


} // verus!
