//! What the editor extension does.

use vstd::prelude::*;

use crate::extension::{
    after_cached, after_download, after_executable, after_file, after_release, cached_after,
    first_step, Step,
    argument_completions, asset_for, asset_url, binary_path, check_output, command_args,
    command_named, download_url, either_stream, expand_output, message_text, messages_text,
    spec_output, Architecture, Os, ReleaseAsset, SlashCommand,
};
use crate::laws::diagnostics::lemma_nil_risk;
use crate::laws::text::lemma_has_middle;
use crate::semantic::{
    completion_highlight, listed_messages, member, message_of, nilable_union, symbol_highlight,
    type_highlight, CompletionKind, Json, Message, SymbolKind,
};
use crate::spec_runner::{annotations, ResultView};
use crate::text::{decimal, has_text, split_on, trimmed};

verus! {

// ---------------------------------------------------------------------------
// The server's binary
// ---------------------------------------------------------------------------

/// There is a binary for the 64-bit machines of macOS and Linux, and for nothing else.
pub proof fn lemma_supported_platforms(os: Os, arch: Architecture)
    ensures
        asset_for(os, arch) is Some <==> (os == Os::Mac || os == Os::Linux) && (arch
            == Architecture::Aarch64 || arch == Architecture::X8664),
{
}

/// The name of a binary tells the system and the machine that it is for.
pub proof fn lemma_asset_names(os: Os, arch: Architecture)
    requires
        asset_for(os, arch) is Some,
    ensures
        ({
            let machine = if arch == Architecture::Aarch64 {
                "arm64"@
            } else {
                "x86_64"@
            };
            let system = if os == Os::Mac {
                "apple-darwin"@
            } else {
                "unknown-linux-musl"@
            };
            asset_for(os, arch)->0 == "zircon-server_"@ + machine + "-"@ + system + ".gz"@
        }),
{
    reveal_strlit("arm64");
    reveal_strlit("x86_64");
    reveal_strlit("apple-darwin");
    reveal_strlit("unknown-linux-musl");
    reveal_strlit("zircon-server_");
    reveal_strlit("-");
    reveal_strlit(".gz");
    reveal_strlit("zircon-server_arm64-apple-darwin.gz");
    reveal_strlit("zircon-server_x86_64-apple-darwin.gz");
    reveal_strlit("zircon-server_arm64-unknown-linux-musl.gz");
    reveal_strlit("zircon-server_x86_64-unknown-linux-musl.gz");
    assert("zircon-server_arm64-apple-darwin.gz"@ =~= "zircon-server_"@ + "arm64"@ + "-"@
        + "apple-darwin"@ + ".gz"@);
    assert("zircon-server_x86_64-apple-darwin.gz"@ =~= "zircon-server_"@ + "x86_64"@ + "-"@
        + "apple-darwin"@ + ".gz"@);
    assert("zircon-server_arm64-unknown-linux-musl.gz"@ =~= "zircon-server_"@ + "arm64"@ + "-"@
        + "unknown-linux-musl"@ + ".gz"@);
    assert("zircon-server_x86_64-unknown-linux-musl.gz"@ =~= "zircon-server_"@ + "x86_64"@ + "-"@
        + "unknown-linux-musl"@ + ".gz"@);
}

proof fn lemma_asset_url(assets: Seq<ReleaseAsset>, name: Seq<char>, i: int)
    requires
        0 <= i,
    ensures
        match asset_url(assets, name, i) {
            Some(url) => exists|k: int|
                i <= k < assets.len() && (#[trigger] assets[k]).name@ == name
                    && assets[k].download_url@ == url,
            None => forall|k: int| i <= k < assets.len() ==> (#[trigger] assets[k]).name@ != name,
        },
    decreases assets.len() - i,
{
    if i < assets.len() && assets[i].name@ != name {
        lemma_asset_url(assets, name, i + 1);
    }
}

/// What is downloaded is a file of the release that is called like the binary of the platform; a
/// release that has none, and a platform without one, are refused.
pub proof fn lemma_download(os: Os, arch: Architecture, assets: Seq<ReleaseAsset>)
    ensures
        match download_url(os, arch, assets) {
            Ok(url) => exists|k: int|
                0 <= k < assets.len() && asset_for(os, arch) == Some((#[trigger] assets[k]).name@)
                    && assets[k].download_url@ == url,
            Err(_) => forall|k: int|
                0 <= k < assets.len() ==> asset_for(os, arch) != Some((#[trigger] assets[k]).name@),
        },
{
    if let Some(name) = asset_for(os, arch) {
        lemma_asset_url(assets, name, 0);
    }
}

/// The binaries of two versions do not get into each other's way.
pub proof fn lemma_binary_by_version(a: Seq<char>, b: Seq<char>)
    requires
        binary_path(a) == binary_path(b),
    ensures
        a == b,
{
    let front = "zircon-server-"@;
    let back = "/zircon-server"@;
    let n = front.len() as int;
    assert(binary_path(a).len() == front.len() + a.len() + back.len());
    assert(binary_path(b).len() == front.len() + b.len() + back.len());
    assert(binary_path(a).subrange(n, n + a.len()) =~= a);
    assert(binary_path(b).subrange(n, n + b.len()) =~= b);
}

/// The binary that was used last is used again while it is there; the latest release is asked for
/// only where there is none.
pub proof fn lemma_cached_binary_first(path: Seq<char>)
    ensures
        first_step(Some(path)) == Step::CheckCached(path),
        first_step(None) == Step::FetchRelease,
        after_cached(path, true) == Step::Use(path),
        after_cached(path, false) == Step::FetchRelease,
{
}

/// Getting the binary of a release ends with that of its version: it is used where it is there, and
/// else after it was downloaded from the release and made executable; whatever fails ends it with its
/// reason.
pub proof fn lemma_binary_of_release(
    version: Seq<char>,
    os: Os,
    arch: Architecture,
    assets: Seq<ReleaseAsset>,
    reason: Seq<char>,
)
    ensures
        after_release(Ok(version)) matches Step::CheckFile(path) && {
            &&& has_text(path, version)
            &&& after_file(path, true, os, arch, assets) == Step::Use(path)
            &&& download_url(os, arch, assets) matches Ok(url) ==> after_file(
                path,
                false,
                os,
                arch,
                assets,
            ) == Step::Download(url, path)
            &&& download_url(os, arch, assets) matches Err(e) ==> after_file(
                path,
                false,
                os,
                arch,
                assets,
            ) == Step::Fail(e)
            &&& after_download(path, Ok(())) == Step::MakeExecutable(path)
            &&& after_executable(path, Ok(())) == Step::Use(path)
            &&& after_download(path, Err(reason)) == Step::Fail(reason)
            &&& after_executable(path, Err(reason)) == Step::Fail(reason)
        },
        after_release(Err(reason)) == Step::Fail(reason),
{
    lemma_has_middle("zircon-server-"@, version, "/zircon-server"@);
}

/// A binary is remembered exactly when it is used.
pub proof fn lemma_binary_is_remembered(cached: Option<Seq<char>>, step: Step, path: Seq<char>)
    ensures
        cached_after(cached, Step::Use(path)) == Some(path),
        !(step is Use) ==> cached_after(cached, step) == cached,
{
}

// ---------------------------------------------------------------------------
// Slash commands
// ---------------------------------------------------------------------------

/// Each slash command is known by its name, and no other name stands for it.
pub proof fn lemma_commands(name: Seq<char>)
    ensures
        command_named(name) == Some(SlashCommand::Expand) <==> name == "crystal-expand"@,
        command_named(name) == Some(SlashCommand::Check) <==> name == "crystal-check"@,
        command_named(name) == Some(SlashCommand::Spec) <==> name == "crystal-spec"@,
{
    lemma_command_names();
}

/// Expanding and checking need a file, and hand it to the compiler; a place to expand at goes behind
/// `-c`. Specs are run without a file too, and then all of them.
pub proof fn lemma_command_args(args: Seq<Seq<char>>)
    ensures
        args.len() == 0 <==> command_args(SlashCommand::Expand, args) is Err,
        args.len() == 0 <==> command_args(SlashCommand::Check, args) is Err,
        command_args(SlashCommand::Spec, args) is Ok,
        args.len() > 0 ==> (command_args(SlashCommand::Check, args)->Ok_0).last() == args[0],
        args.len() > 0 ==> (command_args(SlashCommand::Check, args)->Ok_0)
            == crate::crystal_cli::check_command(args[0]),
        args.len() > 0 ==> {
            let r = command_args(SlashCommand::Expand, args)->Ok_0;
            r[0] == "tool"@ && r[1] == "expand"@ && r.last() == args[0]
        },
        args.len() == 1 ==> !(command_args(SlashCommand::Expand, args)->Ok_0).contains("-c"@)
            || args[0] == "-c"@,
        args.len() > 1 ==> {
            let r = command_args(SlashCommand::Expand, args)->Ok_0;
            r.len() == 5 && r[2] == "-c"@ && r[3] == args[1]
        },
        ({
            let r = command_args(SlashCommand::Spec, args)->Ok_0;
            &&& r.len() == 3 && r[0] == "spec"@ && r[2] == "--no-color"@
            &&& args.len() > 0 ==> r[1] == args[0]
            &&& args.len() == 0 ==> r[1] == "spec/"@
        }),
{
    reveal_strlit("tool");
    reveal_strlit("expand");
    reveal_strlit("-c");
    assert("tool"@.len() != "-c"@.len() && "expand"@.len() != "-c"@.len());
}

/// What the compiler printed on its first stream counts, and what is on the second only where there
/// is nothing on the first.
pub proof fn lemma_streams(stdout: Seq<char>, stderr: Seq<char>)
    ensures
        stdout.len() > 0 ==> either_stream(stdout, stderr) == stdout,
        stdout.len() == 0 ==> either_stream(stdout, stderr) == stderr,
{
}

/// An expansion shows what the compiler printed, between fences; without any output it is refused,
/// with what the compiler said where it said something.
pub proof fn lemma_expansion(args: Seq<Seq<char>>, stdout: Seq<char>, stderr: Seq<char>)
    requires
        args.len() > 0,
    ensures
        expand_output(args, stdout, stderr) is Ok <==> stdout.len() > 0,
        expand_output(args, stdout, stderr) matches Ok((text, label)) ==> has_text(
            text,
            trimmed(stdout),
        ) && has_text(label, args[0]),
        stdout.len() == 0 && stderr.len() > 0 ==> (expand_output(args, stdout, stderr) matches Err(
            e,
        ) && has_text(e, stderr)),
{
    let none = Seq::<char>::empty();
    lemma_has_middle("```crystal\n"@, trimmed(stdout), "\n```"@);
    if args.len() > 1 {
        lemma_has_middle("Macro expansion: "@, args[0], ":"@ + args[1]);
        assert("Macro expansion: "@ + args[0] + (":"@ + args[1]) =~= "Macro expansion: "@ + args[0]
            + ":"@ + args[1]);
    } else {
        lemma_has_middle("Macro expansion: "@, args[0], none);
        assert("Macro expansion: "@ + args[0] + none =~= "Macro expansion: "@ + args[0]);
    }
    lemma_has_middle("crystal tool expand failed:\n"@, stderr, none);
    assert("crystal tool expand failed:\n"@ + stderr + none =~= "crystal tool expand failed:\n"@
        + stderr);
}

proof fn lemma_messages_text(ms: Seq<Message>, i: int)
    requires
        0 <= i < ms.len(),
    ensures
        exists|a: Seq<char>, b: Seq<char>|
            messages_text(ms) == #[trigger] (a + message_text(ms[i]) + b),
    decreases ms.len(),
{
    let front = ms.drop_last();
    let none = Seq::<char>::empty();
    if i == ms.len() - 1 {
        let a = messages_text(front);
        assert(a + message_text(ms[i]) + none =~= messages_text(ms));
    } else {
        lemma_messages_text(front, i);
        let (a, b) = choose|a: Seq<char>, b: Seq<char>|
            messages_text(front) == #[trigger] (a + message_text(front[i]) + b);
        let more = b + message_text(ms.last());
        assert(a + message_text(ms[i]) + more =~= messages_text(ms));
    }
}

/// A check shows every message of the compiler: where it is, how bad it is, and what it says.
pub proof fn lemma_check_shows(file: Seq<char>, ms: Seq<Message>, i: int)
    requires
        0 <= i < ms.len(),
    ensures
        ({
            let m = ms[i];
            let place = m.file + ":"@ + decimal(m.line as nat) + ":"@ + decimal(m.column as nat)
                + " ["@ + m.severity + "]"@;
            let mark = if has_text(m.message, "for Nil"@) || has_text(m.message, "not Nil"@)
                || has_text(m.message, "| Nil"@) {
                " [nil-risk]"@
            } else {
                Seq::empty()
            };
            has_text(check_output(file, ms).0, place + mark + "\n  "@ + m.message + "\n\n"@)
        }),
{
    lemma_nil_risk(ms[i].message);
    lemma_messages_text(ms, i);
    let (a, b) = choose|a: Seq<char>, b: Seq<char>|
        messages_text(ms) == #[trigger] (a + message_text(ms[i]) + b);
    lemma_has_middle(a, message_text(ms[i]), b);
}

/// A check without messages says that there are none; the label of one with messages counts them.
pub proof fn lemma_check_label(file: Seq<char>, ms: Seq<Message>)
    ensures
        ms.len() == 0 ==> check_output(file, ms) == (
            "No type issues found in `"@ + file + "`."@,
            "Crystal check: "@ + file,
        ),
        ms.len() > 0 ==> check_output(file, ms).1 == "Crystal check: "@ + file + " ("@ + decimal(
            ms.len(),
        ) + " issues)"@,
{
}

/// A run of specs is shown with its annotations, and its label tells whether it passed.
pub proof fn lemma_spec_label(path: Seq<char>, r: ResultView)
    ensures
        spec_output(path, r).0 == annotations(r),
        r.failures.len() == 0 ==> spec_output(path, r).1 == "Specs passed: "@ + path,
        r.failures.len() > 0 ==> "Spec failures: "@.is_prefix_of(spec_output(path, r).1),
{
    let label = spec_output(path, r).1;
    let start = "Spec failures: "@;
    if r.failures.len() > 0 {
        assert(label.take(start.len() as int) =~= start);
    }
}

/// Whether the command is run as soon as an argument is chosen: always, but for an expansion, where a
/// place may follow.
pub proof fn lemma_argument_completions(name: Seq<char>, i: int)
    requires
        0 <= i < argument_completions(name).len(),
    ensures
        argument_completions(name)[i].2 <==> name != "crystal-expand"@,
        command_named(name) is Some,
{
    lemma_commands(name);
}

// ---------------------------------------------------------------------------
// Messages
// ---------------------------------------------------------------------------

/// An object with a file, a line, a column and a message is a message of the compiler; it is an error
/// unless it says otherwise.
pub proof fn lemma_object_is_message(
    m: Map<Seq<char>, Json>,
    file: Seq<char>,
    line: u32,
    column: u32,
    text: Seq<char>,
)
    requires
        m.contains_key("file"@) && m["file"@] == Json::Text(file),
        m.contains_key("line"@) && m["line"@] == Json::Number(Some(line as u64)),
        m.contains_key("column"@) && m["column"@] == Json::Number(Some(column as u64)),
        m.contains_key("message"@) && m["message"@] == Json::Text(text),
    ensures
        message_of(Json::Object(m)) matches Some(r) && {
            &&& r.file == file
            &&& r.line == line
            &&& r.column == column
            &&& r.message == text
            &&& !m.contains_key("severity"@) ==> r.severity == "error"@
            &&& m.contains_key("severity"@) ==> (m["severity"@] matches Json::Text(s) ==> r.severity
                == s)
        },
{
    lemma_member_names();
}

/// What lacks one of these is no message.
pub proof fn lemma_incomplete_is_no_message(j: Json)
    requires
        member(j, "file"@) is None || member(j, "line"@) is None || member(j, "column"@) is None
            || member(j, "message"@) is None,
    ensures
        message_of(j) is None,
{
}

/// The messages of a list are those of its items, in their order; what is no list has none.
pub proof fn lemma_listed(items: Seq<Json>, j: Json)
    ensures
        listed_messages(Json::Array(items.push(j))) == match message_of(j) {
            Some(m) => listed_messages(Json::Array(items)).push(m),
            None => listed_messages(Json::Array(items)),
        },
        listed_messages(Json::Array(Seq::empty())).len() == 0,
        !(j is Array) ==> listed_messages(j).len() == 0,
{
    assert(items.push(j).drop_last() =~= items);
}

// ---------------------------------------------------------------------------
// Highlighting
// ---------------------------------------------------------------------------

/// A type is highlighted as a constant where it is `Nil`, as a built-in type where it is a union with
/// `Nil`, and as a type otherwise.
pub proof fn lemma_type_highlights(s: Seq<char>)
    ensures
        type_highlight(s) == "constant.builtin"@ <==> trimmed(s) == "Nil"@,
        trimmed(s) != "Nil"@ && nilable_union(s) ==> type_highlight(s) == "type.builtin"@,
        trimmed(s) != "Nil"@ && !nilable_union(s) ==> type_highlight(s) == "type"@,
{
    reveal_strlit("constant.builtin");
    reveal_strlit("type.builtin");
    reveal_strlit("type");
    assert("constant.builtin"@.len() != "type.builtin"@.len());
    assert("constant.builtin"@.len() != "type"@.len());
}

/// A union with `Nil` as its last member is one that may be `Nil`, and a type without a bar is none.
pub proof fn lemma_nilable(rest: Seq<char>, s: Seq<char>)
    ensures
        nilable_union(rest + "| Nil"@),
        !s.contains('|') ==> !nilable_union(s),
{
    reveal_strlit("| Nil");
    reveal_strlit("Nil");
    let none = Seq::<char>::empty();
    let text = rest + "| Nil"@;
    let last = seq![' '] + "Nil"@;
    assert(text =~= rest + seq!['|'] + last);
    assert(!last.contains('|'));
    crate::laws::text::lemma_split_last(rest, last, '|');
    let members = split_on(text, '|');
    crate::text::lemma_split_on_nonempty(rest, '|');
    assert(seq![' '] + "Nil"@ + none =~= last);
    crate::laws::text::lemma_trim_around(seq![' '], "Nil"@, none);
    assert(members[members.len() - 1] == last);
    assert(trimmed(members[members.len() - 1]) == "Nil"@);
    if !s.contains('|') {
        crate::laws::text::lemma_split_one(s, '|');
    }
}

/// Methods, functions and constructors are highlighted alike, as symbols and as completions; so are
/// types and constants, and so are properties and fields.
pub proof fn lemma_highlights_agree()
    ensures
        completion_highlight(CompletionKind::Method) == "function.method"@,
        completion_highlight(CompletionKind::Function) == "function.method"@,
        completion_highlight(CompletionKind::Constructor) == "function.method"@,
        symbol_highlight(SymbolKind::Method) == "function.method"@,
        symbol_highlight(SymbolKind::Function) == "function.method"@,
        symbol_highlight(SymbolKind::Constructor) == "function.method"@,
        completion_highlight(CompletionKind::Class) == "type"@,
        completion_highlight(CompletionKind::Module) == "type"@,
        completion_highlight(CompletionKind::Struct) == "type"@,
        completion_highlight(CompletionKind::Interface) == "type"@,
        completion_highlight(CompletionKind::Enum) == "type"@,
        completion_highlight(CompletionKind::EnumMember) == "type"@,
        completion_highlight(CompletionKind::Constant) == "type"@,
        symbol_highlight(SymbolKind::Class) == "type"@,
        symbol_highlight(SymbolKind::Module) == "type"@,
        symbol_highlight(SymbolKind::Struct) == "type"@,
        symbol_highlight(SymbolKind::Interface) == "type"@,
        symbol_highlight(SymbolKind::Namespace) == "type"@,
        symbol_highlight(SymbolKind::Enum) == "type"@,
        symbol_highlight(SymbolKind::EnumMember) == "type"@,
        symbol_highlight(SymbolKind::Constant) == "type"@,
        completion_highlight(CompletionKind::Keyword) == "keyword"@,
        completion_highlight(CompletionKind::Snippet) == "keyword"@,
        completion_highlight(CompletionKind::Property) == "property"@,
        completion_highlight(CompletionKind::Field) == "property"@,
        symbol_highlight(SymbolKind::Property) == "property"@,
        symbol_highlight(SymbolKind::Field) == "property"@,
        completion_highlight(CompletionKind::Variable) == "variable"@,
        completion_highlight(CompletionKind::File) == "variable"@,
        completion_highlight(CompletionKind::TypeParameter) == "variable"@,
        symbol_highlight(SymbolKind::Variable) == "variable"@,
        symbol_highlight(SymbolKind::TypeParameter) == "variable"@,
{
}

/// The names of the slash commands are different words.
proof fn lemma_command_names()
    ensures
        "crystal-expand"@.len() == 14,
        "crystal-check"@.len() == 13,
        "crystal-spec"@.len() == 12,
{
    reveal_strlit("crystal-expand");
    reveal_strlit("crystal-check");
    reveal_strlit("crystal-spec");
}


/// The names of the members of a message are different words.
proof fn lemma_member_names()
    ensures
        "file"@.len() == 4,
        "line"@.len() == 4,
        "file"@[0] == 'f',
        "line"@[0] == 'l',
        "column"@.len() == 6,
        "message"@.len() == 7,
        "severity"@.len() == 8,
{
    reveal_strlit("file");
    reveal_strlit("line");
    reveal_strlit("column");
    reveal_strlit("message");
    reveal_strlit("severity");
}


} // verus!
