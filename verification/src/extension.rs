//! The editor extension: getting the server's binary, and the slash commands.
//!
//! Releases are fetched, files are looked up and programs are run outside; this module tells what is
//! needed next and makes the answers of it.

use vstd::prelude::*;
use vstd::utf8::encode_utf8;

use crate::protocol::narrow;
use crate::semantic::{
    is_nil_risk, json_text, listed_messages, message_views, parse_diagnostics, CrystalDiagnostic,
    Message,
};
use crate::spec_runner::{
    annotations, format_inline_annotations, parse_spec_output, report, ResultView,
};
use crate::text::{
    chars_of, copy, decimal, opt_text, push_chars, push_decimal, same, texts, trim, trimmed,
};

verus! {

// ---------------------------------------------------------------------------
// The server's binary
// ---------------------------------------------------------------------------

/// The operating systems that the editor runs on.
#[derive(Debug, Clone, Copy, PartialEq, Eq, Structural)]
pub enum Os {
    Mac,
    Linux,
    Windows,
}

/// The machines that the editor runs on.
#[derive(Debug, Clone, Copy, PartialEq, Eq, Structural)]
pub enum Architecture {
    Aarch64,
    X86,
    X8664,
}

/// A file of a release.
#[derive(Debug)]
pub struct ReleaseAsset {
    pub name: String,
    pub download_url: String,
}

/// The file of a release that runs on a platform.
pub open spec fn asset_for(os: Os, arch: Architecture) -> Option<Seq<char>> {
    match (os, arch) {
        (Os::Mac, Architecture::Aarch64) => Some("zircon-server_arm64-apple-darwin.gz"@),
        (Os::Mac, Architecture::X8664) => Some("zircon-server_x86_64-apple-darwin.gz"@),
        (Os::Linux, Architecture::X8664) => Some("zircon-server_x86_64-unknown-linux-musl.gz"@),
        (Os::Linux, Architecture::Aarch64) => Some("zircon-server_arm64-unknown-linux-musl.gz"@),
        _ => None,
    }
}

/// Tells which file of a release runs on a platform.
pub fn asset_name(os: Os, arch: Architecture) -> (r: Option<&'static str>)
    ensures
        match r {
            Some(s) => asset_for(os, arch) == Some(s@),
            None => asset_for(os, arch) is None,
        },
{
    match (os, arch) {
        (Os::Mac, Architecture::Aarch64) => Some("zircon-server_arm64-apple-darwin.gz"),
        (Os::Mac, Architecture::X8664) => Some("zircon-server_x86_64-apple-darwin.gz"),
        (Os::Linux, Architecture::X8664) => Some("zircon-server_x86_64-unknown-linux-musl.gz"),
        (Os::Linux, Architecture::Aarch64) => Some("zircon-server_arm64-unknown-linux-musl.gz"),
        _ => None,
    }
}

/// Where the first of `assets` from `i` on that is called `name` can be downloaded.
pub open spec fn asset_url(assets: Seq<ReleaseAsset>, name: Seq<char>, i: int) -> Option<Seq<char>>
    decreases assets.len() - i,
{
    if i < 0 || i >= assets.len() {
        None
    } else if assets[i].name@ == name {
        Some(assets[i].download_url@)
    } else {
        asset_url(assets, name, i + 1)
    }
}

/// The text of a result.
pub open spec fn result_text(r: Result<String, String>) -> Result<Seq<char>, Seq<char>> {
    match r {
        Ok(s) => Ok(s@),
        Err(e) => Err(e@),
    }
}

/// Where the file of a release that runs on a platform can be downloaded, or why it cannot.
pub open spec fn download_url(
    os: Os,
    arch: Architecture,
    assets: Seq<ReleaseAsset>,
) -> Result<Seq<char>, Seq<char>> {
    match asset_for(os, arch) {
        None => Err("unsupported platform for zircon-server"@),
        Some(name) => match asset_url(assets, name, 0) {
            Some(url) => Ok(url),
            None => Err("no release asset found: "@ + name),
        },
    }
}

/// Finds where the file of a release that runs on a platform can be downloaded.
pub fn find_asset(os: Os, arch: Architecture, assets: &Vec<ReleaseAsset>) -> (r: Result<
    String,
    String,
>)
    ensures
        result_text(r) == download_url(os, arch, assets@),
{
    match asset_name(os, arch) {
        None => Err(copy("unsupported platform for zircon-server")),
        Some(name) => {
            let mut i: usize = 0;
            while i < assets.len()
                invariant
                    i <= assets@.len(),
                    asset_for(os, arch) == Some(name@),
                    asset_url(assets@, name@, 0) == asset_url(assets@, name@, i as int),
                decreases assets@.len() - i,
            {
                if same(&assets[i].name, name) {
                    return Ok(copy(&assets[i].download_url));
                }
                i = i + 1;
            }
            let mut e = copy("no release asset found: ");
            e.append(name);
            Err(e)
        },
    }
}

/// The path of the binary of a version.
pub open spec fn binary_path(version: Seq<char>) -> Seq<char> {
    "zircon-server-"@ + version + "/zircon-server"@
}

/// What is needed next to get the server's binary.
#[derive(Debug, PartialEq)]
pub enum BinaryStep {
    /// Look whether this file, which was used before, still exists.
    CheckCached(String),
    /// Fetch what is known of the latest release.
    FetchRelease,
    /// Look whether this file exists.
    CheckFile(String),
    /// Download a file from a URL to a path.
    Download { url: String, path: String },
    /// Make this file executable.
    MakeExecutable(String),
    /// Run this file.
    Use(String),
    /// Give up, for this reason.
    Fail(String),
}

/// The model of a [`BinaryStep`].
pub enum Step {
    CheckCached(Seq<char>),
    FetchRelease,
    CheckFile(Seq<char>),
    Download(Seq<char>, Seq<char>),
    MakeExecutable(Seq<char>),
    Use(Seq<char>),
    Fail(Seq<char>),
}

impl View for BinaryStep {
    type V = Step;

    open spec fn view(&self) -> Step {
        match self {
            BinaryStep::CheckCached(p) => Step::CheckCached(p@),
            BinaryStep::FetchRelease => Step::FetchRelease,
            BinaryStep::CheckFile(p) => Step::CheckFile(p@),
            BinaryStep::Download { url, path } => Step::Download(url@, path@),
            BinaryStep::MakeExecutable(p) => Step::MakeExecutable(p@),
            BinaryStep::Use(p) => Step::Use(p@),
            BinaryStep::Fail(e) => Step::Fail(e@),
        }
    }
}

/// The first step, where the file `cached` was used last.
pub open spec fn first_step(cached: Option<Seq<char>>) -> Step {
    match cached {
        Some(p) => Step::CheckCached(p),
        None => Step::FetchRelease,
    }
}

/// The step after the file `path`, which was used last, was looked for.
pub open spec fn after_cached(path: Seq<char>, found: bool) -> Step {
    if found {
        Step::Use(path)
    } else {
        Step::FetchRelease
    }
}

/// The step after the latest release was fetched.
pub open spec fn after_release(version: Result<Seq<char>, Seq<char>>) -> Step {
    match version {
        Ok(v) => Step::CheckFile(binary_path(v)),
        Err(e) => Step::Fail(e),
    }
}

/// The step after the binary `path` of the latest release was looked for.
pub open spec fn after_file(
    path: Seq<char>,
    found: bool,
    os: Os,
    arch: Architecture,
    assets: Seq<ReleaseAsset>,
) -> Step {
    if found {
        Step::Use(path)
    } else {
        match download_url(os, arch, assets) {
            Ok(url) => Step::Download(url, path),
            Err(e) => Step::Fail(e),
        }
    }
}

/// What became of something that can fail.
pub open spec fn outcome_of(r: Result<(), String>) -> Result<(), Seq<char>> {
    match r {
        Ok(_) => Ok(()),
        Err(e) => Err(e@),
    }
}

/// The step after the binary was downloaded to `path`.
pub open spec fn after_download(path: Seq<char>, outcome: Result<(), Seq<char>>) -> Step {
    match outcome {
        Ok(_) => Step::MakeExecutable(path),
        Err(e) => Step::Fail(e),
    }
}

/// The step after the binary at `path` was made executable.
pub open spec fn after_executable(path: Seq<char>, outcome: Result<(), Seq<char>>) -> Step {
    match outcome {
        Ok(_) => Step::Use(path),
        Err(e) => Step::Fail(e),
    }
}

/// The file to be used first next time, after the step `step`, where `cached` was so before.
pub open spec fn cached_after(cached: Option<Seq<char>>, step: Step) -> Option<Seq<char>> {
    match step {
        Step::Use(path) => Some(path),
        _ => cached,
    }
}

/// Finds the server's binary, and downloads it where needed. Starting with
/// [`server_binary_path`](ServerBinaryManager::server_binary_path), the outcome of each step is
/// handed to the function named after it, until there is a file to run or a reason to give up.
#[derive(Debug)]
pub struct ServerBinaryManager {
    /// The file that was used last.
    pub cached_binary_path: Option<String>,
}

impl ServerBinaryManager {
    pub fn new() -> (r: Self)
        ensures
            r.cached_binary_path is None,
    {
        ServerBinaryManager { cached_binary_path: None }
    }

    /// The first step: the file that was used last, or else the latest release.
    pub fn server_binary_path(&self) -> (r: BinaryStep)
        ensures
            r@ == first_step(opt_text(self.cached_binary_path)),
    {
        match &self.cached_binary_path {
            Some(p) => BinaryStep::CheckCached(copy(p)),
            None => BinaryStep::FetchRelease,
        }
    }

    /// The file that was used last was looked for.
    pub fn checked_cached(&self, path: &str, found: bool) -> (r: BinaryStep)
        ensures
            r@ == after_cached(path@, found),
    {
        if found {
            BinaryStep::Use(copy(path))
        } else {
            BinaryStep::FetchRelease
        }
    }

    /// The latest release was fetched: it has this version, or there is a reason why it could not
    /// be.
    pub fn fetched_release(&self, version: &Result<String, String>) -> (r: BinaryStep)
        ensures
            r@ == after_release(result_text(*version)),
    {
        match version {
            Ok(v) => {
                let mut p = copy("zircon-server-");
                p.append(v);
                p.append("/zircon-server");
                BinaryStep::CheckFile(p)
            },
            Err(e) => BinaryStep::Fail(copy(e)),
        }
    }

    /// The binary of the latest release was looked for. Where it is not there, it is downloaded.
    pub fn checked_file(
        &mut self,
        path: &str,
        found: bool,
        os: Os,
        arch: Architecture,
        assets: &Vec<ReleaseAsset>,
    ) -> (r: BinaryStep)
        ensures
            r@ == after_file(path@, found, os, arch, assets@),
            opt_text(final(self).cached_binary_path) == cached_after(
                opt_text(old(self).cached_binary_path),
                r@,
            ),
    {
        if found {
            self.cached_binary_path = Some(copy(path));
            return BinaryStep::Use(copy(path));
        }
        match find_asset(os, arch, assets) {
            Ok(url) => BinaryStep::Download { url, path: copy(path) },
            Err(e) => BinaryStep::Fail(e),
        }
    }

    /// The binary was downloaded.
    pub fn downloaded(&self, path: &str, outcome: &Result<(), String>) -> (r: BinaryStep)
        ensures
            r@ == after_download(path@, outcome_of(*outcome)),
    {
        match outcome {
            Ok(_) => BinaryStep::MakeExecutable(copy(path)),
            Err(e) => BinaryStep::Fail(copy(e)),
        }
    }

    /// The binary was made executable.
    pub fn made_executable(&mut self, path: &str, outcome: &Result<(), String>) -> (r: BinaryStep)
        ensures
            r@ == after_executable(path@, outcome_of(*outcome)),
            opt_text(final(self).cached_binary_path) == cached_after(
                opt_text(old(self).cached_binary_path),
                r@,
            ),
    {
        match outcome {
            Ok(_) => {
                self.cached_binary_path = Some(copy(path));
                BinaryStep::Use(copy(path))
            },
            Err(e) => BinaryStep::Fail(copy(e)),
        }
    }
}

// ---------------------------------------------------------------------------
// Slash commands
// ---------------------------------------------------------------------------

/// The slash commands.
#[derive(Debug, Clone, Copy, PartialEq, Eq, Structural)]
pub enum SlashCommand {
    Expand,
    Check,
    Spec,
}

/// The slash command of a name.
pub open spec fn command_named(name: Seq<char>) -> Option<SlashCommand> {
    if name == "crystal-expand"@ {
        Some(SlashCommand::Expand)
    } else if name == "crystal-check"@ {
        Some(SlashCommand::Check)
    } else if name == "crystal-spec"@ {
        Some(SlashCommand::Spec)
    } else {
        None
    }
}

/// Finds the slash command of a name.
pub fn find_command(name: &str) -> (r: Option<SlashCommand>)
    ensures
        r == command_named(name@),
{
    if same(name, "crystal-expand") {
        Some(SlashCommand::Expand)
    } else if same(name, "crystal-check") {
        Some(SlashCommand::Check)
    } else if same(name, "crystal-spec") {
        Some(SlashCommand::Spec)
    } else {
        None
    }
}

/// The program arguments of a command, or what is wrong with it.
pub open spec fn args_result(r: Result<Vec<String>, String>) -> Result<Seq<Seq<char>>, Seq<char>> {
    match r {
        Ok(v) => Ok(texts(v@)),
        Err(e) => Err(e@),
    }
}

/// The arguments with which the compiler runs the command `command`.
pub open spec fn command_args(command: SlashCommand, args: Seq<Seq<char>>) -> Result<
    Seq<Seq<char>>,
    Seq<char>,
> {
    match command {
        SlashCommand::Expand => if args.len() == 0 {
            Err("usage: /crystal-expand <file> [line:col]"@)
        } else if args.len() == 1 {
            Ok(seq!["tool"@, "expand"@, args[0]])
        } else {
            Ok(seq!["tool"@, "expand"@, "-c"@, args[1], args[0]])
        },
        SlashCommand::Check => if args.len() == 0 {
            Err("usage: /crystal-check <file>"@)
        } else {
            Ok(seq!["build"@, "--no-codegen"@, "-f"@, "json"@, args[0]])
        },
        SlashCommand::Spec => Ok(seq!["spec"@, spec_path(args), "--no-color"@]),
    }
}

/// What the spec command runs: its first argument, or all specs.
pub open spec fn spec_path(args: Seq<Seq<char>>) -> Seq<char> {
    if args.len() == 0 {
        "spec/"@
    } else {
        args[0]
    }
}

fn choose_spec_path(args: &Vec<String>) -> (r: String)
    ensures
        r@ == spec_path(texts(args@)),
{
    assert(texts(args@).len() == args@.len());
    if args.len() == 0 {
        copy("spec/")
    } else {
        copy(&args[0])
    }
}

/// Runs a slash command: tells with which arguments the compiler is started.
pub fn run_slash_command(name: &str, args: &Vec<String>) -> (r: Result<Vec<String>, String>)
    ensures
        args_result(r) == match command_named(name@) {
            Some(command) => command_args(command, texts(args@)),
            None => Err("unknown command: "@ + name@),
        },
{
    let ghost all = texts(args@);
    assert(all.len() == args@.len());
    match find_command(name) {
        Some(SlashCommand::Expand) => {
            if args.len() == 0 {
                return Err(copy("usage: /crystal-expand <file> [line:col]"));
            }
            let mut v: Vec<String> = Vec::new();
            v.push(copy("tool"));
            v.push(copy("expand"));
            if args.len() > 1 {
                v.push(copy("-c"));
                v.push(copy(&args[1]));
            }
            v.push(copy(&args[0]));
            assert(texts(v@) =~= if all.len() == 1 {
                seq!["tool"@, "expand"@, all[0]]
            } else {
                seq!["tool"@, "expand"@, "-c"@, all[1], all[0]]
            });
            Ok(v)
        },
        Some(SlashCommand::Check) => {
            if args.len() == 0 {
                return Err(copy("usage: /crystal-check <file>"));
            }
            Ok(crate::crystal_cli::check_args(&args[0]))
        },
        Some(SlashCommand::Spec) => {
            let v = vec![copy("spec"), choose_spec_path(args), copy("--no-color")];
            assert(texts(v@) =~= seq!["spec"@, spec_path(all), "--no-color"@]);
            Ok(v)
        },
        None => {
            let mut e = copy("unknown command: ");
            e.append(name);
            Err(e)
        },
    }
}

/// What a slash command gives: a text with one section over all of it.
#[derive(Debug)]
pub struct SlashOutput {
    pub text: String,
    /// The end of the section: the length of the text in bytes.
    pub end: u32,
    pub label: String,
}

/// The model of a [`SlashOutput`]: its text and its label.
pub type Output = (Seq<char>, Seq<char>);

impl View for SlashOutput {
    type V = Output;

    open spec fn view(&self) -> Output {
        (self.text@, self.label@)
    }
}

impl SlashOutput {
    /// The section covers the text.
    pub open spec fn wf(&self) -> bool {
        self.end == encode_utf8(self.text@).len() as u32
    }

    fn new(text: String, label: String) -> (r: Self)
        ensures
            r.wf(),
            r@ == (text@, label@),
    {
        let end = narrow(text.as_str().as_bytes().len());
        SlashOutput { text, end, label }
    }
}

/// The model of the outcome of a command.
pub open spec fn output_result(r: Result<SlashOutput, String>) -> Result<Output, Seq<char>> {
    match r {
        Ok(o) => Ok(o@),
        Err(e) => Err(e@),
    }
}

/// What the expansion of a macro gives, from what the compiler printed.
pub open spec fn expand_output(
    args: Seq<Seq<char>>,
    stdout: Seq<char>,
    stderr: Seq<char>,
) -> Result<Output, Seq<char>> {
    if stdout.len() == 0 {
        if stderr.len() > 0 {
            Err("crystal tool expand failed:\n"@ + stderr)
        } else {
            Err("crystal tool expand produced no output"@)
        }
    } else {
        Ok(
            (
                "```crystal\n"@ + trimmed(stdout) + "\n```"@,
                if args.len() > 1 {
                    "Macro expansion: "@ + args[0] + ":"@ + args[1]
                } else {
                    "Macro expansion: "@ + args[0]
                },
            ),
        )
    }
}

/// Makes the output of the expansion of a macro.
pub fn run_macro_expand(args: &Vec<String>, stdout: &str, stderr: &str) -> (r: Result<
    SlashOutput,
    String,
>)
    requires
        args@.len() > 0,
    ensures
        output_result(r) == expand_output(texts(args@), stdout@, stderr@),
        r matches Ok(o) ==> o.wf(),
{
    let ghost all = texts(args@);
    assert(all.len() == args@.len());
    let out = chars_of(stdout);
    if out.len() == 0 {
        if chars_of(stderr).len() > 0 {
            let mut e = copy("crystal tool expand failed:\n");
            e.append(stderr);
            return Err(e);
        }
        return Err(copy("crystal tool expand produced no output"));
    }
    let mut text = copy("```crystal\n");
    push_chars(&mut text, trim(&out));
    text.append("\n```");
    let mut label = copy("Macro expansion: ");
    label.append(&args[0]);
    if args.len() > 1 {
        label.append(":");
        label.append(&args[1]);
    }
    Ok(SlashOutput::new(text, label))
}

/// How a message of the compiler is shown.
pub open spec fn message_text(m: Message) -> Seq<char> {
    m.file + ":"@ + decimal(m.line as nat) + ":"@ + decimal(m.column as nat) + " ["@ + m.severity
        + "]"@ + if crate::crystal_cli::nil_risk(m.message) {
        " [nil-risk]"@
    } else {
        Seq::empty()
    } + "\n  "@ + m.message + "\n\n"@
}

/// How messages of the compiler are shown.
pub open spec fn messages_text(ms: Seq<Message>) -> Seq<char>
    decreases ms.len(),
{
    if ms.len() == 0 {
        Seq::empty()
    } else {
        messages_text(ms.drop_last()) + message_text(ms.last())
    }
}

/// What checking the file `file` gives, where the compiler has the messages `ms`.
pub open spec fn check_output(file: Seq<char>, ms: Seq<Message>) -> Output {
    if ms.len() == 0 {
        ("No type issues found in `"@ + file + "`."@, "Crystal check: "@ + file)
    } else {
        (
            messages_text(ms),
            "Crystal check: "@ + file + " ("@ + decimal(ms.len()) + " issues)"@,
        )
    }
}

fn push_message(out: &mut String, d: &CrystalDiagnostic)
    ensures
        final(out)@ == old(out)@ + message_text(d@),
{
    let ghost before = out@;
    let mut s = copy(&d.file);
    s.append(":");
    push_decimal(&mut s, d.line as u64);
    s.append(":");
    push_decimal(&mut s, d.column as u64);
    s.append(" [");
    s.append(&d.severity);
    s.append("]");
    let ghost head = s@;
    if is_nil_risk(&d.message) {
        s.append(" [nil-risk]");
    } else {
        assert(s@ =~= head + Seq::<char>::empty());
    }
    s.append("\n  ");
    s.append(&d.message);
    s.append("\n\n");
    out.append(&s);
}

/// Makes the output of a check from the messages of the compiler.
pub fn format_check(file_path: &str, diagnostics: &Vec<CrystalDiagnostic>) -> (r: SlashOutput)
    ensures
        r@ == check_output(file_path@, message_views(diagnostics@)),
        r.wf(),
{
    let ghost all = message_views(diagnostics@);
    assert(all.len() == diagnostics@.len());
    let mut label = copy("Crystal check: ");
    label.append(file_path);
    if diagnostics.len() == 0 {
        let mut text = copy("No type issues found in `");
        text.append(file_path);
        text.append("`.");
        return SlashOutput::new(text, label);
    }
    let mut text = String::new();
    let mut i: usize = 0;
    assert(all.take(0) =~= Seq::empty());
    assert(text@ =~= messages_text(all.take(0)));
    while i < diagnostics.len()
        invariant
            i <= diagnostics@.len(),
            all == message_views(diagnostics@),
            text@ == messages_text(all.take(i as int)),
        decreases diagnostics@.len() - i,
    {
        assert(all.take(i + 1).drop_last() =~= all.take(i as int));
        push_message(&mut text, &diagnostics[i]);
        i = i + 1;
    }
    assert(all.take(i as int) =~= all);
    label.append(" (");
    push_decimal(&mut label, diagnostics.len() as u64);
    label.append(" issues)");
    SlashOutput::new(text, label)
}

/// What a program printed, on whichever stream it printed.
pub open spec fn either_stream(stdout: Seq<char>, stderr: Seq<char>) -> Seq<char> {
    if stdout.len() > 0 {
        stdout
    } else {
        stderr
    }
}

fn choose_stream<'a>(stdout: &'a str, stderr: &'a str) -> (r: &'a str)
    ensures
        r@ == either_stream(stdout@, stderr@),
{
    if chars_of(stdout).len() > 0 {
        stdout
    } else {
        stderr
    }
}

/// Makes the output of a check from what the compiler printed.
pub fn run_crystal_check(file_path: &str, stdout: &str, stderr: &str) -> (r: SlashOutput)
    ensures
        r@ == check_output(
            file_path@,
            match json_text(either_stream(stdout@, stderr@)) {
                Some(j) => listed_messages(j),
                None => Seq::empty(),
            },
        ),
        r.wf(),
{
    let diagnostics = parse_diagnostics(choose_stream(stdout, stderr));
    format_check(file_path, &diagnostics)
}

/// What a run of the specs `path` gives.
pub open spec fn spec_output(path: Seq<char>, result: ResultView) -> Output {
    (
        annotations(result),
        if result.failures.len() == 0 {
            "Specs passed: "@ + path
        } else {
            "Spec failures: "@ + path + " ("@ + decimal(result.summary.failed as nat) + "/"@
                + decimal(result.summary.total as nat) + ")"@
        },
    )
}

/// Makes the output of a run of specs from what it printed.
pub fn run_crystal_spec(args: &Vec<String>, stdout: &str, stderr: &str) -> (r: SlashOutput)
    ensures
        r@ == spec_output(
            spec_path(texts(args@)),
            report(either_stream(stdout@, stderr@)),
        ),
        r.wf(),
{
    let path = choose_spec_path(args);
    let result = parse_spec_output(choose_stream(stdout, stderr));
    let text = format_inline_annotations(&result);
    assert(result@.failures.len() == result.failures@.len());
    let mut label = if result.failures.len() == 0 {
        copy("Specs passed: ")
    } else {
        copy("Spec failures: ")
    };
    label.append(&path);
    if result.failures.len() > 0 {
        label.append(" (");
        push_decimal(&mut label, result.failed as u64);
        label.append("/");
        push_decimal(&mut label, result.total as u64);
        label.append(")");
    }
    SlashOutput::new(text, label)
}

/// A completion of the argument of a slash command.
#[derive(Debug, PartialEq)]
pub struct ArgumentCompletion {
    pub label: String,
    pub new_text: String,
    pub run_command: bool,
}

/// The models of completions of an argument: label, text and whether the command is run.
pub open spec fn argument_views(s: Seq<ArgumentCompletion>) -> Seq<(Seq<char>, Seq<char>, bool)> {
    Seq::new(s.len(), |i: int| (s[i].label@, s[i].new_text@, s[i].run_command))
}

/// The completions of the argument of the command `name`.
pub open spec fn argument_completions(name: Seq<char>) -> Seq<(Seq<char>, Seq<char>, bool)> {
    match command_named(name) {
        Some(SlashCommand::Expand) => seq![
            ("file.cr"@, "file.cr"@, false),
            ("file.cr line:col"@, "file.cr 1:1"@, false),
        ],
        Some(SlashCommand::Check) => seq![("file.cr"@, "file.cr"@, true)],
        Some(SlashCommand::Spec) => seq![
            ("spec/file_spec.cr"@, "spec/file_spec.cr"@, true),
            ("spec/ (run all)"@, "spec/"@, true),
        ],
        None => Seq::empty(),
    }
}

fn argument(label: &str, new_text: &str, run_command: bool) -> (r: ArgumentCompletion)
    ensures
        r.label@ == label@,
        r.new_text@ == new_text@,
        r.run_command == run_command,
{
    ArgumentCompletion { label: copy(label), new_text: copy(new_text), run_command }
}

/// Completes the argument of a slash command.
pub fn complete_slash_command_argument(name: &str) -> (r: Vec<ArgumentCompletion>)
    ensures
        argument_views(r@) == argument_completions(name@),
{
    let mut v: Vec<ArgumentCompletion> = Vec::new();
    match find_command(name) {
        Some(SlashCommand::Expand) => {
            v.push(argument("file.cr", "file.cr", false));
            v.push(argument("file.cr line:col", "file.cr 1:1", false));
        },
        Some(SlashCommand::Check) => {
            v.push(argument("file.cr", "file.cr", true));
        },
        Some(SlashCommand::Spec) => {
            v.push(argument("spec/file_spec.cr", "spec/file_spec.cr", true));
            v.push(argument("spec/ (run all)", "spec/", true));
        },
        None => {},
    }
    assert(argument_views(v@) =~= argument_completions(name@));
    v
}

} // verus!
