//! Resolving `require` statements to files.
//!
//! What a `require` can mean is told by [`RequireResolver::resolve`]; which of the files exist is
//! looked up outside, and the finishing functions decide from the answers.

use vstd::prelude::*;
use vstd::slice::slice_subrange;

use crate::order::stable_sorted;
use crate::paths::{
    crystal_file, file_name, file_name_of, is_crystal_file, is_same_path, join_path, joined_path,
    lies_under, parent, parent_path, path_order, path_starts_with, path_with_extension, same_path,
    sort_paths, with_extension,
};
use crate::text::{
    after_prefix, chars_of, contains_char, copy, copy_texts, ends_with_text, lines, opt_text, split,
    split_on, starts_with_text, string_of, strip_prefix, text_lines, texts, trim, trimmed, views,
};

verus! {

/// What a `require` stands for.
#[derive(Debug, PartialEq)]
pub enum ResolvedRequire {
    /// One or more files; a glob may give several.
    Files(Vec<String>),
    /// Something of the standard library.
    Stdlib(String),
    /// No file was found.
    Unresolved(String),
}

impl Clone for ResolvedRequire {
    fn clone(&self) -> (r: Self)
        ensures
            r@ == self@,
    {
        match self {
            ResolvedRequire::Files(files) => ResolvedRequire::Files(copy_texts(files)),
            ResolvedRequire::Stdlib(s) => ResolvedRequire::Stdlib(copy(s)),
            ResolvedRequire::Unresolved(s) => ResolvedRequire::Unresolved(copy(s)),
        }
    }
}

/// The model of a [`ResolvedRequire`].
pub enum Resolved {
    Files(Seq<Seq<char>>),
    Stdlib(Seq<char>),
    Unresolved(Seq<char>),
}

impl View for ResolvedRequire {
    type V = Resolved;

    open spec fn view(&self) -> Resolved {
        match self {
            ResolvedRequire::Files(files) => Resolved::Files(texts(files@)),
            ResolvedRequire::Stdlib(s) => Resolved::Stdlib(s@),
            ResolvedRequire::Unresolved(s) => Resolved::Unresolved(s@),
        }
    }
}

// ---------------------------------------------------------------------------
// Requires in a source text
// ---------------------------------------------------------------------------

/// The path that the line `line` requires.
pub open spec fn required_path(line: Seq<char>) -> Option<Seq<char>> {
    match after_prefix(trimmed(line), "require "@) {
        Some(rest) => {
            let quoted = trimmed(rest);
            if quoted.len() > 2 && quoted[0] == '"' && quoted.last() == '"' {
                Some(quoted.subrange(1, quoted.len() - 1))
            } else {
                None
            }
        },
        None => None,
    }
}

/// The paths that the lines require.
pub open spec fn required_paths(lines: Seq<Seq<char>>) -> Seq<Seq<char>>
    decreases lines.len(),
{
    if lines.len() == 0 {
        Seq::empty()
    } else {
        let before = required_paths(lines.drop_last());
        match required_path(lines.last()) {
            Some(p) => before.push(p),
            None => before,
        }
    }
}

fn read_require(line: &[char]) -> (r: Option<String>)
    ensures
        opt_text(r) == required_path(line@),
{
    match strip_prefix(trim(line), "require ") {
        Some(rest) => {
            let quoted = trim(rest);
            let n: usize = quoted.len();
            if n > 2 && quoted[0] == '"' && quoted[n - 1] == '"' {
                Some(string_of(slice_subrange(quoted, 1, n - 1)))
            } else {
                None
            }
        },
        None => None,
    }
}

/// Reads the paths that a source text requires: those of its lines `require "path"`.
pub fn extract_requires(source: &str) -> (r: Vec<String>)
    ensures
        texts(r@) == required_paths(text_lines(source@)),
{
    let all = lines(source);
    let ghost model = views(all@);
    let mut out: Vec<String> = Vec::new();
    let mut i: usize = 0;
    assert(model.take(0) =~= Seq::empty());
    assert(texts(out@) =~= Seq::empty());
    while i < all.len()
        invariant
            i <= all@.len(),
            model == views(all@),
            texts(out@) == required_paths(model.take(i as int)),
        decreases all@.len() - i,
    {
        let ghost before = texts(out@);
        assert(model.take(i + 1).drop_last() =~= model.take(i as int));
        assert(model.take(i + 1).last() == all@[i as int]@);
        if let Some(path) = read_require(&all[i]) {
            out.push(path);
            assert(texts(out@) =~= before.push(path@));
        }
        i = i + 1;
    }
    assert(model.take(i as int) =~= model);
    out
}

// ---------------------------------------------------------------------------
// What a require can mean
// ---------------------------------------------------------------------------

/// What has to be looked up to resolve a `require`.
#[derive(Debug, PartialEq)]
pub enum ResolvePlan {
    /// The first of these that is a file.
    First { candidates: Vec<String>, require: String },
    /// The Crystal files in a directory, or also in those below it.
    Glob { dir: String, recursive: bool },
    /// The main file of a shard, or the file `sub` inside it.
    Shard { entry: String, sub: Option<String>, require: String },
    /// Nothing: it is part of the standard library.
    Stdlib(String),
}

/// The model of a [`ResolvePlan`].
pub enum Lookup {
    First(Seq<Seq<char>>, Seq<char>),
    Glob(Seq<char>, bool),
    Shard(Seq<char>, Option<Seq<char>>, Seq<char>),
    Stdlib(Seq<char>),
}

impl View for ResolvePlan {
    type V = Lookup;

    open spec fn view(&self) -> Lookup {
        match self {
            ResolvePlan::First { candidates, require } => Lookup::First(
                texts(candidates@),
                require@,
            ),
            ResolvePlan::Glob { dir, recursive } => Lookup::Glob(dir@, *recursive),
            ResolvePlan::Shard { entry, sub, require } => Lookup::Shard(
                entry@,
                opt_text(*sub),
                require@,
            ),
            ResolvePlan::Stdlib(s) => Lookup::Stdlib(s@),
        }
    }
}

/// Whether a `require` is relative to the file it stands in.
pub open spec fn relative(require: Seq<char>) -> bool {
    "./"@.is_prefix_of(require) || "../"@.is_prefix_of(require)
}

/// What the relative `require` in a file of the directory `dir` can mean: the files of a directory
/// for `/*` and `/**`, else the file of that name or the file of that name in the directory of that
/// name.
pub open spec fn relative_lookup(require: Seq<char>, dir: Seq<char>) -> Lookup {
    if "/*"@.is_suffix_of(require) {
        Lookup::Glob(joined_path(dir, require.take(require.len() - 2)), false)
    } else if "/**"@.is_suffix_of(require) {
        Lookup::Glob(joined_path(dir, require.take(require.len() - 3)), true)
    } else {
        let target = joined_path(dir, require);
        let file = path_with_extension(target, "cr"@);
        match file_name_of(target) {
            Some(name) => Lookup::First(
                seq![file, path_with_extension(joined_path(target, name), "cr"@)],
                require,
            ),
            None => Lookup::First(seq![file], require),
        }
    }
}

/// The first of the project roots from `i` on that the file `from` lies under.
pub open spec fn root_of(roots: Seq<Seq<char>>, from: Seq<char>, i: int) -> Option<Seq<char>>
    decreases roots.len() - i,
{
    if i < 0 || i >= roots.len() {
        None
    } else if path_starts_with(from, roots[i]) {
        Some(roots[i])
    } else {
        root_of(roots, from, i + 1)
    }
}

/// The source directory of the shard `name` of the project at `root`.
pub open spec fn shard_source(root: Seq<char>, name: Seq<char>) -> Seq<char> {
    joined_path(joined_path(joined_path(root, "lib"@), name), "src"@)
}

/// What the `require` of a shard or of the standard library can mean in the file `from`: the main
/// file of the shard that is called like its first part, or the file of the rest inside the shard.
pub open spec fn shard_lookup(
    roots: Seq<Seq<char>>,
    require: Seq<char>,
    from: Seq<char>,
) -> Lookup {
    match root_of(roots, from, 0) {
        Some(root) => {
            let name = split_on(require, '/')[0];
            let source = shard_source(root, name);
            Lookup::Shard(
                path_with_extension(joined_path(source, name), "cr"@),
                if require.contains('/') {
                    Some(
                        path_with_extension(
                            joined_path(source, require.skip(name.len() as int + 1)),
                            "cr"@,
                        ),
                    )
                } else {
                    None
                },
                require,
            )
        },
        None => Lookup::Stdlib(require),
    }
}

/// What the `require` in the file `from` can mean.
pub open spec fn lookup(roots: Seq<Seq<char>>, require: Seq<char>, from: Seq<char>) -> Lookup {
    if relative(require) {
        let dir = match parent_path(from) {
            Some(d) => d,
            None => "."@,
        };
        relative_lookup(require, dir)
    } else {
        shard_lookup(roots, require, from)
    }
}

proof fn lemma_first_piece(s: Seq<char>, c: char)
    ensures
        split_on(s, c).len() > 0,
        split_on(s, c)[0].len() <= s.len(),
        s.contains(c) ==> split_on(s, c)[0].len() < s.len(),
        s.contains(c) <==> split_on(s, c).len() > 1,
    decreases s.len(),
{
    if s.len() > 0 {
        let front = s.drop_last();
        lemma_first_piece(front, c);
        let before = split_on(front, c);
        assert(s.contains(c) <==> front.contains(c) || s.last() == c) by {
            if front.contains(c) {
                let i = choose|i: int| 0 <= i < front.len() && front[i] == c;
                assert(s[i] == c);
            }
            if s.contains(c) {
                let i = choose|i: int| 0 <= i < s.len() && s[i] == c;
                if i < front.len() {
                    assert(front[i] == c);
                }
            }
        }
        if s.last() == c {
            assert(split_on(s, c)[0] == before[0]);
        } else if before.len() > 1 {
            assert(split_on(s, c)[0] == before[0]);
        }
    }
}

/// Adds the extension of Crystal files to a path.
fn crystal_path(path: &str) -> (r: String)
    ensures
        r@ == path_with_extension(path@, "cr"@),
{
    proof {
        reveal_strlit("cr");
        assert(!"cr"@.contains('/'));
    }
    with_extension(path, "cr")
}

/// Resolves Crystal `require` statements to file paths.
#[derive(Debug)]
pub struct RequireResolver {
    /// The directories that hold a `shard.yml`.
    pub project_roots: Vec<String>,
}

impl RequireResolver {
    pub fn new(project_roots: Vec<String>) -> (r: Self)
        ensures
            r.project_roots@ == project_roots@,
    {
        RequireResolver { project_roots }
    }

    /// Tells what a `require` in the file `from_file` can mean.
    pub fn resolve(&self, require_path: &str, from_file: &str) -> (r: ResolvePlan)
        ensures
            r@ == lookup(texts(self.project_roots@), require_path@, from_file@),
    {
        let chars = chars_of(require_path);
        if starts_with_text(&chars, "./") || starts_with_text(&chars, "../") {
            let dir = match parent(from_file) {
                Some(d) => d,
                None => copy("."),
            };
            self.resolve_relative(require_path, &dir)
        } else {
            self.resolve_shard_or_stdlib(require_path, from_file)
        }
    }

    /// Starts building the graph of requires from some files. Each file that the builder hands out
    /// is read, its requires are resolved by [`resolve`](RequireResolver::resolve), and what they
    /// stand for is taken over.
    pub fn build_graph(&self, files: &Vec<String>) -> (r: GraphBuilder)
        ensures
            r@ == graph_start(texts(files@)),
            r@.wf(),
    {
        GraphBuilder::new(files)
    }

    fn resolve_relative(&self, require_path: &str, from_dir: &str) -> (r: ResolvePlan)
        ensures
            r@ == relative_lookup(require_path@, from_dir@),
    {
        let chars = chars_of(require_path);
        proof {
            reveal_strlit("/*");
            reveal_strlit("/**");
        }
        if ends_with_text(&chars, "/*") {
            let front = slice_subrange(&chars, 0, chars.len() - 2);
            assert(front@ =~= require_path@.take(require_path@.len() - 2));
            let dir = join_path(from_dir, &string_of(front));
            return ResolvePlan::Glob { dir, recursive: false };
        }
        if ends_with_text(&chars, "/**") {
            let front = slice_subrange(&chars, 0, chars.len() - 3);
            assert(front@ =~= require_path@.take(require_path@.len() - 3));
            let dir = join_path(from_dir, &string_of(front));
            return ResolvePlan::Glob { dir, recursive: true };
        }
        let target = join_path(from_dir, require_path);
        let mut candidates: Vec<String> = Vec::new();
        candidates.push(crystal_path(&target));
        match file_name(&target) {
            Some(name) => {
                candidates.push(crystal_path(&join_path(&target, &name)));
                assert(texts(candidates@) =~= seq![candidates@[0]@, candidates@[1]@]);
            },
            None => {
                assert(texts(candidates@) =~= seq![candidates@[0]@]);
            },
        }
        ResolvePlan::First { candidates, require: copy(require_path) }
    }

    fn find_root(&self, from_file: &str) -> (r: Option<&String>)
        ensures
            match r {
                Some(root) => root_of(texts(self.project_roots@), from_file@, 0) == Some(root@),
                None => root_of(texts(self.project_roots@), from_file@, 0) is None,
            },
    {
        let ghost roots = texts(self.project_roots@);
        let mut i: usize = 0;
        while i < self.project_roots.len()
            invariant
                i <= self.project_roots@.len(),
                roots == texts(self.project_roots@),
                root_of(roots, from_file@, 0) == root_of(roots, from_file@, i as int),
            decreases self.project_roots@.len() - i,
        {
            assert(roots[i as int] == self.project_roots@[i as int]@);
            if lies_under(from_file, &self.project_roots[i]) {
                return Some(&self.project_roots[i]);
            }
            i = i + 1;
        }
        None
    }

    fn resolve_shard_or_stdlib(&self, require_path: &str, from_file: &str) -> (r: ResolvePlan)
        ensures
            r@ == shard_lookup(texts(self.project_roots@), require_path@, from_file@),
    {
        match self.find_root(from_file) {
            Some(root) => {
                let chars = chars_of(require_path);
                let pieces = split(&chars, '/');
                assert(views(pieces@)[0] == pieces@[0]@);
                proof {
                    lemma_first_piece(chars@, '/');
                }
                let name = string_of(&pieces[0]);
                let source = join_path(&join_path(&join_path(root, "lib"), &name), "src");
                let entry = crystal_path(&join_path(&source, &name));
                let sub = if contains_char(&chars, '/') {
                    let rest = slice_subrange(&chars, pieces[0].len() + 1, chars.len());
                    assert(rest@ =~= require_path@.skip(name@.len() as int + 1));
                    Some(crystal_path(&join_path(&source, &string_of(rest))))
                } else {
                    None
                };
                ResolvePlan::Shard { entry, sub, require: copy(require_path) }
            },
            None => ResolvePlan::Stdlib(copy(require_path)),
        }
    }
}

// ---------------------------------------------------------------------------
// Deciding from what exists
// ---------------------------------------------------------------------------

/// The first of `found` from `i` on that is there.
pub open spec fn first_found(found: Seq<Option<String>>, i: int) -> Option<Seq<char>>
    decreases found.len() - i,
{
    if i < 0 || i >= found.len() {
        None
    } else {
        match found[i] {
            Some(p) => Some(p@),
            None => first_found(found, i + 1),
        }
    }
}

/// Resolves a `require` from its candidates: `found` holds for each its canonical path where it is
/// a file.
pub fn finish_first(require: &str, found: &Vec<Option<String>>) -> (r: ResolvedRequire)
    ensures
        r@ == match first_found(found@, 0) {
            Some(p) => Resolved::Files(seq![p]),
            None => Resolved::Unresolved(require@),
        },
{
    let mut i: usize = 0;
    while i < found.len()
        invariant
            i <= found@.len(),
            first_found(found@, 0) == first_found(found@, i as int),
        decreases found@.len() - i,
    {
        if let Some(p) = &found[i] {
            let mut files: Vec<String> = Vec::new();
            files.push(copy(p));
            assert(texts(files@) =~= seq![p@]);
            return ResolvedRequire::Files(files);
        }
        i = i + 1;
    }
    ResolvedRequire::Unresolved(copy(require))
}

/// What the `require` of a shard stands for, by which of its files exist.
pub open spec fn shard_resolved(
    entry: Seq<char>,
    sub: Option<Seq<char>>,
    require: Seq<char>,
    entry_is_file: bool,
    sub_is_file: bool,
) -> Resolved {
    if !entry_is_file {
        Resolved::Stdlib(require)
    } else if sub is Some && sub_is_file {
        Resolved::Files(seq![sub->0])
    } else {
        Resolved::Files(seq![entry])
    }
}

/// Resolves the `require` of a shard. Without the main file of the shard it is taken for a part of
/// the standard library.
pub fn finish_shard(
    entry: &str,
    sub: &Option<String>,
    require: &str,
    entry_is_file: bool,
    sub_is_file: bool,
) -> (r: ResolvedRequire)
    ensures
        r@ == shard_resolved(entry@, opt_text(*sub), require@, entry_is_file, sub_is_file),
{
    if !entry_is_file {
        return ResolvedRequire::Stdlib(copy(require));
    }
    let mut files: Vec<String> = Vec::new();
    if let Some(s) = sub {
        if sub_is_file {
            files.push(copy(s));
            assert(texts(files@) =~= seq![s@]);
            return ResolvedRequire::Files(files);
        }
    }
    files.push(copy(entry));
    assert(texts(files@) =~= seq![entry@]);
    ResolvedRequire::Files(files)
}

/// An entry of a directory that is searched for files to require.
#[derive(Debug)]
pub struct GlobEntry {
    /// The path of the entry in its directory.
    pub path: String,
    /// The canonical path, or the path itself where there is none.
    pub canonical: String,
    pub is_file: bool,
    pub is_dir: bool,
}

/// The files that the entries give.
pub open spec fn glob_files(entries: Seq<GlobEntry>) -> Seq<Seq<char>>
    decreases entries.len(),
{
    if entries.len() == 0 {
        Seq::empty()
    } else {
        let before = glob_files(entries.drop_last());
        let e = entries.last();
        if e.is_file && crystal_file(e.path@) {
            before.push(e.canonical@)
        } else {
            before
        }
    }
}

/// The directories among the entries that are searched in turn.
pub open spec fn glob_dirs(entries: Seq<GlobEntry>) -> Seq<Seq<char>>
    decreases entries.len(),
{
    if entries.len() == 0 {
        Seq::empty()
    } else {
        let before = glob_dirs(entries.drop_last());
        let e = entries.last();
        if !(e.is_file && crystal_file(e.path@)) && e.is_dir {
            before.push(e.path@)
        } else {
            before
        }
    }
}

/// A search for the files that a glob stands for.
#[derive(Debug)]
pub struct GlobSearch {
    pub dir: String,
    pub recursive: bool,
    /// The directories that are still to be searched, the next one last.
    pub pending: Vec<String>,
    /// The files that were found.
    pub files: Vec<String>,
}

/// The model of a [`GlobSearch`].
#[verifier::ext_equal]
pub struct GlobModel {
    pub dir: Seq<char>,
    pub recursive: bool,
    pub pending: Seq<Seq<char>>,
    pub files: Seq<Seq<char>>,
}

impl View for GlobSearch {
    type V = GlobModel;

    open spec fn view(&self) -> GlobModel {
        GlobModel {
            dir: self.dir@,
            recursive: self.recursive,
            pending: texts(self.pending@),
            files: texts(self.files@),
        }
    }
}

/// The search that starts at the directory `dir`.
pub open spec fn glob_start(dir: Seq<char>, recursive: bool) -> GlobModel {
    GlobModel { dir, recursive, pending: seq![dir], files: Seq::empty() }
}

/// The search after the next directory was handed out.
pub open spec fn after_dir(g: GlobModel) -> GlobModel {
    if g.pending.len() == 0 {
        g
    } else {
        GlobModel { pending: g.pending.drop_last(), ..g }
    }
}

/// The search after the entries of a directory were taken over.
pub open spec fn after_entries(g: GlobModel, entries: Seq<GlobEntry>) -> GlobModel {
    GlobModel {
        files: g.files + glob_files(entries),
        pending: if g.recursive {
            g.pending + glob_dirs(entries)
        } else {
            g.pending
        },
        ..g
    }
}

impl GlobSearch {
    /// Starts at a directory.
    pub fn new(dir: &str, recursive: bool) -> (r: Self)
        ensures
            r@ == glob_start(dir@, recursive),
    {
        let mut pending: Vec<String> = Vec::new();
        pending.push(copy(dir));
        let files: Vec<String> = Vec::new();
        assert(texts(pending@) =~= seq![dir@]);
        assert(texts(files@) =~= Seq::empty());
        GlobSearch { dir: copy(dir), recursive, pending, files }
    }

    /// The next directory to list; `None` at the end.
    pub fn next_dir(&mut self) -> (r: Option<String>)
        ensures
            match r {
                Some(d) => old(self)@.pending.len() > 0 && d@ == old(self)@.pending.last(),
                None => old(self)@.pending.len() == 0,
            },
            final(self)@ == after_dir(old(self)@),
    {
        let ghost before = self@;
        let r = self.pending.pop();
        assert(self@.pending =~= if before.pending.len() > 0 {
            before.pending.drop_last()
        } else {
            before.pending
        });
        r
    }

    /// Takes over the entries of a directory: its Crystal files, and where the search is recursive
    /// its directories.
    pub fn collect_cr_files(&mut self, entries: &Vec<GlobEntry>)
        ensures
            final(self)@ == after_entries(old(self)@, entries@),
    {
        let ghost before = self@;
        let mut i: usize = 0;
        assert(entries@.take(0) =~= Seq::empty());
        assert(before.files + glob_files(entries@.take(0)) =~= before.files);
        assert(before.pending + glob_dirs(entries@.take(0)) =~= before.pending);
        while i < entries.len()
            invariant
                i <= entries@.len(),
                self@.dir == before.dir,
                self@.recursive == before.recursive,
                self@.files == before.files + glob_files(entries@.take(i as int)),
                self@.pending == if before.recursive {
                    before.pending + glob_dirs(entries@.take(i as int))
                } else {
                    before.pending
                },
            decreases entries@.len() - i,
        {
            let ghost held = self@;
            let e = &entries[i];
            let ghost seen = entries@.take(i as int);
            assert(entries@.take(i + 1).drop_last() =~= seen);
            if e.is_file && is_crystal_file(&e.path) {
                self.files.push(copy(&e.canonical));
                assert(self@.files =~= held.files.push(e.canonical@));
                assert(before.files + glob_files(seen).push(e.canonical@) =~= held.files.push(
                    e.canonical@,
                ));
            } else if self.recursive && e.is_dir {
                self.pending.push(copy(&e.path));
                assert(self@.pending =~= held.pending.push(e.path@));
                assert(before.pending + glob_dirs(seen).push(e.path@) =~= held.pending.push(
                    e.path@,
                ));
            }
            i = i + 1;
        }
        assert(entries@.take(i as int) =~= entries@);
    }

    /// What the glob stands for, once every directory was listed: the files in order.
    pub fn resolve_glob(self) -> (r: ResolvedRequire)
        ensures
            r@ == glob_resolved(self@.dir, self@.files),
    {
        if self.files.len() == 0 {
            assert(self@.files.len() == 0);
            let mut s = copy(&self.dir);
            s.append("/*");
            return ResolvedRequire::Unresolved(s);
        }
        assert(self@.files.len() == self.files@.len());
        ResolvedRequire::Files(sort_paths(self.files))
    }
}

/// What a glob over the directory `dir` stands for, where the files `files` were found.
pub open spec fn glob_resolved(dir: Seq<char>, files: Seq<Seq<char>>) -> Resolved {
    if files.len() == 0 {
        Resolved::Unresolved(dir + "/*"@)
    } else {
        Resolved::Files(stable_sorted(path_order(), files))
    }
}

// ---------------------------------------------------------------------------
// The graph of requires
// ---------------------------------------------------------------------------

/// Builds the graph of requires of a project: from each file to the files that it requires. What is
/// not a file of the project is left out. A file is read at most once, also where files require
/// each other in a circle.
///
/// [`next_file`](GraphBuilder::next_file) tells which file to read. Where it can be read,
/// [`add_requires`](GraphBuilder::add_requires) takes over what its requires stand for.
#[derive(Debug)]
pub struct GraphBuilder {
    /// The files that the graph starts from.
    pub roots: Vec<String>,
    /// The files that were handed out.
    pub visited: Vec<String>,
    /// The files that may have to be read, the next one last.
    pub queue: Vec<String>,
    /// The file that was handed out last, until its requires are taken over.
    pub current: Option<String>,
    pub graph: Vec<(String, Vec<String>)>,
}

/// The model of a [`GraphBuilder`].
#[verifier::ext_equal]
pub struct GraphModel {
    pub roots: Seq<Seq<char>>,
    pub visited: Seq<Seq<char>>,
    pub queue: Seq<Seq<char>>,
    pub current: Option<Seq<char>>,
    pub graph: Graph,
}

/// The model of a graph of requires.
pub open spec fn graph_views(g: Seq<(String, Vec<String>)>) -> Graph {
    Seq::new(g.len(), |i: int| (g[i].0@, texts(g[i].1@)))
}

impl View for GraphBuilder {
    type V = GraphModel;

    open spec fn view(&self) -> GraphModel {
        GraphModel {
            roots: texts(self.roots@),
            visited: texts(self.visited@),
            queue: texts(self.queue@),
            current: opt_text(self.current),
            graph: graph_views(self.graph@),
        }
    }
}

/// Whether `path` is one of `paths`.
pub open spec fn among(paths: Seq<Seq<char>>, path: Seq<char>) -> bool {
    exists|i: int| 0 <= i < paths.len() && same_path(#[trigger] paths[i], path)
}

/// Whether no two of `paths` are the same path.
pub open spec fn distinct_paths(paths: Seq<Seq<char>>) -> bool {
    forall|i: int, j: int|
        0 <= i < j < paths.len() ==> !same_path(#[trigger] paths[i], #[trigger] paths[j])
}

/// A graph of requires: files, each with the files that it requires.
pub type Graph = Seq<(Seq<char>, Seq<Seq<char>>)>;

/// The files that have an entry in a graph.
pub open spec fn graph_keys(graph: Graph) -> Seq<Seq<char>> {
    Seq::new(graph.len(), |i: int| graph[i].0)
}

/// Whether the first file requires the second.
pub type Link = spec_fn(Seq<char>, Seq<char>) -> bool;

/// What the entries of a graph say.
pub open spec fn graph_link(graph: Graph) -> Link {
    |a: Seq<char>, b: Seq<char>|
        exists|i: int|
            0 <= i < graph.len() && same_path((#[trigger] graph[i]).0, a) && among(graph[i].1, b)
}

/// Whether `chain` leads from one of `roots` to `x`, each file of it requiring the next.
pub open spec fn leads(
    link: Link,
    roots: Seq<Seq<char>>,
    x: Seq<char>,
    chain: Seq<Seq<char>>,
) -> bool {
    &&& chain.len() > 0
    &&& among(roots, chain[0])
    &&& same_path(chain.last(), x)
    &&& forall|i: int| 0 <= i < chain.len() - 1 ==> link(#[trigger] chain[i], chain[i + 1])
}

/// Whether `x` is one of `roots`, or is required by a file that is reached from them.
pub open spec fn reached(link: Link, roots: Seq<Seq<char>>, x: Seq<char>) -> bool {
    exists|chain: Seq<Seq<char>>| leads(link, roots, x, chain)
}

impl GraphModel {
    /// No file was handed out twice or has two entries in the graph; the file that was handed out
    /// last has none; the files to start from and those that are required were handed out or are in
    /// the queue; and nothing else was or is: each of these files is one to start from, or is
    /// reached from one over the entries of the graph.
    pub open spec fn wf(self) -> bool {
        &&& distinct_paths(self.visited)
        &&& distinct_paths(graph_keys(self.graph))
        &&& forall|x: Seq<char>| #[trigger]
            among(self.visited, x) ==> reached(graph_link(self.graph), self.roots, x)
        &&& forall|x: Seq<char>| #[trigger]
            among(self.queue, x) ==> reached(graph_link(self.graph), self.roots, x)
        &&& forall|i: int|
            0 <= i < self.graph.len() ==> among(self.visited, (#[trigger] self.graph[i]).0)
        &&& self.current matches Some(c) ==> among(self.visited, c) && forall|i: int|
            0 <= i < self.graph.len() ==> !same_path((#[trigger] self.graph[i]).0, c)
        &&& forall|i: int|
            0 <= i < self.roots.len() ==> among(self.visited, #[trigger] self.roots[i]) || among(
                self.queue,
                self.roots[i],
            )
        &&& forall|i: int, j: int|
            0 <= i < self.graph.len() && 0 <= j < self.graph[i].1.len() ==> among(
                self.visited,
                #[trigger] self.graph[i].1[j],
            ) || among(self.queue, self.graph[i].1[j])
    }
}

/// The builder that starts from the files `roots`.
pub open spec fn graph_start(roots: Seq<Seq<char>>) -> GraphModel {
    GraphModel {
        roots,
        visited: Seq::empty(),
        queue: roots,
        current: None,
        graph: Seq::empty(),
    }
}

/// The builder starts well formed.
pub proof fn lemma_start_wf(roots: Seq<Seq<char>>)
    ensures
        graph_start(roots).wf(),
{
    let g = graph_start(roots);
    assert forall|i: int| 0 <= i < g.roots.len() implies among(g.queue, #[trigger] g.roots[i]) by {
        assert(same_path(g.queue[i], g.roots[i]));
    }
    assert forall|x: Seq<char>| #[trigger] among(g.queue, x) implies reached(
        graph_link(g.graph),
        g.roots,
        x,
    ) by {
        assert(leads(graph_link(g.graph), g.roots, x, seq![x]));
    }
}

/// The last place among the first `n` of `queue` that holds none of `visited`.
pub open spec fn next_place(
    queue: Seq<Seq<char>>,
    visited: Seq<Seq<char>>,
    n: int,
) -> Option<int>
    decreases n,
{
    if n <= 0 || n > queue.len() {
        None
    } else if among(visited, queue[n - 1]) {
        next_place(queue, visited, n - 1)
    } else {
        Some(n - 1)
    }
}

/// The builder after the next file was handed out.
pub open spec fn after_next(g: GraphModel) -> GraphModel {
    match next_place(g.queue, g.visited, g.queue.len() as int) {
        Some(i) => GraphModel {
            queue: g.queue.take(i),
            visited: g.visited.push(g.queue[i]),
            current: Some(g.queue[i]),
            ..g
        },
        None => GraphModel { queue: Seq::empty(), current: None, ..g },
    }
}

/// What `next_place` finds was not handed out, and everything behind it was.
pub proof fn lemma_next_place(queue: Seq<Seq<char>>, visited: Seq<Seq<char>>, n: int)
    requires
        0 <= n <= queue.len(),
    ensures
        match next_place(queue, visited, n) {
            Some(i) => 0 <= i < n && !among(visited, queue[i]) && forall|k: int|
                i < k < n ==> among(visited, #[trigger] queue[k]),
            None => forall|k: int| 0 <= k < n ==> among(visited, #[trigger] queue[k]),
        },
    decreases n,
{
    if n > 0 && among(visited, queue[n - 1]) {
        lemma_next_place(queue, visited, n - 1);
    }
}

proof fn lemma_among_push(paths: Seq<Seq<char>>, p: Seq<char>, x: Seq<char>)
    ensures
        among(paths.push(p), x) <==> among(paths, x) || same_path(p, x),
{
    let more = paths.push(p);
    if among(paths, x) {
        let i = choose|i: int| 0 <= i < paths.len() && same_path(#[trigger] paths[i], x);
        assert(same_path(more[i], x));
    }
    if same_path(p, x) {
        assert(same_path(more[paths.len() as int], x));
    }
    if among(more, x) {
        let i = choose|i: int| 0 <= i < more.len() && same_path(#[trigger] more[i], x);
        if i < paths.len() {
            assert(same_path(paths[i], x));
        }
    }
}

/// What is reached is reached also where more files require each other.
proof fn lemma_reached_grows(link: Link, more: Link, roots: Seq<Seq<char>>, x: Seq<char>)
    requires
        reached(link, roots, x),
        forall|a: Seq<char>, b: Seq<char>| #[trigger] link(a, b) ==> more(a, b),
    ensures
        reached(more, roots, x),
{
    let chain = choose|chain: Seq<Seq<char>>| leads(link, roots, x, chain);
    assert forall|i: int| 0 <= i < chain.len() - 1 implies more(
        #[trigger] chain[i],
        chain[i + 1],
    ) by {
        assert(link(chain[i], chain[i + 1]));
    }
    assert(leads(more, roots, x, chain));
}

/// What a reached file requires is reached.
proof fn lemma_reached_next(link: Link, roots: Seq<Seq<char>>, x: Seq<char>, y: Seq<char>)
    requires
        reached(link, roots, x),
        forall|a: Seq<char>| same_path(a, x) ==> #[trigger] link(a, y),
    ensures
        reached(link, roots, y),
{
    let chain = choose|chain: Seq<Seq<char>>| leads(link, roots, x, chain);
    let longer = chain.push(y);
    assert forall|i: int| 0 <= i < longer.len() - 1 implies link(
        #[trigger] longer[i],
        longer[i + 1],
    ) by {
        if i < chain.len() - 1 {
            assert(link(chain[i], chain[i + 1]));
        } else {
            assert(longer[i] == chain.last());
        }
    }
    assert(leads(link, roots, y, longer));
}

/// Handing out a file keeps the builder well formed.
pub proof fn lemma_after_next_wf(g: GraphModel)
    requires
        g.wf(),
    ensures
        after_next(g).wf(),
{
    let n = g.queue.len() as int;
    lemma_next_place(g.queue, g.visited, n);
    let a = after_next(g);
    assert forall|x: Seq<char>| among(g.visited, x) || among(g.queue, x) implies #[trigger] among(
        a.visited,
        x,
    ) || among(a.queue, x) by {
        if let Some(i) = next_place(g.queue, g.visited, n) {
            lemma_among_push(g.visited, g.queue[i], x);
        }
        if !among(g.visited, x) {
            let k = choose|k: int| 0 <= k < g.queue.len() && same_path(#[trigger] g.queue[k], x);
            match next_place(g.queue, g.visited, n) {
                Some(i) => {
                    if k < i {
                        assert(same_path(a.queue[k], x));
                    } else if k > i {
                        lemma_among_same(g.visited, g.queue[k], x);
                    }
                },
                None => {
                    lemma_among_same(g.visited, g.queue[k], x);
                },
            }
        }
    }
    assert forall|x: Seq<char>| #[trigger] among(a.queue, x) implies among(g.queue, x) by {
        let k = choose|k: int| 0 <= k < a.queue.len() && same_path(#[trigger] a.queue[k], x);
        assert(same_path(g.queue[k], x));
    }
    assert forall|x: Seq<char>| #[trigger] among(a.visited, x) implies among(g.visited, x) || among(
        g.queue,
        x,
    ) by {
        if let Some(i) = next_place(g.queue, g.visited, n) {
            lemma_among_push(g.visited, g.queue[i], x);
            if same_path(g.queue[i], x) {
                assert(among(g.queue, x));
            }
        }
    }
    if let Some(i) = next_place(g.queue, g.visited, n) {
        let c = g.queue[i];
        lemma_among_push(g.visited, c, c);
        assert forall|k: int| 0 <= k < a.graph.len() implies !same_path((#[trigger] a.graph[k]).0, c)
            && among(a.visited, a.graph[k].0) by {
            lemma_among_push(g.visited, c, a.graph[k].0);
            assert(among(g.visited, g.graph[k].0));
            if same_path(g.graph[k].0, c) {
                lemma_among_same(g.visited, g.graph[k].0, c);
            }
        }
        assert forall|p: int, q: int| 0 <= p < q < a.visited.len() implies !same_path(
            #[trigger] a.visited[p],
            #[trigger] a.visited[q],
        ) by {
            if q == g.visited.len() {
                if same_path(g.visited[p], c) {
                    assert(among(g.visited, c));
                }
            } else {
                assert(!same_path(g.visited[p], g.visited[q]));
            }
        }
    }
}

proof fn lemma_among_same(paths: Seq<Seq<char>>, x: Seq<char>, y: Seq<char>)
    requires
        among(paths, x),
        same_path(x, y),
    ensures
        among(paths, y),
{
    let i = choose|i: int| 0 <= i < paths.len() && same_path(#[trigger] paths[i], x);
    assert(same_path(paths[i], y));
}

/// The files that requires stand for, one require after the other.
pub open spec fn all_files(resolved: Seq<ResolvedRequire>) -> Seq<Seq<char>>
    decreases resolved.len(),
{
    if resolved.len() == 0 {
        Seq::empty()
    } else {
        let before = all_files(resolved.drop_last());
        match resolved.last()@ {
            Resolved::Files(files) => before + files,
            _ => before,
        }
    }
}

/// Those of the first `n` of `files` that are not among `visited`.
pub open spec fn unvisited(
    visited: Seq<Seq<char>>,
    files: Seq<Seq<char>>,
    n: int,
) -> Seq<Seq<char>>
    decreases n,
{
    if n <= 0 || n > files.len() {
        Seq::empty()
    } else if among(visited, files[n - 1]) {
        unvisited(visited, files, n - 1)
    } else {
        unvisited(visited, files, n - 1).push(files[n - 1])
    }
}

/// The builder after the file that was handed out last turned out to require `files`.
pub open spec fn after_requires(g: GraphModel, files: Seq<Seq<char>>) -> GraphModel {
    GraphModel {
        queue: g.queue + unvisited(g.visited, files, files.len() as int),
        current: None,
        graph: g.graph.push((g.current->0, files)),
        ..g
    }
}

proof fn lemma_unvisited(visited: Seq<Seq<char>>, files: Seq<Seq<char>>, n: int, k: int)
    requires
        0 <= k < n <= files.len(),
    ensures
        among(visited, files[k]) || unvisited(visited, files, n).contains(files[k]),
    decreases n,
{
    let before = unvisited(visited, files, n - 1);
    let after = unvisited(visited, files, n);
    if k < n - 1 {
        lemma_unvisited(visited, files, n - 1, k);
        if before.contains(files[k]) {
            let i = choose|i: int| 0 <= i < before.len() && before[i] == files[k];
            assert(after[i] == files[k]);
        }
    } else if !among(visited, files[k]) {
        assert(after[before.len() as int] == files[k]);
    }
}

proof fn lemma_unvisited_from(visited: Seq<Seq<char>>, files: Seq<Seq<char>>, n: int)
    requires
        0 <= n <= files.len(),
    ensures
        forall|k: int|
            0 <= k < unvisited(visited, files, n).len() ==> files.contains(
                #[trigger] unvisited(visited, files, n)[k],
            ),
    decreases n,
{
    if n > 0 {
        lemma_unvisited_from(visited, files, n - 1);
        let before = unvisited(visited, files, n - 1);
        let after = unvisited(visited, files, n);
        assert forall|k: int| 0 <= k < after.len() implies files.contains(#[trigger] after[k]) by {
            if k < before.len() {
                assert(after[k] == before[k]);
            } else {
                assert(files[n - 1] == after[k]);
            }
        }
    }
}

/// Taking over the requires of a file keeps the builder well formed.
pub proof fn lemma_after_requires_wf(g: GraphModel, files: Seq<Seq<char>>)
    requires
        g.wf(),
        g.current is Some,
    ensures
        after_requires(g, files).wf(),
{
    let a = after_requires(g, files);
    let c = g.current->0;
    let n = g.graph.len() as int;
    let more = unvisited(g.visited, files, files.len() as int);
    assert forall|x: Seq<char>| among(g.queue, x) implies #[trigger] among(a.queue, x) by {
        let k = choose|k: int| 0 <= k < g.queue.len() && same_path(#[trigger] g.queue[k], x);
        assert(same_path(a.queue[k], x));
    }
    assert forall|i: int, j: int| 0 <= i < a.graph.len() && 0 <= j < a.graph[i].1.len() implies among(
        a.visited,
        #[trigger] a.graph[i].1[j],
    ) || among(a.queue, a.graph[i].1[j]) by {
        if i < n {
            assert(a.graph[i] == g.graph[i]);
            assert(a.graph[i].1[j] == g.graph[i].1[j]);
        } else {
            let x = files[j];
            assert(a.graph[i].1[j] == x);
            lemma_unvisited(g.visited, files, files.len() as int, j);
            if more.contains(x) {
                let k = choose|k: int| 0 <= k < more.len() && more[k] == x;
                assert(a.queue[g.queue.len() + k] == x);
                assert(same_path(a.queue[g.queue.len() + k], x));
            }
        }
    }
    let link = graph_link(g.graph);
    let longer = graph_link(a.graph);
    assert forall|x: Seq<char>, y: Seq<char>| #[trigger] link(x, y) implies longer(x, y) by {
        let i = choose|i: int|
            0 <= i < g.graph.len() && same_path((#[trigger] g.graph[i]).0, x) && among(
                g.graph[i].1,
                y,
            );
        assert(a.graph[i] == g.graph[i]);
    }
    assert forall|x: Seq<char>| #[trigger] among(a.visited, x) implies reached(
        longer,
        a.roots,
        x,
    ) by {
        assert(among(g.visited, x));
        lemma_reached_grows(link, longer, g.roots, x);
    }
    assert forall|x: Seq<char>| #[trigger] among(a.queue, x) implies reached(longer, a.roots, x) by {
        if among(g.queue, x) {
            lemma_reached_grows(link, longer, g.roots, x);
        } else {
            let k = choose|k: int| 0 <= k < a.queue.len() && same_path(#[trigger] a.queue[k], x);
            if k < g.queue.len() {
                assert(same_path(g.queue[k], x));
            } else {
                lemma_unvisited_from(g.visited, files, files.len() as int);
                let f = more[k - g.queue.len()];
                assert(files.contains(f));
                let m = choose|m: int| 0 <= m < files.len() && files[m] == f;
                assert(same_path(files[m], x));
                assert(among(files, x));
                assert(among(a.visited, c));
                assert forall|y: Seq<char>| same_path(y, c) implies #[trigger] longer(y, x) by {
                    assert(a.graph[n] == (c, files));
                }
                lemma_reached_next(longer, a.roots, c, x);
            }
        }
    }
    let keys = graph_keys(a.graph);
    let held = graph_keys(g.graph);
    assert forall|i: int, j: int| 0 <= i < j < keys.len() implies !same_path(
        #[trigger] keys[i],
        #[trigger] keys[j],
    ) by {
        if j < n {
            assert(keys[i] == held[i] && keys[j] == held[j]);
        } else {
            assert(!same_path(g.graph[i].0, c));
        }
    }
    assert forall|i: int| 0 <= i < a.graph.len() implies among(
        a.visited,
        (#[trigger] a.graph[i]).0,
    ) by {
        if i < n {
            assert(a.graph[i] == g.graph[i]);
        }
    }
}

/// When no file is left to be handed out, the files to start from and every file that one in the
/// graph requires were handed out.
pub proof fn lemma_graph_is_closed(g: GraphModel)
    requires
        g.wf(),
        g.queue.len() == 0,
    ensures
        forall|i: int| 0 <= i < g.roots.len() ==> among(g.visited, #[trigger] g.roots[i]),
        forall|i: int, j: int|
            0 <= i < g.graph.len() && 0 <= j < g.graph[i].1.len() ==> among(
                g.visited,
                #[trigger] g.graph[i].1[j],
            ),
{
    assert forall|x: Seq<char>| !#[trigger] among(g.queue, x) by {}
}

fn is_among(paths: &Vec<String>, path: &str) -> (r: bool)
    ensures
        r == among(texts(paths@), path@),
{
    let ghost model = texts(paths@);
    let mut i: usize = 0;
    while i < paths.len()
        invariant
            i <= paths@.len(),
            model == texts(paths@),
            forall|k: int| 0 <= k < i ==> !same_path(#[trigger] model[k], path@),
        decreases paths@.len() - i,
    {
        assert(model[i as int] == paths@[i as int]@);
        if is_same_path(&paths[i], path) {
            return true;
        }
        i = i + 1;
    }
    false
}

impl GraphBuilder {
    /// Starts from some files.
    pub fn new(files: &Vec<String>) -> (r: Self)
        ensures
            r@ == graph_start(texts(files@)),
            r@.wf(),
    {
        let r = GraphBuilder {
            roots: copy_texts(files),
            visited: Vec::new(),
            queue: copy_texts(files),
            current: None,
            graph: Vec::new(),
        };
        assert(r@.visited =~= Seq::empty());
        assert(r@.graph =~= Seq::empty());
        proof {
            assert(r@ == graph_start(texts(files@)));
            lemma_start_wf(texts(files@));
        }
        r
    }

    /// The next file to read; `None` at the end.
    pub fn next_file(&mut self) -> (r: Option<String>)
        requires
            old(self)@.wf(),
        ensures
            final(self)@ == after_next(old(self)@),
            opt_text(r) == final(self)@.current,
            final(self)@.wf(),
    {
        let ghost g = self@;
        let ghost n = g.queue.len() as int;
        proof {
            lemma_after_next_wf(g);
            assert(g.queue.take(n) =~= g.queue);
        }
        while self.queue.len() > 0
            invariant
                g == old(self)@,
                self@.roots == g.roots,
                self@.visited == g.visited,
                self@.current == g.current,
                self@.graph == g.graph,
                self@.queue.len() <= n,
                n == g.queue.len(),
                self@.queue == g.queue.take(self@.queue.len() as int),
                next_place(g.queue, g.visited, n) == next_place(
                    g.queue,
                    g.visited,
                    self@.queue.len() as int,
                ),
                after_next(g).wf(),
            decreases self.queue@.len(),
        {
            let ghost m = self@.queue.len() as int;
            assert(self@.queue[m - 1] == self.queue@[m - 1]@);
            let file = self.queue.pop().unwrap();
            assert(self@.queue =~= g.queue.take(m - 1));
            assert(file@ == g.queue[m - 1]);
            if !is_among(&self.visited, &file) {
                self.visited.push(copy(&file));
                assert(self@.visited =~= g.visited.push(file@));
                self.current = Some(copy(&file));
                return Some(file);
            }
        }
        assert(self@.queue =~= Seq::empty());
        self.current = None;
        None
    }

    /// Puts those of `deps` into the queue that were not handed out.
    fn enqueue(&mut self, deps: &Vec<String>)
        ensures
            final(self)@ == (GraphModel {
                queue: old(self)@.queue + unvisited(
                    old(self)@.visited,
                    texts(deps@),
                    deps@.len() as int,
                ),
                ..old(self)@
            }),
    {
        let ghost g = self@;
        let ghost files = texts(deps@);
        let mut i: usize = 0;
        assert(g.queue + unvisited(g.visited, files, 0) =~= g.queue);
        while i < deps.len()
            invariant
                i <= deps@.len(),
                files == texts(deps@),
                self@ == (GraphModel {
                    queue: g.queue + unvisited(g.visited, files, i as int),
                    ..g
                }),
            decreases deps@.len() - i,
        {
            let ghost held = self@.queue;
            assert(files[i as int] == deps@[i as int]@);
            if !is_among(&self.visited, &deps[i]) {
                self.queue.push(copy(&deps[i]));
                assert(self@.queue =~= held.push(files[i as int]));
                assert(g.queue + unvisited(g.visited, files, i as int).push(files[i as int])
                    =~= held.push(files[i as int]));
            }
            i = i + 1;
        }
    }

    /// Puts the entry of the file that was handed out last into the graph.
    fn enter(&mut self, deps: Vec<String>)
        requires
            old(self)@.current is Some,
        ensures
            final(self)@ == (GraphModel {
                current: None,
                graph: old(self)@.graph.push((old(self)@.current->0, texts(deps@))),
                ..old(self)@
            }),
    {
        let ghost before = self@.graph;
        let ghost files = texts(deps@);
        let file = self.current.take().unwrap();
        self.graph.push((file, deps));
        assert(self@.graph =~= before.push((file@, files)));
    }

    /// Takes over what the requires of the file that was handed out last stand for.
    pub fn add_requires(&mut self, resolved: &Vec<ResolvedRequire>)
        requires
            old(self)@.wf(),
            old(self)@.current is Some,
        ensures
            final(self)@ == after_requires(old(self)@, all_files(resolved@)),
            final(self)@.wf(),
    {
        proof {
            lemma_after_requires_wf(self@, all_files(resolved@));
        }
        let deps = collect_files(resolved);
        assert(texts(deps@).len() == deps@.len());
        self.enqueue(&deps);
        self.enter(deps);
    }
}

/// The files that requires stand for.
fn collect_files(resolved: &Vec<ResolvedRequire>) -> (r: Vec<String>)
    ensures
        texts(r@) == all_files(resolved@),
{
    let mut out: Vec<String> = Vec::new();
    let mut i: usize = 0;
    assert(resolved@.take(0) =~= Seq::empty());
    assert(texts(out@) =~= Seq::empty());
    while i < resolved.len()
        invariant
            i <= resolved@.len(),
            texts(out@) == all_files(resolved@.take(i as int)),
        decreases resolved@.len() - i,
    {
        let ghost before = texts(out@);
        assert(resolved@.take(i + 1).drop_last() =~= resolved@.take(i as int));
        if let ResolvedRequire::Files(files) = &resolved[i] {
            let mut more = copy_texts(files);
            let ghost m = texts(more@);
            out.append(&mut more);
            assert(texts(out@) =~= before + m);
        }
        i = i + 1;
    }
    assert(resolved@.take(i as int) =~= resolved@);
    out
}

} // verus!
