//! What a `require` leads to, and which files a workspace has.

use vstd::prelude::*;

use crate::completion::require_listing;
use crate::hover::{require_hover, HoverModel};
use crate::laws::paths::{lemma_extension_is_added, lemma_joined_name, plain_name};
use crate::laws::text::{blank, lemma_last_index, lemma_trim_around};
use crate::paths::{
    crystal_file, file_name_of, joined_path, parent_path, path_parts, path_starts_with,
    path_with_extension, same_path,
};
use crate::resolver::{
    first_found, glob_dirs, glob_files, lookup, relative, required_path, required_paths, root_of,
    shard_resolved, GlobEntry, Lookup, Resolved,
};
use crate::text::{last_index, split_on, trimmed};
use crate::workspace::{
    entered, entries_of, shard_dirs_of, shard_marker, with_entry, Entry, WalkedFile,
};

verus! {

// ---------------------------------------------------------------------------
// Requires in a source text
// ---------------------------------------------------------------------------

/// A line `require "path"` requires the path between its quotes, whatever white space stands around
/// it.
pub proof fn lemma_require_line(
    front: Seq<char>,
    gap: Seq<char>,
    path: Seq<char>,
    back: Seq<char>,
)
    requires
        blank(front),
        blank(gap),
        blank(back),
        path.len() > 0,
    ensures
        required_path(front + ("require "@ + gap + "\""@ + path + "\""@) + back) == Some(path),
{
    reveal_strlit("require ");
    reveal_strlit("\"");
    let none = Seq::<char>::empty();
    let core = "require "@ + gap + "\""@ + path + "\""@;
    let quoted = "\""@ + path + "\""@;
    assert(core[0] == 'r' && core.last() == '"');
    lemma_trim_around(front, core, back);
    assert(core.take(8) =~= "require "@);
    assert(core.skip(8) =~= gap + quoted + none);
    assert(quoted[0] == '"' && quoted.last() == '"');
    lemma_trim_around(gap, quoted, none);
    assert(quoted.subrange(1, quoted.len() - 1) =~= path);
}

/// A line that starts with anything else requires nothing.
pub proof fn lemma_other_line(line: Seq<char>)
    requires
        !"require "@.is_prefix_of(trimmed(line)),
    ensures
        required_path(line) is None,
{
}

/// The paths that a text requires are those of its lines, in their order.
pub proof fn lemma_requires_of_lines(lines: Seq<Seq<char>>, line: Seq<char>)
    ensures
        required_paths(lines.push(line)) == match required_path(line) {
            Some(path) => required_paths(lines).push(path),
            None => required_paths(lines),
        },
        required_paths(Seq::empty()).len() == 0,
{
    assert(lines.push(line).drop_last() =~= lines);
}

// ---------------------------------------------------------------------------
// What a require can mean
// ---------------------------------------------------------------------------

/// A `require` is relative exactly where it starts with one or two dots and a slash.
pub proof fn lemma_relative(require: Seq<char>)
    ensures
        relative(require) <==> (require.len() >= 2 && require[0] == '.' && require[1] == '/') || (
        require.len() >= 3 && require[0] == '.' && require[1] == '.' && require[2] == '/'),
{
    reveal_strlit("./");
    reveal_strlit("../");
    if require.len() >= 2 {
        assert(require.take(2) =~= "./"@ <==> require[0] == '.' && require[1] == '/') by {
            if require.take(2) =~= "./"@ {
                assert(require.take(2)[0] == require[0] && require.take(2)[1] == require[1]);
            }
        }
    }
    if require.len() >= 3 {
        assert(require.take(3) =~= "../"@ <==> require[0] == '.' && require[1] == '.' && require[2]
            == '/') by {
            if require.take(3) =~= "../"@ {
                assert(require.take(3)[0] == require[0] && require.take(3)[1] == require[1]
                    && require.take(3)[2] == require[2]);
            }
        }
    }
}

/// A relative `require` of a name means the file of that name in the directory that it names or, where
/// that is not there, the file of that name in the directory of that name.
pub proof fn lemma_relative_require(
    roots: Seq<Seq<char>>,
    from: Seq<char>,
    dir: Seq<char>,
    place: Seq<char>,
    name: Seq<char>,
)
    requires
        parent_path(from) == Some(dir),
        dir.len() > 0,
        place.len() > 0,
        place.last() != '/',
        relative(place + "/"@ + name),
        plain_name(name),
        !name.contains('.'),
        !name.contains('*'),
    ensures
        ({
            let require = place + "/"@ + name;
            let target = joined_path(dir, require);
            lookup(roots, require, from) == Lookup::First(
                seq![target + ".cr"@, target + "/"@ + name + ".cr"@],
                require,
            )
        }),
{
    reveal_strlit("/");
    reveal_strlit(".");
    reveal_strlit("/*");
    reveal_strlit("/**");
    reveal_strlit(".cr");
    reveal_strlit("cr");
    let require = place + "/"@ + name;
    let last = name[name.len() - 1];
    assert(name.contains(last));
    assert(require.last() == last);
    if "/*"@.is_suffix_of(require) {
        assert(require.skip(require.len() - 2)[1] == require.last());
    }
    if "/**"@.is_suffix_of(require) {
        assert(require.skip(require.len() - 3)[2] == require.last());
    }
    let target = joined_path(dir, require);
    assert(name.contains(name[0]));
    let above = joined_path(dir, place);
    assert(require[0] == place[0]);
    assert(target =~= above + "/"@ + name);
    assert(above.last() == place.last());
    assert(joined_path(above, name) =~= target);
    lemma_joined_name(above, name);
    lemma_extension_is_added(above, name, "cr"@);
    assert(target + "."@ + "cr"@ =~= target + ".cr"@);
    lemma_joined_name(target, name);
    lemma_extension_is_added(target, name, "cr"@);
    assert(target.last() == last);
    assert(joined_path(target, name) =~= target + "/"@ + name);
    assert(target + "/"@ + name + "."@ + "cr"@ =~= target + "/"@ + name + ".cr"@);
}

/// A relative `require` that ends in `/*` means the files of a directory, and one that ends in `/**`
/// also those below it.
pub proof fn lemma_glob_require(
    roots: Seq<Seq<char>>,
    from: Seq<char>,
    dir: Seq<char>,
    place: Seq<char>,
)
    requires
        parent_path(from) == Some(dir),
        relative(place + "/*"@),
        relative(place + "/**"@),
    ensures
        lookup(roots, place + "/*"@, from) == Lookup::Glob(joined_path(dir, place), false),
        lookup(roots, place + "/**"@, from) == Lookup::Glob(joined_path(dir, place), true),
{
    reveal_strlit("/*");
    reveal_strlit("/**");
    let one = place + "/*"@;
    let two = place + "/**"@;
    assert(one.skip(one.len() - 2) =~= "/*"@);
    assert(one.take(one.len() - 2) =~= place);
    assert(two.skip(two.len() - 3) =~= "/**"@);
    assert(two.take(two.len() - 3) =~= place);
    if "/*"@.is_suffix_of(two) {
        assert(two.skip(two.len() - 2)[0] == two[two.len() - 2]);
    }
}

/// A `require` of a shard, in a file of a project, means the main file of the shard, and where it goes
/// on behind a slash the file of the rest in its sources.
pub proof fn lemma_shard_require(
    roots: Seq<Seq<char>>,
    from: Seq<char>,
    root: Seq<char>,
    shard: Seq<char>,
)
    requires
        root_of(roots, from, 0) == Some(root),
        root.len() > 0,
        plain_name(shard),
        !shard.contains('.'),
    ensures
        lookup(roots, shard, from) matches Lookup::Shard(entry, sub, require) && {
            &&& require == shard
            &&& sub is None
            &&& path_parts(entry) == path_parts(root) + seq![
                crate::paths::Part::Normal("lib"@),
                crate::paths::Part::Normal(shard),
                crate::paths::Part::Normal("src"@),
                crate::paths::Part::Normal(shard + ".cr"@),
            ]
        },
{
    reveal_strlit("lib");
    reveal_strlit("src");
    reveal_strlit("cr");
    reveal_strlit(".cr");
    reveal_strlit(".");
    reveal_strlit("..");
    lemma_relative(shard);
    assert(shard.contains(shard[0]));
    crate::laws::text::lemma_split_one(shard, '/');
    assert(split_on(shard, '/')[0] == shard);
    assert(plain_name("lib"@));
    assert(plain_name("src"@));
    let a = joined_path(root, "lib"@);
    lemma_joined_name(root, "lib"@);
    let b = joined_path(a, shard);
    lemma_joined_name(a, shard);
    let c = joined_path(b, "src"@);
    lemma_joined_name(b, "src"@);
    let d = joined_path(c, shard);
    lemma_extension_is_added(c, shard, "cr"@);
    let file = shard + ".cr"@;
    assert(plain_name(file)) by {
        assert(file.len() > 3);
        if file.contains('/') {
            let i = choose|i: int| 0 <= i < file.len() && file[i] == '/';
            if i < shard.len() {
                assert(shard[i] == '/');
            } else {
                assert(file[i] == ".cr"@[i - shard.len()]);
            }
        }
    }
    assert(d + "."@ + "cr"@ =~= joined_path(c, file)) by {
        assert(file[0] == shard[0]);
    }
    lemma_joined_name(c, file);
    assert(path_parts(joined_path(c, file)) =~= path_parts(root) + seq![
        crate::paths::Part::Normal("lib"@),
        crate::paths::Part::Normal(shard),
        crate::paths::Part::Normal("src"@),
        crate::paths::Part::Normal(file),
    ]);
}

/// A `require` of a file inside a shard names the shard in front of its first slash, and the file
/// behind it.
pub proof fn lemma_shard_file_require(
    roots: Seq<Seq<char>>,
    from: Seq<char>,
    root: Seq<char>,
    shard: Seq<char>,
    rest: Seq<char>,
)
    requires
        root_of(roots, from, 0) == Some(root),
        !shard.contains('/'),
        !relative(shard + "/"@ + rest),
    ensures
        ({
            let source = joined_path(joined_path(joined_path(root, "lib"@), shard), "src"@);
            lookup(roots, shard + "/"@ + rest, from) == Lookup::Shard(
                path_with_extension(joined_path(source, shard), "cr"@),
                Some(path_with_extension(joined_path(source, rest), "cr"@)),
                shard + "/"@ + rest,
            )
        }),
{
    reveal_strlit("/");
    let require = shard + "/"@ + rest;
    assert(require =~= shard + seq!['/'] + rest);
    crate::laws::text::lemma_split_first(shard, rest, '/');
    assert(require[shard.len() as int] == '/');
    assert(require.skip(shard.len() as int + 1) =~= rest);
}

/// A `require` that is not relative, in a file of no project, is taken for the standard library.
pub proof fn lemma_stdlib_require(roots: Seq<Seq<char>>, from: Seq<char>, require: Seq<char>)
    requires
        !relative(require),
        forall|i: int| 0 <= i < roots.len() ==> !path_starts_with(from, #[trigger] roots[i]),
    ensures
        lookup(roots, require, from) == Lookup::Stdlib(require),
{
    lemma_no_root(roots, from, 0);
}

proof fn lemma_no_root(roots: Seq<Seq<char>>, from: Seq<char>, i: int)
    requires
        0 <= i,
        forall|i: int| 0 <= i < roots.len() ==> !path_starts_with(from, #[trigger] roots[i]),
    ensures
        root_of(roots, from, i) is None,
    decreases roots.len() - i,
{
    if i < roots.len() {
        lemma_no_root(roots, from, i + 1);
    }
}

/// The first candidate that is a file is what a `require` stands for.
pub proof fn lemma_first_candidate(found: Seq<Option<String>>, k: int)
    requires
        0 <= k < found.len(),
        found[k] is Some,
        forall|i: int| 0 <= i < k ==> (#[trigger] found[i]) is None,
    ensures
        first_found(found, 0) == Some(found[k]->0@),
{
    lemma_first_from(found, k, 0);
}

proof fn lemma_first_from(found: Seq<Option<String>>, k: int, i: int)
    requires
        0 <= i <= k < found.len(),
        found[k] is Some,
        forall|i: int| 0 <= i < k ==> (#[trigger] found[i]) is None,
    ensures
        first_found(found, i) == Some(found[k]->0@),
    decreases k - i,
{
    if i < k {
        assert(found[i] is None);
        lemma_first_from(found, k, i + 1);
    }
}

/// A shard stands for a file only where its main file is there; the file of the rest goes before the
/// main file where it is there too.
pub proof fn lemma_shard_stands_for(
    entry: Seq<char>,
    sub: Option<Seq<char>>,
    require: Seq<char>,
    entry_is_file: bool,
    sub_is_file: bool,
)
    ensures
        ({
            let r = shard_resolved(entry, sub, require, entry_is_file, sub_is_file);
            &&& r == Resolved::Stdlib(require) <==> !entry_is_file
            &&& entry_is_file && sub_is_file && sub is Some ==> r == Resolved::Files(seq![sub->0])
            &&& entry_is_file && !(sub_is_file && sub is Some) ==> r == Resolved::Files(seq![entry])
        }),
{
}

/// The files of a directory are its files that are Crystal files, under their canonical paths.
pub proof fn lemma_files_of_directory(entries: Seq<GlobEntry>, e: GlobEntry)
    ensures
        glob_files(entries.push(e)) == if e.is_file && crystal_file(e.path@) {
            glob_files(entries).push(e.canonical@)
        } else {
            glob_files(entries)
        },
        e.is_dir && !e.is_file ==> glob_dirs(entries.push(e)) == glob_dirs(entries).push(e.path@),
        !e.is_dir ==> glob_dirs(entries.push(e)) == glob_dirs(entries),
        glob_files(Seq::empty()).len() == 0,
        glob_dirs(Seq::empty()).len() == 0,
{
    assert(entries.push(e).drop_last() =~= entries);
}

/// A relative `require` under the cursor leads to the file of its name beside the current one, any
/// other is shown as one of the standard library or a shard.
pub proof fn lemma_require_under_cursor(
    current: Seq<char>,
    dir: Seq<char>,
    require: Seq<char>,
)
    requires
        parent_path(current) == Some(dir),
    ensures
        relative(require) ==> require_hover(require, current) == HoverModel::Require(
            require,
            path_with_extension(joined_path(dir, require), "cr"@),
        ),
        !relative(require) ==> require_hover(require, current) == HoverModel::Show(
            "```\n"@ + require + " (stdlib/shard)"@ + "\n```"@,
        ),
{
    assert("```\n"@ + (require + " (stdlib/shard)"@) + "\n```"@ =~= "```\n"@ + require
        + " (stdlib/shard)"@ + "\n```"@);
}

/// The directory that completes a relative path is the one that it names up to its last slash; what
/// follows is what the entries must start with.
pub proof fn lemma_listed_directory(
    current: Seq<char>,
    dir: Seq<char>,
    written: Seq<char>,
    rest: Seq<char>,
)
    requires
        parent_path(current) == Some(dir),
        !rest.contains('/'),
        relative(written + "/"@ + rest),
    ensures
        require_listing(current, written + "/"@ + rest) == Some(
            (joined_path(dir, written), written, rest),
        ),
{
    reveal_strlit("/");
    let typed = written + "/"@ + rest;
    let k = written.len() as int;
    assert(typed[k] == '/');
    lemma_last_index(typed, '/');
    let i = last_index(typed, '/')->0;
    if i > k {
        assert(rest[i - k - 1] == '/');
    }
    assert(typed.take(k) =~= written);
    assert(typed.skip(k + 1) =~= rest);
}

/// Any other path is completed with the directory that the file is in.
pub proof fn lemma_listed_beside(current: Seq<char>, dir: Seq<char>, typed: Seq<char>)
    requires
        parent_path(current) == Some(dir),
        !relative(typed),
    ensures
        require_listing(current, typed) == Some((dir, "."@, typed)),
{
}

// ---------------------------------------------------------------------------
// Workspaces
// ---------------------------------------------------------------------------

/// Directories of packages, of version control and of build results are not entered; the directory of
/// shards is not where a `shard.yml` stands beside it; every other directory is.
pub proof fn lemma_entered(dir: Seq<char>, name: Seq<char>, marked: bool)
    requires
        dir.len() > 0,
        plain_name(name),
    ensures
        entered(joined_path(dir, name), marked) <==> name != "node_modules"@ && name != ".git"@
            && name != "target"@ && !(name == "lib"@ && marked),
        name == "lib"@ ==> (shard_marker(joined_path(dir, name)) matches Some(marker)
            && path_parts(marker) == path_parts(dir).push(
            crate::paths::Part::Normal("shard.yml"@),
        )),
{
    reveal_strlit("shard.yml");
    reveal_strlit(".");
    reveal_strlit("..");
    let path = joined_path(dir, name);
    lemma_joined_name(dir, name);
    if name == "lib"@ {
        let p = parent_path(path)->0;
        assert(plain_name("shard.yml"@));
        if p.len() > 0 {
            lemma_joined_name(p, "shard.yml"@);
        } else {
            crate::laws::paths::lemma_top_level("shard.yml"@);
            assert(p =~= Seq::empty());
            assert(joined_path(p, "shard.yml"@) =~= "shard.yml"@);
            lemma_empty_path();
            assert(path_parts(dir).push(crate::paths::Part::Normal("shard.yml"@)) =~= seq![
                crate::paths::Part::Normal("shard.yml"@),
            ]);
        }
    }
}

proof fn lemma_empty_path()
    ensures
        path_parts(Seq::empty()) == Seq::<crate::paths::Part>::empty(),
{
    let none = Seq::<char>::empty();
    let pieces = split_on(none, '/');
    assert(pieces =~= seq![none]);
    assert(crate::paths::parts_of_pieces(pieces, 0) =~= Seq::empty());
    assert(crate::paths::parts_of_pieces(pieces, 1) =~= Seq::empty());
}

/// The projects of a workspace are the directories that hold a file `shard.yml`.
pub proof fn lemma_projects(walked: Seq<WalkedFile>, dir: Seq<char>)
    ensures
        shard_dirs_of(walked).contains(dir) <==> exists|i: int|
            0 <= i < walked.len() && file_name_of((#[trigger] walked[i]).path@) == Some(
                "shard.yml"@,
            ) && parent_path(walked[i].path@) == Some(dir),
    decreases walked.len(),
{
    if walked.len() > 0 {
        let front = walked.drop_last();
        let last = walked.last();
        let before = shard_dirs_of(front);
        lemma_projects(front, dir);
        assert(forall|i: int| 0 <= i < front.len() ==> #[trigger] front[i] == walked[i]);
        assert(walked[walked.len() - 1] == last);
        if let Some(d) = parent_path(last.path@) {
            crate::require_glob::lemma_sum_contains(before, seq![d], dir);
            assert(before.push(d) =~= before + seq![d]);
            assert(seq![d].contains(dir) <==> d == dir) by {
                assert(seq![d][0] == d);
            }
        }
        if before.contains(dir) {
            let i = choose|i: int|
                0 <= i < front.len() && file_name_of((#[trigger] front[i]).path@) == Some(
                    "shard.yml"@,
                ) && parent_path(front[i].path@) == Some(dir);
            assert(walked[i] == front[i]);
        }
        if exists|i: int|
            0 <= i < walked.len() && file_name_of((#[trigger] walked[i]).path@) == Some(
                "shard.yml"@,
            ) && parent_path(walked[i].path@) == Some(dir) {
            let i = choose|i: int|
                0 <= i < walked.len() && file_name_of((#[trigger] walked[i]).path@) == Some(
                    "shard.yml"@,
                ) && parent_path(walked[i].path@) == Some(dir);
            if i < front.len() {
                assert(front[i] == walked[i]);
            }
        }
    }
}

/// Each file of a workspace has the time and the project of the file that was met there, and is not
/// parsed yet.
pub proof fn lemma_entry_of_file(walked: Seq<WalkedFile>, roots: Seq<Seq<char>>, e: Entry)
    requires
        entries_of(walked, roots).contains(e),
    ensures
        !e.parsed,
        exists|i: int|
            0 <= i < walked.len() && (#[trigger] walked[i]).path@ == e.path && walked[i].modified
                == e.modified && crystal_file(e.path),
        e.project_root matches Some(root) ==> roots.contains(root) && path_starts_with(e.path, root),
        e.project_root is None ==> forall|k: int|
            0 <= k < roots.len() ==> !path_starts_with(e.path, #[trigger] roots[k]),
    decreases walked.len(),
{
    if walked.len() > 0 {
        let front = walked.drop_last();
        let w = walked.last();
        assert(walked[walked.len() - 1] == w);
        let before = entries_of(front, roots);
        if crystal_file(w.path@) {
            let added = Entry {
                path: w.path@,
                modified: w.modified,
                project_root: root_of(roots, w.path@, 0),
                parsed: false,
            };
            lemma_with_entry_only(before, added, e);
            lemma_root(roots, w.path@, 0);
            if e != added {
                lemma_entry_of_file(front, roots, e);
                let i = choose|i: int|
                    0 <= i < front.len() && (#[trigger] front[i]).path@ == e.path
                        && front[i].modified == e.modified && crystal_file(e.path);
                assert(walked[i] == front[i]);
            }
        } else {
            lemma_entry_of_file(front, roots, e);
            let i = choose|i: int|
                0 <= i < front.len() && (#[trigger] front[i]).path@ == e.path && front[i].modified
                    == e.modified && crystal_file(e.path);
            assert(walked[i] == front[i]);
        }
    }
}

proof fn lemma_root(roots: Seq<Seq<char>>, path: Seq<char>, i: int)
    requires
        0 <= i,
    ensures
        match root_of(roots, path, i) {
            Some(root) => roots.contains(root) && path_starts_with(path, root),
            None => forall|k: int|
                i <= k < roots.len() ==> !path_starts_with(path, #[trigger] roots[k]),
        },
    decreases roots.len() - i,
{
    if i < roots.len() && !path_starts_with(path, roots[i]) {
        lemma_root(roots, path, i + 1);
    }
}

proof fn lemma_with_entry_only(files: Seq<Entry>, e: Entry, x: Entry)
    requires
        with_entry(files, e).contains(x),
    ensures
        x == e || files.contains(x),
    decreases files.len(),
{
    if files.len() > 0 {
        let rest = files.skip(1);
        let all = with_entry(files, e);
        assert(seq![e].contains(x) ==> x == e);
        assert(seq![files[0]].contains(x) ==> x == files[0]);
        if same_path(files[0].path, e.path) {
            crate::require_glob::lemma_sum_contains(seq![e], rest, x);
        } else if crate::paths::path_at_most(e.path, files[0].path) {
            crate::require_glob::lemma_sum_contains(seq![e], files, x);
        } else {
            crate::require_glob::lemma_sum_contains(seq![files[0]], with_entry(rest, e), x);
            if with_entry(rest, e).contains(x) {
                lemma_with_entry_only(rest, e, x);
            }
        }
        if rest.contains(x) {
            let k = choose|k: int| 0 <= k < rest.len() && rest[k] == x;
            assert(files[k + 1] == x);
        }
        assert(files.contains(files[0]));
    }
}

} // verus!
