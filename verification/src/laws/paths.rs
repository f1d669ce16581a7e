//! What paths denote.

use vstd::prelude::*;

use crate::laws::text::{lemma_last_index, lemma_split_last};
use crate::paths::{
    absolute, crystal_file, file_name_of, file_stem, joined_path, lemma_parent_parts,
    lemma_parts_total, lemma_pieces_agree, parent_path, parts_at_most, parts_of_pieces,
    path_at_most, path_ends_with, path_parts, path_starts_with, path_with_extension, same_path, text_at_most,
    without_tail, Part,
};
use crate::text::{last_index, split_on};

verus! {

/// Whether `name` can be the name of a file or directory.
pub open spec fn plain_name(name: Seq<char>) -> bool {
    name.len() > 0 && !name.contains('/') && name != "."@ && name != ".."@
}

/// A name behind a slash is one part more; `..` stands for the directory above, and `.` and nothing
/// stand for nothing.
pub proof fn lemma_one_more_part(dir: Seq<char>, name: Seq<char>)
    requires
        dir.len() > 0,
        !name.contains('/'),
    ensures
        plain_name(name) ==> path_parts(dir + "/"@ + name) == path_parts(dir).push(
            Part::Normal(name),
        ),
        name == ".."@ ==> path_parts(dir + "/"@ + name) == path_parts(dir).push(Part::Parent),
        name == "."@ || name.len() == 0 ==> path_parts(dir + "/"@ + name) == path_parts(dir),
{
    reveal_strlit("/");
    reveal_strlit(".");
    reveal_strlit("..");
    assert("."@.len() != ".."@.len());
    let path = dir + "/"@ + name;
    assert(path =~= dir + seq!['/'] + name);
    assert(path[0] == dir[0]);
    let before = split_on(dir, '/');
    lemma_split_last(dir, name, '/');
    crate::text::lemma_split_on_nonempty(dir, '/');
    let pieces = before.push(name);
    let n = before.len() as int;
    lemma_pieces_agree(pieces, before, n);
    assert(pieces[n] == name);
    let body = parts_of_pieces(before, n);
    if absolute(dir) {
        assert((seq![Part::Root] + body).push(Part::Normal(name)) =~= seq![Part::Root] + body.push(
            Part::Normal(name),
        ));
        assert((seq![Part::Root] + body).push(Part::Parent) =~= seq![Part::Root] + body.push(
            Part::Parent,
        ));
    }
}

/// A path that starts with a slash starts at the root, and one name behind it is all there is.
pub proof fn lemma_top_level(name: Seq<char>)
    requires
        plain_name(name),
    ensures
        path_parts("/"@ + name) == seq![Part::Root, Part::Normal(name)],
        path_parts(name) == seq![Part::Normal(name)],
{
    reveal_strlit("/");
    let none = Seq::<char>::empty();
    let path = "/"@ + name;
    assert(path =~= none + seq!['/'] + name);
    lemma_split_last(none, name, '/');
    let pieces = split_on(path, '/');
    assert(pieces =~= seq![none, name]);
    assert(parts_of_pieces(pieces, 0) =~= Seq::empty());
    assert(parts_of_pieces(pieces, 1) =~= Seq::empty());
    assert(parts_of_pieces(pieces, 2) =~= seq![Part::Normal(name)]);
    assert(seq![Part::Root] + seq![Part::Normal(name)] =~= seq![Part::Root, Part::Normal(name)]);
    crate::laws::text::lemma_split_one(name, '/');
    assert(parts_of_pieces(seq![name], 0) =~= Seq::empty());
    assert(parts_of_pieces(seq![name], 1) =~= seq![Part::Normal(name)]);
    assert(name.contains(name[0]));
}

/// A name taken from a directory lies right in it: the directory is what holds it, and it is called by
/// that name.
pub proof fn lemma_joined_name(dir: Seq<char>, name: Seq<char>)
    requires
        dir.len() > 0,
        plain_name(name),
    ensures
        path_parts(joined_path(dir, name)) == path_parts(dir).push(Part::Normal(name)),
        file_name_of(joined_path(dir, name)) == Some(name),
        parent_path(joined_path(dir, name)) matches Some(p) && same_path(p, dir),
        path_starts_with(joined_path(dir, name), dir),
{
    reveal_strlit("/");
    let path = joined_path(dir, name);
    assert(name.contains(name[0]));
    if dir.last() == '/' {
        if dir.len() == 1 {
            assert(dir =~= "/"@);
            lemma_top_level(name);
            assert(path_parts("/"@) =~= seq![Part::Root]) by {
                let none = Seq::<char>::empty();
                assert("/"@ =~= none + seq!['/'] + none);
                lemma_split_last(none, none, '/');
                let pieces = split_on("/"@, '/');
                assert(pieces =~= seq![none, none]);
                assert(parts_of_pieces(pieces, 0) =~= Seq::empty());
                assert(parts_of_pieces(pieces, 1) =~= Seq::empty());
                assert(parts_of_pieces(pieces, 2) =~= Seq::empty());
                assert(seq![Part::Root] + Seq::<Part>::empty() =~= seq![Part::Root]);
            }
            assert(path_parts(dir).push(Part::Normal(name)) =~= seq![
                Part::Root,
                Part::Normal(name),
            ]);
        } else {
            let front = dir.drop_last();
            assert(dir =~= front.push('/'));
            crate::paths::lemma_slash_at_end(front);
            assert(path =~= front + "/"@ + name);
            lemma_one_more_part(front, name);
        }
    } else {
        assert(path =~= dir + "/"@ + name);
        lemma_one_more_part(dir, name);
    }
    lemma_parent_parts(path);
    let parts = path_parts(path);
    assert(parts.drop_last() =~= path_parts(dir));
    assert(parts.take(path_parts(dir).len() as int) =~= path_parts(dir));
    assert(parts.last() == Part::Normal(name));
    if parent_path(path) is None {
        assert(parts.len() == 0 || parts == seq![Part::Root]);
        assert(parts.last() == Part::Root);
    }
}

/// A path that starts with a slash stands for itself, wherever it is taken from.
pub proof fn lemma_joined_absolute(dir: Seq<char>, path: Seq<char>)
    requires
        path.len() > 0,
        path[0] == '/',
    ensures
        joined_path(dir, path) == path,
{
}

/// A file is one of Crystal exactly where its name ends in `.cr` and is more than that.
pub proof fn lemma_crystal_file(dir: Seq<char>, name: Seq<char>)
    requires
        dir.len() > 0,
        plain_name(name),
    ensures
        crystal_file(joined_path(dir, name)) <==> exists|stem: Seq<char>|
            stem.len() > 0 && name == #[trigger] (stem + ".cr"@),
{
    reveal_strlit(".cr");
    lemma_joined_name(dir, name);
    if name.len() > 3 && ".cr"@.is_suffix_of(name) {
        let stem = name.take(name.len() - 3);
        assert(name =~= stem + ".cr"@);
    }
    if exists|stem: Seq<char>| stem.len() > 0 && name == #[trigger] (stem + ".cr"@) {
        let stem = choose|stem: Seq<char>| stem.len() > 0 && name == #[trigger] (stem + ".cr"@);
        assert(name.skip(name.len() - 3) =~= ".cr"@);
    }
}

/// A name without a dot gets the extension behind it.
pub proof fn lemma_extension_is_added(dir: Seq<char>, name: Seq<char>, ext: Seq<char>)
    requires
        dir.len() > 0,
        plain_name(name),
        !name.contains('.'),
    ensures
        path_with_extension(joined_path(dir, name), ext) == joined_path(dir, name) + "."@ + ext,
{
    reveal_strlit(".");
    let path = joined_path(dir, name);
    lemma_joined_name(dir, name);
    lemma_last_index(name, '.');
    if let Some(i) = last_index(name, '.') {
        assert(name.contains(name[i]));
    }
    assert(file_stem(name) == name);
    assert(name.contains(name[0]));
    assert(name != seq!['.']) by {
        if name == seq!['.'] {
            assert(name[0] == '.');
        }
    }
    assert(path.last() == name[name.len() - 1]);
    assert(name.contains(name[name.len() - 1]));
    assert(without_tail(path) == path);
    assert(path.take(path.len() - name.len()) + name =~= path);
    assert(path.take(path.len() - name.len()) + file_stem(name) + seq!['.'] + ext =~= path + "."@
        + ext);
}

/// Texts are ordered by the first character in which they differ, and a text stands before those that
/// go on.
pub proof fn lemma_text_order_is_by_chars(
    common: Seq<char>,
    a: char,
    x: Seq<char>,
    b: char,
    y: Seq<char>,
)
    requires
        a != b,
    ensures
        text_at_most(common + seq![a] + x, common + seq![b] + y) <==> a < b,
        text_at_most(common, common + y),
    decreases common.len(),
{
    let s = common + seq![a] + x;
    let t = common + seq![b] + y;
    let u = common + y;
    if common.len() == 0 {
        assert(s[0] == a && t[0] == b);
    } else {
        let rest = common.skip(1);
        assert(s[0] == t[0] && u[0] == common[0]);
        assert(s.skip(1) =~= rest + seq![a] + x);
        assert(t.skip(1) =~= rest + seq![b] + y);
        assert(u.skip(1) =~= rest + y);
        lemma_text_order_is_by_chars(rest, a, x, b, y);
    }
}

/// Paths are ordered by the first part in which they differ: names by their texts, the root before a
/// dot, that before two dots, and those before names; a path stands before those that go on.
pub proof fn lemma_path_order_is_by_parts(
    common: Seq<Part>,
    a: Part,
    x: Seq<Part>,
    b: Part,
    y: Seq<Part>,
)
    requires
        a != b,
    ensures
        a matches Part::Normal(m) ==> (b matches Part::Normal(n) ==> (parts_at_most(
            common + seq![a] + x,
            common + seq![b] + y,
        ) <==> text_at_most(m, n))),
        a is Normal && !(b is Normal) ==> !parts_at_most(
            common + seq![a] + x,
            common + seq![b] + y,
        ),
        !(a is Normal) && b is Normal ==> parts_at_most(
            common + seq![a] + x,
            common + seq![b] + y,
        ),
        a is Root && !(b is Root) ==> parts_at_most(common + seq![a] + x, common + seq![b] + y),
        a is Current && b is Parent ==> parts_at_most(common + seq![a] + x, common + seq![b] + y),
        parts_at_most(common, common + y),
    decreases common.len(),
{
    let s = common + seq![a] + x;
    let t = common + seq![b] + y;
    let u = common + y;
    if common.len() == 0 {
        assert(s[0] == a && t[0] == b);
    } else {
        let rest = common.skip(1);
        assert(s[0] == t[0] && u[0] == common[0]);
        assert(s.skip(1) =~= rest + seq![a] + x);
        assert(t.skip(1) =~= rest + seq![b] + y);
        assert(u.skip(1) =~= rest + y);
        lemma_path_order_is_by_parts(rest, a, x, b, y);
    }
}

/// Two paths that stand before each other are the same path.
pub proof fn lemma_path_order_is_exact(a: Seq<char>, b: Seq<char>)
    ensures
        path_at_most(a, b) || path_at_most(b, a),
        path_at_most(a, b) && path_at_most(b, a) <==> same_path(a, b),
{
    lemma_parts_total(path_parts(a), path_parts(b));
    lemma_parts_total(path_parts(a), path_parts(a));
}

/// A path lies under another exactly where it goes on from it part by part, however both are written.
pub proof fn lemma_lies_under(path: Seq<char>, base: Seq<char>)
    ensures
        path_starts_with(path, base) <==> exists|rest: Seq<Part>|
            path_parts(path) == #[trigger] (path_parts(base) + rest),
{
    let all = path_parts(path);
    let front = path_parts(base);
    if path_starts_with(path, base) {
        let rest = all.skip(front.len() as int);
        assert(all =~= front + rest);
    }
    if exists|rest: Seq<Part>| all == #[trigger] (front + rest) {
        let rest = choose|rest: Seq<Part>| all == #[trigger] (front + rest);
        assert(all.take(front.len() as int) =~= front);
    }
}

/// A path ends with another exactly where it leads up to it part by part.
pub proof fn lemma_ends_with(path: Seq<char>, end: Seq<char>)
    ensures
        path_ends_with(path, end) <==> exists|rest: Seq<Part>|
            path_parts(path) == #[trigger] (rest + path_parts(end)),
{
    let all = path_parts(path);
    let back = path_parts(end);
    if path_ends_with(path, end) {
        let rest = all.take(all.len() - back.len());
        assert(all =~= rest + back);
    }
    if exists|rest: Seq<Part>| all == #[trigger] (rest + back) {
        let rest = choose|rest: Seq<Part>| all == #[trigger] (rest + back);
        assert(all.skip(all.len() - back.len()) =~= back);
    }
}

/// The directory of a path is written as the path without its name and the slash before it.
pub proof fn lemma_parent_is_written(dir: Seq<char>, name: Seq<char>)
    requires
        dir.len() > 0,
        dir.last() != '/',
        !(dir.len() > 1 && dir.last() == '.' && dir[dir.len() - 2] == '/'),
        plain_name(name),
    ensures
        parent_path(dir + "/"@ + name) == Some(dir),
        joined_path(dir, name) == dir + "/"@ + name,
{
    reveal_strlit("/");
    reveal_strlit(".");
    let path = dir + "/"@ + name;
    let k = dir.len() as int;
    assert(name.contains(name[0]));
    let last = name[name.len() - 1];
    assert(name.contains(last));
    assert(path.last() == last);
    if last == '.' && path[path.len() - 2] == '/' {
        if name.len() > 1 {
            assert(path[path.len() - 2] == name[name.len() - 2]);
            assert(name.contains(name[name.len() - 2]));
        } else {
            assert(name =~= "."@);
        }
    }
    assert(without_tail(path) == path);
    assert(path[k] == '/');
    lemma_last_index(path, '/');
    let i = last_index(path, '/')->0;
    if i > k {
        assert(name[i - k - 1] == '/');
    }
    assert(i == k);
    assert(path != seq!['/']) by {
        assert(path.len() > 1);
    }
    let front = path.take(k + 1);
    assert(front =~= dir.push('/'));
    assert(front.drop_last() =~= dir);
    assert(without_tail(dir) == dir);
    assert(without_tail(front) == dir);
    assert(joined_path(dir, name) =~= path);
}

} // verus!
