//! Unix file paths as text.
//!
//! The server runs on Linux and macOS. A path is held as its text; what it denotes is the sequence
//! of its parts, so that `a//b` and `a/./b` are the same path as `a/b`.

use vstd::prelude::*;
use vstd::slice::slice_subrange;

use crate::order::{lemma_sort_maps, ranking, ranks, stable_sort, stable_sorted, Order, Ranked};
use crate::text::{
    chars_of, copy, ends_with_text, find_last, is_text, last_index, opt_text, push_chars, same, split,
    split_on, string_of, texts, views,
};

verus! {

/// One part of a path.
#[derive(Debug)]
pub enum PathPart {
    /// The leading `/` of an absolute path.
    Root,
    /// A `.` that a relative path starts with.
    Current,
    /// `..`
    Parent,
    /// The name of a file or directory.
    Normal(String),
}

/// The model of a [`PathPart`].
#[verifier::ext_equal]
pub enum Part {
    Root,
    Current,
    Parent,
    Normal(Seq<char>),
}

impl View for PathPart {
    type V = Part;

    open spec fn view(&self) -> Part {
        match self {
            PathPart::Root => Part::Root,
            PathPart::Current => Part::Current,
            PathPart::Parent => Part::Parent,
            PathPart::Normal(name) => Part::Normal(name@),
        }
    }
}

/// The models of several parts.
pub open spec fn part_views(parts: Seq<PathPart>) -> Seq<Part> {
    Seq::new(parts.len(), |i: int| parts[i]@)
}

/// Whether the path `s` is absolute.
pub open spec fn absolute(s: Seq<char>) -> bool {
    s.len() > 0 && s[0] == '/'
}

/// What the first `n` of the pieces between the slashes of a path stand for. Empty pieces and `.`
/// stand for nothing, except that a `.` in front of everything is kept.
pub open spec fn parts_of_pieces(pieces: Seq<Seq<char>>, n: int) -> Seq<Part>
    decreases n,
{
    if n <= 0 {
        Seq::empty()
    } else {
        let before = parts_of_pieces(pieces, n - 1);
        let piece = pieces[n - 1];
        if piece.len() == 0 {
            before
        } else if piece == "."@ {
            if n == 1 {
                before.push(Part::Current)
            } else {
                before
            }
        } else if piece == ".."@ {
            before.push(Part::Parent)
        } else {
            before.push(Part::Normal(piece))
        }
    }
}

/// The parts of the path `s`.
pub open spec fn path_parts(s: Seq<char>) -> Seq<Part> {
    let pieces = split_on(s, '/');
    let body = parts_of_pieces(pieces, pieces.len() as int);
    if absolute(s) {
        seq![Part::Root] + body
    } else {
        body
    }
}

/// Takes a path apart.
pub fn parts_of(path: &str) -> (r: Vec<PathPart>)
    ensures
        part_views(r@) == path_parts(path@),
{
    let s = chars_of(path);
    let pieces = split(&s, '/');
    let ghost model = views(pieces@);
    let mut out: Vec<PathPart> = Vec::new();
    let ghost mut front: Seq<Part> = Seq::empty();
    if s.len() > 0 && s[0] == '/' {
        out.push(PathPart::Root);
        proof {
            front = seq![Part::Root];
        }
    }
    assert(part_views(out@) =~= front + parts_of_pieces(model, 0));
    let mut i: usize = 0;
    while i < pieces.len()
        invariant
            i <= pieces@.len(),
            model == views(pieces@),
            part_views(out@) == front + parts_of_pieces(model, i as int),
        decreases pieces@.len() - i,
    {
        let ghost before = part_views(out@);
        let ghost body = parts_of_pieces(model, i as int);
        let piece = &pieces[i];
        assert(piece@ == model[i as int]);
        if piece.len() == 0 {
        } else if is_text(piece, ".") {
            if i == 0 {
                out.push(PathPart::Current);
                assert(part_views(out@) =~= before.push(Part::Current));
                assert(front + body.push(Part::Current) =~= (front + body).push(Part::Current));
            }
        } else if is_text(piece, "..") {
            out.push(PathPart::Parent);
            assert(part_views(out@) =~= before.push(Part::Parent));
            assert(front + body.push(Part::Parent) =~= (front + body).push(Part::Parent));
        } else {
            out.push(PathPart::Normal(string_of(piece)));
            assert(part_views(out@) =~= before.push(Part::Normal(piece@)));
            assert(front + body.push(Part::Normal(piece@)) =~= (front + body).push(
                Part::Normal(piece@),
            ));
        }
        i = i + 1;
    }
    assert(!absolute(path@) ==> part_views(out@) =~= parts_of_pieces(model, model.len() as int));
    out
}

/// Whether two parts are the same.
pub fn same_part(a: &PathPart, b: &PathPart) -> (r: bool)
    ensures
        r == (a@ == b@),
{
    match (a, b) {
        (PathPart::Root, PathPart::Root) => true,
        (PathPart::Current, PathPart::Current) => true,
        (PathPart::Parent, PathPart::Parent) => true,
        (PathPart::Normal(x), PathPart::Normal(y)) => same(x, y),
        _ => false,
    }
}

/// Whether the parts `a` start with the parts `b`.
fn parts_start_with(a: &Vec<PathPart>, b: &Vec<PathPart>) -> (r: bool)
    ensures
        r == part_views(b@).is_prefix_of(part_views(a@)),
{
    if b.len() > a.len() {
        return false;
    }
    let mut i: usize = 0;
    let ghost va = part_views(a@);
    let ghost vb = part_views(b@);
    while i < b.len()
        invariant
            i <= b@.len() <= a@.len(),
            va == part_views(a@),
            vb == part_views(b@),
            va.take(i as int) == vb.take(i as int),
        decreases b@.len() - i,
    {
        assert(va[i as int] == a@[i as int]@ && vb[i as int] == b@[i as int]@);
        if !same_part(&a[i], &b[i]) {
            assert(va.take(vb.len() as int)[i as int] != vb[i as int]);
            return false;
        }
        i = i + 1;
        assert(va.take(i as int) =~= va.take(i - 1).push(va[i - 1]));
        assert(vb.take(i as int) =~= vb.take(i - 1).push(vb[i - 1]));
    }
    assert(vb.take(i as int) =~= vb);
    true
}

/// Whether two texts denote the same path.
pub open spec fn same_path(a: Seq<char>, b: Seq<char>) -> bool {
    path_parts(a) == path_parts(b)
}

/// Decides whether two texts denote the same path.
pub fn is_same_path(a: &str, b: &str) -> (r: bool)
    ensures
        r == same_path(a@, b@),
{
    let x = parts_of(a);
    let y = parts_of(b);
    if x.len() != y.len() {
        assert(part_views(x@).len() != part_views(y@).len());
        return false;
    }
    let r = parts_start_with(&x, &y);
    assert(part_views(x@).take(x@.len() as int) =~= part_views(x@));
    r
}

/// Whether the path `s` lies at or under the path `base`.
pub open spec fn path_starts_with(s: Seq<char>, base: Seq<char>) -> bool {
    path_parts(base).is_prefix_of(path_parts(s))
}

/// Decides whether `path` lies at or under `base`.
pub fn lies_under(path: &str, base: &str) -> (r: bool)
    ensures
        r == path_starts_with(path@, base@),
{
    parts_start_with(&parts_of(path), &parts_of(base))
}

/// Whether the path `s` ends with the parts of the path `end`.
pub open spec fn path_ends_with(s: Seq<char>, end: Seq<char>) -> bool {
    path_parts(end).is_suffix_of(path_parts(s))
}

/// Decides whether `path` ends with the parts of `end`.
pub fn ends_with_path(path: &str, end: &str) -> (r: bool)
    ensures
        r == path_ends_with(path@, end@),
{
    let a = parts_of(path);
    let b = parts_of(end);
    let ghost va = part_views(a@);
    let ghost vb = part_views(b@);
    let n: usize = b.len();
    let all: usize = a.len();
    if n > all {
        return false;
    }
    let skip: usize = all - n;
    let mut i: usize = 0;
    while i < n
        invariant
            i <= n,
            n == b@.len(),
            all == a@.len(),
            skip + n == all,
            va == part_views(a@),
            vb == part_views(b@),
            va == path_parts(path@),
            vb == path_parts(end@),
            forall|k: int| 0 <= k < i ==> #[trigger] vb[k] == va[skip + k],
        decreases n - i,
    {
        assert(vb[i as int] == b@[i as int]@ && va[skip + i] == a@[skip + i]@);
        if !same_part(&a[skip + i], &b[i]) {
            assert(va.subrange(va.len() - vb.len(), va.len() as int)[i as int] != vb[i as int]);
            return false;
        }
        i = i + 1;
    }
    assert(va.subrange(va.len() - vb.len(), va.len() as int) =~= vb);
    true
}

/// The name that the path `s` ends with.
pub open spec fn file_name_of(s: Seq<char>) -> Option<Seq<char>> {
    let parts = path_parts(s);
    if parts.len() == 0 {
        None
    } else {
        match parts.last() {
            Part::Normal(name) => Some(name),
            _ => None,
        }
    }
}

/// The name that a path ends with.
pub fn file_name(path: &str) -> (r: Option<String>)
    ensures
        opt_text(r) == file_name_of(path@),
{
    let mut parts = parts_of(path);
    let ghost model = path_parts(path@);
    if parts.len() == 0 {
        assert(model.len() == 0);
        return None;
    }
    assert(model.last() == parts@.last()@);
    match parts.pop() {
        Some(PathPart::Normal(name)) => Some(name),
        _ => None,
    }
}

/// Whether the path `s` names a Crystal source file: the extension of its name is `cr`.
pub open spec fn crystal_file(s: Seq<char>) -> bool {
    match file_name_of(s) {
        Some(name) => name.len() > 3 && ".cr"@.is_suffix_of(name),
        None => false,
    }
}

/// Decides whether a path names a Crystal source file.
pub fn is_crystal_file(path: &str) -> (r: bool)
    ensures
        r == crystal_file(path@),
{
    match file_name(path) {
        Some(name) => {
            let name = chars_of(&name);
            name.len() > 3 && ends_with_text(&name, ".cr")
        },
        None => false,
    }
}

/// The path `rest` taken from the directory `base`.
pub open spec fn joined_path(base: Seq<char>, rest: Seq<char>) -> Seq<char> {
    if absolute(rest) {
        rest
    } else if base.len() == 0 || base.last() == '/' {
        base + rest
    } else {
        base.push('/') + rest
    }
}

/// Takes the path `rest` from the directory `base`; an absolute `rest` stands for itself.
pub fn join_path(base: &str, rest: &str) -> (r: String)
    ensures
        r@ == joined_path(base@, rest@),
{
    let b = chars_of(base);
    let t = chars_of(rest);
    if t.len() > 0 && t[0] == '/' {
        return copy(rest);
    }
    let mut out = copy(base);
    if b.len() > 0 && b[b.len() - 1] != '/' {
        out.push('/');
    }
    push_chars(&mut out, &t);
    out
}

/// The path `s` without the slashes and `.` at its end that stand for nothing. A slash or a `.` that
/// is all of the path stays.
pub open spec fn without_tail(s: Seq<char>) -> Seq<char>
    decreases s.len(),
{
    if s.len() > 1 && (s.last() == '/' || (s.last() == '.' && s[s.len() - 2] == '/')) {
        without_tail(s.drop_last())
    } else {
        s
    }
}

fn drop_tail(s: &[char]) -> (r: &[char])
    ensures
        r@ == without_tail(s@),
{
    let mut n: usize = s.len();
    assert(s@.take(n as int) =~= s@);
    while n > 1 && (s[n - 1] == '/' || (s[n - 1] == '.' && s[n - 2] == '/'))
        invariant
            n <= s@.len(),
            without_tail(s@) == without_tail(s@.take(n as int)),
        decreases n,
    {
        assert(s@.take(n as int).drop_last() =~= s@.take(n - 1));
        n = n - 1;
    }
    let r = slice_subrange(s, 0, n);
    assert(r@ =~= s@.take(n as int));
    r
}

/// The directory that holds the path `s`; none for the empty path and for the root.
pub open spec fn parent_path(s: Seq<char>) -> Option<Seq<char>> {
    let t = without_tail(s);
    if t.len() == 0 || t == seq!['/'] {
        None
    } else {
        match last_index(t, '/') {
            Some(i) => Some(without_tail(t.take(i + 1))),
            None => Some(Seq::empty()),
        }
    }
}

/// The directory that holds a path.
pub fn parent(path: &str) -> (r: Option<String>)
    ensures
        opt_text(r) == parent_path(path@),
{
    let s = chars_of(path);
    let t = drop_tail(&s);
    let n: usize = t.len();
    if n == 0 {
        return None;
    }
    if n == 1 && t[0] == '/' {
        assert(t@ =~= seq!['/']);
        return None;
    }
    assert(t@ != seq!['/']) by {
        if t@ == seq!['/'] {
            assert(t@.len() == 1 && t@[0] == '/');
        }
    }
    match find_last(t, '/') {
        Some(i) => {
            let front = slice_subrange(t, 0, i + 1);
            assert(front@ =~= t@.take(i + 1));
            Some(string_of(drop_tail(front)))
        },
        None => {
            let none = String::new();
            assert(none@ =~= Seq::empty());
            Some(none)
        },
    }
}

/// A file name without its extension: what stands before its last dot, or all of it where that is
/// nothing or there is no dot.
pub open spec fn file_stem(name: Seq<char>) -> Seq<char> {
    match last_index(name, '.') {
        Some(i) => if i > 0 {
            name.take(i)
        } else {
            name
        },
        None => name,
    }
}

/// What `Path::with_extension` gives for a path whose name is two dots, the second of them its last,
/// and more.
pub uninterp spec fn odd_extension(s: Seq<char>, ext: Seq<char>) -> Seq<char>;

/// The path `s` with the extension `ext` in place of its own. A path that ends in no name stays as
/// it is.
pub open spec fn path_with_extension(s: Seq<char>, ext: Seq<char>) -> Seq<char> {
    match file_name_of(s) {
        Some(name) => if file_stem(name) != seq!['.'] {
            let t = without_tail(s);
            t.take(t.len() - name.len()) + file_stem(name) + seq!['.'] + ext
        } else {
            odd_extension(s, ext)
        },
        None => s,
    }
}

/// Calls `Path::with_extension` with an extension that is not empty; it panics on one that holds a
/// separator. Its result depends on the two texts alone. A path that ends in no name is given back
/// unchanged. Otherwise what follows the name without its extension gives way to a dot and the new
/// extension. Of a name such as `..x`, in which a lone dot stands before the last one, it is left
/// unsaid what becomes of it.
#[verifier::external_body]
pub(crate) fn with_extension(path: &str, ext: &str) -> (r: String)
    requires
        ext@.len() > 0,
        !ext@.contains('/'),
    ensures
        match file_name_of(path@) {
            Some(name) => if file_stem(name) != seq!['.'] {
                r@ == without_tail(path@).take(without_tail(path@).len() - name.len()) + file_stem(
                    name,
                ) + seq!['.'] + ext@
            } else {
                r@ == odd_extension(path@, ext@)
            },
            None => r@ == path@,
        },
{
    std::path::Path::new(path).with_extension(ext).to_string_lossy().into_owned()
}

/// The last piece of a path is what follows its last slash.
proof fn lemma_last_piece(s: Seq<char>)
    ensures
        split_on(s, '/').len() > 0,
        split_on(s, '/').last().len() <= s.len(),
        s.skip(s.len() - split_on(s, '/').last().len()) == split_on(s, '/').last(),
        !split_on(s, '/').last().contains('/'),
        match last_index(s, '/') {
            Some(i) => i == s.len() - split_on(s, '/').last().len() - 1 && 0 <= i < s.len(),
            None => split_on(s, '/').len() == 1 && split_on(s, '/')[0] == s,
        },
    decreases s.len(),
{
    if s.len() == 0 {
        assert(s.skip(0) =~= Seq::empty());
        assert(!Seq::<char>::empty().contains('/'));
        assert(split_on(s, '/')[0] =~= s);
    } else {
        let front = s.drop_last();
        lemma_last_piece(front);
        let before = split_on(front, '/');
        let after = split_on(s, '/');
        lemma_last_index_drop(s, '/');
        if s.last() == '/' {
            assert(s.skip(s.len() as int) =~= Seq::empty());
            assert(!Seq::<char>::empty().contains('/'));
        } else {
            let piece = before.last().push(s.last());
            assert(after.last() == piece);
            assert(s.skip(s.len() - piece.len()) =~= piece) by {
                assert(front.skip(front.len() - before.last().len()) == before.last());
                assert forall|k: int| 0 <= k < piece.len() implies s.skip(
                    s.len() - piece.len(),
                )[k] == piece[k] by {
                    if k < before.last().len() {
                        assert(front.skip(front.len() - before.last().len())[k] == before.last()[k]);
                    }
                }
            }
            assert(!piece.contains('/')) by {
                if piece.contains('/') {
                    let k = choose|k: int| 0 <= k < piece.len() && piece[k] == '/';
                    assert(before.last()[k] == '/');
                    assert(before.last().contains('/'));
                }
            }
            if last_index(s, '/') is None {
                assert(after[0] =~= s);
            }
        }
    }
}

pub(crate) proof fn lemma_last_index_drop(s: Seq<char>, c: char)
    requires
        s.len() > 0,
    ensures
        last_index(s, c) == if s.last() == c {
            Some(s.len() - 1)
        } else {
            last_index(s.drop_last(), c)
        },
{
    if s.last() != c {
        lemma_last_index_agrees(s, s.drop_last(), c, s.len() - 1);
    }
}

proof fn lemma_last_index_agrees(a: Seq<char>, b: Seq<char>, c: char, n: int)
    requires
        0 <= n <= a.len(),
        n <= b.len(),
        forall|k: int| 0 <= k < n ==> a[k] == b[k],
    ensures
        crate::text::last_index_before(a, c, n) == crate::text::last_index_before(b, c, n),
    decreases n,
{
    if n > 0 {
        lemma_last_index_agrees(a, b, c, n - 1);
    }
}

pub(crate) proof fn lemma_pieces_agree(a: Seq<Seq<char>>, b: Seq<Seq<char>>, n: int)
    requires
        n <= a.len(),
        n <= b.len(),
        forall|k: int| 0 <= k < n ==> a[k] == b[k],
    ensures
        parts_of_pieces(a, n) == parts_of_pieces(b, n),
    decreases n,
{
    if n > 0 {
        lemma_pieces_agree(a, b, n - 1);
    }
}

/// A slash at the end of a path that is not empty stands for nothing.
pub proof fn lemma_slash_at_end(s: Seq<char>)
    requires
        s.len() > 0,
    ensures
        path_parts(s.push('/')) == path_parts(s),
{
    let longer = s.push('/');
    assert(longer.drop_last() =~= s);
    let a = split_on(s, '/');
    let b = split_on(longer, '/');
    assert(b == a.push(Seq::empty()));
    lemma_pieces_agree(a, b, a.len() as int);
    assert(parts_of_pieces(b, b.len() as int) == parts_of_pieces(b, a.len() as int));
}

/// What `without_tail` takes away stands for nothing.
pub proof fn lemma_tail_is_nothing(s: Seq<char>)
    ensures
        path_parts(without_tail(s)) == path_parts(s),
    decreases s.len(),
{
    if s.len() > 1 && (s.last() == '/' || (s.last() == '.' && s[s.len() - 2] == '/')) {
        let front = s.drop_last();
        lemma_tail_is_nothing(front);
        if s.last() == '/' {
            assert(front.push('/') =~= s);
            lemma_slash_at_end(front);
        } else {
            reveal_strlit(".");
            let a = split_on(front, '/');
            let b = split_on(s, '/');
            assert(front.last() == '/');
            assert(a.last() =~= Seq::<char>::empty());
            assert(a.len() >= 2) by {
                lemma_last_piece(front.drop_last());
            }
            assert(b == a.drop_last().push(a.last().push('.')));
            assert(b.last() =~= "."@);
            lemma_pieces_agree(a, b, a.len() - 1);
            let n = a.len() as int;
            assert(parts_of_pieces(a, n) == parts_of_pieces(a, n - 1));
            assert(parts_of_pieces(b, n) == parts_of_pieces(b, n - 1));
        }
    }
}

/// The last piece of a path without a tail, unless the path is empty or the root.
proof fn lemma_last_piece_counts(t: Seq<char>)
    requires
        without_tail(t) == t,
        t.len() > 0,
        t != seq!['/'],
    ensures
        ({
            let pieces = split_on(t, '/');
            let n = pieces.len() as int;
            &&& pieces.last().len() > 0
            &&& n > 1 ==> pieces.last() != "."@
            &&& parts_of_pieces(pieces, n) == parts_of_pieces(pieces, n - 1).push(
                if pieces.last() == "."@ {
                    Part::Current
                } else if pieces.last() == ".."@ {
                    Part::Parent
                } else {
                    Part::Normal(pieces.last())
                },
            )
        }),
{
    reveal_strlit(".");
    lemma_last_piece(t);
    let pieces = split_on(t, '/');
    let last = pieces.last();
    let n = pieces.len() as int;
    lemma_shorter_tail(t);
    if last.len() == 0 {
        assert(last_index(t, '/') is Some) by {
            if last_index(t, '/') is None {
                assert(pieces[0] == t);
            }
        }
        lemma_last_index_hit(t, '/');
        assert(t.last() == '/');
        assert(t.len() == 1);
        assert(t =~= seq!['/']);
    }
    if n > 1 && last == "."@ {
        assert(last_index(t, '/') is Some);
        lemma_last_index_hit(t, '/');
        assert(t.skip(t.len() - 1) == last);
        assert(t.skip(t.len() - 1)[0] == '.');
        assert(t[t.len() - 2] == '/');
    }
}

proof fn lemma_last_index_hit(s: Seq<char>, c: char)
    ensures
        last_index(s, c) matches Some(i) ==> 0 <= i < s.len() && s[i] == c,
{
    lemma_last_index_before_hit(s, c, s.len() as int);
}

proof fn lemma_last_index_before_hit(s: Seq<char>, c: char, n: int)
    requires
        n <= s.len(),
    ensures
        crate::text::last_index_before(s, c, n) matches Some(i) ==> 0 <= i < n && s[i] == c,
    decreases n,
{
    if n > 0 && s[n - 1] != c {
        lemma_last_index_before_hit(s, c, n - 1);
    }
}

proof fn lemma_tail_len(s: Seq<char>)
    ensures
        without_tail(s).len() <= s.len(),
        without_tail(without_tail(s)) == without_tail(s),
        s.len() > 0 ==> without_tail(s).len() > 0 && without_tail(s)[0] == s[0],
    decreases s.len(),
{
    if s.len() > 1 && (s.last() == '/' || (s.last() == '.' && s[s.len() - 2] == '/')) {
        lemma_tail_len(s.drop_last());
    }
}

/// A path that is its own `without_tail` does not end in what that would take away.
proof fn lemma_shorter_tail(t: Seq<char>)
    requires
        without_tail(t) == t,
    ensures
        !(t.len() > 1 && (t.last() == '/' || (t.last() == '.' && t[t.len() - 2] == '/'))),
{
    if t.len() > 1 && (t.last() == '/' || (t.last() == '.' && t[t.len() - 2] == '/')) {
        lemma_tail_len(t.drop_last());
    }
}

/// The directory that holds a path has the same parts but the last. There is one unless the path is
/// empty or ends in the root.
pub proof fn lemma_parent_parts(s: Seq<char>)
    ensures
        match parent_path(s) {
            Some(p) => path_parts(s).len() > 0 && path_parts(p) == path_parts(s).drop_last(),
            None => path_parts(s).len() == 0 || path_parts(s) == seq![Part::Root],
        },
{
    let t = without_tail(s);
    lemma_tail_is_nothing(s);
    lemma_tail_len(s);
    let pieces = split_on(t, '/');
    let n = pieces.len() as int;
    if t.len() == 0 {
        assert(t =~= Seq::empty());
        assert(pieces =~= seq![Seq::empty()]);
        assert(parts_of_pieces(pieces, 0) =~= Seq::empty());
    } else if t == seq!['/'] {
        assert(t.drop_last() =~= Seq::empty());
        assert(split_on(t.drop_last(), '/') =~= seq![Seq::empty()]);
        assert(pieces =~= seq![Seq::empty(), Seq::empty()]);
        assert(parts_of_pieces(pieces, 0) =~= Seq::empty());
        assert(parts_of_pieces(pieces, 1) =~= Seq::empty());
        assert(parts_of_pieces(pieces, 2) =~= Seq::empty());
        assert(path_parts(t) =~= seq![Part::Root]);
    } else {
        lemma_last_piece(t);
        lemma_last_piece_counts(t);
        match last_index(t, '/') {
            Some(i) => {
                let front = t.take(i + 1);
                lemma_tail_is_nothing(front);
                lemma_split_front(t);
                lemma_last_index_hit(t, '/');
                let a = split_on(front, '/');
                assert(a == pieces.drop_last().push(Seq::empty()));
                lemma_pieces_agree(a, pieces, n - 1);
                assert(parts_of_pieces(a, n) == parts_of_pieces(pieces, n - 1));
                assert(front[0] == t[0]);
                assert(path_parts(front) =~= path_parts(t).drop_last());
            },
            None => {
                let e = Seq::<char>::empty();
                assert(pieces.len() == 1);
                assert(split_on(e, '/') =~= seq![e]);
                assert(parts_of_pieces(split_on(e, '/'), 0) =~= Seq::empty());
                assert(!absolute(t)) by {
                    if absolute(t) {
                        assert(pieces[0] == t);
                        assert(pieces.last()[0] == '/');
                        assert(pieces.last().contains('/'));
                    }
                }
                assert(parts_of_pieces(pieces, 0) =~= Seq::empty());
                assert(path_parts(e) =~= path_parts(t).drop_last());
            },
        }
    }
}

/// The pieces of a path up to and with its last slash.
proof fn lemma_split_front(t: Seq<char>)
    requires
        last_index(t, '/') is Some,
    ensures
        split_on(t.take(last_index(t, '/')->0 + 1), '/') == split_on(t, '/').drop_last().push(
            Seq::empty(),
        ),
        split_on(t, '/').len() > 1,
    decreases t.len(),
{
    let i = last_index(t, '/')->0;
    if t.len() > 0 {
        lemma_last_index_drop(t, '/');
        let front = t.drop_last();
        if t.last() == '/' {
            assert(t.take(i + 1) =~= t);
            lemma_last_piece(front);
            assert(split_on(t, '/').drop_last() =~= split_on(front, '/'));
        } else {
            lemma_split_front(front);
            lemma_last_index_hit(front, '/');
            assert(front.take(i + 1) =~= t.take(i + 1));
            assert(split_on(t, '/').drop_last() =~= split_on(front, '/').drop_last());
        }
    }
}

// ---------------------------------------------------------------------------
// Order
// ---------------------------------------------------------------------------

/// Whether the text `a` stands at or before `b` in the order of their characters.
pub open spec fn text_at_most(a: Seq<char>, b: Seq<char>) -> bool
    decreases a.len(),
{
    if a.len() == 0 {
        true
    } else if b.len() == 0 {
        false
    } else if a[0] != b[0] {
        a[0] < b[0]
    } else {
        text_at_most(a.skip(1), b.skip(1))
    }
}

pub proof fn lemma_text_total(a: Seq<char>, b: Seq<char>)
    ensures
        text_at_most(a, b) || text_at_most(b, a),
        text_at_most(a, b) && text_at_most(b, a) ==> a == b,
        text_at_most(a, a),
    decreases a.len(),
{
    if a.len() > 0 {
        lemma_text_total(a.skip(1), a.skip(1));
        if b.len() > 0 {
            lemma_text_total(a.skip(1), b.skip(1));
            if a[0] == b[0] && a.skip(1) == b.skip(1) {
                assert(a =~= seq![a[0]] + a.skip(1));
                assert(b =~= seq![b[0]] + b.skip(1));
            }
        }
    } else if b.len() == 0 {
        assert(a =~= b);
    }
}

pub proof fn lemma_text_transitive(a: Seq<char>, b: Seq<char>, c: Seq<char>)
    requires
        text_at_most(a, b),
        text_at_most(b, c),
    ensures
        text_at_most(a, c),
    decreases a.len(),
{
    if a.len() > 0 && b.len() > 0 && c.len() > 0 && a[0] == b[0] && b[0] == c[0] {
        lemma_text_transitive(a.skip(1), b.skip(1), c.skip(1));
    }
}

/// Decides the order of two texts.
pub fn is_text_at_most(a: &[char], b: &[char]) -> (r: bool)
    ensures
        r == text_at_most(a@, b@),
{
    let mut i: usize = 0;
    assert(a@.skip(0) =~= a@);
    assert(b@.skip(0) =~= b@);
    while i < a.len()
        invariant
            i <= a@.len(),
            i <= b@.len(),
            text_at_most(a@, b@) == text_at_most(a@.skip(i as int), b@.skip(i as int)),
        decreases a@.len() - i,
    {
        if i >= b.len() {
            return false;
        }
        if a[i] != b[i] {
            return a[i] < b[i];
        }
        assert(a@.skip(i as int).skip(1) =~= a@.skip(i + 1));
        assert(b@.skip(i as int).skip(1) =~= b@.skip(i + 1));
        i = i + 1;
    }
    true
}

/// The rank of a part by what kind of part it is.
pub open spec fn part_rank(p: Part) -> int {
    match p {
        Part::Root => 0,
        Part::Current => 1,
        Part::Parent => 2,
        Part::Normal(_) => 3,
    }
}

/// Whether the part `a` stands before the different part `b`.
pub open spec fn part_below(a: Part, b: Part) -> bool {
    match (a, b) {
        (Part::Normal(x), Part::Normal(y)) => text_at_most(x, y),
        _ => part_rank(a) < part_rank(b),
    }
}

/// Whether the path with the parts `a` stands at or before the one with the parts `b`.
pub open spec fn parts_at_most(a: Seq<Part>, b: Seq<Part>) -> bool
    decreases a.len(),
{
    if a.len() == 0 {
        true
    } else if b.len() == 0 {
        false
    } else if a[0] != b[0] {
        part_below(a[0], b[0])
    } else {
        parts_at_most(a.skip(1), b.skip(1))
    }
}

proof fn lemma_part_order(a: Part, b: Part, c: Part)
    ensures
        a != b ==> part_below(a, b) != part_below(b, a),
        a != b && b != c && part_below(a, b) && part_below(b, c) ==> a != c && part_below(a, c),
{
    match (a, b) {
        (Part::Normal(x), Part::Normal(y)) => {
            lemma_text_total(x, y);
            if let Part::Normal(z) = c {
                if text_at_most(x, y) && text_at_most(y, z) {
                    lemma_text_transitive(x, y, z);
                }
                lemma_text_total(x, z);
                lemma_text_total(y, z);
            }
        },
        _ => {},
    }
}

pub proof fn lemma_parts_total(a: Seq<Part>, b: Seq<Part>)
    ensures
        parts_at_most(a, b) || parts_at_most(b, a),
        parts_at_most(a, b) && parts_at_most(b, a) ==> a == b,
    decreases a.len(),
{
    if a.len() > 0 && b.len() > 0 {
        lemma_part_order(a[0], b[0], b[0]);
        lemma_parts_total(a.skip(1), b.skip(1));
        if a[0] == b[0] && a.skip(1) == b.skip(1) {
            assert(a =~= seq![a[0]] + a.skip(1));
            assert(b =~= seq![b[0]] + b.skip(1));
        }
    } else if a.len() == 0 && b.len() == 0 {
        assert(a =~= b);
    }
}

pub proof fn lemma_parts_transitive(a: Seq<Part>, b: Seq<Part>, c: Seq<Part>)
    requires
        parts_at_most(a, b),
        parts_at_most(b, c),
    ensures
        parts_at_most(a, c),
    decreases a.len(),
{
    if a.len() > 0 && b.len() > 0 && c.len() > 0 {
        lemma_part_order(a[0], b[0], c[0]);
        if a[0] == b[0] && b[0] == c[0] {
            lemma_parts_transitive(a.skip(1), b.skip(1), c.skip(1));
        }
    }
}

fn rank_of(p: &PathPart) -> (r: u8)
    ensures
        r == part_rank(p@),
{
    match p {
        PathPart::Root => 0,
        PathPart::Current => 1,
        PathPart::Parent => 2,
        PathPart::Normal(_) => 3,
    }
}

fn is_part_below(a: &PathPart, b: &PathPart) -> (r: bool)
    ensures
        r == part_below(a@, b@),
{
    match (a, b) {
        (PathPart::Normal(x), PathPart::Normal(y)) => {
            let x = chars_of(x);
            let y = chars_of(y);
            is_text_at_most(&x, &y)
        },
        _ => rank_of(a) < rank_of(b),
    }
}

/// Decides the order of two paths that were taken apart.
pub fn are_parts_at_most(a: &Vec<PathPart>, b: &Vec<PathPart>) -> (r: bool)
    ensures
        r == parts_at_most(part_views(a@), part_views(b@)),
{
    let mut i: usize = 0;
    let ghost va = part_views(a@);
    let ghost vb = part_views(b@);
    assert(va.skip(0) =~= va);
    assert(vb.skip(0) =~= vb);
    while i < a.len()
        invariant
            i <= a@.len(),
            i <= b@.len(),
            va == part_views(a@),
            vb == part_views(b@),
            parts_at_most(va, vb) == parts_at_most(va.skip(i as int), vb.skip(i as int)),
        decreases a@.len() - i,
    {
        if i >= b.len() {
            return false;
        }
        assert(va[i as int] == a@[i as int]@ && vb[i as int] == b@[i as int]@);
        if !same_part(&a[i], &b[i]) {
            return is_part_below(&a[i], &b[i]);
        }
        assert(va.skip(i as int).skip(1) =~= va.skip(i + 1));
        assert(vb.skip(i as int).skip(1) =~= vb.skip(i + 1));
        i = i + 1;
    }
    true
}

/// Whether the path `a` stands at or before the path `b`: paths are ordered part by part.
pub open spec fn path_at_most(a: Seq<char>, b: Seq<char>) -> bool {
    parts_at_most(path_parts(a), path_parts(b))
}

/// The order of paths.
pub open spec fn path_order() -> Order<Seq<char>> {
    |a: Seq<char>, b: Seq<char>| path_at_most(a, b)
}

/// Paths are ranked by their order.
pub proof fn lemma_path_order()
    ensures
        ranks(path_order()),
{
    let le = path_order();
    assert forall|a: Seq<char>, b: Seq<char>| #[trigger] le(a, b) || le(b, a) by {
        lemma_parts_total(path_parts(a), path_parts(b));
    }
    assert forall|a: Seq<char>, b: Seq<char>, c: Seq<char>| #[trigger]
        le(a, b) && #[trigger] le(b, c) implies le(a, c) by {
        lemma_parts_transitive(path_parts(a), path_parts(b), path_parts(c));
    }
}

/// Strings are ranked as the paths that they denote.
impl Ranked for String {
    open spec fn before(self, other: Self) -> bool {
        path_at_most(self@, other@)
    }

    fn may_precede(&self, other: &Self) -> (r: bool) {
        are_parts_at_most(&parts_of(self), &parts_of(other))
    }
}

/// Sorts paths.
pub fn sort_paths(paths: Vec<String>) -> (r: Vec<String>)
    ensures
        texts(r@) == stable_sorted(path_order(), texts(paths@)),
{
    let r = stable_sort(paths);
    proof {
        let f = |s: String| s@;
        lemma_sort_maps(ranking::<String>(), path_order(), f, paths@);
        assert(paths@.map_values(f) =~= texts(paths@));
        assert(r@.map_values(f) =~= texts(r@));
    }
    r
}

} // verus!
