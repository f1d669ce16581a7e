//! Text as sequences of characters.
//!
//! The server reads source code, compiler output and test reports line by line. This module holds
//! the operations on text that the rest of the library is built from. Each of them is stated over
//! `Seq<char>`, the view of `&str` and `String`; executable code walks `&[char]`.

use vstd::prelude::*;
use vstd::slice::slice_subrange;

verus! {

// ---------------------------------------------------------------------------
// Characters
// ---------------------------------------------------------------------------

/// The characters with the Unicode property `White_Space`.
pub open spec fn whitespace(c: char) -> bool {
    ||| '\u{9}' <= c <= '\u{d}'
    ||| c == ' '
    ||| c == '\u{85}'
    ||| c == '\u{a0}'
    ||| c == '\u{1680}'
    ||| '\u{2000}' <= c <= '\u{200a}'
    ||| c == '\u{2028}'
    ||| c == '\u{2029}'
    ||| c == '\u{202f}'
    ||| c == '\u{205f}'
    ||| c == '\u{3000}'
}

/// Whether `c` is white space.
pub fn is_whitespace(c: char) -> (r: bool)
    ensures
        r == whitespace(c),
{
    ('\u{9}' <= c && c <= '\u{d}') || c == ' ' || c == '\u{85}' || c == '\u{a0}' || c == '\u{1680}'
        || ('\u{2000}' <= c && c <= '\u{200a}') || c == '\u{2028}' || c == '\u{2029}' || c
        == '\u{202f}' || c == '\u{205f}' || c == '\u{3000}'
}

pub open spec fn ascii_digit(c: char) -> bool {
    '0' <= c <= '9'
}

pub open spec fn ascii_upper(c: char) -> bool {
    'A' <= c <= 'Z'
}

pub open spec fn ascii_lower(c: char) -> bool {
    'a' <= c <= 'z'
}

pub open spec fn ascii(c: char) -> bool {
    c <= '\u{7f}'
}

/// What `char::is_alphanumeric` answers for a character outside ASCII.
pub uninterp spec fn unicode_alphanumeric(c: char) -> bool;

/// Whether `c` is a letter or a number.
pub open spec fn alphanumeric(c: char) -> bool {
    if ascii(c) {
        ascii_digit(c) || ascii_upper(c) || ascii_lower(c)
    } else {
        unicode_alphanumeric(c)
    }
}

/// Calls `char::is_alphanumeric`. Its answer depends on the character alone; among the ASCII
/// characters it holds of the letters and the digits only.
#[verifier::external_body]
pub(crate) fn is_alphanumeric(c: char) -> (r: bool)
    ensures
        ascii(c) ==> r == (ascii_digit(c) || ascii_upper(c) || ascii_lower(c)),
        !ascii(c) ==> r == unicode_alphanumeric(c),
{
    c.is_alphanumeric()
}

/// What `char::is_uppercase` answers for a character outside ASCII.
pub uninterp spec fn unicode_uppercase(c: char) -> bool;

/// Whether `c` is an upper case letter.
pub open spec fn uppercase(c: char) -> bool {
    if ascii(c) {
        ascii_upper(c)
    } else {
        unicode_uppercase(c)
    }
}

/// Calls `char::is_uppercase`. Its answer depends on the character alone; among the ASCII
/// characters it holds of `A` to `Z` only.
#[verifier::external_body]
pub(crate) fn is_uppercase(c: char) -> (r: bool)
    ensures
        ascii(c) ==> r == ascii_upper(c),
        !ascii(c) ==> r == unicode_uppercase(c),
{
    c.is_uppercase()
}

/// What `char::to_lowercase` yields for a character outside ASCII.
pub uninterp spec fn unicode_lowercase(c: char) -> Seq<char>;

/// The lower case form of `c`.
pub open spec fn lowercase(c: char) -> Seq<char> {
    if ascii_upper(c) {
        seq![(c as u8 + 32) as u8 as char]
    } else if ascii(c) {
        seq![c]
    } else {
        unicode_lowercase(c)
    }
}

/// Calls `char::to_lowercase`. What it yields depends on the character alone. Each of `A` to `Z`
/// yields the letter 32 places on, and any other ASCII character itself.
#[verifier::external_body]
pub(crate) fn to_lowercase(c: char) -> (r: Vec<char>)
    ensures
        ascii_upper(c) ==> r@ == seq![(c as u8 + 32) as u8 as char],
        ascii(c) && !ascii_upper(c) ==> r@ == seq![c],
        !ascii(c) ==> r@ == unicode_lowercase(c),
{
    c.to_lowercase().collect()
}

/// The first character of the lower case form of `c`, or `c` where that form is empty.
pub open spec fn folded(c: char) -> char {
    if lowercase(c).len() > 0 {
        lowercase(c)[0]
    } else {
        c
    }
}

/// Folds the case of one character.
pub fn fold_case(c: char) -> (r: char)
    ensures
        r == folded(c),
{
    let lower = to_lowercase(c);
    if lower.len() > 0 {
        lower[0]
    } else {
        c
    }
}

// ---------------------------------------------------------------------------
// Conversions
// ---------------------------------------------------------------------------

/// Calls `String::push`, which appends one character.
pub assume_specification[ std::string::String::push ](s: &mut std::string::String, c: char)
    ensures
        final(s)@ == old(s)@.push(c),
;

/// The characters of `s`.
pub fn chars_of(s: &str) -> (v: Vec<char>)
    ensures
        v@ == s@,
{
    let mut v: Vec<char> = Vec::new();
    for c in it: s.chars()
        invariant
            v@ == it.seq().take(it.index()),
            it.seq() == s@,
    {
        assert(it.seq().take(it.index() + 1) =~= it.seq().take(it.index()).push(c));
        v.push(c);
    }
    assert(s@.take(s@.len() as int) =~= s@);
    v
}

/// Appends the characters of `s` to `out`.
pub fn push_chars(out: &mut String, s: &[char])
    ensures
        final(out)@ == old(out)@ + s@,
{
    let ghost before = out@;
    let mut i: usize = 0;
    while i < s.len()
        invariant
            i <= s@.len(),
            out@ == before + s@.take(i as int),
        decreases s@.len() - i,
    {
        out.push(s[i]);
        i = i + 1;
        assert(s@.take(i as int) =~= s@.take(i - 1).push(s@[i - 1]));
        assert(before + s@.take(i as int) =~= (before + s@.take(i - 1)).push(s@[i - 1]));
    }
    assert(s@.take(i as int) =~= s@);
}

/// The text made of the characters `s`.
pub fn string_of(s: &[char]) -> (r: String)
    ensures
        r@ == s@,
{
    let mut out = String::new();
    push_chars(&mut out, s);
    assert(Seq::<char>::empty() + s@ =~= s@);
    out
}

/// A copy of `s`.
pub fn copy(s: &str) -> (r: String)
    ensures
        r@ == s@,
{
    String::from_str(s)
}

/// The text of an optional string.
pub open spec fn opt_text(s: Option<String>) -> Option<Seq<char>> {
    match s {
        Some(t) => Some(t@),
        None => None,
    }
}

/// The text of an optional string slice.
pub open spec fn opt_str(s: Option<&str>) -> Option<Seq<char>> {
    match s {
        Some(t) => Some(t@),
        None => None,
    }
}

/// A copy of an optional text.
pub fn copy_opt(s: Option<&str>) -> (r: Option<String>)
    ensures
        opt_text(r) == opt_str(s),
{
    match s {
        Some(t) => Some(copy(t)),
        None => None,
    }
}

/// A copy of an optional string.
pub fn copy_held(s: &Option<String>) -> (r: Option<String>)
    ensures
        opt_text(r) == opt_text(*s),
{
    match s {
        Some(t) => Some(copy(t)),
        None => None,
    }
}

/// A copy of several strings.
pub fn copy_texts(s: &Vec<String>) -> (r: Vec<String>)
    ensures
        texts(r@) == texts(s@),
{
    let mut out: Vec<String> = Vec::new();
    let mut i: usize = 0;
    while i < s.len()
        invariant
            i <= s@.len(),
            out@.len() == i,
            forall|k: int| 0 <= k < i ==> (#[trigger] out@[k])@ == s@[k]@,
        decreases s@.len() - i,
    {
        out.push(copy(&s[i]));
        i = i + 1;
    }
    assert(texts(out@) =~= texts(s@));
    out
}

/// Whether two texts are the same.
pub fn same(a: &str, b: &str) -> (r: bool)
    ensures
        r == (a@ == b@),
{
    let b = chars_of(b);
    equal(&chars_of(a), &b)
}

/// Whether two runs of characters are the same.
pub fn equal(a: &[char], b: &[char]) -> (r: bool)
    ensures
        r == (a@ == b@),
{
    if a.len() != b.len() {
        return false;
    }
    let mut i: usize = 0;
    while i < a.len()
        invariant
            i <= a@.len(),
            a@.len() == b@.len(),
            a@.take(i as int) == b@.take(i as int),
        decreases a@.len() - i,
    {
        if a[i] != b[i] {
            assert(a@[i as int] != b@[i as int]);
            return false;
        }
        i = i + 1;
        assert(a@.take(i as int) =~= a@.take(i - 1).push(a@[i - 1]));
        assert(b@.take(i as int) =~= b@.take(i - 1).push(b@[i - 1]));
    }
    assert(a@.take(i as int) =~= a@);
    assert(b@.take(i as int) =~= b@);
    true
}

/// Whether `s` is the text `t`.
pub fn is_text(s: &[char], t: &str) -> (r: bool)
    ensures
        r == (s@ == t@),
{
    let t = chars_of(t);
    equal(s, &t)
}

// ---------------------------------------------------------------------------
// Trimming
// ---------------------------------------------------------------------------

/// `s` without its leading white space.
pub open spec fn trimmed_start(s: Seq<char>) -> Seq<char>
    decreases s.len(),
{
    if s.len() > 0 && whitespace(s[0]) {
        trimmed_start(s.skip(1))
    } else {
        s
    }
}

/// `s` without its trailing white space.
pub open spec fn trimmed_end(s: Seq<char>) -> Seq<char>
    decreases s.len(),
{
    if s.len() > 0 && whitespace(s.last()) {
        trimmed_end(s.drop_last())
    } else {
        s
    }
}

/// `s` without leading and trailing white space.
pub open spec fn trimmed(s: Seq<char>) -> Seq<char> {
    trimmed_end(trimmed_start(s))
}

pub fn trim_start(s: &[char]) -> (r: &[char])
    ensures
        r@ == trimmed_start(s@),
{
    let mut i: usize = 0;
    assert(s@.skip(0) =~= s@);
    while i < s.len() && is_whitespace(s[i])
        invariant
            i <= s@.len(),
            trimmed_start(s@) == trimmed_start(s@.skip(i as int)),
        decreases s@.len() - i,
    {
        assert(s@.skip(i as int).skip(1) =~= s@.skip(i + 1));
        i = i + 1;
    }
    let r = slice_subrange(s, i, s.len());
    assert(r@ =~= s@.skip(i as int));
    r
}

pub fn trim_end(s: &[char]) -> (r: &[char])
    ensures
        r@ == trimmed_end(s@),
{
    let mut n: usize = s.len();
    assert(s@.take(n as int) =~= s@);
    while n > 0 && is_whitespace(s[n - 1])
        invariant
            n <= s@.len(),
            trimmed_end(s@) == trimmed_end(s@.take(n as int)),
        decreases n,
    {
        assert(s@.take(n as int).drop_last() =~= s@.take(n - 1));
        n = n - 1;
    }
    let r = slice_subrange(s, 0, n);
    assert(r@ =~= s@.take(n as int));
    r
}

pub fn trim(s: &[char]) -> (r: &[char])
    ensures
        r@ == trimmed(s@),
{
    trim_end(trim_start(s))
}

/// `s` after dropping the characters `c` that it starts with.
pub open spec fn without_leading(s: Seq<char>, c: char) -> Seq<char>
    decreases s.len(),
{
    if s.len() > 0 && s[0] == c {
        without_leading(s.skip(1), c)
    } else {
        s
    }
}

pub fn drop_leading(s: &[char], c: char) -> (r: &[char])
    ensures
        r@ == without_leading(s@, c),
{
    let mut i: usize = 0;
    assert(s@.skip(0) =~= s@);
    while i < s.len() && s[i] == c
        invariant
            i <= s@.len(),
            without_leading(s@, c) == without_leading(s@.skip(i as int), c),
        decreases s@.len() - i,
    {
        assert(s@.skip(i as int).skip(1) =~= s@.skip(i + 1));
        i = i + 1;
    }
    let r = slice_subrange(s, i, s.len());
    assert(r@ =~= s@.skip(i as int));
    r
}

/// `s` after dropping the characters `a` and `b` that it ends with.
pub open spec fn without_trailing(s: Seq<char>, a: char, b: char) -> Seq<char>
    decreases s.len(),
{
    if s.len() > 0 && (s.last() == a || s.last() == b) {
        without_trailing(s.drop_last(), a, b)
    } else {
        s
    }
}

pub fn drop_trailing(s: &[char], a: char, b: char) -> (r: &[char])
    ensures
        r@ == without_trailing(s@, a, b),
{
    let mut n: usize = s.len();
    assert(s@.take(n as int) =~= s@);
    while n > 0 && (s[n - 1] == a || s[n - 1] == b)
        invariant
            n <= s@.len(),
            without_trailing(s@, a, b) == without_trailing(s@.take(n as int), a, b),
        decreases n,
    {
        assert(s@.take(n as int).drop_last() =~= s@.take(n - 1));
        n = n - 1;
    }
    let r = slice_subrange(s, 0, n);
    assert(r@ =~= s@.take(n as int));
    r
}

// ---------------------------------------------------------------------------
// Prefixes, suffixes and occurrences
// ---------------------------------------------------------------------------

pub fn starts_with(s: &[char], p: &[char]) -> (r: bool)
    ensures
        r == p@.is_prefix_of(s@),
{
    if p.len() > s.len() {
        return false;
    }
    equal(slice_subrange(s, 0, p.len()), p)
}

/// Whether `s` starts with the text `t`.
pub fn starts_with_text(s: &[char], t: &str) -> (r: bool)
    ensures
        r == t@.is_prefix_of(s@),
{
    let t = chars_of(t);
    starts_with(s, &t)
}

/// Whether `s` ends with the text `t`.
pub fn ends_with_text(s: &[char], t: &str) -> (r: bool)
    ensures
        r == t@.is_suffix_of(s@),
{
    let t = chars_of(t);
    if t.len() > s.len() {
        return false;
    }
    equal(slice_subrange(s, s.len() - t.len(), s.len()), &t)
}

/// What follows the prefix `p` of `s`, where `s` starts with it.
pub open spec fn after_prefix(s: Seq<char>, p: Seq<char>) -> Option<Seq<char>> {
    if p.is_prefix_of(s) {
        Some(s.skip(p.len() as int))
    } else {
        None
    }
}

/// What follows the text `t` in `s`, where `s` starts with it.
pub fn strip_prefix<'a>(s: &'a [char], t: &str) -> (r: Option<&'a [char]>)
    ensures
        match r {
            Some(rest) => after_prefix(s@, t@) == Some(rest@),
            None => after_prefix(s@, t@) is None,
        },
{
    let t = chars_of(t);
    if starts_with(s, &t) {
        let rest = slice_subrange(s, t.len(), s.len());
        assert(rest@ =~= s@.skip(t@.len() as int));
        Some(rest)
    } else {
        None
    }
}

/// `s` after dropping the prefix `p` as often as it occurs.
pub open spec fn without_prefixes(s: Seq<char>, p: Seq<char>) -> Seq<char>
    decreases s.len(),
{
    if p.len() > 0 && p.is_prefix_of(s) {
        without_prefixes(s.skip(p.len() as int), p)
    } else {
        s
    }
}

pub fn drop_prefixes<'a>(s: &'a [char], t: &str) -> (r: &'a [char])
    ensures
        r@ == without_prefixes(s@, t@),
{
    let t = chars_of(t);
    let mut r = s;
    if t.len() == 0 {
        return r;
    }
    while starts_with(r, &t)
        invariant
            t@.len() > 0,
            without_prefixes(s@, t@) == without_prefixes(r@, t@),
        decreases r@.len(),
    {
        let rest = slice_subrange(r, t.len(), r.len());
        assert(rest@ =~= r@.skip(t@.len() as int));
        r = rest;
    }
    r
}

/// Whether `p` stands in `s` at `i`.
pub open spec fn occurs_at(s: Seq<char>, p: Seq<char>, i: int) -> bool {
    0 <= i && i + p.len() <= s.len() && s.subrange(i, i + p.len()) == p
}

/// Whether `p` occurs in `s`.
pub open spec fn has_text(s: Seq<char>, p: Seq<char>) -> bool {
    exists|i: int| occurs_at(s, p, i)
}

/// Where `p` first occurs in `s` from `i` on.
pub open spec fn first_occurrence_from(s: Seq<char>, p: Seq<char>, i: int) -> Option<int>
    decreases s.len() - i + 1,
{
    if i + p.len() > s.len() {
        None
    } else if occurs_at(s, p, i) {
        Some(i)
    } else {
        first_occurrence_from(s, p, i + 1)
    }
}

/// Where `p` first occurs in `s`.
pub open spec fn first_occurrence(s: Seq<char>, p: Seq<char>) -> Option<int> {
    first_occurrence_from(s, p, 0)
}

/// Finds the first occurrence of the text `t` in `s`.
pub fn find_text(s: &[char], t: &str) -> (r: Option<usize>)
    ensures
        match r {
            Some(i) => first_occurrence(s@, t@) == Some(i as int) && occurs_at(s@, t@, i as int),
            None => first_occurrence(s@, t@) is None,
        },
        r is Some <==> has_text(s@, t@),
{
    let p = chars_of(t);
    let mut i: usize = 0;
    if p.len() > s.len() {
        return None;
    }
    if p.len() == 0 {
        assert(s@.subrange(0, 0) =~= p@);
        assert(occurs_at(s@, t@, 0));
        return Some(0);
    }
    while i <= s.len() - p.len()
        invariant
            p@ == t@,
            0 < p@.len() <= s@.len(),
            i <= s@.len() - p@.len() + 1,
            first_occurrence(s@, t@) == first_occurrence_from(s@, t@, i as int),
            forall|j: int| 0 <= j < i ==> !occurs_at(s@, t@, j),
        decreases s@.len() - i,
    {
        if equal(slice_subrange(s, i, i + p.len()), &p) {
            assert(occurs_at(s@, t@, i as int));
            return Some(i);
        }
        i = i + 1;
    }
    None
}

/// Whether the text `t` occurs in `s`.
pub fn contains_text(s: &[char], t: &str) -> (r: bool)
    ensures
        r == has_text(s@, t@),
{
    match find_text(s, t) {
        Some(_) => true,
        None => false,
    }
}

/// Whether the text `t` occurs in the text `s`.
pub fn text_contains(s: &str, t: &str) -> (r: bool)
    ensures
        r == has_text(s@, t@),
{
    let s = chars_of(s);
    contains_text(&s, t)
}

/// Whether the character `c` occurs in `s`.
pub fn contains_char(s: &[char], c: char) -> (r: bool)
    ensures
        r == s@.contains(c),
{
    let mut i: usize = 0;
    while i < s.len()
        invariant
            i <= s@.len(),
            forall|j: int| 0 <= j < i ==> s@[j] != c,
        decreases s@.len() - i,
    {
        if s[i] == c {
            assert(s@[i as int] == c);
            return true;
        }
        i = i + 1;
    }
    false
}

/// Where `c` last occurs among the first `n` characters of `s`.
pub open spec fn last_index_before(s: Seq<char>, c: char, n: int) -> Option<int>
    decreases n,
{
    if n <= 0 {
        None
    } else if s[n - 1] == c {
        Some(n - 1)
    } else {
        last_index_before(s, c, n - 1)
    }
}

/// Where `c` last occurs in `s`.
pub open spec fn last_index(s: Seq<char>, c: char) -> Option<int> {
    last_index_before(s, c, s.len() as int)
}

pub fn find_last(s: &[char], c: char) -> (r: Option<usize>)
    ensures
        match r {
            Some(i) => last_index(s@, c) == Some(i as int) && i < s@.len() && s@[i as int] == c,
            None => last_index(s@, c) is None,
        },
{
    let mut n: usize = s.len();
    while n > 0
        invariant
            n <= s@.len(),
            last_index(s@, c) == last_index_before(s@, c, n as int),
        decreases n,
    {
        if s[n - 1] == c {
            return Some(n - 1);
        }
        n = n - 1;
    }
    None
}

// ---------------------------------------------------------------------------
// Splitting and joining
// ---------------------------------------------------------------------------

/// The pieces of `s` between the characters `c`.
pub open spec fn split_on(s: Seq<char>, c: char) -> Seq<Seq<char>>
    decreases s.len(),
{
    if s.len() == 0 {
        seq![Seq::empty()]
    } else {
        let before = split_on(s.drop_last(), c);
        if s.last() == c {
            before.push(Seq::empty())
        } else {
            before.drop_last().push(before.last().push(s.last()))
        }
    }
}

/// There is always at least one piece.
pub proof fn lemma_split_on_nonempty(s: Seq<char>, c: char)
    ensures
        split_on(s, c).len() > 0,
    decreases s.len(),
{
    if s.len() > 0 {
        lemma_split_on_nonempty(s.drop_last(), c);
    }
}

/// The texts of several runs of characters.
pub open spec fn views(parts: Seq<Vec<char>>) -> Seq<Seq<char>> {
    Seq::new(parts.len(), |i: int| parts[i]@)
}

/// The texts of several strings.
pub open spec fn texts(parts: Seq<String>) -> Seq<Seq<char>> {
    Seq::new(parts.len(), |i: int| parts[i]@)
}

/// Splits `s` at every `c`.
pub fn split(s: &[char], c: char) -> (r: Vec<Vec<char>>)
    ensures
        views(r@) == split_on(s@, c),
        r@.len() > 0,
{
    let mut done: Vec<Vec<char>> = Vec::new();
    let mut current: Vec<char> = Vec::new();
    let mut i: usize = 0;
    assert(s@.take(0) =~= Seq::empty());
    assert(views(done@).push(current@) =~= seq![Seq::empty()]);
    while i < s.len()
        invariant
            i <= s@.len(),
            split_on(s@.take(i as int), c) == views(done@).push(current@),
        decreases s@.len() - i,
    {
        let ghost before = views(done@);
        let ghost last = current@;
        assert(s@.take(i + 1).drop_last() =~= s@.take(i as int));
        assert(before.push(last).drop_last() =~= before);
        if s[i] == c {
            done.push(current);
            assert(views(done@) =~= before.push(last));
            current = Vec::new();
            assert(current@ =~= Seq::empty());
        } else {
            current.push(s[i]);
        }
        i = i + 1;
    }
    assert(s@.take(i as int) =~= s@);
    let ghost before = views(done@);
    let ghost last = current@;
    done.push(current);
    assert(views(done@) =~= before.push(last));
    done
}

/// A line without the carriage return that stands before its line feed.
pub open spec fn without_return(line: Seq<char>) -> Seq<char> {
    if line.len() > 0 && line.last() == '\r' {
        line.drop_last()
    } else {
        line
    }
}

/// The lines of `s`. A line ends at a line feed or at a carriage return and a line feed; after the
/// last line the ending may be missing.
pub open spec fn text_lines(s: Seq<char>) -> Seq<Seq<char>> {
    let pieces = split_on(s, '\n');
    let ended = pieces.drop_last().map_values(|l: Seq<char>| without_return(l));
    if pieces.last().len() == 0 {
        ended
    } else {
        ended.push(pieces.last())
    }
}

/// Splits a text into its lines.
pub fn lines(s: &str) -> (r: Vec<Vec<char>>)
    ensures
        views(r@) == text_lines(s@),
{
    let s = chars_of(s);
    let mut pieces = split(&s, '\n');
    let ghost all = views(pieces@);
    let ghost count = pieces@.len();
    let last = pieces.pop().unwrap();
    assert(views(pieces@) =~= all.drop_last());
    assert(last@ == all.last());
    let mut i: usize = 0;
    let mut ended: Vec<Vec<char>> = Vec::new();
    while i < pieces.len()
        invariant
            i <= pieces@.len(),
            views(pieces@) == all.drop_last(),
            views(ended@) == all.drop_last().take(i as int).map_values(
                |l: Seq<char>| without_return(l),
            ),
        decreases pieces@.len() - i,
    {
        let ghost before = views(ended@);
        let piece: &[char] = &pieces[i];
        assert(piece@ == all.drop_last()[i as int]);
        let mut n: usize = piece.len();
        if n > 0 && piece[n - 1] == '\r' {
            n = n - 1;
        }
        let kept = slice_subrange(piece, 0, n);
        assert(kept@ =~= without_return(piece@));
        let line = vec_of(kept);
        ended.push(line);
        assert(views(ended@) =~= before.push(without_return(piece@)));
        assert(all.drop_last().take(i + 1) =~= all.drop_last().take(i as int).push(piece@));
        assert(all.drop_last().take(i + 1).map_values(|l: Seq<char>| without_return(l))
            =~= before.push(without_return(piece@)));
        i = i + 1;
    }
    assert(all.drop_last().take(i as int) =~= all.drop_last());
    if last.len() > 0 {
        let ghost before = views(ended@);
        ended.push(last);
        assert(views(ended@) =~= before.push(last@));
    }
    ended
}

/// A copy of a run of characters.
pub fn vec_of(s: &[char]) -> (r: Vec<char>)
    ensures
        r@ == s@,
{
    let mut out: Vec<char> = Vec::new();
    let mut i: usize = 0;
    while i < s.len()
        invariant
            i <= s@.len(),
            out@ == s@.take(i as int),
        decreases s@.len() - i,
    {
        out.push(s[i]);
        i = i + 1;
        assert(s@.take(i as int) =~= s@.take(i - 1).push(s@[i - 1]));
    }
    assert(s@.take(i as int) =~= s@);
    out
}

/// The pieces, with `sep` between each two.
pub open spec fn joined(pieces: Seq<Seq<char>>, sep: Seq<char>) -> Seq<char>
    decreases pieces.len(),
{
    if pieces.len() == 0 {
        Seq::empty()
    } else if pieces.len() == 1 {
        pieces[0]
    } else {
        joined(pieces.drop_last(), sep) + sep + pieces.last()
    }
}

/// Joins texts with `sep` between each two.
pub fn join(pieces: &Vec<String>, sep: &str) -> (r: String)
    ensures
        r@ == joined(texts(pieces@), sep@),
{
    let mut out = String::new();
    let mut i: usize = 0;
    let ghost all = texts(pieces@);
    assert(all.take(0) =~= Seq::empty());
    while i < pieces.len()
        invariant
            i <= pieces@.len(),
            all == texts(pieces@),
            out@ == joined(all.take(i as int), sep@),
        decreases pieces@.len() - i,
    {
        assert(all.take(i + 1).drop_last() =~= all.take(i as int));
        assert(all.take(i + 1).last() == pieces@[i as int]@);
        if i > 0 {
            out.append(sep);
            out.append(&pieces[i]);
        } else {
            out.append(&pieces[i]);
            assert(out@ =~= pieces@[0]@);
        }
        i = i + 1;
    }
    assert(all.take(i as int) =~= all);
    out
}

/// The characters of `s` up to its first white space.
pub open spec fn until_space(s: Seq<char>) -> Seq<char>
    decreases s.len(),
{
    if s.len() > 0 && !whitespace(s[0]) {
        seq![s[0]] + until_space(s.skip(1))
    } else {
        Seq::empty()
    }
}

/// The first run of characters of `s` that are not white space.
pub open spec fn first_word(s: Seq<char>) -> Seq<char> {
    until_space(trimmed_start(s))
}

/// Finds the first word of `s`; it is empty where there is none.
pub fn leading_word(s: &[char]) -> (r: &[char])
    ensures
        r@ == first_word(s@),
{
    let t = trim_start(s);
    let mut i: usize = 0;
    assert(t@.skip(0) =~= t@);
    assert(Seq::<char>::empty() + until_space(t@) =~= until_space(t@));
    assert(t@.take(0) =~= Seq::empty());
    while i < t.len() && !is_whitespace(t[i])
        invariant
            i <= t@.len(),
            until_space(t@) == t@.take(i as int) + until_space(t@.skip(i as int)),
        decreases t@.len() - i,
    {
        assert(t@.skip(i as int).skip(1) =~= t@.skip(i + 1));
        assert(t@.take(i as int) + (seq![t@[i as int]] + until_space(t@.skip(i + 1))) =~= t@.take(
            i + 1,
        ) + until_space(t@.skip(i + 1)));
        i = i + 1;
    }
    assert(t@.take(i as int) + Seq::<char>::empty() =~= t@.take(i as int));
    let r = slice_subrange(t, 0, i);
    assert(r@ =~= t@.take(i as int));
    r
}

// ---------------------------------------------------------------------------
// Numbers
// ---------------------------------------------------------------------------

/// The character for the digit `d`.
pub open spec fn digit(d: nat) -> char {
    if d == 0 { '0' } else if d == 1 { '1' } else if d == 2 { '2' } else if d == 3 { '3' } else if d
        == 4 { '4' } else if d == 5 { '5' } else if d == 6 { '6' } else if d == 7 { '7' } else if d
        == 8 { '8' } else { '9' }
}

/// `n` in decimal notation.
pub open spec fn decimal(n: nat) -> Seq<char>
    decreases n,
{
    if n < 10 {
        seq![digit(n)]
    } else {
        decimal(n / 10).push(digit(n % 10))
    }
}

/// Appends `n` in decimal notation.
pub fn push_decimal(out: &mut String, n: u64)
    ensures
        final(out)@ == old(out)@ + decimal(n as nat),
    decreases n,
{
    let ghost before = out@;
    if n >= 10 {
        push_decimal(out, n / 10);
    } else {
        assert(before + decimal(n as nat) =~= before.push(digit(n as nat)));
    }
    let d: u64 = n % 10;
    let c: char = if d == 0 { '0' } else if d == 1 { '1' } else if d == 2 { '2' } else if d == 3 {
        '3'
    } else if d == 4 { '4' } else if d == 5 { '5' } else if d == 6 { '6' } else if d == 7 {
        '7'
    } else if d == 8 { '8' } else { '9' };
    assert(c == digit((n as nat) % 10));
    out.push(c);
    if n >= 10 {
        assert((before + decimal((n / 10) as nat)).push(c) =~= before + decimal(
            (n / 10) as nat,
        ).push(c));
    }
}

/// Whether `s` is one or more decimal digits.
pub open spec fn all_digits(s: Seq<char>) -> bool {
    s.len() > 0 && forall|i: int| 0 <= i < s.len() ==> ascii_digit(#[trigger] s[i])
}

/// The number that the digits `s` write.
pub open spec fn digits_value(s: Seq<char>) -> nat
    decreases s.len(),
{
    if s.len() == 0 {
        0
    } else {
        digits_value(s.drop_last()) * 10 + (s.last() as nat - '0' as nat) as nat
    }
}

/// The number that `s` writes in decimal, with or without a plus sign; `None` where `s` is no such
/// number or the number does not fit.
pub open spec fn parsed_u32(s: Seq<char>) -> Option<u32> {
    let d = if s.len() > 0 && s[0] == '+' {
        s.skip(1)
    } else {
        s
    };
    if all_digits(d) && digits_value(d) <= u32::MAX {
        Some(digits_value(d) as u32)
    } else {
        None
    }
}

/// A number only grows as digits are added.
proof fn lemma_digits_value_grows(s: Seq<char>, i: int)
    requires
        0 <= i <= s.len(),
        forall|k: int| 0 <= k < s.len() ==> ascii_digit(#[trigger] s[k]),
    ensures
        digits_value(s.take(i)) <= digits_value(s),
    decreases s.len() - i,
{
    if i < s.len() {
        let t = s.take(i + 1);
        assert(t.drop_last() =~= s.take(i));
        lemma_digits_value_grows(s, i + 1);
    } else {
        assert(s.take(i) =~= s);
    }
}

/// Reads a decimal number.
pub fn parse_u32(s: &[char]) -> (r: Option<u32>)
    ensures
        r == parsed_u32(s@),
{
    let d = if s.len() > 0 && s[0] == '+' {
        let d = slice_subrange(s, 1, s.len());
        assert(d@ =~= s@.skip(1));
        d
    } else {
        s
    };
    if d.len() == 0 {
        return None;
    }
    let mut i: usize = 0;
    let mut ok = true;
    while i < d.len() && ok
        invariant
            i <= d@.len(),
            ok ==> forall|k: int| 0 <= k < i ==> ascii_digit(#[trigger] d@[k]),
            !ok ==> !all_digits(d@),
        decreases d@.len() - i + if ok { 1int } else { 0 },
    {
        if '0' <= d[i] && d[i] <= '9' {
            i = i + 1;
        } else {
            assert(!ascii_digit(d@[i as int]));
            ok = false;
        }
    }
    if !ok {
        return None;
    }
    let mut value: u64 = 0;
    i = 0;
    assert(d@.take(0) =~= Seq::empty());
    while i < d.len()
        invariant
            i <= d@.len(),
            d@.len() > 0,
            all_digits(d@),
            value == digits_value(d@.take(i as int)),
            value <= u32::MAX,
            d@ == (if s@.len() > 0 && s@[0] == '+' {
                s@.skip(1)
            } else {
                s@
            }),
        decreases d@.len() - i,
    {
        let c = d[i];
        assert(ascii_digit(d@[i as int]));
        let v: u64 = (c as u32 - '0' as u32) as u64;
        assert(d@.take(i + 1).drop_last() =~= d@.take(i as int));
        value = value * 10 + v;
        i = i + 1;
        if value > u32::MAX as u64 {
            proof {
                lemma_digits_value_grows(d@, i as int);
            }
            return None;
        }
    }
    assert(d@.take(i as int) =~= d@);
    Some(value as u32)
}

/// Reading a number in decimal notation gives the number back.
pub proof fn lemma_decimal_reads_back(n: u32)
    ensures
        parsed_u32(decimal(n as nat)) == Some(n),
{
    lemma_decimal_digits(n as nat);
    let s = decimal(n as nat);
    assert(ascii_digit(s[0]));
}

/// Decimal notation is made of digits and writes its number.
pub proof fn lemma_decimal_digits(n: nat)
    ensures
        all_digits(decimal(n)),
        digits_value(decimal(n)) == n,
    decreases n,
{
    if n < 10 {
        let s = decimal(n);
        assert(s.drop_last() =~= Seq::empty());
        assert(digits_value(s.drop_last()) == 0);
    } else {
        lemma_decimal_digits(n / 10);
        let s = decimal(n);
        assert(s.drop_last() =~= decimal(n / 10));
        assert forall|i: int| 0 <= i < s.len() implies ascii_digit(#[trigger] s[i]) by {
            if i < s.len() - 1 {
                assert(s[i] == decimal(n / 10)[i]);
            }
        }
    }
}

} // verus!
