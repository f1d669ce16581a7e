//! Where the literals in source text end, and which brackets stand outside them.

use vstd::prelude::*;

verus! {

/// What delimits a literal.
#[derive(Debug, Clone, Copy, PartialEq, Eq, Structural)]
pub struct Quote {
    pub open: char,
    pub close: char,
    /// Whether `#{` and `}` enclose code in it.
    pub filled: bool,
}

/// The bracket that closes a percent literal which `c` opens.
pub open spec fn closing(c: char) -> Option<char> {
    if c == '(' {
        Some(')')
    } else if c == '[' {
        Some(']')
    } else if c == '{' {
        Some('}')
    } else if c == '<' {
        Some('>')
    } else if c == '|' {
        Some('|')
    } else {
        None
    }
}

/// Whether a value, not an operator, has to follow where `last` is the last character before, white
/// space apart.
pub open spec fn value_follows(last: char) -> bool {
    last == '(' || last == '[' || last == '{' || last == ',' || last == '=' || last == ':' || last
        == '|' || last == '&' || last == '!'
}

/// The literal that starts at `i`, behind the character `last`: what delimits it, and where its
/// content starts. A slash, a backquote and a percent sign start one only where a value follows.
pub open spec fn literal_at(s: Seq<char>, i: int, last: char) -> Option<(Quote, int)> {
    let c = s[i];
    if c == '"' {
        Some((Quote { open: c, close: c, filled: true }, i + 1))
    } else if c == '\'' {
        Some((Quote { open: c, close: c, filled: false }, i + 1))
    } else if !value_follows(last) {
        None
    } else if c == '/' || c == '`' {
        Some((Quote { open: c, close: c, filled: true }, i + 1))
    } else if c == '%' {
        percent_literal(s, i + 1)
    } else {
        None
    }
}

/// The percent literal whose percent sign stands in front of `i`.
pub open spec fn percent_literal(s: Seq<char>, i: int) -> Option<(Quote, int)> {
    if i >= s.len() {
        None
    } else {
        match closing(s[i]) {
            Some(close) => Some((Quote { open: s[i], close, filled: true }, i + 1)),
            None => if i + 1 >= s.len() {
                None
            } else {
                let plain = s[i] == 'q' || s[i] == 'w' || s[i] == 'i';
                let filled = s[i] == 'Q' || s[i] == 'r' || s[i] == 'x';
                match closing(s[i + 1]) {
                    Some(close) => if plain || filled {
                        Some((Quote { open: s[i + 1], close, filled }, i + 2))
                    } else {
                        None
                    },
                    None => None,
                }
            },
        }
    }
}

/// The last character that counts after `c`: white space does not.
pub open spec fn last_after(last: char, c: char) -> char {
    if c == ' ' || c == '\t' || c == '\r' || c == '\n' {
        last
    } else {
        c
    }
}

/// Where the line ends that `i` stands on.
pub open spec fn line_end(s: Seq<char>, i: int) -> int
    decreases s.len() - i,
{
    if i >= s.len() {
        s.len() as int
    } else if s[i] == '\n' {
        i
    } else {
        line_end(s, i + 1)
    }
}

/// Where a literal ends whose content goes on at `i`, with `deep` brackets open in it: behind the
/// closing one, or at the end of the text.
pub open spec fn literal_end(s: Seq<char>, i: int, q: Quote, deep: nat) -> int
    decreases s.len() - i,
{
    if i < 0 || i >= s.len() {
        s.len() as int
    } else if s[i] == '\\' {
        if i + 1 >= s.len() {
            s.len() as int
        } else {
            literal_end(s, i + 2, q, deep)
        }
    } else if q.filled && s[i] == '#' && i + 1 < s.len() && s[i + 1] == '{' {
        let end = hole_end(s, i + 2, '{', 0);
        if i < end <= s.len() {
            literal_end(s, end, q, deep)
        } else {
            s.len() as int
        }
    } else if s[i] == q.close {
        if deep == 0 {
            i + 1
        } else {
            literal_end(s, i + 1, q, (deep - 1) as nat)
        }
    } else if s[i] == q.open {
        literal_end(s, i + 1, q, deep + 1)
    } else {
        literal_end(s, i + 1, q, deep)
    }
}

/// Where the code ends that stands in a literal and goes on at `i`, with `braces` braces open in it:
/// behind the closing one, or at the end of the text.
pub open spec fn hole_end(s: Seq<char>, i: int, last: char, braces: nat) -> int
    decreases s.len() - i,
{
    if i < 0 || i >= s.len() {
        s.len() as int
    } else if let Some((q, start)) = literal_at(s, i, last) {
        let end = if i < start <= s.len() {
            literal_end(s, start, q, 0)
        } else {
            i
        };
        if i < end <= s.len() {
            hole_end(s, end, q.close, braces)
        } else {
            s.len() as int
        }
    } else if s[i] == '}' {
        if braces == 0 {
            i + 1
        } else {
            hole_end(s, i + 1, '}', (braces - 1) as nat)
        }
    } else if s[i] == '{' {
        hole_end(s, i + 1, '{', braces + 1)
    } else {
        hole_end(s, i + 1, last_after(last, s[i]), braces)
    }
}

/// How many more round brackets the code `s` opens than it closes from `i` on; those in literals and
/// comments do not count.
pub open spec fn brackets_from(s: Seq<char>, i: int, last: char) -> int
    decreases s.len() - i,
{
    if i < 0 || i >= s.len() {
        0
    } else if let Some((q, start)) = literal_at(s, i, last) {
        proof {
            lemma_literal_start(s, i, last);
            lemma_literal_end(s, start, q, 0);
        }
        brackets_from(s, literal_end(s, start, q, 0), q.close)
    } else if s[i] == '#' {
        proof {
            lemma_line_end(s, i + 1);
        }
        brackets_from(s, line_end(s, i + 1), last)
    } else {
        let rest = brackets_from(s, i + 1, last_after(last, s[i]));
        if s[i] == '(' {
            rest + 1
        } else if s[i] == ')' {
            rest - 1
        } else {
            rest
        }
    }
}

/// Whether `s` opens more round brackets than it closes.
pub open spec fn unclosed(s: Seq<char>) -> bool {
    brackets_from(s, 0, '\n') > 0
}

/// The content of a literal starts behind its delimiter.
pub proof fn lemma_literal_start(s: Seq<char>, i: int, last: char)
    requires
        0 <= i < s.len(),
    ensures
        literal_at(s, i, last) matches Some((q, start)) ==> i < start <= s.len(),
{
}

/// A literal ends behind the place where its content goes on.
pub proof fn lemma_literal_end(s: Seq<char>, i: int, q: Quote, deep: nat)
    requires
        0 <= i,
    ensures
        literal_end(s, i, q, deep) <= s.len(),
        i < s.len() ==> literal_end(s, i, q, deep) > i,
        i >= s.len() ==> literal_end(s, i, q, deep) == s.len(),
    decreases s.len() - i,
{
    if i < s.len() {
        if s[i] == '\\' {
            if i + 1 < s.len() {
                lemma_literal_end(s, i + 2, q, deep);
            }
        } else if q.filled && s[i] == '#' && i + 1 < s.len() && s[i + 1] == '{' {
            lemma_hole_end(s, i + 2, '{', 0);
            lemma_literal_end(s, hole_end(s, i + 2, '{', 0), q, deep);
        } else if s[i] == q.close {
            if deep > 0 {
                lemma_literal_end(s, i + 1, q, (deep - 1) as nat);
            }
        } else if s[i] == q.open {
            lemma_literal_end(s, i + 1, q, deep + 1);
        } else {
            lemma_literal_end(s, i + 1, q, deep);
        }
    }
}

/// Code in a literal ends behind the place where it goes on.
pub proof fn lemma_hole_end(s: Seq<char>, i: int, last: char, braces: nat)
    requires
        0 <= i,
    ensures
        hole_end(s, i, last, braces) <= s.len(),
        i < s.len() ==> hole_end(s, i, last, braces) > i,
        i >= s.len() ==> hole_end(s, i, last, braces) == s.len(),
    decreases s.len() - i,
{
    if i < s.len() {
        if let Some((q, start)) = literal_at(s, i, last) {
            lemma_literal_start(s, i, last);
            lemma_literal_end(s, start, q, 0);
            lemma_hole_end(s, literal_end(s, start, q, 0), q.close, braces);
        } else if s[i] == '}' {
            if braces > 0 {
                lemma_hole_end(s, i + 1, '}', (braces - 1) as nat);
            }
        } else if s[i] == '{' {
            lemma_hole_end(s, i + 1, '{', braces + 1);
        } else {
            lemma_hole_end(s, i + 1, last_after(last, s[i]), braces);
        }
    }
}

/// A line does not end in front of a place on it.
pub proof fn lemma_line_end(s: Seq<char>, i: int)
    requires
        0 <= i <= s.len(),
    ensures
        i <= line_end(s, i) <= s.len(),
    decreases s.len() - i,
{
    if i < s.len() && s[i] != '\n' {
        lemma_line_end(s, i + 1);
    }
}

fn closing_of(c: char) -> (r: Option<char>)
    ensures
        r == closing(c),
{
    match c {
        '(' => Some(')'),
        '[' => Some(']'),
        '{' => Some('}'),
        '<' => Some('>'),
        '|' => Some('|'),
        _ => None,
    }
}

fn does_value_follow(last: char) -> (r: bool)
    ensures
        r == value_follows(last),
{
    last == '(' || last == '[' || last == '{' || last == ',' || last == '=' || last == ':' || last
        == '|' || last == '&' || last == '!'
}

fn find_percent_literal(s: &[char], i: usize) -> (r: Option<(Quote, usize)>)
    requires
        i <= s@.len(),
    ensures
        match r {
            Some((q, start)) => percent_literal(s@, i as int) == Some((q, start as int)),
            None => percent_literal(s@, i as int) is None,
        },
{
    let n: usize = s.len();
    if i >= n {
        return None;
    }
    if let Some(close) = closing_of(s[i]) {
        return Some((Quote { open: s[i], close, filled: true }, i + 1));
    }
    if n - i < 2 {
        return None;
    }
    let plain = s[i] == 'q' || s[i] == 'w' || s[i] == 'i';
    let filled = s[i] == 'Q' || s[i] == 'r' || s[i] == 'x';
    match closing_of(s[i + 1]) {
        Some(close) => if plain || filled {
            Some((Quote { open: s[i + 1], close, filled }, i + 2))
        } else {
            None
        },
        None => None,
    }
}

fn find_literal(s: &[char], i: usize, last: char) -> (r: Option<(Quote, usize)>)
    requires
        i < s@.len(),
    ensures
        match r {
            Some((q, start)) => literal_at(s@, i as int, last) == Some((q, start as int)) && i
                < start <= s@.len(),
            None => literal_at(s@, i as int, last) is None,
        },
{
    let c = s[i];
    if c == '"' {
        Some((Quote { open: c, close: c, filled: true }, i + 1))
    } else if c == '\'' {
        Some((Quote { open: c, close: c, filled: false }, i + 1))
    } else if !does_value_follow(last) {
        None
    } else if c == '/' || c == '`' {
        Some((Quote { open: c, close: c, filled: true }, i + 1))
    } else if c == '%' {
        find_percent_literal(s, i + 1)
    } else {
        None
    }
}

fn next_last(last: char, c: char) -> (r: char)
    ensures
        r == last_after(last, c),
{
    if c == ' ' || c == '\t' || c == '\r' || c == '\n' {
        last
    } else {
        c
    }
}

fn find_line_end(s: &[char], start: usize) -> (r: usize)
    requires
        start <= s@.len(),
    ensures
        r == line_end(s@, start as int),
{
    let mut i: usize = start;
    while i < s.len() && s[i] != '\n'
        invariant
            i <= s@.len(),
            line_end(s@, start as int) == line_end(s@, i as int),
        decreases s@.len() - i,
    {
        i = i + 1;
    }
    i
}

fn find_literal_end(s: &[char], start: usize, q: Quote) -> (r: usize)
    requires
        start <= s@.len(),
    ensures
        r == literal_end(s@, start as int, q, 0),
    decreases s@.len() - start,
{
    let n: usize = s.len();
    let mut i: usize = start;
    let mut deep: usize = 0;
    while i < n
        invariant
            start <= i <= n,
            n == s@.len(),
            deep <= i,
            literal_end(s@, start as int, q, 0) == literal_end(s@, i as int, q, deep as nat),
        decreases n - i,
    {
        let c = s[i];
        if c == '\\' {
            if n - i < 2 {
                return n;
            }
            i = i + 2;
        } else if q.filled && c == '#' && n - i > 1 && s[i + 1] == '{' {
            proof {
                lemma_hole_end(s@, i + 2, '{', 0);
            }
            i = find_hole_end(s, i + 2);
        } else if c == q.close {
            i = i + 1;
            if deep == 0 {
                return i;
            }
            deep = deep - 1;
        } else {
            i = i + 1;
            if c == q.open {
                deep = deep + 1;
            }
        }
    }
    n
}

fn find_hole_end(s: &[char], start: usize) -> (r: usize)
    requires
        start <= s@.len(),
    ensures
        r == hole_end(s@, start as int, '{', 0),
    decreases s@.len() - start,
{
    let n: usize = s.len();
    let mut i: usize = start;
    let mut last = '{';
    let mut braces: usize = 0;
    while i < n
        invariant
            start <= i <= n,
            n == s@.len(),
            braces <= i,
            hole_end(s@, start as int, '{', 0) == hole_end(s@, i as int, last, braces as nat),
        decreases n - i,
    {
        let c = s[i];
        if let Some((q, content)) = find_literal(s, i, last) {
            proof {
                lemma_literal_end(s@, content as int, q, 0);
            }
            i = find_literal_end(s, content, q);
            last = q.close;
        } else if c == '}' {
            i = i + 1;
            if braces == 0 {
                return i;
            }
            braces = braces - 1;
            last = c;
        } else {
            i = i + 1;
            if c == '{' {
                braces = braces + 1;
            }
            last = next_last(last, c);
        }
    }
    n
}

/// Whether source text opens more round brackets than it closes.
pub fn is_unclosed(s: &[char]) -> (r: bool)
    ensures
        r == unclosed(s@),
{
    let n: usize = s.len();
    let mut i: usize = 0;
    let mut last = '\n';
    let mut opened: usize = 0;
    let mut closed: usize = 0;
    while i < n
        invariant
            i <= n,
            n == s@.len(),
            opened <= i,
            closed <= i,
            brackets_from(s@, 0, '\n') == opened - closed + brackets_from(s@, i as int, last),
        decreases n - i,
    {
        let c = s[i];
        if let Some((q, content)) = find_literal(s, i, last) {
            proof {
                lemma_literal_end(s@, content as int, q, 0);
            }
            i = find_literal_end(s, content, q);
            last = q.close;
        } else if c == '#' {
            proof {
                lemma_line_end(s@, i + 1);
            }
            i = find_line_end(s, i + 1);
        } else {
            if c == '(' {
                opened = opened + 1;
            } else if c == ')' {
                closed = closed + 1;
            }
            last = next_last(last, c);
            i = i + 1;
        }
    }
    opened > closed
}

} // verus!
