//! What the operations on text do.

use vstd::prelude::*;

use crate::text::{
    ascii, decimal, first_occurrence, first_occurrence_from, first_word, folded, has_text, joined,
    last_index, last_index_before, lemma_decimal_digits, lemma_split_on_nonempty, occurs_at,
    parsed_u32, split_on, text_lines, trimmed, trimmed_end, trimmed_start, until_space, whitespace,
};

verus! {

/// Whether `s` is made of white space.
pub open spec fn blank(s: Seq<char>) -> bool {
    forall|i: int| 0 <= i < s.len() ==> whitespace(#[trigger] s[i])
}

/// Among the ASCII characters, white space is the space and the characters from tab to carriage
/// return.
pub proof fn lemma_ascii_whitespace(c: char)
    requires
        ascii(c),
    ensures
        whitespace(c) <==> c == ' ' || c == '\t' || c == '\n' || c == '\u{b}' || c == '\u{c}' || c
            == '\r',
{
}

/// Beyond ASCII, white space is the next line and the spaces and separators of Unicode.
pub proof fn lemma_unicode_whitespace(c: char)
    requires
        !ascii(c),
    ensures
        whitespace(c) <==> c == '\u{85}' || c == '\u{a0}' || c == '\u{1680}' || c == '\u{2000}' || c
            == '\u{2001}' || c == '\u{2002}' || c == '\u{2003}' || c == '\u{2004}' || c == '\u{2005}'
            || c == '\u{2006}' || c == '\u{2007}' || c == '\u{2008}' || c == '\u{2009}' || c
            == '\u{200a}' || c == '\u{2028}' || c == '\u{2029}' || c == '\u{202f}' || c == '\u{205f}'
            || c == '\u{3000}',
{
}

proof fn lemma_trimmed_start(s: Seq<char>) -> (front: Seq<char>)
    ensures
        blank(front),
        s == front + trimmed_start(s),
        trimmed_start(s).len() > 0 ==> !whitespace(trimmed_start(s)[0]),
    decreases s.len(),
{
    if s.len() > 0 && whitespace(s[0]) {
        let rest = lemma_trimmed_start(s.skip(1));
        let front = seq![s[0]] + rest;
        assert(s =~= seq![s[0]] + s.skip(1));
        assert(s =~= front + trimmed_start(s));
        front
    } else {
        assert(s =~= Seq::<char>::empty() + s);
        Seq::empty()
    }
}

proof fn lemma_trimmed_end(s: Seq<char>) -> (back: Seq<char>)
    ensures
        blank(back),
        s == trimmed_end(s) + back,
        trimmed_end(s).len() > 0 ==> !whitespace(trimmed_end(s).last()) && trimmed_end(s)[0] == s[0],
    decreases s.len(),
{
    if s.len() > 0 && whitespace(s.last()) {
        let rest = lemma_trimmed_end(s.drop_last());
        let back = rest.push(s.last());
        assert(s =~= s.drop_last().push(s.last()));
        assert(s =~= trimmed_end(s) + back);
        assert(blank(back));
        back
    } else {
        assert(s =~= s + Seq::<char>::empty());
        Seq::empty()
    }
}

/// Trimming takes white space away at both ends and nothing else, and leaves none there.
pub proof fn lemma_trimmed(s: Seq<char>) -> (r: (Seq<char>, Seq<char>))
    ensures
        blank(r.0),
        blank(r.1),
        s == r.0 + trimmed(s) + r.1,
        trimmed(s).len() > 0 ==> !whitespace(trimmed(s)[0]) && !whitespace(trimmed(s).last()),
{
    let front = lemma_trimmed_start(s);
    let back = lemma_trimmed_end(trimmed_start(s));
    assert(s =~= front + trimmed(s) + back);
    (front, back)
}

proof fn lemma_trim_front(a: Seq<char>, s: Seq<char>)
    requires
        blank(a),
        s.len() > 0 ==> !whitespace(s[0]),
    ensures
        trimmed_start(a + s) == s,
    decreases a.len(),
{
    let t = a + s;
    if a.len() > 0 {
        assert(t[0] == a[0]);
        assert(t.skip(1) =~= a.skip(1) + s);
        assert(blank(a.skip(1))) by {
            assert(forall|i: int| 0 <= i < a.skip(1).len() ==> #[trigger] a.skip(1)[i] == a[i + 1]);
        }
        lemma_trim_front(a.skip(1), s);
    } else {
        assert(t =~= s);
    }
}

/// White space behind a text that ends in none is what trimming its end takes away.
pub proof fn lemma_trim_back(s: Seq<char>, b: Seq<char>)
    requires
        blank(b),
        s.len() > 0 ==> !whitespace(s.last()),
    ensures
        trimmed_end(s + b) == s,
    decreases b.len(),
{
    let t = s + b;
    if b.len() > 0 {
        assert(t.last() == b[b.len() - 1]);
        assert(t.drop_last() =~= s + b.drop_last());
        assert(blank(b.drop_last())) by {
            assert(forall|i: int|
                0 <= i < b.drop_last().len() ==> #[trigger] b.drop_last()[i] == b[i]);
        }
        lemma_trim_back(s, b.drop_last());
    } else {
        assert(t =~= s);
    }
}

/// What stands between white space, and has none at its own ends, is what trimming leaves.
pub proof fn lemma_trim_around(a: Seq<char>, s: Seq<char>, b: Seq<char>)
    requires
        blank(a),
        blank(b),
        s.len() > 0 ==> !whitespace(s[0]) && !whitespace(s.last()),
    ensures
        trimmed(a + s + b) == s,
{
    if s.len() == 0 {
        let all = a + b;
        assert(blank(all));
        assert(a + s + b =~= all + Seq::<char>::empty());
        lemma_trim_front(all, Seq::empty());
    } else {
        assert(a + s + b =~= a + (s + b));
        assert((s + b)[0] == s[0]);
        lemma_trim_front(a, s + b);
        lemma_trim_back(s, b);
    }
}

/// The last place of a character is one where it stands, and it stands nowhere behind it.
pub proof fn lemma_last_index(s: Seq<char>, c: char)
    ensures
        match last_index(s, c) {
            Some(i) => 0 <= i < s.len() && s[i] == c && forall|j: int|
                i < j < s.len() ==> #[trigger] s[j] != c,
            None => forall|j: int| 0 <= j < s.len() ==> #[trigger] s[j] != c,
        },
{
    lemma_last_before(s, c, s.len() as int);
}

proof fn lemma_last_before(s: Seq<char>, c: char, n: int)
    requires
        0 <= n <= s.len(),
    ensures
        match last_index_before(s, c, n) {
            Some(i) => 0 <= i < n && s[i] == c && forall|j: int|
                i < j < n ==> #[trigger] s[j] != c,
            None => forall|j: int| 0 <= j < n ==> #[trigger] s[j] != c,
        },
    decreases n,
{
    if n > 0 && s[n - 1] != c {
        lemma_last_before(s, c, n - 1);
    }
}

/// The first place of a text is one where it stands, and it stands nowhere in front of it.
pub proof fn lemma_first_occurrence(s: Seq<char>, p: Seq<char>)
    ensures
        match first_occurrence(s, p) {
            Some(i) => 0 <= i <= s.len() - p.len() && s.subrange(i, i + p.len()) == p && forall|
                j: int,
            |
                0 <= j < i ==> !#[trigger] occurs_at(s, p, j),
            None => forall|j: int| !#[trigger] occurs_at(s, p, j),
        },
{
    lemma_occurrence_from(s, p, 0);
}

proof fn lemma_occurrence_from(s: Seq<char>, p: Seq<char>, i: int)
    requires
        0 <= i,
    ensures
        match first_occurrence_from(s, p, i) {
            Some(k) => i <= k && occurs_at(s, p, k) && forall|j: int|
                i <= j < k ==> !#[trigger] occurs_at(s, p, j),
            None => forall|j: int| i <= j ==> !#[trigger] occurs_at(s, p, j),
        },
    decreases s.len() - i + 1,
{
    if i + p.len() <= s.len() && !occurs_at(s, p, i) {
        lemma_occurrence_from(s, p, i + 1);
    }
}

/// A text that occurs in another has no character that the other lacks.
pub proof fn lemma_has_chars(s: Seq<char>, p: Seq<char>, k: int)
    requires
        has_text(s, p),
        0 <= k < p.len(),
    ensures
        s.contains(p[k]),
{
    let i = choose|i: int| occurs_at(s, p, i);
    assert(s.subrange(i, i + p.len())[k] == s[i + k]);
    assert(s[i + k] == p[k]);
}

/// A text occurs in whatever it stands in the middle of.
pub proof fn lemma_has_middle(a: Seq<char>, p: Seq<char>, b: Seq<char>)
    ensures
        has_text(a + p + b, p),
{
    let s = a + p + b;
    assert(s.subrange(a.len() as int, a.len() as int + p.len()) =~= p);
    assert(occurs_at(s, p, a.len() as int));
}

/// The pieces between the separators, put together again, give the text; no piece holds a separator.
pub proof fn lemma_split(s: Seq<char>, c: char)
    ensures
        split_on(s, c).len() > 0,
        joined(split_on(s, c), seq![c]) == s,
        forall|i: int| 0 <= i < split_on(s, c).len() ==> !(#[trigger] split_on(s, c)[i]).contains(c),
    decreases s.len(),
{
    lemma_split_on_nonempty(s, c);
    let pieces = split_on(s, c);
    if s.len() > 0 {
        let front = s.drop_last();
        let before = split_on(front, c);
        lemma_split(front, c);
        assert(s =~= front.push(s.last()));
        if s.last() == c {
            assert(pieces.drop_last() =~= before);
            assert(joined(pieces, seq![c]) =~= s);
        } else {
            let last = before.last().push(s.last());
            assert(pieces.last() == last);
            assert(pieces.drop_last() =~= before.drop_last());
            if before.len() > 1 {
                assert(joined(pieces, seq![c]) =~= joined(before, seq![c]).push(s.last()));
            }
            assert forall|i: int| 0 <= i < pieces.len() implies !(#[trigger] pieces[i]).contains(
                c,
            ) by {
                if i < pieces.len() - 1 {
                    assert(pieces[i] == before[i]);
                } else {
                    assert(!before[before.len() - 1].contains(c));
                    if last.contains(c) {
                        let k = choose|k: int| 0 <= k < last.len() && last[k] == c;
                        assert(before.last()[k] == c);
                    }
                }
            }
        }
    }
}

/// A piece and a separator in front of a text are split off.
pub proof fn lemma_split_last(a: Seq<char>, b: Seq<char>, c: char)
    requires
        !b.contains(c),
    ensures
        split_on(a + seq![c] + b, c) == split_on(a, c).push(b),
    decreases b.len(),
{
    let s = a + seq![c] + b;
    if b.len() == 0 {
        assert(s =~= a.push(c));
        assert(s.drop_last() =~= a);
        assert(b =~= Seq::empty());
    } else {
        let front = b.drop_last();
        assert(!front.contains(c)) by {
            if front.contains(c) {
                let k = choose|k: int| 0 <= k < front.len() && front[k] == c;
                assert(b[k] == c);
            }
        }
        assert(b.contains(b.last()));
        assert(s.last() == b.last());
        assert(s.drop_last() =~= a + seq![c] + front);
        lemma_split_last(a, front, c);
        let before = split_on(s.drop_last(), c);
        assert(before.drop_last() =~= split_on(a, c));
        assert(before.last().push(s.last()) =~= b);
    }
}

/// A text without separators is one piece.
pub proof fn lemma_split_one(s: Seq<char>, c: char)
    requires
        !s.contains(c),
    ensures
        split_on(s, c) == seq![s],
    decreases s.len(),
{
    if s.len() == 0 {
        assert(s =~= Seq::empty());
    } else {
        let front = s.drop_last();
        assert(!front.contains(c)) by {
            if front.contains(c) {
                let k = choose|k: int| 0 <= k < front.len() && front[k] == c;
                assert(s[k] == c);
            }
        }
        assert(s.contains(s.last()));
        lemma_split_one(front, c);
        assert(front.push(s.last()) =~= s);
        assert(split_on(s, c) =~= seq![s]);
    }
}

/// What stands in front of the first separator is the first piece.
pub proof fn lemma_split_first(a: Seq<char>, rest: Seq<char>, c: char)
    requires
        !a.contains(c),
    ensures
        split_on(a + seq![c] + rest, c).len() > 1,
        split_on(a + seq![c] + rest, c)[0] == a,
    decreases rest.len(),
{
    let s = a + seq![c] + rest;
    if rest.len() == 0 {
        assert(s =~= a + seq![c] + Seq::<char>::empty());
        lemma_split_last(a, Seq::empty(), c);
        lemma_split_one(a, c);
    } else {
        assert(s.drop_last() =~= a + seq![c] + rest.drop_last());
        lemma_split_first(a, rest.drop_last(), c);
    }
}

/// A line that ends in a line feed, with or without a carriage return before it, is one line more.
pub proof fn lemma_one_more_line(s: Seq<char>, line: Seq<char>)
    requires
        s.len() == 0 || s.last() == '\n',
        !line.contains('\n'),
        line.len() == 0 || line.last() != '\r',
    ensures
        text_lines(s + line + "\n"@) == text_lines(s).push(line),
        text_lines(s + line + "\r\n"@) == text_lines(s).push(line),
        line.len() > 0 ==> text_lines(s + line) == text_lines(s).push(line),
{
    reveal_strlit("\n");
    reveal_strlit("\r\n");
    let none = Seq::<char>::empty();
    let pieces = split_on(s, '\n');
    lemma_split_on_nonempty(s, '\n');
    assert(pieces.last() =~= none) by {
        if s.len() > 0 {
            assert(pieces == split_on(s.drop_last(), '\n').push(none));
        }
    }
    let front = pieces.drop_last();
    assert(pieces =~= front.push(none));
    let f = |l: Seq<char>| crate::text::without_return(l);
    lemma_split_tail(s, line);
    let with_return = line.push('\r');
    lemma_split_tail(s, with_return);
    assert(s + line + "\n"@ =~= s + line + seq!['\n'] + none);
    lemma_split_last(s + line, none, '\n');
    assert(s + line + "\r\n"@ =~= s + with_return + seq!['\n'] + none);
    lemma_split_last(s + with_return, none, '\n');
    let one = front.push(line);
    let two = front.push(with_return);
    assert(split_on(s + line + "\n"@, '\n') == one.push(none));
    assert(split_on(s + line + "\r\n"@, '\n') == two.push(none));
    assert(one.push(none).drop_last() =~= one);
    assert(two.push(none).drop_last() =~= two);
    assert(with_return.drop_last() =~= line);
    assert(one.map_values(f) =~= front.map_values(f).push(line));
    assert(two.map_values(f) =~= front.map_values(f).push(line));
    assert(one.drop_last() =~= front);
}

proof fn lemma_split_tail(s: Seq<char>, line: Seq<char>)
    requires
        s.len() == 0 || s.last() == '\n',
        !line.contains('\n'),
    ensures
        split_on(s + line, '\n') == split_on(s, '\n').drop_last().push(line),
{
    let none = Seq::<char>::empty();
    if s.len() == 0 {
        assert(s + line =~= line);
        assert(s =~= none);
        lemma_split_one(line, '\n');
        assert(split_on(s, '\n').drop_last().push(line) =~= seq![line]);
    } else {
        let front = s.drop_last();
        assert(s + line =~= front + seq!['\n'] + line);
        lemma_split_last(front, line, '\n');
        assert(split_on(s, '\n').drop_last() =~= split_on(front, '\n'));
    }
}

/// The first word of a text is what stands between the white space in front of it and the next.
pub proof fn lemma_first_word(a: Seq<char>, word: Seq<char>, rest: Seq<char>)
    requires
        blank(a),
        word.len() > 0,
        forall|i: int| 0 <= i < word.len() ==> !whitespace(#[trigger] word[i]),
        rest.len() > 0 ==> whitespace(rest[0]),
    ensures
        first_word(a + word + rest) == word,
{
    assert(a + word + rest =~= a + (word + rest));
    assert((word + rest)[0] == word[0]);
    lemma_trim_front(a, word + rest);
    lemma_until_space(word, rest);
}

/// What stands in front of the first white space is read up to there.
pub proof fn lemma_until_space(word: Seq<char>, rest: Seq<char>)
    requires
        forall|i: int| 0 <= i < word.len() ==> !whitespace(#[trigger] word[i]),
        rest.len() > 0 ==> whitespace(rest[0]),
    ensures
        until_space(word + rest) == word,
    decreases word.len(),
{
    let s = word + rest;
    if word.len() > 0 {
        assert(s[0] == word[0]);
        assert(s.skip(1) =~= word.skip(1) + rest);
        lemma_until_space(word.skip(1), rest);
        assert(seq![word[0]] + word.skip(1) =~= word);
    } else {
        assert(s =~= rest);
        assert(until_space(rest) =~= word);
    }
}

/// A number is read as what it writes, with or without a plus sign in front of it.
pub proof fn lemma_number_is_read(n: u32)
    ensures
        parsed_u32(decimal(n as nat)) == Some(n),
        parsed_u32(seq!['+'] + decimal(n as nat)) == Some(n),
{
    lemma_decimal_digits(n as nat);
    let d = decimal(n as nat);
    assert((seq!['+'] + d).skip(1) =~= d);
    assert(crate::text::ascii_digit(d[0]));
}

/// Nothing but digits is read as a number, and not without any.
pub proof fn lemma_no_number(s: Seq<char>, i: int)
    requires
        s.len() == 0 || (0 <= i < s.len() && !('0' <= s[i] <= '9') && !(i == 0 && s[0] == '+'))
            || s == seq!['+'],
    ensures
        parsed_u32(s) is None,
{
    let d = if s.len() > 0 && s[0] == '+' {
        s.skip(1)
    } else {
        s
    };
    if s.len() > 0 && s != seq!['+'] {
        if s[0] == '+' {
            assert(d[i - 1] == s[i]);
        } else {
            assert(d[i] == s[i]);
        }
    } else {
        assert(d.len() == 0);
    }
}

/// A decimal number starts with a digit and holds nothing else.
pub proof fn lemma_decimal_chars(n: nat, i: int)
    requires
        0 <= i < decimal(n).len(),
    ensures
        '0' <= decimal(n)[i] <= '9',
{
    lemma_decimal_digits(n);
    assert(crate::text::ascii_digit(decimal(n)[i]));
}

/// A decimal number has at least one digit.
pub proof fn lemma_decimal_nonempty(n: nat)
    ensures
        decimal(n).len() > 0,
{
    lemma_decimal_digits(n);
}

/// Upper and lower case letters of ASCII fold to the same letter; nothing else of ASCII changes.
pub proof fn lemma_fold(c: char)
    requires
        ascii(c),
    ensures
        'A' <= c <= 'Z' ==> folded(c) as u32 == c as u32 + 32,
        !('A' <= c <= 'Z') ==> folded(c) == c,
{
}

} // verus!
