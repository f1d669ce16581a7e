//! Which brackets count.

use vstd::prelude::*;

use crate::laws::hover::{number_of, plain_char};
use crate::literals::{
    brackets_from, last_after, line_end, literal_at, literal_end,
    unclosed, Quote,
};

verus! {

/// Whether `s` holds neither a quote nor what starts another literal or a comment.
pub open spec fn plain(s: Seq<char>) -> bool {
    forall|i: int| 0 <= i < s.len() ==> plain_char(#[trigger] s[i])
}

proof fn lemma_plain_front(a: Seq<char>, s: Seq<char>, i: int, last: char) -> (end: char)
    requires
        0 <= i <= a.len() <= s.len(),
        plain(a),
        s.take(a.len() as int) == a,
    ensures
        brackets_from(s, i, last) == number_of(a.skip(i), '(') - number_of(a.skip(i), ')')
            + brackets_from(s, a.len() as int, end),
    decreases a.len() - i,
{
    if i < a.len() {
        assert(s[i] == s.take(a.len() as int)[i]);
        assert(plain_char(a[i]));
        assert(literal_at(s, i, last) is None);
        assert(a.skip(i).skip(1) =~= a.skip(i + 1));
        assert(a.skip(i)[0] == a[i]);
        lemma_plain_front(a, s, i + 1, last_after(last, s[i]))
    } else {
        assert(a.skip(i) =~= Seq::empty());
        last
    }
}

proof fn lemma_inside(s: Seq<char>, i: int, n: int, q: Quote)
    requires
        0 <= i <= n < s.len(),
        s[n] == q.close,
        q.open == q.close,
        q.close != '\\',
        q.close != '#',
        forall|k: int|
            i <= k < n ==> #[trigger] s[k] != q.close && s[k] != '\\' && s[k] != '#',
    ensures
        literal_end(s, i, q, 0) == n + 1,
    decreases n - i,
{
    if i < n {
        assert(s[i] != q.close);
        lemma_inside(s, i + 1, n, q);
    }
}

/// What stands in quotes does not count: code is unclosed exactly where it is without the brackets in
/// its texts and characters.
pub proof fn lemma_quoted_brackets_do_not_count(
    a: Seq<char>,
    quote: char,
    content: Seq<char>,
    b: Seq<char>,
)
    requires
        plain(a),
        plain(b),
        quote == '"' || quote == '\'',
        forall|i: int|
            0 <= i < content.len() ==> #[trigger] content[i] != quote && content[i] != '\\'
                && content[i] != '#',
    ensures
        unclosed(a + seq![quote] + content + seq![quote] + b) <==> number_of(a, '(') + number_of(
            b,
            '(',
        ) > number_of(a, ')') + number_of(b, ')'),
{
    let s = a + seq![quote] + content + seq![quote] + b;
    let k = a.len() as int;
    let n = k + 1 + content.len();
    assert(s.take(k) =~= a);
    let last = lemma_plain_front(a, s, 0, '\n');
    assert(a.skip(0) =~= a);
    assert(s[k] == quote);
    let q = Quote { open: quote, close: quote, filled: quote == '"' };
    assert(literal_at(s, k, last) == Some((q, k + 1)));
    assert(s[n] == quote);
    assert forall|j: int| k + 1 <= j < n implies #[trigger] s[j] != q.close && s[j] != '\\' && s[j]
        != '#' by {
        assert(s[j] == content[j - k - 1]);
    }
    lemma_inside(s, k + 1, n, q);
    assert(brackets_from(s, k, last) == brackets_from(s, n + 1, quote));
    assert(s.skip(n + 1) =~= b);
    lemma_plain_back(s, b, n + 1, quote);
}

proof fn lemma_plain_back(s: Seq<char>, b: Seq<char>, i: int, last: char)
    requires
        0 <= i <= s.len(),
        s.skip(i) == b,
        plain(b),
    ensures
        brackets_from(s, i, last) == number_of(b, '(') - number_of(b, ')'),
    decreases s.len() - i,
{
    if i < s.len() {
        assert(s.skip(i)[0] == s[i]);
        assert(plain_char(b[0]));
        assert(literal_at(s, i, last) is None);
        assert(s.skip(i + 1) =~= b.skip(1));
        assert(plain(b.skip(1))) by {
            assert forall|j: int| 0 <= j < b.skip(1).len() implies plain_char(
                #[trigger] b.skip(1)[j],
            ) by {
                assert(plain_char(b[j + 1]));
            }
        }
        lemma_plain_back(s, b.skip(1), i + 1, last_after(last, s[i]));
    } else {
        assert(b.len() == 0);
    }
}

/// What stands in a comment does not count, and code goes on behind its line.
pub proof fn lemma_commented_brackets_do_not_count(
    a: Seq<char>,
    comment: Seq<char>,
    b: Seq<char>,
)
    requires
        plain(a),
        plain(b),
        !comment.contains('\n'),
    ensures
        unclosed(a + seq!['#'] + comment + seq!['\n'] + b) <==> number_of(a, '(') + number_of(b, '(')
            > number_of(a, ')') + number_of(b, ')'),
        unclosed(a + seq!['#'] + comment) <==> number_of(a, '(') > number_of(a, ')'),
{
    let one = a + seq!['#'] + comment;
    let two = a + seq!['#'] + comment + seq!['\n'] + b;
    let k = a.len() as int;
    assert(a.skip(0) =~= a);
    assert(one.take(k) =~= a);
    assert(two.take(k) =~= a);
    let end_one = lemma_plain_front(a, one, 0, '\n');
    let end_two = lemma_plain_front(a, two, 0, '\n');
    assert(one[k] == '#' && two[k] == '#');
    let n = k + 1 + comment.len();
    assert forall|j: int| k + 1 <= j < n implies #[trigger] two[j] != '\n' && one[j] != '\n' by {
        assert(two[j] == comment[j - k - 1] && one[j] == comment[j - k - 1]);
        assert(comment.contains(comment[j - k - 1]));
    }
    lemma_line_ends(two, k + 1, n);
    assert(two[n] == '\n');
    lemma_line_ends(one, k + 1, n);
    assert(brackets_from(two, k, end_two) == brackets_from(two, n, end_two));
    assert(brackets_from(two, n, end_two) == brackets_from(two, n + 1, end_two));
    assert(two.skip(n + 1) =~= b);
    lemma_plain_back(two, b, n + 1, end_two);
    assert(brackets_from(one, k, end_one) == brackets_from(one, n, end_one));
}

proof fn lemma_line_ends(s: Seq<char>, i: int, n: int)
    requires
        0 <= i <= n <= s.len(),
        n == s.len() || s[n] == '\n',
        forall|j: int| i <= j < n ==> #[trigger] s[j] != '\n',
    ensures
        line_end(s, i) == n,
    decreases n - i,
{
    if i < n {
        assert(s[i] != '\n');
        lemma_line_ends(s, i + 1, n);
    }
}

} // verus!
