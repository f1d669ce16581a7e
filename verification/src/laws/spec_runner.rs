//! What is read out of a report.

use vstd::prelude::*;

use crate::laws::text::{
    blank, lemma_decimal_chars, lemma_decimal_nonempty, lemma_first_occurrence, lemma_first_word,
    lemma_has_chars, lemma_has_middle, lemma_last_index, lemma_number_is_read, lemma_split_last,
    lemma_split_one, lemma_trim_around,
};
use crate::spec_runner::{
    annotation, annotation_heading, annotations, block_facts, block_failure, block_len,
    failure_header, failure_section, header_description, leading_number, lemma_block_len,
    location_text, read_block_line, read_part, read_parts, read_summary_line, report, report_lines,
    section_failures, summary, BlockView, FailureView, ResultView, SummaryView,
};
use crate::text::{
    decimal, first_occurrence, has_text, joined, last_index, occurs_at, split_on, trimmed,
    whitespace, without_leading, without_prefixes,
};

verus! {

// ---------------------------------------------------------------------------
// Headers
// ---------------------------------------------------------------------------

/// The header of the `n`-th failure, with the description `d`.
pub open spec fn numbered(n: nat, d: Seq<char>) -> Seq<char> {
    decimal(n) + ") "@ + d
}

/// A number, a bracket and a space open a failure, however many digits the number has; the rest of
/// the line describes it.
pub proof fn lemma_numbered_header(n: nat, d: Seq<char>)
    ensures
        failure_header(numbered(n, d)),
        header_description(numbered(n, d)) == trimmed(d),
{
    let line = numbered(n, d);
    let k = decimal(n).len() as int;
    reveal_strlit(") ");
    reveal_strlit(")");
    lemma_decimal_nonempty(n);
    lemma_decimal_chars(n, 0);
    assert(line[0] == decimal(n)[0]);
    lemma_has_middle(decimal(n), ") "@, d);
    assert(line.subrange(k, k + 1) =~= ")"@);
    assert(occurs_at(line, ")"@, k));
    lemma_first_occurrence(line, ")"@);
    let i = first_occurrence(line, ")"@)->0;
    assert(line.subrange(i, i + 1)[0] == line[i]);
    if i < k {
        lemma_decimal_chars(n, i);
        assert(line[i] == decimal(n)[i]);
    }
    assert(i == k);
    assert(line.skip(k + 1) =~= " "@ + d) by {
        reveal_strlit(" ");
    }
    lemma_trim_leading_space(d);
}

/// A space in front of a text makes no difference to what trimming leaves.
proof fn lemma_trim_leading_space(d: Seq<char>)
    ensures
        trimmed(" "@ + d) == trimmed(d),
{
    reveal_strlit(" ");
    let (a, b) = crate::laws::text::lemma_trimmed(d);
    let front = " "@ + a;
    assert(blank(front));
    assert(" "@ + d =~= front + trimmed(d) + b);
    lemma_trim_around(front, trimmed(d), b);
}

/// A line that does not start with a digit opens no failure.
pub proof fn lemma_no_header(line: Seq<char>)
    requires
        line.len() > 0 ==> !('0' <= line[0] <= '9'),
    ensures
        !failure_header(line),
{
}

// ---------------------------------------------------------------------------
// Blocks
// ---------------------------------------------------------------------------

/// Whether `line` can stand in the block of a failure: it starts with no digit and does not close
/// the report.
pub open spec fn inner_line(line: Seq<char>) -> bool {
    &&& line.len() > 0 ==> !('0' <= line[0] <= '9')
    &&& !"Finished in"@.is_prefix_of(line)
}

/// Whether the lines of a block all can stand there.
pub open spec fn inner_lines(block: Seq<Seq<char>>) -> bool {
    forall|i: int| 0 <= i < block.len() ==> inner_line(#[trigger] block[i])
}

/// Whether what follows a block closes it: nothing, the next header, or the end of the report.
pub open spec fn closes_block(rest: Seq<Seq<char>>) -> bool {
    rest.len() == 0 || "Finished in"@.is_prefix_of(rest[0]) || exists|n: nat, d: Seq<char>|
        rest[0] == #[trigger] numbered(n, d)
}

proof fn lemma_block_len_is(block: Seq<Seq<char>>, rest: Seq<Seq<char>>)
    requires
        inner_lines(block),
        closes_block(rest),
    ensures
        block_len(block + rest) == block.len(),
    decreases block.len(),
{
    let all = block + rest;
    if block.len() == 0 {
        assert(all =~= rest);
        if rest.len() > 0 && !"Finished in"@.is_prefix_of(rest[0]) {
            let (n, d) = choose|n: nat, d: Seq<char>| rest[0] == #[trigger] numbered(n, d);
            lemma_numbered_header(n, d);
        }
    } else {
        assert(all[0] == block[0]);
        assert(inner_line(block[0]));
        lemma_no_header(block[0]);
        let tail = block.skip(1);
        assert(all.skip(1) =~= tail + rest);
        assert(inner_lines(tail)) by {
            assert forall|i: int| 0 <= i < tail.len() implies inner_line(#[trigger] tail[i]) by {
                assert(inner_line(block[i + 1]));
            }
        }
        lemma_block_len_is(tail, rest);
    }
}

/// A header and the block under it are one failure, and what follows is read in the same way: the
/// block of a failure ends where the next header stands, and no line of it counts for another.
pub proof fn lemma_failure_is_read(
    n: nat,
    d: Seq<char>,
    block: Seq<Seq<char>>,
    rest: Seq<Seq<char>>,
)
    requires
        inner_lines(block),
        closes_block(rest),
    ensures
        section_failures(seq![numbered(n, d)] + block + rest) == seq![
            block_failure(numbered(n, d), block),
        ] + section_failures(rest),
        block_failure(numbered(n, d), block).description == trimmed(d),
{
    let header = numbered(n, d);
    let all = seq![header] + block + rest;
    lemma_numbered_header(n, d);
    lemma_block_len_is(block, rest);
    assert(all[0] == header);
    assert(all.skip(1) =~= block + rest);
    assert((block + rest).take(block.len() as int) =~= block);
    assert((block + rest).skip(block.len() as int) =~= rest);
    lemma_block_len(block + rest);
}

/// The lines of the failures from the `k`-th on: each with its header and its block.
pub open spec fn written(failures: Seq<(Seq<char>, Seq<Seq<char>>)>, k: int) -> Seq<Seq<char>>
    decreases failures.len() - k,
{
    if k < 0 || k >= failures.len() {
        Seq::empty()
    } else {
        seq![numbered((k + 1) as nat, failures[k].0)] + failures[k].1 + written(failures, k + 1)
    }
}

proof fn lemma_written_from(failures: Seq<(Seq<char>, Seq<Seq<char>>)>, end: Seq<Seq<char>>, k: int)
    requires
        0 <= k <= failures.len(),
        forall|i: int| 0 <= i < failures.len() ==> inner_lines((#[trigger] failures[i]).1),
        end.len() > 0 ==> "Finished in"@.is_prefix_of(end[0]),
        section_failures(end).len() == 0,
    ensures
        ({
            let read = section_failures(written(failures, k) + end);
            &&& read.len() == failures.len() - k
            &&& forall|i: int|
                0 <= i < read.len() ==> #[trigger] read[i] == block_failure(
                    numbered((k + i + 1) as nat, failures[k + i].0),
                    failures[k + i].1,
                )
        }),
    decreases failures.len() - k,
{
    if k == failures.len() {
        assert(written(failures, k) + end =~= end);
    } else {
        let rest = written(failures, k + 1) + end;
        lemma_written_from(failures, end, k + 1);
        if k + 1 < failures.len() {
            assert(rest[0] == numbered((k + 2) as nat, failures[k + 1].0));
        } else {
            assert(rest =~= end);
        }
        assert(closes_block(rest));
        let header = numbered((k + 1) as nat, failures[k].0);
        assert(inner_lines(failures[k].1));
        lemma_failure_is_read((k + 1) as nat, failures[k].0, failures[k].1, rest);
        assert(written(failures, k) + end =~= seq![header] + failures[k].1 + rest);
        let later = section_failures(rest);
        let read = section_failures(written(failures, k) + end);
        assert forall|i: int| 0 <= i < read.len() implies #[trigger] read[i] == block_failure(
            numbered((k + i + 1) as nat, failures[k + i].0),
            failures[k + i].1,
        ) by {
            if i > 0 {
                assert(read[i] == later[i - 1]);
            }
        }
    }
}

/// A section with numbered failures is read as just these: as many as there are, in their order, each
/// with its own description and what its own block says.
pub proof fn lemma_every_failure_is_read(
    failures: Seq<(Seq<char>, Seq<Seq<char>>)>,
    end: Seq<Seq<char>>,
    i: int,
)
    requires
        forall|k: int| 0 <= k < failures.len() ==> inner_lines((#[trigger] failures[k]).1),
        end.len() > 0 ==> "Finished in"@.is_prefix_of(end[0]),
        forall|k: int|
            0 <= k < end.len() && (#[trigger] end[k]).len() > 0 && '0' <= end[k][0] <= '9'
                ==> !has_text(end[k], ") "@),
        0 <= i < failures.len(),
    ensures
        ({
            let read = section_failures(written(failures, 0) + end);
            &&& read.len() == failures.len()
            &&& read[i].description == trimmed(failures[i].0)
            &&& read[i] == block_failure(
                numbered((i + 1) as nat, failures[i].0),
                failures[i].1,
            )
        }),
{
    lemma_no_failures(end);
    lemma_written_from(failures, end, 0);
    lemma_numbered_header((i + 1) as nat, failures[i].0);
}

proof fn lemma_no_failures(lines: Seq<Seq<char>>)
    requires
        forall|k: int|
            0 <= k < lines.len() && (#[trigger] lines[k]).len() > 0 && '0' <= lines[k][0] <= '9'
                ==> !has_text(lines[k], ") "@),
    ensures
        section_failures(lines).len() == 0,
    decreases lines.len(),
{
    if lines.len() > 0 {
        let rest = lines.skip(1);
        assert forall|k: int|
            0 <= k < rest.len() && (#[trigger] rest[k]).len() > 0 && '0' <= rest[k][0]
                <= '9' implies !has_text(rest[k], ") "@) by {
            assert(rest[k] == lines[k + 1]);
        }
        lemma_no_failures(rest);
        assert(!failure_header(lines[0]));
    }
}

// ---------------------------------------------------------------------------
// What a block says
// ---------------------------------------------------------------------------

proof fn lemma_one_prefix(p: Seq<char>, e: Seq<char>)
    requires
        p.len() > 0,
        e.len() == 0 || e[0] == ' ',
        p[0] != ' ',
    ensures
        p.is_prefix_of(p + e),
        without_prefixes(p + e, p) == e,
{
    assert((p + e).take(p.len() as int) =~= p);
    assert((p + e).skip(p.len() as int) =~= e);
    if p.is_prefix_of(e) {
        lemma_first_char(p, e);
    }
    assert(without_prefixes(e, p) == e);
}

proof fn lemma_first_char(p: Seq<char>, s: Seq<char>)
    requires
        p.len() > 0,
        p.is_prefix_of(s),
    ensures
        s.len() > 0 && s[0] == p[0],
{
    assert(s.take(p.len() as int)[0] == s[0]);
}

/// A line `Expected: e` says what was expected.
pub proof fn lemma_expected_line(b: BlockView, e: Seq<char>)
    ensures
        read_block_line(b, "Expected:"@ + " "@ + e) == (BlockView { expected: trimmed(e), ..b }),
{
    reveal_strlit("Expected:");
    reveal_strlit(" ");
    let tail = " "@ + e;
    assert("Expected:"@ + " "@ + e =~= "Expected:"@ + tail);
    lemma_one_prefix("Expected:"@, tail);
    lemma_trim_leading_space(e);
}

/// A line `Got: a` says what came instead, whether it is written with a capital letter or not.
pub proof fn lemma_got_line(b: BlockView, a: Seq<char>)
    ensures
        read_block_line(b, "Got:"@ + " "@ + a) == (BlockView { actual: trimmed(a), ..b }),
        read_block_line(b, "got:"@ + " "@ + a) == (BlockView { actual: trimmed(a), ..b }),
{
    reveal_strlit("Expected:");
    reveal_strlit("Got:");
    reveal_strlit("got:");
    reveal_strlit(" ");
    let tail = " "@ + a;
    let upper = "Got:"@ + tail;
    let lower = "got:"@ + tail;
    assert("Got:"@ + " "@ + a =~= upper);
    assert("got:"@ + " "@ + a =~= lower);
    lemma_one_prefix("Got:"@, tail);
    lemma_one_prefix("got:"@, tail);
    lemma_trim_leading_space(a);
    assert(upper[0] == 'G' && lower[0] == 'g');
    if "Expected:"@.is_prefix_of(upper) {
        lemma_first_char("Expected:"@, upper);
    }
    if "Expected:"@.is_prefix_of(lower) {
        lemma_first_char("Expected:"@, lower);
    }
    if "Got:"@.is_prefix_of(lower) {
        lemma_first_char("Got:"@, lower);
    }
    if "got:"@.is_prefix_of(tail) {
        lemma_first_char("got:"@, tail);
    }
}

/// A line `# file:line` says where the failure is.
pub proof fn lemma_location_line(b: BlockView, file: Seq<char>, n: u32)
    requires
        file.len() > 0,
        !whitespace(file[0]),
        file[0] != '#',
    ensures
        read_block_line(b, "# "@ + file + ":"@ + decimal(n as nat)) == (BlockView {
            file,
            line: n,
            ..b
        }),
{
    let d = decimal(n as nat);
    let line = "# "@ + file + ":"@ + d;
    let place = file + ":"@ + d;
    reveal_strlit("# ");
    reveal_strlit(":");
    reveal_strlit("Expected:");
    reveal_strlit("Got:");
    reveal_strlit("got:");
    assert(line[0] == '#');
    if "Expected:"@.is_prefix_of(line) {
        lemma_first_char("Expected:"@, line);
    }
    if "Got:"@.is_prefix_of(line) {
        lemma_first_char("Got:"@, line);
    }
    if "got:"@.is_prefix_of(line) {
        lemma_first_char("got:"@, line);
    }
    assert(line[2 + file.len() as int] == ':');
    assert(line.skip(1) =~= seq![' '] + place);
    assert(without_leading(line.skip(1), '#') == line.skip(1));
    assert(without_leading(line, '#') == line.skip(1));
    lemma_decimal_nonempty(n as nat);
    lemma_decimal_chars(n as nat, d.len() - 1);
    assert(place.last() == d.last());
    assert(place[0] == file[0]);
    assert(blank(seq![' ']));
    assert(seq![' '] + place + Seq::<char>::empty() =~= seq![' '] + place);
    lemma_trim_around(seq![' '], place, Seq::empty());
    assert(location_text(line) == place);
    let k = file.len() as int;
    assert(place[k] == ':');
    lemma_last_index(place, ':');
    let i = last_index(place, ':')->0;
    if i > k {
        lemma_decimal_chars(n as nat, i - k - 1);
        assert(place[i] == d[i - k - 1]);
    }
    assert(i == k);
    assert(place.take(k) =~= file);
    assert(place.skip(k + 1) =~= d);
    lemma_number_is_read(n);
}

/// A blank line and a line that starts with `Failure/Error:` say nothing.
pub proof fn lemma_silent_lines(b: BlockView, line: Seq<char>)
    requires
        line.len() == 0 || "Failure/Error:"@.is_prefix_of(line),
    ensures
        read_block_line(b, line) == b,
{
    reveal_strlit("Failure/Error:");
    reveal_strlit("Expected:");
    reveal_strlit("Got:");
    reveal_strlit("got:");
    if line.len() > 0 {
        lemma_first_char("Failure/Error:"@, line);
        if "Expected:"@.is_prefix_of(line) {
            lemma_first_char("Expected:"@, line);
        }
        if "Got:"@.is_prefix_of(line) {
            lemma_first_char("Got:"@, line);
        }
        if "got:"@.is_prefix_of(line) {
            lemma_first_char("got:"@, line);
        }
    }
}

/// A block of the usual form says what was expected, what came, and where: whatever the texts are.
pub proof fn lemma_usual_block(
    n: nat,
    d: Seq<char>,
    cause: Seq<char>,
    e: Seq<char>,
    a: Seq<char>,
    file: Seq<char>,
    line: u32,
)
    requires
        "Failure/Error:"@.is_prefix_of(cause),
        file.len() > 0,
        !whitespace(file[0]),
        file[0] != '#',
        trimmed(e).len() > 0,
    ensures
        ({
            let none = Seq::<char>::empty();
            let f = block_failure(
                numbered(n, d),
                seq![
                    cause,
                    none,
                    "Expected:"@ + " "@ + e,
                    "Got:"@ + " "@ + a,
                    none,
                    "# "@ + file + ":"@ + decimal(line as nat),
                    none,
                ],
            );
            &&& f.description == trimmed(d)
            &&& f.expected == trimmed(e)
            &&& f.actual == trimmed(a)
            &&& f.file == file
            &&& f.line == line
            &&& f.raw_message == "Expected: "@ + trimmed(e) + "\n     Got: "@ + trimmed(a)
        }),
{
    let none = Seq::<char>::empty();
    let l2 = "Expected:"@ + " "@ + e;
    let l3 = "Got:"@ + " "@ + a;
    let l5 = "# "@ + file + ":"@ + decimal(line as nat);
    let s0 = Seq::<Seq<char>>::empty();
    let s1 = s0.push(cause);
    let s2 = s1.push(none);
    let s3 = s2.push(l2);
    let s4 = s3.push(l3);
    let s5 = s4.push(none);
    let s6 = s5.push(l5);
    let s7 = s6.push(none);
    assert(s7 =~= seq![cause, none, l2, l3, none, l5, none]);
    assert(s1.drop_last() =~= s0);
    assert(s2.drop_last() =~= s1);
    assert(s3.drop_last() =~= s2);
    assert(s4.drop_last() =~= s3);
    assert(s5.drop_last() =~= s4);
    assert(s6.drop_last() =~= s5);
    assert(s7.drop_last() =~= s6);
    let b0 = block_facts(s0);
    lemma_silent_lines(b0, cause);
    assert(block_facts(s1) == read_block_line(b0, cause));
    lemma_silent_lines(b0, none);
    assert(block_facts(s2) == read_block_line(b0, none));
    lemma_expected_line(b0, e);
    let b3 = block_facts(s3);
    assert(b3 == read_block_line(b0, l2));
    lemma_got_line(b3, a);
    let b4 = block_facts(s4);
    assert(b4 == read_block_line(b3, l3));
    lemma_silent_lines(b4, none);
    assert(block_facts(s5) == read_block_line(b4, none));
    lemma_location_line(b4, file, line);
    let b6 = block_facts(s6);
    assert(b6 == read_block_line(b4, l5));
    lemma_silent_lines(b6, none);
    assert(block_facts(s7) == read_block_line(b6, none));
    lemma_numbered_header(n, d);
}

/// A line of no known form is kept for the message.
pub proof fn lemma_other_line(b: BlockView, line: Seq<char>)
    requires
        line.len() > 0,
        line[0] != 'E',
        line[0] != 'G',
        line[0] != 'g',
        line[0] != 'F',
        line[0] != '#',
    ensures
        read_block_line(b, line) == (BlockView { raw: b.raw.push(line), ..b }),
{
    reveal_strlit("Failure/Error:");
    reveal_strlit("Expected:");
    reveal_strlit("Got:");
    reveal_strlit("got:");
    if "Failure/Error:"@.is_prefix_of(line) {
        lemma_first_char("Failure/Error:"@, line);
    }
    if "Expected:"@.is_prefix_of(line) {
        lemma_first_char("Expected:"@, line);
    }
    if "Got:"@.is_prefix_of(line) {
        lemma_first_char("Got:"@, line);
    }
    if "got:"@.is_prefix_of(line) {
        lemma_first_char("got:"@, line);
    }
}

proof fn lemma_other_lines(block: Seq<Seq<char>>)
    requires
        forall|i: int| 0 <= i < block.len() ==> other_line(#[trigger] block[i]),
    ensures
        block_facts(block) == (BlockView {
            expected: Seq::empty(),
            actual: Seq::empty(),
            file: Seq::empty(),
            line: 0,
            raw: block,
        }),
    decreases block.len(),
{
    if block.len() > 0 {
        let front = block.drop_last();
        assert forall|i: int| 0 <= i < front.len() implies other_line(#[trigger] front[i]) by {
            assert(other_line(block[i]));
        }
        lemma_other_lines(front);
        assert(other_line(block[block.len() - 1]));
        lemma_other_line(block_facts(front), block.last());
        assert(front.push(block.last()) =~= block);
    } else {
        assert(block =~= Seq::empty());
    }
}

/// Whether `line` is of none of the forms that a block is made of.
pub open spec fn other_line(line: Seq<char>) -> bool {
    line.len() > 0 && line[0] != 'E' && line[0] != 'G' && line[0] != 'g' && line[0] != 'F' && line[0]
        != '#'
}

/// A failure that expects nothing has the other lines of its block as its message, in their order.
pub proof fn lemma_message_of_lines(header: Seq<char>, block: Seq<Seq<char>>)
    requires
        forall|i: int| 0 <= i < block.len() ==> other_line(#[trigger] block[i]),
    ensures
        block_failure(header, block).raw_message == joined(block, "\n"@),
        block_failure(header, block).file.len() == 0,
        block_failure(header, block).line == 0,
{
    lemma_other_lines(block);
}

// ---------------------------------------------------------------------------
// The report
// ---------------------------------------------------------------------------

proof fn lemma_section(before: Seq<Seq<char>>, rest: Seq<Seq<char>>)
    requires
        forall|i: int| 0 <= i < before.len() ==> #[trigger] before[i] != "Failures:"@,
    ensures
        failure_section(before + seq!["Failures:"@] + rest) == rest,
    decreases before.len(),
{
    let all = before + seq!["Failures:"@] + rest;
    if before.len() == 0 {
        assert(all[0] == "Failures:"@);
        assert(all.skip(1) =~= rest);
    } else {
        assert(all[0] == before[0]);
        assert(all.skip(1) =~= before.skip(1) + seq!["Failures:"@] + rest);
        lemma_section(before.skip(1), rest);
    }
}

/// The failures of a report are those that stand behind its line `Failures:`.
pub proof fn lemma_report_failures(
    output: Seq<char>,
    before: Seq<Seq<char>>,
    rest: Seq<Seq<char>>,
)
    requires
        report_lines(output) == before + seq!["Failures:"@] + rest,
        forall|i: int| 0 <= i < before.len() ==> #[trigger] before[i] != "Failures:"@,
    ensures
        report(output).failures == section_failures(rest),
{
    lemma_section(before, rest);
}

proof fn lemma_lacks(s: Seq<char>, p: Seq<char>, k: int)
    requires
        0 <= k < p.len(),
        !s.contains(p[k]),
    ensures
        !has_text(s, p),
{
    if has_text(s, p) {
        lemma_has_chars(s, p, k);
    }
}

proof fn lemma_decimal_lacks(n: nat, c: char)
    requires
        !('0' <= c <= '9'),
    ensures
        !decimal(n).contains(c),
{
    let d = decimal(n);
    if d.contains(c) {
        let i = choose|i: int| 0 <= i < d.len() && d[i] == c;
        lemma_decimal_chars(n, i);
    }
}

/// A part of the summary: a number, a space and a word.
proof fn lemma_part(n: u32, word: Seq<char>)
    requires
        word.len() > 0,
        forall|i: int| 0 <= i < word.len() ==> 'a' <= #[trigger] word[i] <= 'z',
    ensures
        ({
            let part = decimal(n as nat) + seq![' '] + word;
            &&& leading_number(part) == n
            &&& trimmed(part) == part
            &&& trimmed(seq![' '] + part) == part
            &&& !part.contains(',')
        }),
{
    let d = decimal(n as nat);
    let none = Seq::<char>::empty();
    let part = d + seq![' '] + word;
    lemma_decimal_nonempty(n as nat);
    lemma_decimal_chars(n as nat, 0);
    assert(part[0] == d[0]);
    assert(part.last() == word[word.len() - 1]);
    assert(none + part + none =~= part);
    lemma_trim_around(none, part, none);
    assert(blank(seq![' ']));
    assert(seq![' '] + part + none =~= seq![' '] + part);
    lemma_trim_around(seq![' '], part, none);
    assert forall|i: int| 0 <= i < d.len() implies !whitespace(#[trigger] d[i]) by {
        lemma_decimal_chars(n as nat, i);
    }
    assert(none + d + (seq![' '] + word) =~= part);
    lemma_first_word(none, d, seq![' '] + word);
    lemma_number_is_read(n);
    if part.contains(',') {
        let i = choose|i: int| 0 <= i < part.len() && part[i] == ',';
        if i < d.len() {
            lemma_decimal_chars(n as nat, i);
        } else if i > d.len() {
            assert(word[i - d.len() - 1] == ',');
        }
    }
}

proof fn lemma_part_lacks(n: u32, word: Seq<char>, p: Seq<char>, k: int)
    requires
        0 <= k < p.len(),
        'a' <= p[k] <= 'z',
        !word.contains(p[k]),
    ensures
        !has_text(part_of_summary(n, word), p),
{
    let d = decimal(n as nat);
    let part = part_of_summary(n, word);
    let c = p[k];
    lemma_decimal_lacks(n as nat, c);
    if part.contains(c) {
        let i = choose|i: int| 0 <= i < part.len() && part[i] == c;
        if i < d.len() {
            assert(d[i] == c);
        } else if i > d.len() {
            assert(word[i - d.len() - 1] == c);
        }
    }
    lemma_lacks(part, p, k);
}

/// A part of the summary line: a number and a word.
pub open spec fn part_of_summary(n: u32, word: Seq<char>) -> Seq<char> {
    decimal(n as nat) + seq![' '] + word
}

proof fn lemma_examples_part(s: SummaryView, n: u32)
    ensures
        read_part(s, part_of_summary(n, "examples"@)) == (SummaryView { total: n, ..s }),
        has_text(part_of_summary(n, "examples"@), "example"@),
{
    reveal_strlit("examples");
    reveal_strlit("example");
    lemma_part(n, "examples"@);
    let d = decimal(n as nat) + seq![' '];
    assert(part_of_summary(n, "examples"@) =~= d + "example"@ + seq!['s']);
    lemma_has_middle(d, "example"@, seq!['s']);
}

proof fn lemma_failures_part(s: SummaryView, n: u32)
    ensures
        read_part(s, part_of_summary(n, "failures"@)) == (SummaryView { failed: n, ..s }),
        has_text(part_of_summary(n, "failures"@), "failure"@),
{
    reveal_strlit("failures");
    reveal_strlit("failure");
    reveal_strlit("example");
    lemma_part(n, "failures"@);
    let d = decimal(n as nat) + seq![' '];
    let part = part_of_summary(n, "failures"@);
    assert(part =~= d + "failure"@ + seq!['s']);
    lemma_has_middle(d, "failure"@, seq!['s']);
    lemma_part_lacks(n, "failures"@, "example"@, 1);
}

proof fn lemma_errors_part(s: SummaryView, n: u32)
    ensures
        read_part(s, part_of_summary(n, "errors"@)) == (SummaryView { errored: n, ..s }),
{
    reveal_strlit("errors");
    reveal_strlit("error");
    reveal_strlit("failure");
    reveal_strlit("example");
    lemma_part(n, "errors"@);
    let d = decimal(n as nat) + seq![' '];
    let part = part_of_summary(n, "errors"@);
    assert(part =~= d + "error"@ + seq!['s']);
    lemma_has_middle(d, "error"@, seq!['s']);
    lemma_part_lacks(n, "errors"@, "example"@, 1);
    lemma_part_lacks(n, "errors"@, "failure"@, 0);
}

proof fn lemma_pending_named(n: u32)
    ensures
        has_text(part_of_summary(n, "pending"@), "pending"@),
{
    let part = part_of_summary(n, "pending"@);
    let d = decimal(n as nat) + seq![' '];
    let none = Seq::<char>::empty();
    assert(part =~= d + "pending"@ + none);
    lemma_has_middle(d, "pending"@, none);
}

proof fn lemma_pending_alone(n: u32)
    ensures
        !has_text(part_of_summary(n, "pending"@), "example"@),
        !has_text(part_of_summary(n, "pending"@), "failure"@),
        !has_text(part_of_summary(n, "pending"@), "error"@),
{
    reveal_strlit("pending");
    reveal_strlit("example");
    reveal_strlit("failure");
    reveal_strlit("error");
    let word = "pending"@;
    assert(!word.contains('x') && !word.contains('f') && !word.contains('r'));
    assert("example"@[1] == 'x' && "failure"@[0] == 'f' && "error"@[1] == 'r');
    lemma_part_lacks(n, word, "example"@, 1);
    lemma_part_lacks(n, word, "failure"@, 0);
    lemma_part_lacks(n, word, "error"@, 1);
}

proof fn lemma_pending_part(s: SummaryView, n: u32)
    ensures
        read_part(s, part_of_summary(n, "pending"@)) == (SummaryView { pending: n, ..s }),
{
    lemma_words();
    lemma_part(n, "pending"@);
    lemma_pending_named(n);
    lemma_pending_alone(n);
}

proof fn lemma_word_in_part(n: u32, word: Seq<char>)
    ensures
        has_text(part_of_summary(n, word), word),
{
    let d = decimal(n as nat) + seq![' '];
    let none = Seq::<char>::empty();
    assert(part_of_summary(n, word) =~= d + word + none);
    lemma_has_middle(d, word, none);
}

proof fn lemma_singular_words()
    ensures
        forall|i: int| 0 <= i < "example"@.len() ==> 'a' <= #[trigger] "example"@[i] <= 'z',
        forall|i: int| 0 <= i < "failure"@.len() ==> 'a' <= #[trigger] "failure"@[i] <= 'z',
        forall|i: int| 0 <= i < "error"@.len() ==> 'a' <= #[trigger] "error"@[i] <= 'z',
        "example"@.len() > 0,
        "failure"@.len() > 0,
        "error"@.len() > 0,
{
    reveal_strlit("example");
    reveal_strlit("failure");
    reveal_strlit("error");
}

proof fn lemma_singular_alone(n: u32)
    ensures
        !has_text(part_of_summary(n, "failure"@), "example"@),
        !has_text(part_of_summary(n, "error"@), "example"@),
        !has_text(part_of_summary(n, "error"@), "failure"@),
{
    reveal_strlit("example");
    reveal_strlit("failure");
    reveal_strlit("error");
    assert(!"failure"@.contains('x') && !"error"@.contains('x') && !"error"@.contains('f'));
    assert("example"@[1] == 'x' && "failure"@[0] == 'f');
    lemma_part_lacks(n, "failure"@, "example"@, 1);
    lemma_part_lacks(n, "error"@, "example"@, 1);
    lemma_part_lacks(n, "error"@, "failure"@, 0);
}

proof fn lemma_singular_parts(s: SummaryView, n: u32)
    ensures
        read_part(s, part_of_summary(n, "example"@)) == (SummaryView { total: n, ..s }),
        read_part(s, part_of_summary(n, "failure"@)) == (SummaryView { failed: n, ..s }),
        read_part(s, part_of_summary(n, "error"@)) == (SummaryView { errored: n, ..s }),
{
    lemma_singular_words();
    lemma_singular_alone(n);
    lemma_part(n, "example"@);
    lemma_part(n, "failure"@);
    lemma_part(n, "error"@);
    lemma_word_in_part(n, "example"@);
    lemma_word_in_part(n, "failure"@);
    lemma_word_in_part(n, "error"@);
}

/// Each part of a summary line counts what it names, in the singular as in the plural.
pub proof fn lemma_part_is_read(s: SummaryView, n: u32)
    ensures
        read_part(s, part_of_summary(n, "example"@)) == (SummaryView { total: n, ..s }),
        read_part(s, part_of_summary(n, "examples"@)) == (SummaryView { total: n, ..s }),
        read_part(s, part_of_summary(n, "failure"@)) == (SummaryView { failed: n, ..s }),
        read_part(s, part_of_summary(n, "failures"@)) == (SummaryView { failed: n, ..s }),
        read_part(s, part_of_summary(n, "error"@)) == (SummaryView { errored: n, ..s }),
        read_part(s, part_of_summary(n, "errors"@)) == (SummaryView { errored: n, ..s }),
        read_part(s, part_of_summary(n, "pending"@)) == (SummaryView { pending: n, ..s }),
{
    lemma_singular_parts(s, n);
    lemma_examples_part(s, n);
    lemma_failures_part(s, n);
    lemma_errors_part(s, n);
    lemma_pending_part(s, n);
}

/// The parts of a summary line are read in turn, each without the white space around it.
pub proof fn lemma_parts_in_turn(s: SummaryView, line: Seq<char>, part: Seq<char>)
    requires
        !part.contains(','),
    ensures
        read_parts(s, split_on(line + seq![','] + part, ',')) == read_part(
            read_parts(s, split_on(line, ',')),
            trimmed(part),
        ),
{
    lemma_split_last(line, part, ',');
    let before = split_on(line, ',');
    assert(before.push(part).drop_last() =~= before);
}

/// A summary line: the number of examples, failures, errors and pending examples.
pub open spec fn summary_line(total: u32, failed: u32, errored: u32, pending: u32) -> Seq<char> {
    part_of_summary(total, "examples"@) + ", "@ + part_of_summary(failed, "failures"@) + ", "@
        + part_of_summary(errored, "errors"@) + ", "@ + part_of_summary(pending, "pending"@)
}

proof fn lemma_four_parts(p1: Seq<char>, p2: Seq<char>, p3: Seq<char>, p4: Seq<char>)
    requires
        !p1.contains(','),
        !p2.contains(','),
        !p3.contains(','),
        !p4.contains(','),
    ensures
        split_on(p1 + ", "@ + p2 + ", "@ + p3 + ", "@ + p4, ',') == seq![
            p1,
            seq![' '] + p2,
            seq![' '] + p3,
            seq![' '] + p4,
        ],
{
    reveal_strlit(", ");
    let sp = seq![' '];
    let two = p1 + seq![','] + (sp + p2);
    let three = two + seq![','] + (sp + p3);
    let four = three + seq![','] + (sp + p4);
    assert(p1 + ", "@ + p2 + ", "@ + p3 + ", "@ + p4 =~= four);
    lemma_no_comma(p2);
    lemma_no_comma(p3);
    lemma_no_comma(p4);
    lemma_split_one(p1, ',');
    lemma_split_last(p1, sp + p2, ',');
    lemma_split_last(two, sp + p3, ',');
    lemma_split_last(three, sp + p4, ',');
    assert(seq![p1].push(sp + p2).push(sp + p3).push(sp + p4) =~= seq![
        p1,
        sp + p2,
        sp + p3,
        sp + p4,
    ]);
}

/// The counts of a run are read from its summary line, each from the part that names it.
pub proof fn lemma_counts_are_read(
    s: SummaryView,
    total: u32,
    failed: u32,
    errored: u32,
    pending: u32,
)
    ensures
        read_summary_line(s, summary_line(total, failed, errored, pending)) == (SummaryView {
            total,
            failed,
            errored,
            pending,
            duration: s.duration,
        }),
{
    let line = summary_line(total, failed, errored, pending);
    let p1 = part_of_summary(total, "examples"@);
    let p2 = part_of_summary(failed, "failures"@);
    let p3 = part_of_summary(errored, "errors"@);
    let p4 = part_of_summary(pending, "pending"@);
    lemma_words();
    lemma_part(total, "examples"@);
    lemma_part(failed, "failures"@);
    lemma_part(errored, "errors"@);
    lemma_part(pending, "pending"@);
    lemma_four_parts(p1, p2, p3, p4);
    lemma_four_read(s, p1, p2, p3, p4);
    lemma_examples_part(s, total);
    let r1 = read_part(s, p1);
    lemma_failures_part(r1, failed);
    let r2 = read_part(r1, p2);
    lemma_errors_part(r2, errored);
    let r3 = read_part(r2, p3);
    lemma_pending_part(r3, pending);
    lemma_line_has(p1, p2, p3, p4);
    lemma_starts_with_number(total, p2, p3, p4);
}

proof fn lemma_starts_with_number(n: u32, p2: Seq<char>, p3: Seq<char>, p4: Seq<char>)
    ensures
        !"Finished in"@.is_prefix_of(
            part_of_summary(n, "examples"@) + ", "@ + p2 + ", "@ + p3 + ", "@ + p4,
        ),
{
    reveal_strlit("Finished in");
    let line = part_of_summary(n, "examples"@) + ", "@ + p2 + ", "@ + p3 + ", "@ + p4;
    lemma_decimal_nonempty(n as nat);
    lemma_decimal_chars(n as nat, 0);
    assert(line[0] == decimal(n as nat)[0]);
    if "Finished in"@.is_prefix_of(line) {
        lemma_first_char("Finished in"@, line);
    }
}

proof fn lemma_four_read(
    s: SummaryView,
    p1: Seq<char>,
    p2: Seq<char>,
    p3: Seq<char>,
    p4: Seq<char>,
)
    requires
        trimmed(p1) == p1,
        trimmed(seq![' '] + p2) == p2,
        trimmed(seq![' '] + p3) == p3,
        trimmed(seq![' '] + p4) == p4,
    ensures
        read_parts(s, seq![p1, seq![' '] + p2, seq![' '] + p3, seq![' '] + p4]) == read_part(
            read_part(read_part(read_part(s, p1), p2), p3),
            p4,
        ),
{
    let sp = seq![' '];
    let s0 = Seq::<Seq<char>>::empty();
    let s1 = s0.push(p1);
    let s2 = s1.push(sp + p2);
    let s3 = s2.push(sp + p3);
    let s4 = s3.push(sp + p4);
    assert(s1.drop_last() =~= s0);
    assert(s2.drop_last() =~= s1);
    assert(s3.drop_last() =~= s2);
    assert(s4.drop_last() =~= s3);
    assert(read_parts(s, s0) == s);
    assert(read_parts(s, s1) == read_part(s, p1));
    assert(read_parts(s, s2) == read_part(read_parts(s, s1), p2));
    assert(read_parts(s, s3) == read_part(read_parts(s, s2), p3));
    assert(read_parts(s, s4) == read_part(read_parts(s, s3), p4));
    assert(s4 =~= seq![p1, sp + p2, sp + p3, sp + p4]);
}

proof fn lemma_line_has(p1: Seq<char>, p2: Seq<char>, p3: Seq<char>, p4: Seq<char>)
    requires
        has_text(p1, "example"@),
        has_text(p2, "failure"@),
    ensures
        has_text(p1 + ", "@ + p2 + ", "@ + p3 + ", "@ + p4, "example"@),
        has_text(p1 + ", "@ + p2 + ", "@ + p3 + ", "@ + p4, "failure"@),
{
    let line = p1 + ", "@ + p2 + ", "@ + p3 + ", "@ + p4;
    let tail = ", "@ + p3 + ", "@ + p4;
    assert(line =~= p1 + (", "@ + p2 + tail));
    lemma_has_more(p1, ", "@ + p2 + tail, "example"@);
    assert(line =~= (p1 + ", "@) + (p2 + tail));
    lemma_has_more(p2, tail, "failure"@);
    lemma_has_behind(p1 + ", "@, p2 + tail, "failure"@);
}

proof fn lemma_words()
    ensures
        forall|i: int| 0 <= i < "examples"@.len() ==> 'a' <= #[trigger] "examples"@[i] <= 'z',
        forall|i: int| 0 <= i < "failures"@.len() ==> 'a' <= #[trigger] "failures"@[i] <= 'z',
        forall|i: int| 0 <= i < "errors"@.len() ==> 'a' <= #[trigger] "errors"@[i] <= 'z',
        forall|i: int| 0 <= i < "pending"@.len() ==> 'a' <= #[trigger] "pending"@[i] <= 'z',
        "examples"@.len() > 0,
        "failures"@.len() > 0,
        "errors"@.len() > 0,
        "pending"@.len() > 0,
{
    reveal_strlit("examples");
    reveal_strlit("failures");
    reveal_strlit("errors");
    reveal_strlit("pending");
}

proof fn lemma_has_behind(front: Seq<char>, s: Seq<char>, p: Seq<char>)
    requires
        has_text(s, p),
    ensures
        has_text(front + s, p),
{
    let i = choose|i: int| occurs_at(s, p, i);
    let k = front.len() + i;
    assert((front + s).subrange(k, k + p.len()) =~= s.subrange(i, i + p.len()));
    assert(occurs_at(front + s, p, k));
}

proof fn lemma_no_comma(p: Seq<char>)
    requires
        !p.contains(','),
    ensures
        !(seq![' '] + p).contains(','),
{
    let s = seq![' '] + p;
    if s.contains(',') {
        let i = choose|i: int| 0 <= i < s.len() && s[i] == ',';
        assert(p[i - 1] == ',');
    }
}

/// The duration of a run is what follows `Finished in`.
pub proof fn lemma_duration_is_read(s: SummaryView, d: Seq<char>)
    requires
        !has_text("Finished in"@ + " "@ + d, "example"@),
    ensures
        read_summary_line(s, "Finished in"@ + " "@ + d) == (SummaryView { duration: trimmed(d), ..s }),
{
    reveal_strlit("Finished in");
    reveal_strlit(" ");
    let tail = " "@ + d;
    assert("Finished in"@ + " "@ + d =~= "Finished in"@ + tail);
    lemma_one_prefix("Finished in"@, tail);
    lemma_trim_leading_space(d);
}

proof fn lemma_silent_summary(lines: Seq<Seq<char>>, more: Seq<Seq<char>>)
    requires
        forall|i: int|
            0 <= i < more.len() ==> !"Finished in"@.is_prefix_of(#[trigger] more[i]) && !has_text(
                more[i],
                "example"@,
            ),
    ensures
        summary(lines + more) == summary(lines),
    decreases more.len(),
{
    let all = lines + more;
    if more.len() == 0 {
        assert(all =~= lines);
    } else {
        let front = more.drop_last();
        assert(all.drop_last() =~= lines + front);
        assert(forall|i: int| 0 <= i < front.len() ==> #[trigger] front[i] == more[i]);
        lemma_silent_summary(lines, front);
        assert(all.last() == more[more.len() - 1]);
    }
}

/// Lines behind the last line of the summary leave it as it is, unless they name examples or a
/// duration.
pub proof fn lemma_summary_stays(output: Seq<char>, lines: Seq<Seq<char>>, more: Seq<Seq<char>>)
    requires
        report_lines(output) == lines + more,
        lines.len() > 0,
        forall|i: int|
            0 <= i < more.len() ==> !"Finished in"@.is_prefix_of(#[trigger] more[i]) && !has_text(
                more[i],
                "example"@,
            ),
    ensures
        report(output).summary == read_summary_line(summary(lines.drop_last()), lines.last()),
{
    lemma_silent_summary(lines, more);
}

// ---------------------------------------------------------------------------
// Annotations
// ---------------------------------------------------------------------------

proof fn lemma_joined_has(pieces: Seq<Seq<char>>, sep: Seq<char>, i: int)
    requires
        0 <= i < pieces.len(),
    ensures
        has_text(joined(pieces, sep), pieces[i]),
    decreases pieces.len(),
{
    let none = Seq::<char>::empty();
    if pieces.len() == 1 {
        assert(pieces[0] =~= none + pieces[0] + none);
        lemma_has_middle(none, pieces[0], none);
    } else {
        let front = joined(pieces.drop_last(), sep);
        let all = joined(pieces, sep);
        if i < pieces.len() - 1 {
            lemma_joined_has(pieces.drop_last(), sep, i);
            lemma_has_more(front, sep + pieces.last(), pieces[i]);
            assert(all =~= front + (sep + pieces.last()));
        } else {
            assert(all =~= (front + sep) + pieces.last() + none);
            lemma_has_middle(front + sep, pieces.last(), none);
        }
    }
}

proof fn lemma_has_more(s: Seq<char>, more: Seq<char>, p: Seq<char>)
    requires
        has_text(s, p),
    ensures
        has_text(s + more, p),
{
    let i = choose|i: int| occurs_at(s, p, i);
    assert((s + more).subrange(i, i + p.len()) =~= s.subrange(i, i + p.len()));
    assert(occurs_at(s + more, p, i));
}

/// Every failure with a known place is shown: where it is, what it is, what was expected and what
/// came.
pub proof fn lemma_failure_is_shown(r: ResultView, i: int)
    requires
        0 <= i < r.failures.len(),
        r.failures[i].file.len() > 0,
        r.failures[i].line > 0,
        r.failures[i].expected.len() > 0,
    ensures
        ({
            let f = r.failures[i];
            has_text(
                annotations(r),
                f.file + ":"@ + decimal(f.line as nat) + " | FAIL: "@ + f.description + "\n"@ + (
                "  Expected: "@ + f.expected + "\n       Got: "@ + f.actual + "\n"@),
            )
        }),
{
    let pieces = r.failures.map_values(|f: FailureView| annotation(f));
    lemma_joined_has(pieces, "\n"@, i);
    lemma_has_more(
        joined(pieces, "\n"@),
        crate::spec_runner::annotation_summary(r.summary),
        pieces[i],
    );
}

/// A failure whose place is not known is shown without one, and one that expects nothing with its
/// message.
pub proof fn lemma_annotation_forms(f: FailureView)
    ensures
        f.file.len() == 0 || f.line == 0 ==> ("FAIL: "@ + f.description + "\n"@).is_prefix_of(
            annotation(f),
        ),
        f.expected.len() == 0 && f.actual.len() == 0 ==> annotation(f) == annotation_heading(f)
            + crate::spec_runner::indented(crate::text::text_lines(f.raw_message)),
        f.actual.len() > 0 ==> has_text(annotation(f), "\n       Got: "@ + f.actual + "\n"@),
{
    let start = "FAIL: "@ + f.description + "\n"@;
    if f.file.len() == 0 || f.line == 0 {
        assert(annotation(f).take(start.len() as int) =~= start);
    }
    let got = "\n       Got: "@ + f.actual + "\n"@;
    if f.actual.len() > 0 {
        let none = Seq::<char>::empty();
        let front = annotation_heading(f) + ("  Expected: "@ + f.expected);
        assert(annotation(f) =~= front + got + none);
        lemma_has_middle(front, got, none);
    }
}

/// The lines of a message are shown indented by two spaces, each on its own line.
pub proof fn lemma_indented(lines: Seq<Seq<char>>, line: Seq<char>)
    ensures
        crate::spec_runner::indented(lines.push(line)) == crate::spec_runner::indented(lines)
            + "  "@ + line + "\n"@,
        crate::spec_runner::indented(Seq::empty()).len() == 0,
{
    assert(lines.push(line).drop_last() =~= lines);
}

/// The annotations of a run with failures end with its counts: errors and pending examples only where
/// there are any, and the duration where it is known.
pub proof fn lemma_counts_are_shown(s: SummaryView)
    ensures
        ({
            let text = crate::spec_runner::annotation_summary(s);
            let start = "\n"@ + decimal(s.total as nat) + " examples, "@ + decimal(s.failed as nat)
                + " failures"@;
            &&& start.is_prefix_of(text)
            &&& s.errored == 0 && s.pending == 0 && s.duration.len() == 0 ==> text == start
            &&& s.errored > 0 ==> has_text(text, ", "@ + decimal(s.errored as nat) + " errors"@)
            &&& s.pending > 0 ==> has_text(text, ", "@ + decimal(s.pending as nat) + " pending"@)
            &&& s.duration.len() > 0 ==> has_text(text, " ("@ + s.duration + ")"@)
        }),
{
    let none = Seq::<char>::empty();
    let start = "\n"@ + decimal(s.total as nat) + " examples, "@ + decimal(s.failed as nat)
        + " failures"@;
    let errors = crate::spec_runner::counted(s.errored, " errors"@);
    let pending = crate::spec_runner::counted(s.pending, " pending"@);
    let time = if s.duration.len() > 0 {
        " ("@ + s.duration + ")"@
    } else {
        none
    };
    let text = crate::spec_runner::annotation_summary(s);
    assert(text =~= start + errors + pending + time);
    assert(text.take(start.len() as int) =~= start);
    assert(text =~= start + errors + (pending + time));
    lemma_has_middle(start, errors, pending + time);
    assert(text =~= (start + errors) + pending + time);
    lemma_has_middle(start + errors, pending, time);
    assert(text =~= (start + errors + pending) + time + none);
    lemma_has_middle(start + errors + pending, time, none);
    if s.errored == 0 && s.pending == 0 && s.duration.len() == 0 {
        assert(text =~= start);
    }
}

/// A run without failures is shown as passed, with the number of its examples.
pub proof fn lemma_passed_is_shown(r: ResultView)
    requires
        r.failures.len() == 0,
    ensures
        ("All specs passed ("@ + decimal(r.summary.total as nat) + " examples"@).is_prefix_of(
            annotations(r),
        ),
{
    let start = "All specs passed ("@ + decimal(r.summary.total as nat) + " examples"@;
    assert(annotations(r).take(start.len() as int) =~= start);
}

} // verus!
