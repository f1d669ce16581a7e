//! Reading the report of `crystal spec --no-color` and turning it into inline annotations.

use vstd::prelude::*;
use vstd::slice::slice_subrange;

use crate::text::{
    contains_char, contains_text, drop_leading, drop_prefixes, find_last, find_text,
    is_text, join, leading_word, lines, parse_u32, push_decimal, split, starts_with_text,
    string_of, trim,
};
use crate::text::{
    ascii_digit, decimal, first_occurrence, first_word, has_text, joined, last_index, parsed_u32,
    split_on, text_lines, texts, trimmed, views, without_leading, without_prefixes,
};

verus! {

/// A failure in a spec report.
#[derive(Debug)]
pub struct SpecFailure {
    pub description: String,
    pub file: String,
    pub line: u32,
    pub expected: String,
    pub actual: String,
    pub raw_message: String,
}

/// Summary of a spec run.
#[derive(Debug)]
pub struct SpecResult {
    pub failures: Vec<SpecFailure>,
    pub total: u32,
    pub failed: u32,
    pub errored: u32,
    pub pending: u32,
    pub duration: String,
}

/// What a [`SpecFailure`] says.
pub struct FailureView {
    pub description: Seq<char>,
    pub file: Seq<char>,
    pub line: u32,
    pub expected: Seq<char>,
    pub actual: Seq<char>,
    pub raw_message: Seq<char>,
}

/// What a [`SpecResult`] says.
#[verifier::ext_equal]
pub struct ResultView {
    pub failures: Seq<FailureView>,
    pub summary: SummaryView,
}

/// The counts and the duration of a run.
pub struct SummaryView {
    pub total: u32,
    pub failed: u32,
    pub errored: u32,
    pub pending: u32,
    pub duration: Seq<char>,
}

impl View for SpecFailure {
    type V = FailureView;

    open spec fn view(&self) -> FailureView {
        FailureView {
            description: self.description@,
            file: self.file@,
            line: self.line,
            expected: self.expected@,
            actual: self.actual@,
            raw_message: self.raw_message@,
        }
    }
}

impl View for SpecResult {
    type V = ResultView;

    open spec fn view(&self) -> ResultView {
        ResultView {
            failures: failure_views(self.failures@),
            summary: SummaryView {
                total: self.total,
                failed: self.failed,
                errored: self.errored,
                pending: self.pending,
                duration: self.duration@,
            },
        }
    }
}

pub open spec fn failure_views(failures: Seq<SpecFailure>) -> Seq<FailureView> {
    Seq::new(failures.len(), |i: int| failures[i]@)
}

// ---------------------------------------------------------------------------
// The shape of a report
// ---------------------------------------------------------------------------

/// The lines of a report without the white space around them.
pub open spec fn report_lines(output: Seq<char>) -> Seq<Seq<char>> {
    text_lines(output).map_values(|l: Seq<char>| trimmed(l))
}

/// Whether a line opens a numbered failure, as in `1) description`.
pub open spec fn failure_header(line: Seq<char>) -> bool {
    line.len() > 0 && ascii_digit(line[0]) && has_text(line, ") "@)
}

/// Whether a line ends the block of a failure.
pub open spec fn ends_block(line: Seq<char>) -> bool {
    failure_header(line) || "Finished in"@.is_prefix_of(line)
}

/// How many lines stand before the first one that ends a block.
pub open spec fn block_len(lines: Seq<Seq<char>>) -> nat
    decreases lines.len(),
{
    if lines.len() == 0 || ends_block(lines[0]) {
        0
    } else {
        1 + block_len(lines.skip(1))
    }
}

/// A block is no longer than what is left of the report.
pub proof fn lemma_block_len(lines: Seq<Seq<char>>)
    ensures
        block_len(lines) <= lines.len(),
    decreases lines.len(),
{
    if lines.len() > 0 && !ends_block(lines[0]) {
        lemma_block_len(lines.skip(1));
    }
}

/// What follows the first closing parenthesis of a header.
pub open spec fn header_description(line: Seq<char>) -> Seq<char> {
    match first_occurrence(line, ")"@) {
        Some(i) => trimmed(line.skip(i + 1)),
        None => Seq::empty(),
    }
}

/// What the lines of a block have said so far.
pub struct BlockView {
    pub expected: Seq<char>,
    pub actual: Seq<char>,
    pub file: Seq<char>,
    pub line: u32,
    pub raw: Seq<Seq<char>>,
}

pub open spec fn empty_block() -> BlockView {
    BlockView {
        expected: Seq::empty(),
        actual: Seq::empty(),
        file: Seq::empty(),
        line: 0,
        raw: Seq::empty(),
    }
}

/// What a line that starts with `#` says about the place of a failure.
pub open spec fn location_text(line: Seq<char>) -> Seq<char> {
    trimmed(without_leading(line, '#'))
}

/// The number in `s`, or zero where there is none.
pub open spec fn number_or_zero(s: Seq<char>) -> u32 {
    match parsed_u32(s) {
        Some(n) => n,
        None => 0,
    }
}

/// Reads one more line of a block. A later line of the same kind replaces an earlier one; lines of
/// no known kind are collected.
pub open spec fn read_block_line(b: BlockView, line: Seq<char>) -> BlockView {
    if "Expected:"@.is_prefix_of(line) {
        BlockView { expected: trimmed(without_prefixes(line, "Expected:"@)), ..b }
    } else if "Got:"@.is_prefix_of(line) || "got:"@.is_prefix_of(line) {
        BlockView {
            actual: trimmed(without_prefixes(without_prefixes(line, "Got:"@), "got:"@)),
            ..b
        }
    } else if line.len() > 0 && line[0] == '#' && line.contains(':') {
        match last_index(location_text(line), ':') {
            Some(i) => BlockView {
                file: location_text(line).take(i),
                line: number_or_zero(location_text(line).skip(i + 1)),
                ..b
            },
            None => b,
        }
    } else if line.len() > 0 && !"Failure/Error:"@.is_prefix_of(line) {
        BlockView { raw: b.raw.push(line), ..b }
    } else {
        b
    }
}

/// What the lines of a block say.
pub open spec fn block_facts(block: Seq<Seq<char>>) -> BlockView
    decreases block.len(),
{
    if block.len() == 0 {
        empty_block()
    } else {
        read_block_line(block_facts(block.drop_last()), block.last())
    }
}

/// The message of a failure: the expectation and the value, or the unclassified lines.
pub open spec fn block_message(b: BlockView) -> Seq<char> {
    if b.expected.len() == 0 && b.actual.len() == 0 {
        joined(b.raw, "\n"@)
    } else {
        "Expected: "@ + b.expected + "\n     Got: "@ + b.actual
    }
}

/// The failure that a header and its block describe.
pub open spec fn block_failure(header: Seq<char>, block: Seq<Seq<char>>) -> FailureView {
    let b = block_facts(block);
    FailureView {
        description: header_description(header),
        file: b.file,
        line: b.line,
        expected: b.expected,
        actual: b.actual,
        raw_message: block_message(b),
    }
}

/// The failures that the lines of the failure section describe.
pub open spec fn section_failures(lines: Seq<Seq<char>>) -> Seq<FailureView>
    decreases lines.len(),
{
    if lines.len() == 0 {
        Seq::empty()
    } else if failure_header(lines[0]) {
        let rest = lines.skip(1);
        let n = block_len(rest) as int;
        proof {
            lemma_block_len(rest);
        }
        seq![block_failure(lines[0], rest.take(n))] + section_failures(rest.skip(n))
    } else {
        section_failures(lines.skip(1))
    }
}

/// The lines that follow the first line `Failures:`.
pub open spec fn failure_section(lines: Seq<Seq<char>>) -> Seq<Seq<char>>
    decreases lines.len(),
{
    if lines.len() == 0 {
        lines
    } else if lines[0] == "Failures:"@ {
        lines.skip(1)
    } else {
        failure_section(lines.skip(1))
    }
}

/// The number at the start of a part of the summary line.
pub open spec fn leading_number(s: Seq<char>) -> u32 {
    number_or_zero(first_word(trimmed(s)))
}

pub open spec fn empty_summary() -> SummaryView {
    SummaryView { total: 0, failed: 0, errored: 0, pending: 0, duration: Seq::empty() }
}

/// Reads one part of the summary line, as `5 examples`.
pub open spec fn read_part(s: SummaryView, part: Seq<char>) -> SummaryView {
    if has_text(part, "example"@) {
        SummaryView { total: leading_number(part), ..s }
    } else if has_text(part, "failure"@) {
        SummaryView { failed: leading_number(part), ..s }
    } else if has_text(part, "error"@) {
        SummaryView { errored: leading_number(part), ..s }
    } else if has_text(part, "pending"@) {
        SummaryView { pending: leading_number(part), ..s }
    } else {
        s
    }
}

/// Reads the parts of a summary line from left to right.
pub open spec fn read_parts(s: SummaryView, parts: Seq<Seq<char>>) -> SummaryView
    decreases parts.len(),
{
    if parts.len() == 0 {
        s
    } else {
        read_part(read_parts(s, parts.drop_last()), trimmed(parts.last()))
    }
}

/// What a line says of the run's duration.
pub open spec fn read_duration(s: SummaryView, line: Seq<char>) -> SummaryView {
    if "Finished in"@.is_prefix_of(line) {
        SummaryView { duration: trimmed(without_prefixes(line, "Finished in"@)), ..s }
    } else {
        s
    }
}

/// What a line of the report adds to the summary.
pub open spec fn read_summary_line(s: SummaryView, line: Seq<char>) -> SummaryView {
    let t = read_duration(s, line);
    if has_text(line, "example"@) && has_text(line, "failure"@) {
        read_parts(t, split_on(line, ','))
    } else {
        t
    }
}

/// What the lines of the report say of the run as a whole.
pub open spec fn summary(lines: Seq<Seq<char>>) -> SummaryView
    decreases lines.len(),
{
    if lines.len() == 0 {
        empty_summary()
    } else {
        read_summary_line(summary(lines.drop_last()), lines.last())
    }
}

/// What a report says.
pub open spec fn report(output: Seq<char>) -> ResultView {
    let lines = report_lines(output);
    ResultView {
        failures: section_failures(failure_section(lines)),
        summary: summary(lines),
    }
}

/// How many of the lines open a numbered failure.
pub open spec fn header_count(lines: Seq<Seq<char>>) -> nat
    decreases lines.len(),
{
    if lines.len() == 0 {
        0
    } else {
        (if failure_header(lines[0]) {
            1nat
        } else {
            0
        }) + header_count(lines.skip(1))
    }
}

proof fn lemma_block_has_no_header(lines: Seq<Seq<char>>)
    ensures
        header_count(lines.skip(block_len(lines) as int)) == header_count(lines),
    decreases lines.len(),
{
    if lines.len() == 0 || ends_block(lines[0]) {
        assert(lines.skip(0) =~= lines);
    } else {
        let rest = lines.skip(1);
        lemma_block_has_no_header(rest);
        lemma_block_len(rest);
        assert(lines.skip(block_len(lines) as int) =~= rest.skip(block_len(rest) as int));
    }
}

/// Every numbered header of the failure section makes one failure, and nothing else does.
pub proof fn lemma_one_failure_per_header(lines: Seq<Seq<char>>)
    ensures
        section_failures(lines).len() == header_count(lines),
    decreases lines.len(),
{
    if lines.len() > 0 {
        let rest = lines.skip(1);
        if failure_header(lines[0]) {
            let n = block_len(rest) as int;
            lemma_block_len(rest);
            lemma_block_has_no_header(rest);
            lemma_one_failure_per_header(rest.skip(n));
        } else {
            lemma_one_failure_per_header(rest);
        }
    }
}

proof fn lemma_no_section(lines: Seq<Seq<char>>)
    requires
        forall|i: int| 0 <= i < lines.len() ==> #[trigger] lines[i] != "Failures:"@,
    ensures
        failure_section(lines).len() == 0,
    decreases lines.len(),
{
    if lines.len() > 0 {
        let rest = lines.skip(1);
        assert forall|i: int| 0 <= i < rest.len() implies #[trigger] rest[i] != "Failures:"@ by {
            assert(rest[i] == lines[i + 1]);
        }
        lemma_no_section(rest);
    }
}

/// A report without a line `Failures:` has no failures, and is shown as passed.
pub proof fn lemma_passes_without_section(output: Seq<char>)
    requires
        forall|i: int|
            0 <= i < report_lines(output).len() ==> #[trigger] report_lines(output)[i]
                != "Failures:"@,
    ensures
        report(output).failures.len() == 0,
        annotations(report(output)) == passed_text(report(output).summary),
{
    lemma_no_section(report_lines(output));
}

// ---------------------------------------------------------------------------
// Reading
// ---------------------------------------------------------------------------

/// Whether a line opens a numbered failure.
pub fn is_failure_header(line: &[char]) -> (r: bool)
    ensures
        r == failure_header(line@),
{
    if line.len() == 0 {
        return false;
    }
    if !('0' <= line[0] && line[0] <= '9') {
        return false;
    }
    contains_text(line, ") ")
}

/// The description in a failure's header.
fn read_description(line: &[char]) -> (r: String)
    ensures
        r@ == header_description(line@),
{
    proof {
        reveal_strlit(")");
    }
    match find_text(line, ")") {
        Some(i) => {
            let n: usize = line.len();
            let rest = slice_subrange(line, i + 1, n);
            assert(rest@ =~= line@.skip(i + 1));
            string_of(trim(rest))
        },
        None => String::new(),
    }
}

/// What has been read of a failure's block.
struct Block {
    expected: String,
    actual: String,
    file: String,
    line: u32,
    raw: Vec<String>,
}

impl View for Block {
    type V = BlockView;

    closed spec fn view(&self) -> BlockView {
        BlockView {
            expected: self.expected@,
            actual: self.actual@,
            file: self.file@,
            line: self.line,
            raw: texts(self.raw@),
        }
    }
}

/// Reads one more line of a block.
fn read_line(block: &mut Block, inner: &[char])
    ensures
        final(block)@ == read_block_line(old(block)@, inner@),
{
    if starts_with_text(inner, "Expected:") {
        block.expected = string_of(trim(drop_prefixes(inner, "Expected:")));
    } else if starts_with_text(inner, "Got:") || starts_with_text(inner, "got:") {
        block.actual = string_of(trim(drop_prefixes(drop_prefixes(inner, "Got:"), "got:")));
    } else if inner.len() > 0 && inner[0] == '#' && contains_char(inner, ':') {
        let location = trim(drop_leading(inner, '#'));
        if let Some(i) = find_last(location, ':') {
            let before = slice_subrange(location, 0, i);
            assert(before@ =~= location@.take(i as int));
            let n: usize = location.len();
            let after = slice_subrange(location, i + 1, n);
            assert(after@ =~= location@.skip(i + 1));
            block.file = string_of(before);
            block.line = match parse_u32(after) {
                Some(n) => n,
                None => 0,
            };
        }
    } else if inner.len() > 0 && !starts_with_text(inner, "Failure/Error:") {
        let ghost raw = texts(block.raw@);
        block.raw.push(string_of(inner));
        assert(texts(block.raw@) =~= raw.push(inner@));
    }
}

/// Reads the block that starts at `start`, up to the line that ends it.
fn read_block(all: &Vec<Vec<char>>, start: usize) -> (r: (Block, usize))
    requires
        start <= all@.len(),
    ensures
        start <= r.1 <= all@.len(),
        r.1 - start == block_len(views(all@).skip(start as int)),
        r.0@ == block_facts(views(all@).skip(start as int).take(r.1 - start)),
{
    let mut block = Block {
        expected: String::new(),
        actual: String::new(),
        file: String::new(),
        line: 0,
        raw: Vec::new(),
    };
    assert(texts(block.raw@) =~= Seq::empty());
    let mut i: usize = start;
    let ghost body = views(all@).skip(start as int);
    assert(body.take(0) =~= Seq::empty());
    assert(body.skip(0) =~= body);
    while i < all.len()
        invariant
            start <= i <= all@.len(),
            body == views(all@).skip(start as int),
            block@ == block_facts(body.take(i - start)),
            block_len(body) == (i - start) + block_len(body.skip(i - start)),
        decreases all@.len() - i,
    {
        let inner: &[char] = &all[i];
        assert(body.skip(i - start)[0] == inner@);
        if is_failure_header(inner) || starts_with_text(inner, "Finished in") {
            return (block, i);
        }
        read_line(&mut block, inner);
        assert(body.take(i + 1 - start).drop_last() =~= body.take(i - start));
        assert(body.take(i + 1 - start).last() == inner@);
        assert(body.skip(i - start).skip(1) =~= body.skip(i + 1 - start));
        i = i + 1;
    }
    (block, i)
}

/// The message of a failure.
fn read_message(block: &Block) -> (r: String)
    ensures
        r@ == block_message(block@),
{
    if block.expected.as_str().is_empty() && block.actual.as_str().is_empty() {
        join(&block.raw, "\n")
    } else {
        let mut out = String::from_str("Expected: ");
        out.append(&block.expected);
        out.append("\n     Got: ");
        out.append(&block.actual);
        out
    }
}

/// Removes the white space around each line.
fn trim_lines(all: &Vec<Vec<char>>) -> (r: Vec<Vec<char>>)
    ensures
        views(r@) == views(all@).map_values(|l: Seq<char>| trimmed(l)),
{
    let mut out: Vec<Vec<char>> = Vec::new();
    let mut i: usize = 0;
    while i < all.len()
        invariant
            i <= all@.len(),
            out@.len() == i,
            forall|k: int| 0 <= k < i ==> (#[trigger] out@[k])@ == trimmed(all@[k]@),
        decreases all@.len() - i,
    {
        let line = crate::text::vec_of(trim(&all[i]));
        out.push(line);
        i = i + 1;
    }
    assert(views(out@) =~= views(all@).map_values(|l: Seq<char>| trimmed(l)));
    out
}

/// Parses the text output of `crystal spec --no-color`.
///
/// Expected format:
/// ```text
/// Failures:
///
///   1) ClassName#method should do something
///      Failure/Error: ...
///
///        Expected: "foo"
///             Got: "bar"
///
///      # spec/foo_spec.cr:15
/// ```
pub fn parse_spec_output(output: &str) -> (r: SpecResult)
    ensures
        r@ == report(output@),
{
    let raw_lines = lines(output);
    let all = trim_lines(&raw_lines);
    let ghost rows = report_lines(output@);
    assert(views(all@) == rows);
    let mut failures: Vec<SpecFailure> = Vec::new();

    let mut i: usize = 0;
    assert(rows.skip(0) =~= rows);
    while i < all.len() && !is_text(&all[i], "Failures:")
        invariant
            i <= all@.len(),
            rows == views(all@),
            failure_section(rows) == failure_section(rows.skip(i as int)),
        decreases all@.len() - i,
    {
        assert(rows.skip(i as int).skip(1) =~= rows.skip(i + 1));
        i = i + 1;
    }
    if i < all.len() {
        assert(rows.skip(i as int)[0] == all@[i as int]@);
        assert(rows.skip(i as int).skip(1) =~= rows.skip(i + 1));
        i = i + 1;
    }
    assert(failure_section(rows) =~= rows.skip(i as int));
    assert(failure_views(failures@) + section_failures(rows.skip(i as int)) =~= section_failures(
        rows.skip(i as int),
    ));
    while i < all.len()
        invariant
            i <= all@.len(),
            rows == views(all@),
            section_failures(failure_section(rows)) == failure_views(failures@)
                + section_failures(rows.skip(i as int)),
        decreases all@.len() - i,
    {
        let ghost rest = rows.skip(i as int);
        assert(rest[0] == all@[i as int]@);
        assert(rest.skip(1) =~= rows.skip(i + 1));
        if is_failure_header(&all[i]) {
            let description = read_description(&all[i]);
            let start: usize = i + 1;
            let (block, end) = read_block(&all, start);
            i = end;
            let ghost body = rows.skip(start as int);
            assert(body.skip(end - start) =~= rows.skip(end as int));
            let raw_message = read_message(&block);
            let ghost before = failure_views(failures@);
            let failure = SpecFailure {
                description,
                file: block.file,
                line: block.line,
                expected: block.expected,
                actual: block.actual,
                raw_message,
            };
            let ghost made = failure@;
            assert(made == block_failure(rest[0], body.take(i - start)));
            failures.push(failure);
            assert(failure_views(failures@) =~= before.push(made));
            assert(before + (seq![made] + section_failures(rows.skip(i as int)))
                =~= failure_views(failures@) + section_failures(rows.skip(i as int)));
        } else {
            i = i + 1;
        }
    }
    assert(rows.skip(i as int).len() == 0);
    assert(failure_views(failures@) + Seq::<FailureView>::empty() =~= failure_views(failures@));

    let (total, failed, errored, pending, duration) = parse_summary(&raw_lines);
    SpecResult { failures, total, failed, errored, pending, duration }
}

/// Parses the summary lines: `Finished in 1.2 seconds` and
/// `5 examples, 2 failures, 1 error, 1 pending`.
pub fn parse_summary(all: &Vec<Vec<char>>) -> (r: (u32, u32, u32, u32, String))
    ensures
        (SummaryView { total: r.0, failed: r.1, errored: r.2, pending: r.3, duration: r.4@ })
            == summary(views(all@).map_values(|l: Seq<char>| trimmed(l))),
{
    let mut total: u32 = 0;
    let mut failed: u32 = 0;
    let mut errored: u32 = 0;
    let mut pending: u32 = 0;
    let mut duration = String::new();
    let ghost rows = views(all@).map_values(|l: Seq<char>| trimmed(l));
    let mut i: usize = 0;
    assert(rows.take(0) =~= Seq::empty());
    while i < all.len()
        invariant
            i <= all@.len(),
            rows == views(all@).map_values(|l: Seq<char>| trimmed(l)),
            (SummaryView { total, failed, errored, pending, duration: duration@ }) == summary(
                rows.take(i as int),
            ),
        decreases all@.len() - i,
    {
        let line = trim(&all[i]);
        assert(line@ == rows[i as int]);
        assert(rows.take(i + 1).drop_last() =~= rows.take(i as int));
        let ghost before = SummaryView { total, failed, errored, pending, duration: duration@ };
        if starts_with_text(line, "Finished in") {
            duration = string_of(trim(drop_prefixes(line, "Finished in")));
        }
        let ghost timed = SummaryView { total, failed, errored, pending, duration: duration@ };
        assert(timed == read_duration(before, line@));
        if contains_text(line, "example") && contains_text(line, "failure") {
            let parts = split(line, ',');
            let ghost pieces = views(parts@);
            let mut k: usize = 0;
            assert(pieces.take(0) =~= Seq::empty());
            while k < parts.len()
                invariant
                    k <= parts@.len(),
                    pieces == views(parts@),
                    (SummaryView { total, failed, errored, pending, duration: duration@ })
                        == read_parts(timed, pieces.take(k as int)),
                decreases parts@.len() - k,
            {
                let part = trim(&parts[k]);
                assert(pieces.take(k + 1).drop_last() =~= pieces.take(k as int));
                assert(pieces.take(k + 1).last() == parts@[k as int]@);
                if contains_text(part, "example") {
                    total = extract_leading_number(part);
                } else if contains_text(part, "failure") {
                    failed = extract_leading_number(part);
                } else if contains_text(part, "error") {
                    errored = extract_leading_number(part);
                } else if contains_text(part, "pending") {
                    pending = extract_leading_number(part);
                }
                k = k + 1;
            }
            assert(pieces.take(k as int) =~= pieces);
        }
        i = i + 1;
    }
    assert(rows.take(i as int) =~= rows);
    (total, failed, errored, pending, duration)
}

/// The number at the start of a part of the summary line, or zero.
pub fn extract_leading_number(s: &[char]) -> (r: u32)
    ensures
        r == leading_number(s@),
{
    match parse_u32(leading_word(trim(s))) {
        Some(n) => n,
        None => 0,
    }
}

// ---------------------------------------------------------------------------
// Formatting
// ---------------------------------------------------------------------------

/// The heading of an annotation: where the failure is, if known, and what failed.
pub open spec fn annotation_heading(f: FailureView) -> Seq<char> {
    if f.file.len() > 0 && f.line > 0 {
        f.file + ":"@ + decimal(f.line as nat) + " | FAIL: "@ + f.description + "\n"@
    } else {
        "FAIL: "@ + f.description + "\n"@
    }
}

/// Each line indented and ended.
pub open spec fn indented(lines: Seq<Seq<char>>) -> Seq<char>
    decreases lines.len(),
{
    if lines.len() == 0 {
        Seq::empty()
    } else {
        indented(lines.drop_last()) + "  "@ + lines.last() + "\n"@
    }
}

/// What an annotation says under its heading.
pub open spec fn annotation_body(f: FailureView) -> Seq<char> {
    if f.expected.len() > 0 || f.actual.len() > 0 {
        "  Expected: "@ + f.expected + "\n       Got: "@ + f.actual + "\n"@
    } else {
        indented(text_lines(f.raw_message))
    }
}

/// The annotation of one failure.
pub open spec fn annotation(f: FailureView) -> Seq<char> {
    annotation_heading(f) + annotation_body(f)
}

/// The line that closes the annotations of a run with failures.
pub open spec fn annotation_summary(s: SummaryView) -> Seq<char> {
    "\n"@ + decimal(s.total as nat) + " examples, "@ + decimal(s.failed as nat) + " failures"@
        + counted(s.errored, " errors"@) + counted(s.pending, " pending"@)
        + (if s.duration.len() > 0 {
        " ("@ + s.duration + ")"@
    } else {
        Seq::empty()
    })
}

/// A count that is left out where it is zero.
pub open spec fn counted(n: u32, what: Seq<char>) -> Seq<char> {
    if n > 0 {
        ", "@ + decimal(n as nat) + what
    } else {
        Seq::empty()
    }
}

/// What is shown for a run without failures.
pub open spec fn passed_text(s: SummaryView) -> Seq<char> {
    "All specs passed ("@ + decimal(s.total as nat) + " examples"@ + (if s.duration.len() > 0 {
        ", "@ + s.duration
    } else {
        Seq::empty()
    }) + ")"@
}

/// What is shown for a run.
pub open spec fn annotations(r: ResultView) -> Seq<char> {
    if r.failures.len() == 0 {
        passed_text(r.summary)
    } else {
        joined(r.failures.map_values(|f: FailureView| annotation(f)), "\n"@) + annotation_summary(
            r.summary,
        )
    }
}

/// A count, left out where it is zero.
fn count_text(n: u32, what: &str) -> (r: String)
    ensures
        r@ == counted(n, what@),
{
    let mut out = String::new();
    if n > 0 {
        out = String::from_str(", ");
        push_decimal(&mut out, n as u64);
        out.append(what);
    }
    out
}

/// The annotation of one failure.
fn failure_text(f: &SpecFailure) -> (r: String)
    ensures
        r@ == annotation(f@),
{
    let mut text = String::new();
    if !f.file.as_str().is_empty() && f.line > 0 {
        text = f.file.clone();
        text.append(":");
        push_decimal(&mut text, f.line as u64);
        text.append(" | FAIL: ");
        text.append(&f.description);
        text.append("\n");
    } else {
        text = String::from_str("FAIL: ");
        text.append(&f.description);
        text.append("\n");
    }
    assert(text@ == annotation_heading(f@));
    let mut body = String::new();
    if !f.expected.as_str().is_empty() || !f.actual.as_str().is_empty() {
        body = String::from_str("  Expected: ");
        body.append(&f.expected);
        body.append("\n       Got: ");
        body.append(&f.actual);
        body.append("\n");
    } else {
        let rows = lines(&f.raw_message);
        let ghost all = views(rows@);
        let mut i: usize = 0;
        assert(all.take(0) =~= Seq::empty());
        while i < rows.len()
            invariant
                i <= rows@.len(),
                all == views(rows@),
                body@ == indented(all.take(i as int)),
            decreases rows@.len() - i,
        {
            assert(all.take(i + 1).drop_last() =~= all.take(i as int));
            assert(all.take(i + 1).last() == rows@[i as int]@);
            body.append("  ");
            crate::text::push_chars(&mut body, &rows[i]);
            body.append("\n");
            i = i + 1;
        }
        assert(all.take(i as int) =~= all);
    }
    text.append(&body);
    text
}

/// Formats spec failures as inline annotations keyed by `file:line`.
pub fn format_inline_annotations(result: &SpecResult) -> (r: String)
    ensures
        r@ == annotations(result@),
{
    if result.failures.len() == 0 {
        let mut s = String::from_str("All specs passed (");
        push_decimal(&mut s, result.total as u64);
        s.append(" examples");
        let mut timing = String::new();
        if !result.duration.as_str().is_empty() {
            timing = String::from_str(", ");
            timing.append(&result.duration);
        }
        s.append(&timing);
        s.append(")");
        return s;
    }
    let mut blocks: Vec<String> = Vec::new();
    let mut i: usize = 0;
    while i < result.failures.len()
        invariant
            i <= result.failures@.len(),
            blocks@.len() == i,
            forall|k: int|
                0 <= k < i ==> (#[trigger] blocks@[k])@ == annotation(result.failures@[k]@),
        decreases result.failures@.len() - i,
    {
        blocks.push(failure_text(&result.failures[i]));
        i = i + 1;
    }
    assert(texts(blocks@) =~= result@.failures.map_values(|f: FailureView| annotation(f)));
    let mut text = join(&blocks, "\n");

    let mut close = String::from_str("\n");
    push_decimal(&mut close, result.total as u64);
    close.append(" examples, ");
    push_decimal(&mut close, result.failed as u64);
    close.append(" failures");
    close.append(&count_text(result.errored, " errors"));
    close.append(&count_text(result.pending, " pending"));
    let mut timing = String::new();
    if !result.duration.as_str().is_empty() {
        timing = String::from_str(" (");
        timing.append(&result.duration);
        timing.append(")");
    }
    close.append(&timing);
    text.append(&close);
    text
}

} // verus!
