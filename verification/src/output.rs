//! Reads the event counts of one benchmark out of a callgrind output file.
//!
//! A file of the kind that is understood, see the format specification at
//! <https://valgrind.org/docs/manual/cl-format.html>:
//!
//! ```text
//! # callgrind format
//! # ... a lot of lines without interest
//! fn=test_file::test_function
//! 0 4 1 2 1 1 0 1
//! cfn=some::library::function
//! calls=1 0
//! 0 3 1 0 1 0 0 1
//! 0 12 3 6 1 0 0 1
//! cfn=some::other::library::function
//! calls=1 0
//! 0 6789 593 463 72 37 18 72 37 18
//! 0 4 2 0 1 0 0 1
//!
//! # the empty line above or the end of the file ends the record
//! ```
use crate::stats::{CallgrindStats, EVENTS};
use crate::text::{
    contains, is_ascii_digit, parse_number, split_words, starts_with, trim_start,
};
use vstd::prelude::*;

verus! {

/// Why a file could not be read.
#[derive(Clone, Copy, Debug, PartialEq, Eq, Structural)]
pub enum ParseError {
    /// There is nothing but white space in the file.
    EmptyFile,
    /// An event count is not a number of 64 bits.
    InvalidCounter,
    /// The counts of one event add up to more than a number of 64 bits.
    CounterOverflow,
}

impl ParseError {
    /// The error in words.
    pub fn message(&self) -> (text: String)
        ensures
            text@ == (match *self {
                ParseError::EmptyFile => "Found empty file"@,
                ParseError::InvalidCounter => "Encountered non ascii digit"@,
                ParseError::CounterOverflow => "attempt to add with overflow"@,
            }),
    {
        match self {
            ParseError::EmptyFile => "Found empty file".to_owned(),
            ParseError::InvalidCounter => "Encountered non ascii digit".to_owned(),
            ParseError::CounterOverflow => "attempt to add with overflow".to_owned(),
        }
    }
}

/// How far the reading has come.
#[derive(Clone, Copy, Debug, PartialEq, Eq, Structural)]
pub enum Stage {
    /// Nothing but blank lines so far.
    Header,
    /// Past the first line with anything on it, looking for the benchmark function.
    Searching,
    /// Within the record of the benchmark function, before the first function that it calls.
    Recording,
    /// Within the record of the benchmark function, past the name of the first called function.
    Counting,
    /// The record has ended.
    Finished,
}

/// What has been read so far.
pub struct Progress {
    /// What the line starts with that opens the record of the benchmark function.
    pub sentinel: Seq<char>,
    /// How far the reading has come.
    pub stage: Stage,
    /// Whether the first line named the file format.
    pub specified: bool,
    /// Whether the last line was about a call, so that the next one holds what the call cost.
    pub called: bool,
    /// The sums of the counts so far.
    pub totals: Seq<u64>,
}

/// What the line starts with that opens the record of a benchmark function.
pub open spec fn sentinel(module: Seq<char>, function_name: Seq<char>) -> Seq<char> {
    "fn="@ + module + "::"@ + function_name
}

/// The event counts of a cost line: its words after the first one, which is a line number, and
/// no more than there are events.
pub open spec fn fields(line: Seq<char>) -> Seq<Seq<char>> {
    let words = crate::text::words(line);
    if words.len() <= 1 {
        Seq::empty()
    } else if words.len() <= EVENTS {
        words.skip(1)
    } else {
        words.subrange(1, EVENTS + 1)
    }
}

/// The totals after the fields from number `k` on.
pub open spec fn add_fields(totals: Seq<u64>, fields: Seq<Seq<char>>, k: int) -> Result<
    Seq<u64>,
    ParseError,
>
    decreases fields.len() - k,
{
    if k < 0 || k >= fields.len() {
        Ok(totals)
    } else {
        match crate::text::number(fields[k]) {
            None => Err(ParseError::InvalidCounter),
            Some(count) => if totals[k] + count > u64::MAX {
                Err(ParseError::CounterOverflow)
            } else {
                add_fields(totals.update(k, (totals[k] + count) as u64), fields, k + 1)
            },
        }
    }
}

/// The totals after a cost line. Counts that the line leaves out are zero.
pub open spec fn add_line(totals: Seq<u64>, line: Seq<char>) -> Result<Seq<u64>, ParseError> {
    add_fields(totals, fields(line), 0)
}

/// Whether a line, but for white space, is about a call. The costs of the call, and not those of
/// the function that makes it, stand on the line directly after it.
pub open spec fn opens_call(line: Seq<char>) -> bool {
    "calls="@.is_prefix_of(crate::text::trimmed_start(line))
}

/// What has been read after one more line.
pub open spec fn step(progress: Progress, line: Seq<char>) -> Result<Progress, ParseError> {
    let rest = crate::text::trimmed_start(line);
    match progress.stage {
        Stage::Header => if rest.len() == 0 {
            Ok(progress)
        } else {
            Ok(
                Progress {
                    stage: Stage::Searching,
                    specified: crate::text::contains_text(line, "callgrind format"@),
                    ..progress
                },
            )
        },
        Stage::Searching => if progress.sentinel.is_prefix_of(rest) {
            Ok(Progress { stage: Stage::Recording, ..progress })
        } else {
            Ok(progress)
        },
        Stage::Recording => if "cfn="@.is_prefix_of(rest) {
            Ok(Progress { stage: Stage::Counting, called: false, ..progress })
        } else if rest.len() == 0 {
            Ok(Progress { stage: Stage::Finished, ..progress })
        } else {
            Ok(progress)
        },
        Stage::Counting => if rest.len() == 0 {
            Ok(Progress { stage: Stage::Finished, ..progress })
        } else if progress.called && crate::text::ascii_digit(rest[0]) {
            match add_line(progress.totals, rest) {
                Ok(totals) => Ok(Progress { called: false, totals, ..progress }),
                Err(error) => Err(error),
            }
        } else {
            Ok(Progress { called: opens_call(line), ..progress })
        },
        Stage::Finished => Ok(progress),
    }
}

/// Reads a callgrind output file line by line.
#[derive(Debug)]
pub struct OutputParser {
    /// What the line starts with that opens the record of the benchmark function.
    pub sentinel: String,
    /// How far the reading has come.
    pub stage: Stage,
    /// Whether the first line named the file format.
    pub specified: bool,
    /// Whether the last line was about a call, so that the next one holds what the call cost.
    pub called: bool,
    /// The sums of the counts so far.
    pub totals: [u64; EVENTS],
}

impl View for OutputParser {
    type V = Progress;

    open spec fn view(&self) -> Progress {
        Progress {
            sentinel: self.sentinel@,
            stage: self.stage,
            specified: self.specified,
            called: self.called,
            totals: self.totals@,
        }
    }
}

/// Adds the counts of a cost line to `totals`.
fn count_line(totals: &[u64; EVENTS], line: &Vec<char>) -> (result: Result<
    [u64; EVENTS],
    ParseError,
>)
    ensures
        match add_line(totals@, line@) {
            Ok(sums) => result matches Ok(found) && found@ == sums,
            Err(error) => result == Err::<[u64; EVENTS], ParseError>(error),
        },
{
    let words = split_words(line);
    let mut sums: [u64; EVENTS] = *totals;
    let ghost counts = fields(line@);
    let mut k: usize = 0;
    while k < EVENTS && k + 1 < words.len()
        invariant
            crate::text::char_texts(words@) == crate::text::words(line@),
            counts == fields(line@),
            k <= EVENTS,
            k <= counts.len(),
            add_line(totals@, line@) == add_fields(sums@, counts, k as int),
        decreases EVENTS - k,
    {
        assert(crate::text::char_texts(words@)[k + 1] == words@[k + 1]@);
        assert(counts[k as int] == words@[k + 1]@);
        match parse_number(&words[k + 1]) {
            None => {
                return Err(ParseError::InvalidCounter);
            },
            Some(count) => {
                if sums[k] > u64::MAX - count {
                    return Err(ParseError::CounterOverflow);
                }
                sums[k] = sums[k] + count;
            },
        }
        k = k + 1;
    }
    assert(crate::text::char_texts(words@).len() == words@.len());
    Ok(sums)
}

impl OutputParser {
    /// A parser for the record of a benchmark function, before the first line.
    pub fn new(module: &str, function_name: &str) -> (parser: Self)
        ensures
            parser@.sentinel == sentinel(module@, function_name@),
            parser@.stage == Stage::Header,
            !parser@.specified,
            !parser@.called,
            parser@.totals == Seq::new(EVENTS as nat, |i: int| 0u64),
            parser.sentinel@ == "fn="@ + module@ + "::"@ + function_name@,
            parser.stage == Stage::Header,
            !parser.specified,
            !parser.called,
            forall|k: int| 0 <= k < 9 ==> #[trigger] parser.totals@[k] == 0,
    {
        let mut sentinel = "fn=".to_owned();
        sentinel.append(module);
        sentinel.append("::");
        sentinel.append(function_name);
        let parser = OutputParser {
            sentinel,
            stage: Stage::Header,
            specified: false,
            called: false,
            totals: [0, 0, 0, 0, 0, 0, 0, 0, 0],
        };
        assert(parser@.totals =~= Seq::new(EVENTS as nat, |i: int| 0u64));
        parser
    }

    /// Takes the next line of the file and says whether the record may go on after it. A line
    /// that is refused leaves everything as it was.
    pub fn feed(&mut self, line: &str) -> (more: Result<bool, ParseError>)
        ensures
            match step(old(self)@, line@) {
                Ok(next) => {
                    &&& final(self)@ == next
                    &&& more == Ok::<bool, ParseError>(next.stage != Stage::Finished)
                },
                Err(error) => {
                    &&& final(self)@ == old(self)@
                    &&& more == Err::<bool, ParseError>(error)
                },
            },
            final(self).sentinel@ == old(self).sentinel@,
            more matches Ok(open) ==> (open <==> final(self).stage != Stage::Finished),
            more is Err ==> final(self).totals@ == old(self).totals@,
    {
        let rest = trim_start(line);
        match self.stage {
            Stage::Header => {
                if rest.len() > 0 {
                    self.stage = Stage::Searching;
                    self.specified = contains(line, "callgrind format");
                }
            },
            Stage::Searching => {
                if starts_with(&rest, self.sentinel.as_str()) {
                    self.stage = Stage::Recording;
                }
            },
            // Only the calls within the benchmark function count. The costs of the function
            // itself are ignored.
            Stage::Recording => {
                if starts_with(&rest, "cfn=") {
                    self.stage = Stage::Counting;
                    self.called = false;
                } else if rest.len() == 0 {
                    self.stage = Stage::Finished;
                }
            },
            Stage::Counting => {
                if rest.len() == 0 {
                    self.stage = Stage::Finished;
                } else if self.called && is_ascii_digit(rest[0]) {
                    match count_line(&self.totals, &rest) {
                        Ok(totals) => {
                            self.called = false;
                            self.totals = totals;
                        },
                        Err(error) => {
                            return Err(error);
                        },
                    }
                } else {
                    self.called = starts_with(&rest, "calls=");
                }
            },
            Stage::Finished => {},
        }
        Ok(self.stage != Stage::Finished)
    }

    /// The counts at the end of the file.
    pub fn finish(&self) -> (result: Result<CallgrindStats, ParseError>)
        ensures
            match result {
                Ok(stats) => self@.stage != Stage::Header && stats.counters() == self@.totals,
                Err(error) => self@.stage == Stage::Header && error == ParseError::EmptyFile,
            },
            result is Err <==> self.stage == Stage::Header,
            result matches Ok(stats) ==> stats.counters() == self.totals@,
    {
        if self.stage == Stage::Header {
            Err(ParseError::EmptyFile)
        } else {
            Ok(CallgrindStats::from_counters(&self.totals))
        }
    }
}

/// What has been read after all of `lines`.
pub open spec fn run(progress: Progress, lines: Seq<Seq<char>>) -> Result<Progress, ParseError>
    decreases lines.len(),
{
    if lines.len() == 0 {
        Ok(progress)
    } else {
        match step(progress, lines[0]) {
            Ok(next) => run(next, lines.drop_first()),
            Err(error) => Err(error),
        }
    }
}

/// The lines after the first one that is not blank.
pub open spec fn body(lines: Seq<Seq<char>>) -> Option<Seq<Seq<char>>>
    decreases lines.len(),
{
    if lines.len() == 0 {
        None
    } else if crate::text::blank(lines[0]) {
        body(lines.drop_first())
    } else {
        Some(lines.drop_first())
    }
}

/// The lines after the first one that, but for white space, starts with `prefix`.
pub open spec fn lines_after(prefix: Seq<char>, lines: Seq<Seq<char>>) -> Seq<Seq<char>>
    decreases lines.len(),
{
    if lines.len() == 0 {
        Seq::empty()
    } else if prefix.is_prefix_of(crate::text::trimmed_start(lines[0])) {
        lines.drop_first()
    } else {
        lines_after(prefix, lines.drop_first())
    }
}

/// The lines before the first blank one.
pub open spec fn lines_until_blank(lines: Seq<Seq<char>>) -> Seq<Seq<char>>
    decreases lines.len(),
{
    if lines.len() == 0 || crate::text::blank(lines[0]) {
        Seq::empty()
    } else {
        seq![lines[0]] + lines_until_blank(lines.drop_first())
    }
}

/// Whether a line, but for white space, starts with a digit, as the lines with costs do.
pub open spec fn holds_costs(line: Seq<char>) -> bool {
    let rest = crate::text::trimmed_start(line);
    rest.len() > 0 && crate::text::ascii_digit(rest[0])
}

/// The costs of the calls in `lines`: each line with costs directly after a line about a call,
/// without the white space at its start. Every other line with costs is about the calling
/// function itself.
pub open spec fn call_costs(lines: Seq<Seq<char>>) -> Seq<Seq<char>>
    decreases lines.len(),
{
    if lines.len() < 2 {
        Seq::empty()
    } else if opens_call(lines[0]) && holds_costs(lines[1]) {
        seq![crate::text::trimmed_start(lines[1])] + call_costs(lines.drop_first())
    } else {
        call_costs(lines.drop_first())
    }
}

/// The lines whose counts belong to a benchmark: within the body of the file, after the line that
/// opens the record of the benchmark and before the next blank line, the costs of its calls from
/// the first called function on.
pub open spec fn counted_lines(body: Seq<Seq<char>>, sentinel: Seq<char>) -> Seq<Seq<char>> {
    call_costs(lines_after("cfn="@, lines_until_blank(lines_after(sentinel, body))))
}

/// The totals after all of the cost lines `lines`.
pub open spec fn add_lines(totals: Seq<u64>, lines: Seq<Seq<char>>) -> Result<Seq<u64>, ParseError>
    decreases lines.len(),
{
    if lines.len() == 0 {
        Ok(totals)
    } else {
        match add_line(totals, lines[0]) {
            Ok(sums) => add_lines(sums, lines.drop_first()),
            Err(error) => Err(error),
        }
    }
}

/// No counts at all.
pub open spec fn zeros() -> Seq<u64> {
    Seq::new(EVENTS as nat, |i: int| 0u64)
}

/// The counts that a file holds for the benchmark whose record opens with `sentinel`.
pub open spec fn counted(lines: Seq<Seq<char>>, sentinel: Seq<char>) -> Result<
    Seq<u64>,
    ParseError,
> {
    match body(lines) {
        None => Err(ParseError::EmptyFile),
        Some(body) => add_lines(zeros(), counted_lines(body, sentinel)),
    }
}

/// Whether reading led to `sums`: the same error, or the same totals.
pub open spec fn leads_to(
    read: Result<Progress, ParseError>,
    sums: Result<Seq<u64>, ParseError>,
) -> bool {
    match sums {
        Ok(totals) => read matches Ok(progress) && progress.stage != Stage::Header
            && progress.totals == totals,
        Err(error) => read == Err::<Progress, ParseError>(error),
    }
}

/// Once a record has ended, no further line changes anything.
pub proof fn lemma_finished_ignores_lines(progress: Progress, lines: Seq<Seq<char>>)
    requires
        progress.stage == Stage::Finished,
    ensures
        run(progress, lines) == Ok::<Progress, ParseError>(progress),
    decreases lines.len(),
{
    if lines.len() > 0 {
        lemma_finished_ignores_lines(progress, lines.drop_first());
    }
}

proof fn lemma_run_counting(progress: Progress, previous: Seq<char>, lines: Seq<Seq<char>>)
    requires
        progress.stage == Stage::Counting,
        progress.called == opens_call(previous),
    ensures
        leads_to(
            run(progress, lines),
            add_lines(
                progress.totals,
                call_costs(seq![previous] + lines_until_blank(lines)),
            ),
        ),
    decreases lines.len(),
{
    reveal_strlit("calls=");
    let record = lines_until_blank(lines);
    let seen = seq![previous] + record;
    assert(seen.drop_first() =~= record);
    if lines.len() > 0 {
        let rest = crate::text::trimmed_start(lines[0]);
        let tail = lines.drop_first();
        if rest.len() == 0 {
            lemma_finished_ignores_lines(Progress { stage: Stage::Finished, ..progress }, tail);
        } else {
            assert(record =~= seq![lines[0]] + lines_until_blank(tail));
            if progress.called && holds_costs(lines[0]) {
                let costs = call_costs(seen);
                assert(costs[0] == rest);
                assert(costs.drop_first() =~= call_costs(record));
                assert(rest[0] != "calls="@[0]);
                if opens_call(lines[0]) {
                    assert(rest.subrange(0, "calls="@.len() as int)[0] == rest[0]);
                }
                if let Ok(totals) = add_line(progress.totals, rest) {
                    lemma_run_counting(
                        Progress { called: false, totals, ..progress },
                        lines[0],
                        tail,
                    );
                }
            } else {
                assert(call_costs(seen) == call_costs(record));
                lemma_run_counting(
                    Progress { called: opens_call(lines[0]), ..progress },
                    lines[0],
                    tail,
                );
            }
        }
    }
}

proof fn lemma_run_recording(progress: Progress, lines: Seq<Seq<char>>)
    requires
        progress.stage == Stage::Recording,
    ensures
        leads_to(
            run(progress, lines),
            add_lines(
                progress.totals,
                call_costs(lines_after("cfn="@, lines_until_blank(lines))),
            ),
        ),
    decreases lines.len(),
{
    if lines.len() > 0 {
        let rest = crate::text::trimmed_start(lines[0]);
        let tail = lines.drop_first();
        let record = lines_until_blank(lines);
        reveal_strlit("cfn=");
        reveal_strlit("calls=");
        if rest.len() == 0 {
            lemma_finished_ignores_lines(Progress { stage: Stage::Finished, ..progress }, tail);
        } else {
            assert(record.drop_first() =~= lines_until_blank(tail));
            if "cfn="@.is_prefix_of(rest) {
                let record_tail = lines_until_blank(tail);
                assert(rest[1] == "cfn="@[1]);
                if opens_call(lines[0]) {
                    assert(rest[1] == "calls="@[1]);
                }
                assert((seq![lines[0]] + record_tail).drop_first() =~= record_tail);
                assert(call_costs(seq![lines[0]] + record_tail) == call_costs(record_tail));
                lemma_run_counting(
                    Progress { stage: Stage::Counting, called: false, ..progress },
                    lines[0],
                    tail,
                );
            } else {
                lemma_run_recording(progress, tail);
            }
        }
    }
}

proof fn lemma_run_searching(progress: Progress, lines: Seq<Seq<char>>)
    requires
        progress.stage == Stage::Searching,
    ensures
        leads_to(
            run(progress, lines),
            add_lines(progress.totals, counted_lines(lines, progress.sentinel)),
        ),
    decreases lines.len(),
{
    if lines.len() > 0 {
        let tail = lines.drop_first();
        if progress.sentinel.is_prefix_of(crate::text::trimmed_start(lines[0])) {
            lemma_run_recording(Progress { stage: Stage::Recording, ..progress }, tail);
        } else {
            lemma_run_searching(progress, tail);
        }
    }
}

/// Reading a file line by line comes to the counts that the file as a whole holds: an error
/// comes out exactly where the cost lines lead to one, and a file of blank lines leaves the
/// reading before its first line.
pub proof fn lemma_run_counts(progress: Progress, lines: Seq<Seq<char>>)
    requires
        progress.stage == Stage::Header,
        progress.totals == zeros(),
    ensures
        body(lines) is None ==> run(progress, lines) == Ok::<Progress, ParseError>(progress),
        body(lines) is Some ==> leads_to(
            run(progress, lines),
            counted(lines, progress.sentinel),
        ),
    decreases lines.len(),
{
    if lines.len() > 0 {
        let tail = lines.drop_first();
        if crate::text::blank(lines[0]) {
            lemma_run_counts(progress, tail);
        } else {
            let specified = crate::text::contains_text(lines[0], "callgrind format"@);
            lemma_run_searching(
                Progress { stage: Stage::Searching, specified, ..progress },
                tail,
            );
        }
    }
}

/// Reads the counts of a benchmark function out of the lines of a callgrind output file.
pub fn parse_callgrind_output(lines: &Vec<String>, module: &str, function_name: &str) -> (result:
    Result<CallgrindStats, ParseError>)
    ensures
        match counted(crate::text::texts(lines@), sentinel(module@, function_name@)) {
            Ok(totals) => result matches Ok(stats) && stats.counters() == totals,
            Err(error) => result == Err::<CallgrindStats, ParseError>(error),
        },
{
    let ghost all = crate::text::texts(lines@);
    let mut parser = OutputParser::new(module, function_name);
    let ghost start = parser@;
    proof {
        lemma_run_counts(start, all);
        assert(all.skip(0) =~= all);
    }
    let ghost expected = counted(all, sentinel(module@, function_name@));
    let mut next: usize = 0;
    while next < lines.len() && parser.stage != Stage::Finished
        invariant
            all == crate::text::texts(lines@),
            next <= lines@.len(),
            body(all) is None ==> run(start, all) is Ok,
            body(all) is Some ==> leads_to(run(start, all), expected),
            expected == counted(all, sentinel(module@, function_name@)),
            run(start, all) == run(parser@, all.skip(next as int)),
        decreases lines@.len() - next,
    {
        assert(all.skip(next as int)[0] == lines@[next as int]@);
        assert(all.skip(next as int).drop_first() =~= all.skip(next + 1));
        match parser.feed(lines[next].as_str()) {
            Ok(_) => {},
            Err(error) => {
                return Err(error);
            },
        }
        next = next + 1;
    }
    proof {
        if parser@.stage == Stage::Finished {
            lemma_finished_ignores_lines(parser@, all.skip(next as int));
        }
    }
    parser.finish()
}

/// The count of event `k` on a cost line; zero where the line leaves it out.
pub open spec fn count_on(line: Seq<char>, k: int) -> nat {
    if 0 <= k < fields(line).len() {
        match crate::text::number(fields(line)[k]) {
            Some(count) => count as nat,
            None => 0,
        }
    } else {
        0
    }
}

/// The sum of the counts of event `k` over all of the cost lines `lines`.
pub open spec fn count_sum(lines: Seq<Seq<char>>, k: int) -> nat
    decreases lines.len(),
{
    if lines.len() == 0 {
        0
    } else {
        count_on(lines[0], k) + count_sum(lines.drop_first(), k)
    }
}

/// Whether every event count of a cost line is a number.
pub open spec fn readable(line: Seq<char>) -> bool {
    forall|k: int|
        0 <= k < fields(line).len() ==> crate::text::number(#[trigger] fields(line)[k]) is Some
}

/// Whether every event count of every cost line is a number.
pub open spec fn all_readable(lines: Seq<Seq<char>>) -> bool {
    forall|i: int| 0 <= i < lines.len() ==> readable(#[trigger] lines[i])
}

/// The value of field `k` from field `from` on.
spec fn added(fields: Seq<Seq<char>>, from: int, k: int) -> nat {
    if from <= k < fields.len() {
        match crate::text::number(fields[k]) {
            Some(count) => count as nat,
            None => 0,
        }
    } else {
        0
    }
}

proof fn lemma_add_fields(totals: Seq<u64>, fields: Seq<Seq<char>>, from: int)
    requires
        totals.len() == EVENTS,
        0 <= from <= fields.len() <= EVENTS,
    ensures
        add_fields(totals, fields, from) matches Ok(sums) ==> {
            &&& sums.len() == EVENTS
            &&& forall|k: int|
                0 <= k < EVENTS ==> #[trigger] sums[k] == totals[k] + added(fields, from, k)
        },
        add_fields(totals, fields, from) is Ok <==> {
            &&& forall|k: int|
                from <= k < fields.len() ==> crate::text::number(#[trigger] fields[k]) is Some
            &&& forall|k: int|
                0 <= k < EVENTS ==> #[trigger] totals[k] + added(fields, from, k) <= u64::MAX
        },
    decreases fields.len() - from,
{
    if from < fields.len() {
        if let Some(count) = crate::text::number(fields[from]) {
            if totals[from] + count <= u64::MAX {
                let next = totals.update(from, (totals[from] + count) as u64);
                lemma_add_fields(next, fields, from + 1);
                assert forall|k: int| 0 <= k < EVENTS implies #[trigger] next[k] + added(
                    fields,
                    from + 1,
                    k,
                ) == totals[k] + added(fields, from, k) by {}
                if add_fields(totals, fields, from) is Ok {
                    assert forall|k: int| 0 <= k < EVENTS implies #[trigger] totals[k] + added(
                        fields,
                        from,
                        k,
                    ) <= u64::MAX by {
                        assert(next[k] + added(fields, from + 1, k) <= u64::MAX);
                    }
                }
                if (forall|k: int|
                    0 <= k < EVENTS ==> #[trigger] totals[k] + added(fields, from, k)
                        <= u64::MAX) {
                    assert forall|k: int| 0 <= k < EVENTS implies #[trigger] next[k] + added(
                        fields,
                        from + 1,
                        k,
                    ) <= u64::MAX by {
                        assert(totals[k] + added(fields, from, k) <= u64::MAX);
                    }
                }
            } else {
                assert(totals[from] + added(fields, from, from) > u64::MAX);
            }
        }
    }
}

proof fn lemma_add_line(totals: Seq<u64>, line: Seq<char>)
    requires
        totals.len() == EVENTS,
    ensures
        add_line(totals, line) matches Ok(sums) ==> {
            &&& sums.len() == EVENTS
            &&& forall|k: int|
                0 <= k < EVENTS ==> #[trigger] sums[k] == totals[k] + count_on(line, k)
        },
        add_line(totals, line) is Ok <==> readable(line) && forall|k: int|
            0 <= k < EVENTS ==> #[trigger] totals[k] + count_on(line, k) <= u64::MAX,
{
    let fields = fields(line);
    lemma_add_fields(totals, fields, 0);
    assert forall|k: int| 0 <= k < EVENTS implies added(fields, 0, k) == #[trigger] count_on(
        line,
        k,
    ) by {}
    if add_line(totals, line) is Ok {
        assert forall|k: int| 0 <= k < EVENTS implies #[trigger] totals[k] + count_on(line, k)
            <= u64::MAX by {
            assert(totals[k] + added(fields, 0, k) <= u64::MAX);
        }
    } else if readable(line) {
        let k = choose|k: int|
            0 <= k < EVENTS && #[trigger] totals[k] + added(fields, 0, k) > u64::MAX;
        assert(totals[k] + count_on(line, k) > u64::MAX);
    }
}

proof fn lemma_add_lines(totals: Seq<u64>, lines: Seq<Seq<char>>)
    requires
        totals.len() == EVENTS,
    ensures
        add_lines(totals, lines) matches Ok(sums) ==> {
            &&& sums.len() == EVENTS
            &&& forall|k: int|
                0 <= k < EVENTS ==> #[trigger] sums[k] == totals[k] + count_sum(lines, k)
        },
        add_lines(totals, lines) is Ok <==> all_readable(lines) && forall|k: int|
            0 <= k < EVENTS ==> #[trigger] totals[k] + count_sum(lines, k) <= u64::MAX,
    decreases lines.len(),
{
    if lines.len() > 0 {
        let tail = lines.drop_first();
        lemma_add_line(totals, lines[0]);
        if let Ok(sums) = add_line(totals, lines[0]) {
            lemma_add_lines(sums, tail);
            assert forall|k: int| 0 <= k < EVENTS implies #[trigger] sums[k] + count_sum(tail, k)
                == totals[k] + count_sum(lines, k) by {}
            if add_lines(totals, lines) is Ok {
                assert forall|i: int| 0 <= i < lines.len() implies readable(#[trigger] lines[i]) by {
                    if i > 0 {
                        assert(tail[i - 1] == lines[i]);
                    }
                }
                assert forall|k: int| 0 <= k < EVENTS implies #[trigger] totals[k] + count_sum(
                    lines,
                    k,
                ) <= u64::MAX by {
                    assert(sums[k] + count_sum(tail, k) <= u64::MAX);
                }
            } else if all_readable(lines) {
                assert(all_readable(tail));
                let k = choose|k: int|
                    0 <= k < EVENTS && #[trigger] sums[k] + count_sum(tail, k) > u64::MAX;
                assert(totals[k] + count_sum(lines, k) > u64::MAX);
            }
        } else if all_readable(lines) {
            let k = choose|k: int|
                0 <= k < EVENTS && #[trigger] totals[k] + count_on(lines[0], k) > u64::MAX;
            assert(totals[k] + count_sum(lines, k) > u64::MAX);
        }
    } else {
        assert forall|k: int| 0 <= k < EVENTS implies #[trigger] totals[k] + count_sum(lines, k)
            <= u64::MAX by {}
    }
}

/// The counts of a benchmark are the sums, event by event, over the lines that belong to it;
/// counts that a line leaves out are taken for zero.
pub proof fn lemma_counts_are_sums(lines: Seq<Seq<char>>, sentinel: Seq<char>)
    ensures
        counted(lines, sentinel) matches Ok(totals) ==> {
            &&& body(lines) matches Some(body)
            &&& totals.len() == EVENTS
            &&& forall|k: int|
                0 <= k < EVENTS ==> #[trigger] totals[k] == count_sum(
                    counted_lines(body, sentinel),
                    k,
                )
        },
{
    if let Some(body) = body(lines) {
        lemma_add_lines(zeros(), counted_lines(body, sentinel));
    }
}

/// Reading succeeds exactly for a file that is not empty, in which every count that belongs to
/// the benchmark is a number and the counts of no event add up to more than 64 bits hold.
pub proof fn lemma_reading_succeeds_iff(lines: Seq<Seq<char>>, sentinel: Seq<char>)
    ensures
        counted(lines, sentinel) is Ok <==> {
            &&& body(lines) matches Some(body)
            &&& all_readable(counted_lines(body, sentinel))
            &&& forall|k: int|
                0 <= k < EVENTS ==> #[trigger] count_sum(counted_lines(body, sentinel), k)
                    <= u64::MAX
        },
{
    if let Some(body) = body(lines) {
        let costs = counted_lines(body, sentinel);
        lemma_add_lines(zeros(), costs);
        if counted(lines, sentinel) is Ok {
            assert forall|k: int| 0 <= k < EVENTS implies #[trigger] count_sum(costs, k)
                <= u64::MAX by {
                assert(zeros()[k] + count_sum(costs, k) <= u64::MAX);
            }
        } else if all_readable(costs) {
            let k = choose|k: int|
                0 <= k < EVENTS && #[trigger] zeros()[k] + count_sum(costs, k) > u64::MAX;
            assert(count_sum(costs, k) > u64::MAX);
        }
    }
}

/// Reading `first` and then `second` is reading them in one go.
pub proof fn lemma_run_in_parts(
    progress: Progress,
    first: Seq<Seq<char>>,
    second: Seq<Seq<char>>,
)
    ensures
        run(progress, first + second) == (match run(progress, first) {
            Ok(next) => run(next, second),
            Err(error) => Err(error),
        }),
    decreases first.len(),
{
    if first.len() == 0 {
        assert(first + second =~= second);
    } else {
        assert((first + second).drop_first() =~= first.drop_first() + second);
        if let Ok(next) = step(progress, first[0]) {
            lemma_run_in_parts(next, first.drop_first(), second);
        }
    }
}

/// Where the record of a benchmark has ended within `lines`, what follows in the file does not
/// change its counts.
pub proof fn lemma_lines_after_record_ignored(
    start: Progress,
    lines: Seq<Seq<char>>,
    more: Seq<Seq<char>>,
)
    requires
        start.stage == Stage::Header,
        start.totals == zeros(),
        run(start, lines) matches Ok(end) && end.stage == Stage::Finished,
    ensures
        counted(lines + more, start.sentinel) == counted(lines, start.sentinel),
{
    lemma_run_in_parts(start, lines, more);
    if let Ok(end) = run(start, lines) {
        lemma_finished_ignores_lines(end, more);
    }
    lemma_run_counts(start, lines);
    lemma_run_counts(start, lines + more);
}

/// A file that is not empty, but without a record of the benchmark, counts nothing for it.
pub proof fn lemma_missing_benchmark_counts_nothing(lines: Seq<Seq<char>>, sentinel: Seq<char>)
    requires
        body(lines) matches Some(body) && forall|i: int|
            0 <= i < body.len() ==> !sentinel.is_prefix_of(
                crate::text::trimmed_start(#[trigger] body[i]),
            ),
    ensures
        counted(lines, sentinel) == Ok::<Seq<u64>, ParseError>(zeros()),
{
    if let Some(body) = body(lines) {
        lemma_no_line_after(sentinel, body);
    }
}

/// Where no line starts with `prefix`, no line follows such a one.
pub proof fn lemma_no_line_after(prefix: Seq<char>, lines: Seq<Seq<char>>)
    requires
        forall|i: int|
            0 <= i < lines.len() ==> !prefix.is_prefix_of(
                crate::text::trimmed_start(#[trigger] lines[i]),
            ),
    ensures
        lines_after(prefix, lines).len() == 0,
    decreases lines.len(),
{
    if lines.len() > 0 {
        let tail = lines.drop_first();
        assert forall|i: int| 0 <= i < tail.len() implies !prefix.is_prefix_of(
            crate::text::trimmed_start(#[trigger] tail[i]),
        ) by {
            assert(tail[i] == lines[i + 1]);
        }
        lemma_no_line_after(prefix, tail);
    }
}

/// The costs of the benchmark function itself are ignored: taking a line out that is not about a
/// call, and does not follow one that is, leaves the costs of the calls as they are.
pub proof fn lemma_own_costs_are_ignored(
    before: Seq<Seq<char>>,
    own: Seq<char>,
    after: Seq<Seq<char>>,
)
    requires
        !opens_call(own),
        before.len() > 0 ==> !opens_call(before.last()),
    ensures
        call_costs(before + seq![own] + after) == call_costs(before + after),
    decreases before.len(),
{
    let with = before + seq![own] + after;
    let without = before + after;
    if before.len() == 0 {
        assert(without =~= after);
        assert(with.drop_first() =~= after);
    } else {
        let rest = before.drop_first();
        assert(with.drop_first() =~= rest + seq![own] + after);
        assert(without.drop_first() =~= rest + after);
        if before.len() > 1 {
            assert(rest.last() == before.last());
            assert(with[1] == before[1] && without[1] == before[1]);
        } else {
            assert(before.last() == before[0]);
        }
        lemma_own_costs_are_ignored(rest, own, after);
    }
}

/// Without a line about a call, nothing counts.
pub proof fn lemma_no_call_costs_nothing(lines: Seq<Seq<char>>)
    requires
        forall|i: int| 0 <= i < lines.len() ==> !opens_call(#[trigger] lines[i]),
    ensures
        call_costs(lines).len() == 0,
    decreases lines.len(),
{
    if lines.len() >= 2 {
        let tail = lines.drop_first();
        assert forall|i: int| 0 <= i < tail.len() implies !opens_call(#[trigger] tail[i]) by {
            assert(tail[i] == lines[i + 1]);
        }
        lemma_no_call_costs_nothing(tail);
        assert(!opens_call(lines[0]));
    }
}

/// The first line of a file, which should name its format, has no bearing on the counts.
pub proof fn lemma_format_line_is_optional(
    header: Seq<char>,
    other: Seq<char>,
    body: Seq<Seq<char>>,
    sentinel: Seq<char>,
)
    requires
        !crate::text::blank(header),
        !crate::text::blank(other),
    ensures
        counted(seq![header] + body, sentinel) == counted(seq![other] + body, sentinel),
{
    assert((seq![header] + body).drop_first() =~= (seq![other] + body).drop_first());
}

/// Whether word number `j` of a cost line is a count that can be added to the total of its event.
/// Word number zero is a line number, so word `j` counts event `j - 1`.
pub open spec fn addable(totals: Seq<u64>, words: Seq<Seq<char>>, j: int) -> bool {
    crate::text::number(words[j]) matches Some(count) && totals[j - 1] + count <= u64::MAX
}

proof fn lemma_fields_are_words(line: Seq<char>)
    ensures
        fields(line).len() <= 9,
        forall|k: int|
            #![trigger fields(line)[k]]
            0 <= k < 9 && k + 1 < crate::text::words(line).len() ==> k < fields(line).len(),
        forall|k: int|
            0 <= k < fields(line).len() ==> k + 1 < crate::text::words(line).len()
                && #[trigger] fields(line)[k] == crate::text::words(line)[k + 1],
{
}

/// A cost line of counts that can be added makes the total of each event grow by its word, for
/// as many of the nine events as there are words, and leaves the totals of the others as they
/// are. Words after the count of the last event have no bearing on anything.
pub proof fn lemma_each_word_is_added(totals: Seq<u64>, line: Seq<char>)
    requires
        totals.len() == 9,
        forall|j: int|
            1 <= j <= 9 && j < crate::text::words(line).len() ==> #[trigger] addable(
                totals,
                crate::text::words(line),
                j,
            ),
    ensures
        add_line(totals, line) matches Ok(sums) && sums.len() == 9 && forall|k: int|
            0 <= k < 9 ==> #[trigger] sums[k] == totals[k] + if k + 1 < crate::text::words(
                line,
            ).len() {
                crate::text::number(crate::text::words(line)[k + 1])->0
            } else {
                0
            },
{
    let words = crate::text::words(line);
    let fields = fields(line);
    lemma_fields_are_words(line);
    lemma_add_fields(totals, fields, 0);
    assert forall|k: int| 0 <= k < fields.len() implies crate::text::number(
        #[trigger] fields[k],
    ) is Some by {
        assert(addable(totals, words, k + 1));
    }
    assert forall|k: int| 0 <= k < EVENTS implies #[trigger] totals[k] + added(fields, 0, k)
        <= u64::MAX by {
        if k < fields.len() {
            assert(addable(totals, words, k + 1));
            assert(fields[k] == words[k + 1]);
        }
    }
    let sums = add_line(totals, line)->Ok_0;
    assert forall|k: int| 0 <= k < 9 implies #[trigger] sums[k] == totals[k] + if k + 1
        < words.len() {
        crate::text::number(words[k + 1])->0
    } else {
        0
    } by {
        assert(sums[k] == totals[k] + added(fields, 0, k));
        if k + 1 < words.len() {
            assert(addable(totals, words, k + 1));
            assert(fields[k] == words[k + 1]);
        }
    }
}

proof fn lemma_add_fields_stops(totals: Seq<u64>, fields: Seq<Seq<char>>, from: int, at: int)
    requires
        totals.len() == EVENTS,
        0 <= from <= at < fields.len() <= EVENTS,
        forall|k: int|
            from <= k < at ==> (crate::text::number(#[trigger] fields[k]) matches Some(count)
                && totals[k] + count <= u64::MAX),
    ensures
        crate::text::number(fields[at]) is None ==> add_fields(totals, fields, from) == Err::<
            Seq<u64>,
            ParseError,
        >(ParseError::InvalidCounter),
        crate::text::number(fields[at]) matches Some(count) ==> totals[at] + count > u64::MAX
            ==> add_fields(totals, fields, from) == Err::<Seq<u64>, ParseError>(
            ParseError::CounterOverflow,
        ),
    decreases at - from,
{
    if from < at {
        if let Some(count) = crate::text::number(fields[from]) {
            let next = totals.update(from, (totals[from] + count) as u64);
            assert forall|k: int| from + 1 <= k < at implies (crate::text::number(
                #[trigger] fields[k],
            ) matches Some(count) && next[k] + count <= u64::MAX) by {
                assert(next[k] == totals[k]);
            }
            lemma_add_fields_stops(next, fields, from + 1, at);
        }
    }
}

/// The first word of a cost line that cannot be added decides what is wrong with the line: it is
/// either no number of 64 bits at all, or one too large for the total of its event.
pub proof fn lemma_first_bad_word_decides(totals: Seq<u64>, line: Seq<char>, at: int)
    requires
        totals.len() == 9,
        1 <= at <= 9,
        at < crate::text::words(line).len(),
        forall|j: int|
            1 <= j < at ==> #[trigger] addable(totals, crate::text::words(line), j),
        !addable(totals, crate::text::words(line), at),
    ensures
        add_line(totals, line) == Err::<Seq<u64>, ParseError>(
            if crate::text::number(crate::text::words(line)[at]) is None {
                ParseError::InvalidCounter
            } else {
                ParseError::CounterOverflow
            },
        ),
{
    let words = crate::text::words(line);
    let fields = fields(line);
    lemma_fields_are_words(line);
    assert(fields[at - 1] == words[at]);
    assert forall|k: int| 0 <= k < at - 1 implies (crate::text::number(
        #[trigger] fields[k],
    ) matches Some(count) && totals[k] + count <= u64::MAX) by {
        assert(addable(totals, words, k + 1));
        assert(fields[k] == words[k + 1]);
    }
    lemma_add_fields_stops(totals, fields, 0, at - 1);
}

/// A cost line as callgrind writes it: a line number and after it the counts, all of them in
/// decimal and with a space between one and the next.
pub open spec fn written_costs(line_number: nat, counts: Seq<u64>) -> Seq<char>
    decreases counts.len(),
{
    if counts.len() == 0 {
        crate::text::decimal(line_number)
    } else {
        written_costs(line_number, counts.drop_last()) + seq![' '] + crate::text::decimal(
            counts.last() as nat,
        )
    }
}

proof fn lemma_words_of_costs(line_number: nat, counts: Seq<u64>)
    ensures
        crate::text::words(written_costs(line_number, counts)).len() == counts.len() + 1,
        forall|k: int|
            0 <= k < counts.len() ==> crate::text::words(
                written_costs(line_number, counts),
            )[k + 1] == crate::text::decimal(#[trigger] counts[k] as nat),
        written_costs(line_number, counts).len() > 0,
        crate::text::ascii_digit(written_costs(line_number, counts)[0]),
    decreases counts.len(),
{
    if counts.len() == 0 {
        crate::text::lemma_decimal_is_shortest(line_number);
        crate::text::lemma_word_alone(crate::text::decimal(line_number));
    } else {
        let front = counts.drop_last();
        let last = crate::text::decimal(counts.last() as nat);
        lemma_words_of_costs(line_number, front);
        crate::text::lemma_decimal_is_shortest(counts.last() as nat);
        crate::text::lemma_word_alone(last);
        crate::text::lemma_words_on_both_sides(written_costs(line_number, front), ' ', last);
        assert forall|k: int| 0 <= k < counts.len() implies crate::text::words(
            written_costs(line_number, counts),
        )[k + 1] == crate::text::decimal(#[trigger] counts[k] as nat) by {
            if k < front.len() {
                assert(front[k] == counts[k]);
            }
        }
    }
}

/// The cost line that is written from a line number and any counts makes the total of event `k`
/// grow by exactly count `k`, for as many of the nine events as there are counts, and leaves the
/// totals of the other events as they are. Where one of the totals would not fit in 64 bits, that
/// is what is wrong with the line.
pub proof fn lemma_written_costs_are_added(totals: Seq<u64>, line_number: nat, counts: Seq<u64>)
    requires
        totals.len() == 9,
    ensures
        (forall|k: int|
            0 <= k < 9 && k < counts.len() ==> #[trigger] totals[k] + counts[k] <= u64::MAX) ==> (
        add_line(totals, written_costs(line_number, counts)) matches Ok(sums) && sums.len() == 9
            && forall|k: int|
            0 <= k < 9 ==> #[trigger] sums[k] == totals[k] + if k < counts.len() {
                counts[k]
            } else {
                0
            }),
        (exists|k: int|
            0 <= k < 9 && k < counts.len() && #[trigger] totals[k] + counts[k] > u64::MAX)
            ==> add_line(totals, written_costs(line_number, counts)) == Err::<
            Seq<u64>,
            ParseError,
        >(ParseError::CounterOverflow),
{
    let line = written_costs(line_number, counts);
    let words = crate::text::words(line);
    lemma_words_of_costs(line_number, counts);
    assert forall|k: int| 0 <= k < counts.len() implies crate::text::number(words[k + 1]) == Some(
        #[trigger] counts[k],
    ) by {
        crate::text::lemma_number_reads_decimal(counts[k]);
    }
    if forall|k: int|
        0 <= k < 9 && k < counts.len() ==> #[trigger] totals[k] + counts[k] <= u64::MAX {
        assert forall|j: int| 1 <= j <= 9 && j < words.len() implies #[trigger] addable(
            totals,
            words,
            j,
        ) by {
            assert(totals[j - 1] + counts[j - 1] <= u64::MAX);
        }
        lemma_each_word_is_added(totals, line);
        let sums = add_line(totals, line)->Ok_0;
        assert forall|k: int| 0 <= k < 9 implies #[trigger] sums[k] == totals[k] + if k
            < counts.len() {
            counts[k]
        } else {
            0
        } by {
            if k < counts.len() {
                assert(crate::text::number(words[k + 1]) == Some(counts[k]));
            }
        }
    }
    if exists|k: int|
        0 <= k < 9 && k < counts.len() && #[trigger] totals[k] + counts[k] > u64::MAX {
        let k = choose|k: int|
            0 <= k < 9 && k < counts.len() && #[trigger] totals[k] + counts[k] > u64::MAX;
        lemma_costs_overflow(totals, line_number, counts, k);
    }
}

proof fn lemma_costs_overflow(totals: Seq<u64>, line_number: nat, counts: Seq<u64>, k: int)
    requires
        totals.len() == 9,
        0 <= k < 9,
        k < counts.len(),
        totals[k] + counts[k] > u64::MAX,
    ensures
        add_line(totals, written_costs(line_number, counts)) == Err::<Seq<u64>, ParseError>(
            ParseError::CounterOverflow,
        ),
    decreases k,
{
    if exists|j: int| 0 <= j < k && #[trigger] totals[j] + counts[j] > u64::MAX {
        let j = choose|j: int| 0 <= j < k && #[trigger] totals[j] + counts[j] > u64::MAX;
        lemma_costs_overflow(totals, line_number, counts, j);
    } else {
        let line = written_costs(line_number, counts);
        let words = crate::text::words(line);
        lemma_words_of_costs(line_number, counts);
        assert forall|j: int| 1 <= j < k + 1 implies #[trigger] addable(totals, words, j) by {
            assert(totals[j - 1] + counts[j - 1] <= u64::MAX);
            crate::text::lemma_number_reads_decimal(counts[j - 1]);
        }
        crate::text::lemma_number_reads_decimal(counts[k]);
        assert(words[k + 1] == crate::text::decimal(counts[k] as nat));
        lemma_first_bad_word_decides(totals, line, k + 1);
    }
}

/// The costs of some lines and then of others are those of all of them, one after the other: the
/// second ones are added to what the first ones come to, unless these already lead to an error.
pub proof fn lemma_lines_add_up_in_parts(
    totals: Seq<u64>,
    first: Seq<Seq<char>>,
    second: Seq<Seq<char>>,
)
    ensures
        add_lines(totals, first + second) == (match add_lines(totals, first) {
            Ok(sums) => add_lines(sums, second),
            Err(error) => Err(error),
        }),
    decreases first.len(),
{
    if first.len() == 0 {
        assert(first + second =~= second);
    } else {
        assert((first + second).drop_first() =~= first.drop_first() + second);
        if let Ok(sums) = add_line(totals, first[0]) {
            lemma_lines_add_up_in_parts(sums, first.drop_first(), second);
        }
    }
}

/// No line changes no total, and the costs of one line alone are those of that line.
pub proof fn lemma_one_line_adds_up(totals: Seq<u64>, line: Seq<char>)
    ensures
        add_lines(totals, Seq::empty()) == Ok::<Seq<u64>, ParseError>(totals),
        add_lines(totals, seq![line]) == add_line(totals, line),
{
    assert(seq![line].drop_first() =~= Seq::<Seq<char>>::empty());
    if let Ok(sums) = add_line(totals, line) {
        assert(add_lines(sums, Seq::empty()) == Ok::<Seq<u64>, ParseError>(sums));
    }
}

/// A file of blank lines has no body.
pub proof fn lemma_blank_file_has_no_body(lines: Seq<Seq<char>>)
    ensures
        body(lines) is None <==> forall|i: int|
            0 <= i < lines.len() ==> crate::text::blank(#[trigger] lines[i]),
    decreases lines.len(),
{
    if lines.len() > 0 {
        let tail = lines.drop_first();
        lemma_blank_file_has_no_body(tail);
        if body(lines) is None {
            assert forall|i: int| 0 <= i < lines.len() implies crate::text::blank(
                #[trigger] lines[i],
            ) by {
                if i > 0 {
                    assert(tail[i - 1] == lines[i]);
                }
            }
        }
        if forall|i: int| 0 <= i < lines.len() ==> crate::text::blank(#[trigger] lines[i]) {
            assert forall|i: int| 0 <= i < tail.len() implies crate::text::blank(
                #[trigger] tail[i],
            ) by {
                assert(tail[i] == lines[i + 1]);
            }
            assert(crate::text::blank(lines[0]));
        }
    }
}

/// The body of a file is all that follows the first line that is not blank.
pub proof fn lemma_body_follows_first_line(
    blanks: Seq<Seq<char>>,
    header: Seq<char>,
    rest: Seq<Seq<char>>,
)
    requires
        forall|i: int| 0 <= i < blanks.len() ==> crate::text::blank(#[trigger] blanks[i]),
        !crate::text::blank(header),
    ensures
        body(blanks + seq![header] + rest) == Some(rest),
    decreases blanks.len(),
{
    let lines = blanks + seq![header] + rest;
    if blanks.len() == 0 {
        assert(lines.drop_first() =~= rest);
    } else {
        let tail = blanks.drop_first();
        assert forall|i: int| 0 <= i < tail.len() implies crate::text::blank(#[trigger] tail[i]) by {
            assert(tail[i] == blanks[i + 1]);
        }
        assert(crate::text::blank(blanks[0]));
        lemma_body_follows_first_line(tail, header, rest);
        assert(lines.drop_first() =~= tail + seq![header] + rest);
    }
}

/// What follows the first line that starts with `prefix`, but for white space, is all after it.
pub proof fn lemma_lines_after_first(
    prefix: Seq<char>,
    before: Seq<Seq<char>>,
    line: Seq<char>,
    after: Seq<Seq<char>>,
)
    requires
        forall|i: int|
            0 <= i < before.len() ==> !prefix.is_prefix_of(
                crate::text::trimmed_start(#[trigger] before[i]),
            ),
        prefix.is_prefix_of(crate::text::trimmed_start(line)),
    ensures
        lines_after(prefix, before + seq![line] + after) == after,
    decreases before.len(),
{
    let lines = before + seq![line] + after;
    if before.len() == 0 {
        assert(lines.drop_first() =~= after);
    } else {
        let tail = before.drop_first();
        assert forall|i: int| 0 <= i < tail.len() implies !prefix.is_prefix_of(
            crate::text::trimmed_start(#[trigger] tail[i]),
        ) by {
            assert(tail[i] == before[i + 1]);
        }
        assert(!prefix.is_prefix_of(crate::text::trimmed_start(before[0])));
        lemma_lines_after_first(prefix, tail, line, after);
        assert(lines.drop_first() =~= tail + seq![line] + after);
    }
}

/// A record goes on to the first blank line, or to the end where there is none, and no line of it
/// is lost.
pub proof fn lemma_record_ends_at_blank_line(
    record: Seq<Seq<char>>,
    end: Seq<char>,
    more: Seq<Seq<char>>,
)
    requires
        forall|i: int| 0 <= i < record.len() ==> !crate::text::blank(#[trigger] record[i]),
        crate::text::blank(end),
    ensures
        lines_until_blank(record) == record,
        lines_until_blank(record + seq![end] + more) == record,
    decreases record.len(),
{
    let lines = record + seq![end] + more;
    if record.len() == 0 {
        assert(record =~= Seq::empty());
        assert(lines[0] == end);
    } else {
        let tail = record.drop_first();
        assert forall|i: int| 0 <= i < tail.len() implies !crate::text::blank(
            #[trigger] tail[i],
        ) by {
            assert(tail[i] == record[i + 1]);
        }
        assert(!crate::text::blank(record[0]));
        lemma_record_ends_at_blank_line(tail, end, more);
        assert(lines.drop_first() =~= tail + seq![end] + more);
        assert(seq![record[0]] + tail =~= record);
    }
}

/// Whether a line counts depends on the line before it alone: one more line adds its costs to
/// those of a call exactly where it starts with a digit and the line before it with `calls=`,
/// white space aside.
pub proof fn lemma_costs_follow_calls(
    before: Seq<Seq<char>>,
    previous: Seq<char>,
    line: Seq<char>,
)
    ensures
        call_costs(Seq::empty()).len() == 0,
        call_costs(seq![line]).len() == 0,
        call_costs(before + seq![previous, line]) == call_costs(before + seq![previous]) + if
            "calls="@.is_prefix_of(crate::text::trimmed_start(previous))
            && crate::text::trimmed_start(line).len() > 0 && '0' <= crate::text::trimmed_start(
            line,
        )[0] <= '9' {
            seq![crate::text::trimmed_start(line)]
        } else {
            Seq::empty()
        },
    decreases before.len(),
{
    let longer = before + seq![previous, line];
    let shorter = before + seq![previous];
    if before.len() == 0 {
        assert(longer.drop_first() =~= seq![line]);
        assert(call_costs(seq![line]) =~= Seq::empty());
        assert(call_costs(shorter) =~= Seq::empty());
        assert(longer[0] == previous && longer[1] == line);
        if opens_call(previous) && holds_costs(line) {
            assert(call_costs(longer) =~= seq![crate::text::trimmed_start(line)]);
        } else {
            assert(call_costs(longer) =~= Seq::empty());
        }
    } else {
        let tail = before.drop_first();
        lemma_costs_follow_calls(tail, previous, line);
        assert(longer.drop_first() =~= tail + seq![previous, line]);
        assert(shorter.drop_first() =~= tail + seq![previous]);
        assert(longer[0] == shorter[0] && longer[1] == shorter[1]);
        assert(call_costs(longer) =~= call_costs(shorter) + if opens_call(previous) && holds_costs(
            line,
        ) {
            seq![crate::text::trimmed_start(line)]
        } else {
            Seq::empty()
        });
    }
}

/// Before the first line nothing has been counted, and no event is left out.
pub proof fn lemma_counting_starts_at_zero()
    ensures
        zeros().len() == 9,
        forall|k: int| 0 <= k < 9 ==> #[trigger] zeros()[k] == 0,
{
}

/// The line that opens the record of a benchmark names its module and its function in full.
pub proof fn lemma_record_opens_with_names(
    module: Seq<char>,
    function_name: Seq<char>,
    more: Seq<char>,
)
    ensures
        sentinel(module, function_name).is_prefix_of(
            "fn="@ + module + "::"@ + function_name + more,
        ),
        sentinel(module, function_name).len() == module.len() + function_name.len() + 5,
{
    reveal_strlit("fn=");
    reveal_strlit("::");
    let names = "fn="@ + module + "::"@ + function_name;
    assert((names + more).subrange(0, names.len() as int) =~= names);
}

/// What counts in a file, from its first line to its last: after a first line, a line that opens
/// the record of the benchmark, and a line that names the first called function, the costs of the
/// calls up to the next blank line. Neither what stands before, nor what stands between, nor what
/// follows the blank line counts.
pub proof fn lemma_calls_of_benchmark_count(
    blanks: Seq<Seq<char>>,
    header: Seq<char>,
    before: Seq<Seq<char>>,
    opening: Seq<char>,
    own: Seq<Seq<char>>,
    called: Seq<char>,
    record: Seq<Seq<char>>,
    end: Seq<char>,
    more: Seq<Seq<char>>,
    module: Seq<char>,
    function_name: Seq<char>,
)
    requires
        forall|i: int| 0 <= i < blanks.len() ==> crate::text::blank(#[trigger] blanks[i]),
        !crate::text::blank(header),
        forall|i: int|
            0 <= i < before.len() ==> !("fn="@ + module + "::"@ + function_name).is_prefix_of(
                crate::text::trimmed_start(#[trigger] before[i]),
            ),
        ("fn="@ + module + "::"@ + function_name).is_prefix_of(
            crate::text::trimmed_start(opening),
        ),
        forall|i: int|
            0 <= i < own.len() ==> !crate::text::blank(#[trigger] own[i]) && !"cfn="@.is_prefix_of(
                crate::text::trimmed_start(own[i]),
            ),
        "cfn="@.is_prefix_of(crate::text::trimmed_start(called)),
        forall|i: int| 0 <= i < record.len() ==> !crate::text::blank(#[trigger] record[i]),
        crate::text::blank(end),
    ensures
        counted(
            blanks + seq![header] + (before + seq![opening] + (own + seq![called] + record)),
            sentinel(module, function_name),
        ) == add_lines(zeros(), call_costs(record)),
        counted(
            blanks + seq![header] + (before + seq![opening] + ((own + seq![called] + record)
                + seq![end] + more)),
            sentinel(module, function_name),
        ) == add_lines(zeros(), call_costs(record)),
        counted(
            blanks + seq![header] + (before + seq![opening] + (own + seq![end] + more)),
            sentinel(module, function_name),
        ) == Ok::<Seq<u64>, ParseError>(zeros()),
{
    let names = sentinel(module, function_name);
    let whole = own + seq![called] + record;
    reveal_strlit("cfn=");
    assert forall|i: int| 0 <= i < whole.len() implies !crate::text::blank(#[trigger] whole[i]) by {
        if i < own.len() {
            assert(whole[i] == own[i]);
        } else if i > own.len() {
            assert(whole[i] == record[i - own.len() - 1]);
        }
    }
    lemma_record_ends_at_blank_line(whole, end, more);
    lemma_record_ends_at_blank_line(own, end, more);
    lemma_lines_after_first("cfn="@, own, called, record);
    lemma_no_line_after("cfn="@, own);
    let closed = whole + seq![end] + more;
    let uncalled = own + seq![end] + more;
    lemma_lines_after_first(names, before, opening, whole);
    lemma_lines_after_first(names, before, opening, closed);
    lemma_lines_after_first(names, before, opening, uncalled);
    lemma_body_follows_first_line(blanks, header, before + seq![opening] + whole);
    lemma_body_follows_first_line(blanks, header, before + seq![opening] + closed);
    lemma_body_follows_first_line(blanks, header, before + seq![opening] + uncalled);
}

/// A file is refused as empty exactly where all of its lines are blank.
pub proof fn lemma_empty_file_iff_all_blank(lines: Seq<Seq<char>>, sentinel: Seq<char>)
    ensures
        counted(lines, sentinel) == Err::<Seq<u64>, ParseError>(ParseError::EmptyFile) <==> forall|
            i: int,
        |
            0 <= i < lines.len() ==> crate::text::blank(#[trigger] lines[i]),
{
    lemma_blank_file_has_no_body(lines);
    if let Some(body) = body(lines) {
        lemma_cost_lines_are_no_empty_file(zeros(), counted_lines(body, sentinel));
    }
}

proof fn lemma_fields_are_no_empty_file(totals: Seq<u64>, fields: Seq<Seq<char>>, k: int)
    ensures
        add_fields(totals, fields, k) != Err::<Seq<u64>, ParseError>(ParseError::EmptyFile),
    decreases fields.len() - k,
{
    if 0 <= k < fields.len() {
        if let Some(count) = crate::text::number(fields[k]) {
            lemma_fields_are_no_empty_file(
                totals.update(k, (totals[k] + count) as u64),
                fields,
                k + 1,
            );
        }
    }
}

proof fn lemma_cost_lines_are_no_empty_file(totals: Seq<u64>, lines: Seq<Seq<char>>)
    ensures
        add_lines(totals, lines) != Err::<Seq<u64>, ParseError>(ParseError::EmptyFile),
    decreases lines.len(),
{
    if lines.len() > 0 {
        lemma_fields_are_no_empty_file(totals, fields(lines[0]), 0);
        if let Ok(sums) = add_line(totals, lines[0]) {
            lemma_cost_lines_are_no_empty_file(sums, lines.drop_first());
        }
    }
}

/// A call within a benchmark function, as callgrind writes it down.
pub struct Call {
    /// The called function.
    pub function: Seq<char>,
    /// How often it was called, and where.
    pub times: Seq<char>,
    /// The line that makes the call.
    pub line: nat,
    /// What the call cost, event by event.
    pub counts: Seq<u64>,
    /// What the benchmark function itself cost on the lines after the call.
    pub own: Seq<(nat, Seq<u64>)>,
}

/// The cost lines of the benchmark function itself.
pub open spec fn written_own(own: Seq<(nat, Seq<u64>)>) -> Seq<Seq<char>> {
    Seq::new(own.len(), |i: int| written_costs(own[i].0, own[i].1))
}

/// The lines about some calls, one after the other.
pub open spec fn written_calls(calls: Seq<Call>) -> Seq<Seq<char>>
    decreases calls.len(),
{
    if calls.len() == 0 {
        Seq::empty()
    } else {
        let call = calls.last();
        written_calls(calls.drop_last()) + seq![
            "cfn="@ + call.function,
            "calls="@ + call.times,
            written_costs(call.line, call.counts),
        ] + written_own(call.own)
    }
}

/// How often event `k` happened within some calls.
pub open spec fn events_of_calls(calls: Seq<Call>, k: int) -> nat
    decreases calls.len(),
{
    if calls.len() == 0 {
        0
    } else {
        let counts = calls.last().counts;
        events_of_calls(calls.drop_last(), k) + if k < counts.len() {
            counts[k] as nat
        } else {
            0
        }
    }
}

proof fn lemma_costs_are_solid(line_number: nat, counts: Seq<u64>)
    ensures
        crate::text::trimmed_start(written_costs(line_number, counts)) == written_costs(
            line_number,
            counts,
        ),
        !crate::text::blank(written_costs(line_number, counts)),
        holds_costs(written_costs(line_number, counts)),
        !opens_call(written_costs(line_number, counts)),
        !"cfn="@.is_prefix_of(written_costs(line_number, counts)),
{
    let line = written_costs(line_number, counts);
    lemma_words_of_costs(line_number, counts);
    crate::text::lemma_trimmed_start_takes_white_space(Seq::empty(), line);
    assert(Seq::<char>::empty() + line =~= line);
    reveal_strlit("calls=");
    reveal_strlit("cfn=");
    if "calls="@.is_prefix_of(line) {
        assert(line.subrange(0, "calls="@.len() as int)[0] == line[0]);
    }
    if "cfn="@.is_prefix_of(line) {
        assert(line.subrange(0, "cfn="@.len() as int)[0] == line[0]);
    }
}

proof fn lemma_call_lines_are_solid(function: Seq<char>, times: Seq<char>)
    ensures
        crate::text::trimmed_start("cfn="@ + function) == "cfn="@ + function,
        !crate::text::blank("cfn="@ + function),
        "cfn="@.is_prefix_of("cfn="@ + function),
        !opens_call("cfn="@ + function),
        !holds_costs("cfn="@ + function),
        !crate::text::blank("calls="@ + times),
        opens_call("calls="@ + times),
        !holds_costs("calls="@ + times),
{
    reveal_strlit("calls=");
    reveal_strlit("cfn=");
    let called = "cfn="@ + function;
    let calls = "calls="@ + times;
    crate::text::lemma_trimmed_start_takes_white_space(Seq::empty(), called);
    crate::text::lemma_trimmed_start_takes_white_space(Seq::empty(), calls);
    assert(Seq::<char>::empty() + called =~= called);
    assert(Seq::<char>::empty() + calls =~= calls);
    assert(called.subrange(0, "cfn="@.len() as int) =~= "cfn="@);
    assert(calls.subrange(0, "calls="@.len() as int) =~= "calls="@);
    if "calls="@.is_prefix_of(called) {
        assert(called.subrange(0, "calls="@.len() as int)[1] == called[1]);
    }
}

proof fn lemma_plain_line_adds_nothing(before: Seq<Seq<char>>, line: Seq<char>)
    requires
        before.len() == 0 || !opens_call(before.last()) || !holds_costs(line),
    ensures
        call_costs(before + seq![line]) == call_costs(before),
{
    if before.len() == 0 {
        assert(before + seq![line] =~= seq![line]);
    } else {
        let front = before.drop_last();
        lemma_costs_follow_calls(front, before.last(), line);
        assert(front + seq![before.last()] =~= before);
        assert(front + seq![before.last(), line] =~= before + seq![line]);
        assert(call_costs(before) + Seq::empty() =~= call_costs(before));
    }
}

proof fn lemma_own_lines_add_nothing(before: Seq<Seq<char>>, own: Seq<(nat, Seq<u64>)>)
    requires
        before.len() > 0,
        !opens_call(before.last()),
    ensures
        call_costs(before + written_own(own)) == call_costs(before),
        !opens_call((before + written_own(own)).last()),
    decreases own.len(),
{
    if own.len() == 0 {
        assert(before + written_own(own) =~= before);
    } else {
        let front = own.drop_last();
        let line = written_costs(own.last().0, own.last().1);
        lemma_own_lines_add_nothing(before, front);
        lemma_costs_are_solid(own.last().0, own.last().1);
        let shorter = before + written_own(front);
        lemma_plain_line_adds_nothing(shorter, line);
        assert(before + written_own(own) =~= shorter + seq![line]);
    }
}

proof fn lemma_call_adds_its_costs(before: Seq<Seq<char>>, call: Call)
    requires
        before.len() == 0 || !opens_call(before.last()),
    ensures
        ({
            let lines = before + seq![
                "cfn="@ + call.function,
                "calls="@ + call.times,
                written_costs(call.line, call.counts),
            ] + written_own(call.own);
            &&& call_costs(lines) == call_costs(before) + seq![
                written_costs(call.line, call.counts),
            ]
            &&& !opens_call(lines.last())
        }),
{
    let called = "cfn="@ + call.function;
    let calls = "calls="@ + call.times;
    let costs = written_costs(call.line, call.counts);
    lemma_call_lines_are_solid(call.function, call.times);
    lemma_costs_are_solid(call.line, call.counts);
    let one = before + seq![called];
    lemma_plain_line_adds_nothing(before, called);
    lemma_plain_line_adds_nothing(one, calls);
    lemma_costs_follow_calls(one, calls, costs);
    let three = one + seq![calls, costs];
    assert(three =~= before + seq![called, calls, costs]);
    lemma_own_lines_add_nothing(three, call.own);
}

proof fn lemma_costs_of_calls(calls: Seq<Call>)
    ensures
        call_costs(written_calls(calls)) == Seq::new(
            calls.len(),
            |i: int| written_costs(calls[i].line, calls[i].counts),
        ),
        calls.len() > 0 ==> written_calls(calls).len() > 0,
        written_calls(calls).len() == 0 || !opens_call(written_calls(calls).last()),
        forall|i: int|
            0 <= i < written_calls(calls).len() ==> !crate::text::blank(
                #[trigger] written_calls(calls)[i],
            ),
        calls.len() > 0 ==> written_calls(calls)[0] == "cfn="@ + calls[0].function,
    decreases calls.len(),
{
    let all = Seq::new(calls.len(), |i: int| written_costs(calls[i].line, calls[i].counts));
    if calls.len() == 0 {
        assert(call_costs(written_calls(calls)) =~= all);
    } else {
        let front = calls.drop_last();
        let call = calls.last();
        let before = written_calls(front);
        lemma_costs_of_calls(front);
        lemma_call_adds_its_costs(before, call);
        assert(call_costs(written_calls(calls)) =~= all);
        lemma_call_lines_are_solid(call.function, call.times);
        lemma_costs_are_solid(call.line, call.counts);
        assert forall|i: int| 0 <= i < written_calls(calls).len() implies !crate::text::blank(
            #[trigger] written_calls(calls)[i],
        ) by {
            if i < before.len() {
                assert(written_calls(calls)[i] == before[i]);
            } else if i >= before.len() + 3 {
                let j = i - before.len() - 3;
                lemma_costs_are_solid(call.own[j].0, call.own[j].1);
                assert(written_calls(calls)[i] == written_own(call.own)[j]);
            }
        }
    }
}

proof fn lemma_calls_add_up(calls: Seq<Call>)
    requires
        forall|k: int| 0 <= k < 9 ==> #[trigger] events_of_calls(calls, k) <= u64::MAX,
    ensures
        add_lines(
            zeros(),
            Seq::new(calls.len(), |i: int| written_costs(calls[i].line, calls[i].counts)),
        ) matches Ok(totals) && totals.len() == 9 && forall|k: int|
            0 <= k < 9 ==> #[trigger] totals[k] == events_of_calls(calls, k),
    decreases calls.len(),
{
    let lines = Seq::new(calls.len(), |i: int| written_costs(calls[i].line, calls[i].counts));
    if calls.len() == 0 {
        assert(lines =~= Seq::empty());
    } else {
        let front = calls.drop_last();
        let call = calls.last();
        let before = Seq::new(front.len(), |i: int| written_costs(front[i].line, front[i].counts));
        let line = written_costs(call.line, call.counts);
        assert forall|k: int| 0 <= k < 9 implies #[trigger] events_of_calls(front, k)
            <= u64::MAX by {
            assert(events_of_calls(calls, k) <= u64::MAX);
        }
        lemma_calls_add_up(front);
        assert(lines =~= before + seq![line]);
        lemma_lines_add_up_in_parts(zeros(), before, seq![line]);
        let sums = add_lines(zeros(), before)->Ok_0;
        lemma_one_line_adds_up(sums, line);
        assert forall|k: int| 0 <= k < 9 && k < call.counts.len() implies #[trigger] sums[k]
            + call.counts[k] <= u64::MAX by {
            assert(events_of_calls(calls, k) <= u64::MAX);
        }
        lemma_written_costs_are_added(sums, call.line, call.counts);
        let totals = add_lines(zeros(), lines)->Ok_0;
        assert forall|k: int| 0 <= k < 9 implies #[trigger] totals[k] == events_of_calls(
            calls,
            k,
        ) by {
            assert(sums[k] == events_of_calls(front, k));
        }
    }
}

/// What is read out of a file is what was written into it: after a first line, and under the name
/// of the benchmark, any own costs and then any calls with any counts, the counts that are read
/// are, event by event, the sums over the calls, as long as these fit in 64 bits. The own costs of
/// the benchmark function are left out, wherever they stand.
pub proof fn lemma_written_calls_are_read(
    header: Seq<char>,
    module: Seq<char>,
    function_name: Seq<char>,
    own: Seq<(nat, Seq<u64>)>,
    calls: Seq<Call>,
)
    requires
        !crate::text::blank(header),
        forall|k: int| 0 <= k < 9 ==> #[trigger] events_of_calls(calls, k) <= u64::MAX,
    ensures
        counted(
            seq![header, "fn="@ + module + "::"@ + function_name] + written_own(own)
                + written_calls(calls),
            sentinel(module, function_name),
        ) matches Ok(totals) && totals.len() == 9 && forall|k: int|
            0 <= k < 9 ==> #[trigger] totals[k] == events_of_calls(calls, k),
{
    let opening = "fn="@ + module + "::"@ + function_name;
    let none = Seq::<Seq<char>>::empty();
    let lines = seq![header, opening] + written_own(own) + written_calls(calls);
    reveal_strlit("fn=");
    crate::text::lemma_trimmed_start_takes_white_space(Seq::empty(), opening);
    assert(Seq::<char>::empty() + opening =~= opening);
    assert(opening.subrange(0, opening.len() as int) =~= opening);
    lemma_costs_of_calls(calls);
    lemma_calls_add_up(calls);
    assert forall|i: int| 0 <= i < written_own(own).len() implies !crate::text::blank(
        #[trigger] written_own(own)[i],
    ) && !"cfn="@.is_prefix_of(crate::text::trimmed_start(written_own(own)[i])) by {
        lemma_costs_are_solid(own[i].0, own[i].1);
    }
    let end = Seq::<char>::empty();
    if calls.len() == 0 {
        lemma_record_ends_at_blank_line(written_own(own), end, none);
        lemma_no_line_after("cfn="@, written_own(own));
        lemma_lines_after_first(sentinel(module, function_name), none, opening, written_own(own));
        let rest = none + seq![opening] + written_own(own);
        lemma_body_follows_first_line(none, header, rest);
        assert(lines =~= none + seq![header] + rest);
    } else {
        let called = written_calls(calls)[0];
        let record = written_calls(calls).drop_first();
        lemma_call_lines_are_solid(calls[0].function, calls[0].times);
        assert forall|i: int| 0 <= i < record.len() implies !crate::text::blank(
            #[trigger] record[i],
        ) by {
            assert(record[i] == written_calls(calls)[i + 1]);
        }
        if written_calls(calls).len() < 2 {
            assert(call_costs(record) =~= call_costs(written_calls(calls)));
        }
        assert(call_costs(record) == call_costs(written_calls(calls)));
        lemma_calls_of_benchmark_count(
            none,
            header,
            none,
            opening,
            written_own(own),
            called,
            record,
            end,
            none,
            module,
            function_name,
        );
        assert(lines =~= none + seq![header] + (none + seq![opening] + (written_own(own)
            + seq![called] + record)));
    }
}

/// How far the reading has come is known from the lines: it leaves the blank lines behind with the
/// first line that is not blank, finds the record with the line that starts with the sentinel,
/// counts from the first line on that starts with `cfn=`, and ends with the first blank line of
/// the record. No line takes it back.
pub proof fn lemma_lines_move_reading_on(progress: Progress, line: Seq<char>)
    requires
        step(progress, line) is Ok,
    ensures
        ({
            let next = step(progress, line)->Ok_0.stage;
            let rest = crate::text::trimmed_start(line);
            let blank = crate::text::blank(line);
            &&& progress.stage == Stage::Header ==> (blank ==> next == Stage::Header) && (!blank
                ==> next == Stage::Searching)
            &&& progress.stage == Stage::Searching ==> (progress.sentinel.is_prefix_of(rest)
                ==> next == Stage::Recording) && (!progress.sentinel.is_prefix_of(rest) ==> next
                == Stage::Searching)
            &&& progress.stage == Stage::Recording && !blank ==> ("cfn="@.is_prefix_of(rest)
                ==> next == Stage::Counting) && (!"cfn="@.is_prefix_of(rest) ==> next
                == Stage::Recording)
            &&& progress.stage == Stage::Counting && !blank ==> next == Stage::Counting
            &&& progress.stage == Stage::Recording || progress.stage == Stage::Counting ==> (blank
                <==> next == Stage::Finished)
            &&& progress.stage == Stage::Finished ==> next == Stage::Finished
        }),
{
    reveal_strlit("cfn=");
}

/// Costs are expected after a line exactly where that line is about a call, and the reading keeps
/// to its sentinel.
pub proof fn lemma_call_announces_costs(progress: Progress, line: Seq<char>)
    requires
        step(progress, line) is Ok,
    ensures
        step(progress, line)->Ok_0.sentinel == progress.sentinel,
        step(progress, line)->Ok_0.stage == Stage::Counting ==> (step(progress, line)->Ok_0.called
            <==> "calls="@.is_prefix_of(crate::text::trimmed_start(line))),
{
    reveal_strlit("cfn=");
    reveal_strlit("calls=");
    let rest = crate::text::trimmed_start(line);
    if "calls="@.is_prefix_of(rest) {
        assert(rest.subrange(0, "calls="@.len() as int)[0] == 'c');
        assert(rest.subrange(0, "calls="@.len() as int)[1] == 'a');
        assert(rest[0] == 'c' && rest[1] == 'a');
        if "cfn="@.is_prefix_of(rest) {
            assert(rest.subrange(0, "cfn="@.len() as int)[1] == 'f');
        }
    }
}

/// A line changes the totals, or is refused, only where costs are expected and it starts with a
/// digit. It then changes them as a cost line does.
pub proof fn lemma_only_costs_of_calls_count(progress: Progress, line: Seq<char>)
    ensures
        ({
            let rest = crate::text::trimmed_start(line);
            if progress.stage == Stage::Counting && progress.called && rest.len() > 0 && '0'
                <= rest[0] <= '9' {
                match add_line(progress.totals, rest) {
                    Ok(totals) => step(progress, line) matches Ok(next) && next.totals == totals,
                    Err(error) => step(progress, line) == Err::<Progress, ParseError>(error),
                }
            } else {
                step(progress, line) matches Ok(next) && next.totals == progress.totals
            }
        }),
{
}

/// Whether a file names its format is decided by its first line that is not blank, and by no
/// other line.
pub proof fn lemma_first_line_names_format(
    start: Progress,
    blanks: Seq<Seq<char>>,
    header: Seq<char>,
    rest: Seq<Seq<char>>,
)
    requires
        start.stage == Stage::Header,
        forall|i: int| 0 <= i < blanks.len() ==> crate::text::blank(#[trigger] blanks[i]),
        !crate::text::blank(header),
    ensures
        run(start, blanks + seq![header] + rest) matches Ok(end) ==> (end.specified
            <==> crate::text::contains_text(header, "callgrind format"@)),
    decreases blanks.len(),
{
    let lines = blanks + seq![header] + rest;
    if blanks.len() == 0 {
        assert(lines.drop_first() =~= rest);
        if let Ok(next) = step(start, header) {
            lemma_format_stays(next, rest);
        }
    } else {
        let tail = blanks.drop_first();
        assert forall|i: int| 0 <= i < tail.len() implies crate::text::blank(#[trigger] tail[i]) by {
            assert(tail[i] == blanks[i + 1]);
        }
        assert(crate::text::blank(blanks[0]));
        assert(lines.drop_first() =~= tail + seq![header] + rest);
        lemma_first_line_names_format(start, tail, header, rest);
    }
}

proof fn lemma_format_stays(progress: Progress, lines: Seq<Seq<char>>)
    requires
        progress.stage != Stage::Header,
    ensures
        run(progress, lines) matches Ok(end) ==> end.specified == progress.specified,
    decreases lines.len(),
{
    if lines.len() > 0 {
        if let Ok(next) = step(progress, lines[0]) {
            lemma_format_stays(next, lines.drop_first());
        }
    }
}

/// What a parser has read is what it holds.
pub proof fn lemma_parser_holds_progress(parser: OutputParser)
    ensures
        parser@.sentinel == parser.sentinel@,
        parser@.stage == parser.stage,
        parser@.specified == parser.specified,
        parser@.called == parser.called,
        parser@.totals == parser.totals@,
{
}

/// A line leaves alone what it has no bearing on: whether the format was named, once the first
/// line that is not blank is past, and whether costs are expected, outside of the counted part of
/// the record.
pub proof fn lemma_line_leaves_rest_alone(progress: Progress, line: Seq<char>)
    requires
        step(progress, line) is Ok,
    ensures
        progress.stage != Stage::Header || crate::text::blank(line) ==> step(
            progress,
            line,
        )->Ok_0.specified == progress.specified,
        step(progress, line)->Ok_0.stage != Stage::Counting ==> step(progress, line)->Ok_0.called
            == progress.called,
{
}

} // verus!
