use iai_callgrind_runner::output::{parse_callgrind_output, OutputParser, ParseError, Stage};
use iai_callgrind_runner::stats::CallgrindStats;

const SAMPLE: &str = "# callgrind format
# ... a lot of lines without interest
fn=test_file::test_function
0 4 1 2 1 1 0 1
cfn=some::library::function
calls=1 0
0 3 1 0 1 0 0 1
0 12 3 6 1 0 0 1
cfn=some::other::library::function
calls=1 0
0 6789 593 463 72 37 18 72 37 18
0 4 2 0 1 0 0 1

# the empty line above or the end of the file ends the record
0 1000 1000
";

fn lines_of(text: &str) -> Vec<String> {
    text.lines().map(String::from).collect()
}

fn parse(text: &str) -> Result<CallgrindStats, ParseError> {
    parse_callgrind_output(&lines_of(text), "test_file", "test_function")
}

fn stats(counters: [u64; 9]) -> CallgrindStats {
    CallgrindStats::from_counters(&counters)
}

#[test]
fn sample_file() {
    let found = parse(SAMPLE).unwrap();
    assert_eq!(found, stats([6792, 594, 463, 73, 37, 18, 73, 37, 18]));
    assert_eq!(found.l1_instructions_cache_reads, 6792);
    assert_eq!(found.total_data_cache_reads, 594);
    assert_eq!(found.total_data_cache_writes, 463);
    assert_eq!(found.l1_instructions_cache_read_misses, 73);
    assert_eq!(found.l1_data_cache_read_misses, 37);
    assert_eq!(found.l1_data_cache_write_misses, 18);
    assert_eq!(found.l3_instructions_cache_misses, 73);
    assert_eq!(found.l3_data_cache_read_misses, 37);
    assert_eq!(found.l3_data_cache_write_misses, 18);
}

#[test]
fn own_costs_are_ignored() {
    let found = parse_callgrind_output(
        &lines_of("# callgrind format\nfn=m::f\ncfn=a\ncalls=1 0\n0 3\n0 12\n\n"),
        "m",
        "f",
    );
    assert_eq!(found, Ok(stats([3, 0, 0, 0, 0, 0, 0, 0, 0])));
    // Only the line directly after counts, and only from the first called function on.
    let head = "x\nfn=test_file::test_function\n";
    for record in ["calls=1 0\n0 5\n", "cfn=a\n0 5\n", "cfn=a\ncalls=1 0\njump=1\n0 5\n"] {
        assert_eq!(parse(&format!("{}{}", head, record)), Ok(stats([0; 9])));
    }
    let record = "calls=1 0\ncfn=a\n0 5\ncalls=1 0\ncalls=1 0\n 0 6\n0 junk\ncalls=2 0\n0 7\n";
    assert_eq!(
        parse(&format!("{}{}", head, record)),
        Ok(stats([13, 0, 0, 0, 0, 0, 0, 0, 0]))
    );
}

#[test]
fn empty_files() {
    assert_eq!(parse(""), Err(ParseError::EmptyFile));
    assert_eq!(parse(" \n\t\n\n"), Err(ParseError::EmptyFile));
    assert_eq!(ParseError::EmptyFile.message(), "Found empty file");
}

#[test]
fn counts_must_be_numbers() {
    let head = "x\nfn=test_file::test_function\ncfn=a\ncalls=1 0\n";
    for bad in ["0 1 x", "0 -1", "0 18446744073709551616", "0 1.5"] {
        assert_eq!(parse(&format!("{}{}\n", head, bad)), Err(ParseError::InvalidCounter));
    }
    assert_eq!(ParseError::InvalidCounter.message(), "Encountered non ascii digit");
    // The line number and what follows the ninth count are not read.
    let fine = parse(&format!("{}0x+! +1 2 3 4 5 6 7 8 9 junk\n", head));
    assert_eq!(fine, Ok(stats([1, 2, 3, 4, 5, 6, 7, 8, 9])));
}

#[test]
fn counts_must_not_overflow() {
    let head = "x\nfn=test_file::test_function\ncfn=a\ncalls=1 0\n0 0 18446744073709551615\n";
    assert_eq!(parse(head), Ok(stats([0, u64::MAX, 0, 0, 0, 0, 0, 0, 0])));
    assert_eq!(parse(&format!("{}calls=1 0\n0 5 1\n", head)), Err(ParseError::CounterOverflow));
    assert_eq!(parse(&format!("{}calls=1 0\n0 5 1 x\n", head)), Err(ParseError::CounterOverflow));
    assert_eq!(parse(&format!("{}calls=1 0\n0 x 1\n", head)), Err(ParseError::InvalidCounter));
    assert_eq!(ParseError::CounterOverflow.message(), "attempt to add with overflow");
}

#[test]
fn record_without_calls_counts_nothing() {
    assert_eq!(parse("x\nfn=test_file::test_function\n0 1 2 3\n"), Ok(stats([0; 9])));
}

#[test]
fn missing_benchmark_counts_nothing() {
    assert_eq!(parse("x\nfn=other\ncfn=a\ncalls=1 0\n0 1 2 3\n"), Ok(stats([0; 9])));
    // The first line is never more than a header.
    assert_eq!(parse("fn=test_file::test_function\ncfn=a\ncalls=1 0\n0 1\n"), Ok(stats([0; 9])));
}

#[test]
fn white_space_in_front_is_ignored() {
    let text = "\n \n x\n\tfn=test_file::test_function and more\n  cfn=a\n\t calls=1 0\n \u{3000}7 1 2\n \ncalls=1 0\n0 5\n";
    assert_eq!(parse(text), Ok(stats([1, 2, 0, 0, 0, 0, 0, 0, 0])));
}

#[test]
fn lines_after_the_record_are_ignored() {
    let with_junk = format!("{}cfn=a\ncalls=1 0\n0 junk\n", SAMPLE);
    assert_eq!(parse(&with_junk), parse(SAMPLE));
}

#[test]
fn format_line_is_optional() {
    assert_eq!(parse(&SAMPLE.replace("callgrind format", "?")), parse(SAMPLE));
}

#[test]
fn line_by_line() {
    let mut parser = OutputParser::new("test_file", "test_function");
    assert_eq!(parser.finish(), Err(ParseError::EmptyFile));
    assert_eq!(parser.feed("  "), Ok(true));
    assert_eq!(parser.stage, Stage::Header);
    assert_eq!(parser.feed("# callgrind format"), Ok(true));
    assert_eq!(parser.stage, Stage::Searching);
    assert!(parser.specified);
    assert_eq!(parser.feed("fn=test_file::test_function"), Ok(true));
    assert_eq!(parser.stage, Stage::Recording);
    assert_eq!(parser.feed("0 1"), Ok(true));
    assert_eq!(parser.feed("cfn=a"), Ok(true));
    assert_eq!(parser.stage, Stage::Counting);
    assert_eq!(parser.feed("0 5 6"), Ok(true));
    assert!(!parser.called);
    assert_eq!(parser.feed("calls=1 0"), Ok(true));
    assert!(parser.called);
    assert_eq!(parser.feed("0 5 6"), Ok(true));
    assert!(!parser.called);
    assert_eq!(parser.feed("calls=1 0"), Ok(true));
    assert_eq!(parser.feed("0 5 x"), Err(ParseError::InvalidCounter));
    assert_eq!(parser.finish(), Ok(stats([5, 6, 0, 0, 0, 0, 0, 0, 0])));
    assert_eq!(parser.feed(""), Ok(false));
    assert_eq!(parser.feed("0 5 6"), Ok(false));
    assert_eq!(parser.finish(), Ok(stats([5, 6, 0, 0, 0, 0, 0, 0, 0])));
}

#[test]
fn missing_format_line_is_noticed() {
    let mut parser = OutputParser::new("a", "b");
    assert_eq!(parser.feed("version: 1"), Ok(true));
    assert!(!parser.specified);
}
