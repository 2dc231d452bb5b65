//! What is printed about a benchmark.
use crate::stats::{CallgrindStats, CallgrindSummary};
use crate::style::{styled, Style, StyledText};
use crate::text::{align_right, contains_text, decimal, right_aligned, to_decimal};
use vstd::prelude::*;

verus! {

/// What is said above the results of a benchmark: its full name, in green.
pub fn title(module: &str, function_name: &str) -> (title: StyledText)
    ensures
        title.text@ == module@ + "::"@ + function_name@,
        title.style == Style::Green,
{
    let mut text = module.to_owned();
    text.append("::");
    text.append(function_name);
    StyledText { text, style: Style::Green }
}

/// The line above the results of a benchmark, as it is printed.
pub fn bench_title(module: &str, function_name: &str) -> (shown: String)
    ensures
        styled(shown@, Style::Green.start(), module@ + "::"@ + function_name@),
{
    title(module, function_name).show()
}

/// How many decimals a percentage is shown with, given its whole part: as many as make seven
/// digits together with the whole part, or none where the whole part has seven itself.
pub fn short_precision(whole: u64) -> (decimals: usize)
    ensures
        decimals == if decimal(whole as nat).len() < 7 {
            7 - decimal(whole as nat).len()
        } else {
            0
        },
        decimals <= 6,
        decimals == 6 <==> whole < 10,
        decimals == 5 <==> 10 <= whole < 100,
        decimals == 4 <==> 100 <= whole < 1000,
        decimals == 3 <==> 1000 <= whole < 10000,
        decimals == 2 <==> 10000 <= whole < 100000,
        decimals == 1 <==> 100000 <= whole < 1000000,
{
    proof {
        lemma_decimal_len(whole as nat);
    }
    if whole < 10 {
        6
    } else if whole < 100 {
        5
    } else if whole < 1000 {
        4
    } else if whole < 10000 {
        3
    } else if whole < 100000 {
        2
    } else if whole < 1000000 {
        1
    } else {
        0
    }
}

proof fn lemma_decimal_len(value: nat)
    ensures
        value < 10 ==> decimal(value).len() == 1,
        10 <= value < 100 ==> decimal(value).len() == 2,
        100 <= value < 1000 ==> decimal(value).len() == 3,
        1000 <= value < 10000 ==> decimal(value).len() == 4,
        10000 <= value < 100000 ==> decimal(value).len() == 5,
        100000 <= value < 1000000 ==> decimal(value).len() == 6,
        1000000 <= value ==> decimal(value).len() >= 7,
    decreases value,
{
    if value >= 10 {
        lemma_decimal_len(value / 10);
    }
}

/// By how much a number has changed, in percent.
#[derive(Debug)]
pub struct Percentage {
    /// The percentage with its sign.
    pub text: String,
    /// Whether the sign is a plus.
    pub positive: bool,
}

/// The percentage in the form in which it is shown.
pub open spec fn percent_text(percentage: Percentage) -> Seq<char> {
    right_aligned(percentage.text@, 6) + "%"@
}

/// What the note on the change from `old` to `new` says.
pub open spec fn note_text(new: u64, old: u64, percentage: Percentage) -> Seq<char> {
    if new == old {
        "No Change"@
    } else {
        percent_text(percentage)
    }
}

/// The color of the note: gray where nothing has changed, red where the percentage is positive
/// and green where it is not.
pub open spec fn note_style(new: u64, old: u64, percentage: Percentage) -> Style {
    if new == old {
        Style::BrightBlack
    } else if percentage.positive {
        Style::BoldBrightRed
    } else {
        Style::BoldBrightGreen
    }
}

/// The note on the change from `old` to `new`, given the change in percent. The percentage only
/// matters where there is a change.
pub fn change_note(new: u64, old: u64, percentage: &Percentage) -> (note: StyledText)
    ensures
        note.text@ == note_text(new, old, *percentage),
        note.style == note_style(new, old, *percentage),
        note.style == Style::BrightBlack <==> new == old,
        note.style == Style::BoldBrightRed <==> new != old && percentage.positive,
        note.style == Style::BoldBrightGreen <==> new != old && !percentage.positive,
        new == old ==> note.text@ == "No Change"@,
        new != old ==> note.text@ == right_aligned(percentage.text@, 6) + "%"@,
{
    if new == old {
        return StyledText { text: "No Change".to_owned(), style: Style::BrightBlack };
    }
    let mut text = align_right(percentage.text.as_str(), 6);
    text.append("%");
    let style = if percentage.positive {
        Style::BoldBrightRed
    } else {
        Style::BoldBrightGreen
    };
    StyledText { text, style }
}

/// Whether `shown` is the note on the change from `old` to `new`, in parentheses.
pub open spec fn is_difference(
    shown: Seq<char>,
    new: u64,
    old: u64,
    percentage: Percentage,
) -> bool {
    exists|note: Seq<char>|
        shown == " ("@ + note + ")"@ && #[trigger] styled(
            note,
            note_style(new, old, percentage).start(),
            note_text(new, old, percentage),
        )
}

/// A note in parentheses, with a space in front.
pub fn parenthesized(note: &str) -> (shown: String)
    ensures
        shown@ == " ("@ + note@ + ")"@,
{
    let mut shown = " (".to_owned();
    shown.append(note);
    shown.append(")");
    shown
}

/// The note on the change from `old` to `new` as it is printed, in parentheses.
pub fn percentage_diff(new: u64, old: u64, percentage: &Percentage) -> (shown: String)
    ensures
        is_difference(shown@, new, old, *percentage),
{
    let note = change_note(new, old, percentage).show();
    parenthesized(note.as_str())
}

/// The note says that there is no change exactly where the two numbers are the same.
pub proof fn lemma_no_change_iff_equal(new: u64, old: u64, percentage: Percentage)
    ensures
        note_text(new, old, percentage) == "No Change"@ <==> new == old,
{
    reveal_strlit("No Change");
    reveal_strlit("%");
    assert(percent_text(percentage).last() == '%');
    assert("No Change"@.last() == 'e');
}

/// The note in plain text reads `NaN` only where two different numbers came with a percentage
/// that does. Numbers that are the same, zero among them, never do.
pub proof fn lemma_note_is_a_number(new: u64, old: u64, percentage: Percentage)
    requires
        new != old ==> !contains_text(percentage.text@, "NaN"@),
    ensures
        !contains_text(" ("@ + note_text(new, old, percentage) + ")"@, "NaN"@),
{
    reveal_strlit("NaN");
    reveal_strlit(" (");
    reveal_strlit(")");
    reveal_strlit("%");
    reveal_strlit("No Change");
    let text = percentage.text@;
    let note = note_text(new, old, percentage);
    let shown = " ("@ + note + ")"@;
    if contains_text(shown, "NaN"@) {
        let i = choose|i: int|
            0 <= i <= shown.len() && #[trigger] "NaN"@.is_prefix_of(
                shown.subrange(i, shown.len() as int),
            );
        let found = shown.subrange(i, shown.len() as int).subrange(0, 3);
        assert(found[0] == 'N' && found[1] == 'a' && found[2] == 'N');
        assert(shown[i] == 'N' && shown[i + 1] == 'a' && shown[i + 2] == 'N');
        assert(note[i - 2] == 'N' && note[i - 1] == 'a' && note[i] == 'N');
        if new != old {
            let padding = right_aligned(text, 6).len() - text.len();
            let at = i - 2 - padding;
            assert(0 <= at && at + 2 < text.len());
            assert(text[at] == 'N' && text[at + 1] == 'a' && text[at + 2] == 'N');
            assert("NaN"@ =~= text.subrange(at, text.len() as int).subrange(0, 3));
            assert("NaN"@.is_prefix_of(text.subrange(at, text.len() as int)));
        }
    }
}

/// One line of the results.
#[derive(Debug)]
pub struct Row {
    /// What the line is about.
    pub label: String,
    /// The number of this run.
    pub value: u64,
    /// The number of the run before, if there was one.
    pub old: Option<u64>,
}

impl Row {
    /// The number of this run: in bold, on the right of a field of 15 characters.
    pub fn number(&self) -> (number: StyledText)
        ensures
            number.text@ == right_aligned(decimal(self.value as nat), 15),
            number.style == Style::Bold,
    {
        StyledText {
            text: align_right(to_decimal(self.value).as_str(), 15),
            style: Style::Bold,
        }
    }

    /// The line made up of the label, the number as it is shown and the note as it is shown.
    pub fn assembled(&self, number: &str, note: &str) -> (shown: String)
        ensures
            shown@ == self.label@ + number@ + note@,
    {
        let mut shown = self.label.clone();
        shown.append(number);
        shown.append(note);
        shown
    }

    /// The line as it is printed: the label, the number in bold in a field of 15 characters, and
    /// a note on the change where there was a run before. `percentage` is the change in percent.
    pub fn line(&self, percentage: &Percentage) -> (shown: String)
        ensures
            exists|number: Seq<char>, note: Seq<char>|
                shown@ == self.label@ + number + note && #[trigger] styled(
                    number,
                    Style::Bold.start(),
                    right_aligned(decimal(self.value as nat), 15),
                ) && #[trigger] self.is_note(note, *percentage),
    {
        let number = self.number().show();
        let note = match self.old {
            Some(old) => percentage_diff(self.value, old, percentage),
            None => String::new(),
        };
        assert(self.is_note(note@, *percentage));
        self.assembled(number.as_str(), note.as_str())
    }

    /// Whether `note` is what follows the number: the change, or nothing without a run before.
    pub open spec fn is_note(self, note: Seq<char>, percentage: Percentage) -> bool {
        match self.old {
            Some(old) => is_difference(note, self.value, old, percentage),
            None => note.len() == 0,
        }
    }
}

/// The labels of the lines, from top to bottom.
pub open spec fn labels() -> Seq<Seq<char>> {
    seq![
        "  Instructions:     "@,
        "  L1 Data Hits:     "@,
        "  L2 Hits:          "@,
        "  RAM Hits:         "@,
        "  Total read+write: "@,
        "  Estimated Cycles: "@,
    ]
}

/// The numbers of the lines, from top to bottom.
pub open spec fn figures(stats: CallgrindStats) -> Seq<int> {
    seq![
        stats.l1_instructions_cache_reads as int,
        stats.l1_data_hits(),
        stats.l3_hits(),
        stats.ram_hits(),
        stats.total_memory_rw(),
        stats.cycles(),
    ]
}

/// Whether `row` is line `i` of the results.
pub open spec fn is_row(
    row: Row,
    i: int,
    stats: CallgrindStats,
    old: Option<CallgrindStats>,
) -> bool {
    &&& row.label@ == labels()[i]
    &&& row.value == figures(stats)[i]
    &&& match old {
        Some(old) => row.old matches Some(value) && value == figures(old)[i],
        None => row.old is None,
    }
}

/// Puts a line together.
fn row(label: &str, value: u64, old: Option<u64>) -> (row: Row)
    ensures
        row.label@ == label@,
        row.value == value,
        row.old == old,
{
    Row { label: label.to_owned(), value, old }
}

impl CallgrindStats {
    /// The lines of the results, compared with those of the run before.
    pub fn rows(&self, old: Option<CallgrindStats>) -> (rows: Vec<Row>)
        requires
            self.consistent(),
            old matches Some(old) ==> old.consistent(),
        ensures
            rows@.len() == labels().len(),
            forall|i: int| 0 <= i < rows@.len() ==> is_row(#[trigger] rows@[i], i, *self, old),
    {
        let summary = self.summarize();
        let old_summary: Option<CallgrindSummary> = match old {
            Some(old) => Some(old.summarize()),
            None => None,
        };
        let mut rows: Vec<Row> = Vec::new();
        rows.push(
            row(
                "  Instructions:     ",
                summary.l1_instructions,
                match old_summary {
                    Some(old) => Some(old.l1_instructions),
                    None => None,
                },
            ),
        );
        rows.push(
            row(
                "  L1 Data Hits:     ",
                summary.l1_data_hits,
                match old_summary {
                    Some(old) => Some(old.l1_data_hits),
                    None => None,
                },
            ),
        );
        rows.push(
            row(
                "  L2 Hits:          ",
                summary.l3_hits,
                match old_summary {
                    Some(old) => Some(old.l3_hits),
                    None => None,
                },
            ),
        );
        rows.push(
            row(
                "  RAM Hits:         ",
                summary.ram_hits,
                match old_summary {
                    Some(old) => Some(old.ram_hits),
                    None => None,
                },
            ),
        );
        rows.push(
            row(
                "  Total read+write: ",
                summary.total_memory_rw,
                match old_summary {
                    Some(old) => Some(old.total_memory_rw),
                    None => None,
                },
            ),
        );
        rows.push(
            row(
                "  Estimated Cycles: ",
                summary.cycles,
                match old_summary {
                    Some(old) => Some(old.cycles),
                    None => None,
                },
            ),
        );
        rows
    }
}

/// Where two numbers differ, the note is red exactly where the percentage is positive and green
/// exactly where it is not; it is gray exactly where they are the same.
pub proof fn lemma_sign_decides_color(new: u64, old: u64, percentage: Percentage)
    ensures
        note_style(new, old, percentage) == Style::BoldBrightRed <==> new != old
            && percentage.positive,
        note_style(new, old, percentage) == Style::BoldBrightGreen <==> new != old
            && !percentage.positive,
        note_style(new, old, percentage) == Style::BrightBlack <==> new == old,
{
}

/// Of the two numbers only whether they are the same matters for the note: any two numbers that
/// differ are noted alike for the same percentage, and any two that are the same for every one.
pub proof fn lemma_note_depends_on_change_alone(
    new: u64,
    old: u64,
    other_new: u64,
    other_old: u64,
    percentage: Percentage,
    other: Percentage,
)
    requires
        new == old <==> other_new == other_old,
        new == old || percentage == other,
    ensures
        note_style(new, old, percentage) == note_style(other_new, other_old, other),
        note_text(new, old, percentage) == note_text(other_new, other_old, other),
{
}

/// The note on a change is the percentage with a percent sign behind it and nothing but spaces
/// in front, as many as make the percentage six characters long.
pub proof fn lemma_note_shows_percentage(new: u64, old: u64, percentage: Percentage)
    requires
        new != old,
    ensures
        ({
            let note = note_text(new, old, percentage);
            let text = percentage.text@;
            let padding = note.len() - 1 - text.len();
            &&& padding == if text.len() < 6 {
                6 - text.len()
            } else {
                0
            }
            &&& note.last() == '%'
            &&& note.subrange(padding, note.len() - 1) == text
            &&& forall|i: int| 0 <= i < padding ==> #[trigger] note[i] == ' '
        }),
{
    reveal_strlit("%");
    let note = note_text(new, old, percentage);
    let text = percentage.text@;
    assert(note.subrange(note.len() - 1 - text.len(), note.len() - 1) =~= text);
}

/// What is printed about a change is the note in parentheses, plain or in its color.
pub proof fn lemma_difference_is_note_in_parentheses(
    shown: Seq<char>,
    new: u64,
    old: u64,
    percentage: Percentage,
)
    ensures
        is_difference(shown, new, old, percentage) <==> {
            let text = if new == old {
                "No Change"@
            } else {
                right_aligned(percentage.text@, 6) + "%"@
            };
            let start = if new == old {
                Style::BrightBlack.start()
            } else if percentage.positive {
                Style::BoldBrightRed.start()
            } else {
                Style::BoldBrightGreen.start()
            };
            ||| shown == " ("@ + text + ")"@
            ||| shown == " ("@ + (start + crate::style::restyled(text, start)
                + crate::style::reset()) + ")"@
        },
{
    let text = note_text(new, old, percentage);
    let start = note_style(new, old, percentage).start();
    assert(styled(text, start, text));
    let colored = start + crate::style::restyled(text, start) + crate::style::reset();
    assert(styled(colored, start, text));
}

/// The note behind a number is about the change from the run before, and there is none without a
/// run before.
pub proof fn lemma_note_needs_run_before(row: Row, note: Seq<char>, percentage: Percentage)
    ensures
        row.old is None ==> (row.is_note(note, percentage) <==> note.len() == 0),
        row.old matches Some(old) ==> (row.is_note(note, percentage) <==> is_difference(
            note,
            row.value,
            old,
            percentage,
        )),
{
}

/// The lines of the results, with their labels, and where their numbers come from.
pub proof fn lemma_rows_show_counts(
    row: Row,
    i: int,
    stats: CallgrindStats,
    old: Option<CallgrindStats>,
)
    requires
        is_row(row, i, stats, old),
        0 <= i < 6,
    ensures
        labels().len() == 6,
        row.label@ == (if i == 0 {
            "  Instructions:     "@
        } else if i == 1 {
            "  L1 Data Hits:     "@
        } else if i == 2 {
            "  L2 Hits:          "@
        } else if i == 3 {
            "  RAM Hits:         "@
        } else if i == 4 {
            "  Total read+write: "@
        } else {
            "  Estimated Cycles: "@
        }),
        row.value == shown_figure(stats, i),
        old is None ==> row.old is None,
        old matches Some(before) ==> (row.old matches Some(value) && value == shown_figure(
            before,
            i,
        )),
{
}

/// The figure on line `i`, from the counts alone.
pub open spec fn shown_figure(stats: CallgrindStats, i: int) -> int {
    let instructions = stats.l1_instructions_cache_reads as int;
    let data = stats.total_data_cache_reads + stats.total_data_cache_writes;
    let misses = stats.l1_instructions_cache_read_misses + stats.l1_data_cache_read_misses
        + stats.l1_data_cache_write_misses;
    let ram = stats.l3_instructions_cache_misses + stats.l3_data_cache_read_misses
        + stats.l3_data_cache_write_misses;
    if i == 0 {
        instructions
    } else if i == 1 {
        data - misses
    } else if i == 2 {
        misses - ram
    } else if i == 3 {
        ram
    } else if i == 4 {
        instructions + data
    } else {
        instructions + data + 4 * misses + 30 * ram
    }
}

} // verus!
