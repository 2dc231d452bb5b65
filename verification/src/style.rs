//! Text in the colors and styles of the terminal.
//!
//! Whether text is colored at all is decided by the `colored` crate from the environment, so each
//! function here may also hand its text back as it is.
use colored::Colorize;
use vstd::prelude::*;

verus! {

/// What ends every color and style.
pub open spec fn reset() -> Seq<char> {
    "\u{1b}[0m"@
}

/// `text` with `style` started anew after each end of a style within it.
pub open spec fn restyled(text: Seq<char>, style: Seq<char>) -> Seq<char>
    decreases text.len(),
{
    if text.len() == 0 {
        text
    } else if text.len() >= 4 && reset() == text.take(4) {
        reset() + style + restyled(text.skip(4), style)
    } else {
        seq![text[0]] + restyled(text.drop_first(), style)
    }
}

/// Whether `shown` is `text`, either plain or between the start of `style` and its end.
pub open spec fn styled(shown: Seq<char>, style: Seq<char>, text: Seq<char>) -> bool {
    shown == text || shown == style + restyled(text, style) + reset()
}

/// The colors and styles in use.
#[derive(Clone, Copy, Debug, PartialEq, Eq, Structural)]
pub enum Style {
    Bold,
    Green,
    /// Gray.
    BrightBlack,
    BoldBrightRed,
    BoldBrightGreen,
}

impl Style {
    /// What starts text of this style.
    pub open spec fn start(self) -> Seq<char> {
        match self {
            Style::Bold => "\u{1b}[1m"@,
            Style::Green => "\u{1b}[32m"@,
            Style::BrightBlack => "\u{1b}[90m"@,
            Style::BoldBrightRed => "\u{1b}[1;91m"@,
            Style::BoldBrightGreen => "\u{1b}[1;92m"@,
        }
    }
}

/// A text and the style in which it is to be shown.
#[derive(Debug)]
pub struct StyledText {
    pub text: String,
    pub style: Style,
}

impl StyledText {
    /// The text in its style, or plain where nothing is colored.
    pub fn show(&self) -> (shown: String)
        ensures
            styled(shown@, self.style.start(), self.text@),
    {
        match self.style {
            Style::Bold => bold(self.text.as_str()),
            Style::Green => green(self.text.as_str()),
            Style::BrightBlack => bright_black(self.text.as_str()),
            Style::BoldBrightRed => bold_bright_red(self.text.as_str()),
            Style::BoldBrightGreen => bold_bright_green(self.text.as_str()),
        }
    }
}

/// `Colorize::bold` of the `colored` crate, written out: the text is plain or, where the crate
/// colors at all, in bold. While the text is written, the setting that decides this is taken to
/// stay the same.
#[verifier::external_body]
fn bold(text: &str) -> (shown: String)
    ensures
        styled(shown@, Style::Bold.start(), text@),
{
    text.bold().to_string()
}

/// `Colorize::green` of the `colored` crate, written out: the text is plain or, where the crate
/// colors at all, green. While the text is written, the setting that decides this is taken to
/// stay the same.
#[verifier::external_body]
fn green(text: &str) -> (shown: String)
    ensures
        styled(shown@, Style::Green.start(), text@),
{
    text.green().to_string()
}

/// `Colorize::bright_black` of the `colored` crate, written out: the text is plain or, where the
/// crate colors at all, bright black. While the text is written, the setting that decides this is
/// taken to stay the same.
#[verifier::external_body]
fn bright_black(text: &str) -> (shown: String)
    ensures
        styled(shown@, Style::BrightBlack.start(), text@),
{
    text.bright_black().to_string()
}

/// `Colorize::bright_red` and then `Colorize::bold` of the `colored` crate, written out: the text
/// is plain or, where the crate colors at all, in bold bright red. While the text is written, the
/// setting that decides this is taken to stay the same.
#[verifier::external_body]
fn bold_bright_red(text: &str) -> (shown: String)
    ensures
        styled(shown@, Style::BoldBrightRed.start(), text@),
{
    text.bright_red().bold().to_string()
}

/// `Colorize::bright_green` and then `Colorize::bold` of the `colored` crate, written out: the
/// text is plain or, where the crate colors at all, in bold bright green. While the text is
/// written, the setting that decides this is taken to stay the same.
#[verifier::external_body]
fn bold_bright_green(text: &str) -> (shown: String)
    ensures
        styled(shown@, Style::BoldBrightGreen.start(), text@),
{
    text.bright_green().bold().to_string()
}

/// Text without escape sequences is shown as it stands, at most with a style around it.
pub proof fn lemma_plain_text_is_kept(shown: Seq<char>, style: Seq<char>, text: Seq<char>)
    requires
        styled(shown, style, text),
        forall|i: int| 0 <= i < text.len() ==> text[i] != '\u{1b}',
    ensures
        shown == text || shown == style + text + reset(),
{
    lemma_restyled_plain(text, style);
}

proof fn lemma_restyled_plain(text: Seq<char>, style: Seq<char>)
    requires
        forall|i: int| 0 <= i < text.len() ==> text[i] != '\u{1b}',
    ensures
        restyled(text, style) == text,
    decreases text.len(),
{
    if text.len() > 0 {
        reveal_strlit("\u{1b}[0m");
        assert(reset()[0] == '\u{1b}');
        if text.len() >= 4 {
            assert(text.take(4)[0] == text[0]);
        }
        lemma_restyled_plain(text.drop_first(), style);
        assert(seq![text[0]] + text.drop_first() =~= text);
    }
}

/// The escape sequences of the styles: bold is 1, and the colors are 32 and 90 to 92.
pub proof fn lemma_escape_sequences()
    ensures
        Style::Bold.start() == seq!['\u{1b}', '[', '1', 'm'],
        Style::Green.start() == seq!['\u{1b}', '[', '3', '2', 'm'],
        Style::BrightBlack.start() == seq!['\u{1b}', '[', '9', '0', 'm'],
        Style::BoldBrightRed.start() == seq!['\u{1b}', '[', '1', ';', '9', '1', 'm'],
        Style::BoldBrightGreen.start() == seq!['\u{1b}', '[', '1', ';', '9', '2', 'm'],
        reset() == seq!['\u{1b}', '[', '0', 'm'],
{
    reveal_strlit("\u{1b}[1m");
    reveal_strlit("\u{1b}[32m");
    reveal_strlit("\u{1b}[90m");
    reveal_strlit("\u{1b}[1;91m");
    reveal_strlit("\u{1b}[1;92m");
    reveal_strlit("\u{1b}[0m");
    assert(Style::Bold.start() =~= seq!['\u{1b}', '[', '1', 'm']);
    assert(Style::Green.start() =~= seq!['\u{1b}', '[', '3', '2', 'm']);
    assert(Style::BrightBlack.start() =~= seq!['\u{1b}', '[', '9', '0', 'm']);
    assert(Style::BoldBrightRed.start() =~= seq!['\u{1b}', '[', '1', ';', '9', '1', 'm']);
    assert(Style::BoldBrightGreen.start() =~= seq!['\u{1b}', '[', '1', ';', '9', '2', 'm']);
    assert(reset() =~= seq!['\u{1b}', '[', '0', 'm']);
}

/// A style is started anew after each end of a style, on both sides of which the text is treated
/// as if it stood alone.
pub proof fn lemma_style_goes_on_after_reset(
    before: Seq<char>,
    after: Seq<char>,
    style: Seq<char>,
)
    ensures
        restyled(before + reset() + after, style) == restyled(before, style) + reset() + style
            + restyled(after, style),
    decreases before.len(),
{
    lemma_escape_sequences();
    let end = reset();
    let text = before + end + after;
    if before.len() == 0 {
        assert(text.take(4) =~= end);
        assert(text.skip(4) =~= after);
        assert(restyled(text, style) =~= restyled(before, style) + end + style + restyled(
            after,
            style,
        ));
    } else if before.len() >= 4 && end == before.take(4) {
        assert(text.take(4) =~= end);
        assert(text.skip(4) =~= before.skip(4) + end + after);
        lemma_style_goes_on_after_reset(before.skip(4), after, style);
        assert(restyled(text, style) =~= restyled(before, style) + end + style + restyled(
            after,
            style,
        ));
    } else {
        if end == text.take(4) {
            if before.len() >= 4 {
                assert(text.take(4) =~= before.take(4));
            } else {
                let n = before.len() as int;
                assert(text.take(4)[n] == text[n]);
                assert(text[n] == end[0]);
            }
        }
        assert(text.drop_first() =~= before.drop_first() + end + after);
        lemma_style_goes_on_after_reset(before.drop_first(), after, style);
        assert(restyled(text, style) =~= restyled(before, style) + end + style + restyled(
            after,
            style,
        ));
    }
}

/// Text is either shown as it is or between the start and the end of its style.
pub proof fn lemma_shown_in_one_of_two_ways(shown: Seq<char>, style: Seq<char>, text: Seq<char>)
    ensures
        styled(shown, style, text) <==> shown == text || shown == style + restyled(text, style)
            + seq!['\u{1b}', '[', '0', 'm'],
{
    lemma_escape_sequences();
}

/// Text in which no style ends is kept as it stands.
pub proof fn lemma_text_without_reset_is_kept(text: Seq<char>, style: Seq<char>)
    requires
        forall|i: int| 0 <= i <= text.len() - 4 ==> #[trigger] text.skip(i).take(4) != reset(),
    ensures
        restyled(text, style) == text,
    decreases text.len(),
{
    if text.len() > 0 {
        let tail = text.drop_first();
        if text.len() >= 4 {
            assert(text.skip(0).take(4) =~= text.take(4));
        }
        assert forall|i: int| 0 <= i <= tail.len() - 4 implies #[trigger] tail.skip(i).take(4)
            != reset() by {
            assert(tail.skip(i).take(4) =~= text.skip(i + 1).take(4));
        }
        lemma_text_without_reset_is_kept(tail, style);
        assert(seq![text[0]] + tail =~= text);
    }
}

} // verus!
