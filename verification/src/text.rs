//! Text as sequences of characters: prefixes, white space, words, numbers and padding.
use vstd::prelude::*;

verus! {

/// The texts that a sequence of strings holds.
pub open spec fn texts(strings: Seq<String>) -> Seq<Seq<char>> {
    Seq::new(strings.len(), |i: int| strings[i]@)
}

/// The texts that a sequence of character vectors holds.
pub open spec fn char_texts(words: Seq<Vec<char>>) -> Seq<Seq<char>> {
    Seq::new(words.len(), |i: int| words[i]@)
}

/// The characters of `text`, one by one.
pub fn chars_of(text: &str) -> (chars: Vec<char>)
    ensures
        chars@ == text@,
{
    let mut chars: Vec<char> = Vec::new();
    for c in it: text.chars()
        invariant
            chars@ == it.seq().take(it.index() as int),
            it.seq() == text@,
    {
        chars.push(c);
    }
    chars
}

/// Whether `text` begins with `prefix`.
pub fn starts_with(text: &Vec<char>, prefix: &str) -> (yes: bool)
    ensures
        yes == prefix@.is_prefix_of(text@),
{
    let expected = chars_of(prefix);
    if expected.len() > text.len() {
        return false;
    }
    for i in 0..expected.len()
        invariant
            expected@ == prefix@,
            expected@.len() <= text@.len(),
            forall|j: int| 0 <= j < i ==> expected@[j] == text@[j],
    {
        if expected[i] != text[i] {
            assert(prefix@[i as int] != text@.subrange(0, prefix@.len() as int)[i as int]);
            return false;
        }
    }
    assert(prefix@ =~= text@.subrange(0, prefix@.len() as int));
    true
}

/// Whether `pattern` occurs somewhere in `text`.
pub open spec fn contains_text(text: Seq<char>, pattern: Seq<char>) -> bool {
    exists|i: int|
        0 <= i <= text.len() && #[trigger] pattern.is_prefix_of(text.subrange(i, text.len() as int))
}

/// Whether `pattern` occurs somewhere in `text`.
pub fn contains(text: &str, pattern: &str) -> (yes: bool)
    ensures
        yes == contains_text(text@, pattern@),
{
    let chars = chars_of(text);
    let wanted = chars_of(pattern);
    let mut at: usize = 0;
    while at < chars.len() && wanted.len() <= chars.len() - at
        invariant
            chars@ == text@,
            wanted@ == pattern@,
            at <= chars@.len(),
            forall|i: int|
                0 <= i < at ==> !(#[trigger] pattern@.is_prefix_of(
                    text@.subrange(i, text@.len() as int),
                )),
        decreases chars@.len() - at,
    {
        let mut same: usize = 0;
        let ghost rest = text@.subrange(at as int, text@.len() as int);
        while same < wanted.len() && chars[at + same] == wanted[same]
            invariant
                chars@ == text@,
                wanted@ == pattern@,
                same <= wanted@.len(),
                at + wanted@.len() <= chars.len(),
                rest == text@.subrange(at as int, text@.len() as int),
                forall|j: int| 0 <= j < same ==> rest[j] == pattern@[j],
            decreases wanted@.len() - same,
        {
            same = same + 1;
        }
        if same == wanted.len() {
            assert(pattern@ =~= rest.subrange(0, pattern@.len() as int));
            assert(pattern@.is_prefix_of(text@.subrange(at as int, text@.len() as int)));
            return true;
        }
        assert(rest.subrange(0, pattern@.len() as int)[same as int] != pattern@[same as int]);
        at = at + 1;
    }
    if wanted.len() == 0 {
        assert(pattern@.is_prefix_of(text@.subrange(at as int, text@.len() as int)));
        return true;
    }
    false
}

/// The characters with the Unicode property `White_Space`.
pub open spec fn white_space(c: char) -> bool {
    ||| '\u{9}' <= c <= '\u{d}'
    ||| c == '\u{20}'
    ||| c == '\u{85}'
    ||| c == '\u{a0}'
    ||| c == '\u{1680}'
    ||| '\u{2000}' <= c <= '\u{200a}'
    ||| c == '\u{2028}'
    ||| c == '\u{2029}'
    ||| c == '\u{202f}'
    ||| c == '\u{205f}'
    ||| c == '\u{3000}'
}

/// Whether `c` has the Unicode property `White_Space`.
pub fn is_white_space(c: char) -> (yes: bool)
    ensures
        yes == white_space(c),
{
    ('\u{9}' <= c && c <= '\u{d}') || c == '\u{20}' || c == '\u{85}' || c == '\u{a0}' || c
        == '\u{1680}' || ('\u{2000}' <= c && c <= '\u{200a}') || c == '\u{2028}' || c == '\u{2029}'
        || c == '\u{202f}' || c == '\u{205f}' || c == '\u{3000}'
}

/// `text` without the white space at its start.
pub open spec fn trimmed_start(text: Seq<char>) -> Seq<char>
    decreases text.len(),
{
    if text.len() > 0 && white_space(text[0]) {
        trimmed_start(text.drop_first())
    } else {
        text
    }
}

/// `text` without the white space at its end.
pub open spec fn trimmed_end(text: Seq<char>) -> Seq<char>
    decreases text.len(),
{
    if text.len() > 0 && white_space(text.last()) {
        trimmed_end(text.drop_last())
    } else {
        text
    }
}

/// `text` without the white space at either end.
pub open spec fn trimmed(text: Seq<char>) -> Seq<char> {
    trimmed_end(trimmed_start(text))
}

/// A line without anything but white space in it.
pub open spec fn blank(text: Seq<char>) -> bool {
    trimmed_start(text).len() == 0
}

/// Where the white space at the start of `chars` ends.
fn solid_start(chars: &Vec<char>) -> (from: usize)
    ensures
        from <= chars@.len(),
        chars@.skip(from as int) == trimmed_start(chars@),
{
    let mut from: usize = 0;
    assert(chars@.skip(0) =~= chars@);
    while from < chars.len() && is_white_space(chars[from])
        invariant
            from <= chars@.len(),
            trimmed_start(chars@) == trimmed_start(chars@.skip(from as int)),
        decreases chars@.len() - from,
    {
        assert(chars@.skip(from as int).drop_first() =~= chars@.skip(from + 1));
        from = from + 1;
    }
    from
}

/// Removes the white space at the start of `text`.
pub fn trim_start(text: &str) -> (rest: Vec<char>)
    ensures
        rest@ == trimmed_start(text@),
{
    let chars = chars_of(text);
    let from: usize = solid_start(&chars);
    let mut rest: Vec<char> = Vec::new();
    for i in from..chars.len()
        invariant
            chars@ == text@,
            from <= chars@.len(),
            rest@ == text@.subrange(from as int, i as int),
    {
        rest.push(chars[i]);
    }
    assert(rest@ =~= text@.skip(from as int));
    rest
}

/// Removes the white space at both ends of `text`.
pub fn trim(text: &str) -> (middle: String)
    ensures
        middle@ == trimmed(text@),
{
    let chars = chars_of(text);
    let from: usize = solid_start(&chars);
    let mut to: usize = chars.len();
    assert(text@.skip(from as int) =~= text@.subrange(from as int, to as int));
    while from < to && is_white_space(chars[to - 1])
        invariant
            chars@ == text@,
            from <= to <= chars@.len(),
            trimmed(text@) == trimmed_end(text@.subrange(from as int, to as int)),
        decreases to - from,
    {
        assert(text@.subrange(from as int, to as int).drop_last() =~= text@.subrange(
            from as int,
            to - 1,
        ));
        to = to - 1;
    }
    text.substring_char(from, to).to_owned()
}

/// A text is blank exactly when nothing is left of it after trimming both ends.
pub proof fn lemma_blank_iff_trimmed_is_empty(text: Seq<char>)
    ensures
        blank(text) <==> trimmed(text).len() == 0,
{
    let rest = trimmed_start(text);
    lemma_trimmed_start_begins_solid(text);
    if rest.len() > 0 {
        lemma_trimmed_end_keeps_first(rest);
    }
}

proof fn lemma_trimmed_start_begins_solid(text: Seq<char>)
    ensures
        trimmed_start(text).len() > 0 ==> !white_space(trimmed_start(text)[0]),
    decreases text.len(),
{
    if text.len() > 0 && white_space(text[0]) {
        lemma_trimmed_start_begins_solid(text.drop_first());
    }
}

proof fn lemma_trimmed_end_keeps_first(text: Seq<char>)
    requires
        text.len() > 0,
        !white_space(text[0]),
    ensures
        trimmed_end(text).len() > 0,
    decreases text.len(),
{
    if white_space(text.last()) {
        lemma_trimmed_end_keeps_first(text.drop_last());
    }
}

/// The ASCII white space characters, which separate the words of a line.
pub open spec fn ascii_space(c: char) -> bool {
    c == ' ' || c == '\t' || c == '\n' || c == '\u{c}' || c == '\r'
}

/// Whether `c` is ASCII white space.
pub fn is_ascii_space(c: char) -> (yes: bool)
    ensures
        yes == ascii_space(c),
{
    c == ' ' || c == '\t' || c == '\n' || c == '\u{c}' || c == '\r'
}

/// The number of characters before the first ASCII white space of `text`.
pub open spec fn word_len(text: Seq<char>) -> nat
    decreases text.len(),
{
    if text.len() == 0 || ascii_space(text[0]) {
        0
    } else {
        1 + word_len(text.drop_first())
    }
}

/// The words of `text`: its longest pieces without ASCII white space, in order.
pub open spec fn words(text: Seq<char>) -> Seq<Seq<char>>
    decreases text.len(),
{
    if text.len() == 0 {
        Seq::empty()
    } else if ascii_space(text[0]) {
        words(text.drop_first())
    } else {
        proof {
            lemma_word_len(text);
        }
        seq![text.take(word_len(text) as int)] + words(text.skip(word_len(text) as int))
    }
}

/// A word is no longer than the text it starts.
pub proof fn lemma_word_len(text: Seq<char>)
    ensures
        word_len(text) <= text.len(),
    decreases text.len(),
{
    if text.len() > 0 && !ascii_space(text[0]) {
        lemma_word_len(text.drop_first());
    }
}

proof fn lemma_word_len_at(text: Seq<char>, n: int)
    requires
        0 <= n <= text.len(),
        forall|i: int| 0 <= i < n ==> !ascii_space(#[trigger] text[i]),
        n < text.len() ==> ascii_space(text[n]),
    ensures
        word_len(text) == n,
    decreases n,
{
    if n > 0 {
        lemma_word_len_at(text.drop_first(), n - 1);
    }
}

/// Whether there is something in `word`, but no ASCII white space.
pub open spec fn solid(word: Seq<char>) -> bool {
    word.len() > 0 && forall|j: int| 0 <= j < word.len() ==> !ascii_space(#[trigger] word[j])
}

/// No word is empty, and there is no ASCII white space in any word.
pub proof fn lemma_words_are_solid(text: Seq<char>)
    ensures
        forall|i: int| 0 <= i < words(text).len() ==> solid(#[trigger] words(text)[i]),
    decreases text.len(),
{
    let all = words(text);
    if text.len() == 0 {
        assert(all.len() == 0);
    } else if ascii_space(text[0]) {
        assert(all == words(text.drop_first()));
        lemma_words_are_solid(text.drop_first());
    } else {
        let n = word_len(text) as int;
        let tail = words(text.skip(n));
        lemma_word_is_solid(text);
        lemma_words_are_solid(text.skip(n));
        assert(all == seq![text.take(n)] + tail);
        assert forall|i: int| 0 <= i < all.len() implies solid(#[trigger] all[i]) by {
            if i > 0 {
                assert(all[i] == tail[i - 1]);
            }
        }
    }
}

proof fn lemma_word_is_solid(text: Seq<char>)
    ensures
        word_len(text) <= text.len(),
        forall|i: int| 0 <= i < word_len(text) ==> !ascii_space(#[trigger] text[i]),
    decreases text.len(),
{
    if text.len() > 0 && !ascii_space(text[0]) {
        lemma_word_is_solid(text.drop_first());
        assert forall|i: int| 0 <= i < word_len(text) implies !ascii_space(#[trigger] text[i]) by {
            if i > 0 {
                assert(text.drop_first()[i - 1] == text[i]);
            }
        }
    }
}

/// Splits `text` into its words.
pub fn split_words(text: &Vec<char>) -> (found: Vec<Vec<char>>)
    ensures
        char_texts(found@) == words(text@),
{
    let mut found: Vec<Vec<char>> = Vec::new();
    let mut at: usize = 0;
    assert(text@.skip(0) =~= text@);
    assert(char_texts(found@) + words(text@) =~= words(text@));
    while at < text.len()
        invariant
            at <= text@.len(),
            char_texts(found@) + words(text@.skip(at as int)) == words(text@),
        decreases text@.len() - at,
    {
        let ghost rest = text@.skip(at as int);
        if is_ascii_space(text[at]) {
            assert(rest.drop_first() =~= text@.skip(at + 1));
            at = at + 1;
        } else {
            let start: usize = at;
            let mut word: Vec<char> = Vec::new();
            let ghost before = char_texts(found@);
            while at < text.len() && !is_ascii_space(text[at])
                invariant
                    start <= at <= text@.len(),
                    rest == text@.skip(start as int),
                    word@ == text@.subrange(start as int, at as int),
                    forall|i: int| 0 <= i < at - start ==> !ascii_space(#[trigger] rest[i]),
                decreases text@.len() - at,
            {
                word.push(text[at]);
                at = at + 1;
            }
            proof {
                lemma_word_len_at(rest, at - start);
                assert(rest.take(at - start) =~= word@);
                assert(rest.skip(at - start) =~= text@.skip(at as int));
            }
            found.push(word);
            assert(char_texts(found@) =~= before.push(word@));
            assert(char_texts(found@) + words(text@.skip(at as int)) =~= before + words(rest));
        }
    }
    assert(char_texts(found@) + words(text@.skip(at as int)) =~= char_texts(found@));
    found
}

/// The number that an ASCII digit stands for.
pub open spec fn digit_value(c: char) -> nat {
    (c as nat - '0' as nat) as nat
}

/// Whether `c` is an ASCII digit.
pub open spec fn ascii_digit(c: char) -> bool {
    '0' <= c <= '9'
}

/// Whether `c` is an ASCII digit.
pub fn is_ascii_digit(c: char) -> (yes: bool)
    ensures
        yes == ascii_digit(c),
{
    '0' <= c && c <= '9'
}

/// Whether `text` consists of ASCII digits.
pub open spec fn all_digits(text: Seq<char>) -> bool {
    forall|i: int| 0 <= i < text.len() ==> ascii_digit(#[trigger] text[i])
}

/// The number that a sequence of ASCII digits stands for, in base ten.
pub open spec fn digits_value(text: Seq<char>) -> nat
    decreases text.len(),
{
    if text.len() == 0 {
        0
    } else {
        10 * digits_value(text.drop_last()) + digit_value(text.last())
    }
}

/// `text` without a plus sign at its start.
pub open spec fn unsigned_part(text: Seq<char>) -> Seq<char> {
    if text.len() > 0 && text[0] == '+' {
        text.drop_first()
    } else {
        text
    }
}

/// The number that `text` writes down: an optional plus sign followed by ASCII digits, at least
/// one, that stand for a number of 64 bits.
pub open spec fn number(text: Seq<char>) -> Option<u64> {
    let digits = unsigned_part(text);
    if digits.len() > 0 && all_digits(digits) && digits_value(digits) <= u64::MAX {
        Some(digits_value(digits) as u64)
    } else {
        None
    }
}

proof fn lemma_digits_value_grows(text: Seq<char>, n: int)
    requires
        0 <= n <= text.len(),
    ensures
        digits_value(text.take(n)) <= digits_value(text),
    decreases text.len(),
{
    if n < text.len() {
        lemma_digits_value_grows(text.drop_last(), n);
        assert(text.drop_last().take(n) =~= text.take(n));
    } else {
        assert(text.take(n) =~= text);
    }
}

/// Reads a number of 64 bits.
pub fn parse_number(text: &Vec<char>) -> (value: Option<u64>)
    ensures
        value == number(text@),
{
    let start: usize = if text.len() > 0 && text[0] == '+' {
        1
    } else {
        0
    };
    let ghost digits = unsigned_part(text@);
    assert(digits =~= text@.skip(start as int));
    if start == text.len() {
        return None;
    }
    let mut value: u64 = 0;
    for i in start..text.len()
        invariant
            start <= text@.len(),
            digits == text@.skip(start as int),
            digits == unsigned_part(text@),
            value == digits_value(digits.take(i - start)),
            forall|j: int| 0 <= j < i - start ==> ascii_digit(#[trigger] digits[j]),
    {
        let c = text[i];
        assert(digits[i - start] == c);
        if !is_ascii_digit(c) {
            return None;
        }
        let digit: u64 = (c as u32 - '0' as u32) as u64;
        proof {
            assert(digits.take(i + 1 - start).drop_last() =~= digits.take(i - start));
            lemma_digits_value_grows(digits, i + 1 - start);
        }
        if value > (u64::MAX - digit) / 10 {
            return None;
        }
        value = value * 10 + digit;
    }
    assert(digits.take(digits.len() as int) =~= digits);
    Some(value)
}

/// `value` in base ten, without leading zeros.
pub open spec fn decimal(value: nat) -> Seq<char>
    decreases value,
{
    let digit = ('0' as nat + value % 10) as char;
    if value < 10 {
        seq![digit]
    } else {
        decimal(value / 10).push(digit)
    }
}

/// The ten digits, in order.
const DIGITS: &'static str = "0123456789";

/// Writes `value` in base ten.
pub fn to_decimal(value: u64) -> (written: String)
    ensures
        written@ == decimal(value as nat),
    decreases value,
{
    let digit: usize = (value % 10) as usize;
    proof {
        reveal_strlit("0123456789");
    }
    let mut written = if value < 10 {
        String::new()
    } else {
        to_decimal(value / 10)
    };
    written.append(DIGITS.substring_char(digit, digit + 1));
    assert(written@ =~= decimal(value as nat));
    written
}

proof fn lemma_decimal_digits(value: nat)
    ensures
        decimal(value).len() > 0,
        all_digits(decimal(value)),
        digits_value(decimal(value)) == value,
    decreases value,
{
    let digit = ('0' as nat + value % 10) as char;
    if value < 10 {
        assert(decimal(value).drop_last() =~= Seq::<char>::empty());
        assert(digits_value(Seq::<char>::empty()) == 0);
    } else {
        lemma_decimal_digits(value / 10);
        assert(decimal(value).drop_last() =~= decimal(value / 10));
    }
}

/// Reading a number that was written in base ten gives the number back.
pub proof fn lemma_number_reads_decimal(value: u64)
    ensures
        number(decimal(value as nat)) == Some(value),
{
    lemma_decimal_digits(value as nat);
    assert(ascii_digit(decimal(value as nat)[0]));
}

/// `text`, right-aligned in a field of `width` characters; a longer text is left as it is.
pub open spec fn right_aligned(text: Seq<char>, width: nat) -> Seq<char> {
    let missing = if text.len() < width {
        (width - text.len()) as nat
    } else {
        0
    };
    Seq::new(missing, |i: int| ' ') + text
}

/// Aligns `text` on the right of a field of `width` characters.
pub fn align_right(text: &str, width: usize) -> (aligned: String)
    ensures
        aligned@ == right_aligned(text@, width as nat),
{
    let mut aligned = String::new();
    let len: usize = text.unicode_len();
    let mut missing: usize = if len < width {
        width - len
    } else {
        0
    };
    let ghost total = missing as nat;
    proof {
        reveal_strlit(" ");
    }
    while missing > 0
        invariant
            missing <= total,
            " "@ == seq![' '],
            aligned@ == Seq::new((total - missing) as nat, |i: int| ' '),
        decreases missing,
    {
        aligned.append(" ");
        missing = missing - 1;
        assert(aligned@ =~= Seq::new((total - missing) as nat, |i: int| ' '));
    }
    aligned.append(text);
    aligned
}

/// The texts of strings are those strings, one for one and in order.
pub proof fn lemma_texts_one_for_one(strings: Seq<String>)
    ensures
        texts(strings).len() == strings.len(),
        forall|i: int| 0 <= i < strings.len() ==> #[trigger] texts(strings)[i] == strings[i]@,
{
}

/// The texts of character vectors are those vectors, one for one and in order.
pub proof fn lemma_char_texts_one_for_one(words: Seq<Vec<char>>)
    ensures
        char_texts(words).len() == words.len(),
        forall|i: int| 0 <= i < words.len() ==> #[trigger] char_texts(words)[i] == words[i]@,
{
}

/// A text contains another exactly where it is made up of something, that other text and
/// something more.
pub proof fn lemma_contains_iff_in_between(text: Seq<char>, pattern: Seq<char>)
    ensures
        contains_text(text, pattern) <==> exists|before: Seq<char>, after: Seq<char>|
            text == #[trigger] (before + pattern + after),
{
    if contains_text(text, pattern) {
        let i = choose|i: int|
            0 <= i <= text.len() && #[trigger] pattern.is_prefix_of(
                text.subrange(i, text.len() as int),
            );
        let before = text.take(i);
        let rest = text.subrange(i, text.len() as int);
        let after = rest.skip(pattern.len() as int);
        assert(rest =~= pattern + after);
        assert(text =~= before + pattern + after);
    }
    if exists|before: Seq<char>, after: Seq<char>| text == #[trigger] (before + pattern + after) {
        let (before, after) = choose|before: Seq<char>, after: Seq<char>|
            text == #[trigger] (before + pattern + after);
        let i = before.len() as int;
        let rest = text.subrange(i, text.len() as int);
        assert(rest.subrange(0, pattern.len() as int) =~= pattern);
        assert(pattern.is_prefix_of(text.subrange(i, text.len() as int)));
    }
}

/// Trimming the start takes away exactly the white space in front.
pub proof fn lemma_trimmed_start_takes_white_space(space: Seq<char>, rest: Seq<char>)
    requires
        forall|i: int| 0 <= i < space.len() ==> white_space(#[trigger] space[i]),
        rest.len() == 0 || !white_space(rest[0]),
    ensures
        trimmed_start(space + rest) == rest,
    decreases space.len(),
{
    if space.len() == 0 {
        assert(space + rest =~= rest);
    } else {
        let tail = space.drop_first();
        assert((space + rest).drop_first() =~= tail + rest);
        assert(white_space(space[0]));
        assert forall|i: int| 0 <= i < tail.len() implies white_space(#[trigger] tail[i]) by {
            assert(tail[i] == space[i + 1]);
        }
        lemma_trimmed_start_takes_white_space(tail, rest);
    }
}

proof fn lemma_trimmed_end_takes_white_space(rest: Seq<char>, space: Seq<char>)
    requires
        forall|i: int| 0 <= i < space.len() ==> white_space(#[trigger] space[i]),
        rest.len() == 0 || !white_space(rest.last()),
    ensures
        trimmed_end(rest + space) == rest,
    decreases space.len(),
{
    if space.len() == 0 {
        assert(rest + space =~= rest);
    } else {
        let front = space.drop_last();
        assert((rest + space).drop_last() =~= rest + front);
        assert(white_space(space[space.len() - 1]));
        assert forall|i: int| 0 <= i < front.len() implies white_space(#[trigger] front[i]) by {
            assert(front[i] == space[i]);
        }
        lemma_trimmed_end_takes_white_space(rest, front);
    }
}

/// Trimming both ends takes away exactly the white space at both ends.
pub proof fn lemma_trimmed_takes_white_space(
    space: Seq<char>,
    middle: Seq<char>,
    more_space: Seq<char>,
)
    requires
        forall|i: int| 0 <= i < space.len() ==> white_space(#[trigger] space[i]),
        forall|i: int| 0 <= i < more_space.len() ==> white_space(#[trigger] more_space[i]),
        middle.len() > 0,
        !white_space(middle[0]),
        !white_space(middle.last()),
    ensures
        trimmed(space + middle + more_space) == middle,
{
    assert(space + middle + more_space =~= space + (middle + more_space));
    lemma_trimmed_start_takes_white_space(space, middle + more_space);
    lemma_trimmed_end_takes_white_space(middle, more_space);
}

/// A text is blank exactly when all of it is white space.
pub proof fn lemma_blank_iff_all_white_space(text: Seq<char>)
    ensures
        blank(text) <==> forall|i: int| 0 <= i < text.len() ==> white_space(#[trigger] text[i]),
    decreases text.len(),
{
    if text.len() > 0 {
        if white_space(text[0]) {
            let tail = text.drop_first();
            lemma_blank_iff_all_white_space(tail);
            if blank(text) {
                assert forall|i: int| 0 <= i < text.len() implies white_space(
                    #[trigger] text[i],
                ) by {
                    if i > 0 {
                        assert(white_space(tail[i - 1]));
                    }
                }
            } else {
                let i = choose|i: int| 0 <= i < tail.len() && !white_space(#[trigger] tail[i]);
                assert(!white_space(text[i + 1]));
            }
        } else {
            assert(!white_space(text[0]));
        }
    }
}

/// There are no words in nothing.
pub proof fn lemma_no_words_in_nothing()
    ensures
        words(Seq::empty()).len() == 0,
{
}

/// A text without ASCII white space is its own only word.
pub proof fn lemma_word_alone(word: Seq<char>)
    requires
        word.len() > 0,
        forall|i: int| 0 <= i < word.len() ==> !ascii_space(#[trigger] word[i]),
    ensures
        words(word) == seq![word],
{
    lemma_word_len_at(word, word.len() as int);
    assert(word.take(word.len() as int) =~= word);
    assert(word.skip(word.len() as int).len() == 0);
    assert(words(word.skip(word.len() as int)) =~= Seq::empty());
    assert(words(word) =~= seq![word]);
}

/// ASCII white space separates: the words of a text are those before it and then those after it.
pub proof fn lemma_words_on_both_sides(before: Seq<char>, space: char, after: Seq<char>)
    requires
        ascii_space(space),
    ensures
        words(before + seq![space] + after) == words(before) + words(after),
    decreases before.len(),
{
    let text = before + seq![space] + after;
    if before.len() == 0 {
        assert(text.drop_first() =~= after);
        assert(words(before) + words(after) =~= words(after));
    } else if ascii_space(before[0]) {
        assert(text.drop_first() =~= before.drop_first() + seq![space] + after);
        lemma_words_on_both_sides(before.drop_first(), space, after);
    } else {
        let n = word_len(before) as int;
        lemma_word_is_solid(before);
        lemma_word_ends(before);
        assert forall|i: int| 0 <= i < n implies !ascii_space(#[trigger] text[i]) by {
            assert(text[i] == before[i]);
        }
        lemma_word_len_at(text, n);
        assert(text.take(n) =~= before.take(n));
        assert(text.skip(n) =~= before.skip(n) + seq![space] + after);
        lemma_words_on_both_sides(before.skip(n), space, after);
        assert(words(text) =~= words(before) + words(after));
    }
}

proof fn lemma_word_ends(text: Seq<char>)
    ensures
        word_len(text) < text.len() ==> ascii_space(text[word_len(text) as int]),
    decreases text.len(),
{
    if text.len() > 0 && !ascii_space(text[0]) {
        lemma_word_ends(text.drop_first());
    }
}

/// A single digit is the number from zero to nine that it shows.
pub proof fn lemma_number_of_digit(digit: char)
    requires
        '0' <= digit <= '9',
    ensures
        number(seq![digit]) == Some((digit as u64 - '0' as u64) as u64),
{
    let text = seq![digit];
    assert(text.drop_last() =~= Seq::<char>::empty());
    assert(digits_value(Seq::<char>::empty()) == 0);
    assert(ascii_digit(text[0]));
}

/// One more digit behind a number makes it ten times as large, plus that digit, as long as the
/// result is a number of 64 bits. Anything else behind a number makes it no number.
pub proof fn lemma_number_takes_digit(text: Seq<char>, last: char)
    requires
        text.len() > 0,
        forall|i: int| 0 <= i < text.len() ==> '0' <= #[trigger] text[i] <= '9',
    ensures
        number(text.push(last)) == match number(text) {
            Some(value) => {
                let longer = 10 * value + (last as int - '0' as int);
                if '0' <= last <= '9' && longer <= u64::MAX {
                    Some(longer as u64)
                } else {
                    None
                }
            },
            None => None,
        },
{
    let longer = text.push(last);
    assert('0' <= text[0] <= '9');
    assert(longer[0] == text[0]);
    assert(longer.drop_last() =~= text);
    assert(all_digits(text));
    if ascii_digit(last) {
        assert(all_digits(longer));
    } else {
        assert(!ascii_digit(longer[text.len() as int]));
    }
}

/// A plus sign in front of a number changes nothing, but there is no number in a plus sign alone
/// or in two of them.
pub proof fn lemma_number_with_plus(text: Seq<char>)
    ensures
        number(seq!['+'] + text) == if text.len() > 0 && text[0] != '+' {
            number(text)
        } else {
            None
        },
{
    assert((seq!['+'] + text).drop_first() =~= text);
    if text.len() > 0 && text[0] == '+' {
        assert(!ascii_digit(text[0]));
    }
}

/// Anything but digits, other than a plus sign in front, makes a text no number.
pub proof fn lemma_number_needs_digits(text: Seq<char>, i: int)
    requires
        0 <= i < text.len(),
        !('0' <= text[i] <= '9'),
        i > 0 || text[i] != '+',
    ensures
        number(text) is None,
{
    let digits = unsigned_part(text);
    if text[0] == '+' {
        assert(digits[i - 1] == text[i]);
    } else {
        assert(digits[i] == text[i]);
    }
    assert(!ascii_digit(text[i]));
}

/// Nothing is no number.
pub proof fn lemma_nothing_is_no_number()
    ensures
        number(Seq::empty()) is None,
{
}

/// A number in base ten is written with digits alone, and none of them is a zero in front.
pub proof fn lemma_decimal_is_shortest(value: nat)
    ensures
        decimal(value).len() > 0,
        forall|i: int| 0 <= i < decimal(value).len() ==> '0' <= #[trigger] decimal(value)[i]
            <= '9',
        decimal(value)[0] == '0' ==> value == 0 && decimal(value).len() == 1,
    decreases value,
{
    lemma_decimal_digits(value);
    assert forall|i: int| 0 <= i < decimal(value).len() implies '0' <= #[trigger] decimal(
        value,
    )[i] <= '9' by {
        assert(ascii_digit(decimal(value)[i]));
    }
    if value >= 10 {
        lemma_decimal_is_shortest(value / 10);
        assert(decimal(value)[0] == decimal(value / 10)[0]);
    }
}

/// Aligned text is as wide as the field, or as the text where that is wider; it ends in the text
/// and everything before is spaces.
pub proof fn lemma_right_aligned_fills_field(text: Seq<char>, width: nat)
    ensures
        ({
            let aligned = right_aligned(text, width);
            let padding = aligned.len() - text.len();
            &&& aligned.len() == if text.len() < width {
                width
            } else {
                text.len()
            }
            &&& aligned.skip(padding) == text
            &&& forall|i: int| 0 <= i < padding ==> #[trigger] aligned[i] == ' '
        }),
{
    let aligned = right_aligned(text, width);
    assert(aligned.skip(aligned.len() - text.len()) =~= text);
}

} // verus!
