//! The three markers that a post carries inside its markdown text: the
//! title heading, the thumbnail image and the timestamp directive.
//!
//! Each marker is described by a predicate on positions of the text, and
//! each extractor returns what stands at the first position where its
//! predicate holds.

use crate::text::{
    all_in, chars_of, first_match, is_first, lemma_first_match, lemma_run_end, lemma_run_end_bounded,
    lemma_run_end_local, lemma_run_end_over, occurs_at, run_end, scan_run, slice_string, trim,
    trim_bounds, word_at, CharClass,
};
use vstd::prelude::*;
use vstd::string::*;

verus! {

/// The origin that site-relative thumbnail addresses are resolved against.
pub const SITE_ORIGIN: &'static str = "https://jam1.re";

/// Whether a line begins at `at`: at the start of the text or right after
/// a line feed.
pub open spec fn is_line_start(text: Seq<char>, at: int) -> bool {
    0 <= at <= text.len() && (at == 0 || text[at - 1] == '\n')
}

/// Where the heading marker `#` of the line beginning at `line` has to
/// stand: behind the leading spaces.
pub open spec fn heading_marker(text: Seq<char>, line: int) -> int {
    run_end(text, line, CharClass::Space)
}

/// The end of the line whose heading marker stands at `heading_marker`.
pub open spec fn heading_end(text: Seq<char>, line: int) -> int {
    run_end(text, heading_marker(text, line) + 1, CharClass::InLine)
}

/// Whether the line beginning at `line` is a heading: optional spaces, a
/// `#`, and at least one more character before the line ends.
pub open spec fn is_heading_line(text: Seq<char>, line: int) -> bool {
    let marker = heading_marker(text, line);
    &&& is_line_start(text, line)
    &&& marker < text.len()
    &&& text[marker] == '#'
    &&& marker + 1 < heading_end(text, line)
}

/// `is_heading_line` of a fixed text, as a predicate on positions.
pub open spec fn heading_lines(text: Seq<char>) -> spec_fn(int) -> bool {
    |line: int| is_heading_line(text, line)
}

/// What follows the marker on the heading line at `line`, trimmed.
pub open spec fn heading_text(text: Seq<char>, line: int) -> Seq<char> {
    trim(text.subrange(heading_marker(text, line) + 1, heading_end(text, line)))
}

/// The title of a post: the trimmed text of its first heading line.
pub open spec fn title_of(text: Seq<char>) -> Option<Seq<char>> {
    match first_match(heading_lines(text)) {
        Some(line) => Some(heading_text(text, line)),
        None => None,
    }
}

/// Finds the first heading line.
fn first_heading_line(chars: &Vec<char>) -> (found: Option<usize>)
    ensures
        match found {
            Some(line) => first_match(heading_lines(chars@)) == Some(line as int),
            None => first_match(heading_lines(chars@)) is None,
        },
{
    let ghost text = chars@;
    let ghost lines = heading_lines(text);
    let length = chars.len();
    let mut line: usize = 0;
    loop
        invariant
            text == chars@,
            lines == heading_lines(text),
            length == chars.len(),
            line <= length,
            is_line_start(text, line as int),
            forall|earlier: int| 0 <= earlier < line ==> !#[trigger] lines(earlier),
        decreases length - line,
    {
        let marker = scan_run(chars, line, CharClass::Space);
        if marker < length && chars[marker] == '#' {
            let end = scan_run(chars, marker + 1, CharClass::InLine);
            if end > marker + 1 {
                proof {
                    assert(lines(line as int));
                    assert(is_first(lines, line as int));
                    lemma_first_match(lines);
                }
                return Some(line);
            }
        }
        assert(!lines(line as int));
        let line_end = scan_run(chars, line, CharClass::InLine);
        proof {
            lemma_run_end(text, line as int, CharClass::InLine);
            assert forall|inner: int| line < inner <= line_end implies !#[trigger] lines(
                inner,
            ) by {
                assert(CharClass::InLine.has(text[inner - 1]));
            }
        }
        if line_end >= length {
            proof {
                assert forall|at: int| 0 <= at implies !#[trigger] lines(at) by {}
                lemma_first_match(lines);
                if first_match(lines) is Some {
                    assert(lines(first_match(lines).unwrap()));
                }
            }
            return None;
        }
        line = line_end + 1;
    }
}

/// Returns the title of a post: the text that follows the `#` on the
/// first heading line, without surrounding whitespace. A text without a
/// heading line has no title.
pub fn extract_post_title(markdown: &str) -> (title: Option<String>)
    ensures
        title.deep_view() == title_of(markdown@),
{
    let chars = chars_of(markdown);
    match first_heading_line(&chars) {
        Some(line) => {
            proof {
                lemma_first_match(heading_lines(chars@));
                assert(heading_lines(chars@)(line as int));
            }
            let marker = scan_run(&chars, line, CharClass::Space);
            let end = scan_run(&chars, marker + 1, CharClass::InLine);
            let (from, to) = trim_bounds(&chars, marker + 1, end);
            Some(slice_string(markdown, from, to))
        },
        None => None,
    }
}

/// A thumbnail address as the site serves it: an address that begins with
/// `/` is resolved against `SITE_ORIGIN`, any other is kept.
pub open spec fn absolute_url(url: Seq<char>) -> Seq<char> {
    if url.len() > 0 && url[0] == '/' {
        SITE_ORIGIN@ + url
    } else {
        url
    }
}

/// Where the address of an image reference that begins at `at` starts.
pub open spec fn image_url_start(at: int) -> int {
    at + "![]("@.len()
}

/// Where the address of an image reference that begins at `at` ends: at
/// the first line feed, caret or closing parenthesis, or at the end of the
/// text.
pub open spec fn image_url_end(text: Seq<char>, at: int) -> int {
    run_end(text, image_url_start(at), CharClass::InUrl)
}

/// Whether an image reference with an empty description begins at `at`:
/// the characters `![](`, an address of at least one character, and `)`.
pub open spec fn is_image_at(text: Seq<char>, at: int) -> bool {
    &&& occurs_at(text, at, "![]("@)
    &&& image_url_start(at) < image_url_end(text, at) < text.len()
    &&& text[image_url_end(text, at)] == ')'
}

/// `is_image_at` of a fixed text, as a predicate on positions.
pub open spec fn images(text: Seq<char>) -> spec_fn(int) -> bool {
    |at: int| is_image_at(text, at)
}

/// The address of the image reference that begins at `at`.
pub open spec fn image_url(text: Seq<char>, at: int) -> Seq<char> {
    text.subrange(image_url_start(at), image_url_end(text, at))
}

/// The thumbnail of a post: the address of its first image reference with
/// an empty description, made absolute.
pub open spec fn thumbnail_of(text: Seq<char>) -> Option<Seq<char>> {
    match first_match(images(text)) {
        Some(at) => Some(absolute_url(image_url(text, at))),
        None => None,
    }
}

/// Resolves a site-relative address against `SITE_ORIGIN`.
pub fn to_absolute_url(url: &str) -> (absolute: String)
    ensures
        absolute@ == absolute_url(url@),
{
    if !url.is_empty() && url.get_char(0) == '/' {
        String::from_str(SITE_ORIGIN).concat(url)
    } else {
        url.to_owned()
    }
}

/// Finds the first image reference with an empty description.
fn first_image(chars: &Vec<char>) -> (found: Option<usize>)
    ensures
        match found {
            Some(at) => first_match(images(chars@)) == Some(at as int),
            None => first_match(images(chars@)) is None,
        },
{
    let ghost text = chars@;
    let ghost marks = images(text);
    let length = chars.len();
    let opening = "![](".unicode_len();
    let mut at: usize = 0;
    while at < length
        invariant
            text == chars@,
            marks == images(text),
            length == chars.len(),
            opening == "![]("@.len(),
            at <= length,
            forall|earlier: int| 0 <= earlier < at ==> !#[trigger] marks(earlier),
        decreases length - at,
    {
        if word_at(chars, at, "![](") {
            let start = at + opening;
            let end = scan_run(chars, start, CharClass::InUrl);
            if start < end && end < length && chars[end] == ')' {
                proof {
                    assert(marks(at as int));
                    assert(is_first(marks, at as int));
                    lemma_first_match(marks);
                }
                return Some(at);
            }
        }
        assert(!marks(at as int));
        at += 1;
    }
    proof {
        assert forall|later: int| 0 <= later implies !#[trigger] marks(later) by {
            if length <= later && occurs_at(text, later, "![]("@) {
                lemma_run_end(text, image_url_start(later), CharClass::InUrl);
            }
        }
        lemma_first_match(marks);
        if first_match(marks) is Some {
            assert(marks(first_match(marks).unwrap()));
        }
    }
    None
}

/// Returns the thumbnail of a post: the address inside the first
/// `![](..)`, resolved against `SITE_ORIGIN` where it begins with `/`. The
/// address is at least one character long and holds no line feed, caret or
/// closing parenthesis.
pub fn extract_first_image(markdown: &str) -> (thumbnail: Option<String>)
    ensures
        thumbnail.deep_view() == thumbnail_of(markdown@),
{
    let chars = chars_of(markdown);
    match first_image(&chars) {
        Some(at) => {
            proof {
                lemma_first_match(images(chars@));
                assert(images(chars@)(at as int));
            }
            let start = at + "![](".unicode_len();
            let end = scan_run(&chars, start, CharClass::InUrl);
            let url = slice_string(markdown, start, end);
            Some(to_absolute_url(url.as_str()))
        },
        None => None,
    }
}

/// Where the word `timestamp` of a directive that begins at `at` has to
/// stand: behind `<!--` and any spaces.
pub open spec fn directive_word(text: Seq<char>, at: int) -> int {
    run_end(text, at + "<!--"@.len(), CharClass::Space)
}

/// Where the colon of a directive that begins at `at` has to stand: behind
/// the word and any spaces.
pub open spec fn directive_colon(text: Seq<char>, at: int) -> int {
    run_end(text, directive_word(text, at) + "timestamp"@.len(), CharClass::Space)
}

/// Where the digits of a directive that begins at `at` start: behind the
/// colon and any spaces.
pub open spec fn directive_digits(text: Seq<char>, at: int) -> int {
    run_end(text, directive_colon(text, at) + 1, CharClass::Space)
}

/// Where the digits of a directive that begins at `at` end.
pub open spec fn directive_digits_end(text: Seq<char>, at: int) -> int {
    run_end(text, directive_digits(text, at), CharClass::Digit)
}

/// Where the closing `-->` of a directive that begins at `at` has to
/// stand: behind the digits and any spaces.
pub open spec fn directive_close(text: Seq<char>, at: int) -> int {
    run_end(text, directive_digits_end(text, at), CharClass::Space)
}

/// Whether a timestamp directive begins at `at`: `<!--`, the word
/// `timestamp`, a colon, at least one decimal digit and `-->`, with any
/// number of spaces between these parts.
pub open spec fn is_directive_at(text: Seq<char>, at: int) -> bool {
    &&& occurs_at(text, at, "<!--"@)
    &&& occurs_at(text, directive_word(text, at), "timestamp"@)
    &&& directive_colon(text, at) < text.len()
    &&& text[directive_colon(text, at)] == ':'
    &&& directive_digits(text, at) < directive_digits_end(text, at)
    &&& occurs_at(text, directive_close(text, at), "-->"@)
}

/// `is_directive_at` of a fixed text, as a predicate on positions.
pub open spec fn directives(text: Seq<char>) -> spec_fn(int) -> bool {
    |at: int| is_directive_at(text, at)
}

/// The digits of the directive that begins at `at`.
pub open spec fn directive_number(text: Seq<char>, at: int) -> Seq<char> {
    text.subrange(directive_digits(text, at), directive_digits_end(text, at))
}

/// The number that a sequence of decimal digits denotes.
pub open spec fn decimal_value(digits: Seq<char>) -> nat
    decreases digits.len(),
{
    if digits.len() == 0 {
        0
    } else {
        (10 * decimal_value(digits.drop_last()) + (digits.last() as int - '0' as int)) as nat
    }
}

/// The number that `digits` denotes, where it fits a signed 64-bit
/// integer.
pub open spec fn decimal_i64(digits: Seq<char>) -> Option<i64> {
    if decimal_value(digits) <= i64::MAX {
        Some(decimal_value(digits) as i64)
    } else {
        None
    }
}

/// The timestamp of a post: the number in its first timestamp directive,
/// where that number fits a signed 64-bit integer.
pub open spec fn timestamp_of(text: Seq<char>) -> Option<i64> {
    match first_match(directives(text)) {
        Some(at) => decimal_i64(directive_number(text, at)),
        None => None,
    }
}

/// Further digits never make the denoted number smaller.
proof fn lemma_decimal_value_grows(digits: Seq<char>, shorter: int)
    requires
        0 <= shorter <= digits.len(),
        forall|k: int| 0 <= k < digits.len() ==> CharClass::Digit.has(#[trigger] digits[k]),
    ensures
        decimal_value(digits.take(shorter)) <= decimal_value(digits),
    decreases digits.len(),
{
    if shorter == digits.len() {
        assert(digits.take(shorter) == digits);
    } else {
        lemma_decimal_value_grows(digits.drop_last(), shorter);
        assert(digits.drop_last().take(shorter) == digits.take(shorter));
    }
}

/// The value of one decimal digit.
fn digit_value(digit: char) -> (value: i64)
    requires
        CharClass::Digit.has(digit),
    ensures
        value == digit as int - '0' as int,
        0 <= value <= 9,
{
    (digit as u32 - '0' as u32) as i64
}

/// Reads the decimal number that `chars[from..to]` denotes.
fn parse_decimal(chars: &Vec<char>, from: usize, to: usize) -> (value: Option<i64>)
    requires
        from <= to <= chars.len(),
        forall|k: int| from <= k < to ==> CharClass::Digit.has(#[trigger] chars@[k]),
    ensures
        value == decimal_i64(chars@.subrange(from as int, to as int)),
{
    let ghost digits = chars@.subrange(from as int, to as int);
    let mut value: i64 = 0;
    let mut next: usize = from;
    while next < to
        invariant
            from <= next <= to <= chars.len(),
            digits == chars@.subrange(from as int, to as int),
            forall|k: int| from <= k < to ==> CharClass::Digit.has(#[trigger] chars@[k]),
            0 <= value,
            value == decimal_value(digits.take(next - from)),
        decreases to - next,
    {
        let digit = digit_value(chars[next]);
        proof {
            let longer = digits.take(next - from + 1);
            assert(longer.drop_last() == digits.take(next - from));
            assert(longer.last() == chars@[next as int]);
            assert(decimal_value(longer) == 10 * value + digit);
            lemma_decimal_value_grows(digits, next - from + 1);
        }
        if value > (i64::MAX - digit) / 10 {
            return None;
        }
        value = value * 10 + digit;
        next += 1;
    }
    assert(digits.take(to - from) == digits);
    Some(value)
}

/// Tests whether a timestamp directive begins at `at`, and returns the
/// bounds of its digits.
fn directive_at(chars: &Vec<char>, at: usize) -> (digits: Option<(usize, usize)>)
    requires
        at <= chars.len(),
    ensures
        digits is Some == is_directive_at(chars@, at as int),
        digits matches Some((from, to)) ==> {
            &&& from == directive_digits(chars@, at as int)
            &&& to == directive_digits_end(chars@, at as int)
            &&& from <= to <= chars.len()
        },
{
    if !word_at(chars, at, "<!--") {
        return None;
    }
    let word = scan_run(chars, at + "<!--".unicode_len(), CharClass::Space);
    if !word_at(chars, word, "timestamp") {
        return None;
    }
    let colon = scan_run(chars, word + "timestamp".unicode_len(), CharClass::Space);
    if colon >= chars.len() || chars[colon] != ':' {
        return None;
    }
    let from = scan_run(chars, colon + 1, CharClass::Space);
    let to = scan_run(chars, from, CharClass::Digit);
    if from >= to {
        return None;
    }
    let close = scan_run(chars, to, CharClass::Space);
    if !word_at(chars, close, "-->") {
        return None;
    }
    Some((from, to))
}

/// Returns the timestamp of a post: the number in the first
/// `<!-- timestamp: N -->`, in which any number of spaces may surround the
/// word, the colon and the digits. There is none where the text has no
/// such directive or where the number of the first one does not fit a
/// signed 64-bit integer.
pub fn extract_post_timestamp(markdown: &str) -> (timestamp: Option<i64>)
    ensures
        timestamp == timestamp_of(markdown@),
{
    let chars = chars_of(markdown);
    let ghost text = chars@;
    let ghost marks = directives(text);
    let length = chars.len();
    let mut at: usize = 0;
    while at < length
        invariant
            text == chars@,
            text == markdown@,
            marks == directives(text),
            length == chars.len(),
            at <= length,
            forall|earlier: int| 0 <= earlier < at ==> !#[trigger] marks(earlier),
        decreases length - at,
    {
        match directive_at(&chars, at) {
            Some((from, to)) => {
                proof {
                    assert(marks(at as int));
                    assert(is_first(marks, at as int));
                    lemma_first_match(marks);
                    lemma_run_end(text, from as int, CharClass::Digit);
                }
                return parse_decimal(&chars, from, to);
            },
            None => {
                assert(!marks(at as int));
            },
        }
        at += 1;
    }
    proof {
        assert forall|later: int| 0 <= later implies !#[trigger] marks(later) by {
            if length <= later && is_directive_at(text, later) {
                lemma_run_end(text, later + "<!--"@.len(), CharClass::Space);
            }
        }
        lemma_first_match(marks);
        if first_match(marks) is Some {
            assert(marks(first_match(marks).unwrap()));
        }
    }
    None
}

/// Whether a heading line begins at `line` of `before` does not change
/// when text is appended to `before`, as long as `before` ends with a line
/// feed.
proof fn lemma_heading_line_local(before: Seq<char>, full: Seq<char>, line: int)
    requires
        0 <= line < before.len(),
        before.last() == '\n',
        before.len() <= full.len(),
        forall|k: int| 0 <= k < before.len() ==> full[k] == before[k],
    ensures
        is_heading_line(full, line) == is_heading_line(before, line),
{
    let last = before.len() - 1;
    lemma_run_end_bounded(before, line, CharClass::Space, last);
    lemma_run_end(before, line, CharClass::Space);
    let marker = heading_marker(before, line);
    // The run of spaces stops inside `before`, so both texts agree on it.
    lemma_run_end_local(before, full, line, CharClass::Space);
    assert(heading_marker(full, line) == marker);
    if before[marker] == '#' {
        lemma_run_end_bounded(before, marker + 1, CharClass::InLine, last);
        lemma_run_end_local(before, full, marker + 1, CharClass::InLine);
    }
}

/// A text whose first heading line reads `spaces`, `#`, `rest` has the
/// title `trim(rest)`, whatever lines follow: the title depends on the
/// text up to the end of that line only.
pub proof fn lemma_title_of_first_heading(
    before: Seq<char>,
    spaces: Seq<char>,
    rest: Seq<char>,
    after: Seq<char>,
)
    requires
        before.len() == 0 || before.last() == '\n',
        forall|line: int| !is_heading_line(before, line),
        all_in(spaces, CharClass::Space),
        rest.len() > 0,
        all_in(rest, CharClass::InLine),
        after.len() == 0 || after[0] == '\n',
    ensures
        title_of(before + spaces + seq!['#'] + rest + after) == Some(trim(rest)),
{
    let full = before + spaces + seq!['#'] + rest + after;
    let line = before.len() as int;
    let marker = line + spaces.len();
    let end = marker + 1 + rest.len();
    assert(full.subrange(line, marker) == spaces);
    assert(full[marker] == '#');
    assert(full.subrange(marker + 1, end) == rest);
    lemma_run_end_over(full, line, CharClass::Space, spaces);
    assert(end < full.len() ==> full[end] == after[0]);
    lemma_run_end_over(full, marker + 1, CharClass::InLine, rest);
    let lines = heading_lines(full);
    assert(lines(line));
    assert forall|earlier: int| 0 <= earlier < line implies !#[trigger] lines(earlier) by {
        lemma_heading_line_local(before, full, earlier);
    }
    assert(is_first(lines, line));
    lemma_first_match(lines);
}

/// A text without a heading line has no title.
pub proof fn lemma_no_heading_no_title(text: Seq<char>)
    requires
        forall|line: int| !is_heading_line(text, line),
    ensures
        title_of(text) is None,
{
    let lines = heading_lines(text);
    lemma_first_match(lines);
    if first_match(lines) is Some {
        assert(lines(first_match(lines).unwrap()));
    }
}

/// A text whose first image reference with an empty description reads
/// `![](url)` has the thumbnail `absolute_url(url)`.
pub proof fn lemma_thumbnail_of_first_image(before: Seq<char>, url: Seq<char>, after: Seq<char>)
    requires
        url.len() > 0,
        all_in(url, CharClass::InUrl),
        forall|earlier: int|
            0 <= earlier < before.len() ==> !is_image_at(
                before + "![]("@ + url + seq![')'] + after,
                earlier,
            ),
    ensures
        thumbnail_of(before + "![]("@ + url + seq![')'] + after) == Some(absolute_url(url)),
{
    let full = before + "![]("@ + url + seq![')'] + after;
    let at = before.len() as int;
    let start = image_url_start(at);
    let end = start + url.len();
    assert(full.subrange(at, start) == "![]("@);
    assert(full.subrange(start, end) == url);
    assert(full[end] == ')');
    lemma_run_end_over(full, start, CharClass::InUrl, url);
    let marks = images(full);
    assert(marks(at));
    assert forall|earlier: int| 0 <= earlier < at implies !#[trigger] marks(earlier) by {}
    assert(is_first(marks, at));
    lemma_first_match(marks);
}

/// A text without an image reference with an empty description has no
/// thumbnail.
pub proof fn lemma_no_image_no_thumbnail(text: Seq<char>)
    requires
        forall|at: int| !is_image_at(text, at),
    ensures
        thumbnail_of(text) is None,
{
    let marks = images(text);
    lemma_first_match(marks);
    if first_match(marks) is Some {
        assert(marks(first_match(marks).unwrap()));
    }
}

/// A text whose first timestamp directive holds `digits` has the
/// timestamp that they denote, whatever number of spaces surrounds the
/// word, the colon and the digits.
pub proof fn lemma_timestamp_of_first_directive(
    before: Seq<char>,
    lead: Seq<char>,
    gap: Seq<char>,
    indent: Seq<char>,
    digits: Seq<char>,
    trail: Seq<char>,
    after: Seq<char>,
)
    requires
        all_in(lead, CharClass::Space),
        all_in(gap, CharClass::Space),
        all_in(indent, CharClass::Space),
        all_in(trail, CharClass::Space),
        digits.len() > 0,
        all_in(digits, CharClass::Digit),
        forall|earlier: int|
            0 <= earlier < before.len() ==> !is_directive_at(
                before + "<!--"@ + lead + "timestamp"@ + gap + seq![':'] + indent + digits + trail
                    + "-->"@ + after,
                earlier,
            ),
    ensures
        timestamp_of(
            before + "<!--"@ + lead + "timestamp"@ + gap + seq![':'] + indent + digits + trail
                + "-->"@ + after,
        ) == decimal_i64(digits),
{
    reveal_strlit("timestamp");
    reveal_strlit("-->");
    let full = before + "<!--"@ + lead + "timestamp"@ + gap + seq![':'] + indent + digits + trail
        + "-->"@ + after;
    let at = before.len() as int;
    let lead_at = at + "<!--"@.len();
    let word_at = lead_at + lead.len();
    let gap_at = word_at + "timestamp"@.len();
    let colon_at = gap_at + gap.len();
    let indent_at = colon_at + 1;
    let digits_at = indent_at + indent.len();
    let trail_at = digits_at + digits.len();
    let close_at = trail_at + trail.len();
    assert(full.subrange(at, lead_at) == "<!--"@);
    assert(full.subrange(lead_at, word_at) == lead);
    assert(full.subrange(word_at, gap_at) == "timestamp"@);
    assert(full.subrange(gap_at, colon_at) == gap);
    assert(full[colon_at] == ':');
    assert(full.subrange(indent_at, digits_at) == indent);
    assert(full.subrange(digits_at, trail_at) == digits);
    assert(full.subrange(trail_at, close_at) == trail);
    assert(full.subrange(close_at, close_at + "-->"@.len()) == "-->"@);
    assert(full[word_at] == "timestamp"@[0]);
    assert(full[digits_at] == digits[0]);
    assert(full[close_at] == "-->"@[0]);
    assert(full[trail_at] == if trail.len() > 0 {
        trail[0]
    } else {
        "-->"@[0]
    });
    lemma_run_end_over(full, lead_at, CharClass::Space, lead);
    lemma_run_end_over(full, gap_at, CharClass::Space, gap);
    lemma_run_end_over(full, indent_at, CharClass::Space, indent);
    lemma_run_end_over(full, digits_at, CharClass::Digit, digits);
    lemma_run_end_over(full, trail_at, CharClass::Space, trail);
    let marks = directives(full);
    assert(marks(at));
    assert forall|earlier: int| 0 <= earlier < at implies !#[trigger] marks(earlier) by {}
    assert(is_first(marks, at));
    lemma_first_match(marks);
}

/// A text without a timestamp directive has no timestamp.
pub proof fn lemma_no_directive_no_timestamp(text: Seq<char>)
    requires
        forall|at: int| !is_directive_at(text, at),
    ensures
        timestamp_of(text) is None,
{
    let marks = directives(text);
    lemma_first_match(marks);
    if first_match(marks) is Some {
        assert(marks(first_match(marks).unwrap()));
    }
}

} // verus!
