//! Character-level helpers shared by the scanners of this crate.
//!
//! Texts are modelled as `Seq<char>`. The scanners copy a `&str` into a
//! `Vec<char>` once and then work with indices into it.

use vstd::prelude::*;
use vstd::string::*;

verus! {

/// The character classes that the scanners of this crate walk over.
#[derive(Clone, Copy, Debug)]
pub enum CharClass {
    /// The space character U+0020 alone.
    Space,
    /// The ten ASCII decimal digits.
    Digit,
    /// Every character but the line feed.
    InLine,
    /// Every character but the line feed, the caret and the closing
    /// parenthesis.
    InUrl,
    /// The characters with the Unicode property `White_Space`.
    Whitespace,
}

/// Whether `c` has the Unicode property `White_Space`.
pub open spec fn is_whitespace(c: char) -> bool {
    ||| '\u{9}' <= c <= '\u{d}'
    ||| c == ' '
    ||| c == '\u{85}'
    ||| c == '\u{a0}'
    ||| c == '\u{1680}'
    ||| '\u{2000}' <= c <= '\u{200a}'
    ||| c == '\u{2028}'
    ||| c == '\u{2029}'
    ||| c == '\u{202f}'
    ||| c == '\u{205f}'
    ||| c == '\u{3000}'
}

impl CharClass {
    /// Membership of `c` in the class.
    pub open spec fn has(self, c: char) -> bool {
        match self {
            CharClass::Space => c == ' ',
            CharClass::Digit => '0' <= c <= '9',
            CharClass::InLine => c != '\n',
            CharClass::InUrl => c != '\n' && c != '^' && c != ')',
            CharClass::Whitespace => is_whitespace(c),
        }
    }

    /// Tests membership of `c` in the class.
    pub fn contains(self, c: char) -> (member: bool)
        ensures
            member == self.has(c),
    {
        match self {
            CharClass::Space => c == ' ',
            CharClass::Digit => '0' <= c && c <= '9',
            CharClass::InLine => c != '\n',
            CharClass::InUrl => c != '\n' && c != '^' && c != ')',
            CharClass::Whitespace => {
                ('\u{9}' <= c && c <= '\u{d}') || c == ' ' || c == '\u{85}' || c == '\u{a0}'
                    || c == '\u{1680}' || ('\u{2000}' <= c && c <= '\u{200a}') || c == '\u{2028}'
                    || c == '\u{2029}' || c == '\u{202f}' || c == '\u{205f}' || c == '\u{3000}'
            },
        }
    }
}

/// The end of the longest run of `class` characters that begins at `start`:
/// the first index from `start` on that is the end of the text or holds a
/// character outside the class.
pub open spec fn run_end(text: Seq<char>, start: int, class: CharClass) -> int
    decreases text.len() - start,
{
    if 0 <= start < text.len() && class.has(text[start]) {
        run_end(text, start + 1, class)
    } else {
        start
    }
}

/// The start of the longest run of `class` characters that ends before
/// `end`: the last index up to `end` that is the start of the text or
/// follows a character outside the class.
pub open spec fn run_start(text: Seq<char>, end: int, class: CharClass) -> int
    decreases end,
{
    if 0 < end <= text.len() && class.has(text[end - 1]) {
        run_start(text, end - 1, class)
    } else {
        end
    }
}

/// Whether every character of `text` is in `class`.
pub open spec fn all_in(text: Seq<char>, class: CharClass) -> bool {
    forall|k: int| 0 <= k < text.len() ==> class.has(#[trigger] text[k])
}

/// Whether `word` stands in `text` at index `at`.
pub open spec fn occurs_at(text: Seq<char>, at: int, word: Seq<char>) -> bool {
    &&& 0 <= at
    &&& at + word.len() <= text.len()
    &&& text.subrange(at, at + word.len()) == word
}

/// `text` without its leading and trailing whitespace.
pub open spec fn trim(text: Seq<char>) -> Seq<char> {
    let from = run_end(text, 0, CharClass::Whitespace);
    let to = run_start(text, text.len() as int, CharClass::Whitespace);
    if from < to {
        text.subrange(from, to)
    } else {
        Seq::empty()
    }
}

/// `run_end` marks where the run stops: everything before it is in the
/// class, and the run cannot be extended.
pub proof fn lemma_run_end(text: Seq<char>, start: int, class: CharClass)
    requires
        0 <= start <= text.len(),
    ensures
        start <= run_end(text, start, class) <= text.len(),
        forall|k: int| start <= k < run_end(text, start, class) ==> class.has(#[trigger] text[k]),
        run_end(text, start, class) < text.len() ==> !class.has(
            text[run_end(text, start, class)],
        ),
    decreases text.len() - start,
{
    if start < text.len() && class.has(text[start]) {
        lemma_run_end(text, start + 1, class);
    }
}

/// Any index with the two properties of `lemma_run_end` is `run_end`.
pub proof fn lemma_run_end_unique(text: Seq<char>, start: int, class: CharClass, end: int)
    requires
        0 <= start <= end <= text.len(),
        forall|k: int| start <= k < end ==> class.has(#[trigger] text[k]),
        end < text.len() ==> !class.has(text[end]),
    ensures
        run_end(text, start, class) == end,
    decreases end - start,
{
    if start < end {
        lemma_run_end_unique(text, start + 1, class, end);
    }
}

/// `run_end` depends only on the text up to and including the character
/// that stops the run.
pub proof fn lemma_run_end_local(
    text: Seq<char>,
    other: Seq<char>,
    start: int,
    class: CharClass,
)
    requires
        0 <= start <= text.len(),
        run_end(text, start, class) < text.len(),
        other.len() > run_end(text, start, class),
        forall|k: int| start <= k <= run_end(text, start, class) ==> other[k] == text[k],
    ensures
        run_end(other, start, class) == run_end(text, start, class),
{
    lemma_run_end(text, start, class);
    lemma_run_end_unique(other, start, class, run_end(text, start, class));
}

/// A run stops at or before any character outside its class.
pub proof fn lemma_run_end_bounded(text: Seq<char>, start: int, class: CharClass, stop: int)
    requires
        0 <= start <= stop < text.len(),
        !class.has(text[stop]),
    ensures
        run_end(text, start, class) <= stop,
{
    lemma_run_end(text, start, class);
    if run_end(text, start, class) > stop {
        assert(class.has(text[stop]));
    }
}

/// Where `run` stands in `text` at `start`, holds characters of `class`
/// only, and is followed by the end of the text or by a character outside
/// the class, the run from `start` ends behind it.
pub proof fn lemma_run_end_over(text: Seq<char>, start: int, class: CharClass, run: Seq<char>)
    requires
        occurs_at(text, start, run),
        all_in(run, class),
        start + run.len() < text.len() ==> !class.has(text[start + run.len()]),
    ensures
        run_end(text, start, class) == start + run.len(),
{
    assert forall|k: int| start <= k < start + run.len() implies class.has(#[trigger] text[k]) by {
        assert(text.subrange(start, start + run.len())[k - start] == text[k]);
    }
    lemma_run_end_unique(text, start, class, start + run.len());
}

/// `run_start` marks where the run begins: everything from it up to `end`
/// is in the class, and the run cannot be extended to the left.
pub proof fn lemma_run_start(text: Seq<char>, end: int, class: CharClass)
    requires
        0 <= end <= text.len(),
    ensures
        0 <= run_start(text, end, class) <= end,
        forall|k: int| run_start(text, end, class) <= k < end ==> class.has(#[trigger] text[k]),
        0 < run_start(text, end, class) ==> !class.has(text[run_start(text, end, class) - 1]),
    decreases end,
{
    if 0 < end && class.has(text[end - 1]) {
        lemma_run_start(text, end - 1, class);
    }
}

/// Whether `at` is the first index from 0 on at which `found` holds.
pub open spec fn is_first(found: spec_fn(int) -> bool, at: int) -> bool {
    &&& 0 <= at
    &&& found(at)
    &&& forall|earlier: int| 0 <= earlier < at ==> !#[trigger] found(earlier)
}

/// The first index from 0 on at which `found` holds, if there is one.
pub open spec fn first_match(found: spec_fn(int) -> bool) -> Option<int> {
    if exists|at: int| 0 <= at && #[trigger] found(at) {
        Some(choose|at: int| is_first(found, at))
    } else {
        None
    }
}

/// If `found` holds somewhere at or below `bound`, it holds somewhere
/// first.
proof fn lemma_first_exists(found: spec_fn(int) -> bool, bound: int)
    requires
        0 <= bound,
        found(bound),
    ensures
        exists|at: int| is_first(found, at),
    decreases bound,
{
    if exists|earlier: int| 0 <= earlier < bound && #[trigger] found(earlier) {
        let earlier = choose|earlier: int| 0 <= earlier < bound && #[trigger] found(earlier);
        lemma_first_exists(found, earlier);
    } else {
        assert(is_first(found, bound));
    }
}

/// `first_match` is `Some` exactly of the one first index.
pub proof fn lemma_first_match(found: spec_fn(int) -> bool)
    ensures
        first_match(found) matches Some(at) ==> is_first(found, at),
        first_match(found) is None ==> forall|at: int| 0 <= at ==> !#[trigger] found(at),
        forall|at: int| is_first(found, at) ==> first_match(found) == Some(at),
{
    if exists|at: int| 0 <= at && #[trigger] found(at) {
        let witness = choose|at: int| 0 <= at && #[trigger] found(at);
        lemma_first_exists(found, witness);
        let chosen = choose|at: int| is_first(found, at);
        assert forall|at: int| is_first(found, at) implies at == chosen by {
            if at < chosen {
                assert(!found(at));
            }
            if chosen < at {
                assert(!found(chosen));
            }
        }
    } else {
        assert forall|at: int| is_first(found, at) implies first_match(found) == Some(at) by {
            assert(found(at));
        }
    }
}

/// Copies the characters of `s` into a vector, so that scanners can index
/// them in constant time.
pub fn chars_of(s: &str) -> (chars: Vec<char>)
    ensures
        chars@ == s@,
{
    broadcast use group_string_axioms;

    let mut chars: Vec<char> = Vec::new();
    for c in it: s.chars()
        invariant
            it.seq() == s@,
            chars@ == s@.take(it.index()),
    {
        assert(s@.take(it.index() + 1) == s@.take(it.index()).push(c));
        chars.push(c);
    }
    assert(s@.take(s@.len() as int) == s@);
    chars
}

/// Walks forward from `start` over characters of `class`.
pub fn scan_run(chars: &Vec<char>, start: usize, class: CharClass) -> (end: usize)
    requires
        start <= chars.len(),
    ensures
        end == run_end(chars@, start as int, class),
        start <= end <= chars.len(),
{
    let mut end: usize = start;
    while end < chars.len() && class.contains(chars[end])
        invariant
            start <= end <= chars.len(),
            run_end(chars@, start as int, class) == run_end(chars@, end as int, class),
        decreases chars.len() - end,
    {
        end += 1;
    }
    end
}

/// Tests whether `word` stands in `chars` at index `at`.
pub fn word_at(chars: &Vec<char>, at: usize, word: &str) -> (found: bool)
    requires
        at <= chars.len(),
    ensures
        found == occurs_at(chars@, at as int, word@),
{
    let length = word.unicode_len();
    if chars.len() - at < length {
        return false;
    }
    let mut matched: usize = 0;
    while matched < length
        invariant
            matched <= length,
            length == word@.len(),
            at + length <= chars.len(),
            forall|k: int| 0 <= k < matched ==> chars@[at + k] == word@[k],
        decreases length - matched,
    {
        if chars[at + matched] != word.get_char(matched) {
            assert(chars@.subrange(at as int, at + length)[matched as int] != word@[matched as int]);
            return false;
        }
        matched += 1;
    }
    assert(chars@.subrange(at as int, at + length) =~= word@);
    true
}

/// The characters of `text` from `from` up to `to`, as a string.
pub fn slice_string(text: &str, from: usize, to: usize) -> (part: String)
    requires
        from <= to <= text@.len(),
    ensures
        part@ == text@.subrange(from as int, to as int),
{
    text.substring_char(from, to).to_owned()
}

/// The bounds of `chars[from..to]` without its leading and trailing
/// whitespace.
pub fn trim_bounds(chars: &Vec<char>, from: usize, to: usize) -> (bounds: (usize, usize))
    requires
        from <= to <= chars.len(),
    ensures
        from <= bounds.0 <= bounds.1 <= to,
        chars@.subrange(bounds.0 as int, bounds.1 as int) == trim(
            chars@.subrange(from as int, to as int),
        ),
{
    let mut first: usize = from;
    while first < to && CharClass::Whitespace.contains(chars[first])
        invariant
            from <= first <= to <= chars.len(),
            forall|k: int| from <= k < first ==> is_whitespace(chars@[k]),
        decreases to - first,
    {
        first += 1;
    }
    let mut last: usize = to;
    while last > first && CharClass::Whitespace.contains(chars[last - 1])
        invariant
            first <= last <= to <= chars.len(),
            forall|k: int| last <= k < to ==> is_whitespace(chars@[k]),
        decreases last,
    {
        last -= 1;
    }
    proof {
        let part = chars@.subrange(from as int, to as int);
        let class = CharClass::Whitespace;
        assert forall|k: int| 0 <= k < first - from implies class.has(#[trigger] part[k]) by {
            assert(part[k] == chars@[from + k]);
        }
        lemma_run_end_unique(part, 0, class, first - from);
        lemma_run_start(part, part.len() as int, class);
        let begin = run_start(part, part.len() as int, class);
        if first < last {
            // The last kept character is no whitespace, so the backward run
            // stops right behind it.
            assert(part[last - from - 1] == chars@[last - 1]);
            assert forall|k: int| last - from <= k < part.len() implies class.has(
                #[trigger] part[k],
            ) by {
                assert(part[k] == chars@[from + k]);
            }
            if begin < last - from {
                assert(class.has(part[last - from - 1]));
            }
            if begin > last - from {
                assert(class.has(part[begin - 1]));
            }
            assert(part.subrange(first - from, last - from) =~= chars@.subrange(
                first as int,
                last as int,
            ));
        } else {
            // Everything is whitespace.
            if begin > 0 {
                assert(part[begin - 1] == chars@[from + begin - 1]);
            }
            assert(chars@.subrange(first as int, last as int) =~= Seq::<char>::empty());
        }
    }
    (first, last)
}

} // verus!
