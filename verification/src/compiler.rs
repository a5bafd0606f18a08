//! The markup of the program that the compiler page shows at first.

use crate::text::{all_in, chars_of, lemma_run_end, scan_run, CharClass};
use vstd::prelude::*;
use vstd::string::*;

verus! {

/// `text` with every line feed replaced by the end of one block and the
/// start of the next.
pub open spec fn with_block_breaks(text: Seq<char>) -> Seq<char>
    decreases text.len(),
{
    if text.len() == 0 {
        Seq::empty()
    } else if text.last() == '\n' {
        with_block_breaks(text.drop_last()) + "</div><div>"@
    } else {
        with_block_breaks(text.drop_last()).push(text.last())
    }
}

/// The markup of a program: each of its lines in a block of its own.
/// The lines are what the line feeds separate, so a text of n line feeds
/// has n + 1 lines, some of them perhaps empty.
pub open spec fn program_markup(text: Seq<char>) -> Seq<char> {
    "<div>"@ + with_block_breaks(text) + "</div>"@
}

/// Characters without a line feed pass through `with_block_breaks`
/// unchanged.
proof fn lemma_block_breaks_after_line(text: Seq<char>, line: Seq<char>)
    requires
        all_in(line, CharClass::InLine),
    ensures
        with_block_breaks(text + line) == with_block_breaks(text) + line,
    decreases line.len(),
{
    if line.len() == 0 {
        assert(text + line == text);
        assert(with_block_breaks(text) + line == with_block_breaks(text));
    } else {
        lemma_block_breaks_after_line(text, line.drop_last());
        assert((text + line).drop_last() == text + line.drop_last());
        assert((with_block_breaks(text) + line.drop_last()).push(line.last()) == with_block_breaks(
            text,
        ) + line);
    }
}

/// Puts each line of `program` into a block of its own.
pub fn get_default(program: &str) -> (markup: String)
    ensures
        markup@ == program_markup(program@),
{
    let chars = chars_of(program);
    let ghost text = program@;
    let mut markup = String::from_str("<div>");
    let mut start: usize = 0;
    assert(text.take(0) == Seq::<char>::empty());
    assert("<div>"@ + with_block_breaks(text.take(0)) == "<div>"@);
    loop
        invariant
            text == program@,
            text == chars@,
            start <= chars.len(),
            markup@ == "<div>"@ + with_block_breaks(text.take(start as int)),
        decreases chars.len() - start,
    {
        let end = scan_run(&chars, start, CharClass::InLine);
        markup.append(program.substring_char(start, end));
        proof {
            let line = text.subrange(start as int, end as int);
            lemma_run_end(text, start as int, CharClass::InLine);
            lemma_block_breaks_after_line(text.take(start as int), line);
            assert(text.take(start as int) + line == text.take(end as int));
            assert(markup@ == "<div>"@ + with_block_breaks(text.take(end as int)));
        }
        if end >= chars.len() {
            assert(text.take(end as int) == text);
            markup.append("</div>");
            return markup;
        }
        markup.append("</div><div>");
        proof {
            assert(text.take(end + 1).drop_last() == text.take(end as int));
            assert(text.take(end + 1).last() == '\n');
            assert(markup@ == "<div>"@ + with_block_breaks(text.take(end + 1)));
        }
        start = end + 1;
    }
}

} // verus!
