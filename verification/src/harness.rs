//! What a test program is expected to write: the text behind the `#` of
//! each of its lines.

use vstd::prelude::*;
use vstd::string::*;
use crate::scanner::{is_space, is_whitespace, run_end, CharClass};
use crate::text::{chars_of, push_char};

verus! {

/// The first position from `from` up to `to` that holds `needle`, or
/// `to`.
pub open spec fn find(chars: Seq<char>, needle: char, from: int, to: int) -> int
    decreases to - from,
{
    if from < to && chars[from] != needle {
        find(chars, needle, from + 1, to)
    } else {
        from
    }
}

/// Where the text from `from` up to `to` starts behind its leading white
/// space.
pub open spec fn trim_start(chars: Seq<char>, from: int, to: int) -> int
    decreases to - from,
{
    if from < to && is_space(chars[from]) {
        trim_start(chars, from + 1, to)
    } else {
        from
    }
}

/// Where the text from `from` up to `to` ends before its trailing white
/// space.
pub open spec fn trim_end(chars: Seq<char>, from: int, to: int) -> int
    decreases to - from,
{
    if from < to && is_space(chars[to - 1]) {
        trim_end(chars, from, to - 1)
    } else {
        to
    }
}

/// `text` without leading and trailing white space.
pub open spec fn trimmed(text: Seq<char>) -> Seq<char> {
    let start = trim_start(text, 0, text.len() as int);
    text.subrange(start, trim_end(text, start, text.len() as int))
}

/// What `line` adds to the expected output: where it holds a `#` that is
/// not its last character, the text behind the first `#`, trimmed, and a
/// line feed.
pub open spec fn expected_of_line(line: Seq<char>) -> Seq<char> {
    let mark = find(line, '#', 0, line.len() as int);
    if mark + 1 < line.len() {
        trimmed(line.subrange(mark + 1, line.len() as int)).push('\n')
    } else {
        Seq::empty()
    }
}

/// The expected output of the lines of `source` from position `from` on.
/// Lines end at a line feed.
pub open spec fn expected_from(source: Seq<char>, from: int) -> Seq<char>
    decreases source.len() - from,
{
    let end = run_end(source, from, CharClass::NotNewline);
    let line = expected_of_line(source.subrange(from, end));
    if from <= end < source.len() {
        line + expected_from(source, end + 1)
    } else {
        line
    }
}

/// What a program with the source `source` is expected to write.
pub open spec fn expected_output(source: Seq<char>) -> Seq<char> {
    expected_from(source, 0)
}

/// Finding and trimming inside a part of a text are finding and trimming
/// in the text, moved by where the part starts.
proof fn lemma_in_part(chars: Seq<char>, low: int, high: int, from: int, to: int)
    requires
        0 <= low <= from <= to <= high <= chars.len(),
    ensures
        find(chars.subrange(low, high), '#', from - low, to - low) == find(chars, '#', from, to)
            - low,
        trim_start(chars.subrange(low, high), from - low, to - low) == trim_start(chars, from, to)
            - low,
        trim_end(chars.subrange(low, high), from - low, to - low) == trim_end(chars, from, to) - low,
    decreases to - from,
{
    let part = chars.subrange(low, high);
    if from < to {
        assert(part[from - low] == chars[from]);
        assert(part[to - 1 - low] == chars[to - 1]);
        lemma_in_part(chars, low, high, from + 1, to);
        lemma_in_part(chars, low, high, from, to - 1);
    }
}

/// Appends to `output` what the line of `chars` from `from` up to `to`
/// adds to the expected output.
fn push_expected_of_line(output: &mut String, chars: &Vec<char>, from: usize, to: usize)
    requires
        from <= to <= chars@.len(),
    ensures
        final(output)@ == old(output)@ + expected_of_line(chars@.subrange(from as int, to as int)),
{
    let ghost line = chars@.subrange(from as int, to as int);
    let mut mark = from;
    while mark < to && chars[mark] != '#'
        invariant
            from <= mark <= to <= chars@.len(),
            find(chars@, '#', mark as int, to as int) == find(chars@, '#', from as int, to as int),
        decreases to - mark,
    {
        mark += 1;
    }
    proof {
        lemma_in_part(chars@, from as int, to as int, from as int, to as int);
        assert(find(line, '#', 0, line.len() as int) == mark - from);
    }
    if to - mark <= 1 {
        assert(old(output)@ + expected_of_line(line) =~= old(output)@);
        return ;
    }
    let ghost text = line.subrange(mark + 1 - from, line.len() as int);
    assert(text =~= chars@.subrange(mark + 1, to as int));
    let mut start = mark + 1;
    while start < to && is_whitespace(chars[start])
        invariant
            mark + 1 <= start <= to <= chars@.len(),
            trim_start(chars@, start as int, to as int) == trim_start(
                chars@,
                mark + 1,
                to as int,
            ),
        decreases to - start,
    {
        start += 1;
    }
    let mut end = to;
    while start < end && is_whitespace(chars[end - 1])
        invariant
            start <= end <= to <= chars@.len(),
            trim_end(chars@, start as int, end as int) == trim_end(chars@, start as int, to as int),
        decreases end - start,
    {
        end -= 1;
    }
    proof {
        lemma_in_part(chars@, mark + 1, to as int, mark + 1, to as int);
        lemma_in_part(chars@, mark + 1, to as int, start as int, to as int);
        assert(trimmed(text) =~= chars@.subrange(start as int, end as int));
    }
    let mut at = start;
    while at < end
        invariant
            start <= at <= end <= chars@.len(),
            output@ == old(output)@ + chars@.subrange(start as int, at as int),
        decreases end - at,
    {
        push_char(output, chars[at]);
        proof {
            assert(chars@.subrange(start as int, at + 1) =~= chars@.subrange(
                start as int,
                at as int,
            ).push(chars@[at as int]));
            assert(output@ =~= old(output)@ + chars@.subrange(start as int, at + 1));
        }
        at += 1;
    }
    push_char(output, '\n');
    assert(output@ =~= old(output)@ + expected_of_line(line));
}

/// What a program with the source `src` is expected to write: for each
/// line that holds a `#` with text behind it, that text without the white
/// space around it, and a line feed.
pub fn get_expected_output(src: &str) -> (output: String)
    ensures
        output@ == expected_output(src@),
{
    let chars = chars_of(src);
    let mut output = String::new();
    let mut from: usize = 0;
    assert(output@ + expected_from(chars@, 0) =~= expected_output(src@));
    loop
        invariant_except_break
            output@ + expected_from(chars@, from as int) == expected_output(src@),
        invariant
            from <= chars@.len(),
            chars@ == src@,
        ensures
            output@ == expected_output(src@),
        decreases chars@.len() - from,
    {
        let mut end = from;
        while end < chars.len() && chars[end] != '\n'
            invariant
                from <= end <= chars@.len(),
                run_end(chars@, end as int, CharClass::NotNewline) == run_end(
                    chars@,
                    from as int,
                    CharClass::NotNewline,
                ),
            decreases chars@.len() - end,
        {
            end += 1;
        }
        let ghost before = output@;
        push_expected_of_line(&mut output, &chars, from, end);
        proof {
            let line = expected_of_line(chars@.subrange(from as int, end as int));
            if end < chars@.len() {
                assert(before + (line + expected_from(chars@, end + 1)) =~= (before + line)
                    + expected_from(chars@, end + 1));
            }
        }
        if end >= chars.len() {
            break ;
        }
        from = end + 1;
    }
    output
}

} // verus!
