use vstd::prelude::*;

use crate::convert::{convert_line, detected_style, reindented, source_style};
use crate::style::{
    lemma_repeat_blank, lemma_strip_repeat, lemma_strip_restores, lemma_strip_unindented,
    starts_indented, style_of_line, Indentation,
};
use crate::text::{
    ends_with_cr, has_newline, lemma_lines_have_no_newline, lemma_lines_of_terminated, lines_of,
    terminated,
};

verus! {

/// Detection finds nothing in lines that all start without a blank.
proof fn lemma_detect_none(lines: Seq<Seq<char>>)
    requires
        forall|i: int| 0 <= i < lines.len() ==> !starts_indented(#[trigger] lines[i]),
    ensures
        detected_style(lines) is None,
    decreases lines.len(),
{
    if lines.len() > 0 {
        assert(!starts_indented(lines[0]));
        assert(style_of_line(lines[0]) is None);
        let rest = lines.skip(1);
        assert(forall|i: int| 0 <= i < rest.len() ==> #[trigger] rest[i] == lines[i + 1]);
        lemma_detect_none(rest);
    }
}

/// Reindenting from a style to itself changes nothing but the line
/// terminators: every line comes out as it was, followed by `'\n'`.
pub proof fn law_same_style(text: Seq<char>, style: Indentation)
    requires
        style.wf(),
    ensures
        reindented(text, Some(style), style) == terminated(lines_of(text)),
{
    let lines = lines_of(text);
    assert forall|i: int| 0 <= i < lines.len() implies #[trigger] convert_line(
        style,
        style,
        lines[i],
    ) == lines[i] + seq!['\n'] by {
        lemma_strip_restores(style, lines[i]);
    }
    assert(lines.map_values(|line: Seq<char>| convert_line(style, style, line)) =~= lines.map_values(
        |line: Seq<char>| line + seq!['\n'],
    ));
}

/// Text in which no line starts with a tab or a space keeps its lines as
/// they are, whatever the two styles: unchanged altogether when the source
/// style is to be detected, and with normalised terminators when it is given.
pub proof fn law_unindented_passthrough(
    text: Seq<char>,
    from: Option<Indentation>,
    to: Indentation,
)
    requires
        from matches Some(style) ==> style.wf(),
        forall|i: int|
            0 <= i < lines_of(text).len() ==> !starts_indented(#[trigger] lines_of(text)[i]),
    ensures
        from is None ==> reindented(text, from, to) == text,
        from is Some ==> reindented(text, from, to) == terminated(lines_of(text)),
{
    let lines = lines_of(text);
    lemma_detect_none(lines);
    if let Some(style) = from {
        assert forall|i: int| 0 <= i < lines.len() implies #[trigger] convert_line(
            style,
            to,
            lines[i],
        ) == lines[i] + seq!['\n'] by {
            lemma_strip_unindented(style, lines[i]);
            assert(to.repeat(0) + lines[i] =~= lines[i]);
        }
        assert(lines.map_values(|line: Seq<char>| convert_line(style, to, line))
            =~= lines.map_values(|line: Seq<char>| line + seq!['\n']));
    }
}

/// The output lines, before their terminators.
pub open spec fn converted_lines(from: Indentation, to: Indentation, lines: Seq<Seq<char>>) -> Seq<
    Seq<char>,
> {
    lines.map_values(|line: Seq<char>| to.repeat(from.depth(line)) + from.body(line))
}

/// The output of a conversion is its converted lines, each followed by `'\n'`;
/// when no input line ends in `'\r'`, reading the output back gives exactly
/// those lines.
proof fn lemma_output_lines(text: Seq<char>, from: Indentation, to: Indentation)
    requires
        from.wf(),
        forall|i: int| 0 <= i < lines_of(text).len() ==> !ends_with_cr(#[trigger] lines_of(text)[i]),
    ensures
        lines_of(reindented(text, Some(from), to)) == converted_lines(from, to, lines_of(text)),
{
    let lines = lines_of(text);
    let out = converted_lines(from, to, lines);
    lemma_lines_have_no_newline(text);
    assert(lines.map_values(|line: Seq<char>| convert_line(from, to, line)) =~= out.map_values(
        |line: Seq<char>| line + seq!['\n'],
    ));
    assert forall|i: int| 0 <= i < out.len() implies !has_newline(#[trigger] out[i]) && !ends_with_cr(
        out[i],
    ) by {
        let line = lines[i];
        let r = to.repeat(from.depth(line));
        let b = from.body(line);
        lemma_repeat_blank(to, from.depth(line));
        lemma_strip_restores(from, line);
        let p = from.repeat(from.depth(line));
        assert(line == p + b);
        assert forall|j: int| 0 <= j < b.len() implies b[j] == #[trigger] line[j + p.len()] by {}
        if has_newline(out[i]) {
            let j = choose|j: int| 0 <= j < out[i].len() && out[i][j] == '\n';
            if j < r.len() {
                assert(out[i][j] == r[j]);
            } else {
                assert(out[i][j] == b[j - r.len()]);
                assert(line[j - r.len() + p.len()] == '\n');
                assert(has_newline(line));
            }
        }
        if b.len() > 0 {
            assert(out[i].last() == b.last());
            assert(b.last() == line.last());
        } else if r.len() > 0 {
            assert(out[i].last() == r[r.len() - 1]);
        }
    }
    lemma_lines_of_terminated(out);
}

/// Each output line holds exactly as many target units as the source style's
/// stripping counted on the input line, followed by what the stripping left.
/// Holds for text none of whose lines ends in `'\r'`: such a line reads back
/// with that character taken as part of its terminator.
pub proof fn law_depth_preserved(text: Seq<char>, from: Option<Indentation>, to: Indentation)
    requires
        source_style(text, from) is Some,
        source_style(text, from)->0.wf(),
        forall|i: int| 0 <= i < lines_of(text).len() ==> !ends_with_cr(#[trigger] lines_of(text)[i]),
    ensures
        ({
            let source = source_style(text, from)->0;
            let input = lines_of(text);
            let output = lines_of(reindented(text, from, to));
            &&& output.len() == input.len()
            &&& forall|i: int|
                0 <= i < input.len() ==> #[trigger] output[i] == to.repeat(source.depth(input[i]))
                    + source.body(input[i])
        }),
{
    let source = source_style(text, from)->0;
    assert(reindented(text, from, to) == reindented(text, Some(source), to));
    lemma_output_lines(text, source, to);
}

/// Converting from `a` to `b` and then, with the source given, from `b` back
/// to `a` restores every line, when each line's indentation is made of whole
/// units of `a` and no line ends in `'\r'`.
pub proof fn law_round_trip(text: Seq<char>, a: Indentation, b: Indentation)
    requires
        a.wf(),
        b.wf(),
        forall|i: int|
            0 <= i < lines_of(text).len() ==> !starts_indented(a.body(#[trigger] lines_of(text)[i]))
                && !ends_with_cr(lines_of(text)[i]),
    ensures
        reindented(reindented(text, Some(a), b), Some(b), a) == terminated(lines_of(text)),
{
    let lines = lines_of(text);
    let mid = reindented(text, Some(a), b);
    lemma_output_lines(text, a, b);
    let mid_lines = converted_lines(a, b, lines);
    assert(lines_of(mid) == mid_lines);
    assert forall|i: int| 0 <= i < lines.len() implies #[trigger] convert_line(
        b,
        a,
        mid_lines[i],
    ) == lines[i] + seq!['\n'] by {
        let line = lines[i];
        let d = a.depth(line);
        lemma_strip_unindented(b, a.body(line));
        lemma_strip_repeat(b, d, a.body(line));
        lemma_strip_restores(a, line);
        assert(mid_lines[i] == b.repeat(d) + a.body(line));
    }
    assert(mid_lines.map_values(|line: Seq<char>| convert_line(b, a, line)) =~= lines.map_values(
        |line: Seq<char>| line + seq!['\n'],
    ));
}

} // verus!
