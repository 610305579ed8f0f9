use vstd::prelude::*;

use crate::style::{style_of_line, Indentation};
use crate::text::{lines_of, split_lines};

verus! {

/// The style of the first line that starts with a tab or a space.
pub open spec fn detected_style(lines: Seq<Seq<char>>) -> Option<Indentation>
    decreases lines.len(),
{
    if lines.len() == 0 {
        None
    } else if style_of_line(lines[0]) is Some {
        style_of_line(lines[0])
    } else {
        detected_style(lines.skip(1))
    }
}

/// The style that the lines of `text` are read in: the one given, else the
/// detected one.
pub open spec fn source_style(text: Seq<char>, from: Option<Indentation>) -> Option<Indentation> {
    match from {
        Some(style) => Some(style),
        None => detected_style(lines_of(text)),
    }
}

/// One line with its indentation re-expressed in `to`, then a newline.
pub open spec fn convert_line(from: Indentation, to: Indentation, line: Seq<char>) -> Seq<char> {
    to.repeat(from.depth(line)) + from.body(line) + seq!['\n']
}

/// Every line converted, in order.
pub open spec fn convert_lines(from: Indentation, to: Indentation, lines: Seq<Seq<char>>) -> Seq<
    char,
> {
    lines.map_values(|line: Seq<char>| convert_line(from, to, line)).flatten()
}

/// The whole text reindented; text with no source style comes back unchanged.
pub open spec fn reindented(text: Seq<char>, from: Option<Indentation>, to: Indentation) -> Seq<
    char,
> {
    match source_style(text, from) {
        Some(style) => convert_lines(style, to, lines_of(text)),
        None => text,
    }
}

/// Guesses the style of `file` from its first indented line.
pub fn detect_indentation(file: &str) -> (r: Option<Indentation>)
    ensures
        r == detected_style(lines_of(file@)),
        r matches Some(style) ==> style.wf(),
{
    let lines = split_lines(file);
    let ghost all = lines_of(file@);
    let mut i: usize = 0;
    assert(all.skip(0) =~= all);
    while i < lines.len()
        invariant
            all == lines_of(file@),
            i <= lines@.len(),
            lines@.len() == all.len(),
            forall|j: int| 0 <= j < lines@.len() ==> #[trigger] lines@[j]@ == all[j],
            detected_style(all) == detected_style(all.skip(i as int)),
        decreases lines@.len() - i,
    {
        let found = Indentation::from_line(lines[i]);
        assert(lines@[i as int]@ == all[i as int]);
        assert(all.skip(i as int)[0] == all[i as int]);
        if found.is_some() {
            return found;
        }
        assert(all.skip(i as int).skip(1) =~= all.skip(i + 1));
        i = i + 1;
    }
    None
}

/// Rewrites the indentation of `file` from the source style (`from`, else the
/// detected one) to `to`, ending every line with `'\n'`. A file with no
/// source style is returned as it is.
pub fn reindent(file: &str, from: Option<Indentation>, to: Indentation) -> (r: String)
    requires
        from matches Some(style) ==> style.wf(),
    ensures
        r@ == reindented(file@, from, to),
{
    let source = match from {
        Some(style) => Some(style),
        None => detect_indentation(file),
    };
    match source {
        None => String::from_str(file),
        Some(source) => {
            let lines = split_lines(file);
            let ghost all = lines_of(file@);
            let ghost convert = |line: Seq<char>| convert_line(source, to, line);
            proof {
                reveal_strlit("\n");
            }
            let mut out = String::new();
            let mut i: usize = 0;
            while i < lines.len()
                invariant
                    all == lines_of(file@),
                    source_style(file@, from) == Some(source),
                    source.wf(),
                    i <= lines@.len(),
                    lines@.len() == all.len(),
                    forall|j: int| 0 <= j < lines@.len() ==> #[trigger] lines@[j]@ == all[j],
                    convert == (|line: Seq<char>| convert_line(source, to, line)),
                    "\n"@ == seq!['\n'],
                    out@ == all.take(i as int).map_values(convert).flatten(),
                decreases lines@.len() - i,
            {
                let ghost before = out@;
                let (body, levels) = source.strip_all_from(lines[i]);
                let mut k: usize = 0;
                while k < levels
                    invariant
                        k <= levels,
                        out@ == before + to.repeat(k as nat),
                    decreases levels - k,
                {
                    to.append_to_string(&mut out);
                    k = k + 1;
                }
                out.append(body);
                out.append("\n");
                proof {
                    assert(out@ =~= before + convert(all[i as int]));
                    assert(all.take(i + 1).map_values(convert) =~= all.take(i as int).map_values(
                        convert,
                    ).push(convert(all[i as int])));
                    all.take(i as int).map_values(convert).lemma_flatten_push(
                        convert(all[i as int]),
                    );
                }
                i = i + 1;
            }
            assert(all.take(all.len() as int) =~= all);
            out
        },
    }
}

} // verus!
