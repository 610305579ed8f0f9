use vstd::prelude::*;

verus! {

/// Position of the first `'\n'` in `t`, or `t.len()` when there is none.
pub open spec fn newline_index(t: Seq<char>) -> nat
    decreases t.len(),
{
    if t.len() == 0 || t[0] == '\n' {
        0
    } else {
        1 + newline_index(t.skip(1))
    }
}

/// A line's content once a `'\r'` that stood just before its `'\n'` is dropped.
pub open spec fn without_cr(line: Seq<char>) -> Seq<char> {
    if line.len() > 0 && line.last() == '\r' {
        line.drop_last()
    } else {
        line
    }
}

/// The lines of `t`: split at `"\n"` or `"\r\n"`, terminators dropped; a
/// final terminator does not start an extra empty line.
pub open spec fn lines_of(t: Seq<char>) -> Seq<Seq<char>>
    decreases t.len(),
{
    if t.len() == 0 {
        Seq::empty()
    } else if newline_index(t) < t.len() {
        seq![without_cr(t.take(newline_index(t) as int))] + lines_of(
            t.skip(newline_index(t) + 1int),
        )
    } else {
        seq![t]
    }
}

/// The lines, each followed by a `'\n'`.
pub open spec fn terminated(lines: Seq<Seq<char>>) -> Seq<char> {
    lines.map_values(|line: Seq<char>| line + seq!['\n']).flatten()
}

pub open spec fn has_newline(line: Seq<char>) -> bool {
    exists|j: int| 0 <= j < line.len() && line[j] == '\n'
}

pub open spec fn ends_with_cr(line: Seq<char>) -> bool {
    line.len() > 0 && line.last() == '\r'
}

/// Before its first newline `t` holds none.
pub proof fn lemma_newline_index(t: Seq<char>)
    ensures
        newline_index(t) <= t.len(),
        newline_index(t) < t.len() ==> t[newline_index(t) as int] == '\n',
        forall|j: int| 0 <= j < newline_index(t) ==> t[j] != '\n',
    decreases t.len(),
{
    if t.len() > 0 && t[0] != '\n' {
        lemma_newline_index(t.skip(1));
        assert forall|j: int| 0 <= j < newline_index(t) implies t[j] != '\n' by {
            if j > 0 {
                assert(t[j] == t.skip(1)[j - 1]);
            }
        }
    }
}

/// The first newline of `a + "\n" + b` is the one after `a` when `a` holds none.
pub proof fn lemma_newline_index_after(a: Seq<char>, b: Seq<char>)
    requires
        !has_newline(a),
    ensures
        newline_index(a + seq!['\n'] + b) == a.len(),
    decreases a.len(),
{
    let t = a + seq!['\n'] + b;
    if a.len() > 0 {
        assert(t[0] == a[0]);
        assert(t.skip(1) =~= a.skip(1) + seq!['\n'] + b);
        assert(!has_newline(a.skip(1))) by {
            if has_newline(a.skip(1)) {
                let j = choose|j: int| 0 <= j < a.skip(1).len() && a.skip(1)[j] == '\n';
                assert(a[j + 1] == '\n');
            }
        }
        lemma_newline_index_after(a.skip(1), b);
    } else {
        assert(t[0] == '\n');
    }
}

/// No line of `t` holds a newline.
pub proof fn lemma_lines_have_no_newline(t: Seq<char>)
    ensures
        forall|i: int| 0 <= i < lines_of(t).len() ==> !has_newline(#[trigger] lines_of(t)[i]),
    decreases t.len(),
{
    if t.len() > 0 {
        let k = newline_index(t);
        lemma_newline_index(t);
        if k < t.len() {
            lemma_lines_have_no_newline(t.skip(k + 1int));
            let first = without_cr(t.take(k as int));
            assert(!has_newline(first)) by {
                if has_newline(first) {
                    let j = choose|j: int| 0 <= j < first.len() && first[j] == '\n';
                    assert(t[j] == '\n');
                }
            }
            assert forall|i: int| 0 <= i < lines_of(t).len() implies !has_newline(
                #[trigger] lines_of(t)[i],
            ) by {
                if i > 0 {
                    assert(lines_of(t)[i] == lines_of(t.skip(k + 1int))[i - 1]);
                }
            }
        } else {
            assert(lines_of(t) == seq![t]);
            assert(!has_newline(t)) by {
                if has_newline(t) {
                    let j = choose|j: int| 0 <= j < t.len() && t[j] == '\n';
                    assert(t[j] != '\n');
                }
            }
        }
    }
}

/// Lines that hold no newline and do not end in `'\r'` are read back as they
/// were written.
pub proof fn lemma_lines_of_terminated(lines: Seq<Seq<char>>)
    requires
        forall|i: int|
            0 <= i < lines.len() ==> !has_newline(#[trigger] lines[i]) && !ends_with_cr(lines[i]),
    ensures
        lines_of(terminated(lines)) == lines,
    decreases lines.len(),
{
    let f = |line: Seq<char>| line + seq!['\n'];
    if lines.len() > 0 {
        let rest = lines.drop_first();
        assert(lines.map_values(f).drop_first() =~= rest.map_values(f));
        assert(forall|i: int| 0 <= i < rest.len() ==> #[trigger] rest[i] == lines[i + 1]);
        lemma_lines_of_terminated(rest);
        let t = terminated(lines);
        let tail = terminated(rest);
        assert(t == lines[0] + seq!['\n'] + tail);
        lemma_newline_index_after(lines[0], tail);
        assert(t.take(lines[0].len() as int) =~= lines[0]);
        assert(t.skip(lines[0].len() + 1int) =~= tail);
        assert(lines_of(t) =~= lines);
    } else {
        assert(terminated(lines) =~= Seq::<char>::empty());
        assert(lines_of(terminated(lines)) =~= lines);
    }
}

/// Relies on `str::lines`: it splits at `"\n"` and at `"\r\n"`, drops the
/// terminators, and yields no empty line after a final terminator.
#[verifier::external_body]
pub(crate) fn split_lines<'a>(text: &'a str) -> (r: Vec<&'a str>)
    ensures
        r@.len() == lines_of(text@).len(),
        forall|i: int| 0 <= i < r@.len() ==> #[trigger] r@[i]@ == lines_of(text@)[i],
{
    text.lines().collect()
}

} // verus!
