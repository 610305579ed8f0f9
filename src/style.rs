use vstd::prelude::*;

verus! {

/// One level of indentation: a tab, or a fixed run of spaces.
#[derive(Debug, Clone, Copy, PartialEq, Eq, Structural)]
pub enum Indentation {
    Spaces(usize),
    Tab,
}

impl Indentation {
    /// A space style must have a positive width; otherwise stripping a level
    /// would consume nothing.
    pub open spec fn wf(self) -> bool {
        match self {
            Indentation::Spaces(n) => n >= 1,
            Indentation::Tab => true,
        }
    }

    /// The characters that make up one level of this style.
    pub open spec fn unit(self) -> Seq<char> {
        match self {
            Indentation::Spaces(n) => Seq::new(n as nat, |_i: int| ' '),
            Indentation::Tab => seq!['\t'],
        }
    }

    /// Number of whole units at the start of `line`.
    pub open spec fn depth(self, line: Seq<char>) -> nat
        decreases line.len(),
    {
        if self.wf() && self.unit().is_prefix_of(line) {
            1 + self.depth(line.skip(self.unit().len() as int))
        } else {
            0
        }
    }

    /// What is left of `line` once every whole unit at its start is removed.
    pub open spec fn body(self, line: Seq<char>) -> Seq<char>
        decreases line.len(),
    {
        if self.wf() && self.unit().is_prefix_of(line) {
            self.body(line.skip(self.unit().len() as int))
        } else {
            line
        }
    }

    /// `count` units of this style, one after another.
    pub open spec fn repeat(self, count: nat) -> Seq<char>
        decreases count,
    {
        if count == 0 {
            Seq::empty()
        } else {
            self.repeat((count - 1) as nat) + self.unit()
        }
    }

    /// Removes one unit from the start of `line`, if it begins with one.
    pub fn strip_from<'a>(self, line: &'a str) -> (r: Option<&'a str>)
        requires
            self.wf(),
        ensures
            r is Some <==> self.unit().is_prefix_of(line@),
            r matches Some(rest) ==> rest@ == line@.skip(self.unit().len() as int),
    {
        match self {
            Indentation::Tab => {
                assert(self.unit() == seq!['\t']);
                let r = strip_char(line, '\t');
                proof {
                    if self.unit().is_prefix_of(line@) {
                        assert(line@[0] == line@.subrange(0, 1)[0]);
                    }
                }
                assert(r matches Some(rest) ==> seq!['\t'] + rest@ =~= line@);
                r
            },
            Indentation::Spaces(spaces) => {
                let mut rest = line;
                let mut i: usize = 0;
                while i < spaces
                    invariant
                        self == Indentation::Spaces(spaces),
                        i <= spaces,
                        i <= line@.len(),
                        rest@ == line@.skip(i as int),
                        forall|j: int| 0 <= j < i ==> line@[j] == ' ',
                    decreases spaces - i,
                {
                    match strip_char(rest, ' ') {
                        Some(stripped) => {
                            rest = stripped;
                            i = i + 1;
                        },
                        None => {
                            assert(!self.unit().is_prefix_of(line@)) by {
                                if self.unit().is_prefix_of(line@) {
                                    assert(self.unit().len() == spaces);
                                    assert(line@.subrange(0, spaces as int)[i as int]
                                        == line@[i as int]);
                                    assert(rest@[0] == line@[i as int]);
                                }
                            }
                            return None;
                        },
                    }
                }
                assert(self.unit() =~= line@.subrange(0, spaces as int));
                Some(rest)
            },
        }
    }
}

impl Indentation {
    /// The style suggested by the start of `line`, if it is indented at all.
    pub fn from_line(line: &str) -> (r: Option<Indentation>)
        ensures
            r == style_of_line(line@),
            r matches Some(style) ==> style.wf(),
    {
        match strip_char(line, '\t') {
            Some(_) => Some(Indentation::Tab),
            None => {
                let spaces = count_leading_spaces(line);
                if spaces > 0 {
                    Some(Indentation::Spaces(spaces))
                } else {
                    None
                }
            },
        }
    }

    /// Removes every whole unit from the start of `line`, returning what is
    /// left and how many units were removed.
    pub fn strip_all_from<'a>(self, line: &'a str) -> (r: (&'a str, usize))
        requires
            self.wf(),
        ensures
            r.0@ == self.body(line@),
            r.1 == self.depth(line@),
    {
        let total = line.unicode_len();
        let mut rest = line;
        let mut levels: usize = 0;
        loop
            invariant
                self.wf(),
                total == line@.len(),
                levels + rest@.len() <= line@.len(),
                self.depth(line@) == levels + self.depth(rest@),
                self.body(line@) == self.body(rest@),
            decreases rest@.len(),
        {
            match self.strip_from(rest) {
                Some(stripped) => {
                    rest = stripped;
                    levels = levels + 1;
                },
                None => {
                    return (rest, levels);
                },
            }
        }
    }

    /// Appends one unit of this style to `s`.
    pub fn append_to_string(self, s: &mut String)
        ensures
            final(s)@ == old(s)@ + self.unit(),
    {
        match self {
            Indentation::Tab => {
                proof {
                    reveal_strlit("\t");
                }
                s.append("\t");
                assert(final(s)@ =~= old(s)@ + self.unit());
            },
            Indentation::Spaces(spaces) => {
                proof {
                    reveal_strlit(" ");
                }
                let mut i: usize = 0;
                while i < spaces
                    invariant
                        self == Indentation::Spaces(spaces),
                        i <= spaces,
                        " "@ == seq![' '],
                        s@ =~= old(s)@ + Seq::new(i as nat, |_j: int| ' '),
                    decreases spaces - i,
                {
                    s.append(" ");
                    i = i + 1;
                }
                assert(s@ =~= old(s)@ + self.unit());
            },
        }
    }
}

/// Number of spaces at the start of `line`.
pub open spec fn leading_spaces(line: Seq<char>) -> nat
    decreases line.len(),
{
    if line.len() > 0 && line[0] == ' ' {
        1 + leading_spaces(line.skip(1))
    } else {
        0
    }
}

/// The style that an indented line suggests: a leading tab means tabs,
/// otherwise the full run of leading spaces is one level.
pub open spec fn style_of_line(line: Seq<char>) -> Option<Indentation> {
    if line.len() > 0 && line[0] == '\t' {
        Some(Indentation::Tab)
    } else if leading_spaces(line) > 0 {
        Some(Indentation::Spaces(leading_spaces(line) as usize))
    } else {
        None
    }
}

fn count_leading_spaces(line: &str) -> (r: usize)
    ensures
        r == leading_spaces(line@),
{
    let total = line.unicode_len();
    let mut rest = line;
    let mut count: usize = 0;
    loop
        invariant
            total == line@.len(),
            count + rest@.len() == line@.len(),
            leading_spaces(line@) == count + leading_spaces(rest@),
        decreases rest@.len(),
    {
        match strip_char(rest, ' ') {
            Some(stripped) => {
                rest = stripped;
                count = count + 1;
            },
            None => {
                return count;
            },
        }
    }
}

/// A tab or a space.
pub open spec fn is_blank(c: char) -> bool {
    c == ' ' || c == '\t'
}

/// Whether `line` begins with a tab or a space.
pub open spec fn starts_indented(line: Seq<char>) -> bool {
    line.len() > 0 && is_blank(line[0])
}

/// A unit is non-empty and made of blanks.
pub proof fn lemma_unit_blank(style: Indentation)
    requires
        style.wf(),
    ensures
        style.unit().len() >= 1,
        forall|j: int| 0 <= j < style.unit().len() ==> is_blank(#[trigger] style.unit()[j]),
{
}

/// Repeated units are made of blanks.
pub proof fn lemma_repeat_blank(style: Indentation, count: nat)
    ensures
        forall|j: int| 0 <= j < style.repeat(count).len() ==> is_blank(#[trigger] style.repeat(count)[j]),
    decreases count,
{
    if count > 0 {
        lemma_repeat_blank(style, (count - 1) as nat);
        let r = style.repeat(count);
        let p = style.repeat((count - 1) as nat);
        assert forall|j: int| 0 <= j < r.len() implies is_blank(#[trigger] r[j]) by {
            if j >= p.len() {
                assert(r[j] == style.unit()[j - p.len()]);
            } else {
                assert(r[j] == p[j]);
            }
        }
    }
}

/// `count + 1` units are one unit followed by `count` units.
pub proof fn lemma_repeat_front(style: Indentation, count: nat)
    ensures
        style.repeat(count + 1) == style.unit() + style.repeat(count),
    decreases count,
{
    if count > 0 {
        lemma_repeat_front(style, (count - 1) as nat);
        assert(style.repeat(count + 1) =~= style.unit() + style.repeat(count));
    } else {
        assert(style.repeat(1) =~= style.unit() + style.repeat(0));
    }
}

/// Putting back the stripped units gives the line again.
#[verifier::spinoff_prover]
pub proof fn lemma_strip_restores(style: Indentation, line: Seq<char>)
    requires
        style.wf(),
    ensures
        style.repeat(style.depth(line)) + style.body(line) == line,
    decreases line.len(),
{
    let u = style.unit();
    if u.is_prefix_of(line) {
        let rest = line.skip(u.len() as int);
        let d = style.depth(rest);
        lemma_strip_restores(style, rest);
        lemma_repeat_front(style, d);
        assert(style.depth(line) == d + 1);
        assert(style.body(line) == style.body(rest));
        assert((u + style.repeat(d)) + style.body(rest) =~= u + (style.repeat(d) + style.body(
            rest,
        )));
        assert(u + rest =~= line) by {
            assert(u =~= line.subrange(0, u.len() as int));
        }
    } else {
        assert(style.repeat(0) + line =~= line);
    }
}

/// Stripping `count` units written before `tail` finds them all, then goes on
/// as on `tail`.
pub proof fn lemma_strip_repeat(style: Indentation, count: nat, tail: Seq<char>)
    requires
        style.wf(),
    ensures
        style.depth(style.repeat(count) + tail) == count + style.depth(tail),
        style.body(style.repeat(count) + tail) == style.body(tail),
    decreases count,
{
    if count == 0 {
        assert(style.repeat(0) + tail =~= tail);
    } else {
        let k = (count - 1) as nat;
        let u = style.unit();
        let line = style.repeat(count) + tail;
        lemma_repeat_front(style, k);
        lemma_strip_repeat(style, k, tail);
        assert(line =~= u + (style.repeat(k) + tail));
        assert(u =~= line.subrange(0, u.len() as int));
        assert(line.skip(u.len() as int) =~= style.repeat(k) + tail);
    }
}

/// A line that does not begin with a blank holds no unit.
pub proof fn lemma_strip_unindented(style: Indentation, line: Seq<char>)
    requires
        style.wf(),
        !starts_indented(line),
    ensures
        style.depth(line) == 0,
        style.body(line) == line,
{
    lemma_unit_blank(style);
    if style.unit().is_prefix_of(line) {
        assert(line[0] == line.subrange(0, style.unit().len() as int)[0]);
    }
}

/// Relies on `str::strip_prefix` with a `char` pattern: it returns the rest of
/// the string exactly when the string starts with that character.
#[verifier::external_body]
fn strip_char<'a>(s: &'a str, c: char) -> (r: Option<&'a str>)
    ensures
        r is Some <==> (s@.len() > 0 && s@[0] == c),
        r matches Some(rest) ==> rest@ == s@.skip(1),
{
    s.strip_prefix(c)
}

} // verus!
