use vstd::prelude::*;

use crate::style::Indentation;

verus! {

/// Why a textual style could not be read.
#[derive(Debug, PartialEq, Eq)]
pub enum ParseIndentationError {
    /// A width of zero spaces, which would make a level consume nothing.
    ZeroWidth,
    /// Neither a tab word nor a width that fits in `usize`; holds the reason.
    InvalidWidth(String),
}

impl ParseIndentationError {
    /// A sentence describing the error.
    pub fn message(&self) -> (r: String)
        ensures
            self matches ParseIndentationError::InvalidWidth(reason) ==> r@ == reason@,
            self is ZeroWidth ==> r@ == "indentation width must be at least one space"@,
    {
        match self {
            ParseIndentationError::ZeroWidth => String::from_str(
                "indentation width must be at least one space",
            ),
            ParseIndentationError::InvalidWidth(reason) => reason.clone(),
        }
    }
}

/// `"tab"` or `"tabs"`.
pub open spec fn is_tab_word(s: Seq<char>) -> bool {
    s == seq!['t', 'a', 'b'] || s == seq!['t', 'a', 'b', 's']
}

pub open spec fn is_digit(c: char) -> bool {
    '0' <= c && c <= '9'
}

/// The number that a run of decimal digits writes.
pub open spec fn digits_value(d: Seq<char>) -> int
    decreases d.len(),
{
    if d.len() == 0 {
        0
    } else {
        digits_value(d.drop_last()) * 10 + ((d.last() as u32) - ('0' as u32))
    }
}

/// The digits of a numeral, after an optional leading `'+'`.
pub open spec fn numeral_digits(s: Seq<char>) -> Seq<char> {
    if s.len() > 0 && s[0] == '+' {
        s.skip(1)
    } else {
        s
    }
}

/// An optional `'+'` followed by one or more decimal digits.
pub open spec fn is_numeral(s: Seq<char>) -> bool {
    &&& numeral_digits(s).len() > 0
    &&& forall|i: int| 0 <= i < numeral_digits(s).len() ==> is_digit(#[trigger] numeral_digits(s)[i])
}

pub open spec fn numeral_value(s: Seq<char>) -> int {
    digits_value(numeral_digits(s))
}

/// Relies on `usize`'s `FromStr` (`str::parse`): it accepts exactly an
/// optional `'+'` followed by decimal digits whose value fits in `usize`. The
/// error is kept as its message.
#[verifier::external_body]
fn parse_count(s: &str) -> (r: Result<usize, String>)
    ensures
        r is Ok <==> (is_numeral(s@) && numeral_value(s@) <= usize::MAX),
        r matches Ok(n) ==> n == numeral_value(s@),
{
    s.parse::<usize>().map_err(|e| e.to_string())
}

/// Reads a style written as `tab`, `tabs` or a positive number of spaces.
pub fn parse_indentation(s: &str) -> (r: Result<Indentation, ParseIndentationError>)
    ensures
        is_tab_word(s@) ==> r == Ok::<Indentation, ParseIndentationError>(Indentation::Tab),
        !is_tab_word(s@) && is_numeral(s@) && 1 <= numeral_value(s@) <= usize::MAX ==> r == Ok::<
            Indentation,
            ParseIndentationError,
        >(Indentation::Spaces(numeral_value(s@) as usize)),
        !is_tab_word(s@) && is_numeral(s@) && numeral_value(s@) == 0 ==> r == Err::<
            Indentation,
            ParseIndentationError,
        >(ParseIndentationError::ZeroWidth),
        !is_tab_word(s@) && !(is_numeral(s@) && numeral_value(s@) <= usize::MAX) ==> r matches Err(
            ParseIndentationError::InvalidWidth(_),
        ),
        r matches Ok(style) ==> style.wf(),
{
    let owned = String::from_str(s);
    let tab = String::from_str("tab");
    let tabs = String::from_str("tabs");
    proof {
        reveal_strlit("tab");
        reveal_strlit("tabs");
    }
    if owned == tab || owned == tabs {
        assert(tab@ =~= seq!['t', 'a', 'b']);
        assert(tabs@ =~= seq!['t', 'a', 'b', 's']);
        return Ok(Indentation::Tab);
    }
    assert(!is_tab_word(s@)) by {
        assert(tab@ =~= seq!['t', 'a', 'b']);
        assert(tabs@ =~= seq!['t', 'a', 'b', 's']);
    }
    match parse_count(s) {
        Ok(0) => Err(ParseIndentationError::ZeroWidth),
        Ok(n) => Ok(Indentation::Spaces(n)),
        Err(reason) => Err(ParseIndentationError::InvalidWidth(reason)),
    }
}

} // verus!
