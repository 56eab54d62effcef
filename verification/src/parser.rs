use vstd::prelude::*;
use crate::spec_lit_parse;
use crate::utils::And;
use crate::utils::Mapped;
use crate::utils::Or;
use crate::utils::Transform;

verus! {

/// The capability shared by every matcher, combinator and rule: given a
/// buffer and a cursor, either fail, or return an output together with the
/// cursor after the consumed span.
///
/// The behaviour of each implementation is pinned down by its `spec_parse`
/// function; the executable `parse` is proved to agree with it exactly, on
/// success and on failure alike.  A parse is a pure function of the parser's
/// own configuration and the input: no call stores state across invocations.
pub trait Parser: Sized {
    type Output;

    /// The mathematical meaning of this parser: on buffer `s` at cursor
    /// `pos`, either `None` (an ordinary mismatch) or `Some((output, end))`
    /// where `end` is the cursor after the consumed span.
    spec fn spec_parse(&self, s: Seq<u8>, pos: int) -> Option<(Self::Output, int)>;

    /// A successful parse never moves the cursor backwards and never moves
    /// it past the end of the buffer.
    proof fn lemma_parse_in_range(&self, s: Seq<u8>, pos: int)
        requires
            0 <= pos <= s.len(),
        ensures
            (match self.spec_parse(s, pos) {
                Some((v, end)) => pos <= end <= s.len(),
                None => true,
            }),
    ;

    /// Run the parser at `pos` in `s`.  The result is exactly what
    /// `spec_parse` says, both when it succeeds and when it fails.
    fn parse(&self, s: &[u8], pos: usize) -> (r: Option<(Self::Output, usize)>)
        requires
            pos <= s@.len(),
        ensures
            (match r {
                Some((v, end)) => self.spec_parse(s@, pos as int) == Some((v, end as int)),
                None => self.spec_parse(s@, pos as int) is None,
            }),
    ;

    /// Sequence this parser with `other`.
    fn and<P>(self, other: P) -> (r: And<Self, P>)
        ensures
            r.0 == self,
            r.1 == other,
    {
        And(self, other)
    }

    /// Prefer this parser, falling back to `other` on the same input.
    fn or<P>(self, other: P) -> (r: Or<Self, P>)
        ensures
            r.0 == self,
            r.1 == other,
    {
        Or(self, other)
    }

    /// Wrap this parser so that its output is mapped through `f`.
    fn map<F: Transform<Self::Output>>(self, f: F) -> (r: Mapped<Self, F>)
        ensures
            r.0 == self,
            r.1 == f,
    {
        Mapped(self, f)
    }
}

/// What the textual-pattern engine finds in `text` for `pattern`: `None`
/// when nothing in `text` matches (or `text` is not well-formed UTF-8),
/// otherwise the byte offsets of the first match.  The result is a function
/// of the pattern and the text alone.
pub uninterp spec fn pattern_search(pattern: Seq<char>, text: Seq<u8>) -> Option<(int, int)>;

/// Relies on `regex_lite::Regex::new` and `regex_lite::Regex::find_at`: the
/// search is deterministic in (pattern, text), and a found match has byte
/// offsets `st <= en <= text.len()`.  A pattern that does not compile is a
/// defect in the grammar author's specification and aborts the process at
/// this first use.
#[verifier::external_body]
fn find_pattern(pattern: &str, text: &[u8]) -> (r: Option<(usize, usize)>)
    ensures
        (match r {
            Some((st, en)) => pattern_search(pattern@, text@) == Some((st as int, en as int))
                && st <= en <= text@.len(),
            None => pattern_search(pattern@, text@) is None,
        }),
{
    let hay = match core::str::from_utf8(text) {
        Ok(hay) => hay,
        Err(_) => return None,
    };
    let re = regex_lite::Regex::new(pattern).expect("regex failed to compile");
    re.find_at(hay, 0).map(|m| (m.start(), m.end()))
}

/// A pattern-span matcher succeeds exactly when the pattern engine finds a
/// match somewhere in the suffix at the cursor; the output is the span from
/// the cursor to the match's end (text before a match that begins later than
/// the cursor is kept inside the span), and the cursor moves to the match's
/// end.
pub open spec fn spec_pat_parse(pattern: Seq<char>, s: Seq<u8>, pos: int) -> Option<(
    (usize, usize),
    int,
)> {
    if 0 <= pos <= s.len() <= usize::MAX {
        match pattern_search(pattern, s.subrange(pos, s.len() as int)) {
            Some((st, en)) => if 0 <= st <= en <= s.len() - pos {
                Some(((pos as usize, (pos + en) as usize), pos + en))
            } else {
                None
            },
            None => None,
        }
    } else {
        None
    }
}

/// A pattern-span matcher.  On every call it builds a fresh matcher from the
/// pattern text (nothing is cached across calls) and searches the suffix at
/// the cursor for the first match; the output is the matched span as byte
/// offsets `(start, end)` into the buffer.  A pattern text that is not a
/// valid pattern aborts the process at the matcher's first use.
pub struct Pattern(pub String);

impl Parser for Pattern {
    type Output = (usize, usize);

    open spec fn spec_parse(&self, s: Seq<u8>, pos: int) -> Option<((usize, usize), int)> {
        spec_pat_parse(self.0@, s, pos)
    }

    proof fn lemma_parse_in_range(&self, s: Seq<u8>, pos: int) {
    }

    fn parse(&self, s: &[u8], pos: usize) -> (r: Option<(((usize, usize)), usize)>) {
        pat_parse(self.0.as_str(), s, pos)
    }
}

/// Run the pattern-span matcher for `pattern` at `pos` in `s`; the engine is
/// rebuilt from the pattern text on every call.
pub(crate) fn pat_parse(pattern: &str, s: &[u8], pos: usize) -> (r: Option<(
    ((usize, usize)),
    usize,
)>)
    requires
        pos <= s@.len(),
    ensures
        (match r {
            Some((sp, end)) => spec_pat_parse(pattern@, s@, pos as int) == Some((sp, end as int))
                && end <= s@.len(),
            None => spec_pat_parse(pattern@, s@, pos as int) is None,
        }),
{
    let text = vstd::slice::slice_subrange(s, pos, s.len());
    match find_pattern(pattern, text) {
        Some((st, en)) => Some(((pos, pos + en), pos + en)),
        None => None,
    }
}

/// A literal byte is itself a parser: it matches exactly itself at the
/// cursor, outputs itself, and consumes one byte.
impl Parser for u8 {
    type Output = u8;

    open spec fn spec_parse(&self, s: Seq<u8>, pos: int) -> Option<(u8, int)> {
        spec_lit_parse(*self, s, pos)
    }

    proof fn lemma_parse_in_range(&self, s: Seq<u8>, pos: int) {
    }

    fn parse(&self, s: &[u8], pos: usize) -> (r: Option<(u8, usize)>) {
        if pos < s.len() && s[pos] == *self {
            Some((*self, pos + 1))
        } else {
            None
        }
    }
}

/// The literal matcher's law: on any input whose byte at the cursor is `c`
/// it succeeds with output `c` and consumes exactly that byte; on any other
/// input it fails.
pub proof fn lemma_lit_law(c: u8, s: Seq<u8>, pos: int)
    requires
        0 <= pos <= s.len(),
    ensures
        (pos < s.len() && s[pos] == c) ==> c.spec_parse(s, pos) == Some((c, pos + 1)),
        !(pos < s.len() && s[pos] == c) ==> c.spec_parse(s, pos) is None,
{
}

/// The neutral parser: it always succeeds, consumes nothing, and outputs
/// the empty tuple.  It is the identity element when folding a list of
/// sub-parsers into one sequence.
impl Parser for () {
    type Output = ();

    open spec fn spec_parse(&self, s: Seq<u8>, pos: int) -> Option<((), int)> {
        Some(((), pos))
    }

    proof fn lemma_parse_in_range(&self, s: Seq<u8>, pos: int) {
    }

    fn parse(&self, s: &[u8], pos: usize) -> (r: Option<((), usize)>) {
        Some(((), pos))
    }
}

} // verus!
