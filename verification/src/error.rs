use vstd::prelude::*;

verus! {

/// A range of the source text: the bytes from `start` up to `end`.
#[derive(Clone, Copy, Debug, PartialEq, Eq, Hash, Structural)]
pub struct Span {
    pub start: usize,
    pub end: usize,
}

/// Why a parse failed. A failure ends the parse: nothing is recovered and no
/// partial result is given. Positions are indices into the token sequence;
/// [`ParseError::span`] turns one into the span of that token.
#[derive(Clone, Copy, Debug, PartialEq, Eq, Structural)]
pub enum ParseError {
    /// A rule wanted a token of some category and found the token at `at`,
    /// which is of another.
    UnexpectedToken { at: usize },
    /// A rule wanted a token and the input had ended.
    UnexpectedEnd,
    /// The token at `at` is an integer literal whose text is not the decimal
    /// form of a signed 32-bit integer.
    MalformedLiteral { at: usize },
    /// The items ended before the input did: the token at `at` starts no item.
    TrailingInput { at: usize },
}

impl ParseError {
    /// The index of the offending token; none where the input had ended.
    pub open spec fn offender(self) -> Option<usize> {
        match self {
            ParseError::UnexpectedToken { at } => Some(at),
            ParseError::UnexpectedEnd => None,
            ParseError::MalformedLiteral { at } => Some(at),
            ParseError::TrailingInput { at } => Some(at),
        }
    }

    /// The text that describes the kind of failure.
    pub open spec fn description(self) -> Seq<char> {
        match self {
            ParseError::UnexpectedToken { .. } => "unexpected token"@,
            ParseError::UnexpectedEnd => "unexpected end of input"@,
            ParseError::MalformedLiteral { .. } => "invalid integer literal"@,
            ParseError::TrailingInput { .. } => "unexpected input after the last item"@,
        }
    }

    /// The index of the offending token, if there is one.
    pub fn position(&self) -> (r: Option<usize>)
        ensures
            r == self.offender(),
    {
        match *self {
            ParseError::UnexpectedToken { at } => Some(at),
            ParseError::UnexpectedEnd => None,
            ParseError::MalformedLiteral { at } => Some(at),
            ParseError::TrailingInput { at } => Some(at),
        }
    }

    /// The span of the offending token, where `spans` holds the span of each
    /// token of the input, in order. `None` marks the end of the input, and
    /// a position for which `spans` holds nothing.
    pub fn span(&self, spans: &[Span]) -> (r: Option<Span>)
        ensures
            r == match self.offender() {
                Some(at) => if at < spans@.len() {
                    Some(spans@[at as int])
                } else {
                    None
                },
                None => None,
            },
    {
        match self.position() {
            Some(at) => if at < spans.len() {
                Some(spans[at])
            } else {
                None
            },
            None => None,
        }
    }

    /// A description of the failure for a human reader.
    pub fn message(&self) -> (r: String)
        ensures
            r@ == self.description(),
    {
        match *self {
            ParseError::UnexpectedToken { .. } => "unexpected token".to_owned(),
            ParseError::UnexpectedEnd => "unexpected end of input".to_owned(),
            ParseError::MalformedLiteral { .. } => "invalid integer literal".to_owned(),
            ParseError::TrailingInput { .. } => "unexpected input after the last item".to_owned(),
        }
    }
}

} // verus!
