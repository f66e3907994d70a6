//! A coordinate: two mandatory numeric components `x` and `y`, and the
//! optional `z` and `m` components whose absence encodes 2D, non-measured
//! geometry.  Each component holds the literal text of the number it was
//! parsed from; every stored literal is a valid numeric literal.

use vstd::prelude::*;
use crate::WktError;
use crate::tokenizer::PeekableTokens;
use crate::tokenizer::Token;
use crate::tokenizer::TokenView;

verus! {

/// A parsed coordinate.  `x` and `y` are always present; `z` and `m` are
/// absent for the base two-number grammar.
#[derive(Debug)]
pub struct Coordinate {
    pub x: String,
    pub y: String,
    pub z: Option<String>,
    pub m: Option<String>,
}

/// The mathematical value of a [`Coordinate`]: its components as character
/// sequences.
pub struct CoordView {
    pub x: Seq<char>,
    pub y: Seq<char>,
    pub z: Option<Seq<char>>,
    pub m: Option<Seq<char>>,
}

impl View for Coordinate {
    type V = CoordView;

    open spec fn view(&self) -> CoordView {
        CoordView {
            x: self.x@,
            y: self.y@,
            z: match self.z {
                Some(s) => Some(s@),
                None => None,
            },
            m: match self.m {
                Some(s) => Some(s@),
                None => None,
            },
        }
    }
}

/// Both mandatory fields of the coordinate hold valid numeric literals.
pub open spec fn coord_fields_valid(cv: CoordView) -> bool {
    crate::number::float_literal_valid(cv.x) && crate::number::float_literal_valid(cv.y)
}

/// What parsing one coordinate from the front of a token sequence yields:
/// the first two tokens must both be numbers, and they become `x` and `y`.
/// Exactly two tokens are consumed on success.
pub open spec fn spec_coord(toks: Seq<TokenView>) -> Option<CoordView> {
    if toks.len() >= 2 && toks[0] is Number && toks[1] is Number {
        Some(
            CoordView {
                x: toks[0]->Number_0,
                y: toks[1]->Number_0,
                z: None,
                m: None,
            },
        )
    } else {
        None
    }
}

impl Coordinate {
    /// Parses one coordinate: exactly two numbers, which become `x` and
    /// `y`.  Fails with a structural error when either expected number is
    /// missing or of another token kind.
    pub fn from_tokens(tokens: &mut PeekableTokens) -> (r: Result<Coordinate, WktError>)
        requires
            old(tokens).wf(),
        ensures
            final(tokens).wf(),
            match r {
                Ok(c) => spec_coord(old(tokens).remaining()) == Some(c@)
                    && final(tokens).remaining() == old(tokens).remaining().skip(2),
                Err(e) => spec_coord(old(tokens).remaining()) is None && e
                    == WktError::MalformedStructure,
            },
    {
        let x = match tokens.next() {
            Some(Token::Number(s)) => s,
            _ => {
                return Err(WktError::MalformedStructure);
            },
        };
        let y = match tokens.next() {
            Some(Token::Number(s)) => s,
            _ => {
                return Err(WktError::MalformedStructure);
            },
        };
        proof {
            assert(old(tokens).remaining().drop_first().drop_first()
                =~= old(tokens).remaining().skip(2));
        }
        Ok(Coordinate { x, y, z: None, m: None })
    }
}

} // verus!
