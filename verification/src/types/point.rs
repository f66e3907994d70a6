//! A point: exactly one coordinate, wrapped in parentheses in its textual
//! form.

use vstd::prelude::*;
use crate::WktError;
use crate::WktItem;
use crate::ItemView;
use crate::tokenizer::PeekableTokens;
use crate::tokenizer::Token;
use crate::tokenizer::TokenView;
use crate::types::coord::Coordinate;
use crate::types::coord::CoordView;
use crate::types::coord::spec_coord;

verus! {

/// A point geometry: owns exactly one coordinate.
#[derive(Debug)]
pub struct Point {
    pub coord: Coordinate,
}

impl View for Point {
    type V = CoordView;

    open spec fn view(&self) -> CoordView {
        self.coord@
    }
}

/// What parsing a parenthesized point body from the front of a token
/// sequence yields: an opening paren, one coordinate, a closing paren.
/// Exactly four tokens are consumed on success.
pub open spec fn spec_point_parens(toks: Seq<TokenView>) -> Option<CoordView> {
    if toks.len() >= 1 && toks[0] is ParenOpen {
        match spec_coord(toks.skip(1)) {
            Some(cv) => if toks.len() >= 4 && toks[3] is ParenClose {
                Some(cv)
            } else {
                None
            },
            None => None,
        }
    } else {
        None
    }
}

impl Point {
    /// Parses the point's body, assuming its surrounding parentheses have
    /// already been consumed: exactly one coordinate.
    pub fn from_tokens(tokens: &mut PeekableTokens) -> (r: Result<Point, WktError>)
        requires
            old(tokens).wf(),
        ensures
            final(tokens).wf(),
            match r {
                Ok(p) => spec_coord(old(tokens).remaining()) == Some(p@)
                    && final(tokens).remaining() == old(tokens).remaining().skip(2),
                Err(e) => spec_coord(old(tokens).remaining()) is None && e
                    == WktError::MalformedStructure,
            },
    {
        match Coordinate::from_tokens(tokens) {
            Ok(coord) => Ok(Point { coord }),
            Err(e) => Err(e),
        }
    }

    /// Requires and consumes an opening paren, parses the point's body,
    /// then requires and consumes the matching closing paren.
    pub fn from_tokens_with_parens(tokens: &mut PeekableTokens) -> (r: Result<Point, WktError>)
        requires
            old(tokens).wf(),
        ensures
            final(tokens).wf(),
            match r {
                Ok(p) => spec_point_parens(old(tokens).remaining()) == Some(p@)
                    && final(tokens).remaining() == old(tokens).remaining().skip(4),
                Err(e) => spec_point_parens(old(tokens).remaining()) is None && e
                    == WktError::MalformedStructure,
            },
    {
        let ghost toks = old(tokens).remaining();
        match tokens.next() {
            Some(Token::ParenOpen) => {},
            _ => {
                return Err(WktError::MalformedStructure);
            },
        }
        proof {
            assert(toks.drop_first() =~= toks.skip(1));
        }
        let point = match Point::from_tokens(tokens) {
            Ok(p) => p,
            Err(e) => {
                return Err(e);
            },
        };
        proof {
            assert(toks.skip(1).skip(2) =~= toks.skip(3));
        }
        match tokens.next() {
            Some(Token::ParenClose) => {},
            _ => {
                return Err(WktError::MalformedStructure);
            },
        }
        proof {
            assert(toks.skip(3)[0] == toks[3]);
            assert(toks.skip(3).drop_first() =~= toks.skip(4));
        }
        Ok(point)
    }

    /// Wraps this point as a tagged geometry value.
    pub fn as_item(self) -> (r: WktItem)
        ensures
            r@ == ItemView::Point(self@),
    {
        WktItem::Point(self)
    }
}

} // verus!
