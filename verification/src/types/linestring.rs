//! A line string: an ordered, non-empty, comma-separated sequence of
//! coordinates, wrapped in parentheses in its textual form.

use vstd::prelude::*;
use crate::WktError;
use crate::WktItem;
use crate::ItemView;
use crate::tokenizer::PeekableTokens;
use crate::tokenizer::Token;
use crate::tokenizer::TokenKind;
use crate::tokenizer::TokenView;
use crate::types::coord::Coordinate;
use crate::types::coord::CoordView;
use crate::types::coord::spec_coord;

verus! {

/// A line string geometry: owns an ordered sequence of coordinates, in
/// input order.
#[derive(Debug)]
pub struct LineString {
    pub coords: Vec<Coordinate>,
}

impl View for LineString {
    type V = Seq<CoordView>;

    open spec fn view(&self) -> Seq<CoordView> {
        self.coords@.map_values(|c: Coordinate| c@)
    }
}

/// What parsing a comma-separated coordinate list from the front of a
/// token sequence yields: one coordinate, then, as long as a comma
/// follows, another coordinate after it.  The result pairs the
/// coordinates, in input order, with the number of tokens consumed.  An
/// immediate failure on the very first coordinate is a parse failure, not
/// an empty list.
pub open spec fn spec_coord_list(toks: Seq<TokenView>) -> Option<(Seq<CoordView>, int)>
    decreases toks.len(),
{
    match spec_coord(toks) {
        None => None,
        Some(cv) => if toks.len() > 2 && toks[2] is Comma {
            match spec_coord_list(toks.skip(3)) {
                None => None,
                Some((cs, n)) => Some((seq![cv] + cs, 3 + n)),
            }
        } else {
            Some((seq![cv], 2))
        },
    }
}

/// What parsing a parenthesized line-string body from the front of a token
/// sequence yields: an opening paren, a coordinate list, a closing paren,
/// paired with the number of tokens consumed.
pub open spec fn spec_linestring_parens(toks: Seq<TokenView>) -> Option<(Seq<CoordView>, int)> {
    if toks.len() >= 1 && toks[0] is ParenOpen {
        match spec_coord_list(toks.skip(1)) {
            Some((cs, n)) => if 1 + n < toks.len() && toks[1 + n] is ParenClose {
                Some((cs, n + 2))
            } else {
                None
            },
            None => None,
        }
    } else {
        None
    }
}

/// A successful coordinate-list parse consumes at least the two tokens of
/// its first coordinate and no more tokens than there are.
pub proof fn lemma_coord_list_consumed(toks: Seq<TokenView>)
    requires
        spec_coord_list(toks) is Some,
    ensures
        2 <= spec_coord_list(toks)->Some_0.1 <= toks.len(),
    decreases toks.len(),
{
    if toks.len() > 2 && toks[2] is Comma {
        lemma_coord_list_consumed(toks.skip(3));
    }
}

/// When every number token of the input is a valid literal, every
/// coordinate of a successfully parsed coordinate list has valid fields.
pub proof fn lemma_coord_list_fields_valid(toks: Seq<TokenView>)
    requires
        crate::tokenizer::numbers_valid(toks),
        spec_coord_list(toks) is Some,
    ensures
        forall|j: int|
            0 <= j < spec_coord_list(toks)->Some_0.0.len() ==> crate::types::coord::coord_fields_valid(
                #[trigger] spec_coord_list(toks)->Some_0.0[j],
            ),
    decreases toks.len(),
{
    let cs = spec_coord_list(toks)->Some_0.0;
    let cv = spec_coord(toks)->Some_0;
    assert(toks[0] is Number && toks[1] is Number);
    if toks.len() > 2 && toks[2] is Comma {
        crate::tokenizer::lemma_numbers_valid_skip(toks, 3);
        lemma_coord_list_fields_valid(toks.skip(3));
        let rest = spec_coord_list(toks.skip(3))->Some_0.0;
        assert forall|j: int|
            0 <= j < cs.len() implies crate::types::coord::coord_fields_valid(
            #[trigger] cs[j],
        ) by {
            if j > 0 {
                assert(cs[j] == rest[j - 1]);
            }
        }
    }
}

/// A successful parenthesized line-string parse consumes its two parens
/// and the tokens of at least one coordinate, and no more tokens than
/// there are.
pub proof fn lemma_linestring_parens_consumed(toks: Seq<TokenView>)
    requires
        spec_linestring_parens(toks) is Some,
    ensures
        4 <= spec_linestring_parens(toks)->Some_0.1 <= toks.len(),
{
    lemma_coord_list_consumed(toks.skip(1));
}

impl LineString {
    /// Parses the line string's body, assuming its surrounding parentheses
    /// have already been consumed: a comma-separated list of coordinates,
    /// each a bare pair of numbers.
    pub fn from_tokens(tokens: &mut PeekableTokens) -> (r: Result<LineString, WktError>)
        requires
            old(tokens).wf(),
        ensures
            final(tokens).wf(),
            match r {
                Ok(ls) => spec_coord_list(old(tokens).remaining()) matches Some((cs, n)) && ls@
                    == cs && final(tokens).remaining() == old(tokens).remaining().skip(n),
                Err(e) => spec_coord_list(old(tokens).remaining()) is None && e
                    == WktError::MalformedStructure,
            },
    {
        let ghost orig = old(tokens).remaining();
        let first = match Coordinate::from_tokens(tokens) {
            Ok(c) => c,
            Err(e) => {
                return Err(e);
            },
        };
        let mut coords: Vec<Coordinate> = Vec::new();
        coords.push(first);
        let ghost mut consumed: int = 2;
        proof {
            assert(coords@.map_values(|c: Coordinate| c@) =~= seq![first@]);
            if orig.len() > 2 {
                assert(orig.skip(2).skip(1) =~= orig.skip(3));
            }
        }
        loop
            invariant
                tokens.wf(),
                orig == old(tokens).remaining(),
                coords@.len() > 0,
                0 <= consumed <= orig.len(),
                tokens.remaining() == orig.skip(consumed),
                ({
                    let acc = coords@.map_values(|c: Coordinate| c@);
                    let rem = tokens.remaining();
                    if rem.len() > 0 && rem[0] is Comma {
                        match spec_coord_list(rem.skip(1)) {
                            Some((cs, n)) => spec_coord_list(orig) == Some(
                                (acc + cs, consumed + 1 + n),
                            ),
                            None => spec_coord_list(orig) is None,
                        }
                    } else {
                        spec_coord_list(orig) == Some((acc, consumed))
                    }
                }),
            ensures
                tokens.wf(),
                spec_coord_list(orig) == Some(
                    (coords@.map_values(|c: Coordinate| c@), consumed),
                ),
                tokens.remaining() == orig.skip(consumed),
            decreases orig.len() - consumed,
        {
            match tokens.peek_kind() {
                Some(TokenKind::Comma) => {},
                _ => {
                    break;
                },
            }
            let ghost rem = tokens.remaining();
            proof {
                assert(rem[0] is Comma);
            }
            let _comma = tokens.next();
            proof {
                assert(rem.drop_first() =~= rem.skip(1));
            }
            let ghost rem1 = tokens.remaining();
            let ghost prev = coords@;
            let c = match Coordinate::from_tokens(tokens) {
                Ok(c) => c,
                Err(e) => {
                    proof {
                        assert(rem1 == rem.skip(1));
                        assert(spec_coord_list(rem1) is None);
                        assert(spec_coord_list(orig) is None);
                    }
                    return Err(e);
                },
            };
            coords.push(c);
            proof {
                let acc_old = prev.map_values(|cc: Coordinate| cc@);
                let acc = coords@.map_values(|cc: Coordinate| cc@);
                assert(acc =~= acc_old.push(c@));
                // One step of the list grammar has been consumed: the
                // comma and the coordinate behind it.
                assert(rem1.skip(2) =~= orig.skip(consumed + 3));
                if rem1.len() > 2 && rem1[2] is Comma {
                    assert(rem1.skip(3) =~= orig.skip(consumed + 3).skip(1));
                    if spec_coord_list(rem1.skip(3)) is Some {
                        let cs2 = spec_coord_list(rem1.skip(3))->Some_0.0;
                        assert(acc_old.push(c@) + cs2 =~= acc_old + (seq![c@] + cs2));
                    }
                } else {
                    assert(acc_old.push(c@) =~= acc_old + seq![c@]);
                }
                consumed = consumed + 3;
            }
        }
        Ok(LineString { coords })
    }

    /// Requires and consumes an opening paren, parses the line string's
    /// body, then requires and consumes the matching closing paren.
    pub fn from_tokens_with_parens(tokens: &mut PeekableTokens) -> (r: Result<
        LineString,
        WktError,
    >)
        requires
            old(tokens).wf(),
        ensures
            final(tokens).wf(),
            match r {
                Ok(ls) => spec_linestring_parens(old(tokens).remaining()) matches Some((cs, n))
                    && ls@ == cs && final(tokens).remaining() == old(tokens).remaining().skip(n),
                Err(e) => spec_linestring_parens(old(tokens).remaining()) is None && e
                    == WktError::MalformedStructure,
            },
    {
        let ghost toks = old(tokens).remaining();
        match tokens.next() {
            Some(Token::ParenOpen) => {},
            _ => {
                return Err(WktError::MalformedStructure);
            },
        }
        proof {
            assert(toks.drop_first() =~= toks.skip(1));
        }
        let ls = match LineString::from_tokens(tokens) {
            Ok(ls) => ls,
            Err(e) => {
                return Err(e);
            },
        };
        let ghost n = spec_coord_list(toks.skip(1))->Some_0.1;
        proof {
            lemma_coord_list_consumed(toks.skip(1));
            assert(toks.skip(1).skip(n) =~= toks.skip(1 + n));
        }
        match tokens.next() {
            Some(Token::ParenClose) => {},
            _ => {
                return Err(WktError::MalformedStructure);
            },
        }
        proof {
            assert(toks.skip(1 + n)[0] == toks[1 + n]);
            assert(toks.skip(1 + n).drop_first() =~= toks.skip(n + 2));
        }
        Ok(ls)
    }

    /// Wraps this line string as a tagged geometry value.
    pub fn as_item(self) -> (r: WktItem)
        ensures
            r@ == ItemView::LineString(self@),
    {
        WktItem::LineString(self)
    }
}

} // verus!
