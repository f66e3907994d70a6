//! A multi line string: an ordered, non-empty, comma-separated sequence of
//! fully parenthesized line strings, itself wrapped in parentheses.

use vstd::prelude::*;
use crate::WktError;
use crate::WktItem;
use crate::ItemView;
use crate::tokenizer::PeekableTokens;
use crate::tokenizer::Token;
use crate::tokenizer::TokenKind;
use crate::tokenizer::TokenView;
use crate::types::coord::CoordView;
use crate::types::linestring::LineString;
use crate::types::linestring::spec_linestring_parens;
use crate::types::linestring::lemma_linestring_parens_consumed;

verus! {

/// A multi line string geometry: owns an ordered sequence of line
/// strings, in input order.
#[derive(Debug)]
pub struct MultiLineString {
    pub lines: Vec<LineString>,
}

impl View for MultiLineString {
    type V = Seq<Seq<CoordView>>;

    open spec fn view(&self) -> Seq<Seq<CoordView>> {
        self.lines@.map_values(|l: LineString| l@)
    }
}

/// What parsing a comma-separated list of parenthesized line strings from
/// the front of a token sequence yields: one parenthesized line string,
/// then, as long as a comma follows, another after it.  The result pairs
/// the line strings, in input order, with the number of tokens consumed.
pub open spec fn spec_mls_list(toks: Seq<TokenView>) -> Option<(Seq<Seq<CoordView>>, int)>
    decreases toks.len(),
{
    match spec_linestring_parens(toks) {
        None => None,
        Some((cs, n)) => if 0 <= n && n < toks.len() && toks[n] is Comma {
            match spec_mls_list(toks.skip(n + 1)) {
                None => None,
                Some((ls, m)) => Some((seq![cs] + ls, n + 1 + m)),
            }
        } else {
            Some((seq![cs], n))
        },
    }
}

/// What parsing a parenthesized multi-line-string body from the front of
/// a token sequence yields: an opening paren, a line-string list, a
/// closing paren, paired with the number of tokens consumed.
pub open spec fn spec_mls_parens(toks: Seq<TokenView>) -> Option<(Seq<Seq<CoordView>>, int)> {
    if toks.len() >= 1 && toks[0] is ParenOpen {
        match spec_mls_list(toks.skip(1)) {
            Some((ls, n)) => if 1 + n < toks.len() && toks[1 + n] is ParenClose {
                Some((ls, n + 2))
            } else {
                None
            },
            None => None,
        }
    } else {
        None
    }
}

/// A successful line-string-list parse consumes at least one parenthesized
/// line string and no more tokens than there are.
pub proof fn lemma_mls_list_consumed(toks: Seq<TokenView>)
    requires
        spec_mls_list(toks) is Some,
    ensures
        4 <= spec_mls_list(toks)->Some_0.1 <= toks.len(),
    decreases toks.len(),
{
    lemma_linestring_parens_consumed(toks);
    let n = spec_linestring_parens(toks)->Some_0.1;
    if 0 <= n && n < toks.len() && toks[n] is Comma {
        lemma_mls_list_consumed(toks.skip(n + 1));
    }
}

/// When every number token of the input is a valid literal, every
/// coordinate of every line string of a successfully parsed list has
/// valid fields.
pub proof fn lemma_mls_list_fields_valid(toks: Seq<TokenView>)
    requires
        crate::tokenizer::numbers_valid(toks),
        spec_mls_list(toks) is Some,
    ensures
        forall|j: int, k: int|
            0 <= j < spec_mls_list(toks)->Some_0.0.len() && 0 <= k < spec_mls_list(
                toks,
            )->Some_0.0[j].len() ==> crate::types::coord::coord_fields_valid(
                #[trigger] spec_mls_list(toks)->Some_0.0[j][k],
            ),
    decreases toks.len(),
{
    let lss = spec_mls_list(toks)->Some_0.0;
    let n = spec_linestring_parens(toks)->Some_0.1;
    crate::tokenizer::lemma_numbers_valid_skip(toks, 1);
    crate::types::linestring::lemma_coord_list_fields_valid(toks.skip(1));
    let cs = crate::types::linestring::spec_coord_list(toks.skip(1))->Some_0.0;
    if 0 <= n && n < toks.len() && toks[n] is Comma {
        crate::tokenizer::lemma_numbers_valid_skip(toks, n + 1);
        lemma_mls_list_fields_valid(toks.skip(n + 1));
        let rest = spec_mls_list(toks.skip(n + 1))->Some_0.0;
        assert forall|j: int, k: int|
            0 <= j < lss.len() && 0 <= k < lss[j].len() implies crate::types::coord::coord_fields_valid(
            #[trigger] lss[j][k],
        ) by {
            if j == 0 {
                assert(lss[0] == cs);
            } else {
                assert(lss[j] == rest[j - 1]);
            }
        }
    } else {
        assert forall|j: int, k: int|
            0 <= j < lss.len() && 0 <= k < lss[j].len() implies crate::types::coord::coord_fields_valid(
            #[trigger] lss[j][k],
        ) by {
            assert(lss[0] == cs);
        }
    }
}

impl MultiLineString {
    /// Parses the multi line string's body, assuming its surrounding
    /// parentheses have already been consumed: a comma-separated list of
    /// parenthesized line strings.
    pub fn from_tokens(tokens: &mut PeekableTokens) -> (r: Result<MultiLineString, WktError>)
        requires
            old(tokens).wf(),
        ensures
            final(tokens).wf(),
            match r {
                Ok(mls) => spec_mls_list(old(tokens).remaining()) matches Some((ls, n)) && mls@
                    == ls && final(tokens).remaining() == old(tokens).remaining().skip(n),
                Err(e) => spec_mls_list(old(tokens).remaining()) is None && e
                    == WktError::MalformedStructure,
            },
    {
        let ghost orig = old(tokens).remaining();
        let first = match LineString::from_tokens_with_parens(tokens) {
            Ok(ls) => ls,
            Err(e) => {
                return Err(e);
            },
        };
        let mut lines: Vec<LineString> = Vec::new();
        lines.push(first);
        let ghost mut consumed: int = spec_linestring_parens(orig)->Some_0.1;
        proof {
            lemma_linestring_parens_consumed(orig);
            assert(lines@.map_values(|l: LineString| l@) =~= seq![first@]);
            if consumed < orig.len() {
                assert(orig.skip(consumed).skip(1) =~= orig.skip(consumed + 1));
            }
        }
        loop
            invariant
                tokens.wf(),
                orig == old(tokens).remaining(),
                lines@.len() > 0,
                0 <= consumed <= orig.len(),
                tokens.remaining() == orig.skip(consumed),
                ({
                    let acc = lines@.map_values(|l: LineString| l@);
                    let rem = tokens.remaining();
                    if rem.len() > 0 && rem[0] is Comma {
                        match spec_mls_list(rem.skip(1)) {
                            Some((ls, m)) => spec_mls_list(orig) == Some(
                                (acc + ls, consumed + 1 + m),
                            ),
                            None => spec_mls_list(orig) is None,
                        }
                    } else {
                        spec_mls_list(orig) == Some((acc, consumed))
                    }
                }),
            ensures
                tokens.wf(),
                spec_mls_list(orig) == Some(
                    (lines@.map_values(|l: LineString| l@), consumed),
                ),
                tokens.remaining() == orig.skip(consumed),
            decreases orig.len() - consumed,
        {
            match tokens.peek_kind() {
                Some(TokenKind::Comma) => {},
                _ => {
                    break;
                },
            }
            let ghost rem = tokens.remaining();
            proof {
                assert(rem[0] is Comma);
            }
            let _comma = tokens.next();
            proof {
                assert(rem.drop_first() =~= rem.skip(1));
            }
            let ghost rem1 = tokens.remaining();
            let ghost prev = lines@;
            let ls = match LineString::from_tokens_with_parens(tokens) {
                Ok(ls) => ls,
                Err(e) => {
                    proof {
                        assert(rem1 == rem.skip(1));
                        assert(spec_mls_list(rem1) is None);
                        assert(spec_mls_list(orig) is None);
                    }
                    return Err(e);
                },
            };
            lines.push(ls);
            let ghost n1 = spec_linestring_parens(rem1)->Some_0.1;
            proof {
                lemma_linestring_parens_consumed(rem1);
                let acc_old = prev.map_values(|ll: LineString| ll@);
                let acc = lines@.map_values(|ll: LineString| ll@);
                assert(acc =~= acc_old.push(ls@));
                // One step of the list grammar has been consumed: the
                // comma and the parenthesized line string behind it.
                assert(rem1.skip(n1) =~= orig.skip(consumed + 1 + n1));
                if n1 < rem1.len() && rem1[n1] is Comma {
                    assert(rem1.skip(n1 + 1) =~= orig.skip(consumed + 1 + n1).skip(1));
                    if spec_mls_list(rem1.skip(n1 + 1)) is Some {
                        let lss2 = spec_mls_list(rem1.skip(n1 + 1))->Some_0.0;
                        assert(acc_old.push(ls@) + lss2 =~= acc_old + (seq![ls@] + lss2));
                    }
                } else {
                    assert(acc_old.push(ls@) =~= acc_old + seq![ls@]);
                }
                consumed = consumed + 1 + n1;
            }
        }
        Ok(MultiLineString { lines })
    }

    /// Requires and consumes an opening paren, parses the multi line
    /// string's body, then requires and consumes the matching closing
    /// paren.
    pub fn from_tokens_with_parens(tokens: &mut PeekableTokens) -> (r: Result<
        MultiLineString,
        WktError,
    >)
        requires
            old(tokens).wf(),
        ensures
            final(tokens).wf(),
            match r {
                Ok(mls) => spec_mls_parens(old(tokens).remaining()) matches Some((ls, n)) && mls@
                    == ls && final(tokens).remaining() == old(tokens).remaining().skip(n),
                Err(e) => spec_mls_parens(old(tokens).remaining()) is None && e
                    == WktError::MalformedStructure,
            },
    {
        let ghost toks = old(tokens).remaining();
        match tokens.next() {
            Some(Token::ParenOpen) => {},
            _ => {
                return Err(WktError::MalformedStructure);
            },
        }
        proof {
            assert(toks.drop_first() =~= toks.skip(1));
        }
        let mls = match MultiLineString::from_tokens(tokens) {
            Ok(mls) => mls,
            Err(e) => {
                return Err(e);
            },
        };
        let ghost n = spec_mls_list(toks.skip(1))->Some_0.1;
        proof {
            lemma_mls_list_consumed(toks.skip(1));
            assert(toks.skip(1).skip(n) =~= toks.skip(1 + n));
        }
        match tokens.next() {
            Some(Token::ParenClose) => {},
            _ => {
                return Err(WktError::MalformedStructure);
            },
        }
        proof {
            assert(toks.skip(1 + n)[0] == toks[1 + n]);
            assert(toks.skip(1 + n).drop_first() =~= toks.skip(n + 2));
        }
        Ok(mls)
    }

    /// Wraps this multi line string as a tagged geometry value.
    pub fn as_item(self) -> (r: WktItem)
        ensures
            r@ == ItemView::MultiLineString(self@),
    {
        WktItem::MultiLineString(self)
    }
}

} // verus!
