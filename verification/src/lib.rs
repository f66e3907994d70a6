//! Parsing of Well-Known Text (WKT), a textual encoding for geometric
//! objects, into an in-memory geometry model.
//!
//! Raw text is turned into a stream of tokens by [`tokenizer::Tokens`], and a
//! recursive-descent parser assembles the tokens into a tree of geometry
//! values according to WKT's nested, comma-separated, parenthesized grammar.
//! Every parsing function carries a contract relating its result to a purely
//! mathematical description of the grammar, stated over sequences of
//! characters and tokens: [`spec_parse`] describes the whole parse, and
//! [`Wkt::from_str`] is proved to return exactly what it describes.
//!
//! Only syntactic structure is validated; geometric well-formedness (ring
//! closure, self-intersection) is not this crate's concern.

use vstd::prelude::*;

pub mod chars;
pub mod number;
pub mod tokenizer;
pub mod types;

use crate::chars::chars_all_ascii;
use crate::chars::chars_eq;
use crate::chars::chars_to_string;
use crate::chars::chars_upper;
use crate::chars::seq_is_ascii;
use crate::chars::seq_upper;
use crate::chars::str_to_chars;
use crate::tokenizer::PeekableTokens;
use crate::tokenizer::Token;
use crate::tokenizer::Tokens;
use crate::tokenizer::TokenView;
use crate::tokenizer::spec_tokens;
use crate::types::coord::CoordView;
use crate::types::linestring::LineString;
use crate::types::linestring::spec_linestring_parens;
use crate::types::multilinestring::MultiLineString;
use crate::types::multilinestring::spec_mls_parens;
use crate::types::point::Point;
use crate::types::point::spec_point_parens;

verus! {

/// The ways a parse can fail.  Errors are terminal and reported
/// synchronously; nothing is fatal to the process.
#[derive(Clone, Copy, Debug, PartialEq, Eq, Structural)]
pub enum WktError {
    /// The leading word does not match any known geometry keyword.
    UnknownType,
    /// The leading word fails an ASCII check before case-folding.
    NonAsciiKeyword,
    /// An expected paren, comma or number was not found at the required
    /// grammar position.
    MalformedStructure,
}

/// One parsed geometry, tagged by its kind.  Exactly one variant is
/// active per value.
#[derive(Debug)]
pub enum WktItem {
    Point(Point),
    LineString(LineString),
    MultiLineString(MultiLineString),
}

/// The mathematical value of a [`WktItem`]: the same tags over coordinate
/// views.
pub enum ItemView {
    Point(CoordView),
    LineString(Seq<CoordView>),
    MultiLineString(Seq<Seq<CoordView>>),
}

impl View for WktItem {
    type V = ItemView;

    open spec fn view(&self) -> ItemView {
        match self {
            WktItem::Point(p) => ItemView::Point(p@),
            WktItem::LineString(ls) => ItemView::LineString(ls@),
            WktItem::MultiLineString(mls) => ItemView::MultiLineString(mls@),
        }
    }
}

/// The keyword that introduces a point.
pub open spec fn kw_point() -> Seq<char> {
    seq!['P', 'O', 'I', 'N', 'T']
}

/// The keyword that introduces a line string.
pub open spec fn kw_linestring() -> Seq<char> {
    seq!['L', 'I', 'N', 'E', 'S', 'T', 'R', 'I', 'N', 'G']
}

/// The keyword that introduces a multi line string.
pub open spec fn kw_multilinestring() -> Seq<char> {
    seq!['M', 'U', 'L', 'T', 'I', 'L', 'I', 'N', 'E', 'S', 'T', 'R', 'I', 'N', 'G']
}

fn keyword_point() -> (v: Vec<char>)
    ensures
        v@ == kw_point(),
{
    let v: Vec<char> = vec!['P', 'O', 'I', 'N', 'T'];
    proof {
        assert(v@ =~= kw_point());
    }
    v
}

fn keyword_linestring() -> (v: Vec<char>)
    ensures
        v@ == kw_linestring(),
{
    let v: Vec<char> = vec!['L', 'I', 'N', 'E', 'S', 'T', 'R', 'I', 'N', 'G'];
    proof {
        assert(v@ =~= kw_linestring());
    }
    v
}

fn keyword_multilinestring() -> (v: Vec<char>)
    ensures
        v@ == kw_multilinestring(),
{
    let v: Vec<char> = vec!['M', 'U', 'L', 'T', 'I', 'L', 'I', 'N', 'E', 'S', 'T', 'R', 'I', 'N', 'G'];
    proof {
        assert(v@ =~= kw_multilinestring());
    }
    v
}

/// What dispatching an already upper-cased keyword over a token sequence
/// yields: the matching geometry's parenthesized body parse, or an error
/// for a keyword that matches nothing.
pub open spec fn spec_item(word: Seq<char>, toks: Seq<TokenView>) -> Result<ItemView, WktError> {
    if word == kw_point() {
        match spec_point_parens(toks) {
            Some(cv) => Ok(ItemView::Point(cv)),
            None => Err(WktError::MalformedStructure),
        }
    } else if word == kw_linestring() {
        match spec_linestring_parens(toks) {
            Some((cs, _n)) => Ok(ItemView::LineString(cs)),
            None => Err(WktError::MalformedStructure),
        }
    } else if word == kw_multilinestring() {
        match spec_mls_parens(toks) {
            Some((ls, _n)) => Ok(ItemView::MultiLineString(ls)),
            None => Err(WktError::MalformedStructure),
        }
    } else {
        Err(WktError::UnknownType)
    }
}

/// What parsing a whole token sequence yields: an empty document for no
/// tokens at all; otherwise the leading token must be a word, which is
/// checked to be ASCII, upper-cased and dispatched.  Tokens after a fully
/// parsed geometry are ignored.
pub open spec fn spec_document(toks: Seq<TokenView>) -> Result<Seq<ItemView>, WktError> {
    if toks.len() == 0 {
        Ok(Seq::empty())
    } else {
        match toks[0] {
            TokenView::Word(w) => if !seq_is_ascii(w) {
                Err(WktError::NonAsciiKeyword)
            } else {
                match spec_item(seq_upper(w), toks.drop_first()) {
                    Ok(iv) => Ok(seq![iv]),
                    Err(e) => Err(e),
                }
            },
            _ => Err(WktError::MalformedStructure),
        }
    }
}

/// What parsing a whole text yields: its token sequence, parsed as a
/// document.
pub open spec fn spec_parse(text: Seq<char>) -> Result<Seq<ItemView>, WktError> {
    spec_document(spec_tokens(text))
}

/// Every coordinate reachable inside the geometry has valid numeric
/// literals for its mandatory fields.
pub open spec fn item_coords_valid(item: ItemView) -> bool {
    match item {
        ItemView::Point(cv) => crate::types::coord::coord_fields_valid(cv),
        ItemView::LineString(cs) => forall|j: int|
            0 <= j < cs.len() ==> crate::types::coord::coord_fields_valid(#[trigger] cs[j]),
        ItemView::MultiLineString(ls) => forall|j: int, k: int|
            0 <= j < ls.len() && 0 <= k < ls[j].len()
                ==> crate::types::coord::coord_fields_valid(#[trigger] ls[j][k]),
    }
}

/// Law (round-trip, the static part): every coordinate of a successfully
/// parsed document holds valid numeric literals in its `x` and `y`
/// fields, so the literal text of each field parses as a number again;
/// [`tokenizer::lemma_number_literal_retokenizes`] adds that such a
/// literal, fed back to the tokenizer, yields the same number token.
pub proof fn lemma_parsed_coords_valid(text: Seq<char>)
    ensures
        spec_parse(text) matches Ok(items) ==> forall|i: int|
            0 <= i < items.len() ==> item_coords_valid(#[trigger] items[i]),
{
    let toks = spec_tokens(text);
    crate::tokenizer::lemma_tokens_numbers_valid(text);
    if spec_parse(text) matches Ok(items) && toks.len() > 0 {
        let rest = toks.drop_first();
        assert(rest =~= toks.skip(1));
        crate::tokenizer::lemma_numbers_valid_skip(toks, 1);
        if toks[0] is Word {
            let word = seq_upper(toks[0]->Word_0);
            if word == kw_point() {
                if spec_point_parens(rest) matches Some(cv) {
                    assert(rest.skip(1) =~= toks.skip(2));
                    crate::tokenizer::lemma_numbers_valid_skip(toks, 2);
                    assert(rest.skip(1)[0] == rest[1] && rest.skip(1)[1] == rest[2]);
                }
            } else if word == kw_linestring() {
                if spec_linestring_parens(rest) is Some {
                    crate::tokenizer::lemma_numbers_valid_skip(rest, 1);
                    crate::types::linestring::lemma_coord_list_fields_valid(rest.skip(1));
                }
            } else if word == kw_multilinestring() {
                if spec_mls_parens(rest) is Some {
                    crate::tokenizer::lemma_numbers_valid_skip(rest, 1);
                    crate::types::multilinestring::lemma_mls_list_fields_valid(rest.skip(1));
                }
            }
        }
    }
}

impl WktItem {
    /// Dispatches an already upper-cased keyword: parses the matching
    /// geometry's parenthesized body and tags the result, or fails with
    /// an unknown-type error when the keyword matches nothing.
    pub fn from_word_and_tokens(word: &str, tokens: &mut PeekableTokens) -> (r: Result<
        WktItem,
        WktError,
    >)
        requires
            old(tokens).wf(),
        ensures
            final(tokens).wf(),
            match r {
                Ok(item) => spec_item(word@, old(tokens).remaining()) == Ok::<ItemView, WktError>(
                    item@,
                ),
                Err(e) => spec_item(word@, old(tokens).remaining()) == Err::<ItemView, WktError>(
                    e,
                ),
            },
    {
        let w = str_to_chars(word);
        if chars_eq(&w, &keyword_point()) {
            match Point::from_tokens_with_parens(tokens) {
                Ok(p) => Ok(p.as_item()),
                Err(e) => Err(e),
            }
        } else if chars_eq(&w, &keyword_linestring()) {
            match LineString::from_tokens_with_parens(tokens) {
                Ok(ls) => Ok(ls.as_item()),
                Err(e) => Err(e),
            }
        } else if chars_eq(&w, &keyword_multilinestring()) {
            match MultiLineString::from_tokens_with_parens(tokens) {
                Ok(mls) => Ok(mls.as_item()),
                Err(e) => Err(e),
            }
        } else {
            Err(WktError::UnknownType)
        }
    }
}

/// The top-level parse result: an ordered collection of geometry values.
/// The current grammar yields at most one, but the container is designed
/// to hold many.
#[derive(Debug)]
pub struct Wkt {
    pub items: Vec<WktItem>,
}

impl View for Wkt {
    type V = Seq<ItemView>;

    open spec fn view(&self) -> Seq<ItemView> {
        self.items@.map_values(|it: WktItem| it@)
    }
}

impl Wkt {
    /// An empty document.
    pub fn new() -> (r: Wkt)
        ensures
            r@ == Seq::<ItemView>::empty(),
    {
        let r = Wkt { items: Vec::new() };
        proof {
            assert(r@ =~= Seq::<ItemView>::empty());
        }
        r
    }

    /// Appends a geometry to the document.
    pub fn add_item(&mut self, item: WktItem)
        ensures
            final(self)@ == old(self)@.push(item@),
    {
        let ghost it = item@;
        self.items.push(item);
        proof {
            assert(self.items@.drop_last() =~= self.items@.subrange(0, self.items@.len() - 1));
            assert(self@ =~= old(self)@.push(it));
        }
    }

    /// Parses a document from raw text: the text is tokenized and the
    /// token sequence parsed, exactly as [`spec_parse`] describes.
    pub fn from_str(wkt_str: &str) -> (r: Result<Wkt, WktError>)
        ensures
            match spec_parse(wkt_str@) {
                Ok(items) => r matches Ok(w) && w@ == items,
                Err(e) => r matches Err(e2) && e2 == e,
            },
    {
        let tokens = Tokens::from_str(wkt_str);
        Wkt::from_tokens(tokens)
    }

    /// Parses a document from a tokenizer, exactly as [`spec_document`]
    /// describes: no tokens at all yield an empty document; otherwise the
    /// leading token must be an ASCII word, which is upper-cased and
    /// dispatched to the matching geometry parser.
    pub fn from_tokens(tokens: Tokens) -> (r: Result<Wkt, WktError>)
        requires
            tokens.wf(),
        ensures
            match spec_document(tokens.remaining()) {
                Ok(items) => r matches Ok(w) && w@ == items,
                Err(e) => r matches Err(e2) && e2 == e,
            },
    {
        let ghost toks = tokens.remaining();
        let mut wkt = Wkt::new();
        let mut tokens = PeekableTokens::new(tokens);
        let word = match tokens.next() {
            Some(Token::Word(word)) => {
                let wchars = str_to_chars(word.as_str());
                if !chars_all_ascii(&wchars) {
                    return Err(WktError::NonAsciiKeyword);
                }
                let upper = chars_upper(&wchars);
                chars_to_string(&upper)
            },
            None => {
                return Ok(wkt);
            },
            _ => {
                return Err(WktError::MalformedStructure);
            },
        };
        match WktItem::from_word_and_tokens(word.as_str(), &mut tokens) {
            Ok(item) => {
                wkt.add_item(item);
                proof {
                    assert(wkt@ =~= seq![item@]);
                }
                Ok(wkt)
            },
            Err(e) => Err(e),
        }
    }
}

} // verus!
