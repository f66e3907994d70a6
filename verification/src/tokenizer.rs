//! The tokenizer: turns a character sequence into a lazy, forward-only
//! sequence of tokens, one token materialized per pull, together with a
//! one-token-lookahead cursor for peek-based grammar decisions.
//!
//! The whole token sequence of a text is described by the specification
//! function [`spec_tokens`]; [`Tokens::next`] is proved to walk exactly that
//! sequence.  A numeric-looking run that is not a valid numeric literal
//! ends the token sequence without yielding a token.

use vstd::prelude::*;
use crate::chars::chars_to_string;
use crate::chars::str_to_chars;
use crate::chars::subvec;
use crate::number::float_literal_check;
use crate::number::float_literal_valid;
use crate::number::is_digit;
use crate::number::digit_check;

verus! {

/// An atomic lexical unit.  A number token holds the literal text it was
/// read from (with a single leading `+` removed), which is always a valid
/// numeric literal; the numeric value it denotes is the caller's concern.
#[derive(Debug, PartialEq)]
pub enum Token {
    Comma,
    Number(String),
    ParenClose,
    ParenOpen,
    Word(String),
}

/// The mathematical value of a [`Token`]: the same shape over character
/// sequences.
pub enum TokenView {
    Comma,
    Number(Seq<char>),
    ParenClose,
    ParenOpen,
    Word(Seq<char>),
}

impl View for Token {
    type V = TokenView;

    open spec fn view(&self) -> TokenView {
        match self {
            Token::Comma => TokenView::Comma,
            Token::Number(s) => TokenView::Number(s@),
            Token::ParenClose => TokenView::ParenClose,
            Token::ParenOpen => TokenView::ParenOpen,
            Token::Word(s) => TokenView::Word(s@),
        }
    }
}

/// The kind of a token, without its payload; what the cursor's peek
/// reports.
#[derive(Clone, Copy, Debug, PartialEq, Eq, Structural)]
pub enum TokenKind {
    Comma,
    Number,
    ParenClose,
    ParenOpen,
    Word,
}

impl TokenView {
    /// The kind of this token.
    pub open spec fn kind(self) -> TokenKind {
        match self {
            TokenView::Comma => TokenKind::Comma,
            TokenView::Number(_) => TokenKind::Number,
            TokenView::ParenClose => TokenKind::ParenClose,
            TokenView::ParenOpen => TokenKind::ParenOpen,
            TokenView::Word(_) => TokenKind::Word,
        }
    }
}

impl Token {
    /// The kind of this token.
    pub fn kind(&self) -> (r: TokenKind)
        ensures
            r == self@.kind(),
    {
        match self {
            Token::Comma => TokenKind::Comma,
            Token::Number(_) => TokenKind::Number,
            Token::ParenClose => TokenKind::ParenClose,
            Token::ParenOpen => TokenKind::ParenOpen,
            Token::Word(_) => TokenKind::Word,
        }
    }
}

/// The characters the tokenizer skips between tokens.
pub open spec fn spec_is_whitespace(c: char) -> bool {
    c == '\n' || c == '\r' || c == '\t' || c == ' '
}

/// The characters that end a word or number run without belonging to it:
/// the structural markers and the NUL terminator.
pub open spec fn spec_is_marker(c: char) -> bool {
    c == '\0' || c == '(' || c == ')' || c == ','
}

/// The characters that start a numeric literal: a decimal digit, a point
/// or a sign.
pub open spec fn spec_is_numberlike(c: char) -> bool {
    is_digit(c) || c == '.' || c == '-' || c == '+'
}

/// Executable counterpart of [`spec_is_whitespace`].
fn is_whitespace(c: char) -> (r: bool)
    ensures
        r == spec_is_whitespace(c),
{
    match c {
        '\n' | '\r' | '\t' | ' ' => true,
        _ => false,
    }
}

/// Executable counterpart of [`spec_is_numberlike`].
fn is_numberlike(c: char) -> (r: bool)
    ensures
        r == spec_is_numberlike(c),
{
    if digit_check(c) {
        true
    } else {
        match c {
            '.' | '-' | '+' => true,
            _ => false,
        }
    }
}

/// The sequence with one leading `+` removed, if present.
pub open spec fn strip_plus(s: Seq<char>) -> Seq<char> {
    if s.len() > 0 && s[0] == '+' {
        s.drop_first()
    } else {
        s
    }
}

/// The end of the word or number run that is in progress at `i`: the first
/// index at or after `i` holding whitespace or a marker, or the length if
/// there is none.
pub open spec fn run_end(s: Seq<char>, i: int) -> int
    decreases s.len() - i,
{
    if !(0 <= i < s.len()) {
        s.len() as int
    } else if spec_is_whitespace(s[i]) || spec_is_marker(s[i]) {
        i
    } else {
        run_end(s, i + 1)
    }
}

proof fn lemma_run_end_bounds(s: Seq<char>, i: int)
    requires
        0 <= i <= s.len(),
    ensures
        i <= run_end(s, i) <= s.len(),
    decreases s.len() - i,
{
    if i < s.len() && !(spec_is_whitespace(s[i]) || spec_is_marker(s[i])) {
        lemma_run_end_bounds(s, i + 1);
    }
}

/// The sequence of tokens read from `s` starting at position `i`: skip
/// whitespace, classify the next character, and continue after the token's
/// run.  A NUL ends the sequence, and so does a numeric-looking run that
/// is not a valid numeric literal.
pub open spec fn spec_tokens_at(s: Seq<char>, i: int) -> Seq<TokenView>
    decreases s.len() - i,
        via spec_tokens_at_decreases
{
    if !(0 <= i < s.len()) {
        Seq::empty()
    } else if spec_is_whitespace(s[i]) {
        spec_tokens_at(s, i + 1)
    } else if s[i] == '\0' {
        Seq::empty()
    } else if s[i] == '(' {
        seq![TokenView::ParenOpen] + spec_tokens_at(s, i + 1)
    } else if s[i] == ')' {
        seq![TokenView::ParenClose] + spec_tokens_at(s, i + 1)
    } else if s[i] == ',' {
        seq![TokenView::Comma] + spec_tokens_at(s, i + 1)
    } else if spec_is_numberlike(s[i]) {
        let e = run_end(s, i + 1);
        let lit = strip_plus(s.subrange(i, e));
        if float_literal_valid(lit) {
            seq![TokenView::Number(lit)] + spec_tokens_at(s, e)
        } else {
            Seq::empty()
        }
    } else {
        let e = run_end(s, i + 1);
        seq![TokenView::Word(s.subrange(i, e))] + spec_tokens_at(s, e)
    }
}

#[via_fn]
proof fn spec_tokens_at_decreases(s: Seq<char>, i: int) {
    if 0 <= i < s.len() {
        lemma_run_end_bounds(s, i + 1);
    }
}

/// The token sequence of a whole text.
pub open spec fn spec_tokens(s: Seq<char>) -> Seq<TokenView> {
    spec_tokens_at(s, 0)
}

/// The lazy tokenizer: a copy of the input characters and a cursor.  Each
/// call of [`Tokens::next`] materializes one token.  It is restartable only
/// by re-creating it from the original text.
#[derive(Debug)]
pub struct Tokens {
    chars: Vec<char>,
    pos: usize,
}

impl Tokens {
    /// The input characters.
    pub closed spec fn text(self) -> Seq<char> {
        self.chars@
    }

    /// The current position in the input.
    pub closed spec fn cursor(self) -> int {
        self.pos as int
    }

    /// The cursor stays within the input.
    pub open spec fn wf(self) -> bool {
        0 <= self.cursor() <= self.text().len()
    }

    /// The tokens this tokenizer has yet to produce.
    pub open spec fn remaining(self) -> Seq<TokenView> {
        spec_tokens_at(self.text(), self.cursor())
    }

    /// A tokenizer at the start of the given text.
    pub fn from_str(input: &str) -> (r: Tokens)
        ensures
            r.wf(),
            r.remaining() == spec_tokens(input@),
    {
        Tokens { chars: str_to_chars(input), pos: 0 }
    }

    /// Reads the characters of the run in progress at the cursor, up to the
    /// next whitespace or marker; a terminating whitespace character is
    /// consumed, a marker is left in place.  Yields `None` when the run is
    /// empty.
    fn read_until_whitespace(&mut self) -> (r: Option<Vec<char>>)
        requires
            old(self).wf(),
        ensures
            final(self).wf(),
            final(self).text() == old(self).text(),
            ({
                let s = old(self).text();
                let i = old(self).cursor();
                let e = run_end(s, i);
                &&& (match r {
                    Some(v) => v@ == s.subrange(i, e) && e > i,
                    None => e == i,
                })
                &&& final(self).cursor() == (if e < s.len() && spec_is_whitespace(s[e]) {
                    e + 1
                } else {
                    e
                })
            }),
    {
        let ghost s = self.text();
        let ghost i0 = self.cursor();
        let mut result: Vec<char> = Vec::new();
        proof {
            lemma_run_end_bounds(s, i0);
        }
        loop
            invariant_except_break
                0 <= i0 <= self.cursor(),
                run_end(s, i0) == run_end(s, self.cursor()),
                result@ == s.subrange(i0, self.cursor()),
            invariant
                self.wf(),
                self.text() == s,
            ensures
                self.wf(),
                self.text() == s,
                result@ == s.subrange(i0, run_end(s, i0)),
                self.cursor() == (if run_end(s, i0) < s.len() && spec_is_whitespace(
                    s[run_end(s, i0)],
                ) {
                    run_end(s, i0) + 1
                } else {
                    run_end(s, i0)
                }),
            decreases s.len() - self.cursor(),
        {
            if self.pos >= self.chars.len() {
                break;
            }
            let ghost p = self.cursor();
            let next_char = self.chars[self.pos];
            let marker = next_char == '\0' || next_char == '(' || next_char == ')' || next_char
                == ',';
            let whitespace = is_whitespace(next_char);
            if marker || whitespace {
                if whitespace {
                    self.pos += 1;
                }
                break;
            }
            self.pos += 1;
            result.push(next_char);
            proof {
                assert(result@ =~= s.subrange(i0, p + 1));
                assert(run_end(s, p) == run_end(s, p + 1));
            }
        }
        proof {
            lemma_run_end_bounds(s, i0);
            assert(s.subrange(i0, run_end(s, i0)).len() == run_end(s, i0) - i0);
        }
        if result.len() == 0 {
            None
        } else {
            Some(result)
        }
    }

    /// Produces the next token, or `None` when the sequence has ended:
    /// whitespace is skipped, a marker character is one token by itself, a
    /// numeric-looking run becomes a number token when it is a valid
    /// literal (after removing a single leading `+`) and otherwise ends the
    /// sequence, and any other run is a word.
    pub fn next(&mut self) -> (r: Option<Token>)
        requires
            old(self).wf(),
        ensures
            final(self).wf(),
            match r {
                Some(t) => old(self).remaining().len() > 0 && t@ == old(self).remaining()[0]
                    && final(self).remaining() == old(self).remaining().drop_first(),
                None => old(self).remaining().len() == 0 && final(self).remaining().len() == 0,
            },
    {
        let ghost s = self.text();
        // Skip whitespace
        while self.pos < self.chars.len() && is_whitespace(self.chars[self.pos])
            invariant
                self.wf(),
                self.text() == s,
                spec_tokens_at(s, old(self).cursor()) == spec_tokens_at(s, self.cursor()),
            decreases s.len() - self.cursor(),
        {
            self.pos += 1;
        }
        if self.pos >= self.chars.len() {
            return None;
        }
        let c = self.chars[self.pos];
        if c == '\0' {
            return None;
        }
        if c == '(' {
            self.pos += 1;
            return Some(Token::ParenOpen);
        }
        if c == ')' {
            self.pos += 1;
            return Some(Token::ParenClose);
        }
        if c == ',' {
            self.pos += 1;
            return Some(Token::Comma);
        }
        let start = self.pos;
        self.pos += 1;
        let mut run: Vec<char> = Vec::new();
        run.push(c);
        match self.read_until_whitespace() {
            Some(mut rest) => {
                run.append(&mut rest);
            },
            None => {},
        }
        let ghost e = run_end(s, start + 1);
        proof {
            lemma_run_end_bounds(s, start + 1);
            assert(run@ =~= s.subrange(start as int, e));
            // Whether the run ended at whitespace (consumed) or at a marker
            // (left in place), the tokens that remain are those at the
            // run's end.
            if e < s.len() && spec_is_whitespace(s[e]) {
                assert(spec_tokens_at(s, e) == spec_tokens_at(s, e + 1));
            }
            assert(spec_tokens_at(s, self.cursor()) == spec_tokens_at(s, e));
        }
        if is_numberlike(c) {
            let lit = if run[0] == '+' {
                subvec(&run, 1, run.len())
            } else {
                subvec(&run, 0, run.len())
            };
            proof {
                assert(lit@ =~= strip_plus(s.subrange(start as int, e)));
            }
            if float_literal_check(&lit) {
                proof {
                    assert(spec_tokens_at(s, start as int) == seq![TokenView::Number(lit@)]
                        + spec_tokens_at(s, e));
                    assert((seq![TokenView::Number(lit@)] + spec_tokens_at(s, e)).drop_first()
                        =~= spec_tokens_at(s, e));
                }
                Some(Token::Number(chars_to_string(&lit)))
            } else {
                // The malformed run yields no token and ends the sequence;
                // the cursor returns to the run so the tokenizer stays
                // ended.
                self.pos = start;
                None
            }
        } else {
            proof {
                let w = s.subrange(start as int, e);
                assert(spec_tokens_at(s, start as int) == seq![TokenView::Word(w)]
                    + spec_tokens_at(s, e));
                assert((seq![TokenView::Word(w)] + spec_tokens_at(s, e)).drop_first()
                    =~= spec_tokens_at(s, e));
            }
            Some(Token::Word(chars_to_string(&run)))
        }
    }
}

/// A one-token-lookahead cursor over the tokenizer, so the parser can
/// decide on the next token's kind before consuming it.
#[derive(Debug)]
pub struct PeekableTokens {
    tokens: Tokens,
    peeked: Option<Token>,
}

impl PeekableTokens {
    /// The underlying tokenizer stays well formed.
    pub closed spec fn wf(self) -> bool {
        self.tokens.wf()
    }

    /// The tokens this cursor has yet to produce: the buffered token, if
    /// any, then whatever the tokenizer still holds.
    pub closed spec fn remaining(self) -> Seq<TokenView> {
        match self.peeked {
            Some(t) => seq![t@] + self.tokens.remaining(),
            None => self.tokens.remaining(),
        }
    }

    /// A cursor over the given tokenizer, with nothing buffered yet.
    pub fn new(tokens: Tokens) -> (r: PeekableTokens)
        requires
            tokens.wf(),
        ensures
            r.wf(),
            r.remaining() == tokens.remaining(),
    {
        PeekableTokens { tokens, peeked: None }
    }

    /// Consumes and returns the next token, or `None` when the sequence
    /// has ended.
    pub fn next(&mut self) -> (r: Option<Token>)
        requires
            old(self).wf(),
        ensures
            final(self).wf(),
            match r {
                Some(t) => old(self).remaining().len() > 0 && t@ == old(self).remaining()[0]
                    && final(self).remaining() == old(self).remaining().drop_first(),
                None => old(self).remaining().len() == 0 && final(self).remaining().len() == 0,
            },
    {
        match self.peeked.take() {
            Some(t) => {
                proof {
                    assert((seq![t@] + self.tokens.remaining()).drop_first() =~= self
                        .tokens
                        .remaining());
                }
                Some(t)
            },
            None => self.tokens.next(),
        }
    }

    /// Reports the kind of the next token without consuming it, or `None`
    /// when the sequence has ended.
    pub fn peek_kind(&mut self) -> (r: Option<TokenKind>)
        requires
            old(self).wf(),
        ensures
            final(self).wf(),
            final(self).remaining() == old(self).remaining(),
            match r {
                Some(k) => old(self).remaining().len() > 0 && k == old(self).remaining()[0].kind(),
                None => old(self).remaining().len() == 0,
            },
    {
        if self.peeked.is_none() {
            self.peeked = self.tokens.next();
        }
        match &self.peeked {
            Some(t) => Some(t.kind()),
            None => None,
        }
    }
}

/// All characters from `i` on are neither whitespace nor markers, so the
/// run in progress extends to the end of the text.
proof fn lemma_run_end_all_plain(s: Seq<char>, i: int)
    requires
        0 <= i <= s.len(),
        forall|j: int|
            i <= j < s.len() ==> !spec_is_whitespace(#[trigger] s[j]) && !spec_is_marker(s[j]),
    ensures
        run_end(s, i) == s.len(),
    decreases s.len() - i,
{
    if i < s.len() {
        lemma_run_end_all_plain(s, i + 1);
    }
}

/// The token a single structural character yields.
pub open spec fn structural_token(c: char) -> TokenView {
    if c == '(' {
        TokenView::ParenOpen
    } else if c == ')' {
        TokenView::ParenClose
    } else {
        TokenView::Comma
    }
}

proof fn lemma_repeated_structural_at(s: Seq<char>, c: char, k: int)
    requires
        c == '(' || c == ')' || c == ',',
        forall|i: int| 0 <= i < s.len() ==> s[i] == c,
        0 <= k <= s.len(),
    ensures
        spec_tokens_at(s, k) =~= Seq::new((s.len() - k) as nat, |i: int| structural_token(c)),
    decreases s.len() - k,
{
    if k < s.len() {
        lemma_repeated_structural_at(s, c, k + 1);
        assert(spec_tokens_at(s, k) =~= seq![structural_token(c)] + spec_tokens_at(s, k + 1));
    }
}

/// Law: tokenizing any number of repetitions of one structural character
/// — `(`, `)` or `,` — yields exactly one token of the matching kind per
/// character.
pub proof fn lemma_repeated_structural(s: Seq<char>, c: char)
    requires
        c == '(' || c == ')' || c == ',',
        forall|i: int| 0 <= i < s.len() ==> s[i] == c,
    ensures
        spec_tokens(s).len() == s.len(),
        forall|i: int| 0 <= i < s.len() ==> spec_tokens(s)[i] == structural_token(c),
{
    lemma_repeated_structural_at(s, c, 0);
}

proof fn lemma_whitespace_only_at(s: Seq<char>, k: int)
    requires
        forall|i: int| 0 <= i < s.len() ==> spec_is_whitespace(#[trigger] s[i]),
        0 <= k <= s.len(),
    ensures
        spec_tokens_at(s, k) == Seq::<TokenView>::empty(),
    decreases s.len() - k,
{
    if k < s.len() {
        lemma_whitespace_only_at(s, k + 1);
    }
}

/// Law: tokenizing text made of whitespace alone yields no tokens.
pub proof fn lemma_whitespace_only(s: Seq<char>)
    requires
        forall|i: int| 0 <= i < s.len() ==> spec_is_whitespace(#[trigger] s[i]),
    ensures
        spec_tokens(s) == Seq::<TokenView>::empty(),
{
    lemma_whitespace_only_at(s, 0);
}

/// Law: tokenizing any positive number of repetitions of `+` yields no
/// tokens: the run is number-like but, once a single leading `+` is
/// removed, what is left is not a valid numeric literal.
pub proof fn lemma_repeated_plus(s: Seq<char>)
    requires
        s.len() > 0,
        forall|i: int| 0 <= i < s.len() ==> s[i] == '+',
    ensures
        spec_tokens(s) == Seq::<TokenView>::empty(),
{
    lemma_run_end_all_plain(s, 1);
    assert(s.subrange(0, s.len() as int) =~= s);
    let lit = strip_plus(s);
    let b = crate::number::strip_sign(lit);
    assert(forall|i: int| 0 <= i < b.len() ==> b[i] == '+');
    assert(crate::chars::seq_upper(b).len() == b.len());
    if b.len() > 0 {
        assert(crate::chars::seq_upper(b)[0] == crate::chars::char_upper('+'));
    }
    assert(!crate::number::is_special(b));
    crate::number::lemma_first_exp_all(b, 0);
    crate::number::lemma_first_dot_all(b, 0);
    assert(!crate::number::is_count(b));
    assert(!float_literal_valid(lit));
}

/// Law: tokenizing any positive number of repetitions of one decimal
/// digit yields exactly one number token holding the whole text; more
/// generally this holds of any all-digit text.
pub proof fn lemma_digit_run(s: Seq<char>)
    requires
        s.len() > 0,
        forall|i: int| 0 <= i < s.len() ==> is_digit(#[trigger] s[i]),
    ensures
        spec_tokens(s) == seq![TokenView::Number(s)],
{
    lemma_run_end_all_plain(s, 1);
    assert(s.subrange(0, s.len() as int) =~= s);
    assert(strip_plus(s) == s);
    assert(crate::number::strip_sign(s) == s);
    crate::number::lemma_first_exp_all(s, 0);
    crate::number::lemma_first_dot_all(s, 0);
    assert(crate::number::is_count(s));
    assert(float_literal_valid(s));
    assert(spec_tokens_at(s, s.len() as int) == Seq::<TokenView>::empty());
    assert(spec_tokens(s) =~= seq![TokenView::Number(s)]);
}

/// Law: tokenizing any positive number of repetitions of one character
/// that is not whitespace, not a structural marker and not number-like
/// yields exactly one word token holding the whole text; more generally
/// this holds of any text of such characters.
pub proof fn lemma_word_run(s: Seq<char>)
    requires
        s.len() > 0,
        forall|i: int|
            0 <= i < s.len() ==> !spec_is_whitespace(#[trigger] s[i]) && !spec_is_marker(s[i]),
        !spec_is_numberlike(s[0]),
    ensures
        spec_tokens(s) == seq![TokenView::Word(s)],
{
    lemma_run_end_all_plain(s, 1);
    assert(s.subrange(0, s.len() as int) =~= s);
    assert(spec_tokens_at(s, s.len() as int) == Seq::<TokenView>::empty());
    assert(spec_tokens(s) =~= seq![TokenView::Word(s)]);
}

/// Every number token of the sequence holds a valid numeric literal.
pub open spec fn numbers_valid(toks: Seq<TokenView>) -> bool {
    forall|i: int|
        0 <= i < toks.len() ==> match #[trigger] toks[i] {
            TokenView::Number(lit) => float_literal_valid(lit),
            _ => true,
        }
}

/// A suffix of a sequence whose number tokens are valid has valid number
/// tokens.
pub proof fn lemma_numbers_valid_skip(toks: Seq<TokenView>, n: int)
    requires
        numbers_valid(toks),
        0 <= n <= toks.len(),
    ensures
        numbers_valid(toks.skip(n)),
{
    assert forall|i: int|
        0 <= i < toks.skip(n).len() implies match #[trigger] toks.skip(n)[i] {
            TokenView::Number(lit) => float_literal_valid(lit),
            _ => true,
        } by {
        assert(toks.skip(n)[i] == toks[n + i]);
    }
}

proof fn lemma_tokens_numbers_valid_at(s: Seq<char>, k: int)
    requires
        0 <= k <= s.len(),
    ensures
        numbers_valid(spec_tokens_at(s, k)),
    decreases s.len() - k,
{
    if 0 <= k < s.len() {
        let c = s[k];
        if spec_is_whitespace(c) || c == '(' || c == ')' || c == ',' {
            lemma_tokens_numbers_valid_at(s, k + 1);
        } else if c == '\0' {
        } else {
            let e = run_end(s, k + 1);
            lemma_run_end_bounds(s, k + 1);
            lemma_tokens_numbers_valid_at(s, e);
        }
        assert forall|i: int|
            0 <= i < spec_tokens_at(s, k).len() implies match #[trigger] spec_tokens_at(s, k)[i] {
            TokenView::Number(lit) => float_literal_valid(lit),
            _ => true,
        } by {
            if !spec_is_whitespace(c) && i > 0 {
                let e = run_end(s, k + 1);
                if c == '(' || c == ')' || c == ',' {
                    assert(spec_tokens_at(s, k)[i] == spec_tokens_at(s, k + 1)[i - 1]);
                } else if spec_is_numberlike(c) || !spec_is_marker(c) {
                    assert(spec_tokens_at(s, k)[i] == spec_tokens_at(s, e)[i - 1]);
                }
            }
        }
    }
}

/// Law: every number token the tokenizer produces holds a valid numeric
/// literal, so its text parses as a number again.
pub proof fn lemma_tokens_numbers_valid(s: Seq<char>)
    ensures
        numbers_valid(spec_tokens(s)),
{
    lemma_tokens_numbers_valid_at(s, 0);
}

/// Law (round-trip): the literal text of any number token the tokenizer
/// produces is a valid numeric literal, and — whenever it still begins
/// number-like and not with a `+` — tokenizing that text again yields
/// exactly the same number token back.
pub proof fn lemma_number_literal_retokenizes(lit: Seq<char>)
    requires
        float_literal_valid(lit),
        lit.len() > 0,
        spec_is_numberlike(lit[0]),
        lit[0] != '+',
    ensures
        spec_tokens(lit) == seq![TokenView::Number(lit)],
{
    crate::number::lemma_float_literal_chars(lit);
    assert forall|j: int|
        0 <= j < lit.len() implies !spec_is_whitespace(#[trigger] lit[j]) && !spec_is_marker(
        lit[j],
    ) by {
        assert(crate::number::literal_char(lit[j]));
    }
    lemma_run_end_all_plain(lit, 1);
    assert(lit.subrange(0, lit.len() as int) =~= lit);
    assert(strip_plus(lit) == lit);
    assert(spec_tokens_at(lit, lit.len() as int) == Seq::<TokenView>::empty());
    assert(spec_tokens(lit) =~= seq![TokenView::Number(lit)]);
}

} // verus!
