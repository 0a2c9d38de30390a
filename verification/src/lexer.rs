//! Tokenization of a line of source text.
//!
//! The lexer classifies characters with the same Unicode predicates the
//! standard library offers. Within ASCII the predicates are spelled out;
//! beyond it they are named by uninterpreted spec functions, so the
//! token-level model [`spec_next_token`] is exact up to the character
//! classes of non-ASCII text.

use vstd::prelude::*;
use vstd::string::StrSliceExecFns;

verus! {

/// Whether a character beyond ASCII has the Unicode `White_Space`
/// property; only `char::is_whitespace` decides this.
pub uninterp spec fn is_space_beyond_ascii(c: char) -> bool;

/// Whether a character beyond ASCII is Unicode alphabetic; only
/// `char::is_alphabetic` decides this.
pub uninterp spec fn is_alpha_beyond_ascii(c: char) -> bool;

/// Whether a character beyond ASCII is Unicode alphanumeric; only
/// `char::is_alphanumeric` decides this.
pub uninterp spec fn is_alnum_beyond_ascii(c: char) -> bool;

/// Whitespace, as `char::is_whitespace` decides it: within ASCII these
/// are exactly tab through carriage return and the space character.
pub open spec fn is_space(c: char) -> bool {
    if c as u32 <= 127 {
        c == ' ' || (9 <= c as u32 && c as u32 <= 13)
    } else {
        is_space_beyond_ascii(c)
    }
}

/// Alphabetic, as `char::is_alphabetic` decides it: within ASCII exactly
/// the letters.
pub open spec fn is_alpha(c: char) -> bool {
    if c as u32 <= 127 {
        ('a' <= c && c <= 'z') || ('A' <= c && c <= 'Z')
    } else {
        is_alpha_beyond_ascii(c)
    }
}

/// Alphanumeric, as `char::is_alphanumeric` decides it: within ASCII
/// exactly the letters and digits.
pub open spec fn is_alnum(c: char) -> bool {
    if c as u32 <= 127 {
        ('a' <= c && c <= 'z') || ('A' <= c && c <= 'Z') || ('0' <= c && c <= '9')
    } else {
        is_alnum_beyond_ascii(c)
    }
}

/// Relies on `char::is_whitespace`: a pure function of the character,
/// deciding the Unicode `White_Space` property, which within ASCII holds
/// of exactly the space character and tab through carriage return.
#[verifier::external_body]
fn char_is_space(c: char) -> (r: bool)
    ensures
        r == is_space(c),
        c as u32 > 127 ==> r == is_space_beyond_ascii(c),
{
    c.is_whitespace()
}

/// Relies on `char::is_alphabetic`: a pure function of the character,
/// deciding Unicode `Alphabetic`, which within ASCII holds of exactly
/// the letters.
#[verifier::external_body]
fn char_is_alpha(c: char) -> (r: bool)
    ensures
        r == is_alpha(c),
        c as u32 > 127 ==> r == is_alpha_beyond_ascii(c),
{
    c.is_alphabetic()
}

/// Relies on `char::is_alphanumeric`: a pure function of the character,
/// deciding Unicode `Alphabetic` or numeric, which within ASCII holds of
/// exactly the letters and digits.
#[verifier::external_body]
fn char_is_alnum(c: char) -> (r: bool)
    ensures
        r == is_alnum(c),
        c as u32 > 127 ==> r == is_alnum_beyond_ascii(c),
{
    c.is_alphanumeric()
}

/// Characters that may start or continue a numeric literal: an ASCII digit
/// or a decimal point. Malformed literals with several points are kept
/// verbatim; the lexer performs no validation.
pub open spec fn is_num_char(c: char) -> bool {
    c == '.' || (48 <= c as u32 && c as u32 <= 57)
}

fn char_is_num(c: char) -> (r: bool)
    ensures
        r == is_num_char(c),
{
    let u = c as u32;
    u == 46 || (48 <= u && u <= 57)
}

/// A line break, which ends a `#` comment.
pub open spec fn is_line_break(c: char) -> bool {
    c == '\n' || c == '\r'
}

fn char_is_line_break(c: char) -> (r: bool)
    ensures
        r == is_line_break(c),
{
    c == '\n' || c == '\r'
}

/// The mathematical value of a token: text is a sequence of characters.
pub enum TokenV {
    Def,
    Extern,
    Identifier(Seq<char>),
    Number(Seq<char>),
    Operator(char),
}

/// An atomic lexical unit. A numeric literal keeps its source text: the
/// grammar never computes with the value, and the text preserves even
/// malformed literals exactly as they were written.
#[derive(Debug, PartialEq)]
pub enum Token {
    Def,
    Extern,
    Identifier(String),
    Number(String),
    Operator(char),
}

impl View for Token {
    type V = TokenV;

    open spec fn view(&self) -> TokenV {
        match self {
            Token::Def => TokenV::Def,
            Token::Extern => TokenV::Extern,
            Token::Identifier(s) => TokenV::Identifier(s@),
            Token::Number(s) => TokenV::Number(s@),
            Token::Operator(c) => TokenV::Operator(*c),
        }
    }
}

impl DeepView for Token {
    type V = TokenV;

    open spec fn deep_view(&self) -> TokenV {
        self.view()
    }
}

/// How many characters of `cs` remain from position `pos` on.
pub open spec fn rem_chars(cs: Seq<char>, pos: int) -> nat {
    if 0 <= pos <= cs.len() {
        (cs.len() - pos) as nat
    } else {
        0
    }
}

/// Length of the maximal alphanumeric run starting at `pos`.
pub open spec fn spec_scan_alnum(cs: Seq<char>, pos: int) -> nat
    decreases rem_chars(cs, pos),
{
    if 0 <= pos < cs.len() && is_alnum(cs[pos]) {
        1 + spec_scan_alnum(cs, pos + 1)
    } else {
        0
    }
}

/// Length of the maximal run of digits and decimal points starting at `pos`.
pub open spec fn spec_scan_num(cs: Seq<char>, pos: int) -> nat
    decreases rem_chars(cs, pos),
{
    if 0 <= pos < cs.len() && is_num_char(cs[pos]) {
        1 + spec_scan_num(cs, pos + 1)
    } else {
        0
    }
}

/// Number of characters a `#` comment consumes after the `#`: everything
/// through the first line break, or through the end of the input.
pub open spec fn spec_scan_comment(cs: Seq<char>, pos: int) -> nat
    decreases rem_chars(cs, pos),
{
    if 0 <= pos < cs.len() {
        if is_line_break(cs[pos]) {
            1
        } else {
            1 + spec_scan_comment(cs, pos + 1)
        }
    } else {
        0
    }
}

/// The next token of `cs` from position `pos` on, together with the number
/// of characters consumed (whitespace and comments included), or `None`
/// when only whitespace and comments remain.
///
/// Leading whitespace is skipped; an alphabetic run is a keyword or an
/// identifier; a run of digits and points is a numeric literal, kept as
/// text without validation; a `#` discards the rest of the line; any other
/// single character is an operator token.
pub open spec fn spec_next_token(cs: Seq<char>, pos: int) -> Option<(TokenV, nat)>
    decreases rem_chars(cs, pos),
{
    if !(0 <= pos < cs.len()) {
        None
    } else if is_space(cs[pos]) {
        match spec_next_token(cs, pos + 1) {
            None => None,
            Some((t, n)) => Some((t, (n + 1) as nat)),
        }
    } else if is_alpha(cs[pos]) {
        let n = 1 + spec_scan_alnum(cs, pos + 1);
        let word = cs.subrange(pos, pos + n);
        if word == "def"@ {
            Some((TokenV::Def, n as nat))
        } else if word == "extern"@ {
            Some((TokenV::Extern, n as nat))
        } else {
            Some((TokenV::Identifier(word), n as nat))
        }
    } else if is_num_char(cs[pos]) {
        let n = 1 + spec_scan_num(cs, pos + 1);
        Some((TokenV::Number(cs.subrange(pos, pos + n)), n as nat))
    } else if cs[pos] == '#' {
        let n = 1 + spec_scan_comment(cs, pos + 1);
        match spec_next_token(cs, pos + n) {
            None => None,
            Some((t, m)) => Some((t, (n + m) as nat)),
        }
    } else {
        Some((TokenV::Operator(cs[pos]), 1))
    }
}

/// The whole token sequence of `cs` from position `pos` on.
pub open spec fn spec_tokens(cs: Seq<char>, pos: int) -> Seq<TokenV>
    decreases rem_chars(cs, pos),
{
    match spec_next_token(cs, pos) {
        None => Seq::empty(),
        Some((t, n)) => if n >= 1 {
            seq![t] + spec_tokens(cs, pos + n)
        } else {
            seq![t]
        },
    }
}

/// A lexing outcome whose consumed-character count is pushed back by `d`
/// positions: the token found after `d` skipped characters.
pub open spec fn shift_tok(r: Option<(TokenV, nat)>, d: nat) -> Option<(TokenV, nat)> {
    match r {
        None => None,
        Some((t, n)) => Some((t, (n + d) as nat)),
    }
}

/// Skipping over whitespace does not change the token found, only how many
/// characters finding it consumes.
pub proof fn lemma_skip_spaces(cs: Seq<char>, pos: int, j: int)
    requires
        0 <= pos <= j <= cs.len(),
        forall|k: int| pos <= k < j ==> is_space(#[trigger] cs[k]),
    ensures
        spec_next_token(cs, pos) == shift_tok(spec_next_token(cs, j), (j - pos) as nat),
    decreases j - pos,
{
    if pos < j {
        lemma_skip_spaces(cs, pos + 1, j);
    }
}

/// A token is at least one character long, and never reads past the end.
pub proof fn lemma_next_token_bounds(cs: Seq<char>, pos: int)
    ensures
        spec_next_token(cs, pos) matches Some((t, n)) ==> 1 <= n && pos + n <= cs.len(),
    decreases rem_chars(cs, pos),
{
    if 0 <= pos < cs.len() {
        if is_space(cs[pos]) {
            lemma_next_token_bounds(cs, pos + 1);
        } else if is_alpha(cs[pos]) {
            lemma_scan_alnum_bounds(cs, pos + 1);
        } else if is_num_char(cs[pos]) {
            lemma_scan_num_bounds(cs, pos + 1);
        } else if cs[pos] == '#' {
            lemma_scan_comment_bounds(cs, pos + 1);
            let n = 1 + spec_scan_comment(cs, pos + 1);
            lemma_next_token_bounds(cs, pos + n);
        }
    }
}

proof fn lemma_scan_alnum_bounds(cs: Seq<char>, pos: int)
    requires
        0 <= pos <= cs.len(),
    ensures
        pos + spec_scan_alnum(cs, pos) <= cs.len(),
    decreases rem_chars(cs, pos),
{
    if pos < cs.len() && is_alnum(cs[pos]) {
        lemma_scan_alnum_bounds(cs, pos + 1);
    }
}

proof fn lemma_scan_num_bounds(cs: Seq<char>, pos: int)
    requires
        0 <= pos <= cs.len(),
    ensures
        pos + spec_scan_num(cs, pos) <= cs.len(),
    decreases rem_chars(cs, pos),
{
    if pos < cs.len() && is_num_char(cs[pos]) {
        lemma_scan_num_bounds(cs, pos + 1);
    }
}

proof fn lemma_scan_comment_bounds(cs: Seq<char>, pos: int)
    requires
        0 <= pos <= cs.len(),
    ensures
        pos + spec_scan_comment(cs, pos) <= cs.len(),
    decreases rem_chars(cs, pos),
{
    if pos < cs.len() && !is_line_break(cs[pos]) {
        lemma_scan_comment_bounds(cs, pos + 1);
    }
}

/// The characters of `cs1` from `p1` on are exactly those of `cs2` from
/// `p2` on.
pub open spec fn suffix_eq_chars(cs1: Seq<char>, p1: int, cs2: Seq<char>, p2: int) -> bool {
    &&& cs1.len() - p1 == cs2.len() - p2
    &&& forall|k: int| 0 <= k < cs1.len() - p1 ==> #[trigger] cs1[p1 + k] == cs2[p2 + k]
}

proof fn lemma_suffix_chars_step(cs1: Seq<char>, p1: int, cs2: Seq<char>, p2: int, d: int)
    requires
        suffix_eq_chars(cs1, p1, cs2, p2),
        0 <= d,
    ensures
        suffix_eq_chars(cs1, p1 + d, cs2, p2 + d),
{
    assert forall|k: int| 0 <= k < cs1.len() - (p1 + d) implies #[trigger] cs1[p1 + d + k] == cs2[
        p2 + d + k] by {
        assert(cs1[p1 + (d + k)] == cs2[p2 + (d + k)]);
    }
}

proof fn lemma_scan_alnum_local(cs1: Seq<char>, p1: int, cs2: Seq<char>, p2: int)
    requires
        0 <= p1 <= cs1.len(),
        0 <= p2 <= cs2.len(),
        suffix_eq_chars(cs1, p1, cs2, p2),
    ensures
        spec_scan_alnum(cs1, p1) == spec_scan_alnum(cs2, p2),
    decreases rem_chars(cs1, p1),
{
    if p1 < cs1.len() {
        assert(cs1[p1 + 0] == cs2[p2 + 0]);
        if is_alnum(cs1[p1]) {
            lemma_suffix_chars_step(cs1, p1, cs2, p2, 1);
            lemma_scan_alnum_local(cs1, p1 + 1, cs2, p2 + 1);
        }
    }
}

proof fn lemma_scan_num_local(cs1: Seq<char>, p1: int, cs2: Seq<char>, p2: int)
    requires
        0 <= p1 <= cs1.len(),
        0 <= p2 <= cs2.len(),
        suffix_eq_chars(cs1, p1, cs2, p2),
    ensures
        spec_scan_num(cs1, p1) == spec_scan_num(cs2, p2),
    decreases rem_chars(cs1, p1),
{
    if p1 < cs1.len() {
        assert(cs1[p1 + 0] == cs2[p2 + 0]);
        if is_num_char(cs1[p1]) {
            lemma_suffix_chars_step(cs1, p1, cs2, p2, 1);
            lemma_scan_num_local(cs1, p1 + 1, cs2, p2 + 1);
        }
    }
}

proof fn lemma_scan_comment_local(cs1: Seq<char>, p1: int, cs2: Seq<char>, p2: int)
    requires
        0 <= p1 <= cs1.len(),
        0 <= p2 <= cs2.len(),
        suffix_eq_chars(cs1, p1, cs2, p2),
    ensures
        spec_scan_comment(cs1, p1) == spec_scan_comment(cs2, p2),
    decreases rem_chars(cs1, p1),
{
    if p1 < cs1.len() {
        assert(cs1[p1 + 0] == cs2[p2 + 0]);
        if !is_line_break(cs1[p1]) {
            lemma_suffix_chars_step(cs1, p1, cs2, p2, 1);
            lemma_scan_comment_local(cs1, p1 + 1, cs2, p2 + 1);
        }
    }
}

/// The next token depends only on the characters not yet consumed.
pub proof fn lemma_next_token_local(cs1: Seq<char>, p1: int, cs2: Seq<char>, p2: int)
    requires
        0 <= p1 <= cs1.len(),
        0 <= p2 <= cs2.len(),
        suffix_eq_chars(cs1, p1, cs2, p2),
    ensures
        spec_next_token(cs1, p1) == spec_next_token(cs2, p2),
    decreases rem_chars(cs1, p1),
{
    if p1 < cs1.len() {
        assert(cs1[p1 + 0] == cs2[p2 + 0]);
        let c = cs1[p1];
        if is_space(c) {
            lemma_suffix_chars_step(cs1, p1, cs2, p2, 1);
            lemma_next_token_local(cs1, p1 + 1, cs2, p2 + 1);
        } else if is_alpha(c) {
            lemma_suffix_chars_step(cs1, p1, cs2, p2, 1);
            lemma_scan_alnum_local(cs1, p1 + 1, cs2, p2 + 1);
            lemma_scan_alnum_bounds(cs1, p1 + 1);
            let n = 1 + spec_scan_alnum(cs1, p1 + 1);
            assert(cs1.subrange(p1, p1 + n) =~= cs2.subrange(p2, p2 + n)) by {
                assert forall|k: int| 0 <= k < n implies #[trigger] cs1.subrange(p1, p1 + n)[k]
                    == cs2.subrange(p2, p2 + n)[k] by {
                    assert(cs1[p1 + k] == cs2[p2 + k]);
                }
            }
        } else if is_num_char(c) {
            lemma_suffix_chars_step(cs1, p1, cs2, p2, 1);
            lemma_scan_num_local(cs1, p1 + 1, cs2, p2 + 1);
            lemma_scan_num_bounds(cs1, p1 + 1);
            let n = 1 + spec_scan_num(cs1, p1 + 1);
            assert(cs1.subrange(p1, p1 + n) =~= cs2.subrange(p2, p2 + n)) by {
                assert forall|k: int| 0 <= k < n implies #[trigger] cs1.subrange(p1, p1 + n)[k]
                    == cs2.subrange(p2, p2 + n)[k] by {
                    assert(cs1[p1 + k] == cs2[p2 + k]);
                }
            }
        } else if c == '#' {
            lemma_suffix_chars_step(cs1, p1, cs2, p2, 1);
            lemma_scan_comment_local(cs1, p1 + 1, cs2, p2 + 1);
            lemma_scan_comment_bounds(cs1, p1 + 1);
            let n = 1 + spec_scan_comment(cs1, p1 + 1);
            lemma_suffix_chars_step(cs1, p1, cs2, p2, n as int);
            lemma_next_token_local(cs1, p1 + n, cs2, p2 + n);
        }
    }
}

/// The token sequence depends only on the characters not yet consumed.
pub proof fn lemma_tokens_local(cs1: Seq<char>, p1: int, cs2: Seq<char>, p2: int)
    requires
        0 <= p1 <= cs1.len(),
        0 <= p2 <= cs2.len(),
        suffix_eq_chars(cs1, p1, cs2, p2),
    ensures
        spec_tokens(cs1, p1) == spec_tokens(cs2, p2),
    decreases rem_chars(cs1, p1),
{
    lemma_next_token_local(cs1, p1, cs2, p2);
    lemma_next_token_bounds(cs1, p1);
    match spec_next_token(cs1, p1) {
        None => {},
        Some((t, n)) => {
            lemma_suffix_chars_step(cs1, p1, cs2, p2, n as int);
            lemma_tokens_local(cs1, p1 + n, cs2, p2 + n);
        },
    }
}

/// A comment scan consumes everything through the first line break.
proof fn lemma_scan_comment_stops(cs: Seq<char>, i: int, j: int)
    requires
        0 <= i <= j < cs.len(),
        is_line_break(cs[j]),
        forall|k: int| i <= k < j ==> !is_line_break(#[trigger] cs[k]),
    ensures
        spec_scan_comment(cs, i) == j - i + 1,
    decreases j - i,
{
    if i < j {
        lemma_scan_comment_stops(cs, i + 1, j);
    }
}

/// Whitespace ahead of the next real token never changes the token
/// sequence produced.
pub proof fn lemma_whitespace_prefix(w: Seq<char>, rest: Seq<char>)
    requires
        forall|k: int| 0 <= k < w.len() ==> is_space(#[trigger] w[k]),
    ensures
        spec_tokens(w + rest, 0) == spec_tokens(rest, 0),
{
    let cs = w + rest;
    let n = w.len() as int;
    assert forall|k: int| 0 <= k < n implies is_space(#[trigger] cs[k]) by {
        assert(cs[k] == w[k]);
    }
    lemma_skip_spaces(cs, 0, n);
    lemma_next_token_bounds(cs, n);
    assert(spec_tokens(cs, 0) == spec_tokens(cs, n));
    assert(suffix_eq_chars(cs, n, rest, 0)) by {
        assert forall|k: int| 0 <= k < cs.len() - n implies #[trigger] cs[n + k] == rest[0 + k] by {
            assert(cs[n + k] == rest[k]);
        }
    }
    lemma_tokens_local(cs, n, rest, 0);
}

/// A `#` comment running to the end of its line, ahead of the next real
/// token, never changes the token sequence produced.
pub proof fn lemma_comment_prefix(w: Seq<char>, rest: Seq<char>)
    requires
        w.len() >= 2,
        w[0] == '#',
        is_line_break(w[w.len() - 1]),
        forall|k: int| 1 <= k < w.len() - 1 ==> !is_line_break(#[trigger] w[k]),
    ensures
        spec_tokens(w + rest, 0) == spec_tokens(rest, 0),
{
    let cs = w + rest;
    let n = w.len() as int;
    assert(cs[0] == w[0]);
    assert forall|k: int| 1 <= k < n - 1 implies !is_line_break(#[trigger] cs[k]) by {
        assert(cs[k] == w[k]);
    }
    assert(cs[n - 1] == w[n - 1]);
    lemma_scan_comment_stops(cs, 1, n - 1);
    assert(spec_next_token(cs, 0) == shift_tok(spec_next_token(cs, n), n as nat));
    lemma_next_token_bounds(cs, n);
    assert(spec_tokens(cs, 0) == spec_tokens(cs, n));
    assert(suffix_eq_chars(cs, n, rest, 0)) by {
        assert forall|k: int| 0 <= k < cs.len() - n implies #[trigger] cs[n + k] == rest[0 + k] by {
            assert(cs[n + k] == rest[k]);
        }
    }
    lemma_tokens_local(cs, n, rest, 0);
}

/// A cursor producing the tokens of one line of source text, lazily and
/// exactly as [`spec_next_token`] describes.
pub struct TokenIter<'a> {
    src: &'a str,
    pos: usize,
}

impl<'a> TokenIter<'a> {
    /// The characters of the source text.
    pub closed spec fn chars(&self) -> Seq<char> {
        self.src@
    }

    /// The position of the next character not yet consumed.
    pub closed spec fn at(&self) -> int {
        self.pos as int
    }

    pub open spec fn wf(&self) -> bool {
        0 <= self.at() <= self.chars().len()
    }

    pub fn new(src: &'a str) -> (r: TokenIter<'a>)
        ensures
            r.chars() == src@,
            r.at() == 0,
            r.wf(),
    {
        TokenIter { src, pos: 0 }
    }

    /// The source text that has not been consumed yet.
    pub fn remainder(&self) -> (r: &'a str)
        requires
            self.wf(),
        ensures
            r@ == self.chars().subrange(self.at(), self.chars().len() as int),
    {
        let n = self.src.unicode_len();
        self.src.substring_char(self.pos, n)
    }

    /// Consume the characters before the first one that is not whitespace.
    pub fn remove_whitespace(&mut self)
        requires
            old(self).wf(),
        ensures
            final(self).wf(),
            final(self).chars() == old(self).chars(),
            old(self).at() <= final(self).at(),
            forall|k: int|
                old(self).at() <= k < final(self).at() ==> is_space(#[trigger] final(self).chars()[k]),
            final(self).at() == final(self).chars().len() || !is_space(
                final(self).chars()[final(self).at()],
            ),
    {
        let n = self.src.unicode_len();
        while self.pos < n && char_is_space(self.src.get_char(self.pos))
            invariant
                self.src == old(self).src,
                n as nat == self.chars().len(),
                old(self).at() <= self.at() <= self.chars().len(),
                forall|k: int|
                    old(self).at() <= k < self.at() ==> is_space(#[trigger] self.chars()[k]),
            decreases n - self.pos,
        {
            self.pos = self.pos + 1;
        }
    }

    /// The next token of the line, or `None` when only whitespace and
    /// comments remain. The cursor advances exactly over what the token
    /// model says the token consumed.
    pub fn next(&mut self) -> (r: Option<Token>)
        requires
            old(self).wf(),
        ensures
            final(self).wf(),
            final(self).chars() == old(self).chars(),
            match spec_next_token(old(self).chars(), old(self).at()) {
                None => r is None && final(self).at() == final(self).chars().len(),
                Some((t, n)) => {
                    &&& r matches Some(tok) && tok@ == t
                    &&& final(self).at() == old(self).at() + n
                },
            },
        decreases old(self).chars().len() - old(self).at(),
    {
        let ghost cs = self.src@;
        let ghost pos0 = self.pos as int;
        self.remove_whitespace();
        let ghost j = self.pos as int;
        proof {
            lemma_skip_spaces(cs, pos0, j);
        }
        let n = self.src.unicode_len();
        if self.pos >= n {
            return None;
        }
        let c = self.src.get_char(self.pos);
        if char_is_alpha(c) {
            let start = self.pos;
            self.pos = self.pos + 1;
            while self.pos < n && char_is_alnum(self.src.get_char(self.pos))
                invariant
                    cs == self.chars(),
                    n as nat == cs.len(),
                    start + 1 <= self.pos <= n,
                    spec_scan_alnum(cs, start + 1) == (self.pos - start - 1)
                        + spec_scan_alnum(cs, self.pos as int),
                decreases n - self.pos,
            {
                proof {
                    assert(spec_scan_alnum(cs, self.pos as int) == 1 + spec_scan_alnum(
                        cs,
                        self.pos + 1,
                    ));
                }
                self.pos = self.pos + 1;
            }
            assert(spec_scan_alnum(cs, self.pos as int) == 0);
            let word = self.src.substring_char(start, self.pos).to_owned();
            if word == "def".to_owned() {
                Some(Token::Def)
            } else if word == "extern".to_owned() {
                Some(Token::Extern)
            } else {
                Some(Token::Identifier(word))
            }
        } else if char_is_num(c) {
            let start = self.pos;
            self.pos = self.pos + 1;
            while self.pos < n && char_is_num(self.src.get_char(self.pos))
                invariant
                    cs == self.chars(),
                    n as nat == cs.len(),
                    start + 1 <= self.pos <= n,
                    spec_scan_num(cs, start + 1) == (self.pos - start - 1)
                        + spec_scan_num(cs, self.pos as int),
                decreases n - self.pos,
            {
                proof {
                    assert(spec_scan_num(cs, self.pos as int) == 1 + spec_scan_num(
                        cs,
                        self.pos + 1,
                    ));
                }
                self.pos = self.pos + 1;
            }
            assert(spec_scan_num(cs, self.pos as int) == 0);
            let text = self.src.substring_char(start, self.pos).to_owned();
            Some(Token::Number(text))
        } else if c == '#' {
            let start = self.pos;
            self.pos = self.pos + 1;
            loop
                invariant_except_break
                    spec_scan_comment(cs, start + 1) == (self.pos - start - 1)
                        + spec_scan_comment(cs, self.pos as int),
                invariant
                    cs == self.chars(),
                    self.wf(),
                    start + 1 <= self.pos,
                ensures
                    cs == self.chars(),
                    self.wf(),
                    self.pos == start + 1 + spec_scan_comment(cs, start + 1),
                decreases cs.len() - self.pos,
            {
                let n2 = self.src.unicode_len();
                if self.pos >= n2 {
                    break;
                }
                let item = self.src.get_char(self.pos);
                self.pos = self.pos + 1;
                if char_is_line_break(item) {
                    break;
                }
            }
            self.next()
        } else {
            self.pos = self.pos + 1;
            Some(Token::Operator(c))
        }
    }
}

} // verus!
