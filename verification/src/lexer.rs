//! The lexer: turns source bytes into a forward-only token sequence.
//!
//! It recognizes the keyword set, identifiers, braces `(){}`, punctuation
//! `,.;`, the operators `= ! < >` (bare or `=`-suffixed) and `- + * /`,
//! integer and decimal numeric literals, and quoted string literals.
//! Whitespace is skipped. There is no error token: at unrecognized input the
//! token stream simply ends, and the parser fails at the point it expects a
//! token and finds none.

use vstd::prelude::*;
use vstd::string::StringSliceAdditionalSpecFns;

verus! {

/// What kind of text a token holds.
#[derive(Clone, Copy, Debug, PartialEq, Eq, Structural)]
pub enum TokenKind {
    Keyword,
    Ident,
    Brace,
    Punct,
    Operator,
    NumLit,
    StrLit,
}

/// One token: its kind, its text, the byte span `[start, end)` it was read
/// from, and the 0-based source line it starts on.
#[derive(Debug)]
pub struct Token {
    pub kind: TokenKind,
    pub text: Vec<u8>,
    pub start: usize,
    pub end: usize,
    pub line: usize,
}

/// A token's placement and kind, without the text (which is always the
/// source bytes of its span).
pub struct TokenInfo {
    pub kind: TokenKind,
    pub start: int,
    pub end: int,
    pub line: int,
}

/// Whether `t` is the token `info` describes over `src`.
pub open spec fn token_matches(t: Token, info: TokenInfo, src: Seq<u8>) -> bool {
    &&& t.kind == info.kind
    &&& t.start == info.start
    &&& t.end == info.end
    &&& t.line == info.line
    &&& 0 <= info.start <= info.end <= src.len()
    &&& t.text@ == src.subrange(info.start, info.end)
}

pub open spec fn is_ws(b: u8) -> bool {
    b == 32 || b == 9 || b == 13 || b == 10
}

pub open spec fn is_digit(b: u8) -> bool {
    48 <= b <= 57
}

pub open spec fn is_alpha(b: u8) -> bool {
    (65 <= b <= 90) || (97 <= b <= 122) || b == 95
}

pub open spec fn is_ident_byte(b: u8) -> bool {
    is_alpha(b) || is_digit(b)
}

pub open spec fn is_brace(b: u8) -> bool {
    b == 40 || b == 41 || b == 123 || b == 125
}

pub open spec fn is_punct(b: u8) -> bool {
    b == 44 || b == 46 || b == 59
}

/// The operators that may take an `=` suffix: `= ! < >`.
pub open spec fn is_cmp_op(b: u8) -> bool {
    b == 61 || b == 33 || b == 60 || b == 62
}

/// The single-byte operators `- + * /`.
pub open spec fn is_arith_op(b: u8) -> bool {
    b == 45 || b == 43 || b == 42 || b == 47
}

/// The first position at or after `i` holding a byte that is not whitespace,
/// or the end of the source.
pub open spec fn ws_end(src: Seq<u8>, i: int) -> int
    decreases src.len() - i,
{
    if 0 <= i < src.len() && is_ws(src[i]) {
        ws_end(src, i + 1)
    } else {
        i
    }
}

/// The first position at or after `i` holding a non-digit, or the end.
pub open spec fn digits_end(src: Seq<u8>, i: int) -> int
    decreases src.len() - i,
{
    if 0 <= i < src.len() && is_digit(src[i]) {
        digits_end(src, i + 1)
    } else {
        i
    }
}

/// The first position at or after `i` holding a byte that cannot continue an
/// identifier, or the end.
pub open spec fn ident_end(src: Seq<u8>, i: int) -> int
    decreases src.len() - i,
{
    if 0 <= i < src.len() && is_ident_byte(src[i]) {
        ident_end(src, i + 1)
    } else {
        i
    }
}

/// The first position at or after `i` holding a double quote, or the end.
pub open spec fn str_body_end(src: Seq<u8>, i: int) -> int
    decreases src.len() - i,
{
    if 0 <= i < src.len() && src[i] != 34 {
        str_body_end(src, i + 1)
    } else {
        i
    }
}

/// How many line breaks the source holds before position `end`.
pub open spec fn count_lines(src: Seq<u8>, end: int) -> int
    decreases end,
{
    if end <= 0 {
        0
    } else {
        count_lines(src, end - 1) + if 0 <= end - 1 < src.len() && src[end - 1] == 10 {
            1int
        } else {
            0int
        }
    }
}

/// Whether `w` is one of the language's keywords.
pub open spec fn is_keyword(w: Seq<u8>) -> bool {
    ||| w == "and".spec_bytes()
    ||| w == "class".spec_bytes()
    ||| w == "else".spec_bytes()
    ||| w == "false".spec_bytes()
    ||| w == "for".spec_bytes()
    ||| w == "fun".spec_bytes()
    ||| w == "if".spec_bytes()
    ||| w == "nil".spec_bytes()
    ||| w == "or".spec_bytes()
    ||| w == "print".spec_bytes()
    ||| w == "return".spec_bytes()
    ||| w == "super".spec_bytes()
    ||| w == "this".spec_bytes()
    ||| w == "true".spec_bytes()
    ||| w == "var".spec_bytes()
    ||| w == "while".spec_bytes()
}

/// The kind and end of the token starting at the non-whitespace position
/// `i`, or `None` where no token is recognized there (an unknown byte, or an
/// unterminated or empty string literal).
pub open spec fn token_shape(src: Seq<u8>, i: int) -> Option<(TokenKind, int)> {
    let b = src[i];
    if is_digit(b) {
        let d = digits_end(src, i);
        let end = if d < src.len() && src[d] == 46 && d + 1 < src.len() && is_digit(
            src[d + 1],
        ) {
            digits_end(src, d + 1)
        } else {
            d
        };
        Some((TokenKind::NumLit, end))
    } else if is_alpha(b) {
        let end = ident_end(src, i);
        let kind = if is_keyword(src.subrange(i, end)) {
            TokenKind::Keyword
        } else {
            TokenKind::Ident
        };
        Some((kind, end))
    } else if is_brace(b) {
        Some((TokenKind::Brace, i + 1))
    } else if is_punct(b) {
        Some((TokenKind::Punct, i + 1))
    } else if is_cmp_op(b) {
        let end = if i + 1 < src.len() && src[i + 1] == 61 {
            i + 2
        } else {
            i + 1
        };
        Some((TokenKind::Operator, end))
    } else if is_arith_op(b) {
        Some((TokenKind::Operator, i + 1))
    } else if b == 34 {
        let close = str_body_end(src, i + 1);
        if close < src.len() && close > i + 1 {
            Some((TokenKind::StrLit, close + 1))
        } else {
            None
        }
    } else {
        None
    }
}

pub proof fn lemma_ws_end_bounds(src: Seq<u8>, i: int)
    requires
        0 <= i <= src.len(),
    ensures
        i <= ws_end(src, i) <= src.len(),
    decreases src.len() - i,
{
    if i < src.len() && is_ws(src[i]) {
        lemma_ws_end_bounds(src, i + 1);
    }
}

pub proof fn lemma_digits_end_bounds(src: Seq<u8>, i: int)
    requires
        0 <= i <= src.len(),
    ensures
        i <= digits_end(src, i) <= src.len(),
    decreases src.len() - i,
{
    if i < src.len() && is_digit(src[i]) {
        lemma_digits_end_bounds(src, i + 1);
    }
}

pub proof fn lemma_ident_end_bounds(src: Seq<u8>, i: int)
    requires
        0 <= i <= src.len(),
    ensures
        i <= ident_end(src, i) <= src.len(),
    decreases src.len() - i,
{
    if i < src.len() && is_ident_byte(src[i]) {
        lemma_ident_end_bounds(src, i + 1);
    }
}

pub proof fn lemma_str_body_end_bounds(src: Seq<u8>, i: int)
    requires
        0 <= i <= src.len(),
    ensures
        i <= str_body_end(src, i) <= src.len(),
    decreases src.len() - i,
{
    if i < src.len() && src[i] != 34 {
        lemma_str_body_end_bounds(src, i + 1);
    }
}

/// A recognized token always ends after it starts and within the source.
pub proof fn lemma_token_shape_bounds(src: Seq<u8>, i: int)
    requires
        0 <= i < src.len(),
    ensures
        match token_shape(src, i) {
            Some((kind, end)) => i < end <= src.len(),
            None => true,
        },
{
    if is_digit(src[i]) {
        assert(digits_end(src, i) == digits_end(src, i + 1));
        lemma_digits_end_bounds(src, i + 1);
        let d = digits_end(src, i);
        if d < src.len() && src[d] == 46 && d + 1 < src.len() && is_digit(src[d + 1]) {
            lemma_digits_end_bounds(src, d + 1);
        }
    } else if is_alpha(src[i]) {
        lemma_ident_end_bounds(src, i);
        assert(ident_end(src, i) == ident_end(src, i + 1));
        lemma_ident_end_bounds(src, i + 1);
    } else if src[i] == 34 {
        lemma_str_body_end_bounds(src, i + 1);
    }
}

pub proof fn lemma_count_lines_le(src: Seq<u8>, end: int)
    requires
        end >= 0,
    ensures
        0 <= count_lines(src, end) <= end,
    decreases end,
{
    if end > 0 {
        lemma_count_lines_le(src, end - 1);
    }
}

/// Positions with no line break between them are on the same line.
pub proof fn lemma_count_lines_same(src: Seq<u8>, a: int, b: int)
    requires
        0 <= a <= b,
        forall|k: int| a <= k < b && k < src.len() ==> src[k] != 10,
    ensures
        count_lines(src, b) == count_lines(src, a),
    decreases b - a,
{
    if a < b {
        lemma_count_lines_same(src, a, b - 1);
    }
}

/// The tokens of the source from position `pos` on: whitespace is skipped,
/// one token is taken as [`token_shape`] gives it, and the rest follow; the
/// sequence ends at the end of the source or at unrecognized input.
pub open spec fn spec_lex(src: Seq<u8>, pos: int) -> Seq<TokenInfo>
    decreases src.len() - pos,
    when 0 <= pos <= src.len()
    via spec_lex_decreases
{
    let ws = ws_end(src, pos);
    if ws >= src.len() {
        Seq::empty()
    } else {
        match token_shape(src, ws) {
            Some((kind, end)) => seq![
                TokenInfo { kind, start: ws, end, line: count_lines(src, ws) },
            ] + spec_lex(src, end),
            None => Seq::empty(),
        }
    }
}

#[via_fn]
proof fn spec_lex_decreases(src: Seq<u8>, pos: int) {
    lemma_ws_end_bounds(src, pos);
    let ws = ws_end(src, pos);
    if ws < src.len() {
        lemma_token_shape_bounds(src, ws);
    }
}

fn ws_byte(b: u8) -> (r: bool)
    ensures
        r == is_ws(b),
{
    b == 32 || b == 9 || b == 13 || b == 10
}

fn digit_byte(b: u8) -> (r: bool)
    ensures
        r == is_digit(b),
{
    48 <= b && b <= 57
}

fn alpha_byte(b: u8) -> (r: bool)
    ensures
        r == is_alpha(b),
{
    (65 <= b && b <= 90) || (97 <= b && b <= 122) || b == 95
}

fn ident_byte(b: u8) -> (r: bool)
    ensures
        r == is_ident_byte(b),
{
    alpha_byte(b) || digit_byte(b)
}

/// Whether two byte strings hold the same bytes.
pub fn bytes_eq(a: &[u8], b: &[u8]) -> (r: bool)
    ensures
        r == (a@ == b@),
{
    if a.len() != b.len() {
        proof {
            assert(a@.len() != b@.len());
        }
        return false;
    }
    let mut i: usize = 0;
    while i < a.len()
        invariant
            i <= a@.len(),
            a@.len() == b@.len(),
            forall|k: int| 0 <= k < i ==> a@[k] == b@[k],
        decreases a@.len() - i,
    {
        if a[i] != b[i] {
            return false;
        }
        i += 1;
    }
    proof {
        assert(a@ =~= b@);
    }
    true
}

/// Whether `w` is one of the language's keywords.
fn keyword_bytes(w: &[u8]) -> (r: bool)
    ensures
        r == is_keyword(w@),
{
    bytes_eq(w, "and".as_bytes())
    || bytes_eq(w, "class".as_bytes())
    || bytes_eq(w, "else".as_bytes())
    || bytes_eq(w, "false".as_bytes())
    || bytes_eq(w, "for".as_bytes())
    || bytes_eq(w, "fun".as_bytes())
    || bytes_eq(w, "if".as_bytes())
    || bytes_eq(w, "nil".as_bytes())
    || bytes_eq(w, "or".as_bytes())
    || bytes_eq(w, "print".as_bytes())
    || bytes_eq(w, "return".as_bytes())
    || bytes_eq(w, "super".as_bytes())
    || bytes_eq(w, "this".as_bytes())
    || bytes_eq(w, "true".as_bytes())
    || bytes_eq(w, "var".as_bytes())
    || bytes_eq(w, "while".as_bytes())
}

/// Copies the bytes of `src` in `[start, end)`.
fn copy_range(src: &Vec<u8>, start: usize, end: usize) -> (r: Vec<u8>)
    requires
        start <= end <= src@.len(),
    ensures
        r@ == src@.subrange(start as int, end as int),
{
    let mut r: Vec<u8> = Vec::new();
    let mut i: usize = start;
    while i < end
        invariant
            start <= i <= end <= src@.len(),
            r@ == src@.subrange(start as int, i as int),
        decreases end - i,
    {
        r.push(src[i]);
        proof {
            assert(r@ =~= src@.subrange(start as int, i + 1));
        }
        i += 1;
    }
    r
}

/// The lexer: the source bytes and a cursor, with the current 0-based line.
pub struct Lexer {
    pub src: Vec<u8>,
    pub pos: usize,
    pub line: usize,
}

/// The cursor is inside the source and the line count is the number of line
/// breaks behind the cursor.
pub open spec fn lexer_wf(lx: Lexer) -> bool {
    &&& lx.pos <= lx.src@.len()
    &&& lx.line == count_lines(lx.src@, lx.pos as int)
}

impl Lexer {
    pub open spec fn src_view(&self) -> Seq<u8> {
        self.src@
    }

    pub open spec fn pos_view(&self) -> int {
        self.pos as int
    }

    /// A lexer at the start of `src`.
    pub fn new(src: Vec<u8>) -> (lx: Lexer)
        ensures
            lx.src_view() == src@,
            lx.pos_view() == 0,
            lexer_wf(lx),
    {
        Lexer { src, pos: 0, line: 0 }
    }

    /// Advances the cursor past whitespace, counting line breaks.
    fn skip_ws(&mut self)
        requires
            lexer_wf(*old(self)),
        ensures
            lexer_wf(*final(self)),
            final(self).src_view() == old(self).src_view(),
            final(self).pos_view() == ws_end(old(self).src_view(), old(self).pos_view()),
    {
        loop
            invariant
                lexer_wf(*self),
                self.src@ == old(self).src@,
                ws_end(self.src@, self.pos as int) == ws_end(old(self).src@, old(self).pos as int),
            decreases self.src@.len() - self.pos,
        {
            if self.pos >= self.src.len() {
                return ;
            }
            let b = self.src[self.pos];
            if !ws_byte(b) {
                return ;
            }
            proof {
                lemma_count_lines_le(self.src@, self.pos as int);
            }
            if b == 10 {
                self.line = self.line + 1;
            }
            self.pos = self.pos + 1;
        }
    }

    /// Produces the next token, or `None` at the end of the source or at
    /// unrecognized input (which the cursor stays on).
    pub fn next_token(&mut self) -> (t: Option<Token>)
        requires
            lexer_wf(*old(self)),
        ensures
            lexer_wf(*final(self)),
            final(self).src_view() == old(self).src_view(),
            ({
                let src = old(self).src_view();
                let ws = ws_end(src, old(self).pos_view());
                if ws >= src.len() {
                    t is None && final(self).pos_view() == src.len()
                } else {
                    match token_shape(src, ws) {
                        Some((kind, end)) => {
                            &&& t is Some
                            &&& token_matches(
                                t->Some_0,
                                TokenInfo { kind, start: ws, end, line: count_lines(src, ws) },
                                src,
                            )
                            &&& final(self).pos_view() == end
                        },
                        None => t is None && final(self).pos_view() == ws,
                    }
                }
            }),
    {
        self.skip_ws();
        if self.pos >= self.src.len() {
            return None;
        }
        let ghost src = self.src@;
        let ghost ws = self.pos as int;
        proof {
            lemma_count_lines_le(src, ws);
        }
        let start = self.pos;
        let line = self.line;
        let b = self.src[start];
        let kind: TokenKind;
        let end: usize;
        if digit_byte(b) {
            let d = self.scan_digits(start);
            if d < self.src.len() && self.src[d] == 46 && d + 1 < self.src.len() && digit_byte(
                self.src[d + 1],
            ) {
                end = self.scan_digits(d + 1);
            } else {
                end = d;
            }
            kind = TokenKind::NumLit;
        } else if alpha_byte(b) {
            end = self.scan_ident(start);
            let word = copy_range(&self.src, start, end);
            if keyword_bytes(word.as_slice()) {
                kind = TokenKind::Keyword;
            } else {
                kind = TokenKind::Ident;
            }
        } else if b == 40 || b == 41 || b == 123 || b == 125 {
            kind = TokenKind::Brace;
            end = start + 1;
        } else if b == 44 || b == 46 || b == 59 {
            kind = TokenKind::Punct;
            end = start + 1;
        } else if b == 61 || b == 33 || b == 60 || b == 62 {
            kind = TokenKind::Operator;
            if start + 1 < self.src.len() && self.src[start + 1] == 61 {
                end = start + 2;
            } else {
                end = start + 1;
            }
        } else if b == 45 || b == 43 || b == 42 || b == 47 {
            kind = TokenKind::Operator;
            end = start + 1;
        } else if b == 34 {
            let close = self.scan_str_body(start + 1);
            if close < self.src.len() && close > start + 1 {
                kind = TokenKind::StrLit;
                end = close + 1;
            } else {
                return None;
            }
        } else {
            return None;
        }
        proof {
            lemma_token_shape_bounds(src, ws);
            if is_alpha(b) {
                assert(ident_end(src, ws) == ident_end(src, ws + 1));
            }
        }
        let text = copy_range(&self.src, start, end);
        self.pos = end;
        if kind == TokenKind::StrLit {
            // A string literal is the one token whose body can hold line
            // breaks; recount them from its span.
            self.recount_line(start, end);
        } else {
            proof {
                if is_digit(b) {
                    lemma_digits_end_all(src, ws);
                    if digits_end(src, ws) < end as int {
                        lemma_digits_end_all(src, digits_end(src, ws) + 1);
                    }
                } else if is_alpha(b) {
                    lemma_ident_end_all(src, ws);
                }
                assert forall|k: int| ws <= k < end as int implies src[k] != 10 by {
                    if is_digit(b) {
                        let d = digits_end(src, ws);
                        if k == d {
                            assert(src[k] == 46);
                        }
                    } else if !is_alpha(b) {
                        if k != ws {
                            assert(k == ws + 1 && src[k] == 61);
                        }
                    }
                }
                lemma_count_lines_same(src, ws, end as int);
            }
        }
        Some(Token { kind, text, start, end, line })
    }

    /// Advances `line` by the line breaks inside `[start, end)`.
    fn recount_line(&mut self, start: usize, end: usize)
        requires
            start <= end <= old(self).src@.len(),
            old(self).line == count_lines(old(self).src@, start as int),
        ensures
            final(self).src == old(self).src,
            final(self).pos == old(self).pos,
            final(self).line == count_lines(old(self).src@, end as int),
    {
        let mut i: usize = start;
        while i < end
            invariant
                start <= i <= end <= self.src@.len(),
                self.src == old(self).src,
                self.pos == old(self).pos,
                self.line == count_lines(self.src@, i as int),
            decreases end - i,
        {
            proof {
                lemma_count_lines_le(self.src@, i as int);
            }
            if self.src[i] == 10 {
                self.line = self.line + 1;
            }
            i += 1;
        }
    }

    fn scan_digits(&self, from: usize) -> (r: usize)
        requires
            from <= self.src@.len(),
        ensures
            r == digits_end(self.src@, from as int),
            from <= r <= self.src@.len(),
    {
        let mut i: usize = from;
        while i < self.src.len() && digit_byte(self.src[i])
            invariant
                from <= i <= self.src@.len(),
                digits_end(self.src@, from as int) == digits_end(self.src@, i as int),
            decreases self.src@.len() - i,
        {
            i += 1;
        }
        i
    }

    fn scan_ident(&self, from: usize) -> (r: usize)
        requires
            from <= self.src@.len(),
        ensures
            r == ident_end(self.src@, from as int),
            from <= r <= self.src@.len(),
    {
        let mut i: usize = from;
        while i < self.src.len() && ident_byte(self.src[i])
            invariant
                from <= i <= self.src@.len(),
                ident_end(self.src@, from as int) == ident_end(self.src@, i as int),
            decreases self.src@.len() - i,
        {
            i += 1;
        }
        i
    }

    fn scan_str_body(&self, from: usize) -> (r: usize)
        requires
            from <= self.src@.len(),
        ensures
            r == str_body_end(self.src@, from as int),
            from <= r <= self.src@.len(),
    {
        let mut i: usize = from;
        while i < self.src.len() && self.src[i] != 34
            invariant
                from <= i <= self.src@.len(),
                str_body_end(self.src@, from as int) == str_body_end(self.src@, i as int),
            decreases self.src@.len() - i,
        {
            i += 1;
        }
        i
    }
}

/// Every byte the digit scan passes over is a digit.
pub proof fn lemma_digits_end_all(src: Seq<u8>, i: int)
    requires
        0 <= i <= src.len(),
    ensures
        forall|k: int| i <= k < digits_end(src, i) ==> is_digit(#[trigger] src[k]),
    decreases src.len() - i,
{
    if i < src.len() && is_digit(src[i]) {
        lemma_digits_end_all(src, i + 1);
        lemma_digits_end_bounds(src, i + 1);
    }
}

/// Every byte the identifier scan passes over can stand in an identifier.
pub proof fn lemma_ident_end_all(src: Seq<u8>, i: int)
    requires
        0 <= i <= src.len(),
    ensures
        forall|k: int| i <= k < ident_end(src, i) ==> is_ident_byte(#[trigger] src[k]),
    decreases src.len() - i,
{
    if i < src.len() && is_ident_byte(src[i]) {
        lemma_ident_end_all(src, i + 1);
        lemma_ident_end_bounds(src, i + 1);
    }
}

/// Every lexed token sits inside the source, is nonempty, and starts on a
/// line no later than its own offset.
pub proof fn lemma_spec_lex_wf(src: Seq<u8>, pos: int)
    requires
        0 <= pos <= src.len(),
    ensures
        forall|i: int|
            0 <= i < spec_lex(src, pos).len() ==> {
                let info = #[trigger] spec_lex(src, pos)[i];
                &&& pos <= info.start < info.end <= src.len()
                &&& 0 <= info.line <= info.start
            },
    decreases src.len() - pos,
{
    lemma_ws_end_bounds(src, pos);
    let ws = ws_end(src, pos);
    if ws < src.len() {
        lemma_token_shape_bounds(src, ws);
        match token_shape(src, ws) {
            Some((kind, end)) => {
                lemma_count_lines_le(src, ws);
                lemma_spec_lex_wf(src, end);
                assert(forall|i: int|
                    1 <= i < spec_lex(src, pos).len() ==> spec_lex(src, pos)[i] == spec_lex(
                        src,
                        end,
                    )[i - 1]);
            },
            None => {},
        }
    }
}

/// Runs the lexer over the whole source: the tokens of [`spec_lex`].
#[verifier::loop_isolation(false)]
pub fn lex_all(src: Vec<u8>) -> (r: Vec<Token>)
    ensures
        r@.len() == spec_lex(src@, 0).len(),
        forall|i: int|
            0 <= i < r@.len() ==> token_matches(r@[i], spec_lex(src@, 0)[i], src@),
{
    let ghost all = spec_lex(src@, 0);
    let mut lx = Lexer::new(src);
    let mut r: Vec<Token> = Vec::new();
    loop
        invariant
            lexer_wf(lx),
            lx.src_view() == src@,
            all == spec_lex(lx.src_view(), 0),
            r@.len() + spec_lex(lx.src_view(), lx.pos_view()).len() == all.len(),
            forall|i: int| 0 <= i < r@.len() ==> token_matches(r@[i], all[i], lx.src_view()),
            forall|i: int|
                r@.len() <= i < all.len() ==> all[i] == spec_lex(lx.src_view(), lx.pos_view())[i
                    - r@.len()],
        decreases lx.src_view().len() - lx.pos_view() + 1,
    {
        let ghost pre_pos = lx.pos_view();
        let ghost rest = spec_lex(lx.src_view(), pre_pos);
        proof {
            lemma_ws_end_bounds(lx.src_view(), pre_pos);
        }
        match lx.next_token() {
            Some(t) => {
                proof {
                    let src = lx.src_view();
                    let ws = ws_end(src, pre_pos);
                    lemma_token_shape_bounds(src, ws);
                    assert(rest[0] == TokenInfo {
                        kind: t.kind,
                        start: t.start as int,
                        end: t.end as int,
                        line: t.line as int,
                    });
                    assert(forall|i: int| 1 <= i < rest.len() ==> rest[i] == spec_lex(
                        src,
                        lx.pos_view(),
                    )[i - 1]);
                }
                r.push(t);
            },
            None => {
                proof {
                    assert(rest =~= Seq::<TokenInfo>::empty());
                }
                return r;
            },
        }
    }
}

} // verus!
