//! The compiler: an operator-precedence (Pratt) parser that consumes tokens
//! and emits bytecode straight into a [`Chunk`], with no tree in between.
//!
//! Each token category carries an optional prefix handler, an optional infix
//! handler, and a binding precedence; the handlers are named by a small enum
//! and resolved through one dispatcher, so the table holds no function
//! pointers.

use vstd::prelude::*;
use vstd::string::StringSliceAdditionalSpecFns;

use crate::chunk::{be_value, byte_to_opcode, chunk_decodes, chunk_wf, code_decodes,
    is_const_load, lemma_code_decodes_extend, opcode_byte, spec_write_instr, Chunk, ChunkView,
    OpCode};
use crate::float::parse_number_bits;
use crate::lexer::{bytes_eq, lemma_spec_lex_wf, lex_all, spec_lex, token_matches, Token,
    TokenInfo, TokenKind};
use crate::value::Value;
use crate::vm::{CompileError, Span};

verus! {

/// The strictly ordered precedence scale.
#[derive(Clone, Copy, Debug, PartialEq, Eq, Structural)]
pub enum Prec {
    Lowest,
    Assignment,
    Or,
    And,
    Equality,
    Comparison,
    Term,
    Factor,
    Unary,
    Call,
    Primary,
}

/// The rank of a precedence on the scale.
pub open spec fn prec_level(p: Prec) -> int {
    match p {
        Prec::Lowest => 0,
        Prec::Assignment => 1,
        Prec::Or => 2,
        Prec::And => 3,
        Prec::Equality => 4,
        Prec::Comparison => 5,
        Prec::Term => 6,
        Prec::Factor => 7,
        Prec::Unary => 8,
        Prec::Call => 9,
        Prec::Primary => 10,
    }
}

impl Prec {
    /// The rank of this precedence.
    pub fn level(&self) -> (n: u8)
        ensures
            n == prec_level(*self),
    {
        match self {
            Prec::Lowest => 0,
            Prec::Assignment => 1,
            Prec::Or => 2,
            Prec::And => 3,
            Prec::Equality => 4,
            Prec::Comparison => 5,
            Prec::Term => 6,
            Prec::Factor => 7,
            Prec::Unary => 8,
            Prec::Call => 9,
            Prec::Primary => 10,
        }
    }

    /// The next precedence up the scale (`Primary` is the top).
    pub fn next(&self) -> (p: Prec)
        ensures
            p == spec_prec_next(*self),
            prec_level(p) == if prec_level(*self) < 10 {
                prec_level(*self) + 1
            } else {
                10int
            },
    {
        match self {
            Prec::Lowest => Prec::Assignment,
            Prec::Assignment => Prec::Or,
            Prec::Or => Prec::And,
            Prec::And => Prec::Equality,
            Prec::Equality => Prec::Comparison,
            Prec::Comparison => Prec::Term,
            Prec::Term => Prec::Factor,
            Prec::Factor => Prec::Unary,
            Prec::Unary => Prec::Call,
            Prec::Call => Prec::Primary,
            Prec::Primary => Prec::Primary,
        }
    }
}

/// The small closed category a token maps to, by its kind and its text.
#[derive(Clone, Copy, Debug, PartialEq, Eq, Structural)]
pub enum HashToken {
    Other,
    LeftParen,
    Minus,
    Plus,
    Factor,
    Bang,
    Number,
    Literal,
    Equality,
    Comparison,
}

/// Whether a rule is being applied in prefix or in infix position.
#[derive(Clone, Copy, Debug, PartialEq, Eq, Structural)]
pub enum RuleType {
    Prefix,
    Infix,
}

/// The named parse handlers the table can point at.
#[derive(Clone, Copy, Debug, PartialEq, Eq, Structural)]
pub enum ParseFn {
    Number,
    Grouping,
    Unary,
    Binary,
    Literal,
}

/// One row of the parse table.
#[derive(Clone, Copy, Debug)]
pub struct ParseRule {
    pub prefix: Option<ParseFn>,
    pub infix: Option<ParseFn>,
    pub prec: Prec,
}

/// The category of a token: its kind and, within a kind, its text decide.
pub open spec fn spec_categorize(kind: TokenKind, text: Seq<u8>) -> HashToken {
    match kind {
        TokenKind::Brace => if text == "(".spec_bytes() {
            HashToken::LeftParen
        } else {
            HashToken::Other
        },
        TokenKind::Operator => {
            if text == "-".spec_bytes() {
                HashToken::Minus
            } else if text == "+".spec_bytes() {
                HashToken::Plus
            } else if text == "*".spec_bytes() || text == "/".spec_bytes() {
                HashToken::Factor
            } else if text == "!".spec_bytes() {
                HashToken::Bang
            } else if text == "==".spec_bytes() || text == "!=".spec_bytes() {
                HashToken::Equality
            } else if text == "<".spec_bytes() || text == "<=".spec_bytes() || text
                == ">".spec_bytes() || text == ">=".spec_bytes() {
                HashToken::Comparison
            } else {
                HashToken::Other
            }
        },
        TokenKind::NumLit => HashToken::Number,
        TokenKind::Keyword => if text == "true".spec_bytes() || text == "false".spec_bytes() || text
            == "nil".spec_bytes() {
            HashToken::Literal
        } else {
            HashToken::Other
        },
        _ => HashToken::Other,
    }
}

/// The parse table: each category's prefix handler, infix handler, and
/// binding precedence.
pub open spec fn spec_get_rule(t: HashToken) -> ParseRule {
    match t {
        HashToken::LeftParen => ParseRule {
            prefix: Some(ParseFn::Grouping),
            infix: None,
            prec: Prec::Lowest,
        },
        HashToken::Minus => ParseRule {
            prefix: Some(ParseFn::Unary),
            infix: Some(ParseFn::Binary),
            prec: Prec::Term,
        },
        HashToken::Plus => ParseRule {
            prefix: None,
            infix: Some(ParseFn::Binary),
            prec: Prec::Term,
        },
        HashToken::Factor => ParseRule {
            prefix: None,
            infix: Some(ParseFn::Binary),
            prec: Prec::Factor,
        },
        HashToken::Bang => ParseRule { prefix: Some(ParseFn::Unary), infix: None, prec: Prec::Lowest },
        HashToken::Number => ParseRule {
            prefix: Some(ParseFn::Number),
            infix: None,
            prec: Prec::Lowest,
        },
        HashToken::Literal => ParseRule {
            prefix: Some(ParseFn::Literal),
            infix: None,
            prec: Prec::Lowest,
        },
        HashToken::Equality => ParseRule {
            prefix: None,
            infix: Some(ParseFn::Binary),
            prec: Prec::Equality,
        },
        HashToken::Comparison => ParseRule {
            prefix: None,
            infix: Some(ParseFn::Binary),
            prec: Prec::Comparison,
        },
        HashToken::Other => ParseRule { prefix: None, infix: None, prec: Prec::Lowest },
    }
}

/// The text of a lexed token: the source bytes of its span.
pub open spec fn info_text(src: Seq<u8>, info: TokenInfo) -> Seq<u8> {
    src.subrange(info.start, info.end)
}

/// The category of a lexed token.
pub open spec fn info_cat(src: Seq<u8>, info: TokenInfo) -> HashToken {
    spec_categorize(info.kind, info_text(src, info))
}

/// The span of a lexed token, as errors anchor it.
pub open spec fn info_span(info: TokenInfo) -> Span {
    Span { start: info.start as usize, end: info.end as usize, line: info.line as usize }
}

/// The next precedence up the scale.
pub open spec fn spec_prec_next(p: Prec) -> Prec {
    match p {
        Prec::Lowest => Prec::Assignment,
        Prec::Assignment => Prec::Or,
        Prec::Or => Prec::And,
        Prec::And => Prec::Equality,
        Prec::Equality => Prec::Comparison,
        Prec::Comparison => Prec::Term,
        Prec::Term => Prec::Factor,
        Prec::Factor => Prec::Unary,
        Prec::Unary => Prec::Call,
        Prec::Call => Prec::Primary,
        Prec::Primary => Prec::Primary,
    }
}

/// Where a parse left off: whether it succeeded, the position of the next
/// unconsumed token, and the chunk as built so far.
pub struct ParseOut {
    pub ok: bool,
    pub pos: int,
    pub cv: ChunkView,
}

/// `p` clamped into `[lo, hi]`; the parse functions advance into that range,
/// so on their results this is the identity.
pub open spec fn advanced_to(p: int, lo: int, hi: int) -> int {
    if p < lo {
        lo
    } else if p > hi {
        hi
    } else {
        p
    }
}

/// The chunk after a constant is written: the value joins the pool and the
/// narrowest load for its index is appended on `line`.
pub open spec fn sp_write_const(cv: ChunkView, v: Value, line: usize) -> ChunkView {
    ChunkView {
        code: cv.code + crate::chunk::const_load_encoding(cv.consts.len() as int),
        consts: cv.consts.push(v),
        lines: crate::chunk::spec_add_line(cv.lines, line, cv.code.len() as usize),
        source: cv.source,
    }
}

/// What a binary operator token emits: its own opcode, or the synthesized
/// pair for the operators without one (`!=` is equality then not, `<=`
/// greater then not, `>=` less then not).
pub open spec fn sp_emit_operator(cv: ChunkView, text: Seq<u8>, line: usize) -> ChunkView {
    if text == "+".spec_bytes() {
        spec_write_instr(cv, OpCode::Add, line)
    } else if text == "-".spec_bytes() {
        spec_write_instr(cv, OpCode::Subtract, line)
    } else if text == "*".spec_bytes() {
        spec_write_instr(cv, OpCode::Multiply, line)
    } else if text == "/".spec_bytes() {
        spec_write_instr(cv, OpCode::Divide, line)
    } else if text == "==".spec_bytes() {
        spec_write_instr(cv, OpCode::Equal, line)
    } else if text == "!=".spec_bytes() {
        spec_write_instr(spec_write_instr(cv, OpCode::Equal, line), OpCode::Not, line)
    } else if text == "<".spec_bytes() {
        spec_write_instr(cv, OpCode::Less, line)
    } else if text == "<=".spec_bytes() {
        spec_write_instr(spec_write_instr(cv, OpCode::Greater, line), OpCode::Not, line)
    } else if text == ">".spec_bytes() {
        spec_write_instr(cv, OpCode::Greater, line)
    } else {
        spec_write_instr(spec_write_instr(cv, OpCode::Less, line), OpCode::Not, line)
    }
}

/// The specification of [`Chunk::parse_precedence`] over the lexed token
/// descriptions: consume one token and apply its prefix rule, then fold the
/// infix operators binding at least as tightly as `min_prec`.
pub open spec fn sp_parse_precedence(
    src: Seq<u8>,
    infos: Seq<TokenInfo>,
    pos: int,
    min_prec: Prec,
    cv: ChunkView,
) -> ParseOut
    decreases infos.len() - pos, 0int,
    when 0 <= pos
{
    if pos >= infos.len() {
        ParseOut { ok: false, pos, cv }
    } else {
        match spec_get_rule(info_cat(src, infos[pos])).prefix {
            None => ParseOut { ok: false, pos: pos + 1, cv },
            Some(f) => {
                let r1 = sp_apply(src, infos, pos + 1, f, cv);
                if !r1.ok {
                    r1
                } else {
                    sp_infix(
                        src,
                        infos,
                        advanced_to(r1.pos, pos + 1, infos.len() as int),
                        min_prec,
                        r1.cv,
                    )
                }
            },
        }
    }
}

/// The infix half of [`sp_parse_precedence`]: while the next token's rule
/// binds at least as tightly as `min_prec`, consume it and apply its infix
/// handler.
pub open spec fn sp_infix(
    src: Seq<u8>,
    infos: Seq<TokenInfo>,
    pos: int,
    min_prec: Prec,
    cv: ChunkView,
) -> ParseOut
    decreases infos.len() - pos, 0int,
    when 0 <= pos
{
    if pos >= infos.len() {
        ParseOut { ok: true, pos, cv }
    } else {
        let rule2 = spec_get_rule(info_cat(src, infos[pos]));
        if prec_level(min_prec) <= prec_level(rule2.prec) {
            match rule2.infix {
                None => ParseOut { ok: false, pos: pos + 1, cv },
                Some(f) => {
                    let r = sp_apply(src, infos, pos + 1, f, cv);
                    if !r.ok {
                        r
                    } else {
                        sp_infix(
                            src,
                            infos,
                            advanced_to(r.pos, pos + 1, infos.len() as int),
                            min_prec,
                            r.cv,
                        )
                    }
                },
            }
        } else {
            ParseOut { ok: true, pos, cv }
        }
    }
}

/// The specification of one parse handler, applied just after its token (the
/// one at `pos - 1`) was consumed: what it emits and where it leaves the
/// cursor.
pub open spec fn sp_apply(
    src: Seq<u8>,
    infos: Seq<TokenInfo>,
    pos: int,
    f: ParseFn,
    cv: ChunkView,
) -> ParseOut
    decreases infos.len() - pos, 1int,
    when 0 <= pos
{
    if pos < 1 || pos > infos.len() {
        ParseOut { ok: false, pos, cv }
    } else {
        let prev = infos[pos - 1];
        let text = info_text(src, prev);
        let line1 = (prev.line + 1) as usize;
        match f {
            ParseFn::Number => {
                if text.len() < 0x8000_0000 && crate::float::number_bits_of(text) is Some {
                    ParseOut {
                        ok: true,
                        pos,
                        cv: sp_write_const(cv, Value::Number(num_bits_or_zero(text)), line1),
                    }
                } else {
                    ParseOut { ok: false, pos, cv }
                }
            },
            ParseFn::Literal => {
                let op = if text == "true".spec_bytes() {
                    OpCode::True
                } else if text == "false".spec_bytes() {
                    OpCode::False
                } else {
                    OpCode::Nil
                };
                ParseOut { ok: true, pos, cv: spec_write_instr(cv, op, line1) }
            },
            ParseFn::Grouping => {
                let r = sp_parse_precedence(src, infos, pos, Prec::Assignment, cv);
                if !r.ok {
                    r
                } else if 0 <= r.pos < infos.len() && infos[r.pos].kind == TokenKind::Brace
                    && info_text(src, infos[r.pos]) == ")".spec_bytes() {
                    ParseOut { ok: true, pos: r.pos + 1, cv: r.cv }
                } else {
                    ParseOut { ok: false, pos: r.pos, cv: r.cv }
                }
            },
            ParseFn::Unary => {
                let r = sp_parse_precedence(src, infos, pos, Prec::Unary, cv);
                if !r.ok {
                    r
                } else {
                    let op = if text == "-".spec_bytes() {
                        OpCode::Negate
                    } else {
                        OpCode::Not
                    };
                    ParseOut { ok: true, pos: r.pos, cv: spec_write_instr(r.cv, op, line1) }
                }
            },
            ParseFn::Binary => {
                let rule = spec_get_rule(spec_categorize(prev.kind, text));
                let r = sp_parse_precedence(src, infos, pos, spec_prec_next(rule.prec), cv);
                if !r.ok {
                    r
                } else {
                    ParseOut { ok: true, pos: r.pos, cv: sp_emit_operator(r.cv, text, line1) }
                }
            },
        }
    }
}

/// The specification of [`compile`]'s loop: parse expressions until the
/// tokens run out, from position `pos` over the chunk built so far.
pub open spec fn sp_compile(src: Seq<u8>, infos: Seq<TokenInfo>, pos: int, cv: ChunkView) -> ParseOut
    decreases infos.len() - pos, 1int,
    when 0 <= pos
{
    if pos >= infos.len() {
        ParseOut { ok: true, pos, cv }
    } else {
        let r = sp_parse_precedence(src, infos, pos, Prec::Assignment, cv);
        if !r.ok {
            r
        } else {
            sp_compile(src, infos, advanced_to(r.pos, pos + 1, infos.len() as int), r.cv)
        }
    }
}

/// The empty chunk a compilation starts from.
pub open spec fn sp_empty_chunk() -> ChunkView {
    ChunkView {
        code: Seq::empty(),
        consts: Seq::empty(),
        lines: Seq::empty(),
        source: Seq::empty(),
    }
}

/// What compiling `src` builds: whether it succeeds, and the instruction
/// stream, constant pool, and line table of the chunk (the source text is
/// attached afterwards).
pub open spec fn spec_compiled(src: Seq<u8>) -> ParseOut {
    sp_compile(src, spec_lex(src, 0), 0, sp_empty_chunk())
}

/// The category of `t`.
pub fn categorize(t: &Token) -> (c: HashToken)
    ensures
        c == spec_categorize(t.kind, t.text@),
{
    match t.kind {
        TokenKind::Brace => if bytes_eq(t.text.as_slice(), "(".as_bytes()) {
            HashToken::LeftParen
        } else {
            HashToken::Other
        },
        TokenKind::Operator => {
            if bytes_eq(t.text.as_slice(), "-".as_bytes()) {
                HashToken::Minus
            } else if bytes_eq(t.text.as_slice(), "+".as_bytes()) {
                HashToken::Plus
            } else if bytes_eq(t.text.as_slice(), "*".as_bytes()) || bytes_eq(
                t.text.as_slice(),
                "/".as_bytes(),
            ) {
                HashToken::Factor
            } else if bytes_eq(t.text.as_slice(), "!".as_bytes()) {
                HashToken::Bang
            } else if bytes_eq(t.text.as_slice(), "==".as_bytes()) || bytes_eq(
                t.text.as_slice(),
                "!=".as_bytes(),
            ) {
                HashToken::Equality
            } else if bytes_eq(t.text.as_slice(), "<".as_bytes()) || bytes_eq(
                t.text.as_slice(),
                "<=".as_bytes(),
            ) || bytes_eq(t.text.as_slice(), ">".as_bytes()) || bytes_eq(
                t.text.as_slice(),
                ">=".as_bytes(),
            ) {
                HashToken::Comparison
            } else {
                HashToken::Other
            }
        },
        TokenKind::NumLit => HashToken::Number,
        TokenKind::Keyword => if bytes_eq(t.text.as_slice(), "true".as_bytes()) || bytes_eq(
            t.text.as_slice(),
            "false".as_bytes(),
        ) || bytes_eq(t.text.as_slice(), "nil".as_bytes()) {
            HashToken::Literal
        } else {
            HashToken::Other
        },
        _ => HashToken::Other,
    }
}

/// The table row of a category.
pub fn get_rule(t: HashToken) -> (r: ParseRule)
    ensures
        r == spec_get_rule(t),
{
    match t {
        HashToken::LeftParen => ParseRule {
            prefix: Some(ParseFn::Grouping),
            infix: None,
            prec: Prec::Lowest,
        },
        HashToken::Minus => ParseRule {
            prefix: Some(ParseFn::Unary),
            infix: Some(ParseFn::Binary),
            prec: Prec::Term,
        },
        HashToken::Plus => ParseRule {
            prefix: None,
            infix: Some(ParseFn::Binary),
            prec: Prec::Term,
        },
        HashToken::Factor => ParseRule {
            prefix: None,
            infix: Some(ParseFn::Binary),
            prec: Prec::Factor,
        },
        HashToken::Bang => ParseRule { prefix: Some(ParseFn::Unary), infix: None, prec: Prec::Lowest },
        HashToken::Number => ParseRule {
            prefix: Some(ParseFn::Number),
            infix: None,
            prec: Prec::Lowest,
        },
        HashToken::Literal => ParseRule {
            prefix: Some(ParseFn::Literal),
            infix: None,
            prec: Prec::Lowest,
        },
        HashToken::Equality => ParseRule {
            prefix: None,
            infix: Some(ParseFn::Binary),
            prec: Prec::Equality,
        },
        HashToken::Comparison => ParseRule {
            prefix: None,
            infix: Some(ParseFn::Binary),
            prec: Prec::Comparison,
        },
        HashToken::Other => ParseRule { prefix: None, infix: None, prec: Prec::Lowest },
    }
}

/// The handler a rule offers in the given position.
pub fn rule_fn(rule: &ParseRule, ty: RuleType) -> (f: Option<ParseFn>)
    ensures
        f == match ty {
            RuleType::Prefix => rule.prefix,
            RuleType::Infix => rule.infix,
        },
{
    match ty {
        RuleType::Prefix => rule.prefix,
        RuleType::Infix => rule.infix,
    }
}

/// The token cursor the parser drives: the lexed tokens, the position of the
/// next one, and the source text errors point into; beside them, the
/// mathematical description of the same tokens (the source bytes and the
/// spans [`spec_lex`] found), which the contracts speak of.
pub struct Parser {
    pub tokens: Vec<Token>,
    pub pos: usize,
    pub source: String,
    pub src_bytes: Ghost<Seq<u8>>,
    pub infos: Ghost<Seq<TokenInfo>>,
}

/// The cursor is inside the token list, every token is the one its
/// description names over the source bytes, and every token's line leaves
/// room for the 1-based line the chunk records.
pub open spec fn parser_wf(p: Parser) -> bool {
    &&& p.pos <= p.tokens@.len()
    &&& p.tokens@.len() == p.infos@.len()
    &&& forall|i: int|
        0 <= i < p.tokens@.len() ==> token_matches(#[trigger] p.tokens@[i], p.infos@[i], p.src_bytes@)
    &&& forall|i: int| 0 <= i < p.tokens@.len() ==> (#[trigger] p.tokens@[i]).line < usize::MAX
}

/// The category of the token the parser consumed most recently.
pub open spec fn prev_cat(p: Parser) -> HashToken {
    spec_categorize(p.tokens@[p.pos - 1].kind, p.tokens@[p.pos - 1].text@)
}

/// The parser moved only forward over the same tokens and source.
pub open spec fn parser_advanced(p0: Parser, p1: Parser) -> bool {
    &&& p1.tokens@ == p0.tokens@
    &&& p1.source@ == p0.source@
    &&& p1.src_bytes == p0.src_bytes
    &&& p1.infos == p0.infos
    &&& p0.pos <= p1.pos <= p0.tokens@.len()
}

/// The chunk only grew: the old instruction stream and constant pool are
/// prefixes of the new ones, and the result is well formed.
pub open spec fn chunk_extended(c0: ChunkView, c1: ChunkView) -> bool {
    &&& c0.code.is_prefix_of(c1.code)
    &&& c0.consts.is_prefix_of(c1.consts)
    &&& c1.source == c0.source
    &&& chunk_wf(c1)
}

/// Being a prefix carries across a middle sequence.
pub proof fn lemma_prefix_trans<T>(a: Seq<T>, b: Seq<T>, c: Seq<T>)
    requires
        a.is_prefix_of(b),
        b.is_prefix_of(c),
    ensures
        a.is_prefix_of(c),
{
    assert(a =~= c.subrange(0, a.len() as int));
}

/// The number a literal's text denotes; a text the number parser rejects
/// stands as a zero pattern (a successful compilation never leaves one).
pub open spec fn num_bits_or_zero(text: Seq<u8>) -> u64 {
    match crate::float::number_bits_of(text) {
        Some(b) => b,
        None => 0,
    }
}

/// The constants the numeric literals among tokens `[a, b)` put into the
/// pool, in order.
pub open spec fn numlit_consts(toks: Seq<Token>, a: int, b: int) -> Seq<Value>
    decreases b - a,
{
    if a < 0 || a >= b || b > toks.len() {
        Seq::empty()
    } else {
        (if toks[a].kind == TokenKind::NumLit {
            seq![Value::Number(num_bits_or_zero(toks[a].text@))]
        } else {
            Seq::<Value>::empty()
        }) + numlit_consts(toks, a + 1, b)
    }
}

/// The literals of a token range split at any point within it.
pub proof fn lemma_numlit_consts_split(toks: Seq<Token>, a: int, b: int, c: int)
    requires
        0 <= a <= b <= c <= toks.len(),
    ensures
        numlit_consts(toks, a, c) == numlit_consts(toks, a, b) + numlit_consts(toks, b, c),
    decreases b - a,
{
    if a < b {
        lemma_numlit_consts_split(toks, a + 1, b, c);
    }
    assert(numlit_consts(toks, a, c) =~= numlit_consts(toks, a, b) + numlit_consts(toks, b, c));
}

/// The constants the numeric literals among the lexed tokens from index `i`
/// on put into the pool, with each literal's text read from its span.
pub open spec fn pool_of_infos(src: Seq<u8>, infos: Seq<crate::lexer::TokenInfo>, i: int) -> Seq<
    Value,
>
    decreases infos.len() - i,
{
    if i < 0 || i >= infos.len() {
        Seq::empty()
    } else {
        (if infos[i].kind == TokenKind::NumLit {
            seq![
                Value::Number(num_bits_or_zero(src.subrange(infos[i].start, infos[i].end))),
            ]
        } else {
            Seq::<Value>::empty()
        }) + pool_of_infos(src, infos, i + 1)
    }
}

/// The constant pool a compilation of `src` builds: one entry per numeric
/// literal of the token stream, in source order.
pub open spec fn spec_pool(src: Seq<u8>) -> Seq<Value> {
    pool_of_infos(src, spec_lex(src, 0), 0)
}

/// Tokens that match the lexed descriptions put the same constants in the
/// pool as the descriptions themselves.
proof fn lemma_pool_of_matching_tokens(
    src: Seq<u8>,
    toks: Seq<Token>,
    infos: Seq<crate::lexer::TokenInfo>,
    i: int,
)
    requires
        toks.len() == infos.len(),
        0 <= i <= toks.len(),
        forall|j: int| 0 <= j < toks.len() ==> token_matches(#[trigger] toks[j], infos[j], src),
    ensures
        numlit_consts(toks, i, toks.len() as int) == pool_of_infos(src, infos, i),
    decreases toks.len() - i,
{
    if i < toks.len() {
        lemma_pool_of_matching_tokens(src, toks, infos, i + 1);
    }
    assert(numlit_consts(toks, i, toks.len() as int) =~= pool_of_infos(src, infos, i));
}

/// A single plain (operand-free) instruction appended to a stream decodes at
/// its own offset.
proof fn lemma_plain_instr_decodes(c: Seq<u8>, c2: Seq<u8>, op: OpCode, k: int)
    requires
        !is_const_load(op),
        c2 == c.push(opcode_byte(op)),
    ensures
        code_decodes(c2, k, c.len() as int),
{
    assert(c2[c.len() as int] == opcode_byte(op));
    assert(byte_to_opcode(opcode_byte(op)) == Some(op));
    assert(code_decodes(c2, k, c.len() as int + 1));
}

/// A constant load appended with the narrowest encoding of pool index `h`
/// decodes at its own offset against a pool one longer: the recovered
/// operand never points past the new pool.
proof fn lemma_const_load_decodes(c: Seq<u8>, c2: Seq<u8>, h: int)
    requires
        0 <= h,
        c2 == c + crate::chunk::const_load_encoding(h),
    ensures
        code_decodes(c2, h + 1, c.len() as int),
{
    let ll = c.len() as int;
    let e = crate::chunk::const_load_encoding(h);
    let n: int = if h <= 255 {
        1
    } else if h <= 65535 {
        2
    } else {
        3
    };
    crate::chunk::lemma_const_load_recovers_index(h);
    assert forall|j: int| 0 <= j < n implies c2[ll + 1 + j] == #[trigger] e[1 + j] by {}
    crate::chunk::lemma_be_value_offset(c2, e, ll, 1, n);
    assert(c2[ll] == e[0]);
    if h > 65535 {
        vstd::arithmetic::div_mod::lemma_mod_decreases(h as nat, 0x1000000nat);
    }
    assert(code_decodes(c2, h + 1, ll + n + 1));
}

impl Parser {
    /// Whether every token has been consumed.
    pub fn is_empty(&self) -> (r: bool)
        requires
            parser_wf(*self),
        ensures
            r == (self.pos == self.tokens@.len()),
    {
        self.pos >= self.tokens.len()
    }

    /// Consumes one token.
    fn advance(&mut self)
        requires
            parser_wf(*old(self)),
            old(self).pos < old(self).tokens@.len(),
        ensures
            final(self).pos == old(self).pos + 1,
            final(self).tokens == old(self).tokens,
            final(self).source == old(self).source,
            final(self).src_bytes == old(self).src_bytes,
            final(self).infos == old(self).infos,
            parser_wf(*final(self)),
    {
        let n = self.tokens.len();
        proof {
            assert(self.pos < n);
        }
        self.pos = self.pos + 1;
    }

    /// The token consumed most recently.
    fn prev(&self) -> (t: &Token)
        requires
            0 < self.pos <= self.tokens@.len(),
        ensures
            *t == self.tokens@[self.pos - 1],
    {
        &self.tokens[self.pos - 1]
    }

    /// The span of the token consumed most recently.
    fn prev_span(&self) -> (s: Option<Span>)
        requires
            self.pos <= self.tokens@.len(),
        ensures
            s == if self.pos > 0 {
                Some(
                    Span {
                        start: self.tokens@[self.pos - 1].start,
                        end: self.tokens@[self.pos - 1].end,
                        line: self.tokens@[self.pos - 1].line,
                    },
                )
            } else {
                None::<Span>
            },
    {
        if self.pos > 0 {
            let t = &self.tokens[self.pos - 1];
            Some(Span { start: t.start, end: t.end, line: t.line })
        } else {
            None
        }
    }

    /// A compile error anchored at the given span of this parser's source.
    fn error(&self, message: &str, span: Option<Span>) -> (e: CompileError)
        ensures
            e.message@ == message@,
            e.source@ == self.source@,
            e.span == span,
    {
        CompileError { message: message.to_owned(), source: self.source.clone(), span }
    }
}

impl Chunk {
    /// Appends the opcode, on the 1-based form of the token's line.
    fn emit_instr(&mut self, op: OpCode, line: usize)
        requires
            chunk_wf(old(self)@),
            line < usize::MAX,
            !is_const_load(op),
        ensures
            final(self)@ == spec_write_instr(old(self)@, op, (line + 1) as usize),
            chunk_extended(old(self)@, final(self)@),
            old(self)@.code.len() < final(self)@.code.len(),
            chunk_decodes(old(self)@) ==> chunk_decodes(final(self)@),
    {
        self.write_instr(op, line + 1);
        proof {
            assert(old(self)@.code.is_prefix_of(final(self)@.code)) by {
                assert(old(self)@.code =~= final(self)@.code.subrange(
                    0,
                    old(self)@.code.len() as int,
                ));
            }
            if chunk_decodes(old(self)@) {
                lemma_plain_instr_decodes(old(self)@.code, self@.code, op, self@.consts.len() as int);
                lemma_code_decodes_extend(
                    old(self)@.code,
                    self@.code,
                    old(self)@.consts.len() as int,
                    self@.consts.len() as int,
                    0,
                );
            }
        }
    }

    /// Appends the two opcodes of a synthesized operator pair, on the
    /// 1-based form of the token's line.
    fn emit_pair(&mut self, first: OpCode, second: OpCode, line: usize)
        requires
            chunk_wf(old(self)@),
            line < usize::MAX,
            !is_const_load(first),
            !is_const_load(second),
        ensures
            final(self)@ == spec_write_instr(
                spec_write_instr(old(self)@, first, (line + 1) as usize),
                second,
                (line + 1) as usize,
            ),
            chunk_extended(old(self)@, final(self)@),
            old(self)@.code.len() < final(self)@.code.len(),
            chunk_decodes(old(self)@) ==> chunk_decodes(final(self)@),
    {
        self.write_instr(first, line + 1);
        let ghost mid = self@;
        self.write_instr(second, line + 1);
        proof {
            assert(old(self)@.code.is_prefix_of(final(self)@.code)) by {
                assert(old(self)@.code =~= final(self)@.code.subrange(
                    0,
                    old(self)@.code.len() as int,
                ));
            }
            if chunk_decodes(old(self)@) {
                lemma_plain_instr_decodes(old(self)@.code, mid.code, first, mid.consts.len() as int);
                lemma_code_decodes_extend(
                    old(self)@.code,
                    mid.code,
                    old(self)@.consts.len() as int,
                    mid.consts.len() as int,
                    0,
                );
                assert(mid.code.is_prefix_of(self@.code)) by {
                    assert(mid.code =~= self@.code.subrange(0, mid.code.len() as int));
                }
                lemma_plain_instr_decodes(mid.code, self@.code, second, self@.consts.len() as int);
                lemma_code_decodes_extend(
                    mid.code,
                    self@.code,
                    mid.consts.len() as int,
                    self@.consts.len() as int,
                    0,
                );
            }
        }
    }

    /// Adds `value` to the constant pool and emits its load, on the 1-based
    /// form of the token's line.
    fn emit_const(&mut self, value: Value, line: usize)
        requires
            chunk_wf(old(self)@),
            line < usize::MAX,
        ensures
            final(self)@ == sp_write_const(old(self)@, value, (line + 1) as usize),
            final(self)@.consts == old(self)@.consts.push(value),
            chunk_extended(old(self)@, final(self)@),
            old(self)@.code.len() < final(self)@.code.len(),
            chunk_decodes(old(self)@) ==> chunk_decodes(final(self)@),
    {
        self.write_const(value, line + 1);
        proof {
            assert(old(self)@.code.is_prefix_of(final(self)@.code)) by {
                assert(old(self)@.code =~= final(self)@.code.subrange(
                    0,
                    old(self)@.code.len() as int,
                ));
            }
            assert(old(self)@.consts.is_prefix_of(final(self)@.consts)) by {
                assert(old(self)@.consts =~= final(self)@.consts.subrange(
                    0,
                    old(self)@.consts.len() as int,
                ));
            }
            if chunk_decodes(old(self)@) {
                lemma_const_load_decodes(old(self)@.code, self@.code, old(self)@.consts.len() as int);
                lemma_code_decodes_extend(
                    old(self)@.code,
                    self@.code,
                    old(self)@.consts.len() as int,
                    self@.consts.len() as int,
                    0,
                );
            }
        }
    }

    /// Parses one expression: the whole precedence scale from assignment up.
    #[verifier::loop_isolation(false)]
    fn expression(&mut self, p: &mut Parser) -> (r: Result<(), CompileError>)
        requires
            parser_wf(*old(p)),
            chunk_wf(old(self)@),
        ensures
            parser_wf(*final(p)),
            parser_advanced(*old(p), *final(p)),
            chunk_extended(old(self)@, final(self)@),
            r is Ok ==> old(p).pos < final(p).pos,
            r is Err ==> r->Err_0.source@ == old(p).source@,
            r is Ok ==> old(self)@.code.len() < final(self)@.code.len(),
            r is Ok ==> final(self)@.consts == old(self)@.consts + numlit_consts(
                old(p).tokens@,
                old(p).pos as int,
                final(p).pos as int,
            ),
            chunk_decodes(old(self)@) ==> chunk_decodes(final(self)@),
            ({
                let out = sp_parse_precedence(
                    old(p).src_bytes@,
                    old(p).infos@,
                    old(p).pos as int,
                    Prec::Assignment,
                    old(self)@,
                );
                &&& (r is Ok <==> out.ok)
                &&& out.ok ==> final(p).pos == out.pos && final(self)@ == out.cv
            }),
        decreases old(p).tokens@.len() - old(p).pos, 1int,
    {
        self.parse_precedence(p, Prec::Assignment)
    }

    /// The core algorithm: consume one token and apply its prefix rule, then
    /// keep consuming operators whose precedence binds at least as tightly as
    /// `min_prec`, applying their infix rules.
    #[verifier::loop_isolation(false)]
    #[verifier::rlimit(30)]
    fn parse_precedence(&mut self, p: &mut Parser, min_prec: Prec) -> (r: Result<
        (),
        CompileError,
    >)
        requires
            parser_wf(*old(p)),
            chunk_wf(old(self)@),
        ensures
            parser_wf(*final(p)),
            parser_advanced(*old(p), *final(p)),
            chunk_extended(old(self)@, final(self)@),
            r is Ok ==> old(p).pos < final(p).pos,
            r is Err ==> r->Err_0.source@ == old(p).source@,
            old(p).pos == old(p).tokens@.len() ==> r is Err && r->Err_0.message@
                == "Expected expression."@ && r->Err_0.span == if old(p).pos > 0 {
                Some(info_span(old(p).infos@[old(p).pos - 1]))
            } else {
                None::<Span>
            },
            old(p).pos < old(p).tokens@.len() && spec_get_rule(
                info_cat(old(p).src_bytes@, old(p).infos@[old(p).pos as int]),
            ).prefix is None ==> r is Err && r->Err_0.message@ == "Expected expression."@
                && r->Err_0.span == Some(info_span(old(p).infos@[old(p).pos as int])),
            r is Ok ==> old(self)@.code.len() < final(self)@.code.len(),
            r is Ok ==> final(self)@.consts == old(self)@.consts + numlit_consts(
                old(p).tokens@,
                old(p).pos as int,
                final(p).pos as int,
            ),
            chunk_decodes(old(self)@) ==> chunk_decodes(final(self)@),
            ({
                let out = sp_parse_precedence(
                    old(p).src_bytes@,
                    old(p).infos@,
                    old(p).pos as int,
                    min_prec,
                    old(self)@,
                );
                &&& (r is Ok <==> out.ok)
                &&& out.ok ==> final(p).pos == out.pos && final(self)@ == out.cv
            }),
        decreases old(p).tokens@.len() - old(p).pos, 0int,
    {
        if p.is_empty() {
            proof {
                if old(p).pos > 0 {
                    assert(token_matches(
                        old(p).tokens@[old(p).pos - 1],
                        old(p).infos@[old(p).pos - 1],
                        old(p).src_bytes@,
                    ));
                }
            }
            let span = p.prev_span();
            return Err(p.error("Expected expression.", span));
        }
        proof {
            assert(token_matches(
                old(p).tokens@[old(p).pos as int],
                old(p).infos@[old(p).pos as int],
                old(p).src_bytes@,
            ));
        }
        p.advance();
        let (cat, span) = {
            let prev = p.prev();
            (categorize(prev), Span { start: prev.start, end: prev.end, line: prev.line })
        };
        let rule = get_rule(cat);
        match rule_fn(&rule, RuleType::Prefix) {
            None => {
                return Err(p.error("Expected expression.", Some(span)));
            },
            Some(f) => {
                self.apply_rule(p, f)?;
            },
        }
        proof {
            assert(advanced_to(
                p.pos as int,
                old(p).pos + 1,
                old(p).tokens@.len() as int,
            ) == p.pos as int);
        }
        loop
            invariant
                parser_wf(*p),
                p.tokens@ == old(p).tokens@,
                p.source@ == old(p).source@,
                p.src_bytes == old(p).src_bytes,
                p.infos == old(p).infos,
                old(p).pos < p.pos <= p.tokens@.len(),
                chunk_wf(self@),
                chunk_extended(old(self)@, self@),
                chunk_decodes(old(self)@) ==> chunk_decodes(self@),
                old(self)@.code.len() < self@.code.len(),
                self@.consts == old(self)@.consts + numlit_consts(
                    old(p).tokens@,
                    old(p).pos as int,
                    p.pos as int,
                ),
                sp_parse_precedence(
                    old(p).src_bytes@,
                    old(p).infos@,
                    old(p).pos as int,
                    min_prec,
                    old(self)@,
                ) == sp_infix(old(p).src_bytes@, old(p).infos@, p.pos as int, min_prec, self@),
            decreases p.tokens@.len() - p.pos,
        {
            if p.is_empty() {
                return Ok(());
            }
            proof {
                assert(token_matches(
                    p.tokens@[p.pos as int],
                    p.infos@[p.pos as int],
                    p.src_bytes@,
                ));
            }
            let (cat2, span2) = {
                let cur = &p.tokens[p.pos];
                (categorize(cur), Span { start: cur.start, end: cur.end, line: cur.line })
            };
            let rule2 = get_rule(cat2);
            if min_prec.level() <= rule2.prec.level() {
                let ghost q = p.pos as int;
                p.advance();
                let ghost c_mid = self@;
                match rule_fn(&rule2, RuleType::Infix) {
                    None => {
                        return Err(p.error("Expected expression.", Some(span2)));
                    },
                    Some(f) => {
                        self.apply_rule(p, f)?;
                        proof {
                            lemma_prefix_trans(old(self)@.code, c_mid.code, self@.code);
                            lemma_prefix_trans(old(self)@.consts, c_mid.consts, self@.consts);
                            lemma_numlit_consts_split(
                                old(p).tokens@,
                                old(p).pos as int,
                                q,
                                p.pos as int,
                            );
                            assert(self@.consts =~= old(self)@.consts + numlit_consts(
                                old(p).tokens@,
                                old(p).pos as int,
                                p.pos as int,
                            ));
                            assert(advanced_to(
                                p.pos as int,
                                q + 1,
                                old(p).tokens@.len() as int,
                            ) == p.pos as int);
                        }
                    },
                }
            } else {
                return Ok(());
            }
        }
    }

    /// Resolves a table entry to its handler and runs it.
    fn apply_rule(&mut self, p: &mut Parser, f: ParseFn) -> (r: Result<(), CompileError>)
        requires
            parser_wf(*old(p)),
            chunk_wf(old(self)@),
            0 < old(p).pos,
            spec_get_rule(prev_cat(*old(p))).prefix == Some(f) || spec_get_rule(
                prev_cat(*old(p)),
            ).infix == Some(f),
        ensures
            parser_wf(*final(p)),
            parser_advanced(*old(p), *final(p)),
            chunk_extended(old(self)@, final(self)@),
            r is Err ==> r->Err_0.source@ == old(p).source@,
            r is Ok ==> old(self)@.code.len() < final(self)@.code.len(),
            r is Ok ==> final(self)@.consts == old(self)@.consts + numlit_consts(
                old(p).tokens@,
                old(p).pos - 1,
                final(p).pos as int,
            ),
            chunk_decodes(old(self)@) ==> chunk_decodes(final(self)@),
            ({
                let out = sp_apply(
                    old(p).src_bytes@,
                    old(p).infos@,
                    old(p).pos as int,
                    f,
                    old(self)@,
                );
                &&& (r is Ok <==> out.ok)
                &&& out.ok ==> final(p).pos == out.pos && final(self)@ == out.cv
            }),
        decreases old(p).tokens@.len() - old(p).pos, 3int,
    {
        match f {
            ParseFn::Number => self.number(p),
            ParseFn::Grouping => self.grouping(p),
            ParseFn::Unary => self.unary(p),
            ParseFn::Binary => self.binary(p),
            ParseFn::Literal => self.literal(p),
        }
    }

    /// A numeric literal: parse the consumed lexeme and emit a constant load.
    fn number(&mut self, p: &mut Parser) -> (r: Result<(), CompileError>)
        requires
            parser_wf(*old(p)),
            chunk_wf(old(self)@),
            0 < old(p).pos,
            prev_cat(*old(p)) == HashToken::Number,
        ensures
            parser_wf(*final(p)),
            parser_advanced(*old(p), *final(p)),
            chunk_extended(old(self)@, final(self)@),
            r is Err ==> r->Err_0.source@ == old(p).source@,
            r is Ok ==> old(self)@.code.len() < final(self)@.code.len(),
            r is Ok ==> final(self)@.consts == old(self)@.consts + numlit_consts(
                old(p).tokens@,
                old(p).pos - 1,
                final(p).pos as int,
            ),
            r is Err <==> (crate::float::number_bits_of(
                old(p).tokens@[old(p).pos - 1].text@,
            ) is None || old(p).tokens@[old(p).pos - 1].text@.len() >= 0x8000_0000),
            chunk_decodes(old(self)@) ==> chunk_decodes(final(self)@),
            ({
                let out = sp_apply(
                    old(p).src_bytes@,
                    old(p).infos@,
                    old(p).pos as int,
                    ParseFn::Number,
                    old(self)@,
                );
                &&& (r is Ok <==> out.ok)
                &&& out.ok ==> final(p).pos == out.pos && final(self)@ == out.cv
            }),
        decreases old(p).tokens@.len() - old(p).pos, 2int,
    {
        proof {
            assert(token_matches(
                old(p).tokens@[old(p).pos - 1],
                old(p).infos@[old(p).pos - 1],
                old(p).src_bytes@,
            ));
        }
        let (bits, span) = {
            let token = p.prev();
            let bits = if token.text.len() < 0x8000_0000 {
                parse_number_bits(token.text.as_slice())
            } else {
                // A literal too long for the number parser's offsets.
                None
            };
            (bits, Span { start: token.start, end: token.end, line: token.line })
        };
        match bits {
            Some(b) => {
                self.emit_const(Value::Number(b), span.line);
                proof {
                    let toks = old(p).tokens@;
                    let a = old(p).pos - 1;
                    assert(toks[a].kind == TokenKind::NumLit);
                    assert(numlit_consts(toks, a + 1, a + 1) == Seq::<Value>::empty());
                    assert(numlit_consts(toks, a, a + 1) =~= seq![
                        Value::Number(num_bits_or_zero(toks[a].text@)),
                    ]);
                    assert(self@.consts =~= old(self)@.consts + numlit_consts(toks, a, a + 1));
                }
                Ok(())
            },
            None => Err(p.error("invalid float literal", Some(span))),
        }
    }

    /// A parenthesized group: parse the inner expression and require the
    /// matching closing parenthesis.
    fn grouping(&mut self, p: &mut Parser) -> (r: Result<(), CompileError>)
        requires
            parser_wf(*old(p)),
            chunk_wf(old(self)@),
            0 < old(p).pos,
            prev_cat(*old(p)) == HashToken::LeftParen,
        ensures
            parser_wf(*final(p)),
            parser_advanced(*old(p), *final(p)),
            chunk_extended(old(self)@, final(self)@),
            r is Err ==> r->Err_0.source@ == old(p).source@,
            r is Ok ==> old(self)@.code.len() < final(self)@.code.len(),
            r is Ok ==> final(self)@.consts == old(self)@.consts + numlit_consts(
                old(p).tokens@,
                old(p).pos - 1,
                final(p).pos as int,
            ),
            chunk_decodes(old(self)@) ==> chunk_decodes(final(self)@),
            ({
                let out = sp_apply(
                    old(p).src_bytes@,
                    old(p).infos@,
                    old(p).pos as int,
                    ParseFn::Grouping,
                    old(self)@,
                );
                &&& (r is Ok <==> out.ok)
                &&& out.ok ==> final(p).pos == out.pos && final(self)@ == out.cv
            }),
        decreases old(p).tokens@.len() - old(p).pos, 2int,
    {
        proof {
            assert(token_matches(
                old(p).tokens@[old(p).pos - 1],
                old(p).infos@[old(p).pos - 1],
                old(p).src_bytes@,
            ));
        }
        self.expression(p)?;
        let ghost p_mid = *p;
        if p.is_empty() {
            let span = p.prev_span();
            return Err(p.error("Expected `)`", span));
        }
        proof {
            assert(token_matches(p.tokens@[p.pos as int], p.infos@[p.pos as int], p.src_bytes@));
        }
        let (is_close, span) = {
            let cur = &p.tokens[p.pos];
            (
                matches!(cur.kind, TokenKind::Brace) && bytes_eq(
                    cur.text.as_slice(),
                    ")".as_bytes(),
                ),
                Span { start: cur.start, end: cur.end, line: cur.line },
            )
        };
        if !is_close {
            return Err(p.error("Expected `)`", Some(span)));
        }
        p.advance();
        proof {
            let toks = old(p).tokens@;
            let a = old(p).pos - 1;
            let m = old(p).pos as int;
            let e = p_mid.pos as int;
            assert(toks[a].kind == TokenKind::Brace);
            assert(toks[e].kind == TokenKind::Brace);
            lemma_numlit_consts_split(toks, a, m, e + 1);
            lemma_numlit_consts_split(toks, m, e, e + 1);
            assert(numlit_consts(toks, m, m) == Seq::<Value>::empty());
            assert(numlit_consts(toks, a, m) =~= Seq::<Value>::empty());
            assert(numlit_consts(toks, e + 1, e + 1) == Seq::<Value>::empty());
            assert(numlit_consts(toks, e, e + 1) =~= Seq::<Value>::empty());
            assert(self@.consts =~= old(self)@.consts + numlit_consts(toks, a, e + 1));
        }
        Ok(())
    }

    /// A unary operator: parse the operand at unary precedence, then emit the
    /// negation or the logical not.
    fn unary(&mut self, p: &mut Parser) -> (r: Result<(), CompileError>)
        requires
            parser_wf(*old(p)),
            chunk_wf(old(self)@),
            0 < old(p).pos,
            prev_cat(*old(p)) == HashToken::Minus || prev_cat(*old(p)) == HashToken::Bang,
        ensures
            parser_wf(*final(p)),
            parser_advanced(*old(p), *final(p)),
            chunk_extended(old(self)@, final(self)@),
            r is Err ==> r->Err_0.source@ == old(p).source@,
            r is Ok ==> old(self)@.code.len() < final(self)@.code.len(),
            r is Ok ==> final(self)@.consts == old(self)@.consts + numlit_consts(
                old(p).tokens@,
                old(p).pos - 1,
                final(p).pos as int,
            ),
            chunk_decodes(old(self)@) ==> chunk_decodes(final(self)@),
            ({
                let out = sp_apply(
                    old(p).src_bytes@,
                    old(p).infos@,
                    old(p).pos as int,
                    ParseFn::Unary,
                    old(self)@,
                );
                &&& (r is Ok <==> out.ok)
                &&& out.ok ==> final(p).pos == out.pos && final(self)@ == out.cv
            }),
        decreases old(p).tokens@.len() - old(p).pos, 2int,
    {
        proof {
            assert(token_matches(
                old(p).tokens@[old(p).pos - 1],
                old(p).infos@[old(p).pos - 1],
                old(p).src_bytes@,
            ));
        }
        let (is_minus, span) = {
            let prev = p.prev();
            (
                bytes_eq(prev.text.as_slice(), "-".as_bytes()),
                Span { start: prev.start, end: prev.end, line: prev.line },
            )
        };
        let ghost c0 = self@;
        self.parse_precedence(p, Prec::Unary)?;
        let ghost c_mid = self@;
        if is_minus {
            self.emit_instr(OpCode::Negate, span.line);
        } else {
            self.emit_instr(OpCode::Not, span.line);
        }
        proof {
            lemma_prefix_trans(c0.code, c_mid.code, self@.code);
            lemma_prefix_trans(c0.consts, c_mid.consts, self@.consts);
        }
        Ok(())
    }

    /// A binary operator: parse the right operand one precedence level up
    /// (left-associativity), then emit the operator's instruction; the
    /// operators without an opcode of their own become pairs (`!=` is
    /// equality then not, `<=` greater then not, `>=` less then not).
    fn binary(&mut self, p: &mut Parser) -> (r: Result<(), CompileError>)
        requires
            parser_wf(*old(p)),
            chunk_wf(old(self)@),
            0 < old(p).pos,
            spec_get_rule(prev_cat(*old(p))).infix == Some(ParseFn::Binary),
        ensures
            parser_wf(*final(p)),
            parser_advanced(*old(p), *final(p)),
            chunk_extended(old(self)@, final(self)@),
            r is Err ==> r->Err_0.source@ == old(p).source@,
            r is Ok ==> old(self)@.code.len() < final(self)@.code.len(),
            r is Ok ==> final(self)@.consts == old(self)@.consts + numlit_consts(
                old(p).tokens@,
                old(p).pos - 1,
                final(p).pos as int,
            ),
            chunk_decodes(old(self)@) ==> chunk_decodes(final(self)@),
            ({
                let out = sp_apply(
                    old(p).src_bytes@,
                    old(p).infos@,
                    old(p).pos as int,
                    ParseFn::Binary,
                    old(self)@,
                );
                &&& (r is Ok <==> out.ok)
                &&& out.ok ==> final(p).pos == out.pos && final(self)@ == out.cv
            }),
        decreases old(p).tokens@.len() - old(p).pos, 2int,
    {
        proof {
            assert(token_matches(
                old(p).tokens@[old(p).pos - 1],
                old(p).infos@[old(p).pos - 1],
                old(p).src_bytes@,
            ));
        }
        let (cat, pair, op1, op2, span) = {
            let prev = p.prev();
            let t = prev.text.as_slice();
            let (pair, op1, op2) = if bytes_eq(t, "+".as_bytes()) {
                (false, OpCode::Add, OpCode::Not)
            } else if bytes_eq(t, "-".as_bytes()) {
                (false, OpCode::Subtract, OpCode::Not)
            } else if bytes_eq(t, "*".as_bytes()) {
                (false, OpCode::Multiply, OpCode::Not)
            } else if bytes_eq(t, "/".as_bytes()) {
                (false, OpCode::Divide, OpCode::Not)
            } else if bytes_eq(t, "==".as_bytes()) {
                (false, OpCode::Equal, OpCode::Not)
            } else if bytes_eq(t, "!=".as_bytes()) {
                (true, OpCode::Equal, OpCode::Not)
            } else if bytes_eq(t, "<".as_bytes()) {
                (false, OpCode::Less, OpCode::Not)
            } else if bytes_eq(t, "<=".as_bytes()) {
                (true, OpCode::Greater, OpCode::Not)
            } else if bytes_eq(t, ">".as_bytes()) {
                (false, OpCode::Greater, OpCode::Not)
            } else {
                proof {
                    assert(prev.text@ == ">=".spec_bytes());
                }
                (true, OpCode::Less, OpCode::Not)
            };
            (
                categorize(prev),
                pair,
                op1,
                op2,
                Span { start: prev.start, end: prev.end, line: prev.line },
            )
        };
        let rule = get_rule(cat);
        let ghost c0 = self@;
        self.parse_precedence(p, rule.prec.next())?;
        let ghost c_mid = self@;
        if pair {
            self.emit_pair(op1, op2, span.line);
        } else {
            self.emit_instr(op1, span.line);
        }
        proof {
            lemma_prefix_trans(c0.code, c_mid.code, self@.code);
            lemma_prefix_trans(c0.consts, c_mid.consts, self@.consts);
        }
        Ok(())
    }

    /// A literal keyword: emit the matching instruction directly.
    fn literal(&mut self, p: &mut Parser) -> (r: Result<(), CompileError>)
        requires
            parser_wf(*old(p)),
            chunk_wf(old(self)@),
            0 < old(p).pos,
            prev_cat(*old(p)) == HashToken::Literal,
        ensures
            parser_wf(*final(p)),
            parser_advanced(*old(p), *final(p)),
            chunk_extended(old(self)@, final(self)@),
            r is Err ==> r->Err_0.source@ == old(p).source@,
            r is Ok ==> old(self)@.code.len() < final(self)@.code.len(),
            r is Ok ==> final(self)@.consts == old(self)@.consts + numlit_consts(
                old(p).tokens@,
                old(p).pos - 1,
                final(p).pos as int,
            ),
            chunk_decodes(old(self)@) ==> chunk_decodes(final(self)@),
            ({
                let out = sp_apply(
                    old(p).src_bytes@,
                    old(p).infos@,
                    old(p).pos as int,
                    ParseFn::Literal,
                    old(self)@,
                );
                &&& (r is Ok <==> out.ok)
                &&& out.ok ==> final(p).pos == out.pos && final(self)@ == out.cv
            }),
        decreases old(p).tokens@.len() - old(p).pos, 2int,
    {
        proof {
            assert(token_matches(
                old(p).tokens@[old(p).pos - 1],
                old(p).infos@[old(p).pos - 1],
                old(p).src_bytes@,
            ));
        }
        let (op, line) = {
            let prev = p.prev();
            let op = if bytes_eq(prev.text.as_slice(), "true".as_bytes()) {
                OpCode::True
            } else if bytes_eq(prev.text.as_slice(), "false".as_bytes()) {
                OpCode::False
            } else {
                proof {
                    assert(prev.text@ == "nil".spec_bytes());
                }
                OpCode::Nil
            };
            (op, prev.line)
        };
        self.emit_instr(op, line);
        proof {
            let toks = old(p).tokens@;
            let a = old(p).pos - 1;
            assert(toks[a].kind == TokenKind::Keyword);
            assert(numlit_consts(toks, a + 1, a + 1) == Seq::<Value>::empty());
            assert(numlit_consts(toks, a, a + 1) =~= Seq::<Value>::empty());
            assert(self@.consts =~= old(self)@.consts + numlit_consts(toks, a, a + 1));
        }
        Ok(())
    }
}

/// Compiles `src`: lexes it, parses expressions until the tokens run out,
/// and hands back the completed chunk carrying the source, or the first
/// error. A source with no tokens compiles to an empty chunk.
#[verifier::loop_isolation(false)]
pub fn compile(src: &str) -> (r: Result<Chunk, CompileError>)
    ensures
        match r {
            Ok(c) => {
                &&& chunk_wf(c@)
                &&& c@.source == src@
                &&& c@.code == spec_compiled(src.spec_bytes()).cv.code
                &&& c@.consts == spec_compiled(src.spec_bytes()).cv.consts
                &&& c@.lines == spec_compiled(src.spec_bytes()).cv.lines
                &&& c@.consts == spec_pool(src.spec_bytes())
                &&& chunk_decodes(c@)
                &&& (c@.code.len() == 0 <==> spec_lex(src.spec_bytes(), 0).len() == 0)
            },
            Err(e) => e.source@ == src@,
        },
        r is Ok <==> spec_compiled(src.spec_bytes()).ok,
        spec_lex(src.spec_bytes(), 0).len() == 0 ==> r is Ok,
{
    let bytes = vstd::slice::slice_to_vec(src.as_bytes());
    let tokens = lex_all(bytes);
    proof {
        lemma_spec_lex_wf(src.spec_bytes(), 0);
        assert forall|i: int| 0 <= i < tokens@.len() implies (#[trigger] tokens@[i]).line
            < usize::MAX by {
            assert(token_matches(tokens@[i], spec_lex(src.spec_bytes(), 0)[i], src.spec_bytes()));
        }
    }
    let mut p = Parser {
        tokens,
        pos: 0,
        source: src.to_owned(),
        src_bytes: Ghost(src.spec_bytes()),
        infos: Ghost(spec_lex(src.spec_bytes(), 0)),
    };
    let mut chunk = Chunk::new();
    let ghost all_tokens = p.tokens@;
    let ghost all_infos = spec_lex(src.spec_bytes(), 0);
    proof {
        assert(chunk@.code =~= sp_empty_chunk().code);
        assert(chunk@.consts =~= sp_empty_chunk().consts);
        assert(chunk@.lines =~= sp_empty_chunk().lines);
        assert(chunk@.source =~= sp_empty_chunk().source);
        assert(chunk@ == sp_empty_chunk());
    }
    while !p.is_empty()
        invariant
            parser_wf(p),
            p.source@ == src@,
            p.tokens@ == all_tokens,
            p.tokens@.len() == spec_lex(src.spec_bytes(), 0).len(),
            forall|i: int|
                0 <= i < p.tokens@.len() ==> token_matches(
                    #[trigger] p.tokens@[i],
                    spec_lex(src.spec_bytes(), 0)[i],
                    src.spec_bytes(),
                ),
            chunk_wf(chunk@),
            chunk_decodes(chunk@),
            chunk@.source == Seq::<char>::empty(),
            chunk@.consts == numlit_consts(all_tokens, 0, p.pos as int),
            p.pos > 0 ==> chunk@.code.len() > 0,
            p.pos == 0 ==> chunk@.code.len() == 0,
            p.src_bytes@ == src.spec_bytes(),
            p.infos@ == all_infos,
            spec_compiled(src.spec_bytes()) == sp_compile(
                src.spec_bytes(),
                all_infos,
                p.pos as int,
                chunk@,
            ),
        decreases p.tokens@.len() - p.pos,
    {
        let ghost pos0 = p.pos as int;
        match chunk.expression(&mut p) {
            Ok(()) => {
                proof {
                    lemma_numlit_consts_split(all_tokens, 0, pos0, p.pos as int);
                    assert(advanced_to(p.pos as int, pos0 + 1, all_infos.len() as int) == p.pos as int);
                }
            },
            Err(e) => {
                return Err(e);
            },
        }
    }
    proof {
        lemma_pool_of_matching_tokens(
            src.spec_bytes(),
            all_tokens,
            spec_lex(src.spec_bytes(), 0),
            0,
        );
        assert(numlit_consts(all_tokens, 0, 0) == Seq::<Value>::empty());
    }
    chunk.set_source(src.to_owned());
    Ok(chunk)
}

} // verus!
