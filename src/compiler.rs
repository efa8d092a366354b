use vstd::prelude::*;
use crate::chunk::{Chunk, lemma_operands_append, lemma_operands_grow, operands_ok};
use crate::grammar::{
    Cursor,
    Expr,
    adv,
    binop_byte,
    binop_of,
    Diag,
    clean,
    error_at_token,
    first_diagnostic,
    grouped_e,
    lemma_pratt_e,
    lexical_at,
    pratt_e,
    pratt_e_loop,
    code_of,
    compiles_to,
    grouped,
    lemma_expr_level,
    lemma_loop_keeps_literals,
    lines_of,
    literals,
    negated,
    rank_of,
    pratt,
    pratt_loop,
    right_rank,
    start_cursor,
    well_formed,
};
use crate::opcode::{OpCode, opcode_byte, opcode_of};
use crate::parser::{Parser, Precedence, site_of};
use crate::scanner::{Scanner, lemma_end_of_input_repeats};
use crate::token::TokenType;
use crate::value::Value;

verus! {

/// The most entries a constant pool may hold: an index must fit the one-byte
/// operand, and the pool stops one short of the full byte range.
pub const MAX_CONSTANTS: usize = 255;

/// What a token does at the start of an expression.
#[derive(Debug, Clone, Copy, PartialEq, Eq, Structural)]
pub enum PrefixRule {
    Grouping,
    Unary,
    Number,
}

/// What a token does after a complete left operand.
#[derive(Debug, Clone, Copy, PartialEq, Eq, Structural)]
pub enum InfixRule {
    Binary,
}

/// The parse rule of a token kind.
#[derive(Debug, Clone, Copy, PartialEq, Eq, Structural)]
pub struct ParseRule {
    pub prefix: Option<PrefixRule>,
    pub infix: Option<InfixRule>,
    pub precedence: Precedence,
}

pub open spec fn prefix_of(kind: TokenType) -> Option<PrefixRule> {
    match kind {
        TokenType::LEFT_PAREN => Some(PrefixRule::Grouping),
        TokenType::MINUS => Some(PrefixRule::Unary),
        TokenType::NUMBER => Some(PrefixRule::Number),
        _ => None,
    }
}

pub open spec fn infix_of(kind: TokenType) -> Option<InfixRule> {
    match kind {
        TokenType::MINUS | TokenType::PLUS | TokenType::SLASH | TokenType::STAR => Some(
            InfixRule::Binary,
        ),
        _ => None,
    }
}

pub open spec fn precedence_of(kind: TokenType) -> Precedence {
    match kind {
        TokenType::MINUS | TokenType::PLUS => Precedence::Term,
        TokenType::SLASH | TokenType::STAR => Precedence::Factor,
        _ => Precedence::Lowest,
    }
}

/// The opcode that a binary operator token compiles to.
pub open spec fn binary_opcode(kind: TokenType) -> Option<OpCode> {
    match kind {
        TokenType::PLUS => Some(OpCode::OP_ADD),
        TokenType::MINUS => Some(OpCode::OP_SUBTRACT),
        TokenType::STAR => Some(OpCode::OP_MULTIPLY),
        TokenType::SLASH => Some(OpCode::OP_DIVIDE),
        _ => None,
    }
}

impl ParseRule {
    pub fn new(prefix: Option<PrefixRule>, infix: Option<InfixRule>, precedence: Precedence) -> (r:
        ParseRule)
        ensures
            r.prefix == prefix,
            r.infix == infix,
            r.precedence == precedence,
    {
        ParseRule { prefix, infix, precedence }
    }
}

/// The rule table: one entry for every token kind.
pub fn get_rule(kind: TokenType) -> (r: ParseRule)
    ensures
        r.prefix == prefix_of(kind),
        r.infix == infix_of(kind),
        r.precedence == precedence_of(kind),
{
    let none = Precedence::Lowest;
    match kind {
        TokenType::LEFT_PAREN => ParseRule::new(Some(PrefixRule::Grouping), None, none),
        TokenType::RIGHT_PAREN => ParseRule::new(None, None, none),
        TokenType::LEFT_BRACE => ParseRule::new(None, None, none),
        TokenType::RIGHT_BRACE => ParseRule::new(None, None, none),
        TokenType::COMMA => ParseRule::new(None, None, none),
        TokenType::DOT => ParseRule::new(None, None, none),
        TokenType::MINUS => ParseRule::new(
            Some(PrefixRule::Unary),
            Some(InfixRule::Binary),
            Precedence::Term,
        ),
        TokenType::PLUS => ParseRule::new(None, Some(InfixRule::Binary), Precedence::Term),
        TokenType::SEMICOLON => ParseRule::new(None, None, none),
        TokenType::SLASH => ParseRule::new(None, Some(InfixRule::Binary), Precedence::Factor),
        TokenType::STAR => ParseRule::new(None, Some(InfixRule::Binary), Precedence::Factor),
        TokenType::BANG => ParseRule::new(None, None, none),
        TokenType::BANG_EQUAL => ParseRule::new(None, None, none),
        TokenType::EQUAL => ParseRule::new(None, None, none),
        TokenType::EQUAL_EQUAL => ParseRule::new(None, None, none),
        TokenType::GREATER => ParseRule::new(None, None, none),
        TokenType::GREATER_EQUAL => ParseRule::new(None, None, none),
        TokenType::LESS => ParseRule::new(None, None, none),
        TokenType::LESS_EQUAL => ParseRule::new(None, None, none),
        TokenType::IDENTIFIER => ParseRule::new(None, None, none),
        TokenType::STRING => ParseRule::new(None, None, none),
        TokenType::NUMBER => ParseRule::new(Some(PrefixRule::Number), None, none),
        TokenType::AND => ParseRule::new(None, None, none),
        TokenType::CLASS => ParseRule::new(None, None, none),
        TokenType::ELSE => ParseRule::new(None, None, none),
        TokenType::FALSE => ParseRule::new(None, None, none),
        TokenType::FOR => ParseRule::new(None, None, none),
        TokenType::FUN => ParseRule::new(None, None, none),
        TokenType::IF => ParseRule::new(None, None, none),
        TokenType::NIL => ParseRule::new(None, None, none),
        TokenType::OR => ParseRule::new(None, None, none),
        TokenType::PRINT => ParseRule::new(None, None, none),
        TokenType::RETURN => ParseRule::new(None, None, none),
        TokenType::SUPER => ParseRule::new(None, None, none),
        TokenType::THIS => ParseRule::new(None, None, none),
        TokenType::TRUE => ParseRule::new(None, None, none),
        TokenType::VAR => ParseRule::new(None, None, none),
        TokenType::WHILE => ParseRule::new(None, None, none),
        TokenType::ERROR => ParseRule::new(None, None, none),
        TokenType::EOF => ParseRule::new(None, None, none),
    }
}

/// Compiles one expression into a chunk in a single pass: parsing and code
/// generation are fused, with no syntax tree in between.
pub struct Compiler {
    pub parser: Parser,
    pub current_chunk: Chunk,
}

impl Compiler {
    /// The parser is well formed, the chunk has one line per byte, and the
    /// pool never grows past its bound.
    pub open spec fn wf(&self) -> bool {
        &&& self.parser.wf()
        &&& self.current_chunk.wf()
        &&& self.current_chunk.values.data@.len() <= MAX_CONSTANTS
        &&& operands_ok(self.current_chunk.code@, self.current_chunk.values.data@.len() as int)
    }

    /// What every step of the compiler keeps: the invariant, the source, a
    /// measure that never grows, an error flag that never clears, and bytes
    /// and lines that are only appended.
    pub open spec fn keeps(&self, after: &Compiler) -> bool {
        &&& after.wf()
        &&& after.parser.scanner.source@ == self.parser.scanner.source@
        &&& after.parser.measure() <= self.parser.measure()
        &&& self.parser.had_error ==> after.parser.had_error
        &&& self.current_chunk.code@.is_prefix_of(after.current_chunk.code@)
        &&& self.current_chunk.lines@.is_prefix_of(after.current_chunk.lines@)
        &&& self.primed() ==> after.primed()
        &&& self.parser.had_error ==> after.parser.diagnostics_view()
            == self.parser.diagnostics_view()
    }

    /// Nothing compiled yet: the scanner at the start, an empty chunk, no error.
    pub open spec fn fresh(&self) -> bool {
        &&& self.parser.scanner.current == 0
        &&& self.parser.scanner.line == 1
        &&& self.parser.current.line == 1
        &&& self.current_chunk.code@.len() == 0
        &&& self.current_chunk.values.data@.len() == 0
        &&& !self.parser.had_error
    }

    /// An end-of-input current token was scanned at the end of the source
    /// (not so of the placeholder before the first `advance`).
    pub open spec fn primed(&self) -> bool {
        self.parser.current.token_type == TokenType::EOF ==> self.parser.scanner.current
            == self.parser.scanner.source@.len()
    }

    /// The parse position: the current token and the scanner just after it.
    pub open spec fn cursor(&self) -> Cursor {
        (
            self.parser.current.token_type,
            self.parser.current.lexeme@,
            self.parser.current.line as int,
            self.parser.scanner.current as int,
            self.parser.scanner.line as int,
        )
    }

    /// The one-pass parse from the current position at strength `p`.
    pub open spec fn parse_at(&self, p: nat) -> Option<(Expr, Cursor)> {
        pratt(self.src(), p, self.cursor())
    }

    pub open spec fn src(&self) -> Seq<char> {
        self.parser.scanner.source@
    }

    /// The texts of the literals in the pool.
    pub open spec fn pool(&self) -> Seq<Seq<char>> {
        self.current_chunk.values.data@.map_values(|v: Value| v.digits())
    }

    /// Unless an error was recorded by the end, the step from `self` to
    /// `after` parsed `res`: it ended at the position `res` gives, appended
    /// the postfix code of its expression, and added its literals to the pool.
    pub open spec fn emitted(&self, after: &Compiler, res: Option<(Expr, Cursor)>) -> bool {
        self.fits(res) ==> {
            &&& (res->0).1 == after.cursor()
            &&& after.current_chunk.code@ == self.current_chunk.code@ + code_of(
                (res->0).0,
                self.pool().len() as int,
            )
            &&& after.current_chunk.lines@ == self.current_chunk.lines@ + lines_of((res->0).0)
            &&& after.pool() == self.pool() + literals((res->0).0)
        }
    }

    /// With no error before it, a step whose parse `res` fits the pool
    /// records no error.
    pub open spec fn succeeds(&self, after: &Compiler, res: Option<(Expr, Cursor)>) -> bool {
        !self.parser.had_error && self.fits(res) ==> !after.parser.had_error
    }

    /// With no error before it, a step whose first-error parse is `res`
    /// records no error when `res` succeeds, and exactly `res`'s diagnostic
    /// when it fails.
    pub open spec fn reports(&self, after: &Compiler, res: Result<(Expr, Cursor), Diag>) -> bool {
        !self.parser.had_error ==> match res {
            Ok(_) => !after.parser.had_error,
            Err(d) => after.parser.had_error && after.parser.diagnostics_view() == seq![d],
        }
    }

    /// The error-aware parse from the current position at strength `p`.
    pub open spec fn parse_e(&self, p: nat) -> Result<(Expr, Cursor), Diag> {
        pratt_e(self.src(), p, self.cursor(), self.pool().len() as int)
    }

    /// `res` is a parse whose literals fit in what is left of the pool.
    pub open spec fn fits(&self, res: Option<(Expr, Cursor)>) -> bool {
        res is Some && self.pool().len() + literals((res->0).0).len() <= MAX_CONSTANTS
    }

    pub fn new(source: String) -> (r: Compiler)
        requires
            source@.len() < usize::MAX,
        ensures
            r.wf(),
            r.parser.scanner.source@ == source@,
            r.parser.scanner.current == 0,
            r.parser.scanner.line == 1,
            !r.parser.had_error,
            !r.parser.panic_mode,
            r.current_chunk.code@.len() == 0,
            r.current_chunk.values.data@.len() == 0,
            r.fresh(),
    {
        Compiler { parser: Parser::new(Scanner::new(source)), current_chunk: Chunk::new() }
    }

    fn advance(&mut self)
        requires
            old(self).wf(),
        ensures
            old(self).keeps(final(self)),
            final(self).current_chunk == old(self).current_chunk,
            final(self).parser.previous@ == old(self).parser.current@,
            final(self).cursor() == adv(old(self).src(), old(self).cursor()),
            final(self).primed(),
            final(self).parser.panic_mode == (old(self).parser.panic_mode || !clean(
                old(self).src(),
                old(self).cursor(),
            )),
            clean(old(self).src(), old(self).cursor()) ==> final(self).parser.diagnostics_view()
                == old(self).parser.diagnostics_view(),
            !clean(old(self).src(), old(self).cursor()) && !old(self).parser.panic_mode ==> final(
                self).parser.diagnostics_view() == old(self).parser.diagnostics_view().push(
                lexical_at(old(self).src(), old(self).cursor()),
            ),
            final(self).parser.had_error == (old(self).parser.had_error || !clean(
                old(self).src(),
                old(self).cursor(),
            )),
            old(self).parser.current.token_type != TokenType::EOF ==> final(self).parser.measure()
                < old(self).parser.measure(),
    {
        self.parser.advance();
    }

    /// Appends an instruction byte tagged with `line`.
    fn emit_byte_on(&mut self, byte: u8, line: usize)
        requires
            old(self).wf(),
            opcode_of(byte) is Some,
            opcode_of(byte) != Some(OpCode::OP_CONSTANT),
        ensures
            old(self).keeps(final(self)),
            final(self).parser == old(self).parser,
            final(self).current_chunk.code@ == old(self).current_chunk.code@.push(byte),
            final(self).current_chunk.lines@ == old(self).current_chunk.lines@.push(line),
            final(self).current_chunk.values == old(self).current_chunk.values,
    {
        self.current_chunk.write_chunk(byte, line);
        proof {
            let n = self.current_chunk.values.data@.len() as int;
            assert(seq![byte].subrange(1, 1) =~= Seq::<u8>::empty());
            assert(operands_ok(Seq::<u8>::empty(), n));
            assert(operands_ok(seq![byte].subrange(1, 1), n));
            assert(operands_ok(seq![byte], n));
            lemma_operands_append(old(self).current_chunk.code@, seq![byte], n);
            assert(old(self).current_chunk.code@ + seq![byte] =~= self.current_chunk.code@);
        }
    }

    /// Appends a byte, tagged with the line of the previous token.
    fn emit_byte(&mut self, byte: u8)
        requires
            old(self).wf(),
            opcode_of(byte) is Some,
            opcode_of(byte) != Some(OpCode::OP_CONSTANT),
        ensures
            old(self).keeps(final(self)),
            final(self).parser == old(self).parser,
            final(self).current_chunk.code@ == old(self).current_chunk.code@.push(byte),
            final(self).current_chunk.lines@ == old(self).current_chunk.lines@.push(
                old(self).parser.previous.line,
            ),
            final(self).current_chunk.values == old(self).current_chunk.values,
    {
        let line = self.parser.previous_line();
        self.emit_byte_on(byte, line);
    }

    fn emit_bytes(&mut self, byte1: u8, byte2: u8)
        requires
            old(self).wf(),
            opcode_of(byte1) == Some(OpCode::OP_CONSTANT),
            (byte2 as int) < old(self).current_chunk.values.data@.len(),
        ensures
            old(self).keeps(final(self)),
            final(self).parser == old(self).parser,
            final(self).current_chunk.code@ == old(self).current_chunk.code@.push(byte1).push(
                byte2,
            ),
            final(self).current_chunk.lines@ == old(self).current_chunk.lines@.push(
                old(self).parser.previous.line,
            ).push(old(self).parser.previous.line),
            final(self).current_chunk.values == old(self).current_chunk.values,
    {
        let line = self.parser.previous_line();
        self.current_chunk.write_chunk(byte1, line);
        self.current_chunk.write_chunk(byte2, line);
        proof {
            let n = self.current_chunk.values.data@.len() as int;
            let c = seq![byte1, byte2];
            assert(c.subrange(2, 2) =~= Seq::<u8>::empty());
            assert(operands_ok(Seq::<u8>::empty(), n));
            assert(operands_ok(c.subrange(2, 2), n));
            assert(operands_ok(c, n));
            lemma_operands_append(old(self).current_chunk.code@, c, n);
            assert(old(self).current_chunk.code@ + c =~= self.current_chunk.code@);
        }
    }

    fn emit_return(&mut self)
        requires
            old(self).wf(),
        ensures
            old(self).keeps(final(self)),
            final(self).parser == old(self).parser,
            final(self).current_chunk.code@ == old(self).current_chunk.code@.push(
                opcode_byte(OpCode::OP_RETURN),
            ),
            final(self).current_chunk.lines@ == old(self).current_chunk.lines@.push(
                old(self).parser.previous.line,
            ),
            final(self).current_chunk.values == old(self).current_chunk.values,
    {
        self.emit_byte(OpCode::OP_RETURN.to_byte());
    }

    fn end_compiler(&mut self)
        requires
            old(self).wf(),
        ensures
            old(self).keeps(final(self)),
            final(self).parser == old(self).parser,
            final(self).current_chunk.code@ == old(self).current_chunk.code@.push(
                opcode_byte(OpCode::OP_RETURN),
            ),
            final(self).current_chunk.lines@ == old(self).current_chunk.lines@.push(
                old(self).parser.previous.line,
            ),
            final(self).current_chunk.values == old(self).current_chunk.values,
    {
        self.emit_return();
    }

    /// Adds a value to the pool and returns its index. When the pool is full
    /// it reports "Too many constants in one chunk." and returns index 0,
    /// leaving the pool as it was.
    fn make_constant(&mut self, value: Value) -> (r: u8)
        requires
            old(self).wf(),
        ensures
            old(self).keeps(final(self)),
            final(self).current_chunk.code == old(self).current_chunk.code,
            final(self).current_chunk.lines == old(self).current_chunk.lines,
            final(self).parser.previous == old(self).parser.previous,
            final(self).cursor() == old(self).cursor(),
            old(self).current_chunk.values.data@.len() < MAX_CONSTANTS ==> {
                &&& r as int == old(self).current_chunk.values.data@.len()
                &&& final(self).pool() == old(self).pool().push(value.digits())
                &&& final(self).current_chunk.values.data@ == old(
                    self,
                ).current_chunk.values.data@.push(value)
                &&& final(self).parser == old(self).parser
            },
            old(self).current_chunk.values.data@.len() >= MAX_CONSTANTS ==> {
                &&& r == 0
                &&& final(self).current_chunk.values == old(self).current_chunk.values
                &&& final(self).parser.had_error
                &&& final(self).parser.panic_mode
                &&& old(self).parser.panic_mode ==> final(self).parser.diagnostics_view() == old(
                    self,
                ).parser.diagnostics_view()
                &&& !old(self).parser.panic_mode ==> final(self).parser.diagnostics_view() == old(
                    self,
                ).parser.diagnostics_view().push(
                    (
                        old(self).parser.previous.line as int,
                        site_of(old(self).parser.previous.token_type),
                        old(self).parser.previous.lexeme@,
                        "Too many constants in one chunk."@,
                    ),
                )
            },
            (r as int) < final(self).current_chunk.values.data@.len(),
    {
        if self.current_chunk.values.data.len() >= MAX_CONSTANTS {
            self.parser.error("Too many constants in one chunk.");
            return 0;
        }
        let ghost digits = value.digits();
        let constant = self.current_chunk.add_constant(value);
        assert(self.pool() =~= old(self).pool().push(digits));
        proof {
            lemma_operands_grow(
                self.current_chunk.code@,
                old(self).current_chunk.values.data@.len() as int,
                self.current_chunk.values.data@.len() as int,
            );
        }
        constant as u8
    }

    fn emit_constant(&mut self, value: Value)
        requires
            old(self).wf(),
        ensures
            old(self).keeps(final(self)),
            final(self).current_chunk.code@.len() == old(self).current_chunk.code@.len() + 2,
            final(self).current_chunk.code@[old(self).current_chunk.code@.len() as int]
                == opcode_byte(OpCode::OP_CONSTANT),
            final(self).cursor() == old(self).cursor(),
            old(self).pool().len() < MAX_CONSTANTS ==> final(self).parser.had_error == old(
                self,
            ).parser.had_error,
            final(self).current_chunk.lines@ == old(self).current_chunk.lines@.push(
                old(self).parser.previous.line,
            ).push(old(self).parser.previous.line),
            old(self).pool().len() >= MAX_CONSTANTS ==> final(self).parser.had_error,
            old(self).pool().len() >= MAX_CONSTANTS && !old(self).parser.panic_mode ==> final(self).parser.diagnostics_view() == old(self).parser.diagnostics_view().push((
                    old(self).parser.previous.line as int,
                    site_of(old(self).parser.previous.token_type),
                    old(self).parser.previous.lexeme@,
                    "Too many constants in one chunk."@,
                )),
            old(self).pool().len() < MAX_CONSTANTS ==> {
                &&& final(self).current_chunk.code@ == old(self).current_chunk.code@ + seq![
                    opcode_byte(OpCode::OP_CONSTANT),
                    old(self).pool().len() as u8,
                ]
                &&& final(self).pool() == old(self).pool().push(value.digits())
            },
    {
        let constant = self.make_constant(value);
        self.emit_bytes(OpCode::OP_CONSTANT.to_byte(), constant);
        proof {
            if old(self).pool().len() < MAX_CONSTANTS {
                assert(self.current_chunk.code@ =~= old(self).current_chunk.code@ + seq![
                    opcode_byte(OpCode::OP_CONSTANT),
                    old(self).pool().len() as u8,
                ]);
            }
        }
    }

    /// Prefix `(`: an expression, then a required `)`.
    fn grouping(&mut self)
        requires
            old(self).wf(),
        ensures
            old(self).keeps(final(self)),
            old(self).emitted(final(self), grouped(old(self).src(), old(self).parse_at(1))),
            old(self).succeeds(final(self), grouped(old(self).src(), old(self).parse_at(1))),
            old(self).reports(final(self), grouped_e(old(self).src(), old(self).parse_e(1))),
        decreases old(self).parser.measure(), 2nat,
    {
        proof {
            lemma_pratt_e(old(self).src(), 1, old(self).cursor(), old(self).pool().len() as int);
        }
        self.expression();
        proof {
            if !self.parser.had_error {
                assert(self.parser.diagnostics_view() =~= Seq::<Diag>::empty());
            }
            assert(Seq::<Diag>::empty().push(
                error_at_token(self.cursor(), "Expect ')' after expression."@),
            ) =~= seq![error_at_token(self.cursor(), "Expect ')' after expression."@)]);
            assert(Seq::<Diag>::empty().push(lexical_at(self.src(), self.cursor())) =~= seq![
                lexical_at(self.src(), self.cursor()),
            ]);
        }
        self.parser.consume(TokenType::RIGHT_PAREN, "Expect ')' after expression.");
    }

    /// Prefix `-`: an operand at unary precedence, then a negation.
    fn unary(&mut self)
        requires
            old(self).wf(),
        ensures
            old(self).keeps(final(self)),
            old(self).parser.previous.token_type == TokenType::MINUS ==> old(self).emitted(
                final(self),
                negated(old(self).parse_at(8), old(self).parser.previous.line as int),
            ),
            old(self).succeeds(final(self), old(self).parse_at(8)),
            old(self).reports(final(self), old(self).parse_e(8)),
        decreases old(self).parser.measure(), 1nat,
    {
        let ghost k = self.pool().len() as int;
        let op_type = self.parser.previous().token_type;
        let line = self.parser.previous_line();
        self.parse_precedence(Precedence::Unary);
        if op_type == TokenType::MINUS {
            self.emit_byte_on(OpCode::OP_NEGATE.to_byte(), line);
            proof {
                let res = old(self).parse_at(8);
                if old(self).fits(res) {
                    let e = Expr::Negate(Box::new((res->0).0), old(self).parser.previous.line as int);
                    assert(code_of(e, k) == code_of((res->0).0, k) + seq![
                        opcode_byte(OpCode::OP_NEGATE),
                    ]);
                    assert(self.current_chunk.code@ =~= old(self).current_chunk.code@ + code_of(
                        e,
                        k,
                    ));
                    assert(literals(e) == literals((res->0).0));
                    assert(lines_of(e) == lines_of((res->0).0) + seq![
                        old(self).parser.previous.line,
                    ]);
                    assert(self.current_chunk.lines@ =~= old(self).current_chunk.lines@ + lines_of(
                        e,
                    ));
                }
            }
        }
    }

    /// Infix operator: the right operand at one level above the operator's
    /// own (so operators of one level group to the left), then the operation.
    fn binary(&mut self)
        requires
            old(self).wf(),
            infix_of(old(self).parser.previous.token_type) is Some,
        ensures
            old(self).keeps(final(self)),
            old(self).fits(old(self).parse_at(right_rank(old(self).parser.previous.token_type)))
                ==> {
                let res = old(self).parse_at(right_rank(old(self).parser.previous.token_type));
                &&& (res->0).1 == final(self).cursor()
                &&& final(self).current_chunk.code@ == old(self).current_chunk.code@ + code_of(
                    (res->0).0,
                    old(self).pool().len() as int,
                ) + seq![
                    opcode_byte(binary_opcode(old(self).parser.previous.token_type)->0),
                ]
                &&& final(self).current_chunk.lines@ == old(self).current_chunk.lines@ + lines_of(
                    (res->0).0,
                ) + seq![old(self).parser.previous.line]
                &&& final(self).pool() == old(self).pool() + literals((res->0).0)
            },
            old(self).succeeds(final(self), old(self).parse_at(right_rank(old(self).parser.previous.token_type))),
            old(self).reports(
                final(self),
                old(self).parse_e(right_rank(old(self).parser.previous.token_type)),
            ),
        decreases old(self).parser.measure(), 1nat,
    {
        let op_type = self.parser.previous().token_type;
        let line = self.parser.previous_line();
        let rule = get_rule(op_type);
        self.parse_precedence(rule.precedence.next());
        match op_type {
            TokenType::PLUS => self.emit_byte_on(OpCode::OP_ADD.to_byte(), line),
            TokenType::MINUS => self.emit_byte_on(OpCode::OP_SUBTRACT.to_byte(), line),
            TokenType::STAR => self.emit_byte_on(OpCode::OP_MULTIPLY.to_byte(), line),
            TokenType::SLASH => self.emit_byte_on(OpCode::OP_DIVIDE.to_byte(), line),
            _ => {},
        }
    }

    /// Parses an expression whose operators bind at least as strongly as
    /// `precedence`, emitting its code.
    #[verifier::rlimit(40)]
    fn parse_precedence(&mut self, precedence: Precedence)
        requires
            old(self).wf(),
            precedence.rank() >= 1,
        ensures
            old(self).keeps(final(self)),
            old(self).emitted(final(self), old(self).parse_at(precedence.rank())),
            old(self).succeeds(final(self), old(self).parse_at(precedence.rank())),
            old(self).reports(final(self), old(self).parse_e(precedence.rank())),
            prefix_of(old(self).parser.current.token_type) is None ==> {
                &&& final(self).current_chunk.code@ == old(self).current_chunk.code@
                &&& final(self).pool() == old(self).pool()
                &&& final(self).parser.had_error
                &&& final(self).parser.panic_mode
                &&& !old(self).parser.panic_mode && clean(old(self).src(), old(self).cursor())
                    ==> final(self).parser.diagnostics_view() == old(
                    self,
                ).parser.diagnostics_view().push(
                    (
                        old(self).parser.current.line as int,
                        site_of(old(self).parser.current.token_type),
                        old(self).parser.current.lexeme@,
                        "Expect expression."@,
                    ),
                )
            },
        decreases old(self).parser.measure(), 0nat,
    {
        let ghost src = self.src();
        let ghost p = precedence.rank();
        let ghost c0 = self.cursor();
        let ghost k0 = self.pool().len() as int;
        let ghost code0 = self.current_chunk.code@;
        let ghost pool0 = self.pool();
        let ghost lines0 = self.current_chunk.lines@;
        let ghost pe = pratt_e(src, p, c0, k0);
        proof {
            if !self.parser.had_error {
                assert(self.parser.diagnostics_view() =~= Seq::<Diag>::empty());
            }
            lemma_pratt_e(src, p, c0, k0);
            assert(Seq::<Diag>::empty().push(lexical_at(src, c0)) =~= seq![lexical_at(src, c0)]);
        }
        self.advance();
        let ghost t1 = self.cursor();
        let prefix_rule = get_rule(self.parser.previous().token_type).prefix;
        let ghost mut left: Expr = Expr::Number(c0.1, c0.2);
        match prefix_rule {
            None => {
                self.parser.error("Expect expression.");
                proof {
                    let d = error_at_token(c0, "Expect expression."@);
                    assert(Seq::<Diag>::empty().push(d) =~= seq![d]);
                }
                return;
            },
            Some(PrefixRule::Grouping) => {
                proof {
                    let g = grouped(src, pratt(src, 1, t1));
                    if g is Some {
                        lemma_loop_keeps_literals(src, p, (g->0).0, (g->0).1);
                    }
                }
                self.grouping();
                proof {
                    lemma_pratt_e(src, 1, t1, k0);
                    let res = grouped(src, pratt(src, 1, t1));
                    if res is Some {
                        left = (res->0).0;
                    }
                }
            },
            Some(PrefixRule::Unary) => {
                proof {
                    let u = negated(pratt(src, 8, t1), c0.2);
                    if u is Some {
                        lemma_loop_keeps_literals(src, p, (u->0).0, (u->0).1);
                    }
                }
                let ghost before_unary = *self;
                self.unary();
                proof {
                    assert(before_unary.pool().len() == k0);
                    assert(before_unary.cursor() == t1);
                    assert(before_unary.parse_e(8) == pratt_e(src, 8, t1, k0));
                    if !self.parser.had_error {
                        assert(!before_unary.parser.had_error);
                        assert(pratt_e(src, 8, t1, k0) is Ok);
                    }
                    lemma_pratt_e(src, 8, t1, k0);
                    let res = negated(pratt(src, 8, t1), c0.2);
                    if res is Some {
                        left = (res->0).0;
                    }
                }
            },
            Some(PrefixRule::Number) => {
                proof {
                    lemma_loop_keeps_literals(src, p, Expr::Number(c0.1, c0.2), t1);
                }
                self.number();
                proof {
                    let d = error_at_token(c0, "Too many constants in one chunk."@);
                    assert(Seq::<Diag>::empty().push(d) =~= seq![d]);
                }
            },
        }
        proof {
            lemma_loop_keeps_literals(src, p, left, self.cursor());
            if !self.parser.had_error {
                assert(clean(src, c0));
                assert(rank_of(src, self.cursor()) < rank_of(src, c0));
                if c0.0 == TokenType::NUMBER {
                    assert(literals(left).len() == 1);
                    assert(pe == pratt_e_loop(src, p, left, t1, k0 + 1));
                } else if c0.0 == TokenType::MINUS {
                    let r = pratt_e(src, 8, t1, k0);
                    assert(r is Ok);
                    assert(literals(left) == literals((r->Ok_0).0));
                    assert(pe == pratt_e_loop(src, p, left, self.cursor(), k0 + literals(left).len()));
                } else {
                    let r = grouped_e(src, pratt_e(src, 1, t1, k0));
                    assert(r is Ok);
                    assert(pe == pratt_e_loop(src, p, left, self.cursor(), k0 + literals(left).len()));
                }
            }
        }
        let ghost start = *old(self);
        while precedence.level() <= get_rule(self.parser.current().token_type).precedence.level()
            invariant
                start == *old(self),
                start.keeps(self),
                self.parser.measure() < start.parser.measure(),
                precedence.rank() >= 1,
                p == precedence.rank(),
                src == start.src(),
                c0 == start.cursor(),
                k0 == start.pool().len(),
                code0 == start.current_chunk.code@,
                pool0 == start.pool(),
                lines0 == start.current_chunk.lines@,
                !start.parser.had_error && start.fits(pratt(src, p, c0)) ==> !self.parser.had_error,
                pe == pratt_e(src, p, c0, k0),
                !start.parser.had_error && !self.parser.had_error ==> pe == pratt_e_loop(
                    src,
                    p,
                    left,
                    self.cursor(),
                    k0 + literals(left).len(),
                ),
                !start.parser.had_error && self.parser.had_error ==> pe is Err
                    && self.parser.diagnostics_view() == seq![pe->Err_0],
                start.fits(pratt(src, p, c0)) || !self.parser.had_error ==> {
                    &&& pratt(src, p, c0) == pratt_loop(src, p, left, self.cursor())
                    &&& self.current_chunk.code@ == code0 + code_of(left, k0)
                    &&& self.current_chunk.lines@ == lines0 + lines_of(left)
                    &&& self.pool() == pool0 + literals(left)
                },
            decreases self.parser.measure(),
        {
            let ghost t = self.cursor();
            self.advance();
            let ghost t1 = self.cursor();
            let ghost res = pratt(src, right_rank(t.0), t1);
            proof {
                if !old(self).parser.had_error && !self.parser.had_error {
                    assert(self.parser.diagnostics_view() =~= Seq::<Diag>::empty());
                }
                assert(Seq::<Diag>::empty().push(lexical_at(src, t)) =~= seq![lexical_at(src, t)]);
                lemma_pratt_e(src, right_rank(t.0), t1, k0 + literals(left).len());
                if res is Some {
                    let b = Expr::Binary(binop_of(t.0), Box::new(left), Box::new((res->0).0), t.2);
                    lemma_loop_keeps_literals(src, p, b, (res->0).1);
                }
            }
            let infix_rule = get_rule(self.parser.previous().token_type).infix;
            match infix_rule {
                Some(InfixRule::Binary) => self.binary(),
                None => {},
            }
            proof {
                if res is Some {
                    let r = (res->0).0;
                    let op = t.0;
                    let e = Expr::Binary(binop_of(op), Box::new(left), Box::new(r), t.2);
                    if start.fits(pratt(src, p, c0)) || !self.parser.had_error {
                        assert(binop_byte(binop_of(op)) == opcode_byte(binary_opcode(op)->0));
                        assert(code_of(e, k0) == code_of(left, k0) + code_of(
                            r,
                            k0 + literals(left).len(),
                        ) + seq![
                            binop_byte(binop_of(op)),
                        ]);
                        assert(self.current_chunk.code@ =~= code0 + code_of(e, k0));
                        assert(self.pool() =~= pool0 + literals(e));
                        assert(self.current_chunk.lines@ =~= lines0 + lines_of(e));
                    }
                    left = e;
                }
            }
        }
    }

    fn expression(&mut self)
        requires
            old(self).wf(),
        ensures
            old(self).keeps(final(self)),
            old(self).emitted(final(self), old(self).parse_at(1)),
            old(self).succeeds(final(self), old(self).parse_at(1)),
            old(self).reports(final(self), old(self).parse_e(1)),
        decreases old(self).parser.measure(), 1nat,
    {
        self.parse_precedence(Precedence::Assignment);
    }

    /// Prefix number: loads its literal from the pool.
    fn number(&mut self)
        requires
            old(self).wf(),
        ensures
            old(self).keeps(final(self)),
            old(self).emitted(
                final(self),
                Some((Expr::Number(old(self).parser.previous.lexeme@, old(self).parser.previous.line as int), old(self).cursor())),
            ),
            old(self).pool().len() < MAX_CONSTANTS ==> final(self).parser.had_error == old(
                self,
            ).parser.had_error,
            old(self).pool().len() >= MAX_CONSTANTS ==> final(self).parser.had_error,
            old(self).pool().len() >= MAX_CONSTANTS && !old(self).parser.panic_mode ==> final(self).parser.diagnostics_view() == old(self).parser.diagnostics_view().push((
                    old(self).parser.previous.line as int,
                    site_of(old(self).parser.previous.token_type),
                    old(self).parser.previous.lexeme@,
                    "Too many constants in one chunk."@,
                )),
    {
        let value = Value::Number(self.parser.previous().lexeme.clone());
        self.emit_constant(value);
        proof {
            let e = Expr::Number(old(self).parser.previous.lexeme@, old(self).parser.previous.line as int);
            assert(literals(e) == seq![old(self).parser.previous.lexeme@]);
            if old(self).pool().len() < MAX_CONSTANTS {
                assert(self.pool() =~= old(self).pool() + literals(e));
                assert(self.current_chunk.lines@ =~= old(self).current_chunk.lines@ + lines_of(e));
            }
        }
    }

    /// Compiles the whole source as one expression followed by end of input,
    /// and ends the chunk with a return. Returns whether no error was recorded
    /// (lexical errors included); the chunk is kept either way.
    pub fn compile(&mut self) -> (r: bool)
        requires
            old(self).wf(),
        ensures
            final(self).wf(),
            final(self).src() == old(self).src(),
            r == !final(self).parser.had_error,
            r == (final(self).parser.diagnostics@.len() == 0),
            old(self).parser.had_error ==> !r,
            final(self).current_chunk.code@.len() > 0,
            final(self).current_chunk.code@.last() == opcode_byte(OpCode::OP_RETURN),
            final(self).current_chunk.lines@.len() == final(self).current_chunk.code@.len(),
            final(self).current_chunk.values.data@.len() <= MAX_CONSTANTS,
            operands_ok(
                final(self).current_chunk.code@,
                final(self).current_chunk.values.data@.len() as int,
            ),
            old(self).fresh() ==> (r <==> well_formed(final(self).src())),
            old(self).fresh() ==> (r <==> first_diagnostic(final(self).src()) is None),
            old(self).fresh() && !r ==> final(self).parser.diagnostics_view() == seq![
                first_diagnostic(final(self).src())->0,
            ],
            old(self).fresh() && r ==> compiles_to(
                final(self).src(),
                final(self).current_chunk.code@,
                final(self).current_chunk.lines@,
                final(self).pool(),
            ),
    {
        self.advance();
        let ghost code0 = self.current_chunk.code@;
        let ghost pool0 = self.pool();
        let ghost lines0 = self.current_chunk.lines@;
        let ghost t0 = self.cursor();
        proof {
            lemma_expr_level(self.src(), t0);
            lemma_pratt_e(self.src(), 1, t0, 0);
            if old(self).fresh() {
                assert(old(self).parser.diagnostics_view() =~= Seq::<Diag>::empty());
                let f = lexical_at(self.src(), old(self).cursor());
                assert(Seq::<Diag>::empty().push(f) =~= seq![f]);
            }
        }
        self.expression();
        proof {
            if old(self).fresh() && !self.parser.had_error {
                assert(self.parser.diagnostics_view() =~= Seq::<Diag>::empty());
                let d = error_at_token(self.cursor(), "Expect end of expression."@);
                assert(Seq::<Diag>::empty().push(d) =~= seq![d]);
            }
            lemma_end_of_input_repeats(self.src(), self.parser.scanner.line as int);
        }
        self.parser.consume(TokenType::EOF, "Expect end of expression.");
        self.end_compiler();
        proof {
            if old(self).fresh() && !self.parser.had_error {
                assert(code0 =~= Seq::<u8>::empty());
                assert(lines0 =~= Seq::<usize>::empty());
                assert(pool0 =~= Seq::<Seq<char>>::empty());
                assert(t0 == start_cursor(self.src()));
                let res = pratt(self.src(), 1, t0);
                assert(self.pool() =~= literals((res->0).0));
                assert(self.current_chunk.code@ =~= code_of((res->0).0, 0) + seq![
                    opcode_byte(OpCode::OP_RETURN),
                ]);
                assert(self.current_chunk.lines@ =~= lines_of((res->0).0) + seq![
                    ((res->0).1).2 as usize,
                ]);
            }
        }
        !self.parser.had_error
    }

    /// A copy of the chunk compiled so far.
    pub fn get_chunk(&self) -> (r: Chunk)
        ensures
            r.code@ == self.current_chunk.code@,
            r.lines@ == self.current_chunk.lines@,
            r.values.data@.len() == self.current_chunk.values.data@.len(),
            forall|i: int|
                0 <= i < self.current_chunk.values.data@.len() ==> #[trigger] r.values.data@[i].digits()
                    == self.current_chunk.values.data@[i].digits(),
    {
        self.current_chunk.duplicate()
    }
}

} // verus!
