use vstd::prelude::*;
use crate::compiler::{MAX_CONSTANTS, precedence_of, prefix_of};
use crate::parser::{ErrorSite, site_of};
use crate::opcode::{OpCode, opcode_byte};
use crate::parser::next_good;
use crate::scanner::scan_spec;
use crate::token::TokenType;

verus! {

/// The four arithmetic operators.
pub enum BinOp {
    Add,
    Subtract,
    Multiply,
    Divide,
}

/// The operator a `+`, `-`, `*` or `/` token stands for.
pub open spec fn binop_of(k: TokenType) -> BinOp {
    match k {
        TokenType::PLUS => BinOp::Add,
        TokenType::MINUS => BinOp::Subtract,
        TokenType::STAR => BinOp::Multiply,
        _ => BinOp::Divide,
    }
}

/// The instruction byte of an operator.
pub open spec fn binop_byte(b: BinOp) -> u8 {
    match b {
        BinOp::Add => opcode_byte(OpCode::OP_ADD),
        BinOp::Subtract => opcode_byte(OpCode::OP_SUBTRACT),
        BinOp::Multiply => opcode_byte(OpCode::OP_MULTIPLY),
        BinOp::Divide => opcode_byte(OpCode::OP_DIVIDE),
    }
}

/// A parsed arithmetic expression: a numeric literal (by its text), a
/// negation, or a binary operation.
///
/// Each node also carries the source line its instruction is tagged with:
/// the line of the token that produced it (the literal, the `-`, or the
/// operator).
pub enum Expr {
    Number(Seq<char>, int),
    Negate(Box<Expr>, int),
    Binary(BinOp, Box<Expr>, Box<Expr>, int),
}

/// A parse position: the current token (kind, lexeme, line) and the scanner
/// position and line just after it.
pub type Cursor = (TokenType, Seq<char>, int, int, int);

/// The position after the current token.
pub open spec fn adv(src: Seq<char>, t: Cursor) -> Cursor {
    next_good(src, t.3, t.4)
}

/// The position after the first token of `src`, as the compiler starts.
pub open spec fn start_cursor(src: Seq<char>) -> Cursor {
    next_good(src, 0, 1)
}

/// Stepping past the current token meets no lexical error.
pub open spec fn clean(src: Seq<char>, t: Cursor) -> bool {
    scan_spec(src, t.3, t.4).0 != TokenType::ERROR
}

/// The progress measure of a position: it drops at every step past a token
/// other than end-of-input.
pub open spec fn rank_of(src: Seq<char>, t: Cursor) -> nat {
    (2 * (src.len() - t.3) + if t.0 == TokenType::EOF {
        0int
    } else {
        1int
    }) as nat
}

pub open spec fn is_additive(k: TokenType) -> bool {
    k == TokenType::PLUS || k == TokenType::MINUS
}

pub open spec fn is_multiplicative(k: TokenType) -> bool {
    k == TokenType::STAR || k == TokenType::SLASH
}

/// The binding strength an infix operator's right operand is parsed at.
pub open spec fn right_rank(k: TokenType) -> nat {
    (precedence_of(k).rank() + 1) as nat % 11
}

/// What the one-pass compiler parses from position `t` at minimum binding
/// strength `p`: a prefix form, then infix operators binding at least as
/// strongly as `p`.
pub open spec fn pratt(src: Seq<char>, p: nat, t: Cursor) -> Option<(Expr, Cursor)>
    decreases rank_of(src, t), 1nat,
{
    let t1 = adv(src, t);
    if rank_of(src, t1) >= rank_of(src, t) || !clean(src, t) {
        None
    } else if t.0 == TokenType::NUMBER {
        pratt_loop(src, p, Expr::Number(t.1, t.2), t1)
    } else if t.0 == TokenType::MINUS {
        match pratt(src, 8, t1) {
            Some((e, t2)) => if rank_of(src, t2) < rank_of(src, t) {
                pratt_loop(src, p, Expr::Negate(Box::new(e), t.2), t2)
            } else {
                None
            },
            None => None,
        }
    } else if t.0 == TokenType::LEFT_PAREN {
        match pratt(src, 1, t1) {
            Some((e, t2)) => {
                let t3 = adv(src, t2);
                if t2.0 == TokenType::RIGHT_PAREN && clean(src, t2) && rank_of(src, t3) < rank_of(src, t) {
                    pratt_loop(src, p, e, t3)
                } else {
                    None
                }
            },
            None => None,
        }
    } else {
        None
    }
}

/// The infix part of `pratt`: with `left` parsed, take operators binding at
/// least as strongly as `p`, each with its right operand.
pub open spec fn pratt_loop(src: Seq<char>, p: nat, left: Expr, t: Cursor) -> Option<(Expr, Cursor)>
    decreases rank_of(src, t), 0nat,
{
    if p >= 1 && precedence_of(t.0).rank() >= p {
        let t1 = adv(src, t);
        if rank_of(src, t1) >= rank_of(src, t) || !clean(src, t) {
            None
        } else {
            match pratt(src, right_rank(t.0), t1) {
                Some((r, t2)) => if rank_of(src, t2) < rank_of(src, t) {
                    pratt_loop(src, p, Expr::Binary(binop_of(t.0), Box::new(left), Box::new(r), t.2), t2)
                } else {
                    None
                },
                None => None,
            }
        }
    } else {
        Some((left, t))
    }
}

/// A parse result with its expression negated, the negation tagged with
/// line `line`.
pub open spec fn negated(res: Option<(Expr, Cursor)>, line: int) -> Option<(Expr, Cursor)> {
    match res {
        Some((e, t)) => Some((Expr::Negate(Box::new(e), line), t)),
        None => None,
    }
}

/// A parse result followed by a required `)`.
pub open spec fn grouped(src: Seq<char>, res: Option<(Expr, Cursor)>) -> Option<(Expr, Cursor)> {
    match res {
        Some((e, t)) => if t.0 == TokenType::RIGHT_PAREN && clean(src, t) {
            Some((e, adv(src, t)))
        } else {
            None
        },
        None => None,
    }
}

/// The literals of an expression, left to right.
pub open spec fn literals(e: Expr) -> Seq<Seq<char>>
    decreases e,
{
    match e {
        Expr::Number(d, _) => seq![d],
        Expr::Negate(a, _) => literals(*a),
        Expr::Binary(_, a, b, _) => literals(*a) + literals(*b),
    }
}

/// The postfix code of an expression whose literals take the pool entries
/// from index `k` on, in order.
pub open spec fn code_of(e: Expr, k: int) -> Seq<u8>
    decreases e,
{
    match e {
        Expr::Number(_, _) => seq![opcode_byte(OpCode::OP_CONSTANT), k as u8],
        Expr::Negate(a, _) => code_of(*a, k) + seq![opcode_byte(OpCode::OP_NEGATE)],
        Expr::Binary(op, a, b, _) => code_of(*a, k) + code_of(*b, k + literals(*a).len()) + seq![
            binop_byte(op),
        ],
    }
}

/// The input is a well-formed arithmetic expression: scanning it meets no
/// lexical error, the textbook grammar parses it whole, and it holds no more
/// literals than the pool takes.
pub open spec fn well_formed(src: Seq<char>) -> bool {
    let g = g_expr(src, start_cursor(src));
    &&& scan_spec(src, 0, 1).0 != TokenType::ERROR
    &&& g is Some
    &&& ((g->0).1).0 == TokenType::EOF
    &&& literals((g->0).0).len() <= MAX_CONSTANTS
}

/// The line tag of each byte of `code_of(e, k)`.
pub open spec fn lines_of(e: Expr) -> Seq<usize>
    decreases e,
{
    match e {
        Expr::Number(_, l) => seq![l as usize, l as usize],
        Expr::Negate(a, l) => lines_of(*a) + seq![l as usize],
        Expr::Binary(_, a, b, l) => lines_of(*a) + lines_of(*b) + seq![l as usize],
    }
}

/// A successful compilation of `src`: the textbook grammar parses the whole
/// input (`*` and `/` binding tighter than `+` and `-`, both grouping to the
/// left, unary minus tightest); the code is the postfix form of that tree and
/// a return; each byte is tagged with the line of the last token read when it
/// was emitted (the return with the end-of-input line); and the pool holds
/// the tree's literals in order.
pub open spec fn compiles_to(
    src: Seq<char>,
    code: Seq<u8>,
    lines: Seq<usize>,
    pool: Seq<Seq<char>>,
) -> bool {
    let g = g_expr(src, start_cursor(src));
    &&& g is Some
    &&& ((g->0).1).0 == TokenType::EOF
    &&& code == code_of((g->0).0, 0) + seq![opcode_byte(OpCode::OP_RETURN)]
    &&& lines == lines_of((g->0).0) + seq![((g->0).1).2 as usize]
    &&& pool == literals((g->0).0)
    &&& pool.len() <= MAX_CONSTANTS
}

/// The textbook grammar, level by level. A unary form: a literal, a negated
/// unary form, or a parenthesised expression.
pub open spec fn g_unary(src: Seq<char>, t: Cursor) -> Option<(Expr, Cursor)>
    decreases rank_of(src, t), 0nat,
{
    let t1 = adv(src, t);
    if rank_of(src, t1) >= rank_of(src, t) || !clean(src, t) {
        None
    } else if t.0 == TokenType::NUMBER {
        Some((Expr::Number(t.1, t.2), t1))
    } else if t.0 == TokenType::MINUS {
        match g_unary(src, t1) {
            Some((e, t2)) => if rank_of(src, t2) < rank_of(src, t) {
                Some((Expr::Negate(Box::new(e), t.2), t2))
            } else {
                None
            },
            None => None,
        }
    } else if t.0 == TokenType::LEFT_PAREN {
        match g_expr(src, t1) {
            Some((e, t2)) => {
                let t3 = adv(src, t2);
                if t2.0 == TokenType::RIGHT_PAREN && clean(src, t2) && rank_of(src, t3) < rank_of(src, t) {
                    Some((e, t3))
                } else {
                    None
                }
            },
            None => None,
        }
    } else {
        None
    }
}

/// After a left operand `l`: any number of `*` or `/` with a unary right
/// operand each, grouped to the left.
pub open spec fn g_term_tail(src: Seq<char>, l: Expr, t: Cursor) -> Option<(Expr, Cursor)>
    decreases rank_of(src, t), 1nat,
{
    if is_multiplicative(t.0) {
        let t1 = adv(src, t);
        if rank_of(src, t1) >= rank_of(src, t) || !clean(src, t) {
            None
        } else {
            match g_unary(src, t1) {
                Some((r, t2)) => if rank_of(src, t2) < rank_of(src, t) {
                    g_term_tail(src, Expr::Binary(binop_of(t.0), Box::new(l), Box::new(r), t.2), t2)
                } else {
                    None
                },
                None => None,
            }
        }
    } else {
        Some((l, t))
    }
}

/// A term: a unary form, then its multiplicative tail.
pub open spec fn g_term(src: Seq<char>, t: Cursor) -> Option<(Expr, Cursor)>
    decreases rank_of(src, t), 2nat,
{
    match g_unary(src, t) {
        Some((l, t1)) => if rank_of(src, t1) <= rank_of(src, t) {
            g_term_tail(src, l, t1)
        } else {
            None
        },
        None => None,
    }
}

/// After a left operand `l`: any number of `+` or `-` with a term as right
/// operand each, grouped to the left.
pub open spec fn g_expr_tail(src: Seq<char>, l: Expr, t: Cursor) -> Option<(Expr, Cursor)>
    decreases rank_of(src, t), 3nat,
{
    if is_additive(t.0) {
        let t1 = adv(src, t);
        if rank_of(src, t1) >= rank_of(src, t) || !clean(src, t) {
            None
        } else {
            match g_term(src, t1) {
                Some((r, t2)) => if rank_of(src, t2) < rank_of(src, t) {
                    g_expr_tail(src, Expr::Binary(binop_of(t.0), Box::new(l), Box::new(r), t.2), t2)
                } else {
                    None
                },
                None => None,
            }
        }
    } else {
        Some((l, t))
    }
}

/// An expression: a term, then its additive tail.
pub open spec fn g_expr(src: Seq<char>, t: Cursor) -> Option<(Expr, Cursor)>
    decreases rank_of(src, t), 4nat,
{
    match g_term(src, t) {
        Some((l, t1)) => if rank_of(src, t1) <= rank_of(src, t) {
            g_expr_tail(src, l, t1)
        } else {
            None
        },
        None => None,
    }
}

/// The multiplicative tail never moves backwards and stops at a token that
/// is not `*` or `/`.
pub proof fn lemma_term_tail_stops(src: Seq<char>, l: Expr, t: Cursor)
    ensures
        g_term_tail(src, l, t) is Some ==> {
            let out = (g_term_tail(src, l, t)->0).1;
            rank_of(src, out) <= rank_of(src, t) && !is_multiplicative(out.0)
        },
    decreases rank_of(src, t),
{
    if is_multiplicative(t.0) {
        let t1 = adv(src, t);
        if rank_of(src, t1) < rank_of(src, t) {
            if let Some((r, t2)) = g_unary(src, t1) {
                if rank_of(src, t2) < rank_of(src, t) {
                    lemma_term_tail_stops(src, Expr::Binary(binop_of(t.0), Box::new(l), Box::new(r), t.2), t2);
                }
            }
        }
    }
}

/// The one-pass parse at a binding strength that admits every operator is the
/// prefix form parsed alone, then the infix loop.
pub proof fn lemma_pratt_split(src: Seq<char>, p: nat, t: Cursor)
    requires
        1 <= p <= 8,
    ensures
        pratt(src, p, t) == match pratt(src, 8, t) {
            Some((l, t1)) => pratt_loop(src, p, l, t1),
            None => None,
        },
{
    let t1 = adv(src, t);
    if rank_of(src, t1) < rank_of(src, t) {
        if t.0 == TokenType::NUMBER {
            assert(pratt_loop(src, 8, Expr::Number(t.1, t.2), t1) == Some((Expr::Number(t.1, t.2), t1)));
        } else if t.0 == TokenType::MINUS {
            if let Some((e, t2)) = pratt(src, 8, t1) {
                if rank_of(src, t2) < rank_of(src, t) {
                    let n = Expr::Negate(Box::new(e), t.2);
                    assert(pratt_loop(src, 8, n, t2) == Some((n, t2)));
                }
            }
        } else if t.0 == TokenType::LEFT_PAREN {
            if let Some((e, t2)) = pratt(src, 1, t1) {
                let t3 = adv(src, t2);
                assert(pratt_loop(src, 8, e, t3) == Some((e, t3)));
            }
        }
    }
}

/// At unary strength the one-pass parse is the grammar's unary form.
pub proof fn lemma_unary_level(src: Seq<char>, t: Cursor)
    ensures
        pratt(src, 8, t) == g_unary(src, t),
    decreases rank_of(src, t), 0nat,
{
    let t1 = adv(src, t);
    if rank_of(src, t1) < rank_of(src, t) {
        if t.0 == TokenType::NUMBER {
            assert(pratt_loop(src, 8, Expr::Number(t.1, t.2), t1) == Some((Expr::Number(t.1, t.2), t1)));
        } else if t.0 == TokenType::MINUS {
            lemma_unary_level(src, t1);
            if let Some((e, t2)) = pratt(src, 8, t1) {
                let n = Expr::Negate(Box::new(e), t.2);
                assert(pratt_loop(src, 8, n, t2) == Some((n, t2)));
            }
        } else if t.0 == TokenType::LEFT_PAREN {
            lemma_expr_level(src, t1);
            if let Some((e, t2)) = pratt(src, 1, t1) {
                let t3 = adv(src, t2);
                assert(pratt_loop(src, 8, e, t3) == Some((e, t3)));
            }
        }
    }
}

/// The infix loop at multiplicative strength is the grammar's multiplicative
/// tail.
pub proof fn lemma_term_loop(src: Seq<char>, l: Expr, t: Cursor)
    ensures
        pratt_loop(src, 7, l, t) == g_term_tail(src, l, t),
    decreases rank_of(src, t), 1nat,
{
    if is_multiplicative(t.0) {
        assert(precedence_of(t.0).rank() == 7);
        assert(right_rank(t.0) == 8);
        let t1 = adv(src, t);
        if rank_of(src, t1) < rank_of(src, t) {
            lemma_unary_level(src, t1);
            if let Some((r, t2)) = g_unary(src, t1) {
                if rank_of(src, t2) < rank_of(src, t) {
                    lemma_term_loop(src, Expr::Binary(binop_of(t.0), Box::new(l), Box::new(r), t.2), t2);
                }
            }
        }
    } else {
        assert(precedence_of(t.0).rank() < 7);
    }
}

/// At multiplicative strength the one-pass parse is the grammar's term.
pub proof fn lemma_term_level(src: Seq<char>, t: Cursor)
    ensures
        pratt(src, 7, t) == g_term(src, t),
    decreases rank_of(src, t), 2nat,
{
    lemma_pratt_split(src, 7, t);
    lemma_unary_level(src, t);
    if let Some((l, t1)) = g_unary(src, t) {
        lemma_term_loop(src, l, t1);
    }
}

/// The infix loop at the weakest strength is the multiplicative tail followed
/// by the additive tail.
pub proof fn lemma_expr_loop(src: Seq<char>, l: Expr, t: Cursor)
    ensures
        pratt_loop(src, 1, l, t) == match g_term_tail(src, l, t) {
            Some((l2, t2)) => g_expr_tail(src, l2, t2),
            None => None,
        },
    decreases rank_of(src, t), 3nat,
{
    let t1 = adv(src, t);
    if is_multiplicative(t.0) {
        assert(precedence_of(t.0).rank() == 7);
        assert(right_rank(t.0) == 8);
        if rank_of(src, t1) < rank_of(src, t) {
            lemma_unary_level(src, t1);
            if let Some((r, t2)) = g_unary(src, t1) {
                if rank_of(src, t2) < rank_of(src, t) {
                    lemma_expr_loop(src, Expr::Binary(binop_of(t.0), Box::new(l), Box::new(r), t.2), t2);
                }
            }
        }
    } else if is_additive(t.0) {
        assert(precedence_of(t.0).rank() == 6);
        assert(right_rank(t.0) == 7);
        assert(g_term_tail(src, l, t) == Some((l, t)));
        if rank_of(src, t1) < rank_of(src, t) {
            lemma_term_level(src, t1);
            if let Some((r, t2)) = g_term(src, t1) {
                if rank_of(src, t2) < rank_of(src, t) {
                    let b = Expr::Binary(binop_of(t.0), Box::new(l), Box::new(r), t.2);
                    lemma_expr_loop(src, b, t2);
                    if let Some((l0, t0)) = g_unary(src, t1) {
                        lemma_term_tail_stops(src, l0, t0);
                    }
                    assert(g_term_tail(src, b, t2) == Some((b, t2)));
                }
            }
        }
    } else {
        assert(precedence_of(t.0).rank() == 0);
    }
}

/// At the weakest strength the one-pass parse is the grammar's expression.
pub proof fn lemma_expr_level(src: Seq<char>, t: Cursor)
    ensures
        pratt(src, 1, t) == g_expr(src, t),
    decreases rank_of(src, t), 4nat,
{
    lemma_pratt_split(src, 1, t);
    lemma_unary_level(src, t);
    if let Some((l, t1)) = g_unary(src, t) {
        lemma_expr_loop(src, l, t1);
        lemma_term_tail_stops(src, l, t1);
    }
}

/// The infix loop only adds to the literals of the operand it starts from.
pub proof fn lemma_loop_keeps_literals(src: Seq<char>, p: nat, l: Expr, t: Cursor)
    ensures
        pratt_loop(src, p, l, t) is Some ==> literals(l).len() <= literals(
            (pratt_loop(src, p, l, t)->0).0,
        ).len(),
    decreases rank_of(src, t),
{
    if p >= 1 && precedence_of(t.0).rank() >= p {
        let t1 = adv(src, t);
        if rank_of(src, t1) < rank_of(src, t) && clean(src, t) {
            if let Some((r, t2)) = pratt(src, right_rank(t.0), t1) {
                if rank_of(src, t2) < rank_of(src, t) {
                    let b = Expr::Binary(binop_of(t.0), Box::new(l), Box::new(r), t.2);
                    lemma_loop_keeps_literals(src, p, b, t2);
                }
            }
        }
    }
}

/// An input whose parse holds more literals than the pool takes is not well
/// formed: it fails to compile rather than overflow a one-byte pool index.
pub proof fn lemma_too_many_literals(src: Seq<char>)
    requires
        g_expr(src, start_cursor(src)) is Some,
        literals((g_expr(src, start_cursor(src))->0).0).len() > MAX_CONSTANTS,
    ensures
        !well_formed(src),
{
}

/// A diagnostic: line, site, lexeme and message.
pub type Diag = (int, ErrorSite, Seq<char>, Seq<char>);

/// The diagnostic for the lexical error met when stepping past `t`.
pub open spec fn lexical_at(src: Seq<char>, t: Cursor) -> Diag {
    let f = scan_spec(src, t.3, t.4);
    (f.2, ErrorSite::Lexical, f.1, f.1)
}

/// A diagnostic about the current token of `t`.
pub open spec fn error_at_token(t: Cursor, message: Seq<char>) -> Diag {
    (t.2, site_of(t.0), t.1, message)
}

/// The one-pass parse with its first error: like `pratt`, from position `t`
/// with `k` pool entries already taken, but a failure names the diagnostic
/// the compiler records first.
pub open spec fn pratt_e(src: Seq<char>, p: nat, t: Cursor, k: int) -> Result<(Expr, Cursor), Diag>
    decreases rank_of(src, t), 1nat,
{
    let t1 = adv(src, t);
    if !clean(src, t) {
        Err(lexical_at(src, t))
    } else if prefix_of(t.0) is None || rank_of(src, t1) >= rank_of(src, t) {
        Err(error_at_token(t, "Expect expression."@))
    } else if t.0 == TokenType::NUMBER {
        if k >= MAX_CONSTANTS {
            Err(error_at_token(t, "Too many constants in one chunk."@))
        } else {
            pratt_e_loop(src, p, Expr::Number(t.1, t.2), t1, k + 1)
        }
    } else if t.0 == TokenType::MINUS {
        match pratt_e(src, 8, t1, k) {
            Ok((e, t2)) => if rank_of(src, t2) < rank_of(src, t) {
                pratt_e_loop(src, p, Expr::Negate(Box::new(e), t.2), t2, k + literals(e).len())
            } else {
                Err(error_at_token(t, "Expect expression."@))
            },
            Err(d) => Err(d),
        }
    } else {
        match grouped_e(src, pratt_e(src, 1, t1, k)) {
            Ok((e, t3)) => if rank_of(src, t3) < rank_of(src, t) {
                pratt_e_loop(src, p, e, t3, k + literals(e).len())
            } else {
                Err(error_at_token(t, "Expect expression."@))
            },
            Err(d) => Err(d),
        }
    }
}

/// A parse result followed by a required `)`, with the first error.
pub open spec fn grouped_e(src: Seq<char>, res: Result<(Expr, Cursor), Diag>) -> Result<(Expr, Cursor), Diag> {
    match res {
        Ok((e, t)) => if t.0 != TokenType::RIGHT_PAREN {
            Err(error_at_token(t, "Expect ')' after expression."@))
        } else if !clean(src, t) {
            Err(lexical_at(src, t))
        } else {
            Ok((e, adv(src, t)))
        },
        Err(d) => Err(d),
    }
}

/// The infix loop of `pratt_e`, with `k` pool entries taken.
pub open spec fn pratt_e_loop(src: Seq<char>, p: nat, left: Expr, t: Cursor, k: int) -> Result<
    (Expr, Cursor),
    Diag,
>
    decreases rank_of(src, t), 0nat,
{
    if p >= 1 && precedence_of(t.0).rank() >= p {
        let t1 = adv(src, t);
        if !clean(src, t) {
            Err(lexical_at(src, t))
        } else if rank_of(src, t1) >= rank_of(src, t) {
            Err(error_at_token(t, "Expect expression."@))
        } else {
            match pratt_e(src, right_rank(t.0), t1, k) {
                Ok((r, t2)) => if rank_of(src, t2) < rank_of(src, t) {
                    pratt_e_loop(
                        src,
                        p,
                        Expr::Binary(binop_of(t.0), Box::new(left), Box::new(r), t.2),
                        t2,
                        k + literals(r).len(),
                    )
                } else {
                    Err(error_at_token(t, "Expect expression."@))
                },
                Err(d) => Err(d),
            }
        }
    } else {
        Ok((left, t))
    }
}

/// The first diagnostic compiling `src` records, if any.
pub open spec fn first_diagnostic(src: Seq<char>) -> Option<Diag> {
    let first = scan_spec(src, 0, 1);
    if first.0 == TokenType::ERROR {
        Some((first.2, ErrorSite::Lexical, first.1, first.1))
    } else {
        match pratt_e(src, 1, start_cursor(src), 0) {
            Err(d) => Some(d),
            Ok((e, t)) => if t.0 != TokenType::EOF {
                Some(error_at_token(t, "Expect end of expression."@))
            } else {
                None
            },
        }
    }
}

/// The error-aware parse succeeds exactly when the plain one does and its
/// literals fit beside the `k` entries taken, with the same result.
pub proof fn lemma_pratt_e(src: Seq<char>, p: nat, t: Cursor, k: int)
    requires
        1 <= p,
    ensures
        pratt_e(src, p, t, k) is Ok == (pratt(src, p, t) is Some && k + literals(
            (pratt(src, p, t)->0).0,
        ).len() <= MAX_CONSTANTS),
        pratt_e(src, p, t, k) is Ok ==> pratt_e(src, p, t, k)->Ok_0 == pratt(src, p, t)->0,
    decreases rank_of(src, t), 1nat,
{
    let t1 = adv(src, t);
    if clean(src, t) && prefix_of(t.0) is Some && rank_of(src, t1) < rank_of(src, t) {
        if t.0 == TokenType::NUMBER {
            if k < MAX_CONSTANTS {
                lemma_pratt_e_loop(src, p, Expr::Number(t.1, t.2), t1, k + 1);
            }
            lemma_loop_keeps_literals(src, p, Expr::Number(t.1, t.2), t1);
        } else if t.0 == TokenType::MINUS {
            lemma_pratt_e(src, 8, t1, k);
            if let Some((e, t2)) = pratt(src, 8, t1) {
                if rank_of(src, t2) < rank_of(src, t) {
                    let n = Expr::Negate(Box::new(e), t.2);
                    if k + literals(e).len() <= MAX_CONSTANTS {
                        lemma_pratt_e_loop(src, p, n, t2, k + literals(e).len());
                    }
                    lemma_loop_keeps_literals(src, p, n, t2);
                }
            }
        } else {
            lemma_pratt_e(src, 1, t1, k);
            if let Some((e, t2)) = pratt(src, 1, t1) {
                let t3 = adv(src, t2);
                if rank_of(src, t3) < rank_of(src, t) {
                    if k + literals(e).len() <= MAX_CONSTANTS {
                        lemma_pratt_e_loop(src, p, e, t3, k + literals(e).len());
                    }
                    lemma_loop_keeps_literals(src, p, e, t3);
                }
            }
        }
    }
}

pub proof fn lemma_pratt_e_loop(src: Seq<char>, p: nat, l: Expr, t: Cursor, k: int)
    requires
        1 <= p,
        k <= MAX_CONSTANTS,
    ensures
        pratt_e_loop(src, p, l, t, k) is Ok == (pratt_loop(src, p, l, t) is Some && k + literals(
            (pratt_loop(src, p, l, t)->0).0,
        ).len() - literals(l).len() <= MAX_CONSTANTS),
        pratt_e_loop(src, p, l, t, k) is Ok ==> pratt_e_loop(src, p, l, t, k)->Ok_0 == pratt_loop(
            src,
            p,
            l,
            t,
        )->0,
    decreases rank_of(src, t), 0nat,
{
    if p >= 1 && precedence_of(t.0).rank() >= p {
        let t1 = adv(src, t);
        if clean(src, t) && rank_of(src, t1) < rank_of(src, t) {
            assert(1 <= right_rank(t.0) <= 8);
            lemma_pratt_e(src, right_rank(t.0), t1, k);
            if let Some((r, t2)) = pratt(src, right_rank(t.0), t1) {
                if rank_of(src, t2) < rank_of(src, t) {
                    let b = Expr::Binary(binop_of(t.0), Box::new(l), Box::new(r), t.2);
                    if k + literals(r).len() <= MAX_CONSTANTS {
                        lemma_pratt_e_loop(src, p, b, t2, k + literals(r).len());
                    }
                    lemma_loop_keeps_literals(src, p, b, t2);
                }
            }
        }
    }
}

} // verus!
