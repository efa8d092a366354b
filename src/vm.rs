use vstd::prelude::*;
use crate::chunk::Chunk;
use crate::compiler::Compiler;
use crate::value::Value;
use crate::grammar::{
    BinOp,
    Expr,
    binop_byte,
    code_of,
    compiles_to,
    g_expr,
    lines_of,
    start_cursor,
    first_diagnostic,
    literals,
    well_formed,
};
use crate::opcode::{OpCode, opcode_byte, opcode_of};
use crate::parser::Diagnostic;

verus! {

/// The outcome of interpreting a program.
#[derive(Debug, Clone, Copy, PartialEq, Eq, Structural)]
pub enum InterpretResult {
    Success,
    CompileError,
    RuntimeError,
}

/// The depth of the value stack.
pub const STACK_MAX: usize = 256;

/// What one executed instruction does to the value stack.
#[derive(Debug, Clone, Copy, PartialEq, Eq, Structural)]
pub enum Action {
    /// Push the pool entry with this index.
    Push(u8),
    /// Pop the right operand, then the left, and push `left + right`.
    Add,
    Subtract,
    Multiply,
    Divide,
    /// Pop one value and push its negation.
    Negate,
    /// Pop the result and stop.
    Return,
}

/// Why execution stopped short of a return.
#[derive(Debug, Clone, Copy, PartialEq, Eq, Structural)]
pub enum Fault {
    StackOverflow,
    StackUnderflow,
    CorruptBytecode,
    MissingOperand,
    BadConstant,
    EndOfCode,
}

/// One fetch-decode-execute step on code `code` with a pool of `n` entries,
/// at offset `ip` with `top` values on the stack: the action or fault, and
/// the offset and depth after it (unchanged on a fault).
pub open spec fn step_spec(code: Seq<u8>, n: int, ip: int, top: int) -> (Result<Action, Fault>, int, int) {
    if ip < 0 || ip >= code.len() {
        (Err(Fault::EndOfCode), ip, top)
    } else {
        match opcode_of(code[ip]) {
            None => (Err(Fault::CorruptBytecode), ip, top),
            Some(OpCode::OP_CONSTANT) => {
                if ip + 1 >= code.len() {
                    (Err(Fault::MissingOperand), ip, top)
                } else if code[ip + 1] >= n {
                    (Err(Fault::BadConstant), ip, top)
                } else if top >= STACK_MAX {
                    (Err(Fault::StackOverflow), ip, top)
                } else {
                    (Ok(Action::Push(code[ip + 1])), ip + 2, top + 1)
                }
            },
            Some(OpCode::OP_NEGATE) => {
                if top < 1 {
                    (Err(Fault::StackUnderflow), ip, top)
                } else {
                    (Ok(Action::Negate), ip + 1, top)
                }
            },
            Some(OpCode::OP_RETURN) => {
                if top < 1 {
                    (Err(Fault::StackUnderflow), ip, top)
                } else {
                    (Ok(Action::Return), ip + 1, top - 1)
                }
            },
            Some(op) => {
                if top < 2 {
                    (Err(Fault::StackUnderflow), ip, top)
                } else {
                    (
                        Ok(
                            match op {
                                OpCode::OP_ADD => Action::Add,
                                OpCode::OP_SUBTRACT => Action::Subtract,
                                OpCode::OP_MULTIPLY => Action::Multiply,
                                _ => Action::Divide,
                            },
                        ),
                        ip + 1,
                        top - 1,
                    )
                }
            },
        }
    }
}

/// Running from offset `ip` with `top` values on the stack: the status, the
/// actions executed in order (a run ends at the first return or fault), and
/// the number of values left on the stack at the end.
pub open spec fn run_spec(code: Seq<u8>, n: int, ip: int, top: int) -> (
    InterpretResult,
    Seq<Action>,
    int,
)
    decreases code.len() - ip,
{
    let s = step_spec(code, n, ip, top);
    match s.0 {
        Err(_) => (InterpretResult::RuntimeError, Seq::empty(), top),
        Ok(Action::Return) => (InterpretResult::Success, seq![Action::Return], s.2),
        Ok(a) => if ip < s.1 {
            let rest = run_spec(code, n, s.1, s.2);
            (rest.0, seq![a] + rest.1, rest.2)
        } else {
            (InterpretResult::RuntimeError, Seq::empty(), top)
        },
    }
}

/// Pushing onto a full stack is a run-time error: the run that meets it ends
/// with that status, having executed nothing from there on.
pub proof fn lemma_overflow_is_runtime_error(code: Seq<u8>, n: int, ip: int, top: int)
    requires
        0 <= ip < code.len(),
        opcode_of(code[ip]) == Some(OpCode::OP_CONSTANT),
        ip + 1 < code.len(),
        code[ip + 1] < n,
        top >= STACK_MAX,
    ensures
        step_spec(code, n, ip, top).0 == Err::<Action, Fault>(Fault::StackOverflow),
        run_spec(code, n, ip, top) == (InterpretResult::RuntimeError, Seq::<Action>::empty(), top),
{
}

/// The machine: the chunk it runs, the offset of the next instruction, and
/// the number of values on the stack.
pub struct VM {
    pub chunk: Chunk,
    pub ip: usize,
    pub stack_top: usize,
}

impl VM {
    pub open spec fn wf(&self) -> bool {
        &&& self.ip <= self.chunk.code@.len()
        &&& self.stack_top <= STACK_MAX
    }

    pub open spec fn pool_len(&self) -> int {
        self.chunk.values.data@.len() as int
    }

    pub fn new() -> (r: VM)
        ensures
            r.wf(),
            r.chunk.code@.len() == 0,
            r.ip == 0,
            r.stack_top == 0,
    {
        VM { chunk: Chunk::new(), ip: 0, stack_top: 0 }
    }

    /// Replaces the chunk and resets the offset and the stack.
    pub fn load(&mut self, chunk: Chunk)
        ensures
            final(self).wf(),
            final(self).chunk == chunk,
            final(self).ip == 0,
            final(self).stack_top == 0,
    {
        self.chunk = chunk;
        self.ip = 0;
        self.stack_top = 0;
    }

    fn read_byte(&mut self) -> (r: u8)
        requires
            old(self).ip < old(self).chunk.code@.len(),
        ensures
            r == old(self).chunk.code@[old(self).ip as int],
            final(self).ip == old(self).ip + 1,
            final(self).chunk == old(self).chunk,
            final(self).stack_top == old(self).stack_top,
    {
        let len = self.chunk.code.len();
        let byte = self.chunk.code[self.ip];
        assert(self.ip < len);
        self.ip = self.ip + 1;
        byte
    }

    fn push(&mut self) -> (r: Result<(), Fault>)
        requires
            old(self).wf(),
        ensures
            final(self).chunk == old(self).chunk,
            final(self).ip == old(self).ip,
            r is Ok == (old(self).stack_top < STACK_MAX),
            r is Ok ==> final(self).stack_top == old(self).stack_top + 1,
            r is Err ==> r == Err::<(), Fault>(Fault::StackOverflow) && final(self).stack_top
                == old(self).stack_top,
    {
        if self.stack_top >= STACK_MAX {
            return Err(Fault::StackOverflow);
        }
        self.stack_top = self.stack_top + 1;
        Ok(())
    }

    /// Executes one instruction, as `step_spec` describes.
    pub fn step(&mut self) -> (r: Result<Action, Fault>)
        requires
            old(self).wf(),
        ensures
            final(self).wf(),
            final(self).chunk == old(self).chunk,
            ({
                let s = step_spec(
                    old(self).chunk.code@,
                    old(self).pool_len(),
                    old(self).ip as int,
                    old(self).stack_top as int,
                );
                &&& r == s.0
                &&& final(self).ip == s.1
                &&& final(self).stack_top == s.2
            }),
    {
        if self.ip >= self.chunk.code.len() {
            return Err(Fault::EndOfCode);
        }
        let start = self.ip;
        let byte = self.read_byte();
        let instruction = match OpCode::from_byte(byte) {
            Some(op) => op,
            None => {
                self.ip = start;
                return Err(Fault::CorruptBytecode);
            },
        };
        match instruction {
            OpCode::OP_CONSTANT => {
                if self.ip >= self.chunk.code.len() {
                    self.ip = start;
                    return Err(Fault::MissingOperand);
                }
                let index = self.read_byte();
                if index as usize >= self.chunk.values.data.len() {
                    self.ip = start;
                    return Err(Fault::BadConstant);
                }
                match self.push() {
                    Ok(()) => Ok(Action::Push(index)),
                    Err(f) => {
                        self.ip = start;
                        Err(f)
                    },
                }
            },
            OpCode::OP_NEGATE => {
                if self.stack_top < 1 {
                    self.ip = start;
                    return Err(Fault::StackUnderflow);
                }
                Ok(Action::Negate)
            },
            OpCode::OP_RETURN => {
                if self.stack_top < 1 {
                    self.ip = start;
                    return Err(Fault::StackUnderflow);
                }
                self.stack_top = self.stack_top - 1;
                Ok(Action::Return)
            },
            _ => {
                if self.stack_top < 2 {
                    self.ip = start;
                    return Err(Fault::StackUnderflow);
                }
                self.stack_top = self.stack_top - 1;
                Ok(
                    match instruction {
                        OpCode::OP_ADD => Action::Add,
                        OpCode::OP_SUBTRACT => Action::Subtract,
                        OpCode::OP_MULTIPLY => Action::Multiply,
                        _ => Action::Divide,
                    },
                )
            },
        }
    }

    /// Runs the loaded chunk from where it stands to its return or to the
    /// first fault, as `run_spec` describes; returns the status and the
    /// actions executed, in order, and leaves the stack at the depth
    /// `run_spec` gives.
    pub fn run(&mut self) -> (r: (InterpretResult, Vec<Action>))
        requires
            old(self).wf(),
        ensures
            final(self).wf(),
            final(self).chunk == old(self).chunk,
            (r.0, r.1@, final(self).stack_top as int) == run_spec(
                old(self).chunk.code@,
                old(self).pool_len(),
                old(self).ip as int,
                old(self).stack_top as int,
            ),
    {
        let ghost code = self.chunk.code@;
        let ghost n = self.pool_len();
        let ghost target = run_spec(code, n, self.ip as int, self.stack_top as int);
        let mut actions: Vec<Action> = Vec::new();
        loop
            invariant
                self.wf(),
                self.chunk == old(self).chunk,
                code == old(self).chunk.code@,
                n == old(self).pool_len(),
                target == run_spec(code, n, old(self).ip as int, old(self).stack_top as int),
                ({
                    let rest = run_spec(code, n, self.ip as int, self.stack_top as int);
                    target == (rest.0, actions@ + rest.1, rest.2)
                }),
            decreases code.len() - self.ip,
        {
            let ghost ip = self.ip as int;
            let ghost top = self.stack_top as int;
            match self.step() {
                Err(_) => {
                    assert(actions@ + Seq::<Action>::empty() =~= actions@);
                    return (InterpretResult::RuntimeError, actions);
                },
                Ok(Action::Return) => {
                    let ghost before = actions@;
                    actions.push(Action::Return);
                    assert(before + seq![Action::Return] =~= actions@);
                    return (InterpretResult::Success, actions);
                },
                Ok(a) => {
                    let ghost before = actions@;
                    actions.push(a);
                    proof {
                        let rest = run_spec(code, n, self.ip as int, self.stack_top as int);
                        assert(before + (seq![a] + rest.1) =~= actions@ + rest.1);
                    }
                },
            }
        }
    }

    /// Compiles `source` and, only when that succeeds, loads the chunk and
    /// runs it. On a compile failure nothing is executed: the machine is left
    /// with an empty chunk and the status is `CompileError`. Returns the
    /// status, the actions executed and the compiler's diagnostics.
    pub fn interpret(&mut self, source: String) -> (r: (InterpretResult, Vec<Action>, Vec<Diagnostic>))
        requires
            source@.len() < usize::MAX,
        ensures
            final(self).wf(),
            final(self).chunk.wf(),
            (r.0 == InterpretResult::CompileError) == (r.2@.len() > 0),
            r.0 == InterpretResult::CompileError ==> r.1@.len() == 0 && final(
                self).chunk.code@.len() == 0,
            r.0 != InterpretResult::CompileError ==> {
                &&& (r.0, r.1@, final(self).stack_top as int) == run_spec(
                    final(self).chunk.code@,
                    final(self).pool_len(),
                    0,
                    0,
                )
                &&& final(self).chunk.code@.len() > 0
                &&& final(self).chunk.code@.last() == crate::opcode::opcode_byte(OpCode::OP_RETURN)
                &&& final(self).ip <= final(self).chunk.code@.len()
            },
            (r.0 == InterpretResult::CompileError) == !well_formed(source@),
            r.0 == InterpretResult::CompileError ==> r.2@.map_values(|d: Diagnostic| d@) == seq![
                first_diagnostic(source@)->0,
            ],
            r.0 != InterpretResult::CompileError ==> {
                let g = g_expr(source@, start_cursor(source@));
                &&& g is Some
                &&& ((g->0).1).0 == crate::token::TokenType::EOF
                &&& r.0 == InterpretResult::Success
                &&& r.1@ == actions_of((g->0).0, 0).push(Action::Return)
                &&& final(self).chunk.values.data@.map_values(|v: Value| v.digits()) == literals(
                    (g->0).0,
                )
                &&& final(self).stack_top == 0
            },
    {
        let ghost src = source@;
        let mut compiler = Compiler::new(source);
        let ok = compiler.compile();
        let diagnostics = compiler.parser.diagnostics;
        if !ok {
            self.load(Chunk::new());
            return (InterpretResult::CompileError, Vec::new(), diagnostics);
        }
        proof {
            lemma_compiled_program_runs(
                src,
                compiler.current_chunk.code@,
                compiler.current_chunk.lines@,
                compiler.pool(),
            );
        }
        self.load(compiler.current_chunk);
        let (status, actions) = self.run();
        proof {
            lemma_run_never_compile_error(
                self.chunk.code@,
                self.pool_len(),
                0,
                0,
            );
        }
        (status, actions, diagnostics)
    }
}

/// A run ends in success or in a run-time error, never in a compile error.
pub proof fn lemma_run_never_compile_error(code: Seq<u8>, n: int, ip: int, top: int)
    ensures
        run_spec(code, n, ip, top).0 != InterpretResult::CompileError,
    decreases code.len() - ip,
{
    let s = step_spec(code, n, ip, top);
    if let Ok(a) = s.0 {
        if a != Action::Return && ip < s.1 {
            lemma_run_never_compile_error(code, n, s.1, s.2);
        }
    }
}

/// The action an operator's instruction performs.
pub open spec fn binop_action(b: BinOp) -> Action {
    match b {
        BinOp::Add => Action::Add,
        BinOp::Subtract => Action::Subtract,
        BinOp::Multiply => Action::Multiply,
        BinOp::Divide => Action::Divide,
    }
}

/// The actions that evaluating an expression in postfix order takes, its
/// literals loaded from the pool entries from index `k` on.
pub open spec fn actions_of(e: Expr, k: int) -> Seq<Action>
    decreases e,
{
    match e {
        Expr::Number(_, _) => seq![Action::Push(k as u8)],
        Expr::Negate(a, _) => actions_of(*a, k) + seq![Action::Negate],
        Expr::Binary(op, a, b, _) => actions_of(*a, k) + actions_of(*b, k + literals(*a).len()) + seq![
            binop_action(op),
        ],
    }
}

/// The most values that evaluating an expression in postfix order holds on
/// the stack at once.
pub open spec fn depth(e: Expr) -> nat
    decreases e,
{
    match e {
        Expr::Number(_, _) => 1,
        Expr::Negate(a, _) => depth(*a),
        Expr::Binary(_, a, b, _) => if depth(*a) >= 1 + depth(*b) {
            depth(*a)
        } else {
            1 + depth(*b)
        },
    }
}

pub proof fn lemma_depth_bound(e: Expr)
    ensures
        1 <= depth(e) <= literals(e).len(),
    decreases e,
{
    match e {
        Expr::Number(_, _) => {},
        Expr::Negate(a, _) => lemma_depth_bound(*a),
        Expr::Binary(_, a, b, _) => {
            lemma_depth_bound(*a);
            lemma_depth_bound(*b);
        },
    }
}

/// One step that executes an action other than a return, then the rest of
/// the run.
pub proof fn lemma_run_one(code: Seq<u8>, n: int, ip: int, d: int)
    requires
        step_spec(code, n, ip, d).0 is Ok,
        step_spec(code, n, ip, d).0 != Ok::<Action, Fault>(Action::Return),
        ip < step_spec(code, n, ip, d).1,
    ensures
        ({
            let s = step_spec(code, n, ip, d);
            let rest = run_spec(code, n, s.1, s.2);
            run_spec(code, n, ip, d) == (rest.0, seq![s.0->Ok_0] + rest.1, rest.2)
        }),
{
}

/// Running the postfix code of `e` where it stands in `code` executes the
/// postfix actions of `e`, leaves one more value on the stack, and goes on
/// after it.
pub proof fn lemma_run_segment(code: Seq<u8>, n: int, ip: int, d: int, e: Expr, k: int)
    requires
        0 <= ip,
        0 <= d,
        0 <= k,
        ip + code_of(e, k).len() <= code.len(),
        code.subrange(ip, ip + code_of(e, k).len()) == code_of(e, k),
        k + literals(e).len() <= n,
        k + literals(e).len() <= 256,
        d + depth(e) <= STACK_MAX,
    ensures
        ({
            let rest = run_spec(code, n, ip + code_of(e, k).len(), d + 1);
            run_spec(code, n, ip, d) == (rest.0, actions_of(e, k) + rest.1, rest.2)
        }),
    decreases e, 1nat,
{
    let c = code_of(e, k);
    match e {
        Expr::Number(_, _) => {
            assert(code[ip] == code.subrange(ip, ip + c.len())[0]);
            assert(code[ip + 1] == code.subrange(ip, ip + c.len())[1]);
            assert(step_spec(code, n, ip, d) == (
                Ok::<Action, Fault>(Action::Push(k as u8)),
                ip + 2,
                d + 1,
            ));
            lemma_run_one(code, n, ip, d);
        },
        Expr::Negate(a, _) => {
            let ca = code_of(*a, k);
            assert(code.subrange(ip, ip + ca.len()) =~= c.subrange(0, ca.len() as int));
            assert(c.subrange(0, ca.len() as int) =~= ca);
            lemma_run_segment(code, n, ip, d, *a, k);
            let j = ip + ca.len();
            assert(code[j] == code.subrange(ip, ip + c.len())[ca.len() as int]);
            assert(step_spec(code, n, j, d + 1) == (
                Ok::<Action, Fault>(Action::Negate),
                j + 1,
                d + 1,
            ));
            lemma_run_one(code, n, j, d + 1);
            let rest = run_spec(code, n, j + 1, d + 1);
            assert(actions_of(*a, k) + (seq![Action::Negate] + rest.1) =~= actions_of(e, k)
                + rest.1);
        },
        Expr::Binary(op, a, b, l) => {
            lemma_run_binary(code, n, ip, d, e, op, *a, *b, l, k);
        },
    }
}

proof fn lemma_run_binary(
    code: Seq<u8>,
    n: int,
    ip: int,
    d: int,
    e: Expr,
    op: BinOp,
    a: Expr,
    b: Expr,
    l: int,
    k: int,
)
    requires
        e == Expr::Binary(op, Box::new(a), Box::new(b), l),
        0 <= ip,
        0 <= d,
        0 <= k,
        ip + code_of(e, k).len() <= code.len(),
        code.subrange(ip, ip + code_of(e, k).len()) == code_of(e, k),
        k + literals(e).len() <= n,
        k + literals(e).len() <= 256,
        d + depth(e) <= STACK_MAX,
    ensures
        ({
            let rest = run_spec(code, n, ip + code_of(e, k).len(), d + 1);
            run_spec(code, n, ip, d) == (rest.0, actions_of(e, k) + rest.1, rest.2)
        }),
    decreases e, 0nat,
{
    let c = code_of(e, k);
    let ca = code_of(a, k);
    let kb = k + literals(a).len();
    let cb = code_of(b, kb);
    assert(c == ca + cb + seq![binop_byte(op)]);
    assert(code.subrange(ip, ip + ca.len()) =~= c.subrange(0, ca.len() as int));
    assert(c.subrange(0, ca.len() as int) =~= ca);
    let ib = ip + ca.len();
    assert(code.subrange(ib, ib + cb.len()) =~= c.subrange(ca.len() as int, (ca.len() + cb.len()) as int));
    assert(c.subrange(ca.len() as int, (ca.len() + cb.len()) as int) =~= cb);
    lemma_run_segment(code, n, ip, d, a, k);
    lemma_run_segment(code, n, ib, d + 1, b, kb);
    let j = ib + cb.len();
    assert(code[j] == code.subrange(ip, ip + c.len())[(ca.len() + cb.len()) as int]);
    assert(code[j] == binop_byte(op));
    assert(step_spec(code, n, j, d + 2) == (Ok::<Action, Fault>(binop_action(op)), j + 1, d + 1));
    lemma_run_one(code, n, j, d + 2);
    let rest = run_spec(code, n, j + 1, d + 1);
    assert(actions_of(a, k) + (actions_of(b, kb) + (seq![binop_action(op)] + rest.1))
        =~= actions_of(e, k) + rest.1);
}

/// A successful compilation runs to completion: the machine executes the
/// postfix actions of the tree that the textbook grammar gives the input,
/// then returns, without a fault (the pool bound keeps the stack in range).
pub proof fn lemma_compiled_program_runs(
    src: Seq<char>,
    code: Seq<u8>,
    lines: Seq<usize>,
    pool: Seq<Seq<char>>,
)
    requires
        compiles_to(src, code, lines, pool),
    ensures
        ({
            let g = g_expr(src, start_cursor(src));
            &&& g is Some
            &&& run_spec(code, pool.len() as int, 0, 0) == (
                InterpretResult::Success,
                actions_of((g->0).0, 0).push(Action::Return),
                0int,
            )
        }),
{
    let e = (g_expr(src, start_cursor(src))->0).0;
    let c = code_of(e, 0);
    lemma_depth_bound(e);
    assert(code.subrange(0, c.len() as int) =~= c);
    lemma_run_segment(code, pool.len() as int, 0, 0, e, 0);
    assert(code[c.len() as int] == opcode_byte(OpCode::OP_RETURN));
    assert(actions_of(e, 0) + seq![Action::Return] =~= actions_of(e, 0).push(Action::Return));
}

} // verus!
