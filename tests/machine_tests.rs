use rlox::chunk::Chunk;
use rlox::compiler::Compiler;
use rlox::opcode::OpCode;
use rlox::parser::{ErrorSite, Parser, Precedence};
use rlox::scanner::Scanner;
use rlox::token::TokenType;
use rlox::value::Value;
use rlox::vm::{Action, Fault, InterpretResult, VM};

fn text(v: &[char]) -> String {
    v.iter().collect()
}

/// Applies the executed actions to a stack of doubles; returns the value
/// handed to the return.
fn evaluate(chunk: &Chunk, actions: &[Action]) -> Option<f64> {
    let mut stack: Vec<f64> = Vec::new();
    for a in actions {
        match a {
            Action::Push(i) => {
                let Value::Number(d) = &chunk.values.data[*i as usize];
                stack.push(text(d).parse().unwrap());
            }
            Action::Negate => {
                let v = stack.pop().unwrap();
                stack.push(-v);
            }
            Action::Return => return stack.pop(),
            op => {
                let b = stack.pop().unwrap();
                let a = stack.pop().unwrap();
                stack.push(match op {
                    Action::Add => a + b,
                    Action::Subtract => a - b,
                    Action::Multiply => a * b,
                    _ => a / b,
                });
            }
        }
    }
    None
}

fn eval_source(source: &str) -> (InterpretResult, Option<f64>) {
    let mut vm = VM::new();
    let (status, actions, _) = vm.interpret(source.to_string());
    (status, evaluate(&vm.chunk, &actions))
}

fn op(o: OpCode) -> u8 {
    o.to_byte()
}

#[test]
fn subtraction_groups_to_the_left() {
    assert_eq!(eval_source("8 - 2 - 3"), (InterpretResult::Success, Some(3.0)));
    let mut c = Compiler::new("8 - 2 - 3".to_string());
    assert!(c.compile());
    let k = op(OpCode::OP_CONSTANT);
    assert_eq!(
        c.get_chunk().code,
        vec![k, 0, k, 1, op(OpCode::OP_SUBTRACT), k, 2, op(OpCode::OP_SUBTRACT), op(OpCode::OP_RETURN)]
    );
}

#[test]
fn multiplication_binds_tighter_than_addition() {
    assert_eq!(eval_source("1 + 2 * 3"), (InterpretResult::Success, Some(7.0)));
    assert_eq!(eval_source("(1 + 2) * 3"), (InterpretResult::Success, Some(9.0)));
    assert_eq!(eval_source("10 / 4 - 1"), (InterpretResult::Success, Some(1.5)));
}

#[test]
fn unary_minus_binds_tightest() {
    assert_eq!(eval_source("-2 + 3"), (InterpretResult::Success, Some(1.0)));
    assert_eq!(eval_source("-(2 + 3)"), (InterpretResult::Success, Some(-5.0)));
    assert_eq!(eval_source("--4 * -2"), (InterpretResult::Success, Some(-8.0)));
}

#[test]
fn missing_paren_is_a_compile_error_and_nothing_runs() {
    let mut vm = VM::new();
    let (status, actions, diagnostics) = vm.interpret("(1 + 2".to_string());
    assert_eq!(status, InterpretResult::CompileError);
    assert!(actions.is_empty());
    assert!(vm.chunk.code.is_empty());
    assert_eq!(diagnostics.len(), 1);
    assert_eq!(diagnostics[0].site, ErrorSite::AtEnd);
    assert_eq!(text(&diagnostics[0].message), "Expect ')' after expression.");
}

#[test]
fn unexpected_character_names_it_and_its_line() {
    let mut vm = VM::new();
    let (status, actions, diagnostics) = vm.interpret("1 +\n@ 2".to_string());
    assert_eq!(status, InterpretResult::CompileError);
    assert!(actions.is_empty());
    assert_eq!(diagnostics.len(), 1);
    assert_eq!(diagnostics[0].line, 2);
    assert_eq!(diagnostics[0].site, ErrorSite::Lexical);
    assert_eq!(text(&diagnostics[0].message), "Unexpected character: @");
}

#[test]
fn missing_operand_reports_expect_expression() {
    let mut c = Compiler::new("1 +".to_string());
    assert!(!c.compile());
    let d = &c.parser.diagnostics[0];
    assert_eq!(d.site, ErrorSite::AtEnd);
    assert_eq!(text(&d.message), "Expect expression.");
}

#[test]
fn trailing_token_reports_at_its_lexeme() {
    let mut c = Compiler::new("1 2".to_string());
    assert!(!c.compile());
    let d = &c.parser.diagnostics[0];
    assert_eq!(d.site, ErrorSite::AtLexeme);
    assert_eq!(text(&d.lexeme), "2");
    assert_eq!(text(&d.message), "Expect end of expression.");
}

#[test]
fn panic_mode_keeps_only_the_first_diagnostic() {
    let mut c = Compiler::new("@ # 1 +".to_string());
    assert!(!c.compile());
    assert_eq!(c.parser.diagnostics.len(), 1);
    assert_eq!(text(&c.parser.diagnostics[0].message), "Unexpected character: @");
}

fn sum_of(n: usize) -> String {
    let mut s = String::from("1");
    for _ in 1..n {
        s.push_str(" + 1");
    }
    s
}

#[test]
fn pool_holds_255_literals() {
    let mut c = Compiler::new(sum_of(255));
    assert!(c.compile());
    assert_eq!(c.current_chunk.values.data.len(), 255);
    assert_eq!(eval_source(&sum_of(255)), (InterpretResult::Success, Some(255.0)));
}

#[test]
fn literal_256_is_too_many_constants() {
    let mut c = Compiler::new(sum_of(256));
    assert!(!c.compile());
    assert_eq!(c.current_chunk.values.data.len(), 255);
    assert_eq!(text(&c.parser.diagnostics[0].message), "Too many constants in one chunk.");
    assert_eq!(eval_source(&sum_of(256)).0, InterpretResult::CompileError);
}

#[test]
fn one_line_per_byte_from_the_producing_token() {
    let mut c = Compiler::new("1\n+\n2\n*\n-3".to_string());
    assert!(c.compile());
    let chunk = c.get_chunk();
    assert_eq!(chunk.code.len(), chunk.lines.len());
    let k = op(OpCode::OP_CONSTANT);
    assert_eq!(
        chunk.code,
        vec![k, 0, k, 1, k, 2, op(OpCode::OP_NEGATE), op(OpCode::OP_MULTIPLY), op(OpCode::OP_ADD), op(OpCode::OP_RETURN)]
    );
    assert_eq!(chunk.lines, vec![1, 1, 3, 3, 5, 5, 5, 4, 2, 5]);
}

#[test]
fn pushing_past_the_stack_is_a_runtime_error() {
    let mut chunk = Chunk::new();
    chunk.add_constant(Value::Number(vec!['1']));
    for _ in 0..257 {
        chunk.write_chunk(op(OpCode::OP_CONSTANT), 1);
        chunk.write_chunk(0, 1);
    }
    chunk.write_chunk(op(OpCode::OP_RETURN), 1);
    let mut vm = VM::new();
    vm.load(chunk);
    let (status, actions) = vm.run();
    assert_eq!(status, InterpretResult::RuntimeError);
    assert_eq!(actions.len(), 256);
    assert_eq!(vm.stack_top, 256);
    assert_eq!(vm.step(), Err(Fault::StackOverflow));
}

#[test]
fn faults_on_bad_bytecode() {
    let mut vm = VM::new();
    assert_eq!(vm.step(), Err(Fault::EndOfCode));
    let mut chunk = Chunk::new();
    chunk.write_chunk(9, 1);
    vm.load(chunk);
    assert_eq!(vm.step(), Err(Fault::CorruptBytecode));
    let mut chunk = Chunk::new();
    chunk.write_chunk(op(OpCode::OP_ADD), 1);
    vm.load(chunk);
    assert_eq!(vm.step(), Err(Fault::StackUnderflow));
    let mut chunk = Chunk::new();
    chunk.write_chunk(op(OpCode::OP_CONSTANT), 1);
    chunk.write_chunk(0, 1);
    vm.load(chunk);
    assert_eq!(vm.step(), Err(Fault::BadConstant));
    let mut chunk = Chunk::new();
    chunk.write_chunk(op(OpCode::OP_CONSTANT), 1);
    vm.load(chunk);
    assert_eq!(vm.step(), Err(Fault::MissingOperand));
    assert_eq!(vm.ip, 0);
}

#[test]
fn opcodes_round_trip_through_bytes() {
    for b in 0u8..=255 {
        match OpCode::from_byte(b) {
            Some(o) => assert_eq!(o.to_byte(), b),
            None => assert!(b > 6),
        }
    }
    assert_eq!(OpCode::OP_RETURN.to_byte(), 6);
}

#[test]
fn precedence_next_steps_up_and_wraps() {
    assert_eq!(Precedence::Term.next(), Precedence::Factor);
    assert_eq!(Precedence::Factor.next(), Precedence::Unary);
    assert_eq!(Precedence::Primary.next(), Precedence::Lowest);
    assert_eq!(Precedence::Unary.level(), 8);
}

#[test]
fn parser_advance_skips_lexical_errors() {
    let mut p = Parser::new(Scanner::new("1 $ +".to_string()));
    p.advance();
    assert_eq!(p.current().token_type, TokenType::NUMBER);
    p.advance();
    assert_eq!(p.previous().token_type, TokenType::NUMBER);
    assert_eq!(p.current().token_type, TokenType::PLUS);
    assert!(p.had_error);
    assert_eq!(p.diagnostics[0].site, ErrorSite::Lexical);
    p.consume(TokenType::PLUS, "x");
    assert_eq!(p.current().token_type, TokenType::EOF);
    assert_eq!(p.previous_line(), 1);
}

#[test]
fn successful_run_executes_the_postfix_actions() {
    let mut vm = VM::new();
    let (status, actions, diagnostics) = vm.interpret("1 + 2 * 3".to_string());
    assert_eq!(status, InterpretResult::Success);
    assert!(diagnostics.is_empty());
    assert_eq!(
        actions,
        vec![
            Action::Push(0),
            Action::Push(1),
            Action::Push(2),
            Action::Multiply,
            Action::Add,
            Action::Return
        ]
    );
}

#[test]
fn the_machine_is_reused_across_inputs() {
    let mut vm = VM::new();
    assert_eq!(vm.interpret("(".to_string()).0, InterpretResult::CompileError);
    let (status, actions, _) = vm.interpret("4 / 2".to_string());
    assert_eq!(status, InterpretResult::Success);
    assert_eq!(evaluate(&vm.chunk, &actions), Some(2.0));
    assert_eq!(vm.stack_top, 0);
}

#[test]
fn disassembly_lists_each_instruction_with_its_line() {
    let mut c = Compiler::new("1 +\n2".to_string());
    assert!(c.compile());
    let listing = c.get_chunk().disassemble();
    assert_eq!(listing.len(), 4);
    assert_eq!(listing[0].offset, 0);
    assert_eq!(listing[0].opcode, Some(OpCode::OP_CONSTANT));
    assert_eq!(listing[0].operand, Some(0));
    assert!(!listing[0].same_line);
    assert_eq!(listing[1].offset, 2);
    assert_eq!(listing[1].line, 2);
    assert!(!listing[1].same_line);
    assert_eq!(listing[2].opcode, Some(OpCode::OP_ADD));
    assert_eq!(listing[2].line, 1);
    assert!(!listing[2].same_line);
    assert_eq!(listing[3].offset, 5);
    assert_eq!(listing[3].opcode, Some(OpCode::OP_RETURN));
}

#[test]
fn disassembly_marks_unknown_bytes() {
    let mut chunk = Chunk::new();
    chunk.write_chunk(200, 3);
    let listing = chunk.disassemble();
    assert_eq!(listing.len(), 1);
    assert_eq!(listing[0].opcode, None);
    assert_eq!(listing[0].byte, 200);
    assert_eq!(listing[0].line, 3);
}

#[test]
fn chunk_free_and_pool_indices() {
    let mut chunk = Chunk::new();
    assert_eq!(chunk.add_constant(Value::Number(vec!['1'])), 0);
    assert_eq!(chunk.add_constant(Value::Number(vec!['2'])), 1);
    chunk.write_chunk(op(OpCode::OP_RETURN), 7);
    chunk.free();
    assert!(chunk.code.is_empty());
    assert!(chunk.lines.is_empty());
    assert!(chunk.values.data.is_empty());
}

#[test]
fn each_byte_carries_the_line_of_its_token() {
    let mut c = Compiler::new("1\n+ 2".to_string());
    assert!(c.compile());
    assert_eq!(c.current_chunk.code, vec![0, 0, 0, 1, 1, 6]);
    assert_eq!(c.current_chunk.lines, vec![1, 1, 2, 2, 2, 2]);
}

#[test]
fn stack_is_empty_after_the_return() {
    let mut chunk = Chunk::new();
    chunk.add_constant(Value::Number(vec!['6']));
    chunk.add_constant(Value::Number(vec!['3']));
    for b in [0u8, 0, 0, 1, 4, 6] {
        chunk.write_chunk(b, 1);
    }
    let mut vm = VM::new();
    vm.load(chunk);
    let (status, actions) = vm.run();
    assert_eq!(status, InterpretResult::Success);
    assert_eq!(evaluate(&vm.chunk, &actions), Some(2.0));
    assert_eq!(vm.stack_top, 0);
}

#[test]
fn unterminated_string_is_reported_as_lexical() {
    let mut c = Compiler::new("1 + \"ab".to_string());
    assert!(!c.compile());
    assert_eq!(c.parser.diagnostics.len(), 1);
    assert_eq!(c.parser.diagnostics[0].site, ErrorSite::Lexical);
    assert_eq!(text(&c.parser.diagnostics[0].message), "Unterminated string.");
}
