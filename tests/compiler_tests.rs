use nariva::compiler::{compile, compile_with, Compiler};
use nariva::error::CompError;
use nariva::generator::Generator;
use nariva::instruction::OpCode;
use nariva::lexer::Lexer;
use nariva::parser::Parser;
use nariva::platform::Platform;
use nariva::token::Token;
use nariva::vm::{Fault, FloatOp, Flag, Machine, PrintMode, HEADER};

struct Host;

impl Platform for Host {
    fn parse_float(&self, text: &Vec<char>) -> Option<u64> {
        text.iter().collect::<String>().parse::<f64>().ok().map(|f| f.to_bits())
    }

    fn float_arith(&self, op: FloatOp, lhs: u64, rhs: u64) -> u64 {
        let (a, b) = (f64::from_bits(lhs), f64::from_bits(rhs));
        let r = match op {
            FloatOp::Add => a + b,
            FloatOp::Sub => a - b,
            FloatOp::Mul => a * b,
            FloatOp::Div => a / b,
            FloatOp::Rem | FloatOp::Compare => a % b,
        };
        r.to_bits()
    }

    fn float_compare(&self, lhs: u64, rhs: u64) -> Flag {
        let d = f64::from_bits(lhs) - f64::from_bits(rhs);
        if d > 0.0 {
            Flag::Greater
        } else if d == 0.0 {
            Flag::Equal
        } else {
            Flag::Less
        }
    }

    fn print(&mut self, _mode: PrintMode, _value: u64) {}

    fn trace(&mut self, _machine: &Machine) {}
}

fn op(s: &str) -> Token {
    Token::OpCode(s.to_string())
}

fn f(x: f64) -> Token {
    Token::NumF(x.to_bits())
}

fn run_source(src: &str) -> (u64, Machine) {
    let bytes = compile(src, &Host).unwrap();
    let mut m = Machine::new();
    let r = m.run(bytes, false, &mut Host);
    (r, m)
}

fn with_header(body: Vec<u8>) -> Vec<u8> {
    [HEADER.to_vec(), body].concat()
}

#[test]
fn basic_lexing() {
    let program = "
        PUSH 3 -21
        PUSH 2 -2.1
        ADDF
        ";

    let output = Lexer::lex(program, &Host).unwrap();

    assert_eq!(vec![op("PUSH"), Token::NumU(3), Token::NumI(-21), op("PUSH"), Token::NumU(2), f(-2.1), op("ADDF")], output)
}

#[test]
fn basic_parsing() {
    let program = vec![op("PUSH"), Token::NumU(3), op("PUSH"), f(-2.1), op("ADDF")];
    let program2 = vec![op("PUSH"), Token::NumU(3), op("PUSH"), f(-2.1), op("ADDF")];

    let output = Parser::parse(program).unwrap();

    assert_eq!(program2, output)
}

#[test]
fn basic_generating() {
    let program = vec![op("Push"), Token::NumU(3), op("PUSH"), f(-2.1), op("ADDF")];
    let binary_code: Vec<u8> = [HEADER.to_vec(), [2, 0, 0, 0, 0, 0, 0, 0, 3, 2, 192, 0, 204, 204, 204, 204, 204, 205, 12].to_vec()].concat();

    let output = Generator::generate(program).unwrap();

    assert_eq!(binary_code, output)
}

#[test]
fn basic_compiling() {
    let mut comp = Compiler::new("../nar files/test.nar".to_string());
    let program = "
            PUSH 2.0
            PUSH 2.5
            ADDF
            PUSH 5.0
            DIVF
        ";

    assert_eq!(Ok(()), comp.compile(program, &Host));
    assert_eq!(HEADER.len() + 3 * 9 + 2, comp.get_output().len());
}

#[test]
fn lex_func() {
    let program = "
        PUSH -21
        ADDF

        my_func:
        PUSH 2
        RETURN
        ";

    let output = Lexer::lex(program, &Host).unwrap();

    assert_eq!(vec![op("PUSH"), Token::NumI(-21), op("ADDF"), Token::Func("my_func".to_string()), op("PUSH"), Token::NumU(2), op("RETURN")], output)
}

#[test]
fn parse_func() {
    let program = vec![op("PUSH"), Token::NumI(-21), op("ADDF"), Token::Func("my_func".to_string()), op("PUSH"), Token::NumU(2), op("RETURN")];
    let program2 = vec![op("PUSH"), Token::NumI(-21), op("ADDF"), op("PUSH"), Token::NumU(2), op("RETURN")];

    let output = Parser::parse(program).unwrap();

    assert_eq!(program2, output)
}

#[test]
fn compile_func1() {
    let mut comp = Compiler::new("../nar files/fizzbuzz.nar".to_string());

    let program = "
            PUSH 30
            DUPLI
            CALL fizz
            CALL buzz
            HALT

            fizz:
            PUSH 5
            MODU
            PUSH 0
            CMP 0
            JNE 3
            PUSH 70
            PRINT 3
            RETURN

            buzz:
            PUSH 3
            MODU
            PUSH 0
            CMP 0
            JNE 3
            PUSH 66
            PRINT 3
            RETURN
        ";

    assert_eq!(Ok(()), comp.compile(program, &Host))
}

#[test]
fn compile_func2() {
    let mut comp = Compiler::new("../nar files/fizzbuzz.bin".to_string());

    let program = "
            PUSH 15
            STORE 0
            PUSH 1
            DUPLI
            CALL fizz
            DUPLI
            CALL buzz
            DUPLI
            CALL self
            CALL increment
            DUPLI
            CALL over_initial
            JMP -9

            over_initial:
            LOAD 0
            CMP 0
            JNE 2
            HALT
            RETURN

            increment:
            PUSH 1
            ADDU
            RETURN

            fizz:
            PUSH 3
            MODU
            PUSH 0
            CMP 0
            JNE 6
            PUSH 1
            STORE 1
            PUSH 70
            PRINT 3
            RETURN
            PUSH 0
            STORE 1
            RETURN

            buzz:
            PUSH 5
            MODU
            PUSH 0
            CMP 0
            JNE 6
            PUSH 1
            STORE 2
            PUSH 66
            PRINT 3
            RETURN
            PUSH 0
            STORE 2
            RETURN

            self:
            LOAD 1
            PUSH 1
            CMP 0
            JE 6
            LOAD 2
            PUSH 1
            CMP 0
            JE 2
            PRINT 0
            RETURN
        ";

    assert_eq!(Ok(()), comp.compile(program, &Host))
}

#[test]
fn lex_literal_domains() {
    let toks = Lexer::lex("18446744073709551615 +7 -5 -9223372036854775808 1.5 -.5 99999999999999999999", &Host).unwrap();
    assert_eq!(vec![
        Token::NumU(u64::MAX),
        Token::NumU(7),
        Token::NumI(-5),
        Token::NumI(i64::MIN),
        f(1.5),
        f(-0.5),
        f(99999999999999999999.0),
    ], toks);
}

#[test]
fn lex_malformed_literal_overflows() {
    assert!(matches!(Lexer::lex("PUSH 1_000", &Host), Err(CompError::Overflow(_))));
    assert!(matches!(Lexer::lex("1.2.3", &Host), Err(CompError::Overflow(_))));
    assert!(matches!(Lexer::lex("-", &Host), Err(CompError::Overflow(_))));
}

#[test]
fn lex_empty_source() {
    assert!(matches!(Lexer::lex("", &Host), Err(CompError::UnexpectedEOF(_))));
    assert_eq!(Vec::<Token>::new(), Lexer::lex("  \n\t", &Host).unwrap());
}

#[test]
fn lex_skips_other_characters() {
    assert_eq!(vec![op("PUSH"), Token::NumU(1)], Lexer::lex("PUSH # 1", &Host).unwrap());
}

#[test]
fn compile_scenario_add() {
    let bytes = compile("PUSH 3\nPUSH 4\nADDU", &Host).unwrap();
    let push: u8 = OpCode::Push.into();
    let addu: u8 = OpCode::AddU.into();
    assert_eq!(with_header(vec![push, 0, 0, 0, 0, 0, 0, 0, 3, push, 0, 0, 0, 0, 0, 0, 0, 4, addu]), bytes);
    let mut m = Machine::new();
    assert_eq!(7, m.run(bytes, false, &mut Host));
}

#[test]
fn compile_is_repeatable() {
    let src = "PUSH 6\nSTORE 1\nLOAD 1\nPUSH 7\nMULU\nf:\nPUSH 1\nADDU";
    let first = compile(src, &Host).unwrap();
    let second = compile(src, &Host).unwrap();
    assert_eq!(first, second);
    let mut m = Machine::new();
    let a = m.run(first, false, &mut Host);
    let b = m.run(second, false, &mut Host);
    assert_eq!(43, a);
    assert_eq!(a, b);
}

#[test]
fn missing_operand_fails() {
    assert!(matches!(compile("PUSH", &Host), Err(CompError::UnexpectedChar(_))));
}

#[test]
fn unknown_opcode_fails() {
    assert!(matches!(compile("PUSH 1\nFROB", &Host), Err(CompError::UnexpectedChar(_))));
}

#[test]
fn number_in_head_position_fails() {
    assert!(matches!(compile("5 PUSH 1", &Host), Err(CompError::UnexpectedChar(_))));
}

#[test]
fn unknown_call_target_fails() {
    assert!(matches!(compile("CALL nowhere", &Host), Err(CompError::UnexpectedChar(_))));
}

#[test]
fn zero_jump_fails() {
    assert!(matches!(compile("PUSH 1\nJMP 0", &Host), Err(CompError::UnexpectedChar(_))));
}

#[test]
fn float_jump_count_fails() {
    assert!(matches!(compile("JMP 1.5\nHALT", &Host), Err(CompError::UnexpectedChar(_))));
}

#[test]
fn jump_past_end_fails() {
    assert!(matches!(compile("JMP 2\nHALT", &Host), Err(CompError::UnexpectedEOF(_))));
    assert!(matches!(compile("HALT\nJMP -2", &Host), Err(CompError::UnexpectedEOF(_))));
}

#[test]
fn parse_empty_fails() {
    assert!(matches!(Parser::parse(vec![]), Err(CompError::UnexpectedEOF(_))));
}

#[test]
fn generate_rejects_empty_and_labels() {
    assert!(matches!(Generator::generate(vec![]), Err(CompError::UnexpectedEOF(_))));
    assert!(matches!(Generator::generate(vec![Token::Func("f".to_string())]), Err(CompError::Impossible(_))));
}

#[test]
fn generate_unknown_name_is_illegal_byte() {
    assert_eq!(with_header(vec![0]), Generator::generate(vec![op("Nope")]).unwrap());
}

#[test]
fn parse_removes_labels_and_resolves_call() {
    let program = vec![op("CALL"), op("f"), op("HALT"), Token::Func("f".to_string()), op("PUSH"), Token::NumU(2), op("RETURN")];
    let out = Parser::parse(program).unwrap();
    // the label stands after 9 + 1 bytes; the call aims at the byte before it
    assert_eq!(vec![op("CALL"), Token::NumU(10 + 17 - 1), op("HALT"), op("PUSH"), Token::NumU(2), op("RETURN")], out);
}

#[test]
fn jump_counts_become_byte_distances() {
    let program = vec![op("JMP"), Token::NumU(2), op("PUSH"), Token::NumU(1), op("HALT"), op("JE"), Token::NumI(-2)];
    let out = Parser::parse(program).unwrap();
    assert_eq!(vec![
        op("JMP"), Token::NumU(18),
        op("PUSH"), Token::NumU(1),
        op("HALT"),
        op("JE"), Token::NumU((-10i64) as u64),
    ], out);
}

#[test]
fn forward_jump_skips_instructions() {
    let (r, _) = run_source("PUSH 1\nJMP 3\nPUSH 2\nPUSH 3\nPUSH 4");
    assert_eq!(4, r);
    let (r, _) = run_source("PUSH 5\nPUSH 5\nCMP 0\nJE 2\nPUSH 9\nPUSH 8");
    assert_eq!(8, r);
}

#[test]
fn backward_jump_loops() {
    // counts 0, 1, 2 and stops at 3
    let src = "PUSH 0\nSTORE 0\nLOAD 0\nPUSH 1\nADDU\nDUPLI\nSTORE 0\nPUSH 3\nCMP 0\nJL -7\nLOAD 0";
    let (r, _) = run_source(src);
    assert_eq!(3, r);
}

#[test]
fn call_returns_after_operand() {
    let src = "first:\nPUSH 1\nCALL second\nPUSH 3\nHALT\nzero:\nPUSH 0\nRETURN\nsecond:\nthird:\nPUSH 2\nRETURN";
    let (r, m) = run_source(src);
    assert_eq!(3, r);
    assert_eq!(vec![1, 2, 3], m.stack);
    assert!(m.return_addresses.is_empty());
}

#[test]
fn unsigned_overflow_clamps() {
    let push: u8 = OpCode::Push.into();
    let addu: u8 = OpCode::AddU.into();
    let mut m = Machine::new();
    let r = m.run(with_header(vec![push, 255, 255, 255, 255, 255, 255, 255, 255, push, 0, 0, 0, 0, 0, 0, 0, 1, addu]), false, &mut Host);
    assert_eq!(u64::MAX, r);
    assert_eq!(Flag::Overflow, m.flag);
    assert_eq!(None, m.fault);
    let (r, m) = run_source("PUSH 1\nPUSH 2\nSUBU");
    assert_eq!(0, r);
    assert_eq!(Flag::Overflow, m.flag);
    let (r, m) = run_source("PUSH 7\nPUSH 0\nDIVU");
    assert_eq!(u64::MAX, r);
    assert_eq!(Flag::Overflow, m.flag);
}

#[test]
fn signed_overflow_clamps() {
    let (r, m) = run_source("PUSH 9223372036854775807\nPUSH 1\nADDI");
    assert_eq!(i64::MAX as u64, r);
    assert_eq!(Flag::Overflow, m.flag);
    let (r, _) = run_source("PUSH -9223372036854775808\nPUSH 1\nSUBI");
    assert_eq!(i64::MIN as u64, r);
    let (r, _) = run_source("PUSH -9223372036854775808\nPUSH -1\nDIVI");
    assert_eq!(i64::MAX as u64, r);
    let (r, m) = run_source("PUSH -7\nPUSH 2\nDIVI");
    assert_eq!(-3i64 as u64, r);
    assert_eq!(Flag::Unset, m.flag);
    let (r, _) = run_source("PUSH -7\nPUSH 2\nMODI");
    assert_eq!(-1i64 as u64, r);
}

#[test]
fn comparisons_set_flag() {
    let (_, m) = run_source("PUSH -1\nPUSH 1\nCMP 1");
    assert_eq!(Flag::Less, m.flag);
    let (_, m) = run_source("PUSH -1\nPUSH 1\nCMP 0");
    assert_eq!(Flag::Greater, m.flag);
    let (_, m) = run_source("PUSH 2.5\nPUSH 2.5\nCMP 2");
    assert_eq!(Flag::Equal, m.flag);
}

#[test]
fn shift_by_word_width_gives_zero() {
    let (r, _) = run_source("PUSH 1\nPUSH 64\nSHIFT 0");
    assert_eq!(0, r);
    let (r, _) = run_source("PUSH 256\nPUSH 4\nSHIFT 1");
    assert_eq!(16, r);
}

#[test]
fn short_or_foreign_streams_return_max() {
    let mut m = Machine::new();
    assert_eq!(u64::MAX, m.run(vec![], false, &mut Host));
    assert_eq!(u64::MAX, m.run(HEADER.to_vec(), false, &mut Host));
    assert_eq!(u64::MAX, m.run(HEADER[..10].to_vec(), false, &mut Host));
    let mut bad = HEADER.to_vec();
    bad[0] = b'M';
    bad.push(1);
    assert_eq!(u64::MAX, m.run(bad, false, &mut Host));
}

#[test]
fn runtime_faults_are_recorded() {
    let (r, m) = run_source("POP");
    assert_eq!(u64::MAX, r);
    assert_eq!(Some(Fault::EmptyStack), m.fault);
    let (_, m) = run_source("RETURN");
    assert_eq!(Some(Fault::EmptyReturnStack), m.fault);
    let (_, m) = run_source("PUSH 1\nSTORE 4");
    assert_eq!(Some(Fault::BadRegister), m.fault);
    let (_, m) = run_source("PUSH 1\nPUSH 1\nCMP 7");
    assert_eq!(Some(Fault::BadMode), m.fault);
    let mut m = Machine::new();
    let push: u8 = OpCode::Push.into();
    m.run(with_header(vec![push, 0, 0]), false, &mut Host);
    assert_eq!(Some(Fault::Truncated), m.fault);
    m.run(with_header(vec![0]), false, &mut Host);
    assert_eq!(Some(Fault::IllegalOpcode), m.fault);
    let jmp: u8 = OpCode::JMP.into();
    m.run(with_header(vec![jmp, 255, 255, 255, 255, 255, 255, 255, 0]), false, &mut Host);
    assert_eq!(Some(Fault::BadJump), m.fault);
}

#[test]
fn halt_stops_with_top() {
    let (r, _) = run_source("PUSH 5\nHALT\nPUSH 6");
    assert_eq!(5, r);
}

#[test]
fn empty_stack_at_end_returns_max() {
    let (r, m) = run_source("PUSH 5\nPOP");
    assert_eq!(u64::MAX, r);
    assert_eq!(None, m.fault);
}

struct Refusing;

impl Platform for Refusing {
    fn parse_float(&self, _text: &Vec<char>) -> Option<u64> {
        None
    }

    fn float_arith(&self, _op: FloatOp, _lhs: u64, _rhs: u64) -> u64 {
        0
    }

    fn float_compare(&self, _lhs: u64, _rhs: u64) -> Flag {
        Flag::Equal
    }

    fn print(&mut self, _mode: PrintMode, _value: u64) {}

    fn trace(&mut self, _machine: &Machine) {}
}

#[test]
fn lex_with_gives_each_float_its_bits() {
    let bits = vec![Some(11u64), Some(22u64)];
    let toks = Lexer::lex_with("PUSH 1.5 PUSH 7 PUSH -2.5", &bits).unwrap();
    assert_eq!(vec![op("PUSH"), Token::NumF(11), op("PUSH"), Token::NumU(7), op("PUSH"), Token::NumF(22)], toks);
}

#[test]
fn lex_with_missing_bits_is_impossible() {
    assert!(matches!(Lexer::lex_with("PUSH 1.5 PUSH 2.5", &vec![Some(1u64)]), Err(CompError::Impossible(_))));
    assert!(matches!(Lexer::lex_with("PUSH 1.5", &vec![None]), Err(CompError::Impossible(_))));
    assert_eq!(vec![op("PUSH"), Token::NumU(1)], Lexer::lex_with("PUSH 1", &vec![]).unwrap());
}

#[test]
fn lex_errors_pass_through_a_refusing_platform() {
    assert!(matches!(Lexer::lex("", &Refusing), Err(CompError::UnexpectedEOF(_))));
    assert!(matches!(Lexer::lex("PUSH 1.5 PUSH 1_000", &Refusing), Err(CompError::Overflow(_))));
    assert!(matches!(Lexer::lex("PUSH 1.5", &Refusing), Err(CompError::Impossible(_))));
    assert_eq!(vec![op("PUSH"), Token::NumI(-3)], Lexer::lex("PUSH -3", &Refusing).unwrap());
}

#[test]
fn lex_float_bits_come_from_platform() {
    assert_eq!(vec![op("PUSH"), f(-2.1)], Lexer::lex("PUSH -2.1", &Host).unwrap());
}

#[test]
fn compile_with_uses_given_bits() {
    let push: u8 = OpCode::Push.into();
    let bytes = compile_with("PUSH 0.5", &vec![Some(0x0102030405060708u64)]).unwrap();
    assert_eq!(with_header(vec![push, 1, 2, 3, 4, 5, 6, 7, 8]), bytes);
    assert!(matches!(compile_with("PUSH", &vec![]), Err(CompError::UnexpectedChar(_))));
    assert!(matches!(compile_with("PUSH 0.5", &vec![]), Err(CompError::Impossible(_))));
}

#[test]
fn header_only_stream_is_executable() {
    let mut m = Machine::new();
    m.program = HEADER.to_vec();
    assert!(m.is_nariva_file());
    assert_eq!(u64::MAX, m.run(HEADER.to_vec(), false, &mut Host));
    assert_eq!(None, m.fault);
}

#[test]
fn rejected_stream_leaves_fresh_machine() {
    let mut m = Machine::new();
    m.run(with_header(vec![2, 0, 0, 0, 0, 0, 0, 0, 9]), false, &mut Host);
    assert_eq!(vec![9], m.stack);
    assert_eq!(u64::MAX, m.run(vec![1, 2, 3], false, &mut Host));
    assert!(m.stack.is_empty());
    assert_eq!(vec![0, 0, 0, 0], m.registers);
    assert_eq!(Flag::Unset, m.flag);
    assert_eq!(0, m.program_address);
}

#[test]
fn call_at_end_is_end_of_input() {
    assert!(matches!(Parser::parse(vec![op("CALL")]), Err(CompError::UnexpectedEOF(_))));
    assert!(matches!(compile("PUSH 1\nCALL", &Host), Err(CompError::UnexpectedEOF(_))));
    assert!(matches!(compile("CALL 5", &Host), Err(CompError::UnexpectedChar(_))));
}

#[test]
fn far_targets_keep_the_cursor() {
    let jmp: u8 = OpCode::JMP.into();
    let call: u8 = OpCode::Call.into();
    let mut m = Machine::new();
    // the jump's opcode stands at 17; a displacement of 100 leaves the cursor at 116
    assert_eq!(u64::MAX, m.run(with_header(vec![jmp, 0, 0, 0, 0, 0, 0, 0, 100]), false, &mut Host));
    assert_eq!(116, m.program_address);
    assert_eq!(None, m.fault);
    m.run(with_header(vec![call, 0, 0, 0, 0, 0, 0, 1, 0]), false, &mut Host);
    assert_eq!(256, m.program_address);
    assert_eq!(vec![16 + 9], m.return_addresses);
}
