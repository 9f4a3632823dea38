use alloy::ast::{Expression, Function, Global, Operand, Program, Register, Statement};
use alloy::lexer::tokenize;
use alloy::parser::{ParseError, Parser};

fn parse(src: &str) -> Result<Program, ParseError> {
    Parser::new(tokenize(src)).parse_program()
}

fn stmt(src: &str) -> Result<Statement, ParseError> {
    Parser::new(tokenize(src)).parse_statement()
}

fn msg(s: &str) -> ParseError {
    ParseError::Message(s.to_string())
}

fn let_simple(target: Register, op: Operand) -> Statement {
    Statement::Let { target, value: Expression::Simple(op) }
}

fn alu(target: Register, opcode: &str, operands: Vec<Operand>) -> Statement {
    Statement::Let { target, value: Expression::AluCall { opcode: opcode.to_string(), operands } }
}

#[test]
fn parse_simple_lets() {
    assert_eq!(stmt("let t0 = 5"), Ok(let_simple(Register::T0, Operand::Imm(5))));
    assert_eq!(stmt("let t0 = t1"), Ok(let_simple(Register::T0, Operand::Reg(Register::T1))));
    assert_eq!(stmt("let a0 = \"Hi\\n\""), Ok(let_simple(Register::A0, Operand::Str("Hi\\n".to_string()))));
    assert_eq!(stmt("let t0 = score"), Ok(let_simple(Register::T0, Operand::Label("score".to_string()))));
    assert_eq!(stmt("let t0 = 0xFF"), Ok(let_simple(Register::T0, Operand::Imm(255))));
    assert_eq!(stmt("let t0 = 0x0x10"), Ok(let_simple(Register::T0, Operand::Imm(16))));
    assert_eq!(stmt("let t0 = - 12"), Ok(let_simple(Register::T0, Operand::Imm(-12))));
    // `+` is a delimiter, so `+7` is two tokens and `+` reads as a label.
    assert_eq!(stmt("let t0 = +7"), Ok(let_simple(Register::T0, Operand::Label("+".to_string()))));
    // Given as a single token, a leading `+` is accepted as a sign.
    assert_eq!(Parser::new(vec!["+7".to_string()]).parse_operand(), Ok(Operand::Imm(7)));
}

#[test]
fn parse_out_of_range_number_is_a_label() {
    assert_eq!(stmt("let t0 = 2147483648"), Ok(let_simple(Register::T0, Operand::Label("2147483648".to_string()))));
    assert_eq!(stmt("let t0 = 2147483647"), Ok(let_simple(Register::T0, Operand::Imm(i32::MAX))));
}

#[test]
fn parse_infix_arithmetic() {
    assert_eq!(stmt("let t0 = t1 + t2"), Ok(alu(Register::T0, "add", vec![Operand::Reg(Register::T1), Operand::Reg(Register::T2)])));
    assert_eq!(stmt("let t0 = t1 + 5"), Ok(alu(Register::T0, "addi", vec![Operand::Reg(Register::T1), Operand::Imm(5)])));
    assert_eq!(stmt("let t3 = t4 - 12"), Ok(alu(Register::T3, "addi", vec![Operand::Reg(Register::T4), Operand::Imm(-12)])));
    assert_eq!(stmt("let t3 = t4 - t5"), Ok(alu(Register::T3, "sub", vec![Operand::Reg(Register::T4), Operand::Reg(Register::T5)])));
    assert_eq!(stmt("let t5 = t0 * 3"), Ok(alu(Register::T5, "mul", vec![Operand::Reg(Register::T0), Operand::Imm(3)])));
    assert_eq!(stmt("let t5 = t0 / t1"), Ok(alu(Register::T5, "div", vec![Operand::Reg(Register::T0), Operand::Reg(Register::T1)])));
    assert_eq!(stmt("let t5 = t0 % t1"), Ok(alu(Register::T5, "rem", vec![Operand::Reg(Register::T0), Operand::Reg(Register::T1)])));
    assert_eq!(stmt("let t0 = score + 1"), Ok(alu(Register::T0, "addi", vec![Operand::Label("score".to_string()), Operand::Imm(1)])));
}

#[test]
fn parse_mnemonics_and_loads() {
    assert_eq!(stmt("let t0 = add(t1, t2)"), Ok(alu(Register::T0, "add", vec![Operand::Reg(Register::T1), Operand::Reg(Register::T2)])));
    assert_eq!(stmt("let t1 = slt(t0, t5)"), Ok(alu(Register::T1, "slt", vec![Operand::Reg(Register::T0), Operand::Reg(Register::T5)])));
    assert_eq!(stmt("let t1 = li(7)"), Ok(alu(Register::T1, "li", vec![Operand::Imm(7)])));
    let load = |off: i32, base: Register| Statement::Let {
        target: Register::T0,
        value: Expression::Load { opcode: "lw".to_string(), offset: off, base },
    };
    assert_eq!(stmt("let t0 = lw(0, sp)"), Ok(load(0, Register::Sp)));
    assert_eq!(stmt("let t0 = lw(8(sp))"), Ok(load(8, Register::Sp)));
    assert_eq!(stmt("let t0 = lw(4, a0)"), Ok(load(4, Register::A0)));
}

#[test]
fn parse_stores_calls_returns() {
    assert_eq!(stmt("sw(t0, 0(sp))"), Ok(Statement::Store { opcode: "sw".to_string(), src: Register::T0, offset: 0, base: Register::Sp }));
    assert_eq!(stmt("sb(t1 8(s0))"), Ok(Statement::Store { opcode: "sb".to_string(), src: Register::T1, offset: 8, base: Register::S0 }));
    assert_eq!(stmt("call io_print"), Ok(Statement::Call { func_name: "io_print".to_string() }));
    assert_eq!(stmt("ret"), Ok(Statement::Return));
    assert_eq!(stmt("ecall"), Ok(Statement::Ecall));
}

#[test]
fn parse_register_names() {
    let p = Parser::new(vec![]);
    assert_eq!(p.parse_register("zero"), Ok(Register::Zero));
    assert_eq!(p.parse_register("x0"), Ok(Register::Zero));
    assert_eq!(p.parse_register("fp"), Ok(Register::S0));
    assert_eq!(p.parse_register("x8"), Ok(Register::S0));
    assert_eq!(p.parse_register("x5"), Ok(Register::T0));
    assert_eq!(p.parse_register("x10"), Ok(Register::A0));
    assert_eq!(p.parse_register("x18"), Ok(Register::S2));
    assert_eq!(p.parse_register("x31"), Ok(Register::T6));
    assert_eq!(p.parse_register("x32"), Err(msg("Unknown register: x32")));
    assert_eq!(p.parse_register("foo"), Err(msg("Unknown register: foo")));
}

#[test]
fn parse_conditions_in_both_forms() {
    let ifs = |src: &str| match stmt(src) {
        Ok(Statement::If { condition_op, left, right, then_block, else_block }) =>
            (condition_op, left, right, then_block.len(), else_block.map(|b| b.len())),
        other => panic!("unexpected {:?}", other),
    };
    assert_eq!(ifs("if (beq t0, zero) { ret }"), ("beq".to_string(), Register::T0, Operand::Reg(Register::Zero), 1, None));
    assert_eq!(ifs("if (t0 == zero) { ret } else { ecall ret }"), ("beq".to_string(), Register::T0, Operand::Reg(Register::Zero), 1, Some(2)));
    assert_eq!(ifs("if (t0 != t1) { }"), ("bne".to_string(), Register::T0, Operand::Reg(Register::T1), 0, None));
    assert_eq!(ifs("if (t0 < 10) { }"), ("blt".to_string(), Register::T0, Operand::Imm(10), 0, None));
    assert_eq!(ifs("if (t0 >= 10) { }"), ("bge".to_string(), Register::T0, Operand::Imm(10), 0, None));
    assert_eq!(ifs("if (t0 > 10) { }"), ("bgt".to_string(), Register::T0, Operand::Imm(10), 0, None));
    assert_eq!(ifs("if (t0 <= 10) { }"), ("ble".to_string(), Register::T0, Operand::Imm(10), 0, None));
    assert_eq!(ifs("if (blt t0 t1) { }"), ("blt".to_string(), Register::T0, Operand::Reg(Register::T1), 0, None));
}

#[test]
fn parse_loops() {
    match stmt("while (t0 < 10) { let t0 = t0 + 1 }") {
        Ok(Statement::While { condition_op, left, right, body }) => {
            assert_eq!(condition_op, "blt");
            assert_eq!(left, Register::T0);
            assert_eq!(right, Operand::Imm(10));
            assert_eq!(body, vec![alu(Register::T0, "addi", vec![Operand::Reg(Register::T0), Operand::Imm(1)])]);
        },
        other => panic!("unexpected {:?}", other),
    }
    for src in ["for (let t0 = 0; t0 <= 10; let t0 = t0 + 1) { call print_int }",
                "for (let t0 = 0, ble t0, 10, let t0 = t0 + 1) { call print_int }"] {
        match stmt(src) {
            Ok(Statement::For { init, condition_op, cond_left, cond_right, step, body }) => {
                assert_eq!(*init, let_simple(Register::T0, Operand::Imm(0)));
                assert_eq!(condition_op, "ble");
                assert_eq!(cond_left, Register::T0);
                assert_eq!(cond_right, Operand::Imm(10));
                assert_eq!(*step, alu(Register::T0, "addi", vec![Operand::Reg(Register::T0), Operand::Imm(1)]));
                assert_eq!(body, vec![Statement::Call { func_name: "print_int".to_string() }]);
            },
            other => panic!("unexpected {:?}", other),
        }
    }
}

#[test]
fn parse_program_with_declarations() {
    let src = "const MAX_LIMIT = 100\nconst BASE_ADDR = 0x4000\nalias loop_index = t0\n\
               data score = 0\ndata system_buffer[64]\ndata large_array[MAX_LIMIT]\n\
               fn main(a0, a1) {\n  let loop_index = MAX_LIMIT\n  let t1 = BASE_ADDR\n  ret\n}\n";
    let p = parse(src).unwrap();
    assert_eq!(p.globals, vec![
        Global::Scalar { name: "score".to_string(), value: 0 },
        Global::Array { name: "system_buffer".to_string(), size: 64 },
        Global::Array { name: "large_array".to_string(), size: 100 },
    ]);
    assert_eq!(p.functions, vec![Function {
        name: "main".to_string(),
        body: vec![
            let_simple(Register::T0, Operand::Imm(100)),
            let_simple(Register::T1, Operand::Imm(16384)),
            Statement::Return,
        ],
    }]);
}

#[test]
fn constants_substitute_their_values() {
    assert_eq!(parse("fn f() { const N = 7 let t0 = N let t1 = - N }").unwrap().functions[0].body,
        vec![let_simple(Register::T0, Operand::Imm(7)), let_simple(Register::T1, Operand::Imm(-7))]);
    // A constant may be defined by another, and a later definition replaces an earlier one.
    assert_eq!(parse("const A = 3 const B = A const A = 9 fn f() { let t0 = B let t1 = A }").unwrap().functions[0].body,
        vec![let_simple(Register::T0, Operand::Imm(3)), let_simple(Register::T1, Operand::Imm(9))]);
}

#[test]
fn aliases_stand_for_registers() {
    assert_eq!(parse("alias out = a0 alias out2 = out fn f() { let out2 = 1 }").unwrap().functions[0].body,
        vec![let_simple(Register::A0, Operand::Imm(1))]);
}

#[test]
fn parse_errors_name_what_went_wrong() {
    assert_eq!(parse("ret"), Err(msg("Unexpected token at top level: ret")));
    assert_eq!(parse("fn"), Err(msg("Expected function name")));
    assert_eq!(parse("fn main"), Err(msg("Expected '(', found EOF")));
    assert_eq!(parse("fn main ( ) ret"), Err(msg("Expected '{', found 'ret'")));
    assert_eq!(parse("fn main ( ) {"), Err(msg("Unexpected EOF in block")));
    assert_eq!(parse("fn main ( ) { jump }"), Err(msg("Unknown token: jump")));
    assert_eq!(parse("const"), Err(msg("Expected constant name")));
    assert_eq!(parse("const X ="), Err(msg("Expected value")));
    assert_eq!(parse("const X = abc"), Err(msg("Invalid integer constant: abc")));
    assert_eq!(parse("const X = 0xZZ"), Err(msg("Invalid hex constant: 0xZZ")));
    assert_eq!(parse("alias"), Err(msg("Expected alias name")));
    assert_eq!(parse("alias a ="), Err(msg("Expected register")));
    assert_eq!(parse("alias a = q9"), Err(msg("Unknown register: q9")));
    assert_eq!(parse("data"), Err(msg("Expected global name")));
    assert_eq!(parse("data b["), Err(msg("Expected array size")));
    assert_eq!(parse("data b[x]"), Err(msg("Invalid size")));
    assert_eq!(parse("data b = x"), Err(msg("Invalid value")));
    assert_eq!(parse("data b 5"), Err(msg("Expected '=', found '5'")));
    assert_eq!(stmt(""), Err(msg("Unexpected EOF")));
    assert_eq!(stmt("call"), Err(msg("Expected function name")));
    assert_eq!(stmt("let"), Err(msg("Expected target")));
    assert_eq!(stmt("let t0 ="), Err(msg("Unexpected EOF")));
    assert_eq!(stmt("let t0 = -"), Err(msg("Expected number after '-'")));
    assert_eq!(stmt("let t0 = - x"), Err(msg("Invalid immediate value after '-': x")));
    assert_eq!(stmt("let t0 = lw(x(sp))"), Err(msg("Invalid offset")));
    assert_eq!(stmt("sw(t0, x(sp))"), Err(msg("Invalid offset: x")));
    assert_eq!(stmt("if"), Err(msg("Expected '(', found EOF")));
    assert_eq!(stmt("if ("), Err(msg("Expected op")));
    assert_eq!(stmt("while (beq"), Err(msg("Expected reg")));
    assert_eq!(stmt("for (ret,"), Err(msg("Expected condition op")));
    assert_eq!(stmt("let t0 = add(t1, t2"), Err(msg("Expected ')', found EOF")));
}

#[test]
fn truncated_stores_and_loads_are_reported() {
    assert_eq!(stmt("sw("), Err(ParseError::Truncated));
    assert_eq!(stmt("sw(t0,"), Err(ParseError::Truncated));
    assert_eq!(stmt("sw(t0, 0("), Err(ParseError::Truncated));
    assert_eq!(stmt("let t0 = lw("), Err(ParseError::Truncated));
    assert_eq!(stmt("let t0 = lw(0("), Err(ParseError::Truncated));
    assert_eq!(stmt("let t0 = lw(0,"), Err(ParseError::Truncated));
}

#[test]
fn parser_reads_tokens_one_at_a_time() {
    let mut p = Parser::new(vec!["(".to_string(), "x".to_string()]);
    assert_eq!(p.peek(), Some(&"(".to_string()));
    assert_eq!(p.consume("("), Ok(()));
    assert_eq!(p.consume(")"), Err(msg("Expected ')', found 'x'")));
    assert_eq!(p.peek(), None);
    assert_eq!(p.consume(")"), Err(msg("Expected ')', found EOF")));
}

#[test]
fn parse_operand_and_math_rest_directly() {
    let mut p = Parser::new(tokenize("t1 * 4"));
    let left = p.parse_operand().unwrap();
    assert_eq!(left, Operand::Reg(Register::T1));
    assert_eq!(p.parse_let_math_rest(Register::T2, left),
        Ok(alu(Register::T2, "mul", vec![Operand::Reg(Register::T1), Operand::Imm(4)])));
    let mut q = Parser::new(tokenize("const K = 3 alias r = a1 data d = K"));
    assert_eq!(q.parse_const(), Ok(()));
    assert_eq!(q.parse_alias(), Ok(()));
    assert_eq!(q.parse_data(), Ok(Global::Scalar { name: "d".to_string(), value: 3 }));
    assert_eq!(q.parse_register("r"), Ok(Register::A1));
}

#[test]
fn parse_block_and_function_directly() {
    let mut p = Parser::new(tokenize("ret } else"));
    assert_eq!(p.parse_block(), Ok(vec![Statement::Return]));
    let mut f = Parser::new(tokenize("fn g(a, b, c) { ecall }"));
    assert_eq!(f.parse_function(), Ok(Function { name: "g".to_string(), body: vec![Statement::Ecall] }));
    let mut c = Parser::new(tokenize("t0 >= - 3"));
    assert_eq!(c.parse_condition("Expected op"), Ok(("bge".to_string(), Register::T0, Operand::Imm(-3))));
}

#[test]
fn error_messages_are_readable() {
    assert_eq!(msg("x").message(), "x");
    assert!(!ParseError::Truncated.message().is_empty());
}

#[test]
fn negative_constants_are_read() {
    let prog = parse("const NEG = -12 const K = 5 const M = - K const H = -0x10 fn f() { let t0 = NEG let t1 = M let t2 = H }").unwrap();
    assert_eq!(prog.functions[0].body, vec![
        let_simple(Register::T0, Operand::Imm(-12)),
        let_simple(Register::T1, Operand::Imm(-5)),
        let_simple(Register::T2, Operand::Imm(-16)),
    ]);
    let mut p = Parser::new(tokenize("const NEG = -12"));
    assert_eq!(p.parse_const(), Ok(()));
    assert_eq!(p.peek(), None);
    assert_eq!(parse("const X = - abc"), Err(msg("Invalid integer constant: -abc")));
    assert_eq!(parse("const X = - 0xZZ"), Err(msg("Invalid integer constant: -0xZZ")));
    assert_eq!(parse("const X = -"), Err(msg("Expected value")));
}

#[test]
fn data_reads_hex_and_negative_values() {
    assert_eq!(Parser::new(tokenize("data mask = 0xFF")).parse_data(),
        Ok(Global::Scalar { name: "mask".to_string(), value: 255 }));
    assert_eq!(Parser::new(tokenize("data buf[0x10]")).parse_data(),
        Ok(Global::Array { name: "buf".to_string(), size: 16 }));
    assert_eq!(Parser::new(tokenize("data low = -3")).parse_data(),
        Ok(Global::Scalar { name: "low".to_string(), value: -3 }));
    assert_eq!(Parser::new(tokenize("data s = foo")).parse_data(), Err(msg("Invalid value")));
    assert_eq!(Parser::new(tokenize("data s = - foo")).parse_data(), Err(msg("Invalid value")));
}

#[test]
fn failed_declarations_bind_nothing() {
    let mut p = Parser::new(tokenize("const X = 0xZZ X"));
    assert_eq!(p.parse_const(), Err(msg("Invalid hex constant: 0xZZ")));
    assert_eq!(p.parse_operand(), Ok(Operand::Label("X".to_string())));
    let mut q = Parser::new(tokenize("alias a = q9 a"));
    assert_eq!(q.parse_alias(), Err(msg("Unknown register: q9")));
    assert_eq!(q.parse_register("a"), Err(msg("Unknown register: a")));
    assert_eq!(q.parse_operand(), Ok(Operand::Label("a".to_string())));
    let mut c = Parser::new(tokenize("x y"));
    assert_eq!(c.consume("z"), Err(msg("Expected 'z', found 'x'")));
    assert_eq!(c.peek(), Some(&"y".to_string()));
}

#[test]
fn subtracting_a_number_adds_its_negation() {
    let expected = Ok(alu(Register::T0, "addi", vec![Operand::Reg(Register::T1), Operand::Imm(-5)]));
    assert_eq!(stmt("let t0 = t1 - 5"), expected);
    assert_eq!(stmt("let t0 = t1 + - 5"), expected);
}

#[test]
fn data_looks_up_constants_before_hex_and_const_reads_hex_first() {
    let prog = parse("const 0x10 = 5 data b[0x10] data v = 0x10 data w = - 0x10 const C = 0x10 fn f() { let t0 = C }").unwrap();
    assert_eq!(prog.globals, vec![
        Global::Array { name: "b".to_string(), size: 5 },
        Global::Scalar { name: "v".to_string(), value: 5 },
        Global::Scalar { name: "w".to_string(), value: -5 },
    ]);
    assert_eq!(prog.functions[0].body, vec![let_simple(Register::T0, Operand::Imm(16))]);
}
