use alloy::ast::{Expression, Function, Global, Operand, Program, Register, Statement};
use alloy::codegen::{program_is_emittable, Codegen};
use alloy::lexer::tokenize;
use alloy::parser::Parser;

fn compile(src: &str) -> String {
    let prog = Parser::new(tokenize(src)).parse_program().unwrap();
    assert!(program_is_emittable(&prog));
    Codegen::new().emit_program(&prog)
}

fn body_of(src: &str) -> String {
    let mut g = Codegen::new();
    let prog = Parser::new(tokenize(src)).parse_program().unwrap();
    let out = g.emit_program(&prog);
    let start = out.find("    addi s0, sp, 16\n").unwrap() + "    addi s0, sp, 16\n".len();
    let end = out.rfind("\n.L_exit_").unwrap() + 1;
    out[start..end].to_string()
}

#[test]
fn emit_whole_program() {
    let out = compile("data score = 7\ndata buf[16]\nfn main() {\n  let t0 = 5\n  ret\n}\n");
    let expected = [
        "# Generated by Alloy Compiler\n.data\nscore: .word 7\nbuf: .zero 16\n.text\n",
        "\n.global main\nmain:\n    addi sp, sp, -16\n    sw ra, 12(sp)\n    sw s0, 8(sp)\n    addi s0, sp, 16\n",
        "    li t0, 5\n    j .L_exit_main\n",
        ".L_exit_main:\n    lw s0, 8(sp)\n    lw ra, 12(sp)\n    addi sp, sp, 16\n    ret\n",
    ].join("");
    assert_eq!(out, expected);
}

#[test]
fn emit_string_literals_into_data_section() {
    let out = compile("fn main() { let a0 = \"Hi\\n\" let a1 = \"Yo\" }");
    assert!(out.starts_with("# Generated by Alloy Compiler\n.data\n.L_str_0:\n    .asciz \"Hi\\n\"\n.L_str_1:\n    .asciz \"Yo\"\n.text\n"));
    assert!(out.contains("    la a0, .L_str_0\n    la a1, .L_str_1\n"));
}

#[test]
fn emit_simple_moves_and_loads() {
    assert_eq!(body_of("fn f() { let t0 = t1 let t2 = score let t3 = - 4 }"),
        "    mv t0, t1\n    la t2, score\n    li t3, -4\n");
    assert_eq!(body_of("fn f() { let t0 = lw(8, sp) sw(t0, 4(s0)) }"),
        "    lw t0, 8(sp)\n    sw t0, 4(s0)\n");
    // `-4` is two tokens, so a negative offset is not read.
    assert!(Parser::new(tokenize("fn f() { sw(t0, -4(s0)) }")).parse_program().is_err());
}

#[test]
fn emit_alu_legalizes_immediates_and_globals() {
    assert_eq!(body_of("fn f() { let t0 = t1 + 5 }"), "    addi t0, t1, 5\n");
    assert_eq!(body_of("fn f() { let t0 = t1 * 10 }"), "    li t6, 10\n    mul t0, t1, t6\n");
    assert_eq!(body_of("fn f() { let t0 = div(100, t1) }"), "    li t5, 100\n    div t0, t5, t1\n");
    assert_eq!(body_of("fn f() { let t0 = score + t1 }"), "    lw t5, score\n    add t0, t5, t1\n");
    assert_eq!(body_of("fn f() { let t0 = t1 - t2 }"), "    sub t0, t1, t2\n");
    assert_eq!(body_of("fn f() { let t0 = nop() }"), "    nop t0, \n");
}

#[test]
fn emit_if_else_with_fresh_labels() {
    assert_eq!(body_of("fn f() { if (t0 == zero) { ecall } else { ret } }"),
        "    bne t0, zero, .L_else_0\n    ecall\n    j .L_end_0\n.L_else_0:\n    j .L_exit_f\n.L_end_0:\n");
    assert_eq!(body_of("fn f() { if (t0 < 10) { ecall } if (t1 != t2) { } }"),
        "    li t6, 10\n    bge t0, t6, .L_end_0\n    ecall\n.L_end_0:\n    beq t1, t2, .L_end_1\n.L_end_1:\n");
}

#[test]
fn emit_pseudo_comparisons_swap_operands() {
    assert_eq!(body_of("fn f() { if (t0 > 10) { ecall } }"),
        "    li t6, 10\n    bge t6, t0, .L_end_0\n    ecall\n.L_end_0:\n");
    assert_eq!(body_of("fn f() { if (t0 <= t1) { ecall } }"),
        "    blt t1, t0, .L_end_0\n    ecall\n.L_end_0:\n");
}

#[test]
fn emit_loops() {
    assert_eq!(body_of("fn f() { while (t0 < 10) { let t0 = t0 + 1 } }"),
        ".L_while_start_0:\n    li t6, 10\n    bge t0, t6, .L_while_end_0\n    addi t0, t0, 1\n    j .L_while_start_0\n.L_while_end_0:\n");
    assert_eq!(body_of("fn f() { for (let t0 = 0; t0 <= 10; let t0 = t0 + 1) { call print_int } }"),
        "    li t0, 0\n.L_for_start_0:\n    li t6, 10\n    blt t6, t0, .L_for_end_0\n    call print_int\n    addi t0, t0, 1\n    j .L_for_start_0\n.L_for_end_0:\n");
    assert_eq!(body_of("fn f() { for (let t0 = 0, slti t0, score, let t0 = t0 + 1) { } }"),
        "    li t0, 0\n.L_for_start_0:\n    lw t6, score\n    bge t0, t6, .L_for_end_0\n    addi t0, t0, 1\n    j .L_for_start_0\n.L_for_end_0:\n");
    // `slti` leaves a `while` by the default branch, as in a `for` it does not.
    assert_eq!(body_of("fn f() { while (slti t0, t1) { } }"),
        ".L_while_start_0:\n    bne t0, t1, .L_while_end_0\n    j .L_while_start_0\n.L_while_end_0:\n");
}

#[test]
fn emit_nested_labels_are_distinct() {
    let out = body_of("fn f() { while (t0 < t1) { if (t2 == t3) { let a0 = \"s\" } } }");
    assert!(out.contains(".L_while_start_0:"));
    assert!(out.contains(".L_end_1:"));
    assert!(out.contains("la a0, .L_str_2"));
}

#[test]
fn reg_names_round_trip_through_the_parser() {
    let all = [Register::Zero, Register::Ra, Register::Sp, Register::Gp, Register::Tp,
        Register::A0, Register::A1, Register::A2, Register::A3, Register::A4, Register::A5, Register::A6, Register::A7,
        Register::T0, Register::T1, Register::T2, Register::T3, Register::T4, Register::T5, Register::T6,
        Register::S0, Register::S1, Register::S2, Register::S3, Register::S4, Register::S5, Register::S6,
        Register::S7, Register::S8, Register::S9, Register::S10, Register::S11];
    let p = Parser::new(vec![]);
    for r in all {
        assert_eq!(p.parse_register(Codegen::reg_name(&r)), Ok(r));
    }
}

#[test]
fn prepare_comparison_operand_stages_into_t6() {
    let mut g = Codegen::new();
    assert_eq!(g.prepare_comparison_operand(&Operand::Reg(Register::A0)), "a0");
    assert_eq!(g.prepare_comparison_operand(&Operand::Imm(3)), "t6");
    assert_eq!(g.prepare_comparison_operand(&Operand::Label("x".to_string())), "t6");
    assert_eq!(g.prepare_comparison_operand(&Operand::Str("s".to_string())), "zero");
    let prog = Program { globals: vec![], functions: vec![] };
    assert_eq!(g.emit_program(&prog), "# Generated by Alloy Compiler\n.data\n.text\n    li t6, 3\n    lw t6, x\n");
}

#[test]
fn emit_statement_and_function_directly() {
    let mut g = Codegen::new();
    g.emit_statement(&Statement::Call { func_name: "h".to_string() }, "f");
    g.emit_function(&Function { name: "g".to_string(), body: vec![Statement::Ecall] });
    let out = g.emit_program(&Program { globals: vec![Global::Scalar { name: "n".to_string(), value: -1 }], functions: vec![] });
    assert_eq!(out, "# Generated by Alloy Compiler\n.data\nn: .word -1\n.text\n    call h\n\n.global g\ng:\n    addi sp, sp, -16\n    sw ra, 12(sp)\n    sw s0, 8(sp)\n    addi s0, sp, 16\n    ecall\n.L_exit_g:\n    lw s0, 8(sp)\n    lw ra, 12(sp)\n    addi sp, sp, 16\n    ret\n");
}

#[test]
fn string_operands_of_alu_instructions_are_not_emittable() {
    let prog = Parser::new(tokenize("fn f() { let t0 = add(\"x\", t1) }")).parse_program().unwrap();
    assert!(!program_is_emittable(&prog));
    let nested = Program {
        globals: vec![],
        functions: vec![Function {
            name: "f".to_string(),
            body: vec![Statement::While {
                condition_op: "beq".to_string(),
                left: Register::T0,
                right: Operand::Imm(0),
                body: vec![Statement::Let {
                    target: Register::T0,
                    value: Expression::AluCall { opcode: "add".to_string(), operands: vec![Operand::Str("s".to_string())] },
                }],
            }],
        }],
    };
    assert!(!program_is_emittable(&nested));
    let fine = Parser::new(tokenize("fn f() { let a0 = \"x\" }")).parse_program().unwrap();
    assert!(program_is_emittable(&fine));
}

#[test]
fn clones_are_equal() {
    let prog = Parser::new(tokenize("data d = 1 fn f() { for (let t0 = 0; t0 < 3; let t0 = t0 + 1) { if (t0 == 1) { ret } else { ecall } } }"))
        .parse_program().unwrap();
    assert_eq!(prog.clone(), prog);
    assert_eq!(prog.functions[0].clone(), prog.functions[0]);
    assert_eq!(prog.functions[0].body[0].clone(), prog.functions[0].body[0]);
}

#[test]
fn every_local_label_is_defined_once() {
    let out = compile("fn f() { for (let t0 = 0; t0 < 3; let t0 = t0 + 1) { while (t1 != zero) { if (t2 == 1) { let a0 = \"a\" } else { let a1 = \"b\" } } if (t3 > t4) { ecall } } let a2 = \"c\" }\nfn g() { while (t0 < 1) { } }");
    let defs: Vec<&str> = out.lines().filter(|l| l.starts_with(".L_") && l.ends_with(':') && !l.starts_with(".L_exit_")).collect();
    assert_eq!(defs.len(), 12);
    for (i, a) in defs.iter().enumerate() {
        for b in &defs[i + 1..] {
            assert_ne!(a, b);
        }
    }
    let strs: Vec<&str> = out.lines().filter(|l| l.starts_with(".L_str_")).collect();
    assert_eq!(strs, vec![".L_str_3:", ".L_str_4:", ".L_str_6:"]);
}
