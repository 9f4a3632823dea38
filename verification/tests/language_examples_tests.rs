use alloy::codegen::{program_is_emittable, Codegen};
use alloy::lexer::tokenize;
use alloy::parser::{ParseError, Parser};

fn compile(src: &str) -> String {
    let prog = Parser::new(tokenize(src)).parse_program().unwrap();
    assert!(program_is_emittable(&prog));
    Codegen::new().emit_program(&prog)
}

#[test]
fn constants_example_compiles() {
    let out = compile("const MAX_LIMIT = 100\nconst BASE_ADDR = 0x4000\n\nfn main() {\n    let t0 = MAX_LIMIT   # Lowers directly to: li t0, 100\n    let t1 = BASE_ADDR   # Lowers directly to: li t1, 16384\n    ret\n}\n");
    assert!(out.contains("    li t0, 100\n    li t1, 16384\n    j .L_exit_main\n"));
}

#[test]
fn alias_example_compiles() {
    let out = compile("alias loop_index = t0\nalias output_ptr = a0\n\nfn main() {\n    let loop_index = 0   # Moves 0 into register t0\n    let output_ptr = 1   # Moves 1 into register a0\n    ret\n}\n");
    assert!(out.contains("    li t0, 0\n    li a0, 1\n"));
}

#[test]
fn data_example_compiles() {
    let out = compile("const BUFFER_SIZE = 64\n\ndata score = 0              # Single 32-bit word initialized to 0\ndata system_buffer[64]      # Reserves 64 bytes\ndata large_array[BUFFER_SIZE] # Array sizing using compile-time constants\n\nfn main() {\n    let t0 = score          # la t0, score (loads memory address)\n    ret\n}\n");
    assert!(out.starts_with("# Generated by Alloy Compiler\n.data\nscore: .word 0\nsystem_buffer: .zero 64\nlarge_array: .zero 64\n"));
    assert!(out.contains("    la t0, score\n"));
}

#[test]
fn arithmetic_example_compiles() {
    let out = compile("fn main() {\n    let t0 = t1 + t2        # add t0, t1, t2\n    let t0 = t1 + 5         # addi t0, t1, 5\n    let t3 = t4 - 12        # addi t3, t4, -12\n    let t5 = t0 * t1\n    let t0 = add(t1, t2)\n    let t1 = slt(t0, t5)\n    let t0 = lw(0, sp)\n    let t1 = lb(4, a0)\n    sw(t0, 0(sp))\n    sb(t1, 8(s0))\n    ret\n}\n");
    assert!(out.contains(concat_lines(&[
        "    add t0, t1, t2", "    addi t0, t1, 5", "    addi t3, t4, -12", "    mul t5, t0, t1",
        "    add t0, t1, t2", "    slt t1, t0, t5", "    lw t0, 0(sp)", "    lb t1, 4(a0)",
        "    sw t0, 0(sp)", "    sb t1, 8(s0)",
    ]).as_str()));
}

fn concat_lines(lines: &[&str]) -> String {
    let mut s = String::new();
    for l in lines {
        s.push_str(l);
        s.push('\n');
    }
    s
}

#[test]
fn control_flow_example_compiles() {
    let out = compile("fn main() {\n    if (t0 == zero) {\n        let a0 = \"Value is zero!\\n\"\n        call io_print\n    } else {\n        let a0 = \"Value is non-zero!\\n\"\n        call io_print\n    }\n    let t0 = 0\n    while (t0 < 10) {\n        let t0 = t0 + 1\n    }\n    for (let t0 = 0; t0 <= 10; let t0 = t0 + 1) {\n        let a0 = t0\n        call print_int\n    }\n    ret\n}\n");
    assert!(out.contains(".L_str_1:\n    .asciz \"Value is zero!\\n\"\n.L_str_2:\n    .asciz \"Value is non-zero!\\n\"\n"));
    assert!(out.contains("    bne t0, zero, .L_else_0\n    la a0, .L_str_1\n    call io_print\n    j .L_end_0\n.L_else_0:\n    la a0, .L_str_2\n    call io_print\n.L_end_0:\n"));
    assert!(out.contains(".L_while_start_3:\n    li t6, 10\n    bge t0, t6, .L_while_end_3\n"));
    assert!(out.contains("    li t0, 0\n.L_for_start_4:\n    li t6, 10\n    blt t6, t0, .L_for_end_4\n    mv a0, t0\n    call print_int\n"));
}

#[test]
fn io_example_compiles() {
    let src = "fn io_read(a1, a2) {\n    let a0 = 0    # Set file descriptor to stdin\n    let a7 = 63   # Set syscall to sys_read\n    ecall\n    ret\n}\n\nfn main() {\n    let sp = sp - 64\n    let a0 = \"Enter command sequence: \"\n    call io_print\n    let a1 = sp + 0\n    let a2 = 63\n    call io_read\n    let sp = sp + 64\n    ret\n}\n";
    let out = compile(src);
    assert!(out.contains("    li a0, 0\n    li a7, 63\n    ecall\n    j .L_exit_io_read\n"));
    assert!(out.contains("    addi sp, sp, -64\n    la a0, .L_str_0\n    call io_print\n    addi a1, sp, 0\n    li a2, 63\n    call io_read\n    addi sp, sp, 64\n"));
}

#[test]
fn every_prefix_of_a_program_parses_or_fails_cleanly() {
    let toks = tokenize("const K = 2 alias r = t0 data d[K] fn main(a) { for (let r = 0; r < K; let r = r + 1) { if (r == 1) { sw(r, 0(sp)) } else { let t1 = lw(4, sp) } } while (bne t1 zero) { let t2 = mul(t1, 3) } ret }");
    for n in 0..=toks.len() {
        let r = Parser::new(toks[..n].to_vec()).parse_program();
        if n == toks.len() {
            assert!(r.is_ok());
        } else {
            match r {
                Ok(p) => assert!(p.functions.is_empty()),
                Err(ParseError::Message(m)) => assert!(!m.is_empty()),
                Err(ParseError::Truncated) => {},
            }
        }
    }
}
