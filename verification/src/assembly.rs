//! What the code generator writes: the RISC-V assembly text of each construct, stated over the
//! model of the syntax tree.
use vstd::prelude::*;
use crate::ast::{Register, SOperand, SExpression, SStatement, SFunction, SGlobal, SProgram};
use crate::text::{int_text, nat_text};

verus! {

/// The generator's state: the text section written so far, the string literals collected
/// (label and contents), the next label number, and the local labels that the text section
/// defines, in the order it defines them.
pub struct GenState {
    pub text: Seq<char>,
    pub strings: Seq<(Seq<char>, Seq<char>)>,
    pub counter: usize,
    pub labels: Seq<Seq<char>>,
}

/// A line of text.
pub open spec fn line(s: Seq<char>) -> Seq<char> {
    s.push('\n')
}

/// An indented instruction line.
pub open spec fn instr(s: Seq<char>) -> Seq<char> {
    line("    "@ + s)
}

/// The state with `t` added to the text section.
pub open spec fn emit(g: GenState, t: Seq<char>) -> GenState {
    GenState { text: g.text + t, strings: g.strings, counter: g.counter, labels: g.labels }
}

/// The label number after `c`.
pub open spec fn next_label(c: usize) -> usize {
    if c < usize::MAX { (c + 1) as usize } else { 0 }
}

/// The state with the label number taken.
pub open spec fn take_label(g: GenState) -> GenState {
    GenState { text: g.text, strings: g.strings, counter: next_label(g.counter), labels: g.labels }
}

/// The state with the local label `l` defined: the line `l:` added to the text section.
pub open spec fn define_label(g: GenState, l: Seq<char>) -> GenState {
    GenState { text: g.text + line(l + ":"@), strings: g.strings, counter: g.counter, labels: g.labels.push(l) }
}

/// The decimal text of a label number.
pub open spec fn label_number(n: usize) -> Seq<char> {
    nat_text(n as nat)
}

/// The ABI name of a register.
pub open spec fn abi_name(r: Register) -> Seq<char> {
    match r {
        Register::Zero => "zero"@, Register::Ra => "ra"@, Register::Sp => "sp"@,
        Register::Gp => "gp"@, Register::Tp => "tp"@,
        Register::A0 => "a0"@, Register::A1 => "a1"@, Register::A2 => "a2"@,
        Register::A3 => "a3"@, Register::A4 => "a4"@, Register::A5 => "a5"@,
        Register::A6 => "a6"@, Register::A7 => "a7"@,
        Register::T0 => "t0"@, Register::T1 => "t1"@, Register::T2 => "t2"@,
        Register::T3 => "t3"@, Register::T4 => "t4"@, Register::T5 => "t5"@,
        Register::T6 => "t6"@, Register::S0 => "s0"@, Register::S1 => "s1"@,
        Register::S2 => "s2"@, Register::S3 => "s3"@, Register::S4 => "s4"@,
        Register::S5 => "s5"@, Register::S6 => "s6"@, Register::S7 => "s7"@,
        Register::S8 => "s8"@, Register::S9 => "s9"@, Register::S10 => "s10"@, Register::S11 => "s11"@,
    }
}

/// The branch that leaves a `for` loop: the negation of its condition opcode.
pub open spec fn for_exit_branch(op: Seq<char>) -> Seq<char> {
    if op == "beq"@ { "bne"@ }
    else if op == "bne"@ { "beq"@ }
    else if op == "blt"@ { "bge"@ }
    else if op == "bge"@ { "blt"@ }
    else if op == "slt"@ || op == "slti"@ { "bge"@ }
    else { "bne"@ }
}

/// The branch that skips a `while` body or an `if` branch: the negation of its condition opcode.
pub open spec fn skip_branch(op: Seq<char>) -> Seq<char> {
    if op == "beq"@ { "bne"@ }
    else if op == "bne"@ { "beq"@ }
    else if op == "blt"@ { "bge"@ }
    else if op == "bge"@ { "blt"@ }
    else if op == "slt"@ { "bge"@ }
    else { "bne"@ }
}

/// The branch line that jumps to `target` when the condition `left OP right` fails.
/// `bgt` and `ble` have no machine instruction: their negations are written with the
/// operands swapped.
pub open spec fn branch_line(negated: Seq<char>, op: Seq<char>, left: Register, right: Seq<char>, target: Seq<char>)
    -> Seq<char>
{
    if op == "bgt"@ {
        instr("bge "@ + right + ", "@ + abi_name(left) + ", "@ + target)
    } else if op == "ble"@ {
        instr("blt "@ + right + ", "@ + abi_name(left) + ", "@ + target)
    } else {
        instr(negated + " "@ + abi_name(left) + ", "@ + right + ", "@ + target)
    }
}

/// The right side of a comparison as a register name: an immediate or a global is first
/// loaded into the scratch register `t6`.
pub open spec fn comparison_operand(g: GenState, o: SOperand) -> (GenState, Seq<char>) {
    match o {
        SOperand::Reg(r) => (g, abi_name(r)),
        SOperand::Imm(i) => (emit(g, instr("li t6, "@ + int_text(i as int))), "t6"@),
        SOperand::Label(l) => (emit(g, instr("lw t6, "@ + l)), "t6"@),
        SOperand::Str(_) => (g, "zero"@),
    }
}

/// The opcodes of the M extension (and `sub`), which take no immediate operands.
pub open spec fn needs_registers(op: Seq<char>) -> bool {
    op == "mul"@ || op == "div"@ || op == "rem"@ || op == "remu"@ || op == "divu"@ || op == "sub"@
}

/// The scratch register for the operand at `index`: `t5` for the first, `t6` for the others.
pub open spec fn scratch(index: int) -> Seq<char> {
    if index == 0 { "t5"@ } else { "t6"@ }
}

/// The operand texts of an ALU instruction, and the loads into scratch registers they need.
pub open spec fn alu_operands(g: GenState, ops: Seq<SOperand>, needs: bool) -> (GenState, Seq<Seq<char>>)
    decreases ops.len(),
{
    if ops.len() == 0 {
        (g, Seq::empty())
    } else {
        let (g1, texts) = alu_operands(g, ops.drop_last(), needs);
        let i = ops.len() - 1;
        match ops.last() {
            SOperand::Reg(r) => (g1, texts.push(abi_name(r))),
            SOperand::Imm(v) => if needs {
                (emit(g1, instr("li "@ + scratch(i) + ", "@ + int_text(v as int))), texts.push(scratch(i)))
            } else {
                (g1, texts.push(int_text(v as int)))
            },
            SOperand::Label(l) => (emit(g1, instr("lw "@ + scratch(i) + ", "@ + l)), texts.push(scratch(i))),
            SOperand::Str(_) => (g1, texts),
        }
    }
}

/// The texts joined with `", "`.
pub open spec fn join(texts: Seq<Seq<char>>) -> Seq<char>
    decreases texts.len(),
{
    if texts.len() == 0 {
        Seq::empty()
    } else if texts.len() == 1 {
        texts[0]
    } else {
        join(texts.drop_last()) + ", "@ + texts.last()
    }
}

/// The code of `let TARGET = VALUE`.
pub open spec fn let_code(target: Register, value: SExpression, g: GenState) -> GenState {
    let dest = abi_name(target);
    match value {
        SExpression::Simple(o) => match o {
            SOperand::Imm(i) => emit(g, instr("li "@ + dest + ", "@ + int_text(i as int))),
            SOperand::Reg(r) => emit(g, instr("mv "@ + dest + ", "@ + abi_name(r))),
            SOperand::Str(s) => {
                let label = ".L_str_"@ + label_number(g.counter);
                GenState {
                    text: g.text + instr("la "@ + dest + ", "@ + label),
                    strings: g.strings.push((label, s)),
                    counter: next_label(g.counter),
                    labels: g.labels,
                }
            },
            SOperand::Label(l) => emit(g, instr("la "@ + dest + ", "@ + l)),
        },
        SExpression::AluCall { opcode, operands } => {
            let (g1, texts) = alu_operands(g, operands, needs_registers(opcode));
            emit(g1, instr(opcode + " "@ + dest + ", "@ + join(texts)))
        },
        SExpression::Load { opcode, offset, base } => emit(
            g,
            instr(opcode + " "@ + dest + ", "@ + int_text(offset as int) + "("@ + abi_name(base) + ")"@),
        ),
    }
}

/// The code of a statement of the function `f`.
pub open spec fn stmt_code(s: SStatement, f: Seq<char>, g: GenState) -> GenState
    decreases s,
{
    match s {
        SStatement::Return => emit(g, instr("j .L_exit_"@ + f)),
        SStatement::Ecall => emit(g, instr("ecall"@)),
        SStatement::Call { func_name } => emit(g, instr("call "@ + func_name)),
        SStatement::Store { opcode, src, offset, base } => emit(
            g,
            instr(opcode + " "@ + abi_name(src) + ", "@ + int_text(offset as int) + "("@ + abi_name(base) + ")"@),
        ),
        SStatement::For { init, condition_op, cond_left, cond_right, step, body } => {
            let id = label_number(g.counter);
            let start = ".L_for_start_"@ + id;
            let end = ".L_for_end_"@ + id;
            let g2 = stmt_code(*init, f, take_label(g));
            let g3 = define_label(g2, start);
            let (g4, right) = comparison_operand(g3, cond_right);
            let g5 = emit(g4, branch_line(for_exit_branch(condition_op), condition_op, cond_left, right, end));
            let g6 = block_code(body, f, g5);
            let g7 = stmt_code(*step, f, g6);
            define_label(emit(g7, instr("j "@ + start)), end)
        },
        SStatement::While { condition_op, left, right, body } => {
            let id = label_number(g.counter);
            let start = ".L_while_start_"@ + id;
            let end = ".L_while_end_"@ + id;
            let g2 = define_label(take_label(g), start);
            let (g3, r) = comparison_operand(g2, right);
            let g4 = emit(g3, branch_line(skip_branch(condition_op), condition_op, left, r, end));
            let g5 = block_code(body, f, g4);
            define_label(emit(g5, instr("j "@ + start)), end)
        },
        SStatement::If { condition_op, left, right, then_block, else_block } => {
            let id = label_number(g.counter);
            let else_label = ".L_else_"@ + id;
            let end = ".L_end_"@ + id;
            let target = if else_block is Some { else_label } else { end };
            let (g2, r) = comparison_operand(take_label(g), right);
            let g3 = emit(g2, branch_line(skip_branch(condition_op), condition_op, left, r, target));
            let g4 = block_code(then_block, f, g3);
            match else_block {
                Some(e) => {
                    let g5 = define_label(emit(g4, instr("j "@ + end)), else_label);
                    let g6 = block_code(e, f, g5);
                    define_label(g6, end)
                },
                None => define_label(g4, end),
            }
        },
        SStatement::Let { target, value } => let_code(target, value, g),
    }
}

/// The code of a block of statements of the function `f`, in order.
pub open spec fn block_code(b: Seq<SStatement>, f: Seq<char>, g: GenState) -> GenState
    decreases b,
{
    if b.len() == 0 {
        g
    } else {
        stmt_code(b.last(), f, block_code(b.drop_last(), f, g))
    }
}

/// Whether no operand is a string literal.
pub open spec fn alu_ready(ops: Seq<SOperand>) -> bool {
    forall|i: int| 0 <= i < ops.len() ==> !(#[trigger] ops[i] is Str)
}

/// Whether an expression that is an ALU instruction takes no string literal operand.
pub open spec fn expression_ready(e: SExpression) -> bool {
    match e {
        SExpression::AluCall { opcode, operands } => alu_ready(operands),
        _ => true,
    }
}

/// Whether no ALU instruction in the statement takes a string literal operand.
pub open spec fn stmt_ready(s: SStatement) -> bool
    decreases s,
{
    match s {
        SStatement::Let { target, value } => expression_ready(value),
        SStatement::For { init, condition_op, cond_left, cond_right, step, body } =>
            stmt_ready(*init) && stmt_ready(*step) && block_ready(body),
        SStatement::While { condition_op, left, right, body } => block_ready(body),
        SStatement::If { condition_op, left, right, then_block, else_block } =>
            block_ready(then_block) && match else_block {
                Some(e) => block_ready(e),
                None => true,
            },
        _ => true,
    }
}

/// Whether no ALU instruction in the block takes a string literal operand.
pub open spec fn block_ready(b: Seq<SStatement>) -> bool
    decreases b,
{
    if b.len() == 0 {
        true
    } else {
        block_ready(b.drop_last()) && stmt_ready(b.last())
    }
}

/// Whether no ALU instruction in the program takes a string literal operand.
pub open spec fn program_ready(p: SProgram) -> bool {
    forall|i: int| 0 <= i < p.functions.len() ==> block_ready(#[trigger] p.functions[i].body)
}

/// The code of a function: its global label, a frame that saves `ra` and `s0`, the body,
/// and the exit label that restores them and returns.
pub open spec fn function_code(func: SFunction, g: GenState) -> GenState {
    let name = func.name;
    let g1 = emit(emit(emit(emit(emit(emit(g,
        line("\n.global "@ + name)),
        line(name + ":"@)),
        instr("addi sp, sp, -16"@)),
        instr("sw ra, 12(sp)"@)),
        instr("sw s0, 8(sp)"@)),
        instr("addi s0, sp, 16"@));
    let g2 = block_code(func.body, name, g1);
    emit(emit(emit(emit(emit(g2,
        line(".L_exit_"@ + name + ":"@)),
        instr("lw s0, 8(sp)"@)),
        instr("lw ra, 12(sp)"@)),
        instr("addi sp, sp, 16"@)),
        instr("ret"@))
}

/// The code of the functions, in order.
pub open spec fn functions_code(fs: Seq<SFunction>, g: GenState) -> GenState
    decreases fs.len(),
{
    if fs.len() == 0 {
        g
    } else {
        function_code(fs.last(), functions_code(fs.drop_last(), g))
    }
}

/// The data line of a global.
pub open spec fn global_line(gl: SGlobal) -> Seq<char> {
    match gl {
        SGlobal::Scalar { name, value } => line(name + ": .word "@ + int_text(value as int)),
        SGlobal::Array { name, size } => line(name + ": .zero "@ + int_text(size as int)),
    }
}

/// The data lines of the globals, in order.
pub open spec fn globals_text(gs: Seq<SGlobal>) -> Seq<char>
    decreases gs.len(),
{
    if gs.len() == 0 {
        Seq::empty()
    } else {
        globals_text(gs.drop_last()) + global_line(gs.last())
    }
}

/// The data lines of the string literals, in order.
pub open spec fn strings_text(ss: Seq<(Seq<char>, Seq<char>)>) -> Seq<char>
    decreases ss.len(),
{
    if ss.len() == 0 {
        Seq::empty()
    } else {
        strings_text(ss.drop_last()) + line(ss.last().0 + ":"@) + instr(".asciz \""@ + ss.last().1 + "\""@)
    }
}

/// The assembly file of a program, and the generator's state after it.
pub open spec fn program_code(p: SProgram, g: GenState) -> (Seq<char>, GenState) {
    let g2 = functions_code(p.functions, g);
    let out = line("# Generated by Alloy Compiler"@) + line(".data"@) + globals_text(p.globals)
        + strings_text(g2.strings) + line(".text"@) + g2.text;
    (out, g2)
}

} // verus!
