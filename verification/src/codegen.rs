//! The code generator: a `Program` to RISC-V assembly text, verified against `assembly`.
use vstd::prelude::*;
use crate::ast::{Register, Operand, Global, Expression, Statement, Function, Program, SOperand,
    block_view, operands_view, functions_view, globals_view};
use crate::assembly::{GenState, define_label, line, instr, emit, next_label, take_label, label_number, abi_name,
    for_exit_branch, skip_branch, branch_line, comparison_operand, needs_registers, scratch,
    alu_operands, alu_ready, expression_ready, join, let_code, stmt_code, block_code, stmt_ready, block_ready, program_ready,
    function_code, functions_code, global_line, globals_text, strings_text, program_code};
use crate::text::{is_text, append, push_int, push_nat, int_text};

verus! {

/// The models of the collected string literals.
pub open spec fn strings_view(s: Seq<(String, String)>) -> Seq<(Seq<char>, Seq<char>)> {
    s.map_values(|p: (String, String)| (p.0@, p.1@))
}

/// The code generator: the text section written so far, the string literals collected,
/// and the next label number.
pub struct Codegen {
    text_buffer: String,
    string_table: Vec<(String, String)>,
    label_counter: usize,
    local_labels: Ghost<Seq<Seq<char>>>,
}

impl View for Codegen {
    type V = GenState;

    closed spec fn view(&self) -> GenState {
        GenState {
            text: self.text_buffer@,
            strings: strings_view(self.string_table@),
            counter: self.label_counter,
            labels: self.local_labels@,
        }
    }
}

/// The decimal text of a label number.
fn label_text(prefix: &str, n: usize) -> (s: String)
    ensures
        s@ == prefix@ + label_number(n),
{
    let mut s = prefix.to_owned();
    push_nat(&mut s, n as u64);
    s
}

fn for_exit(op: &String) -> (r: &'static str)
    ensures
        r@ == for_exit_branch(op@),
{
    if is_text(op, "beq") { "bne" }
    else if is_text(op, "bne") { "beq" }
    else if is_text(op, "blt") { "bge" }
    else if is_text(op, "bge") { "blt" }
    else if is_text(op, "slt") || is_text(op, "slti") { "bge" }
    else { "bne" }
}

fn skip(op: &String) -> (r: &'static str)
    ensures
        r@ == skip_branch(op@),
{
    if is_text(op, "beq") { "bne" }
    else if is_text(op, "bne") { "beq" }
    else if is_text(op, "blt") { "bge" }
    else if is_text(op, "bge") { "blt" }
    else if is_text(op, "slt") { "bge" }
    else { "bne" }
}

impl Codegen {
    /// A generator with nothing written, no strings, and label numbers from zero.
    pub fn new() -> (c: Self)
        ensures
            c@ == (GenState { text: Seq::empty(), strings: Seq::empty(), counter: 0, labels: Seq::empty() }),
    {
        let c = Codegen {
            text_buffer: String::new(),
            string_table: Vec::new(),
            label_counter: 0,
            local_labels: Ghost(Seq::empty()),
        };
        proof {
            assert(strings_view(c.string_table@) =~= Seq::<(Seq<char>, Seq<char>)>::empty());
        }
        c
    }

    /// The ABI name of a register.
    pub fn reg_name(r: &Register) -> (n: &'static str)
        ensures
            n@ == abi_name(*r),
    {
        match r {
            Register::Zero => "zero", Register::Ra => "ra", Register::Sp => "sp",
            Register::Gp => "gp", Register::Tp => "tp",
            Register::A0 => "a0", Register::A1 => "a1", Register::A2 => "a2",
            Register::A3 => "a3", Register::A4 => "a4", Register::A5 => "a5",
            Register::A6 => "a6", Register::A7 => "a7",
            Register::T0 => "t0", Register::T1 => "t1", Register::T2 => "t2",
            Register::T3 => "t3", Register::T4 => "t4", Register::T5 => "t5",
            Register::T6 => "t6", Register::S0 => "s0", Register::S1 => "s1",
            Register::S2 => "s2", Register::S3 => "s3", Register::S4 => "s4",
            Register::S5 => "s5", Register::S6 => "s6", Register::S7 => "s7",
            Register::S8 => "s8", Register::S9 => "s9", Register::S10 => "s10", Register::S11 => "s11",
        }
    }

    /// Writes the line `body` to the text section.
    fn emit_line(&mut self, body: &String)
        ensures
            final(self)@ == emit(old(self)@, line(body@)),
    {
        self.text_buffer.append(body.as_str());
        self.text_buffer.push('\n');
        proof {
            assert(self.text_buffer@ =~= old(self).text_buffer@ + line(body@));
        }
    }

    /// Defines the local label `label`: writes the line `label:` to the text section.
    fn define_label(&mut self, label: &String)
        ensures
            final(self)@ == define_label(old(self)@, label@),
    {
        let mut l = label.clone();
        append(&mut l, ":");
        self.emit_line(&l);
        self.local_labels = Ghost(self.local_labels@.push(label@));
    }

    /// Writes the instruction line `body` to the text section.
    fn emit_instr(&mut self, body: &String)
        ensures
            final(self)@ == emit(old(self)@, instr(body@)),
    {
        self.text_buffer.append("    ");
        self.text_buffer.append(body.as_str());
        self.text_buffer.push('\n');
        proof {
            assert(self.text_buffer@ =~= old(self).text_buffer@ + instr(body@));
        }
    }

    /// Writes the branch that jumps to `target` when the condition fails.
    fn emit_branch(&mut self, negated: &str, op: &String, left: &Register, right: &String, target: &String)
        ensures
            final(self)@ == emit(old(self)@, branch_line(negated@, op@, *left, right@, target@)),
    {
        let swapped = if is_text(op, "bgt") {
            Some("bge ")
        } else if is_text(op, "ble") {
            Some("blt ")
        } else {
            None
        };
        let mut l: String;
        match swapped {
            Some(b) => {
                l = b.to_owned();
                append(&mut l, right.as_str());
                append(&mut l, ", ");
                append(&mut l, Self::reg_name(left));
            },
            None => {
                l = negated.to_owned();
                append(&mut l, " ");
                append(&mut l, Self::reg_name(left));
                append(&mut l, ", ");
                append(&mut l, right.as_str());
            },
        }
        append(&mut l, ", ");
        append(&mut l, target.as_str());
        self.emit_instr(&l);
    }

    /// The right side of a comparison as a register name, loading an immediate or a global
    /// into `t6` first.
    pub fn prepare_comparison_operand(&mut self, op: &Operand) -> (s: String)
        ensures
            (final(self)@, s@) == comparison_operand(old(self)@, op@),
    {
        match op {
            Operand::Reg(r) => Self::reg_name(r).to_owned(),
            Operand::Imm(i) => {
                let mut l = "li t6, ".to_owned();
                push_int(&mut l, *i);
                self.emit_instr(&l);
                "t6".to_owned()
            },
            Operand::Label(name) => {
                let mut l = "lw t6, ".to_owned();
                append(&mut l, name.as_str());
                self.emit_instr(&l);
                "t6".to_owned()
            },
            Operand::Str(_) => "zero".to_owned(),
        }
    }

    /// Takes the next label number.
    fn take_label(&mut self) -> (n: usize)
        ensures
            n == old(self)@.counter,
            final(self)@ == take_label(old(self)@),
    {
        let n = self.label_counter;
        self.label_counter = if self.label_counter < usize::MAX { self.label_counter + 1 } else { 0 };
        n
    }
}

impl Codegen {
    /// Writes the loads an ALU instruction needs and gives the texts of its operands.
    fn alu_operand_texts(&mut self, operands: &Vec<Operand>, needs: bool) -> (texts: Vec<String>)
        requires
            alu_ready(operands_view(operands@)),
        ensures
            (final(self)@, texts@.map_values(|t: String| t@)) == alu_operands(old(self)@, operands_view(operands@), needs),
    {
        let mut texts: Vec<String> = Vec::new();
        let mut i: usize = 0;
        let ghost ops = operands_view(operands@);
        proof {
            assert(ops.take(0) =~= Seq::<SOperand>::empty());
            assert(texts@.map_values(|t: String| t@) =~= Seq::<Seq<char>>::empty());
        }
        while i < operands.len()
            invariant
                i <= operands.len(),
                ops == operands_view(operands@),
                forall|k: int| 0 <= k < operands@.len() ==> !(#[trigger] ops[k] is Str),
                (self@, texts@.map_values(|t: String| t@)) == alu_operands(old(self)@, ops.take(i as int), needs),
            decreases operands.len() - i,
        {
            let ghost before = texts@.map_values(|t: String| t@);
            proof {
                assert(ops.take(i + 1).drop_last() =~= ops.take(i as int));
                assert(ops.take(i + 1).last() == operands@[i as int]@);
                assert(!(ops[i as int] is Str));
            }
            let t = match &operands[i] {
                Operand::Reg(r) => Self::reg_name(r).to_owned(),
                Operand::Imm(v) => {
                    if needs {
                        let sc = if i == 0 { "t5" } else { "t6" };
                        let mut l = "li ".to_owned();
                        append(&mut l, sc);
                        append(&mut l, ", ");
                        push_int(&mut l, *v);
                        self.emit_instr(&l);
                        sc.to_owned()
                    } else {
                        let mut l = String::new();
                        push_int(&mut l, *v);
                        proof { assert(l@ =~= int_text(*v as int)); }
                        l
                    }
                },
                Operand::Label(name) => {
                    let sc = if i == 0 { "t5" } else { "t6" };
                    let mut l = "lw ".to_owned();
                    append(&mut l, sc);
                    append(&mut l, ", ");
                    append(&mut l, name.as_str());
                    self.emit_instr(&l);
                    sc.to_owned()
                },
                Operand::Str(_) => String::new(),
            };
            texts.push(t);
            proof {
                assert(texts@.map_values(|t: String| t@) =~= before.push(t@));
            }
            i = i + 1;
        }
        proof {
            assert(ops.take(operands.len() as int) =~= ops);
        }
        texts
    }

    /// Writes `let TARGET = VALUE`.
    fn emit_let(&mut self, target: &Register, value: &Expression)
        requires
            expression_ready(value@),
        ensures
            final(self)@ == let_code(*target, value@, old(self)@),
    {
        let dest = Self::reg_name(target);
        match value {
            Expression::Simple(op) => match op {
                Operand::Imm(i) => {
                    let mut l = "li ".to_owned();
                    append(&mut l, dest);
                    append(&mut l, ", ");
                    push_int(&mut l, *i);
                    self.emit_instr(&l);
                },
                Operand::Reg(r) => {
                    let mut l = "mv ".to_owned();
                    append(&mut l, dest);
                    append(&mut l, ", ");
                    append(&mut l, Self::reg_name(r));
                    self.emit_instr(&l);
                },
                Operand::Str(content) => {
                    let n = self.take_label();
                    let label = label_text(".L_str_", n);
                    let ghost before = strings_view(self.string_table@);
                    self.string_table.push((label.clone(), content.clone()));
                    proof {
                        assert(strings_view(self.string_table@) =~= before.push((label@, content@)));
                    }
                    let mut l = "la ".to_owned();
                    append(&mut l, dest);
                    append(&mut l, ", ");
                    append(&mut l, label.as_str());
                    self.emit_instr(&l);
                },
                Operand::Label(name) => {
                    let mut l = "la ".to_owned();
                    append(&mut l, dest);
                    append(&mut l, ", ");
                    append(&mut l, name.as_str());
                    self.emit_instr(&l);
                },
            },
            Expression::AluCall { opcode, operands } => {
                let needs = is_text(opcode, "mul") || is_text(opcode, "div") || is_text(opcode, "rem")
                    || is_text(opcode, "remu") || is_text(opcode, "divu") || is_text(opcode, "sub");
                let texts = self.alu_operand_texts(operands, needs);
                let ghost tv = texts@.map_values(|t: String| t@);
                let mut joined = String::new();
                let mut i: usize = 0;
                proof {
                    assert(tv.take(0) =~= Seq::<Seq<char>>::empty());
                }
                while i < texts.len()
                    invariant
                        i <= texts.len(),
                        tv == texts@.map_values(|t: String| t@),
                        joined@ == join(tv.take(i as int)),
                    decreases texts.len() - i,
                {
                    proof {
                        assert(tv.take(i + 1).drop_last() =~= tv.take(i as int));
                        assert(tv.take(i + 1).last() == texts@[i as int]@);
                    }
                    if i > 0 {
                        append(&mut joined, ", ");
                    } else {
                        proof { assert(tv.take(1)[0] == texts@[0]@); }
                    }
                    append(&mut joined, texts[i].as_str());
                    proof {
                        if i == 0 {
                            assert(joined@ =~= tv.take(1)[0]);
                        }
                    }
                    i = i + 1;
                }
                proof {
                    assert(tv.take(texts.len() as int) =~= tv);
                }
                let mut l = opcode.clone();
                append(&mut l, " ");
                append(&mut l, dest);
                append(&mut l, ", ");
                append(&mut l, joined.as_str());
                self.emit_instr(&l);
            },
            Expression::Load { opcode, offset, base } => {
                let mut l = opcode.clone();
                append(&mut l, " ");
                append(&mut l, dest);
                append(&mut l, ", ");
                push_int(&mut l, *offset);
                append(&mut l, "(");
                append(&mut l, Self::reg_name(base));
                append(&mut l, ")");
                self.emit_instr(&l);
            },
        }
    }
}

impl Codegen {
    /// Writes the code of a statement of the function `func_name`.
    pub fn emit_statement(&mut self, stmt: &Statement, func_name: &str)
        requires
            stmt_ready(stmt@),
        ensures
            final(self)@ == stmt_code(stmt@, func_name@, old(self)@),
        decreases *stmt, 0nat,
    {
        match stmt {
            Statement::Return => {
                let mut l = "j .L_exit_".to_owned();
                append(&mut l, func_name);
                self.emit_instr(&l);
            },
            Statement::Ecall => {
                let l = "ecall".to_owned();
                self.emit_instr(&l);
            },
            Statement::Call { func_name: callee } => {
                let mut l = "call ".to_owned();
                append(&mut l, callee.as_str());
                self.emit_instr(&l);
            },
            Statement::Store { opcode, src, offset, base } => {
                let mut l = opcode.clone();
                append(&mut l, " ");
                append(&mut l, Self::reg_name(src));
                append(&mut l, ", ");
                push_int(&mut l, *offset);
                append(&mut l, "(");
                append(&mut l, Self::reg_name(base));
                append(&mut l, ")");
                self.emit_instr(&l);
            },
            Statement::For { init, condition_op, cond_left, cond_right, step, body } => {
                let n = self.take_label();
                let start = label_text(".L_for_start_", n);
                let end = label_text(".L_for_end_", n);
                self.emit_statement(init, func_name);
                self.define_label(&start);
                let right = self.prepare_comparison_operand(cond_right);
                let negated = for_exit(condition_op);
                self.emit_branch(negated, condition_op, cond_left, &right, &end);
                self.emit_block(body, func_name);
                self.emit_statement(step, func_name);
                let mut j = "j ".to_owned();
                append(&mut j, start.as_str());
                self.emit_instr(&j);
                self.define_label(&end);
            },
            Statement::While { condition_op, left, right, body } => {
                let n = self.take_label();
                let start = label_text(".L_while_start_", n);
                let end = label_text(".L_while_end_", n);
                self.define_label(&start);
                let r = self.prepare_comparison_operand(right);
                let negated = skip(condition_op);
                self.emit_branch(negated, condition_op, left, &r, &end);
                self.emit_block(body, func_name);
                let mut j = "j ".to_owned();
                append(&mut j, start.as_str());
                self.emit_instr(&j);
                self.define_label(&end);
            },
            Statement::If { condition_op, left, right, then_block, else_block } => {
                let n = self.take_label();
                let else_label = label_text(".L_else_", n);
                let end = label_text(".L_end_", n);
                let r = self.prepare_comparison_operand(right);
                let negated = skip(condition_op);
                let target = if else_block.is_some() { else_label.clone() } else { end.clone() };
                self.emit_branch(negated, condition_op, left, &r, &target);
                self.emit_block(then_block, func_name);
                match else_block {
                    Some(e_block) => {
                        let mut j = "j ".to_owned();
                        append(&mut j, end.as_str());
                        self.emit_instr(&j);
                        self.define_label(&else_label);
                        self.emit_block(e_block, func_name);
                    },
                    None => {},
                }
                self.define_label(&end);
            },
            Statement::Let { target, value } => {
                self.emit_let(target, value);
            },
        }
    }

    /// Writes the code of a block of statements of the function `func_name`.
    pub fn emit_block(&mut self, block: &Vec<Statement>, func_name: &str)
        requires
            block_ready(block_view(block@)),
        ensures
            final(self)@ == block_code(block_view(block@), func_name@, old(self)@),
        decreases block@, 0nat,
    {
        let mut i: usize = 0;
        proof {
            lemma_block_ready_prefix(block@, 0);
        }
        while i < block.len()
            invariant
                i <= block.len(),
                block_ready(block_view(block@)),
                self@ == block_code(block_view(block@.take(i as int)), func_name@, old(self)@),
            decreases block.len() - i,
        {
            proof {
                let t = block@.take(i + 1);
                assert(t.drop_last() =~= block@.take(i as int));
                assert(t.last() == block@[i as int]);
                let bv = block_view(t);
                assert(bv == block_view(t.drop_last()).push(crate::ast::statement_view(t.last())));
                assert(bv.drop_last() =~= block_view(block@.take(i as int)));
                assert(bv.last() == block@[i as int]@);
                lemma_block_ready_prefix(block@, i + 1);
            }
            self.emit_statement(&block[i], func_name);
            i = i + 1;
        }
        proof {
            assert(block@.take(block.len() as int) =~= block@);
        }
    }

    /// Writes the code of a function: label, frame, body, and exit.
    pub fn emit_function(&mut self, func: &Function)
        requires
            block_ready(func@.body),
        ensures
            final(self)@ == function_code(func@, old(self)@),
    {
        let name = func.name.as_str();
        let mut l = "\n.global ".to_owned();
        append(&mut l, name);
        self.emit_line(&l);
        let mut l2 = func.name.clone();
        append(&mut l2, ":");
        self.emit_line(&l2);
        self.emit_instr(&"addi sp, sp, -16".to_owned());
        self.emit_instr(&"sw ra, 12(sp)".to_owned());
        self.emit_instr(&"sw s0, 8(sp)".to_owned());
        self.emit_instr(&"addi s0, sp, 16".to_owned());
        self.emit_block(&func.body, name);
        let mut l3 = ".L_exit_".to_owned();
        append(&mut l3, name);
        append(&mut l3, ":");
        self.emit_line(&l3);
        self.emit_instr(&"lw s0, 8(sp)".to_owned());
        self.emit_instr(&"lw ra, 12(sp)".to_owned());
        self.emit_instr(&"addi sp, sp, 16".to_owned());
        self.emit_instr(&"ret".to_owned());
    }

    /// The assembly file of a program: its data section (globals, then the string literals
    /// of all code written so far) and its text section.
    pub fn emit_program(&mut self, prog: &Program) -> (out: String)
        requires
            program_ready(prog@),
        ensures
            (out@, final(self)@) == program_code(prog@, old(self)@),
    {
        let mut out = String::new();
        append(&mut out, "# Generated by Alloy Compiler");
        out.push('\n');
        append(&mut out, ".data");
        out.push('\n');
        let ghost head = line("# Generated by Alloy Compiler"@) + line(".data"@);
        proof {
            assert(out@ =~= head);
        }
        let ghost gs = globals_view(prog.globals@);
        let mut i: usize = 0;
        proof {
            assert(gs.take(0) =~= Seq::<crate::ast::SGlobal>::empty());
        }
        while i < prog.globals.len()
            invariant
                i <= prog.globals.len(),
                gs == globals_view(prog.globals@),
                out@ == head + globals_text(gs.take(i as int)),
            decreases prog.globals.len() - i,
        {
            proof {
                assert(gs.take(i + 1).drop_last() =~= gs.take(i as int));
                assert(gs.take(i + 1).last() == prog.globals@[i as int]@);
            }
            let ghost before = out@;
            match &prog.globals[i] {
                Global::Scalar { name, value } => {
                    append(&mut out, name.as_str());
                    append(&mut out, ": .word ");
                    push_int(&mut out, *value);
                },
                Global::Array { name, size } => {
                    append(&mut out, name.as_str());
                    append(&mut out, ": .zero ");
                    push_int(&mut out, *size);
                },
            }
            out.push('\n');
            proof {
                assert(out@ =~= before + global_line(prog.globals@[i as int]@));
            }
            i = i + 1;
        }
        proof {
            assert(gs.take(prog.globals.len() as int) =~= gs);
        }
        let ghost fs = functions_view(prog.functions@);
        let ghost g0 = self@;
        let mut k: usize = 0;
        proof {
            assert(fs.take(0) =~= Seq::<crate::ast::SFunction>::empty());
        }
        while k < prog.functions.len()
            invariant
                k <= prog.functions.len(),
                fs == functions_view(prog.functions@),
                program_ready(prog@),
                prog@.functions == fs,
                self@ == functions_code(fs.take(k as int), g0),
            decreases prog.functions.len() - k,
        {
            proof {
                assert(fs.take(k + 1).drop_last() =~= fs.take(k as int));
                assert(fs.take(k + 1).last() == prog.functions@[k as int]@);
                assert(block_ready(fs[k as int].body));
            }
            self.emit_function(&prog.functions[k]);
            k = k + 1;
        }
        proof {
            assert(fs.take(prog.functions.len() as int) =~= fs);
        }
        let ghost with_globals = out@;
        let mut j: usize = 0;
        let ghost ss = strings_view(self.string_table@);
        proof {
            assert(ss.take(0) =~= Seq::<(Seq<char>, Seq<char>)>::empty());
        }
        while j < self.string_table.len()
            invariant
                j <= self.string_table.len(),
                ss == strings_view(self.string_table@),
                out@ == with_globals + strings_text(ss.take(j as int)),
            decreases self.string_table.len() - j,
        {
            proof {
                assert(ss.take(j + 1).drop_last() =~= ss.take(j as int));
                assert(ss.take(j + 1).last() == ss[j as int]);
            }
            let ghost before = out@;
            append(&mut out, self.string_table[j].0.as_str());
            append(&mut out, ":");
            out.push('\n');
            append(&mut out, "    ");
            append(&mut out, ".asciz \"");
            append(&mut out, self.string_table[j].1.as_str());
            append(&mut out, "\"");
            out.push('\n');
            proof {
                assert(out@ =~= before + line(ss[j as int].0 + ":"@) + instr(".asciz \""@ + ss[j as int].1 + "\""@));
            }
            j = j + 1;
        }
        proof {
            assert(ss.take(self.string_table.len() as int) =~= ss);
        }
        append(&mut out, ".text");
        out.push('\n');
        append(&mut out, self.text_buffer.as_str());
        proof {
            assert(out@ =~= program_code(prog@, g0).0);
        }
        out
    }
}

proof fn lemma_block_ready_prefix(b: Seq<Statement>, i: int)
    requires
        0 <= i <= b.len(),
        block_ready(block_view(b)),
    ensures
        block_ready(block_view(b.take(i))),
        i < b.len() ==> stmt_ready(b[i]@),
    decreases b.len(),
{
    if i < b.len() {
        let p = b.drop_last();
        assert(block_view(b).drop_last() == block_view(p));
        if i < p.len() {
            lemma_block_ready_prefix(p, i);
            assert(p.take(i) == b.take(i));
            assert(p[i] == b[i]);
        } else {
            assert(p == b.take(i));
            assert(block_view(b).last() == b[i]@);
        }
    } else {
        assert(b.take(i) == b);
    }
}

/// Whether an ALU operand list holds no string literal.
fn operands_ready(ops: &Vec<Operand>) -> (r: bool)
    ensures
        r == alu_ready(operands_view(ops@)),
{
    let mut i: usize = 0;
    while i < ops.len()
        invariant
            i <= ops.len(),
            forall|k: int| 0 <= k < i ==> !(#[trigger] operands_view(ops@)[k] is Str),
        decreases ops.len() - i,
    {
        if let Operand::Str(_) = &ops[i] {
            proof { assert(operands_view(ops@)[i as int] is Str); }
            return false;
        }
        i = i + 1;
    }
    true
}

/// Whether no ALU instruction in the statement takes a string literal operand.
pub fn statement_is_emittable(s: &Statement) -> (r: bool)
    ensures
        r == stmt_ready(s@),
    decreases *s, 0nat,
{
    match s {
        Statement::Let { target, value } => match value {
            Expression::AluCall { opcode, operands } => operands_ready(operands),
            _ => true,
        },
        Statement::For { init, condition_op, cond_left, cond_right, step, body } =>
            statement_is_emittable(init) && statement_is_emittable(step) && block_is_emittable(body),
        Statement::While { condition_op, left, right, body } => block_is_emittable(body),
        Statement::If { condition_op, left, right, then_block, else_block } => {
            let t = block_is_emittable(then_block);
            match else_block {
                Some(e) => t && block_is_emittable(e),
                None => t,
            }
        },
        _ => true,
    }
}

/// Whether no ALU instruction in the block takes a string literal operand.
pub fn block_is_emittable(b: &Vec<Statement>) -> (r: bool)
    ensures
        r == block_ready(block_view(b@)),
    decreases b@, 0nat,
{
    let mut i: usize = 0;
    proof {
        assert(block_view(b@.take(0)) =~= Seq::<crate::ast::SStatement>::empty());
    }
    while i < b.len()
        invariant
            i <= b.len(),
            block_ready(block_view(b@.take(i as int))),
        decreases b.len() - i,
    {
        let ghost t = b@.take(i + 1);
        proof {
            assert(t.drop_last() =~= b@.take(i as int));
            assert(t.last() == b@[i as int]);
            assert(block_view(t) == block_view(t.drop_last()).push(crate::ast::statement_view(t.last())));
            assert(block_view(t).drop_last() =~= block_view(b@.take(i as int)));
        }
        if !statement_is_emittable(&b[i]) {
            proof {
                if block_ready(block_view(b@)) {
                    lemma_block_view_take(b@, i + 1);
                    lemma_ready_prefix_model(block_view(b@), i + 1);
                    assert(block_view(b@).take(i + 1) == block_view(t));
                }
            }
            return false;
        }
        i = i + 1;
    }
    proof {
        assert(b@.take(b.len() as int) =~= b@);
    }
    true
}

proof fn lemma_block_view_take(b: Seq<Statement>, i: int)
    requires
        0 <= i <= b.len(),
    ensures
        block_view(b).take(i) == block_view(b.take(i)),
        block_view(b).len() == b.len(),
    decreases b.len(),
{
    if b.len() > 0 {
        lemma_block_view_take(b.drop_last(), if i < b.len() { i } else { b.len() - 1 });
        if i < b.len() {
            assert(b.drop_last().take(i) == b.take(i));
            assert(block_view(b).take(i) =~= block_view(b.drop_last()).take(i));
        } else {
            assert(b.take(i) == b);
            assert(block_view(b).take(i) =~= block_view(b));
        }
    } else {
        assert(b.take(i) == b);
        assert(block_view(b).take(i) =~= block_view(b));
    }
}

proof fn lemma_ready_prefix_model(b: Seq<crate::ast::SStatement>, i: int)
    requires
        0 <= i <= b.len(),
        block_ready(b),
    ensures
        block_ready(b.take(i)),
    decreases b.len(),
{
    if i < b.len() {
        lemma_ready_prefix_model(b.drop_last(), i);
        assert(b.drop_last().take(i) == b.take(i));
    } else {
        assert(b.take(i) == b);
    }
}

/// Whether no ALU instruction in the program takes a string literal operand: exactly the
/// programs that `Codegen::emit_program` can write.
pub fn program_is_emittable(p: &Program) -> (r: bool)
    ensures
        r == program_ready(p@),
{
    let mut i: usize = 0;
    while i < p.functions.len()
        invariant
            i <= p.functions.len(),
            forall|k: int| 0 <= k < i ==> block_ready(#[trigger] functions_view(p.functions@)[k].body),
        decreases p.functions.len() - i,
    {
        if !block_is_emittable(&p.functions[i].body) {
            proof {
                assert(functions_view(p.functions@)[i as int] == p.functions@[i as int]@);
                assert(!block_ready(p@.functions[i as int].body));
            }
            return false;
        }
        proof {
            assert(functions_view(p.functions@)[i as int] == p.functions@[i as int]@);
        }
        i = i + 1;
    }
    true
}

} // verus!
