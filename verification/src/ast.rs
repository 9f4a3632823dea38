//! The abstract syntax tree of an Alloy program, and its mathematical model.
use vstd::prelude::*;

verus! {

/// A hardware register of the RISC-V base integer file, by ABI name.
#[derive(Debug, Clone, Copy, PartialEq, Eq, Structural)]
pub enum Register {
    Zero, Ra, Sp, Gp, Tp,
    A0, A1, A2, A3, A4, A5, A6, A7,
    T0, T1, T2, T3, T4, T5, T6,
    S0, S1, S2, S3, S4, S5, S6, S7, S8, S9, S10, S11,
}

#[derive(Debug, Clone, PartialEq)]
pub enum Operand {
    Reg(Register),
    Imm(i32),
    Str(String),
    /// A reference to a global name.
    Label(String),
}

#[derive(Debug, Clone, PartialEq)]
pub enum Global {
    Scalar { name: String, value: i32 },
    Array { name: String, size: i32 },
}

#[derive(Debug, Clone, PartialEq)]
pub enum Expression {
    AluCall { opcode: String, operands: Vec<Operand> },
    Load { opcode: String, offset: i32, base: Register },
    Simple(Operand),
}

#[derive(Debug, PartialEq)]
pub enum Statement {
    Let { target: Register, value: Expression },
    Store { opcode: String, src: Register, offset: i32, base: Register },
    Return,
    Ecall,
    Call { func_name: String },
    If {
        condition_op: String,
        left: Register,
        right: Operand,
        then_block: Vec<Statement>,
        else_block: Option<Vec<Statement>>,
    },
    While {
        condition_op: String,
        left: Register,
        right: Operand,
        body: Vec<Statement>,
    },
    For {
        init: Box<Statement>,
        condition_op: String,
        cond_left: Register,
        cond_right: Operand,
        step: Box<Statement>,
        body: Vec<Statement>,
    },
}

#[derive(Debug, PartialEq)]
pub struct Function {
    pub name: String,
    pub body: Vec<Statement>,
}

#[derive(Debug, PartialEq)]
pub struct Program {
    pub globals: Vec<Global>,
    pub functions: Vec<Function>,
}

// ------------------------------------------------------------------
// The mathematical model: the same tree with texts as character sequences.
// ------------------------------------------------------------------

pub enum SOperand {
    Reg(Register),
    Imm(i32),
    Str(Seq<char>),
    Label(Seq<char>),
}

pub enum SGlobal {
    Scalar { name: Seq<char>, value: i32 },
    Array { name: Seq<char>, size: i32 },
}

pub enum SExpression {
    AluCall { opcode: Seq<char>, operands: Seq<SOperand> },
    Load { opcode: Seq<char>, offset: i32, base: Register },
    Simple(SOperand),
}

pub enum SStatement {
    Let { target: Register, value: SExpression },
    Store { opcode: Seq<char>, src: Register, offset: i32, base: Register },
    Return,
    Ecall,
    Call { func_name: Seq<char> },
    If {
        condition_op: Seq<char>,
        left: Register,
        right: SOperand,
        then_block: Seq<SStatement>,
        else_block: Option<Seq<SStatement>>,
    },
    While { condition_op: Seq<char>, left: Register, right: SOperand, body: Seq<SStatement> },
    For {
        init: Box<SStatement>,
        condition_op: Seq<char>,
        cond_left: Register,
        cond_right: SOperand,
        step: Box<SStatement>,
        body: Seq<SStatement>,
    },
}

pub struct SFunction {
    pub name: Seq<char>,
    pub body: Seq<SStatement>,
}

pub struct SProgram {
    pub globals: Seq<SGlobal>,
    pub functions: Seq<SFunction>,
}

impl View for Operand {
    type V = SOperand;

    open spec fn view(&self) -> SOperand {
        match self {
            Operand::Reg(r) => SOperand::Reg(*r),
            Operand::Imm(i) => SOperand::Imm(*i),
            Operand::Str(s) => SOperand::Str(s@),
            Operand::Label(l) => SOperand::Label(l@),
        }
    }
}

impl View for Global {
    type V = SGlobal;

    open spec fn view(&self) -> SGlobal {
        match self {
            Global::Scalar { name, value } => SGlobal::Scalar { name: name@, value: *value },
            Global::Array { name, size } => SGlobal::Array { name: name@, size: *size },
        }
    }
}

pub open spec fn operands_view(v: Seq<Operand>) -> Seq<SOperand> {
    v.map_values(|o: Operand| o@)
}

impl View for Expression {
    type V = SExpression;

    open spec fn view(&self) -> SExpression {
        match self {
            Expression::AluCall { opcode, operands } => SExpression::AluCall {
                opcode: opcode@,
                operands: operands_view(operands@),
            },
            Expression::Load { opcode, offset, base } => SExpression::Load {
                opcode: opcode@,
                offset: *offset,
                base: *base,
            },
            Expression::Simple(o) => SExpression::Simple(o@),
        }
    }
}

/// The model of a sequence of statements.
pub open spec fn block_view(v: Seq<Statement>) -> Seq<SStatement>
    decreases v,
{
    if v.len() == 0 {
        Seq::empty()
    } else {
        block_view(v.drop_last()).push(statement_view(v.last()))
    }
}

/// The model of a statement.
pub open spec fn statement_view(s: Statement) -> SStatement
    decreases s,
{
    match s {
        Statement::Let { target, value } => SStatement::Let { target, value: value@ },
        Statement::Store { opcode, src, offset, base } => SStatement::Store {
            opcode: opcode@,
            src,
            offset,
            base,
        },
        Statement::Return => SStatement::Return,
        Statement::Ecall => SStatement::Ecall,
        Statement::Call { func_name } => SStatement::Call { func_name: func_name@ },
        Statement::If { condition_op, left, right, then_block, else_block } => SStatement::If {
            condition_op: condition_op@,
            left,
            right: right@,
            then_block: block_view(then_block@),
            else_block: match else_block {
                Some(e) => Some(block_view(e@)),
                None => None,
            },
        },
        Statement::While { condition_op, left, right, body } => SStatement::While {
            condition_op: condition_op@,
            left,
            right: right@,
            body: block_view(body@),
        },
        Statement::For { init, condition_op, cond_left, cond_right, step, body } => SStatement::For {
            init: Box::new(statement_view(*init)),
            condition_op: condition_op@,
            cond_left,
            cond_right: cond_right@,
            step: Box::new(statement_view(*step)),
            body: block_view(body@),
        },
    }
}

impl View for Statement {
    type V = SStatement;

    open spec fn view(&self) -> SStatement {
        statement_view(*self)
    }
}

impl View for Function {
    type V = SFunction;

    open spec fn view(&self) -> SFunction {
        SFunction { name: self.name@, body: block_view(self.body@) }
    }
}

/// The model of a list of globals.
pub open spec fn globals_view(v: Seq<Global>) -> Seq<SGlobal> {
    v.map_values(|g: Global| g@)
}

/// The model of a list of functions.
pub open spec fn functions_view(v: Seq<Function>) -> Seq<SFunction> {
    v.map_values(|f: Function| f@)
}

impl View for Program {
    type V = SProgram;

    open spec fn view(&self) -> SProgram {
        SProgram { globals: globals_view(self.globals@), functions: functions_view(self.functions@) }
    }
}

} // verus!

verus! {

/// A copy of an operand.
pub fn copy_operand(o: &Operand) -> (r: Operand)
    ensures
        r@ == o@,
{
    match o {
        Operand::Reg(r) => Operand::Reg(*r),
        Operand::Imm(i) => Operand::Imm(*i),
        Operand::Str(s) => Operand::Str(s.clone()),
        Operand::Label(l) => Operand::Label(l.clone()),
    }
}

/// A copy of a block of statements.
pub fn copy_block(b: &Vec<Statement>) -> (r: Vec<Statement>)
    ensures
        block_view(r@) == block_view(b@),
    decreases b@, 0nat,
{
    let mut out: Vec<Statement> = Vec::new();
    let mut i: usize = 0;
    while i < b.len()
        invariant
            i <= b.len(),
            block_view(out@) == block_view(b@.take(i as int)),
        decreases b.len() - i,
    {
        let ghost before = out@;
        let s = copy_statement(&b[i]);
        out.push(s);
        proof {
            assert(b@.take(i + 1).drop_last() == b@.take(i as int));
            assert(out@.drop_last() == before);
        }
        i = i + 1;
    }
    proof {
        assert(b@.take(b.len() as int) == b@);
    }
    out
}

/// A copy of a statement.
pub fn copy_statement(s: &Statement) -> (r: Statement)
    ensures
        r@ == s@,
    decreases *s, 0nat,
{
    match s {
        Statement::Let { target, value } => {
            let v = match value {
                Expression::AluCall { opcode, operands } => {
                    let mut ops: Vec<Operand> = Vec::new();
                    let mut i: usize = 0;
                    while i < operands.len()
                        invariant
                            i <= operands.len(),
                            ops@.len() == i,
                            forall|j: int| 0 <= j < i ==> (#[trigger] ops@[j])@ == operands@[j]@,
                        decreases operands.len() - i,
                    {
                        ops.push(copy_operand(&operands[i]));
                        i = i + 1;
                    }
                    proof {
                        assert(operands_view(ops@) =~= operands_view(operands@));
                    }
                    Expression::AluCall { opcode: opcode.clone(), operands: ops }
                },
                Expression::Load { opcode, offset, base } => Expression::Load {
                    opcode: opcode.clone(),
                    offset: *offset,
                    base: *base,
                },
                Expression::Simple(o) => Expression::Simple(copy_operand(o)),
            };
            Statement::Let { target: *target, value: v }
        },
        Statement::Store { opcode, src, offset, base } => Statement::Store {
            opcode: opcode.clone(),
            src: *src,
            offset: *offset,
            base: *base,
        },
        Statement::Return => Statement::Return,
        Statement::Ecall => Statement::Ecall,
        Statement::Call { func_name } => Statement::Call { func_name: func_name.clone() },
        Statement::If { condition_op, left, right, then_block, else_block } => {
            let e = match else_block {
                Some(b) => Some(copy_block(b)),
                None => None,
            };
            Statement::If {
                condition_op: condition_op.clone(),
                left: *left,
                right: copy_operand(right),
                then_block: copy_block(then_block),
                else_block: e,
            }
        },
        Statement::While { condition_op, left, right, body } => Statement::While {
            condition_op: condition_op.clone(),
            left: *left,
            right: copy_operand(right),
            body: copy_block(body),
        },
        Statement::For { init, condition_op, cond_left, cond_right, step, body } => {
            let i = copy_statement(init);
            let st = copy_statement(step);
            Statement::For {
                init: Box::new(i),
                condition_op: condition_op.clone(),
                cond_left: *cond_left,
                cond_right: copy_operand(cond_right),
                step: Box::new(st),
                body: copy_block(body),
            }
        },
    }
}

impl Clone for Statement {
    fn clone(&self) -> (r: Self)
        ensures
            r@ == self@,
    {
        copy_statement(self)
    }
}

impl Clone for Function {
    fn clone(&self) -> (r: Self)
        ensures
            r@ == self@,
    {
        Function { name: self.name.clone(), body: copy_block(&self.body) }
    }
}

/// A copy of a global.
pub fn copy_global(g: &Global) -> (r: Global)
    ensures
        r@ == g@,
{
    match g {
        Global::Scalar { name, value } => Global::Scalar { name: name.clone(), value: *value },
        Global::Array { name, size } => Global::Array { name: name.clone(), size: *size },
    }
}

impl Clone for Program {
    fn clone(&self) -> (r: Self)
        ensures
            r@ == self@,
    {
        let mut globals: Vec<Global> = Vec::new();
        let mut i: usize = 0;
        while i < self.globals.len()
            invariant
                i <= self.globals.len(),
                globals@.len() == i,
                forall|k: int| 0 <= k < i ==> (#[trigger] globals@[k])@ == self.globals@[k]@,
            decreases self.globals.len() - i,
        {
            globals.push(copy_global(&self.globals[i]));
            i = i + 1;
        }
        let mut functions: Vec<Function> = Vec::new();
        let mut j: usize = 0;
        while j < self.functions.len()
            invariant
                j <= self.functions.len(),
                functions@.len() == j,
                forall|k: int| 0 <= k < j ==> (#[trigger] functions@[k])@ == self.functions@[k]@,
            decreases self.functions.len() - j,
        {
            functions.push(self.functions[j].clone());
            j = j + 1;
        }
        proof {
            assert(globals_view(globals@) =~= globals_view(self.globals@));
            assert(functions_view(functions@) =~= functions_view(self.functions@));
        }
        Program { globals, functions }
    }
}

} // verus!
