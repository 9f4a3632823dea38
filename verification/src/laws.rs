//! Properties of the compiler as a whole, proved over the grammar and the assembly model.
use vstd::prelude::*;
use crate::ast::{Register, SOperand, SStatement, SExpression};
use crate::grammar::{PState, PErr, at, adv, advanced, expect, take, take_present, separator, operand,
    condition, alu_args, math_rest, load_args, let_statement, store_statement, statement, for_statement,
    while_statement, if_statement, block_from, block, const_decl, alias_decl, data_decl, function,
    skip_params, program_from, program, constant_value, register, register_of, number, negate};
use crate::assembly::{GenState, abi_name, alu_operands, comparison_operand, needs_registers, scratch,
    stmt_code, block_code, let_code, next_label, emit, take_label, define_label, label_number, instr,
    branch_line, for_exit_branch, skip_branch};
use crate::text::{int_text, nat_text, white_space};
use crate::lexer::{LexMode, lex, lex_step, flush, tokens_of, is_delimiter, starts_comparison};

verus! {

/// A parsing step's outcome: a success leaves the reader within the tokens and no earlier
/// (strictly further on when `strict`), and a failure is a syntax error or truncation.
pub open spec fn progresses<T>(toks: Seq<Seq<char>>, st: PState, r: Result<(T, PState), PErr>, strict: bool) -> bool {
    match r {
        Ok((_, s2)) => if strict { advanced(toks, st, s2) } else { st.pos <= s2.pos <= toks.len() },
        Err(e) => !(e is Stuck),
    }
}

proof fn lemma_operand_progress(toks: Seq<Seq<char>>, st: PState)
    requires
        0 <= st.pos <= toks.len(),
    ensures
        progresses(toks, st, operand(toks, st), true),
{
}

proof fn lemma_condition_progress(toks: Seq<Seq<char>>, st: PState, m: Seq<char>)
    requires
        0 <= st.pos <= toks.len(),
    ensures
        progresses(toks, st, condition(toks, st, m), true),
{
    if st.pos + 2 <= toks.len() {
        lemma_operand_progress(toks, adv(adv(st)));
    }
    match take(toks, st, m) {
        Ok((_, s1)) => match take(toks, s1, "Expected reg"@) {
            Ok((_, s2)) => {
                lemma_operand_progress(toks, s2);
                if s2.pos < toks.len() {
                    lemma_operand_progress(toks, adv(s2));
                }
            },
            Err(_) => {},
        },
        Err(_) => {},
    }
}

proof fn lemma_alu_args_progress(toks: Seq<Seq<char>>, st: PState, acc: Seq<SOperand>)
    requires
        0 <= st.pos <= toks.len(),
    ensures
        progresses(toks, st, alu_args(toks, st, acc), false),
    decreases toks.len() - st.pos,
{
    match at(toks, st) {
        None => {},
        Some(t) => if t == ")"@ {
        } else if t == ","@ {
            lemma_alu_args_progress(toks, adv(st), acc);
        } else {
            lemma_operand_progress(toks, st);
            match operand(toks, st) {
                Err(_) => {},
                Ok((o, s1)) => {
                    lemma_alu_args_progress(toks, s1, acc.push(o));
                },
            }
        },
    }
}

proof fn lemma_math_rest_progress(toks: Seq<Seq<char>>, st: PState, target: Register, left: SOperand)
    requires
        0 <= st.pos <= toks.len(),
    ensures
        progresses(toks, st, math_rest(toks, st, target, left), false),
{
    if st.pos < toks.len() {
        lemma_operand_progress(toks, adv(st));
    }
}

proof fn lemma_load_args_progress(toks: Seq<Seq<char>>, st: PState, target: Register, name: Seq<char>)
    requires
        0 <= st.pos <= toks.len(),
    ensures
        progresses(toks, st, load_args(toks, st, target, name), true),
{
}

proof fn lemma_let_progress(toks: Seq<Seq<char>>, st: PState)
    requires
        0 <= st.pos <= toks.len(),
    ensures
        progresses(toks, st, let_statement(toks, st), true),
{
    match take(toks, st, "Expected target"@) {
        Err(_) => {},
        Ok((_, s1)) => match expect(toks, s1, "="@) {
            Err(_) => {},
            Ok(s2) => {
                lemma_operand_progress(toks, s2);
                match operand(toks, s2) {
                    Ok((left, s3)) => {
                        lemma_math_rest_progress(toks, s3, Register::Zero, left);
                        assert forall|r: Register, l: SOperand| progresses(toks, s3, #[trigger] math_rest(toks, s3, r, l), false) by {
                            lemma_math_rest_progress(toks, s3, r, l);
                        }
                    },
                    Err(_) => {},
                }
                if s2.pos < toks.len() {
                    let s3 = adv(s2);
                    assert forall|r: Register, l: SOperand| progresses(toks, s3, #[trigger] math_rest(toks, s3, r, l), false) by {
                        lemma_math_rest_progress(toks, s3, r, l);
                    }
                    if s3.pos < toks.len() {
                        let s4 = adv(s3);
                        assert forall|r: Register, n: Seq<char>| progresses(toks, s4, #[trigger] load_args(toks, s4, r, n), true) by {
                            lemma_load_args_progress(toks, s4, r, n);
                        }
                        lemma_alu_args_progress(toks, s4, Seq::empty());
                    }
                }
            },
        },
    }
}

/// A statement that parses consumes at least one token; parsing a statement, a `for`, a
/// `while`, an `if` or a block never gets stuck.
pub proof fn lemma_statement_progress(toks: Seq<Seq<char>>, st: PState)
    requires
        0 <= st.pos <= toks.len(),
    ensures
        progresses(toks, st, statement(toks, st), true),
    decreases toks.len() - st.pos, 1nat,
{
    match at(toks, st) {
        None => {},
        Some(t) => {
            let s1 = adv(st);
            if t == "for"@ {
                lemma_for_progress(toks, s1);
            } else if t == "while"@ {
                lemma_while_progress(toks, s1);
            } else if t == "if"@ {
                lemma_if_progress(toks, s1);
            } else if t == "let"@ {
                lemma_let_progress(toks, s1);
            }
        },
    }
}

proof fn lemma_for_progress(toks: Seq<Seq<char>>, st: PState)
    requires
        0 <= st.pos <= toks.len(),
    ensures
        progresses(toks, st, for_statement(toks, st), true),
    decreases toks.len() - st.pos, 0nat,
{
    match expect(toks, st, "("@) {
        Err(_) => {},
        Ok(s1) => {
            lemma_statement_progress(toks, s1);
            match statement(toks, s1) {
                Err(_) => {},
                Ok((_, s2)) => match separator(toks, s2) {
                    Err(_) => {},
                    Ok(s3) => {
                        lemma_condition_progress(toks, s3, "Expected condition op"@);
                        match condition(toks, s3, "Expected condition op"@) {
                            Err(_) => {},
                            Ok((_, s4)) => match separator(toks, s4) {
                                Err(_) => {},
                                Ok(s5) => {
                                    lemma_statement_progress(toks, s5);
                                    match statement(toks, s5) {
                                        Err(_) => {},
                                        Ok((_, s6)) => match expect(toks, s6, ")"@) {
                                            Err(_) => {},
                                            Ok(s7) => match expect(toks, s7, "{"@) {
                                                Err(_) => {},
                                                Ok(s8) => {
                                                    lemma_block_progress(toks, s8);
                                                },
                                            },
                                        },
                                    }
                                },
                            },
                        }
                    },
                },
            }
        },
    }
}

proof fn lemma_while_progress(toks: Seq<Seq<char>>, st: PState)
    requires
        0 <= st.pos <= toks.len(),
    ensures
        progresses(toks, st, while_statement(toks, st), true),
    decreases toks.len() - st.pos, 0nat,
{
    match expect(toks, st, "("@) {
        Err(_) => {},
        Ok(s1) => {
            lemma_condition_progress(toks, s1, "Expected op"@);
            match condition(toks, s1, "Expected op"@) {
                Err(_) => {},
                Ok((_, s2)) => match expect(toks, s2, ")"@) {
                    Err(_) => {},
                    Ok(s3) => match expect(toks, s3, "{"@) {
                        Err(_) => {},
                        Ok(s4) => {
                            lemma_block_progress(toks, s4);
                        },
                    },
                },
            }
        },
    }
}

proof fn lemma_if_progress(toks: Seq<Seq<char>>, st: PState)
    requires
        0 <= st.pos <= toks.len(),
    ensures
        progresses(toks, st, if_statement(toks, st), true),
    decreases toks.len() - st.pos, 0nat,
{
    match expect(toks, st, "("@) {
        Err(_) => {},
        Ok(s1) => {
            lemma_condition_progress(toks, s1, "Expected op"@);
            match condition(toks, s1, "Expected op"@) {
                Err(_) => {},
                Ok((_, s2)) => match expect(toks, s2, ")"@) {
                    Err(_) => {},
                    Ok(s3) => match expect(toks, s3, "{"@) {
                        Err(_) => {},
                        Ok(s4) => {
                            lemma_block_progress(toks, s4);
                            match block(toks, s4) {
                                Err(_) => {},
                                Ok((_, s5)) => match expect(toks, s5, "}"@) {
                                    Err(_) => {},
                                    Ok(s6) => {
                                        if s6.pos < toks.len() {
                                            match expect(toks, adv(s6), "{"@) {
                                                Err(_) => {},
                                                Ok(s8) => {
                                                    lemma_block_progress(toks, s8);
                                                },
                                            }
                                        }
                                    },
                                },
                            }
                        },
                    },
                },
            }
        },
    }
}

proof fn lemma_block_from_progress(toks: Seq<Seq<char>>, st: PState, acc: Seq<SStatement>)
    requires
        0 <= st.pos <= toks.len(),
    ensures
        progresses(toks, st, block_from(toks, st, acc), false),
    decreases toks.len() - st.pos, 2nat,
{
    match at(toks, st) {
        None => {},
        Some(t) => if t == "}"@ || t == "else"@ {
        } else if t == "alias"@ {
            match alias_decl(toks, st) {
                Err(_) => {},
                Ok((_u, s2)) => {
                    lemma_block_from_progress(toks, s2, acc);
                },
            }
        } else if t == "const"@ {
            match const_decl(toks, st) {
                Err(_) => {},
                Ok((_u, s2)) => {
                    lemma_block_from_progress(toks, s2, acc);
                },
            }
        } else {
            lemma_statement_progress(toks, st);
            match statement(toks, st) {
                Err(_) => {},
                Ok((s, s2)) => {
                    lemma_block_from_progress(toks, s2, acc.push(s));
                },
            }
        },
    }
}

/// Parsing a block never gets stuck, and a block that parses leaves the reader no earlier.
pub proof fn lemma_block_progress(toks: Seq<Seq<char>>, st: PState)
    requires
        0 <= st.pos <= toks.len(),
    ensures
        progresses(toks, st, block(toks, st), false),
    decreases toks.len() - st.pos, 3nat,
{
    lemma_block_from_progress(toks, st, Seq::empty());
}

proof fn lemma_skip_params_bounds(toks: Seq<Seq<char>>, p: int)
    requires
        0 <= p <= toks.len(),
    ensures
        p <= skip_params(toks, p) <= toks.len(),
    decreases toks.len() - p,
{
    if 0 <= p < toks.len() && toks[p] != ")"@ {
        lemma_skip_params_bounds(toks, p + 1);
    }
}

proof fn lemma_function_progress(toks: Seq<Seq<char>>, st: PState)
    requires
        0 <= st.pos <= toks.len(),
    ensures
        progresses(toks, st, function(toks, st), true),
{
    match expect(toks, st, "fn"@) {
        Err(_) => {},
        Ok(s1) => match take(toks, s1, "Expected function name"@) {
            Err(_) => {},
            Ok((_, s2)) => match expect(toks, s2, "("@) {
                Err(_) => {},
                Ok(s3) => {
                    lemma_skip_params_bounds(toks, s3.pos);
                    let s4 = PState { pos: skip_params(toks, s3.pos), consts: s3.consts, aliases: s3.aliases };
                    match expect(toks, s4, ")"@) {
                        Err(_) => {},
                        Ok(s5) => match expect(toks, s5, "{"@) {
                            Err(_) => {},
                            Ok(s6) => {
                                lemma_block_progress(toks, s6);
                            },
                        },
                    }
                },
            },
        },
    }
}

proof fn lemma_program_from_progress(
    toks: Seq<Seq<char>>,
    st: PState,
    fs: Seq<crate::ast::SFunction>,
    gs: Seq<crate::ast::SGlobal>,
)
    requires
        0 <= st.pos <= toks.len(),
    ensures
        progresses(toks, st, program_from(toks, st, fs, gs), false),
    decreases toks.len() - st.pos,
{
    match at(toks, st) {
        None => {},
        Some(t) => if t == "fn"@ {
            lemma_function_progress(toks, st);
            match function(toks, st) {
                Err(_) => {},
                Ok((f, s2)) => {
                    lemma_program_from_progress(toks, s2, fs.push(f), gs);
                },
            }
        } else if t == "const"@ {
            match const_decl(toks, st) {
                Err(_) => {},
                Ok((_u, s2)) => {
                    lemma_program_from_progress(toks, s2, fs, gs);
                },
            }
        } else if t == "alias"@ {
            match alias_decl(toks, st) {
                Err(_) => {},
                Ok((_u, s2)) => {
                    lemma_program_from_progress(toks, s2, fs, gs);
                },
            }
        } else if t == "data"@ {
            match data_decl(toks, st) {
                Err(_) => {},
                Ok((g, s2)) => {
                    lemma_program_from_progress(toks, s2, fs, gs.push(g));
                },
            }
        },
    }
}

/// Parsing a whole program ends in a program or in a syntax or truncation error: it never
/// gets stuck, so the grammar is total.
pub proof fn lemma_program_progress(toks: Seq<Seq<char>>)
    ensures
        progresses(toks, crate::grammar::initial_state(), program(toks), false),
{
    lemma_program_from_progress(toks, crate::grammar::initial_state(), Seq::empty(), Seq::empty());
}

/// Whether `t` is the ABI name of a register.
pub open spec fn is_register_name(t: Seq<char>) -> bool {
    exists|r: Register| crate::assembly::abi_name(r) == t
}

proof fn lemma_register_literals()
    ensures
        "x0"@.len() == 2,
        "x0"@[0] == 'x',
        "x0"@[1] == '0',
        "zero"@.len() == 4,
        "zero"@[0] == 'z',
        "zero"@[1] == 'e',
        "zero"@[2] == 'r',
        "zero"@[3] == 'o',
        "ra"@.len() == 2,
        "ra"@[0] == 'r',
        "ra"@[1] == 'a',
        "x1"@.len() == 2,
        "x1"@[0] == 'x',
        "x1"@[1] == '1',
        "sp"@.len() == 2,
        "sp"@[0] == 's',
        "sp"@[1] == 'p',
        "x2"@.len() == 2,
        "x2"@[0] == 'x',
        "x2"@[1] == '2',
        "gp"@.len() == 2,
        "gp"@[0] == 'g',
        "gp"@[1] == 'p',
        "x3"@.len() == 2,
        "x3"@[0] == 'x',
        "x3"@[1] == '3',
        "tp"@.len() == 2,
        "tp"@[0] == 't',
        "tp"@[1] == 'p',
        "x4"@.len() == 2,
        "x4"@[0] == 'x',
        "x4"@[1] == '4',
        "a0"@.len() == 2,
        "a0"@[0] == 'a',
        "a0"@[1] == '0',
        "a1"@.len() == 2,
        "a1"@[0] == 'a',
        "a1"@[1] == '1',
        "a2"@.len() == 2,
        "a2"@[0] == 'a',
        "a2"@[1] == '2',
        "a3"@.len() == 2,
        "a3"@[0] == 'a',
        "a3"@[1] == '3',
        "a4"@.len() == 2,
        "a4"@[0] == 'a',
        "a4"@[1] == '4',
        "a5"@.len() == 2,
        "a5"@[0] == 'a',
        "a5"@[1] == '5',
        "a6"@.len() == 2,
        "a6"@[0] == 'a',
        "a6"@[1] == '6',
        "a7"@.len() == 2,
        "a7"@[0] == 'a',
        "a7"@[1] == '7',
        "x10"@.len() == 3,
        "x10"@[0] == 'x',
        "x10"@[1] == '1',
        "x10"@[2] == '0',
        "x11"@.len() == 3,
        "x11"@[0] == 'x',
        "x11"@[1] == '1',
        "x11"@[2] == '1',
        "x12"@.len() == 3,
        "x12"@[0] == 'x',
        "x12"@[1] == '1',
        "x12"@[2] == '2',
        "x13"@.len() == 3,
        "x13"@[0] == 'x',
        "x13"@[1] == '1',
        "x13"@[2] == '3',
        "x14"@.len() == 3,
        "x14"@[0] == 'x',
        "x14"@[1] == '1',
        "x14"@[2] == '4',
        "x15"@.len() == 3,
        "x15"@[0] == 'x',
        "x15"@[1] == '1',
        "x15"@[2] == '5',
        "x16"@.len() == 3,
        "x16"@[0] == 'x',
        "x16"@[1] == '1',
        "x16"@[2] == '6',
        "x17"@.len() == 3,
        "x17"@[0] == 'x',
        "x17"@[1] == '1',
        "x17"@[2] == '7',
        "t0"@.len() == 2,
        "t0"@[0] == 't',
        "t0"@[1] == '0',
        "x5"@.len() == 2,
        "x5"@[0] == 'x',
        "x5"@[1] == '5',
        "t1"@.len() == 2,
        "t1"@[0] == 't',
        "t1"@[1] == '1',
        "x6"@.len() == 2,
        "x6"@[0] == 'x',
        "x6"@[1] == '6',
        "t2"@.len() == 2,
        "t2"@[0] == 't',
        "t2"@[1] == '2',
        "x7"@.len() == 2,
        "x7"@[0] == 'x',
        "x7"@[1] == '7',
        "t3"@.len() == 2,
        "t3"@[0] == 't',
        "t3"@[1] == '3',
        "x28"@.len() == 3,
        "x28"@[0] == 'x',
        "x28"@[1] == '2',
        "x28"@[2] == '8',
        "t4"@.len() == 2,
        "t4"@[0] == 't',
        "t4"@[1] == '4',
        "x29"@.len() == 3,
        "x29"@[0] == 'x',
        "x29"@[1] == '2',
        "x29"@[2] == '9',
        "t5"@.len() == 2,
        "t5"@[0] == 't',
        "t5"@[1] == '5',
        "x30"@.len() == 3,
        "x30"@[0] == 'x',
        "x30"@[1] == '3',
        "x30"@[2] == '0',
        "t6"@.len() == 2,
        "t6"@[0] == 't',
        "t6"@[1] == '6',
        "x31"@.len() == 3,
        "x31"@[0] == 'x',
        "x31"@[1] == '3',
        "x31"@[2] == '1',
        "s0"@.len() == 2,
        "s0"@[0] == 's',
        "s0"@[1] == '0',
        "fp"@.len() == 2,
        "fp"@[0] == 'f',
        "fp"@[1] == 'p',
        "x8"@.len() == 2,
        "x8"@[0] == 'x',
        "x8"@[1] == '8',
        "s1"@.len() == 2,
        "s1"@[0] == 's',
        "s1"@[1] == '1',
        "x9"@.len() == 2,
        "x9"@[0] == 'x',
        "x9"@[1] == '9',
        "s2"@.len() == 2,
        "s2"@[0] == 's',
        "s2"@[1] == '2',
        "s3"@.len() == 2,
        "s3"@[0] == 's',
        "s3"@[1] == '3',
        "s4"@.len() == 2,
        "s4"@[0] == 's',
        "s4"@[1] == '4',
        "s5"@.len() == 2,
        "s5"@[0] == 's',
        "s5"@[1] == '5',
        "s6"@.len() == 2,
        "s6"@[0] == 's',
        "s6"@[1] == '6',
        "s7"@.len() == 2,
        "s7"@[0] == 's',
        "s7"@[1] == '7',
        "s8"@.len() == 2,
        "s8"@[0] == 's',
        "s8"@[1] == '8',
        "s9"@.len() == 2,
        "s9"@[0] == 's',
        "s9"@[1] == '9',
        "s10"@.len() == 3,
        "s10"@[0] == 's',
        "s10"@[1] == '1',
        "s10"@[2] == '0',
        "s11"@.len() == 3,
        "s11"@[0] == 's',
        "s11"@[1] == '1',
        "s11"@[2] == '1',
        "x18"@.len() == 3,
        "x18"@[0] == 'x',
        "x18"@[1] == '1',
        "x18"@[2] == '8',
        "x19"@.len() == 3,
        "x19"@[0] == 'x',
        "x19"@[1] == '1',
        "x19"@[2] == '9',
        "x20"@.len() == 3,
        "x20"@[0] == 'x',
        "x20"@[1] == '2',
        "x20"@[2] == '0',
        "x21"@.len() == 3,
        "x21"@[0] == 'x',
        "x21"@[1] == '2',
        "x21"@[2] == '1',
        "x22"@.len() == 3,
        "x22"@[0] == 'x',
        "x22"@[1] == '2',
        "x22"@[2] == '2',
        "x23"@.len() == 3,
        "x23"@[0] == 'x',
        "x23"@[1] == '2',
        "x23"@[2] == '3',
        "x24"@.len() == 3,
        "x24"@[0] == 'x',
        "x24"@[1] == '2',
        "x24"@[2] == '4',
        "x25"@.len() == 3,
        "x25"@[0] == 'x',
        "x25"@[1] == '2',
        "x25"@[2] == '5',
        "x26"@.len() == 3,
        "x26"@[0] == 'x',
        "x26"@[1] == '2',
        "x26"@[2] == '6',
        "x27"@.len() == 3,
        "x27"@[0] == 'x',
        "x27"@[1] == '2',
        "x27"@[2] == '7',
{
    broadcast use vstd::string::group_string_axioms;
    reveal_strlit("x0");
    reveal_strlit("zero");
    reveal_strlit("ra");
    reveal_strlit("x1");
    reveal_strlit("sp");
    reveal_strlit("x2");
    reveal_strlit("gp");
    reveal_strlit("x3");
    reveal_strlit("tp");
    reveal_strlit("x4");
    reveal_strlit("a0");
    reveal_strlit("a1");
    reveal_strlit("a2");
    reveal_strlit("a3");
    reveal_strlit("a4");
    reveal_strlit("a5");
    reveal_strlit("a6");
    reveal_strlit("a7");
    reveal_strlit("x10");
    reveal_strlit("x11");
    reveal_strlit("x12");
    reveal_strlit("x13");
    reveal_strlit("x14");
    reveal_strlit("x15");
    reveal_strlit("x16");
    reveal_strlit("x17");
    reveal_strlit("t0");
    reveal_strlit("x5");
    reveal_strlit("t1");
    reveal_strlit("x6");
    reveal_strlit("t2");
    reveal_strlit("x7");
    reveal_strlit("t3");
    reveal_strlit("x28");
    reveal_strlit("t4");
    reveal_strlit("x29");
    reveal_strlit("t5");
    reveal_strlit("x30");
    reveal_strlit("t6");
    reveal_strlit("x31");
    reveal_strlit("s0");
    reveal_strlit("fp");
    reveal_strlit("x8");
    reveal_strlit("s1");
    reveal_strlit("x9");
    reveal_strlit("s2");
    reveal_strlit("s3");
    reveal_strlit("s4");
    reveal_strlit("s5");
    reveal_strlit("s6");
    reveal_strlit("s7");
    reveal_strlit("s8");
    reveal_strlit("s9");
    reveal_strlit("s10");
    reveal_strlit("s11");
    reveal_strlit("x18");
    reveal_strlit("x19");
    reveal_strlit("x20");
    reveal_strlit("x21");
    reveal_strlit("x22");
    reveal_strlit("x23");
    reveal_strlit("x24");
    reveal_strlit("x25");
    reveal_strlit("x26");
    reveal_strlit("x27");
}

/// The name the code generator writes for a register is read back by the parser as the same
/// register: `fixed_register(abi_name(r)) == r`.
pub proof fn lemma_register_names_round_trip(r: Register)
    ensures
        crate::grammar::fixed_register(crate::assembly::abi_name(r)) == Some(r),
{
    lemma_register_literals();
}

/// A constant stands for its value: after `const NAME = VALUE`, the operand `NAME` reads as
/// the immediate that `VALUE` denotes.
pub proof fn lemma_constant_substitution(toks: Seq<Seq<char>>, st: PState, name: Seq<char>, v: Seq<char>)
    requires
        0 <= st.pos,
        st.pos + 5 <= toks.len(),
        toks[st.pos] == "const"@,
        toks[st.pos + 1] == name,
        toks[st.pos + 2] == "="@,
        toks[st.pos + 3] == v,
        toks[st.pos + 4] == name,
        constant_value(st.consts, v) is Some,
    ensures
        const_decl(toks, st) matches Ok((_u, s)) && s.pos == st.pos + 4
            && s.consts[name] == constant_value(st.consts, v)->0
            && operand(toks, s) == Ok::<(SOperand, PState), PErr>((SOperand::Imm(constant_value(st.consts, v)->0), adv(s))),
{
}

/// An alias stands for its register: after `alias NAME = REG`, the token `NAME` reads as the
/// register that `REG` denotes.
pub proof fn lemma_alias_substitution(toks: Seq<Seq<char>>, st: PState, name: Seq<char>, reg: Seq<char>)
    requires
        0 <= st.pos,
        st.pos + 4 <= toks.len(),
        toks[st.pos] == "alias"@,
        toks[st.pos + 1] == name,
        toks[st.pos + 2] == "="@,
        toks[st.pos + 3] == reg,
        register_of(st.aliases, reg) is Some,
    ensures
        alias_decl(toks, st) matches Ok((_u, s)) && s.pos == st.pos + 4
            && register(s.aliases, name) == Ok::<Register, PErr>(register_of(st.aliases, reg)->0),
{
}

/// Whether an operand text is a register name or the decimal text of an immediate.
pub open spec fn is_register_or_immediate(t: Seq<char>) -> bool {
    is_register_name(t) || exists|v: i32| int_text(v as int) == t
}

/// The operands of an ALU instruction never name a global: a global, and an immediate of an
/// instruction of the M extension, is first loaded into a scratch register (`t5`, `t6`).
/// So every operand is a register name, or an immediate of an instruction that takes one.
pub proof fn lemma_alu_operands_legal(g: GenState, ops: Seq<SOperand>, needs: bool)
    requires
        crate::assembly::alu_ready(ops),
    ensures
        alu_operands(g, ops, needs).1.len() == ops.len(),
        alu_operands(g, ops, needs).0.counter == g.counter,
        alu_operands(g, ops, needs).0.strings == g.strings,
        forall|k: int| 0 <= k < ops.len() ==> is_register_or_immediate(#[trigger] alu_operands(g, ops, needs).1[k]),
        needs ==> forall|k: int| 0 <= k < ops.len() ==> is_register_name(#[trigger] alu_operands(g, ops, needs).1[k]),
    decreases ops.len(),
{
    if ops.len() > 0 {
        let p = ops.drop_last();
        assert(crate::assembly::alu_ready(p)) by {
            assert forall|i: int| 0 <= i < p.len() implies !(#[trigger] p[i] is Str) by {
                assert(p[i] == ops[i]);
            }
        }
        lemma_alu_operands_legal(g, p, needs);
        let i = ops.len() - 1;
        assert(!(ops[i] is Str));
        assert(abi_name(Register::T5) == scratch(0));
        assert(abi_name(Register::T6) == scratch(1));
        assert(is_register_name(scratch(i)));
        let (g1, texts) = alu_operands(g, p, needs);
        let r = alu_operands(g, ops, needs).1;
        assert forall|k: int| 0 <= k < ops.len() implies is_register_or_immediate(#[trigger] r[k])
            && (needs ==> is_register_name(r[k])) by {
            if k < i {
                assert(r[k] == texts[k]);
            } else {
                match ops.last() {
                    SOperand::Reg(reg) => {
                        assert(abi_name(reg) == r[k]);
                    },
                    SOperand::Imm(v) => {
                        if !needs {
                            assert(int_text(v as int) == r[k]);
                        }
                    },
                    _ => {},
                }
            }
        }
    }
}

/// The right side of a comparison is always a register name: an immediate or a global is
/// loaded into the scratch register `t6` first.
pub proof fn lemma_comparison_operand_is_register(g: GenState, o: SOperand)
    ensures
        is_register_name(comparison_operand(g, o).1),
        comparison_operand(g, o).0.counter == g.counter,
        comparison_operand(g, o).0.strings == g.strings,
{
    match o {
        SOperand::Reg(r) => { assert(abi_name(r) == comparison_operand(g, o).1); },
        SOperand::Str(_) => { assert(abi_name(Register::Zero) == comparison_operand(g, o).1); },
        _ => { assert(abi_name(Register::T6) == comparison_operand(g, o).1); },
    }
}

/// The label numbers a statement takes: one for each `for`, `while` and `if`, and one for each
/// string literal it loads.
pub open spec fn labels_used(s: SStatement) -> nat
    decreases s,
{
    match s {
        SStatement::For { init, condition_op, cond_left, cond_right, step, body } =>
            1 + labels_used(*init) + labels_used(*step) + labels_used_in_block(body),
        SStatement::While { condition_op, left, right, body } => 1 + labels_used_in_block(body),
        SStatement::If { condition_op, left, right, then_block, else_block } =>
            1 + labels_used_in_block(then_block) + match else_block {
                Some(e) => labels_used_in_block(e),
                None => 0,
            },
        SStatement::Let { target, value } => match value {
            SExpression::Simple(SOperand::Str(_)) => 1,
            _ => 0,
        },
        _ => 0,
    }
}

/// The label numbers a block takes.
pub open spec fn labels_used_in_block(b: Seq<SStatement>) -> nat
    decreases b,
{
    if b.len() == 0 { 0 } else { labels_used_in_block(b.drop_last()) + labels_used(b.last()) }
}

/// The kinds of local label that the code generator defines.
pub enum LabelKind {
    ForStart,
    ForEnd,
    WhileStart,
    WhileEnd,
    Else,
    End,
    Str,
}

/// The text before the number in a label of the kind.
pub open spec fn kind_prefix(k: LabelKind) -> Seq<char> {
    match k {
        LabelKind::ForStart => ".L_for_start_"@,
        LabelKind::ForEnd => ".L_for_end_"@,
        LabelKind::WhileStart => ".L_while_start_"@,
        LabelKind::WhileEnd => ".L_while_end_"@,
        LabelKind::Else => ".L_else_"@,
        LabelKind::End => ".L_end_"@,
        LabelKind::Str => ".L_str_"@,
    }
}

/// The label of a kind with the number `j`.
pub open spec fn label_of(k: LabelKind, j: int) -> Seq<char> {
    kind_prefix(k) + nat_text(j as nat)
}

spec fn kind_code(k: LabelKind) -> (nat, char) {
    match k {
        LabelKind::ForStart => (13, 'f'),
        LabelKind::ForEnd => (11, 'f'),
        LabelKind::WhileStart => (15, 'w'),
        LabelKind::WhileEnd => (13, 'w'),
        LabelKind::Else => (8, 'e'),
        LabelKind::End => (7, 'e'),
        LabelKind::Str => (7, 's'),
    }
}

proof fn lemma_prefix_shape(k: LabelKind)
    ensures
        kind_prefix(k).len() >= 7,
        kind_prefix(k)[kind_prefix(k).len() - 1] == '_',
        kind_code(k) == (kind_prefix(k).len(), kind_prefix(k)[3]),
{
    reveal_strlit(".L_for_start_");
    reveal_strlit(".L_for_end_");
    reveal_strlit(".L_while_start_");
    reveal_strlit(".L_while_end_");
    reveal_strlit(".L_else_");
    reveal_strlit(".L_end_");
    reveal_strlit(".L_str_");
}

/// No two labels clash: labels of different kinds or different numbers are different texts.
pub proof fn lemma_labels_distinct(k1: LabelKind, j1: int, k2: LabelKind, j2: int)
    requires
        0 <= j1,
        0 <= j2,
        label_of(k1, j1) == label_of(k2, j2),
    ensures
        k1 == k2,
        j1 == j2,
{
    let p1 = kind_prefix(k1);
    let p2 = kind_prefix(k2);
    let d1 = nat_text(j1 as nat);
    let d2 = nat_text(j2 as nat);
    let l = label_of(k1, j1);
    lemma_prefix_shape(k1);
    lemma_prefix_shape(k2);
    crate::text::lemma_nat_text_value(j1 as nat);
    crate::text::lemma_nat_text_value(j2 as nat);
    assert(l == p1 + d1 && l == p2 + d2);
    if p1.len() < p2.len() {
        let x = p2.len() - 1;
        assert(l[x] == p2[x]);
        assert(l[x] == d1[x - p1.len()]);
    }
    if p2.len() < p1.len() {
        let x = p1.len() - 1;
        assert(l[x] == p1[x]);
        assert(l[x] == d2[x - p2.len()]);
    }
    assert(p1 =~= l.take(p1.len() as int));
    assert(p2 =~= l.take(p2.len() as int));
    assert(kind_code(k1) == kind_code(k2));
    assert(d1 =~= l.skip(p1.len() as int));
    assert(d2 =~= l.skip(p2.len() as int));
    crate::text::lemma_nat_text_injective(j1 as nat, j2 as nat);
}

/// The local labels a statement defines in its text, as kinds and numbers, in the order it
/// defines them, when its first label number is `c`.
pub open spec fn label_ids(s: SStatement, c: int) -> Seq<(LabelKind, int)>
    decreases s,
{
    match s {
        SStatement::For { init, condition_op, cond_left, cond_right, step, body } => {
            let c2 = c + 1 + labels_used(*init);
            let c3 = c2 + labels_used_in_block(body);
            label_ids(*init, c + 1) + seq![(LabelKind::ForStart, c)] + block_label_ids(body, c2)
                + label_ids(*step, c3) + seq![(LabelKind::ForEnd, c)]
        },
        SStatement::While { condition_op, left, right, body } =>
            seq![(LabelKind::WhileStart, c)] + block_label_ids(body, c + 1) + seq![(LabelKind::WhileEnd, c)],
        SStatement::If { condition_op, left, right, then_block, else_block } => match else_block {
            Some(e) => block_label_ids(then_block, c + 1) + seq![(LabelKind::Else, c)]
                + block_label_ids(e, c + 1 + labels_used_in_block(then_block)) + seq![(LabelKind::End, c)],
            None => block_label_ids(then_block, c + 1) + seq![(LabelKind::End, c)],
        },
        _ => Seq::empty(),
    }
}

/// The local labels a block defines, when its first label number is `c`.
pub open spec fn block_label_ids(b: Seq<SStatement>, c: int) -> Seq<(LabelKind, int)>
    decreases b,
{
    if b.len() == 0 {
        Seq::empty()
    } else {
        block_label_ids(b.drop_last(), c) + label_ids(b.last(), c + labels_used_in_block(b.drop_last()))
    }
}

/// The string literals a statement loads, as contents and label numbers, in order, when its
/// first label number is `c`.
pub open spec fn string_ids(s: SStatement, c: int) -> Seq<(Seq<char>, int)>
    decreases s,
{
    match s {
        SStatement::For { init, condition_op, cond_left, cond_right, step, body } => {
            let c2 = c + 1 + labels_used(*init);
            let c3 = c2 + labels_used_in_block(body);
            string_ids(*init, c + 1) + block_string_ids(body, c2) + string_ids(*step, c3)
        },
        SStatement::While { condition_op, left, right, body } => block_string_ids(body, c + 1),
        SStatement::If { condition_op, left, right, then_block, else_block } => match else_block {
            Some(e) => block_string_ids(then_block, c + 1)
                + block_string_ids(e, c + 1 + labels_used_in_block(then_block)),
            None => block_string_ids(then_block, c + 1),
        },
        SStatement::Let { target, value } => match value {
            SExpression::Simple(SOperand::Str(t)) => seq![(t, c)],
            _ => Seq::empty(),
        },
        _ => Seq::empty(),
    }
}

/// The string literals a block loads, when its first label number is `c`.
pub open spec fn block_string_ids(b: Seq<SStatement>, c: int) -> Seq<(Seq<char>, int)>
    decreases b,
{
    if b.len() == 0 {
        Seq::empty()
    } else {
        block_string_ids(b.drop_last(), c) + string_ids(b.last(), c + labels_used_in_block(b.drop_last()))
    }
}

/// The label texts of kinds and numbers.
pub open spec fn label_names(ids: Seq<(LabelKind, int)>) -> Seq<Seq<char>> {
    ids.map_values(|p: (LabelKind, int)| label_of(p.0, p.1))
}

/// The entries of the string table for string literals and their label numbers.
pub open spec fn string_entries(ids: Seq<(Seq<char>, int)>) -> Seq<(Seq<char>, Seq<char>)> {
    ids.map_values(|p: (Seq<char>, int)| (label_of(LabelKind::Str, p.1), p.0))
}

/// Every number in `ids` lies in `lo..hi`.
pub open spec fn numbered_in<A>(ids: Seq<(A, int)>, lo: int, hi: int) -> bool {
    forall|i: int| 0 <= i < ids.len() ==> lo <= #[trigger] ids[i].1 < hi
}

/// No item occurs twice in `v`.
pub open spec fn all_distinct<A>(v: Seq<A>) -> bool {
    forall|i: int, j: int| #![trigger v[i], v[j]] 0 <= i < v.len() && 0 <= j < v.len() && i != j ==> v[i] != v[j]
}

/// No number occurs twice in `ids`.
pub open spec fn numbers_distinct<A>(ids: Seq<(A, int)>) -> bool {
    forall|i: int, j: int| #![trigger ids[i], ids[j]] 0 <= i < ids.len() && 0 <= j < ids.len() && i != j
        ==> ids[i].1 != ids[j].1
}

/// What writing code from `g` to `h` did to the labels: it took the `n` numbers from
/// `g.counter` on, defined the labels `ids` and collected the string literals `strs`, each
/// with a number of its own from that range.
pub open spec fn labels_effect(g: GenState, h: GenState, n: nat, ids: Seq<(LabelKind, int)>,
    strs: Seq<(Seq<char>, int)>) -> bool
{
    &&& h.counter == g.counter + n
    &&& h.labels == g.labels + label_names(ids)
    &&& h.strings == g.strings + string_entries(strs)
    &&& numbered_in(ids, g.counter as int, g.counter + n)
    &&& all_distinct(ids)
    &&& numbered_in(strs, g.counter as int, g.counter + n)
    &&& numbers_distinct(strs)
}

proof fn lemma_names_concat(a: Seq<(LabelKind, int)>, b: Seq<(LabelKind, int)>)
    ensures
        label_names(a + b) == label_names(a) + label_names(b),
{
    assert(label_names(a + b) =~= label_names(a) + label_names(b));
}

proof fn lemma_entries_concat(a: Seq<(Seq<char>, int)>, b: Seq<(Seq<char>, int)>)
    ensures
        string_entries(a + b) == string_entries(a) + string_entries(b),
{
    assert(string_entries(a + b) =~= string_entries(a) + string_entries(b));
}

/// Concatenating two lists whose numbers lie in disjoint ranges keeps them distinct.
proof fn lemma_join_ranges<A>(a: Seq<(A, int)>, b: Seq<(A, int)>, l1: int, h1: int, l2: int, h2: int)
    requires
        numbered_in(a, l1, h1),
        numbered_in(b, l2, h2),
        h1 <= l2 || h2 <= l1,
    ensures
        all_distinct(a) && all_distinct(b) ==> all_distinct(a + b),
        numbers_distinct(a) && numbers_distinct(b) ==> numbers_distinct(a + b),
        forall|i: int| 0 <= i < (a + b).len() ==> {
            let x = #[trigger] (a + b)[i].1;
            (l1 <= x < h1) || (l2 <= x < h2)
        },
{
    let ab = a + b;
    assert forall|i: int| 0 <= i < ab.len() implies {
        let x = #[trigger] ab[i].1;
        (l1 <= x < h1) || (l2 <= x < h2)
    } by {
        if i < a.len() { assert(ab[i] == a[i]); } else { assert(ab[i] == b[i - a.len()]); }
    }
    if all_distinct(a) && all_distinct(b) {
        assert forall|i: int, j: int| #![trigger ab[i], ab[j]] 0 <= i < ab.len() && 0 <= j < ab.len() && i != j
            implies ab[i] != ab[j] by {
            if i < a.len() && j < a.len() {
                assert(ab[i] == a[i] && ab[j] == a[j]);
            } else if i >= a.len() && j >= a.len() {
                assert(ab[i] == b[i - a.len()] && ab[j] == b[j - a.len()]);
            } else if i < a.len() {
                assert(ab[i] == a[i] && ab[j] == b[j - a.len()]);
                assert(l1 <= a[i].1 < h1 && l2 <= b[j - a.len()].1 < h2);
            } else {
                assert(ab[i] == b[i - a.len()] && ab[j] == a[j]);
                assert(l1 <= a[j].1 < h1 && l2 <= b[i - a.len()].1 < h2);
            }
        }
    }
    if numbers_distinct(a) && numbers_distinct(b) {
        assert forall|i: int, j: int| #![trigger ab[i], ab[j]] 0 <= i < ab.len() && 0 <= j < ab.len() && i != j
            implies ab[i].1 != ab[j].1 by {
            if i < a.len() && j < a.len() {
                assert(ab[i] == a[i] && ab[j] == a[j]);
            } else if i >= a.len() && j >= a.len() {
                assert(ab[i] == b[i - a.len()] && ab[j] == b[j - a.len()]);
            } else if i < a.len() {
                assert(ab[i] == a[i] && ab[j] == b[j - a.len()]);
                assert(l1 <= a[i].1 < h1 && l2 <= b[j - a.len()].1 < h2);
            } else {
                assert(ab[i] == b[i - a.len()] && ab[j] == a[j]);
                assert(l1 <= a[j].1 < h1 && l2 <= b[i - a.len()].1 < h2);
            }
        }
    }
}

/// Writing one piece of code after another: the effects add up.
proof fn lemma_effect_then(g1: GenState, g2: GenState, g3: GenState, n1: nat, n2: nat,
    ids1: Seq<(LabelKind, int)>, ids2: Seq<(LabelKind, int)>, s1: Seq<(Seq<char>, int)>, s2: Seq<(Seq<char>, int)>)
    requires
        labels_effect(g1, g2, n1, ids1, s1),
        labels_effect(g2, g3, n2, ids2, s2),
    ensures
        labels_effect(g1, g3, n1 + n2, ids1 + ids2, s1 + s2),
{
    let c = g1.counter as int;
    lemma_names_concat(ids1, ids2);
    lemma_entries_concat(s1, s2);
    lemma_join_ranges(ids1, ids2, c, c + n1, c + n1, c + n1 + n2);
    lemma_join_ranges(s1, s2, c, c + n1, c + n1, c + n1 + n2);
    assert(g3.labels =~= g1.labels + label_names(ids1 + ids2));
    assert(g3.strings =~= g1.strings + string_entries(s1 + s2));
    let ids = ids1 + ids2;
    assert forall|i: int| 0 <= i < ids.len() implies c <= #[trigger] ids[i].1 < c + n1 + n2 by {
        let x = ids[i].1;
        assert((c <= x < c + n1) || (c + n1 <= x < c + n1 + n2));
    }
    let ss = s1 + s2;
    assert forall|i: int| 0 <= i < ss.len() implies c <= #[trigger] ss[i].1 < c + n1 + n2 by {
        let x = ss[i].1;
        assert((c <= x < c + n1) || (c + n1 <= x < c + n1 + n2));
    }
}

/// Code that defines no label, loads no string literal and takes no label number.
proof fn lemma_effect_none(g: GenState, h: GenState)
    requires
        h.counter == g.counter,
        h.labels == g.labels,
        h.strings == g.strings,
    ensures
        labels_effect(g, h, 0, Seq::empty(), Seq::empty()),
{
    assert(g.labels + label_names(Seq::empty()) =~= g.labels);
    assert(g.strings + string_entries(Seq::empty()) =~= g.strings);
}

proof fn lemma_alu_keeps_labels(g: GenState, ops: Seq<SOperand>, needs: bool)
    ensures
        alu_operands(g, ops, needs).0.counter == g.counter,
        alu_operands(g, ops, needs).0.labels == g.labels,
        alu_operands(g, ops, needs).0.strings == g.strings,
    decreases ops.len(),
{
    if ops.len() > 0 {
        lemma_alu_keeps_labels(g, ops.drop_last(), needs);
    }
}

proof fn lemma_define(g: GenState, k: LabelKind, j: int)
    ensures
        define_label(g, label_of(k, j)).labels == g.labels + label_names(seq![(k, j)]),
        define_label(g, label_of(k, j)).strings == g.strings,
        define_label(g, label_of(k, j)).counter == g.counter,
{
    assert(label_names(seq![(k, j)]) =~= seq![label_of(k, j)]);
}

proof fn lemma_distinct_push<A>(v: Seq<A>, e: A)
    requires
        all_distinct(v),
        forall|i: int| 0 <= i < v.len() ==> v[i] != e,
    ensures
        all_distinct(v + seq![e]),
{
    let w = v + seq![e];
    assert forall|i: int, j: int| #![trigger w[i], w[j]] 0 <= i < w.len() && 0 <= j < w.len() && i != j
        implies w[i] != w[j] by {
        if i < v.len() { assert(w[i] == v[i]); }
        if j < v.len() { assert(w[j] == v[j]); }
    }
}

/// Each `for`, `while`, `if` and loaded string literal takes the next label number, and
/// nothing else takes one. Below the wrap-around of `usize`, writing a statement whose first
/// label number is `c` takes the numbers `c .. c + labels_used(s)`, defines exactly the labels
/// `label_ids(s, c)` and collects exactly the string literals `string_ids(s, c)`, all numbered
/// within that range, with no label defined twice and no string label given twice. With
/// `lemma_labels_distinct`, no label clashes with one made before or after.
pub proof fn lemma_statement_labels(s: SStatement, f: Seq<char>, g: GenState)
    requires
        g.counter + labels_used(s) <= usize::MAX,
    ensures
        labels_effect(g, stmt_code(s, f, g), labels_used(s), label_ids(s, g.counter as int),
            string_ids(s, g.counter as int)),
    decreases s, 1nat,
{
    let c = g.counter as int;
    let h = stmt_code(s, f, g);
    match s {
        SStatement::For { .. } => lemma_for_labels(s, f, g),
        SStatement::While { .. } => lemma_while_labels(s, f, g),
        SStatement::If { .. } => lemma_if_labels(s, f, g),
        SStatement::Let { target, value } => {
            match value {
                SExpression::AluCall { opcode, operands } => {
                    lemma_alu_keeps_labels(g, operands, needs_registers(opcode));
                    lemma_effect_none(g, h);
                },
                SExpression::Simple(SOperand::Str(t)) => {
                    let lbl = ".L_str_"@ + label_number(g.counter);
                    assert(lbl == label_of(LabelKind::Str, c));
                    assert(string_entries(seq![(t, c)]) =~= seq![(lbl, t)]);
                    assert(h.labels =~= g.labels + label_names(Seq::empty()));
                    assert(h.strings =~= g.strings + string_entries(string_ids(s, c)));
                },
                _ => {
                    lemma_effect_none(g, h);
                },
            }
        },
        _ => {
            lemma_effect_none(g, h);
        },
    }
}

#[verifier::rlimit(50)]
proof fn lemma_for_labels(s: SStatement, f: Seq<char>, g: GenState)
    requires
        g.counter + labels_used(s) <= usize::MAX,
        s is For,
    ensures
        labels_effect(g, stmt_code(s, f, g), labels_used(s), label_ids(s, g.counter as int),
            string_ids(s, g.counter as int)),
    decreases s, 0nat,
{
    let c = g.counter as int;
    let h = stmt_code(s, f, g);
    match s {
        SStatement::For { init, condition_op, cond_left, cond_right, step, body } => {
            let a = labels_used(*init);
            let b = labels_used_in_block(body);
            let d = labels_used(*step);
            let c2 = c + 1 + a;
            let c3 = c2 + b;
            let c4 = c3 + d;
            let g1 = take_label(g);
            assert(g1.counter == c + 1);
            lemma_statement_labels(*init, f, g1);
            let g2 = stmt_code(*init, f, g1);
            let start = ".L_for_start_"@ + label_number(g.counter);
            let end = ".L_for_end_"@ + label_number(g.counter);
            assert(start == label_of(LabelKind::ForStart, c));
            assert(end == label_of(LabelKind::ForEnd, c));
            let g3 = define_label(g2, start);
            lemma_define(g2, LabelKind::ForStart, c);
            lemma_comparison_operand_is_register(g3, cond_right);
            let (g4, right) = comparison_operand(g3, cond_right);
            let g5 = emit(g4, branch_line(for_exit_branch(condition_op), condition_op, cond_left, right, end));
            assert(g5.counter == c2);
            lemma_block_labels(body, f, g5);
            let g6 = block_code(body, f, g5);
            lemma_statement_labels(*step, f, g6);
            let g7 = stmt_code(*step, f, g6);
            let ii = label_ids(*init, c + 1);
            let bb = block_label_ids(body, c2);
            let st = label_ids(*step, c3);
            let si = string_ids(*init, c + 1);
            let sb = block_string_ids(body, c2);
            let ss = string_ids(*step, c3);
            lemma_effect_then(g5, g6, g7, b, d, bb, st, sb, ss);
            let g8 = emit(g7, instr("j "@ + start));
            lemma_define(g8, LabelKind::ForEnd, c);
            assert(h == define_label(g8, end));
            let fs = seq![(LabelKind::ForStart, c)];
            let fe = seq![(LabelKind::ForEnd, c)];
            lemma_names_concat(ii, fs);
            lemma_names_concat(ii + fs, bb + st);
            lemma_names_concat(ii + fs + (bb + st), fe);
            assert(ii + fs + bb + st + fe =~= ii + fs + (bb + st) + fe);
            assert(h.labels =~= g.labels + label_names(label_ids(s, c)));
            lemma_entries_concat(si, sb + ss);
            assert(si + sb + ss =~= si + (sb + ss));
            assert(h.strings =~= g.strings + string_entries(string_ids(s, c)));
            // The numbers: every label of the pieces lies in its own range.
            lemma_join_ranges(ii, fs, c + 1, c2, c, c + 1);
            let p1 = ii + fs;
            assert forall|i: int| 0 <= i < p1.len() implies c <= #[trigger] p1[i].1 < c2 by {
                let x = p1[i].1;
                assert((c + 1 <= x < c2) || (c <= x < c + 1));
            }
            lemma_join_ranges(p1, bb + st, c, c2, c2, c4);
            let p2 = p1 + (bb + st);
            assert forall|i: int| 0 <= i < p2.len() implies c <= #[trigger] p2[i].1 < c4 by {
                let x = p2[i].1;
                assert((c <= x < c2) || (c2 <= x < c4));
            }
            assert forall|i: int| 0 <= i < p2.len() implies p2[i] != (LabelKind::ForEnd, c) by {
                if i < ii.len() {
                    assert(p2[i] == ii[i]);
                    assert(c + 1 <= ii[i].1);
                } else if i == ii.len() {
                    assert(p2[i] == (LabelKind::ForStart, c));
                } else {
                    assert(p2[i] == (bb + st)[i - ii.len() - 1]);
                    assert(c2 <= (bb + st)[i - ii.len() - 1].1);
                }
            }
            lemma_distinct_push(p2, (LabelKind::ForEnd, c));
            assert(p2 + fe =~= label_ids(s, c));
            let p3 = p2 + fe;
            assert forall|i: int| 0 <= i < p3.len() implies c <= #[trigger] p3[i].1 < c4 by {
                if i < p2.len() { assert(p3[i] == p2[i]); }
            }
            lemma_join_ranges(si, sb + ss, c + 1, c2, c2, c4);
            let q = si + (sb + ss);
            assert forall|i: int| 0 <= i < q.len() implies c <= #[trigger] q[i].1 < c4 by {
                let x = q[i].1;
                assert((c + 1 <= x < c2) || (c2 <= x < c4));
            }
        },
        _ => {},
    }
}

#[verifier::rlimit(50)]
proof fn lemma_while_labels(s: SStatement, f: Seq<char>, g: GenState)
    requires
        g.counter + labels_used(s) <= usize::MAX,
        s is While,
    ensures
        labels_effect(g, stmt_code(s, f, g), labels_used(s), label_ids(s, g.counter as int),
            string_ids(s, g.counter as int)),
    decreases s, 0nat,
{
    let c = g.counter as int;
    let h = stmt_code(s, f, g);
    match s {
        SStatement::While { condition_op, left, right, body } => {
            let b = labels_used_in_block(body);
            let start = ".L_while_start_"@ + label_number(g.counter);
            let end = ".L_while_end_"@ + label_number(g.counter);
            assert(start == label_of(LabelKind::WhileStart, c));
            assert(end == label_of(LabelKind::WhileEnd, c));
            let g1 = take_label(g);
            let g2 = define_label(g1, start);
            lemma_define(g1, LabelKind::WhileStart, c);
            lemma_comparison_operand_is_register(g2, right);
            let (g3, r) = comparison_operand(g2, right);
            let g4 = emit(g3, branch_line(skip_branch(condition_op), condition_op, left, r, end));
            assert(g4.counter == c + 1);
            lemma_block_labels(body, f, g4);
            let g5 = block_code(body, f, g4);
            let g6 = emit(g5, instr("j "@ + start));
            lemma_define(g6, LabelKind::WhileEnd, c);
            let ws = seq![(LabelKind::WhileStart, c)];
            let we = seq![(LabelKind::WhileEnd, c)];
            let bb = block_label_ids(body, c + 1);
            lemma_names_concat(ws, bb);
            lemma_names_concat(ws + bb, we);
            assert(h.labels =~= g.labels + label_names(label_ids(s, c)));
            assert(h.strings =~= g.strings + string_entries(string_ids(s, c)));
            lemma_join_ranges(ws, bb, c, c + 1, c + 1, c + 1 + b);
            let p = ws + bb;
            assert forall|i: int| 0 <= i < p.len() implies p[i] != (LabelKind::WhileEnd, c) by {
                if i == 0 {
                    assert(p[i] == (LabelKind::WhileStart, c));
                } else {
                    assert(p[i] == bb[i - 1]);
                    assert(c + 1 <= bb[i - 1].1);
                }
            }
            lemma_distinct_push(p, (LabelKind::WhileEnd, c));
            let p3 = p + we;
            assert forall|i: int| 0 <= i < p3.len() implies c <= #[trigger] p3[i].1 < c + 1 + b by {
                if i < p.len() {
                    assert(p3[i] == p[i]);
                    let x = p[i].1;
                    assert((c <= x < c + 1) || (c + 1 <= x < c + 1 + b));
                }
            }
        },
        _ => {},
    }
}

#[verifier::rlimit(50)]
proof fn lemma_if_labels(s: SStatement, f: Seq<char>, g: GenState)
    requires
        g.counter + labels_used(s) <= usize::MAX,
        s is If,
    ensures
        labels_effect(g, stmt_code(s, f, g), labels_used(s), label_ids(s, g.counter as int),
            string_ids(s, g.counter as int)),
    decreases s, 0nat,
{
    let c = g.counter as int;
    let h = stmt_code(s, f, g);
    match s {
        SStatement::If { condition_op, left, right, then_block, else_block } => {
            let t = labels_used_in_block(then_block);
            let ct = c + 1 + t;
            let else_label = ".L_else_"@ + label_number(g.counter);
            let end = ".L_end_"@ + label_number(g.counter);
            assert(else_label == label_of(LabelKind::Else, c));
            assert(end == label_of(LabelKind::End, c));
            let target = if else_block is Some { else_label } else { end };
            lemma_comparison_operand_is_register(take_label(g), right);
            let (g2, r) = comparison_operand(take_label(g), right);
            let g3 = emit(g2, branch_line(skip_branch(condition_op), condition_op, left, r, target));
            assert(g3.counter == c + 1);
            lemma_block_labels(then_block, f, g3);
            let g4 = block_code(then_block, f, g3);
            let tt = block_label_ids(then_block, c + 1);
            let en = seq![(LabelKind::End, c)];
            match else_block {
                Some(e) => {
                    let g5a = emit(g4, instr("j "@ + end));
                    lemma_define(g5a, LabelKind::Else, c);
                    let g5 = define_label(g5a, else_label);
                    lemma_block_labels(e, f, g5);
                    let g6 = block_code(e, f, g5);
                    lemma_define(g6, LabelKind::End, c);
                    let el = seq![(LabelKind::Else, c)];
                    let ee = block_label_ids(e, ct);
                    let ce = ct + labels_used_in_block(e);
                    lemma_names_concat(tt, el);
                    lemma_names_concat(tt + el, ee);
                    lemma_names_concat(tt + el + ee, en);
                    assert(h.labels =~= g.labels + label_names(label_ids(s, c)));
                    let st1 = block_string_ids(then_block, c + 1);
                    let st2 = block_string_ids(e, ct);
                    lemma_entries_concat(st1, st2);
                    assert(h.strings =~= g.strings + string_entries(string_ids(s, c)));
                    lemma_join_ranges(tt, el, c + 1, ct, c, c + 1);
                    let p1 = tt + el;
                    assert forall|i: int| 0 <= i < p1.len() implies c <= #[trigger] p1[i].1 < ct by {
                        let x = p1[i].1;
                        assert((c + 1 <= x < ct) || (c <= x < c + 1));
                    }
                    lemma_join_ranges(p1, ee, c, ct, ct, ce);
                    let p2 = p1 + ee;
                    assert forall|i: int| 0 <= i < p2.len() implies p2[i] != (LabelKind::End, c) by {
                        if i < tt.len() {
                            assert(p2[i] == tt[i]);
                            assert(c + 1 <= tt[i].1);
                        } else if i == tt.len() {
                            assert(p2[i] == (LabelKind::Else, c));
                        } else {
                            assert(p2[i] == ee[i - tt.len() - 1]);
                            assert(ct <= ee[i - tt.len() - 1].1);
                        }
                    }
                    lemma_distinct_push(p2, (LabelKind::End, c));
                    let p3 = p2 + en;
                    assert forall|i: int| 0 <= i < p3.len() implies c <= #[trigger] p3[i].1 < ce by {
                        if i < p2.len() {
                            assert(p3[i] == p2[i]);
                            let x = p2[i].1;
                            assert((c <= x < ct) || (ct <= x < ce));
                        }
                    }
                    lemma_join_ranges(st1, st2, c + 1, ct, ct, ce);
                    let q = st1 + st2;
                    assert forall|i: int| 0 <= i < q.len() implies c <= #[trigger] q[i].1 < ce by {
                        let x = q[i].1;
                        assert((c + 1 <= x < ct) || (ct <= x < ce));
                    }
                },
                None => {
                    lemma_define(g4, LabelKind::End, c);
                    lemma_names_concat(tt, en);
                    assert(h.labels =~= g.labels + label_names(label_ids(s, c)));
                    assert(h.strings =~= g.strings + string_entries(string_ids(s, c)));
                    lemma_join_ranges(tt, en, c + 1, ct, c, c + 1);
                    let p = tt + en;
                    assert forall|i: int| 0 <= i < p.len() implies c <= #[trigger] p[i].1 < ct by {
                        let x = p[i].1;
                        assert((c + 1 <= x < ct) || (c <= x < c + 1));
                    }
                    let q = block_string_ids(then_block, c + 1);
                    assert forall|i: int| 0 <= i < q.len() implies c <= #[trigger] q[i].1 < ct by {
                        assert(c + 1 <= q[i].1 < ct);
                    }
                },
            }
        },
        _ => {},
    }
}

/// Writing a block takes the numbers `c .. c + labels_used_in_block(b)`, defines exactly the
/// labels `block_label_ids(b, c)` and collects exactly the string literals
/// `block_string_ids(b, c)`, all numbered within that range and none twice.
pub proof fn lemma_block_labels(b: Seq<SStatement>, f: Seq<char>, g: GenState)
    requires
        g.counter + labels_used_in_block(b) <= usize::MAX,
    ensures
        labels_effect(g, block_code(b, f, g), labels_used_in_block(b), block_label_ids(b, g.counter as int),
            block_string_ids(b, g.counter as int)),
    decreases b, 1nat,
{
    if b.len() == 0 {
        lemma_effect_none(g, g);
    } else {
        lemma_block_labels(b.drop_last(), f, g);
        let g1 = block_code(b.drop_last(), f, g);
        lemma_statement_labels(b.last(), f, g1);
        lemma_effect_then(g, g1, stmt_code(b.last(), f, g1), labels_used_in_block(b.drop_last()), labels_used(b.last()),
            block_label_ids(b.drop_last(), g.counter as int), label_ids(b.last(), g1.counter as int),
            block_string_ids(b.drop_last(), g.counter as int), string_ids(b.last(), g1.counter as int));
    }
}

/// The tokens written one after another.
pub open spec fn concat_all(ts: Seq<Seq<char>>) -> Seq<char>
    decreases ts.len(),
{
    if ts.len() == 0 { Seq::empty() } else { concat_all(ts.drop_last()) + ts.last() }
}

/// The characters of `cs[i..]` that the lexer keeps, reading in `mode`: everything but
/// whitespace outside string literals, and comments from their `#` through the line break.
pub open spec fn kept_chars(cs: Seq<char>, i: int, mode: LexMode) -> Seq<char>
    decreases cs.len() - i,
{
    if i >= cs.len() || i < 0 {
        Seq::empty()
    } else {
        let c = cs[i];
        match mode {
            LexMode::InString => {
                seq![c] + kept_chars(cs, i + 1, if c == '"' { LexMode::Normal } else { LexMode::InString })
            },
            LexMode::InComment => {
                kept_chars(cs, i + 1, if c == '\n' { LexMode::Normal } else { LexMode::InComment })
            },
            LexMode::Normal => {
                if c == '#' {
                    kept_chars(cs, i + 1, LexMode::InComment)
                } else if c == '"' {
                    seq![c] + kept_chars(cs, i + 1, LexMode::InString)
                } else if white_space(c) {
                    kept_chars(cs, i + 1, LexMode::Normal)
                } else {
                    seq![c] + kept_chars(cs, i + 1, LexMode::Normal)
                }
            },
        }
    }
}

proof fn lemma_concat_push(ts: Seq<Seq<char>>, t: Seq<char>)
    ensures
        concat_all(ts.push(t)) == concat_all(ts) + t,
{
    assert(ts.push(t).drop_last() == ts);
}

proof fn lemma_concat_flush(ts: Seq<Seq<char>>, cur: Seq<char>)
    ensures
        concat_all(flush(ts, cur)) == concat_all(ts) + cur,
{
    if cur.len() > 0 {
        lemma_concat_push(ts, cur);
    } else {
        assert(concat_all(ts) + cur =~= concat_all(ts));
    }
}

proof fn lemma_lex_lossless(cs: Seq<char>, i: int, toks: Seq<Seq<char>>, cur: Seq<char>, mode: LexMode)
    requires
        0 <= i <= cs.len(),
    ensures
        concat_all(lex(cs, i, toks, cur, mode)) == concat_all(toks) + cur + kept_chars(cs, i, mode),
    decreases cs.len() - i,
{
    lemma_concat_flush(toks, cur);
    let fl = flush(toks, cur);
    let e: Seq<char> = Seq::empty();
    if i >= cs.len() {
        assert(concat_all(toks) + cur + kept_chars(cs, i, mode) =~= concat_all(toks) + cur);
    } else {
        let c = cs[i];
        let k1 = kept_chars(cs, i + 1, LexMode::Normal);
        match mode {
            LexMode::InString => {
                if c == '"' {
                    lemma_concat_push(toks, cur.push('"'));
                    lemma_lex_lossless(cs, i + 1, toks.push(cur.push('"')), e, LexMode::Normal);
                    assert(concat_all(toks) + cur.push('"') + e + k1
                        =~= concat_all(toks) + cur + kept_chars(cs, i, mode));
                } else {
                    let k = kept_chars(cs, i + 1, LexMode::InString);
                    lemma_lex_lossless(cs, i + 1, toks, cur.push(c), LexMode::InString);
                    assert(concat_all(toks) + cur.push(c) + k
                        =~= concat_all(toks) + cur + kept_chars(cs, i, mode));
                }
            },
            LexMode::InComment => {
                if c == '\n' {
                    lemma_lex_lossless(cs, i + 1, fl, e, LexMode::Normal);
                    assert(concat_all(toks) + cur + e + k1 =~= concat_all(toks) + cur + k1);
                } else {
                    lemma_lex_lossless(cs, i + 1, toks, cur, LexMode::InComment);
                }
            },
            LexMode::Normal => {
                if c == '#' {
                    lemma_lex_lossless(cs, i + 1, toks, cur, LexMode::InComment);
                } else if c == '"' {
                    let k = kept_chars(cs, i + 1, LexMode::InString);
                    lemma_lex_lossless(cs, i + 1, fl, seq!['"'], LexMode::InString);
                    assert(concat_all(toks) + cur + seq!['"'] + k
                        =~= concat_all(toks) + cur + kept_chars(cs, i, mode));
                } else if starts_comparison(c) && i + 1 < cs.len() && cs[i + 1] == '=' {
                    let t = seq![c, '='];
                    let k2 = kept_chars(cs, i + 2, LexMode::Normal);
                    lemma_concat_push(fl, t);
                    lemma_lex_lossless(cs, i + 2, fl.push(t), e, LexMode::Normal);
                    assert(!white_space(c) && !white_space('='));
                    assert(k1 == seq!['='] + k2);
                    assert(concat_all(toks) + cur + t + e + k2
                        =~= concat_all(toks) + cur + kept_chars(cs, i, mode));
                } else if is_delimiter(c) {
                    let t = seq![c];
                    lemma_concat_push(fl, t);
                    lemma_lex_lossless(cs, i + 1, fl.push(t), e, LexMode::Normal);
                    assert(!white_space(c));
                    assert(concat_all(toks) + cur + t + e + k1
                        =~= concat_all(toks) + cur + kept_chars(cs, i, mode));
                } else if white_space(c) {
                    lemma_lex_lossless(cs, i + 1, fl, e, LexMode::Normal);
                    assert(concat_all(toks) + cur + e + k1 =~= concat_all(toks) + cur + k1);
                } else {
                    lemma_lex_lossless(cs, i + 1, toks, cur.push(c), LexMode::Normal);
                    assert(concat_all(toks) + cur.push(c) + k1
                        =~= concat_all(toks) + cur + kept_chars(cs, i, mode));
                }
            },
        }
    }
}

/// The lexer loses nothing but whitespace and comments: the tokens of a text, written one
/// after another, are its characters without the whitespace outside string literals and
/// without the comments.
pub proof fn lemma_tokens_keep_text(src: Seq<char>)
    ensures
        concat_all(tokens_of(src)) == kept_chars(src, 0, LexMode::Normal),
{
    lemma_lex_lossless(src, 0, Seq::empty(), Seq::empty(), LexMode::Normal);
    assert(concat_all(Seq::<Seq<char>>::empty()) + Seq::<char>::empty() + kept_chars(src, 0, LexMode::Normal)
        =~= kept_chars(src, 0, LexMode::Normal));
}

/// The lexer's mode once it has read `cs` from position `i` on, starting in `mode`.
pub open spec fn mode_after(cs: Seq<char>, i: int, mode: LexMode) -> LexMode
    decreases cs.len() - i,
{
    if i >= cs.len() || i < 0 {
        mode
    } else {
        let (i2, _t, _c, m2) = lex_step(cs, i, Seq::empty(), Seq::empty(), mode);
        mode_after(cs, i2, m2)
    }
}

proof fn lemma_lex_same_rest(s1: Seq<char>, p1: int, s2: Seq<char>, p2: int,
    toks: Seq<Seq<char>>, cur: Seq<char>, mode: LexMode)
    requires
        0 <= p1 <= s1.len(),
        0 <= p2 <= s2.len(),
        s1.subrange(p1, s1.len() as int) == s2.subrange(p2, s2.len() as int),
    ensures
        lex(s1, p1, toks, cur, mode) == lex(s2, p2, toks, cur, mode),
    decreases s1.len() - p1,
{
    let r1 = s1.subrange(p1, s1.len() as int);
    let r2 = s2.subrange(p2, s2.len() as int);
    assert(r1.len() == r2.len());
    if p1 < s1.len() {
        assert(s1[p1] == r1[0] && s2[p2] == r2[0]);
        if p1 + 1 < s1.len() {
            assert(s1[p1 + 1] == r1[1] && s2[p2 + 1] == r2[1]);
        }
        let (i1, t1, c1, m1) = lex_step(s1, p1, toks, cur, mode);
        let (i2, t2, c2, m2) = lex_step(s2, p2, toks, cur, mode);
        assert(lex(s1, p1, toks, cur, mode) == lex(s1, i1, t1, c1, m1));
        assert(lex(s2, p2, toks, cur, mode) == lex(s2, i2, t2, c2, m2));
        assert(i1 - p1 == i2 - p2 && t1 == t2 && c1 == c2 && m1 == m2);
        assert(s1.subrange(i1, s1.len() as int) =~= r1.skip(i1 - p1));
        assert(s2.subrange(i2, s2.len() as int) =~= r2.skip(i2 - p2));
        lemma_lex_same_rest(s1, i1, s2, i2, t1, c1, m1);
    }
}

proof fn lemma_lex_through_comment(cs: Seq<char>, i: int, j: int, toks: Seq<Seq<char>>, cur: Seq<char>)
    requires
        0 <= i <= j < cs.len(),
        cs[j] == '\n',
        forall|k: int| i <= k < j ==> cs[k] != '\n',
    ensures
        lex(cs, i, toks, cur, LexMode::InComment) == lex(cs, j + 1, flush(toks, cur), Seq::empty(), LexMode::Normal),
    decreases j - i,
{
    if i < j {
        assert(cs[i] != '\n');
        lemma_lex_through_comment(cs, i + 1, j, toks, cur);
    }
}

proof fn lemma_lex_before_comment(a: Seq<char>, c: Seq<char>, b: Seq<char>, i: int,
    toks: Seq<Seq<char>>, cur: Seq<char>, mode: LexMode)
    requires
        0 <= i <= a.len(),
        mode_after(a, i, mode) == LexMode::Normal,
        forall|k: int| 0 <= k < c.len() ==> c[k] != '\n',
    ensures
        lex(a + seq!['#'] + c + seq!['\n'] + b, i, toks, cur, mode)
            == lex(a + seq!['\n'] + b, i, toks, cur, mode),
    decreases a.len() - i,
{
    let s1 = a + seq!['#'] + c + seq!['\n'] + b;
    let s2 = a + seq!['\n'] + b;
    let e: Seq<char> = Seq::empty();
    if i == a.len() {
        assert(mode == LexMode::Normal);
        let j: int = (a.len() + 1 + c.len()) as int;
        assert(s1[i] == '#' && s2[i] == '\n');
        assert(s1[j] == '\n');
        assert forall|k: int| i + 1 <= k < j implies s1[k] != '\n' by {
            assert(s1[k] == c[k - i - 1]);
        }
        lemma_lex_through_comment(s1, i + 1, j, toks, cur);
        assert(!starts_comparison('\n') && !is_delimiter('\n') && white_space('\n'));
        assert(lex(s2, i, toks, cur, mode) == lex(s2, i + 1, flush(toks, cur), e, LexMode::Normal));
        assert(s1.subrange(j + 1, s1.len() as int) =~= b);
        assert(s2.subrange(i + 1, s2.len() as int) =~= b);
        lemma_lex_same_rest(s1, j + 1, s2, i + 1, flush(toks, cur), e, LexMode::Normal);
    } else {
        assert(s1[i] == a[i] && s2[i] == a[i]);
        if i + 1 < a.len() {
            assert(s1[i + 1] == a[i + 1] && s2[i + 1] == a[i + 1]);
        } else {
            assert(s1[i + 1] == '#' && s2[i + 1] == '\n');
        }
        let (i1, t1, c1, m1) = lex_step(s1, i, toks, cur, mode);
        let (i2, t2, c2, m2) = lex_step(s2, i, toks, cur, mode);
        let et: Seq<Seq<char>> = Seq::empty();
        let (ia, _ta, _ca, ma) = lex_step(a, i, et, e, mode);
        assert(i1 == i2 && t1 == t2 && c1 == c2 && m1 == m2);
        assert(lex(s1, i, toks, cur, mode) == lex(s1, i1, t1, c1, m1));
        assert(lex(s2, i, toks, cur, mode) == lex(s2, i2, t2, c2, m2));
        assert(i1 == ia && m1 == ma);
        lemma_lex_before_comment(a, c, b, i1, t1, c1, m1);
    }
}

/// A comment is ignored: a `#` that the lexer meets outside a string, and the rest of its
/// line, give the same tokens as the line break alone.
pub proof fn lemma_comment_ignored(a: Seq<char>, c: Seq<char>, b: Seq<char>)
    requires
        mode_after(a, 0, LexMode::Normal) == LexMode::Normal,
        forall|k: int| 0 <= k < c.len() ==> c[k] != '\n',
    ensures
        tokens_of(a + seq!['#'] + c + seq!['\n'] + b) == tokens_of(a + seq!['\n'] + b),
{
    lemma_lex_before_comment(a, c, b, 0, Seq::empty(), Seq::empty(), LexMode::Normal);
}

/// Subtracting a number is adding its negation: `LEFT - V` and `LEFT + - V` both read as
/// `addi` of `LEFT` and `-V`, whenever `V` is a number (a decimal literal that names no
/// register, or a constant) and `-` is not itself a constant's name.
pub proof fn lemma_subtract_is_add_negative(rest: Seq<Seq<char>>, st: PState, target: Register,
    left: SOperand, v: Seq<char>)
    requires
        st.pos == 0,
        !st.consts.contains_key("-"@),
        number(st.consts, v) is Some,
        st.consts.contains_key(v) || register_of(st.aliases, v) is None,
    ensures
        ({
            let n = number(st.consts, v)->0;
            let expected = SStatement::Let {
                target,
                value: SExpression::AluCall { opcode: "addi"@, operands: seq![left, SOperand::Imm(negate(n))] },
            };
            &&& math_rest(seq!["-"@, v] + rest, st, target, left) matches Ok((s1, p1))
                && s1 == expected && p1.pos == 2
            &&& math_rest(seq!["+"@, "-"@, v] + rest, st, target, left) matches Ok((s2, p2))
                && s2 == expected && p2.pos == 3
        }),
{
    let t1 = seq!["-"@, v] + rest;
    let t2 = seq!["+"@, "-"@, v] + rest;
    assert(t1[0] == "-"@ && t1[1] == v);
    assert(t2[0] == "+"@ && t2[1] == "-"@ && t2[2] == v);
    reveal_strlit("-");
    reveal_strlit("+");
    reveal_strlit("\"");
    reveal_strlit("add");
    reveal_strlit("sub");
    if !st.consts.contains_key(v) {
        assert(crate::text::parse_int(v, 10) is Some);
        lemma_decimal_not_special(v);
    }
    let n = number(st.consts, v)->0;
    let s1 = adv(st);
    assert(crate::grammar::arith_opcode("-"@) == Some("sub"@));
    assert(crate::grammar::arith_opcode("+"@) == Some("add"@));
    assert(operand(t1, s1) == Ok::<(SOperand, PState), PErr>((SOperand::Imm(n), adv(s1))));
    assert(operand(t2, s1) == Ok::<(SOperand, PState), PErr>((SOperand::Imm(negate(n)), adv(adv(s1)))));
    let expected = SStatement::Let {
        target,
        value: SExpression::AluCall { opcode: "addi"@, operands: seq![left, SOperand::Imm(negate(n))] },
    };
    assert(at(t1, st) == Some("-"@));
    assert(at(t2, st) == Some("+"@));
    assert("sub"@[0] == 's' && "add"@[0] == 'a');
    assert("sub"@ != "add"@);
    assert(math_rest(t1, st, target, left) == Ok::<(SStatement, PState), PErr>((expected, adv(s1))));
    assert(math_rest(t2, st, target, left) == Ok::<(SStatement, PState), PErr>((expected, adv(adv(s1)))));
}

proof fn lemma_decimal_not_special(v: Seq<char>)
    requires
        crate::text::parse_int(v, 10) is Some,
    ensures
        v != "-"@,
        !(v.len() > 0 && v[0] == '"'),
        !crate::grammar::has_hex_prefix(v),
{
    reveal_strlit("-");
    let body = if v.len() > 0 && (v[0] == '-' || v[0] == '+') { v.skip(1) } else { v };
    assert(body.len() > 0 && crate::text::all_digits(body, 10));
    if v.len() > 0 && v[0] == '"' {
        assert(body[0] == v[0]);
        assert(crate::text::digit_value(body[0]) < 10);
    }
    if crate::grammar::has_hex_prefix(v) {
        assert(body[1] == v[1]);
        assert(crate::text::digit_value(body[1]) < 10);
    }
}

/// A character that can stand in a word: not whitespace, a quote, a comment mark or a
/// delimiter.
pub open spec fn word_char(c: char) -> bool {
    !white_space(c) && c != '"' && c != '#' && !is_delimiter(c)
}

/// A token that the lexer ends itself: a word, a delimiter, a comparison operator or a closed
/// string literal.
pub open spec fn closed_token(t: Seq<char>) -> bool {
    ||| (t.len() > 0 && forall|i: int| 0 <= i < t.len() ==> word_char(#[trigger] t[i]))
    ||| (t.len() == 1 && is_delimiter(t[0]))
    ||| (t.len() == 2 && starts_comparison(t[0]) && t[1] == '=')
    ||| (t.len() >= 2 && t[0] == '"' && t[t.len() - 1] == '"'
        && forall|i: int| 0 < i < t.len() - 1 ==> #[trigger] t[i] != '"')
}

/// A string literal that the text ends before it is closed.
pub open spec fn open_string(t: Seq<char>) -> bool {
    t.len() > 0 && t[0] == '"' && forall|i: int| 0 < i < t.len() ==> #[trigger] t[i] != '"'
}

/// A token list as the lexer gives it: every token closed, but the last, which may be an
/// open string literal.
pub open spec fn lexer_shaped(ts: Seq<Seq<char>>) -> bool {
    forall|i: int| 0 <= i < ts.len() ==> closed_token(#[trigger] ts[i]) || (i == ts.len() - 1 && open_string(ts[i]))
}

/// The tokens written out with one space between each two.
pub open spec fn joined(ts: Seq<Seq<char>>) -> Seq<char>
    decreases ts.len(),
{
    if ts.len() == 0 {
        Seq::empty()
    } else if ts.len() == 1 {
        ts[0]
    } else {
        ts[0] + seq![' '] + joined(ts.skip(1))
    }
}

/// The pending text in each mode, as the lexer keeps it.
spec fn pending_shape(cur: Seq<char>, mode: LexMode) -> bool {
    match mode {
        LexMode::InString => open_string(cur),
        _ => cur.len() == 0 || closed_token(cur) && forall|i: int| 0 <= i < cur.len() ==> word_char(#[trigger] cur[i]),
    }
}

proof fn lemma_shaped_push(ts: Seq<Seq<char>>, t: Seq<char>)
    requires
        forall|i: int| 0 <= i < ts.len() ==> closed_token(#[trigger] ts[i]),
        closed_token(t),
    ensures
        forall|i: int| 0 <= i < ts.push(t).len() ==> closed_token(#[trigger] ts.push(t)[i]),
{
    assert forall|i: int| 0 <= i < ts.push(t).len() implies closed_token(#[trigger] ts.push(t)[i]) by {
        if i < ts.len() { assert(ts.push(t)[i] == ts[i]); }
    }
}

proof fn lemma_lex_shaped(cs: Seq<char>, i: int, toks: Seq<Seq<char>>, cur: Seq<char>, mode: LexMode)
    requires
        0 <= i <= cs.len(),
        forall|k: int| 0 <= k < toks.len() ==> closed_token(#[trigger] toks[k]),
        pending_shape(cur, mode),
    ensures
        lexer_shaped(lex(cs, i, toks, cur, mode)),
    decreases cs.len() - i,
{
    let e: Seq<char> = Seq::empty();
    let fl = flush(toks, cur);
    if mode != LexMode::InString && cur.len() > 0 {
        lemma_shaped_push(toks, cur);
    }
    if i >= cs.len() {
        let r = flush(toks, cur);
        assert forall|k: int| 0 <= k < r.len() implies closed_token(#[trigger] r[k]) || (k == r.len() - 1 && open_string(r[k])) by {
            if k < toks.len() { assert(r[k] == toks[k]); }
        }
    } else {
        let c = cs[i];
        let (i2, t2, c2, m2) = lex_step(cs, i, toks, cur, mode);
        assert(lex(cs, i, toks, cur, mode) == lex(cs, i2, t2, c2, m2));
        match mode {
            LexMode::InString => {
                if c == '"' {
                    let t = cur.push('"');
                    assert(t[t.len() - 1] == '"' && t[0] == '"');
                    assert forall|k: int| 0 < k < t.len() - 1 implies #[trigger] t[k] != '"' by {
                        assert(t[k] == cur[k]);
                    }
                    lemma_shaped_push(toks, t);
                } else {
                    let t = cur.push(c);
                    assert forall|k: int| 0 < k < t.len() implies #[trigger] t[k] != '"' by {
                        if k < cur.len() { assert(t[k] == cur[k]); }
                    }
                }
            },
            LexMode::InComment => {},
            LexMode::Normal => {
                if c == '#' {
                } else if c == '"' {
                    assert(open_string(seq!['"']));
                } else if starts_comparison(c) && i + 1 < cs.len() && cs[i + 1] == '=' {
                    lemma_shaped_push(fl, seq![c, '=']);
                } else if is_delimiter(c) {
                    lemma_shaped_push(fl, seq![c]);
                } else if white_space(c) {
                } else {
                    let t = cur.push(c);
                    assert forall|k: int| 0 <= k < t.len() implies word_char(#[trigger] t[k]) by {
                        if k < cur.len() { assert(t[k] == cur[k]); }
                    }
                }
            },
        }
        lemma_lex_shaped(cs, i2, t2, c2, m2);
    }
}

/// After a token, an end of text or a space ends it the same way.
proof fn lemma_after_token(cs: Seq<char>, p: int, toks: Seq<Seq<char>>, t: Seq<char>)
    requires
        0 < p <= cs.len(),
        p == cs.len() || cs[p] == ' ',
        t.len() > 0,
        forall|i: int| 0 <= i < t.len() ==> word_char(#[trigger] t[i]),
    ensures
        lex(cs, p, toks, t, LexMode::Normal) == lex(cs, p, toks.push(t), Seq::empty(), LexMode::Normal),
{
    if p < cs.len() {
        assert(!starts_comparison(' ') && !is_delimiter(' ') && white_space(' '));
    }
}

proof fn lemma_lex_word(cs: Seq<char>, t: Seq<char>, k: int, toks: Seq<Seq<char>>)
    requires
        t.len() > 0,
        forall|i: int| 0 <= i < t.len() ==> word_char(#[trigger] t[i]),
        t.len() <= cs.len(),
        cs.take(t.len() as int) == t,
        t.len() == cs.len() || cs[t.len() as int] == ' ',
        0 <= k <= t.len(),
    ensures
        lex(cs, k, toks, t.take(k), LexMode::Normal) == lex(cs, t.len() as int, toks, t, LexMode::Normal),
    decreases t.len() - k,
{
    if k < t.len() {
        let c = t[k];
        assert(cs[k] == c);
        assert(word_char(c));
        if k + 1 < t.len() {
            assert(cs[k + 1] == t[k + 1]);
            assert(word_char(t[k + 1]));
        }
        assert(t.take(k).push(c) =~= t.take(k + 1));
        lemma_lex_word(cs, t, k + 1, toks);
    } else {
        assert(t.take(k) =~= t);
    }
}

proof fn lemma_lex_string(cs: Seq<char>, t: Seq<char>, k: int, toks: Seq<Seq<char>>)
    requires
        t.len() <= cs.len(),
        cs.take(t.len() as int) == t,
        open_string(t) || (t.len() >= 2 && t[0] == '"' && t[t.len() - 1] == '"'
            && forall|i: int| 0 < i < t.len() - 1 ==> #[trigger] t[i] != '"'),
        open_string(t) ==> t.len() == cs.len(),
        1 <= k <= t.len(),
        !open_string(t) ==> k < t.len(),
    ensures
        lex(cs, k, toks, t.take(k), LexMode::InString) == lex(cs, t.len() as int, toks.push(t), Seq::empty(), LexMode::Normal),
    decreases t.len() - k,
{
    if k == t.len() {
        assert(t.take(k) =~= t);
    } else {
        let c = t[k];
        assert(cs[k] == c);
        if !open_string(t) && k == t.len() - 1 {
            assert(t.take(k).push('"') =~= t);
        } else {
            if open_string(t) {
                assert(c != '"');
            } else {
                assert(c != '"');
            }
            assert(t.take(k).push(c) =~= t.take(k + 1));
            lemma_lex_string(cs, t, k + 1, toks);
        }
    }
}

/// Lexing a token at the start of `cs`, followed by the end of the text or a space.
proof fn lemma_lex_token(cs: Seq<char>, t: Seq<char>, toks: Seq<Seq<char>>)
    requires
        closed_token(t) || (open_string(t) && t.len() == cs.len()),
        t.len() <= cs.len(),
        cs.take(t.len() as int) == t,
        t.len() == cs.len() || cs[t.len() as int] == ' ',
    ensures
        lex(cs, 0, toks, Seq::empty(), LexMode::Normal) == lex(cs, t.len() as int, toks.push(t), Seq::empty(), LexMode::Normal),
{
    let e: Seq<char> = Seq::empty();
    assert(t.len() > 0);
    assert(cs[0] == t[0]);
    if t.len() > 1 {
        assert(cs[1] == t[1]);
    }
    if t.len() > 0 && forall|i: int| 0 <= i < t.len() ==> word_char(#[trigger] t[i]) {
        assert(word_char(t[0]));
        assert(t.take(0) =~= e);
        lemma_lex_word(cs, t, 0, toks);
        lemma_after_token(cs, t.len() as int, toks, t);
    } else if t[0] == '"' {
        lemma_lex_string(cs, t, 1, toks);
        assert(t.take(1) =~= seq!['"']);
        assert(flush(toks, e) == toks);
    } else if t.len() == 1 && is_delimiter(t[0]) {
        assert(seq![t[0]] =~= t);
        assert(flush(toks, e) == toks);
    } else {
        assert(t.len() == 2 && starts_comparison(t[0]) && t[1] == '=');
        assert(seq![t[0], '='] =~= t);
        assert(flush(toks, e) == toks);
    }
}

proof fn lemma_relex(ts: Seq<Seq<char>>, toks: Seq<Seq<char>>)
    requires
        lexer_shaped(ts),
    ensures
        lex(joined(ts), 0, toks, Seq::empty(), LexMode::Normal) == toks + ts,
    decreases ts.len(),
{
    let e: Seq<char> = Seq::empty();
    let cs = joined(ts);
    if ts.len() == 0 {
        assert(toks + ts =~= toks);
    } else {
        let t = ts[0];
        assert(closed_token(t) || (0 == ts.len() - 1 && open_string(t)));
        if ts.len() == 1 {
            assert(cs == t);
            assert(cs.take(t.len() as int) =~= t);
            lemma_lex_token(cs, t, toks);
            assert(toks + ts =~= toks.push(t));
        } else {
            let rest = ts.skip(1);
            assert(closed_token(t));
            assert(cs == t + seq![' '] + joined(rest));
            assert(cs.take(t.len() as int) =~= t);
            assert(cs[t.len() as int] == ' ');
            lemma_lex_token(cs, t, toks);
            assert(!starts_comparison(' ') && !is_delimiter(' ') && white_space(' '));
            assert(lex(cs, t.len() as int, toks.push(t), e, LexMode::Normal)
                == lex(cs, (t.len() + 1) as int, toks.push(t), e, LexMode::Normal));
            assert forall|i: int| 0 <= i < rest.len() implies closed_token(#[trigger] rest[i])
                || (i == rest.len() - 1 && open_string(rest[i])) by {
                assert(rest[i] == ts[i + 1]);
            }
            assert(cs.subrange((t.len() + 1) as int, cs.len() as int) =~= joined(rest));
            assert(joined(rest).subrange(0, joined(rest).len() as int) =~= joined(rest));
            lemma_lex_same_rest(cs, (t.len() + 1) as int, joined(rest), 0, toks.push(t), e, LexMode::Normal);
            lemma_relex(rest, toks.push(t));
            assert(toks.push(t) + rest =~= toks + ts);
        }
    }
}

/// Lexing is idempotent: the tokens of a text, written out with a space between each two,
/// lex to the same tokens.
pub proof fn lemma_retokenize(src: Seq<char>)
    ensures
        tokens_of(joined(tokens_of(src))) == tokens_of(src),
{
    let e: Seq<char> = Seq::empty();
    lemma_lex_shaped(src, 0, Seq::empty(), e, LexMode::Normal);
    lemma_relex(tokens_of(src), Seq::empty());
    assert(Seq::<Seq<char>>::empty() + tokens_of(src) =~= tokens_of(src));
}

// ------------------------------------------------------------------
// What the emitted instructions mean
// ------------------------------------------------------------------

/// Whether the condition `a OP b` holds, for the comparison opcodes a condition may name:
/// the branch opcodes `beq`, `bne`, `blt`, `bge`, the pseudo-opcodes `bgt` and `ble` that `>`
/// and `<=` stand for, and the set-less-than opcodes `slt` and `slti`.
pub open spec fn condition_holds(op: Seq<char>, a: int, b: int) -> bool {
    if op == "beq"@ {
        a == b
    } else if op == "bne"@ {
        a != b
    } else if op == "blt"@ || op == "slt"@ || op == "slti"@ {
        a < b
    } else if op == "bge"@ {
        a >= b
    } else if op == "bgt"@ {
        a > b
    } else if op == "ble"@ {
        a <= b
    } else {
        false
    }
}

/// Whether the RISC-V branch `b x, y, target` is taken when the registers hold `x` and `y`.
pub open spec fn branch_taken(b: Seq<char>, x: int, y: int) -> bool {
    if b == "beq"@ {
        x == y
    } else if b == "bne"@ {
        x != y
    } else if b == "blt"@ {
        x < y
    } else if b == "bge"@ {
        x >= y
    } else {
        false
    }
}

/// The assembly line of the branch `b x, y, target`.
pub open spec fn branch_instr(b: Seq<char>, x: Seq<char>, y: Seq<char>, target: Seq<char>) -> Seq<char> {
    crate::assembly::instr(b + " "@ + x + ", "@ + y + ", "@ + target)
}

/// Whether `line` is the branch `b` to `target` (on `left, right`, or on `right, left` when
/// `swapped`), taken exactly when `left OP right` fails, whatever the registers hold.
pub open spec fn branch_means(line: Seq<char>, b: Seq<char>, swapped: bool, op: Seq<char>, left: Seq<char>,
    right: Seq<char>, target: Seq<char>) -> bool
{
    &&& line == (if swapped { branch_instr(b, right, left, target) } else { branch_instr(b, left, right, target) })
    &&& forall|va: int, vb: int| #[trigger] condition_holds(op, va, vb)
            == !(if swapped { branch_taken(b, vb, va) } else { branch_taken(b, va, vb) })
}

/// Whether `line` is a RISC-V branch to `target` that is taken exactly when the condition
/// `left OP right` does not hold.
pub open spec fn skips_unless(line: Seq<char>, op: Seq<char>, left: Seq<char>, right: Seq<char>, target: Seq<char>) -> bool {
    ||| branch_means(line, "beq"@, false, op, left, right, target)
    ||| branch_means(line, "bne"@, false, op, left, right, target)
    ||| branch_means(line, "blt"@, false, op, left, right, target)
    ||| branch_means(line, "bge"@, false, op, left, right, target)
    ||| branch_means(line, "beq"@, true, op, left, right, target)
    ||| branch_means(line, "bne"@, true, op, left, right, target)
    ||| branch_means(line, "blt"@, true, op, left, right, target)
    ||| branch_means(line, "bge"@, true, op, left, right, target)
}

/// The comparison opcodes of `if` and `while` conditions whose meaning is fixed.
pub open spec fn known_condition(op: Seq<char>) -> bool {
    op == "beq"@ || op == "bne"@ || op == "blt"@ || op == "bge"@ || op == "bgt"@ || op == "ble"@ || op == "slt"@
}

proof fn lemma_opcode_literals()
    ensures
        "beq"@ != "bne"@, "beq"@ != "blt"@, "beq"@ != "bge"@, "beq"@ != "bgt"@, "beq"@ != "ble"@,
        "beq"@ != "slt"@, "beq"@ != "slti"@,
        "bne"@ != "blt"@, "bne"@ != "bge"@, "bne"@ != "bgt"@, "bne"@ != "ble"@, "bne"@ != "slt"@,
        "bne"@ != "slti"@,
        "blt"@ != "bge"@, "blt"@ != "bgt"@, "blt"@ != "ble"@, "blt"@ != "slt"@, "blt"@ != "slti"@,
        "bge"@ != "bgt"@, "bge"@ != "ble"@, "bge"@ != "slt"@, "bge"@ != "slti"@,
        "bgt"@ != "ble"@, "bgt"@ != "slt"@, "bgt"@ != "slti"@,
        "ble"@ != "slt"@, "ble"@ != "slti"@,
        "slt"@ != "slti"@,
{
    reveal_strlit("beq");
    reveal_strlit("bne");
    reveal_strlit("blt");
    reveal_strlit("bge");
    reveal_strlit("bgt");
    reveal_strlit("ble");
    reveal_strlit("slt");
    reveal_strlit("slti");
    assert("beq"@[1] != "bne"@[1]);
    assert("beq"@[1] != "blt"@[1]);
    assert("beq"@[1] != "bge"@[1]);
    assert("beq"@[1] != "bgt"@[1]);
    assert("beq"@[1] != "ble"@[1]);
    assert("beq"@[0] != "slt"@[0]);
    assert("bne"@[1] != "blt"@[1]);
    assert("bne"@[1] != "bge"@[1]);
    assert("bne"@[1] != "bgt"@[1]);
    assert("bne"@[1] != "ble"@[1]);
    assert("bne"@[0] != "slt"@[0]);
    assert("blt"@[1] != "bge"@[1]);
    assert("blt"@[1] != "bgt"@[1]);
    assert("blt"@[2] != "ble"@[2]);
    assert("blt"@[0] != "slt"@[0]);
    assert("bge"@[2] != "bgt"@[2]);
    assert("bge"@[1] != "ble"@[1]);
    assert("bge"@[0] != "slt"@[0]);
    assert("bgt"@[1] != "ble"@[1]);
    assert("bgt"@[0] != "slt"@[0]);
    assert("ble"@[0] != "slt"@[0]);
    assert("beq"@.len() != "slti"@.len());
}

/// The branch written for a condition skips exactly when the condition fails: for an `if` or
/// a `while` (so their body runs exactly when the condition holds) and, for a `for`, the branch
/// that leaves the loop. This holds for every register and every right operand.
pub proof fn lemma_branches_negate_conditions(op: Seq<char>, left: Register, right: Seq<char>, target: Seq<char>)
    requires
        known_condition(op) || op == "slti"@,
    ensures
        known_condition(op) ==> skips_unless(
            crate::assembly::branch_line(crate::assembly::skip_branch(op), op, left, right, target),
            op, abi_name(left), right, target),
        skips_unless(
            crate::assembly::branch_line(crate::assembly::for_exit_branch(op), op, left, right, target),
            op, abi_name(left), right, target),
{
    lemma_opcode_literals();
    let l = abi_name(left);
    reveal_strlit("bge ");
    reveal_strlit("blt ");
    reveal_strlit("bge");
    reveal_strlit("blt");
    reveal_strlit(" ");
    assert("bge "@ =~= "bge"@ + " "@);
    assert("blt "@ =~= "blt"@ + " "@);
    if op == "beq"@ {
        assert(branch_means(crate::assembly::branch_line("bne"@, op, left, right, target), "bne"@, false, op, l, right, target));
    } else if op == "bne"@ {
        assert(branch_means(crate::assembly::branch_line("beq"@, op, left, right, target), "beq"@, false, op, l, right, target));
    } else if op == "blt"@ {
        assert(branch_means(crate::assembly::branch_line("bge"@, op, left, right, target), "bge"@, false, op, l, right, target));
    } else if op == "bge"@ {
        assert(branch_means(crate::assembly::branch_line("blt"@, op, left, right, target), "blt"@, false, op, l, right, target));
    } else if op == "slt"@ || op == "slti"@ {
        assert(branch_means(crate::assembly::branch_line("bge"@, op, left, right, target), "bge"@, false, op, l, right, target));
    } else if op == "bgt"@ {
        assert(branch_means(crate::assembly::branch_line("bne"@, op, left, right, target), "bge"@, true, op, l, right, target));
    } else {
        assert(branch_means(crate::assembly::branch_line("bne"@, op, left, right, target), "blt"@, true, op, l, right, target));
    }
}

/// The opcodes that take registers only: those of the M extension, and `sub`.
pub open spec fn register_only_opcode(op: Seq<char>) -> bool {
    op == "mul"@ || op == "div"@ || op == "rem"@ || op == "divu"@ || op == "remu"@ || op == "sub"@
}

/// An instruction of the M extension, or `sub`, names registers only: the code of
/// `let TARGET = OP(OPERANDS)` ends with the line `OP TARGET, R1, ..., Rn` whose operands are
/// all register names, one for each operand; immediates and globals are loaded beforehand.
/// The result is the text before that line and the operand names.
pub proof fn lemma_register_only_instructions(target: Register, op: Seq<char>, ops: Seq<SOperand>, g: GenState)
    -> (r: (Seq<char>, Seq<Seq<char>>))
    requires
        register_only_opcode(op),
        crate::assembly::alu_ready(ops),
    ensures
        let_code(target, SExpression::AluCall { opcode: op, operands: ops }, g).text
            == r.0 + crate::assembly::instr(op + " "@ + abi_name(target) + ", "@ + crate::assembly::join(r.1)),
        r.1.len() == ops.len(),
        forall|k: int| 0 <= k < r.1.len() ==> is_register_name(#[trigger] r.1[k]),
{
    assert(needs_registers(op));
    lemma_alu_operands_legal(g, ops, true);
    let (g1, texts) = alu_operands(g, ops, true);
    (g1.text, texts)
}

/// An infix `LEFT OP RIGHT` reads as an ALU call on LEFT and then RIGHT, in that order: `*`,
/// `/` and `%` as `mul`, `div` and `rem` of the two, and `+` and `-` on a right operand that
/// is no immediate as `add` and `sub` of the two. The reader ends where the right operand ends.
pub proof fn lemma_infix_operand_order(toks: Seq<Seq<char>>, st: PState, target: Register, left: SOperand)
    requires
        at(toks, st) is Some,
        crate::grammar::arith_opcode(at(toks, st)->0) is Some,
        operand(toks, adv(st)) is Ok,
    ensures
        ({
            let t = at(toks, st)->0;
            let (right, s2) = operand(toks, adv(st))->Ok_0;
            math_rest(toks, st, target, left) matches Ok((SStatement::Let { target: tg, value: SExpression::AluCall { opcode, operands } }, s3))
                && tg == target && s3 == s2 && operands.len() == 2 && operands[0] == left
                && ((t == "*"@ || t == "/"@ || t == "%"@ || !(right is Imm)) ==> operands[1] == right)
                && (t == "*"@ ==> opcode == "mul"@)
                && (t == "/"@ ==> opcode == "div"@)
                && (t == "%"@ ==> opcode == "rem"@)
                && (t == "+"@ && !(right is Imm) ==> opcode == "add"@)
                && (t == "-"@ && !(right is Imm) ==> opcode == "sub"@)
        }),
{
    reveal_strlit("+");
    reveal_strlit("-");
    reveal_strlit("*");
    reveal_strlit("/");
    reveal_strlit("%");
    reveal_strlit("add");
    reveal_strlit("sub");
    reveal_strlit("mul");
    reveal_strlit("div");
    reveal_strlit("rem");
    assert("add"@[0] != "sub"@[0] && "add"@[0] != "mul"@[0] && "add"@[0] != "div"@[0] && "add"@[0] != "rem"@[0]);
    assert("sub"@[0] != "mul"@[0] && "sub"@[0] != "div"@[0] && "sub"@[0] != "rem"@[0]);
    let t = at(toks, st)->0;
    let (right, s2) = operand(toks, adv(st))->Ok_0;
    let op = crate::grammar::arith_opcode(t)->0;
    assert("*"@[0] != "+"@[0] && "*"@[0] != "-"@[0] && "/"@[0] != "+"@[0] && "/"@[0] != "-"@[0]
        && "/"@[0] != "*"@[0] && "%"@[0] != "+"@[0] && "%"@[0] != "-"@[0] && "%"@[0] != "*"@[0]
        && "%"@[0] != "/"@[0] && "+"@[0] != "-"@[0]);
    assert(t == "*"@ ==> op == "mul"@);
    assert(t == "/"@ ==> op == "div"@);
    assert(t == "%"@ ==> op == "rem"@);
    assert(t == "+"@ ==> op == "add"@);
    assert(t == "-"@ ==> op == "sub"@);
    assert(op == "add"@ || op == "sub"@ || op == "mul"@ || op == "div"@ || op == "rem"@);
}

/// The RISC-V hardware number of a register.
pub open spec fn hardware_number(r: Register) -> nat {
    match r {
        Register::Zero => 0,
        Register::Ra => 1,
        Register::Sp => 2,
        Register::Gp => 3,
        Register::Tp => 4,
        Register::T0 => 5,
        Register::T1 => 6,
        Register::T2 => 7,
        Register::S0 => 8,
        Register::S1 => 9,
        Register::A0 => 10,
        Register::A1 => 11,
        Register::A2 => 12,
        Register::A3 => 13,
        Register::A4 => 14,
        Register::A5 => 15,
        Register::A6 => 16,
        Register::A7 => 17,
        Register::S2 => 18,
        Register::S3 => 19,
        Register::S4 => 20,
        Register::S5 => 21,
        Register::S6 => 22,
        Register::S7 => 23,
        Register::S8 => 24,
        Register::S9 => 25,
        Register::S10 => 26,
        Register::S11 => 27,
        Register::T3 => 28,
        Register::T4 => 29,
        Register::T5 => 30,
        Register::T6 => 31,
    }
}

/// Each hardware name `xN` reads as the register with hardware number `N`: `x10` to `x17` as
/// `a0` to `a7`, `x5` as `t0`, `x8` as `s0`, and so on.
pub proof fn lemma_hardware_names(r: Register)
    ensures
        crate::grammar::fixed_register("x"@ + nat_text(hardware_number(r))) == Some(r),
{
    lemma_register_literals();
    reveal_strlit("x");
    reveal_with_fuel(nat_text, 3);
    let t = "x"@ + nat_text(hardware_number(r));
    match r {
        Register::Zero => { assert(t =~= "x0"@); },
        Register::Ra => { assert(t =~= "x1"@); },
        Register::Sp => { assert(t =~= "x2"@); },
        Register::Gp => { assert(t =~= "x3"@); },
        Register::Tp => { assert(t =~= "x4"@); },
        Register::T0 => { assert(t =~= "x5"@); },
        Register::T1 => { assert(t =~= "x6"@); },
        Register::T2 => { assert(t =~= "x7"@); },
        Register::S0 => { assert(t =~= "x8"@); },
        Register::S1 => { assert(t =~= "x9"@); },
        Register::A0 => { assert(t =~= "x10"@); },
        Register::A1 => { assert(t =~= "x11"@); },
        Register::A2 => { assert(t =~= "x12"@); },
        Register::A3 => { assert(t =~= "x13"@); },
        Register::A4 => { assert(t =~= "x14"@); },
        Register::A5 => { assert(t =~= "x15"@); },
        Register::A6 => { assert(t =~= "x16"@); },
        Register::A7 => { assert(t =~= "x17"@); },
        Register::S2 => { assert(t =~= "x18"@); },
        Register::S3 => { assert(t =~= "x19"@); },
        Register::S4 => { assert(t =~= "x20"@); },
        Register::S5 => { assert(t =~= "x21"@); },
        Register::S6 => { assert(t =~= "x22"@); },
        Register::S7 => { assert(t =~= "x23"@); },
        Register::S8 => { assert(t =~= "x24"@); },
        Register::S9 => { assert(t =~= "x25"@); },
        Register::S10 => { assert(t =~= "x26"@); },
        Register::S11 => { assert(t =~= "x27"@); },
        Register::T3 => { assert(t =~= "x28"@); },
        Register::T4 => { assert(t =~= "x29"@); },
        Register::T5 => { assert(t =~= "x30"@); },
        Register::T6 => { assert(t =~= "x31"@); },
    }
}

/// Whether `a REL b` holds for a comparison symbol as written in a condition.
pub open spec fn symbol_holds(rel: Seq<char>, a: int, b: int) -> bool {
    if rel == "=="@ {
        a == b
    } else if rel == "!="@ {
        a != b
    } else if rel == "<"@ {
        a < b
    } else if rel == ">"@ {
        a > b
    } else if rel == "<="@ {
        a <= b
    } else {
        a >= b
    }
}

/// An infix comparison reads as the opcode with the same meaning: for each of `==`, `!=`, `<`,
/// `>`, `<=` and `>=`, the opcode holds of two values exactly when the comparison does, and
/// its branch is one whose negation is known.
pub proof fn lemma_relations_keep_meaning(rel: Seq<char>, a: int, b: int)
    requires
        rel == "=="@ || rel == "!="@ || rel == "<"@ || rel == ">"@ || rel == "<="@ || rel == ">="@,
    ensures
        crate::grammar::relation_opcode(rel) is Some,
        known_condition(crate::grammar::relation_opcode(rel)->0),
        condition_holds(crate::grammar::relation_opcode(rel)->0, a, b) == symbol_holds(rel, a, b),
{
    lemma_opcode_literals();
    reveal_strlit("==");
    reveal_strlit("!=");
    reveal_strlit("<");
    reveal_strlit(">");
    reveal_strlit("<=");
    reveal_strlit(">=");
    assert("=="@[0] != "!="@[0] && "=="@[0] != "<="@[0] && "=="@[0] != ">="@[0]);
    assert("!="@[0] != "<="@[0] && "!="@[0] != ">="@[0] && "<="@[0] != ">="@[0]);
    assert("<"@[0] != ">"@[0]);
    assert("<"@.len() != "=="@.len() && ">"@.len() != "=="@.len());
}

} // verus!
