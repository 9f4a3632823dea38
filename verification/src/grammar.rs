//! The grammar of Alloy, stated over token sequences: what each parsing step reads,
//! what it yields, where it leaves the reader, and which error it reports.
use vstd::prelude::*;
use crate::ast::{Register, SOperand, SExpression, SStatement, SFunction, SGlobal, SProgram};
use crate::text::parse_int;

verus! {

/// Where the reader stands: the position in the tokens and the names declared so far.
pub struct PState {
    pub pos: int,
    pub consts: Map<Seq<char>, i32>,
    pub aliases: Map<Seq<char>, Register>,
}

/// Why a parse fails.
pub enum PErr {
    /// A syntax error, with its message.
    Msg(Seq<char>),
    /// The tokens end where a store or a load needs one more token.
    Truncated,
    /// A step that read nothing; `laws::lemma_program_progress` shows that it never happens.
    Stuck,
}

/// The state at the start of a parse.
pub open spec fn initial_state() -> PState {
    PState { pos: 0, consts: Map::empty(), aliases: Map::empty() }
}

/// The token at the reader's position, if there is one.
pub open spec fn at(toks: Seq<Seq<char>>, st: PState) -> Option<Seq<char>> {
    if 0 <= st.pos < toks.len() {
        Some(toks[st.pos])
    } else {
        None
    }
}

/// Whether the token at the reader's position is `lit`.
pub open spec fn at_is(toks: Seq<Seq<char>>, st: PState, lit: Seq<char>) -> bool {
    at(toks, st) == Some(lit)
}

/// The state one token further on.
pub open spec fn adv(st: PState) -> PState {
    PState { pos: st.pos + 1, consts: st.consts, aliases: st.aliases }
}

/// The message for a token other than the one expected.
pub open spec fn expected_found(e: Seq<char>, t: Seq<char>) -> Seq<char> {
    "Expected '"@ + e + "', found '"@ + t + "'"@
}

/// The message for a missing expected token.
pub open spec fn expected_eof(e: Seq<char>) -> Seq<char> {
    "Expected '"@ + e + "', found EOF"@
}

/// The message for a token that names no register.
pub open spec fn unknown_register(t: Seq<char>) -> Seq<char> {
    "Unknown register: "@ + t
}

/// Reads the token `e`.
pub open spec fn expect(toks: Seq<Seq<char>>, st: PState, e: Seq<char>) -> Result<PState, PErr> {
    match at(toks, st) {
        Some(t) => if t == e { Ok(adv(st)) } else { Err(PErr::Msg(expected_found(e, t))) },
        None => Err(PErr::Msg(expected_eof(e))),
    }
}

/// Reads any token; `missing` is the message when there is none.
pub open spec fn take(toks: Seq<Seq<char>>, st: PState, missing: Seq<char>) -> Result<(Seq<char>, PState), PErr> {
    match at(toks, st) {
        Some(t) => Ok((t, adv(st))),
        None => Err(PErr::Msg(missing)),
    }
}

/// Reads a token that must be there.
pub open spec fn take_present(toks: Seq<Seq<char>>, st: PState) -> Result<(Seq<char>, PState), PErr> {
    match at(toks, st) {
        Some(t) => Ok((t, adv(st))),
        None => Err(PErr::Truncated),
    }
}

/// The register that a fixed name denotes: an ABI name, `fp`, or `x0` to `x31`.
pub open spec fn fixed_register(t: Seq<char>) -> Option<Register> {
    if t == "x0"@ || t == "zero"@ { Some(Register::Zero) }
    else if t == "ra"@ || t == "x1"@ { Some(Register::Ra) }
    else if t == "sp"@ || t == "x2"@ { Some(Register::Sp) }
    else if t == "gp"@ || t == "x3"@ { Some(Register::Gp) }
    else if t == "tp"@ || t == "x4"@ { Some(Register::Tp) }
    else if t == "a0"@ || t == "x10"@ { Some(Register::A0) }
    else if t == "a1"@ || t == "x11"@ { Some(Register::A1) }
    else if t == "a2"@ || t == "x12"@ { Some(Register::A2) }
    else if t == "a3"@ || t == "x13"@ { Some(Register::A3) }
    else if t == "a4"@ || t == "x14"@ { Some(Register::A4) }
    else if t == "a5"@ || t == "x15"@ { Some(Register::A5) }
    else if t == "a6"@ || t == "x16"@ { Some(Register::A6) }
    else if t == "a7"@ || t == "x17"@ { Some(Register::A7) }
    else if t == "t0"@ || t == "x5"@ { Some(Register::T0) }
    else if t == "t1"@ || t == "x6"@ { Some(Register::T1) }
    else if t == "t2"@ || t == "x7"@ { Some(Register::T2) }
    else if t == "t3"@ || t == "x28"@ { Some(Register::T3) }
    else if t == "t4"@ || t == "x29"@ { Some(Register::T4) }
    else if t == "t5"@ || t == "x30"@ { Some(Register::T5) }
    else if t == "t6"@ || t == "x31"@ { Some(Register::T6) }
    else if t == "s0"@ || t == "fp"@ || t == "x8"@ { Some(Register::S0) }
    else if t == "s1"@ || t == "x9"@ { Some(Register::S1) }
    else if t == "s2"@ || t == "x18"@ { Some(Register::S2) }
    else if t == "s3"@ || t == "x19"@ { Some(Register::S3) }
    else if t == "s4"@ || t == "x20"@ { Some(Register::S4) }
    else if t == "s5"@ || t == "x21"@ { Some(Register::S5) }
    else if t == "s6"@ || t == "x22"@ { Some(Register::S6) }
    else if t == "s7"@ || t == "x23"@ { Some(Register::S7) }
    else if t == "s8"@ || t == "x24"@ { Some(Register::S8) }
    else if t == "s9"@ || t == "x25"@ { Some(Register::S9) }
    else if t == "s10"@ || t == "x26"@ { Some(Register::S10) }
    else if t == "s11"@ || t == "x27"@ { Some(Register::S11) }
    else { None }
}

/// The register a token denotes: an alias first, then a fixed name.
pub open spec fn register_of(aliases: Map<Seq<char>, Register>, t: Seq<char>) -> Option<Register> {
    if aliases.contains_key(t) {
        Some(aliases[t])
    } else {
        fixed_register(t)
    }
}

/// Reads a register from the token `t`.
pub open spec fn register(aliases: Map<Seq<char>, Register>, t: Seq<char>) -> Result<Register, PErr> {
    match register_of(aliases, t) {
        Some(r) => Ok(r),
        None => Err(PErr::Msg(unknown_register(t))),
    }
}

/// The value of a token that is a constant's name or a decimal integer.
pub open spec fn number(consts: Map<Seq<char>, i32>, t: Seq<char>) -> Option<i32> {
    if consts.contains_key(t) {
        Some(consts[t])
    } else {
        parse_int(t, 10)
    }
}

/// Two's complement negation: `-v`, where `i32::MIN` stands for itself.
pub open spec fn negate(v: i32) -> i32 {
    if v == i32::MIN { v } else { (-v) as i32 }
}

/// Whether a token starts with `0x`.
pub open spec fn has_hex_prefix(t: Seq<char>) -> bool {
    t.len() >= 2 && t[0] == '0' && t[1] == 'x'
}

/// The token with every leading `0x` removed.
pub open spec fn strip_hex(t: Seq<char>) -> Seq<char>
    decreases t.len(),
{
    if has_hex_prefix(t) { strip_hex(t.skip(2)) } else { t }
}

/// The text with every leading `"` removed.
pub open spec fn strip_leading_quotes(t: Seq<char>) -> Seq<char>
    decreases t.len(),
{
    if t.len() > 0 && t[0] == '"' { strip_leading_quotes(t.skip(1)) } else { t }
}

/// The text with every trailing `"` removed.
pub open spec fn strip_trailing_quotes(t: Seq<char>) -> Seq<char>
    decreases t.len(),
{
    if t.len() > 0 && t.last() == '"' { strip_trailing_quotes(t.drop_last()) } else { t }
}

/// The contents of a string literal token: the token without its quotes.
pub open spec fn trim_quotes(t: Seq<char>) -> Seq<char> {
    strip_trailing_quotes(strip_leading_quotes(t))
}

/// Reads an operand: a constant, a negated number, a string, a register, a number, or a label.
pub open spec fn operand(toks: Seq<Seq<char>>, st: PState) -> Result<(SOperand, PState), PErr> {
    match at(toks, st) {
        None => Err(PErr::Msg("Unexpected EOF"@)),
        Some(t) => {
            let s1 = adv(st);
            if st.consts.contains_key(t) {
                Ok((SOperand::Imm(st.consts[t]), s1))
            } else if t == "-"@ {
                match at(toks, s1) {
                    None => Err(PErr::Msg("Expected number after '-'"@)),
                    Some(v) => match number(st.consts, v) {
                        Some(n) => Ok((SOperand::Imm(negate(n)), adv(s1))),
                        None => Err(PErr::Msg("Invalid immediate value after '-': "@ + v)),
                    },
                }
            } else if t.len() > 0 && t[0] == '"' {
                Ok((SOperand::Str(trim_quotes(t)), s1))
            } else if register_of(st.aliases, t) is Some {
                Ok((SOperand::Reg(register_of(st.aliases, t)->0), s1))
            } else if has_hex_prefix(t) && parse_int(strip_hex(t), 16) is Some {
                Ok((SOperand::Imm(parse_int(strip_hex(t), 16)->0), s1))
            } else if parse_int(t, 10) is Some {
                Ok((SOperand::Imm(parse_int(t, 10)->0), s1))
            } else {
                Ok((SOperand::Label(t), s1))
            }
        },
    }
}

/// The value a `const` declaration gives: a hexadecimal literal after `0x`, or else a
/// constant's name or a decimal literal.
pub open spec fn constant_value(consts: Map<Seq<char>, i32>, v: Seq<char>) -> Option<i32> {
    if has_hex_prefix(v) {
        parse_int(strip_hex(v), 16)
    } else {
        number(consts, v)
    }
}

/// The value a `data` declaration gives: a constant's name, or else a hexadecimal literal
/// after `0x`, or a decimal literal.
pub open spec fn data_value(consts: Map<Seq<char>, i32>, v: Seq<char>) -> Option<i32> {
    if consts.contains_key(v) {
        Some(consts[v])
    } else {
        constant_value(consts, v)
    }
}

/// The value of a token: read as in a `const` declaration when `hex_first`, as in a `data`
/// declaration otherwise.
pub open spec fn value_of(consts: Map<Seq<char>, i32>, v: Seq<char>, hex_first: bool) -> Option<i32> {
    if hex_first { constant_value(consts, v) } else { data_value(consts, v) }
}

/// Reads a numeric value: a constant's name, a decimal literal or a `0x` hexadecimal literal,
/// or `-` followed by one of these. Yields the text written and its value, if it has one.
pub open spec fn signed_value(toks: Seq<Seq<char>>, st: PState, missing: Seq<char>, hex_first: bool)
    -> Result<((Seq<char>, Option<i32>), PState), PErr>
{
    match take(toks, st, missing) {
        Err(e) => Err(e),
        Ok((t, s1)) => if t == "-"@ && value_of(s1.consts, t, hex_first) is None {
            match take(toks, s1, missing) {
                Err(e) => Err(e),
                Ok((v, s2)) => {
                    let n = match value_of(s2.consts, v, hex_first) {
                        Some(x) => Some(negate(x)),
                        None => None,
                    };
                    Ok((("-"@ + v, n), s2))
                },
            }
        } else {
            Ok(((t, value_of(s1.consts, t, hex_first)), s1))
        },
    }
}

/// The message for a `const` value that denotes no number.
pub open spec fn invalid_constant(text: Seq<char>) -> Seq<char> {
    if has_hex_prefix(text) {
        "Invalid hex constant: "@ + text
    } else {
        "Invalid integer constant: "@ + text
    }
}

/// Reads `const NAME = VALUE` and binds the name.
pub open spec fn const_decl(toks: Seq<Seq<char>>, st: PState) -> Result<((), PState), PErr> {
    match expect(toks, st, "const"@) {
        Err(e) => Err(e),
        Ok(s1) => match take(toks, s1, "Expected constant name"@) {
            Err(e) => Err(e),
            Ok((name, s2)) => match expect(toks, s2, "="@) {
                Err(e) => Err(e),
                Ok(s3) => match signed_value(toks, s3, "Expected value"@, true) {
                    Err(e) => Err(e),
                    Ok(((text, value), s4)) => match value {
                        Some(n) => Ok(((), PState { pos: s4.pos, consts: s4.consts.insert(name, n), aliases: s4.aliases })),
                        None => Err(PErr::Msg(invalid_constant(text))),
                    },
                },
            },
        },
    }
}

/// Reads `alias NAME = REGISTER` and binds the name.
pub open spec fn alias_decl(toks: Seq<Seq<char>>, st: PState) -> Result<((), PState), PErr> {
    match expect(toks, st, "alias"@) {
        Err(e) => Err(e),
        Ok(s1) => match take(toks, s1, "Expected alias name"@) {
            Err(e) => Err(e),
            Ok((name, s2)) => match expect(toks, s2, "="@) {
                Err(e) => Err(e),
                Ok(s3) => match take(toks, s3, "Expected register"@) {
                    Err(e) => Err(e),
                    Ok((rt, s4)) => match register(s4.aliases, rt) {
                        Err(e) => Err(e),
                        Ok(r) => Ok(((), PState { pos: s4.pos, consts: s4.consts, aliases: s4.aliases.insert(name, r) })),
                    },
                },
            },
        },
    }
}

/// Reads `data NAME[SIZE]` or `data NAME = VALUE`.
pub open spec fn data_decl(toks: Seq<Seq<char>>, st: PState) -> Result<(SGlobal, PState), PErr> {
    match expect(toks, st, "data"@) {
        Err(e) => Err(e),
        Ok(s1) => match take(toks, s1, "Expected global name"@) {
            Err(e) => Err(e),
            Ok((name, s2)) => if at_is(toks, s2, "["@) {
                match take(toks, adv(s2), "Expected array size"@) {
                    Err(e) => Err(e),
                    Ok((t, s3)) => match data_value(s3.consts, t) {
                        None => Err(PErr::Msg("Invalid size"@)),
                        Some(size) => match expect(toks, s3, "]"@) {
                            Err(e) => Err(e),
                            Ok(s4) => Ok((SGlobal::Array { name, size }, s4)),
                        },
                    },
                }
            } else {
                match expect(toks, s2, "="@) {
                    Err(e) => Err(e),
                    Ok(s3) => match signed_value(toks, s3, "Expected value"@, false) {
                        Err(e) => Err(e),
                        Ok(((_text, v), s4)) => match v {
                            None => Err(PErr::Msg("Invalid value"@)),
                            Some(value) => Ok((SGlobal::Scalar { name, value }, s4)),
                        },
                    },
                }
            },
        },
    }
}

/// The branch opcode for a comparison operator written between its operands.
pub open spec fn relation_opcode(r: Seq<char>) -> Option<Seq<char>> {
    if r == "=="@ { Some("beq"@) }
    else if r == "!="@ { Some("bne"@) }
    else if r == "<"@ { Some("blt"@) }
    else if r == ">="@ { Some("bge"@) }
    else if r == ">"@ { Some("bgt"@) }
    else if r == "<="@ { Some("ble"@) }
    else { None }
}

/// Reads a loop or branch condition: `LEFT REL RIGHT`, or `OP LEFT [,] RIGHT`;
/// `missing_op` is the message when the tokens end at once.
pub open spec fn condition(toks: Seq<Seq<char>>, st: PState, missing_op: Seq<char>)
    -> Result<((Seq<char>, Register, SOperand), PState), PErr>
{
    let rel = at(toks, adv(st));
    if at(toks, st) is Some && rel is Some && relation_opcode(rel->0) is Some {
        match register(st.aliases, at(toks, st)->0) {
            Err(e) => Err(e),
            Ok(left) => match operand(toks, adv(adv(st))) {
                Err(e) => Err(e),
                Ok((right, s3)) => Ok(((relation_opcode(rel->0)->0, left, right), s3)),
            },
        }
    } else {
        match take(toks, st, missing_op) {
            Err(e) => Err(e),
            Ok((op, s1)) => match take(toks, s1, "Expected reg"@) {
                Err(e) => Err(e),
                Ok((lt, s2)) => match register(s2.aliases, lt) {
                    Err(e) => Err(e),
                    Ok(left) => {
                        let s3 = if at_is(toks, s2, ","@) { adv(s2) } else { s2 };
                        match operand(toks, s3) {
                            Err(e) => Err(e),
                            Ok((right, s4)) => Ok(((op, left, right), s4)),
                        }
                    },
                },
            },
        }
    }
}

/// Reads the separator between the parts of a `for` header: `;` or `,`.
pub open spec fn separator(toks: Seq<Seq<char>>, st: PState) -> Result<PState, PErr> {
    if at_is(toks, st, ";"@) { Ok(adv(st)) } else { expect(toks, st, ","@) }
}

/// The operator name of an infix arithmetic token.
pub open spec fn arith_opcode(t: Seq<char>) -> Option<Seq<char>> {
    if t == "+"@ { Some("add"@) }
    else if t == "-"@ { Some("sub"@) }
    else if t == "*"@ { Some("mul"@) }
    else if t == "/"@ { Some("div"@) }
    else if t == "%"@ { Some("rem"@) }
    else { None }
}

/// The rest of `let TARGET = LEFT`: nothing more, or an infix operator and a right operand.
pub open spec fn math_rest(toks: Seq<Seq<char>>, st: PState, target: Register, left: SOperand)
    -> Result<(SStatement, PState), PErr>
{
    let code = match at(toks, st) { Some(t) => arith_opcode(t), None => None };
    match code {
        None => Ok((SStatement::Let { target, value: SExpression::Simple(left) }, st)),
        Some(op) => match operand(toks, adv(st)) {
            Err(e) => Err(e),
            Ok((right, s2)) => {
                let value = match right {
                    SOperand::Imm(v) => if op == "add"@ {
                        SExpression::AluCall { opcode: "addi"@, operands: seq![left, right] }
                    } else if op == "sub"@ {
                        SExpression::AluCall { opcode: "addi"@, operands: seq![left, SOperand::Imm(negate(v))] }
                    } else {
                        SExpression::AluCall { opcode: op, operands: seq![left, right] }
                    },
                    _ => SExpression::AluCall { opcode: op, operands: seq![left, right] },
                };
                Ok((SStatement::Let { target, value }, s2))
            },
        },
    }
}

/// Whether a token can only start an operand (and so is no mnemonic or label).
pub open spec fn is_standard_operand(st: PState, t: Seq<char>) -> bool {
    ||| (t.len() > 0 && t[0] == '"')
    ||| has_hex_prefix(t)
    ||| parse_int(t, 10) is Some
    ||| t == "-"@
    ||| register_of(st.aliases, t) is Some
    ||| st.consts.contains_key(t)
}

/// Whether a mnemonic names a load.
pub open spec fn is_load_mnemonic(n: Seq<char>) -> bool {
    n.len() > 0 && n[0] == 'l' && n != "lui"@ && n != "li"@
}

/// The operands of a mnemonic call, up to the closing parenthesis.
pub open spec fn alu_args(toks: Seq<Seq<char>>, st: PState, acc: Seq<SOperand>)
    -> Result<(Seq<SOperand>, PState), PErr>
    decreases toks.len() - st.pos,
{
    match at(toks, st) {
        None => Ok((acc, st)),
        Some(t) => if t == ")"@ {
            Ok((acc, st))
        } else if t == ","@ {
            alu_args(toks, adv(st), acc)
        } else {
            match operand(toks, st) {
                Err(e) => Err(e),
                Ok((o, s1)) => if st.pos < s1.pos <= toks.len() {
                    alu_args(toks, s1, acc.push(o))
                } else {
                    Err(PErr::Stuck)
                },
            }
        },
    }
}

/// The arguments of a load mnemonic: `OFFSET(BASE))` or `OFFSET, BASE)`.
pub open spec fn load_args(toks: Seq<Seq<char>>, st: PState, target: Register, name: Seq<char>)
    -> Result<(SStatement, PState), PErr>
{
    match take_present(toks, st) {
        Err(e) => Err(e),
        Ok((ot, s1)) => match number(s1.consts, ot) {
            None => Err(PErr::Msg("Invalid offset"@)),
            Some(offset) => if at_is(toks, s1, ","@) {
                match take_present(toks, adv(s1)) {
                    Err(e) => Err(e),
                    Ok((bt, s2)) => match register(s2.aliases, bt) {
                        Err(e) => Err(e),
                        Ok(base) => match expect(toks, s2, ")"@) {
                            Err(e) => Err(e),
                            Ok(s3) => Ok((SStatement::Let {
                                target,
                                value: SExpression::Load { opcode: name, offset, base },
                            }, s3)),
                        },
                    },
                }
            } else {
                match expect(toks, s1, "("@) {
                    Err(e) => Err(e),
                    Ok(s2) => match take_present(toks, s2) {
                        Err(e) => Err(e),
                        Ok((bt, s3)) => match register(s3.aliases, bt) {
                            Err(e) => Err(e),
                            Ok(base) => match expect(toks, s3, ")"@) {
                                Err(e) => Err(e),
                                Ok(s4) => match expect(toks, s4, ")"@) {
                                    Err(e) => Err(e),
                                    Ok(s5) => Ok((SStatement::Let {
                                        target,
                                        value: SExpression::Load { opcode: name, offset, base },
                                    }, s5)),
                                },
                            },
                        },
                    },
                }
            },
        },
    }
}

/// A `let` statement, after the keyword.
pub open spec fn let_statement(toks: Seq<Seq<char>>, st: PState) -> Result<(SStatement, PState), PErr> {
    match take(toks, st, "Expected target"@) {
        Err(e) => Err(e),
        Ok((tt, s1)) => match register(s1.aliases, tt) {
            Err(e) => Err(e),
            Ok(target) => match expect(toks, s1, "="@) {
                Err(e) => Err(e),
                Ok(s2) => match at(toks, s2) {
                    None => Err(PErr::Msg("Unexpected EOF"@)),
                    Some(next) => if is_standard_operand(s2, next) {
                        match operand(toks, s2) {
                            Err(e) => Err(e),
                            Ok((left, s3)) => math_rest(toks, s3, target, left),
                        }
                    } else {
                        let s3 = adv(s2);
                        if at_is(toks, s3, "("@) {
                            if is_load_mnemonic(next) {
                                load_args(toks, adv(s3), target, next)
                            } else {
                                match alu_args(toks, adv(s3), Seq::empty()) {
                                    Err(e) => Err(e),
                                    Ok((ops, s4)) => match expect(toks, s4, ")"@) {
                                        Err(e) => Err(e),
                                        Ok(s5) => Ok((SStatement::Let {
                                            target,
                                            value: SExpression::AluCall { opcode: next, operands: ops },
                                        }, s5)),
                                    },
                                }
                            }
                        } else {
                            math_rest(toks, s3, target, SOperand::Label(next))
                        }
                    },
                },
            },
        },
    }
}

/// A store statement `OP(SRC [,] OFFSET(BASE))`, after the opcode.
pub open spec fn store_statement(toks: Seq<Seq<char>>, st: PState, opcode: Seq<char>)
    -> Result<(SStatement, PState), PErr>
{
    match expect(toks, st, "("@) {
        Err(e) => Err(e),
        Ok(s1) => match take_present(toks, s1) {
            Err(e) => Err(e),
            Ok((srct, s2)) => match register(s2.aliases, srct) {
                Err(e) => Err(e),
                Ok(src) => {
                    let s3 = if at_is(toks, s2, ","@) { adv(s2) } else { s2 };
                    match take_present(toks, s3) {
                        Err(e) => Err(e),
                        Ok((ot, s4)) => match number(s4.consts, ot) {
                            None => Err(PErr::Msg("Invalid offset: "@ + ot)),
                            Some(offset) => match expect(toks, s4, "("@) {
                                Err(e) => Err(e),
                                Ok(s5) => match take_present(toks, s5) {
                                    Err(e) => Err(e),
                                    Ok((bt, s6)) => match register(s6.aliases, bt) {
                                        Err(e) => Err(e),
                                        Ok(base) => match expect(toks, s6, ")"@) {
                                            Err(e) => Err(e),
                                            Ok(s7) => match expect(toks, s7, ")"@) {
                                                Err(e) => Err(e),
                                                Ok(s8) => Ok((SStatement::Store { opcode, src, offset, base }, s8)),
                                            },
                                        },
                                    },
                                },
                            },
                        },
                    }
                },
            },
        },
    }
}

/// Whether `s` lies further on than `st`, within the tokens.
pub open spec fn advanced(toks: Seq<Seq<char>>, st: PState, s: PState) -> bool {
    st.pos < s.pos <= toks.len()
}

/// A statement, starting at its keyword.
pub open spec fn statement(toks: Seq<Seq<char>>, st: PState) -> Result<(SStatement, PState), PErr>
    decreases toks.len() - st.pos, 1nat,
{
    match at(toks, st) {
        None => Err(PErr::Msg("Unexpected EOF"@)),
        Some(t) => {
            let s1 = adv(st);
            if t == "ret"@ {
                Ok((SStatement::Return, s1))
            } else if t == "ecall"@ {
                Ok((SStatement::Ecall, s1))
            } else if t == "call"@ {
                match take(toks, s1, "Expected function name"@) {
                    Err(e) => Err(e),
                    Ok((n, s2)) => Ok((SStatement::Call { func_name: n }, s2)),
                }
            } else if t == "for"@ {
                for_statement(toks, s1)
            } else if t == "while"@ {
                while_statement(toks, s1)
            } else if t == "if"@ {
                if_statement(toks, s1)
            } else if t == "sw"@ || t == "sb"@ || t == "sh"@ || t == "sd"@ {
                store_statement(toks, s1, t)
            } else if t == "let"@ {
                let_statement(toks, s1)
            } else {
                Err(PErr::Msg("Unknown token: "@ + t))
            }
        },
    }
}

/// A `for` statement, after the keyword:
/// `(INIT SEP CONDITION SEP STEP) { BODY }`, where SEP is `;` or `,`.
pub open spec fn for_statement(toks: Seq<Seq<char>>, st: PState) -> Result<(SStatement, PState), PErr>
    decreases toks.len() - st.pos, 0nat,
{
    match expect(toks, st, "("@) {
        Err(e) => Err(e),
        Ok(s1) => if !advanced(toks, st, s1) { Err(PErr::Stuck) } else {
            match statement(toks, s1) {
                Err(e) => Err(e),
                Ok((init, s2)) => match separator(toks, s2) {
                    Err(e) => Err(e),
                    Ok(s3) => match condition(toks, s3, "Expected condition op"@) {
                        Err(e) => Err(e),
                        Ok(((op, left, right), s4)) => match separator(toks, s4) {
                            Err(e) => Err(e),
                            Ok(s5) => if !advanced(toks, st, s5) { Err(PErr::Stuck) } else {
                                match statement(toks, s5) {
                                    Err(e) => Err(e),
                                    Ok((step, s6)) => match expect(toks, s6, ")"@) {
                                        Err(e) => Err(e),
                                        Ok(s7) => match expect(toks, s7, "{"@) {
                                            Err(e) => Err(e),
                                            Ok(s8) => if !advanced(toks, st, s8) { Err(PErr::Stuck) } else {
                                                match block(toks, s8) {
                                                    Err(e) => Err(e),
                                                    Ok((body, s9)) => match expect(toks, s9, "}"@) {
                                                        Err(e) => Err(e),
                                                        Ok(s10) => Ok((SStatement::For {
                                                            init: Box::new(init),
                                                            condition_op: op,
                                                            cond_left: left,
                                                            cond_right: right,
                                                            step: Box::new(step),
                                                            body,
                                                        }, s10)),
                                                    },
                                                }
                                            },
                                        },
                                    },
                                }
                            },
                        },
                    },
                },
            }
        },
    }
}

/// A `while` statement, after the keyword: `(CONDITION) { BODY }`.
pub open spec fn while_statement(toks: Seq<Seq<char>>, st: PState) -> Result<(SStatement, PState), PErr>
    decreases toks.len() - st.pos, 0nat,
{
    match expect(toks, st, "("@) {
        Err(e) => Err(e),
        Ok(s1) => match condition(toks, s1, "Expected op"@) {
            Err(e) => Err(e),
            Ok(((op, left, right), s2)) => match expect(toks, s2, ")"@) {
                Err(e) => Err(e),
                Ok(s3) => match expect(toks, s3, "{"@) {
                    Err(e) => Err(e),
                    Ok(s4) => if !advanced(toks, st, s4) { Err(PErr::Stuck) } else {
                        match block(toks, s4) {
                            Err(e) => Err(e),
                            Ok((body, s5)) => match expect(toks, s5, "}"@) {
                                Err(e) => Err(e),
                                Ok(s6) => Ok((SStatement::While { condition_op: op, left, right, body }, s6)),
                            },
                        }
                    },
                },
            },
        },
    }
}

/// An `if` statement, after the keyword: `(CONDITION) { THEN }` with an optional `else { ELSE }`.
pub open spec fn if_statement(toks: Seq<Seq<char>>, st: PState) -> Result<(SStatement, PState), PErr>
    decreases toks.len() - st.pos, 0nat,
{
    match expect(toks, st, "("@) {
        Err(e) => Err(e),
        Ok(s1) => match condition(toks, s1, "Expected op"@) {
            Err(e) => Err(e),
            Ok(((op, left, right), s2)) => match expect(toks, s2, ")"@) {
                Err(e) => Err(e),
                Ok(s3) => match expect(toks, s3, "{"@) {
                    Err(e) => Err(e),
                    Ok(s4) => if !advanced(toks, st, s4) { Err(PErr::Stuck) } else {
                        match block(toks, s4) {
                            Err(e) => Err(e),
                            Ok((then_block, s5)) => match expect(toks, s5, "}"@) {
                                Err(e) => Err(e),
                                Ok(s6) => if at_is(toks, s6, "else"@) {
                                    match expect(toks, adv(s6), "{"@) {
                                        Err(e) => Err(e),
                                        Ok(s8) => if !advanced(toks, st, s8) { Err(PErr::Stuck) } else {
                                            match block(toks, s8) {
                                                Err(e) => Err(e),
                                                Ok((else_block, s9)) => match expect(toks, s9, "}"@) {
                                                    Err(e) => Err(e),
                                                    Ok(s10) => Ok((SStatement::If {
                                                        condition_op: op,
                                                        left,
                                                        right,
                                                        then_block,
                                                        else_block: Some(else_block),
                                                    }, s10)),
                                                },
                                            }
                                        },
                                    }
                                } else {
                                    Ok((SStatement::If { condition_op: op, left, right, then_block, else_block: None }, s6))
                                },
                            },
                        }
                    },
                },
            },
        },
    }
}

/// The statements of a block up to its `}` (or an `else`), after those in `acc`;
/// `alias` and `const` declarations among them bind names.
pub open spec fn block_from(toks: Seq<Seq<char>>, st: PState, acc: Seq<SStatement>)
    -> Result<(Seq<SStatement>, PState), PErr>
    decreases toks.len() - st.pos, 2nat,
{
    match at(toks, st) {
        None => Err(PErr::Msg("Unexpected EOF in block"@)),
        Some(t) => if t == "}"@ || t == "else"@ {
            Ok((acc, st))
        } else if t == "alias"@ {
            match alias_decl(toks, st) {
                Err(e) => Err(e),
                Ok((_u, s2)) => if !advanced(toks, st, s2) { Err(PErr::Stuck) } else { block_from(toks, s2, acc) },
            }
        } else if t == "const"@ {
            match const_decl(toks, st) {
                Err(e) => Err(e),
                Ok((_u, s2)) => if !advanced(toks, st, s2) { Err(PErr::Stuck) } else { block_from(toks, s2, acc) },
            }
        } else {
            match statement(toks, st) {
                Err(e) => Err(e),
                Ok((s, s2)) => if !advanced(toks, st, s2) { Err(PErr::Stuck) } else { block_from(toks, s2, acc.push(s)) },
            }
        },
    }
}

/// The statements of a block up to its closing `}`.
pub open spec fn block(toks: Seq<Seq<char>>, st: PState) -> Result<(Seq<SStatement>, PState), PErr>
    decreases toks.len() - st.pos, 3nat,
{
    block_from(toks, st, Seq::empty())
}

/// The position of the first `)` at or after `p`, or the end of the tokens.
pub open spec fn skip_params(toks: Seq<Seq<char>>, p: int) -> int
    decreases toks.len() - p,
{
    if 0 <= p < toks.len() && toks[p] != ")"@ { skip_params(toks, p + 1) } else { p }
}

/// A function `fn NAME(PARAMS) { BODY }`; the parameter list is skipped.
pub open spec fn function(toks: Seq<Seq<char>>, st: PState) -> Result<(SFunction, PState), PErr> {
    match expect(toks, st, "fn"@) {
        Err(e) => Err(e),
        Ok(s1) => match take(toks, s1, "Expected function name"@) {
            Err(e) => Err(e),
            Ok((name, s2)) => match expect(toks, s2, "("@) {
                Err(e) => Err(e),
                Ok(s3) => {
                    let s4 = PState { pos: skip_params(toks, s3.pos), consts: s3.consts, aliases: s3.aliases };
                    match expect(toks, s4, ")"@) {
                        Err(e) => Err(e),
                        Ok(s5) => match expect(toks, s5, "{"@) {
                            Err(e) => Err(e),
                            Ok(s6) => match block(toks, s6) {
                                Err(e) => Err(e),
                                Ok((body, s7)) => match expect(toks, s7, "}"@) {
                                    Err(e) => Err(e),
                                    Ok(s8) => Ok((SFunction { name, body }, s8)),
                                },
                            },
                        },
                    }
                },
            },
        },
    }
}

/// The top-level items from the reader's position to the end of the tokens,
/// after the functions `fs` and globals `gs` already read.
pub open spec fn program_from(toks: Seq<Seq<char>>, st: PState, fs: Seq<SFunction>, gs: Seq<SGlobal>)
    -> Result<(SProgram, PState), PErr>
    decreases toks.len() - st.pos,
{
    match at(toks, st) {
        None => Ok((SProgram { globals: gs, functions: fs }, st)),
        Some(t) => if t == "fn"@ {
            match function(toks, st) {
                Err(e) => Err(e),
                Ok((f, s2)) => if !advanced(toks, st, s2) { Err(PErr::Stuck) } else { program_from(toks, s2, fs.push(f), gs) },
            }
        } else if t == "const"@ {
            match const_decl(toks, st) {
                Err(e) => Err(e),
                Ok((_u, s2)) => if !advanced(toks, st, s2) { Err(PErr::Stuck) } else { program_from(toks, s2, fs, gs) },
            }
        } else if t == "alias"@ {
            match alias_decl(toks, st) {
                Err(e) => Err(e),
                Ok((_u, s2)) => if !advanced(toks, st, s2) { Err(PErr::Stuck) } else { program_from(toks, s2, fs, gs) },
            }
        } else if t == "data"@ {
            match data_decl(toks, st) {
                Err(e) => Err(e),
                Ok((g, s2)) => if !advanced(toks, st, s2) { Err(PErr::Stuck) } else { program_from(toks, s2, fs, gs.push(g)) },
            }
        } else {
            Err(PErr::Msg("Unexpected token at top level: "@ + t))
        },
    }
}

/// A whole program, read from the start of the tokens.
pub open spec fn program(toks: Seq<Seq<char>>) -> Result<(SProgram, PState), PErr> {
    program_from(toks, initial_state(), Seq::empty(), Seq::empty())
}

} // verus!
