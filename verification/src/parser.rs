//! The recursive-descent parser: tokens to a `Program`, verified against `grammar`.
use vstd::prelude::*;
use crate::ast::{functions_view, globals_view, Register, Operand, Global, Expression, Statement, Function, Program, SOperand, SFunction, SGlobal, SProgram,
    block_view, operands_view};
use crate::grammar::{separator, statement, for_statement, while_statement, if_statement, block, block_from, skip_params, function, program_from, advanced, condition, relation_opcode, math_rest, arith_opcode, alu_args, load_args, store_statement, let_statement, is_standard_operand, is_load_mnemonic, const_decl, alias_decl, data_decl, PState, PErr, at, at_is, adv, expect, take, take_present, fixed_register,
    register_of, register, number, negate, constant_value, data_value, value_of, signed_value, invalid_constant, has_hex_prefix, strip_hex, strip_leading_quotes,
    strip_trailing_quotes, trim_quotes, operand, expected_found, expected_eof, unknown_register};
use crate::lexer::texts;
use crate::table::NameTable;
use crate::text::{is_text, chars_of, string_of, parse_int, parse_int_at, append};

verus! {

/// A parse failure.
#[derive(Debug, PartialEq, Eq)]
pub enum ParseError {
    /// A syntax error, with its message.
    Message(String),
    /// The tokens end where a store or a load needs one more token.
    Truncated,
}

impl View for ParseError {
    type V = PErr;

    open spec fn view(&self) -> PErr {
        match self {
            ParseError::Message(m) => PErr::Msg(m@),
            ParseError::Truncated => PErr::Truncated,
        }
    }
}

impl ParseError {
    /// The message of a syntax error; for a truncated input, the text that names it.
    pub fn message(&self) -> (m: String)
        ensures
            self matches ParseError::Message(s) ==> m@ == s@,
            self is Truncated ==> m@ == "Unexpected end of input"@,
    {
        match self {
            ParseError::Message(s) => s.clone(),
            ParseError::Truncated => "Unexpected end of input".to_owned(),
        }
    }
}

/// Whether an executable result agrees with the grammar's outcome, the reader ending at `after`.
pub open spec fn agrees<T, V>(
    r: Result<T, ParseError>,
    after: PState,
    expected: Result<(V, PState), PErr>,
    view: spec_fn(T) -> V,
) -> bool {
    match expected {
        Ok((v, s)) => match r {
            Ok(x) => view(x) == v && after == s,
            Err(_) => false,
        },
        Err(e) => match r {
            Ok(_) => false,
            Err(x) => x@ == e,
        },
    }
}

/// Whether the result of a step that yields no value agrees with the grammar's outcome.
pub open spec fn agrees_step(r: Result<(), ParseError>, after: PState, expected: Result<PState, PErr>) -> bool {
    match expected {
        Ok(s) => r is Ok && after == s,
        Err(e) => match r {
            Ok(_) => false,
            Err(x) => x@ == e,
        },
    }
}

fn message(prefix: &str, t: &String) -> (e: ParseError)
    ensures
        e@ == PErr::Msg(prefix@ + t@),
{
    let mut m = prefix.to_owned();
    append(&mut m, t.as_str());
    ParseError::Message(m)
}

fn fixed_message(text: &str) -> (e: ParseError)
    ensures
        e@ == PErr::Msg(text@),
{
    ParseError::Message(text.to_owned())
}

/// The parser: the tokens, the reading position, and the constants and aliases declared so far.
pub struct Parser {
    tokens: Vec<String>,
    pos: usize,
    constants: NameTable<i32>,
    aliases: NameTable<Register>,
}

impl Parser {
    #[verifier::type_invariant]
    spec fn inv(&self) -> bool {
        self.pos <= self.tokens.len()
    }

    /// The texts of the tokens.
    pub closed spec fn toks(&self) -> Seq<Seq<char>> {
        texts(self.tokens@)
    }

    /// Where the reader stands.
    pub closed spec fn state(&self) -> PState {
        PState { pos: self.pos as int, consts: self.constants@, aliases: self.aliases@ }
    }

    /// A parser at the start of the tokens, with no names declared.
    pub fn new(tokens: Vec<String>) -> (p: Self)
        ensures
            p.toks() == texts(tokens@),
            p.state() == crate::grammar::initial_state(),
    {
        Parser { tokens, pos: 0, constants: NameTable::new(), aliases: NameTable::new() }
    }

    /// The token at the reader's position.
    pub fn peek(&self) -> (r: Option<&String>)
        ensures
            match at(self.toks(), self.state()) {
                Some(t) => r matches Some(x) && x@ == t,
                None => r is None,
            },
    {
        proof { use_type_invariant(self); }
        if self.pos < self.tokens.len() {
            Some(&self.tokens[self.pos])
        } else {
            None
        }
    }

    fn peek_is(&self, lit: &str) -> (r: bool)
        ensures
            r == at_is(self.toks(), self.state(), lit@),
    {
        proof { use_type_invariant(self); }
        if self.pos < self.tokens.len() {
            is_text(&self.tokens[self.pos], lit)
        } else {
            false
        }
    }

    /// Reads one token.
    fn next_token(&mut self) -> (r: Option<String>)
        ensures
            final(self).toks() == old(self).toks(),
            old(self).state().pos <= final(self).state().pos,
            match at(old(self).toks(), old(self).state()) {
                Some(t) => r matches Some(x) && x@ == t && final(self).state() == adv(old(self).state()),
                None => r is None && final(self).state() == old(self).state(),
            },
    {
        proof { use_type_invariant(&*self); }
        if self.pos < self.tokens.len() {
            let t = self.tokens[self.pos].clone();
            self.pos = self.pos + 1;
            Some(t)
        } else {
            None
        }
    }

    /// Reads the token `expected`.
    pub fn consume(&mut self, expected: &str) -> (r: Result<(), ParseError>)
        ensures
            final(self).toks() == old(self).toks(),
            old(self).state().pos <= final(self).state().pos,
            agrees_step(r, final(self).state(), expect(old(self).toks(), old(self).state(), expected@)),
            final(self).state() == (if at(old(self).toks(), old(self).state()) is Some {
                adv(old(self).state())
            } else {
                old(self).state()
            }),
    {
        match self.next_token() {
            Some(t) => {
                if is_text(&t, expected) {
                    Ok(())
                } else {
                    let mut m = "Expected '".to_owned();
                    append(&mut m, expected);
                    append(&mut m, "', found '");
                    append(&mut m, t.as_str());
                    append(&mut m, "'");
                    Err(ParseError::Message(m))
                }
            },
            None => {
                let mut m = "Expected '".to_owned();
                append(&mut m, expected);
                append(&mut m, "', found EOF");
                Err(ParseError::Message(m))
            },
        }
    }

    /// Reads any token; `missing` is the message when there is none.
    fn take_token(&mut self, missing: &str) -> (r: Result<String, ParseError>)
        ensures
            final(self).toks() == old(self).toks(),
            old(self).state().pos <= final(self).state().pos,
            agrees(r, final(self).state(), take(old(self).toks(), old(self).state(), missing@), |s: String| s@),
            final(self).state() == (if at(old(self).toks(), old(self).state()) is Some {
                adv(old(self).state())
            } else {
                old(self).state()
            }),
    {
        match self.next_token() {
            Some(t) => Ok(t),
            None => Err(fixed_message(missing)),
        }
    }

    /// Reads a token that must be there.
    fn take_present(&mut self) -> (r: Result<String, ParseError>)
        ensures
            final(self).toks() == old(self).toks(),
            old(self).state().pos <= final(self).state().pos,
            agrees(r, final(self).state(), take_present(old(self).toks(), old(self).state()), |s: String| s@),
    {
        match self.next_token() {
            Some(t) => Ok(t),
            None => Err(ParseError::Truncated),
        }
    }
}

/// The register a fixed name denotes.
pub fn fixed_register_of(t: &str) -> (r: Option<Register>)
    ensures
        r == fixed_register(t@),
{
    let s = t.to_owned();
    if is_text(&s, "x0") || is_text(&s, "zero") { Some(Register::Zero) }
    else if is_text(&s, "ra") || is_text(&s, "x1") { Some(Register::Ra) }
    else if is_text(&s, "sp") || is_text(&s, "x2") { Some(Register::Sp) }
    else if is_text(&s, "gp") || is_text(&s, "x3") { Some(Register::Gp) }
    else if is_text(&s, "tp") || is_text(&s, "x4") { Some(Register::Tp) }
    else if is_text(&s, "a0") || is_text(&s, "x10") { Some(Register::A0) }
    else if is_text(&s, "a1") || is_text(&s, "x11") { Some(Register::A1) }
    else if is_text(&s, "a2") || is_text(&s, "x12") { Some(Register::A2) }
    else if is_text(&s, "a3") || is_text(&s, "x13") { Some(Register::A3) }
    else if is_text(&s, "a4") || is_text(&s, "x14") { Some(Register::A4) }
    else if is_text(&s, "a5") || is_text(&s, "x15") { Some(Register::A5) }
    else if is_text(&s, "a6") || is_text(&s, "x16") { Some(Register::A6) }
    else if is_text(&s, "a7") || is_text(&s, "x17") { Some(Register::A7) }
    else if is_text(&s, "t0") || is_text(&s, "x5") { Some(Register::T0) }
    else if is_text(&s, "t1") || is_text(&s, "x6") { Some(Register::T1) }
    else if is_text(&s, "t2") || is_text(&s, "x7") { Some(Register::T2) }
    else if is_text(&s, "t3") || is_text(&s, "x28") { Some(Register::T3) }
    else if is_text(&s, "t4") || is_text(&s, "x29") { Some(Register::T4) }
    else if is_text(&s, "t5") || is_text(&s, "x30") { Some(Register::T5) }
    else if is_text(&s, "t6") || is_text(&s, "x31") { Some(Register::T6) }
    else if is_text(&s, "s0") || is_text(&s, "fp") || is_text(&s, "x8") { Some(Register::S0) }
    else if is_text(&s, "s1") || is_text(&s, "x9") { Some(Register::S1) }
    else if is_text(&s, "s2") || is_text(&s, "x18") { Some(Register::S2) }
    else if is_text(&s, "s3") || is_text(&s, "x19") { Some(Register::S3) }
    else if is_text(&s, "s4") || is_text(&s, "x20") { Some(Register::S4) }
    else if is_text(&s, "s5") || is_text(&s, "x21") { Some(Register::S5) }
    else if is_text(&s, "s6") || is_text(&s, "x22") { Some(Register::S6) }
    else if is_text(&s, "s7") || is_text(&s, "x23") { Some(Register::S7) }
    else if is_text(&s, "s8") || is_text(&s, "x24") { Some(Register::S8) }
    else if is_text(&s, "s9") || is_text(&s, "x25") { Some(Register::S9) }
    else if is_text(&s, "s10") || is_text(&s, "x26") { Some(Register::S10) }
    else if is_text(&s, "s11") || is_text(&s, "x27") { Some(Register::S11) }
    else { None }
}

/// The value of a token read as an integer in the radix.
fn int_value(t: &String, radix: u32) -> (r: Option<i32>)
    requires
        2 <= radix <= 36,
    ensures
        r == parse_int(t@, radix as int),
{
    let cs = chars_of(t.as_str());
    let r = parse_int_at(&cs, 0, cs.len(), radix);
    proof {
        assert(cs@.subrange(0, cs@.len() as int) == cs@);
    }
    r
}

/// The value of a token that starts with `0x`, every leading `0x` removed, read in hexadecimal.
#[verifier::spinoff_prover]
#[verifier::rlimit(30)]
fn hex_value(t: &String) -> (r: Option<i32>)
    ensures
        r == parse_int(strip_hex(t@), 16),
{
    let cs = chars_of(t.as_str());
    let mut i: usize = 0;
    proof {
        assert(cs@.skip(0) == cs@);
    }
    while cs.len() - i >= 2 && cs[i] == '0' && cs[i + 1] == 'x'
        invariant
            i <= cs.len(),
            strip_hex(cs@.skip(i as int)) == strip_hex(t@),
            cs@ == t@,
        decreases cs.len() - i,
    {
        proof {
            let rest = cs@.skip(i as int);
            assert(has_hex_prefix(rest));
            assert(rest.skip(2) == cs@.skip(i + 2));
        }
        i = i + 2;
    }
    proof {
        let rest = cs@.skip(i as int);
        assert(!has_hex_prefix(rest));
        assert(strip_hex(rest) == rest);
        assert(rest == cs@.subrange(i as int, cs@.len() as int));
    }
    parse_int_at(&cs, i, cs.len(), 16)
}

/// Two's complement negation.
fn negated(v: i32) -> (r: i32)
    ensures
        r == negate(v),
{
    if v == i32::MIN { v } else { -v }
}

/// Whether a token starts with `0x`.
fn starts_hex(t: &String) -> (r: bool)
    ensures
        r == has_hex_prefix(t@),
{
    let cs = chars_of(t.as_str());
    cs.len() >= 2 && cs[0] == '0' && cs[1] == 'x'
}

/// Whether a token starts with `"`.
fn starts_quote(t: &String) -> (r: bool)
    ensures
        r == (t@.len() > 0 && t@[0] == '"'),
{
    let cs = chars_of(t.as_str());
    cs.len() >= 1 && cs[0] == '"'
}

/// The contents of a string literal token.
fn quote_contents(t: &String) -> (r: String)
    ensures
        r@ == trim_quotes(t@),
{
    let cs = chars_of(t.as_str());
    let mut a: usize = 0;
    proof {
        assert(cs@.skip(0) == cs@);
    }
    while a < cs.len() && cs[a] == '"'
        invariant
            a <= cs.len(),
            cs@ == t@,
            strip_leading_quotes(cs@.skip(a as int)) == strip_leading_quotes(t@),
        decreases cs.len() - a,
    {
        proof {
            assert(cs@.skip(a as int).skip(1) == cs@.skip(a + 1));
        }
        a = a + 1;
    }
    let mut b: usize = cs.len();
    proof {
        assert(cs@.skip(a as int) == cs@.subrange(a as int, b as int));
    }
    while b > a && cs[b - 1] == '"'
        invariant
            a <= b <= cs.len(),
            strip_trailing_quotes(cs@.subrange(a as int, b as int)) == trim_quotes(t@),
        decreases b - a,
    {
        proof {
            assert(cs@.subrange(a as int, b as int).drop_last() == cs@.subrange(a as int, b - 1));
        }
        b = b - 1;
    }
    string_of(&cs, a, b)
}

impl Parser {
    /// The register a token denotes: an alias first, then a fixed name.
    pub fn parse_register(&self, token: &str) -> (r: Result<Register, ParseError>)
        ensures
            match register(self.state().aliases, token@) {
                Ok(reg) => r == Ok::<Register, ParseError>(reg),
                Err(e) => r matches Err(x) && x@ == e,
            },
    {
        match self.aliases.get(token) {
            Some(reg) => Ok(reg),
            None => match fixed_register_of(token) {
                Some(reg) => Ok(reg),
                None => {
                    let mut m = "Unknown register: ".to_owned();
                    append(&mut m, token);
                    Err(ParseError::Message(m))
                },
            },
        }
    }

    /// The value of a token that names a constant or is a decimal integer.
    fn number_of(&self, t: &String) -> (r: Option<i32>)
        ensures
            r == number(self.state().consts, t@),
    {
        match self.constants.get(t.as_str()) {
            Some(v) => Some(v),
            None => int_value(t, 10),
        }
    }

    /// The value of a `0x` hexadecimal literal, or else of a constant's name or a decimal literal.
    fn constant_value_of(&self, t: &String) -> (r: Option<i32>)
        ensures
            r == constant_value(self.state().consts, t@),
    {
        if starts_hex(t) { hex_value(t) } else { self.number_of(t) }
    }

    /// The value of a constant's name, or else of a `0x` hexadecimal or a decimal literal.
    fn data_value_of(&self, t: &String) -> (r: Option<i32>)
        ensures
            r == data_value(self.state().consts, t@),
    {
        match self.constants.get(t.as_str()) {
            Some(v) => Some(v),
            None => self.constant_value_of(t),
        }
    }

    /// The value of a token, read as in a `const` declaration when `hex_first`, as in a `data`
    /// declaration otherwise.
    fn value_of_token(&self, t: &String, hex_first: bool) -> (r: Option<i32>)
        ensures
            r == value_of(self.state().consts, t@, hex_first),
    {
        if hex_first { self.constant_value_of(t) } else { self.data_value_of(t) }
    }

    /// Reads a numeric value, possibly after `-`: the text written and its value.
    fn read_value(&mut self, missing: &str, hex_first: bool) -> (r: Result<(String, Option<i32>), ParseError>)
        ensures
            final(self).toks() == old(self).toks(),
            old(self).state().pos <= final(self).state().pos <= old(self).state().pos + 2,
            final(self).state().consts == old(self).state().consts,
            final(self).state().aliases == old(self).state().aliases,
            agrees(r, final(self).state(), signed_value(old(self).toks(), old(self).state(), missing@, hex_first),
                |x: (String, Option<i32>)| (x.0@, x.1)),
    {
        let t = self.take_token(missing)?;
        let direct = self.value_of_token(&t, hex_first);
        if is_text(&t, "-") && direct.is_none() {
            let v = self.take_token(missing)?;
            let n = match self.value_of_token(&v, hex_first) {
                Some(x) => Some(negated(x)),
                None => None,
            };
            let mut text = "-".to_owned();
            append(&mut text, v.as_str());
            Ok((text, n))
        } else {
            Ok((t, direct))
        }
    }

    /// Reads an operand.
    pub fn parse_operand(&mut self) -> (r: Result<Operand, ParseError>)
        ensures
            final(self).toks() == old(self).toks(),
            old(self).state().pos <= final(self).state().pos,
            agrees(r, final(self).state(), operand(old(self).toks(), old(self).state()), |o: Operand| o@),
    {
        let ghost st = self.state();
        let token = match self.next_token() {
            Some(t) => t,
            None => return Err(fixed_message("Unexpected EOF")),
        };
        if let Some(v) = self.constants.get(token.as_str()) {
            return Ok(Operand::Imm(v));
        }
        if is_text(&token, "-") {
            let vt = match self.next_token() {
                Some(t) => t,
                None => return Err(fixed_message("Expected number after '-'")),
            };
            return match self.number_of(&vt) {
                Some(n) => Ok(Operand::Imm(negated(n))),
                None => Err(message("Invalid immediate value after '-': ", &vt)),
            };
        }
        if starts_quote(&token) {
            return Ok(Operand::Str(quote_contents(&token)));
        }
        match self.parse_register(token.as_str()) {
            Ok(reg) => { return Ok(Operand::Reg(reg)); },
            Err(_) => {},
        }
        if starts_hex(&token) {
            if let Some(v) = hex_value(&token) {
                return Ok(Operand::Imm(v));
            }
        }
        if let Some(v) = int_value(&token, 10) {
            return Ok(Operand::Imm(v));
        }
        Ok(Operand::Label(token))
    }
}

impl Parser {
    /// Reads `const NAME = VALUE` and binds the name.
    pub fn parse_const(&mut self) -> (r: Result<(), ParseError>)
        ensures
            final(self).toks() == old(self).toks(),
            old(self).state().pos <= final(self).state().pos <= old(self).state().pos + 5,
            r is Ok ==> old(self).state().pos < final(self).state().pos,
            r is Err ==> final(self).state().consts == old(self).state().consts,
            final(self).state().aliases == old(self).state().aliases,
            agrees(r, final(self).state(), const_decl(old(self).toks(), old(self).state()), |u: ()| u),
    {
        self.consume("const")?;
        let name = self.take_token("Expected constant name")?;
        self.consume("=")?;
        let (text, v) = self.read_value("Expected value", true)?;
        let value = match v {
            Some(x) => x,
            None => {
                let m = if starts_hex(&text) {
                    message("Invalid hex constant: ", &text)
                } else {
                    message("Invalid integer constant: ", &text)
                };
                return Err(m);
            },
        };
        let mut table = NameTable::new();
        std::mem::swap(&mut table, &mut self.constants);
        table.insert(name, value);
        self.constants = table;
        Ok(())
    }

    /// Reads `alias NAME = REGISTER` and binds the name.
    pub fn parse_alias(&mut self) -> (r: Result<(), ParseError>)
        ensures
            final(self).toks() == old(self).toks(),
            old(self).state().pos <= final(self).state().pos <= old(self).state().pos + 4,
            r is Ok ==> old(self).state().pos < final(self).state().pos,
            final(self).state().consts == old(self).state().consts,
            r is Err ==> final(self).state().aliases == old(self).state().aliases,
            agrees(r, final(self).state(), alias_decl(old(self).toks(), old(self).state()), |u: ()| u),
    {
        self.consume("alias")?;
        let name = self.take_token("Expected alias name")?;
        self.consume("=")?;
        let rt = self.take_token("Expected register")?;
        let reg = self.parse_register(rt.as_str())?;
        let mut table = NameTable::new();
        std::mem::swap(&mut table, &mut self.aliases);
        table.insert(name, reg);
        self.aliases = table;
        Ok(())
    }

    /// Reads `data NAME[SIZE]` or `data NAME = VALUE`.
    pub fn parse_data(&mut self) -> (r: Result<Global, ParseError>)
        ensures
            final(self).toks() == old(self).toks(),
            old(self).state().pos <= final(self).state().pos <= old(self).state().pos + 5,
            r is Ok ==> old(self).state().pos < final(self).state().pos,
            final(self).state().consts == old(self).state().consts,
            final(self).state().aliases == old(self).state().aliases,
            agrees(r, final(self).state(), data_decl(old(self).toks(), old(self).state()), |g: Global| g@),
    {
        self.consume("data")?;
        let name = self.take_token("Expected global name")?;
        if self.peek_is("[") {
            self.consume("[")?;
            let st = self.take_token("Expected array size")?;
            let size = match self.data_value_of(&st) {
                Some(v) => v,
                None => return Err(fixed_message("Invalid size")),
            };
            self.consume("]")?;
            return Ok(Global::Array { name, size });
        }
        self.consume("=")?;
        let (_text, v) = self.read_value("Expected value", false)?;
        let value = match v {
            Some(x) => x,
            None => return Err(fixed_message("Invalid value")),
        };
        Ok(Global::Scalar { name, value })
    }
}

/// The branch opcode for a comparison operator token.
fn relation_of(t: &String) -> (r: Option<String>)
    ensures
        match relation_opcode(t@) {
            Some(op) => r matches Some(x) && x@ == op,
            None => r is None,
        },
{
    if is_text(t, "==") { Some("beq".to_owned()) }
    else if is_text(t, "!=") { Some("bne".to_owned()) }
    else if is_text(t, "<") { Some("blt".to_owned()) }
    else if is_text(t, ">=") { Some("bge".to_owned()) }
    else if is_text(t, ">") { Some("bgt".to_owned()) }
    else if is_text(t, "<=") { Some("ble".to_owned()) }
    else { None }
}

/// The operator name of an infix arithmetic token.
fn arith_of(t: &String) -> (r: Option<String>)
    ensures
        match arith_opcode(t@) {
            Some(op) => r matches Some(x) && x@ == op,
            None => r is None,
        },
{
    if is_text(t, "+") { Some("add".to_owned()) }
    else if is_text(t, "-") { Some("sub".to_owned()) }
    else if is_text(t, "*") { Some("mul".to_owned()) }
    else if is_text(t, "/") { Some("div".to_owned()) }
    else if is_text(t, "%") { Some("rem".to_owned()) }
    else { None }
}

/// Whether a mnemonic names a load.
fn is_load(name: &String) -> (r: bool)
    ensures
        r == is_load_mnemonic(name@),
{
    let cs = chars_of(name.as_str());
    cs.len() > 0 && cs[0] == 'l' && !is_text(name, "lui") && !is_text(name, "li")
}

/// The model of a condition.
pub open spec fn condition_view(c: (String, Register, Operand)) -> (Seq<char>, Register, SOperand) {
    (c.0@, c.1, c.2@)
}

impl Parser {
    /// The token after the one at the reader's position.
    fn peek_second(&self) -> (r: Option<&String>)
        ensures
            match at(self.toks(), adv(self.state())) {
                Some(t) => r matches Some(x) && x@ == t,
                None => r is None,
            },
    {
        proof { use_type_invariant(self); }
        if self.tokens.len() - self.pos > 1 {
            Some(&self.tokens[self.pos + 1])
        } else {
            None
        }
    }

    /// Reads a condition; `missing_op` is the message when the tokens end at once.
    pub fn parse_condition(&mut self, missing_op: &str) -> (r: Result<(String, Register, Operand), ParseError>)
        ensures
            final(self).toks() == old(self).toks(),
            old(self).state().pos <= final(self).state().pos,
            agrees(r, final(self).state(), condition(old(self).toks(), old(self).state(), missing_op@), |c: (String, Register, Operand)| condition_view(c)),
    {
        let rel = match self.peek_second() {
            Some(t) => relation_of(t),
            None => None,
        };
        if let Some(op) = rel {
            let lt = match self.next_token() {
                Some(t) => t,
                None => return Err(ParseError::Truncated),
            };
            let left = self.parse_register(lt.as_str())?;
            let _ = self.next_token();
            let right = self.parse_operand()?;
            return Ok((op, left, right));
        }
        let op = self.take_token(missing_op)?;
        let lt = self.take_token("Expected reg")?;
        let left = self.parse_register(lt.as_str())?;
        if self.peek_is(",") {
            self.consume(",")?;
        }
        let right = self.parse_operand()?;
        Ok((op, left, right))
    }

    /// The rest of `let TARGET = LEFT`: nothing more, or an infix operator and a right operand.
    pub fn parse_let_math_rest(&mut self, target: Register, left_op: Operand) -> (r: Result<Statement, ParseError>)
        ensures
            final(self).toks() == old(self).toks(),
            old(self).state().pos <= final(self).state().pos,
            agrees(r, final(self).state(), math_rest(old(self).toks(), old(self).state(), target, left_op@), |s: Statement| s@),
    {
        let code = match self.peek() {
            Some(t) => arith_of(t),
            None => None,
        };
        match code {
            None => Ok(Statement::Let { target, value: Expression::Simple(left_op) }),
            Some(op) => {
                let _ = self.next_token();
                let right = self.parse_operand()?;
                let ghost lv = left_op@;
                let ghost rv = right@;
                let value = match right {
                    Operand::Imm(v) => {
                        if is_text(&op, "add") {
                            let ops = vec![left_op, Operand::Imm(v)];
                            proof { assert(operands_view(ops@) =~= seq![lv, rv]); }
                            Expression::AluCall { opcode: "addi".to_owned(), operands: ops }
                        } else if is_text(&op, "sub") {
                            let ops = vec![left_op, Operand::Imm(negated(v))];
                            proof { assert(operands_view(ops@) =~= seq![lv, SOperand::Imm(negate(v))]); }
                            Expression::AluCall { opcode: "addi".to_owned(), operands: ops }
                        } else {
                            let ops = vec![left_op, Operand::Imm(v)];
                            proof { assert(operands_view(ops@) =~= seq![lv, rv]); }
                            Expression::AluCall { opcode: op, operands: ops }
                        }
                    },
                    other => {
                        let ops = vec![left_op, other];
                        proof { assert(operands_view(ops@) =~= seq![lv, rv]); }
                        Expression::AluCall { opcode: op, operands: ops }
                    },
                };
                Ok(Statement::Let { target, value })
            },
        }
    }

    /// The operands of a mnemonic call, up to the closing parenthesis.
    fn parse_alu_args(&mut self) -> (r: Result<Vec<Operand>, ParseError>)
        ensures
            final(self).toks() == old(self).toks(),
            old(self).state().pos <= final(self).state().pos,
            agrees(r, final(self).state(), alu_args(old(self).toks(), old(self).state(), Seq::empty()),
                |v: Vec<Operand>| operands_view(v@)),
    {
        let mut operands: Vec<Operand> = Vec::new();
        proof {
            assert(operands_view(operands@) =~= Seq::<SOperand>::empty());
        }
        loop
            invariant
                self.toks() == old(self).toks(),
                old(self).state().pos <= self.state().pos,
                alu_args(self.toks(), self.state(), operands_view(operands@))
                    == alu_args(old(self).toks(), old(self).state(), Seq::empty()),
            decreases self.tokens.len() - self.pos,
        {
            proof { use_type_invariant(&*self); }
            let stop = match self.peek() {
                None => true,
                Some(t) => is_text(t, ")"),
            };
            if stop {
                return Ok(operands);
            }
            if self.peek_is(",") {
                let _ = self.next_token();
            } else {
                let ghost before = self.state();
                let ghost acc = operands_view(operands@);
                let o = self.parse_operand()?;
                proof { use_type_invariant(&*self); }
                operands.push(o);
                proof {
                    assert(operands_view(operands@) =~= acc.push(o@));
                }
            }
        }
    }

    /// The arguments of a load mnemonic.
    fn parse_load_args(&mut self, target: Register, name: String) -> (r: Result<Statement, ParseError>)
        ensures
            final(self).toks() == old(self).toks(),
            old(self).state().pos <= final(self).state().pos,
            agrees(r, final(self).state(), load_args(old(self).toks(), old(self).state(), target, name@), |s: Statement| s@),
    {
        let ot = self.take_present()?;
        let offset = match self.number_of(&ot) {
            Some(v) => v,
            None => return Err(fixed_message("Invalid offset")),
        };
        if self.peek_is(",") {
            let _ = self.next_token();
            let bt = self.take_present()?;
            let base = self.parse_register(bt.as_str())?;
            self.consume(")")?;
            return Ok(Statement::Let { target, value: Expression::Load { opcode: name, offset, base } });
        }
        self.consume("(")?;
        let bt = self.take_present()?;
        let base = self.parse_register(bt.as_str())?;
        self.consume(")")?;
        self.consume(")")?;
        Ok(Statement::Let { target, value: Expression::Load { opcode: name, offset, base } })
    }

    /// A store statement, after the opcode.
    fn parse_store(&mut self, opcode: String) -> (r: Result<Statement, ParseError>)
        ensures
            final(self).toks() == old(self).toks(),
            old(self).state().pos <= final(self).state().pos,
            agrees(r, final(self).state(), store_statement(old(self).toks(), old(self).state(), opcode@), |s: Statement| s@),
    {
        self.consume("(")?;
        let srct = self.take_present()?;
        let src = self.parse_register(srct.as_str())?;
        if self.peek_is(",") {
            self.consume(",")?;
        }
        let ot = self.take_present()?;
        let offset = match self.number_of(&ot) {
            Some(v) => v,
            None => return Err(message("Invalid offset: ", &ot)),
        };
        self.consume("(")?;
        let bt = self.take_present()?;
        let base = self.parse_register(bt.as_str())?;
        self.consume(")")?;
        self.consume(")")?;
        Ok(Statement::Store { opcode, src, offset, base })
    }

    /// Whether a token can only start an operand.
    fn is_standard(&self, t: &String) -> (r: bool)
        ensures
            r == is_standard_operand(self.state(), t@),
    {
        starts_quote(t) || starts_hex(t) || int_value(t, 10).is_some() || is_text(t, "-")
            || self.parse_register(t.as_str()).is_ok() || self.constants.contains_key(t.as_str())
    }

    /// A `let` statement, after the keyword.
    fn parse_let(&mut self) -> (r: Result<Statement, ParseError>)
        ensures
            final(self).toks() == old(self).toks(),
            old(self).state().pos <= final(self).state().pos,
            agrees(r, final(self).state(), let_statement(old(self).toks(), old(self).state()), |s: Statement| s@),
    {
        let tt = self.take_token("Expected target")?;
        let target = self.parse_register(tt.as_str())?;
        self.consume("=")?;
        let standard = match self.peek() {
            None => return Err(fixed_message("Unexpected EOF")),
            Some(next) => self.is_standard(next),
        };
        if standard {
            let left = self.parse_operand()?;
            return self.parse_let_math_rest(target, left);
        }
        let name = match self.next_token() {
            Some(t) => t,
            None => return Err(ParseError::Truncated),
        };
        if self.peek_is("(") {
            let _ = self.next_token();
            if is_load(&name) {
                return self.parse_load_args(target, name);
            }
            let operands = self.parse_alu_args()?;
            self.consume(")")?;
            return Ok(Statement::Let { target, value: Expression::AluCall { opcode: name, operands } });
        }
        self.parse_let_math_rest(target, Operand::Label(name))
    }
}

impl Parser {
    /// Reads the separator of a `for` header: `;` or `,`.
    fn parse_separator(&mut self) -> (r: Result<(), ParseError>)
        ensures
            final(self).toks() == old(self).toks(),
            old(self).state().pos <= final(self).state().pos,
            agrees_step(r, final(self).state(), separator(old(self).toks(), old(self).state())),
    {
        if self.peek_is(";") {
            let _ = self.next_token();
            Ok(())
        } else {
            self.consume(",")
        }
    }

    /// Reads a statement, starting at its keyword.
    pub fn parse_statement(&mut self) -> (r: Result<Statement, ParseError>)
        ensures
            final(self).toks() == old(self).toks(),
            old(self).state().pos <= final(self).state().pos,
            r is Ok ==> old(self).state().pos < final(self).state().pos,
            agrees(r, final(self).state(), statement(old(self).toks(), old(self).state()), |s: Statement| s@),
        decreases self.toks().len() - self.state().pos, 1nat,
    {
        proof { use_type_invariant(&*self); }
        let token = match self.next_token() {
            Some(t) => t,
            None => return Err(fixed_message("Unexpected EOF")),
        };
        if is_text(&token, "ret") {
            Ok(Statement::Return)
        } else if is_text(&token, "ecall") {
            Ok(Statement::Ecall)
        } else if is_text(&token, "call") {
            let func_name = self.take_token("Expected function name")?;
            Ok(Statement::Call { func_name })
        } else if is_text(&token, "for") {
            self.parse_for()
        } else if is_text(&token, "while") {
            self.parse_while()
        } else if is_text(&token, "if") {
            self.parse_if()
        } else if is_text(&token, "sw") || is_text(&token, "sb") || is_text(&token, "sh") || is_text(&token, "sd") {
            self.parse_store(token)
        } else if is_text(&token, "let") {
            self.parse_let()
        } else {
            Err(message("Unknown token: ", &token))
        }
    }

    /// A `for` statement, after the keyword.
    fn parse_for(&mut self) -> (r: Result<Statement, ParseError>)
        ensures
            final(self).toks() == old(self).toks(),
            old(self).state().pos <= final(self).state().pos,
            agrees(r, final(self).state(), for_statement(old(self).toks(), old(self).state()), |s: Statement| s@),
        decreases self.toks().len() - self.state().pos, 0nat,
    {
        self.consume("(")?;
        proof { use_type_invariant(&*self); }
        let init = self.parse_statement()?;
        self.parse_separator()?;
        let (op, left, right) = self.parse_condition("Expected condition op")?;
        self.parse_separator()?;
        proof { use_type_invariant(&*self); }
        let step = self.parse_statement()?;
        self.consume(")")?;
        self.consume("{")?;
        proof { use_type_invariant(&*self); }
        let body = self.parse_block()?;
        self.consume("}")?;
        Ok(Statement::For {
            init: Box::new(init),
            condition_op: op,
            cond_left: left,
            cond_right: right,
            step: Box::new(step),
            body,
        })
    }

    /// A `while` statement, after the keyword.
    fn parse_while(&mut self) -> (r: Result<Statement, ParseError>)
        ensures
            final(self).toks() == old(self).toks(),
            old(self).state().pos <= final(self).state().pos,
            agrees(r, final(self).state(), while_statement(old(self).toks(), old(self).state()), |s: Statement| s@),
        decreases self.toks().len() - self.state().pos, 0nat,
    {
        self.consume("(")?;
        let (op, left, right) = self.parse_condition("Expected op")?;
        self.consume(")")?;
        self.consume("{")?;
        proof { use_type_invariant(&*self); }
        let body = self.parse_block()?;
        self.consume("}")?;
        Ok(Statement::While { condition_op: op, left, right, body })
    }

    /// An `if` statement, after the keyword.
    fn parse_if(&mut self) -> (r: Result<Statement, ParseError>)
        ensures
            final(self).toks() == old(self).toks(),
            old(self).state().pos <= final(self).state().pos,
            agrees(r, final(self).state(), if_statement(old(self).toks(), old(self).state()), |s: Statement| s@),
        decreases self.toks().len() - self.state().pos, 0nat,
    {
        self.consume("(")?;
        let (op, left, right) = self.parse_condition("Expected op")?;
        self.consume(")")?;
        self.consume("{")?;
        proof { use_type_invariant(&*self); }
        let then_block = self.parse_block()?;
        self.consume("}")?;
        if self.peek_is("else") {
            self.consume("else")?;
            self.consume("{")?;
            proof { use_type_invariant(&*self); }
            let else_block = self.parse_block()?;
            self.consume("}")?;
            return Ok(Statement::If { condition_op: op, left, right, then_block, else_block: Some(else_block) });
        }
        Ok(Statement::If { condition_op: op, left, right, then_block, else_block: None })
    }

    /// Reads the statements of a block up to its `}` (or an `else`).
    pub fn parse_block(&mut self) -> (r: Result<Vec<Statement>, ParseError>)
        ensures
            final(self).toks() == old(self).toks(),
            old(self).state().pos <= final(self).state().pos,
            agrees(r, final(self).state(), block(old(self).toks(), old(self).state()), |v: Vec<Statement>| block_view(v@)),
        decreases self.toks().len() - self.state().pos, 3nat,
    {
        let mut statements: Vec<Statement> = Vec::new();
        proof {
            assert(block_view(statements@) == Seq::<crate::ast::SStatement>::empty());
        }
        loop
            invariant
                self.toks() == old(self).toks(),
                old(self).state().pos <= self.state().pos,
                block_from(self.toks(), self.state(), block_view(statements@))
                    == block(old(self).toks(), old(self).state()),
            decreases self.toks().len() - self.state().pos,
        {
            proof { use_type_invariant(&*self); }
            let (close, is_alias, is_const) = match self.peek() {
                None => return Err(fixed_message("Unexpected EOF in block")),
                Some(t) => (is_text(t, "}") || is_text(t, "else"), is_text(t, "alias"), is_text(t, "const")),
            };
            if close {
                return Ok(statements);
            }
            if is_alias {
                self.parse_alias()?;
                proof { use_type_invariant(&*self); }
            } else if is_const {
                self.parse_const()?;
                proof { use_type_invariant(&*self); }
            } else {
                let ghost before = statements@;
                let s = self.parse_statement()?;
                proof { use_type_invariant(&*self); }
                statements.push(s);
                proof {
                    assert(statements@.drop_last() == before);
                }
            }
        }
    }

    /// Skips tokens up to the first `)` or the end of the tokens.
    fn skip_params(&mut self)
        ensures
            final(self).toks() == old(self).toks(),
            old(self).state().pos <= final(self).state().pos,
            final(self).state() == (PState {
                pos: skip_params(old(self).toks(), old(self).state().pos),
                consts: old(self).state().consts,
                aliases: old(self).state().aliases,
            }),
    {
        let ghost start = self.state().pos;
        loop
            invariant
                self.toks() == old(self).toks(),
                self.state().consts == old(self).state().consts,
                self.state().aliases == old(self).state().aliases,
                start == old(self).state().pos,
                start <= self.state().pos,
                skip_params(self.toks(), self.state().pos) == skip_params(self.toks(), start),
            decreases self.toks().len() - self.state().pos,
        {
            proof { use_type_invariant(&*self); }
            let stop = match self.peek() {
                None => true,
                Some(t) => is_text(t, ")"),
            };
            if stop {
                proof {
                    assert(skip_params(self.toks(), self.state().pos) == self.state().pos);
                }
                return;
            }
            let _ = self.next_token();
        }
    }

    /// Reads a function `fn NAME(PARAMS) { BODY }`.
    pub fn parse_function(&mut self) -> (r: Result<Function, ParseError>)
        ensures
            final(self).toks() == old(self).toks(),
            old(self).state().pos <= final(self).state().pos,
            r is Ok ==> old(self).state().pos < final(self).state().pos,
            agrees(r, final(self).state(), function(old(self).toks(), old(self).state()), |f: Function| f@),
    {
        self.consume("fn")?;
        let name = self.take_token("Expected function name")?;
        self.consume("(")?;
        self.skip_params();
        self.consume(")")?;
        self.consume("{")?;
        let body = self.parse_block()?;
        self.consume("}")?;
        Ok(Function { name, body })
    }

    /// Reads the top-level items from the reader's position to the end of the tokens.
    #[verifier::rlimit(60)]
    pub fn parse_program(&mut self) -> (r: Result<Program, ParseError>)
        ensures
            final(self).toks() == old(self).toks(),
            old(self).state().pos <= final(self).state().pos,
            agrees(r, final(self).state(), program_from(old(self).toks(), old(self).state(), Seq::empty(), Seq::empty()),
                |p: Program| p@),
    {
        let mut functions: Vec<Function> = Vec::new();
        let mut globals: Vec<Global> = Vec::new();
        proof {
            assert(functions_view(functions@) =~= Seq::<SFunction>::empty());
            assert(globals_view(globals@) =~= Seq::<SGlobal>::empty());
        }
        loop
            invariant
                self.toks() == old(self).toks(),
                old(self).state().pos <= self.state().pos,
                program_from(self.toks(), self.state(), functions_view(functions@), globals_view(globals@))
                    == program_from(old(self).toks(), old(self).state(), Seq::empty(), Seq::empty()),
            decreases self.toks().len() - self.state().pos,
        {
            proof { use_type_invariant(&*self); }
            let t = match self.peek() {
                None => {
                    let p = Program { globals, functions };
                    return Ok(p);
                },
                Some(t) => t.clone(),
            };
            if is_text(&t, "fn") {
                let ghost before = functions_view(functions@);
                let f = self.parse_function()?;
                proof { use_type_invariant(&*self); }
                functions.push(f);
                proof {
                    assert(functions_view(functions@) =~= before.push(f@));
                }
            } else if is_text(&t, "const") {
                self.parse_const()?;
                proof { use_type_invariant(&*self); }
            } else if is_text(&t, "alias") {
                self.parse_alias()?;
                proof { use_type_invariant(&*self); }
            } else if is_text(&t, "data") {
                let ghost before = globals_view(globals@);
                let g = self.parse_data()?;
                proof { use_type_invariant(&*self); }
                globals.push(g);
                proof {
                    assert(globals_view(globals@) =~= before.push(g@));
                }
            } else {
                return Err(message("Unexpected token at top level: ", &t));
            }
        }
    }
}

} // verus!
