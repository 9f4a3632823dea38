//! The lexer: source text to a sequence of tokens.
//!
//! Tokens are separated by whitespace and by the delimiters `( ) { } [ ] , ; = + - * / % < >`,
//! each of which is a token of its own. The comparison operators `<=`, `>=`, `==` and `!=`
//! are single tokens. A string literal runs from `"` to the next `"` and keeps its quotes.
//! A `#` outside a string starts a comment that runs to the end of the line.
use vstd::prelude::*;
use crate::text::{white_space, is_whitespace, chars_of};

verus! {

/// What the lexer is in the middle of.
#[derive(Clone, Copy, PartialEq, Eq, Structural)]
pub enum LexMode {
    Normal,
    InString,
    InComment,
}

/// A character that is a token by itself.
pub open spec fn is_delimiter(c: char) -> bool {
    ||| c == '(' || c == ')' || c == '{' || c == '}' || c == '[' || c == ']'
    ||| c == ',' || c == ';' || c == '=' || c == '<' || c == '>'
    ||| c == '+' || c == '-' || c == '*' || c == '/' || c == '%'
}

/// A character that, followed by `=`, forms a two-character comparison operator.
pub open spec fn starts_comparison(c: char) -> bool {
    c == '<' || c == '>' || c == '=' || c == '!'
}

/// The tokens with the pending text added, when there is any.
pub open spec fn flush(toks: Seq<Seq<char>>, cur: Seq<char>) -> Seq<Seq<char>> {
    if cur.len() > 0 {
        toks.push(cur)
    } else {
        toks
    }
}

/// The tokens of `cs[i..]`, given the tokens `toks` already found, the pending text `cur`
/// and the mode at position `i`.
pub open spec fn lex(cs: Seq<char>, i: int, toks: Seq<Seq<char>>, cur: Seq<char>, mode: LexMode) -> Seq<Seq<char>>
    decreases cs.len() - i,
{
    if i >= cs.len() || i < 0 {
        flush(toks, cur)
    } else {
        let c = cs[i];
        match mode {
            LexMode::InString => {
                if c == '"' {
                    lex(cs, i + 1, toks.push(cur.push('"')), Seq::empty(), LexMode::Normal)
                } else {
                    lex(cs, i + 1, toks, cur.push(c), LexMode::InString)
                }
            },
            LexMode::InComment => {
                if c == '\n' {
                    lex(cs, i + 1, flush(toks, cur), Seq::empty(), LexMode::Normal)
                } else {
                    lex(cs, i + 1, toks, cur, LexMode::InComment)
                }
            },
            LexMode::Normal => {
                if c == '#' {
                    lex(cs, i + 1, toks, cur, LexMode::InComment)
                } else if c == '"' {
                    lex(cs, i + 1, flush(toks, cur), seq!['"'], LexMode::InString)
                } else if starts_comparison(c) && i + 1 < cs.len() && cs[i + 1] == '=' {
                    lex(cs, i + 2, flush(toks, cur).push(seq![c, '=']), Seq::empty(), LexMode::Normal)
                } else if is_delimiter(c) {
                    lex(cs, i + 1, flush(toks, cur).push(seq![c]), Seq::empty(), LexMode::Normal)
                } else if white_space(c) {
                    lex(cs, i + 1, flush(toks, cur), Seq::empty(), LexMode::Normal)
                } else {
                    lex(cs, i + 1, toks, cur.push(c), LexMode::Normal)
                }
            },
        }
    }
}

/// The tokens of a source text.
pub open spec fn tokens_of(src: Seq<char>) -> Seq<Seq<char>> {
    lex(src, 0, Seq::empty(), Seq::empty(), LexMode::Normal)
}

/// The texts of a list of strings.
pub open spec fn texts(v: Seq<String>) -> Seq<Seq<char>> {
    v.map_values(|s: String| s@)
}

/// A token as the lexer makes it: never empty, and free of whitespace unless it is a
/// string literal.
pub open spec fn well_formed_token(t: Seq<char>) -> bool {
    &&& t.len() > 0
    &&& t[0] != '"' ==> no_white_space(t)
}

fn push_pending(tokens: &mut Vec<String>, cur: String)
    ensures
        texts(final(tokens)@) == flush(texts(old(tokens)@), cur@),
{
    if !cur.as_str().is_empty() {
        tokens.push(cur);
        proof {
            assert(texts(tokens@) =~= texts(old(tokens)@).push(cur@));
        }
    }
}

fn push_token(tokens: &mut Vec<String>, t: String)
    ensures
        texts(final(tokens)@) == texts(old(tokens)@).push(t@),
{
    tokens.push(t);
    proof {
        assert(texts(tokens@) =~= texts(old(tokens)@).push(t@));
    }
}

/// Splits a source text into tokens.
pub fn tokenize(input: &str) -> (tokens: Vec<String>)
    ensures
        texts(tokens@) == tokens_of(input@),
        forall|k: int| 0 <= k < tokens@.len() ==> well_formed_token(#[trigger] tokens@[k]@),
{
    let cs = chars_of(input);
    let mut tokens: Vec<String> = Vec::new();
    let mut cur = String::new();
    let mut mode = LexMode::Normal;
    let mut i: usize = 0;
    proof {
        assert(texts(tokens@) =~= Seq::<Seq<char>>::empty());
    }
    while i < cs.len()
        invariant
            cs@ == input@,
            i <= cs.len(),
            lex(cs@, i as int, texts(tokens@), cur@, mode) == tokens_of(input@),
        decreases cs.len() - i,
    {
        let c = cs[i];
        match mode {
            LexMode::InString => {
                if c == '"' {
                    cur.push('"');
                    push_token(&mut tokens, cur);
                    cur = String::new();
                    mode = LexMode::Normal;
                } else {
                    cur.push(c);
                }
                i = i + 1;
            },
            LexMode::InComment => {
                if c == '\n' {
                    push_pending(&mut tokens, cur);
                    cur = String::new();
                    mode = LexMode::Normal;
                }
                i = i + 1;
            },
            LexMode::Normal => {
                if c == '#' {
                    mode = LexMode::InComment;
                    i = i + 1;
                } else if c == '"' {
                    push_pending(&mut tokens, cur);
                    cur = String::new();
                    cur.push('"');
                    mode = LexMode::InString;
                    i = i + 1;
                } else if (c == '<' || c == '>' || c == '=' || c == '!') && i + 1 < cs.len() && cs[i + 1] == '=' {
                    push_pending(&mut tokens, cur);
                    let mut t = String::new();
                    t.push(c);
                    t.push('=');
                    proof {
                        assert(t@ =~= seq![c, '=']);
                    }
                    push_token(&mut tokens, t);
                    cur = String::new();
                    i = i + 2;
                } else if c == '(' || c == ')' || c == '{' || c == '}' || c == '[' || c == ']'
                    || c == ',' || c == ';' || c == '=' || c == '<' || c == '>'
                    || c == '+' || c == '-' || c == '*' || c == '/' || c == '%' {
                    push_pending(&mut tokens, cur);
                    let mut t = String::new();
                    t.push(c);
                    proof {
                        assert(t@ =~= seq![c]);
                    }
                    push_token(&mut tokens, t);
                    cur = String::new();
                    i = i + 1;
                } else if is_whitespace(c) {
                    push_pending(&mut tokens, cur);
                    cur = String::new();
                    i = i + 1;
                } else {
                    cur.push(c);
                    i = i + 1;
                }
            },
        }
    }
    push_pending(&mut tokens, cur);
    proof {
        lemma_tokens_well_formed(input@);
        assert forall|k: int| 0 <= k < tokens@.len() implies well_formed_token(#[trigger] tokens@[k]@) by {
            assert(texts(tokens@)[k] == tokens@[k]@);
        }
    }
    tokens
}

/// The pending text in each mode, as the lexer keeps it.
pub open spec fn pending_ok(cur: Seq<char>, mode: LexMode) -> bool {
    match mode {
        LexMode::InString => cur.len() > 0 && cur[0] == '"',
        _ => cur.len() == 0 || (cur[0] != '"' && no_white_space(cur)),
    }
}

/// No character of `t` is whitespace.
pub open spec fn no_white_space(t: Seq<char>) -> bool {
    forall|j: int| 0 <= j < t.len() ==> !white_space(#[trigger] t[j])
}

/// Every token of the list is well formed.
pub open spec fn all_well_formed(toks: Seq<Seq<char>>) -> bool {
    forall|k: int| 0 <= k < toks.len() ==> well_formed_token(#[trigger] toks[k])
}

proof fn lemma_push_well_formed(toks: Seq<Seq<char>>, t: Seq<char>)
    requires
        all_well_formed(toks),
        well_formed_token(t),
    ensures
        all_well_formed(toks.push(t)),
{
    assert forall|k: int| 0 <= k < toks.push(t).len() implies well_formed_token(#[trigger] toks.push(t)[k]) by {
        if k < toks.len() {
            assert(toks.push(t)[k] == toks[k]);
        }
    }
}

/// One step of the lexer from position `i`: the next position, tokens, pending text and mode.
pub open spec fn lex_step(cs: Seq<char>, i: int, toks: Seq<Seq<char>>, cur: Seq<char>, mode: LexMode)
    -> (int, Seq<Seq<char>>, Seq<char>, LexMode)
{
    let c = cs[i];
    match mode {
        LexMode::InString => {
            if c == '"' {
                (i + 1, toks.push(cur.push('"')), Seq::empty(), LexMode::Normal)
            } else {
                (i + 1, toks, cur.push(c), LexMode::InString)
            }
        },
        LexMode::InComment => {
            if c == '\n' {
                (i + 1, flush(toks, cur), Seq::empty(), LexMode::Normal)
            } else {
                (i + 1, toks, cur, LexMode::InComment)
            }
        },
        LexMode::Normal => {
            if c == '#' {
                (i + 1, toks, cur, LexMode::InComment)
            } else if c == '"' {
                (i + 1, flush(toks, cur), seq!['"'], LexMode::InString)
            } else if starts_comparison(c) && i + 1 < cs.len() && cs[i + 1] == '=' {
                (i + 2, flush(toks, cur).push(seq![c, '=']), Seq::empty(), LexMode::Normal)
            } else if is_delimiter(c) {
                (i + 1, flush(toks, cur).push(seq![c]), Seq::empty(), LexMode::Normal)
            } else if white_space(c) {
                (i + 1, flush(toks, cur), Seq::empty(), LexMode::Normal)
            } else {
                (i + 1, toks, cur.push(c), LexMode::Normal)
            }
        },
    }
}

proof fn lemma_lex_well_formed(cs: Seq<char>, i: int, toks: Seq<Seq<char>>, cur: Seq<char>, mode: LexMode)
    requires
        all_well_formed(toks),
        pending_ok(cur, mode),
    ensures
        all_well_formed(lex(cs, i, toks, cur, mode)),
    decreases cs.len() - i,
{
    let fl = flush(toks, cur);
    if cur.len() > 0 {
        lemma_push_well_formed(toks, cur);
    }
    if i >= cs.len() || i < 0 {
    } else {
        let c = cs[i];
        let (i2, t2, c2, m2) = lex_step(cs, i, toks, cur, mode);
        assert(lex(cs, i, toks, cur, mode) == lex(cs, i2, t2, c2, m2));
        match mode {
            LexMode::InString => {
                if c == '"' {
                    lemma_push_well_formed(toks, cur.push('"'));
                } else {
                }
            },
            LexMode::InComment => {
            },
            LexMode::Normal => {
                if c == '#' {
                } else if c == '"' {
                } else if starts_comparison(c) && i + 1 < cs.len() && cs[i + 1] == '=' {
                    let t = seq![c, '='];
                    assert(t[0] == c && t[1] == '=');
                    lemma_push_well_formed(fl, t);
                } else if is_delimiter(c) {
                    let t = seq![c];
                    assert(t[0] == c);
                    lemma_push_well_formed(fl, t);
                } else if white_space(c) {
                } else {
                    let cc = cur.push(c);
                    assert forall|j: int| 0 <= j < cc.len() implies !white_space(#[trigger] cc[j]) by {
                        if j < cur.len() {
                            assert(cc[j] == cur[j]);
                        }
                    }
                }
            },
        }
        lemma_lex_well_formed(cs, i2, t2, c2, m2);
    }
}

/// Every token of a source text is non-empty, and a token that is not a string literal
/// holds no whitespace.
pub proof fn lemma_tokens_well_formed(src: Seq<char>)
    ensures
        all_well_formed(tokens_of(src)),
{
    lemma_lex_well_formed(src, 0, Seq::empty(), Seq::empty(), LexMode::Normal);
}

} // verus!
