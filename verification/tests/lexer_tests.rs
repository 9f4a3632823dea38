use alloy::lexer::tokenize;

fn toks(src: &str) -> Vec<String> {
    tokenize(src)
}

#[test]
fn tokenize_splits_on_whitespace_and_delimiters() {
    assert_eq!(toks("let t0 = t1+5"), vec!["let", "t0", "=", "t1", "+", "5"]);
    assert_eq!(toks("fn main(){ret}"), vec!["fn", "main", "(", ")", "{", "ret", "}"]);
    assert_eq!(toks("data buf[64]"), vec!["data", "buf", "[", "64", "]"]);
    assert_eq!(toks("a,b-c*d/e%f"), vec!["a", ",", "b", "-", "c", "*", "d", "/", "e", "%", "f"]);
}

#[test]
fn tokenize_binds_comparison_operators() {
    assert_eq!(toks("t0<=10"), vec!["t0", "<=", "10"]);
    assert_eq!(toks("t0 >= t1"), vec!["t0", ">=", "t1"]);
    assert_eq!(toks("t0==zero"), vec!["t0", "==", "zero"]);
    assert_eq!(toks("t0 != t1"), vec!["t0", "!=", "t1"]);
    assert_eq!(toks("t0<t1"), vec!["t0", "<", "t1"]);
    assert_eq!(toks("t0>t1"), vec!["t0", ">", "t1"]);
    // A lone `!` is an ordinary character; `= =` stays two tokens.
    assert_eq!(toks("!a = = b"), vec!["!a", "=", "=", "b"]);
}

#[test]
fn tokenize_semicolon_is_a_token() {
    assert_eq!(toks("for (let t0 = 0; t0 <= 10; let t0 = t0 + 1)"),
        vec!["for", "(", "let", "t0", "=", "0", ";", "t0", "<=", "10", ";", "let", "t0", "=", "t0", "+", "1", ")"]);
}

#[test]
fn tokenize_hash_comment_runs_to_end_of_line() {
    assert_eq!(toks("let t0 = 1 # a comment, with = and \"quotes\"\nret"), vec!["let", "t0", "=", "1", "ret"]);
    assert_eq!(toks("# only a comment"), Vec::<String>::new());
    // A comment right after a word does not split it from the next line.
    assert_eq!(toks("abc#x\ndef"), vec!["abc", "def"]);
}

#[test]
fn tokenize_keeps_string_literals_whole() {
    assert_eq!(toks("let a0 = \"Hello, world # not a comment\\n\""),
        vec!["let", "a0", "=", "\"Hello, world # not a comment\\n\""]);
    assert_eq!(toks("x\"ab\"y"), vec!["x", "\"ab\"", "y"]);
}

#[test]
fn tokenize_unclosed_string_runs_to_the_end() {
    assert_eq!(toks("let a0 = \"abc def"), vec!["let", "a0", "=", "\"abc def"]);
}

#[test]
fn tokenize_empty_and_blank_inputs() {
    assert_eq!(toks(""), Vec::<String>::new());
    assert_eq!(toks(" \t\r\n "), Vec::<String>::new());
}

#[test]
fn tokenize_unicode_whitespace_separates() {
    assert_eq!(toks("a\u{3000}b\u{a0}c"), vec!["a", "b", "c"]);
}

#[test]
fn tokens_are_never_empty_and_hold_no_whitespace() {
    let src = "fn main() {\n  let t0 = \"a b\" # c\n  if (t0 <= 10) { ret }\n}\n";
    for t in toks(src) {
        assert!(!t.is_empty());
        if !t.starts_with('"') {
            assert!(!t.chars().any(|c| c.is_whitespace()));
        }
    }
}

#[test]
fn comment_and_its_line_give_the_tokens_of_a_line_break() {
    let before = "let t0 = \"a # b\" + t1 <";
    let after = "= t2\nret";
    let with_comment = format!("{} # note <= \"q\"\n{}", before, after);
    let without = format!("{} \n{}", before, after);
    assert_eq!(toks(&with_comment), toks(&without));
    assert_eq!(toks(&with_comment), vec!["let", "t0", "=", "\"a # b\"", "+", "t1", "<", "=", "t2", "ret"]);
}

#[test]
fn tokens_joined_are_the_text_without_blanks_and_comments() {
    let src = "let a0 = \"x y\"  # gone\n if (t0<=9) {ret}";
    let joined: String = toks(src).concat();
    assert_eq!(joined, "leta0=\"x y\"if(t0<=9){ret}");
}

#[test]
fn tokens_written_with_spaces_lex_to_the_same_tokens() {
    for src in [
        "fn main() {\n let a0 = \"x y # z\" # note\n if (t0<=9) { ret } x! =y\n}",
        "let t0 = \"open string, never closed",
        "a==b!=c<d>e<=f>=g;h",
        "",
    ] {
        let first = toks(src);
        assert_eq!(toks(&first.join(" ")), first);
    }
}

#[test]
fn whitespace_test_agrees_with_char_is_whitespace() {
    for u in 0u32..=0x10FFFF {
        if let Some(c) = char::from_u32(u) {
            assert_eq!(alloy::text::is_whitespace(c), c.is_whitespace());
        }
    }
}
