//! The assembler setting of `config.txt`: lines of `ASSEMBLER_CMD=<command>`, with `#` comments.
use vstd::prelude::*;
use crate::text::{trim, count_char, after_first, line_end, lemma_line_end_bounds, lemma_line_end_is,
    chars_of, trim_bounds, count_in, find_char, starts_with_at, string_of};

verus! {

/// The assembler used when the configuration names none.
pub open spec fn default_assembler() -> Seq<char> {
    "riscv64-unknown-elf-gcc"@
}

/// The command a configuration line sets: a line (after trimming) that starts with
/// `ASSEMBLER_CMD=` and holds no other `=` sets the trimmed text after the `=`.
/// Blank lines and lines starting with `#` set nothing.
pub open spec fn config_entry(line: Seq<char>) -> Option<Seq<char>> {
    let t = trim(line);
    if t.len() == 0 || t[0] == '#' {
        None
    } else if "ASSEMBLER_CMD="@.is_prefix_of(t) && count_char(t, '=') == 1 {
        Some(trim(after_first(t, '=')))
    } else {
        None
    }
}

/// The command set by the first setting line at or after position `i`, or the default.
pub open spec fn command_from(cs: Seq<char>, i: int) -> Seq<char>
    decreases cs.len() - i,
{
    if 0 <= i < cs.len() {
        let e = line_end(cs, i);
        proof {
            lemma_line_end_bounds(cs, i);
        }
        match config_entry(cs.subrange(i, e)) {
            Some(v) => v,
            None => if e < cs.len() { command_from(cs, e + 1) } else { default_assembler() },
        }
    } else {
        default_assembler()
    }
}

/// The assembler command that a configuration text sets.
pub open spec fn configured_assembler(config: Seq<char>) -> Seq<char> {
    command_from(config, 0)
}

/// The assembler used when there is no configuration.
pub fn default_assembler_command() -> (s: String)
    ensures
        s@ == default_assembler(),
{
    "riscv64-unknown-elf-gcc".to_owned()
}

/// The assembler command that a configuration text sets: the first setting line wins, and
/// without one the default is used.
pub fn assembler_command(config: &str) -> (s: String)
    ensures
        s@ == configured_assembler(config@),
{
    let cs = chars_of(config);
    let key = chars_of("ASSEMBLER_CMD=");
    let mut i: usize = 0;
    while i < cs.len()
        invariant
            cs@ == config@,
            key@ == "ASSEMBLER_CMD="@,
            i <= cs.len(),
            command_from(cs@, i as int) == configured_assembler(config@),
        decreases cs.len() - i,
    {
        let e = find_char(&cs, i, cs.len(), '\n');
        proof {
            lemma_line_end_is(cs@, i as int, e as int);
        }
        let (a, b) = trim_bounds(&cs, i, e);
        if a < b && cs[a] != '#' && starts_with_at(&cs, a, b, &key) && count_in(&cs, a, b, '=') == 1 {
            let q = find_char(&cs, a, b, '=');
            let (va, vb) = if q < b { trim_bounds(&cs, q + 1, b) } else { (b, b) };
            proof {
                let t = cs@.subrange(a as int, b as int);
                assert(t[0] == cs@[a as int]);
                if q >= b {
                    assert(cs@.subrange(b as int, b as int) =~= Seq::<char>::empty());
                    assert(trim(Seq::<char>::empty()) =~= Seq::<char>::empty());
                }
            }
            return string_of(&cs, va, vb);
        }
        proof {
            let t = cs@.subrange(a as int, b as int);
            if a < b {
                assert(t[0] == cs@[a as int]);
            }
        }
        i = e;
        if i < cs.len() {
            i = i + 1;
        } else {
            return default_assembler_command();
        }
    }
    default_assembler_command()
}

} // verus!
