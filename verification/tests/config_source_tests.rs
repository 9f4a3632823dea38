use alloy::config::{assembler_command, default_assembler_command};
use alloy::source::{classify_line, import_candidates, invalid_import_message, source_lines, ImportCandidate, SearchRoot, SourceLine};

#[test]
fn assembler_defaults_without_a_setting() {
    assert_eq!(default_assembler_command(), "riscv64-unknown-elf-gcc");
    assert_eq!(assembler_command(""), "riscv64-unknown-elf-gcc");
    assert_eq!(assembler_command("# ASSEMBLER_CMD=x\n\n"), "riscv64-unknown-elf-gcc");
    assert_eq!(assembler_command("ASSEMBLER_CMD = x"), "riscv64-unknown-elf-gcc");
    assert_eq!(assembler_command("OTHER=1"), "riscv64-unknown-elf-gcc");
}

#[test]
fn assembler_setting_is_read() {
    assert_eq!(assembler_command("ASSEMBLER_CMD=riscv64-unknown-linux-gnu-gcc"), "riscv64-unknown-linux-gnu-gcc");
    assert_eq!(assembler_command("# toolchain\n   ASSEMBLER_CMD=  my-gcc  \r\n"), "my-gcc");
    assert_eq!(assembler_command("ASSEMBLER_CMD="), "");
}

#[test]
fn first_valid_assembler_setting_wins() {
    assert_eq!(assembler_command("ASSEMBLER_CMD=first\nASSEMBLER_CMD=second"), "first");
    // A line with a second `=` splits into three parts and sets nothing.
    assert_eq!(assembler_command("ASSEMBLER_CMD=a=b\nASSEMBLER_CMD=c"), "c");
}

#[test]
fn source_lines_follow_str_lines() {
    assert_eq!(source_lines("a\r\nb\n"), vec!["a", "b"]);
    assert_eq!(source_lines("a\n\nb"), vec!["a", "", "b"]);
    assert_eq!(source_lines("a\r"), vec!["a\r"]);
    assert_eq!(source_lines(""), Vec::<String>::new());
    assert_eq!(source_lines("\n"), vec![""]);
    for s in ["x\ny\r\nz", "\r\n\r\n", "only"] {
        assert_eq!(source_lines(s), s.lines().collect::<Vec<_>>());
    }
}

#[test]
fn import_lines_are_classified() {
    assert_eq!(classify_line("import \"math\""), SourceLine::Import("math".to_string()));
    assert_eq!(classify_line("   import \"lib.al\" # helpers"), SourceLine::Import("lib.al".to_string()));
    assert_eq!(classify_line("import \"open"), SourceLine::Import("open".to_string()));
    assert_eq!(classify_line("import math"), SourceLine::InvalidImport);
    assert_eq!(classify_line("let t0 = 1"), SourceLine::Code);
    assert_eq!(classify_line(""), SourceLine::Code);
    assert_eq!(invalid_import_message("import math"), "Invalid import: import math");
}

#[test]
fn import_candidates_follow_the_three_tiers() {
    let c = |root: SearchRoot, file: &str| ImportCandidate { root, file: file.to_string() };
    assert_eq!(import_candidates("io"), vec![
        c(SearchRoot::SourceDir, "io"),
        c(SearchRoot::SourceDir, "io.al"),
        c(SearchRoot::SourceLib, "io"),
        c(SearchRoot::SourceLib, "io.al"),
        c(SearchRoot::InstallLib, "io"),
        c(SearchRoot::InstallLib, "io.al"),
    ]);
}

#[test]
fn expanded_pieces_are_joined_line_by_line() {
    let parts = vec!["fn main() {".to_string(), "const A = 1\nconst B = 2\n".to_string(), "}".to_string()];
    assert_eq!(alloy::source::join_lines(&parts), "fn main() {\nconst A = 1\nconst B = 2\n\n}\n");
    assert_eq!(alloy::source::join_lines(&Vec::new()), "");
}
