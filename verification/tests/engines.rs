//! The engine tests: every engine's `run` on the same programs, inputs and
//! expected outputs.

use bfjit::Error;

const FUEL: u64 = u64::MAX;

fn run_all(program: &[u8], input: &[u8]) -> Vec<Result<Option<Vec<u8>>, Error>> {
    vec![
        bfjit::interpreter::run(program, input, FUEL),
        bfjit::jit::machine::run(program, input, FUEL),
        bfjit::jit::assembler::run(program, input, FUEL),
        bfjit::jit::x86_64::assembler::run(program, input, FUEL),
        bfjit::jit::aarch64::assembler::run(program, input, FUEL),
    ]
}

#[test]
fn io() {
    let program = b">,>+++++++++,>+++++++++++[<++++++<++++++<+>>>-]<<.>.<<-.>.>.<<.";
    for r in run_all(program, b"\n") {
        let out = r.unwrap().unwrap();
        assert_eq!(out.as_slice(), b"LB\nLB\n");
    }
}

#[test]
fn array_size() {
    let program =
        b"++++[>++++++<-]>[>+++++>+++++++<<-]>>++++<[[>[[>>+<<-]<]>>>-]>-[>+>+<<-]>]+++++[>+++++++<<++>-]>.<<.";
    for r in run_all(program, b"") {
        let out = r.unwrap().unwrap();
        assert_eq!(out.as_slice(), b"#\n");
    }
}

#[test]
fn bound_check() {
    let program = b"+[>+++++++++++++++++++++++++++++++++.----------------------------------]<.";
    for r in run_all(program, b"") {
        let out = r.unwrap().unwrap();
        assert_eq!(out.len(), u16::MAX as usize + 2);
    }
}

#[test]
fn obscure() {
    let program =
        b"[]++++++++++[>>+>+>++++++[<<+<+++>>>-]<<<<-]\"A*$\";?@![#>>+<<]>[>>]<<<<[>++<[-]]>.>.";
    for r in run_all(program, b"") {
        let out = r.unwrap().unwrap();
        assert_eq!(out.as_slice(), b"H\n");
    }
}

#[test]
fn unmatching_bracket_left() {
    let program = b"+++++[>+++++++>++<<-]>.>.[";
    for r in run_all(program, b"") {
        assert!(matches!(r, Err(Error::UnmatchedLeft)));
    }
}

#[test]
fn unmatching_bracket_right() {
    let program = b"+++++[>+++++++>++<<-]>.>.][";
    for r in run_all(program, b"") {
        assert!(matches!(r, Err(Error::UnmatchedRight)));
    }
}

/// A rot13 program adapted to this machine's input policy (a read past the
/// end of the input stores zero): read a character, and while it is not
/// zero, add 13 for each letter value in the first half of either alphabet,
/// subtract 13 for each in the second half, print, and read the next.
fn rot13_program() -> Vec<u8> {
    let mut p: Vec<u8> = Vec::new();
    p.push(b',');
    p.push(b'[');
    let mut checks: Vec<(u8, bool)> = Vec::new();
    for off in 0..13u8 {
        checks.push((b'A' + off, true));
    }
    for off in 0..13u8 {
        checks.push((b'a' + off, true));
    }
    for off in 0..13u8 {
        checks.push((b'N' + off, false));
    }
    for off in 0..13u8 {
        checks.push((b'n' + off, false));
    }
    for (k, plus) in checks {
        p.extend_from_slice(b"[->+>+<<]>>[-<<+>>]<<>");
        for _ in 0..k {
            p.push(b'-');
        }
        p.extend_from_slice(b">+<[>-<[-]]>");
        if plus {
            p.extend_from_slice(b"[->+++++++++++++<]");
        } else {
            p.extend_from_slice(b"[->-------------<]");
        }
        p.extend_from_slice(b"<<");
    }
    p.extend_from_slice(b">>>[-<<<+>>>]<<<.[-],]");
    p
}

#[test]
fn hello_world() {
    let program =
        b"++++++++[>++++[>++>+++>+++>+<<<<-]>+>+>->>+[<]<-]>>.>---.+++++++..+++.>>.<-.<.+++.------.--------.>>+.>++.";
    for r in run_all(program, b"") {
        let out = r.unwrap().unwrap();
        assert_eq!(out.as_slice(), b"Hello World!\n");
    }
}

#[test]
fn rot13() {
    let program = rot13_program();
    for r in run_all(&program, b"~mlk zyx") {
        let out = r.unwrap().unwrap();
        assert_eq!(out.as_slice(), b"~zyx mlk");
    }
}
