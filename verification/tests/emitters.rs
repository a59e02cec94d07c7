//! Byte-level tests of the two emitters: the exact image of small programs,
//! the agreement of the raw-byte and the assembler-backed paths, and the
//! round trip of the image through the executable mapping.

use bfjit::Error;

fn prologue() -> Vec<u8> {
    vec![
        0x55, 0x48, 0x89, 0xe5, 0x53, 0x41, 0x54, 0x48, 0x89, 0xfb, 0x4d, 0x31, 0xe4, 0x48, 0xc7,
        0xc0, 0x01, 0x00, 0x00, 0x00,
    ]
}

fn epilogue() -> Vec<u8> {
    vec![0x41, 0x5c, 0x5b, 0x48, 0x89, 0xec, 0x5d, 0xc3]
}

#[test]
fn emit_single_increment() {
    let code = bfjit::program::compile(b"+").unwrap();
    let img = bfjit::jit::machine::emit(&code, 0, 0);
    let mut expected = prologue();
    expected.extend_from_slice(&[0x42, 0x80, 0x04, 0x23, 0x01]);
    expected.extend_from_slice(&epilogue());
    assert_eq!(img, expected);
}

#[test]
fn emit_folds_runs() {
    let code = bfjit::program::compile(b"+++++-->>><<").unwrap();
    let img = bfjit::jit::machine::emit(&code, 0, 0);
    let mut expected = prologue();
    // add BYTE [rbx + r12], 5
    expected.extend_from_slice(&[0x42, 0x80, 0x04, 0x23, 0x05]);
    // sub BYTE [rbx + r12], 2
    expected.extend_from_slice(&[0x42, 0x80, 0x2c, 0x23, 0x02]);
    // add r12d, 3; movzx r12d, r12w
    expected.extend_from_slice(&[0x41, 0x81, 0xc4, 0x03, 0x00, 0x00, 0x00]);
    expected.extend_from_slice(&[0x45, 0x0f, 0xb7, 0xe4]);
    // sub r12d, 2; movzx r12d, r12w
    expected.extend_from_slice(&[0x41, 0x81, 0xec, 0x02, 0x00, 0x00, 0x00]);
    expected.extend_from_slice(&[0x45, 0x0f, 0xb7, 0xe4]);
    expected.extend_from_slice(&epilogue());
    assert_eq!(img, expected);
}

#[test]
fn emit_loop_displacements() {
    let code = bfjit::program::compile(b"[-]").unwrap();
    let img = bfjit::jit::machine::emit(&code, 0, 0);
    let mut expected = prologue();
    // cmp BYTE [rbx + r12], 0; je +16
    expected.extend_from_slice(&[0x42, 0x80, 0x3c, 0x23, 0x00, 0x0f, 0x84, 0x10, 0x00, 0x00, 0x00]);
    // sub BYTE [rbx + r12], 1
    expected.extend_from_slice(&[0x42, 0x80, 0x2c, 0x23, 0x01]);
    // cmp BYTE [rbx + r12], 0; jne -16
    expected.extend_from_slice(&[0x42, 0x80, 0x3c, 0x23, 0x00, 0x0f, 0x85, 0xf0, 0xff, 0xff, 0xff]);
    expected.extend_from_slice(&epilogue());
    assert_eq!(img, expected);
}

#[test]
fn emit_transfer_call() {
    let code = bfjit::program::compile(b".").unwrap();
    let img = bfjit::jit::machine::emit(&code, 0x1122334455667788, 0);
    let mut expected = prologue();
    // lea rdi, [rbx + r12]; mov rax, addr; call rax; cmp al, 0; jz +0
    expected.extend_from_slice(&[0x4a, 0x8d, 0x3c, 0x23, 0x48, 0xb8]);
    expected.extend_from_slice(&[0x88, 0x77, 0x66, 0x55, 0x44, 0x33, 0x22, 0x11]);
    expected.extend_from_slice(&[0xff, 0xd0, 0x3c, 0x00, 0x0f, 0x84, 0x00, 0x00, 0x00, 0x00]);
    expected.extend_from_slice(&epilogue());
    assert_eq!(img, expected);
}

#[test]
fn assembler_agrees_with_raw_emitter() {
    let programs: Vec<&[u8]> = vec![
        b"+",
        b"[-]",
        b"++[>+++<-]>.",
        b",[.,]",
        b"+++>--[<.>-]",
    ];
    for program in programs {
        let code = bfjit::program::compile(program).unwrap();
        let img = bfjit::jit::machine::emit(&code, 0x11223344, 0x55667788);
        let buf = bfjit::jit::assembler::compile(program, 0x11223344, 0x55667788).unwrap();
        assert_eq!(bfjit::jit::dynasm::buffer_bytes(&buf), img);
        let buf2 = bfjit::jit::x86_64::assembler::compile(program, 0x11223344, 0x55667788)
            .unwrap();
        assert_eq!(bfjit::jit::dynasm::buffer_bytes(&buf2), img);
    }
}

#[test]
fn mapping_round_trip() {
    let program = b"++[>+++<-]>.";
    let code = bfjit::program::compile(program).unwrap();
    let img = bfjit::jit::machine::emit(&code, 0x11223344, 0x55667788);
    let mapped = bfjit::jit::machine::compile(program, 0x11223344, 0x55667788).unwrap();
    assert_eq!(bfjit::jit::mapped_bytes(&mapped), img);
}

#[test]
fn compile_reports_bracket_errors() {
    assert!(matches!(
        bfjit::jit::machine::compile(b"[", 0, 0),
        Err(Error::UnmatchedLeft)
    ));
    assert!(matches!(
        bfjit::jit::machine::compile(b"]", 0, 0),
        Err(Error::UnmatchedRight)
    ));
    assert!(matches!(
        bfjit::jit::assembler::compile(b"+[", 0, 0),
        Err(Error::UnmatchedLeft)
    ));
    assert!(matches!(
        bfjit::jit::x86_64::assembler::compile(b"]+", 0, 0),
        Err(Error::UnmatchedRight)
    ));
}
