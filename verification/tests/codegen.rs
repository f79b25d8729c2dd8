use bfjit::machine::Machine;
use bfjit::symbol::Symbol;

fn compile(block: &Vec<Symbol>) -> Vec<u8> {
    let m = Machine::new_with_source("");
    m.compile_block(block)
}

const CMP: [u8; 5] = [0x41, 0x80, 0x7D, 0x00, 0x00];

#[test]
fn add_template() {
    assert_eq!(compile(&vec![Symbol::Add(5)]), vec![0x41, 0x80, 0x45, 0x00, 0x05]);
}

#[test]
fn zero_template() {
    assert_eq!(compile(&vec![Symbol::Zero]), vec![0x41, 0xC6, 0x45, 0x00, 0x00]);
}

#[test]
fn move_template_little_endian() {
    assert_eq!(
        compile(&vec![Symbol::Move(3)]),
        vec![0x49, 0x81, 0xC5, 0x03, 0x00, 0x00, 0x00]
    );
    // a left move carries a wrapped offset in the upper half of the tape
    // range; it compiles to the equivalent negative displacement, here -1
    assert_eq!(
        compile(&vec![Symbol::Move(29999)]),
        vec![0x49, 0x81, 0xC5, 0xFF, 0xFF, 0xFF, 0xFF]
    );
    // three cells leftward is -3
    assert_eq!(
        compile(&vec![Symbol::Move(29997)]),
        vec![0x49, 0x81, 0xC5, 0xFD, 0xFF, 0xFF, 0xFF]
    );
}

#[test]
fn print_uses_write_to_fd_1() {
    let code = compile(&vec![Symbol::Print]);
    let expected: Vec<u8> = vec![
        0x48, 0xC7, 0xC0, 0x01, 0x00, 0x00, 0x00, // mov rax, 1 (write)
        0x48, 0xC7, 0xC7, 0x01, 0x00, 0x00, 0x00, // mov rdi, 1 (stdout)
        0x48, 0xC7, 0xC2, 0x01, 0x00, 0x00, 0x00, // mov rdx, 1
        0x4C, 0x89, 0xEE, // mov rsi, r13
        0x0F, 0x05, // syscall
    ];
    assert_eq!(code, expected);
}

#[test]
fn read_uses_read_from_fd_0() {
    let code = compile(&vec![Symbol::Read]);
    let expected: Vec<u8> = vec![
        0x48, 0xC7, 0xC0, 0x00, 0x00, 0x00, 0x00, // mov rax, 0 (read)
        0x48, 0xC7, 0xC7, 0x00, 0x00, 0x00, 0x00, // mov rdi, 0 (stdin)
        0x48, 0xC7, 0xC2, 0x01, 0x00, 0x00, 0x00, // mov rdx, 1
        0x4C, 0x89, 0xEE, // mov rsi, r13
        0x0F, 0x05, // syscall
    ];
    assert_eq!(code, expected);
}

#[test]
fn small_loop_both_branches_short() {
    // loop body: one Add, 5 bytes; spans are 12 forward and -12 backward
    let code = compile(&vec![Symbol::Loop(vec![Symbol::Add(255)])]);
    let mut expected: Vec<u8> = Vec::new();
    expected.extend_from_slice(&CMP);
    expected.extend_from_slice(&[0x74, 12]); // jz +12
    expected.extend_from_slice(&[0x41, 0x80, 0x45, 0x00, 0xFF]);
    expected.extend_from_slice(&CMP);
    expected.extend_from_slice(&[0x75, 244]); // jnz -12
    assert_eq!(code, expected);
}

#[test]
fn branch_boundary_short_short_at_120() {
    // 24 Adds: body is 120 bytes, both displacements fit a signed byte
    let code = compile(&vec![Symbol::Loop(vec![Symbol::Add(1); 24])]);
    assert_eq!(code.len(), 5 + 2 + 120 + 5 + 2);
    assert_eq!(code[5], 0x74); // jz short
    assert_eq!(code[6], 127); // +127
    assert_eq!(code[132], 0x75); // jnz short
    assert_eq!(code[133], 129); // -127 as a byte
}

#[test]
fn branch_boundary_mixed_at_121() {
    // 19 Adds and one Print: body is 121 bytes; the forward displacement
    // 128 no longer fits a signed byte but the backward -128 still does
    let mut body = vec![Symbol::Add(1); 19];
    body.push(Symbol::Print);
    let code = compile(&vec![Symbol::Loop(body)]);
    assert_eq!(code.len(), 5 + 6 + 121 + 5 + 2);
    assert_eq!(code[5..11].to_vec(), vec![0x0F, 0x84, 128, 0, 0, 0]); // jz long +128
    assert_eq!(code[137], 0x75); // jnz short
    assert_eq!(code[138], 128); // -128 as a byte
}

#[test]
fn branch_boundary_long_long_at_122() {
    // 23 Adds and one Move: body is 122 bytes; both spans grow to 133 and
    // neither fits a signed byte
    let mut body = vec![Symbol::Add(1); 23];
    body.push(Symbol::Move(1));
    let code = compile(&vec![Symbol::Loop(body)]);
    assert_eq!(code.len(), 5 + 6 + 122 + 5 + 6);
    assert_eq!(code[5..11].to_vec(), vec![0x0F, 0x84, 133, 0, 0, 0]); // jz long +133
    // -133 in 32-bit two's complement, little endian
    assert_eq!(code[138..144].to_vec(), vec![0x0F, 0x85, 0x7B, 0xFF, 0xFF, 0xFF]);
}

#[test]
fn image_has_prologue_and_ret() {
    let m = Machine::new_with_source("");
    let code = m.compiled_code(0x1122334455667788);
    assert_eq!(
        code,
        vec![0x49, 0xBD, 0x88, 0x77, 0x66, 0x55, 0x44, 0x33, 0x22, 0x11, 0xC3]
    );
}

#[test]
fn image_of_program_wraps_compiled_block() {
    let m = Machine::new_with_source("+");
    let code = m.compiled_code(0);
    let mut expected: Vec<u8> = vec![0x49, 0xBD, 0, 0, 0, 0, 0, 0, 0, 0];
    expected.extend_from_slice(&[0x41, 0x80, 0x45, 0x00, 0x01]);
    expected.push(0xC3);
    assert_eq!(code, expected);
}
