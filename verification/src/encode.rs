//! The instruction-encoding table for the x86-64, POSIX system-call target.
//!
//! Each instruction maps to a fixed byte template, with `r13` the reserved
//! base register holding the address of the current tape cell. `Print` and
//! `Read` invoke the `write`/`read` system calls directly (file descriptors
//! 1 and 0), so the generated code needs no support library. A loop
//! compiles to: compare the cell to 0, jump-if-zero forward past the block;
//! the body; compare again, jump-if-nonzero back to the body. Each branch
//! takes the 8-bit relative form exactly when its displacement fits a
//! signed byte, and the 32-bit relative form otherwise; the two directions
//! are decided independently ([`fwd_short`], [`back_short`]).

use vstd::prelude::*;

use crate::symbol::SymSpec;
use crate::symbol::TAPE_LEN;

verus! {

broadcast use vstd::seq::axiom_seq_index_decreases;

/// The one-byte `ret` instruction.
pub const RET: u8 = 0xC3;

/// Little-endian bytes of a 32-bit immediate.
pub open spec fn le32(n: u32) -> Seq<u8> {
    seq![
        (n % 256) as u8,
        ((n / 256) % 256) as u8,
        ((n / 65536) % 256) as u8,
        ((n / 16777216) % 256) as u8,
    ]
}

/// Little-endian bytes of a 64-bit immediate.
pub open spec fn le64(n: u64) -> Seq<u8> {
    seq![
        (n % 256) as u8,
        ((n / 256) % 256) as u8,
        ((n / 65536) % 256) as u8,
        ((n / 16777216) % 256) as u8,
        ((n / 4294967296) % 256) as u8,
        ((n / 1099511627776) % 256) as u8,
        ((n / 281474976710656) % 256) as u8,
        ((n / 72057594037927936) % 256) as u8,
    ]
}

/// `add byte [r13], n`.
pub open spec fn enc_add(n: u8) -> Seq<u8> {
    seq![0x41, 0x80, 0x45, 0x00, n]
}

/// `add r13, imm32`.
pub open spec fn enc_move(n: u32) -> Seq<u8> {
    seq![0x49, 0x81, 0xC5] + le32(n)
}

/// `mov byte [r13], 0`.
pub open spec fn enc_zero() -> Seq<u8> {
    seq![0x41, 0xC6, 0x45, 0x00, 0x00]
}

/// `cmp byte [r13], 0`.
pub open spec fn enc_cmp() -> Seq<u8> {
    seq![0x41, 0x80, 0x7D, 0x00, 0x00]
}

/// A one-byte system call on the current cell:
/// `mov rax, sysno; mov rdi, fd; mov rdx, 1; mov rsi, r13; syscall`.
pub open spec fn enc_syscall(sysno: u8, fd: u8) -> Seq<u8> {
    seq![
        0x48, 0xC7, 0xC0, sysno, 0x00, 0x00, 0x00,
        0x48, 0xC7, 0xC7, fd, 0x00, 0x00, 0x00,
        0x48, 0xC7, 0xC2, 0x01, 0x00, 0x00, 0x00,
        0x4C, 0x89, 0xEE,
        0x0F, 0x05,
    ]
}

/// `write(1, r13, 1)`: emit the current cell to standard output.
pub open spec fn enc_print() -> Seq<u8> {
    enc_syscall(1, 1)
}

/// `read(0, r13, 1)`: store one byte of standard input into the cell.
pub open spec fn enc_read() -> Seq<u8> {
    enc_syscall(0, 0)
}

/// `jz` with an 8-bit relative displacement.
pub open spec fn enc_jz_short(off: u8) -> Seq<u8> {
    seq![0x74, off]
}

/// `jz` with a 32-bit relative displacement.
pub open spec fn enc_jz_long(off: u32) -> Seq<u8> {
    seq![0x0F, 0x84] + le32(off)
}

/// `jnz` with an 8-bit relative displacement.
pub open spec fn enc_jnz_short(off: u8) -> Seq<u8> {
    seq![0x75, off]
}

/// `jnz` with a 32-bit relative displacement.
pub open spec fn enc_jnz_long(off: u32) -> Seq<u8> {
    seq![0x0F, 0x85] + le32(off)
}

/// `mov r13, imm64`: load the tape address into the base register.
pub open spec fn enc_mov_r13(addr: u64) -> Seq<u8> {
    seq![0x49, 0xBD] + le64(addr)
}

/// Does the backward branch of a loop with body length `l` take the short
/// form? Its displacement is `-(l + 7)`, which must fit a signed byte.
pub open spec fn back_short(l: nat) -> bool {
    l + 7 <= 128
}

/// The magnitude of both displacements of a compiled loop: from the end of
/// the forward branch to just past the block, and from the end of the
/// backward branch back to the start of the body. Both spans cover the
/// body, the second compare, and the backward branch itself (2 or 6 bytes).
pub open spec fn branch_span(l: nat) -> nat {
    if back_short(l) {
        l + 7
    } else {
        l + 11
    }
}

/// Does the forward branch take the short form? Its displacement is
/// `branch_span(l)`, which must fit a signed byte.
pub open spec fn fwd_short(l: nat) -> bool {
    branch_span(l) <= 127
}

/// The 32-bit immediate of a compiled `Move`: the offset as the signed
/// displacement of smallest magnitude, in two's complement. An offset in
/// the upper half of the tape range is a net leftward move; emitting it as
/// a negative displacement moves the base register exactly as the cursor
/// moves, rather than driving it a whole tape length upward on every
/// wrapped round trip.
pub open spec fn move_imm(n: usize) -> u32 {
    let m = (n as int) % (TAPE_LEN as int);
    if m < 15000 {
        m as u32
    } else {
        (0x100000000 - (TAPE_LEN - m)) as u32
    }
}

/// The bytes of a compiled loop around an already-compiled body.
pub open spec fn code_of_loop(body: Seq<u8>) -> Seq<u8> {
    let m = branch_span(body.len());
    let fwd = if fwd_short(body.len()) {
        enc_jz_short(m as u8)
    } else {
        enc_jz_long(m as u32)
    };
    let back = if back_short(body.len()) {
        enc_jnz_short((256 - m) as u8)
    } else {
        enc_jnz_long((0x100000000 - m) as u32)
    };
    enc_cmp() + fwd + body + enc_cmp() + back
}

/// The compiled bytes of one instruction.
pub open spec fn code_of(s: SymSpec) -> Seq<u8>
    decreases s, 0nat,
{
    match s {
        SymSpec::Add(n) => enc_add(n),
        SymSpec::Move(n) => enc_move(move_imm(n)),
        SymSpec::Print => enc_print(),
        SymSpec::Read => enc_read(),
        SymSpec::Zero => enc_zero(),
        SymSpec::Loop(b) => code_of_loop(code_of_block_from(b, 0)),
    }
}

/// The compiled bytes of the instructions of `b` from position `i` on.
pub open spec fn code_of_block_from(b: Seq<SymSpec>, i: nat) -> Seq<u8>
    decreases b, b.len() - i + 1,
{
    if i < b.len() {
        code_of(b[i as int]) + code_of_block_from(b, i + 1)
    } else {
        Seq::empty()
    }
}

/// The compiled bytes of a whole block.
pub open spec fn code_of_block(b: Seq<SymSpec>) -> Seq<u8> {
    code_of_block_from(b, 0)
}

/// The complete code image for a program: load the tape address into
/// `r13`, then the program's code, then `ret`.
pub open spec fn image_of(prog: Seq<SymSpec>, tape_addr: u64) -> Seq<u8> {
    enc_mov_r13(tape_addr) + code_of_block(prog) + seq![RET]
}

/// Up to a body of 120 bytes both displacements (at most 127 forward,
/// -127 backward) fit a signed byte: both branches take the short form.
pub proof fn lemma_loop_enc_both_short(body: Seq<u8>)
    requires
        body.len() <= 120,
    ensures
        code_of_loop(body) == enc_cmp() + enc_jz_short((body.len() + 7) as u8) + body + enc_cmp()
            + enc_jnz_short((249 - body.len()) as u8),
{
}

/// At a body of exactly 121 bytes the backward displacement -128 still
/// fits a signed byte while the forward displacement 128 does not: the
/// forward branch takes the long form, the backward branch the short form.
pub proof fn lemma_loop_enc_boundary(body: Seq<u8>)
    requires
        body.len() == 121,
    ensures
        code_of_loop(body) == enc_cmp() + enc_jz_long(128) + body + enc_cmp() + enc_jnz_short(128),
{
}

/// From a body of 122 bytes on neither displacement fits a signed byte:
/// both branches take the 32-bit form, and the spans grow to `l + 11` to
/// step over the 6-byte backward branch.
pub proof fn lemma_loop_enc_both_long(body: Seq<u8>)
    requires
        122 <= body.len(),
        body.len() + 11 < 0x80000000,
    ensures
        code_of_loop(body) == enc_cmp() + enc_jz_long((body.len() + 11) as u32) + body + enc_cmp()
            + enc_jnz_long((0x100000000 - (body.len() + 11)) as u32),
{
}

} // verus!
