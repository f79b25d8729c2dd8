//! The machine: the interpreter and its mathematical semantics.
//!
//! A run owns a 30000-cell byte tape with a cursor, a queue of input bytes
//! and a buffer of output bytes. The semantics of a program is given by
//! [`step_sym`] and [`step_block`], which run with a fuel bounding how often
//! any loop may repeat: a source-language loop need not terminate, so the
//! interpreter takes a fuel and reports whether the program completed
//! within it, reproducing the fuel semantics exactly.
//! A `Read` past the end of the buffered input stores 0 and is not an error.

use vstd::arithmetic::div_mod::lemma_add_mod_noop_right;
use vstd::prelude::*;

use crate::encode::code_of;
use crate::encode::code_of_block;
use crate::encode::code_of_block_from;
use crate::encode::image_of;
use crate::symbol::block_view;
use crate::symbol::clone_block;
use crate::symbol::lemma_block_view;
use crate::symbol::opt_block;
use crate::symbol::parse;
use crate::symbol::sym_view;
use crate::symbol::wrap_add_cell;
use crate::symbol::SymSpec;
use crate::symbol::Symbol;
use crate::symbol::TAPE_LEN;
use vstd::string::StringSliceAdditionalSpecFns;

verus! {

broadcast use vstd::std_specs::vec::axiom_vec_index_decreases, vstd::seq::axiom_seq_index_decreases;

/// Mathematical state of one run: the tape, the cursor, the input not yet
/// consumed, and the output produced so far.
pub struct MState {
    pub tape: Seq<u8>,
    pub idx: nat,
    pub input: Seq<u8>,
    pub output: Seq<u8>,
}

/// A well-formed state: a full-length tape with the cursor on it.
pub open spec fn st_wf(st: MState) -> bool {
    st.tape.len() == TAPE_LEN && st.idx < TAPE_LEN
}

/// The byte a `Read` stores: the next input byte, or 0 when the input is
/// exhausted.
pub open spec fn read_byte(st: MState) -> u8 {
    if st.input.len() > 0 {
        st.input[0]
    } else {
        0
    }
}

/// The input left after a `Read`.
pub open spec fn read_rest(st: MState) -> Seq<u8> {
    if st.input.len() > 0 {
        st.input.drop_first()
    } else {
        st.input
    }
}

/// Run one instruction from `st`. `fuel` bounds how often any loop may
/// repeat; `None` means the fuel did not suffice.
pub open spec fn step_sym(st: MState, s: SymSpec, fuel: nat) -> Option<MState>
    decreases fuel, s, 0nat,
{
    match s {
        SymSpec::Add(n) => Some(
            MState {
                tape: st.tape.update(st.idx as int, wrap_add_cell(st.tape[st.idx as int], n)),
                ..st
            },
        ),
        SymSpec::Move(n) => Some(MState { idx: ((st.idx + n) % (TAPE_LEN as int)) as nat, ..st }),
        SymSpec::Print => Some(MState { output: st.output.push(st.tape[st.idx as int]), ..st }),
        SymSpec::Read => Some(
            MState {
                tape: st.tape.update(st.idx as int, read_byte(st)),
                input: read_rest(st),
                ..st
            },
        ),
        SymSpec::Zero => Some(MState { tape: st.tape.update(st.idx as int, 0), ..st }),
        SymSpec::Loop(body) => {
            if st.tape[st.idx as int] == 0 {
                Some(st)
            } else if fuel == 0 {
                None
            } else {
                match step_block(st, body, 0, fuel) {
                    Some(st2) => step_sym(st2, s, (fuel - 1) as nat),
                    None => None,
                }
            }
        },
    }
}

/// Run the instructions of `b` from position `i` on, from `st`.
pub open spec fn step_block(st: MState, b: Seq<SymSpec>, i: nat, fuel: nat) -> Option<MState>
    decreases fuel, b, b.len() - i + 1,
{
    if i < b.len() {
        match step_sym(st, b[i as int], fuel) {
            Some(st2) => step_block(st2, b, i + 1, fuel),
            None => None,
        }
    } else {
        Some(st)
    }
}

/// `n` to the 63rd power, modulo 256, via repeated squaring. For odd `n`
/// this is the multiplicative inverse of `n` modulo 256: the odd residues
/// form a group whose exponent divides 64, so `n * n^63 == n^64 == 1`.
pub open spec fn odd_inverse(n: u8) -> int {
    let p2 = (n * n) % 256;
    let p4 = (p2 * p2) % 256;
    let p8 = (p4 * p4) % 256;
    let p16 = (p8 * p8) % 256;
    let p32 = (p16 * p16) % 256;
    ((((((p32 * p16) % 256) * p8) % 256 * p4) % 256 * p2) % 256 * n) % 256
}

/// Running `Loop([Add(n)])` with `k` iterations of fuel zeroes the current
/// cell whenever `cell + k * n` is a multiple of 256.
proof fn lemma_add_loop_runs(st: MState, n: u8, k: nat)
    requires
        st_wf(st),
        (st.tape[st.idx as int] + k * n) % 256 == 0,
    ensures
        step_sym(st, SymSpec::Loop(seq![SymSpec::Add(n)]), k) == Some(
            MState { tape: st.tape.update(st.idx as int, 0), ..st },
        ),
    decreases k,
{
    let b = seq![SymSpec::Add(n)];
    let lp = SymSpec::Loop(b);
    let c = st.tape[st.idx as int];
    if c == 0 {
        assert(st.tape.update(st.idx as int, 0) =~= st.tape);
        assert(MState { tape: st.tape.update(st.idx as int, 0), ..st } == st);
    } else {
        assert(k > 0) by {
            if k == 0 {
                assert((c + 0 * n) % 256 == c);
            }
        }
        let c2 = wrap_add_cell(c, n);
        let st1 = MState { tape: st.tape.update(st.idx as int, c2), ..st };
        assert(step_sym(st, b[0], k) == Some(st1));
        assert(step_block(st1, b, 1, k) == Some(st1));
        assert(step_block(st, b, 0, k) == Some(st1));
        assert((c2 + (k - 1) * n) % 256 == 0) by {
            assert(c + n + (k - 1) * n == c + k * n) by (nonlinear_arith)
                requires
                    k >= 1,
            ;
            lemma_add_mod_noop_right((k - 1) * n, c + n, 256);
        }
        lemma_add_loop_runs(st1, n, (k - 1) as nat);
        assert(st1.tape.update(st.idx as int, 0) =~= st.tape.update(st.idx as int, 0));
        assert(step_sym(st, lp, k) == step_sym(st1, lp, (k - 1) as nat));
    }
}

/// Rewriting a single-`Add` loop to `Zero` is sound for every odd delta:
/// from any state some fuel runs the loop to completion, and it ends in
/// exactly the state that `Zero` produces. (For an even delta the loop can
/// repeat forever while `Zero` always completes; the rewrite is a
/// documented semantic change there and is deliberately not claimed.)
pub proof fn lemma_odd_add_loop_zeroes(st: MState, n: u8, fz: nat)
    requires
        st_wf(st),
        n % 2 == 1,
    ensures
        exists|fuel: nat|
            step_sym(st, SymSpec::Loop(seq![SymSpec::Add(n)]), fuel) == step_sym(
                st,
                SymSpec::Zero,
                fz,
            ),
{
    let c = st.tape[st.idx as int];
    let kv: int = ((256 - c) * odd_inverse(n)) % 256;
    assert(0 <= kv < 256) by {
        vstd::arithmetic::div_mod::lemma_mod_bound((256 - c) * odd_inverse(n), 256);
    }
    let k: u8 = kv as u8;
    assert(k as int == ((256 - c) * odd_inverse(n)) % 256 && n % 2 == 1 ==> (c + k * n) % 256
        == 0) by (bit_vector);
    lemma_add_loop_runs(st, n, k as nat);
    assert(step_sym(st, SymSpec::Zero, fz) == Some(
        MState { tape: st.tape.update(st.idx as int, 0), ..st },
    ));
}

/// Buffered input bytes, handed out in order. Reading past the end yields
/// 0: missing input is not an error.
#[derive(Debug)]
pub struct Input {
    buffer: Vec<u8>,
    pos: usize,
}

impl View for Input {
    type V = Seq<u8>;

    closed spec fn view(&self) -> Seq<u8> {
        self.buffer@.skip(self.pos as int)
    }
}

impl Input {
    /// Well-formed: the read cursor is within the buffer.
    pub closed spec fn wf(&self) -> bool {
        self.pos <= self.buffer@.len()
    }

    /// A fresh input with no bytes buffered.
    pub fn new() -> (r: Input)
        ensures
            r.wf(),
            r@ == Seq::<u8>::empty(),
    {
        let r = Input { buffer: Vec::new(), pos: 0 };
        proof {
            assert(r@ =~= Seq::<u8>::empty());
        }
        r
    }

    /// Append one byte to the buffered input.
    pub fn push(&mut self, b: u8)
        requires
            old(self).wf(),
        ensures
            final(self).wf(),
            final(self)@ == old(self)@.push(b),
    {
        self.buffer.push(b);
        proof {
            assert(final(self)@ =~= old(self)@.push(b));
        }
    }

    /// Hand out the next buffered byte, or 0 when none is left.
    pub fn read(&mut self) -> (r: u8)
        requires
            old(self).wf(),
        ensures
            final(self).wf(),
            old(self)@.len() > 0 ==> r == old(self)@[0] && final(self)@ == old(self)@.drop_first(),
            old(self)@.len() == 0 ==> r == 0 && final(self)@ == old(self)@,
    {
        if self.pos < self.buffer.len() {
            let b = self.buffer[self.pos];
            self.pos = self.pos + 1;
            proof {
                assert(final(self)@ =~= old(self)@.drop_first());
            }
            b
        } else {
            0
        }
    }
}

/// One run of a program: the program tree and the tape, input and output
/// it drives.
#[derive(Debug)]
pub struct Machine {
    program: Vec<Symbol>,
    input: Input,
    tape: Vec<u8>,
    tape_idx: usize,
    output: Vec<u8>,
}

impl Machine {
    /// The program to run.
    pub closed spec fn prog(&self) -> Seq<SymSpec> {
        block_view(self.program)
    }

    /// The tape, cursor, input and output as one mathematical state.
    pub closed spec fn st(&self) -> MState {
        MState {
            tape: self.tape@,
            idx: self.tape_idx as nat,
            input: self.input@,
            output: self.output@,
        }
    }

    /// Well-formed machine.
    pub closed spec fn wf(&self) -> bool {
        st_wf(self.st()) && self.input.wf()
    }

    /// Build a machine for the given source text: the parsed and rewritten
    /// program, a zeroed tape, the cursor at cell 0, and no input or output.
    pub fn new_with_source(source: &str) -> (r: Machine)
        ensures
            r.wf(),
            r.prog() == opt_block(parse(source.spec_bytes())),
            r.st().idx == 0,
            r.st().input == Seq::<u8>::empty(),
            r.st().output == Seq::<u8>::empty(),
            forall|i: int| 0 <= i < TAPE_LEN ==> r.st().tape[i] == 0,
    {
        let program = Symbol::parse_str(source, true);
        let mut tape: Vec<u8> = Vec::new();
        let mut i: usize = 0;
        while i < TAPE_LEN
            invariant
                i <= TAPE_LEN,
                tape@.len() == i,
                forall|k: int| 0 <= k < i ==> tape@[k] == 0,
            decreases TAPE_LEN - i,
        {
            tape.push(0);
            i = i + 1;
        }
        let r = Machine { program, input: Input::new(), tape, tape_idx: 0, output: Vec::new() };
        proof {
            assert(r.st().input =~= Seq::<u8>::empty());
            assert(r.st().output =~= Seq::<u8>::empty());
        }
        r
    }

    /// Append bytes to the machine's buffered input.
    pub fn feed_input(&mut self, bytes: &[u8])
        requires
            old(self).wf(),
        ensures
            final(self).wf(),
            final(self).prog() == old(self).prog(),
            final(self).st().input == old(self).st().input + bytes@,
            final(self).st().tape == old(self).st().tape,
            final(self).st().idx == old(self).st().idx,
            final(self).st().output == old(self).st().output,
    {
        let mut i: usize = 0;
        while i < bytes.len()
            invariant
                old(self).wf(),
                self.wf(),
                i <= bytes@.len(),
                self.program == old(self).program,
                self.tape == old(self).tape,
                self.tape_idx == old(self).tape_idx,
                self.output == old(self).output,
                self.input@ == old(self).input@ + bytes@.subrange(0, i as int),
            decreases bytes@.len() - i,
        {
            self.input.push(bytes[i]);
            proof {
                assert(old(self).input@ + bytes@.subrange(0, i + 1) =~= (old(self).input@
                    + bytes@.subrange(0, i as int)).push(bytes@[i as int]));
            }
            i = i + 1;
        }
        proof {
            assert(bytes@.subrange(0, i as int) =~= bytes@);
        }
    }

    /// The output produced so far.
    pub fn output(&self) -> (r: &Vec<u8>)
        ensures
            r@ == self.st().output,
    {
        &self.output
    }

    /// The value of tape cell `i`.
    pub fn cell_at(&self, i: usize) -> (r: u8)
        requires
            self.wf(),
            i < TAPE_LEN,
        ensures
            r == self.st().tape[i as int],
    {
        self.tape[i]
    }

    /// The cursor position.
    pub fn cursor(&self) -> (r: usize)
        ensures
            r as nat == self.st().idx,
    {
        self.tape_idx
    }

    /// Run one instruction against the machine state, with `fuel` bounding
    /// how often any loop may repeat. Returns whether the run completed;
    /// on `false` the fuel ran out and the state is the point reached.
    #[verifier::loop_isolation(false)]
    fn run_instr(&mut self, instr: &Symbol, fuel: u64) -> (done: bool)
        requires
            old(self).wf(),
        ensures
            final(self).wf(),
            final(self).prog() == old(self).prog(),
            done ==> step_sym(old(self).st(), sym_view(*instr), fuel as nat) == Some(
                final(self).st(),
            ),
            !done ==> step_sym(old(self).st(), sym_view(*instr), fuel as nat) is None,
        decreases instr, 1nat,
    {
        match instr {
            Symbol::Add(n) => {
                let i = self.tape_idx;
                let v = self.tape[i];
                let nv = v.wrapping_add(*n);
                self.tape.set(i, nv);
                proof {
                    assert(nv == wrap_add_cell(v, *n));
                }
                true
            },
            Symbol::Move(n) => {
                let m = *n % TAPE_LEN;
                self.tape_idx = (self.tape_idx + m) % TAPE_LEN;
                proof {
                    lemma_add_mod_noop_right(
                        old(self).tape_idx as int,
                        *n as int,
                        TAPE_LEN as int,
                    );
                }
                true
            },
            Symbol::Print => {
                let b = self.tape[self.tape_idx];
                self.output.push(b);
                true
            },
            Symbol::Read => {
                let b = self.input.read();
                let i = self.tape_idx;
                self.tape.set(i, b);
                proof {
                    assert(b == read_byte(old(self).st()));
                    assert(self.st().input == read_rest(old(self).st()));
                }
                true
            },
            Symbol::Zero => {
                let i = self.tape_idx;
                self.tape.set(i, 0);
                true
            },
            Symbol::Loop(body) => {
                let ghost lp = sym_view(*instr);
                let ghost st0 = old(self).st();
                let ghost bv = block_view(*body);
                let mut f = fuel;
                while self.tape[self.tape_idx] != 0
                    invariant
                        self.wf(),
                        self.prog() == old(self).prog(),
                        lp == SymSpec::Loop(bv),
                        f <= fuel,
                        step_sym(st0, lp, fuel as nat) == step_sym(self.st(), lp, f as nat),
                    decreases f,
                {
                    if f == 0 {
                        proof {
                            assert(step_sym(self.st(), lp, f as nat) is None);
                        }
                        return false;
                    }
                    let ghost pre = self.st();
                    proof {
                        assert(decreases_to!(*instr => *body));
                    }
                    let ok = self.run_block(body, f);
                    if !ok {
                        proof {
                            assert(step_block(pre, bv, 0, f as nat) is None);
                            assert(step_sym(pre, lp, f as nat) is None);
                        }
                        return false;
                    }
                    proof {
                        assert(step_sym(pre, lp, f as nat) == step_sym(self.st(), lp, (f - 1) as nat));
                    }
                    f = f - 1;
                }
                true
            },
        }
    }

    /// Run a block of instructions in order against the machine state, with
    /// `fuel` bounding how often any loop may repeat.
    #[verifier::loop_isolation(false)]
    pub fn run_block(&mut self, block: &Vec<Symbol>, fuel: u64) -> (done: bool)
        requires
            old(self).wf(),
        ensures
            final(self).wf(),
            final(self).prog() == old(self).prog(),
            done ==> step_block(old(self).st(), block_view(*block), 0, fuel as nat) == Some(
                final(self).st(),
            ),
            !done ==> step_block(old(self).st(), block_view(*block), 0, fuel as nat) is None,
        decreases block, 0nat,
    {
        let ghost st0 = old(self).st();
        let ghost bv = block_view(*block);
        proof {
            lemma_block_view(*block);
        }
        let mut idx: usize = 0;
        while idx < block.len()
            invariant
                self.wf(),
                self.prog() == old(self).prog(),
                idx <= block@.len(),
                bv == block_view(*block),
                bv.len() == block@.len(),
                forall|q: int| 0 <= q < block@.len() ==> bv[q] == sym_view(block@[q]),
                step_block(st0, bv, 0, fuel as nat) == step_block(
                    self.st(),
                    bv,
                    idx as nat,
                    fuel as nat,
                ),
            decreases block@.len() - idx,
        {
            proof {
                vstd::std_specs::vec::axiom_vec_index_decreases(*block, idx as int);
                assert(decreases_to!(*block => block@[idx as int]));
            }
            let ghost pre = self.st();
            let ok = self.run_instr(&block[idx], fuel);
            if !ok {
                proof {
                    assert(step_block(pre, bv, idx as nat, fuel as nat) is None);
                }
                return false;
            }
            proof {
                assert(step_block(pre, bv, idx as nat, fuel as nat) == step_block(
                    self.st(),
                    bv,
                    (idx + 1) as nat,
                    fuel as nat,
                ));
            }
            idx = idx + 1;
        }
        true
    }

    /// Run the whole program against the machine state, with `fuel`
    /// bounding how often any loop may repeat. Returns whether the program
    /// ran to completion within the fuel.
    pub fn run(&mut self, fuel: u64) -> (done: bool)
        requires
            old(self).wf(),
        ensures
            final(self).wf(),
            final(self).prog() == old(self).prog(),
            done ==> step_block(old(self).st(), old(self).prog(), 0, fuel as nat) == Some(
                final(self).st(),
            ),
            !done ==> step_block(old(self).st(), old(self).prog(), 0, fuel as nat) is None,
    {
        let prog = clone_block(&self.program);
        self.run_block(&prog, fuel)
    }
}

/// Largest code size the generator accepts, so that branch displacements
/// fit the 32-bit relative form and no length computation can overflow.
pub const CODE_LIMIT: usize = 0x10000000;

/// Append the little-endian bytes of a 32-bit immediate.
fn push_le32(code: &mut Vec<u8>, n: u32)
    ensures
        final(code)@ == old(code)@ + crate::encode::le32(n),
{
    code.push((n % 256) as u8);
    code.push(((n / 256) % 256) as u8);
    code.push(((n / 65536) % 256) as u8);
    code.push(((n / 16777216) % 256) as u8);
    proof {
        assert(code@ =~= old(code)@ + crate::encode::le32(n));
    }
}

/// Append the little-endian bytes of a 64-bit immediate.
fn push_le64(code: &mut Vec<u8>, n: u64)
    ensures
        final(code)@ == old(code)@ + crate::encode::le64(n),
{
    code.push((n % 256) as u8);
    code.push(((n / 256) % 256) as u8);
    code.push(((n / 65536) % 256) as u8);
    code.push(((n / 16777216) % 256) as u8);
    code.push(((n / 4294967296) % 256) as u8);
    code.push(((n / 1099511627776) % 256) as u8);
    code.push(((n / 281474976710656) % 256) as u8);
    code.push(((n / 72057594037927936) % 256) as u8);
    proof {
        assert(code@ =~= old(code)@ + crate::encode::le64(n));
    }
}

/// Append `cmp byte [r13], 0`.
fn push_cmp(code: &mut Vec<u8>)
    ensures
        final(code)@ == old(code)@ + crate::encode::enc_cmp(),
{
    code.push(0x41);
    code.push(0x80);
    code.push(0x7D);
    code.push(0x00);
    code.push(0x00);
    proof {
        assert(code@ =~= old(code)@ + crate::encode::enc_cmp());
    }
}

/// Append the one-byte-on-the-cell system call template.
fn push_syscall(code: &mut Vec<u8>, sysno: u8, fd: u8)
    ensures
        final(code)@ == old(code)@ + crate::encode::enc_syscall(sysno, fd),
{
    code.push(0x48);
    code.push(0xC7);
    code.push(0xC0);
    code.push(sysno);
    code.push(0x00);
    code.push(0x00);
    code.push(0x00);
    code.push(0x48);
    code.push(0xC7);
    code.push(0xC7);
    code.push(fd);
    code.push(0x00);
    code.push(0x00);
    code.push(0x00);
    code.push(0x48);
    code.push(0xC7);
    code.push(0xC2);
    code.push(0x01);
    code.push(0x00);
    code.push(0x00);
    code.push(0x00);
    code.push(0x4C);
    code.push(0x89);
    code.push(0xEE);
    code.push(0x0F);
    code.push(0x05);
    proof {
        assert(code@ =~= old(code)@ + crate::encode::enc_syscall(sysno, fd));
    }
}

impl Machine {
    /// Compile one instruction to its byte template.
    #[verifier::loop_isolation(false)]
    fn compile_instr(&self, instr: &Symbol) -> (r: Vec<u8>)
        requires
            code_of(sym_view(*instr)).len() <= CODE_LIMIT,
        ensures
            r@ == code_of(sym_view(*instr)),
        decreases instr, 1nat,
    {
        let mut code: Vec<u8> = Vec::new();
        match instr {
            Symbol::Add(n) => {
                code.push(0x41);
                code.push(0x80);
                code.push(0x45);
                code.push(0x00);
                code.push(*n);
                proof {
                    assert(code@ =~= code_of(sym_view(*instr)));
                }
            },
            Symbol::Move(n) => {
                code.push(0x49);
                code.push(0x81);
                code.push(0xC5);
                let m = *n % TAPE_LEN;
                let imm: u32 = if m < 15000 {
                    m as u32
                } else {
                    (0x100000000u64 - ((TAPE_LEN - m) as u64)) as u32
                };
                push_le32(&mut code, imm);
                proof {
                    assert(imm == crate::encode::move_imm(*n));
                    assert(code@ =~= code_of(sym_view(*instr)));
                }
            },
            Symbol::Print => {
                push_syscall(&mut code, 1, 1);
            },
            Symbol::Read => {
                push_syscall(&mut code, 0, 0);
            },
            Symbol::Zero => {
                code.push(0x41);
                code.push(0xC6);
                code.push(0x45);
                code.push(0x00);
                code.push(0x00);
                proof {
                    assert(code@ =~= code_of(sym_view(*instr)));
                }
            },
            Symbol::Loop(body) => {
                let ghost bv = block_view(*body);
                proof {
                    assert(decreases_to!(*instr => *body));
                    assert(code_of(sym_view(*instr)) == crate::encode::code_of_loop(
                        code_of_block(bv),
                    ));
                }
                let mut body_code = self.compile_block(body);
                let l = body_code.len();
                push_cmp(&mut code);
                let bshort = l + 7 <= 128;
                let m = if bshort {
                    l + 7
                } else {
                    l + 11
                };
                if m <= 127 {
                    code.push(0x74);
                    code.push(m as u8);
                } else {
                    code.push(0x0F);
                    code.push(0x84);
                    push_le32(&mut code, m as u32);
                }
                code.append(&mut body_code);
                push_cmp(&mut code);
                if bshort {
                    code.push(0x75);
                    code.push((256 - m) as u8);
                } else {
                    code.push(0x0F);
                    code.push(0x85);
                    push_le32(&mut code, (0x100000000u64 - m as u64) as u32);
                }
                proof {
                    assert(code@ =~= code_of(sym_view(*instr)));
                }
            },
        }
        code
    }

    /// Compile a block of instructions to the concatenation of their byte
    /// templates.
    #[verifier::loop_isolation(false)]
    pub fn compile_block(&self, block: &Vec<Symbol>) -> (r: Vec<u8>)
        requires
            code_of_block(block_view(*block)).len() <= CODE_LIMIT,
        ensures
            r@ == code_of_block(block_view(*block)),
        decreases block, 0nat,
    {
        let ghost bv = block_view(*block);
        proof {
            lemma_block_view(*block);
        }
        let mut compiled: Vec<u8> = Vec::new();
        let mut idx: usize = 0;
        while idx < block.len()
            invariant
                idx <= block@.len(),
                code_of_block_from(bv, 0) == compiled@ + code_of_block_from(bv, idx as nat),
            decreases block@.len() - idx,
        {
            proof {
                vstd::std_specs::vec::axiom_vec_index_decreases(*block, idx as int);
                assert(decreases_to!(*block => block@[idx as int]));
                assert(code_of_block_from(bv, idx as nat) == code_of(bv[idx as int])
                    + code_of_block_from(bv, (idx + 1) as nat));
            }
            let mut piece = self.compile_instr(&block[idx]);
            compiled.append(&mut piece);
            proof {
                assert(compiled@ + code_of_block_from(bv, (idx + 1) as nat) =~= code_of_block_from(
                    bv,
                    0,
                ));
            }
            idx = idx + 1;
        }
        proof {
            assert(compiled@ =~= code_of_block_from(bv, 0));
        }
        compiled
    }

    /// The complete code image for this machine's program, given the
    /// address of the tape's first cell: load the address into `r13`, the
    /// program's code, and a trailing `ret`.
    pub fn compiled_code(&self, tape_addr: u64) -> (r: Vec<u8>)
        requires
            code_of_block(self.prog()).len() <= CODE_LIMIT,
        ensures
            r@ == image_of(self.prog(), tape_addr),
    {
        let mut code: Vec<u8> = Vec::new();
        code.push(0x49);
        code.push(0xBD);
        push_le64(&mut code, tape_addr);
        let mut body = self.compile_block(&self.program);
        code.append(&mut body);
        code.push(0xC3);
        proof {
            assert(code@ =~= image_of(self.prog(), tape_addr));
        }
        code
    }
}

} // verus!
