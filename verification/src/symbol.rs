//! The instruction model and the parser.
//!
//! Source text is a stream of bytes. The eight command bytes (`+ - > < . ,
//! [ ]`) are meaningful; every other byte is a comment and is discarded.
//! Runs of `+`/`-` collapse into a single `Add` carrying the net sum of the
//! run modulo 256, and runs of `>`/`<` collapse into a single `Move`
//! carrying the net displacement modulo the tape length. Bracket nesting is
//! lenient: an unmatched `[` extends to the end of the input, and an
//! unmatched `]` simply ends the innermost open block.

use vstd::arithmetic::div_mod::lemma_add_mod_noop_right;
use vstd::arithmetic::div_mod::lemma_mod_add_multiples_vanish;
use vstd::arithmetic::div_mod::lemma_small_mod;
use vstd::prelude::*;
use vstd::string::StringSliceAdditionalSpecFns;

verus! {

broadcast use vstd::std_specs::vec::axiom_vec_index_decreases;

/// Number of cells on the tape; cursor arithmetic wraps modulo this.
pub const TAPE_LEN: usize = 30000;

/// Source byte `+`.
pub const B_PLUS: u8 = 43;

/// Source byte `,`.
pub const B_COMMA: u8 = 44;

/// Source byte `-`.
pub const B_MINUS: u8 = 45;

/// Source byte `.`.
pub const B_DOT: u8 = 46;

/// Source byte `<`.
pub const B_LT: u8 = 60;

/// Source byte `>`.
pub const B_GT: u8 = 62;

/// Source byte `[`.
pub const B_OPEN: u8 = 91;

/// Source byte `]`.
pub const B_CLOSE: u8 = 93;

/// One instruction of the language.
///
/// `Add` adds its delta to the current cell modulo 256; `Move` adds its
/// offset to the cursor modulo [`TAPE_LEN`]; `Print` emits the current cell;
/// `Read` stores one input byte into it; `Loop` repeats its body while the
/// current cell is nonzero; `Zero` is introduced by the optimizer and sets
/// the current cell to 0 unconditionally.
#[derive(Debug, PartialEq, Eq)]
pub enum Symbol {
    Add(u8),
    Move(usize),
    Print,
    Read,
    Loop(Vec<Symbol>),
    Zero,
}

/// The mathematical model of an instruction: identical to [`Symbol`] except
/// that a `Loop` body is a `Seq`.
pub enum SymSpec {
    Add(u8),
    Move(usize),
    Print,
    Read,
    Loop(Seq<SymSpec>),
    Zero,
}

/// Model of a single instruction.
pub open spec fn sym_view(s: Symbol) -> SymSpec
    decreases s, 0nat,
{
    match s {
        Symbol::Add(n) => SymSpec::Add(n),
        Symbol::Move(n) => SymSpec::Move(n),
        Symbol::Print => SymSpec::Print,
        Symbol::Read => SymSpec::Read,
        Symbol::Loop(body) => SymSpec::Loop(block_view_from(body, 0)),
        Symbol::Zero => SymSpec::Zero,
    }
}

/// Model of the instructions of `b` from position `i` on.
pub open spec fn block_view_from(b: Vec<Symbol>, i: nat) -> Seq<SymSpec>
    decreases b, b@.len() - i + 1,
{
    if i < b@.len() {
        seq![sym_view(b[i as int])] + block_view_from(b, i + 1)
    } else {
        Seq::empty()
    }
}

/// Model of a whole block of instructions.
pub open spec fn block_view(b: Vec<Symbol>) -> Seq<SymSpec> {
    block_view_from(b, 0)
}

/// `block_view_from` is the pointwise image of `sym_view` over the tail of
/// the vector.
pub proof fn lemma_block_view_from(b: Vec<Symbol>, i: nat)
    requires
        i <= b@.len(),
    ensures
        block_view_from(b, i).len() == b@.len() - i,
        forall|k: int|
            0 <= k < b@.len() - i ==> block_view_from(b, i)[k] == sym_view(b@[i + k]),
    decreases b@.len() - i,
{
    if i < b@.len() {
        lemma_block_view_from(b, i + 1);
    }
}

/// `block_view` is the pointwise image of `sym_view` over the vector.
pub proof fn lemma_block_view(b: Vec<Symbol>)
    ensures
        block_view(b).len() == b@.len(),
        forall|k: int| 0 <= k < b@.len() ==> block_view(b)[k] == sym_view(b@[k]),
{
    lemma_block_view_from(b, 0);
}

/// Is `c` one of the two cell-delta command bytes `+` `-`?
pub open spec fn is_delta(c: u8) -> bool {
    c == B_PLUS || c == B_MINUS
}

/// Is `c` one of the two cursor-step command bytes `>` `<`?
pub open spec fn is_step(c: u8) -> bool {
    c == B_GT || c == B_LT
}

/// Addition on cell values, wrapping modulo 256.
pub open spec fn wrap_add_cell(a: u8, b: u8) -> u8 {
    ((a + b) % 256) as u8
}

/// Addition on cursor offsets, wrapping modulo [`TAPE_LEN`].
pub open spec fn wrap_add_idx(a: usize, b: usize) -> usize {
    ((a + b) % (TAPE_LEN as int)) as usize
}

/// First position at or after `i` that does not hold a `+`/`-` byte.
pub open spec fn delta_end(s: Seq<u8>, i: nat) -> nat
    decreases s.len() - i,
{
    if i < s.len() && is_delta(s[i as int]) {
        delta_end(s, i + 1)
    } else {
        i
    }
}

/// Net cell delta of the bytes in `[i, j)`, starting from `acc`:
/// `+` contributes 1 and any other byte contributes 255, modulo 256.
pub open spec fn delta_net_from(s: Seq<u8>, i: nat, j: nat, acc: u8) -> u8
    decreases j - i,
{
    if i < j {
        delta_net_from(
            s,
            i + 1,
            j,
            wrap_add_cell(acc, if s[i as int] == B_PLUS { 1 } else { 255 }),
        )
    } else {
        acc
    }
}

/// First position at or after `i` that does not hold a `>`/`<` byte.
pub open spec fn step_end(s: Seq<u8>, i: nat) -> nat
    decreases s.len() - i,
{
    if i < s.len() && is_step(s[i as int]) {
        step_end(s, i + 1)
    } else {
        i
    }
}

/// Net cursor displacement of the bytes in `[i, j)`, starting from `acc`:
/// `>` contributes 1 and any other byte contributes `TAPE_LEN - 1`,
/// modulo [`TAPE_LEN`].
pub open spec fn step_net_from(s: Seq<u8>, i: nat, j: nat, acc: usize) -> usize
    decreases j - i,
{
    if i < j {
        step_net_from(
            s,
            i + 1,
            j,
            wrap_add_idx(acc, if s[i as int] == B_GT { 1 } else { (TAPE_LEN - 1) as usize }),
        )
    } else {
        acc
    }
}

/// The parse of source bytes `s` from position `i` up to the first
/// unmatched `]` or the end of input: the instructions of the block, and
/// the position just past it.
///
/// The `i < j <= s.len()` guards can never fail ([`lemma_parse_at_bounds`]);
/// they only serve the termination measure.
pub open spec fn parse_at(s: Seq<u8>, i: nat) -> (Seq<SymSpec>, nat)
    decreases s.len() - i,
{
    if i >= s.len() {
        (Seq::empty(), i)
    } else {
        let c = s[i as int];
        if c == B_CLOSE {
            (Seq::empty(), i + 1)
        } else if c == B_OPEN {
            let (body, j) = parse_at(s, i + 1);
            if i < j <= s.len() {
                let (rest, k) = parse_at(s, j);
                (seq![SymSpec::Loop(body)] + rest, k)
            } else {
                (Seq::empty(), j)
            }
        } else if is_delta(c) {
            let j = delta_end(s, i);
            if i < j <= s.len() {
                let (rest, k) = parse_at(s, j);
                (seq![SymSpec::Add(delta_net_from(s, i, j, 0))] + rest, k)
            } else {
                (Seq::empty(), j)
            }
        } else if is_step(c) {
            let j = step_end(s, i);
            if i < j <= s.len() {
                let (rest, k) = parse_at(s, j);
                (seq![SymSpec::Move(step_net_from(s, i, j, 0))] + rest, k)
            } else {
                (Seq::empty(), j)
            }
        } else if c == B_DOT {
            let (rest, k) = parse_at(s, i + 1);
            (seq![SymSpec::Print] + rest, k)
        } else if c == B_COMMA {
            let (rest, k) = parse_at(s, i + 1);
            (seq![SymSpec::Read] + rest, k)
        } else {
            parse_at(s, i + 1)
        }
    }
}

/// The parse of a whole source text.
pub open spec fn parse(s: Seq<u8>) -> Seq<SymSpec> {
    parse_at(s, 0).0
}

/// `delta_end` stays within `[i, s.len()]`, moves only over `+`/`-` bytes,
/// and stops at the first byte that is neither.
pub proof fn lemma_delta_end(s: Seq<u8>, i: nat)
    requires
        i <= s.len(),
    ensures
        i <= delta_end(s, i) <= s.len(),
        forall|m: int| i <= m < delta_end(s, i) ==> is_delta(s[m]),
        delta_end(s, i) == s.len() || !is_delta(s[delta_end(s, i) as int]),
    decreases s.len() - i,
{
    if i < s.len() && is_delta(s[i as int]) {
        lemma_delta_end(s, i + 1);
    }
}

/// `step_end` stays within `[i, s.len()]`, moves only over `>`/`<` bytes,
/// and stops at the first byte that is neither.
pub proof fn lemma_step_end(s: Seq<u8>, i: nat)
    requires
        i <= s.len(),
    ensures
        i <= step_end(s, i) <= s.len(),
        forall|m: int| i <= m < step_end(s, i) ==> is_step(s[m]),
        step_end(s, i) == s.len() || !is_step(s[step_end(s, i) as int]),
    decreases s.len() - i,
{
    if i < s.len() && is_step(s[i as int]) {
        lemma_step_end(s, i + 1);
    }
}

/// Appending one instruction to a block appends its model to the block's
/// model.
pub proof fn lemma_block_view_push(b1: Vec<Symbol>, b2: Vec<Symbol>, x: Symbol)
    requires
        b2@ == b1@.push(x),
    ensures
        block_view(b2) == block_view(b1).push(sym_view(x)),
{
    lemma_block_view(b1);
    lemma_block_view(b2);
    assert(block_view(b2) =~= block_view(b1).push(sym_view(x)));
}

/// Parsing always advances past at least one byte and never runs past the
/// end of the input.
pub proof fn lemma_parse_at_bounds(s: Seq<u8>, i: nat)
    requires
        i <= s.len(),
    ensures
        i <= parse_at(s, i).1 <= s.len(),
        i < s.len() ==> i < parse_at(s, i).1,
    decreases s.len() - i,
{
    if i < s.len() {
        let c = s[i as int];
        if c == B_CLOSE {
        } else if c == B_OPEN {
            lemma_parse_at_bounds(s, i + 1);
            let j = parse_at(s, i + 1).1;
            lemma_parse_at_bounds(s, j);
        } else if is_delta(c) {
            lemma_delta_end(s, i);
            let j = delta_end(s, i);
            lemma_parse_at_bounds(s, j);
        } else if is_step(c) {
            lemma_step_end(s, i);
            let j = step_end(s, i);
            lemma_parse_at_bounds(s, j);
        } else {
            lemma_parse_at_bounds(s, i + 1);
        }
    }
}

/// The rewrite of one instruction: a `Loop` whose (rewritten) body is
/// exactly one `Add` becomes `Zero`; every other instruction is kept, its
/// loop bodies rewritten recursively.
pub open spec fn opt_sym(s: SymSpec) -> SymSpec
    decreases s, 0nat,
{
    match s {
        SymSpec::Loop(body) => {
            let ob = opt_block_from(body, 0);
            if ob.len() == 1 && ob[0] is Add {
                SymSpec::Zero
            } else {
                SymSpec::Loop(ob)
            }
        },
        _ => s,
    }
}

/// The rewrite of the instructions of `b` from position `i` on.
pub open spec fn opt_block_from(b: Seq<SymSpec>, i: nat) -> Seq<SymSpec>
    decreases b, b.len() - i + 1,
{
    if i < b.len() {
        seq![opt_sym(b[i as int])] + opt_block_from(b, i + 1)
    } else {
        Seq::empty()
    }
}

/// The rewrite of a whole block.
pub open spec fn opt_block(b: Seq<SymSpec>) -> Seq<SymSpec> {
    opt_block_from(b, 0)
}

/// A rewritten block holds exactly as many instructions as the original,
/// from position `i` on: the rewrite only ever replaces one instruction by
/// one.
pub proof fn lemma_opt_block_len(b: Seq<SymSpec>, i: nat)
    requires
        i <= b.len(),
    ensures
        opt_block_from(b, i).len() == b.len() - i,
    decreases b.len() - i,
{
    if i < b.len() {
        lemma_opt_block_len(b, i + 1);
    }
}

/// Net cell delta of the bytes in `[i, j)` as a signed count: +1 per `+`,
/// -1 per any other byte.
pub open spec fn delta_sum(s: Seq<u8>, i: nat, j: nat) -> int
    decreases j - i,
{
    if i < j {
        (if s[i as int] == B_PLUS {
            1int
        } else {
            -1int
        }) + delta_sum(s, i + 1, j)
    } else {
        0
    }
}

/// Net cursor displacement of the bytes in `[i, j)` as a signed count:
/// +1 per `>`, -1 per any other byte.
pub open spec fn step_sum(s: Seq<u8>, i: nat, j: nat) -> int
    decreases j - i,
{
    if i < j {
        (if s[i as int] == B_GT {
            1int
        } else {
            -1int
        }) + step_sum(s, i + 1, j)
    } else {
        0
    }
}

/// The accumulated cell delta is the signed net count modulo 256.
pub proof fn lemma_delta_net_mod(s: Seq<u8>, i: nat, j: nat, acc: u8)
    requires
        i <= j,
    ensures
        delta_net_from(s, i, j, acc) as int == (acc + delta_sum(s, i, j)) % 256,
    decreases j - i,
{
    if i < j {
        let c: u8 = if s[i as int] == B_PLUS {
            1
        } else {
            255
        };
        let a2 = wrap_add_cell(acc, c);
        let d = delta_sum(s, i + 1, j);
        lemma_delta_net_mod(s, i + 1, j, a2);
        lemma_add_mod_noop_right(d, acc + c, 256);
        if s[i as int] != B_PLUS {
            lemma_mod_add_multiples_vanish(acc - 1 + d, 256);
        }
    } else {
        lemma_small_mod(acc as nat, 256);
    }
}

/// The accumulated cursor displacement is the signed net count modulo
/// [`TAPE_LEN`].
pub proof fn lemma_step_net_mod(s: Seq<u8>, i: nat, j: nat, acc: usize)
    requires
        i <= j,
        acc < TAPE_LEN,
    ensures
        step_net_from(s, i, j, acc) as int == (acc + step_sum(s, i, j)) % (TAPE_LEN as int),
    decreases j - i,
{
    if i < j {
        let c: usize = if s[i as int] == B_GT {
            1
        } else {
            (TAPE_LEN - 1) as usize
        };
        let a2 = wrap_add_idx(acc, c);
        let d = step_sum(s, i + 1, j);
        lemma_step_net_mod(s, i + 1, j, a2);
        lemma_add_mod_noop_right(d, acc + c, TAPE_LEN as int);
        if s[i as int] != B_GT {
            lemma_mod_add_multiples_vanish(acc - 1 + d, TAPE_LEN as int);
        }
    } else {
        lemma_small_mod(acc as nat, TAPE_LEN as nat);
    }
}

/// A nonempty run of only `+`/`-` bytes parses to exactly one `Add` whose
/// delta is the net sum of the run, modulo 256.
pub proof fn lemma_parse_delta_run(s: Seq<u8>)
    requires
        s.len() > 0,
        forall|m: int| 0 <= m < s.len() ==> is_delta(s[m]),
    ensures
        parse(s) == seq![SymSpec::Add((delta_sum(s, 0, s.len()) % 256) as u8)],
{
    lemma_delta_end(s, 0);
    let j = delta_end(s, 0);
    assert(j == s.len());
    lemma_delta_net_mod(s, 0, s.len(), 0);
    assert(parse_at(s, s.len()).0 == Seq::<SymSpec>::empty());
    assert(parse(s) =~= seq![SymSpec::Add(delta_net_from(s, 0, s.len(), 0))]);
}

/// A nonempty run of only `>`/`<` bytes parses to exactly one `Move` whose
/// offset is the net displacement of the run, modulo [`TAPE_LEN`].
pub proof fn lemma_parse_step_run(s: Seq<u8>)
    requires
        s.len() > 0,
        forall|m: int| 0 <= m < s.len() ==> is_step(s[m]),
    ensures
        parse(s) == seq![SymSpec::Move((step_sum(s, 0, s.len()) % (TAPE_LEN as int)) as usize)],
{
    lemma_step_end(s, 0);
    let j = step_end(s, 0);
    assert(j == s.len());
    lemma_step_net_mod(s, 0, s.len(), 0);
    assert(parse_at(s, s.len()).0 == Seq::<SymSpec>::empty());
    assert(parse(s) =~= seq![SymSpec::Move(step_net_from(s, 0, s.len(), 0))]);
}

/// A `Loop` whose body is exactly one `Add` is rewritten to `Zero`, for
/// every delta value.
pub proof fn lemma_single_add_loop_rewritten(n: u8)
    ensures
        opt_sym(SymSpec::Loop(seq![SymSpec::Add(n)])) == SymSpec::Zero,
{
    let b = seq![SymSpec::Add(n)];
    assert(opt_sym(SymSpec::Add(n)) == SymSpec::Add(n));
    assert(opt_block_from(b, 1) == Seq::<SymSpec>::empty());
    assert(opt_block_from(b, 0) =~= seq![SymSpec::Add(n)]);
}

impl Symbol {
    /// Parse one block of `s`, starting at `i`: consume bytes until the
    /// first unmatched `]` or the end of the input, and return the
    /// instructions together with the position just past the block.
    pub fn parse_block(s: &[u8], i: usize) -> (res: (Vec<Symbol>, usize))
        requires
            i <= s@.len(),
        ensures
            block_view(res.0) == parse_at(s@, i as nat).0,
            res.1 == parse_at(s@, i as nat).1,
            i <= res.1 <= s@.len(),
        decreases s@.len() - i,
    {
        proof {
            lemma_parse_at_bounds(s@, i as nat);
        }
        let mut syms: Vec<Symbol> = Vec::new();
        let mut pos = i;
        loop
            invariant
                i <= pos <= s@.len(),
                parse_at(s@, i as nat).0 == block_view(syms) + parse_at(s@, pos as nat).0,
                parse_at(s@, i as nat).1 == parse_at(s@, pos as nat).1,
            decreases s@.len() - pos,
        {
            if pos >= s.len() {
                proof {
                    assert(parse_at(s@, i as nat).0 =~= block_view(syms));
                }
                return (syms, pos);
            }
            let c = s[pos];
            if c == B_CLOSE {
                proof {
                    assert(parse_at(s@, i as nat).0 =~= block_view(syms));
                }
                return (syms, pos + 1);
            } else if c == B_OPEN {
                let (body, j) = Symbol::parse_block(s, pos + 1);
                proof {
                    lemma_parse_at_bounds(s@, (pos + 1) as nat);
                }
                let ghost pre = syms;
                let ghost rest = parse_at(s@, j as nat).0;
                syms.push(Symbol::Loop(body));
                proof {
                    lemma_block_view_push(pre, syms, Symbol::Loop(body));
                    assert(block_view(pre) + (seq![sym_view(Symbol::Loop(body))] + rest)
                        =~= block_view(syms) + rest);
                }
                pos = j;
            } else if c == B_PLUS || c == B_MINUS {
                proof {
                    lemma_delta_end(s@, pos as nat);
                }
                let ghost j = delta_end(s@, pos as nat);
                let mut n: u8 = if c == B_PLUS { 1 } else { 255 };
                let mut k = pos + 1;
                while k < s.len() && (s[k] == B_PLUS || s[k] == B_MINUS)
                    invariant
                        pos < k <= j <= s@.len(),
                        j == delta_end(s@, pos as nat),
                        pos < s@.len() && is_delta(s@[pos as int]),
                        delta_net_from(s@, pos as nat, j, 0) == delta_net_from(
                            s@,
                            k as nat,
                            j,
                            n,
                        ),
                    decreases j - k,
                {
                    proof {
                        lemma_delta_end(s@, pos as nat);
                    }
                    let m: u8 = if s[k] == B_PLUS {
                        1
                    } else {
                        255
                    };
                    n = n.wrapping_add(m);
                    k = k + 1;
                }
                proof {
                    lemma_delta_end(s@, pos as nat);
                    assert(k == j);
                }
                let ghost rest = parse_at(s@, j as nat).0;
                let ghost pre = syms;
                syms.push(Symbol::Add(n));
                proof {
                    lemma_block_view_push(pre, syms, Symbol::Add(n));
                    assert(block_view(pre) + (seq![sym_view(Symbol::Add(n))] + rest)
                        =~= block_view(syms) + rest);
                }
                pos = k;
            } else if c == B_GT || c == B_LT {
                proof {
                    lemma_step_end(s@, pos as nat);
                }
                let ghost j = step_end(s@, pos as nat);
                let mut n: usize = if c == B_GT {
                    1
                } else {
                    TAPE_LEN - 1
                };
                let mut k = pos + 1;
                while k < s.len() && (s[k] == B_GT || s[k] == B_LT)
                    invariant
                        pos < k <= j <= s@.len(),
                        j == step_end(s@, pos as nat),
                        pos < s@.len() && is_step(s@[pos as int]),
                        n < TAPE_LEN,
                        step_net_from(s@, pos as nat, j, 0) == step_net_from(s@, k as nat, j, n),
                    decreases j - k,
                {
                    proof {
                        lemma_step_end(s@, pos as nat);
                    }
                    let m: usize = if s[k] == B_GT {
                        1
                    } else {
                        TAPE_LEN - 1
                    };
                    n = (n + m) % TAPE_LEN;
                    k = k + 1;
                }
                proof {
                    lemma_step_end(s@, pos as nat);
                    assert(k == j);
                }
                let ghost rest = parse_at(s@, j as nat).0;
                let ghost pre = syms;
                syms.push(Symbol::Move(n));
                proof {
                    lemma_block_view_push(pre, syms, Symbol::Move(n));
                    assert(block_view(pre) + (seq![sym_view(Symbol::Move(n))] + rest)
                        =~= block_view(syms) + rest);
                }
                pos = k;
            } else if c == B_DOT {
                let ghost rest = parse_at(s@, (pos + 1) as nat).0;
                let ghost pre = syms;
                syms.push(Symbol::Print);
                proof {
                    lemma_block_view_push(pre, syms, Symbol::Print);
                    assert(block_view(pre) + (seq![sym_view(Symbol::Print)] + rest)
                        =~= block_view(syms) + rest);
                }
                pos = pos + 1;
            } else if c == B_COMMA {
                let ghost rest = parse_at(s@, (pos + 1) as nat).0;
                let ghost pre = syms;
                syms.push(Symbol::Read);
                proof {
                    lemma_block_view_push(pre, syms, Symbol::Read);
                    assert(block_view(pre) + (seq![sym_view(Symbol::Read)] + rest)
                        =~= block_view(syms) + rest);
                }
                pos = pos + 1;
            } else {
                pos = pos + 1;
            }
        }
    }

    /// Parse a whole source text; with `opt` the peephole rewrite is applied
    /// to the parsed program.
    pub fn parse_str(program: &str, opt: bool) -> (r: Vec<Symbol>)
        ensures
            !opt ==> block_view(r) == parse(program.spec_bytes()),
            opt ==> block_view(r) == opt_block(parse(program.spec_bytes())),
    {
        let bytes = program.as_bytes();
        let (res, _) = Symbol::parse_block(bytes, 0);
        if opt {
            Symbol::opt_vec(&res)
        } else {
            res
        }
    }

    /// Rewrite each instruction of a block.
    pub fn opt_vec(content: &Vec<Symbol>) -> (r: Vec<Symbol>)
        ensures
            block_view(r) == opt_block(block_view(*content)),
        decreases content, 0nat,
    {
        let ghost bv = block_view_from(*content, 0);
        proof {
            lemma_block_view(*content);
        }
        let mut out: Vec<Symbol> = Vec::new();
        let mut idx: usize = 0;
        while idx < content.len()
            invariant
                idx <= content@.len(),
                bv == block_view_from(*content, 0),
                bv.len() == content@.len(),
                forall|q: int| 0 <= q < content@.len() ==> bv[q] == sym_view(content@[q]),
                opt_block_from(bv, 0) == block_view(out) + opt_block_from(bv, idx as nat),
            decreases content@.len() - idx,
        {
            proof {
                vstd::std_specs::vec::axiom_vec_index_decreases(*content, idx as int);
                assert(decreases_to!(*content => content@[idx as int]));
            }
            let o = content[idx].optimize();
            let ghost pre = out;
            out.push(o);
            proof {
                lemma_block_view_push(pre, out, o);
                assert(block_view(pre) + (seq![opt_sym(bv[idx as int])] + opt_block_from(
                    bv,
                    (idx + 1) as nat,
                )) =~= block_view(out) + opt_block_from(bv, (idx + 1) as nat));
            }
            idx = idx + 1;
        }
        proof {
            assert(block_view(out) + opt_block_from(bv, idx as nat) =~= block_view(out));
        }
        out
    }

    /// Rewrite this instruction: a `Loop` whose rewritten body is exactly
    /// one `Add` becomes `Zero`; everything else is kept, loop bodies
    /// rewritten recursively.
    pub fn optimize(&self) -> (r: Symbol)
        ensures
            sym_view(r) == opt_sym(sym_view(*self)),
        decreases self, 1nat,
    {
        match self {
            Symbol::Loop(content) => {
                let out = Symbol::opt_vec(content);
                if out.len() == 1 {
                    let single_add = match &out[0] {
                        Symbol::Add(_) => true,
                        _ => false,
                    };
                    proof {
                        lemma_block_view(out);
                    }
                    if single_add {
                        return Symbol::Zero;
                    }
                }
                proof {
                    lemma_block_view(out);
                }
                Symbol::Loop(out)
            },
            Symbol::Add(n) => Symbol::Add(*n),
            Symbol::Move(n) => Symbol::Move(*n),
            Symbol::Print => Symbol::Print,
            Symbol::Read => Symbol::Read,
            Symbol::Zero => Symbol::Zero,
        }
    }
}

/// Duplicate one instruction; the copy has the same model.
pub(crate) fn clone_sym(s: &Symbol) -> (r: Symbol)
    ensures
        sym_view(r) == sym_view(*s),
    decreases s, 1nat,
{
    match s {
        Symbol::Add(n) => Symbol::Add(*n),
        Symbol::Move(n) => Symbol::Move(*n),
        Symbol::Print => Symbol::Print,
        Symbol::Read => Symbol::Read,
        Symbol::Zero => Symbol::Zero,
        Symbol::Loop(body) => Symbol::Loop(clone_block(body)),
    }
}

/// Duplicate a block of instructions; the copy has the same model.
pub(crate) fn clone_block(b: &Vec<Symbol>) -> (r: Vec<Symbol>)
    ensures
        block_view(r) == block_view(*b),
    decreases b, 0nat,
{
    proof {
        lemma_block_view(*b);
    }
    let mut out: Vec<Symbol> = Vec::new();
    let mut idx: usize = 0;
    while idx < b.len()
        invariant
            idx <= b@.len(),
            block_view(out).len() == idx,
            forall|q: int| 0 <= q < idx ==> block_view(out)[q] == sym_view(b@[q]),
        decreases b@.len() - idx,
    {
        proof {
            vstd::std_specs::vec::axiom_vec_index_decreases(*b, idx as int);
            assert(decreases_to!(*b => b@[idx as int]));
        }
        let c = clone_sym(&b[idx]);
        let ghost pre = out;
        out.push(c);
        proof {
            lemma_block_view_push(pre, out, c);
            lemma_block_view(out);
        }
        idx = idx + 1;
    }
    proof {
        lemma_block_view(out);
        lemma_block_view(*b);
        assert(block_view(out) =~= block_view(*b));
    }
    out
}

impl Clone for Symbol {
    /// The copy has the same model as the original.
    fn clone(&self) -> (r: Symbol)
        ensures
            sym_view(r) == sym_view(*self),
    {
        clone_sym(self)
    }
}

} // verus!
