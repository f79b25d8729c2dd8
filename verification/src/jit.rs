//! The code buffer and the layout of the executable region.
//!
//! The buffer collects generated machine-code bytes. [`JIT::zone_size`]
//! gives the size of the memory region that will hold them: the smallest
//! multiple of the 4096-byte page size strictly greater than the code
//! length. [`JIT::zone_image`] gives the region's initial contents: the
//! code at offset 0, and every remaining byte the one-byte `ret`
//! instruction, so that control reaching past the code returns at once
//! instead of running into undefined bytes. Allocating the region, flipping
//! it from writable to read+execute, and calling into it take raw memory
//! primitives that stay with the surrounding binary.

use vstd::arithmetic::div_mod::lemma_fundamental_div_mod;
use vstd::arithmetic::div_mod::lemma_mod_bound;
use vstd::arithmetic::div_mod::lemma_mod_multiples_basic;
use vstd::prelude::*;

use crate::encode::RET;

verus! {

/// Size of one page of the executable region.
pub const PAGE_LEN: usize = 4096;

/// The size of the executable region for `len` bytes of code: the smallest
/// multiple of [`PAGE_LEN`] strictly greater than `len`.
pub open spec fn spec_zone_size(len: nat) -> nat {
    (len / (PAGE_LEN as nat) + 1) * (PAGE_LEN as nat)
}

/// A growable buffer of not-yet-executable machine-code bytes.
#[derive(Debug)]
pub struct JIT {
    code: Vec<u8>,
}

impl View for JIT {
    type V = Seq<u8>;

    closed spec fn view(&self) -> Seq<u8> {
        self.code@
    }
}

impl JIT {
    /// An empty code buffer.
    pub fn new() -> (r: JIT)
        ensures
            r@ == Seq::<u8>::empty(),
    {
        JIT { code: Vec::new() }
    }

    /// Append bytes to the buffer.
    pub fn emit(&mut self, code: &[u8])
        ensures
            final(self)@ == old(self)@ + code@,
    {
        let mut i: usize = 0;
        while i < code.len()
            invariant
                i <= code@.len(),
                self@ == old(self)@ + code@.subrange(0, i as int),
            decreases code@.len() - i,
        {
            self.code.push(code[i]);
            proof {
                assert(old(self)@ + code@.subrange(0, i + 1) =~= (old(self)@ + code@.subrange(
                    0,
                    i as int,
                )).push(code@[i as int]));
            }
            i = i + 1;
        }
        proof {
            assert(code@.subrange(0, i as int) =~= code@);
        }
    }

    /// The number of bytes in the buffer.
    pub fn len(&self) -> (r: usize)
        ensures
            r == self@.len(),
    {
        self.code.len()
    }

    /// Size of the executable region: the smallest multiple of the page
    /// size strictly greater than the code length.
    pub fn zone_size(&self) -> (r: usize)
        requires
            self@.len() + PAGE_LEN <= usize::MAX,
        ensures
            r == spec_zone_size(self@.len()),
            (r as int) % (PAGE_LEN as int) == 0,
            r > self@.len(),
            r <= self@.len() + PAGE_LEN,
    {
        let q = self.code.len() / PAGE_LEN;
        proof {
            lemma_fundamental_div_mod(self@.len() as int, PAGE_LEN as int);
            lemma_mod_bound(self@.len() as int, PAGE_LEN as int);
            lemma_mod_multiples_basic(q as int + 1, PAGE_LEN as int);
        }
        (q + 1) * PAGE_LEN
    }

    /// The region's initial contents: the code at offset 0, padded to the
    /// region size with the one-byte `ret` instruction.
    pub fn zone_image(&self) -> (r: Vec<u8>)
        requires
            self@.len() + PAGE_LEN <= usize::MAX,
        ensures
            r@.len() == spec_zone_size(self@.len()),
            forall|i: int| 0 <= i < self@.len() ==> r@[i] == self@[i],
            forall|i: int| self@.len() <= i < r@.len() ==> r@[i] == RET,
    {
        let size = self.zone_size();
        let mut out: Vec<u8> = Vec::new();
        let mut i: usize = 0;
        while i < self.code.len()
            invariant
                i <= self@.len(),
                out@.len() == i,
                forall|k: int| 0 <= k < i ==> out@[k] == self@[k],
            decreases self@.len() - i,
        {
            out.push(self.code[i]);
            i = i + 1;
        }
        while out.len() < size
            invariant
                self@.len() <= out@.len() <= size,
                forall|k: int| 0 <= k < self@.len() ==> out@[k] == self@[k],
                forall|k: int| self@.len() <= k < out@.len() ==> out@[k] == RET,
            decreases size - out@.len(),
        {
            out.push(RET);
        }
        out
    }
}

} // verus!
