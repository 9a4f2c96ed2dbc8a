//! Physical memory as the kernel's page-table code sees it: 64-bit words
//! from address 0 up to the end of a region.

use vstd::prelude::*;

verus! {

/// The word at byte address `addr` (rounded down to a multiple of 8);
/// memory beyond the region reads as zero.
pub open spec fn mem_read(m: Seq<u64>, addr: int) -> u64 {
    if 0 <= addr / 8 < m.len() {
        m[addr / 8]
    } else {
        0
    }
}

/// Memory after storing `value` at byte address `addr`; a store beyond the
/// region has no effect.
pub open spec fn mem_write(m: Seq<u64>, addr: int, value: u64) -> Seq<u64> {
    if 0 <= addr / 8 < m.len() {
        m.update(addr / 8, value)
    } else {
        m
    }
}

/// A region of physical memory starting at address 0, one word per 8 bytes.
pub struct PhysMem {
    words: Vec<u64>,
}

impl View for PhysMem {
    type V = Seq<u64>;

    closed spec fn view(&self) -> Seq<u64> {
        self.words@
    }
}

impl PhysMem {
    /// A zeroed region of `words` words.
    pub fn new(words: usize) -> (r: Self)
        ensures
            r@ == Seq::new(words as nat, |k: int| 0u64),
    {
        let mut v: Vec<u64> = Vec::new();
        let mut i: usize = 0;
        while i < words
            invariant
                i <= words,
                v@.len() == i,
                forall|k: int| 0 <= k < i ==> v@[k] == 0u64,
            decreases words - i,
        {
            v.push(0u64);
            i = i + 1;
        }
        assert(v@ =~= Seq::new(words as nat, |k: int| 0u64));
        PhysMem { words: v }
    }

    /// A region holding the given words.
    pub fn from_words(words: Vec<u64>) -> (r: Self)
        ensures
            r@ == words@,
    {
        PhysMem { words }
    }

    /// The words of the region.
    pub fn words(&self) -> (r: &Vec<u64>)
        ensures
            r@ == self@,
    {
        &self.words
    }

    /// Reads the word at byte address `addr`.
    pub fn read(&self, addr: u64) -> (r: u64)
        ensures
            r == mem_read(self@, addr as int),
    {
        let k = addr / 8;
        if k < self.words.len() as u64 {
            self.words[k as usize]
        } else {
            0
        }
    }

    /// Stores `value` at byte address `addr`.
    pub fn write(&mut self, addr: u64, value: u64)
        ensures
            final(self)@ == mem_write(old(self)@, addr as int, value),
    {
        let k = addr / 8;
        if k < self.words.len() as u64 {
            self.words[k as usize] = value;
        }
    }
}

/// A read gives back what a write to the same word stored, and a write
/// leaves every other word as it was.
pub proof fn lemma_read_after_write(m: Seq<u64>, waddr: int, value: u64, raddr: int)
    requires
        0 <= waddr,
        0 <= raddr,
        waddr / 8 < m.len(),
    ensures
        raddr / 8 == waddr / 8 ==> mem_read(mem_write(m, waddr, value), raddr) == value,
        raddr / 8 != waddr / 8 ==> mem_read(mem_write(m, waddr, value), raddr) == mem_read(
            m,
            raddr,
        ),
{
}

} // verus!
