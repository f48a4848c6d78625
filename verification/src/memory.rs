//! The machine's memory: a growable store in which every address that was
//! never written reads as zero.

use vstd::prelude::*;

verus! {

/// The value stored at `addr` in a memory with contents `cells`.
///
/// Addresses at or beyond the extent read as zero.
pub open spec fn read(cells: Seq<i64>, addr: int) -> i64 {
    if 0 <= addr < cells.len() {
        cells[addr]
    } else {
        0
    }
}

/// The contents after `value` is stored at `addr`.
///
/// A store beyond the extent grows the memory up to `addr`, filling the gap
/// with zeros.
pub open spec fn store(cells: Seq<i64>, addr: int, value: i64) -> Seq<i64>
    recommends
        0 <= addr,
{
    if addr < cells.len() {
        cells.update(addr, value)
    } else {
        cells + Seq::new((addr - cells.len()) as nat, |i: int| 0i64) + seq![value]
    }
}

/// Whether the machine can store at `addr`: the address is not negative and the
/// store that holds it can be indexed.
pub open spec fn writable(addr: int) -> bool {
    0 <= addr < usize::MAX
}

/// A store never shrinks the memory, the written cell then holds the value, and
/// every other address reads as before; in particular the cells of the gap that
/// a store far beyond the extent opens read as zero.
pub proof fn lemma_store_read(cells: Seq<i64>, addr: int, value: i64)
    requires
        0 <= addr,
    ensures
        store(cells, addr, value).len() >= cells.len(),
        store(cells, addr, value).len() > addr,
        read(store(cells, addr, value), addr) == value,
        forall|other: int| other != addr ==> read(store(cells, addr, value), other) == read(cells, other),
        forall|gap: int| cells.len() <= gap < addr ==> read(store(cells, addr, value), gap) == 0,
{
}

/// An unbounded array of integers, of which only a prefix is kept.
pub struct Memory {
    cells: Vec<i64>,
}

impl View for Memory {
    type V = Seq<i64>;

    /// The cells that are kept, from address 0 up to the extent.
    closed spec fn view(&self) -> Seq<i64> {
        self.cells@
    }
}

impl Memory {
    /// A memory that holds `initial_memory` from address 0 on.
    pub fn new(initial_memory: Vec<i64>) -> (mem: Self)
        ensures
            mem@ == initial_memory@,
    {
        Memory { cells: initial_memory }
    }

    /// Stores `value` at `address`, growing the memory with zeros as far as needed.
    pub fn set(&mut self, address: i64, value: i64)
        requires
            writable(address as int),
        ensures
            final(self)@ == store(old(self)@, address as int, value),
    {
        let addr: usize = Self::addr(address);
        let len: usize = self.cells.len();
        if addr >= len {
            self.cells.resize(addr + 1, 0i64);
            assert(self.cells@ =~= old(self).cells@ + Seq::new((addr - len) as nat, |i: int| 0i64)
                + seq![0i64]);
        }
        self.cells.set(addr, value);
        assert(self.cells@ =~= store(old(self)@, address as int, value));
    }

    /// The value at `address`: zero at or beyond the extent.
    pub fn get(&self, address: i64) -> (value: i64)
        requires
            0 <= address,
        ensures
            value == read(self@, address as int),
    {
        let len: usize = self.cells.len();
        if (address as u64) < (len as u64) {
            self.cells[address as usize]
        } else {
            0
        }
    }

    /// The index of the cell at `address`.
    fn addr(address: i64) -> (index: usize)
        requires
            0 <= address <= usize::MAX,
        ensures
            index == address,
    {
        address as usize
    }

    /// The number of cells that are kept.
    pub fn len(&self) -> (n: usize)
        ensures
            n == self@.len(),
    {
        self.cells.len()
    }

    /// Gives up the memory for the cells that it keeps.
    pub fn _into_vec(self) -> (cells: Vec<i64>)
        ensures
            cells@ == self@,
    {
        self.cells
    }
}

} // verus!
