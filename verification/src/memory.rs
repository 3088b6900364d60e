use vstd::prelude::*;

verus! {

/// Number of cells in one page of memory.
pub const PAGE_SIZE: i32 = 4096;

/// `n` cells that all hold zero.
pub open spec fn zeros(n: nat) -> Seq<i32> {
    Seq::new(n, |i: int| 0i32)
}

/// The number of cells that `npages` pages hold; none for a negative count.
pub open spec fn page_cells(npages: i32) -> nat {
    if npages > 0 {
        (npages * PAGE_SIZE) as nat
    } else {
        0
    }
}

/// The value at `address` in `cells`, or `None` where no cell has that address.
pub open spec fn cell_at(cells: Seq<i32>, address: int) -> Option<i32> {
    if 0 <= address < cells.len() {
        Some(cells[address])
    } else {
        None
    }
}

/// `cells` after writing `value` at `address` (unchanged where no cell has
/// that address).
pub open spec fn stored(cells: Seq<i32>, address: int, value: i32) -> Seq<i32> {
    if 0 <= address < cells.len() {
        cells.update(address, value)
    } else {
        cells
    }
}

/// `cells` with one page of zeroed cells added at the end.
pub open spec fn grown(cells: Seq<i32>) -> Seq<i32> {
    cells + zeros(PAGE_SIZE as nat)
}

/// A linear memory of `i32` cells addressed from zero.
pub trait WMemory {
    /// The cells of the memory, in address order.
    spec fn cells(&self) -> Seq<i32>;

    /// The value at `address`, or `None` where no cell has that address.
    fn load(&self, address: i32) -> (r: Option<i32>)
        ensures
            r == cell_at(self.cells(), address as int),
    ;

    /// Writes `value` at `address`; tells whether a cell has that address
    /// (and leaves the memory as it was where none has).
    fn store(&mut self, address: i32, value: i32) -> (ok: bool)
        ensures
            ok == (0 <= address < old(self).cells().len()),
            final(self).cells() == stored(old(self).cells(), address as int, value),
    ;

    /// Adds one page of zeroed cells at the end.
    fn grow(&mut self)
        ensures
            final(self).cells() == grown(old(self).cells()),
    ;

    /// The number of cells, as an `i32` (wrapping where it does not fit).
    fn size(&self) -> (n: i32)
        ensures
            n == self.cells().len() as i32,
    ;
}

/// A read gives back what the last write to the same address wrote, and a
/// write leaves every other address as it was.
pub proof fn load_after_store(cells: Seq<i32>, address: int, value: i32, other: int)
    requires
        other != address,
    ensures
        cell_at(stored(cells, address, value), address) == (if 0 <= address < cells.len() {
            Some(value)
        } else {
            None::<i32>
        }),
        cell_at(stored(cells, address, value), other) == cell_at(cells, other),
{
}

/// Growing keeps every cell and adds a page of cells that read as zero.
pub proof fn load_after_grow(cells: Seq<i32>, address: int)
    ensures
        grown(cells).len() == cells.len() + PAGE_SIZE,
        cell_at(grown(cells), address) == (if 0 <= address < cells.len() {
            cell_at(cells, address)
        } else if cells.len() <= address < cells.len() + PAGE_SIZE {
            Some(0i32)
        } else {
            None::<i32>
        }),
{
}

/// A vector of `npages * PAGE_SIZE` zeros.
fn alloc_page(npages: i32) -> (v: Vec<i32>)
    requires
        i32::MIN <= npages * PAGE_SIZE <= i32::MAX,
    ensures
        v@ == zeros(page_cells(npages)),
{
    let total: i32 = npages * PAGE_SIZE;
    let mut v: Vec<i32> = Vec::new();
    let mut k: i32 = 0;
    while k < total
        invariant
            total == npages * PAGE_SIZE,
            0 <= k,
            k <= total || (total < 0 && k == 0),
            v@ == zeros(k as nat),
        decreases total - k,
    {
        v.push(0);
        k = k + 1;
        assert(v@ =~= zeros(k as nat));
    }
    assert(npages > 0 ==> total > 0);
    assert(npages <= 0 ==> k == 0);
    assert(page_cells(npages) == k as nat);
    v
}

/// Memory held in a vector.
#[derive(Debug)]
pub struct VecMem(Vec<i32>);

impl VecMem {
    /// A memory of `npages` zeroed pages (none for a negative count).
    pub fn new(npages: i32) -> (m: VecMem)
        requires
            i32::MIN <= npages * PAGE_SIZE <= i32::MAX,
        ensures
            m.cells() == zeros(page_cells(npages)),
    {
        VecMem(alloc_page(npages))
    }
}

impl WMemory for VecMem {
    closed spec fn cells(&self) -> Seq<i32> {
        self.0@
    }

    fn load(&self, address: i32) -> (r: Option<i32>) {
        if address >= 0 && (address as usize) < self.0.len() {
            Some(self.0[address as usize])
        } else {
            None
        }
    }

    fn store(&mut self, address: i32, value: i32) -> (ok: bool) {
        if address >= 0 && (address as usize) < self.0.len() {
            self.0.set(address as usize, value);
            true
        } else {
            false
        }
    }

    fn grow(&mut self) {
        let mut page = alloc_page(1);
        self.0.append(&mut page);
    }

    fn size(&self) -> (n: i32) {
        self.0.len() as i32
    }
}

/// Memory held in a vector together with a cached cell count.
#[derive(Debug)]
pub struct UnsafeMem {
    data: Vec<i32>,
    size: i32,
}

impl UnsafeMem {
    #[verifier::type_invariant]
    spec fn size_matches(self) -> bool {
        self.size == self.data@.len() as i32
    }

    /// A memory of `npages` zeroed pages; `npages` must be positive.
    pub fn new(npages: i32) -> (m: UnsafeMem)
        requires
            0 < npages,
            npages * PAGE_SIZE <= i32::MAX,
        ensures
            m.cells() == zeros(page_cells(npages)),
    {
        let data = alloc_page(npages);
        let size = npages * PAGE_SIZE;
        UnsafeMem { data, size }
    }
}

impl WMemory for UnsafeMem {
    closed spec fn cells(&self) -> Seq<i32> {
        self.data@
    }

    fn load(&self, address: i32) -> (r: Option<i32>) {
        if address < 0 || (address as usize) >= self.data.len() {
            None
        } else {
            Some(self.data[address as usize])
        }
    }

    fn store(&mut self, address: i32, value: i32) -> (ok: bool) {
        proof {
            use_type_invariant(&*self);
        }
        if address < 0 || (address as usize) >= self.data.len() {
            false
        } else {
            self.data[address as usize] = value;
            true
        }
    }

    fn grow(&mut self) {
        proof {
            use_type_invariant(&*self);
        }
        let mut data = self.data.clone();
        assert(data@ =~= self.data@);
        let mut page = alloc_page(1);
        data.append(&mut page);
        let size = data.len() as i32;
        *self = UnsafeMem { data, size };
    }

    fn size(&self) -> (n: i32) {
        proof {
            use_type_invariant(self);
        }
        self.size
    }
}

/// One operation on a memory.
pub enum MemOp {
    Store(i32, i32),
    Grow,
}

/// The cells after applying `ops`, in order, to `cells`.
pub open spec fn after_ops(cells: Seq<i32>, ops: Seq<MemOp>) -> Seq<i32>
    decreases ops.len(),
{
    if ops.len() == 0 {
        cells
    } else {
        let prev = after_ops(cells, ops.drop_last());
        match ops.last() {
            MemOp::Store(a, v) => stored(prev, a as int, v),
            MemOp::Grow => grown(prev),
        }
    }
}

/// Whether `after` is what a memory holds after the calls `ops` (each
/// `store` and `grow` with its contract) starting from `before`.
pub open spec fn performs(before: Seq<i32>, ops: Seq<MemOp>, after: Seq<i32>) -> bool {
    after == after_ops(before, ops)
}

/// Over any sequence of stores and grows, two memories that start with the
/// same pages (as `UnsafeMem::new(n)` and `VecMem::new(n)` do) end with the
/// same cells, and so answer every load and size alike.
pub proof fn memories_agree_over_ops(
    start_m: Seq<i32>,
    start_v: Seq<i32>,
    ops: Seq<MemOp>,
    end_m: Seq<i32>,
    end_v: Seq<i32>,
    address: i32,
)
    requires
        start_m == start_v,
        performs(start_m, ops, end_m),
        performs(start_v, ops, end_v),
    ensures
        end_m == end_v,
        cell_at(end_m, address as int) == cell_at(end_v, address as int),
        end_m.len() as i32 == end_v.len() as i32,
    decreases ops.len(),
{
    if ops.len() > 0 {
        let pm = after_ops(start_m, ops.drop_last());
        let pv = after_ops(start_v, ops.drop_last());
        memories_agree_over_ops(start_m, start_v, ops.drop_last(), pm, pv, address);
    }
}

/// The two memories behave alike: both start as the same zeroed pages, and
/// from the same cells each operation gives the same answer and leaves the
/// same cells, so any sequence of operations keeps them equal.
pub proof fn memories_agree(m: UnsafeMem, v: VecMem, address: i32, value: i32)
    requires
        m.cells() == v.cells(),
    ensures
        cell_at(m.cells(), address as int) == cell_at(v.cells(), address as int),
        stored(m.cells(), address as int, value) == stored(v.cells(), address as int, value),
        grown(m.cells()) == grown(v.cells()),
        m.cells().len() as i32 == v.cells().len() as i32,
{
}

} // verus!
