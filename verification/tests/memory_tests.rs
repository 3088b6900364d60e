use assignments::memory::{UnsafeMem, VecMem, WMemory, PAGE_SIZE};

fn exercise<M: WMemory>(mut m: M, pages: i32) {
    let cells = pages * PAGE_SIZE;
    assert_eq!(m.size(), cells);
    assert_eq!(m.load(0), Some(0));
    assert_eq!(m.load(cells - 1), Some(0));
    assert_eq!(m.load(cells), None);
    assert_eq!(m.load(-1), None);
    assert!(m.store(17, 99));
    assert_eq!(m.load(17), Some(99));
    assert_eq!(m.load(16), Some(0));
    assert!(!m.store(cells, 5));
    assert!(!m.store(-3, 5));
    assert_eq!(m.load(cells), None);
    m.grow();
    assert_eq!(m.size(), cells + PAGE_SIZE);
    assert_eq!(m.load(17), Some(99));
    assert_eq!(m.load(cells), Some(0));
    assert_eq!(m.load(cells + PAGE_SIZE - 1), Some(0));
    assert_eq!(m.load(cells + PAGE_SIZE), None);
    assert!(m.store(cells + 1, -7));
    assert_eq!(m.load(cells + 1), Some(-7));
}

#[test]
fn vec_mem_reads_back_writes() {
    exercise(VecMem::new(1), 1);
    exercise(VecMem::new(2), 2);
}

#[test]
fn unsafe_mem_reads_back_writes() {
    exercise(UnsafeMem::new(1), 1);
    exercise(UnsafeMem::new(3), 3);
}

#[test]
fn vec_mem_without_pages_is_empty() {
    let mut m = VecMem::new(0);
    assert_eq!(m.size(), 0);
    assert_eq!(m.load(0), None);
    assert!(!m.store(0, 1));
    let n = VecMem::new(-4);
    assert_eq!(n.size(), 0);
    m.grow();
    assert_eq!(m.size(), PAGE_SIZE);
    assert_eq!(m.load(0), Some(0));
}

#[test]
fn both_memories_agree_on_the_same_operations() {
    let mut u = UnsafeMem::new(1);
    let mut v = VecMem::new(1);
    let ops: Vec<(i32, i32)> = vec![(0, 1), (4095, 2), (4096, 3), (-1, 4), (100, 5), (5000, 6), (8191, 7), (8192, 8)];
    for (k, (a, x)) in ops.into_iter().enumerate() {
        assert_eq!(u.store(a, x), v.store(a, x));
        if k == 3 {
            u.grow();
            v.grow();
        }
        assert_eq!(u.size(), v.size());
        for probe in [-1, 0, 100, 4095, 4096, 5000, 8191, 8192] {
            assert_eq!(u.load(probe), v.load(probe));
        }
    }
}
