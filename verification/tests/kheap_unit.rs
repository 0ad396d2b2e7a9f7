use lib::heap::KERNEL_HEAP_START;
use lib::kheap::{HeapGrant, KernelHeap};

const START: u64 = KERNEL_HEAP_START;

fn ready() -> KernelHeap {
    let mut h = KernelHeap::new();
    h.init();
    h
}

#[test]
fn kmalloc_needs_init_and_a_size() {
    let mut h = KernelHeap::new();
    assert!(!h.is_initialized());
    assert_eq!(h.kmalloc(16), None);
    h.init();
    assert!(h.is_initialized());
    assert_eq!(h.kmalloc(0), None);
    assert_eq!(h.heap_end(), START);
}

#[test]
fn first_allocation_grows_by_a_page() {
    let mut h = ready();
    let g = h.kmalloc(100).unwrap();
    assert_eq!(g, HeapGrant { ptr: START + 16, new_pages: Some((START, 1)) });
    assert_eq!(h.heap_end(), START + 4096);
    assert_eq!(h.heap_used_bytes(), 100);
    assert_eq!(h.heap_alloc_count(), 1);
    // 16 + 100 rounded up to 128: 112 usable bytes
    assert_eq!(h.ksize(g.ptr), Some(112));
    // the next one follows it, without growing
    let g2 = h.kmalloc(1).unwrap();
    assert_eq!(g2, HeapGrant { ptr: START + 128 + 16, new_pages: None });
    assert_eq!(h.ksize(g2.ptr), Some(16));
}

#[test]
fn free_then_reuse_first_fit() {
    let mut h = ready();
    let a = h.kmalloc(100).unwrap().ptr;
    let b = h.kmalloc(100).unwrap().ptr;
    let c = h.kmalloc(100).unwrap().ptr;
    h.kfree(b);
    assert_eq!(h.ksize(b), None);
    assert_eq!(h.heap_alloc_count(), 2);
    assert_eq!(h.heap_used_bytes(), 200 - 12);
    // the freed block is the first that fits
    let d = h.kmalloc(50).unwrap();
    assert_eq!(d.ptr, b);
    assert_eq!(d.new_pages, None);
    h.kfree(a);
    h.kfree(c);
    h.kfree(d.ptr);
    assert_eq!(h.heap_alloc_count(), 0);
    // everything merged back into one free page
    let e = h.kmalloc(4000).unwrap();
    assert_eq!(e, HeapGrant { ptr: START + 16, new_pages: None });
}

#[test]
fn kfree_ignores_foreign_pointers() {
    let mut h = ready();
    let a = h.kmalloc(64).unwrap().ptr;
    h.kfree(0);
    h.kfree(8);
    h.kfree(a + 16);
    h.kfree(START + 8192);
    assert_eq!(h.heap_alloc_count(), 1);
    h.kfree(a);
    h.kfree(a);
    assert_eq!(h.heap_alloc_count(), 0);
    assert_eq!(h.ksize(a), None);
}

#[test]
fn large_requests_grow_and_the_limit_holds() {
    let mut h = ready();
    let g = h.kmalloc(10000).unwrap();
    // 16 + 10000 -> 10016 bytes: three pages
    assert_eq!(g.new_pages, Some((START, 3)));
    assert_eq!(h.heap_end(), START + 3 * 4096);
    assert_eq!(h.kmalloc(5 * 1024 * 1024), None);
    assert_eq!(h.heap_end(), START + 3 * 4096);
}
