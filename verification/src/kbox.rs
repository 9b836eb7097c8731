//! A box whose value lives in a kernel heap allocation.
use vstd::prelude::*;
use crate::heap::{Heap, payload_addr, release_block};
use crate::kernel::{Kernel, kmalloc_spec, can_kmalloc};

verus! {

/// A value held in a kernel heap allocation at `addr`.
pub struct KBox<T> {
    value: T,
    addr: usize,
}

impl<T> KBox<T> {
    /// The value held.
    pub closed spec fn value(&self) -> T {
        self.value
    }

    /// Payload address of the allocation that holds the value.
    pub closed spec fn addr(&self) -> usize {
        self.addr
    }

    /// Allocates room for a `T` from the kernel heap, growing the heap when
    /// no block fits (see `Kernel::kmalloc`), and puts `val` there.  The
    /// allocation never fails, so the result is always a box.
    pub fn new(k: &mut Kernel, val: T) -> (r: Option<KBox<T>>)
        requires
            old(k).wf(),
            can_kmalloc(old(k).mem(), old(k).kernel_pml4, vstd::layout::size_of::<T>()),
        ensures
            final(k).wf(),
            final(k).same_spaces(old(k)),
            final(k).sched == old(k).sched,
            ({
                let (m, p) = kmalloc_spec(old(k).mem(), old(k).kernel_pml4, vstd::layout::size_of::<T>());
                &&& final(k).mem() == m
                &&& r matches Some(b) && b.value() == val && b.addr() == p
            }),
    {
        let addr = k.kmalloc(core::mem::size_of::<T>());
        Some(KBox { value: val, addr })
    }

    /// The value held.
    pub fn get(&self) -> (r: &T)
        ensures
            *r == self.value(),
    {
        &self.value
    }

    /// The value held, for change.
    pub fn get_mut(&mut self) -> (r: &mut T)
        ensures
            *r == old(self).value(),
            final(self).value() == *final(r),
            final(self).addr() == old(self).addr(),
    {
        &mut self.value
    }

    /// Payload address of the allocation.
    pub fn address(&self) -> (r: usize)
        ensures
            r == self.addr(),
    {
        self.addr
    }

    /// Gives the allocation back to `heap` and returns the value.
    pub fn free(self, heap: &mut Heap) -> (v: T)
        requires
            old(heap).wf(),
            exists|k: int|
                0 <= k < old(heap).blocks().len() && payload_addr(old(heap).start() as int, old(heap).blocks(), k)
                    == self.addr(),
        ensures
            v == self.value(),
            final(heap).wf(),
            final(heap).start() == old(heap).start(),
            final(heap).brk() == old(heap).brk(),
            exists|k: int|
                0 <= k < old(heap).blocks().len() && payload_addr(old(heap).start() as int, old(heap).blocks(), k)
                    == self.addr() && final(heap).blocks() == release_block(old(heap).blocks(), k),
    {
        proof {
            let k = choose|k: int|
                0 <= k < old(heap).blocks().len() && payload_addr(old(heap).start() as int, old(heap).blocks(), k)
                    == self.addr();
            crate::heap::law_block_inside_heap(old(heap).start() as int, old(heap).blocks(), k);
        }
        heap.kfree(self.addr);
        self.value
    }
}

} // verus!
