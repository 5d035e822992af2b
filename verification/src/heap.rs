//! A first-fit heap over one fixed region of memory.

use crate::fatal::{alloc_error, Fatal};
use core::mem::MaybeUninit;
use vstd::prelude::*;

verus! {

/// Size in bytes of the region the entry routine reserves for the heap.
pub const HEAP_SIZE: usize = 2048;

/// A region shorter than this may be too small for the heap's bookkeeping.
pub const MIN_REGION: usize = 24;

#[verifier::external_type_specification]
#[verifier::external_body]
pub struct ExHeap(linked_list_allocator::Heap);

/// Number of bytes of its region that the heap hands out.
pub uninterp spec fn heap_size(h: linked_list_allocator::Heap) -> nat;

/// Number of bytes handed out and not returned.
pub uninterp spec fn heap_used(h: linked_list_allocator::Heap) -> nat;

/// Address of the first byte that the heap hands out.
pub uninterp spec fn heap_bottom(h: linked_list_allocator::Heap) -> nat;

/// `Heap::from_slice`: the heap manages the region from its first aligned
/// address on, cut down to a multiple of the word size, so it covers all but
/// fewer than sixteen bytes of it; nothing is handed out yet. The call
/// panics on a region too small for the heap's bookkeeping, which one of
/// `MIN_REGION` bytes never is.
#[verifier::external_body]
fn heap_from_slice(region: &'static mut [MaybeUninit<u8>]) -> (h: linked_list_allocator::Heap)
    requires
        old(region)@.len() >= MIN_REGION,
    ensures
        heap_used(h) == 0,
        heap_size(h) <= old(region)@.len() < heap_size(h) + 16,
{
    linked_list_allocator::Heap::from_slice(region)
}

/// `Heap::allocate_first_fit` on the layout of `size` and `align`, with the
/// block's address as a number. The heap keeps its region. A block that is
/// handed out starts at a multiple of `align`, lies inside the region, and
/// adds at least `size` to the bytes in use, which never exceed the region;
/// a refusal changes nothing. The search passes over every free block
/// smaller than the request, and no free block is larger than the bytes not
/// in use, so a request for more than those is refused. A heap of which
/// nothing is in use is one free block at an address that is a multiple of
/// four, so the first request is granted if it needs no rounding (an
/// alignment of at most four, a size of at least sixteen that is a multiple
/// of eight) and takes the whole block or leaves room for a free block
/// behind it. The search rounds addresses up to the alignment without
/// regard to the end of the address space, so the call is made only where
/// `in_reach` holds.
#[verifier::external_body]
fn heap_allocate(h: &mut linked_list_allocator::Heap, size: usize, align: usize) -> (r: Option<
    usize,
>)
    requires
        valid_layout(size as int, align as int),
        in_reach(heap_bottom(*old(h)) as int, heap_size(*old(h)) as int, align as int),
    ensures
        heap_size(*final(h)) == heap_size(*old(h)),
        heap_bottom(*final(h)) == heap_bottom(*old(h)),
        r matches Some(addr) ==> {
            &&& addr % align == 0
            &&& heap_bottom(*old(h)) <= addr
            &&& addr + size <= heap_bottom(*old(h)) + heap_size(*old(h))
            &&& heap_used(*old(h)) + size <= heap_used(*final(h)) <= heap_size(*old(h))
        },
        r is None ==> heap_used(*final(h)) == heap_used(*old(h)),
        size + heap_used(*old(h)) > heap_size(*old(h)) ==> r is None,
        first_fits(heap_size(*old(h)) as int, heap_used(*old(h)) as int, size as int, align as int)
            ==> r is Some,
{
    match core::alloc::Layout::from_size_align(size, align) {
        Ok(layout) => match h.allocate_first_fit(layout) {
            Ok(block) => Some(block.as_ptr() as usize),
            Err(()) => None,
        },
        Err(_) => None,
    }
}

/// The search for a block stays below the end of the address space: an
/// address in the region, rounded up to `align` and with a block of the
/// region's size behind it, is still an address.
pub open spec fn in_reach(bottom: int, size: int, align: int) -> bool {
    bottom + 2 * size + align <= usize::MAX
}

/// A request that a heap of `heap` bytes, with `used` of them in use, is sure
/// to grant: nothing is in use yet, the request needs no rounding, and it
/// takes the whole region or leaves at least sixteen bytes behind it.
pub open spec fn first_fits(heap: int, used: int, size: int, align: int) -> bool {
    &&& used == 0
    &&& 1 <= align <= 4
    &&& size >= 16
    &&& size % 8 == 0
    &&& (size == heap || size + 16 <= heap)
}

/// `Heap::bottom`, as an address.
#[verifier::external_body]
fn heap_bottom_of(h: &linked_list_allocator::Heap) -> (r: usize)
    ensures
        r == heap_bottom(*h),
{
    h.bottom() as usize
}

/// `Heap::size`.
#[verifier::external_body]
fn heap_size_of(h: &linked_list_allocator::Heap) -> (r: usize)
    ensures
        r == heap_size(*h),
{
    h.size()
}

/// `Heap::used`.
#[verifier::external_body]
fn heap_used_of(h: &linked_list_allocator::Heap) -> (r: usize)
    ensures
        r == heap_used(*h),
{
    h.used()
}

/// `n` is a power of two.
pub open spec fn is_power_of_two(n: int) -> bool
    decreases n,
{
    if n <= 1 {
        n == 1
    } else {
        n % 2 == 0 && is_power_of_two(n / 2)
    }
}

/// A block of `size` bytes at a multiple of `align` can be described: the
/// alignment is a power of two and the size, rounded up to a multiple of it,
/// does not exceed the largest signed word.
pub open spec fn valid_layout(size: int, align: int) -> bool {
    is_power_of_two(align) && size + align - 1 <= isize::MAX
}

fn check_power_of_two(n: usize) -> (r: bool)
    ensures
        r == is_power_of_two(n as int),
{
    let mut m: usize = n;
    while m > 1 && m % 2 == 0
        invariant
            is_power_of_two(m as int) == is_power_of_two(n as int),
        decreases m,
    {
        m = m / 2;
    }
    m == 1
}

/// Whether a block of `size` bytes at a multiple of `align` can be described.
pub fn check_layout(size: usize, align: usize) -> (r: bool)
    ensures
        r == valid_layout(size as int, align as int),
{
    if !check_power_of_two(align) {
        return false;
    }
    let limit: usize = isize::MAX as usize;
    align - 1 <= limit && size <= limit - (align - 1)
}

/// Whether the search for a block stays below the end of the address space.
pub fn check_reach(bottom: usize, size: usize, align: usize) -> (r: bool)
    ensures
        r == in_reach(bottom as int, size as int, align as int),
{
    let room: usize = usize::MAX - bottom;
    if size > room {
        return false;
    }
    let room: usize = room - size;
    if size > room {
        return false;
    }
    align <= room - size
}

/// What a request comes to: the address found, or the fatal condition that
/// the allocation-failure handler signals.
pub fn outcome(found: Option<usize>) -> (r: Result<usize, Fatal>)
    ensures
        r == match found {
            Some(addr) => Ok::<usize, Fatal>(addr),
            None => Err::<usize, Fatal>(Fatal::OutOfMemory),
        },
{
    match found {
        Some(addr) => Ok(addr),
        None => Err(alloc_error()),
    }
}

/// What is known of a heap: where the region it manages starts, how many
/// bytes of it can be handed out, and how many are handed out.
pub struct HeapState {
    pub bottom: nat,
    pub size: nat,
    pub used: nat,
}

impl HeapState {
    /// Remaining free capacity.
    pub open spec fn free(self) -> int {
        self.size - self.used
    }
}

/// The heap allocator over its region.
pub struct Allocator {
    heap: linked_list_allocator::Heap,
}

impl View for Allocator {
    type V = HeapState;

    closed spec fn view(&self) -> HeapState {
        HeapState {
            bottom: heap_bottom(self.heap),
            size: heap_size(self.heap),
            used: heap_used(self.heap),
        }
    }
}

impl Allocator {
    /// No more is handed out than the region holds.
    pub open spec fn wf(&self) -> bool {
        self@.used <= self@.size
    }

    /// Binds the allocator to `region`, of which nothing is handed out yet.
    /// All of the region is managed but for fewer than sixteen bytes lost to
    /// alignment.
    pub fn init(region: &'static mut [MaybeUninit<u8>]) -> (heap: Allocator)
        requires
            old(region)@.len() >= MIN_REGION,
        ensures
            heap.wf(),
            heap@.used == 0,
            heap@.size <= old(region)@.len() < heap@.size + 16,
    {
        Allocator { heap: heap_from_slice(region) }
    }

    /// Asks for `size` bytes at a multiple of `align`. A block that is handed
    /// out starts at a multiple of `align` and lies in the region. The first
    /// request is granted if it needs no rounding and takes the whole region
    /// or leaves room for a free block behind it. A request for more than the
    /// remaining free capacity fails, and so does one whose size and
    /// alignment describe no block, and one whose alignment is so large
    /// that the search would leave the address space; a failure changes
    /// nothing.
    pub fn allocate(&mut self, size: usize, align: usize) -> (r: Result<usize, Fatal>)
        requires
            old(self).wf(),
        ensures
            final(self).wf(),
            final(self)@.size == old(self)@.size,
            final(self)@.bottom == old(self)@.bottom,
            r matches Ok(addr) ==> {
                &&& valid_layout(size as int, align as int)
                &&& in_reach(old(self)@.bottom as int, old(self)@.size as int, align as int)
                &&& addr % align == 0
                &&& old(self)@.bottom <= addr
                &&& addr + size <= old(self)@.bottom + old(self)@.size
                &&& size <= old(self)@.free()
                &&& old(self)@.used + size <= final(self)@.used
            },
            r is Err ==> r == Err::<usize, Fatal>(Fatal::OutOfMemory) && final(self)@ == old(
                self,
            )@,
            size > old(self)@.free() ==> r is Err,
            !valid_layout(size as int, align as int) ==> r is Err,
            !in_reach(old(self)@.bottom as int, old(self)@.size as int, align as int) ==> r is Err,
            valid_layout(size as int, align as int) && in_reach(
                old(self)@.bottom as int,
                old(self)@.size as int,
                align as int,
            ) && first_fits(old(self)@.size as int, old(self)@.used as int, size as int, align as int)
                ==> r is Ok,
    {
        if !check_layout(size, align) {
            return outcome(None);
        }
        if !check_reach(self.bottom(), self.size(), align) {
            return outcome(None);
        }
        let found = heap_allocate(&mut self.heap, size, align);
        outcome(found)
    }

    /// Address at which the managed region starts.
    pub fn bottom(&self) -> (r: usize)
        ensures
            r == self@.bottom,
    {
        heap_bottom_of(&self.heap)
    }

    /// Number of bytes that can be handed out.
    pub fn size(&self) -> (r: usize)
        ensures
            r == self@.size,
    {
        heap_size_of(&self.heap)
    }

    /// Number of bytes handed out.
    pub fn used(&self) -> (r: usize)
        ensures
            r == self@.used,
    {
        heap_used_of(&self.heap)
    }

    /// Remaining free capacity.
    pub fn free(&self) -> (r: usize)
        requires
            self.wf(),
        ensures
            r == self@.free(),
    {
        self.size() - self.used()
    }
}

} // verus!
