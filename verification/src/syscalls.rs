//! The computations of system calls.
use vstd::prelude::*;
use crate::paging::pages::PAGE_SIZE;
use crate::processes::vma::{VMA, VmaType};

verus! {

/// The area a user heap of `user_heap_size` bytes at `user_heap_start`
/// occupies, its end rounded up to a whole page.
pub fn heap_vma(user_heap_start: u64, user_heap_size: usize) -> (r: VMA)
    requires
        user_heap_start + user_heap_size + PAGE_SIZE <= usize::MAX,
    ensures
        r.start == user_heap_start,
        r.end == (user_heap_start + user_heap_size + PAGE_SIZE - 1) / (PAGE_SIZE as int) * PAGE_SIZE,
        r.typ == VmaType::Heap,
{
    let start = user_heap_start as usize;
    assert(start == user_heap_start);
    let num_pages_to_heap_end = (start + user_heap_size + PAGE_SIZE - 1) / PAGE_SIZE;
    let user_heap_end = (num_pages_to_heap_end * PAGE_SIZE) as u64;
    VMA::new(user_heap_start, user_heap_end, VmaType::Heap)
}

/// The code a key read without waiting is returned as: the character's
/// number, or 0 when no key was pressed.
pub fn try_get_char_code(key: Option<char>) -> (r: u64)
    ensures
        r == match key {
            Some(c) => c as u64,
            None => 0,
        },
{
    match key {
        Some(c) => c as u64,
        None => 0,
    }
}

} // verus!
