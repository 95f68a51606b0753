//! Virtual memory areas of a process.
use vstd::prelude::*;

verus! {

/// The kind of memory a virtual memory area holds.
#[derive(Clone, Copy, Debug, PartialEq, Eq, Structural)]
pub enum VmaType {
    Code,
    Heap,
    Stack,
}

impl VmaType {
    /// The name of the kind, as shown to users.
    pub fn name(&self) -> (r: &'static str)
        ensures
            *self == VmaType::Code ==> r@ == "Code"@,
            *self == VmaType::Heap ==> r@ == "Heap"@,
            *self == VmaType::Stack ==> r@ == "Stack"@,
    {
        match self {
            VmaType::Code => "Code",
            VmaType::Heap => "Heap",
            VmaType::Stack => "Stack",
        }
    }
}

/// Virtual Memory Area (VMA): the addresses `[start, end)` of one kind.
#[derive(Clone, Copy, Debug, PartialEq, Eq, Structural)]
pub struct VMA {
    pub start: u64,
    pub end: u64,
    pub typ: VmaType,
}

/// Whether the address `a` lies in `[s, e)`.
pub open spec fn in_range(s: int, e: int, a: int) -> bool {
    s <= a < e
}

/// Whether the address ranges `[s1, e1)` and `[s2, e2)` share an address.
pub open spec fn ranges_overlap(s1: int, e1: int, s2: int, e2: int) -> bool {
    exists|a: int| #[trigger] in_range(s1, e1, a) && in_range(s2, e2, a)
}

impl VMA {
    /// Create a new VMA with a start and end address and a given type.
    pub fn new(start: u64, end: u64, typ: VmaType) -> (r: VMA)
        ensures
            r == (VMA { start, end, typ }),
    {
        VMA { start, end, typ }
    }

    /// Check if this VMA overlaps with another one: whether some address lies
    /// in both.
    pub fn overlaps(&self, other: &VMA) -> (r: bool)
        ensures
            r == ranges_overlap(self.start as int, self.end as int, other.start as int, other.end as int),
    {
        let r = self.start < self.end && other.start < other.end && self.start < other.end
            && other.start < self.end;
        proof {
            if r {
                let a = if self.start > other.start {
                    self.start as int
                } else {
                    other.start as int
                };
                assert(in_range(self.start as int, self.end as int, a) && in_range(
                    other.start as int,
                    other.end as int,
                    a,
                ));
            }
        }
        r
    }
}

/// Law: overlapping is symmetric, and a non-empty area overlaps itself.
pub proof fn law_overlaps_symmetric(a: VMA, b: VMA)
    ensures
        ranges_overlap(a.start as int, a.end as int, b.start as int, b.end as int)
            == ranges_overlap(b.start as int, b.end as int, a.start as int, a.end as int),
        a.start < a.end ==> ranges_overlap(a.start as int, a.end as int, a.start as int, a.end as int),
{
    if ranges_overlap(a.start as int, a.end as int, b.start as int, b.end as int) {
        let x = choose|x: int|
            #[trigger] in_range(a.start as int, a.end as int, x) && in_range(
                b.start as int,
                b.end as int,
                x,
            );
        assert(in_range(b.start as int, b.end as int, x));
    }
    if ranges_overlap(b.start as int, b.end as int, a.start as int, a.end as int) {
        let x = choose|x: int|
            #[trigger] in_range(b.start as int, b.end as int, x) && in_range(
                a.start as int,
                a.end as int,
                x,
            );
        assert(in_range(a.start as int, a.end as int, x));
    }
    if a.start < a.end {
        assert(in_range(a.start as int, a.end as int, a.start as int));
    }
}

} // verus!
