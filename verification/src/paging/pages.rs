//! Page table entries, their flags, and page alignment.
use vstd::prelude::*;
use super::frames::PhysAddr;

verus! {

/// Size of a virtual page in bytes.
pub const PAGE_SIZE: usize = 4096;

/// Number of entries in one page table.
pub const PAGE_TABLE_ENTRIES: usize = 512;

/// The bits of an entry that hold flags.
pub const FLAGS_MASK: u64 = 0x1ff;

/// The bits of an entry that hold the physical address of a frame.
pub const ADDR_MASK: u64 = 0x000f_ffff_ffff_f000;

/// The defined flags, and the kernel and user combinations of them, lie
/// within `FLAGS_MASK`.
proof fn lemma_flag_constants()
    ensures
        1u64 & !FLAGS_MASK == 0,
        2u64 & !FLAGS_MASK == 0,
        4u64 & !FLAGS_MASK == 0,
        8u64 & !FLAGS_MASK == 0,
        16u64 & !FLAGS_MASK == 0,
        32u64 & !FLAGS_MASK == 0,
        64u64 & !FLAGS_MASK == 0,
        128u64 & !FLAGS_MASK == 0,
        256u64 & !FLAGS_MASK == 0,
        0u64 & !FLAGS_MASK == 0,
        3u64 & !FLAGS_MASK == 0,
        7u64 & !FLAGS_MASK == 0,
        1u64 | 2u64 == 3u64,
        (1u64 | 2u64) | 4u64 == 7u64,
{
    assert(1u64 & !0x1ffu64 == 0 && 2u64 & !0x1ffu64 == 0 && 4u64 & !0x1ffu64 == 0 && 8u64
        & !0x1ffu64 == 0 && 16u64 & !0x1ffu64 == 0 && 32u64 & !0x1ffu64 == 0 && 64u64 & !0x1ffu64
        == 0 && 128u64 & !0x1ffu64 == 0 && 256u64 & !0x1ffu64 == 0 && 0u64 & !0x1ffu64 == 0 && 3u64
        & !0x1ffu64 == 0 && 7u64 & !0x1ffu64 == 0 && 1u64 | 2u64 == 3u64 && (1u64 | 2u64) | 4u64
        == 7u64) by (bit_vector);
}

/// Flags of a page table entry.
#[derive(Clone, Copy, Debug, PartialEq, Eq, Structural)]
pub struct PageFlags {
    bits: u64,
}

impl PageFlags {
    /// The entry is present.
    pub fn present() -> (r: PageFlags)
        ensures
            r.spec_bits() == 1,
            r.wf(),
    {
        proof {
            lemma_flag_constants();
        }
        PageFlags { bits: 1 }
    }

    /// The page may be written.
    pub fn writeable() -> (r: PageFlags)
        ensures
            r.spec_bits() == 2,
            r.wf(),
    {
        proof {
            lemma_flag_constants();
        }
        PageFlags { bits: 2 }
    }

    /// The page is accessible from user mode.
    pub fn user() -> (r: PageFlags)
        ensures
            r.spec_bits() == 4,
            r.wf(),
    {
        proof {
            lemma_flag_constants();
        }
        PageFlags { bits: 4 }
    }

    /// Writes go through the cache.
    pub fn write_through() -> (r: PageFlags)
        ensures
            r.spec_bits() == 8,
            r.wf(),
    {
        proof {
            lemma_flag_constants();
        }
        PageFlags { bits: 8 }
    }

    /// The page is not cached.
    pub fn cache_disable() -> (r: PageFlags)
        ensures
            r.spec_bits() == 16,
            r.wf(),
    {
        proof {
            lemma_flag_constants();
        }
        PageFlags { bits: 16 }
    }

    /// The page was accessed.
    pub fn accessed() -> (r: PageFlags)
        ensures
            r.spec_bits() == 32,
            r.wf(),
    {
        proof {
            lemma_flag_constants();
        }
        PageFlags { bits: 32 }
    }

    /// The page was written.
    pub fn dirty() -> (r: PageFlags)
        ensures
            r.spec_bits() == 64,
            r.wf(),
    {
        proof {
            lemma_flag_constants();
        }
        PageFlags { bits: 64 }
    }

    /// The entry maps a huge page.
    pub fn huge_page() -> (r: PageFlags)
        ensures
            r.spec_bits() == 128,
            r.wf(),
    {
        proof {
            lemma_flag_constants();
        }
        PageFlags { bits: 128 }
    }

    /// The mapping is global.
    pub fn global() -> (r: PageFlags)
        ensures
            r.spec_bits() == 256,
            r.wf(),
    {
        proof {
            lemma_flag_constants();
        }
        PageFlags { bits: 256 }
    }

    /// The raw flag bits.
    pub closed spec fn spec_bits(self) -> u64 {
        self.bits
    }

    /// Only defined flags are set.
    pub open spec fn wf(self) -> bool {
        self.spec_bits() & !FLAGS_MASK == 0
    }

    /// The raw flag bits.
    pub fn bits(&self) -> (r: u64)
        ensures
            r == self.spec_bits(),
    {
        self.bits
    }

    /// The flags whose bits are set in `bits`; other bits are dropped.
    pub fn from_bits_truncate(bits: u64) -> (r: PageFlags)
        ensures
            r.spec_bits() == bits & FLAGS_MASK,
            r.wf(),
    {
        let r = PageFlags { bits: bits & FLAGS_MASK };
        assert((bits & 0x1ffu64) & !0x1ffu64 == 0) by (bit_vector);
        r
    }

    /// No flag set.
    pub fn empty() -> (r: PageFlags)
        ensures
            r.spec_bits() == 0,
            r.wf(),
    {
        proof {
            lemma_flag_constants();
        }
        PageFlags { bits: 0 }
    }

    /// Whether every flag of `other` is set in `self`.
    pub fn contains(&self, other: PageFlags) -> (r: bool)
        ensures
            r == (self.spec_bits() & other.spec_bits() == other.spec_bits()),
    {
        self.bits & other.bits == other.bits
    }

    /// The flags set in `self` or in `other`.
    pub fn union(self, other: PageFlags) -> (r: PageFlags)
        ensures
            r.spec_bits() == self.spec_bits() | other.spec_bits(),
            self.wf() && other.wf() ==> r.wf(),
    {
        let a = self.bits;
        let b = other.bits;
        assert(a & !0x1ffu64 == 0 && b & !0x1ffu64 == 0 ==> (a | b) & !0x1ffu64 == 0)
            by (bit_vector);
        PageFlags { bits: a | b }
    }

    /// Flags of a kernel mapping: present and writeable.
    pub fn kernel_flags() -> (r: PageFlags)
        ensures
            r.spec_bits() == 3,
            r.wf(),
    {
        proof {
            lemma_flag_constants();
        }
        PageFlags::present().union(PageFlags::writeable())
    }

    /// Flags of a user mapping: present, writeable and accessible from user mode.
    pub fn user_flags() -> (r: PageFlags)
        ensures
            r.spec_bits() == 7,
            r.wf(),
    {
        proof {
            lemma_flag_constants();
        }
        PageFlags::present().union(PageFlags::writeable()).union(PageFlags::user())
    }
}

/// Whether `addr` can stand in an entry: frame aligned and below 2^52.
pub open spec fn is_frame_addr(addr: u64) -> bool {
    addr & !ADDR_MASK == 0
}

/// A page table entry: the physical address of a frame and flags, in one word.
#[derive(Clone, Copy, Debug, PartialEq, Eq, Structural)]
pub struct PageTableEntry(pub u64);

impl PageTableEntry {
    /// The entry pointing to `addr` with `flags`.
    pub fn new(addr: PhysAddr, flags: PageFlags) -> (r: PageTableEntry)
        ensures
            r.0 == addr.0 | flags.spec_bits(),
    {
        let addr: u64 = addr.into();
        PageTableEntry(addr | flags.bits())
    }

    /// Sets the entry to point to `addr` with `flags`.
    pub fn set(&mut self, addr: PhysAddr, flags: PageFlags)
        ensures
            final(self).0 == addr.0 | flags.spec_bits(),
    {
        *self = PageTableEntry::new(addr, flags);
    }

    /// The flags of the entry.
    pub fn get_flags(&self) -> (r: PageFlags)
        ensures
            r.spec_bits() == self.0 & FLAGS_MASK,
            r.wf(),
    {
        PageFlags::from_bits_truncate(self.0)
    }

    /// Sets the flags, keeping the address.
    pub fn set_flags(&mut self, flags: PageFlags)
        ensures
            final(self).0 == (old(self).0 & ADDR_MASK) | flags.spec_bits(),
    {
        *self = PageTableEntry::new(self.get_addr(), flags);
    }

    /// The physical address the entry points to.
    pub fn get_addr(&self) -> (r: PhysAddr)
        ensures
            r.0 == self.0 & ADDR_MASK,
    {
        PhysAddr::new(self.0 & ADDR_MASK)
    }

    /// Sets the address, keeping the flags.
    pub fn set_addr(&mut self, addr: PhysAddr)
        ensures
            final(self).0 == addr.0 | (old(self).0 & FLAGS_MASK),
    {
        *self = PageTableEntry::new(addr, self.get_flags());
    }
}

/// Law: an entry made from a frame address and valid flags gives back that
/// address and those flags.
pub proof fn law_entry_new_roundtrip(addr: u64, flags: u64)
    requires
        is_frame_addr(addr),
        flags & !FLAGS_MASK == 0,
    ensures
        (addr | flags) & ADDR_MASK == addr,
        (addr | flags) & FLAGS_MASK == flags,
{
    assert((addr | flags) & 0x000f_ffff_ffff_f000u64 == addr) by (bit_vector)
        requires
            addr & !0x000f_ffff_ffff_f000u64 == 0,
            flags & !0x1ffu64 == 0,
    ;
    assert((addr | flags) & 0x1ffu64 == flags) by (bit_vector)
        requires
            addr & !0x000f_ffff_ffff_f000u64 == 0,
            flags & !0x1ffu64 == 0,
    ;
}

/// Law: after `set_flags`, an entry keeps its address and reads back the new
/// flags; after `set_addr` with a frame address, it keeps its flags and reads
/// back the new address.
pub proof fn law_entry_setters(entry: u64, addr: u64, flags: u64)
    requires
        is_frame_addr(addr),
        flags & !FLAGS_MASK == 0,
    ensures
        ((entry & ADDR_MASK) | flags) & ADDR_MASK == entry & ADDR_MASK,
        ((entry & ADDR_MASK) | flags) & FLAGS_MASK == flags,
        (addr | (entry & FLAGS_MASK)) & ADDR_MASK == addr,
        (addr | (entry & FLAGS_MASK)) & FLAGS_MASK == entry & FLAGS_MASK,
{
    assert(((entry & 0x000f_ffff_ffff_f000u64) | flags) & 0x000f_ffff_ffff_f000u64 == entry
        & 0x000f_ffff_ffff_f000u64) by (bit_vector)
        requires
            flags & !0x1ffu64 == 0,
    ;
    assert(((entry & 0x000f_ffff_ffff_f000u64) | flags) & 0x1ffu64 == flags) by (bit_vector)
        requires
            flags & !0x1ffu64 == 0,
    ;
    assert((addr | (entry & 0x1ffu64)) & 0x000f_ffff_ffff_f000u64 == addr) by (bit_vector)
        requires
            addr & !0x000f_ffff_ffff_f000u64 == 0,
    ;
    assert((addr | (entry & 0x1ffu64)) & 0x1ffu64 == entry & 0x1ffu64) by (bit_vector)
        requires
            addr & !0x000f_ffff_ffff_f000u64 == 0,
    ;
}

/// Aligns an address down to the start of its page.
pub fn aligne_to_page(addr: u64) -> (r: u64)
    ensures
        r == addr - addr % (PAGE_SIZE as u64),
        r % (PAGE_SIZE as u64) == 0,
        r <= addr,
{
    let r = addr & !(PAGE_SIZE as u64 - 1);
    assert(addr & !4095u64 == addr - addr % 4096) by (bit_vector);
    r
}

} // verus!
