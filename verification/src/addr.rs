use vstd::prelude::*;
use vstd::arithmetic::power2::is_pow2;

verus! {

/// The size of a page and of a frame, in bytes.
pub const PAGE_SIZE: u64 = 4096;

/// The number of bytes that one entry of the level 4 page table covers.
pub const LEVEL_4_SIZE: u64 = 0x80_0000_0000;

/// The number of entries of a page table.
pub const ENTRY_COUNT: u16 = 512;

/// The first value that is too large for a physical address.
pub const PHYS_LIMIT: u64 = 0x10_0000_0000_0000;

/// The first address of the upper half of the virtual address space.
pub const UPPER_HALF: u64 = 0xffff_8000_0000_0000;

/// The first address after the lower half of the virtual address space.
pub const LOWER_HALF_END: u64 = 0x8000_0000_0000;

/// The bits 48 to 63, which a canonical address of the upper half has set.
pub const SIGN_BITS: u64 = 0xffff_0000_0000_0000;

/// Whether `addr` is canonical: its bits 48 to 63 repeat bit 47.
pub open spec fn is_canonical(addr: int) -> bool {
    0 <= addr < LOWER_HALF_END || UPPER_HALF <= addr <= u64::MAX
}

/// The virtual address that `addr` stands for: `addr` itself where it is
/// canonical, `addr` with the bits 48 to 63 set where only bit 47 is set above
/// bit 46, and none otherwise.
pub open spec fn canonical_form(addr: u64) -> Option<u64> {
    if is_canonical(addr as int) {
        Some(addr)
    } else if addr < 0x1_0000_0000_0000 {
        Some((addr + SIGN_BITS) as u64)
    } else {
        None
    }
}

/// The largest multiple of `align` that is not above `addr`.
pub open spec fn aligned_down(addr: int, align: int) -> int {
    addr - addr % align
}

/// The smallest multiple of `align` that is not below `addr`.
pub open spec fn aligned_up(addr: int, align: int) -> int {
    if addr % align == 0 {
        addr
    } else {
        addr - addr % align + align
    }
}

/// The index into the level 4 page table under which `addr` is translated.
pub open spec fn p4_index_of(addr: int) -> int {
    (addr / (LEVEL_4_SIZE as int)) % (ENTRY_COUNT as int)
}

/// The first address that is translated under entry `index` of the level 4
/// page table.
pub open spec fn p4_start(index: int) -> int {
    if index < 256 {
        index * LEVEL_4_SIZE
    } else {
        index * LEVEL_4_SIZE + SIGN_BITS
    }
}

/// `x86_64::VirtAddr::try_new`: accepts a canonical address as it is, extends
/// the sign of one that has bit 47 set and the bits above it clear, and rejects
/// every other value.
#[verifier::external_body]
fn virt_addr_try_new(addr: u64) -> (r: Option<u64>)
    ensures
        r == canonical_form(addr),
{
    match x86_64::VirtAddr::try_new(addr) {
        Ok(a) => Some(a.as_u64()),
        Err(_) => None,
    }
}

/// `x86_64::PhysAddr::try_new`: accepts exactly the values below 2^52.
#[verifier::external_body]
fn phys_addr_try_new(addr: u64) -> (r: Option<u64>)
    ensures
        r == (if addr < PHYS_LIMIT {
            Some(addr)
        } else {
            None
        }),
{
    match x86_64::PhysAddr::try_new(addr) {
        Ok(a) => Some(a.as_u64()),
        Err(_) => None,
    }
}

/// `x86_64::align_down`: clears the bits of `addr` below the power of two
/// `align`, which leaves the largest multiple of `align` not above `addr`.
#[verifier::external_body]
fn x86_align_down(addr: u64, align: u64) -> (r: u64)
    requires
        is_pow2(align as int),
    ensures
        r == aligned_down(addr as int, align as int),
{
    x86_64::align_down(addr, align)
}

/// `x86_64::align_up`: returns `addr` where it is a multiple of the power of
/// two `align`, and else the next multiple above it; it panics where that does
/// not fit into 64 bits.
#[verifier::external_body]
fn x86_align_up(addr: u64, align: u64) -> (r: u64)
    requires
        is_pow2(align as int),
        aligned_up(addr as int, align as int) <= u64::MAX,
    ensures
        r == aligned_up(addr as int, align as int),
{
    x86_64::align_up(addr, align)
}

/// `x86_64::VirtAddr::p4_index`: the bits 39 to 47 of the address.
#[verifier::external_body]
fn virt_addr_p4_index(addr: u64) -> (r: u16)
    requires
        is_canonical(addr as int),
    ensures
        r == p4_index_of(addr as int),
{
    u16::from(x86_64::VirtAddr::new(addr).p4_index())
}

/// `x86_64::structures::paging::Page::from_page_table_indices_1gib` with a
/// level 3 index of zero: the page whose address has `index` in the bits 39 to
/// 47 and the sign extended from bit 47.
#[verifier::external_body]
fn p4_entry_start(index: u16) -> (r: u64)
    requires
        index < ENTRY_COUNT,
    ensures
        r == p4_start(index as int),
{
    x86_64::structures::paging::Page::from_page_table_indices_1gib(
        x86_64::structures::paging::PageTableIndex::new(index),
        x86_64::structures::paging::PageTableIndex::new(0),
    ).start_address().as_u64()
}

/// `u64::is_power_of_two` of std: whether the value is 2^k for some k.
#[verifier::external_body]
pub(crate) fn is_power_of_two(value: u64) -> (r: bool)
    ensures
        r == is_pow2(value as int),
{
    value.is_power_of_two()
}

/// 4096 and 16 are powers of two.
pub proof fn lemma_page_size_is_pow2()
    ensures
        is_pow2(PAGE_SIZE as int),
        is_pow2(16),
{
    reveal_with_fuel(is_pow2, 14);
}

/// Rounds `addr` down to a multiple of the power of two `align`.
pub fn align_down(addr: u64, align: u64) -> (r: u64)
    requires
        is_pow2(align as int),
    ensures
        r == aligned_down(addr as int, align as int),
        r <= addr,
        r as int % align as int == 0,
        addr - r < align,
{
    proof {
        lemma_pow2_positive(align as int);
        lemma_aligned_down(addr as int, align as int);
    }
    x86_align_down(addr, align)
}

/// Rounds `addr` up to a multiple of the power of two `align`.
pub fn align_up(addr: u64, align: u64) -> (r: u64)
    requires
        is_pow2(align as int),
        aligned_up(addr as int, align as int) <= u64::MAX,
    ensures
        r == aligned_up(addr as int, align as int),
        r >= addr,
        r as int % align as int == 0,
        r - addr < align,
{
    proof {
        lemma_pow2_positive(align as int);
        lemma_aligned_up(addr as int, align as int);
    }
    x86_align_up(addr, align)
}

/// A power of two is positive.
pub proof fn lemma_pow2_positive(n: int)
    requires
        is_pow2(n),
    ensures
        n > 0,
{
    reveal(is_pow2);
}

/// What rounding down gives: a multiple of `align`, less than `align` below `addr`.
pub proof fn lemma_aligned_down(addr: int, align: int)
    requires
        align > 0,
        addr >= 0,
    ensures
        0 <= aligned_down(addr, align) <= addr,
        aligned_down(addr, align) % align == 0,
        addr - aligned_down(addr, align) < align,
        aligned_down(addr, align) == (addr / align) * align,
{
    vstd::arithmetic::div_mod::lemma_fundamental_div_mod(addr, align);
    vstd::arithmetic::div_mod::lemma_mod_multiples_basic(addr / align, align);
    assert(align * (addr / align) == (addr / align) * align) by (nonlinear_arith);
}

/// What rounding up gives: a multiple of `align`, less than `align` above `addr`.
pub proof fn lemma_aligned_up(addr: int, align: int)
    requires
        align > 0,
        addr >= 0,
    ensures
        aligned_up(addr, align) >= addr,
        aligned_up(addr, align) % align == 0,
        aligned_up(addr, align) - addr < align,
{
    lemma_aligned_down(addr, align);
    if addr % align != 0 {
        let q = addr / align;
        assert(aligned_up(addr, align) == (q + 1) * align) by (nonlinear_arith)
            requires
                aligned_up(addr, align) == aligned_down(addr, align) + align,
                aligned_down(addr, align) == q * align,
        ;
        vstd::arithmetic::div_mod::lemma_mod_multiples_basic(q + 1, align);
    }
}

/// A physical address: a value below 2^52.
#[derive(Clone, Copy, Debug, PartialEq, Eq, Structural)]
pub struct PhysAddr(u64);

impl View for PhysAddr {
    type V = u64;

    closed spec fn view(&self) -> u64 {
        self.0
    }
}

impl PhysAddr {
    /// The invariant of the type.
    pub open spec fn wf(self) -> bool {
        self@ < PHYS_LIMIT
    }

    /// The physical address `addr`.
    pub fn new(addr: u64) -> (r: Self)
        requires
            addr < PHYS_LIMIT,
        ensures
            r@ == addr,
            r.wf(),
    {
        PhysAddr(phys_addr_try_new(addr).unwrap())
    }

    /// The physical address `addr`, if it is one.
    pub fn try_new(addr: u64) -> (r: Option<Self>)
        ensures
            r.is_some() == (addr < PHYS_LIMIT),
            r.is_some() ==> r.unwrap()@ == addr && r.unwrap().wf(),
    {
        match phys_addr_try_new(addr) {
            Some(a) => Some(PhysAddr(a)),
            None => None,
        }
    }

    pub fn as_u64(self) -> (r: u64)
        ensures
            r == self@,
    {
        self.0
    }
}

/// The start of a frame of 4 KiB of physical memory.
#[derive(Clone, Copy, Debug, PartialEq, Eq, Structural)]
pub struct PhysFrame {
    start_address: PhysAddr,
}

impl View for PhysFrame {
    type V = u64;

    closed spec fn view(&self) -> u64 {
        self.start_address@
    }
}

impl PhysFrame {
    /// The invariant of the type: a physical address that is a multiple of the
    /// frame size.
    pub open spec fn wf(self) -> bool {
        self@ < PHYS_LIMIT && self@ % PAGE_SIZE == 0
    }

    /// The frame that holds `address`.
    pub fn containing_address(address: PhysAddr) -> (r: Self)
        requires
            address.wf(),
        ensures
            r@ == aligned_down(address@ as int, PAGE_SIZE as int),
            r.wf(),
    {
        proof {
            lemma_page_size_is_pow2();
        }
        PhysFrame { start_address: PhysAddr(align_down(address.as_u64(), PAGE_SIZE)) }
    }

    /// The frame that starts at `address`, which is a multiple of the frame size.
    pub fn from_start_address(address: PhysAddr) -> (r: Option<Self>)
        requires
            address.wf(),
        ensures
            r.is_some() == (address@ % PAGE_SIZE == 0),
            r.is_some() ==> r.unwrap()@ == address@ && r.unwrap().wf(),
    {
        if address.as_u64() % PAGE_SIZE == 0 {
            Some(PhysFrame { start_address: address })
        } else {
            None
        }
    }

    pub fn start_address(self) -> (r: PhysAddr)
        ensures
            r@ == self@,
            self.wf() ==> r.wf(),
    {
        self.start_address
    }

    /// The frame after this one.
    pub fn next(self) -> (r: Self)
        requires
            self.wf(),
            self@ + PAGE_SIZE < PHYS_LIMIT,
        ensures
            r@ == self@ + PAGE_SIZE,
            r.wf(),
    {
        PhysFrame { start_address: PhysAddr(self.start_address.0 + PAGE_SIZE) }
    }
}

/// A canonical virtual address.
#[derive(Clone, Copy, Debug, PartialEq, Eq, Structural)]
pub struct VirtAddr(u64);

impl View for VirtAddr {
    type V = u64;

    closed spec fn view(&self) -> u64 {
        self.0
    }
}

impl VirtAddr {
    /// The invariant of the type.
    pub open spec fn wf(self) -> bool {
        is_canonical(self@ as int)
    }

    /// The virtual address that `addr` stands for; see `canonical_form`.
    pub fn new(addr: u64) -> (r: Self)
        requires
            canonical_form(addr).is_some(),
        ensures
            Some(r@) == canonical_form(addr),
            r.wf(),
    {
        VirtAddr(virt_addr_try_new(addr).unwrap())
    }

    /// The virtual address that `addr` stands for, if there is one.
    pub fn try_new(addr: u64) -> (r: Option<Self>)
        ensures
            r.is_some() == canonical_form(addr).is_some(),
            r.is_some() ==> Some(r.unwrap()@) == canonical_form(addr) && r.unwrap().wf(),
    {
        match virt_addr_try_new(addr) {
            Some(a) => Some(VirtAddr(a)),
            None => None,
        }
    }

    pub fn as_u64(self) -> (r: u64)
        ensures
            r == self@,
    {
        self.0
    }

    /// Whether the address is a multiple of the power of two `align`.
    pub fn is_aligned(self, align: u64) -> (r: bool)
        requires
            is_pow2(align as int),
        ensures
            r == (self@ as int % align as int == 0),
    {
        align_down(self.0, align) == self.0
    }

    /// The index into the level 4 page table under which the address is
    /// translated.
    pub fn p4_index(self) -> (r: PageTableIndex)
        requires
            self.wf(),
        ensures
            r@ == p4_index_of(self@ as int),
            r.wf(),
    {
        PageTableIndex(virt_addr_p4_index(self.0))
    }
}

/// An index into a page table: a value below 512.
#[derive(Clone, Copy, Debug, PartialEq, Eq, Structural)]
pub struct PageTableIndex(u16);

impl View for PageTableIndex {
    type V = u16;

    closed spec fn view(&self) -> u16 {
        self.0
    }
}

impl PageTableIndex {
    /// The invariant of the type.
    pub open spec fn wf(self) -> bool {
        self@ < ENTRY_COUNT
    }

    pub fn new(index: u16) -> (r: Self)
        requires
            index < ENTRY_COUNT,
        ensures
            r@ == index,
            r.wf(),
    {
        PageTableIndex(index)
    }

    pub fn as_u16(self) -> (r: u16)
        ensures
            r == self@,
    {
        self.0
    }

    /// The first address that is translated under this entry of the level 4
    /// page table.
    pub fn start_address(self) -> (r: VirtAddr)
        requires
            self.wf(),
        ensures
            r@ == p4_start(self@ as int),
            r.wf(),
    {
        VirtAddr(p4_entry_start(self.0))
    }
}

/// The page that starts `count` pages after the page at `page`, if `x86_64`'s
/// addition of addresses gives one: the sum has to fit into 64 bits and to
/// stand for a virtual address, which lies in the upper half where the sum
/// has just left the lower half.
pub open spec fn page_after(page: u64, count: int) -> Option<u64> {
    if 0 <= count && page + count * PAGE_SIZE <= u64::MAX {
        canonical_form((page + count * PAGE_SIZE) as u64)
    } else {
        None
    }
}

/// The start of a page of 4 KiB of virtual memory.
#[derive(Clone, Copy, Debug, PartialEq, Eq, Structural)]
pub struct Page {
    start_address: VirtAddr,
}

impl View for Page {
    type V = u64;

    closed spec fn view(&self) -> u64 {
        self.start_address@
    }
}

impl Page {
    /// The invariant of the type: a canonical address that is a multiple of
    /// the page size.
    pub open spec fn wf(self) -> bool {
        is_canonical(self@ as int) && self@ % PAGE_SIZE == 0
    }

    /// The page that holds `address`.
    pub fn containing_address(address: VirtAddr) -> (r: Self)
        requires
            address.wf(),
        ensures
            r@ == aligned_down(address@ as int, PAGE_SIZE as int),
            r.wf(),
    {
        proof {
            lemma_page_size_is_pow2();
            lemma_aligned_down_canonical(address@);
        }
        Page { start_address: VirtAddr(align_down(address.as_u64(), PAGE_SIZE)) }
    }

    /// The page that starts at `address`, if that is a multiple of the page size.
    pub fn from_start_address(address: VirtAddr) -> (r: Option<Self>)
        requires
            address.wf(),
        ensures
            r.is_some() == (address@ % PAGE_SIZE == 0),
            r.is_some() ==> r.unwrap()@ == address@ && r.unwrap().wf(),
    {
        if address.as_u64() % PAGE_SIZE == 0 {
            Some(Page { start_address: address })
        } else {
            None
        }
    }

    pub fn start_address(self) -> (r: VirtAddr)
        ensures
            r@ == self@,
            self.wf() ==> r.wf(),
    {
        self.start_address
    }

    /// The page that starts `count` pages after this one, if there is one; see
    /// `page_after`.
    pub fn checked_add(self, count: u64) -> (r: Option<Self>)
        requires
            self.wf(),
        ensures
            r.is_some() == page_after(self@, count as int).is_some(),
            r matches Some(p) ==> Some(p@) == page_after(self@, count as int) && p.wf(),
    {
        if count > (u64::MAX - self.start_address.0) / PAGE_SIZE {
            assert(self@ + count * PAGE_SIZE > u64::MAX) by (nonlinear_arith)
                requires
                    count > (u64::MAX - self@) / (PAGE_SIZE as int),
                    PAGE_SIZE == 4096,
            ;
            return None;
        }
        assert(self@ + count * PAGE_SIZE <= u64::MAX) by (nonlinear_arith)
            requires
                count <= (u64::MAX - self@) / (PAGE_SIZE as int),
                PAGE_SIZE == 4096,
        ;
        let sum: u64 = self.start_address.0 + count * PAGE_SIZE;
        assert(sum % PAGE_SIZE == 0) by (nonlinear_arith)
            requires
                sum == self@ + count * PAGE_SIZE,
                self@ % PAGE_SIZE == 0,
                PAGE_SIZE == 4096,
        ;
        match virt_addr_try_new(sum) {
            Some(a) => Some(Page { start_address: VirtAddr(a) }),
            None => None,
        }
    }
}

/// Rounding a canonical address down to a page gives a canonical address.
pub proof fn lemma_aligned_down_canonical(addr: u64)
    requires
        is_canonical(addr as int),
    ensures
        is_canonical(aligned_down(addr as int, PAGE_SIZE as int)),
        aligned_down(addr as int, PAGE_SIZE as int) % (PAGE_SIZE as int) == 0,
        0 <= aligned_down(addr as int, PAGE_SIZE as int) <= addr,
        addr - aligned_down(addr as int, PAGE_SIZE as int) < PAGE_SIZE,
{
    lemma_aligned_down(addr as int, PAGE_SIZE as int);
    if addr >= UPPER_HALF {
        assert(UPPER_HALF as int % PAGE_SIZE as int == 0);
        assert(aligned_down(addr as int, PAGE_SIZE as int) >= UPPER_HALF) by {
            let a = aligned_down(addr as int, PAGE_SIZE as int);
            if a < UPPER_HALF {
                // `a` and the start of the upper half are both multiples of the
                // page size, and `addr` lies less than a page above `a`.
                assert(a + PAGE_SIZE <= UPPER_HALF) by {
                    lemma_multiples_apart(a, UPPER_HALF as int, PAGE_SIZE as int);
                }
            }
        }
    }
}

/// Two multiples of `step`, the first below the second, lie at least `step` apart.
pub proof fn lemma_multiples_apart(a: int, b: int, step: int)
    requires
        step > 0,
        a % step == 0,
        b % step == 0,
        a < b,
    ensures
        a + step <= b,
{
    vstd::arithmetic::div_mod::lemma_fundamental_div_mod(a, step);
    vstd::arithmetic::div_mod::lemma_fundamental_div_mod(b, step);
    let qa = a / step;
    let qb = b / step;
    assert(qa < qb) by (nonlinear_arith)
        requires
            step * qa < step * qb,
            step > 0,
    ;
    assert(step * qa + step <= step * qb) by (nonlinear_arith)
        requires
            qa + 1 <= qb,
            step > 0,
    ;
}

} // verus!
