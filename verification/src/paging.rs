use vstd::prelude::*;
use std::collections::BTreeMap;
use vstd::std_specs::iter::IteratorSpec;
use crate::addr::{Page, PhysFrame, PAGE_SIZE};

verus! {

/// The bit of a page table entry that marks the entry as present.
pub const PRESENT: u64 = 1;

/// The bit that allows writes to the page.
pub const WRITABLE: u64 = 2;

/// A bit that the processor ignores. The loader sets it on a page that has a
/// frame of its own, which may be written without changing the kernel's file.
pub const COPIED: u64 = 0x200;

/// The bit that forbids execution of what the page holds.
pub const NO_EXECUTE: u64 = 0x8000_0000_0000_0000;

/// The flags of a mapping that the boot loader uses.
#[derive(Clone, Copy, Debug, PartialEq, Eq, Structural)]
pub struct PageFlags {
    pub present: bool,
    pub writable: bool,
    pub no_execute: bool,
    pub copied: bool,
}

impl PageFlags {
    /// The flags as the bits of a page table entry.
    pub open spec fn spec_bits(self) -> u64 {
        ((if self.present {
            PRESENT as int
        } else {
            0
        }) + (if self.writable {
            WRITABLE as int
        } else {
            0
        }) + (if self.copied {
            COPIED as int
        } else {
            0
        }) + (if self.no_execute {
            NO_EXECUTE as int
        } else {
            0
        })) as u64
    }

    /// The flags as the bits of a page table entry.
    pub fn bits(self) -> (r: u64)
        ensures
            r == self.spec_bits(),
    {
        let mut bits: u64 = 0;
        if self.present {
            bits = bits + PRESENT;
        }
        if self.writable {
            bits = bits + WRITABLE;
        }
        if self.copied {
            bits = bits + COPIED;
        }
        if self.no_execute {
            bits = bits + NO_EXECUTE;
        }
        bits
    }

    /// Present, and nothing else: read-only and executable.
    pub fn present() -> (r: Self)
        ensures
            r == (PageFlags { present: true, writable: false, no_execute: false, copied: false }),
    {
        PageFlags { present: true, writable: false, no_execute: false, copied: false }
    }

    /// Present and writable.
    pub fn present_writable() -> (r: Self)
        ensures
            r == (PageFlags { present: true, writable: true, no_execute: false, copied: false }),
    {
        PageFlags { present: true, writable: true, no_execute: false, copied: false }
    }
}

/// What a page is mapped to.
pub struct PageEntry {
    /// The frame that the page is mapped to.
    pub frame: PhysFrame,
    pub flags: PageFlags,
    /// What the frame is to hold when the kernel starts, where the boot loader
    /// decides that: one entry for each of the 4096 bytes of a frame that was
    /// set up for this page alone. A byte without a value is as the frame that
    /// `copy_of` names holds it, or as the frame itself holds it where
    /// `copy_of` names none. A page without this shows what its frame holds
    /// already.
    pub data: Option<Vec<Option<u8>>>,
    /// The frame whose 4096 bytes are to be copied into the frame of the page
    /// before the bytes of `data` are put there.
    pub copy_of: Option<PhysFrame>,
}

/// What a page is mapped to, as a mathematical value.
pub struct Mapping {
    pub frame: u64,
    pub flags: PageFlags,
    pub data: Option<Seq<Option<u8>>>,
    pub copy_of: Option<u64>,
}

impl View for PageEntry {
    type V = Mapping;

    open spec fn view(&self) -> Mapping {
        Mapping {
            frame: self.frame@,
            flags: self.flags,
            data: match self.data {
                Some(d) => Some(d@),
                None => None,
            },
            copy_of: match self.copy_of {
                Some(f) => Some(f@),
                None => None,
            },
        }
    }
}

impl PageEntry {
    /// The invariant of the type.
    pub open spec fn wf(&self) -> bool {
        &&& self.frame.wf()
        &&& self.data matches Some(d) ==> d@.len() == PAGE_SIZE
        &&& self.copy_of matches Some(f) ==> f.wf()
    }
}

/// Why a page could not be mapped.
#[derive(Clone, Copy, Debug, PartialEq, Eq, Structural)]
pub enum MapToError {
    /// The page is mapped already.
    PageAlreadyMapped,
}

/// The mappings of a virtual address space that is being set up: for each page
/// that is mapped, its frame, its flags and, where the boot loader fills the
/// frame, what the frame is to hold.
pub struct AddressSpace {
    pages: BTreeMap<u64, PageEntry>,
}

impl View for AddressSpace {
    type V = Map<u64, Mapping>;

    closed spec fn view(&self) -> Map<u64, Mapping> {
        Map::new(|p: u64| self.pages@.contains_key(p), |p: u64| self.pages@[p]@)
    }
}

/// Whether the mappings of a space are well formed: pages and frames are
/// aligned addresses, and what a frame is to hold is a frame's worth of bytes.
pub open spec fn space_wf(space: Map<u64, Mapping>) -> bool {
    forall|p: u64| #[trigger]
        space.contains_key(p) ==> {
            &&& crate::addr::is_canonical(p as int)
            &&& p % PAGE_SIZE == 0
            &&& space[p].frame < crate::addr::PHYS_LIMIT
            &&& space[p].frame % PAGE_SIZE == 0
            &&& space[p].data matches Some(d) ==> d.len() == PAGE_SIZE
            &&& space[p].copy_of matches Some(f) ==> f < crate::addr::PHYS_LIMIT && f % PAGE_SIZE == 0
        }
}

impl AddressSpace {
    /// The invariant of the type.
    pub closed spec fn wf(&self) -> bool {
        &&& space_wf(self@)
        &&& forall|p: u64| #[trigger] self.pages@.contains_key(p) ==> self.pages@[p].wf()
    }

    /// What the invariant says of the mappings.
    pub proof fn lemma_wf(&self)
        requires
            self.wf(),
        ensures
            space_wf(self@),
    {
    }

    /// A space in which no page is mapped.
    pub fn new() -> (r: Self)
        ensures
            r.wf(),
            r@ == Map::<u64, Mapping>::empty(),
    {
        let r = AddressSpace { pages: BTreeMap::new() };
        assert(r@ =~= Map::<u64, Mapping>::empty());
        r
    }

    /// Maps `page` to `frame`; fails where the page is mapped already.
    pub fn map_to(&mut self, page: Page, frame: PhysFrame, flags: PageFlags) -> (r: Result<
        (),
        MapToError,
    >)
        requires
            old(self).wf(),
            page.wf(),
            frame.wf(),
        ensures
            final(self).wf(),
            r.is_err() == old(self)@.contains_key(page@),
            r.is_err() ==> final(self)@ == old(self)@,
            r.is_ok() ==> final(self)@ == old(self)@.insert(
                page@,
                Mapping { frame: frame@, flags, data: None, copy_of: None },
            ),
    {
        let key = page.start_address().as_u64();
        if self.pages.contains_key(&key) {
            return Err(MapToError::PageAlreadyMapped);
        }
        self.pages.insert(key, PageEntry { frame, flags, data: None, copy_of: None });
        assert(self@ =~= old(self)@.insert(
            page@,
            Mapping { frame: frame@, flags, data: None, copy_of: None },
        ));
        Ok(())
    }

    /// Whether `page` is mapped.
    pub fn contains(&self, page: Page) -> (r: bool)
        ensures
            r == self@.contains_key(page@),
    {
        let key = page.start_address().as_u64();
        self.pages.contains_key(&key)
    }

    /// The frame and the flags of `page`, if it is mapped.
    pub fn translate(&self, page: Page) -> (r: Option<(PhysFrame, PageFlags)>)
        requires
            self.wf(),
        ensures
            r.is_some() == self@.contains_key(page@),
            r matches Some((frame, flags)) ==> frame@ == self@[page@].frame && frame.wf() && flags
                == self@[page@].flags,
    {
        let key = page.start_address().as_u64();
        match self.pages.get(&key) {
            Some(entry) => Some((entry.frame, entry.flags)),
            None => None,
        }
    }

    /// The byte at `offset` of what the frame of `page` is to hold, where the
    /// boot loader decides that.
    pub fn data_byte(&self, page: Page, offset: usize) -> (r: Option<Option<u8>>)
        requires
            self.wf(),
            offset < PAGE_SIZE,
        ensures
            r.is_some() == (self@.contains_key(page@) && self@[page@].data.is_some()),
            r matches Some(b) ==> b == self@[page@].data.unwrap()[offset as int],
    {
        let key = page.start_address().as_u64();
        match self.pages.get(&key) {
            Some(entry) => {
                assert(self.pages@.contains_key(key));
                assert(entry.wf());
                match &entry.data {
                    Some(d) => Some(d[offset]),
                    None => None,
                }
            },
            None => None,
        }
    }

    /// Maps `page` to `frame`, which is to hold a copy of the frame `copy_of`,
    /// where that is given, with the bytes of `data` put over it; fails where
    /// the page is mapped already.
    pub fn map_with_data(
        &mut self,
        page: Page,
        frame: PhysFrame,
        flags: PageFlags,
        data: Vec<Option<u8>>,
        copy_of: Option<PhysFrame>,
    ) -> (r: Result<(), MapToError>)
        requires
            old(self).wf(),
            page.wf(),
            frame.wf(),
            data@.len() == PAGE_SIZE,
            copy_of matches Some(f) ==> f.wf(),
        ensures
            final(self).wf(),
            r.is_err() == old(self)@.contains_key(page@),
            r.is_err() ==> final(self)@ == old(self)@,
            r.is_ok() ==> final(self)@ == old(self)@.insert(
                page@,
                (PageEntry { frame, flags, data: Some(data), copy_of })@,
            ),
    {
        let key = page.start_address().as_u64();
        if self.pages.contains_key(&key) {
            return Err(MapToError::PageAlreadyMapped);
        }
        let ghost mapping = (PageEntry { frame, flags, data: Some(data), copy_of })@;
        self.pages.insert(key, PageEntry { frame, flags, data: Some(data), copy_of });
        assert(self@ =~= old(self)@.insert(page@, mapping));
        Ok(())
    }

    /// Removes the mapping of `page` and returns the frame that it was mapped
    /// to; none where the page is not mapped.
    pub fn unmap(&mut self, page: Page) -> (r: Option<PhysFrame>)
        requires
            old(self).wf(),
        ensures
            final(self).wf(),
            r.is_some() == old(self)@.contains_key(page@),
            r matches Some(frame) ==> frame@ == old(self)@[page@].frame && frame.wf(),
            final(self)@ == old(self)@.remove(page@),
    {
        let key = page.start_address().as_u64();
        let removed = self.pages.remove(&key);
        assert(self@ =~= old(self)@.remove(page@));
        match removed {
            Some(entry) => {
                assert(old(self).pages@.contains_key(key));
                Some(entry.frame)
            },
            None => None,
        }
    }

    /// Gives `page` the flags `flags`; fails where the page is not mapped.
    pub fn update_flags(&mut self, page: Page, flags: PageFlags) -> (r: bool)
        requires
            old(self).wf(),
        ensures
            final(self).wf(),
            r == old(self)@.contains_key(page@),
            r ==> final(self)@ == old(self)@.insert(
                page@,
                Mapping { flags, ..old(self)@[page@] },
            ),
            !r ==> final(self)@ == old(self)@,
    {
        let key = page.start_address().as_u64();
        match self.pages.remove(&key) {
            Some(entry) => {
                assert(old(self).pages@.contains_key(key));
                assert(old(self).pages@[key].wf());
                let updated = PageEntry {
                    frame: entry.frame,
                    flags,
                    data: entry.data,
                    copy_of: entry.copy_of,
                };
                self.pages.insert(key, updated);
                assert(self@ =~= old(self)@.insert(
                    page@,
                    Mapping { flags, ..old(self)@[page@] },
                ));
                true
            },
            None => {
                assert(self@ =~= old(self)@);
                false
            },
        }
    }

    /// Sets the byte at `offset` of what the frame of `page` is to hold; fails
    /// where the page is not mapped or the boot loader does not fill its frame.
    pub fn set_data_byte(&mut self, page: Page, offset: usize, value: u8) -> (r: bool)
        requires
            old(self).wf(),
            offset < PAGE_SIZE,
        ensures
            final(self).wf(),
            r == (old(self)@.contains_key(page@) && old(self)@[page@].data.is_some()),
            r ==> final(self)@ == old(self)@.insert(
                page@,
                Mapping {
                    data: Some(old(self)@[page@].data.unwrap().update(offset as int, Some(value))),
                    ..old(self)@[page@]
                },
            ),
            !r ==> final(self)@ == old(self)@,
    {
        let key = page.start_address().as_u64();
        match self.pages.remove(&key) {
            Some(entry) => {
                assert(old(self).pages@.contains_key(key));
                assert(old(self).pages@[key].wf());
                let PageEntry { frame, flags, data, copy_of } = entry;
                match data {
                    Some(mut bytes) => {
                        bytes[offset] = Some(value);
                        self.pages.insert(key, PageEntry { frame, flags, data: Some(bytes), copy_of });
                        assert(self@ =~= old(self)@.insert(
                            page@,
                            Mapping {
                                data: Some(
                                    old(self)@[page@].data.unwrap().update(
                                        offset as int,
                                        Some(value),
                                    ),
                                ),
                                ..old(self)@[page@]
                            },
                        ));
                        true
                    },
                    None => {
                        self.pages.insert(key, PageEntry { frame, flags, data: None, copy_of });
                        assert(self@ =~= old(self)@);
                        false
                    },
                }
            },
            None => {
                assert(self@ =~= old(self)@);
                false
            },
        }
    }

    /// Gives the frame of `page` the contents `data`; fails where the page is
    /// not mapped.
    pub fn set_data(&mut self, page: Page, data: Vec<Option<u8>>) -> (r: bool)
        requires
            old(self).wf(),
            data@.len() == PAGE_SIZE,
        ensures
            final(self).wf(),
            r == old(self)@.contains_key(page@),
            r ==> final(self)@ == old(self)@.insert(
                page@,
                Mapping { data: Some(data@), ..old(self)@[page@] },
            ),
            !r ==> final(self)@ == old(self)@,
    {
        let key = page.start_address().as_u64();
        match self.pages.remove(&key) {
            Some(entry) => {
                assert(old(self).pages@.contains_key(key));
                assert(old(self).pages@[key].wf());
                let PageEntry { frame, flags, data: _, copy_of } = entry;
                self.pages.insert(key, PageEntry { frame, flags, data: Some(data), copy_of });
                assert(self@ =~= old(self)@.insert(
                    page@,
                    Mapping { data: Some(data@), ..old(self)@[page@] },
                ));
                true
            },
            None => {
                assert(self@ =~= old(self)@);
                false
            },
        }
    }

    /// The frame whose bytes are to be copied into the frame of `page`, if
    /// there is one.
    pub fn copy_source(&self, page: Page) -> (r: Option<PhysFrame>)
        requires
            self.wf(),
        ensures
            r.is_some() == (self@.contains_key(page@) && self@[page@].copy_of.is_some()),
            r matches Some(f) ==> f@ == self@[page@].copy_of.unwrap() && f.wf(),
    {
        let key = page.start_address().as_u64();
        match self.pages.get(&key) {
            Some(entry) => {
                assert(self.pages@.contains_key(key));
                assert(entry.wf());
                entry.copy_of
            },
            None => None,
        }
    }

    /// The addresses of the pages that are mapped, each once.
    pub fn pages(&self) -> (r: Vec<u64>)
        ensures
            r@.no_duplicates(),
            forall|p: u64| r@.contains(p) <==> #[trigger] self@.contains_key(p),
    {
        let mut pages: Vec<u64> = Vec::new();
        let ghost all = self.pages.keys().remaining().unref();
        for key in it: self.pages.keys()
            invariant
                it.seq().unref() == all,
                pages@.len() == it.index(),
                forall|j: int| 0 <= j < pages@.len() ==> pages@[j] == all[j],
        {
            pages.push(*key);
        }
        assert(pages@ =~= all);
        assert forall|p: u64| pages@.contains(p) <==> #[trigger] self@.contains_key(p) by {
            assert(all.to_set().contains(p) <==> self.pages@.dom().contains(p));
        }
        pages
    }

    /// What the frame of `page` is to hold, where the boot loader decides that.
    pub fn data(&self, page: Page) -> (r: Option<&Vec<Option<u8>>>)
        requires
            self.wf(),
        ensures
            r.is_some() == (self@.contains_key(page@) && self@[page@].data.is_some()),
            r matches Some(d) ==> d@ == self@[page@].data.unwrap() && d@.len() == PAGE_SIZE,
    {
        let key = page.start_address().as_u64();
        match self.pages.get(&key) {
            Some(entry) => {
                assert(self.pages@.contains_key(key));
                assert(entry.wf());
                match &entry.data {
                    Some(d) => Some(d),
                    None => None,
                }
            },
            None => None,
        }
    }
}

} // verus!
