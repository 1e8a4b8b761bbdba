use vstd::prelude::*;
use std::collections::HashMap;
use crate::config::PAGE_SIZE;
use crate::frame::FrameAllocator;

verus! {

/// One page-table slot: the frame backing a virtual page and its
/// permission mask (bit 0 read, bit 1 write, bit 2 execute).
#[derive(Clone, Copy, Debug, PartialEq, Eq, Structural)]
pub struct PageTableEntry {
    pub ppn: usize,
    pub perm: u8,
}

/// Why a mapping request was refused.
#[derive(Clone, Copy, Debug, PartialEq, Eq, Structural)]
pub enum MmapError {
    /// `start` is not a multiple of the page size.
    InvalidAlignment,
    /// The mask has a bit other than read, write and execute, or none at all.
    InvalidPermission,
    /// A page of the range is already mapped.
    Overlap,
    /// Too few free frames to back every page of the range.
    OutOfMemory,
}

/// Why an unmapping request was refused.
#[derive(Clone, Copy, Debug, PartialEq, Eq, Structural)]
pub enum MunmapError {
    /// `start` is not a multiple of the page size.
    InvalidAlignment,
    /// A page of the range is not mapped.
    NotMapped,
}

pub open spec fn page_aligned(a: int) -> bool {
    a % (PAGE_SIZE as int) == 0
}

/// Number of pages that `len` bytes occupy, rounded up.
pub open spec fn page_count(len: int) -> int {
    (len + PAGE_SIZE - 1) / (PAGE_SIZE as int)
}

/// Whether virtual page `vpn` lies in the byte range `[start, start + len)`,
/// `start` being page-aligned.
pub open spec fn in_range(vpn: int, start: int, len: int) -> bool {
    start / (PAGE_SIZE as int) <= vpn < start / (PAGE_SIZE as int) + page_count(len)
}

/// A permission mask that grants something and has no bit but the low three.
pub open spec fn legal_permission(port: int) -> bool {
    1 <= port <= 7
}

pub open spec fn perm_readable(perm: u8) -> bool {
    perm % 2 == 1
}

pub open spec fn perm_writable(perm: u8) -> bool {
    (perm / 2) % 2 == 1
}

pub open spec fn perm_executable(perm: u8) -> bool {
    (perm / 4) % 2 == 1
}

/// One successful mapping: virtual pages `[start_vpn, end_vpn)`, their
/// permission mask, and the frame behind each page, in order.
pub struct MemoryMapping {
    pub start_vpn: usize,
    pub end_vpn: usize,
    pub perm: u8,
    pub frames: Vec<usize>,
}

pub open spec fn covers(a: MemoryMapping, v: int) -> bool {
    a.start_vpn <= v < a.end_vpn
}

/// Mapping `a` is non-empty and each of its pages is mapped in `pages` to
/// its own frame with its mask.
pub open spec fn mapping_matches(a: MemoryMapping, pages: Map<usize, PageTableEntry>) -> bool {
    &&& a.start_vpn < a.end_vpn
    &&& a.frames@.len() == a.end_vpn - a.start_vpn
    &&& forall|v: int| #[trigger] covers(a, v) ==> {
        &&& pages.contains_key(v as usize)
        &&& pages[v as usize].ppn == a.frames@[v - a.start_vpn]
        &&& pages[v as usize].perm == a.perm
    }
}

/// The mappings agree with the page table, are pairwise disjoint, and
/// together cover every mapped page.
pub open spec fn mappings_match(areas: Seq<MemoryMapping>, pages: Map<usize, PageTableEntry>) -> bool {
    &&& forall|i: int| 0 <= i < areas.len() ==> mapping_matches(#[trigger] areas[i], pages)
    &&& forall|i: int, j: int, v: int|
        0 <= i < areas.len() && 0 <= j < areas.len() && i != j && #[trigger] covers(areas[i], v)
            ==> !#[trigger] covers(areas[j], v)
    &&& forall|v: usize| #[trigger] pages.contains_key(v)
        ==> exists|i: int| 0 <= i < areas.len() && #[trigger] covers(areas[i], v as int)
}

/// The frame numbers `v[lo..hi]`.
fn copy_range(v: &Vec<usize>, lo: usize, hi: usize) -> (r: Vec<usize>)
    requires
        lo <= hi <= v@.len(),
    ensures
        r@ == v@.subrange(lo as int, hi as int),
{
    let mut r: Vec<usize> = Vec::new();
    let mut i: usize = lo;
    while i < hi
        invariant
            lo <= i <= hi,
            hi <= v@.len(),
            r@ == v@.subrange(lo as int, i as int),
        decreases hi - i,
    {
        r.push(v[i]);
        assert(r@ =~= v@.subrange(lo as int, i + 1));
        i = i + 1;
    }
    r
}

/// The part of mapping `a` over pages `[lo, hi)`.
fn piece(a: &MemoryMapping, lo: usize, hi: usize) -> (r: MemoryMapping)
    requires
        a.start_vpn <= lo < hi <= a.end_vpn,
        a.frames@.len() == a.end_vpn - a.start_vpn,
    ensures
        r.start_vpn == lo,
        r.end_vpn == hi,
        r.perm == a.perm,
        r.frames@ == a.frames@.subrange(lo - a.start_vpn, hi - a.start_vpn),
{
    MemoryMapping {
        start_vpn: lo,
        end_vpn: hi,
        perm: a.perm,
        frames: copy_range(&a.frames, lo - a.start_vpn, hi - a.start_vpn),
    }
}

/// A part of a mapping that agreed with `before` agrees with `after`, where
/// `after` keeps every page of the part as it was.
proof fn lemma_piece_matches(
    a: MemoryMapping,
    p: MemoryMapping,
    before: Map<usize, PageTableEntry>,
    after: Map<usize, PageTableEntry>,
)
    requires
        mapping_matches(a, before),
        a.start_vpn <= p.start_vpn < p.end_vpn <= a.end_vpn,
        p.perm == a.perm,
        p.frames@ == a.frames@.subrange(p.start_vpn - a.start_vpn, p.end_vpn - a.start_vpn),
        forall|v: int| #[trigger] covers(p, v) ==> after.contains_key(v as usize)
            && after[v as usize] == before[v as usize],
    ensures
        mapping_matches(p, after),
{
    assert forall|v: int| #[trigger] covers(p, v) implies {
        &&& after.contains_key(v as usize)
        &&& after[v as usize].ppn == p.frames@[v - p.start_vpn]
        &&& after[v as usize].perm == p.perm
    } by {
        assert(covers(a, v));
    }
}

/// A task's address space: its page table, the record of each mapping,
/// and the physical frames behind them.
pub struct AddressSpace {
    pub(crate) page_table: HashMap<usize, PageTableEntry>,
    pub(crate) areas: Vec<MemoryMapping>,
    pub(crate) frames: FrameAllocator,
}

impl AddressSpace {
    /// The mapped virtual pages, each with its entry.
    pub open(crate) spec fn pages(&self) -> Map<usize, PageTableEntry> {
        self.page_table@
    }

    pub open(crate) spec fn is_mapped(&self, vpn: int) -> bool {
        0 <= vpn <= usize::MAX && self.pages().contains_key(vpn as usize)
    }

    /// Permission mask of mapped page `vpn`.
    pub open(crate) spec fn perm_of(&self, vpn: int) -> u8 {
        self.pages()[vpn as usize].perm
    }

    /// Number of frames not backing any page.
    pub open(crate) spec fn free_frames(&self) -> nat {
        self.frames.free_count()
    }

    /// The byte at virtual address `va`, meaningful where its page is mapped.
    pub open(crate) spec fn byte_at(&self, va: int) -> u8 {
        let e = self.pages()[(va / (PAGE_SIZE as int)) as usize];
        self.frames.contents()[e.ppn as int][va % (PAGE_SIZE as int)]
    }

    /// The record of each mapping.
    pub open(crate) spec fn mappings(&self) -> Seq<MemoryMapping> {
        self.areas@
    }

    pub open(crate) spec fn wf(&self) -> bool {
        &&& self.pages_wf()
        &&& mappings_match(self.mappings(), self.pages())
    }

    /// Every mapped page has a frame of its own, in use, and a legal mask.
    pub open(crate) spec fn pages_wf(&self) -> bool {
        &&& self.frames.wf()
        &&& forall|v: usize| #[trigger] self.pages().contains_key(v) ==> {
            &&& self.pages()[v].ppn < self.frames.capacity()
            &&& !self.frames.free_set().contains(self.pages()[v].ppn)
            &&& legal_permission(self.pages()[v].perm as int)
        }
        &&& forall|v: usize, w: usize|
            #[trigger] self.pages().contains_key(v) && #[trigger] self.pages().contains_key(w)
                && v != w ==> self.pages()[v].ppn != self.pages()[w].ppn
    }

    /// An empty address space over a pool of `frames` zero-filled frames.
    pub fn new(frames: usize) -> (r: Self)
        ensures
            r.wf(),
            r.pages() == Map::<usize, PageTableEntry>::empty(),
            r.free_frames() == frames,
    {
        let pool = FrameAllocator::new(frames);
        AddressSpace { page_table: HashMap::new(), areas: Vec::new(), frames: pool }
    }
    /// `after` is this space with every page of `[start, start + len)` newly
    /// mapped with mask `port` to a zero-filled frame, all else as it was.
    pub open(crate) spec fn mapped_into(&self, after: AddressSpace, start: int, len: int, port: int) -> bool {
        &&& forall|v: int| #[trigger] after.is_mapped(v) <==> self.is_mapped(v) || in_range(v, start, len)
        &&& forall|v: int| #[trigger] self.is_mapped(v) ==> after.pages()[v as usize] == self.pages()[v as usize]
        &&& forall|v: int| in_range(v, start, len) ==> #[trigger] after.perm_of(v) == port as u8
        &&& forall|va: int| #[trigger] after.is_mapped(va / (PAGE_SIZE as int)) ==> {
            after.byte_at(va) == if self.is_mapped(va / (PAGE_SIZE as int)) {
                self.byte_at(va)
            } else {
                0u8
            }
        }
        &&& after.free_frames() + page_count(len) == self.free_frames()
    }

    /// `after` is this space with every page of `[start, start + len)`
    /// unmapped and its frame freed, all else as it was.
    pub open(crate) spec fn unmapped_into(&self, after: AddressSpace, start: int, len: int) -> bool {
        &&& forall|v: int| #[trigger] after.is_mapped(v) <==> self.is_mapped(v) && !in_range(v, start, len)
        &&& forall|v: int| #[trigger] after.is_mapped(v) ==> after.pages()[v as usize] == self.pages()[v as usize]
        &&& forall|va: int| #[trigger] after.is_mapped(va / (PAGE_SIZE as int))
            ==> after.byte_at(va) == self.byte_at(va)
        &&& after.free_frames() == self.free_frames() + page_count(len)
    }

    /// The entry of virtual page `vpn`, if it is mapped.
    pub fn lookup(&self, vpn: usize) -> (r: Option<PageTableEntry>)
        ensures
            r == if self.is_mapped(vpn as int) {
                Some(self.pages()[vpn])
            } else {
                None::<PageTableEntry>
            },
    {
        match self.page_table.get(&vpn) {
            Some(e) => Some(*e),
            None => None,
        }
    }

    /// The record of each mapping.
    pub fn mapping_list(&self) -> (r: &Vec<MemoryMapping>)
        ensures
            r@ == self.mappings(),
    {
        &self.areas
    }

    /// Number of frames not backing any page.
    pub fn free_frame_count(&self) -> (r: usize)
        ensures
            r == self.free_frames(),
    {
        self.frames.available()
    }

    /// What a mapping request returns, by the first check that fails.
    pub open(crate) spec fn mmap_outcome(&self, start: int, len: int, port: int) -> Result<(), MmapError> {
        if !page_aligned(start) {
            Err(MmapError::InvalidAlignment)
        } else if !legal_permission(port) {
            Err(MmapError::InvalidPermission)
        } else if exists|v: int| in_range(v, start, len) && #[trigger] self.is_mapped(v) {
            Err(MmapError::Overlap)
        } else if page_count(len) > self.free_frames() {
            Err(MmapError::OutOfMemory)
        } else {
            Ok(())
        }
    }

    /// Maps every page of `[start, start + len)`, each to a fresh zero-filled
    /// frame with permission mask `port`. On any refusal nothing changes.
    pub fn mmap(&mut self, start: usize, len: usize, port: usize) -> (r: Result<(), MmapError>)
        requires
            old(self).wf(),
        ensures
            final(self).wf(),
            r == old(self).mmap_outcome(start as int, len as int, port as int),
            r is Err ==> *final(self) == *old(self),
            r is Ok ==> old(self).mapped_into(*final(self), start as int, len as int, port as int),
            len == 0 ==> *final(self) == *old(self),
            r is Ok && len > 0 ==> {
                &&& final(self).mappings().drop_last() == old(self).mappings()
                &&& final(self).mappings().last().start_vpn == start / PAGE_SIZE
                &&& final(self).mappings().last().end_vpn == start / PAGE_SIZE + page_count(len as int)
                &&& final(self).mappings().last().perm == port as u8
            },
    {
        if start % PAGE_SIZE != 0 {
            return Err(MmapError::InvalidAlignment);
        }
        if port > 7 || port == 0 {
            return Err(MmapError::InvalidPermission);
        }
        if len == 0 {
            assert(!exists|v: int| in_range(v, start as int, 0) && #[trigger] self.is_mapped(v));
            return Ok(());
        }
        let first: usize = start / PAGE_SIZE;
        let count: usize = len / PAGE_SIZE + if len % PAGE_SIZE != 0 { 1 } else { 0 };
        assert(count == page_count(len as int));
        let end: usize = first + count;
        let mut v: usize = first;
        while v < end
            invariant
                first <= v <= end,
                end == first + count,
                first == start / PAGE_SIZE,
                count == page_count(len as int),
                forall|w: int| first <= w < v ==> !#[trigger] self.is_mapped(w),
                page_aligned(start as int),
                legal_permission(port as int),
                self.wf(),
                *self == *old(self),
            decreases end - v,
        {
            if self.page_table.contains_key(&v) {
                assert(in_range(v as int, start as int, len as int) && old(self).is_mapped(v as int));
                assert(old(self).mmap_outcome(start as int, len as int, port as int) == Err::<(), MmapError>(MmapError::Overlap));
                return Err(MmapError::Overlap);
            }
            v = v + 1;
        }
        assert(!exists|w: int| in_range(w, start as int, len as int) && #[trigger] self.is_mapped(w));
        if count > self.frames.available() {
            return Err(MmapError::OutOfMemory);
        }
        let perm: u8 = port as u8;
        let mut collected: Vec<usize> = Vec::new();
        let mut v: usize = first;
        while v < end
            invariant
                first <= v <= end,
                end == first + count,
                first == start / PAGE_SIZE,
                count == page_count(len as int),
                perm == port as u8,
                legal_permission(port as int),
                old(self).wf(),
                self.pages_wf(),
                self.mappings() == old(self).mappings(),
                collected@.len() == v - first,
                forall|k: int| 0 <= k < v - first ==> self.pages()[(first + k) as usize].ppn == #[trigger] collected@[k],
                self.free_frames() + (v - first) == old(self).free_frames(),
                count <= old(self).free_frames(),
                forall|w: int| #[trigger] self.is_mapped(w)
                    <==> old(self).is_mapped(w) || first <= w < v,
                forall|w: int| first <= w < end ==> !#[trigger] old(self).is_mapped(w),
                forall|w: int| #[trigger] old(self).is_mapped(w)
                    ==> self.pages()[w as usize] == old(self).pages()[w as usize],
                forall|w: int| first <= w < v ==> #[trigger] self.perm_of(w) == perm,
                forall|va: int| #[trigger] self.is_mapped(va / (PAGE_SIZE as int)) ==> {
                    self.byte_at(va) == if old(self).is_mapped(va / (PAGE_SIZE as int)) {
                        old(self).byte_at(va)
                    } else {
                        0u8
                    }
                },
            decreases end - v,
        {
            let ghost before = *self;
            let got = self.frames.take_frame();
            let p: usize = match got {
                Some(p) => p,
                None => {
                    // cannot happen: enough free frames were counted above
                    assert(false);
                    return Err(MmapError::OutOfMemory);
                },
            };
            self.page_table.insert(v, PageTableEntry { ppn: p, perm });
            collected.push(p);
            proof {
                assert forall|k: int| 0 <= k < v + 1 - first implies
                    self.pages()[(first + k) as usize].ppn == #[trigger] collected@[k] by {
                    if k < v - first {
                        assert(before.pages()[(first + k) as usize].ppn == collected@[k]);
                        assert(before.is_mapped(first + k));
                    }
                }
                assert forall|w: int| first <= w < v + 1 implies #[trigger] self.perm_of(w) == perm by {
                    if w < v {
                        assert(before.perm_of(w) == perm);
                    }
                }
                assert forall|a: usize| #[trigger] self.pages().contains_key(a) implies {
                    &&& self.pages()[a].ppn < self.frames.capacity()
                    &&& !self.frames.free_set().contains(self.pages()[a].ppn)
                    &&& legal_permission(self.pages()[a].perm as int)
                } by {
                    if a != v {
                        assert(before.pages().contains_key(a));
                    }
                }
                assert forall|w: int| #[trigger] self.is_mapped(w)
                    <==> old(self).is_mapped(w) || first <= w < v + 1 by {
                    if 0 <= w <= usize::MAX {
                        assert(self.is_mapped(w) <==> before.is_mapped(w) || w == v);
                    }
                }
                assert forall|a: usize, b: usize|
                    #[trigger] self.pages().contains_key(a) && #[trigger] self.pages().contains_key(b)
                        && a != b implies self.pages()[a].ppn != self.pages()[b].ppn by {
                    if a != v {
                        assert(before.pages().contains_key(a));
                    }
                    if b != v {
                        assert(before.pages().contains_key(b));
                    }
                }
                assert forall|va: int| #[trigger] self.is_mapped(va / (PAGE_SIZE as int)) implies {
                    self.byte_at(va) == if old(self).is_mapped(va / (PAGE_SIZE as int)) {
                        old(self).byte_at(va)
                    } else {
                        0u8
                    }
                } by {
                    let w = va / (PAGE_SIZE as int);
                    if w != v {
                        assert(before.is_mapped(w));
                        assert(self.pages()[w as usize] == before.pages()[w as usize]);
                        assert(before.pages()[w as usize].ppn != p);
                        let q = before.pages()[w as usize].ppn;
                        assert(self.frames.contents()[q as int] == before.frames.contents()[q as int]);
                        assert(self.byte_at(va) == before.byte_at(va));
                    } else {
                        assert(!old(self).is_mapped(w));
                        assert(self.pages()[w as usize].ppn == p);
                        assert(0 <= va % (PAGE_SIZE as int) < PAGE_SIZE);
                        assert(self.byte_at(va) == 0u8);
                    }
                }
            }
            v = v + 1;
        }
        let area = MemoryMapping { start_vpn: first, end_vpn: end, perm, frames: collected };
        let ghost mid = *self;
        assert(old(self).mapped_into(mid, start as int, len as int, port as int));
        self.areas.push(area);
        proof {
            let sp = *self;
            assert(sp.pages() == mid.pages() && sp.frames == mid.frames);
            assert forall|v: int| #[trigger] sp.is_mapped(v) <==> mid.is_mapped(v) by {}
            assert forall|v: int| #[trigger] sp.perm_of(v) == mid.perm_of(v) by {}
            assert forall|va: int| #[trigger] sp.byte_at(va) == mid.byte_at(va) by {}
        }
        proof {
            let olds = old(self).mappings();
            assert(self.mappings() == olds.push(area));
            assert(self.pages() == mid.pages());
            assert(count > 0);
            assert forall|i: int| 0 <= i < self.mappings().len() implies
                mapping_matches(#[trigger] self.mappings()[i], self.pages()) by {
                if i < olds.len() {
                    let m = olds[i];
                    assert(mapping_matches(m, old(self).pages()));
                    assert forall|w: int| #[trigger] covers(m, w) implies {
                        &&& self.pages().contains_key(w as usize)
                        &&& self.pages()[w as usize].ppn == m.frames@[w - m.start_vpn]
                        &&& self.pages()[w as usize].perm == m.perm
                    } by {
                        assert(old(self).is_mapped(w));
                        assert(mid.is_mapped(w));
                    }
                } else {
                    assert forall|w: int| #[trigger] covers(area, w) implies {
                        &&& self.pages().contains_key(w as usize)
                        &&& self.pages()[w as usize].ppn == area.frames@[w - area.start_vpn]
                        &&& self.pages()[w as usize].perm == area.perm
                    } by {
                        assert(mid.is_mapped(w));
                        assert(mid.perm_of(w) == perm);
                        assert(mid.pages()[(first + (w - first)) as usize].ppn == collected@[w - first]);
                    }
                }
            }
            assert forall|i: int, j: int, w: int|
                0 <= i < self.mappings().len() && 0 <= j < self.mappings().len() && i != j
                    && #[trigger] covers(self.mappings()[i], w)
                implies !#[trigger] covers(self.mappings()[j], w) by {
                if i < olds.len() && j < olds.len() {
                    assert(covers(olds[i], w));
                } else if i < olds.len() {
                    assert(mapping_matches(olds[i], old(self).pages()));
                    assert(covers(olds[i], w));
                    assert(old(self).is_mapped(w));
                } else {
                    if covers(self.mappings()[j], w) {
                        assert(mapping_matches(olds[j], old(self).pages()));
                        assert(covers(olds[j], w));
                        assert(old(self).is_mapped(w));
                    }
                }
            }
            assert forall|u: usize| #[trigger] self.pages().contains_key(u) implies
                exists|i: int| 0 <= i < self.mappings().len() && #[trigger] covers(self.mappings()[i], u as int) by {
                if old(self).pages().contains_key(u) {
                    let i = choose|i: int| 0 <= i < olds.len() && #[trigger] covers(olds[i], u as int);
                    assert(self.mappings()[i] == olds[i]);
                } else {
                    assert(mid.is_mapped(u as int));
                    assert(covers(self.mappings()[olds.len() as int], u as int));
                }
            }
        }
        Ok(())
    }
    /// What an unmapping request returns, by the first check that fails.
    pub open(crate) spec fn munmap_outcome(&self, start: int, len: int) -> Result<(), MunmapError> {
        if !page_aligned(start) {
            Err(MunmapError::InvalidAlignment)
        } else if exists|v: int| in_range(v, start, len) && !#[trigger] self.is_mapped(v) {
            Err(MunmapError::NotMapped)
        } else {
            Ok(())
        }
    }

    /// Unmaps every page of `[start, start + len)` and frees the frames behind
    /// them; all or nothing: if any page of the range is unmapped, nothing changes.
    pub fn munmap(&mut self, start: usize, len: usize) -> (r: Result<(), MunmapError>)
        requires
            old(self).wf(),
        ensures
            final(self).wf(),
            r == old(self).munmap_outcome(start as int, len as int),
            r is Err ==> *final(self) == *old(self),
            r is Ok ==> old(self).unmapped_into(*final(self), start as int, len as int),
    {
        if start % PAGE_SIZE != 0 {
            return Err(MunmapError::InvalidAlignment);
        }
        let first: usize = start / PAGE_SIZE;
        let count: usize = len / PAGE_SIZE + if len % PAGE_SIZE != 0 { 1 } else { 0 };
        assert(count == page_count(len as int));
        let end: usize = first + count;
        let mut v: usize = first;
        while v < end
            invariant
                first <= v <= end,
                end == first + count,
                first == start / PAGE_SIZE,
                count == page_count(len as int),
                forall|w: int| first <= w < v ==> #[trigger] self.is_mapped(w),
                page_aligned(start as int),
                self.wf(),
                *self == *old(self),
            decreases end - v,
        {
            if !self.page_table.contains_key(&v) {
                assert(in_range(v as int, start as int, len as int) && !old(self).is_mapped(v as int));
                return Err(MunmapError::NotMapped);
            }
            v = v + 1;
        }
        assert forall|w: int| in_range(w, start as int, len as int) implies #[trigger] self.is_mapped(w) by {
            assert(first <= w < end);
        }
        let mut v: usize = first;
        while v < end
            invariant
                first <= v <= end,
                end == first + count,
                first == start / PAGE_SIZE,
                count == page_count(len as int),
                old(self).wf(),
                self.pages_wf(),
                self.mappings() == old(self).mappings(),
                self.free_frames() == old(self).free_frames() + (v - first),
                forall|w: int| first <= w < end ==> #[trigger] old(self).is_mapped(w),
                forall|w: int| #[trigger] self.is_mapped(w)
                    <==> old(self).is_mapped(w) && !(first <= w < v),
                forall|w: int| #[trigger] self.is_mapped(w)
                    ==> self.pages()[w as usize] == old(self).pages()[w as usize],
                forall|va: int| #[trigger] self.is_mapped(va / (PAGE_SIZE as int))
                    ==> self.byte_at(va) == old(self).byte_at(va),
            decreases end - v,
        {
            let ghost before = *self;
            assert(self.is_mapped(v as int));
            let removed = self.page_table.remove(&v);
            let e = match removed {
                Some(e) => e,
                None => {
                    // cannot happen: every page of the range was found mapped above
                    assert(false);
                    return Err(MunmapError::NotMapped);
                },
            };
            assert(e == before.pages()[v]);
            self.frames.release_frame(e.ppn);
            proof {
                assert forall|a: usize| #[trigger] self.pages().contains_key(a) implies {
                    &&& self.pages()[a].ppn < self.frames.capacity()
                    &&& !self.frames.free_set().contains(self.pages()[a].ppn)
                    &&& legal_permission(self.pages()[a].perm as int)
                } by {
                    assert(before.pages().contains_key(a));
                    assert(a != v);
                }
                assert forall|a: usize, b: usize|
                    #[trigger] self.pages().contains_key(a) && #[trigger] self.pages().contains_key(b)
                        && a != b implies self.pages()[a].ppn != self.pages()[b].ppn by {
                    assert(before.pages().contains_key(a));
                    assert(before.pages().contains_key(b));
                }
                assert forall|w: int| #[trigger] self.is_mapped(w)
                    <==> old(self).is_mapped(w) && !(first <= w < v + 1) by {
                    if 0 <= w <= usize::MAX {
                        assert(self.is_mapped(w) <==> before.is_mapped(w) && w != v);
                    }
                }
                assert forall|w: int| #[trigger] self.is_mapped(w)
                    implies self.pages()[w as usize] == old(self).pages()[w as usize] by {
                    assert(before.is_mapped(w));
                }
                assert forall|va: int| #[trigger] self.is_mapped(va / (PAGE_SIZE as int))
                    implies self.byte_at(va) == old(self).byte_at(va) by {
                    assert(before.is_mapped(va / (PAGE_SIZE as int)));
                }
            }
            v = v + 1;
        }
        let ghost mid = *self;
        let ghost olds = old(self).mappings();
        let n: usize = self.areas.len();
        let mut kept: Vec<MemoryMapping> = Vec::new();
        let ghost mut origin: Seq<int> = Seq::empty();
        let mut i: usize = 0;
        while i < n
            invariant
                i <= n,
                n == olds.len(),
                olds == old(self).mappings(),
                *self == mid,
                mid.mappings() == olds,
                old(self).wf(),
                end == first + count,
                forall|w: int| #[trigger] mid.is_mapped(w) <==> old(self).is_mapped(w) && !(first <= w < end),
                forall|w: int| #[trigger] mid.is_mapped(w) ==> mid.pages()[w as usize] == old(self).pages()[w as usize],
                origin.len() == kept@.len(),
                forall|k: int| 0 <= k < kept@.len() ==> mapping_matches(#[trigger] kept@[k], mid.pages()),
                forall|k: int| 0 <= k < kept@.len() ==> 0 <= #[trigger] origin[k] < i,
                forall|k: int, w: int| 0 <= k < kept@.len() && #[trigger] covers(kept@[k], w)
                    ==> covers(olds[origin[k]], w) && !(first <= w < end),
                forall|k1: int, k2: int, w: int|
                    0 <= k1 < kept@.len() && 0 <= k2 < kept@.len() && k1 != k2 && #[trigger] covers(kept@[k1], w)
                        ==> !#[trigger] covers(kept@[k2], w),
                forall|j: int, u: int| 0 <= j < i && #[trigger] covers(olds[j], u) && !(first <= u < end)
                    ==> exists|k: int| 0 <= k < kept@.len() && #[trigger] covers(kept@[k], u),
            decreases n - i,
        {
            let a = &self.areas[i];
            let ghost ai = olds[i as int];
            assert(mappings_match(olds, old(self).pages()));
            assert(mapping_matches(olds[i as int], old(self).pages()));
            assert forall|w: int| #[trigger] covers(ai, w) && !(first <= w < end) implies
                mid.pages().contains_key(w as usize) && mid.pages()[w as usize] == old(self).pages()[w as usize] by {
                assert(old(self).is_mapped(w));
                assert(mid.is_mapped(w));
            }
            let ghost before_len = kept@.len();
            let ghost kept_before = kept@;
            if a.end_vpn <= first || end <= a.start_vpn {
                let p = piece(a, a.start_vpn, a.end_vpn);
                proof {
                    assert forall|w: int| #[trigger] covers(p, w) implies mid.pages().contains_key(w as usize)
                        && mid.pages()[w as usize] == old(self).pages()[w as usize] by {
                        assert(covers(ai, w));
                    }
                    lemma_piece_matches(ai, p, old(self).pages(), mid.pages());
                    assert(p.frames@ =~= ai.frames@);
                }
                kept.push(p);
                proof {
                    origin = origin.push(i as int);
                }
            } else {
                if a.start_vpn < first {
                    let p = piece(a, a.start_vpn, first);
                    proof {
                        assert forall|w: int| #[trigger] covers(p, w) implies mid.pages().contains_key(w as usize)
                            && mid.pages()[w as usize] == old(self).pages()[w as usize] by {
                            assert(covers(ai, w));
                        }
                        lemma_piece_matches(ai, p, old(self).pages(), mid.pages());
                    }
                    kept.push(p);
                    proof {
                        origin = origin.push(i as int);
                    }
                }
                if end < a.end_vpn {
                    let p = piece(a, end, a.end_vpn);
                    proof {
                        assert forall|w: int| #[trigger] covers(p, w) implies mid.pages().contains_key(w as usize)
                            && mid.pages()[w as usize] == old(self).pages()[w as usize] by {
                            assert(covers(ai, w));
                        }
                        lemma_piece_matches(ai, p, old(self).pages(), mid.pages());
                    }
                    kept.push(p);
                    proof {
                        origin = origin.push(i as int);
                    }
                }
            }
            proof {
                assert forall|k: int, w: int| 0 <= k < kept@.len() && #[trigger] covers(kept@[k], w)
                    implies covers(olds[origin[k]], w) && !(first <= w < end) by {
                    if k >= before_len {
                        assert(covers(ai, w));
                    }
                }
                assert forall|k1: int, k2: int, w: int|
                    0 <= k1 < kept@.len() && 0 <= k2 < kept@.len() && k1 != k2 && #[trigger] covers(kept@[k1], w)
                    implies !#[trigger] covers(kept@[k2], w) by {
                    if covers(kept@[k2], w) {
                        assert(covers(olds[origin[k1]], w));
                        assert(covers(olds[origin[k2]], w));
                        if origin[k1] != origin[k2] {
                            assert(!covers(olds[origin[k2]], w));
                        } else {
                            assert(k1 >= before_len && k2 >= before_len);
                        }
                    }
                }
                assert forall|j: int, u: int| 0 <= j < i + 1 && #[trigger] covers(olds[j], u) && !(first <= u < end)
                    implies exists|k: int| 0 <= k < kept@.len() && #[trigger] covers(kept@[k], u) by {
                    if j == i {
                        if ai.end_vpn <= first || end <= ai.start_vpn {
                            assert(covers(kept@[before_len as int], u));
                        } else if u < first {
                            assert(covers(kept@[before_len as int], u));
                        } else {
                            assert(covers(kept@[kept@.len() - 1], u));
                        }
                    } else {
                        let k = choose|k: int| 0 <= k < kept_before.len() && #[trigger] covers(kept_before[k], u);
                        assert(kept@[k] == kept_before[k]);
                    }
                }
            }
            i = i + 1;
        }
        self.areas = kept;
        proof {
            let sp = *self;
            assert(sp.pages() == mid.pages());
            assert forall|v: int| #[trigger] sp.is_mapped(v) <==> mid.is_mapped(v) by {}
            assert forall|va: int| #[trigger] sp.byte_at(va) == mid.byte_at(va) by {}
            assert forall|u: usize| #[trigger] sp.pages().contains_key(u) implies
                exists|k: int| 0 <= k < sp.mappings().len() && #[trigger] covers(sp.mappings()[k], u as int) by {
                assert(sp.is_mapped(u as int));
                assert(mid.is_mapped(u as int));
                assert(old(self).pages().contains_key(u));
                assert(!(first <= u < end));
                assert(mappings_match(olds, old(self).pages()));
                let j = choose|j: int| 0 <= j < olds.len() && #[trigger] covers(olds[j], u as int);
                assert(covers(olds[j], u as int));
                let k = choose|k: int| 0 <= k < kept@.len() && #[trigger] covers(kept@[k], u as int);
                assert(sp.mappings()[k] == kept@[k]);
            }
        }
        Ok(())
    }
}

/// Mapping a fresh, page-aligned, non-empty range with a legal mask, with
/// frames enough to back it, succeeds; each of its bytes is then readable,
/// writable and executable exactly as the mask says; unmapping the same range
/// then succeeds and leaves the page table and free frames as they were.
pub proof fn lemma_map_round_trip(
    s0: AddressSpace,
    s1: AddressSpace,
    s2: AddressSpace,
    start: usize,
    len: usize,
    port: usize,
)
    requires
        s0.wf(),
        page_aligned(start as int),
        page_aligned(len as int),
        len > 0,
        legal_permission(port as int),
        forall|v: int| in_range(v, start as int, len as int) ==> !#[trigger] s0.is_mapped(v),
        page_count(len as int) <= s0.free_frames(),
    ensures
        s0.mmap_outcome(start as int, len as int, port as int) == Ok::<(), MmapError>(()),
        s0.mapped_into(s1, start as int, len as int, port as int) ==> {
            &&& forall|va: int| start <= va < start + len && va <= usize::MAX ==> {
                &&& #[trigger] s1.is_mapped(va / (PAGE_SIZE as int))
                &&& s1.perm_of(va / (PAGE_SIZE as int)) == port as u8
                &&& s1.can_read(va) == perm_readable(port as u8)
                &&& s1.can_write(va) == perm_writable(port as u8)
            }
            &&& s1.munmap_outcome(start as int, len as int) == Ok::<(), MunmapError>(())
        },
        s0.mapped_into(s1, start as int, len as int, port as int) && s1.unmapped_into(s2, start as int, len as int)
            ==> {
            &&& forall|va: int| start <= va < start + len ==> !#[trigger] s2.is_mapped(va / (PAGE_SIZE as int))
            &&& s2.pages() == s0.pages()
            &&& s2.free_frames() == s0.free_frames()
        },
{
    assert forall|va: int| start <= va < start + len implies #[trigger] in_range(va / (PAGE_SIZE as int), start as int, len as int) by {
        assert(page_count(len as int) == (len as int) / (PAGE_SIZE as int));
    }
    if s0.mapped_into(s1, start as int, len as int, port as int) {
        assert forall|va: int| start <= va < start + len && va <= usize::MAX implies {
            &&& #[trigger] s1.is_mapped(va / (PAGE_SIZE as int))
            &&& s1.perm_of(va / (PAGE_SIZE as int)) == port as u8
            &&& s1.can_read(va) == perm_readable(port as u8)
            &&& s1.can_write(va) == perm_writable(port as u8)
        } by {
            assert(in_range(va / (PAGE_SIZE as int), start as int, len as int));
            assert(s1.perm_of(va / (PAGE_SIZE as int)) == port as u8);
        }
        assert(!exists|v: int| in_range(v, start as int, len as int) && !#[trigger] s1.is_mapped(v));
        if s1.unmapped_into(s2, start as int, len as int) {
            assert forall|v: usize| s2.pages().contains_key(v) <==> s0.pages().contains_key(v) by {
                assert(s2.is_mapped(v as int) <==> s0.is_mapped(v as int));
            }
            assert forall|v: usize| #[trigger] s2.pages().contains_key(v) implies s2.pages()[v] == s0.pages()[v] by {
                assert(s2.is_mapped(v as int));
                assert(s0.is_mapped(v as int));
            }
            assert(s2.pages() =~= s0.pages());
        }
    }
}

/// A request for no bytes maps nothing: it fails only for a misaligned
/// start or an illegal mask, and succeeds otherwise.
pub proof fn lemma_mmap_empty(s: AddressSpace, start: usize, port: usize)
    ensures
        s.mmap_outcome(start as int, 0, port as int) == if !page_aligned(start as int) {
            Err::<(), MmapError>(MmapError::InvalidAlignment)
        } else if !legal_permission(port as int) {
            Err(MmapError::InvalidPermission)
        } else {
            Ok(())
        },
{
    assert(!exists|v: int| in_range(v, start as int, 0) && #[trigger] s.is_mapped(v));
}

/// A misaligned start is refused first, then a mask that grants nothing or
/// has a bit above the third.
pub proof fn lemma_mmap_argument_errors(s: AddressSpace, start: usize, len: usize, port: usize)
    ensures
        !page_aligned(start as int) ==> s.mmap_outcome(start as int, len as int, port as int)
            == Err::<(), MmapError>(MmapError::InvalidAlignment),
        page_aligned(start as int) && (port == 0 || port >= 8) ==> s.mmap_outcome(
            start as int,
            len as int,
            port as int,
        ) == Err::<(), MmapError>(MmapError::InvalidPermission),
{
}

/// After one mapping succeeds, a second whose range shares a page with it
/// is refused as overlapping, and the first mapping stays as it was made.
pub proof fn lemma_overlap_refused(
    s0: AddressSpace,
    s1: AddressSpace,
    start: usize,
    len: usize,
    port: usize,
    start2: usize,
    len2: usize,
    port2: usize,
    shared: int,
)
    requires
        s0.mapped_into(s1, start as int, len as int, port as int),
        in_range(shared, start as int, len as int),
        in_range(shared, start2 as int, len2 as int),
        page_aligned(start2 as int),
        legal_permission(port2 as int),
    ensures
        s1.mmap_outcome(start2 as int, len2 as int, port2 as int) == Err::<(), MmapError>(MmapError::Overlap),
        forall|v: int| in_range(v, start as int, len as int)
            ==> #[trigger] s1.is_mapped(v) && s1.perm_of(v) == port as u8,
{
    assert(s1.is_mapped(shared));
}

/// Unmapping a range with even one unmapped page fails.
pub proof fn lemma_unmap_needs_every_page(s: AddressSpace, start: usize, len: usize, hole: int)
    requires
        in_range(hole, start as int, len as int),
        !s.is_mapped(hole),
    ensures
        s.munmap_outcome(start as int, len as int) is Err,
        page_aligned(start as int) ==> s.munmap_outcome(start as int, len as int)
            == Err::<(), MunmapError>(MunmapError::NotMapped),
{
}

} // verus!
