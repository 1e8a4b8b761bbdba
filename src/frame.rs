use vstd::prelude::*;
use crate::config::PAGE_SIZE;

verus! {

fn zero_page() -> (r: Vec<u8>)
    ensures
        r@ == Seq::new(PAGE_SIZE as nat, |j: int| 0u8),
{
    let r = vec![0u8; PAGE_SIZE];
    assert(r@ =~= Seq::new(PAGE_SIZE as nat, |j: int| 0u8));
    r
}

/// Physical memory: a fixed pool of page-sized frames, numbered from zero,
/// with a stack of the frame numbers that are free.
pub struct FrameAllocator {
    pub(crate) free: Vec<usize>,
    pub(crate) memory: Vec<Vec<u8>>,
}

impl FrameAllocator {
    /// Number of frames in the pool.
    pub open(crate) spec fn capacity(&self) -> nat {
        self.memory@.len()
    }

    /// The free frames, as a set of frame numbers.
    pub open(crate) spec fn free_set(&self) -> Set<usize> {
        self.free@.to_set()
    }

    /// Number of free frames.
    pub open(crate) spec fn free_count(&self) -> nat {
        self.free@.len()
    }

    /// Contents of every frame, by frame number.
    pub open(crate) spec fn contents(&self) -> Seq<Seq<u8>> {
        self.memory@.map_values(|f: Vec<u8>| f@)
    }

    pub open(crate) spec fn wf(&self) -> bool {
        &&& self.free@.no_duplicates()
        &&& forall|i: int| 0 <= i < self.free@.len() ==> (#[trigger] self.free@[i]) < self.memory@.len()
        &&& forall|i: int| 0 <= i < self.memory@.len() ==> (#[trigger] self.memory@[i])@.len() == PAGE_SIZE
    }

    /// A pool of `n` zero-filled frames, all free.
    pub fn new(n: usize) -> (r: Self)
        ensures
            r.wf(),
            r.capacity() == n,
            r.free_set() == Set::new(|p: usize| p < n),
            r.free_count() == n,
            forall|p: int| 0 <= p < n ==> (#[trigger] r.contents()[p]) == Seq::new(PAGE_SIZE as nat, |j: int| 0u8),
    {
        let mut free: Vec<usize> = Vec::new();
        let mut memory: Vec<Vec<u8>> = Vec::new();
        let mut i: usize = 0;
        while i < n
            invariant
                i <= n,
                free@ == Seq::new(i as nat, |k: int| (n - 1 - k) as usize),
                memory@.len() == i,
                forall|k: int| 0 <= k < i ==> (#[trigger] memory@[k])@ == Seq::new(PAGE_SIZE as nat, |j: int| 0u8),
            decreases n - i,
        {
            free.push(n - 1 - i);
            memory.push(zero_page());
            i = i + 1;
        }
        let r = FrameAllocator { free, memory };
        assert(r.free@.no_duplicates());
        assert(r.free_set() =~= Set::new(|p: usize| p < n)) by {
            assert forall|p: usize| p < n implies r.free_set().contains(p) by {
                assert(r.free@[(n - 1 - p) as int] == p);
            }
        }
        r
    }
    /// Takes a free frame, fills it with zeros and returns its number;
    /// `None`, with nothing changed, when no frame is free.
    pub fn take_frame(&mut self) -> (r: Option<usize>)
        requires
            old(self).wf(),
        ensures
            final(self).wf(),
            final(self).capacity() == old(self).capacity(),
            r is None <==> old(self).free_count() == 0,
            r is None ==> *final(self) == *old(self),
            r matches Some(p) ==> {
                &&& old(self).free_set().contains(p)
                &&& p < old(self).capacity()
                &&& final(self).free_set() == old(self).free_set().remove(p)
                &&& final(self).free_count() + 1 == old(self).free_count()
                &&& final(self).contents() == old(self).contents().update(
                    p as int,
                    Seq::new(PAGE_SIZE as nat, |j: int| 0u8),
                )
            },
    {
        if self.free.len() == 0 {
            return None;
        }
        match self.free.pop() {
            None => None,
            Some(p) => {
                proof {
                    let o = old(self).free@;
                    assert(o[o.len() - 1] == p);
                    assert(self.free@ == o.drop_last());
                    assert(self.free_set() =~= old(self).free_set().remove(p)) by {
                        assert forall|x: usize| #[trigger] self.free_set().contains(x) implies
                            old(self).free_set().contains(x) && x != p by {
                            let i = choose|i: int| 0 <= i < self.free@.len() && self.free@[i] == x;
                            assert(o[i] == x);
                        }
                        assert forall|x: usize| old(self).free_set().contains(x) && x != p implies
                            #[trigger] self.free_set().contains(x) by {
                            let i = choose|i: int| 0 <= i < o.len() && o[i] == x;
                            assert(self.free@[i] == x);
                        }
                    }
                }
                self.memory.set(p, zero_page());
                assert(self.contents() =~= old(self).contents().update(
                    p as int,
                    Seq::new(PAGE_SIZE as nat, |j: int| 0u8),
                ));
                Some(p)
            },
        }
    }

    /// Returns frame `p`, which must be in use, to the free frames.
    pub fn release_frame(&mut self, p: usize)
        requires
            old(self).wf(),
            p < old(self).capacity(),
            !old(self).free_set().contains(p),
        ensures
            final(self).wf(),
            final(self).capacity() == old(self).capacity(),
            final(self).free_set() == old(self).free_set().insert(p),
            final(self).free_count() == old(self).free_count() + 1,
            final(self).contents() == old(self).contents(),
    {
        self.free.push(p);
        proof {
            let o = old(self).free@;
            assert(self.free@ == o.push(p));
            assert(self.free_set() =~= old(self).free_set().insert(p)) by {
                assert forall|x: usize| #[trigger] self.free_set().contains(x) implies
                    old(self).free_set().insert(p).contains(x) by {
                    let i = choose|i: int| 0 <= i < self.free@.len() && self.free@[i] == x;
                    if i < o.len() {
                        assert(o[i] == x);
                    }
                }
                assert forall|x: usize| old(self).free_set().insert(p).contains(x) implies
                    #[trigger] self.free_set().contains(x) by {
                    if x == p {
                        assert(self.free@[o.len() as int] == x);
                    } else {
                        let i = choose|i: int| 0 <= i < o.len() && o[i] == x;
                        assert(self.free@[i] == x);
                    }
                }
            }
            assert(self.free@.no_duplicates()) by {
                assert forall|i: int, j: int| 0 <= i < j < self.free@.len() implies
                    self.free@[i] != self.free@[j] by {
                    if j == o.len() {
                        assert(o.contains(o[i]));
                    }
                }
            }
        }
        assert(self.contents() =~= old(self).contents());
    }

    /// Number of free frames.
    pub fn available(&self) -> (r: usize)
        ensures
            r == self.free_count(),
    {
        self.free.len()
    }

    /// The byte at offset `off` of frame `p`.
    pub fn read(&self, p: usize, off: usize) -> (r: u8)
        requires
            self.wf(),
            p < self.capacity(),
            off < PAGE_SIZE,
        ensures
            r == self.contents()[p as int][off as int],
    {
        self.memory[p][off]
    }

    /// Stores `b` at offset `off` of frame `p`.
    pub fn write(&mut self, p: usize, off: usize, b: u8)
        requires
            old(self).wf(),
            p < old(self).capacity(),
            off < PAGE_SIZE,
        ensures
            final(self).wf(),
            final(self).capacity() == old(self).capacity(),
            final(self).free_set() == old(self).free_set(),
            final(self).free_count() == old(self).free_count(),
            final(self).contents() == old(self).contents().update(
                p as int,
                old(self).contents()[p as int].update(off as int, b),
            ),
    {
        self.memory[p][off] = b;
        assert(self.contents() =~= old(self).contents().update(
            p as int,
            old(self).contents()[p as int].update(off as int, b),
        ));
    }
}


} // verus!
