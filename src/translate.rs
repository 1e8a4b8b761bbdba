use vstd::prelude::*;
use crate::config::PAGE_SIZE;
use crate::memory::{perm_readable, perm_writable, AddressSpace};

verus! {

/// A task-supplied address that does not lie in a page mapped with the
/// access it needs; the task that supplied it is to be terminated.
#[derive(Clone, Copy, Debug, PartialEq, Eq, Structural)]
pub struct AccessFault;

impl AddressSpace {
    /// Whether the byte at `va` lies in a mapped, readable page.
    pub open(crate) spec fn can_read(&self, va: int) -> bool {
        0 <= va <= usize::MAX && self.is_mapped(va / (PAGE_SIZE as int))
            && perm_readable(self.perm_of(va / (PAGE_SIZE as int)))
    }

    /// Whether the byte at `va` lies in a mapped, writable page.
    pub open(crate) spec fn can_write(&self, va: int) -> bool {
        0 <= va <= usize::MAX && self.is_mapped(va / (PAGE_SIZE as int))
            && perm_writable(self.perm_of(va / (PAGE_SIZE as int)))
    }

    /// Reads the byte at `va`, faulting unless its page is mapped readable.
    pub fn read_byte(&self, va: usize) -> (r: Result<u8, AccessFault>)
        requires
            self.wf(),
        ensures
            r == if self.can_read(va as int) {
                Ok(self.byte_at(va as int))
            } else {
                Err(AccessFault)
            },
    {
        let vpn: usize = va / PAGE_SIZE;
        match self.page_table.get(&vpn) {
            Some(e) => {
                assert(self.pages().contains_key(vpn) && self.pages()[vpn] == *e);
                if e.perm % 2 == 1 {
                    Ok(self.frames.read(e.ppn, va % PAGE_SIZE))
                } else {
                    Err(AccessFault)
                }
            },
            None => Err(AccessFault),
        }
    }

    /// Writes `b` at `va`, faulting, with nothing changed, unless its page
    /// is mapped writable.
    pub fn write_byte(&mut self, va: usize, b: u8) -> (r: Result<(), AccessFault>)
        requires
            old(self).wf(),
        ensures
            final(self).wf(),
            r is Ok <==> old(self).can_write(va as int),
            r is Err ==> *final(self) == *old(self),
            r is Ok ==> {
                &&& final(self).pages() == old(self).pages()
                &&& final(self).free_frames() == old(self).free_frames()
                &&& forall|a: int| #[trigger] final(self).is_mapped(a / (PAGE_SIZE as int))
                    ==> final(self).byte_at(a) == if a == va { b } else { old(self).byte_at(a) }
            },
    {
        let vpn: usize = va / PAGE_SIZE;
        let e = match self.page_table.get(&vpn) {
            Some(e) => *e,
            None => {
                return Err(AccessFault);
            },
        };
        assert(self.pages().contains_key(vpn) && self.pages()[vpn] == e);
        if (e.perm / 2) % 2 != 1 {
            return Err(AccessFault);
        }
        let ghost before = *self;
        self.frames.write(e.ppn, va % PAGE_SIZE, b);
        proof {
            assert forall|v: usize| #[trigger] self.pages().contains_key(v) implies {
                &&& self.pages()[v].ppn < self.frames.capacity()
                &&& !self.frames.free_set().contains(self.pages()[v].ppn)
            } by {
                assert(before.pages().contains_key(v));
            }
            assert forall|a: int| #[trigger] self.is_mapped(a / (PAGE_SIZE as int))
                implies self.byte_at(a) == if a == va { b } else { before.byte_at(a) } by {
                let w = a / (PAGE_SIZE as int);
                if w != vpn {
                    assert(before.pages()[w as usize].ppn != e.ppn);
                } else if a != va {
                    assert(a % (PAGE_SIZE as int) != (va as int) % (PAGE_SIZE as int));
                }
            }
        }
        Ok(())
    }
    /// Whether every byte of `[va, va + n)` lies in a mapped, readable page.
    pub open(crate) spec fn range_readable(&self, va: int, n: int) -> bool {
        forall|i: int| 0 <= i < n ==> #[trigger] self.can_read(va + i)
    }

    /// Whether every byte of `[va, va + n)` lies in a mapped, writable page.
    pub open(crate) spec fn range_writable(&self, va: int, n: int) -> bool {
        forall|i: int| 0 <= i < n ==> #[trigger] self.can_write(va + i)
    }

    /// `after` is this space with `data` stored from `va` on, all else as it was.
    pub open(crate) spec fn written_into(&self, after: AddressSpace, va: int, data: Seq<u8>) -> bool {
        &&& after.pages() == self.pages()
        &&& after.free_frames() == self.free_frames()
        &&& forall|a: int| #[trigger] after.is_mapped(a / (PAGE_SIZE as int))
            ==> after.byte_at(a) == if va <= a < va + data.len() {
                data[a - va]
            } else {
                self.byte_at(a)
            }
    }

    /// Whether `va` lies in a mapped, writable page.
    pub fn is_writable(&self, va: usize) -> (r: bool)
        requires
            self.wf(),
        ensures
            r == self.can_write(va as int),
    {
        let vpn: usize = va / PAGE_SIZE;
        match self.page_table.get(&vpn) {
            Some(e) => (e.perm / 2) % 2 == 1,
            None => false,
        }
    }

    /// Reads the `n` bytes from `va` on, faulting unless each lies in a
    /// mapped, readable page.
    pub fn read_bytes(&self, va: usize, n: usize) -> (r: Result<Vec<u8>, AccessFault>)
        requires
            self.wf(),
        ensures
            self.range_readable(va as int, n as int) ==> (r matches Ok(d)
                && d@ == Seq::new(n as nat, |i: int| self.byte_at(va + i))),
            !self.range_readable(va as int, n as int) ==> r == Err::<Vec<u8>, AccessFault>(AccessFault),
    {
        let mut out: Vec<u8> = Vec::new();
        let mut i: usize = 0;
        while i < n
            invariant
                i <= n,
                self.wf(),
                forall|k: int| 0 <= k < i ==> #[trigger] self.can_read(va + k),
                out@ == Seq::new(i as nat, |k: int| self.byte_at(va + k)),
            decreases n - i,
        {
            if i > usize::MAX - va {
                assert(!self.can_read(va + i));
                return Err(AccessFault);
            }
            match self.read_byte(va + i) {
                Ok(b) => {
                    out.push(b);
                },
                Err(f) => {
                    return Err(f);
                },
            }
            assert(out@ =~= Seq::new((i + 1) as nat, |k: int| self.byte_at(va + k)));
            i = i + 1;
        }
        Ok(out)
    }

    /// Writes `data` from `va` on; all or nothing: faults, with nothing
    /// changed, unless every byte lies in a mapped, writable page.
    pub fn write_bytes(&mut self, va: usize, data: &Vec<u8>) -> (r: Result<(), AccessFault>)
        requires
            old(self).wf(),
        ensures
            final(self).wf(),
            r is Ok <==> old(self).range_writable(va as int, data@.len() as int),
            r is Err ==> *final(self) == *old(self),
            r is Ok ==> old(self).written_into(*final(self), va as int, data@),
    {
        let n: usize = data.len();
        let mut i: usize = 0;
        while i < n
            invariant
                i <= n,
                n == data@.len(),
                self.wf(),
                *self == *old(self),
                forall|k: int| 0 <= k < i ==> #[trigger] self.can_write(va + k),
            decreases n - i,
        {
            if i > usize::MAX - va {
                assert(!self.can_write(va + i));
                return Err(AccessFault);
            }
            if !self.is_writable(va + i) {
                return Err(AccessFault);
            }
            i = i + 1;
        }
        let mut i: usize = 0;
        while i < n
            invariant
                i <= n,
                n == data@.len(),
                self.wf(),
                old(self).range_writable(va as int, n as int),
                self.pages() == old(self).pages(),
                self.free_frames() == old(self).free_frames(),
                forall|a: int| #[trigger] self.is_mapped(a / (PAGE_SIZE as int))
                    ==> self.byte_at(a) == if va <= a < va + i {
                        data@[a - va]
                    } else {
                        old(self).byte_at(a)
                    },
            decreases n - i,
        {
            assert(old(self).can_write(va + i));
            let ghost before = *self;
            let w = self.write_byte(va + i, data[i]);
            assert(w is Ok);
            proof {
                assert forall|a: int| #[trigger] self.is_mapped(a / (PAGE_SIZE as int))
                    implies self.byte_at(a) == if va <= a < va + i + 1 {
                        data@[a - va]
                    } else {
                        old(self).byte_at(a)
                    } by {
                    assert(before.is_mapped(a / (PAGE_SIZE as int)));
                }
            }
            i = i + 1;
        }
        Ok(())
    }
}

} // verus!
