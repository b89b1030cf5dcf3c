//! Remote memory access: peek and poke of the guest's address space
//! through a remote-address abstraction.
//!
//! [`GuestMem`] stands for one mapped region of guest memory as the tracer
//! sees it. Every read and write either fully succeeds or fully fails with
//! an access fault; no partial access is observable. A derived helper
//! extracts a null-terminated string under an explicit maximum-length
//! bound: a string that reaches the bound without a terminator is
//! truncated there (a deterministic choice, never undefined behavior),
//! while running off mapped memory before both the terminator and the
//! bound is an access fault.

use vstd::prelude::*;
use vstd::pervasive::VecAdditionalExecFns;

verus! {

/// A remote access failed: some byte of the requested range lies outside
/// mapped guest memory. Ignoring this result is a contract violation on
/// the caller's side; the fault itself is recoverable.
#[derive(PartialEq, Eq, Structural, Debug, Clone, Copy)]
pub struct AccessFault;

/// One mapped region of the guest's address space: the bytes at guest
/// addresses `base .. base + data.len()`.
pub struct GuestMem {
    base: u64,
    data: Vec<u8>,
}

impl GuestMem {
    /// The lowest guest address of the region.
    pub closed spec fn spec_base(&self) -> u64 {
        self.base
    }

    /// The bytes of the region, lowest address first.
    pub closed spec fn spec_bytes(&self) -> Seq<u8> {
        self.data@
    }

    /// The region fits in the guest's address space without wrapping.
    pub open spec fn wf(&self) -> bool {
        self.spec_base() + self.spec_bytes().len() <= u64::MAX
    }

    /// Whether the `len` bytes starting at guest address `addr` all lie
    /// inside the region.
    pub open spec fn contains_range(&self, addr: u64, len: nat) -> bool {
        &&& self.spec_base() <= addr
        &&& addr + len <= self.spec_base() + self.spec_bytes().len()
    }

    /// The byte at guest address `addr`.
    pub open spec fn byte_at(&self, addr: u64) -> u8 {
        self.spec_bytes()[addr - self.spec_base()]
    }

    /// What a successful read of `len` bytes at `addr` returns.
    pub open spec fn spec_read(&self, addr: u64, len: nat) -> Seq<u8> {
        self.spec_bytes().subrange(addr - self.spec_base(), addr - self.spec_base() + len)
    }

    /// What the region's bytes are after a successful write of `buf` at
    /// `addr`.
    pub open spec fn spec_write(&self, addr: u64, buf: Seq<u8>) -> Seq<u8> {
        self.spec_bytes().subrange(0, addr - self.spec_base())
            + buf
            + self.spec_bytes().subrange(
                addr - self.spec_base() + buf.len(),
                self.spec_bytes().len() as int,
            )
    }

    /// Map a region of guest memory: `data` are the bytes at guest
    /// addresses `base .. base + data.len()`.
    pub fn new(base: u64, data: Vec<u8>) -> (m: GuestMem)
        requires
            base + data@.len() <= u64::MAX,
        ensures
            m.wf(),
            m.spec_base() == base,
            m.spec_bytes() == data@,
    {
        GuestMem { base, data }
    }

    /// Read `len` bytes at guest address `addr`. Succeeds, with exactly
    /// the bytes of the region, if and only if the whole range is mapped;
    /// otherwise fails with an access fault and reads nothing.
    pub fn read(&self, addr: u64, len: usize) -> (r: Result<Vec<u8>, AccessFault>)
        ensures
            r is Ok <==> self.contains_range(addr, len as nat),
            r matches Ok(v) ==> v@ == self.spec_read(addr, len as nat),
    {
        if addr < self.base {
            return Err(AccessFault);
        }
        let off64 = addr - self.base;
        if off64 > self.data.len() as u64 {
            return Err(AccessFault);
        }
        let off = off64 as usize;
        if len > self.data.len() - off {
            return Err(AccessFault);
        }
        let mut out: Vec<u8> = Vec::new();
        let mut i: usize = 0;
        while i < len
            invariant
                off + len <= self.data@.len(),
                off + len <= usize::MAX,
                i <= len,
                out@.len() == i,
                forall|j: int| 0 <= j < i ==> out@[j] == self.data@[off + j],
            decreases len - i,
        {
            out.push(self.data[off + i]);
            i = i + 1;
        }
        assert(out@ =~= self.spec_read(addr, len as nat));
        Ok(out)
    }

    /// Write the bytes of `buf` at guest address `addr`. Succeeds if and
    /// only if the whole range is mapped; on a fault the region is left
    /// unchanged, so no partial write is observable.
    pub fn write(&mut self, addr: u64, buf: &Vec<u8>) -> (r: Result<(), AccessFault>)
        ensures
            r is Ok <==> old(self).contains_range(addr, buf@.len()),
            final(self).spec_base() == old(self).spec_base(),
            r is Ok ==> final(self).spec_bytes() == old(self).spec_write(addr, buf@),
            r is Err ==> final(self).spec_bytes() == old(self).spec_bytes(),
    {
        if addr < self.base {
            return Err(AccessFault);
        }
        let off64 = addr - self.base;
        if off64 > self.data.len() as u64 {
            return Err(AccessFault);
        }
        let off = off64 as usize;
        if buf.len() > self.data.len() - off {
            return Err(AccessFault);
        }
        let mut i: usize = 0;
        while i < buf.len()
            invariant
                off + buf@.len() <= self.data@.len(),
                off + buf@.len() <= usize::MAX,
                i <= buf@.len(),
                self.base == old(self).base,
                self.data@.len() == old(self).data@.len(),
                forall|j: int| 0 <= j < off ==> self.data@[j] == old(self).data@[j],
                forall|j: int| 0 <= j < i ==> self.data@[off + j] == buf@[j],
                forall|j: int|
                    off + buf@.len() <= j < self.data@.len() ==> self.data@[j] == old(
                        self,
                    ).data@[j],
                forall|j: int| off + i <= j < off + buf@.len() ==> self.data@[j] == old(
                    self,
                ).data@[j],
            decreases buf@.len() - i,
        {
            self.data.set(off + i, buf[i]);
            i = i + 1;
        }
        assert(self.data@ =~= old(self).spec_write(addr, buf@));
        Ok(())
    }

    /// Extract the null-terminated string at guest address `addr`,
    /// scanning at most `max` bytes: `None` means the scan ran off mapped
    /// memory before finding either the terminator or the bound.
    pub open spec fn spec_cstring(&self, addr: u64, max: nat) -> Option<Seq<u8>>
        decreases max,
    {
        if max == 0 {
            Some(Seq::empty())
        } else if !self.contains_range(addr, 1) {
            None
        } else if self.byte_at(addr) == 0 {
            Some(Seq::empty())
        } else {
            match self.spec_cstring((addr + 1) as u64, (max - 1) as nat) {
                Some(t) => Some(seq![self.byte_at(addr)] + t),
                None => None,
            }
        }
    }

    /// Read the null-terminated string starting at `addr`, without its
    /// terminator, scanning at most `max` bytes. A string still open at
    /// the bound is truncated to `max` bytes; a scan that leaves mapped
    /// memory before both terminator and bound fails with an access
    /// fault.
    pub fn read_cstring(&self, addr: u64, max: usize) -> (r: Result<Vec<u8>, AccessFault>)
        requires
            self.wf(),
        ensures
            r matches Ok(v) ==> self.spec_cstring(addr, max as nat) == Some(v@),
            r is Err <==> self.spec_cstring(addr, max as nat) is None,
    {
        let mut out: Vec<u8> = Vec::new();
        let mut i: usize = 0;
        loop
            invariant
                self.wf(),
                i <= max,
                out@.len() == i,
                addr + i <= u64::MAX,
                forall|t: Seq<u8>|
                    self.spec_cstring((addr + i) as u64, (max - i) as nat) == Some(t)
                        ==> self.spec_cstring(addr, max as nat) == Some(out@ + t),
                (self.spec_cstring((addr + i) as u64, (max - i) as nat) is None ==> self
                    .spec_cstring(addr, max as nat) is None),
            decreases max - i,
        {
            if i == max {
                proof {
                    let t = Seq::<u8>::empty();
                    assert(self.spec_cstring((addr + i) as u64, (max - i) as nat) == Some(t));
                    assert(out@ + t =~= out@);
                }
                return Ok(out);
            }
            let a = addr + (i as u64);
            if a < self.base {
                return Err(AccessFault);
            }
            let off64 = a - self.base;
            if off64 >= self.data.len() as u64 {
                return Err(AccessFault);
            }
            let b = self.data[off64 as usize];
            if b == 0 {
                proof {
                    let t = Seq::<u8>::empty();
                    assert(self.spec_cstring((addr + i) as u64, (max - i) as nat) == Some(t));
                    assert(out@ + t =~= out@);
                }
                return Ok(out);
            }
            proof {
                let a2 = (addr + i + 1) as u64;
                let m2 = (max - i - 1) as nat;
                assert forall|t: Seq<u8>| self.spec_cstring(a2, m2) == Some(t) implies self
                    .spec_cstring(addr, max as nat) == Some(out@.push(b) + t) by {
                    assert(self.spec_cstring((addr + i) as u64, (max - i) as nat) == Some(
                        seq![b] + t,
                    ));
                    assert(out@ + (seq![b] + t) =~= out@.push(b) + t);
                }
            }
            out.push(b);
            i = i + 1;
        }
    }
}

/// Writing a buffer and reading the same range back returns exactly that
/// buffer: for any region `m` and in-bounds range, the bytes after the
/// write ([`GuestMem::spec_write`]) read back ([`GuestMem::spec_read`]) as
/// the buffer written.
pub proof fn lemma_write_then_read(m: GuestMem, w: GuestMem, addr: u64, buf: Seq<u8>)
    requires
        m.contains_range(addr, buf.len()),
        w.spec_base() == m.spec_base(),
        w.spec_bytes() == m.spec_write(addr, buf),
    ensures
        w.contains_range(addr, buf.len()),
        w.spec_read(addr, buf.len()) == buf,
{
    assert(w.spec_bytes().len() == m.spec_bytes().len());
    assert(w.spec_read(addr, buf.len()) =~= buf);
}

} // verus!
