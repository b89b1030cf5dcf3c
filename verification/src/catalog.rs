//! The syscall catalog: a read-only bidirectional mapping between numeric
//! syscall ids and symbolic names, built once at startup from a generated
//! table matching the target kernel's syscall ABI.
//!
//! Lookup by an out-of-range number is fatal: an unrecognized number
//! signals a catalog/kernel version mismatch that must never be silently
//! tolerated, so [`SyscallCatalog::decode`] requires the number to be in
//! range and [`SyscallCatalog::try_decode`] makes the check explicit.

use vstd::prelude::*;

verus! {

use crate::api::SysNo;

/// A symbolic syscall id validated against a catalog: only
/// [`SyscallCatalog::decode`] and [`SyscallCatalog::try_decode`] hand one
/// out, and only for numbers within the catalog's range.
#[derive(PartialEq, Eq, Structural, Hash, Debug, Clone, Copy)]
pub struct SyscallNo {
    pub nr: SysNo,
}

/// The numeric id a symbolic id encodes to.
pub open spec fn spec_encode(s: SyscallNo) -> SysNo {
    s.nr
}

/// The symbolic id a numeric id within the catalog's range decodes to.
pub open spec fn spec_decode(no: SysNo) -> SyscallNo {
    SyscallNo { nr: no }
}

/// The generated id-to-name table. Index `i` holds the symbolic name of
/// syscall number `i`; the catalog's range is exactly the table's length.
pub struct SyscallCatalog {
    names: Vec<String>,
}

impl SyscallCatalog {
    /// How many numeric ids the catalog covers: its range is `0..len`.
    pub closed spec fn spec_len(&self) -> nat {
        self.names@.len()
    }

    /// The symbolic name recorded for numeric id `no`.
    pub closed spec fn spec_name(&self, no: int) -> Seq<char> {
        self.names@[no]@
    }

    /// Whether a numeric id lies within the catalog's range.
    pub open spec fn spec_in_range(&self, no: SysNo) -> bool {
        (no as nat) < self.spec_len()
    }

    /// Build the catalog from the generated table: entry `i` names
    /// syscall number `i`.
    pub fn new(names: Vec<String>) -> (c: SyscallCatalog)
        ensures
            c.spec_len() == names@.len(),
            forall|i: int| 0 <= i < names@.len() ==> c.spec_name(i) == names@[i]@,
    {
        SyscallCatalog { names }
    }

    /// The number of ids in the catalog's range.
    pub fn len(&self) -> (n: usize)
        ensures
            n == self.spec_len(),
    {
        self.names.len()
    }

    /// Whether `no` lies within the catalog's range.
    pub fn in_range(&self, no: SysNo) -> (b: bool)
        ensures
            b == self.spec_in_range(no),
    {
        no < self.names.len() as u64
    }

    /// Decode a numeric id known to be in range. An out-of-range number is
    /// a catalog/kernel mismatch and fatal to the session, so it is ruled
    /// out here; a caller that cannot rule it out goes through
    /// [`SyscallCatalog::try_decode`] and aborts on `None`.
    pub fn decode(&self, no: SysNo) -> (s: SyscallNo)
        requires
            self.spec_in_range(no),
        ensures
            s == spec_decode(no),
    {
        SyscallNo { nr: no }
    }

    /// Decode a numeric id, reporting an out-of-range number instead of
    /// requiring the caller to have excluded it.
    pub fn try_decode(&self, no: SysNo) -> (r: Option<SyscallNo>)
        ensures
            self.spec_in_range(no) ==> r == Some(spec_decode(no)),
            !self.spec_in_range(no) ==> r is None,
    {
        if no < self.names.len() as u64 {
            Some(SyscallNo { nr: no })
        } else {
            None
        }
    }

    /// The numeric id of a symbolic id.
    pub fn encode(&self, s: SyscallNo) -> (no: SysNo)
        ensures
            no == spec_encode(s),
    {
        s.nr
    }

    /// The symbolic name of a decoded id. Presentation only: name lookup
    /// is not required for correctness.
    pub fn name_of<'a>(&'a self, s: SyscallNo) -> (n: &'a String)
        requires
            self.spec_in_range(s.nr),
        ensures
            n@ == self.spec_name(s.nr as int),
    {
        let len = self.names.len();
        let i = s.nr as usize;
        &self.names[i]
    }

    /// The numeric id carrying a given symbolic name, if any: the least
    /// such id, or `None` when the catalog holds no entry with that name.
    pub fn number_of(&self, name: &String) -> (r: Option<SysNo>)
        ensures
            r matches Some(no) ==> {
                &&& self.spec_in_range(no)
                &&& self.spec_name(no as int) == name@
                &&& forall|j: int| 0 <= j < no ==> self.spec_name(j) != name@
            },
            r is None ==> forall|j: int| 0 <= j < self.spec_len() ==> self.spec_name(j) != name@,
    {
        let mut i: usize = 0;
        while i < self.names.len()
            invariant
                i <= self.names@.len(),
                forall|j: int| 0 <= j < i ==> self.names@[j]@ != name@,
            decreases self.names@.len() - i,
        {
            if self.names[i] == *name {
                return Some(i as u64);
            }
            i = i + 1;
        }
        None
    }
}

/// Within the catalog's range, decoding and encoding are mutually inverse:
/// the symbolic id of a numeric id encodes back to that number, and a
/// symbolic id is exactly what its numeric id decodes to.
pub proof fn lemma_decode_encode_roundtrip(c: &SyscallCatalog, no: SysNo, s: SyscallNo)
    requires
        c.spec_in_range(no),
        c.spec_in_range(s.nr),
    ensures
        spec_encode(spec_decode(no)) == no,
        spec_decode(spec_encode(s)) == s,
{
}

} // verus!
