//! Auxv decoder: a one-shot parse of the ELF auxiliary vector from the
//! guest stack, run once per guest process on its exec event.
//!
//! The decoder reads the stack pointer from a register snapshot and
//! interprets the region above it as an array of 64-bit little-endian
//! words: `argc`, the `argc` argv pointers and their NULL terminator, the
//! envp pointers and their NULL terminator, then consecutive (key, value)
//! pairs up to a zero key. The scan is bounded to [`AUXV_MAX`] words;
//! exceeding the bound without a terminator is a decode error, never an
//! unbounded read.

use vstd::prelude::*;
use vstd::map::*;
use std::collections::HashMap;

verus! {

use crate::api::Regs;
use crate::memory::GuestMem;

/// The decoder scans at most this many 64-bit words above the stack
/// pointer.
pub const AUXV_MAX: usize = 256;

/// Why a decode failed.
#[derive(PartialEq, Eq, Structural, Debug, Clone, Copy)]
pub enum AuxvError {
    /// The window of [`AUXV_MAX`] words above the stack pointer is not
    /// fully inside mapped guest memory.
    AccessFault,
    /// The scan reached the end of the window without finding the
    /// terminator it was looking for.
    NoTerminator,
}

/// The 64-bit words of the scan window: word `i` is the little-endian
/// reading of bytes `8*i .. 8*i + 8`.
pub open spec fn spec_words_of(bytes: Seq<u8>) -> Seq<u64> {
    Seq::new(bytes.len() / 8, |i: int| vstd::bytes::spec_u64_from_le_bytes(bytes.subrange(8 * i, 8 * i + 8)))
}

/// The scan window above the stack pointer, as words, when it is mapped.
pub open spec fn spec_stack_words(mem: &GuestMem, sp: u64) -> Seq<u64> {
    spec_words_of(mem.spec_read(sp, (AUXV_MAX * 8) as nat))
}

/// The index just past the envp NULL terminator, scanning from `k`:
/// `None` when no zero word stands at or after `k` within the window.
pub open spec fn skip_envp(words: Seq<u64>, k: int) -> Option<int>
    decreases words.len() - k,
{
    if k < 0 || k >= words.len() {
        None
    } else if words[k] == 0 {
        Some(k + 1)
    } else {
        skip_envp(words, k + 1)
    }
}

/// The (key, value) pairs from `k` up to the zero key, later occurrences
/// of a key winning over earlier ones: `None` when the window ends before
/// a zero key, or holds a key with no room left for its value.
pub open spec fn parse_pairs(words: Seq<u64>, k: int) -> Option<Map<u64, u64>>
    decreases words.len() - k,
{
    if k < 0 || k >= words.len() {
        None
    } else if words[k] == 0 {
        Some(Map::empty())
    } else if k + 1 >= words.len() {
        None
    } else {
        match parse_pairs(words, k + 2) {
            None => None,
            Some(rest) => Some(
                if rest.contains_key(words[k]) {
                    rest
                } else {
                    rest.insert(words[k], words[k + 1])
                },
            ),
        }
    }
}

/// The auxiliary-vector mapping held in a word window: skip `argc` and
/// the argv pointers with their NULL terminator, skip envp up to its NULL
/// terminator, then collect the (key, value) pairs. `None` is a decode
/// failure: some terminator is missing from the window.
pub open spec fn spec_auxv(words: Seq<u64>) -> Option<Map<u64, u64>> {
    if words.len() == 0 {
        None
    } else {
        match skip_envp(words, words[0] + 2) {
            None => None,
            Some(k) => parse_pairs(words, k),
        }
    }
}

/// Decode the auxiliary vector of a guest process from the stack pointer
/// in `regs`. Succeeds exactly when the whole scan window is mapped and
/// every terminator falls inside it, and then returns exactly the
/// mapping [`spec_auxv`] reads in the window, each key bound to its last
/// occurrence. Must be called on the process's exec event, while the
/// stack still holds what the kernel put there.
#[verifier::loop_isolation(false)]
pub fn getauxval(mem: &GuestMem, regs: &Regs) -> (r: Result<HashMap<u64, u64>, AuxvError>)
    ensures
        ({
            let readable = mem.contains_range(regs.rsp, (AUXV_MAX * 8) as nat);
            let parsed = spec_auxv(spec_stack_words(mem, regs.rsp));
            &&& r is Ok <==> (readable && parsed is Some)
            &&& (r matches Ok(m) ==> Some(m@) == parsed)
            &&& (r == Err::<HashMap<u64, u64>, AuxvError>(AuxvError::AccessFault) <==> !readable)
            &&& (r == Err::<HashMap<u64, u64>, AuxvError>(AuxvError::NoTerminator) <==> (readable
                && parsed is None))
        }),
{
    broadcast use vstd::std_specs::hash::group_hash_axioms;

    let bytes = match mem.read(regs.rsp, AUXV_MAX * 8) {
        Ok(v) => v,
        Err(_) => {
            return Err(AuxvError::AccessFault);
        },
    };

    // Reassemble the window into 64-bit little-endian words.
    let ghost gwords = spec_words_of(bytes@);
    let mut words: Vec<u64> = Vec::new();
    let mut i: usize = 0;
    while i < AUXV_MAX
        invariant
            bytes@.len() == AUXV_MAX * 8,
            i <= AUXV_MAX,
            words@.len() == i,
            gwords.len() == AUXV_MAX,
            forall|j: int| 0 <= j < i ==> words@[j] == gwords[j],
        decreases AUXV_MAX - i,
    {
        let w = vstd::bytes::u64_from_le_bytes(
            vstd::slice::slice_subrange(bytes.as_slice(), 8 * i, 8 * i + 8),
        );
        assert(w == gwords[i as int]);
        words.push(w);
        i = i + 1;
    }
    assert(words@ =~= gwords);
    assert(spec_stack_words(mem, regs.rsp) == gwords);

    // Skip the argc word, the argv pointers, and the argv NULL terminator.
    let argc = words[0];
    if argc >= (AUXV_MAX as u64) - 2 {
        assert(skip_envp(words@, words@[0] + 2) is None);
        return Err(AuxvError::NoTerminator);
    }
    let start = (argc as usize) + 2;

    // Skip the envp pointers up to their NULL terminator.
    let mut k: usize = start;
    while k < AUXV_MAX && words[k] != 0
        invariant
            words@.len() == AUXV_MAX,
            start <= k <= AUXV_MAX,
            skip_envp(words@, start as int) == skip_envp(words@, k as int),
        decreases AUXV_MAX - k,
    {
        k = k + 1;
    }
    if k == AUXV_MAX {
        assert(skip_envp(words@, k as int) is None);
        return Err(AuxvError::NoTerminator);
    }
    k = k + 1;
    assert(skip_envp(words@, start as int) == Some(k as int));

    // Collect the (key, value) pairs; a later binding of a key overwrites
    // an earlier one, so the last occurrence wins.
    let mut res: HashMap<u64, u64> = HashMap::new();
    assert(res@ =~= Map::<u64, u64>::empty());
    loop
        invariant
            words@.len() == AUXV_MAX,
            k <= AUXV_MAX,
            ({
                match parse_pairs(words@, k as int) {
                    Some(rest) => spec_auxv(words@) == Some(res@.union_prefer_right(rest)),
                    None => spec_auxv(words@) is None,
                }
            }),
        decreases AUXV_MAX - k,
    {
        if k == AUXV_MAX {
            return Err(AuxvError::NoTerminator);
        }
        let key = words[k];
        if key == 0 {
            proof {
                let rest = parse_pairs(words@, k as int).unwrap();
                assert(res@.union_prefer_right(rest) =~= res@);
            }
            return Ok(res);
        }
        if k + 1 == AUXV_MAX {
            return Err(AuxvError::NoTerminator);
        }
        let val = words[k + 1];
        proof {
            match parse_pairs(words@, k as int + 2) {
                None => {},
                Some(rest2) => {
                    let rest = parse_pairs(words@, k as int).unwrap();
                    assert(res@.insert(key, val).union_prefer_right(rest2) =~= res@
                        .union_prefer_right(rest));
                },
            }
        }
        res.insert(key, val);
        k = k + 2;
    }
}

} // verus!
