//! The compute half of a captured syscall.
//!
//! A tool running under the tracer sees every intercepted syscall with
//! its six raw argument slots. For the path-taking calls it reports, the
//! interesting work is deciding whether the call carries a pathname and
//! extracting that pathname from guest memory; actually printing the
//! line and re-issuing the call untraced is the event loop's business.

use vstd::prelude::*;

verus! {

use crate::api::SysArgs;
use crate::api::SysNo;
use crate::memory::GuestMem;

/// The open syscall number of the assumed syscall convention.
pub const SYS_OPEN: SysNo = 2;

/// The openat syscall number of the assumed syscall convention.
pub const SYS_OPENAT: SysNo = 257;

/// How many bytes of a pathname are scanned at most.
pub const PATH_MAX_SCAN: usize = 4096;

/// The guest address of the pathname argument, for the calls whose path
/// the capture logic reports: open carries it in the first slot, openat
/// in the second.
pub open spec fn spec_path_addr(no: SysNo, args: SysArgs) -> Option<u64> {
    if no == SYS_OPEN {
        Some(args.arg0)
    } else if no == SYS_OPENAT {
        Some(args.arg1)
    } else {
        None
    }
}

/// The pathname a captured syscall names, if it names one: for open and
/// openat, the null-terminated string at the pathname argument, scanned
/// under the [`PATH_MAX_SCAN`] bound; `None` for every other syscall and
/// when the string cannot be read from mapped guest memory.
pub fn captured_path(mem: &GuestMem, no: SysNo, args: &SysArgs) -> (r: Option<Vec<u8>>)
    requires
        mem.wf(),
    ensures
        ({
            match spec_path_addr(no, *args) {
                None => r is None,
                Some(addr) => match mem.spec_cstring(addr, PATH_MAX_SCAN as nat) {
                    Some(s) => r matches Some(v) && v@ == s,
                    None => r is None,
                },
            }
        }),
{
    let addr = if no == SYS_OPEN {
        args.arg0
    } else if no == SYS_OPENAT {
        args.arg1
    } else {
        return None;
    };
    match mem.read_cstring(addr, PATH_MAX_SCAN) {
        Ok(v) => Some(v),
        Err(_) => None,
    }
}

} // verus!
