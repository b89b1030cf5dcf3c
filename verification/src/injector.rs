//! The pending-request table behind syscall injection.
//!
//! A tool schedules a syscall in the guest and registers a continuation
//! under a correlation id; the call returns immediately, and the
//! continuation fires with the return value when the matching completion
//! arrives from the guest. For process-duplicating (fork-class) syscalls
//! the continuation fires once per resulting guest entity: once with the
//! parent's return value and once with the child's. The table makes that
//! double firing an explicit two-entry case: injection registers one
//! pending completion per expected firing, and each arriving completion
//! resolves, and removes, exactly one entry.
//!
//! Cancellation does not exist: when the guest dies first, the remaining
//! entries are simply never resolved, and the caller must react to exit
//! events rather than assume delivery.

use vstd::prelude::*;

verus! {

use crate::api::ContId;
use crate::api::SysArgs;
use crate::api::SysCallRet;
use crate::api::SysNo;

/// The clone syscall number of the assumed syscall convention.
pub const SYS_CLONE: SysNo = 56;

/// The fork syscall number of the assumed syscall convention.
pub const SYS_FORK: SysNo = 57;

/// The vfork syscall number of the assumed syscall convention.
pub const SYS_VFORK: SysNo = 58;

/// Whether a syscall duplicates the calling process, so that an injection
/// of it completes once per resulting guest entity.
pub open spec fn spec_is_fork_class(no: SysNo) -> bool {
    no == SYS_CLONE || no == SYS_FORK || no == SYS_VFORK
}

/// Whether `no` is a process-duplicating syscall.
pub fn is_fork_class(no: SysNo) -> (b: bool)
    ensures
        b == spec_is_fork_class(no),
{
    no == SYS_CLONE || no == SYS_FORK || no == SYS_VFORK
}

/// Which firing of an injected call's continuation an entry stands for.
#[derive(PartialEq, Eq, Structural, Debug, Clone, Copy)]
pub enum CompletionRole {
    /// The single completion of an ordinary syscall.
    Normal,
    /// The parent-side completion of a fork-class syscall, carrying the
    /// child's pid as return value.
    ForkParent,
    /// The child-side completion of a fork-class syscall, carrying zero.
    ForkChild,
}

/// One outstanding completion of an injected syscall.
#[derive(PartialEq, Eq, Structural, Debug, Clone, Copy)]
pub struct PendingCall {
    /// The request this entry belongs to.
    pub req: u64,
    /// Which firing it stands for.
    pub role: CompletionRole,
    /// The injected syscall number.
    pub no: SysNo,
    /// The injected argument slots.
    pub args: SysArgs,
    /// The continuation to fire when this completion arrives.
    pub k: ContId,
}

/// The pending entries one injection adds: two for a fork-class syscall,
/// one otherwise.
pub open spec fn spec_entries(no: SysNo, args: SysArgs, k: ContId, req: u64) -> Seq<PendingCall> {
    if spec_is_fork_class(no) {
        seq![
            PendingCall { req, role: CompletionRole::ForkParent, no, args, k },
            PendingCall { req, role: CompletionRole::ForkChild, no, args, k },
        ]
    } else {
        seq![PendingCall { req, role: CompletionRole::Normal, no, args, k }]
    }
}

/// The index of the first pending entry for `(req, role)`, if any.
pub open spec fn spec_find(p: Seq<PendingCall>, req: u64, role: CompletionRole) -> Option<int>
    decreases p.len(),
{
    if p.len() == 0 {
        None
    } else if p[0].req == req && p[0].role == role {
        Some(0)
    } else {
        match spec_find(p.drop_first(), req, role) {
            Some(i) => Some(i + 1),
            None => None,
        }
    }
}

/// The pending-request table of one injector: every outstanding
/// completion of every injected syscall, keyed by a correlation id that
/// is fresh per injection.
pub struct InjectorCore {
    next_req: u64,
    pending: Vec<PendingCall>,
}

impl InjectorCore {
    /// The correlation id the next injection will get.
    pub closed spec fn spec_next_req(&self) -> u64 {
        self.next_req
    }

    /// The outstanding completions, oldest first.
    pub closed spec fn spec_pending(&self) -> Seq<PendingCall> {
        self.pending@
    }

    /// Every outstanding entry belongs to a request that was already
    /// handed out.
    pub open spec fn wf(&self) -> bool {
        forall|i: int|
            0 <= i < self.spec_pending().len() ==> (#[trigger] self.spec_pending()[i]).req
                < self.spec_next_req()
    }

    /// An empty table: nothing outstanding, correlation ids start at
    /// zero.
    pub fn new() -> (c: InjectorCore)
        ensures
            c.wf(),
            c.spec_next_req() == 0,
            c.spec_pending() == Seq::<PendingCall>::empty(),
    {
        InjectorCore { next_req: 0, pending: Vec::new() }
    }

    /// Whether the correlation-id space still has a fresh id to hand
    /// out, as [`InjectorCore::inject_syscall`] requires.
    pub fn has_room(&self) -> (b: bool)
        ensures
            b == (self.spec_next_req() < u64::MAX),
    {
        self.next_req < u64::MAX
    }

    /// Schedule a syscall in the guest under a fresh correlation id and
    /// register continuation `k` for it: two pending completions for a
    /// fork-class syscall, one otherwise, and nothing else changes. The
    /// id space is 64 bits wide; a session never exhausts it, and the
    /// precondition records that limit.
    pub fn inject_syscall(&mut self, no: SysNo, args: SysArgs, k: ContId) -> (req: u64)
        requires
            old(self).wf(),
            old(self).spec_next_req() < u64::MAX,
        ensures
            final(self).wf(),
            req == old(self).spec_next_req(),
            final(self).spec_next_req() == old(self).spec_next_req() + 1,
            final(self).spec_pending() == old(self).spec_pending() + spec_entries(
                no,
                args,
                k,
                req,
            ),
    {
        let req = self.next_req;
        self.next_req = req + 1;
        if is_fork_class(no) {
            self.pending.push(PendingCall { req, role: CompletionRole::ForkParent, no, args, k });
            self.pending.push(PendingCall { req, role: CompletionRole::ForkChild, no, args, k });
        } else {
            self.pending.push(PendingCall { req, role: CompletionRole::Normal, no, args, k });
        }
        assert(self.pending@ =~= old(self).pending@ + spec_entries(no, args, k, req));
        req
    }

    /// Resolve one arriving completion: the first entry registered for
    /// `(req, role)` leaves the table, and its continuation is handed
    /// back paired with the guest's return value, to be fired exactly
    /// once; with no such entry nothing fires and nothing changes.
    #[verifier::loop_isolation(false)]
    pub fn complete(&mut self, req: u64, role: CompletionRole, ret: SysCallRet) -> (r: Option<
        (ContId, SysCallRet),
    >)
        requires
            old(self).wf(),
        ensures
            final(self).wf(),
            final(self).spec_next_req() == old(self).spec_next_req(),
            ({
                match spec_find(old(self).spec_pending(), req, role) {
                    Some(i) => r == Some((old(self).spec_pending()[i].k, ret))
                        && final(self).spec_pending() == old(self).spec_pending().remove(i),
                    None => r is None && final(self).spec_pending() == old(self).spec_pending(),
                }
            }),
    {
        let mut i: usize = 0;
        while i < self.pending.len()
            invariant
                self == old(self),
                i <= self.pending@.len(),
                forall|j: int|
                    0 <= j < i ==> !((#[trigger] self.pending@[j]).req == req && self.pending@[j].role
                        == role),
            decreases self.pending@.len() - i,
        {
            let e = self.pending[i];
            if e.req == req && e.role == role {
                proof {
                    lemma_find_at(self.pending@, req, role, i as int);
                }
                let removed = self.pending.remove(i);
                proof {
                    old(self).pending@.remove_ensures(i as int);
                }
                return Some((removed.k, ret));
            }
            i = i + 1;
        }
        proof {
            lemma_find_none(self.pending@, req, role);
        }
        None
    }
}

/// With no entry for `req` in the first `i` entries and a match at `i`,
/// the first match for `(req, role)` is exactly `i`.
proof fn lemma_find_at(p: Seq<PendingCall>, req: u64, role: CompletionRole, i: int)
    requires
        0 <= i < p.len(),
        p[i].req == req && p[i].role == role,
        forall|j: int| 0 <= j < i ==> !((#[trigger] p[j]).req == req && p[j].role == role),
    ensures
        spec_find(p, req, role) == Some(i),
    decreases i,
{
    if i > 0 {
        lemma_find_at(p.drop_first(), req, role, i - 1);
    }
}

/// A table with no entry for `(req, role)` resolves nothing for it.
proof fn lemma_find_none(p: Seq<PendingCall>, req: u64, role: CompletionRole)
    requires
        forall|j: int| 0 <= j < p.len() ==> !((#[trigger] p[j]).req == req && p[j].role == role),
    ensures
        spec_find(p, req, role) is None,
    decreases p.len(),
{
    if p.len() > 0 {
        lemma_find_none(p.drop_first(), req, role);
    }
}

/// Searching past a prefix that holds no entry for `req` finds exactly
/// what the suffix holds, shifted by the prefix's length.
proof fn lemma_find_append(p: Seq<PendingCall>, s: Seq<PendingCall>, req: u64, role: CompletionRole)
    requires
        forall|j: int| 0 <= j < p.len() ==> (#[trigger] p[j]).req != req,
    ensures
        spec_find(p + s, req, role) == match spec_find(s, req, role) {
            Some(i) => Some(p.len() + i),
            None => None::<int>,
        },
    decreases p.len(),
{
    if p.len() == 0 {
        assert(p + s =~= s);
    } else {
        assert((p + s).drop_first() =~= p.drop_first() + s);
        lemma_find_append(p.drop_first(), s, req, role);
    }
}

/// Injecting a fork-class syscall registers its continuation for exactly
/// two firings. From any table `p0` that holds nothing for the fresh id
/// `req`: the parent-side completion resolves to the continuation `k` and
/// leaves only the child-side entry for `req`; the child-side completion
/// then also resolves to `k`; and after both have fired, no completion
/// for `req` resolves anything ever again.
pub proof fn lemma_fork_fires_twice(
    p0: Seq<PendingCall>,
    no: SysNo,
    args: SysArgs,
    k: ContId,
    req: u64,
)
    requires
        spec_is_fork_class(no),
        forall|j: int| 0 <= j < p0.len() ==> (#[trigger] p0[j]).req != req,
    ensures
        ({
            let p1 = p0 + spec_entries(no, args, k, req);
            let i1 = spec_find(p1, req, CompletionRole::ForkParent);
            &&& i1 == Some(p0.len() as int)
            &&& p1[i1.unwrap()].k == k
            &&& {
                let p2 = p1.remove(i1.unwrap());
                let i2 = spec_find(p2, req, CompletionRole::ForkChild);
                &&& i2 == Some(p0.len() as int)
                &&& p2[i2.unwrap()].k == k
                &&& {
                    let p3 = p2.remove(i2.unwrap());
                    &&& spec_find(p3, req, CompletionRole::ForkParent) is None
                    &&& spec_find(p3, req, CompletionRole::ForkChild) is None
                    &&& spec_find(p3, req, CompletionRole::Normal) is None
                }
            }
        }),
{
    let child = PendingCall { req, role: CompletionRole::ForkChild, no, args, k };
    let p1 = p0 + spec_entries(no, args, k, req);
    lemma_find_append(p0, spec_entries(no, args, k, req), req, CompletionRole::ForkParent);
    assert(spec_find(spec_entries(no, args, k, req), req, CompletionRole::ForkParent) == Some(
        0int,
    ));
    let p2 = p1.remove(p0.len() as int);
    assert(p2 =~= p0 + seq![child]);
    lemma_find_append(p0, seq![child], req, CompletionRole::ForkChild);
    assert(spec_find(seq![child], req, CompletionRole::ForkChild) == Some(0int));
    let p3 = p2.remove(p0.len() as int);
    assert(p3 =~= p0);
    lemma_find_none(p3, req, CompletionRole::ForkParent);
    lemma_find_none(p3, req, CompletionRole::ForkChild);
    lemma_find_none(p3, req, CompletionRole::Normal);
}

/// Injecting an ordinary syscall registers its continuation for exactly
/// one firing: from any table `p0` that holds nothing for the fresh id
/// `req`, the single completion resolves to the continuation `k`, and
/// after it has fired, no completion for `req` resolves anything again.
pub proof fn lemma_normal_fires_once(
    p0: Seq<PendingCall>,
    no: SysNo,
    args: SysArgs,
    k: ContId,
    req: u64,
)
    requires
        !spec_is_fork_class(no),
        forall|j: int| 0 <= j < p0.len() ==> (#[trigger] p0[j]).req != req,
    ensures
        ({
            let p1 = p0 + spec_entries(no, args, k, req);
            let i1 = spec_find(p1, req, CompletionRole::Normal);
            &&& i1 == Some(p0.len() as int)
            &&& p1[i1.unwrap()].k == k
            &&& {
                let p2 = p1.remove(i1.unwrap());
                &&& spec_find(p2, req, CompletionRole::Normal) is None
                &&& spec_find(p2, req, CompletionRole::ForkParent) is None
                &&& spec_find(p2, req, CompletionRole::ForkChild) is None
            }
        }),
{
    let p1 = p0 + spec_entries(no, args, k, req);
    lemma_find_append(p0, spec_entries(no, args, k, req), req, CompletionRole::Normal);
    assert(spec_find(spec_entries(no, args, k, req), req, CompletionRole::Normal) == Some(0int));
    let p2 = p1.remove(p0.len() as int);
    assert(p2 =~= p0);
    lemma_find_none(p2, req, CompletionRole::Normal);
    lemma_find_none(p2, req, CompletionRole::ForkParent);
    lemma_find_none(p2, req, CompletionRole::ForkChild);
}

} // verus!
