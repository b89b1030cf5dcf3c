//! Dispatch orchestration: the tool state machine.
//!
//! One controlling context per guest tree serially observes events and
//! routes each one to the tool with the relevant per-process and
//! per-thread state. The [`Dispatcher`] decides, for every incoming
//! [`FullEvent`], which lifecycle calls the event loop must perform
//! against the tool and in what order: create process state together with
//! its first thread state on first contact with a guest process, create
//! thread state when a guest thread appears, deliver the event to the
//! handler, and tear state down again when threads and processes exit.
//! The loop around it performs each returned [`ToolAction`] in order.
//!
//! A ghost log records every action ever emitted. Its well-formedness
//! ([`log_ok`]) is the ordering contract: a thread's state-initialization
//! precedes the first handler invocation referencing its id, and after
//! the thread's teardown no handler invocation references the id again
//! until a new thread reuses it.

use vstd::prelude::*;

verus! {

use crate::api::Event;
use crate::api::FullEvent;
use crate::api::Pid;
use crate::api::TID;

/// One call the event loop must perform against the tool.
#[derive(PartialEq, Eq, Structural, Debug, Clone, Copy)]
pub enum ToolAction {
    /// Create the tool's state for a new guest process, together with the
    /// state of its first thread: `InitProcess(pid, first_tid)`.
    InitProcess(Pid, TID),
    /// Create per-thread state for a new guest thread, seeded from its
    /// parent thread's state: `InitThread(pid, new_tid, parent_tid)`.
    InitThread(Pid, TID, TID),
    /// Deliver the event to the per-thread handler owning the thread.
    HandleEvent(TID, Event),
    /// Drop the tool's state for an exited thread.
    TearDownThread(TID),
    /// Drop the tool's state for an exited process, after its threads.
    TearDownProc(Pid),
}

/// Whether an action delivers an event to some handler.
pub open spec fn is_handle(a: ToolAction) -> bool {
    match a {
        ToolAction::HandleEvent(_, _) => true,
        _ => false,
    }
}

/// Whether an action delivers an event to the handler of thread `t`.
pub open spec fn handles_thread(a: ToolAction, t: TID) -> bool {
    match a {
        ToolAction::HandleEvent(t0, _) => t0 == t,
        _ => false,
    }
}

/// Whether an action initializes state for thread `t`, either as a
/// process's first thread or as an added thread.
pub open spec fn inits_thread(a: ToolAction, t: TID) -> bool {
    match a {
        ToolAction::InitProcess(_, t0) => t0 == t,
        ToolAction::InitThread(_, t0, _) => t0 == t,
        _ => false,
    }
}

/// Whether an action tears down the state of thread `t`.
pub open spec fn tears_thread(a: ToolAction, t: TID) -> bool {
    a == ToolAction::TearDownThread(t)
}

/// Thread `t` has state at the end of `log`: some action initialized it
/// and no later action tore it down.
pub open spec fn live_in(log: Seq<ToolAction>, t: TID) -> bool {
    exists|j: int|
        0 <= j < log.len() && inits_thread(#[trigger] log[j], t) && (forall|m: int|
            j < m < log.len() ==> !tears_thread(#[trigger] log[m], t))
}

/// The ordering contract of an action log: every handler invocation for a
/// thread happens while that thread has state — after its initialization,
/// and never between its teardown and a later reuse of the id.
pub open spec fn log_ok(log: Seq<ToolAction>) -> bool {
    forall|i: int, t: TID|
        0 <= i < log.len() && #[trigger] handles_thread(log[i], t) ==> live_in(log.take(i), t)
}

/// The events delivered to the handler of thread `t`, in delivery order.
pub open spec fn delivered(log: Seq<ToolAction>, t: TID) -> Seq<Event>
    decreases log.len(),
{
    if log.len() == 0 {
        Seq::empty()
    } else {
        delivered(log.drop_last(), t) + (match log.last() {
            ToolAction::HandleEvent(t0, e) => if t0 == t {
                seq![e]
            } else {
                Seq::empty()
            },
            _ => Seq::empty(),
        })
    }
}

/// The orchestration core: which guest processes and threads currently
/// have tool state, plus the ghost log of every action emitted so far.
///
/// The tracer-facing event loop feeds it one occurrence at a time and
/// performs the returned actions, in order, against the tool.
pub struct Dispatcher {
    procs: Vec<Pid>,
    threads: Vec<(TID, Pid)>,
    log: Ghost<Seq<ToolAction>>,
}

impl Dispatcher {
    /// The guest processes that currently have tool state.
    pub closed spec fn spec_procs(&self) -> Seq<Pid> {
        self.procs@
    }

    /// The guest threads that currently have tool state, each with its
    /// owning process.
    pub closed spec fn spec_threads(&self) -> Seq<(TID, Pid)> {
        self.threads@
    }

    /// Every action emitted so far, in order.
    pub closed spec fn spec_log(&self) -> Seq<ToolAction> {
        self.log@
    }

    /// Process `pid` currently has tool state.
    pub open spec fn proc_live(&self, pid: Pid) -> bool {
        self.spec_procs().contains(pid)
    }

    /// Thread `t` currently has tool state.
    pub open spec fn thread_live(&self, t: TID) -> bool {
        exists|j: int| 0 <= j < self.spec_threads().len() && (#[trigger] self.spec_threads()[j]).0 == t
    }

    /// Thread `t` currently has tool state, owned by process `pid`.
    pub open spec fn thread_live_in(&self, t: TID, pid: Pid) -> bool {
        self.spec_threads().contains((t, pid))
    }

    /// Internal consistency: ids are unique while live, every thread
    /// belongs to exactly one live process, every live thread's state was
    /// initialized and not torn down, and the log keeps the ordering
    /// contract.
    pub open spec fn wf(&self) -> bool {
        &&& forall|i: int, j: int|
            0 <= i < j < self.spec_procs().len() ==> self.spec_procs()[i] != self.spec_procs()[j]
        &&& forall|i: int, j: int|
            0 <= i < j < self.spec_threads().len() ==> (#[trigger] self.spec_threads()[i]).0 != (
            #[trigger] self.spec_threads()[j]).0
        &&& forall|i: int|
            0 <= i < self.spec_threads().len() ==> self.spec_procs().contains(
                (#[trigger] self.spec_threads()[i]).1,
            )
        &&& forall|t: TID| #[trigger] self.thread_live(t) ==> live_in(self.spec_log(), t)
        &&& log_ok(self.spec_log())
    }

    /// A dispatcher that has seen no guest yet: no state, an empty log.
    pub fn new() -> (d: Dispatcher)
        ensures
            d.wf(),
            d.spec_procs() == Seq::<Pid>::empty(),
            d.spec_threads() == Seq::<(TID, Pid)>::empty(),
            d.spec_log() == Seq::<ToolAction>::empty(),
    {
        let d = Dispatcher { procs: Vec::new(), threads: Vec::new(), log: Ghost(Seq::empty()) };
        proof {
            assert(d.spec_log().take(0) =~= Seq::<ToolAction>::empty());
        }
        d
    }

    /// Whether process `pid` currently has tool state.
    pub fn is_proc_live(&self, pid: Pid) -> (b: bool)
        ensures
            b == self.proc_live(pid),
    {
        let mut i: usize = 0;
        while i < self.procs.len()
            invariant
                i <= self.procs@.len(),
                forall|j: int| 0 <= j < i ==> self.procs@[j] != pid,
            decreases self.procs@.len() - i,
        {
            if self.procs[i] == pid {
                assert(self.spec_procs()[i as int] == pid);
                return true;
            }
            i = i + 1;
        }
        false
    }

    /// Whether thread `t` currently has tool state.
    pub fn is_thread_live(&self, t: TID) -> (b: bool)
        ensures
            b == self.thread_live(t),
    {
        let mut i: usize = 0;
        while i < self.threads.len()
            invariant
                i <= self.threads@.len(),
                forall|j: int| 0 <= j < i ==> (#[trigger] self.threads@[j]).0 != t,
            decreases self.threads@.len() - i,
        {
            if self.threads[i].0 == t {
                assert(self.spec_threads()[i as int].0 == t);
                return true;
            }
            i = i + 1;
        }
        false
    }

    /// Whether thread `t` currently has tool state under process `pid`,
    /// as [`admissible`] asks of an event from a known process.
    pub fn is_thread_live_in(&self, t: TID, pid: Pid) -> (b: bool)
        ensures
            b == self.thread_live_in(t, pid),
    {
        let mut i: usize = 0;
        while i < self.threads.len()
            invariant
                i <= self.threads@.len(),
                forall|j: int| 0 <= j < i ==> #[trigger] self.threads@[j] != (t, pid),
            decreases self.threads@.len() - i,
        {
            let e = self.threads[i];
            if e.0 == t && e.1 == pid {
                assert(self.spec_threads()[i as int] == (t, pid));
                return true;
            }
            i = i + 1;
        }
        false
    }

    /// Register a thread the guest created: its state is initialized
    /// from the parent thread's state before any event referencing the
    /// new id is dispatched. The single returned action is also appended
    /// to the log.
    pub fn thread_started(&mut self, pid: Pid, parent: TID, tid: TID) -> (a: ToolAction)
        requires
            old(self).wf(),
            old(self).proc_live(pid),
            old(self).thread_live_in(parent, pid),
            !old(self).thread_live(tid),
        ensures
            final(self).wf(),
            a == ToolAction::InitThread(pid, tid, parent),
            final(self).spec_procs() == old(self).spec_procs(),
            final(self).spec_threads() == old(self).spec_threads().push((tid, pid)),
            final(self).spec_log() == old(self).spec_log().push(a),
            forall|t: TID|
                #![trigger delivered(final(self).spec_log(), t)]
                delivered(final(self).spec_log(), t) == delivered(old(self).spec_log(), t),
    {
        let a = ToolAction::InitThread(pid, tid, parent);
        self.threads.push((tid, pid));
        proof {
            self.log@ = self.log@.push(a);
        }
        proof {
            let log0 = old(self).spec_log();
            let log1 = self.spec_log();
            // Threads live before are still live in the extended log: the
            // appended action tears nothing down.
            assert forall|t: TID| #[trigger] self.thread_live(t) implies live_in(log1, t) by {
                if t == tid {
                    assert(inits_thread(log1[log0.len() as int], tid));
                } else {
                    assert(old(self).thread_live(t));
                    let j = choose|j: int|
                        0 <= j < log0.len() && inits_thread(#[trigger] log0[j], t) && (forall|
                            m: int,
                        | j < m < log0.len() ==> !tears_thread(#[trigger] log0[m], t));
                    assert(inits_thread(log1[j], t));
                    assert forall|m: int| j < m < log1.len() implies !tears_thread(
                        #[trigger] log1[m],
                        t,
                    ) by {
                        if m < log0.len() {
                            assert(log1[m] == log0[m]);
                        } else {
                            assert(log1[m] == a);
                        }
                    }
                }
            }
            // No handler invocation was appended, so the ordering contract
            // carries over unchanged.
            assert forall|i: int, t: TID|
                0 <= i < log1.len() && #[trigger] handles_thread(log1[i], t) implies live_in(
                log1.take(i),
                t,
            ) by {
                assert(i < log0.len());
                assert(log1.take(i) =~= log0.take(i));
            }
            // Creating thread state delivers no event.
            assert forall|t: TID|
                #![trigger delivered(log1, t)]
                delivered(log1, t) == delivered(log0, t) by {
                assert(log1.drop_last() =~= log0);
                assert(delivered(log0, t) + Seq::<Event>::empty() =~= delivered(log0, t));
            }
        }
        a
    }

    /// The position of thread `t`'s entry in the thread table.
    #[verifier::loop_isolation(false)]
    fn find_tid(&self, t: TID) -> (i: usize)
        requires
            exists|k: int|
                0 <= k < self.spec_threads().len() && (#[trigger] self.spec_threads()[k]).0 == t,
        ensures
            i < self.spec_threads().len(),
            self.spec_threads()[i as int].0 == t,
            forall|j: int| 0 <= j < i ==> (#[trigger] self.spec_threads()[j]).0 != t,
    {
        let mut i: usize = 0;
        while i < self.threads.len()
            invariant
                i <= self.threads@.len(),
                forall|j: int| 0 <= j < i ==> (#[trigger] self.threads@[j]).0 != t,
            decreases self.threads@.len() - i,
        {
            if self.threads[i].0 == t {
                return i;
            }
            i = i + 1;
        }
        proof {
            assert(false);
        }
        0
    }

    /// The position of process `p`'s entry in the process table.
    #[verifier::loop_isolation(false)]
    fn find_pid(&self, p: Pid) -> (i: usize)
        requires
            self.spec_procs().contains(p),
        ensures
            i < self.spec_procs().len(),
            self.spec_procs()[i as int] == p,
            forall|j: int| 0 <= j < i ==> self.spec_procs()[j] != p,
    {
        let mut i: usize = 0;
        while i < self.procs.len()
            invariant
                i <= self.procs@.len(),
                forall|j: int| 0 <= j < i ==> self.procs@[j] != p,
            decreases self.procs@.len() - i,
        {
            if self.procs[i] == p {
                return i;
            }
            i = i + 1;
        }
        proof {
            assert(false);
        }
        0
    }

    /// Dispatch one guest occurrence.
    ///
    /// Returns the calls the event loop must perform against the tool, in
    /// order: on first contact with the event's process, create its state
    /// together with its first thread's; deliver the event to the
    /// per-thread handler; after an `ExitThread`, tear that thread's state
    /// down; after an `ExitProc`, tear down every remaining thread of the
    /// process and then the process itself. The same actions are appended
    /// to the ghost log, whose ordering contract ([`log_ok`]) the call
    /// preserves, and the event is delivered to its own thread and to no
    /// other.
    #[verifier::loop_isolation(false)]
    #[verifier::rlimit(30)]
    pub fn on_event(&mut self, ev: FullEvent) -> (actions: Vec<ToolAction>)
        requires
            old(self).wf(),
            admissible(old(self).spec_procs(), old(self).spec_threads(), ev),
        ensures
            final(self).wf(),
            final(self).spec_procs() == step_procs(
                old(self).spec_procs(),
                old(self).spec_threads(),
                ev,
            ),
            final(self).spec_threads() == step_threads(
                old(self).spec_procs(),
                old(self).spec_threads(),
                ev,
            ),
            actions@ == spec_actions(old(self).spec_procs(), old(self).spec_threads(), ev),
            final(self).spec_log() == old(self).spec_log() + actions@,
            forall|t: TID|
                #![trigger delivered(final(self).spec_log(), t)]
                delivered(final(self).spec_log(), t) == delivered(old(self).spec_log(), t) + (
                if ev.tid == t {
                    seq![ev.e]
                } else {
                    Seq::<Event>::empty()
                }),
    {
        let ghost procs0 = self.procs@;
        let ghost threads0 = self.threads@;
        let ghost log0 = self.log@;
        let ghost sa = spec_actions(procs0, threads0, ev);

        let mut actions: Vec<ToolAction> = Vec::new();
        let live = self.is_proc_live(ev.pid);
        if !live {
            self.procs.push(ev.pid);
            self.threads.push((ev.tid, ev.pid));
            actions.push(ToolAction::InitProcess(ev.pid, ev.tid));
        }
        let ghost procs1 = self.procs@;
        let ghost threads1 = self.threads@;
        assert(procs1 == start_procs(procs0, ev));
        assert(threads1 == start_threads(procs0, threads0, ev));
        proof {
            // The tables after first contact still have unique ids and
            // every thread under a live process.
            if !procs0.contains(ev.pid) {
                assert(procs1[procs1.len() - 1] == ev.pid);
                assert(threads1[threads1.len() - 1] == (ev.tid, ev.pid));
            }
            assert forall|a: int, b: int| 0 <= a < b < procs1.len() implies procs1[a] != procs1[b] by {
                if b == procs0.len() {
                    if procs1[a] == ev.pid {
                        assert(procs0[a] == ev.pid);
                        assert(procs0.contains(ev.pid));
                    }
                }
            }
            assert forall|a: int, b: int| 0 <= a < b < threads1.len() implies (
            #[trigger] threads1[a]).0 != (#[trigger] threads1[b]).0 by {
                if b == threads0.len() {
                    assert(threads0[a].0 != ev.tid);
                }
            }
            assert forall|a: int| 0 <= a < threads1.len() implies procs1.contains(
                (#[trigger] threads1[a]).1,
            ) by {
                if a < threads0.len() {
                    assert(procs0.contains(threads0[a].1));
                    let w = choose|w: int| 0 <= w < procs0.len() && procs0[w] == threads0[a].1;
                    assert(procs1[w] == threads0[a].1);
                } else {
                    assert(procs1[procs1.len() - 1] == ev.pid);
                }
            }
            // The event's thread is in the table now, whichever way it got
            // there.
            if procs0.contains(ev.pid) {
                assert(threads0.contains((ev.tid, ev.pid)));
                let w = choose|w: int|
                    0 <= w < threads0.len() && threads0[w] == (ev.tid, ev.pid);
                assert(threads1[w] == (ev.tid, ev.pid));
            } else {
                assert(threads1[threads1.len() - 1] == (ev.tid, ev.pid));
            }
            assert(threads1.contains((ev.tid, ev.pid)));
        }
        actions.push(ToolAction::HandleEvent(ev.tid, ev.e));

        match ev.e {
            Event::ExitThread(t) => {
                proof {
                    assert(threads1.contains((ev.tid, ev.pid)));
                    let w = choose|w: int|
                        0 <= w < threads1.len() && threads1[w] == (ev.tid, ev.pid);
                    assert(self.spec_threads()[w].0 == t);
                }
                let i = self.find_tid(t);
                proof {
                    lemma_without_tid_at(threads1, t, i as int);
                }
                self.threads.remove(i);
                actions.push(ToolAction::TearDownThread(t));
                assert(self.threads@ == step_threads(procs0, threads0, ev));
                assert(self.procs@ == step_procs(procs0, threads0, ev));
                assert(actions@ =~= sa);
            },
            Event::ExitProc(p) => {
                let mut survivors: Vec<(TID, Pid)> = Vec::new();
                let mut tears: Vec<ToolAction> = Vec::new();
                let mut i: usize = 0;
                proof {
                    assert(threads1.skip(0) =~= threads1);
                    assert(Seq::<(TID, Pid)>::empty() + surviving(threads1, p) =~= surviving(
                        threads1,
                        p,
                    ));
                    assert(Seq::<ToolAction>::empty() + teardowns(threads1, p) =~= teardowns(
                        threads1,
                        p,
                    ));
                }
                while i < self.threads.len()
                    invariant
                        self.threads@ == threads1,
                        i <= threads1.len(),
                        surviving(threads1, p) == survivors@ + surviving(
                            threads1.skip(i as int),
                            p,
                        ),
                        teardowns(threads1, p) == tears@ + teardowns(threads1.skip(i as int), p),
                    decreases threads1.len() - i,
                {
                    proof {
                        assert(threads1.skip(i as int)[0] == threads1[i as int]);
                        assert(threads1.skip(i as int).drop_first() =~= threads1.skip(
                            i as int + 1,
                        ));
                    }
                    let ghost survb = survivors@;
                    let ghost tearsb = tears@;
                    let e = self.threads[i];
                    if e.1 == p {
                        tears.push(ToolAction::TearDownThread(e.0));
                        proof {
                            assert(tearsb + (seq![ToolAction::TearDownThread(threads1[i as int].0)]
                                + teardowns(threads1.skip(i as int + 1), p)) =~= tears@
                                + teardowns(threads1.skip(i as int + 1), p));
                        }
                    } else {
                        survivors.push(e);
                        proof {
                            assert(survb + (seq![threads1[i as int]] + surviving(
                                threads1.skip(i as int + 1),
                                p,
                            )) =~= survivors@ + surviving(threads1.skip(i as int + 1), p));
                        }
                    }
                    i = i + 1;
                }
                proof {
                    assert(threads1.skip(threads1.len() as int) =~= Seq::<(TID, Pid)>::empty());
                    assert(survivors@ + Seq::<(TID, Pid)>::empty() =~= survivors@);
                    assert(tears@ + Seq::<ToolAction>::empty() =~= tears@);
                    assert(survivors@ == surviving(threads1, p));
                    assert(tears@ == teardowns(threads1, p));
                }
                self.threads = survivors;
                proof {
                    if procs0.contains(ev.pid) {
                        let w = choose|w: int| 0 <= w < procs0.len() && procs0[w] == ev.pid;
                        assert(self.spec_procs()[w] == p);
                    } else {
                        assert(self.spec_procs()[procs1.len() - 1] == p);
                    }
                    assert(self.spec_procs().contains(p));
                }
                let j = self.find_pid(p);
                proof {
                    lemma_without_pid_at(procs1, p, j as int);
                }
                self.procs.remove(j);
                let ghost tearsall = tears@;
                actions.append(&mut tears);
                actions.push(ToolAction::TearDownProc(p));
                assert(self.threads@ == step_threads(procs0, threads0, ev));
                assert(self.procs@ == step_procs(procs0, threads0, ev));
                assert(actions@ =~= sa);
            },
            _ => {
                assert(self.threads@ == step_threads(procs0, threads0, ev));
                assert(self.procs@ == step_procs(procs0, threads0, ev));
                assert(actions@ =~= sa);
            },
        }
        proof {
            self.log@ = log0 + actions@;
        }

        proof {
            let procsf = self.procs@;
            let threadsf = self.threads@;
            let log1 = self.log@;
            let hpos: int = if procs0.contains(ev.pid) {
                0int
            } else {
                1int
            };
            assert(actions@[hpos] == ToolAction::HandleEvent(ev.tid, ev.e));

            // Where the final tables came from, and what the batch may
            // tear down.
            assert forall|a: int| 0 <= a < threadsf.len() implies threads1.contains(
                #[trigger] threadsf[a],
            ) by {
                match ev.e {
                    Event::ExitThread(t) => {
                        let w = choose|w: int|
                            0 <= w < threads1.len() && threads1[w] == (ev.tid, ev.pid);
                        threads1.remove_ensures(w);
                        lemma_without_tid_at(threads1, t, w);
                        if a < w {
                            assert(threadsf[a] == threads1[a]);
                        } else {
                            assert(threadsf[a] == threads1[a + 1]);
                        }
                    },
                    Event::ExitProc(p) => {
                        lemma_surviving_entries(threads1, p);
                    },
                    _ => {
                        assert(threadsf[a] == threads1[a]);
                    },
                }
            }

            // Unique ids and thread-process containment in the final
            // tables.
            assert forall|a: int, b: int| 0 <= a < b < procsf.len() implies procsf[a] != procsf[b] by {
                match ev.e {
                    Event::ExitProc(p) => {
                        let w = choose|w: int| 0 <= w < procs1.len() && procs1[w] == p;
                        let wf = choose|wf: int|
                            0 <= wf < procs1.len() && procs1[wf] == p && (forall|j: int|
                                0 <= j < wf ==> procs1[j] != p);
                        lemma_without_pid_at(procs1, p, wf);
                        procs1.remove_ensures(wf);
                    },
                    _ => {},
                }
            }
            assert forall|a: int, b: int| 0 <= a < b < threadsf.len() implies (
            #[trigger] threadsf[a]).0 != (#[trigger] threadsf[b]).0 by {
                match ev.e {
                    Event::ExitThread(t) => {
                        let w = choose|w: int|
                            0 <= w < threads1.len() && threads1[w] == (ev.tid, ev.pid);
                        let wf = choose|wf: int|
                            0 <= wf < threads1.len() && threads1[wf].0 == t && (forall|j: int|
                                0 <= j < wf ==> (#[trigger] threads1[j]).0 != t);
                        lemma_without_tid_at(threads1, t, wf);
                        threads1.remove_ensures(wf);
                    },
                    Event::ExitProc(p) => {
                        lemma_surviving_nodup(threads1, p);
                    },
                    _ => {},
                }
            }
            assert forall|a: int| 0 <= a < threadsf.len() implies procsf.contains(
                (#[trigger] threadsf[a]).1,
            ) by {
                assert(threads1.contains(threadsf[a]));
                let w = choose|w: int| 0 <= w < threads1.len() && threads1[w] == threadsf[a];
                assert(procs1.contains(threads1[w].1));
                match ev.e {
                    Event::ExitProc(p) => {
                        lemma_surviving_entries(threads1, p);
                        assert(threadsf[a].1 != p);
                        lemma_without_pid_keeps(procs1, p, threadsf[a].1);
                    },
                    _ => {},
                }
            }

            // No action of this batch tears down a thread that is still
            // live afterwards.
            assert forall|a: int, m: int|
                0 <= a < threadsf.len() && 0 <= m < actions@.len() implies !tears_thread(
                #[trigger] actions@[m],
                (#[trigger] threadsf[a]).0,
            ) by {
                let t = threadsf[a].0;
                assert(threads1.contains(threadsf[a]));
                let w = choose|w: int| 0 <= w < threads1.len() && threads1[w] == threadsf[a];
                match ev.e {
                    Event::ExitThread(t0) => {
                        // the removed entry is gone; ids are unique, so the
                        // surviving entry's id differs from the torn one
                        let wr = choose|wr: int|
                            0 <= wr < threads1.len() && threads1[wr] == (ev.tid, ev.pid);
                        let wf = choose|wf: int|
                            0 <= wf < threads1.len() && threads1[wf].0 == t0 && (forall|j: int|
                                0 <= j < wf ==> (#[trigger] threads1[j]).0 != t0);
                        lemma_without_tid_at(threads1, t0, wf);
                        threads1.remove_ensures(wf);
                        if a < wf {
                            assert(threadsf[a] == threads1[a]);
                        } else {
                            assert(threadsf[a] == threads1[a + 1]);
                        }
                        assert(t != t0);
                        if m == hpos + 1 {
                            assert(actions@[m] == ToolAction::TearDownThread(t0));
                        } else {
                            assert(!tears_thread(actions@[m], t));
                        }
                    },
                    Event::ExitProc(p) => {
                        lemma_surviving_entries(threads1, p);
                        assert(threadsf[a].1 != p);
                        assert forall|j: int|
                            0 <= j < threads1.len() implies !((#[trigger] threads1[j]).0 == t
                            && threads1[j].1 == p) by {
                            if threads1[j].0 == t {
                                assert(threads1[w].0 == t);
                                if j != w {
                                    assert(threads1[j].0 != threads1[w].0);
                                }
                            }
                        }
                        lemma_teardowns_not_t(threads1, p, t);
                        if hpos < m < actions@.len() - 1 {
                            assert(actions@[m] == teardowns(threads1, p)[m - hpos - 1]);
                        }
                    },
                    _ => {},
                }
            }

            // Every live thread's state is recorded live in the log.
            assert forall|t: TID| #[trigger] self.thread_live(t) implies live_in(log1, t) by {
                let a = choose|a: int| 0 <= a < threadsf.len() && (#[trigger] threadsf[a]).0 == t;
                assert(threads1.contains(threadsf[a]));
                let w = choose|w: int| 0 <= w < threads1.len() && threads1[w] == threadsf[a];
                if w < threads0.len() {
                    assert(threads0[w].0 == t);
                    assert(old(self).thread_live(t));
                    assert(live_in(log0, t));
                    lemma_live_in_extend(log0, actions@, t);
                } else {
                    // the thread created on first contact
                    assert(threads1[w] == (ev.tid, ev.pid));
                    assert(t == ev.tid);
                    assert(hpos == 1);
                    assert(inits_thread(log1[log0.len() as int], t));
                    assert forall|m: int| log0.len() < m < log1.len() implies !tears_thread(
                        #[trigger] log1[m],
                        t,
                    ) by {
                        assert(log1[m] == actions@[m - log0.len()]);
                    }
                }
            }

            // The ordering contract still holds of the extended log.
            assert forall|i: int, t: TID|
                0 <= i < log1.len() && #[trigger] handles_thread(log1[i], t) implies live_in(
                log1.take(i),
                t,
            ) by {
                if i < log0.len() {
                    assert(log0[i] == log1[i]);
                    assert(handles_thread(log0[i], t));
                    assert(live_in(log0.take(i), t));
                    assert(log1.take(i) =~= log0.take(i));
                } else {
                    let m = i - log0.len();
                    assert(log1[i] == actions@[m]);
                    // only the delivery itself is a handler invocation
                    match ev.e {
                        Event::ExitProc(p) => {
                            lemma_teardowns_no_handles(threads1, p);
                            if hpos < m < actions@.len() - 1 {
                                assert(actions@[m] == teardowns(threads1, p)[m - hpos - 1]);
                            }
                        },
                        _ => {},
                    }
                    assert(m == hpos && t == ev.tid);
                    if hpos == 0 {
                        assert(threads0.contains((ev.tid, ev.pid)));
                        let w = choose|w: int|
                            0 <= w < threads0.len() && threads0[w] == (ev.tid, ev.pid);
                        assert(old(self).thread_live(t));
                        assert(live_in(log0, t));
                        assert(log1.take(i) =~= log0);
                    } else {
                        assert(log1.take(i) =~= log0.push(ToolAction::InitProcess(ev.pid, ev.tid)));
                        assert(inits_thread(log1.take(i)[log0.len() as int], t));
                    }
                }
            }

            // Per-thread delivery: this event, to its own thread, and
            // nothing else.
            assert forall|t: TID|
                #![trigger delivered(log1, t)]
                delivered(log1, t) == delivered(log0, t) + (if ev.tid == t {
                    seq![ev.e]
                } else {
                    Seq::<Event>::empty()
                }) by {
                lemma_delivered_concat(log0, actions@, t);
                lemma_actions_delivery(procs0, threads0, ev, t);
            }
        }
        actions
    }
}

/// The thread table without the first entry of thread `t`, order kept.
pub open spec fn without_tid(threads: Seq<(TID, Pid)>, t: TID) -> Seq<(TID, Pid)>
    decreases threads.len(),
{
    if threads.len() == 0 {
        Seq::empty()
    } else if threads[0].0 == t {
        threads.drop_first()
    } else {
        seq![threads[0]] + without_tid(threads.drop_first(), t)
    }
}

/// The process table without the first entry of process `p`, order kept.
pub open spec fn without_pid(procs: Seq<Pid>, p: Pid) -> Seq<Pid>
    decreases procs.len(),
{
    if procs.len() == 0 {
        Seq::empty()
    } else if procs[0] == p {
        procs.drop_first()
    } else {
        seq![procs[0]] + without_pid(procs.drop_first(), p)
    }
}

/// The thread table with every thread of process `p` removed, order kept.
pub open spec fn surviving(threads: Seq<(TID, Pid)>, p: Pid) -> Seq<(TID, Pid)>
    decreases threads.len(),
{
    if threads.len() == 0 {
        Seq::empty()
    } else if threads[0].1 == p {
        surviving(threads.drop_first(), p)
    } else {
        seq![threads[0]] + surviving(threads.drop_first(), p)
    }
}

/// The teardown actions for every thread of process `p`, in table order.
pub open spec fn teardowns(threads: Seq<(TID, Pid)>, p: Pid) -> Seq<ToolAction>
    decreases threads.len(),
{
    if threads.len() == 0 {
        Seq::empty()
    } else if threads[0].1 == p {
        seq![ToolAction::TearDownThread(threads[0].0)] + teardowns(threads.drop_first(), p)
    } else {
        teardowns(threads.drop_first(), p)
    }
}

/// The process table after first contact: unchanged when the event's
/// process already has state, extended by it otherwise.
pub open spec fn start_procs(procs: Seq<Pid>, ev: FullEvent) -> Seq<Pid> {
    if procs.contains(ev.pid) {
        procs
    } else {
        procs.push(ev.pid)
    }
}

/// The thread table after first contact: a process met for the first
/// time brings its first thread with it.
pub open spec fn start_threads(procs: Seq<Pid>, threads: Seq<(TID, Pid)>, ev: FullEvent) -> Seq<
    (TID, Pid),
> {
    if procs.contains(ev.pid) {
        threads
    } else {
        threads.push((ev.tid, ev.pid))
    }
}

/// The process table after one event is dispatched.
pub open spec fn step_procs(procs: Seq<Pid>, threads: Seq<(TID, Pid)>, ev: FullEvent) -> Seq<Pid> {
    match ev.e {
        Event::ExitProc(p) => without_pid(start_procs(procs, ev), p),
        _ => start_procs(procs, ev),
    }
}

/// The thread table after one event is dispatched.
pub open spec fn step_threads(procs: Seq<Pid>, threads: Seq<(TID, Pid)>, ev: FullEvent) -> Seq<
    (TID, Pid),
> {
    match ev.e {
        Event::ExitThread(t) => without_tid(start_threads(procs, threads, ev), t),
        Event::ExitProc(p) => surviving(start_threads(procs, threads, ev), p),
        _ => start_threads(procs, threads, ev),
    }
}

/// The actions one event gives rise to: state creation on first contact,
/// the delivery itself, then the teardowns an exit entails — an exited
/// thread's state right after its event, and on a process exit every
/// remaining thread of that process before the process itself.
pub open spec fn spec_actions(procs: Seq<Pid>, threads: Seq<(TID, Pid)>, ev: FullEvent) -> Seq<
    ToolAction,
> {
    let init = if procs.contains(ev.pid) {
        Seq::<ToolAction>::empty()
    } else {
        seq![ToolAction::InitProcess(ev.pid, ev.tid)]
    };
    let exit = match ev.e {
        Event::ExitThread(t) => seq![ToolAction::TearDownThread(t)],
        Event::ExitProc(p) => teardowns(start_threads(procs, threads, ev), p) + seq![
            ToolAction::TearDownProc(p),
        ],
        _ => Seq::<ToolAction>::empty(),
    };
    init + seq![ToolAction::HandleEvent(ev.tid, ev.e)] + exit
}

/// When the dispatcher accepts an event: an exit event references its
/// own thread or process, and state exists before delivery — the event's
/// thread is known and owned by the event's process, except on first
/// contact with the process, when the thread id must be unused and the
/// pair is created on the spot.
pub open spec fn admissible(procs: Seq<Pid>, threads: Seq<(TID, Pid)>, ev: FullEvent) -> bool {
    &&& match ev.e {
        Event::PreExit(t) => t == ev.tid,
        Event::ExitThread(t) => t == ev.tid,
        Event::ExitProc(p) => p == ev.pid,
        _ => true,
    }
    &&& if procs.contains(ev.pid) {
        threads.contains((ev.tid, ev.pid))
    } else {
        forall|j: int| 0 <= j < threads.len() ==> (#[trigger] threads[j]).0 != ev.tid
    }
}

/// Delivery distributes over splitting a log: what two stretches of log
/// deliver to a thread is what each delivers, in order.
pub proof fn lemma_delivered_concat(l1: Seq<ToolAction>, l2: Seq<ToolAction>, t: TID)
    ensures
        delivered(l1 + l2, t) == delivered(l1, t) + delivered(l2, t),
    decreases l2.len(),
{
    if l2.len() == 0 {
        assert(l1 + l2 =~= l1);
        assert(delivered(l2, t) =~= Seq::<Event>::empty());
        assert(delivered(l1, t) + delivered(l2, t) =~= delivered(l1, t));
    } else {
        assert((l1 + l2).drop_last() =~= l1 + l2.drop_last());
        lemma_delivered_concat(l1, l2.drop_last(), t);
        assert(l1 + l2 =~= (l1 + l2.drop_last()).push(l2.last()));
        assert(delivered(l1, t) + delivered(l2.drop_last(), t) + (match l2.last() {
            ToolAction::HandleEvent(t0, e) => if t0 == t {
                seq![e]
            } else {
                Seq::<Event>::empty()
            },
            _ => Seq::<Event>::empty(),
        }) =~= delivered(l1, t) + delivered(l2, t));
    }
}

/// A stretch of log with no handler invocation delivers nothing.
pub proof fn lemma_delivered_no_handles(s: Seq<ToolAction>, t: TID)
    requires
        forall|i: int| 0 <= i < s.len() ==> !is_handle(#[trigger] s[i]),
    ensures
        delivered(s, t) == Seq::<Event>::empty(),
    decreases s.len(),
{
    if s.len() > 0 {
        lemma_delivered_no_handles(s.drop_last(), t);
        assert(delivered(s.drop_last(), t) + Seq::<Event>::empty() =~= Seq::<Event>::empty());
    }
}

/// What one action delivers, alone in a log.
pub proof fn lemma_delivered_single(a: ToolAction, t: TID)
    ensures
        delivered(seq![a], t) == (match a {
            ToolAction::HandleEvent(t0, e) => if t0 == t {
                seq![e]
            } else {
                Seq::<Event>::empty()
            },
            _ => Seq::<Event>::empty(),
        }),
{
    let tail = match a {
        ToolAction::HandleEvent(t0, e) => if t0 == t {
            seq![e]
        } else {
            Seq::<Event>::empty()
        },
        _ => Seq::<Event>::empty(),
    };
    assert(seq![a].drop_last() =~= Seq::<ToolAction>::empty());
    assert(seq![a].last() == a);
    assert(delivered(seq![a], t) == delivered(Seq::<ToolAction>::empty(), t) + tail);
    assert(Seq::<Event>::empty() + tail =~= tail);
}

/// Removing the first entry of `t` at its actual position: when `i` is
/// the first position whose thread is `t`, the spec-level removal is the
/// removal at `i`.
proof fn lemma_without_tid_at(threads: Seq<(TID, Pid)>, t: TID, i: int)
    requires
        0 <= i < threads.len(),
        threads[i].0 == t,
        forall|j: int| 0 <= j < i ==> (#[trigger] threads[j]).0 != t,
    ensures
        without_tid(threads, t) == threads.remove(i),
    decreases i,
{
    if i == 0 {
        assert(threads.remove(0) =~= threads.drop_first());
    } else {
        let rest = threads.drop_first();
        assert forall|j: int| 0 <= j < i - 1 implies (#[trigger] rest[j]).0 != t by {
            assert(rest[j] == threads[j + 1]);
        }
        assert(rest[i - 1] == threads[i]);
        lemma_without_tid_at(rest, t, i - 1);
        assert(seq![threads[0]] + rest.remove(i - 1) =~= threads.remove(i));
    }
}

/// The same, for the process table.
proof fn lemma_without_pid_at(procs: Seq<Pid>, p: Pid, i: int)
    requires
        0 <= i < procs.len(),
        procs[i] == p,
        forall|j: int| 0 <= j < i ==> procs[j] != p,
    ensures
        without_pid(procs, p) == procs.remove(i),
    decreases i,
{
    if i == 0 {
        assert(procs.remove(0) =~= procs.drop_first());
    } else {
        let rest = procs.drop_first();
        assert forall|j: int| 0 <= j < i - 1 implies rest[j] != p by {
            assert(rest[j] == procs[j + 1]);
        }
        assert(rest[i - 1] == procs[i]);
        lemma_without_pid_at(rest, p, i - 1);
        assert(seq![procs[0]] + rest.remove(i - 1) =~= procs.remove(i));
    }
}

/// A process that is not the exiting one stays in the table.
proof fn lemma_without_pid_keeps(procs: Seq<Pid>, p: Pid, x: Pid)
    requires
        x != p,
        procs.contains(x),
    ensures
        without_pid(procs, p).contains(x),
    decreases procs.len(),
{
    let k = choose|k: int| 0 <= k < procs.len() && procs[k] == x;
    let rest = procs.drop_first();
    if k == 0 {
        if procs[0] == p {
            assert(false);
        } else {
            assert((seq![procs[0]] + without_pid(rest, p))[0] == x);
        }
    } else {
        assert(rest[k - 1] == x);
        assert(rest.contains(x));
        lemma_without_pid_keeps(rest, p, x);
        let m = choose|m: int| 0 <= m < without_pid(rest, p).len() && without_pid(rest, p)[m] == x;
        if procs[0] == p {
        } else {
            assert((seq![procs[0]] + without_pid(rest, p))[m + 1] == x);
        }
    }
}

/// Every entry of the surviving table was an entry of the original and
/// belongs to a process other than the exiting one.
proof fn lemma_surviving_entries(threads: Seq<(TID, Pid)>, p: Pid)
    ensures
        forall|i: int|
            0 <= i < surviving(threads, p).len() ==> threads.contains(
                #[trigger] surviving(threads, p)[i],
            ) && surviving(threads, p)[i].1 != p,
    decreases threads.len(),
{
    if threads.len() > 0 {
        let rest = threads.drop_first();
        lemma_surviving_entries(rest, p);
        assert forall|i: int| 0 <= i < surviving(threads, p).len() implies threads.contains(
            #[trigger] surviving(threads, p)[i],
        ) && surviving(threads, p)[i].1 != p by {
            if threads[0].1 == p {
                let x = surviving(rest, p)[i];
                assert(rest.contains(x));
                let k = choose|k: int| 0 <= k < rest.len() && rest[k] == x;
                assert(threads[k + 1] == x);
            } else {
                if i == 0 {
                    assert(surviving(threads, p)[0] == threads[0]);
                    assert(threads.contains(threads[0]));
                } else {
                    let x = surviving(rest, p)[i - 1];
                    assert(surviving(threads, p)[i] == x);
                    assert(rest.contains(x));
                    let k = choose|k: int| 0 <= k < rest.len() && rest[k] == x;
                    assert(threads[k + 1] == x);
                }
            }
        }
    }
}

/// Removing a process's threads keeps the remaining thread ids unique.
proof fn lemma_surviving_nodup(threads: Seq<(TID, Pid)>, p: Pid)
    requires
        forall|i: int, j: int|
            0 <= i < j < threads.len() ==> (#[trigger] threads[i]).0 != (#[trigger] threads[j]).0,
    ensures
        forall|i: int, j: int|
            0 <= i < j < surviving(threads, p).len() ==> (#[trigger] surviving(threads, p)[i]).0
                != (#[trigger] surviving(threads, p)[j]).0,
    decreases threads.len(),
{
    if threads.len() > 0 {
        let rest = threads.drop_first();
        assert forall|i: int, j: int| 0 <= i < j < rest.len() implies (#[trigger] rest[i]).0 != (
        #[trigger] rest[j]).0 by {
            assert(rest[i] == threads[i + 1]);
            assert(rest[j] == threads[j + 1]);
        }
        lemma_surviving_nodup(rest, p);
        lemma_surviving_entries(rest, p);
        if threads[0].1 == p {
        } else {
            let s = surviving(threads, p);
            assert(s == seq![threads[0]] + surviving(rest, p));
            assert forall|i: int, j: int| 0 <= i < j < s.len() implies (#[trigger] s[i]).0 != (
            #[trigger] s[j]).0 by {
                if i == 0 {
                    let x = surviving(rest, p)[j - 1];
                    assert(s[j] == x);
                    assert(rest.contains(x));
                    let k = choose|k: int| 0 <= k < rest.len() && rest[k] == x;
                    assert(threads[k + 1] == x);
                    assert(threads[0].0 != threads[k + 1].0);
                } else {
                    assert(s[i] == surviving(rest, p)[i - 1]);
                    assert(s[j] == surviving(rest, p)[j - 1]);
                }
            }
        }
    }
}

/// Teardown batches contain no handler invocation.
proof fn lemma_teardowns_no_handles(threads: Seq<(TID, Pid)>, p: Pid)
    ensures
        forall|i: int|
            0 <= i < teardowns(threads, p).len() ==> !is_handle(#[trigger] teardowns(threads, p)[i]),
    decreases threads.len(),
{
    if threads.len() > 0 {
        let rest = threads.drop_first();
        lemma_teardowns_no_handles(rest, p);
        assert forall|i: int| 0 <= i < teardowns(threads, p).len() implies !is_handle(
            #[trigger] teardowns(threads, p)[i],
        ) by {
            if threads[0].1 == p {
                if i == 0 {
                    assert(teardowns(threads, p)[0] == ToolAction::TearDownThread(threads[0].0));
                } else {
                    assert(teardowns(threads, p)[i] == teardowns(rest, p)[i - 1]);
                }
            } else {
                assert(teardowns(threads, p)[i] == teardowns(rest, p)[i]);
            }
        }
    }
}

/// The teardown batch of process `p` never tears down a thread that has
/// no entry under `p`.
proof fn lemma_teardowns_not_t(threads: Seq<(TID, Pid)>, p: Pid, t: TID)
    requires
        forall|j: int|
            0 <= j < threads.len() ==> !((#[trigger] threads[j]).0 == t && threads[j].1 == p),
    ensures
        forall|i: int|
            0 <= i < teardowns(threads, p).len() ==> !tears_thread(
                #[trigger] teardowns(threads, p)[i],
                t,
            ),
    decreases threads.len(),
{
    if threads.len() > 0 {
        let rest = threads.drop_first();
        assert forall|j: int| 0 <= j < rest.len() implies !((#[trigger] rest[j]).0 == t && rest[j].1
            == p) by {
            assert(rest[j] == threads[j + 1]);
        }
        lemma_teardowns_not_t(rest, p, t);
        assert forall|i: int| 0 <= i < teardowns(threads, p).len() implies !tears_thread(
            #[trigger] teardowns(threads, p)[i],
            t,
        ) by {
            if threads[0].1 == p {
                if i == 0 {
                    assert(teardowns(threads, p)[0] == ToolAction::TearDownThread(threads[0].0));
                    assert(threads[0].0 != t);
                } else {
                    assert(teardowns(threads, p)[i] == teardowns(rest, p)[i - 1]);
                }
            } else {
                assert(teardowns(threads, p)[i] == teardowns(rest, p)[i]);
            }
        }
    }
}

/// A live thread stays live across appended actions, none of which tears
/// it down.
proof fn lemma_live_in_extend(log: Seq<ToolAction>, batch: Seq<ToolAction>, t: TID)
    requires
        live_in(log, t),
        forall|i: int| 0 <= i < batch.len() ==> !tears_thread(#[trigger] batch[i], t),
    ensures
        live_in(log + batch, t),
{
    let j = choose|j: int|
        0 <= j < log.len() && inits_thread(#[trigger] log[j], t) && (forall|m: int|
            j < m < log.len() ==> !tears_thread(#[trigger] log[m], t));
    let l2 = log + batch;
    assert(inits_thread(l2[j], t));
    assert forall|m: int| j < m < l2.len() implies !tears_thread(#[trigger] l2[m], t) by {
        if m < log.len() {
            assert(l2[m] == log[m]);
        } else {
            assert(l2[m] == batch[m - log.len()]);
        }
    }
}

/// One event's action batch delivers exactly that event, to exactly its
/// own thread.
pub proof fn lemma_actions_delivery(
    procs: Seq<Pid>,
    threads: Seq<(TID, Pid)>,
    ev: FullEvent,
    t: TID,
)
    ensures
        delivered(spec_actions(procs, threads, ev), t) == if ev.tid == t {
            seq![ev.e]
        } else {
            Seq::<Event>::empty()
        },
{
    let init = if procs.contains(ev.pid) {
        Seq::<ToolAction>::empty()
    } else {
        seq![ToolAction::InitProcess(ev.pid, ev.tid)]
    };
    let handle = seq![ToolAction::HandleEvent(ev.tid, ev.e)];
    let exit = match ev.e {
        Event::ExitThread(t0) => seq![ToolAction::TearDownThread(t0)],
        Event::ExitProc(p) => teardowns(start_threads(procs, threads, ev), p) + seq![
            ToolAction::TearDownProc(p),
        ],
        _ => Seq::<ToolAction>::empty(),
    };
    let h = if ev.tid == t {
        seq![ev.e]
    } else {
        Seq::<Event>::empty()
    };
    lemma_delivered_concat(init + handle, exit, t);
    lemma_delivered_concat(init, handle, t);
    assert forall|i: int| 0 <= i < init.len() implies !is_handle(#[trigger] init[i]) by {
        assert(init[i] == ToolAction::InitProcess(ev.pid, ev.tid));
    }
    lemma_delivered_no_handles(init, t);
    lemma_delivered_single(ToolAction::HandleEvent(ev.tid, ev.e), t);
    match ev.e {
        Event::ExitThread(t0) => {
            lemma_delivered_single(ToolAction::TearDownThread(t0), t);
        },
        Event::ExitProc(p) => {
            let tds = teardowns(start_threads(procs, threads, ev), p);
            lemma_delivered_concat(tds, seq![ToolAction::TearDownProc(p)], t);
            lemma_teardowns_no_handles(start_threads(procs, threads, ev), p);
            lemma_delivered_no_handles(tds, t);
            lemma_delivered_single(ToolAction::TearDownProc(p), t);
            assert(delivered(exit, t) =~= Seq::<Event>::empty());
        },
        _ => {
            lemma_delivered_no_handles(exit, t);
        },
    }
    assert(delivered(spec_actions(procs, threads, ev), t) =~= h);
}

/// The events of `evs` that belong to thread `t`, in order.
pub open spec fn events_for(evs: Seq<FullEvent>, t: TID) -> Seq<Event>
    decreases evs.len(),
{
    if evs.len() == 0 {
        Seq::empty()
    } else {
        (if evs[0].tid == t {
            seq![evs[0].e]
        } else {
            Seq::<Event>::empty()
        }) + events_for(evs.drop_first(), t)
    }
}

/// The whole action log a run of events gives rise to, starting from the
/// given tables.
pub open spec fn replay_log(procs: Seq<Pid>, threads: Seq<(TID, Pid)>, evs: Seq<FullEvent>) -> Seq<
    ToolAction,
>
    decreases evs.len(),
{
    if evs.len() == 0 {
        Seq::empty()
    } else {
        spec_actions(procs, threads, evs[0]) + replay_log(
            step_procs(procs, threads, evs[0]),
            step_threads(procs, threads, evs[0]),
            evs.drop_first(),
        )
    }
}

/// Per-thread order is preserved: over any run of events from any
/// starting tables, the sequence of events delivered to the handler of a
/// fixed thread id is exactly the sequence the guest produced for that
/// id — nothing reordered, nothing dropped, nothing duplicated.
pub proof fn lemma_per_thread_order(
    procs: Seq<Pid>,
    threads: Seq<(TID, Pid)>,
    evs: Seq<FullEvent>,
    t: TID,
)
    ensures
        delivered(replay_log(procs, threads, evs), t) == events_for(evs, t),
    decreases evs.len(),
{
    if evs.len() == 0 {
    } else {
        let first = spec_actions(procs, threads, evs[0]);
        let rest = replay_log(
            step_procs(procs, threads, evs[0]),
            step_threads(procs, threads, evs[0]),
            evs.drop_first(),
        );
        lemma_delivered_concat(first, rest, t);
        lemma_actions_delivery(procs, threads, evs[0], t);
        lemma_per_thread_order(
            step_procs(procs, threads, evs[0]),
            step_threads(procs, threads, evs[0]),
            evs.drop_first(),
            t,
        );
    }
}

/// State initialization precedes handling, and teardown ends it: when
/// position `i` of a well-formed dispatcher's log delivers an event to
/// thread `t`, some earlier position initialized `t`'s state and no
/// position in between tore it down. Read backwards, the same statement
/// says that after `TearDownThread(t)` — emitted right after `t`'s
/// `ExitThread` was handled — no later delivery references `t` until a
/// new thread reuses the id.
pub proof fn lemma_init_precedes_handling(d: &Dispatcher, i: int, t: TID)
    requires
        d.wf(),
        0 <= i < d.spec_log().len(),
        handles_thread(d.spec_log()[i], t),
    ensures
        exists|j: int|
            0 <= j < i && inits_thread(#[trigger] d.spec_log()[j], t) && (forall|m: int|
                j < m < i ==> !tears_thread(#[trigger] d.spec_log()[m], t)),
{
    let pre = d.spec_log().take(i);
    assert(live_in(pre, t));
    let j = choose|j: int|
        0 <= j < pre.len() && inits_thread(#[trigger] pre[j], t) && (forall|m: int|
            j < m < pre.len() ==> !tears_thread(#[trigger] pre[m], t));
    assert(inits_thread(d.spec_log()[j], t));
    assert forall|m: int| j < m < i implies !tears_thread(#[trigger] d.spec_log()[m], t) by {
        assert(pre[m] == d.spec_log()[m]);
    }
}

} // verus!
