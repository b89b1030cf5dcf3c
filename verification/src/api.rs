//! The shared tool-facing surface: configuration, register snapshots, the
//! event model, and the capability traits a tracer hands to a tool.

use vstd::prelude::*;

verus! {

/// Thread id. An OS-level identifier, unique only while the thread is
/// alive; it may be reused after the thread's exit.
pub type TID = i32;

/// Process id, with the same reuse caveat as [`TID`].
pub type Pid = i32;

/// Numeric syscall id, per the host architecture's syscall convention.
pub type SysNo = u64;

/// Signal number as delivered to the guest.
pub type SigNo = u64;

/// The value returned in the return-value slot of the syscall convention.
pub type SysCallRet = i64;

/// Resolved guest function address. Valid only within the guest process it
/// was resolved in; invalidated by that process's next image change.
pub type FunAddr = u64;

/// Correlation id under which a continuation is registered with the
/// injector; the pending-request table resolves completions against it.
pub type ContId = u64;

/// How often to interrupt the guest (fire a timer) so that a heartbeat
/// event is created and handled by the tool.
#[derive(PartialEq, Eq, Structural, Debug, Clone, Copy)]
pub enum Heartbeat {
    /// No heartbeat. Guests only yield when they trigger a relevant event,
    /// not merely through the passage of time.
    NoBeat,
    /// A maximum guest compute iota in units of retired branch
    /// conditionals; the flag says whether other handled events count
    /// against the slice.
    ExactRBCs(u64, bool),
    /// A nondeterministic heartbeat in approximate retired-branch units.
    ApproxCyclesRBCs(u64, bool),
    /// The same, in units of cycles.
    ApproxCycles(u64, bool),
}

/// Where event handlers execute.
#[derive(PartialEq, Eq, Structural, Debug, Clone, Copy)]
pub enum InstrumentMode {
    /// Fully centralized tool execution inside a tracer process, which
    /// handles all events and performs all guest access itself.
    FullPtrace,
    /// Execute event handlers inside the guest process when possible;
    /// global-state methods still run centrally in the tracer.
    InGuestDefault,
}

/// Dynamic configuration options that may change after each handler
/// execution; scoped to the process or thread that owns it.
#[derive(PartialEq, Eq, Structural, Debug, Clone, Copy)]
pub struct DynConfig {
    pub heartbeat: Heartbeat,
}

/// Instrumentor configuration fixed at startup time.
#[derive(PartialEq, Eq, Structural, Debug, Clone, Copy)]
pub struct StaticConfig {
    pub mode: InstrumentMode,
    pub init_dynconfig: DynConfig,
}

/// The six order-significant argument slots of a syscall, raw and untyped.
#[derive(PartialEq, Eq, Structural, Hash, Debug, Clone, Copy)]
pub struct SysArgs {
    pub arg0: u64,
    pub arg1: u64,
    pub arg2: u64,
    pub arg3: u64,
    pub arg4: u64,
    pub arg5: u64,
}

/// A trapped instruction in the guest, other than a syscall.
#[derive(PartialEq, Eq, Structural, Hash, Debug, Clone, Copy)]
pub enum Instr {
    RDTSC,
    CPUID,
}

/// A guest action or state change that the tool responds to: the upcalls
/// into the tool, from the guest. Exactly one variant is active per
/// instance.
#[derive(PartialEq, Eq, Structural, Hash, Debug, Clone, Copy)]
pub enum Event {
    /// An attempt to execute a syscall inside the guest.
    Syscall(SysNo, SysArgs),
    /// A trapped instruction in the guest, other than a syscall.
    Instruction(Instr),
    /// A signal received within the guest.
    Signal(SigNo),
    /// An optional notification that exit will happen for this thread;
    /// when emitted, it precedes that thread's `ExitThread`.
    PreExit(TID),
    /// Exit of a thread: no further events or observable side effects will
    /// be seen from this thread id until the id is reused.
    ExitThread(TID),
    /// The same, for a whole process.
    ExitProc(Pid),
    /// A heartbeat yield carrying the current thread time, in whatever
    /// unit was requested.
    HeartbeatYield(u64),
}

/// An [`Event`] together with the thread and process it came from.
#[derive(PartialEq, Eq, Structural, Debug, Clone, Copy)]
pub struct FullEvent {
    pub e: Event,
    pub tid: TID,
    pub pid: Pid,
}

/// An immutable register snapshot taken at event-delivery time; not a live
/// view of the guest. Only the slots the core reads are modeled: the
/// return-value slot and the stack pointer.
#[derive(PartialEq, Eq, Structural, Debug, Clone, Copy)]
pub struct Regs {
    pub rax: u64,
    pub rsp: u64,
}

/// Read access to a register snapshot, one slot at a time.
pub trait RegsAccess {
    /// The return-value slot.
    fn get_rax(&self) -> u64;

    /// The stack pointer.
    fn get_rsp(&self) -> u64;
}

impl RegsAccess for Regs {
    fn get_rax(&self) -> u64 {
        self.rax
    }

    fn get_rsp(&self) -> u64 {
        self.rsp
    }
}

/// Run code *inside* a guest process: the downcalls.
///
/// The injector inserts either new system calls or function calls into the
/// guest. It does not create new functions in the guest; it calls existing
/// ones. There is no way to inject signals into the guest: one must
/// intercept and prevent the guest's attempts to register signal handlers
/// in the first place.
///
/// All operations are implicitly scoped to one guest process; a handle
/// must never be used across guests.
pub trait Injector {
    /// Schedule a syscall in the guest and register the continuation `k`.
    /// `k` fires exactly once with the return value on completion, except
    /// for process-duplicating (fork-class) syscalls, where it fires once
    /// per resulting guest entity: once with the parent's return value and
    /// once with the child's.
    fn inject_syscall(&mut self, no: SysNo, args: SysArgs, k: ContId);

    /// Look up the address of a function within the guest process `pid`.
    /// The address is stale after that process's next image change.
    fn resolve_symbol_address(&self, pid: Pid, name: &String) -> FunAddr;

    /// Run an existing function in the guest through the trampoline, which
    /// saves and restores the guest's pre-call state, and return its
    /// integer result.
    fn inject_funcall(&mut self, func: FunAddr, args: &[u64; 6]) -> i64;

    /// Block until the guest signals termination.
    fn wait_exit(&mut self);
}

/// Full access to the guest: the ability to inject, plus read-only access
/// to the guest's registers and the active configuration.
pub trait GuestAccess: Injector {
    /// The register snapshot taken when the current event was delivered.
    fn get_regs(&self) -> Regs;

    /// The configuration fixed at startup.
    fn get_static_config(&self) -> StaticConfig;

    /// The dynamic configuration active for the current process or thread.
    fn get_dynamic_config(&self) -> DynConfig;
}

/// The interface satisfied by a complete instrumentation tool: the five
/// lifecycle entry points are the whole contract a tool author implements.
///
/// State-initialization functions are total: a tool cannot veto process or
/// thread creation; its only guest-facing control is through the
/// [`Injector`].
pub trait SystraceTool {
    /// Global state shared by the tool across the whole guest tree.
    type Glob;

    /// Tool state specific to one guest process.
    type Proc;

    /// Tool state specific to one guest thread.
    type Thrd;

    /// Initialize the tool, allocating the global state. Takes an optional
    /// pre-allocated buffer in which to place shared global state.
    fn init_global_state(gbuf: Option<Vec<u8>>) -> Option<Self::Glob>;

    /// Initialize state when a guest process is created, including the
    /// root process. Every process includes at least one thread, so this
    /// returns a thread state as well.
    fn init_process_state(g: &Self::Glob) -> (Self::Proc, Self::Thrd);

    /// A guest process created an additional thread, whose state is seeded
    /// from the thread-local state of the parent thread.
    fn init_thread_state(g: &Self::Glob, p: &Self::Proc, parent: &Self::Thrd) -> Self::Thrd;

    /// Receive one event from the instrumentation, with the injector
    /// capability and the process and thread state the event belongs to.
    fn handle_event<I: Injector>(e: Event, i: &mut I, g: &Self::Glob, p: &Self::Proc, t: &mut Self::Thrd);

    /// Optionally handle an event against global state alone, bypassing
    /// per-thread routing; a tool that takes this path must still observe
    /// every event exactly once, in the same per-thread order the
    /// per-thread handler would see.
    fn handle_global_event<I: Injector>(e: Event, i: &mut I, g: &Self::Glob);
}

} // verus!
