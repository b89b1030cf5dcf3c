//! A syscall-interception and guest-instrumentation core.
//!
//! A tracer observes one or more traced processes (the guest), classifies
//! each occurrence into an [`api::Event`], and routes it through the
//! [`dispatch::Dispatcher`] to a tool that implements [`api::SystraceTool`].
//! The tool may call back into the guest through an [`api::Injector`]
//! capability; the [`injector::InjectorCore`] keeps the pending-request
//! table that correlates injected calls with their completions.
//! [`memory::GuestMem`] models remote reads and writes of guest memory,
//! and [`auxv`] decodes the ELF auxiliary vector from a guest stack image.

pub mod api;
pub mod auxv;
pub mod capture;
pub mod catalog;
pub mod dispatch;
pub mod injector;
pub mod memory;
pub mod tools;
