//! A minimal cooperative process kernel for a single-core microcontroller.
//!
//! The crate holds the platform-independent core: the process table, the
//! first-in, first-out process lists, the round-robin scheduler, the
//! interrupt registry that releases blocked processes, the trap-frame and
//! supervisor-call protocol, and the decisions of the serial driver and of
//! the interrupt trampoline.
//!
//! The crate touches no hardware. Wherever the kernel has to act on the
//! machine (switch into a process, ask the interrupt controller, read a
//! process's memory, send a character) the caller hands the action in as a
//! closure. The closures that may be called more than once take the machine
//! as a value and give it back, so that the course of the machine through a
//! call is a chain of states; the contracts say which calls make up that
//! chain, in which order, and that there are no others.

pub mod dispatcher;
pub mod interrupt_manager;
pub mod process;
pub mod process_list;
pub mod scheduler;
pub mod serial;
pub mod syscall;
pub mod trampoline;
