//! The interrupt trampoline: what the vector-table entry of every
//! registered interrupt decides.
//!
//! The trampoline does not handle the interrupt. It masks the interrupt at
//! the controller, which leaves it pending for the next poll, and returns
//! to the kernel; if the interrupt cut a process short, the process's
//! registers are saved first.

use vstd::prelude::*;

verus! {

/// The exception-return code for a return to a process: thread mode on the process stack.
pub const RETURN_TO_PROCESS: u32 = 0xffff_fffd;

/// The exception-return code for a return to the kernel: thread mode on the main stack.
pub const RETURN_TO_KERNEL: u32 = 0xffff_fff9;

/// The number of exceptions that come before the first interrupt.
pub const FIRST_INTERRUPT: u32 = 16;

/// The address of the first of the controller's disable registers.
pub const DISABLE_REGISTERS: u32 = 0xe000_e180;

/// What the trampoline writes to the controller to mask an interrupt.
#[derive(Clone, Copy, PartialEq, Eq, Debug, Structural)]
pub struct MaskCommand {
    /// The address of the disable register that holds the interrupt's bit.
    pub address: u32,
    /// The word to store there: the interrupt's bit alone.
    pub word: u32,
}

/// Tells whether the interrupt cut a process short, from the
/// exception-return code that the trampoline was entered with.
pub fn preempted_process(exception_return: u32) -> (preempted: bool)
    ensures
        preempted == (exception_return == RETURN_TO_PROCESS),
{
    exception_return == RETURN_TO_PROCESS
}

/// The exception-return code that the trampoline leaves with: an
/// interrupted process is not resumed, the kernel is; an interrupted
/// kernel carries on.
pub fn leave_with(exception_return: u32) -> (code: u32)
    ensures
        code == if exception_return == RETURN_TO_PROCESS {
            RETURN_TO_KERNEL
        } else {
            exception_return
        },
{
    if exception_return == RETURN_TO_PROCESS {
        RETURN_TO_KERNEL
    } else {
        exception_return
    }
}

/// The number of the exception that is being served: the low byte of the program-status word.
pub open spec fn exception_number(status: u32) -> u32 {
    status & 0xff
}

/// The number of the interrupt that is being served, from the
/// program-status word: the exception number, less the exceptions that are
/// no interrupts. The subtraction is that of the machine: for an exception
/// that is no interrupt it wraps round.
pub fn interrupt_number(status: u32) -> (irq: u32)
    ensures
        irq == if exception_number(status) >= FIRST_INTERRUPT {
            exception_number(status) - FIRST_INTERRUPT
        } else {
            exception_number(status) + 0x1_0000_0000 - FIRST_INTERRUPT
        },
{
    (status & 0xff).wrapping_sub(FIRST_INTERRUPT)
}

/// The address of the disable register that holds the bit of interrupt
/// `irq`: each register holds the bits of thirty-two interrupts. The
/// addition is that of the machine: past the end of the address space it
/// wraps round.
pub open spec fn disable_register(irq: u32) -> int {
    let address = DISABLE_REGISTERS + 4 * (irq / 32);
    if address < 0x1_0000_0000 {
        address
    } else {
        address - 0x1_0000_0000
    }
}

/// The store that masks interrupt `irq`.
pub fn mask_command(irq: u32) -> (command: MaskCommand)
    ensures
        command.address == disable_register(irq),
        command.word == 1u32 << (irq % 32),
{
    assert(irq >> 5 == irq / 32) by (bit_vector);
    assert(irq >> 5 <= 0x07ff_ffff) by (bit_vector);
    assert(irq & 31 == irq % 32) by (bit_vector);
    MaskCommand {
        address: DISABLE_REGISTERS.wrapping_add(4 * (irq >> 5)),
        word: 1u32 << (irq & 31),
    }
}

} // verus!
