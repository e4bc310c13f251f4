//! Processes and the table that owns them.

use vstd::prelude::*;

verus! {

/// Number of machine words that exception entry pushes onto a process stack.
pub const FRAME_WORDS: usize = 8;

/// Size in bytes of the hardware-saved block of a trap frame.
pub const FRAME_BYTES: u32 = 32;

/// The registers that exception entry does not save: r4 to r11.
#[derive(Clone, Copy, PartialEq, Eq, Debug, Structural)]
pub struct SavedRegisters {
    pub r4: u32,
    pub r5: u32,
    pub r6: u32,
    pub r7: u32,
    pub r8: u32,
    pub r9: u32,
    pub r10: u32,
    pub r11: u32,
}

impl SavedRegisters {
    /// The snapshot in which every register is zero.
    pub open spec fn zeroed() -> SavedRegisters {
        SavedRegisters { r4: 0, r5: 0, r6: 0, r7: 0, r8: 0, r9: 0, r10: 0, r11: 0 }
    }

    /// The register values as they lie in memory, r4 first.
    pub open spec fn words(self) -> Seq<u32> {
        seq![self.r4, self.r5, self.r6, self.r7, self.r8, self.r9, self.r10, self.r11]
    }

    /// A snapshot is determined by its eight words.
    pub proof fn lemma_words_determine(a: SavedRegisters, b: SavedRegisters)
        requires
            a.words() == b.words(),
        ensures
            a == b,
    {
        assert(a.words()[0] == b.words()[0]);
        assert(a.words()[1] == b.words()[1]);
        assert(a.words()[2] == b.words()[2]);
        assert(a.words()[3] == b.words()[3]);
        assert(a.words()[4] == b.words()[4]);
        assert(a.words()[5] == b.words()[5]);
        assert(a.words()[6] == b.words()[6]);
        assert(a.words()[7] == b.words()[7]);
    }

    /// A snapshot with every register zero.
    pub fn new() -> (regs: SavedRegisters)
        ensures
            regs == SavedRegisters::zeroed(),
    {
        SavedRegisters { r4: 0, r5: 0, r6: 0, r7: 0, r8: 0, r9: 0, r10: 0, r11: 0 }
    }

    /// Reads a snapshot from the eight words of a save area, r4 first.
    pub fn from_words(words: [u32; 8]) -> (regs: SavedRegisters)
        ensures
            regs.words() == words@,
    {
        let regs = SavedRegisters {
            r4: words[0],
            r5: words[1],
            r6: words[2],
            r7: words[3],
            r8: words[4],
            r9: words[5],
            r10: words[6],
            r11: words[7],
        };
        assert(regs.words() =~= words@);
        regs
    }

    /// The eight words of the snapshot in save-area order, r4 first.
    pub fn to_words(&self) -> (words: [u32; 8])
        ensures
            words@ == self.words(),
    {
        let words = [self.r4, self.r5, self.r6, self.r7, self.r8, self.r9, self.r10, self.r11];
        assert(words@ =~= self.words());
        words
    }
}

/// What the context switch loads before a process runs and stores after it traps.
#[derive(Clone, Copy, PartialEq, Eq, Debug, Structural)]
pub struct Context {
    /// The process stack pointer: the address of the process's trap frame.
    pub stack_pointer: u32,
    /// The registers that exception entry leaves to software.
    pub saved_registers: SavedRegisters,
}

/// The memory reserved for one process's stack: `size` bytes from `base` up.
#[derive(Clone, Copy, PartialEq, Eq, Debug, Structural)]
pub struct StackRegion {
    pub base: u32,
    pub size: u32,
}

impl StackRegion {
    /// The address one past the last byte of the region.
    pub open spec fn end(self) -> int {
        self.base + self.size
    }

    /// Whether the eight words of a trap frame starting at `sp` lie inside the region.
    pub open spec fn holds_frame_at(self, sp: u32) -> bool {
        self.base <= sp && sp + FRAME_BYTES <= self.end()
    }

    /// Whether the region lies in the 32-bit address space and has room for a trap frame.
    pub open spec fn can_hold_frame(self) -> bool {
        FRAME_BYTES <= self.size && self.end() <= u32::MAX + 1
    }

    /// The address of the trap frame that occupies the top of the region.
    pub open spec fn top_frame(self) -> int {
        self.end() - FRAME_BYTES
    }

    /// The region of `size` bytes that starts at `base`.
    pub fn new(base: u32, size: u32) -> (region: StackRegion)
        ensures
            region.base == base,
            region.size == size,
    {
        StackRegion { base, size }
    }

    /// Tells whether a trap frame at `sp` lies wholly inside the region.
    pub fn contains_frame(&self, sp: u32) -> (inside: bool)
        ensures
            inside == self.holds_frame_at(sp),
    {
        self.base <= sp && sp as u64 + FRAME_BYTES as u64 <= self.base as u64 + self.size as u64
    }
}

/// A saved execution context: a stack, a register snapshot, and a stack
/// pointer into the stack.
///
/// While the process is not running, its stack pointer is the address of
/// the trap frame that the process left on its own stack when it last
/// trapped. [`Process::well_formed`] says that this frame lies inside the
/// stack.
#[derive(Clone, Copy, PartialEq, Eq, Debug, Structural)]
pub struct Process {
    stack_pointer: u32,
    saved_registers: SavedRegisters,
    entry_point: u32,
    stack_region: StackRegion,
}

impl Process {
    /// The saved stack pointer.
    pub closed spec fn spec_stack_pointer(&self) -> u32 {
        self.stack_pointer
    }

    /// The saved snapshot of r4 to r11.
    pub closed spec fn spec_saved_registers(&self) -> SavedRegisters {
        self.saved_registers
    }

    /// The address at which the process begins executing.
    pub closed spec fn spec_entry_point(&self) -> u32 {
        self.entry_point
    }

    /// The memory reserved for the process's stack.
    pub closed spec fn spec_stack_region(&self) -> StackRegion {
        self.stack_region
    }

    /// The process whose four attributes are the given values.
    pub closed spec fn from_parts(
        stack_pointer: u32,
        saved_registers: SavedRegisters,
        entry_point: u32,
        stack_region: StackRegion,
    ) -> Process {
        Process { stack_pointer, saved_registers, entry_point, stack_region }
    }

    /// The saved stack pointer addresses a whole trap frame inside the process's own stack.
    pub open spec fn well_formed(&self) -> bool {
        self.stack_region().holds_frame_at(self.stack_pointer())
    }

    /// The context that a switch into the process loads.
    pub open spec fn spec_context(&self) -> Context {
        Context { stack_pointer: self.stack_pointer(), saved_registers: self.saved_registers() }
    }

    /// The process with the same entry point and stack as `self` and the given saved context.
    pub open spec fn with_context(&self, context: Context) -> Process {
        Process::from_parts(
            context.stack_pointer,
            context.saved_registers,
            self.entry_point(),
            self.stack_region(),
        )
    }

    /// The attributes of a process built from parts are those parts.
    pub proof fn lemma_from_parts(
        stack_pointer: u32,
        saved_registers: SavedRegisters,
        entry_point: u32,
        stack_region: StackRegion,
    )
        ensures
            ({
                let p = Process::from_parts(
                    stack_pointer,
                    saved_registers,
                    entry_point,
                    stack_region,
                );
                &&& p.stack_pointer() == stack_pointer
                &&& p.saved_registers() == saved_registers
                &&& p.entry_point() == entry_point
                &&& p.stack_region() == stack_region
            }),
    {
    }

    /// Round trip of a context through a process: what is stored is what is
    /// loaded, bit for bit; storing leaves the entry point and the stack
    /// alone; and a process that gets its own context back is unchanged.
    pub proof fn lemma_context_round_trip(process: Process, context: Context)
        ensures
            process.with_context(context).context() == context,
            process.with_context(context).entry_point() == process.entry_point(),
            process.with_context(context).stack_region() == process.stack_region(),
            process.with_context(process.context()) == process,
    {
    }

    /// Creates the process that starts at `entry_point` on the given stack.
    ///
    /// The new process has zeroed registers and its stack pointer at the
    /// frame on top of the stack. A region too small for a trap frame, or
    /// one that runs past the end of the address space, yields `None`.
    pub fn new(entry_point: u32, stack_region: StackRegion) -> (created: Option<Process>)
        ensures
            created is Some <==> stack_region.can_hold_frame(),
            created matches Some(p) ==> p == Process::from_parts(
                stack_region.top_frame() as u32,
                SavedRegisters::zeroed(),
                entry_point,
                stack_region,
            ),
            created matches Some(p) ==> p.well_formed(),
    {
        let end: u64 = stack_region.base as u64 + stack_region.size as u64;
        if stack_region.size < FRAME_BYTES || end > u32::MAX as u64 + 1 {
            return None;
        }
        let top: u64 = end - FRAME_BYTES as u64;
        Some(
            Process {
                stack_pointer: top as u32,
                saved_registers: SavedRegisters::new(),
                entry_point,
                stack_region,
            },
        )
    }

    /// The saved stack pointer.
    #[verifier::when_used_as_spec(spec_stack_pointer)]
    pub fn stack_pointer(&self) -> (sp: u32)
        ensures
            sp == self.stack_pointer(),
    {
        self.stack_pointer
    }

    /// The saved snapshot of r4 to r11.
    #[verifier::when_used_as_spec(spec_saved_registers)]
    pub fn saved_registers(&self) -> (regs: SavedRegisters)
        ensures
            regs == self.saved_registers(),
    {
        self.saved_registers
    }

    /// The address at which the process begins executing.
    #[verifier::when_used_as_spec(spec_entry_point)]
    pub fn entry_point(&self) -> (entry: u32)
        ensures
            entry == self.entry_point(),
    {
        self.entry_point
    }

    /// The memory reserved for the process's stack.
    #[verifier::when_used_as_spec(spec_stack_region)]
    pub fn stack_region(&self) -> (region: StackRegion)
        ensures
            region == self.stack_region(),
    {
        self.stack_region
    }

    /// Tells whether the saved stack pointer addresses a frame inside the process's stack.
    pub fn has_valid_frame(&self) -> (valid: bool)
        ensures
            valid == self.well_formed(),
    {
        self.stack_region.contains_frame(self.stack_pointer)
    }

    /// The saved context: what a switch into the process loads.
    #[verifier::when_used_as_spec(spec_context)]
    pub fn context(&self) -> (context: Context)
        ensures
            context == self.context(),
    {
        Context { stack_pointer: self.stack_pointer, saved_registers: self.saved_registers }
    }

    /// Stores the context that the process left when it trapped.
    ///
    /// The stack pointer is stored as it is given; the process stays well
    /// formed exactly if the pointer addresses a frame inside its stack.
    pub fn save_context(&mut self, context: Context)
        ensures
            *final(self) == old(self).with_context(context),
            final(self).well_formed() == old(self).stack_region().holds_frame_at(
                context.stack_pointer,
            ),
    {
        self.stack_pointer = context.stack_pointer;
        self.saved_registers = context.saved_registers;
    }
}

/// The stable index of a process in the [`ProcessTable`].
#[derive(Clone, Copy, PartialEq, Eq, Debug, Structural)]
pub struct ProcessId {
    pub index: usize,
}

impl ProcessId {
    /// The identifier of the slot at `index`.
    pub fn new(index: usize) -> (id: ProcessId)
        ensures
            id.index == index,
    {
        ProcessId { index }
    }
}

/// The arena that owns every process for the lifetime of the system.
///
/// Processes are added once and never removed, so an identifier handed out
/// by [`ProcessTable::spawn`] stays valid.
pub struct ProcessTable {
    slots: Vec<Process>,
}

impl View for ProcessTable {
    type V = Seq<Process>;

    closed spec fn view(&self) -> Seq<Process> {
        self.slots@
    }
}

impl ProcessTable {
    /// Whether `id` names a process of this table.
    pub open spec fn has(&self, id: ProcessId) -> bool {
        id.index < self@.len()
    }

    /// A switch out of a process and back that changes nothing on the way
    /// leaves the whole table as it was.
    pub proof fn lemma_idle_switch(processes: Seq<Process>, slot: int)
        requires
            0 <= slot < processes.len(),
        ensures
            processes.update(slot, processes[slot].with_context(processes[slot].context()))
                == processes,
    {
        Process::lemma_context_round_trip(processes[slot], processes[slot].context());
        assert(processes.update(slot, processes[slot].with_context(processes[slot].context()))
            =~= processes);
    }

    /// The table without any process.
    pub fn new() -> (table: ProcessTable)
        ensures
            table@ == Seq::<Process>::empty(),
    {
        ProcessTable { slots: Vec::new() }
    }

    /// The number of processes in the table.
    pub fn len(&self) -> (n: usize)
        ensures
            n == self@.len(),
    {
        self.slots.len()
    }

    /// Adds a process and returns the identifier of its slot.
    pub fn spawn(&mut self, process: Process) -> (id: ProcessId)
        ensures
            final(self)@ == old(self)@.push(process),
            id.index == old(self)@.len(),
    {
        let index = self.slots.len();
        self.slots.push(process);
        ProcessId { index }
    }

    /// The process in slot `id`, if the table has one.
    pub fn get(&self, id: ProcessId) -> (found: Option<Process>)
        ensures
            found == if self.has(id) { Some(self@[id.index as int]) } else { None },
    {
        if id.index < self.slots.len() {
            Some(self.slots[id.index])
        } else {
            None
        }
    }

    /// Stores a trapped context into the process in slot `id`.
    ///
    /// Returns whether the table has such a process; if not, nothing changes.
    pub fn save_context(&mut self, id: ProcessId, context: Context) -> (saved: bool)
        ensures
            saved == old(self).has(id),
            final(self)@ == if old(self).has(id) {
                old(self)@.update(
                    id.index as int,
                    old(self)@[id.index as int].with_context(context),
                )
            } else {
                old(self)@
            },
    {
        if id.index < self.slots.len() {
            let mut process = self.slots[id.index];
            process.save_context(context);
            self.slots[id.index] = process;
            true
        } else {
            false
        }
    }
}

} // verus!
