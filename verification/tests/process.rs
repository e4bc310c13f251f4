use kernel::process::{
    Context, Process, ProcessId, ProcessTable, SavedRegisters, StackRegion, FRAME_BYTES,
    FRAME_WORDS,
};

fn registers(seed: u32) -> SavedRegisters {
    SavedRegisters {
        r4: seed,
        r5: seed + 1,
        r6: seed + 2,
        r7: seed + 3,
        r8: seed + 4,
        r9: seed + 5,
        r10: seed + 6,
        r11: seed + 7,
    }
}

#[test]
fn a_trap_frame_is_eight_words() {
    assert_eq!(FRAME_WORDS, 8);
    assert_eq!(FRAME_BYTES, 32);
}

#[test]
fn zeroed_registers() {
    let regs = SavedRegisters::new();
    assert_eq!(regs.to_words(), [0u32; 8]);
}

#[test]
fn saved_registers_lie_in_memory_from_r4_up() {
    let regs = registers(4);
    assert_eq!(regs.to_words(), [4, 5, 6, 7, 8, 9, 10, 11]);
    let back = SavedRegisters::from_words([40, 50, 60, 70, 80, 90, 100, 110]);
    assert_eq!(back.r4, 40);
    assert_eq!(back.r5, 50);
    assert_eq!(back.r6, 60);
    assert_eq!(back.r7, 70);
    assert_eq!(back.r8, 80);
    assert_eq!(back.r9, 90);
    assert_eq!(back.r10, 100);
    assert_eq!(back.r11, 110);
}

#[test]
fn saved_registers_round_trip_through_words() {
    let regs = registers(0xdead_0000);
    assert_eq!(SavedRegisters::from_words(regs.to_words()), regs);
    let words = [1, 0, 0xffff_ffff, 3, 4, 5, 6, 0x8000_0000];
    assert_eq!(SavedRegisters::from_words(words).to_words(), words);
}

#[test]
fn stack_region_holds_a_frame_only_inside() {
    let region = StackRegion::new(0x2000_0000, 1024);
    assert_eq!(region.base, 0x2000_0000);
    assert_eq!(region.size, 1024);
    assert!(region.contains_frame(0x2000_0000));
    assert!(region.contains_frame(0x2000_03e0));
    assert!(!region.contains_frame(0x2000_03e1));
    assert!(!region.contains_frame(0x2000_0400));
    assert!(!region.contains_frame(0x1fff_ffff));
    assert!(!region.contains_frame(0xffff_fff0));
}

#[test]
fn stack_region_smaller_than_a_frame_holds_none() {
    let region = StackRegion::new(0x100, 31);
    assert!(!region.contains_frame(0x100));
    let exact = StackRegion::new(0x100, 32);
    assert!(exact.contains_frame(0x100));
    assert!(!exact.contains_frame(0x101));
}

#[test]
fn new_process_starts_on_top_of_its_stack() {
    let region = StackRegion::new(0x2000_0000, 1024);
    let process = Process::new(0x0800_0101, region).unwrap();
    assert_eq!(process.stack_pointer(), 0x2000_03e0);
    assert_eq!(process.saved_registers(), SavedRegisters::new());
    assert_eq!(process.entry_point(), 0x0800_0101);
    assert_eq!(process.stack_region(), region);
    assert!(process.has_valid_frame());
    assert_eq!(
        process.context(),
        Context { stack_pointer: 0x2000_03e0, saved_registers: SavedRegisters::new() }
    );
}

#[test]
fn new_process_needs_room_for_a_frame() {
    assert!(Process::new(0, StackRegion::new(0x2000_0000, 31)).is_none());
    assert!(Process::new(0, StackRegion::new(0x2000_0000, 0)).is_none());
    let smallest = Process::new(0, StackRegion::new(0x2000_0000, 32)).unwrap();
    assert_eq!(smallest.stack_pointer(), 0x2000_0000);
}

#[test]
fn new_process_needs_a_stack_inside_the_address_space() {
    assert!(Process::new(0, StackRegion::new(0xffff_ff00, 0x101)).is_none());
    assert!(Process::new(0, StackRegion::new(0xffff_ffff, 0xffff_ffff)).is_none());
    let last = Process::new(0, StackRegion::new(0xffff_ff00, 0x100)).unwrap();
    assert_eq!(last.stack_pointer(), 0xffff_ffe0);
    assert!(last.has_valid_frame());
}

#[test]
fn saved_context_is_loaded_back_bit_for_bit() {
    let region = StackRegion::new(0x2000_0000, 1024);
    let mut process = Process::new(0x0800_0101, region).unwrap();
    let context = Context { stack_pointer: 0x2000_0200, saved_registers: registers(0xa5a5_0000) };
    process.save_context(context);
    assert_eq!(process.context(), context);
    assert_eq!(process.stack_pointer(), 0x2000_0200);
    assert_eq!(process.saved_registers(), registers(0xa5a5_0000));
    assert_eq!(process.entry_point(), 0x0800_0101);
    assert_eq!(process.stack_region(), region);
    assert!(process.has_valid_frame());
}

#[test]
fn saving_its_own_context_leaves_a_process_unchanged() {
    let mut process = Process::new(0x0800_0101, StackRegion::new(0x2000_0000, 1024)).unwrap();
    process.save_context(Context { stack_pointer: 0x2000_0100, saved_registers: registers(1) });
    let before = process;
    process.save_context(before.context());
    assert_eq!(process, before);
}

#[test]
fn a_stack_pointer_outside_the_stack_is_stored_and_told() {
    let mut process = Process::new(0x0800_0101, StackRegion::new(0x2000_0000, 1024)).unwrap();
    process.save_context(Context { stack_pointer: 0x2000_03f0, saved_registers: registers(0) });
    assert_eq!(process.stack_pointer(), 0x2000_03f0);
    assert!(!process.has_valid_frame());
    process.save_context(Context { stack_pointer: 0x1000_0000, saved_registers: registers(0) });
    assert!(!process.has_valid_frame());
}

#[test]
fn table_hands_out_slots_in_order() {
    let mut table = ProcessTable::new();
    assert_eq!(table.len(), 0);
    let a = Process::new(0x100, StackRegion::new(0x2000_0000, 256)).unwrap();
    let b = Process::new(0x200, StackRegion::new(0x2000_0100, 256)).unwrap();
    assert_eq!(table.spawn(a), ProcessId::new(0));
    assert_eq!(table.spawn(b), ProcessId::new(1));
    assert_eq!(table.len(), 2);
    assert_eq!(table.get(ProcessId::new(0)), Some(a));
    assert_eq!(table.get(ProcessId::new(1)), Some(b));
    assert_eq!(table.get(ProcessId::new(2)), None);
}

#[test]
fn table_stores_a_context_in_the_named_slot_only() {
    let mut table = ProcessTable::new();
    let a = Process::new(0x100, StackRegion::new(0x2000_0000, 256)).unwrap();
    let b = Process::new(0x200, StackRegion::new(0x2000_0100, 256)).unwrap();
    table.spawn(a);
    table.spawn(b);
    let context = Context { stack_pointer: 0x2000_0180, saved_registers: registers(8) };
    assert!(table.save_context(ProcessId::new(1), context));
    assert_eq!(table.get(ProcessId::new(0)), Some(a));
    let stored = table.get(ProcessId::new(1)).unwrap();
    assert_eq!(stored.context(), context);
    assert_eq!(stored.entry_point(), 0x200);
    assert_eq!(stored.stack_region(), StackRegion::new(0x2000_0100, 256));
}

#[test]
fn table_refuses_a_context_for_a_missing_slot() {
    let mut table = ProcessTable::new();
    let a = Process::new(0x100, StackRegion::new(0x2000_0000, 256)).unwrap();
    table.spawn(a);
    let context = Context { stack_pointer: 0x2000_0080, saved_registers: registers(8) };
    assert!(!table.save_context(ProcessId::new(1), context));
    assert_eq!(table.len(), 1);
    assert_eq!(table.get(ProcessId::new(0)), Some(a));
}
