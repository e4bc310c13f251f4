use kernel::syscall::{decode, dispatch, Syscall, SyscallFlag, TrapFrame, SYSCALL_WRITE};

type Log = Vec<String>;

fn frame(r0: u32, r1: u32, r2: u32) -> TrapFrame {
    TrapFrame { r0, r1, r2, r3: 0, r12: 0, lr: 0xffff_ffff, pc: 0x0800_0200, xpsr: 0x0100_0000 }
}

fn serve(flag: &mut SyscallFlag, frame: &TrapFrame, memory: &[u8]) -> (Log, Option<Syscall>) {
    dispatch(
        Vec::new(),
        flag,
        frame,
        |mut log: Log, address: u32, offset: u32| {
            log.push(format!("read {:#x}+{}", address, offset));
            (log, memory[offset as usize])
        },
        |mut log: Log, c: char| {
            log.push(format!("write {:?}", c));
            log
        },
    )
}

#[test]
fn frame_lies_in_memory_from_r0_up() {
    let frame = TrapFrame::from_words([10, 11, 12, 13, 112, 14, 15, 16]);
    assert_eq!(frame.r0, 10);
    assert_eq!(frame.r1, 11);
    assert_eq!(frame.r2, 12);
    assert_eq!(frame.r3, 13);
    assert_eq!(frame.r12, 112);
    assert_eq!(frame.lr, 14);
    assert_eq!(frame.pc, 15);
    assert_eq!(frame.xpsr, 16);
    assert_eq!(frame.to_words(), [10, 11, 12, 13, 112, 14, 15, 16]);
}

#[test]
fn frame_round_trips_through_words() {
    let frame = TrapFrame {
        r0: 1,
        r1: 0x2000_0000,
        r2: 8,
        r3: 0xffff_ffff,
        r12: 0,
        lr: 0xffff_fffd,
        pc: 0x0800_1234,
        xpsr: 0x6100_0000,
    };
    assert_eq!(TrapFrame::from_words(frame.to_words()), frame);
}

#[test]
fn write_is_service_one() {
    assert_eq!(SYSCALL_WRITE, 1);
    assert_eq!(
        decode(&frame(1, 0x2000_0010, 5)),
        Some(Syscall::Write { address: 0x2000_0010, length: 5 })
    );
    assert_eq!(decode(&frame(1, 0, 0)), Some(Syscall::Write { address: 0, length: 0 }));
}

#[test]
fn other_service_numbers_are_not_recognised() {
    assert_eq!(decode(&frame(0, 0x2000_0010, 5)), None);
    assert_eq!(decode(&frame(2, 0x2000_0010, 5)), None);
    assert_eq!(decode(&frame(u32::MAX, 0x2000_0010, 5)), None);
}

#[test]
fn flag_is_raised_and_cleared() {
    let mut flag = SyscallFlag::new();
    assert!(!flag.is_raised());
    flag.raise();
    assert!(flag.is_raised());
    flag.raise();
    assert!(flag.is_raised());
    flag.clear();
    assert!(!flag.is_raised());
    assert!(SyscallFlag { fired: 3 }.is_raised());
    assert!(!SyscallFlag { fired: 0 }.is_raised());
}

#[test]
fn write_request_sends_exactly_its_bytes_in_order() {
    let memory = b"app_main and more";
    let mut flag = SyscallFlag::new();
    flag.raise();
    let (log, served) = serve(&mut flag, &frame(1, 0x2000_0100, 8), memory);
    assert_eq!(served, Some(Syscall::Write { address: 0x2000_0100, length: 8 }));
    let written: String =
        log.iter().filter_map(|event| event.strip_prefix("write ")).collect::<Vec<&str>>().concat();
    assert_eq!(written, "'a''p''p''_''m''a''i''n'");
    assert_eq!(log.len(), 16);
    assert!(!flag.is_raised());
}

#[test]
fn each_byte_is_fetched_once_and_written_before_the_next_is_fetched() {
    let mut flag = SyscallFlag { fired: 1 };
    let (log, served) = serve(&mut flag, &frame(1, 0x20, 2), b"hi");
    assert_eq!(served, Some(Syscall::Write { address: 0x20, length: 2 }));
    assert_eq!(log, vec!["read 0x20+0", "write 'h'", "read 0x20+1", "write 'i'"]);
}

#[test]
fn bytes_go_out_as_the_characters_of_the_same_code() {
    let memory = [0u8, 0x0a, 0x7f, 0x80, 0xff];
    let mut flag = SyscallFlag { fired: 1 };
    let (written, served) = dispatch(
        Vec::new(),
        &mut flag,
        &frame(1, 0, 5),
        |seen: Vec<char>, _: u32, offset: u32| (seen, memory[offset as usize]),
        |mut seen: Vec<char>, c: char| {
            seen.push(c);
            seen
        },
    );
    assert_eq!(served, Some(Syscall::Write { address: 0, length: 5 }));
    assert_eq!(written, vec!['\0', '\n', '\u{7f}', '\u{80}', '\u{ff}']);
}

#[test]
fn write_of_no_bytes_sends_nothing() {
    let mut flag = SyscallFlag { fired: 1 };
    let (log, served) = serve(&mut flag, &frame(1, 0x2000_0000, 0), b"A");
    assert_eq!(served, Some(Syscall::Write { address: 0x2000_0000, length: 0 }));
    assert!(log.is_empty());
    assert!(!flag.is_raised());
}

#[test]
fn unknown_service_clears_the_flag_and_touches_nothing() {
    for number in [0, 2, u32::MAX] {
        let mut flag = SyscallFlag { fired: 1 };
        let (log, served) = serve(&mut flag, &frame(number, 0x2000_0000, 4), b"AAAA");
        assert_eq!(served, None);
        assert!(log.is_empty());
        assert!(!flag.is_raised());
    }
}

#[test]
fn frame_is_ignored_while_the_flag_is_clear() {
    let mut flag = SyscallFlag::new();
    let (log, served) = serve(&mut flag, &frame(1, 0x2000_0000, 4), b"AAAA");
    assert_eq!(served, None);
    assert!(log.is_empty());
    assert!(!flag.is_raised());
}

#[test]
fn the_machine_comes_back_as_it_went_in_when_nothing_is_served() {
    let mut flag = SyscallFlag::new();
    let (machine, served) = dispatch(
        7u32,
        &mut flag,
        &frame(1, 0, 4),
        |machine: u32, _: u32, _: u32| (machine + 1, 0x41),
        |machine: u32, _: char| machine + 1,
    );
    assert_eq!(served, None);
    assert_eq!(machine, 7);
}

#[test]
fn a_flag_raised_more_than_once_is_served_once() {
    let mut flag = SyscallFlag { fired: 7 };
    let request = frame(1, 0, 2);
    let (first_log, first) = serve(&mut flag, &request, b"ok");
    let (second_log, second) = serve(&mut flag, &request, b"ok");
    assert_eq!(first, Some(Syscall::Write { address: 0, length: 2 }));
    assert_eq!(second, None);
    assert_eq!(first_log, vec!["read 0x0+0", "write 'o'", "read 0x0+1", "write 'k'"]);
    assert!(second_log.is_empty());
}
