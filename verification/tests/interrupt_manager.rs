use kernel::interrupt_manager::{InterruptError, InterruptManager, IrqId, MAX_HANDLERS};
use kernel::process::ProcessId;
use kernel::process_list::{ProcessList, ProcessListItem};
use std::cell::{Cell, RefCell};

type Log = Vec<String>;
type Handler = Box<dyn Fn(Log) -> Log>;

fn item(index: usize) -> ProcessListItem {
    ProcessListItem::new(ProcessId::new(index))
}

fn drain(mut list: ProcessList) -> Vec<usize> {
    let mut out = Vec::new();
    while let Some(item) = list.pop() {
        out.push(item.process().index);
    }
    out
}

fn named(name: &'static str) -> Handler {
    Box::new(move |mut log: Log| {
        log.push(format!("handler {}", name));
        log
    })
}

fn poll(
    manager: &mut InterruptManager<Handler>,
    pending: &[IrqId],
) -> (Log, Vec<usize>) {
    let (log, released) = manager.check_pending(
        Vec::new(),
        |mut log: Log, id: IrqId| {
            log.push(format!("pending {}", id.number()));
            (log, pending.contains(&id))
        },
        |mut log: Log, id: IrqId| {
            log.push(format!("clear {}", id.number()));
            log
        },
        |mut log: Log, id: IrqId| {
            log.push(format!("enable {}", id.number()));
            log
        },
    );
    (log, drain(released))
}

#[test]
fn interrupt_numbers() {
    assert_eq!(IrqId::USART3.number(), 39);
    assert_eq!(IrqId::EXTI15_10.number(), 40);
}

#[test]
fn from_u32_knows_the_two_interrupts() {
    assert_eq!(IrqId::from_u32(39), Some(IrqId::USART3));
    assert_eq!(IrqId::from_u32(40), Some(IrqId::EXTI15_10));
    assert_eq!(IrqId::from_u32(0), None);
    assert_eq!(IrqId::from_u32(38), None);
    assert_eq!(IrqId::from_u32(41), None);
    assert_eq!(IrqId::from_u32(u32::MAX), None);
}

#[test]
fn from_u32_inverts_number() {
    for id in [IrqId::USART3, IrqId::EXTI15_10] {
        assert_eq!(IrqId::from_u32(id.number()), Some(id));
    }
}

#[test]
fn a_poll_of_an_empty_registry_makes_no_call() {
    let mut manager: InterruptManager<Handler> = InterruptManager::create();
    assert_eq!(manager.handler_count(), 0);
    assert!(!manager.has_handler(IrqId::USART3));
    let (log, released) = poll(&mut manager, &[IrqId::USART3, IrqId::EXTI15_10]);
    assert!(log.is_empty());
    assert!(released.is_empty());
}

#[test]
fn register_arms_the_interrupt_once_and_does_not_run_the_callback() {
    let mut manager: InterruptManager<Handler> = InterruptManager::create();
    let armed = RefCell::new(Vec::new());
    let ran = std::rc::Rc::new(Cell::new(0u32));
    let counter = std::rc::Rc::clone(&ran);
    let handler: Handler = Box::new(move |log: Log| {
        counter.set(counter.get() + 1);
        log
    });
    assert_eq!(manager.register(IrqId::USART3, handler, |id| armed.borrow_mut().push(id)), Ok(()));
    assert_eq!(*armed.borrow(), vec![IrqId::USART3]);
    assert_eq!(ran.get(), 0);
    assert_eq!(manager.handler_count(), 1);
    assert!(manager.has_handler(IrqId::USART3));
    assert!(!manager.has_handler(IrqId::EXTI15_10));
    let (log, released) = poll(&mut manager, &[IrqId::USART3]);
    assert_eq!(log, vec!["pending 39", "clear 39", "enable 39"]);
    assert_eq!(ran.get(), 1);
    assert!(released.is_empty());
}

#[test]
fn registering_beyond_capacity_fails_and_leaves_the_registry_intact() {
    assert_eq!(MAX_HANDLERS, 10);
    let mut manager: InterruptManager<Handler> = InterruptManager::create();
    let armed = Cell::new(0u32);
    let names = ["h0", "h1", "h2", "h3", "h4", "h5", "h6", "h7", "h8", "h9"];
    for (i, name) in names.iter().enumerate() {
        let id = if i == 0 { IrqId::USART3 } else { IrqId::EXTI15_10 };
        assert_eq!(manager.register(id, named(name), |_| armed.set(armed.get() + 1)), Ok(()));
    }
    assert_eq!(manager.handler_count(), 10);
    assert_eq!(armed.get(), 10);
    manager.push_wait(IrqId::USART3, item(1));

    let result = manager.register(IrqId::USART3, named("extra"), |_| armed.set(armed.get() + 1));
    assert_eq!(result, Err(InterruptError::CapacityExceeded));
    let again = manager.register(IrqId::EXTI15_10, named("more"), |_| armed.set(armed.get() + 1));
    assert_eq!(again, Err(InterruptError::CapacityExceeded));
    assert_eq!(armed.get(), 10);
    assert_eq!(manager.handler_count(), 10);

    let (log, released) = poll(&mut manager, &[IrqId::USART3]);
    assert_eq!(released, vec![1]);
    assert_eq!(
        log,
        vec![
            "pending 39",
            "handler h0",
            "clear 39",
            "enable 39",
            "pending 40",
            "pending 40",
            "pending 40",
            "pending 40",
            "pending 40",
            "pending 40",
            "pending 40",
            "pending 40",
            "pending 40",
        ]
    );
    manager.push_wait(IrqId::EXTI15_10, item(2));
    manager.push_wait(IrqId::USART3, item(3));
    let (_, later) = poll(&mut manager, &[IrqId::USART3, IrqId::EXTI15_10]);
    assert_eq!(later, vec![3, 2]);
}

#[test]
fn has_handler_tells_whether_a_wait_is_allowed() {
    let mut manager: InterruptManager<Handler> = InterruptManager::create();
    assert!(!manager.has_handler(IrqId::USART3));
    assert!(!manager.has_handler(IrqId::EXTI15_10));
    assert_eq!(manager.register(IrqId::EXTI15_10, named("button"), |_| ()), Ok(()));
    assert!(!manager.has_handler(IrqId::USART3));
    assert!(manager.has_handler(IrqId::EXTI15_10));
}

#[test]
fn push_wait_runs_no_handler_and_asks_no_controller() {
    let mut manager: InterruptManager<Handler> = InterruptManager::create();
    let ran = std::rc::Rc::new(Cell::new(0u32));
    let counter = std::rc::Rc::clone(&ran);
    let handler: Handler = Box::new(move |log: Log| {
        counter.set(counter.get() + 1);
        log
    });
    assert_eq!(manager.register(IrqId::USART3, handler, |_| ()), Ok(()));
    manager.push_wait(IrqId::USART3, item(4));
    manager.push_wait(IrqId::USART3, item(5));
    assert_eq!(ran.get(), 0);
    assert_eq!(manager.handler_count(), 1);
    let (_, released) = poll(&mut manager, &[]);
    assert!(released.is_empty());
    assert_eq!(ran.get(), 0);
}

#[test]
fn a_waiting_process_is_released_when_its_interrupt_fires() {
    let mut manager: InterruptManager<Handler> = InterruptManager::create();
    assert_eq!(manager.register(IrqId::USART3, named("serial"), |_| ()), Ok(()));
    manager.push_wait(IrqId::USART3, item(7));

    let (quiet_log, nobody) = poll(&mut manager, &[]);
    assert!(nobody.is_empty());
    assert_eq!(quiet_log, vec!["pending 39"]);

    let (log, released) = poll(&mut manager, &[IrqId::USART3]);
    assert_eq!(released, vec![7]);
    assert_eq!(log, vec!["pending 39", "handler serial", "clear 39", "enable 39"]);

    let (again, after) = poll(&mut manager, &[IrqId::USART3]);
    assert!(after.is_empty());
    assert_eq!(again, vec!["pending 39", "handler serial", "clear 39", "enable 39"]);
}

#[test]
fn an_interrupt_that_is_not_pending_is_left_alone() {
    let mut manager: InterruptManager<Handler> = InterruptManager::create();
    assert_eq!(manager.register(IrqId::USART3, named("serial"), |_| ()), Ok(()));
    assert_eq!(manager.register(IrqId::EXTI15_10, named("button"), |_| ()), Ok(()));
    manager.push_wait(IrqId::USART3, item(1));
    manager.push_wait(IrqId::EXTI15_10, item(2));

    let (log, released) = poll(&mut manager, &[IrqId::USART3]);
    assert_eq!(released, vec![1]);
    assert_eq!(
        log,
        vec!["pending 39", "handler serial", "clear 39", "enable 39", "pending 40"]
    );

    let (later_log, later) = poll(&mut manager, &[IrqId::EXTI15_10]);
    assert_eq!(later, vec![2]);
    assert_eq!(
        later_log,
        vec!["pending 39", "pending 40", "handler button", "clear 40", "enable 40"]
    );
}

#[test]
fn only_the_processes_of_the_interrupt_that_fired_are_released() {
    let mut manager: InterruptManager<Handler> = InterruptManager::create();
    assert_eq!(manager.register(IrqId::USART3, named("serial"), |_| ()), Ok(()));
    assert_eq!(manager.register(IrqId::EXTI15_10, named("button"), |_| ()), Ok(()));
    manager.push_wait(IrqId::USART3, item(1));
    manager.push_wait(IrqId::EXTI15_10, item(2));
    manager.push_wait(IrqId::USART3, item(3));

    let (_, first) = poll(&mut manager, &[IrqId::EXTI15_10]);
    assert_eq!(first, vec![2]);
    let (_, second) = poll(&mut manager, &[IrqId::USART3]);
    assert_eq!(second, vec![1, 3]);
}

#[test]
fn interrupts_that_fire_in_one_poll_are_served_in_registration_order() {
    let mut manager: InterruptManager<Handler> = InterruptManager::create();
    assert_eq!(manager.register(IrqId::EXTI15_10, named("button"), |_| ()), Ok(()));
    assert_eq!(manager.register(IrqId::USART3, named("serial"), |_| ()), Ok(()));
    manager.push_wait(IrqId::USART3, item(1));
    manager.push_wait(IrqId::USART3, item(2));
    manager.push_wait(IrqId::EXTI15_10, item(3));
    manager.push_wait(IrqId::EXTI15_10, item(4));
    let (log, released) = poll(&mut manager, &[IrqId::USART3, IrqId::EXTI15_10]);
    assert_eq!(released, vec![3, 4, 1, 2]);
    assert_eq!(
        log,
        vec![
            "pending 40",
            "handler button",
            "clear 40",
            "enable 40",
            "pending 39",
            "handler serial",
            "clear 39",
            "enable 39",
        ]
    );
}

#[test]
fn push_wait_goes_to_the_first_registration_of_an_interrupt() {
    let mut manager: InterruptManager<Handler> = InterruptManager::create();
    assert_eq!(manager.register(IrqId::USART3, named("first"), |_| ()), Ok(()));
    assert_eq!(manager.register(IrqId::USART3, named("second"), |_| ()), Ok(()));
    manager.push_wait(IrqId::USART3, item(5));
    let asked = Cell::new(0u32);
    let (log, released) = manager.check_pending(
        Vec::new(),
        |log: Log, _: IrqId| {
            asked.set(asked.get() + 1);
            (log, asked.get() == 2)
        },
        |log: Log, _: IrqId| log,
        |log: Log, _: IrqId| log,
    );
    assert!(drain(released).is_empty());
    assert_eq!(asked.get(), 2);
    assert_eq!(log, vec!["handler second"]);
    let (next_log, next) = poll(&mut manager, &[IrqId::USART3]);
    assert_eq!(next, vec![5]);
    assert_eq!(
        next_log,
        vec![
            "pending 39",
            "handler first",
            "clear 39",
            "enable 39",
            "pending 39",
            "handler second",
            "clear 39",
            "enable 39",
        ]
    );
}
