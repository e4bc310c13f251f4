//! The kernel proper: the process table, the scheduler and the interrupt
//! manager under one roof, with the rule that ties them together: a process
//! stands in at most one list at a time.

use crate::interrupt_manager::{
    drained, first_for, is_registered, lemma_fired_releases, lemma_released_waited, released_by,
    with_waiter, InterruptError, InterruptManager, IrqId, Registration, MAX_HANDLERS,
};
use crate::process::{Context, Process, ProcessId, ProcessTable};
use crate::process_list::ProcessListItem;
use crate::scheduler::simple_scheduler::SimpleScheduler;
use crate::scheduler::{rotate, switched, ExecResult, Scheduler};
use vstd::multiset::Multiset;
use vstd::prelude::*;

verus! {

/// The empty list holds nobody.
proof fn lemma_nobody()
    ensures
        Seq::<ProcessListItem>::empty().to_multiset() == Multiset::<ProcessListItem>::empty(),
{
    vstd::seq_lib::to_multiset_len(Seq::<ProcessListItem>::empty());
    vstd::multiset::lemma_multiset_empty_len(Seq::<ProcessListItem>::empty().to_multiset());
}

/// A list is its head and the rest.
proof fn lemma_head_and_rest(list: Seq<ProcessListItem>)
    requires
        list.len() > 0,
    ensures
        list.to_multiset() == list.drop_first().to_multiset().insert(list[0]),
{
    broadcast use vstd::multiset::group_multiset_axioms;

    let head = Seq::<ProcessListItem>::empty().push(list[0]);
    lemma_nobody();
    vstd::seq_lib::to_multiset_build(Seq::<ProcessListItem>::empty(), list[0]);
    vstd::seq_lib::lemma_multiset_commutative(head, list.drop_first());
    assert(head + list.drop_first() =~= list);
    assert(list.to_multiset() =~= list.drop_first().to_multiset().insert(list[0]));
}

/// Rotation moves the head of a list to its tail and keeps every item.
proof fn lemma_rotate_keeps_items(list: Seq<ProcessListItem>)
    ensures
        rotate(list).to_multiset() == list.to_multiset(),
{
    if list.len() > 0 {
        lemma_head_and_rest(list);
        vstd::seq_lib::to_multiset_build(list.drop_first(), list[0]);
    }
}

/// The processes that wait for some interrupt, each as often as it occurs.
pub open spec fn blocked(registrations: Seq<Registration>) -> Multiset<ProcessListItem>
    decreases registrations.len(),
{
    if registrations.len() == 0 {
        Multiset::empty()
    } else {
        blocked(registrations.drop_last()).add(registrations.last().waiting.to_multiset())
    }
}

/// A process that is made to wait for an interrupt joins the blocked processes.
proof fn lemma_blocked_after_wait(registrations: Seq<Registration>, i: int, item: ProcessListItem)
    requires
        0 <= i < registrations.len(),
    ensures
        blocked(with_waiter(registrations, i, item)) == blocked(registrations).insert(item),
    decreases registrations.len(),
{
    broadcast use vstd::multiset::group_multiset_axioms;

    let changed = Registration {
        id: registrations[i].id,
        waiting: registrations[i].waiting.push(item),
    };
    let after = with_waiter(registrations, i, item);
    if i == registrations.len() - 1 {
        assert(after.drop_last() =~= registrations.drop_last());
        vstd::seq_lib::to_multiset_build(registrations[i].waiting, item);
        assert(blocked(after) =~= blocked(registrations).insert(item));
    } else {
        lemma_blocked_after_wait(registrations.drop_last(), i, item);
        assert(after.drop_last() =~= with_waiter(registrations.drop_last(), i, item));
        assert(blocked(after) =~= blocked(registrations).insert(item));
    }
}

/// A poll moves processes and loses none: those that waited for an
/// interrupt are, after the poll, either released or still waiting.
pub proof fn lemma_blocked_after_poll(registrations: Seq<Registration>, fired: Seq<bool>)
    requires
        fired.len() == registrations.len(),
    ensures
        blocked(registrations) == released_by(registrations, fired).to_multiset().add(
            blocked(drained(registrations, fired)),
        ),
    decreases registrations.len(),
{
    broadcast use vstd::multiset::group_multiset_axioms;

    if registrations.len() == 0 {
        assert(drained(registrations, fired) =~= registrations);
        lemma_nobody();
        assert(blocked(registrations) =~= released_by(registrations, fired).to_multiset().add(
            blocked(drained(registrations, fired)),
        ));
    } else {
        let earlier = registrations.drop_last();
        let earlier_fired = fired.drop_last();
        lemma_blocked_after_poll(earlier, earlier_fired);
        assert(drained(registrations, fired).drop_last() =~= drained(earlier, earlier_fired));
        let last = registrations.last();
        let tail = if fired[registrations.len() - 1] {
            last.waiting
        } else {
            Seq::empty()
        };
        vstd::seq_lib::lemma_multiset_commutative(released_by(earlier, earlier_fired), tail);
        lemma_nobody();
        assert(blocked(registrations) =~= released_by(registrations, fired).to_multiset().add(
            blocked(drained(registrations, fired)),
        ));
    }
}

/// A new registration blocks nobody.
proof fn lemma_blocked_after_register(registrations: Seq<Registration>, id: IrqId)
    ensures
        blocked(registrations.push(Registration::idle(id))) == blocked(registrations),
{
    broadcast use vstd::multiset::group_multiset_axioms;

    let added = registrations.push(Registration::idle(id));
    assert(added.drop_last() =~= registrations);
    lemma_nobody();
    assert(blocked(added) =~= blocked(registrations));
}

/// The blocked processes count every process that waits in a registration.
proof fn lemma_blocked_counts(registrations: Seq<Registration>, i: int, item: ProcessListItem)
    requires
        0 <= i < registrations.len(),
    ensures
        blocked(registrations).count(item) >= registrations[i].waiting.to_multiset().count(item),
    decreases registrations.len(),
{
    broadcast use vstd::multiset::group_multiset_axioms;

    if i < registrations.len() - 1 {
        lemma_blocked_counts(registrations.drop_last(), i, item);
    }
}

/// A process that waits in two registrations is counted twice among the blocked.
proof fn lemma_blocked_counts_both(
    registrations: Seq<Registration>,
    i: int,
    j: int,
    item: ProcessListItem,
)
    requires
        0 <= i < j < registrations.len(),
    ensures
        blocked(registrations).count(item) >= registrations[i].waiting.to_multiset().count(item)
            + registrations[j].waiting.to_multiset().count(item),
    decreases registrations.len(),
{
    broadcast use vstd::multiset::group_multiset_axioms;

    if j < registrations.len() - 1 {
        lemma_blocked_counts_both(registrations.drop_last(), i, j, item);
    } else {
        lemma_blocked_counts(registrations.drop_last(), i, item);
    }
}

/// The kernel's state: every process, and the lists in which the processes stand.
pub struct Kernel<H> {
    processes: ProcessTable,
    scheduler: SimpleScheduler,
    interrupts: InterruptManager<H>,
}

impl<H> Kernel<H> {
    /// Every process of the system, by identifier.
    pub closed spec fn processes(&self) -> Seq<Process> {
        self.processes@
    }

    /// The ready list, the current process first.
    pub closed spec fn active(&self) -> Seq<ProcessListItem> {
        self.scheduler.active()
    }

    /// The processes suspended until the next general wake-up.
    pub closed spec fn waiting(&self) -> Seq<ProcessListItem> {
        self.scheduler.waiting()
    }

    /// The interrupt registrations, each with the processes that wait for it.
    pub closed spec fn registrations(&self) -> Seq<Registration> {
        self.interrupts.registrations()
    }

    /// The callback of registration `i`.
    pub closed spec fn handler(&self, i: int) -> H {
        self.interrupts.handler(i)
    }

    /// Every process that stands in some list, as often as it occurs.
    pub open spec fn population(&self) -> Multiset<ProcessListItem> {
        self.active().to_multiset().add(self.waiting().to_multiset()).add(
            blocked(self.registrations()),
        )
    }

    /// The kernel's invariant.
    ///
    /// The registry is within its capacity; no process stands in two lists,
    /// or twice in one; and every item in a list stands for a process of
    /// the table.
    pub open spec fn well_formed(&self) -> bool {
        &&& self.registrations().len() <= MAX_HANDLERS
        &&& forall|item: ProcessListItem| #[trigger] self.population().count(item) <= 1
        &&& forall|item: ProcessListItem| #[trigger]
            self.population().count(item) > 0 ==> item.process.index < self.processes().len()
    }

    /// Whether `self` has the callbacks of `before`, each in its place.
    pub open spec fn same_handlers(&self, before: &Kernel<H>) -> bool {
        forall|i: int|
            0 <= i < before.registrations().len() ==> self.handler(i) == #[trigger] before.handler(
                i,
            )
    }

    /// Which calls a poll may make, and when; see
    /// [`InterruptManager::poll_licensed`].
    pub open spec fn poll_licensed<M, P, C, E>(
        &self,
        is_pending: P,
        clear_pending: C,
        enable: E,
    ) -> bool where
        H: Fn(M) -> M,
        P: Fn(M, IrqId) -> (M, bool),
        C: Fn(M, IrqId) -> M,
        E: Fn(M, IrqId) -> M,
     {
        &&& forall|state: M, i: int|
            0 <= i < self.registrations().len() ==> #[trigger] call_requires(
                is_pending,
                (state, self.registrations()[i].id),
            )
        &&& forall|before: M, after: M, i: int|
            0 <= i < self.registrations().len() && #[trigger] call_ensures(
                is_pending,
                (before, self.registrations()[i].id),
                (after, true),
            ) ==> call_requires(self.handler(i), (after,))
        &&& forall|before: M, after: M, i: int|
            0 <= i < self.registrations().len() && #[trigger] call_ensures(
                self.handler(i),
                (before,),
                after,
            ) ==> call_requires(clear_pending, (after, self.registrations()[i].id))
        &&& forall|before: M, after: M, id: IrqId| #[trigger]
            call_ensures(clear_pending, (before, id), after) ==> call_requires(enable, (after, id))
    }

    /// Whether a poll did its work on registration `i`, and nothing more;
    /// see [`InterruptManager::served`].
    pub open spec fn served<M, P, C, E>(
        &self,
        is_pending: P,
        clear_pending: C,
        enable: E,
        fired: Seq<bool>,
        states: Seq<M>,
        i: int,
    ) -> bool where
        H: Fn(M) -> M,
        P: Fn(M, IrqId) -> (M, bool),
        C: Fn(M, IrqId) -> M,
        E: Fn(M, IrqId) -> M,
     {
        let id = self.registrations()[i].id;
        &&& call_ensures(is_pending, (states[4 * i], id), (states[4 * i + 1], fired[i]))
        &&& fired[i] ==> call_ensures(self.handler(i), (states[4 * i + 1],), states[4 * i + 2])
        &&& fired[i] ==> call_ensures(clear_pending, (states[4 * i + 2], id), states[4 * i + 3])
        &&& fired[i] ==> call_ensures(enable, (states[4 * i + 3], id), states[4 * i + 4])
        &&& !fired[i] ==> states[4 * i + 2] == states[4 * i + 1]
        &&& !fired[i] ==> states[4 * i + 3] == states[4 * i + 1]
        &&& !fired[i] ==> states[4 * i + 4] == states[4 * i + 1]
    }

    /// Whether `fired` and `states` record a poll of the registry: the
    /// registrations were served one after the other in their order, and
    /// `states` is the course of the machine through the poll.
    pub open spec fn polled<M, P, C, E>(
        &self,
        is_pending: P,
        clear_pending: C,
        enable: E,
        fired: Seq<bool>,
        states: Seq<M>,
    ) -> bool where
        H: Fn(M) -> M,
        P: Fn(M, IrqId) -> (M, bool),
        C: Fn(M, IrqId) -> M,
        E: Fn(M, IrqId) -> M,
     {
        &&& fired.len() == self.registrations().len()
        &&& states.len() == 4 * self.registrations().len() + 1
        &&& forall|i: int|
            0 <= i < fired.len() ==> #[trigger] self.served(
                is_pending,
                clear_pending,
                enable,
                fired,
                states,
                i,
            )
    }

    /// Whether a poll in which the interrupts `fired` took the machine from
    /// `before` to `after`: some course of the machine through the poll
    /// begins with the one and ends with the other.
    pub open spec fn polled_between<M, P, C, E>(
        &self,
        is_pending: P,
        clear_pending: C,
        enable: E,
        fired: Seq<bool>,
        before: M,
        after: M,
    ) -> bool where
        H: Fn(M) -> M,
        P: Fn(M, IrqId) -> (M, bool),
        C: Fn(M, IrqId) -> M,
        E: Fn(M, IrqId) -> M,
     {
        exists|states: Seq<M>| #[trigger]
            self.polled(is_pending, clear_pending, enable, fired, states) && states[0] == before
                && states.last() == after
    }

    /// The kernel with no process and no registration.
    pub fn new() -> (kernel: Kernel<H>)
        ensures
            kernel.well_formed(),
            kernel.processes() == Seq::<Process>::empty(),
            kernel.active() == Seq::<ProcessListItem>::empty(),
            kernel.waiting() == Seq::<ProcessListItem>::empty(),
            kernel.registrations() == Seq::<Registration>::empty(),
    {
        let kernel = Kernel {
            processes: ProcessTable::new(),
            scheduler: SimpleScheduler::create(),
            interrupts: InterruptManager::create(),
        };
        proof {
            broadcast use vstd::multiset::group_multiset_axioms;

            lemma_nobody();
        }
        kernel
    }

    /// Adds `process` to the table and makes it ready, behind the processes already ready.
    pub fn spawn(&mut self, process: Process) -> (id: ProcessId)
        requires
            old(self).well_formed(),
        ensures
            final(self).well_formed(),
            id.index == old(self).processes().len(),
            final(self).processes() == old(self).processes().push(process),
            final(self).active() == old(self).active().push(ProcessListItem::of(id)),
            final(self).waiting() == old(self).waiting(),
            final(self).registrations() == old(self).registrations(),
            final(self).same_handlers(old(self)),
    {
        let id = self.processes.spawn(process);
        let item = ProcessListItem::new(id);
        self.scheduler.push(item);
        proof {
            broadcast use vstd::multiset::group_multiset_axioms;

            vstd::seq_lib::to_multiset_build(old(self).active(), item);
            assert(self.population() =~= old(self).population().insert(item));
            assert(old(self).population().count(item) == 0);
            assert forall|other: ProcessListItem| #[trigger]
                self.population().count(other) <= 1 by {
                assert(old(self).population().count(other) <= 1);
            }
            assert forall|other: ProcessListItem| #[trigger]
                self.population().count(other) > 0 implies other.process.index
                < self.processes().len() by {
                if other != item {
                    assert(old(self).population().count(other) > 0);
                }
            }
        }
        id
    }

    /// Registers `func` as the handler of interrupt `id`; see
    /// [`InterruptManager::register`]. On a full registry `arm` is not
    /// called; the callback is stored, not run.
    pub fn register<A: FnOnce(IrqId)>(&mut self, id: IrqId, func: H, arm: A) -> (result: Result<
        (),
        InterruptError,
    >)
        requires
            old(self).well_formed(),
            old(self).registrations().len() < MAX_HANDLERS ==> call_requires(arm, (id,)),
        ensures
            final(self).well_formed(),
            final(self).processes() == old(self).processes(),
            final(self).active() == old(self).active(),
            final(self).waiting() == old(self).waiting(),
            final(self).same_handlers(old(self)),
            result == if old(self).registrations().len() < MAX_HANDLERS {
                Ok::<(), InterruptError>(())
            } else {
                Err(InterruptError::CapacityExceeded)
            },
            result is Err ==> final(self).registrations() == old(self).registrations(),
            result is Ok ==> call_ensures(arm, (id,), ()),
            result is Ok ==> final(self).registrations() == old(self).registrations().push(
                Registration::idle(id),
            ),
            result is Ok ==> final(self).handler(old(self).registrations().len() as int) == func,
    {
        let result = self.interrupts.register(id, func, arm);
        proof {
            lemma_blocked_after_register(old(self).registrations(), id);
            assert(self.population() == old(self).population());
        }
        result
    }

    /// The current process: the one at the head of the ready list.
    pub fn current(&self) -> (current: Option<ProcessId>)
        ensures
            current == if self.active().len() > 0 {
                Some(self.active()[0].process)
            } else {
                None
            },
    {
        match self.scheduler.get_current_proc() {
            Some(item) => Some(item.process()),
            None => None,
        }
    }

    /// The process with identifier `id`, if there is one.
    pub fn process(&self, id: ProcessId) -> (found: Option<Process>)
        ensures
            found == if id.index < self.processes().len() {
                Some(self.processes()[id.index as int])
            } else {
                None
            },
    {
        self.processes.get(id)
    }

    /// Switches into the current process and stores the context it traps back with.
    ///
    /// `switch` is the context switch; see [`Scheduler::exec_current_proc`].
    /// It is called once if a process is ready, and not at all otherwise;
    /// then nothing changes.
    pub fn exec_current<F: FnOnce(Context) -> Context>(&mut self, switch: F) -> (result: ExecResult)
        requires
            old(self).well_formed(),
            old(self).active().len() > 0 ==> call_requires(
                switch,
                (old(self).processes()[old(self).active()[0].process.index as int].context(),),
            ),
        ensures
            final(self).well_formed(),
            final(self).active() == old(self).active(),
            final(self).waiting() == old(self).waiting(),
            final(self).registrations() == old(self).registrations(),
            final(self).same_handlers(old(self)),
            result == if old(self).active().len() > 0 {
                ExecResult::Executed
            } else {
                ExecResult::Nothing
            },
            result == ExecResult::Nothing ==> final(self).processes() == old(self).processes(),
            result == ExecResult::Executed ==> switched(
                switch,
                old(self).processes(),
                final(self).processes(),
                old(self).active()[0].process.index as int,
            ),
    {
        proof {
            if self.active().len() > 0 {
                lemma_head_and_rest(self.active());
                assert(self.population().count(self.active()[0]) > 0);
            }
        }
        let result = self.scheduler.exec_current_proc(&mut self.processes, switch);
        proof {
            assert(self.population() == old(self).population());
        }
        result
    }

    /// Sends the current process to the tail of the ready list.
    pub fn schedule_next(&mut self)
        requires
            old(self).well_formed(),
        ensures
            final(self).well_formed(),
            final(self).processes() == old(self).processes(),
            final(self).active() == rotate(old(self).active()),
            final(self).waiting() == old(self).waiting(),
            final(self).registrations() == old(self).registrations(),
            final(self).same_handlers(old(self)),
    {
        self.scheduler.schedule_next();
        proof {
            lemma_rotate_keeps_items(old(self).active());
            assert(self.population() == old(self).population());
        }
    }

    /// Blocks the current process until interrupt `irq` fires.
    ///
    /// The process leaves the ready list and joins the waiting list of the
    /// first registration for `irq`. Without such a registration nothing
    /// changes and the error says so; with nothing ready, nothing changes
    /// and nobody is blocked.
    pub fn block_current(&mut self, irq: IrqId) -> (result: Result<
        Option<ProcessId>,
        InterruptError,
    >)
        requires
            old(self).well_formed(),
        ensures
            final(self).well_formed(),
            final(self).processes() == old(self).processes(),
            final(self).waiting() == old(self).waiting(),
            final(self).same_handlers(old(self)),
            result == if !is_registered(old(self).registrations(), irq) {
                Err::<Option<ProcessId>, InterruptError>(InterruptError::NoHandler)
            } else if old(self).active().len() > 0 {
                Ok(Some(old(self).active()[0].process))
            } else {
                Ok(None)
            },
            !(result matches Ok(Some(_))) ==> final(self).active() == old(self).active(),
            !(result matches Ok(Some(_))) ==> final(self).registrations() == old(
                self,
            ).registrations(),
            result matches Ok(Some(_)) ==> final(self).active() == old(self).active().drop_first(),
            result matches Ok(Some(_)) ==> !final(self).active().contains(old(self).active()[0]),
            result matches Ok(Some(_)) ==> final(self).registrations() == with_waiter(
                old(self).registrations(),
                first_for(old(self).registrations(), irq),
                old(self).active()[0],
            ),
    {
        if !self.interrupts.has_handler(irq) {
            return Err(InterruptError::NoHandler);
        }
        match self.scheduler.pop_current_proc() {
            None => {
                assert(self.population() == old(self).population());
                Ok(None)
            },
            Some(item) => {
                let id = item.process();
                self.interrupts.push_wait(irq, item);
                proof {
                    broadcast use vstd::multiset::group_multiset_axioms;

                    let i = first_for(old(self).registrations(), irq);
                    lemma_blocked_after_wait(old(self).registrations(), i, item);
                    lemma_head_and_rest(old(self).active());
                    assert(self.population() =~= old(self).population());
                    assert(self.population().count(item) <= 1);
                    vstd::seq_lib::to_multiset_contains(self.active(), item);
                }
                Ok(Some(id))
            },
        }
    }

    /// Suspends the current process until the next general wake-up.
    ///
    /// The process leaves the ready list and joins the waiting list. With
    /// nothing ready, nothing changes.
    pub fn suspend_current(&mut self) -> (suspended: Option<ProcessId>)
        requires
            old(self).well_formed(),
        ensures
            final(self).well_formed(),
            final(self).processes() == old(self).processes(),
            final(self).registrations() == old(self).registrations(),
            final(self).same_handlers(old(self)),
            suspended == if old(self).active().len() > 0 {
                Some(old(self).active()[0].process)
            } else {
                None
            },
            final(self).active() == if old(self).active().len() > 0 {
                old(self).active().drop_first()
            } else {
                old(self).active()
            },
            final(self).waiting() == if old(self).active().len() > 0 {
                old(self).waiting().push(old(self).active()[0])
            } else {
                old(self).waiting()
            },
    {
        match self.scheduler.pop_current_proc() {
            None => {
                assert(self.population() == old(self).population());
                None
            },
            Some(item) => {
                let id = item.process();
                self.scheduler.push_wait(item);
                proof {
                    broadcast use vstd::multiset::group_multiset_axioms;

                    lemma_head_and_rest(old(self).active());
                    vstd::seq_lib::to_multiset_build(old(self).waiting(), item);
                    assert(self.population() =~= old(self).population());
                }
                Some(id)
            },
        }
    }

    /// Makes every suspended process ready, behind the processes already ready.
    pub fn resume_waiting(&mut self)
        requires
            old(self).well_formed(),
        ensures
            final(self).well_formed(),
            final(self).processes() == old(self).processes(),
            final(self).active() == old(self).active() + old(self).waiting(),
            final(self).waiting() == Seq::<ProcessListItem>::empty(),
            final(self).registrations() == old(self).registrations(),
            final(self).same_handlers(old(self)),
    {
        self.scheduler.resume_waiting();
        proof {
            broadcast use vstd::multiset::group_multiset_axioms;

            lemma_nobody();
            vstd::seq_lib::lemma_multiset_commutative(old(self).active(), old(self).waiting());
            assert(self.population() =~= old(self).population());
        }
    }

    /// Serves the pending interrupts and makes the processes they release ready.
    ///
    /// The interrupts are served as [`InterruptManager::check_pending`]
    /// says; the released processes go to the tail of the ready list in
    /// the order of their release. `machine` goes through every call and
    /// comes back with the number of processes released.
    pub fn poll<M, P, C, E>(
        &mut self,
        machine: M,
        is_pending: P,
        clear_pending: C,
        enable: E,
    ) -> (result: (M, usize)) where
        H: Fn(M) -> M,
        P: Fn(M, IrqId) -> (M, bool),
        C: Fn(M, IrqId) -> M,
        E: Fn(M, IrqId) -> M,

        requires
            old(self).well_formed(),
            old(self).poll_licensed(is_pending, clear_pending, enable),
        ensures
            final(self).well_formed(),
            final(self).processes() == old(self).processes(),
            final(self).waiting() == old(self).waiting(),
            final(self).same_handlers(old(self)),
            exists|fired: Seq<bool>| #[trigger]
                old(self).polled_between(
                    is_pending,
                    clear_pending,
                    enable,
                    fired,
                    machine,
                    result.0,
                ) && final(self).registrations() == drained(old(self).registrations(), fired)
                    && final(self).active() == old(self).active() + released_by(
                    old(self).registrations(),
                    fired,
                ) && result.1 == released_by(old(self).registrations(), fired).len(),
    {
        proof {
            let registry = self.interrupts;
            assert forall|state: M, i: int|
                0 <= i < registry.registrations().len() implies #[trigger] call_requires(
                is_pending,
                (state, registry.registrations()[i].id),
            ) by {
                assert(call_requires(is_pending, (state, self.registrations()[i].id)));
            }
            assert forall|before: M, after: M, i: int|
                0 <= i < registry.registrations().len() && #[trigger] call_ensures(
                    is_pending,
                    (before, registry.registrations()[i].id),
                    (after, true),
                ) implies call_requires(registry.handler(i), (after,)) by {
                assert(call_ensures(
                    is_pending,
                    (before, self.registrations()[i].id),
                    (after, true),
                ));
                assert(registry.handler(i) == self.handler(i));
            }
            assert forall|before: M, after: M, i: int|
                0 <= i < registry.registrations().len() && #[trigger] call_ensures(
                    registry.handler(i),
                    (before,),
                    after,
                ) implies call_requires(clear_pending, (after, registry.registrations()[i].id)) by {
                assert(call_ensures(self.handler(i), (before,), after));
            }
            assert(registry.poll_licensed(is_pending, clear_pending, enable));
        }
        let (machine_after, mut list) = self.interrupts.check_pending(
            machine,
            is_pending,
            clear_pending,
            enable,
        );
        let ghost fired = choose|fired: Seq<bool>| #[trigger]
            old(self).interrupts.polled_between(
                is_pending,
                clear_pending,
                enable,
                fired,
                machine,
                machine_after,
            ) && self.registrations() == drained(old(self).registrations(), fired) && list@
                == released_by(old(self).registrations(), fired);
        let ghost states = choose|states: Seq<M>| #[trigger]
            old(self).interrupts.polled(is_pending, clear_pending, enable, fired, states)
                && states[0] == machine && states.last() == machine_after;
        let released = list.len();
        self.scheduler.resume_list(&mut list);
        proof {
            broadcast use vstd::multiset::group_multiset_axioms;

            assert forall|i: int| 0 <= i < fired.len() implies #[trigger] old(self).served(
                is_pending,
                clear_pending,
                enable,
                fired,
                states,
                i,
            ) by {
                assert(old(self).interrupts.served(
                    is_pending,
                    clear_pending,
                    enable,
                    fired,
                    states,
                    i,
                ));
            }
            assert(old(self).polled(is_pending, clear_pending, enable, fired, states));
            assert(old(self).polled_between(
                is_pending,
                clear_pending,
                enable,
                fired,
                machine,
                machine_after,
            ));
            lemma_blocked_after_poll(old(self).registrations(), fired);
            vstd::seq_lib::lemma_multiset_commutative(
                old(self).active(),
                released_by(old(self).registrations(), fired),
            );
            assert(self.population() =~= old(self).population());
        }
        let result = (machine_after, released);
        assert(old(self).polled_between(
            is_pending,
            clear_pending,
            enable,
            fired,
            machine,
            result.0,
        ));
        result
    }

    /// Wake correctness. In a well-formed kernel, a process that waits for
    /// an interrupt is not ready; after a poll it is ready if and only if
    /// its interrupt fired in that poll, and then the interrupt's waiting
    /// list is empty.
    pub proof fn lemma_wake(&self, fired: Seq<bool>, x: int, item: ProcessListItem)
        requires
            self.well_formed(),
            fired.len() == self.registrations().len(),
            0 <= x < self.registrations().len(),
            self.registrations()[x].waiting.contains(item),
        ensures
            !self.active().contains(item),
            (self.active() + released_by(self.registrations(), fired)).contains(item) <==> fired[x],
            fired[x] ==> drained(self.registrations(), fired)[x].waiting == Seq::<
                ProcessListItem,
            >::empty(),
    {
        broadcast use vstd::multiset::group_multiset_axioms;
        broadcast use vstd::seq_lib::lemma_seq_concat_contains_all_elements;

        let registrations = self.registrations();
        let released = released_by(registrations, fired);
        vstd::seq_lib::to_multiset_contains(registrations[x].waiting, item);
        vstd::seq_lib::to_multiset_contains(self.active(), item);
        lemma_blocked_counts(registrations, x, item);
        assert(self.population().count(item) <= 1);
        if fired[x] {
            lemma_fired_releases(registrations, fired, x, item);
        }
        if released.contains(item) {
            let i = lemma_released_waited(registrations, fired, item);
            vstd::seq_lib::to_multiset_contains(registrations[i].waiting, item);
            if i < x {
                lemma_blocked_counts_both(registrations, i, x, item);
            } else if x < i {
                lemma_blocked_counts_both(registrations, x, i, item);
            }
        }
    }
}

} // verus!
