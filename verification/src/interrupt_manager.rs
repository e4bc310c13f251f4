//! The registry of interrupt handlers and of the processes that wait for them.

use crate::process_list::{ProcessList, ProcessListItem};
use vstd::prelude::*;

verus! {

/// The interrupts that a handler can be registered for.
#[allow(non_camel_case_types)]
#[derive(Clone, Copy, PartialEq, Eq, Debug, Structural)]
pub enum IrqId {
    USART3,
    EXTI15_10,
}

impl IrqId {
    /// The interrupt's number at the interrupt controller.
    pub open spec fn spec_number(self) -> u32 {
        match self {
            IrqId::USART3 => 39,
            IrqId::EXTI15_10 => 40,
        }
    }

    /// The interrupt's number at the interrupt controller.
    #[verifier::when_used_as_spec(spec_number)]
    pub fn number(self) -> (n: u32)
        ensures
            n == self.number(),
    {
        match self {
            IrqId::USART3 => 39,
            IrqId::EXTI15_10 => 40,
        }
    }

    /// The interrupt with number `x`, if there is one.
    pub fn from_u32(x: u32) -> (id: Option<IrqId>)
        ensures
            id == if x == 39 {
                Some(IrqId::USART3)
            } else if x == 40 {
                Some(IrqId::EXTI15_10)
            } else {
                None
            },
            id matches Some(irq) ==> irq.number() == x,
            id is None ==> forall|irq: IrqId| irq.number() != x,
    {
        match x {
            39 => Some(IrqId::USART3),
            40 => Some(IrqId::EXTI15_10),
            _ => None,
        }
    }
}

/// The greatest number of registrations that an [`InterruptManager`] holds.
pub const MAX_HANDLERS: usize = 10;

/// Why the interrupt manager turned a request down.
#[derive(Clone, Copy, PartialEq, Eq, Debug, Structural)]
pub enum InterruptError {
    /// The registry already holds [`MAX_HANDLERS`] registrations.
    CapacityExceeded,
    /// No handler is registered for the interrupt.
    NoHandler,
}

/// What the registry holds for one registration, apart from the callback.
pub struct Registration {
    /// The interrupt that the registration is for.
    pub id: IrqId,
    /// The processes blocked until the interrupt fires, first come first.
    pub waiting: Seq<ProcessListItem>,
}

impl Registration {
    /// The registration for `id` that nobody waits for.
    pub open spec fn idle(id: IrqId) -> Registration {
        Registration { id, waiting: Seq::empty() }
    }
}

struct InterruptHandler<H> {
    id: IrqId,
    func: H,
    waiting: ProcessList,
}

/// A bounded registry that maps interrupts to a callback and to a private
/// list of processes that wait for the interrupt.
pub struct InterruptManager<H> {
    handlers: Vec<InterruptHandler<H>>,
}

/// Whether some registration is for `id`.
pub open spec fn is_registered(registrations: Seq<Registration>, id: IrqId) -> bool {
    exists|i: int| 0 <= i < registrations.len() && (#[trigger] registrations[i]).id == id
}

/// Whether `i` is the first registration for `id`.
pub open spec fn is_first_for(registrations: Seq<Registration>, id: IrqId, i: int) -> bool {
    &&& 0 <= i < registrations.len()
    &&& registrations[i].id == id
    &&& forall|j: int| 0 <= j < i ==> (#[trigger] registrations[j]).id != id
}

/// The place of the first registration for `id`, where `id` is registered.
pub open spec fn first_for(registrations: Seq<Registration>, id: IrqId) -> int {
    choose|i: int| is_first_for(registrations, id, i)
}

/// An interrupt has one first registration at most.
pub proof fn lemma_first_for(registrations: Seq<Registration>, id: IrqId, i: int)
    requires
        is_first_for(registrations, id, i),
    ensures
        first_for(registrations, id) == i,
{
    let j = first_for(registrations, id);
    if j < i {
        assert(registrations[j].id != id);
    } else if i < j {
        assert(registrations[i].id != id);
    }
}

/// The registry after `item` has joined those that wait at registration `i`.
pub open spec fn with_waiter(
    registrations: Seq<Registration>,
    i: int,
    item: ProcessListItem,
) -> Seq<Registration> {
    registrations.update(
        i,
        Registration { id: registrations[i].id, waiting: registrations[i].waiting.push(item) },
    )
}

/// The processes that a poll releases: the waiting lists of the
/// registrations that fired, in registration order.
pub open spec fn released_by(
    registrations: Seq<Registration>,
    fired: Seq<bool>,
) -> Seq<ProcessListItem>
    decreases registrations.len(),
{
    if registrations.len() == 0 {
        Seq::empty()
    } else {
        let earlier = released_by(registrations.drop_last(), fired.drop_last());
        if fired[registrations.len() - 1] {
            earlier + registrations.last().waiting
        } else {
            earlier
        }
    }
}

/// The registry after a poll: the registrations that fired wait for
/// nobody, the others are as before.
pub open spec fn drained(registrations: Seq<Registration>, fired: Seq<bool>) -> Seq<Registration> {
    Seq::new(
        registrations.len(),
        |i: int|
            if fired[i] {
                Registration::idle(registrations[i].id)
            } else {
                registrations[i]
            },
    )
}

/// A process that waits for an interrupt that fires is released.
pub proof fn lemma_fired_releases(
    registrations: Seq<Registration>,
    fired: Seq<bool>,
    i: int,
    item: ProcessListItem,
)
    requires
        fired.len() == registrations.len(),
        0 <= i < registrations.len(),
        fired[i],
        registrations[i].waiting.contains(item),
    ensures
        released_by(registrations, fired).contains(item),
    decreases registrations.len(),
{
    broadcast use vstd::seq_lib::lemma_seq_concat_contains_all_elements;

    if i < registrations.len() - 1 {
        lemma_fired_releases(registrations.drop_last(), fired.drop_last(), i, item);
    }
}

/// A released process waited for an interrupt that fired: the lemma returns
/// the place of such a registration.
pub proof fn lemma_released_waited(
    registrations: Seq<Registration>,
    fired: Seq<bool>,
    item: ProcessListItem,
) -> (i: int)
    requires
        fired.len() == registrations.len(),
        released_by(registrations, fired).contains(item),
    ensures
        0 <= i < registrations.len(),
        fired[i],
        registrations[i].waiting.contains(item),
    decreases registrations.len(),
{
    broadcast use vstd::seq_lib::lemma_seq_concat_contains_all_elements;

    if registrations.len() == 0 {
        assert(false);
        0
    } else {
        let last = registrations.len() - 1;
        if fired[last] && registrations[last].waiting.contains(item) {
            last
        } else {
            lemma_released_waited(registrations.drop_last(), fired.drop_last(), item)
        }
    }
}

/// When one interrupt alone fires, the poll releases the processes that
/// waited for it, in the order they came, and nobody else.
pub proof fn lemma_single_interrupt(registrations: Seq<Registration>, fired: Seq<bool>, x: int)
    requires
        fired.len() == registrations.len(),
        0 <= x < registrations.len(),
        forall|i: int| 0 <= i < fired.len() ==> (#[trigger] fired[i] <==> i == x),
    ensures
        released_by(registrations, fired) == registrations[x].waiting,
        drained(registrations, fired) == registrations.update(
            x,
            Registration::idle(registrations[x].id),
        ),
{
    lemma_released_before(registrations, fired, x);
    lemma_released_through(registrations, fired, x, registrations.len() as int);
    assert(registrations.take(registrations.len() as int) =~= registrations);
    assert(fired.take(fired.len() as int) =~= fired);
    assert(drained(registrations, fired) =~= registrations.update(
        x,
        Registration::idle(registrations[x].id),
    ));
}

/// Wake: when a process is made to wait for an interrupt that nobody else
/// waits for, and then that interrupt alone fires, the poll releases that
/// process and nobody else, and nobody waits for the interrupt any more.
pub proof fn lemma_wait_then_fire(
    registrations: Seq<Registration>,
    fired: Seq<bool>,
    x: int,
    item: ProcessListItem,
)
    requires
        fired.len() == registrations.len(),
        0 <= x < registrations.len(),
        registrations[x].waiting.len() == 0,
        forall|i: int| 0 <= i < fired.len() ==> (#[trigger] fired[i] <==> i == x),
    ensures
        released_by(with_waiter(registrations, x, item), fired) == seq![item],
        drained(with_waiter(registrations, x, item), fired) == registrations,
{
    let waiting = with_waiter(registrations, x, item);
    lemma_single_interrupt(waiting, fired, x);
    assert(waiting[x].waiting =~= seq![item]);
    assert(registrations[x].waiting =~= Seq::<ProcessListItem>::empty());
    assert(drained(waiting, fired) =~= registrations);
}

proof fn lemma_released_before(registrations: Seq<Registration>, fired: Seq<bool>, n: int)
    requires
        fired.len() == registrations.len(),
        0 <= n <= registrations.len(),
        forall|i: int| 0 <= i < n ==> !#[trigger] fired[i],
    ensures
        released_by(registrations.take(n), fired.take(n)) == Seq::<ProcessListItem>::empty(),
    decreases n,
{
    if n > 0 {
        lemma_released_before(registrations, fired, n - 1);
        assert(registrations.take(n).drop_last() =~= registrations.take(n - 1));
        assert(fired.take(n).drop_last() =~= fired.take(n - 1));
        assert(!fired[n - 1]);
    }
}

proof fn lemma_released_through(registrations: Seq<Registration>, fired: Seq<bool>, x: int, n: int)
    requires
        fired.len() == registrations.len(),
        0 <= x < n <= registrations.len(),
        released_by(registrations.take(x), fired.take(x)) == Seq::<ProcessListItem>::empty(),
        forall|i: int| 0 <= i < fired.len() ==> (#[trigger] fired[i] <==> i == x),
    ensures
        released_by(registrations.take(n), fired.take(n)) == registrations[x].waiting,
    decreases n,
{
    assert(registrations.take(n).drop_last() =~= registrations.take(n - 1));
    assert(fired.take(n).drop_last() =~= fired.take(n - 1));
    if n - 1 == x {
        assert(fired[x]);
        assert(released_by(registrations.take(n), fired.take(n)) =~= registrations[x].waiting);
    } else {
        lemma_released_through(registrations, fired, x, n - 1);
        assert(!fired[n - 1]);
        assert(released_by(registrations.take(n), fired.take(n)) =~= registrations[x].waiting);
    }
}

impl<H> InterruptManager<H> {
    /// The registrations in the order they were made, each with the
    /// processes that wait for it.
    pub closed spec fn registrations(&self) -> Seq<Registration> {
        Seq::new(
            self.handlers@.len(),
            |i: int| Registration { id: self.handlers@[i].id, waiting: self.handlers@[i].waiting@ },
        )
    }

    /// The callback of registration `i`.
    pub closed spec fn handler(&self, i: int) -> H {
        self.handlers@[i].func
    }

    /// The registry is within its capacity.
    pub open spec fn well_formed(&self) -> bool {
        self.registrations().len() <= MAX_HANDLERS
    }

    /// Whether `self` has the callbacks of `before`, each in its place.
    pub open spec fn same_handlers(&self, before: &InterruptManager<H>) -> bool {
        forall|i: int|
            0 <= i < before.registrations().len() ==> self.handler(i) == #[trigger] before.handler(
                i,
            )
    }

    /// Which calls a poll may make, and when.
    ///
    /// The controller may be asked about the interrupt of a registration,
    /// and about no other. A callback may run only in a state in which the
    /// controller has just said that its interrupt is pending. An
    /// interrupt may be cleared only in a state that its callback has just
    /// left, and enabled only in a state that its clearing has just left.
    pub open spec fn poll_licensed<M, P, C, E>(
        &self,
        is_pending: P,
        clear_pending: C,
        enable: E,
    ) -> bool where
        H: Fn(M) -> M,
        P: Fn(M, IrqId) -> (M, bool),
        C: Fn(M, IrqId) -> M,
        E: Fn(M, IrqId) -> M,
     {
        &&& forall|state: M, i: int|
            0 <= i < self.registrations().len() ==> #[trigger] call_requires(
                is_pending,
                (state, self.registrations()[i].id),
            )
        &&& forall|before: M, after: M, i: int|
            0 <= i < self.registrations().len() && #[trigger] call_ensures(
                is_pending,
                (before, self.registrations()[i].id),
                (after, true),
            ) ==> call_requires(self.handler(i), (after,))
        &&& forall|before: M, after: M, i: int|
            0 <= i < self.registrations().len() && #[trigger] call_ensures(
                self.handler(i),
                (before,),
                after,
            ) ==> call_requires(clear_pending, (after, self.registrations()[i].id))
        &&& forall|before: M, after: M, id: IrqId| #[trigger]
            call_ensures(clear_pending, (before, id), after) ==> call_requires(enable, (after, id))
    }

    /// Whether a poll did its work on registration `i`, and nothing more.
    ///
    /// In the state `states[4 * i]` the controller was asked about the
    /// registration's interrupt and answered `fired[i]`. If the answer was
    /// yes, the callback ran, then the interrupt was cleared, then it was
    /// enabled, each once and each in the state that the step before had
    /// left. If the answer was no, nothing further was done: the four
    /// states that follow the question are one and the same.
    pub open spec fn served<M, P, C, E>(
        &self,
        is_pending: P,
        clear_pending: C,
        enable: E,
        fired: Seq<bool>,
        states: Seq<M>,
        i: int,
    ) -> bool where
        H: Fn(M) -> M,
        P: Fn(M, IrqId) -> (M, bool),
        C: Fn(M, IrqId) -> M,
        E: Fn(M, IrqId) -> M,
     {
        let id = self.registrations()[i].id;
        &&& call_ensures(is_pending, (states[4 * i], id), (states[4 * i + 1], fired[i]))
        &&& fired[i] ==> call_ensures(self.handler(i), (states[4 * i + 1],), states[4 * i + 2])
        &&& fired[i] ==> call_ensures(clear_pending, (states[4 * i + 2], id), states[4 * i + 3])
        &&& fired[i] ==> call_ensures(enable, (states[4 * i + 3], id), states[4 * i + 4])
        &&& !fired[i] ==> states[4 * i + 2] == states[4 * i + 1]
        &&& !fired[i] ==> states[4 * i + 3] == states[4 * i + 1]
        &&& !fired[i] ==> states[4 * i + 4] == states[4 * i + 1]
    }

    /// Whether `fired` and `states` record a poll of this registry: the
    /// registrations were served one after the other in their order, and
    /// `states` is the course of the machine through the poll, four states
    /// for each registration after the state in which the poll began.
    pub open spec fn polled<M, P, C, E>(
        &self,
        is_pending: P,
        clear_pending: C,
        enable: E,
        fired: Seq<bool>,
        states: Seq<M>,
    ) -> bool where
        H: Fn(M) -> M,
        P: Fn(M, IrqId) -> (M, bool),
        C: Fn(M, IrqId) -> M,
        E: Fn(M, IrqId) -> M,
     {
        &&& fired.len() == self.registrations().len()
        &&& states.len() == 4 * self.registrations().len() + 1
        &&& forall|i: int|
            0 <= i < fired.len() ==> #[trigger] self.served(
                is_pending,
                clear_pending,
                enable,
                fired,
                states,
                i,
            )
    }

    /// Whether a poll in which the interrupts `fired` took the machine from
    /// `before` to `after`: some course of the machine through the poll
    /// begins with the one and ends with the other.
    pub open spec fn polled_between<M, P, C, E>(
        &self,
        is_pending: P,
        clear_pending: C,
        enable: E,
        fired: Seq<bool>,
        before: M,
        after: M,
    ) -> bool where
        H: Fn(M) -> M,
        P: Fn(M, IrqId) -> (M, bool),
        C: Fn(M, IrqId) -> M,
        E: Fn(M, IrqId) -> M,
     {
        exists|states: Seq<M>| #[trigger]
            self.polled(is_pending, clear_pending, enable, fired, states) && states[0] == before
                && states.last() == after
    }

    /// The registry without any registration.
    pub fn create() -> (manager: InterruptManager<H>)
        ensures
            manager.registrations() == Seq::<Registration>::empty(),
            manager.well_formed(),
    {
        let manager = InterruptManager { handlers: Vec::new() };
        assert(manager.registrations() =~= Seq::<Registration>::empty());
        manager
    }

    /// The number of registrations.
    pub fn handler_count(&self) -> (count: usize)
        ensures
            count == self.registrations().len(),
    {
        self.handlers.len()
    }

    /// Registers `func` as the handler of interrupt `id`, with nobody waiting.
    ///
    /// While the registry has room, `arm` is called once to install the
    /// vector-table entry of `id` and to enable the interrupt, and the
    /// registration is appended. On a full registry `arm` is not called
    /// and the registry is left as it was. The callback is stored, not run.
    pub fn register<A: FnOnce(IrqId)>(&mut self, id: IrqId, func: H, arm: A) -> (result: Result<
        (),
        InterruptError,
    >)
        requires
            old(self).well_formed(),
            old(self).registrations().len() < MAX_HANDLERS ==> call_requires(arm, (id,)),
        ensures
            final(self).well_formed(),
            result == if old(self).registrations().len() < MAX_HANDLERS {
                Ok::<(), InterruptError>(())
            } else {
                Err(InterruptError::CapacityExceeded)
            },
            result is Err ==> final(self).registrations() == old(self).registrations(),
            result is Ok ==> call_ensures(arm, (id,), ()),
            result is Ok ==> final(self).registrations() == old(self).registrations().push(
                Registration::idle(id),
            ),
            result is Ok ==> final(self).handler(old(self).registrations().len() as int) == func,
            final(self).same_handlers(old(self)),
    {
        if self.handlers.len() >= MAX_HANDLERS {
            return Err(InterruptError::CapacityExceeded);
        }
        arm(id);
        self.handlers.push(InterruptHandler { id, func, waiting: ProcessList::new() });
        assert(self.registrations() =~= old(self).registrations().push(Registration::idle(id)));
        Ok(())
    }

    /// Tells whether a handler is registered for `id`.
    pub fn has_handler(&self, id: IrqId) -> (found: bool)
        ensures
            found == is_registered(self.registrations(), id),
    {
        let mut i: usize = 0;
        while i < self.handlers.len()
            invariant
                i <= self.handlers@.len(),
                forall|j: int| 0 <= j < i ==> (#[trigger] self.registrations()[j]).id != id,
            decreases self.handlers@.len() - i,
        {
            if self.handlers[i].id == id {
                assert(self.registrations()[i as int].id == id);
                return true;
            }
            i += 1;
        }
        false
    }

    /// Appends `item` to the waiting list of the first registration for `tar_id`.
    ///
    /// A handler must have been registered for `tar_id`: registration comes
    /// before any wait. [`InterruptManager::has_handler`] tells whether one
    /// has. No callback runs and nothing but that one list changes.
    pub fn push_wait(&mut self, tar_id: IrqId, item: ProcessListItem)
        requires
            old(self).well_formed(),
            is_registered(old(self).registrations(), tar_id),
        ensures
            final(self).well_formed(),
            is_first_for(
                old(self).registrations(),
                tar_id,
                first_for(old(self).registrations(), tar_id),
            ),
            final(self).registrations() == with_waiter(
                old(self).registrations(),
                first_for(old(self).registrations(), tar_id),
                item,
            ),
            final(self).same_handlers(old(self)),
    {
        let mut i: usize = 0;
        while i < self.handlers.len()
            invariant
                *self == *old(self),
                is_registered(self.registrations(), tar_id),
                i <= self.handlers@.len(),
                forall|j: int| 0 <= j < i ==> (#[trigger] self.registrations()[j]).id != tar_id,
            ensures
                i < self.handlers@.len(),
                self.handlers@[i as int].id == tar_id,
            decreases self.handlers@.len() - i,
        {
            if self.handlers[i].id == tar_id {
                break;
            }
            i += 1;
        }
        self.handlers[i].waiting.push(item);
        proof {
            let k = i as int;
            assert(is_first_for(old(self).registrations(), tar_id, k));
            assert(self.registrations() =~= with_waiter(old(self).registrations(), k, item));
            lemma_first_for(old(self).registrations(), tar_id, k);
        }
    }

    /// Serves every registered interrupt that the controller finds pending.
    ///
    /// The registrations are visited in order. For each, `is_pending` is
    /// asked once. If it says yes, the registered callback runs, the
    /// registration's waiting list is drained into the returned list, the
    /// interrupt is cleared with `clear_pending` and then re-armed with
    /// `enable`, each once. If it says no, nothing is done for the
    /// registration. `machine` stands for the hardware that the closures
    /// and the callbacks act on; it goes through every call in turn and
    /// comes back with the list of the processes released by this poll.
    pub fn check_pending<M, P, C, E>(
        &mut self,
        machine: M,
        is_pending: P,
        clear_pending: C,
        enable: E,
    ) -> (result: (M, ProcessList)) where
        H: Fn(M) -> M,
        P: Fn(M, IrqId) -> (M, bool),
        C: Fn(M, IrqId) -> M,
        E: Fn(M, IrqId) -> M,

        requires
            old(self).well_formed(),
            old(self).poll_licensed(is_pending, clear_pending, enable),
        ensures
            final(self).well_formed(),
            final(self).same_handlers(old(self)),
            exists|fired: Seq<bool>| #[trigger]
                old(self).polled_between(
                    is_pending,
                    clear_pending,
                    enable,
                    fired,
                    machine,
                    result.0,
                ) && final(self).registrations() == drained(old(self).registrations(), fired)
                    && result.1@ == released_by(old(self).registrations(), fired),
    {
        let mut current = machine;
        let mut released = ProcessList::new();
        let ghost mut fired: Seq<bool> = Seq::empty();
        let ghost mut states: Seq<M> = seq![machine];
        let count = self.handlers.len();
        let mut i: usize = 0;
        while i < count
            invariant
                i <= count,
                count == self.handlers@.len(),
                count == old(self).handlers@.len(),
                old(self).poll_licensed(is_pending, clear_pending, enable),
                fired.len() == i,
                states.len() == 4 * i + 1,
                states[0] == machine,
                states[4 * i] == current,
                forall|j: int|
                    0 <= j < count ==> (#[trigger] self.handlers@[j]).id == old(
                        self,
                    ).handlers@[j].id,
                forall|j: int|
                    0 <= j < count ==> (#[trigger] self.handlers@[j]).func == old(
                        self,
                    ).handlers@[j].func,
                forall|j: int|
                    0 <= j < i ==> (#[trigger] self.handlers@[j]).waiting@ == if fired[j] {
                        Seq::<ProcessListItem>::empty()
                    } else {
                        old(self).handlers@[j].waiting@
                    },
                forall|j: int|
                    i <= j < count ==> (#[trigger] self.handlers@[j]).waiting@ == old(
                        self,
                    ).handlers@[j].waiting@,
                forall|j: int|
                    0 <= j < i ==> #[trigger] old(self).served(
                        is_pending,
                        clear_pending,
                        enable,
                        fired,
                        states,
                        j,
                    ),
                released@ == released_by(old(self).registrations().take(i as int), fired),
            decreases count - i,
        {
            let ghost earlier_fired = fired;
            let ghost earlier = states;
            let ghost k = i as int;
            let id = self.handlers[i].id;
            assert(id == old(self).registrations()[k].id);
            let (asked, pending) = is_pending(current, id);
            let ghost after_ask = asked;
            if pending {
                assert(self.handlers@[k].func == old(self).handler(k));
                let handled = (self.handlers[i].func)(asked);
                let ghost after_callback = handled;
                released.join(&mut self.handlers[i].waiting);
                let cleared = clear_pending(handled, id);
                let ghost after_clear = cleared;
                current = enable(cleared, id);
                proof {
                    states = earlier.push(after_ask).push(after_callback).push(after_clear).push(
                        current,
                    );
                }
            } else {
                current = asked;
                proof {
                    states = earlier.push(after_ask).push(after_ask).push(after_ask).push(
                        after_ask,
                    );
                }
            }
            proof {
                fired = earlier_fired.push(pending);
                let before = old(self).registrations().take(k);
                let after = old(self).registrations().take(k + 1);
                assert(after.drop_last() =~= before);
                assert(fired.drop_last() =~= earlier_fired);
                assert(after.last() == old(self).registrations()[k]);
                assert forall|j: int| 0 <= j < i + 1 implies #[trigger] old(self).served(
                    is_pending,
                    clear_pending,
                    enable,
                    fired,
                    states,
                    j,
                ) by {
                    if j < k {
                        assert(old(self).served(
                            is_pending,
                            clear_pending,
                            enable,
                            earlier_fired,
                            earlier,
                            j,
                        ));
                    }
                }
            }
            i += 1;
        }
        proof {
            assert(old(self).registrations().take(count as int) =~= old(self).registrations());
            assert(self.registrations() =~= drained(old(self).registrations(), fired));
            assert(old(self).polled(is_pending, clear_pending, enable, fired, states));
            assert(old(self).polled_between(
                is_pending,
                clear_pending,
                enable,
                fired,
                machine,
                current,
            ));
        }
        let result = (current, released);
        assert(old(self).polled_between(
            is_pending,
            clear_pending,
            enable,
            fired,
            machine,
            result.0,
        ));
        result
    }
}

} // verus!
