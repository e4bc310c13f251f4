//! The scheduler interface: a ready list, a waiting list and cooperative rotation.

use crate::process::{Context, Process, ProcessTable};
use crate::process_list::{ProcessList, ProcessListItem};
use vstd::prelude::*;

pub mod simple_scheduler;

verus! {

/// What an attempt to run the current process came to.
#[derive(Clone, Copy, PartialEq, Eq, Debug, Structural)]
pub enum ExecResult {
    /// There was nothing to execute.
    Nothing,
    /// The current process ran until it trapped back.
    Executed,
}

/// The ready list after its head has gone to the tail.
pub open spec fn rotate(list: Seq<ProcessListItem>) -> Seq<ProcessListItem> {
    if list.len() > 0 {
        list.drop_first().push(list[0])
    } else {
        list
    }
}

/// Whether `after` is the table `before` once `switch` has run the process
/// in `slot`: `switch` was handed the process's saved context, and the
/// context it returned is stored in the process; nothing else differs.
pub open spec fn switched<F: FnOnce(Context) -> Context>(
    switch: F,
    before: Seq<Process>,
    after: Seq<Process>,
    slot: int,
) -> bool {
    &&& call_ensures(switch, (before[slot].context(),), after[slot].context())
    &&& after == before.update(slot, before[slot].with_context(after[slot].context()))
}

/// Round trip through the context switch: when the switch hands back the
/// context it was given, as it does when the process traps at once and
/// changes nothing, every process is afterwards bit for bit what it was.
pub proof fn lemma_switch_round_trip<F: FnOnce(Context) -> Context>(
    switch: F,
    before: Seq<Process>,
    after: Seq<Process>,
    slot: int,
)
    requires
        0 <= slot < before.len(),
        switched(switch, before, after, slot),
        forall|given: Context, returned: Context| #[trigger]
            call_ensures(switch, (given,), returned) ==> returned == given,
    ensures
        after == before,
{
    ProcessTable::lemma_idle_switch(before, slot);
}

/// The ready list after `turns` rotations.
pub open spec fn rotate_by(list: Seq<ProcessListItem>, turns: nat) -> Seq<ProcessListItem>
    decreases turns,
{
    if turns == 0 {
        list
    } else {
        rotate(rotate_by(list, (turns - 1) as nat))
    }
}

/// Round robin: after `turns` rotations of a ready list of `n` processes,
/// the process in place `i` is the one that began in place `(i + turns) % n`.
/// So the current process of successive turns runs through the list in
/// order, again and again.
pub proof fn lemma_round_robin(list: Seq<ProcessListItem>, turns: nat)
    requires
        list.len() > 0,
    ensures
        rotate_by(list, turns).len() == list.len(),
        forall|i: int|
            0 <= i < list.len() ==> #[trigger] rotate_by(list, turns)[i] == list[(i + turns) % (
            list.len() as int)],
    decreases turns,
{
    let n = list.len() as int;
    if turns == 0 {
        assert forall|i: int| 0 <= i < n implies #[trigger] rotate_by(list, turns)[i] == list[(i
            + turns) % n] by {
            vstd::arithmetic::div_mod::lemma_small_mod(i as nat, n as nat);
        }
    } else {
        let earlier = (turns - 1) as nat;
        lemma_round_robin(list, earlier);
        let before = rotate_by(list, earlier);
        assert forall|i: int| 0 <= i < n implies #[trigger] rotate_by(list, turns)[i] == list[(i
            + turns) % n] by {
            if i < n - 1 {
                assert(rotate(before)[i] == before[i + 1]);
                assert(i + 1 + earlier == i + turns);
            } else {
                assert(rotate(before)[i] == before[0]);
                vstd::arithmetic::div_mod::lemma_mod_add_multiples_vanish(earlier as int, n);
                assert(i + turns == n + earlier);
            }
        }
    }
}

/// A scheduler over two lists: `active`, the processes ready to run in
/// order, and `waiting`, the processes blocked until they are resumed.
pub trait Scheduler {
    /// The ready list, the current process first.
    spec fn active(&self) -> Seq<ProcessListItem>;

    /// The list of blocked processes.
    spec fn waiting(&self) -> Seq<ProcessListItem>;

    /// The current process: the head of the ready list.
    fn get_current_proc(&self) -> (current: Option<&ProcessListItem>)
        ensures
            current == if self.active().len() > 0 {
                Some(&self.active()[0])
            } else {
                None
            },
    ;

    /// Removes the current process from the ready list and returns it.
    fn pop_current_proc(&mut self) -> (current: Option<ProcessListItem>)
        ensures
            current == if old(self).active().len() > 0 {
                Some(old(self).active()[0])
            } else {
                None
            },
            final(self).active() == if old(self).active().len() > 0 {
                old(self).active().drop_first()
            } else {
                old(self).active()
            },
            final(self).waiting() == old(self).waiting(),
    ;

    /// Switches into the current process and stores the context it traps back with.
    ///
    /// `switch` is the context switch: it is handed the saved context of the
    /// process at the head of the ready list, runs the process until it
    /// traps, and returns the context that the process left. It is called
    /// once if there is something to execute, and not at all if the ready
    /// list is empty; then nothing changes. The head of the ready list must
    /// stand for a process of the table.
    fn exec_current_proc<F: FnOnce(Context) -> Context>(
        &mut self,
        processes: &mut ProcessTable,
        switch: F,
    ) -> (result: ExecResult)
        requires
            old(self).active().len() > 0 ==> old(processes).has(old(self).active()[0].process),
            old(self).active().len() > 0 ==> call_requires(
                switch,
                (old(processes)@[old(self).active()[0].process.index as int].context(),),
            ),
        ensures
            final(self).active() == old(self).active(),
            final(self).waiting() == old(self).waiting(),
            result == if old(self).active().len() > 0 {
                ExecResult::Executed
            } else {
                ExecResult::Nothing
            },
            result == ExecResult::Nothing ==> final(processes)@ == old(processes)@,
            result == ExecResult::Executed ==> switched(
                switch,
                old(processes)@,
                final(processes)@,
                old(self).active()[0].process.index as int,
            ),
    ;

    /// Sends the current process to the tail of the ready list.
    fn schedule_next(&mut self)
        ensures
            final(self).active() == rotate(old(self).active()),
            final(self).waiting() == old(self).waiting(),
    ;

    /// Makes every process of `process_list` ready, after those already ready.
    fn resume_list(&mut self, process_list: &mut ProcessList)
        ensures
            final(self).active() == old(self).active() + old(process_list)@,
            final(self).waiting() == old(self).waiting(),
            final(process_list)@ == Seq::<ProcessListItem>::empty(),
    ;

    /// Admits `proc` at the tail of the ready list.
    fn push(&mut self, proc: ProcessListItem)
        ensures
            final(self).active() == old(self).active().push(proc),
            final(self).waiting() == old(self).waiting(),
    ;

    /// Admits `proc` at the tail of the waiting list.
    fn push_wait(&mut self, proc: ProcessListItem)
        ensures
            final(self).active() == old(self).active(),
            final(self).waiting() == old(self).waiting().push(proc),
    ;

    /// Makes every waiting process ready, after those already ready.
    fn resume_waiting(&mut self)
        ensures
            final(self).active() == old(self).active() + old(self).waiting(),
            final(self).waiting() == Seq::<ProcessListItem>::empty(),
    ;
}

} // verus!
