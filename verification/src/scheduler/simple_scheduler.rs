//! The round-robin scheduler.

use crate::process::{Context, Process, ProcessTable};
use crate::process_list::{ProcessList, ProcessListItem};
use crate::scheduler::{ExecResult, Scheduler};
use vstd::prelude::*;

verus! {

/// A cooperative round-robin scheduler: strict first-in, first-out order
/// in the ready list and no priorities.
pub struct SimpleScheduler {
    active: ProcessList,
    waiting: ProcessList,
}

impl Scheduler for SimpleScheduler {
    closed spec fn active(&self) -> Seq<ProcessListItem> {
        self.active@
    }

    closed spec fn waiting(&self) -> Seq<ProcessListItem> {
        self.waiting@
    }

    fn get_current_proc(&self) -> (current: Option<&ProcessListItem>) {
        self.active.head()
    }

    fn pop_current_proc(&mut self) -> (current: Option<ProcessListItem>) {
        self.active.pop()
    }

    fn exec_current_proc<F: FnOnce(Context) -> Context>(
        &mut self,
        processes: &mut ProcessTable,
        switch: F,
    ) -> (result: ExecResult) {
        match self.active.head() {
            None => ExecResult::Nothing,
            Some(item) => {
                let id = item.process();
                match processes.get(id) {
                    None => ExecResult::Nothing,
                    Some(process) => {
                        let trapped = switch(process.context());
                        processes.save_context(id, trapped);
                        proof {
                            Process::lemma_from_parts(
                                trapped.stack_pointer,
                                trapped.saved_registers,
                                process.entry_point(),
                                process.stack_region(),
                            );
                        }
                        ExecResult::Executed
                    },
                }
            },
        }
    }

    fn schedule_next(&mut self) {
        if !self.active.is_empty() {
            let current = self.active.pop();
            match current {
                Some(item) => self.active.push(item),
                None => {},
            }
        }
    }

    fn resume_list(&mut self, process_list: &mut ProcessList) {
        self.active.join(process_list);
    }

    fn push(&mut self, proc: ProcessListItem) {
        self.active.push(proc);
    }

    fn push_wait(&mut self, proc: ProcessListItem) {
        self.waiting.push(proc);
    }

    fn resume_waiting(&mut self) {
        self.active.join(&mut self.waiting);
    }
}

impl SimpleScheduler {
    /// The scheduler with no process, ready or waiting.
    pub fn create() -> (scheduler: SimpleScheduler)
        ensures
            scheduler.active() == Seq::<ProcessListItem>::empty(),
            scheduler.waiting() == Seq::<ProcessListItem>::empty(),
    {
        SimpleScheduler { active: ProcessList::new(), waiting: ProcessList::new() }
    }
}

} // verus!
