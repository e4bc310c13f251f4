//! First-in, first-out lists of processes.

use crate::process::ProcessId;
use vstd::prelude::*;

verus! {

/// The node by which a process stands in a list.
///
/// An item is moved from list to list and never copied, so a process that
/// has one item is in at most one list at a time.
#[derive(PartialEq, Eq, Debug, Structural)]
pub struct ProcessListItem {
    /// The process that the item stands for.
    pub process: ProcessId,
}

impl ProcessListItem {
    /// The item that stands for `process`.
    pub open spec fn of(process: ProcessId) -> ProcessListItem {
        ProcessListItem { process }
    }

    /// Creates the item that stands for `process`.
    pub fn new(process: ProcessId) -> (item: ProcessListItem)
        ensures
            item == ProcessListItem::of(process),
    {
        ProcessListItem { process }
    }

    /// The process that the item stands for.
    pub fn process(&self) -> (process: ProcessId)
        ensures
            process == self.process,
    {
        self.process
    }
}

/// An ordered queue of process items: items leave in the order they came.
pub struct ProcessList {
    items: Vec<ProcessListItem>,
}

impl View for ProcessList {
    type V = Seq<ProcessListItem>;

    closed spec fn view(&self) -> Seq<ProcessListItem> {
        self.items@
    }
}

impl ProcessList {
    /// The empty list.
    pub fn new() -> (list: ProcessList)
        ensures
            list@ == Seq::<ProcessListItem>::empty(),
    {
        ProcessList { items: Vec::new() }
    }

    /// Tells whether the list holds no item.
    pub fn is_empty(&self) -> (empty: bool)
        ensures
            empty == (self@.len() == 0),
    {
        self.items.len() == 0
    }

    /// The number of items in the list.
    pub fn len(&self) -> (n: usize)
        ensures
            n == self@.len(),
    {
        self.items.len()
    }

    /// Appends `item` at the tail.
    pub fn push(&mut self, item: ProcessListItem)
        ensures
            final(self)@ == old(self)@.push(item),
    {
        self.items.push(item);
    }

    /// Removes and returns the head; an empty list yields `None` and stays empty.
    pub fn pop(&mut self) -> (head: Option<ProcessListItem>)
        ensures
            head == if old(self)@.len() > 0 { Some(old(self)@[0]) } else { None },
            final(self)@ == if old(self)@.len() > 0 { old(self)@.drop_first() } else { old(self)@ },
    {
        if self.items.len() > 0 {
            Some(self.items.remove(0))
        } else {
            None
        }
    }

    /// The head of the list, left in place.
    pub fn head(&self) -> (head: Option<&ProcessListItem>)
        ensures
            head == if self@.len() > 0 { Some(&self@[0]) } else { None },
    {
        if self.items.len() > 0 {
            Some(&self.items[0])
        } else {
            None
        }
    }

    /// The head of the list, left in place, for the caller to change.
    pub fn head_mut(&mut self) -> (head: Option<&mut ProcessListItem>)
        ensures
            old(self)@.len() == 0 ==> head is None && final(self)@ == old(self)@,
            old(self)@.len() > 0 ==> (head matches Some(item) && *item == old(self)@[0]
                && final(self)@ == old(self)@.update(0, *final(item))),
    {
        if self.items.len() > 0 {
            Some(&mut self.items[0])
        } else {
            None
        }
    }

    /// Moves every item of `other` to the tail of `self`, keeping their order.
    pub fn join(&mut self, other: &mut ProcessList)
        ensures
            final(self)@ == old(self)@ + old(other)@,
            final(other)@ == Seq::<ProcessListItem>::empty(),
    {
        self.items.append(&mut other.items);
    }
}

/// One step in the life of a list: an item is pushed, or the head is popped.
pub enum ListOp {
    Push(ProcessListItem),
    Pop,
}

/// The list that `ops`, applied in order to the list `start`, leave behind.
pub open spec fn list_after(start: Seq<ProcessListItem>, ops: Seq<ListOp>) -> Seq<ProcessListItem>
    decreases ops.len(),
{
    if ops.len() == 0 {
        start
    } else {
        let before = list_after(start, ops.drop_last());
        match ops.last() {
            ListOp::Push(item) => before.push(item),
            ListOp::Pop => if before.len() > 0 {
                before.drop_first()
            } else {
                before
            },
        }
    }
}

/// The items that `ops` push, in the order of the pushes.
pub open spec fn pushed_by(ops: Seq<ListOp>) -> Seq<ProcessListItem>
    decreases ops.len(),
{
    if ops.len() == 0 {
        Seq::empty()
    } else {
        match ops.last() {
            ListOp::Push(item) => pushed_by(ops.drop_last()).push(item),
            ListOp::Pop => pushed_by(ops.drop_last()),
        }
    }
}

/// The items that the pops among `ops` return, in the order of the pops,
/// when `ops` are applied to the list `start`.
pub open spec fn popped_by(start: Seq<ProcessListItem>, ops: Seq<ListOp>) -> Seq<ProcessListItem>
    decreases ops.len(),
{
    if ops.len() == 0 {
        Seq::empty()
    } else {
        let before = list_after(start, ops.drop_last());
        match ops.last() {
            ListOp::Push(item) => popped_by(start, ops.drop_last()),
            ListOp::Pop => if before.len() > 0 {
                popped_by(start, ops.drop_last()).push(before[0])
            } else {
                popped_by(start, ops.drop_last())
            },
        }
    }
}

/// First in, first out: whatever pushes and pops are applied to a list, the
/// items popped so far, followed by the items still in the list, are the
/// items the list began with followed by the items pushed, in push order.
pub proof fn lemma_first_in_first_out(start: Seq<ProcessListItem>, ops: Seq<ListOp>)
    ensures
        popped_by(start, ops) + list_after(start, ops) == start + pushed_by(ops),
    decreases ops.len(),
{
    if ops.len() == 0 {
        assert(popped_by(start, ops) + list_after(start, ops) =~= start + pushed_by(ops));
    } else {
        let earlier = ops.drop_last();
        lemma_first_in_first_out(start, earlier);
        let before = list_after(start, earlier);
        let out = popped_by(start, earlier);
        assert(out + before == start + pushed_by(earlier));
        match ops.last() {
            ListOp::Push(item) => {
                assert(out + before.push(item) =~= (out + before).push(item));
                assert(start + pushed_by(earlier).push(item) =~= (start + pushed_by(earlier)).push(
                    item,
                ));
            },
            ListOp::Pop => {
                if before.len() > 0 {
                    assert(out.push(before[0]) + before.drop_first() =~= out + before);
                }
            },
        }
    }
}

} // verus!
