//! The Command Pattern: commands decouple what triggers an operation (a message, a
//! timer, a lifecycle hook) from how it is executed. Each command is a small unit
//! of game logic; commands that a command calls for are queued behind it.

use std::collections::VecDeque;
use vstd::prelude::*;

verus! {

/// A FIFO command queue.
pub struct Dispatcher<C> {
    queue: VecDeque<C>,
    stopped: bool,
}

impl<C> Dispatcher<C> {
    /// The commands that wait, in order.
    pub closed spec fn waiting(self) -> Seq<C> {
        self.queue@
    }

    /// Whether commands are taken and run.
    pub closed spec fn running(self) -> bool {
        !self.stopped
    }

    pub fn new() -> (r: Self)
        ensures
            r.waiting() == Seq::<C>::empty(),
            r.running(),
    {
        Dispatcher { queue: VecDeque::new(), stopped: false }
    }

    /// Queues a command. Does nothing after [`stop`](Self::stop).
    pub fn enqueue(&mut self, command: C)
        ensures
            final(self).running() == old(self).running(),
            final(self).waiting() == if old(self).running() {
                old(self).waiting().push(command)
            } else {
                old(self).waiting()
            },
    {
        if !self.stopped {
            self.queue.push_back(command);
        }
    }

    /// Takes the command that is to be run next; `None` when there is none or the
    /// queue was stopped.
    pub fn next(&mut self) -> (r: Option<C>)
        ensures
            final(self).running() == old(self).running(),
            match r {
                Some(c) => old(self).running() && old(self).waiting().len() > 0 && c
                    == old(self).waiting()[0] && final(self).waiting()
                    == old(self).waiting().drop_first(),
                None => (!old(self).running() || old(self).waiting().len() == 0)
                    && final(self).waiting() == old(self).waiting(),
            },
    {
        if self.stopped {
            return None;
        }
        let ghost before = self.queue@;
        let r: Option<C> = self.queue.pop_front();
        proof {
            if before.len() > 0 {
                assert(self.queue@ =~= before.drop_first());
            }
        }
        r
    }

    /// Discards queued commands and ignores future ones.
    pub fn stop(&mut self)
        ensures
            !final(self).running(),
            final(self).waiting() == Seq::<C>::empty(),
    {
        self.stopped = true;
        self.queue.clear();
    }

    pub fn is_running(&self) -> (r: bool)
        ensures
            r == self.running(),
    {
        !self.stopped
    }

    pub fn pending(&self) -> (r: usize)
        ensures
            r == self.waiting().len(),
    {
        self.queue.len()
    }
}

impl<C> Default for Dispatcher<C> {
    fn default() -> (r: Self)
        ensures
            r.waiting() == Seq::<C>::empty(),
            r.running(),
    {
        Dispatcher::new()
    }
}

}
