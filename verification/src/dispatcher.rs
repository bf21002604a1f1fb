//! The dispatcher: one queue that puts every operation in a total order.
//!
//! Before the engine is ready, launched tasks wait in a bounded buffer; a task
//! that finds the buffer full is dropped and counted. Flushing moves the
//! buffer, in the order of submission, to the live queue, from which a single
//! worker takes one task at a time.

use vstd::prelude::*;
use std::collections::VecDeque;

verus! {

/// The number of tasks that the engine's dispatcher buffers before it is
/// ready.
pub const GLOBAL_DISPATCHER_LIMIT: usize = 100;

/// Why the dispatcher refused an operation.
#[derive(Clone, Copy, Debug, PartialEq, Eq, Structural)]
pub enum DispatchError {
    /// The buffer was full; the task was dropped.
    QueueFull,
    /// The buffer had been flushed before.
    AlreadyFlushed,
}

/// The mathematical state of a dispatcher.
#[verifier::ext_equal]
pub struct DispatcherState<T> {
    /// The tasks buffered before the flush, oldest first.
    pub preinit: Seq<T>,
    /// The tasks that wait for the worker, oldest first.
    pub live: Seq<T>,
    /// Whether the buffer has been flushed.
    pub flushed: bool,
    /// The number of tasks that the buffer can hold.
    pub capacity: nat,
    /// The number of tasks dropped because the buffer was full.
    pub overflow: nat,
}

impl<T> DispatcherState<T> {
    /// The state of a new dispatcher.
    pub open spec fn initial(capacity: nat) -> Self {
        DispatcherState {
            preinit: Seq::empty(),
            live: Seq::empty(),
            flushed: false,
            capacity,
            overflow: 0,
        }
    }

    /// What every reachable state satisfies.
    pub open spec fn wf(self) -> bool {
        &&& self.preinit.len() <= self.capacity
        &&& self.capacity <= usize::MAX
        &&& self.overflow <= usize::MAX
        &&& self.flushed ==> self.preinit.len() == 0
        &&& !self.flushed ==> self.live.len() == 0
    }

    /// Whether a task launched now would be dropped.
    pub open spec fn is_full(self) -> bool {
        !self.flushed && self.preinit.len() >= self.capacity
    }

    /// The state after `task` is launched.
    pub open spec fn launch(self, task: T) -> Self {
        if self.flushed {
            DispatcherState { live: self.live.push(task), ..self }
        } else if self.preinit.len() < self.capacity {
            DispatcherState { preinit: self.preinit.push(task), ..self }
        } else if self.overflow < usize::MAX {
            DispatcherState { overflow: self.overflow + 1, ..self }
        } else {
            self
        }
    }

    /// The state after the tasks of `tasks` are launched one after another.
    pub open spec fn launch_all(self, tasks: Seq<T>) -> Self
        decreases tasks.len(),
    {
        if tasks.len() == 0 {
            self
        } else {
            self.launch_all(tasks.drop_last()).launch(tasks.last())
        }
    }

    /// The state after the buffer is flushed.
    pub open spec fn flush_init(self) -> Self {
        if self.flushed {
            self
        } else {
            DispatcherState {
                preinit: Seq::empty(),
                live: self.live + self.preinit,
                flushed: true,
                ..self
            }
        }
    }

    /// The state after the worker has taken the oldest waiting task.
    pub open spec fn take_next(self) -> Self {
        if self.live.len() == 0 {
            self
        } else {
            DispatcherState { live: self.live.drop_first(), ..self }
        }
    }

    /// The number of further tasks that the buffer accepts.
    pub open spec fn room(self) -> nat {
        if self.flushed || self.preinit.len() >= self.capacity {
            0
        } else {
            (self.capacity - self.preinit.len()) as nat
        }
    }
}

/// The smaller of two numbers.
pub open spec fn min_nat(a: nat, b: nat) -> nat {
    if a <= b {
        a
    } else {
        b
    }
}

/// Launching a sequence of tasks keeps a state well formed.
pub proof fn lemma_launch_all_wf<T>(d: DispatcherState<T>, tasks: Seq<T>)
    requires
        d.wf(),
    ensures
        d.launch_all(tasks).wf(),
    decreases tasks.len(),
{
    if tasks.len() > 0 {
        lemma_launch_all_wf(d, tasks.drop_last());
    }
}

/// The overflow policy. Of the tasks launched before the flush, the buffer
/// takes the earliest ones, as many as it has room for and in the order of
/// submission; each of the others is dropped and counted, and the count stops
/// at the largest number that it can hold.
pub proof fn lemma_overflow_policy<T>(d: DispatcherState<T>, tasks: Seq<T>)
    requires
        d.wf(),
        !d.flushed,
    ensures
        d.launch_all(tasks).preinit == d.preinit + tasks.take(
            min_nat(tasks.len(), d.room()) as int,
        ),
        d.launch_all(tasks).overflow == min_nat(
            d.overflow + (tasks.len() - min_nat(tasks.len(), d.room())) as nat,
            usize::MAX as nat,
        ),
        d.launch_all(tasks).live == d.live,
        d.launch_all(tasks).flushed == d.flushed,
        d.launch_all(tasks).capacity == d.capacity,
    decreases tasks.len(),
{
    if tasks.len() > 0 {
        let init = tasks.drop_last();
        lemma_overflow_policy(d, init);
        lemma_launch_all_wf(d, init);
        let mid = d.launch_all(init);
        let k = min_nat(init.len(), d.room());
        let k2 = min_nat(tasks.len(), d.room());
        if tasks.len() <= d.room() {
            assert(init.take(k as int) =~= init);
            assert(tasks.take(k2 as int) =~= tasks);
            assert(d.launch_all(tasks).preinit =~= d.preinit + tasks);
        } else {
            assert(k == d.room());
            assert(init.take(k as int) =~= tasks.take(k2 as int));
        }
    } else {
        assert(d.preinit + tasks.take(0) =~= d.preinit);
    }
}

/// After the flush the worker meets the buffered tasks in the order of their
/// submission, the earliest first, and the tasks launched later behind them.
pub proof fn lemma_flush_keeps_order<T>(d: DispatcherState<T>, before: Seq<T>, after: Seq<T>)
    requires
        d.wf(),
        !d.flushed,
        before.len() <= d.room(),
    ensures
        d.launch_all(before).flush_init().launch_all(after).live == d.preinit + before + after,
        d.launch_all(before).flush_init().launch_all(after).preinit.len() == 0,
        d.launch_all(before).flush_init().launch_all(after).overflow == d.overflow,
{
    lemma_overflow_policy(d, before);
    lemma_launch_all_wf(d, before);
    assert(before.take(before.len() as int) =~= before);
    let f = d.launch_all(before).flush_init();
    assert(f.live =~= d.preinit + before);
    lemma_live_launches(f, after);
}

/// Once the buffer is flushed, every launched task joins the live queue at
/// its end and nothing is dropped.
pub proof fn lemma_live_launches<T>(d: DispatcherState<T>, tasks: Seq<T>)
    requires
        d.flushed,
    ensures
        d.launch_all(tasks) == (DispatcherState { live: d.live + tasks, ..d }),
    decreases tasks.len(),
{
    if tasks.len() > 0 {
        lemma_live_launches(d, tasks.drop_last());
        assert(d.launch_all(tasks).live =~= d.live + tasks);
    } else {
        assert(d.live + tasks =~= d.live);
    }
}

/// The dispatcher.
#[derive(Debug)]
pub struct Dispatcher<T> {
    preinit: Vec<T>,
    live: VecDeque<T>,
    flushed: bool,
    capacity: usize,
    overflow: usize,
}

impl<T> View for Dispatcher<T> {
    type V = DispatcherState<T>;

    closed spec fn view(&self) -> DispatcherState<T> {
        DispatcherState {
            preinit: self.preinit@,
            live: self.live@,
            flushed: self.flushed,
            capacity: self.capacity as nat,
            overflow: self.overflow as nat,
        }
    }
}

impl<T> Dispatcher<T> {
    #[verifier::type_invariant]
    spec fn inv(self) -> bool {
        self@.wf()
    }

    /// A dispatcher whose buffer holds up to `max_queue_size` tasks.
    pub fn new(max_queue_size: usize) -> (d: Dispatcher<T>)
        ensures
            d@ == DispatcherState::<T>::initial(max_queue_size as nat),
            d@.wf(),
    {
        Dispatcher {
            preinit: Vec::new(),
            live: VecDeque::new(),
            flushed: false,
            capacity: max_queue_size,
            overflow: 0,
        }
    }

    /// Launches `task`. Before the flush the task is buffered, or dropped and
    /// counted where the buffer is full; after the flush it joins the live
    /// queue. The caller is never held up.
    pub fn launch(&mut self, task: T) -> (r: Result<(), DispatchError>)
        ensures
            final(self)@ == old(self)@.launch(task),
            final(self)@.wf(),
            old(self)@.wf(),
            r == if old(self)@.is_full() {
                Err::<(), DispatchError>(DispatchError::QueueFull)
            } else {
                Ok::<(), DispatchError>(())
            },
    {
        proof {
            use_type_invariant(&*self);
        }
        if self.flushed {
            let mut live: VecDeque<T> = VecDeque::new();
            std::mem::swap(&mut live, &mut self.live);
            live.push_back(task);
            self.live = live;
            Ok(())
        } else if self.preinit.len() < self.capacity {
            let mut preinit: Vec<T> = Vec::new();
            std::mem::swap(&mut preinit, &mut self.preinit);
            preinit.push(task);
            self.preinit = preinit;
            Ok(())
        } else {
            if self.overflow < usize::MAX {
                self.overflow = self.overflow + 1;
            }
            Err(DispatchError::QueueFull)
        }
    }

    /// Flushes the buffer: its tasks move to the live queue in the order of
    /// their submission, and from now on launched tasks join the live queue.
    /// Returns the number of tasks dropped so far, or an error where the
    /// buffer had been flushed before.
    pub fn flush_init(&mut self) -> (r: Result<usize, DispatchError>)
        ensures
            final(self)@ == old(self)@.flush_init(),
            final(self)@.wf(),
            old(self)@.wf(),
            r == if old(self)@.flushed {
                Err::<usize, DispatchError>(DispatchError::AlreadyFlushed)
            } else {
                Ok::<usize, DispatchError>(old(self)@.overflow as usize)
            },
    {
        proof {
            use_type_invariant(&*self);
        }
        if self.flushed {
            return Err(DispatchError::AlreadyFlushed);
        }
        let mut buffered: Vec<T> = Vec::new();
        std::mem::swap(&mut buffered, &mut self.preinit);
        self.flushed = true;
        self.live = move_to_queue(buffered);
        assert(self@.live =~= old(self)@.live + old(self)@.preinit);
        Ok(self.overflow)
    }

    /// Takes the oldest waiting task from the live queue, if there is one.
    pub fn next_task(&mut self) -> (r: Option<T>)
        ensures
            final(self)@ == old(self)@.take_next(),
            final(self)@.wf(),
            old(self)@.wf(),
            r == if old(self)@.live.len() == 0 {
                None::<T>
            } else {
                Some(old(self)@.live[0])
            },
    {
        proof {
            use_type_invariant(&*self);
        }
        let mut live: VecDeque<T> = VecDeque::new();
        std::mem::swap(&mut live, &mut self.live);
        let r = live.pop_front();
        self.live = live;
        assert(self@.live =~= old(self)@.take_next().live);
        r
    }

    /// Whether the buffer has been flushed.
    pub fn is_flushed(&self) -> (b: bool)
        ensures
            b == self@.flushed,
            self@.wf(),
    {
        proof {
            use_type_invariant(self);
        }
        self.flushed
    }

    /// The number of tasks that wait in the buffer.
    pub fn preinit_len(&self) -> (n: usize)
        ensures
            n == self@.preinit.len(),
            self@.wf(),
    {
        proof {
            use_type_invariant(self);
        }
        self.preinit.len()
    }

    /// The number of tasks that wait for the worker.
    pub fn pending_len(&self) -> (n: usize)
        ensures
            n == self@.live.len(),
            self@.wf(),
    {
        proof {
            use_type_invariant(self);
        }
        self.live.len()
    }

    /// The number of tasks dropped because the buffer was full.
    pub fn overflow_count(&self) -> (n: usize)
        ensures
            n == self@.overflow,
            self@.wf(),
    {
        proof {
            use_type_invariant(self);
        }
        self.overflow
    }

    /// The number of tasks that the buffer can hold.
    pub fn capacity(&self) -> (n: usize)
        ensures
            n == self@.capacity,
            self@.wf(),
    {
        proof {
            use_type_invariant(self);
        }
        self.capacity
    }
}

/// Moves the elements of a vector into a queue, keeping their order.
fn move_to_queue<T>(items: Vec<T>) -> (queue: VecDeque<T>)
    ensures
        queue@ == items@,
{
    let mut items = items;
    let mut reversed: Vec<T> = Vec::new();
    let ghost all = items@;
    while items.len() > 0
        invariant
            items@.len() + reversed@.len() == all.len(),
            forall|j: int| 0 <= j < items@.len() ==> items@[j] == all[j],
            forall|j: int|
                0 <= j < reversed@.len() ==> reversed@[j] == all[all.len() - 1 - j],
        decreases items@.len(),
    {
        let last = items.pop();
        match last {
            Some(x) => {
                reversed.push(x);
            },
            None => {},
        }
    }
    let mut queue: VecDeque<T> = VecDeque::new();
    while reversed.len() > 0
        invariant
            queue@.len() + reversed@.len() == all.len(),
            forall|j: int| 0 <= j < queue@.len() ==> queue@[j] == all[j],
            forall|j: int|
                0 <= j < reversed@.len() ==> reversed@[j] == all[all.len() - 1 - j],
        decreases reversed@.len(),
    {
        let last = reversed.pop();
        match last {
            Some(x) => {
                queue.push_back(x);
            },
            None => {},
        }
    }
    assert(queue@ =~= all);
    queue
}

} // verus!
