//! The tasker: a queue and the number of threads that work it off.
use vstd::prelude::*;
use crate::buffer;
use crate::layout::FIXED_SIZE;
use crate::queue;
use crate::queue::TaskQueue;
use crate::record::Record;
use crate::runner;
use crate::runner::Phase;
use crate::runner::Runner;
use crate::word::WORD;

verus! {

/// How many threads work off the queue: one fewer than can run in parallel, none where
/// that is not known, and no more than `max_thread_count`.
pub open spec fn thread_count(max_thread_count: usize, parallelism: Option<usize>) -> int {
    let spare = match parallelism {
        Some(n) => n - 1,
        None => 0,
    };
    if spare < max_thread_count {
        spare
    } else {
        max_thread_count as int
    }
}

/// A queue and the number of threads that work it off.
pub struct Tasker {
    /// The tasks.
    pub tasks: TaskQueue,
    /// The number of threads.
    pub threads: usize,
}

impl Tasker {
    /// An empty queue, worked off by at most `max_thread_count` threads on a machine
    /// that runs `parallelism` threads in parallel.
    pub fn new(max_thread_count: usize, parallelism: Option<usize>) -> (r: Tasker)
        requires
            parallelism matches Some(n) ==> n > 0,
        ensures
            r.tasks.wf(),
            r.tasks@ == Seq::<Record>::empty(),
            r.tasks.items() == 0,
            !r.tasks.closed(),
            r.threads == thread_count(max_thread_count, parallelism),
            r.threads <= max_thread_count,
            match parallelism {
                Some(n) => r.threads < n && (r.threads == n - 1 || r.threads == max_thread_count),
                None => r.threads == 0,
            },
    {
        let spare: usize = match parallelism {
            Some(n) => n - 1,
            None => 0,
        };
        let threads: usize = if spare < max_thread_count {
            spare
        } else {
            max_thread_count
        };
        Tasker { tasks: TaskQueue::new(), threads }
    }

    /// Adds a task whose value has the bytes `data`, the alignment `align` and the vtable
    /// at the address `vtable`. Returns where the state of the task and where its value
    /// lie in the queue's buffer.
    pub fn add_task(&mut self, data: &[u8], align: usize, vtable: usize) -> (r: (usize, usize))
        requires
            old(self).tasks.wf(),
            align > 0,
            buffer::encode_all(old(self).tasks@).len() + data@.len() + align + FIXED_SIZE + WORD
                <= isize::MAX,
        ensures
            final(self).tasks.wf(),
            exists|base: usize|
                {
                    &&& final(self).tasks@ == old(self).tasks@.push(
                        queue::new_record(
                            #[trigger] queue::next_address(old(self).tasks@, base),
                            data@,
                            align,
                            vtable,
                        ),
                    )
                    &&& (base + r.1) % (align as int) == 0
                },
            final(self).tasks.items() == old(self).tasks.items().wrapping_add(1),
            final(self).tasks.closed() == old(self).tasks.closed(),
            final(self).tasks@.len() == old(self).tasks@.len() + 1,
            final(self).tasks@.drop_last() == old(self).tasks@,
            final(self).tasks@.last().vtable == vtable,
            final(self).tasks@.last().data == data@,
            final(self).tasks@.last().align == align,
            final(self).tasks@.last().state == 0,
            final(self).tasks@.last().value_padding < align,
            final(self).tasks@.last().ptr_padding < 8,
            r.1 == buffer::encode_all(old(self).tasks@).len()
                + final(self).tasks@.last().value_padding + 8,
            r.0 == r.1 + data@.len(),
            r.0 < buffer::encode_all(final(self).tasks@).len(),
            buffer::encode_all(final(self).tasks@).take(
                buffer::encode_all(old(self).tasks@).len() as int,
            ) == buffer::encode_all(old(self).tasks@),
            buffer::encode_all(final(self).tasks@).subrange(r.1 as int, r.0 as int) == data@,
            buffer::encode_all(final(self).tasks@)[r.0 as int] == 0,
            final(self).tasks.items() == if old(self).tasks.items() == usize::MAX {
                0
            } else {
                old(self).tasks.items() + 1
            },
            r.0 == buffer::state_offset(final(self).tasks@, old(self).tasks@.len() as int),
            r.1 == buffer::value_offset(final(self).tasks@, old(self).tasks@.len() as int),
            buffer::decode_all(buffer::encode_all(old(self).tasks@)) == old(self).tasks@,
            buffer::decode_all(buffer::encode_all(final(self).tasks@)) == final(self).tasks@,
            buffer::encode_all(final(self).tasks@).len() % (WORD as nat) == 0,
            final(self).threads == old(self).threads,
    {
        proof {
            self.tasks.law_queue_reads_back();
        }
        self.tasks.reserve(data.len() + align + FIXED_SIZE + WORD);
        let base: usize = self.tasks.address();
        let ghost at: int = queue::next_address(self.tasks@, base);
        proof {
            crate::layout::law_record_size_bound(at, data@.len() as int, align as int);
        }
        let r: (usize, usize) = self.tasks.push_at(base, data, align, vtable);
        assert(self.tasks@ == old(self).tasks@.push(queue::new_record(at, data@, align, vtable)));
        r
    }

    /// The runner that works off what is in the queue and then stops. It stops too where the
    /// item count is zero, and may then leave tasks unclaimed.
    pub fn exhaust() -> (r: Runner)
        ensures
            r.finite,
            r.phase == Phase::Poll,
            r.current_data@ == Seq::<u8>::empty(),
    {
        Runner::new(true)
    }

    /// The runner of a thread: it waits for tasks until no more are to come.
    pub fn worker() -> (r: Runner)
        ensures
            !r.finite,
            r.phase == Phase::Poll,
            r.current_data@ == Seq::<u8>::empty(),
    {
        Runner::new(false)
    }

    /// Says that no more tasks are to come.
    pub fn close(&mut self)
        requires
            old(self).tasks.wf(),
        ensures
            final(self).tasks.wf(),
            final(self).tasks@ == old(self).tasks@,
            final(self).tasks.items() == old(self).tasks.items(),
            final(self).tasks.closed(),
            final(self).threads == old(self).threads,
    {
        self.tasks.set_finished();
    }

    /// Whether each task is gone from the queue.
    pub fn is_drained(&self) -> (r: bool)
        requires
            self.tasks.wf(),
        ensures
            r == (self.tasks@.len() == 0),
    {
        self.tasks.is_empty()
    }
}

/// There are never more threads than asked for, nor as many as can run in parallel.
pub proof fn law_thread_count_bounds(max_thread_count: usize, parallelism: Option<usize>)
    requires
        parallelism matches Some(n) ==> n > 0,
    ensures
        0 <= thread_count(max_thread_count, parallelism) <= max_thread_count,
        parallelism matches Some(n) ==> thread_count(max_thread_count, parallelism) < n,
        parallelism is None ==> thread_count(max_thread_count, parallelism) == 0,
{
}

/// The number of threads is the most that both bounds leave room for: where it is known how
/// many threads run in parallel it is one fewer, or it is the number asked for.
pub proof fn law_thread_count_is_greatest(max_thread_count: usize, parallelism: usize, n: int)
    requires
        parallelism > 0,
    ensures
        ({
            let threads = thread_count(max_thread_count, Some(parallelism));
            &&& threads == parallelism - 1 || threads == max_thread_count
            &&& n <= threads <==> n <= max_thread_count && n < parallelism
        }),
{
}

} // verus!
