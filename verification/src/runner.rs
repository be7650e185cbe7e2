//! The runner: what a thread that works off the queue does next.
//!
//! A runner takes the lock on the queue for one step at a time. It looks whether there
//! is anything to claim, claims a task and copies its value, runs the task without the
//! lock, marks it as run, and removes what may be removed.
use vstd::prelude::*;
use crate::address;
use crate::buffer;
use crate::layout;
use crate::queue;
use crate::queue::ClaimedTask;
use crate::queue::QueueStep;
use crate::queue::TaskQueue;
use crate::record;
use crate::record::Record;
use crate::record::CAN_FREE;
use crate::record::CLAIMED;
use crate::record::FINISHED;
use crate::record::NOT_CLAIMED;

verus! {

/// The step that a runner takes next.
#[derive(Clone, Copy, Debug, PartialEq, Eq)]
pub enum Phase {
    /// Look at the queue.
    Poll,
    /// Claim a task.
    Claim,
    /// Run the task whose value was copied.
    Run {
        /// Where the state of the task lies in the queue's buffer.
        state: usize,
        /// The address of the value's vtable.
        vtable: usize,
        /// Where the copy of the value starts.
        data: usize,
        /// The size of the value.
        size: usize,
    },
    /// Remove what may be removed.
    Clean,
    /// Stop.
    Done,
}

/// A runner.
pub struct Runner {
    /// Whether the runner stops when it finds nothing to do.
    pub finite: bool,
    /// The next step.
    pub phase: Phase,
    /// The copy of the value that is run, after padding that aligns it.
    pub current_data: Vec<u8>,
}

/// What a look at the queue leads to.
pub open spec fn poll_phase(finite: bool, empty: bool, finished: bool, items: usize) -> Phase {
    if (empty || items == 0) && (finite || finished) {
        Phase::Done
    } else if empty || items == 0 {
        Phase::Poll
    } else {
        Phase::Claim
    }
}

/// What a search that finds no task to claim leads to.
pub open spec fn unclaimed_phase(finite: bool) -> Phase {
    if finite {
        Phase::Done
    } else {
        Phase::Poll
    }
}

impl Runner {
    /// Whether the runner is about to run the task of record `k`: `current_data` holds
    /// a copy of its value, after padding that aligns it where `current_data` starts at
    /// the address `base`.
    pub open spec fn runs_record(self, records: Seq<Record>, k: int, base: usize) -> bool {
        let r = records[k];
        let padding = layout::full_padding(base as int, r.align as int);
        &&& self.phase is Run
        &&& self.phase->state == buffer::state_offset(records, k)
        &&& self.phase->vtable == r.vtable
        &&& self.phase->data == padding
        &&& self.phase->size == r.data.len()
        &&& self.current_data@ == record::zeros(padding as nat) + r.data
    }

    /// What a look at the queue does.
    pub open spec fn polled(self, queue: TaskQueue, after: Runner) -> bool {
        &&& after.phase == poll_phase(
            self.finite,
            queue@.len() == 0,
            queue.closed(),
            queue.items(),
        )
        &&& after.finite == self.finite
        &&& after.current_data == self.current_data
    }

    /// What a claim does: where there is a task to claim, it is claimed and its value
    /// copied; where there is none, a finite runner stops and another one looks again.
    pub open spec fn claimed(
        self,
        queue: TaskQueue,
        after: Runner,
        after_queue: TaskQueue,
    ) -> bool {
        let k = queue::claim_index(queue@);
        &&& after_queue.wf()
        &&& after_queue@ == queue::after_claim(queue@)
        &&& after_queue.items() == queue::items_after_claim(queue@, queue.items())
        &&& after_queue.closed() == queue.closed()
        &&& after.finite == self.finite
        &&& if k >= 0 {
            &&& k < queue@.len()
            &&& exists|base: usize| #[trigger] after.runs_record(queue@, k, base)
        } else {
            &&& after.phase == unclaimed_phase(self.finite)
            &&& after.current_data@ == Seq::<u8>::empty()
        }
    }

    /// What marking the task that was run does.
    pub open spec fn completed(
        self,
        queue: TaskQueue,
        after: Runner,
        after_queue: TaskQueue,
    ) -> bool {
        &&& after_queue.wf()
        &&& forall|k: int|
            0 <= k < queue@.len() && #[trigger] buffer::state_offset(queue@, k)
                == self.phase->state ==> after_queue@ == buffer::with_state(queue@, k, FINISHED)
        &&& after_queue.items() == queue.items()
        &&& after_queue.closed() == queue.closed()
        &&& after.phase == Phase::Clean
        &&& after.finite == self.finite
        &&& after.current_data == self.current_data
    }

    /// What removing the records does that may be removed.
    pub open spec fn cleaned(
        self,
        queue: TaskQueue,
        after: Runner,
        after_queue: TaskQueue,
    ) -> bool {
        &&& after_queue.wf()
        &&& after_queue@ == queue::after_cleanup(queue@)
        &&& after_queue.items() == queue.items()
        &&& after_queue.closed() == queue.closed()
        &&& after.phase == Phase::Poll
        &&& after.finite == self.finite
        &&& after.current_data == self.current_data
    }

    /// A runner that has not looked at the queue.
    pub fn new(finite: bool) -> (r: Runner)
        ensures
            r.finite == finite,
            r.phase == Phase::Poll,
            r.current_data@ == Seq::<u8>::empty(),
    {
        Runner { finite, phase: Phase::Poll, current_data: Vec::new() }
    }

    /// Looks at the queue.
    pub fn poll(&mut self, queue: &TaskQueue)
        requires
            old(self).phase == Phase::Poll,
            queue.wf(),
        ensures
            old(self).polled(*queue, *final(self)),
            queue@.len() > 0 && queue.items() != 0 ==> final(self).phase == Phase::Claim,
            queue@.len() == 0 || queue.items() == 0 ==> final(self).phase == if old(self).finite
                || queue.closed() {
                Phase::Done
            } else {
                Phase::Poll
            },
            final(self).finite == old(self).finite,
            final(self).current_data@ == old(self).current_data@,
    {
        if queue.is_empty() && self.finite {
            self.phase = Phase::Done;
            return ;
        }
        if queue.is_empty() && queue.finished() {
            self.phase = Phase::Done;
            return ;
        }
        if queue.item_count() == 0 {
            if queue.finished() || self.finite {
                self.phase = Phase::Done;
            }
            return ;
        }
        if queue.is_empty() {
            return ;
        }
        self.phase = Phase::Claim;
    }

    /// Copies the value of a claimed task, for a `current_data` that starts at the
    /// address `base`.
    pub fn stage(&mut self, task: ClaimedTask, data: &[u8], base: usize)
        requires
            old(self).current_data@.len() == 0,
            task.align > 0,
            task.size == data@.len(),
        ensures
            final(self).phase == (Phase::Run {
                state: task.state,
                vtable: task.vtable,
                data: layout::full_padding(base as int, task.align as int) as usize,
                size: task.size,
            }),
            final(self).current_data@ == record::zeros(
                layout::full_padding(base as int, task.align as int) as nat,
            ) + data@,
            (base + layout::full_padding(base as int, task.align as int)) % (task.align as int)
                == 0,
            final(self).finite == old(self).finite,
    {
        proof {
            layout::law_padding_aligns(base as int, task.align as int);
        }
        let padding: usize = task.align - (base % task.align);
        queue::push_zeros(&mut self.current_data, padding);
        let len: usize = self.current_data.len();
        queue::push_bytes(&mut self.current_data, data);
        assert(self.current_data@ =~= record::zeros(padding as nat) + data@);
        self.phase = Phase::Run { state: task.state, vtable: task.vtable, data: len, size: task.size };
    }

    /// Claims a task and copies its value.
    pub fn claim(&mut self, queue: &mut TaskQueue)
        requires
            old(self).phase == Phase::Claim,
            old(queue).wf(),
        ensures
            old(self).claimed(*old(queue), *final(self), *final(queue)),
            final(self).finite == old(self).finite,
            final(queue)@.len() == old(queue)@.len(),
            final(queue).closed() == old(queue).closed(),
            ({
                let k = queue::claim_index(old(queue)@);
                let r = old(queue)@[k];
                if k >= 0 {
                    &&& r.state == 0
                    &&& final(queue)@[k] == r.with_state(1)
                    &&& final(self).phase is Run
                    &&& final(self).phase->state == buffer::state_offset(old(queue)@, k)
                    &&& final(self).phase->vtable == r.vtable
                    &&& final(self).phase->size == r.data.len()
                    &&& 1 <= final(self).phase->data <= r.align
                    &&& final(self).current_data@.len() == final(self).phase->data + r.data.len()
                    &&& final(self).current_data@.skip(final(self).phase->data as int) == r.data
                } else {
                    &&& final(queue)@ == old(queue)@
                    &&& final(self).phase == if old(self).finite {
                        Phase::Done
                    } else {
                        Phase::Poll
                    }
                }
            }),
    {
        self.current_data.clear();
        match queue.claim() {
            None => {
                if self.finite {
                    self.phase = Phase::Done;
                } else {
                    self.phase = Phase::Poll;
                }
            },
            Some(task) => {
                let ghost k: int = queue::claim_index(old(queue)@);
                proof {
                    buffer::law_state_change_is_local(old(queue)@, k, CLAIMED);
                    assert(old(queue)@[k].wf()) by {
                        queue.lemma_records_wf(k);
                    }
                    assert(task.is_record(queue@, k));
                }
                self.current_data.reserve(task.size + task.align);
                let base: usize = address::address_of(&self.current_data);
                self.stage(task, queue.value(&task), base);
                assert(self.runs_record(old(queue)@, k, base));
                proof {
                    layout::law_padding_aligns(base as int, task.align as int);
                    assert(self.current_data@.skip(self.phase->data as int) =~= old(queue)@[k].data);
                }
            },
        }
    }

    /// Marks the task that was run.
    pub fn complete(&mut self, queue: &mut TaskQueue)
        requires
            old(self).phase is Run,
            old(queue).wf(),
            buffer::is_state_offset(old(queue)@, old(self).phase->state as int),
        ensures
            old(self).completed(*old(queue), *final(self), *final(queue)),
    {
        match self.phase {
            Phase::Run { state, .. } => {
                queue.finish(state);
            },
            _ => {},
        }
        self.phase = Phase::Clean;
    }

    /// Removes the records at the end of the queue that may be removed.
    pub fn clean(&mut self, queue: &mut TaskQueue)
        requires
            old(self).phase == Phase::Clean,
            old(queue).wf(),
        ensures
            old(self).cleaned(*old(queue), *final(self), *final(queue)),
    {
        queue.cleanup();
        self.phase = Phase::Poll;
    }
}

/// A look at the queue leads to a claim exactly where there is a record in the queue and the
/// item count is not zero, whether or not the runner is finite and whether or not more tasks
/// are to come. Otherwise the runner stops where it is finite or no more tasks are to come, and
/// else looks again.
pub proof fn law_look_leads_to(runner: Runner, queue: TaskQueue, after: Runner)
    requires
        runner.polled(queue, after),
    ensures
        queue@.len() > 0 && queue.items() != 0 <==> after.phase == Phase::Claim,
        (queue@.len() == 0 || queue.items() == 0) && (runner.finite || queue.closed())
            <==> after.phase == Phase::Done,
        (queue@.len() == 0 || queue.items() == 0) && !runner.finite && !queue.closed()
            <==> after.phase == Phase::Poll,
        after.finite == runner.finite,
        after.current_data@ == runner.current_data@,
{
}

/// What a look leads to does not depend on how large the item count is, but on whether it is
/// zero, and a queue without records is as one with the count zero.
pub proof fn law_look_only_tells_zero(finite: bool, finished: bool, a: usize, b: usize)
    requires
        a != 0,
        b != 0,
    ensures
        poll_phase(finite, false, finished, a) == Phase::Claim,
        poll_phase(finite, false, finished, a) == poll_phase(!finite, false, !finished, b),
        poll_phase(finite, true, finished, a) == poll_phase(finite, false, finished, 0),
        poll_phase(finite, true, finished, 0) == poll_phase(finite, false, finished, 0),
        poll_phase(finite, false, finished, 0) == Phase::Done <==> finite || finished,
        poll_phase(finite, false, finished, 0) == Phase::Poll <==> !finite && !finished,
{
}

/// A claim of a runner takes the last task that nobody has claimed, record `k`, and copies its
/// value behind at least one byte and at most as many as its alignment says. The runner runs
/// that value with the vtable of the task.
pub proof fn law_claim_copies_last_unclaimed(
    runner: Runner,
    queue: TaskQueue,
    after: Runner,
    after_queue: TaskQueue,
    k: int,
)
    requires
        queue.wf(),
        runner.claimed(queue, after, after_queue),
        0 <= k < queue@.len(),
        queue@[k].state == 0,
        forall|j: int| k < j < queue@.len() ==> (#[trigger] queue@[j]).state != 0,
    ensures
        after.finite == runner.finite,
        after.phase is Run,
        after.phase->vtable == queue@[k].vtable,
        after.phase->size == queue@[k].data.len(),
        after.phase->state == buffer::state_offset(queue@, k),
        1 <= after.phase->data <= queue@[k].align,
        after.current_data@.len() == after.phase->data + queue@[k].data.len(),
        after.current_data@.skip(after.phase->data as int) == queue@[k].data,
        forall|i: int| 0 <= i < after.phase->data ==> #[trigger] after.current_data@[i] == 0,
        after_queue@.len() == queue@.len(),
        after_queue@[k] == queue@[k].with_state(1),
        forall|j: int|
            0 <= j < queue@.len() && j != k ==> #[trigger] after_queue@[j] == queue@[j],
        after_queue.closed() == queue.closed(),
        queue.items() >= queue@.len() - 1 - k ==> after_queue.items() == queue.items() - (
        queue@.len() - 1 - k),
{
    queue::law_claim_is_last_unclaimed(queue@);
    assert(queue::claim_index(queue@) == k);
    queue.lemma_records_wf(k);
    buffer::lemma_len_bound(queue@);
    let base = choose|base: usize| #[trigger] after.runs_record(queue@, k, base);
    assert(after.runs_record(queue@, k, base));
    layout::law_padding_aligns(base as int, queue@[k].align as int);
    assert(after.current_data@.skip(after.phase->data as int) =~= queue@[k].data);
}

/// A claim of a runner that finds each task claimed leaves the queue as it is; a finite runner
/// then stops, and another one looks again.
pub proof fn law_claim_of_nothing(
    runner: Runner,
    queue: TaskQueue,
    after: Runner,
    after_queue: TaskQueue,
)
    requires
        queue.wf(),
        runner.claimed(queue, after, after_queue),
        forall|j: int| 0 <= j < queue@.len() ==> (#[trigger] queue@[j]).state != 0,
    ensures
        after_queue@ == queue@,
        after_queue.closed() == queue.closed(),
        after.finite == runner.finite,
        runner.finite ==> after.phase == Phase::Done,
        !runner.finite ==> after.phase == Phase::Poll,
{
    queue::law_claim_is_last_unclaimed(queue@);
}

/// A task that is added to the queue is the one that the next look and the next claim run, with
/// the vtable and the value that it was added with, unless the item count is zero.
pub proof fn law_added_task_is_run_next(
    records: Seq<Record>,
    at: int,
    data: Seq<u8>,
    align: usize,
    vtable: usize,
    queue: TaskQueue,
    runner: Runner,
    polled: Runner,
    claimed: Runner,
    claimed_queue: TaskQueue,
)
    requires
        queue.wf(),
        queue@ == records.push(queue::new_record(at, data, align, vtable)),
        queue.items() != 0,
        runner.polled(queue, polled),
    ensures
        polled.phase == Phase::Claim,
        polled.claimed(queue, claimed, claimed_queue) ==> {
            &&& claimed.phase is Run
            &&& claimed.phase->vtable == vtable
            &&& claimed.phase->size == data.len()
            &&& claimed.current_data@.skip(claimed.phase->data as int) == data
            &&& claimed_queue.items() == queue.items()
            &&& claimed_queue@.drop_last() == records
        },
{
    if polled.claimed(queue, claimed, claimed_queue) {
        let n = records.len() as int;
        law_claim_copies_last_unclaimed(polled, queue, claimed, claimed_queue, n);
        assert(queue@[n] == queue::new_record(at, data, align, vtable));
        assert(claimed_queue@.drop_last() =~= records) by {
            assert forall|j: int| 0 <= j < n implies claimed_queue@.drop_last()[j]
                == records[j] by {
                assert(claimed_queue@[j] == queue@[j]);
            }
        }
    }
}

/// Marking the task that was run changes the state that lies where the runner has it, to that
/// of a task that has run, and nothing else of any record. Cleaning comes next.
pub proof fn law_complete_marks_one(
    runner: Runner,
    queue: TaskQueue,
    after: Runner,
    after_queue: TaskQueue,
    k: int,
)
    requires
        runner.completed(queue, after, after_queue),
        0 <= k < queue@.len(),
        runner.phase is Run,
        buffer::state_offset(queue@, k) == runner.phase->state,
    ensures
        after_queue@.len() == queue@.len(),
        after_queue@[k] == queue@[k].with_state(2),
        forall|j: int|
            0 <= j < queue@.len() && j != k ==> #[trigger] after_queue@[j] == queue@[j],
        after_queue.items() == queue.items(),
        after_queue.closed() == queue.closed(),
        after.phase == Phase::Clean,
        after.finite == runner.finite,
{
}

/// Cleaning takes off the end what may be removed, leaves the rest, the item count and whether
/// more tasks are to come as they are, and leads to another look.
pub proof fn law_clean_keeps_the_rest(
    runner: Runner,
    queue: TaskQueue,
    after: Runner,
    after_queue: TaskQueue,
)
    requires
        runner.cleaned(queue, after, after_queue),
    ensures
        after_queue@.len() <= queue@.len(),
        after_queue@ == queue@.take(after_queue@.len() as int),
        forall|j: int|
            after_queue@.len() <= j < queue@.len() ==> (#[trigger] queue@[j]).state == 3,
        after_queue@.len() > 0 ==> after_queue@.last().state != 3,
        after_queue.items() == queue.items(),
        after_queue.closed() == queue.closed(),
        after.phase == Phase::Poll,
        after.finite == runner.finite,
{
    queue::law_cleanup_keeps_front(queue@);
}

/// A runner that is not finite stops only where no more tasks are to come; a look at the
/// queue stops it only where there is nothing in it or its item count is zero.
pub proof fn law_worker_stops_only_when_finished(empty: bool, finished: bool, items: usize)
    ensures
        poll_phase(false, empty, finished, items) == Phase::Done ==> finished && (empty || items
            == 0),
        unclaimed_phase(false) != Phase::Done,
{
}

/// A finite runner that stops leaves no task unclaimed, but where it stops because the
/// item count is zero.
pub proof fn law_finite_runner_leaves_nothing(records: Seq<Record>, finished: bool, items: usize)
    requires
        items != 0,
    ensures
        poll_phase(true, records.len() == 0, finished, items) == Phase::Done ==> queue::unclaimed(
            records,
        ) == 0,
        queue::claim_index(records) < 0 ==> queue::unclaimed(records) == 0,
        queue::claim_index(records) >= 0 ==> poll_phase(true, records.len() == 0, finished, items)
            == Phase::Claim,
{
    queue::law_claim_is_last_unclaimed(records);
    if queue::claim_index(records) < 0 {
        queue::lemma_none_unclaimed(records);
    }
}

/// The state of a task that a runner runs goes from not claimed to claimed to finished: the
/// task is claimed, and its state is where the runner has it, for as long as the runner runs
/// it, whatever others do to the queue but mark that task; then it is marked as run.
pub proof fn law_task_is_claimed_while_it_runs(
    queue: TaskQueue,
    polled: Runner,
    claimed: Runner,
    claimed_queue: TaskQueue,
    steps: Seq<QueueStep>,
    run_queue: TaskQueue,
    completed: Runner,
    completed_queue: TaskQueue,
)
    requires
        queue.wf(),
        polled.claimed(queue, claimed, claimed_queue),
        claimed.phase is Run,
        queue::steps_allowed(claimed_queue@, steps),
        forall|i: int|
            0 <= i < steps.len() ==> !queue::marks(
                #[trigger] steps[i],
                queue::claim_index(queue@),
            ),
        run_queue@ == queue::after_steps(claimed_queue@, steps),
        claimed.completed(run_queue, completed, completed_queue),
    ensures
        ({
            let k = queue::claim_index(queue@);
            &&& 0 <= k < queue@.len()
            &&& queue@[k].state == NOT_CLAIMED
            &&& claimed_queue@[k] == queue@[k].with_state(CLAIMED)
            &&& 0 <= k < run_queue@.len()
            &&& run_queue@[k] == claimed_queue@[k]
            &&& buffer::state_offset(run_queue@, k) == claimed.phase->state
            &&& buffer::is_state_offset(run_queue@, claimed.phase->state as int)
            &&& completed_queue@ == buffer::with_state(run_queue@, k, FINISHED)
            &&& completed_queue@[k] == queue@[k].with_state(FINISHED)
        }),
{
    let k = queue::claim_index(queue@);
    queue::law_claim_is_last_unclaimed(queue@);
    assert(k >= 0);
    buffer::law_state_place_is_kept(queue@, k);
    assert(buffer::state_offset(buffer::with_state(queue@, k, CLAIMED), k) == buffer::state_offset(
        queue@,
        k,
    ));
    queue::law_claimed_until_marked(claimed_queue@, steps, k);
    assert(buffer::state_offset(run_queue@, k) == claimed.phase->state);
}

/// A runner stores no state but two: it makes a task claimed that nobody had claimed, and
/// makes the task that it ran finished. Each record that a step leaves is otherwise as it
/// was.
pub proof fn law_runner_stores_claimed_and_finished(
    runner: Runner,
    queue: TaskQueue,
    after: Runner,
    after_queue: TaskQueue,
    j: int,
)
    requires
        0 <= j < queue@.len(),
        0 <= j < after_queue@.len(),
    ensures
        runner.claimed(queue, after, after_queue) ==> after_queue@[j] == queue@[j] || (
        queue@[j].state == NOT_CLAIMED && after_queue@[j] == queue@[j].with_state(CLAIMED)),
        runner.completed(queue, after, after_queue) && buffer::is_state_offset(
            queue@,
            runner.phase->state as int,
        ) ==> after_queue@[j] == queue@[j] || (buffer::state_offset(queue@, j)
            == runner.phase->state && after_queue@[j] == queue@[j].with_state(FINISHED)),
        runner.cleaned(queue, after, after_queue) ==> after_queue@[j] == queue@[j],
{
    queue::law_claim_is_last_unclaimed(queue@);
    queue::lemma_free_tail(queue@);
}

/// What a finite runner that nobody disturbs leaves of the records and of the item count:
/// it claims, runs, marks and cleans until it stops.
pub open spec fn exhausted(records: Seq<Record>, items: usize) -> (Seq<Record>, usize)
    decreases queue::unclaimed(records),
{
    let k = queue::claim_index(records);
    if poll_phase(true, records.len() == 0, false, items) != Phase::Claim {
        (records, items)
    } else if k < 0 {
        (records, queue::items_after_claim(records, items))
    } else {
        let run = buffer::with_state(records, k, FINISHED);
        proof {
            queue::law_claim_uses_up_one(records, FINISHED);
            queue::lemma_cleanup_keeps_unclaimed(run);
        }
        exhausted(queue::after_cleanup(run), queue::items_after_claim(records, items))
    }
}

/// One round of a finite runner that nobody disturbs, from a look at the queue to the
/// cleanup, is one unfolding of [`exhausted`].
pub proof fn law_round_unfolds_exhausted(
    queue: TaskQueue,
    runner: Runner,
    polled: Runner,
    claimed: Runner,
    claimed_queue: TaskQueue,
    completed: Runner,
    completed_queue: TaskQueue,
    cleaned: Runner,
    cleaned_queue: TaskQueue,
)
    requires
        runner.finite,
        runner.phase == Phase::Poll,
        queue.wf(),
        runner.polled(queue, polled),
        polled.phase == Phase::Claim,
        polled.claimed(queue, claimed, claimed_queue),
        claimed.phase is Run,
        claimed.completed(claimed_queue, completed, completed_queue),
        completed.cleaned(completed_queue, cleaned, cleaned_queue),
    ensures
        queue::claim_index(queue@) >= 0,
        buffer::is_state_offset(claimed_queue@, claimed.phase->state as int),
        cleaned.finite,
        cleaned.phase == Phase::Poll,
        exhausted(queue@, queue.items()) == exhausted(cleaned_queue@, cleaned_queue.items()),
{
    let k = queue::claim_index(queue@);
    queue::law_claim_is_last_unclaimed(queue@);
    assert(k >= 0);
    buffer::law_state_place_is_kept(queue@, k);
    assert(claimed_queue@ == buffer::with_state(queue@, k, CLAIMED));
    assert(buffer::state_offset(claimed_queue@, k) == claimed.phase->state);
    assert(completed_queue@ == buffer::with_state(claimed_queue@, k, FINISHED));
    assert(completed_queue@ =~= buffer::with_state(queue@, k, FINISHED));
}

/// Where a finite runner that nobody disturbs stops, [`exhausted`] ends: at a look at the
/// queue with the queue as it is, at a claim with the item count that the claim leaves.
pub proof fn law_stop_ends_exhausted(
    queue: TaskQueue,
    runner: Runner,
    polled: Runner,
    claimed: Runner,
    claimed_queue: TaskQueue,
)
    requires
        runner.finite,
        runner.phase == Phase::Poll,
        queue.wf(),
        runner.polled(queue, polled),
    ensures
        polled.phase == Phase::Done || polled.phase == Phase::Claim,
        polled.phase == Phase::Done ==> exhausted(queue@, queue.items()) == (
            queue@,
            queue.items(),
        ),
        polled.phase == Phase::Claim && polled.claimed(queue, claimed, claimed_queue)
            && claimed.phase == Phase::Done ==> exhausted(queue@, queue.items()) == (
            claimed_queue@,
            claimed_queue.items(),
        ),
        polled.phase == Phase::Claim && polled.claimed(queue, claimed, claimed_queue) ==> (
        claimed.phase == Phase::Done || claimed.phase is Run),
{
}

/// A finite runner that nobody disturbs stops, and then either no task is left unclaimed
/// or the item count is zero.
pub proof fn law_exhaust_leaves_nothing_unclaimed(records: Seq<Record>, items: usize)
    ensures
        queue::unclaimed(exhausted(records, items).0) == 0 || exhausted(records, items).1 == 0,
    decreases queue::unclaimed(records),
{
    let k = queue::claim_index(records);
    queue::law_claim_is_last_unclaimed(records);
    if k < 0 {
        queue::lemma_none_unclaimed(records);
    } else if poll_phase(true, records.len() == 0, false, items) == Phase::Claim {
        let run = buffer::with_state(records, k, FINISHED);
        queue::law_claim_uses_up_one(records, FINISHED);
        queue::lemma_cleanup_keeps_unclaimed(run);
        law_exhaust_leaves_nothing_unclaimed(
            queue::after_cleanup(run),
            queue::items_after_claim(records, items),
        );
    }
}

/// A finite runner that nobody disturbs changes nothing but the state of tasks that nobody
/// had claimed, which it leaves as run, and removes nothing but records that may be
/// removed.
pub proof fn law_exhaust_only_runs_unclaimed(records: Seq<Record>, items: usize)
    ensures
        exhausted(records, items).0.len() <= records.len(),
        forall|j: int|
            0 <= j < exhausted(records, items).0.len() ==> {
                let left = #[trigger] exhausted(records, items).0[j];
                ||| left == records[j]
                ||| records[j].state == NOT_CLAIMED && left == records[j].with_state(FINISHED)
            },
        forall|j: int|
            exhausted(records, items).0.len() <= j < records.len() ==> (
            #[trigger] records[j]).state == CAN_FREE,
    decreases queue::unclaimed(records),
{
    let k = queue::claim_index(records);
    queue::law_claim_is_last_unclaimed(records);
    if k >= 0 && poll_phase(true, records.len() == 0, false, items) == Phase::Claim {
        let run = buffer::with_state(records, k, FINISHED);
        let cleaned = queue::after_cleanup(run);
        let rest = queue::items_after_claim(records, items);
        queue::law_claim_uses_up_one(records, FINISHED);
        queue::lemma_cleanup_keeps_unclaimed(run);
        queue::lemma_free_tail(run);
        law_exhaust_only_runs_unclaimed(cleaned, rest);
        assert(exhausted(records, items) == exhausted(cleaned, rest));
        assert forall|j: int| exhausted(records, items).0.len() <= j < records.len() implies (
        #[trigger] records[j]).state == CAN_FREE by {
            if j < cleaned.len() {
                assert(cleaned[j].state == CAN_FREE);
            } else {
                assert(run[j].state == CAN_FREE);
            }
        }
    }
}

/// The sum of the numbers up to `n`.
pub open spec fn triangle(n: int) -> int {
    n * (n + 1) / 2
}

/// The sum of no numbers.
proof fn lemma_triangle_of_nothing()
    ensures
        triangle(-1) == 0,
        triangle(0) == 0,
{
    assert((-1) * (-1 + 1) == 0int) by (nonlinear_arith);
    assert(0 * (0 + 1) == 0int) by (nonlinear_arith);
}

/// One step of the sum of the numbers up to `n`.
proof fn lemma_triangle(n: int)
    requires
        0 <= n,
    ensures
        triangle(n) >= 0,
        triangle(n + 1) == triangle(n) + n + 1,
{
    assert((n + 1) * (n + 2) == n * (n + 1) + 2 * (n + 1)) by (nonlinear_arith);
    assert(n * (n + 1) >= 0) by (nonlinear_arith)
        requires
            0 <= n,
    ;
}

/// The sum of the numbers up to `n` is at most that of those up to a larger number.
proof fn lemma_triangle_grows(n: int, m: int)
    requires
        0 <= n <= m,
    ensures
        triangle(n) <= triangle(m),
    decreases m - n,
{
    if n < m {
        lemma_triangle(n);
        lemma_triangle_grows(n + 1, m);
    }
}

/// The item count after the last `ran` of `n` tasks have been claimed one by one, where it was
/// `n` before the first claim: the claim of each passes those that were claimed before it.
pub open spec fn count_after(n: int, ran: int) -> int {
    let left = n - triangle(ran - 1);
    if left >= 0 {
        left
    } else {
        left + usize::MAX + 1
    }
}

/// What is left to do where the last `ran` of the tasks have run.
proof fn lemma_exhaust_runs_rest(records: Seq<Record>, items: usize, ran: int)
    requires
        0 <= ran <= records.len(),
        records.len() > 0,
        triangle(records.len() - 1) <= usize::MAX,
        records.len() <= usize::MAX,
        items == count_after(records.len() as int, ran),
        forall|j: int| 0 <= j < records.len() - ran ==> (#[trigger] records[j]).state == 0,
        forall|j: int|
            records.len() - ran <= j < records.len() ==> (#[trigger] records[j]).state == 2,
        forall|j: int| 0 <= j < records.len() - 1 ==> #[trigger] triangle(j) != records.len(),
    ensures
        exhausted(records, items).0.len() == records.len(),
        forall|j: int|
            0 <= j < records.len() ==> #[trigger] exhausted(records, items).0[j]
                == records[j].with_state(2),
    decreases records.len() - ran,
{
    let n = records.len() as int;
    let k = n - ran - 1;
    queue::law_claim_counts_passed(records, items, k);
    if ran < n {
        assert(items != 0) by {
            if ran > 0 {
                lemma_triangle(ran - 1);
                lemma_triangle_grows(ran - 1, n - 1);
                assert(triangle(ran - 1) != n);
            } else {
                lemma_triangle_of_nothing();
            }
        }
        let run = buffer::with_state(records, k, FINISHED);
        queue::law_claim_uses_up_one(records, FINISHED);
        queue::lemma_cleanup_keeps_unclaimed(run);
        queue::law_cleanup_keeps_front(run);
        let kept = queue::after_cleanup(run);
        assert(kept.len() == n) by {
            if kept.len() < n {
                assert(run[n - 1].state == CAN_FREE);
            }
        }
        assert(kept =~= run);
        let rest = queue::items_after_claim(records, items);
        assert(rest == count_after(n, ran + 1)) by {
            if ran > 0 {
                lemma_triangle(ran - 1);
            } else {
                lemma_triangle_of_nothing();
            }
            lemma_triangle_grows(ran, n - 1);
        }
        lemma_exhaust_runs_rest(run, rest, ran + 1);
        assert(exhausted(records, items) == exhausted(run, rest));
        assert forall|j: int| 0 <= j < n implies #[trigger] exhausted(records, items).0[j]
            == records[j].with_state(2) by {
            assert(exhausted(run, rest).0[j] == run[j].with_state(2));
        }
    } else {
        assert(exhausted(records, items).0 == records);
        assert forall|j: int| 0 <= j < n implies #[trigger] exhausted(records, items).0[j]
            == records[j].with_state(2) by {
            assert(records[j].state == 2);
        }
    }
}

/// A finite runner that nobody disturbs runs all of the tasks of a queue to which they were
/// added one after the other, which nobody has claimed and which the item count therefore
/// counts, and changes nothing of them but their states. Left out are the numbers of tasks at
/// which the item count, which goes down by one for each claimed task that a claim passes,
/// comes to zero between two claims: those that are the sum of the numbers from one up to some
/// number that is smaller by at least two.
pub proof fn law_exhaust_runs_all(records: Seq<Record>, items: usize)
    requires
        items == records.len(),
        triangle(records.len() - 1) <= usize::MAX,
        forall|j: int| 0 <= j < records.len() ==> (#[trigger] records[j]).state == 0,
        forall|j: int| 0 <= j < records.len() - 1 ==> #[trigger] triangle(j) != records.len(),
    ensures
        exhausted(records, items).0.len() == records.len(),
        forall|j: int|
            0 <= j < records.len() ==> #[trigger] exhausted(records, items).0[j]
                == records[j].with_state(2),
        queue::unclaimed(exhausted(records, items).0) == 0,
{
    let left = exhausted(records, items).0;
    if records.len() > 0 {
        lemma_triangle_of_nothing();
        lemma_exhaust_runs_rest(records, items, 0);
    }
    queue::law_claim_is_last_unclaimed(left);
    assert(queue::claim_index(left) < 0) by {
        if queue::claim_index(left) >= 0 {
            assert(left[queue::claim_index(left)].state == 2);
        }
    }
    queue::lemma_none_unclaimed(left);
}

} // verus!
