//! The queue of tasks.
use vstd::prelude::*;
use crate::address;
use crate::buffer;
use crate::layout;
use crate::layout::RecordLayout;
use crate::layout::FOOTER_SIZE;
use crate::layout::STATE_SIZE;
use crate::record;
use crate::record::Record;
use crate::record::CAN_FREE;
use crate::record::CLAIMED;
use crate::record::FINISHED;
use crate::record::NOT_CLAIMED;
use crate::word;
use crate::word::WORD;

verus! {

/// The record of a value that nobody has claimed, as it is added at the address `at`.
pub open spec fn new_record(at: int, data: Seq<u8>, align: usize, vtable: usize) -> Record {
    let value_padding = layout::value_padding(at, align as int);
    Record {
        value_padding: value_padding as nat,
        data,
        state: NOT_CLAIMED,
        ptr_padding: layout::ptr_padding(value_padding, data.len() as int) as nat,
        vtable,
        align,
    }
}

/// Where the next record starts, in a buffer that starts at the address `base`.
pub open spec fn next_address(records: Seq<Record>, base: usize) -> int {
    base + buffer::encode_all(records).len()
}

/// The last record that nobody has claimed, or -1 where each record is claimed.
pub open spec fn claim_index(records: Seq<Record>) -> int
    decreases records.len(),
{
    if records.len() == 0 {
        -1
    } else if records.last().state == NOT_CLAIMED {
        records.len() - 1
    } else {
        claim_index(records.drop_last())
    }
}

/// How many records at the end of the buffer may be removed.
pub open spec fn free_tail(records: Seq<Record>) -> nat
    decreases records.len(),
{
    if records.len() == 0 || records.last().state != CAN_FREE {
        0
    } else {
        free_tail(records.drop_last()) + 1
    }
}

/// The records after a claim.
pub open spec fn after_claim(records: Seq<Record>) -> Seq<Record> {
    let k = claim_index(records);
    if k >= 0 {
        buffer::with_state(records, k, CLAIMED)
    } else {
        records
    }
}

/// The item count after a claim: each claimed record that the search passes is taken off.
pub open spec fn items_after_claim(records: Seq<Record>, items: usize) -> usize {
    items.wrapping_sub((records.len() - 1 - claim_index(records)) as usize)
}

/// The records after a cleanup.
pub open spec fn after_cleanup(records: Seq<Record>) -> Seq<Record> {
    records.take(records.len() - free_tail(records))
}

/// Where a claimed task lies in the buffer, and how its value is read.
#[derive(Clone, Copy, Debug, PartialEq, Eq)]
pub struct ClaimedTask {
    /// Where the state lies.
    pub state: usize,
    /// Where the value starts.
    pub value: usize,
    /// The size of the value.
    pub size: usize,
    /// The alignment of the value.
    pub align: usize,
    /// The address of the value's vtable.
    pub vtable: usize,
}

impl ClaimedTask {
    /// Whether this is the task of record `k`.
    pub open spec fn is_record(self, records: Seq<Record>, k: int) -> bool {
        &&& self.state == buffer::state_offset(records, k)
        &&& self.value == buffer::value_offset(records, k)
        &&& self.size == records[k].data.len()
        &&& self.align == records[k].align
        &&& self.vtable == records[k].vtable
    }
}

pub(crate) fn push_zeros(bytes: &mut Vec<u8>, n: usize)
    ensures
        final(bytes)@ == old(bytes)@ + record::zeros(n as nat),
{
    let mut i: usize = 0;
    while i < n
        invariant
            i <= n,
            bytes@ == old(bytes)@ + record::zeros(i as nat),
        decreases n - i,
    {
        bytes.push(0u8);
        i += 1;
        assert(bytes@ =~= old(bytes)@ + record::zeros(i as nat));
    }
    assert(n == i);
}

pub(crate) fn push_bytes(bytes: &mut Vec<u8>, added: &[u8])
    ensures
        final(bytes)@ == old(bytes)@ + added@,
{
    bytes.extend_from_slice(added);
    assert(bytes@ =~= old(bytes)@ + added@);
}

fn push_word(bytes: &mut Vec<u8>, x: usize)
    ensures
        final(bytes)@ == old(bytes)@ + word::word_bytes(x),
{
    let added: [u8; 8] = word::word_to_bytes(x);
    let mut i: usize = 0;
    while i < 8
        invariant
            i <= 8,
            bytes@ == old(bytes)@ + added@.take(i as int),
        decreases 8 - i,
    {
        bytes.push(added[i]);
        i += 1;
        assert(bytes@ =~= old(bytes)@ + added@.take(i as int));
    }
    assert(added@.take(8) =~= added@);
}

fn read_word(bytes: &Vec<u8>, at: usize) -> (r: usize)
    requires
        at + WORD <= bytes.len(),
    ensures
        r == word::word_value(bytes@.subrange(at as int, at + WORD)),
{
    let word: [u8; 8] = [
        bytes[at],
        bytes[at + 1],
        bytes[at + 2],
        bytes[at + 3],
        bytes[at + 4],
        bytes[at + 5],
        bytes[at + 6],
        bytes[at + 7],
    ];
    assert(word@ =~= bytes@.subrange(at as int, at + WORD));
    word::word_from_bytes(word)
}

/// Tasks in the order in which they were added, each as a record in one buffer.
pub struct TaskQueue {
    queue: Vec<u8>,
    item_count: usize,
    finished: bool,
    records: Ghost<Seq<Record>>,
}

impl View for TaskQueue {
    type V = Seq<Record>;

    closed spec fn view(&self) -> Seq<Record> {
        self.records@
    }
}

impl TaskQueue {
    /// The buffer holds the records of the view.
    pub closed spec fn wf(&self) -> bool {
        &&& self.queue@ == buffer::encode_all(self.records@)
        &&& buffer::all_wf(self.records@)
    }

    /// How many tasks were added, less how often a search for a task to claim passed
    /// one that was claimed. It wraps around.
    pub closed spec fn items(&self) -> usize {
        self.item_count
    }

    /// Whether no more tasks are to come.
    pub closed spec fn closed(&self) -> bool {
        self.finished
    }

    /// An empty queue.
    pub fn new() -> (r: TaskQueue)
        ensures
            r.wf(),
            r@ == Seq::<Record>::empty(),
            r.items() == 0,
            !r.closed(),
    {
        TaskQueue {
            queue: Vec::with_capacity(1024),
            item_count: 0,
            finished: false,
            records: Ghost(Seq::empty()),
        }
    }

    /// The buffer.
    pub fn bytes(&self) -> (r: &[u8])
        requires
            self.wf(),
        ensures
            r@ == buffer::encode_all(self@),
    {
        self.queue.as_slice()
    }

    /// Makes room for `additional` bytes, so that adding them does not move the buffer.
    pub(crate) fn reserve(&mut self, additional: usize)
        requires
            old(self).wf(),
            buffer::encode_all(old(self)@).len() + additional <= isize::MAX,
        ensures
            final(self).wf(),
            final(self)@ == old(self)@,
            final(self).items() == old(self).items(),
            final(self).closed() == old(self).closed(),
    {
        self.queue.reserve(additional);
    }

    /// The address where the buffer starts. The allocator chose it: nothing is said of it.
    pub(crate) fn address(&self) -> (r: usize) {
        address::address_of(&self.queue)
    }

    /// The buffer of a queue reads back as its records, and takes a whole number of words.
    pub proof fn law_queue_reads_back(&self)
        requires
            self.wf(),
        ensures
            buffer::decode_all(buffer::encode_all(self@)) == self@,
            buffer::encode_all(self@).len() % (WORD as nat) == 0,
    {
        buffer::law_buffer_reads_back(self@);
    }

    /// Each record of a queue is well formed.
    pub proof fn lemma_records_wf(&self, k: int)
        requires
            self.wf(),
            0 <= k < self@.len(),
        ensures
            self@[k].wf(),
    {
    }

    /// Whether the queue holds no record.
    pub fn is_empty(&self) -> (r: bool)
        requires
            self.wf(),
        ensures
            r == (self@.len() == 0),
    {
        proof {
            buffer::lemma_len_bound(self@);
        }
        self.queue.len() == 0
    }

    /// The count of [`TaskQueue::items`].
    pub fn item_count(&self) -> (r: usize)
        ensures
            r == self.items(),
    {
        self.item_count
    }

    /// Whether no more tasks are to come.
    pub fn finished(&self) -> (r: bool)
        ensures
            r == self.closed(),
    {
        self.finished
    }

    /// Says that no more tasks are to come.
    pub fn set_finished(&mut self)
        requires
            old(self).wf(),
        ensures
            final(self).wf(),
            final(self)@ == old(self)@,
            final(self).items() == old(self).items(),
            final(self).closed(),
    {
        self.finished = true;
    }

    /// Adds the value `data`, for a buffer that starts at the address `base`. Returns
    /// where the state of the record and where its value lie.
    pub fn push_at(&mut self, base: usize, data: &[u8], align: usize, vtable: usize) -> (r: (
        usize,
        usize,
    ))
        requires
            old(self).wf(),
            align > 0,
            buffer::encode_all(old(self)@).len() + layout::record_size_at(
                next_address(old(self)@, base),
                data@.len() as int,
                align as int,
            ) <= isize::MAX,
            data@.len() + align <= isize::MAX,
        ensures
            final(self).wf(),
            final(self)@ == old(self)@.push(
                new_record(next_address(old(self)@, base), data@, align, vtable),
            ),
            final(self).items() == old(self).items().wrapping_add(1),
            final(self).closed() == old(self).closed(),
            final(self)@.len() == old(self)@.len() + 1,
            final(self)@.drop_last() == old(self)@,
            final(self)@.last().vtable == vtable,
            final(self)@.last().data == data@,
            final(self)@.last().align == align,
            final(self)@.last().state == 0,
            final(self)@.last().value_padding < align,
            final(self)@.last().ptr_padding < 8,
            r.1 == buffer::encode_all(old(self)@).len() + final(self)@.last().value_padding + 8,
            r.0 == r.1 + data@.len(),
            r.0 < buffer::encode_all(final(self)@).len(),
            buffer::encode_all(final(self)@).take(buffer::encode_all(old(self)@).len() as int)
                == buffer::encode_all(old(self)@),
            buffer::encode_all(final(self)@).subrange(r.1 as int, r.0 as int) == data@,
            buffer::encode_all(final(self)@)[r.0 as int] == 0,
            final(self).items() == if old(self).items() == usize::MAX {
                0
            } else {
                old(self).items() + 1
            },
            r.0 == buffer::state_offset(final(self)@, old(self)@.len() as int),
            r.1 == buffer::value_offset(final(self)@, old(self)@.len() as int),
            (base + r.1) % (align as int) == 0,
            buffer::decode_all(buffer::encode_all(final(self)@)) == buffer::decode_all(
                buffer::encode_all(old(self)@),
            ).push(new_record(next_address(old(self)@, base), data@, align, vtable)),
            buffer::encode_all(final(self)@).len() % (WORD as nat) == 0,
    {
        let ghost at: int = next_address(self@, base);
        let ghost added = new_record(at, data@, align, vtable);
        proof {
            layout::law_record_paddings_are_least(at, data@.len() as int, align as int);
            word::law_word_round_trip(vtable);
        }
        let parts: RecordLayout = RecordLayout::new(base, self.queue.len(), data.len(), align);
        push_zeros(&mut self.queue, parts.value_padding);
        push_word(&mut self.queue, vtable);
        let value: usize = self.queue.len();
        push_bytes(&mut self.queue, data);
        let state: usize = self.queue.len();
        self.queue.push(NOT_CLAIMED);
        push_zeros(&mut self.queue, parts.ptr_padding);
        push_word(&mut self.queue, parts.ptr_padding);
        push_word(&mut self.queue, align);
        push_word(&mut self.queue, data.len());
        push_word(&mut self.queue, parts.size);
        self.item_count = self.item_count.wrapping_add(1);
        proof {
            assert(self.queue@ =~= buffer::encode_all(old(self)@) + added.encode());
            lemma_added(self@, at, data@, align, vtable);
            self.records@ = self.records@.push(added);
        }
        (state, value)
    }

    /// Reads the record that ends at `end`, which is record `k`, and how long it is.
    fn locate(&self, end: usize, Ghost(k): Ghost<int>) -> (r: (ClaimedTask, usize))
        requires
            self.wf(),
            0 <= k < self@.len(),
            end == buffer::start(self@, k + 1),
        ensures
            r.0.is_record(self@, k),
            r.1 == self@[k].size(),
            r.0.state < self.queue.len(),
            self.queue@[r.0.state as int] == self@[k].state,
    {
        let ghost all = self.queue@;
        let ghost prefix = buffer::encode_all(self@.take(k));
        proof {
            buffer::lemma_prefix(self@, k);
            buffer::lemma_prefix(self@, k + 1);
            buffer::lemma_start_step(self@, k);
            let bytes = all.take(end as int);
            assert(bytes =~= prefix + self@[k].encode());
            record::lemma_footer(prefix, self@[k]);
            record::law_record_round_trip(prefix, self@[k]);
            record::law_record_size(self@[k]);
            assert(bytes.subrange(end - WORD, end as int) =~= all.subrange(
                end - WORD,
                end as int,
            ));
            assert(bytes.subrange(end - 2 * WORD, end - WORD) =~= all.subrange(
                end - 2 * WORD,
                end - WORD,
            ));
            assert(bytes.subrange(end - 3 * WORD, end - 2 * WORD) =~= all.subrange(
                end - 3 * WORD,
                end - 2 * WORD,
            ));
            assert(bytes.subrange(end - 4 * WORD, end - 3 * WORD) =~= all.subrange(
                end - 4 * WORD,
                end - 3 * WORD,
            ));
            let value_at = buffer::value_offset(self@, k);
            assert(bytes.subrange(value_at - WORD, value_at) =~= all.subrange(
                value_at - WORD,
                value_at,
            ));
        }
        let total: usize = read_word(&self.queue, end - WORD);
        let size: usize = read_word(&self.queue, end - 2 * WORD);
        let align: usize = read_word(&self.queue, end - 3 * WORD);
        let ptr_padding: usize = read_word(&self.queue, end - 4 * WORD);
        let state: usize = end - FOOTER_SIZE - ptr_padding - STATE_SIZE;
        let value: usize = state - size;
        let vtable: usize = read_word(&self.queue, value - WORD);
        (ClaimedTask { state, value, size, align, vtable }, total)
    }

    /// Writes the state of record `k`.
    fn write_state(&mut self, offset: usize, state: u8, Ghost(k): Ghost<int>)
        requires
            old(self).wf(),
            0 <= k < old(self)@.len(),
            offset == buffer::state_offset(old(self)@, k),
        ensures
            final(self).wf(),
            final(self)@ == buffer::with_state(old(self)@, k, state),
            final(self).items() == old(self).items(),
            final(self).closed() == old(self).closed(),
    {
        proof {
            buffer::law_state_change_is_local(self@, k, state);
            record::law_state_is_one_byte(self@[k], state);
        }
        self.queue.set(offset, state);
        proof {
            self.records@ = buffer::with_state(self.records@, k, state);
        }
    }

    /// Claims the last task that nobody has claimed, searching from the end of the
    /// buffer. Each claimed task that the search passes is taken off the item count.
    pub fn claim(&mut self) -> (r: Option<ClaimedTask>)
        requires
            old(self).wf(),
        ensures
            final(self).wf(),
            final(self).closed() == old(self).closed(),
            final(self)@ == after_claim(old(self)@),
            final(self).items() == items_after_claim(old(self)@, old(self).items()),
            match r {
                Some(task) => {
                    let k = claim_index(old(self)@);
                    &&& 0 <= k < old(self)@.len()
                    &&& task.is_record(old(self)@, k)
                },
                None => claim_index(old(self)@) == -1,
            },
            final(self)@.len() == old(self)@.len(),
            old(self).items() >= old(self)@.len() - 1 - claim_index(old(self)@) ==> (
            final(self).items() == old(self).items() - (old(self)@.len() - 1 - claim_index(
                old(self)@,
            ))),
            final(self).items() == old(self).items().wrapping_sub(
                (old(self)@.len() - 1 - claim_index(old(self)@)) as usize,
            ),
            match r {
                Some(task) => {
                    let k = claim_index(old(self)@);
                    &&& 0 <= k < old(self)@.len()
                    &&& old(self)@[k].state == 0
                    &&& forall|j: int|
                        k < j < old(self)@.len() ==> (#[trigger] old(self)@[j]).state != 0
                    &&& final(self)@[k].state == 1
                    &&& final(self)@[k] == old(self)@[k].with_state(1)
                    &&& forall|j: int|
                        0 <= j < old(self)@.len() && j != k ==> #[trigger] final(self)@[j]
                            == old(self)@[j]
                    &&& task.vtable == old(self)@[k].vtable
                    &&& task.align == old(self)@[k].align
                    &&& task.size == old(self)@[k].data.len()
                    &&& task.state == task.value + task.size
                    &&& task.state < buffer::encode_all(final(self)@).len()
                    &&& buffer::encode_all(final(self)@).subrange(
                        task.value as int,
                        task.state as int,
                    ) == old(self)@[k].data
                    &&& buffer::encode_all(final(self)@)[task.state as int] == 1
                },
                None => {
                    &&& final(self)@ == old(self)@
                    &&& forall|j: int|
                        0 <= j < old(self)@.len() ==> (#[trigger] old(self)@[j]).state != 0
                },
            },
    {
        let mut end: usize = self.queue.len();
        let ghost mut k: int = self@.len() as int;
        proof {
            buffer::lemma_prefix(self@, k);
            buffer::lemma_len_bound(self@);
            assert(self@.take(k) =~= self@);
        }
        while end > 0
            invariant
                self.wf(),
                self@ == old(self)@,
                self.closed() == old(self).closed(),
                0 <= k <= self@.len() <= usize::MAX,
                end == buffer::start(self@, k),
                claim_index(self@) == claim_index(self@.take(k)),
                self.items() == old(self).items().wrapping_sub((self@.len() - k) as usize),
            decreases k,
        {
            proof {
                buffer::lemma_len_bound(self@.take(k));
                if k == 0 {
                    assert(self@.take(0) =~= Seq::<Record>::empty());
                }
                assert(self@.take(k).drop_last() =~= self@.take(k - 1));
                buffer::lemma_start_step(self@, k - 1);
            }
            let (task, total): (ClaimedTask, usize) = self.locate(end, Ghost(k - 1));
            if self.queue[task.state] == NOT_CLAIMED {
                self.write_state(task.state, CLAIMED, Ghost(k - 1));
                proof {
                    law_claim_is_last_unclaimed(old(self)@);
                    buffer::law_state_change_is_local(old(self)@, k - 1, CLAIMED);
                    buffer::law_places_in_buffer(self@, k - 1);
                    assert(buffer::start(self@, k - 1) == buffer::start(old(self)@, k - 1));
                }
                return Some(task);
            }
            self.item_count = self.item_count.wrapping_sub(1);
            end = end - total;
            proof {
                k = k - 1;
            }
        }
        proof {
            law_claim_is_last_unclaimed(self@);
            buffer::lemma_len_bound(self@.take(k));
            assert(self@.take(0) =~= Seq::<Record>::empty());
        }
        None
    }

    /// The bytes of the value of a task.
    pub fn value(&self, task: &ClaimedTask) -> (r: &[u8])
        requires
            self.wf(),
            exists|k: int| 0 <= k < self@.len() && #[trigger] task.is_record(self@, k),
        ensures
            forall|k: int|
                0 <= k < self@.len() && #[trigger] task.is_record(self@, k) ==> r@ == self@[k].data,
            r@.len() == task.size,
            task.value + task.size <= buffer::encode_all(self@).len(),
            r@ == buffer::encode_all(self@).subrange(task.value as int, task.value + task.size),
    {
        proof {
            assert forall|k: int| 0 <= k < self@.len() && #[trigger] task.is_record(
                self@,
                k,
            ) implies {
                &&& task.value + task.size <= self.queue@.len()
                &&& self.queue@.subrange(task.value as int, task.value + task.size) == self@[k].data
            } by {
                buffer::lemma_value_bytes(self@, k);
            }
        }
        vstd::slice::slice_subrange(self.queue.as_slice(), task.value, task.value + task.size)
    }

    /// Whether the state of some record lies at `offset`.
    pub fn has_state_at(&self, offset: usize) -> (r: bool)
        requires
            self.wf(),
        ensures
            r == buffer::is_state_offset(self@, offset as int),
            r == (exists|k: int|
                0 <= k < self@.len() && offset == #[trigger] buffer::value_offset(self@, k)
                    + self@[k].data.len()),
    {
        proof {
            buffer::law_state_offset_is_behind_value(self@, offset as int);
        }
        let mut end: usize = self.queue.len();
        let ghost mut k: int = self@.len() as int;
        proof {
            buffer::lemma_prefix(self@, k);
        }
        while end > 0
            invariant
                self.wf(),
                0 <= k <= self@.len(),
                end == buffer::start(self@, k),
                forall|j: int|
                    k <= j < self@.len() ==> #[trigger] buffer::state_offset(self@, j) != offset,
            decreases k,
        {
            proof {
                if k == 0 {
                    assert(self@.take(0) =~= Seq::<Record>::empty());
                }
                buffer::lemma_start_step(self@, k - 1);
            }
            let (task, total): (ClaimedTask, usize) = self.locate(end, Ghost(k - 1));
            if task.state == offset {
                assert(buffer::state_offset(self@, k - 1) == offset);
                return true;
            }
            end = end - total;
            proof {
                k = k - 1;
            }
        }
        proof {
            buffer::lemma_len_bound(self@.take(k));
        }
        false
    }

    /// The state that lies at `offset`.
    pub fn state(&self, offset: usize) -> (r: u8)
        requires
            self.wf(),
            buffer::is_state_offset(self@, offset as int),
        ensures
            forall|k: int|
                0 <= k < self@.len() && #[trigger] buffer::state_offset(self@, k) == offset ==> r
                    == self@[k].state,
            offset < buffer::encode_all(self@).len(),
            r == buffer::encode_all(self@)[offset as int],
    {
        proof {
            let k = choose|k: int|
                0 <= k < self@.len() && #[trigger] buffer::state_offset(self@, k) == offset;
            buffer::law_state_change_is_local(self@, k, self@[k].state);
            assert(buffer::with_state(self@, k, self@[k].state) =~= self@);
            assert forall|j: int|
                0 <= j < self@.len() && #[trigger] buffer::state_offset(self@, j) == offset implies j
                == k by {
                if j != k {
                    buffer::law_state_offsets_differ(self@, j, k);
                }
            }
            assert(self.queue@.update(offset as int, self@[k].state)[offset as int]
                == self@[k].state);
        }
        self.queue[offset]
    }

    /// Stores a state at `offset`.
    pub fn set_state(&mut self, offset: usize, state: u8)
        requires
            old(self).wf(),
            buffer::is_state_offset(old(self)@, offset as int),
        ensures
            final(self).wf(),
            forall|k: int|
                0 <= k < old(self)@.len() && #[trigger] buffer::state_offset(old(self)@, k)
                    == offset ==> final(self)@ == buffer::with_state(old(self)@, k, state),
            final(self).items() == old(self).items(),
            final(self).closed() == old(self).closed(),
            final(self)@.len() == old(self)@.len(),
            forall|k: int|
                0 <= k < old(self)@.len() ==> #[trigger] final(self)@[k] == old(self)@[k].with_state(
                    if buffer::state_offset(old(self)@, k) == offset {
                        state
                    } else {
                        old(self)@[k].state
                    },
                ),
            buffer::encode_all(final(self)@) == buffer::encode_all(old(self)@).update(
                offset as int,
                state,
            ),
    {
        let ghost k: int = choose|k: int|
            0 <= k < self@.len() && #[trigger] buffer::state_offset(self@, k) == offset;
        proof {
            assert forall|j: int|
                0 <= j < self@.len() && #[trigger] buffer::state_offset(self@, j) == offset implies j
                == k by {
                if j != k {
                    buffer::law_state_offsets_differ(self@, j, k);
                }
            }
        }
        proof {
            buffer::law_state_change_is_local(self@, k, state);
            assert forall|j: int| 0 <= j < self@.len() implies (j == k) == (
            #[trigger] buffer::state_offset(self@, j) == offset) by {}
        }
        self.write_state(offset, state, Ghost(k));
    }

    /// Marks the task whose state lies at `offset` as run.
    pub fn finish(&mut self, offset: usize)
        requires
            old(self).wf(),
            buffer::is_state_offset(old(self)@, offset as int),
        ensures
            final(self).wf(),
            forall|k: int|
                0 <= k < old(self)@.len() && #[trigger] buffer::state_offset(old(self)@, k)
                    == offset ==> final(self)@ == buffer::with_state(old(self)@, k, FINISHED),
            final(self).items() == old(self).items(),
            final(self).closed() == old(self).closed(),
            final(self)@.len() == old(self)@.len(),
            forall|k: int|
                0 <= k < old(self)@.len() ==> #[trigger] final(self)@[k] == old(self)@[k].with_state(
                    if buffer::state_offset(old(self)@, k) == offset {
                        2
                    } else {
                        old(self)@[k].state
                    },
                ),
            buffer::encode_all(final(self)@) == buffer::encode_all(old(self)@).update(
                offset as int,
                2,
            ),
    {
        self.set_state(offset, FINISHED);
    }

    /// How many bytes the records at the end of the buffer take that may be removed.
    pub fn cleanup_len(&self) -> (r: usize)
        requires
            self.wf(),
        ensures
            r == buffer::encode_all(self@).len() - buffer::start(
                self@,
                self@.len() - free_tail(self@),
            ),
            (r > 0) == (free_tail(self@) > 0),
            r <= buffer::encode_all(self@).len(),
            forall|j: int|
                0 <= j < self@.len() && #[trigger] buffer::start(self@, j) >= buffer::encode_all(
                    self@,
                ).len() - r ==> self@[j].state == 3,
            forall|j: int|
                0 <= j < self@.len() && buffer::encode_all(self@).len() - r
                    == #[trigger] buffer::start(self@, j) + self@[j].size() ==> self@[j].state
                    != 3,
    {
        let mut end: usize = self.queue.len();
        let mut cleanup_len: usize = 0;
        let ghost mut k: int = self@.len() as int;
        proof {
            buffer::lemma_prefix(self@, k);
            assert(self@.take(k) =~= self@);
        }
        while end > 0
            invariant
                self.wf(),
                0 <= k <= self@.len(),
                end == buffer::start(self@, k),
                end + cleanup_len == self.queue.len(),
                (cleanup_len > 0) == (k < self@.len()),
                free_tail(self@) == free_tail(self@.take(k)) + (self@.len() - k),
            decreases k,
        {
            proof {
                if k == 0 {
                    assert(self@.take(0) =~= Seq::<Record>::empty());
                }
                assert(self@.take(k).drop_last() =~= self@.take(k - 1));
                buffer::lemma_start_step(self@, k - 1);
            }
            let (task, total): (ClaimedTask, usize) = self.locate(end, Ghost(k - 1));
            if self.queue[task.state] != CAN_FREE {
                proof {
                    law_cleanup_is_by_state(self@);
                }
                return cleanup_len;
            }
            cleanup_len = cleanup_len + total;
            end = end - total;
            proof {
                k = k - 1;
            }
        }
        proof {
            buffer::lemma_len_bound(self@.take(k));
            law_cleanup_is_by_state(self@);
        }
        cleanup_len
    }

    /// Removes the records at the end of the buffer that may be removed. Returns how
    /// many bytes they took.
    pub fn cleanup(&mut self) -> (r: usize)
        requires
            old(self).wf(),
        ensures
            final(self).wf(),
            final(self)@ == after_cleanup(old(self)@),
            final(self)@.len() <= old(self)@.len(),
            final(self)@ == old(self)@.take(final(self)@.len() as int),
            forall|j: int|
                final(self)@.len() <= j < old(self)@.len() ==> (#[trigger] old(self)@[j]).state
                    == 3,
            final(self)@.len() > 0 ==> final(self)@.last().state != 3,
            r == buffer::encode_all(old(self)@).len() - buffer::encode_all(final(self)@).len(),
            final(self).items() == old(self).items(),
            final(self).closed() == old(self).closed(),
    {
        let ghost kept: int = self@.len() - free_tail(self@);
        proof {
            lemma_free_tail(self@);
            buffer::law_take_keeps_offsets(self@, kept);
            buffer::lemma_prefix(self@, kept);
        }
        let cleanup_len: usize = self.cleanup_len();
        if cleanup_len > 0 {
            let queue_len: usize = self.queue.len();
            self.queue.truncate(queue_len - cleanup_len);
            proof {
                self.records@ = self.records@.take(kept);
            }
        } else {
            assert(self@.take(kept) =~= self@);
        }
        cleanup_len
    }
}

/// The records that [`free_tail`] counts may be removed, and the one in front of them
/// may not.
pub proof fn lemma_free_tail(records: Seq<Record>)
    ensures
        free_tail(records) <= records.len(),
        forall|j: int|
            records.len() - free_tail(records) <= j < records.len() ==> (#[trigger] records[j]).state
                == CAN_FREE,
        free_tail(records) < records.len() ==> records[records.len() - free_tail(records)
            - 1].state != CAN_FREE,
    decreases records.len(),
{
    if records.len() > 0 && records.last().state == CAN_FREE {
        lemma_free_tail(records.drop_last());
        assert forall|j: int|
            records.len() - free_tail(records) <= j < records.len() implies (
        #[trigger] records[j]).state == CAN_FREE by {
            if j < records.len() - 1 {
                assert(records.drop_last()[j].state == CAN_FREE);
            }
        }
    }
}

/// A search for a task to claim finds the last record that nobody has claimed, and
/// finds none exactly where each record is claimed.
pub proof fn law_claim_is_last_unclaimed(records: Seq<Record>)
    ensures
        -1 <= claim_index(records) < records.len(),
        claim_index(records) >= 0 ==> records[claim_index(records)].state == NOT_CLAIMED,
        forall|j: int|
            claim_index(records) < j < records.len() ==> (#[trigger] records[j]).state
                != NOT_CLAIMED,
    decreases records.len(),
{
    if records.len() > 0 && records.last().state != NOT_CLAIMED {
        law_claim_is_last_unclaimed(records.drop_last());
        assert forall|j: int| claim_index(records) < j < records.len() implies (
        #[trigger] records[j]).state != NOT_CLAIMED by {
            if j < records.len() - 1 {
                assert(records.drop_last()[j].state != NOT_CLAIMED);
            }
        }
    }
}

/// What adding a record does to the records and to the bytes of the buffer.
proof fn lemma_added(records: Seq<Record>, at: int, data: Seq<u8>, align: usize, vtable: usize)
    requires
        buffer::all_wf(records),
        align > 0,
        buffer::encode_all(records).len() + layout::record_size_at(
            at,
            data.len() as int,
            align as int,
        ) <= isize::MAX,
        data.len() + align <= isize::MAX,
    ensures
        ({
            let added = new_record(at, data, align, vtable);
            let all = records.push(added);
            let n = records.len() as int;
            let before = buffer::encode_all(records);
            let after = buffer::encode_all(all);
            let value = before.len() + added.value_padding + 8;
            let state = value + data.len();
            &&& added.wf()
            &&& added.value_padding == layout::value_padding(at, align as int) < align
            &&& added.ptr_padding == layout::ptr_padding(
                added.value_padding as int,
                data.len() as int,
            ) < 8
            &&& added.size() == layout::record_size_at(at, data.len() as int, align as int)
            &&& buffer::all_wf(all)
            &&& all.drop_last() == records
            &&& after == before + added.encode()
            &&& after.len() == before.len() + added.size()
            &&& after.len() % (WORD as nat) == 0
            &&& after.take(before.len() as int) == before
            &&& state < after.len()
            &&& after.subrange(value as int, state as int) == data
            &&& after[state as int] == 0
            &&& buffer::value_offset(all, n) == value
            &&& buffer::state_offset(all, n) == state
            &&& (at + added.value_padding + 8) % (align as int) == 0
            &&& buffer::decode_all(before) == records
            &&& buffer::decode_all(after) == all
            &&& word::word_bytes(vtable).len() == WORD
        }),
{
    let added = new_record(at, data, align, vtable);
    let all = records.push(added);
    let n = records.len() as int;
    layout::law_record_paddings_are_least(at, data.len() as int, align as int);
    layout::law_record_is_whole_words(at, data.len() as int, align as int);
    word::law_word_round_trip(vtable);
    buffer::law_buffer_reads_back(records);
    buffer::law_push_keeps_offsets(records, added);
    buffer::lemma_prefix(records, n);
    record::law_record_size(added);
    assert forall|k: int| 0 <= k < all.len() implies (#[trigger] all[k]).wf() by {
        if k < n {
            assert(all[k] == records[k]);
        }
    }
    buffer::law_buffer_reads_back(all);
    buffer::law_places_in_buffer(all, n);
    assert(all.drop_last() =~= records);
    assert(buffer::start(all, n) == buffer::start(records, n));
    assert((buffer::encode_all(records) + added.encode()).take(
        buffer::encode_all(records).len() as int,
    ) =~= buffer::encode_all(records));
}

/// The record of a task holds what the task was added with: the vtable address, the value and
/// its alignment, each as it was given, and the state of a task that nobody has claimed. Its
/// paddings are the least that align the value and the end of the record.
pub proof fn law_new_record_holds_task(at: int, data: Seq<u8>, align: usize, vtable: usize)
    requires
        align > 0,
    ensures
        ({
            let r = new_record(at, data, align, vtable);
            &&& r.vtable == vtable
            &&& r.data == data
            &&& r.align == align
            &&& r.state == 0
            &&& 0 <= r.value_padding < align
            &&& (at + r.value_padding + 8) % (align as int) == 0
            &&& 0 <= r.ptr_padding < 8
            &&& (r.value_padding + 8 + data.len() + 1 + r.ptr_padding) % 8 == 0
        }),
{
    layout::law_record_paddings_are_least(at, data.len() as int, align as int);
}

/// A task that was added is the next one to be claimed, and what is claimed is what was added:
/// the same vtable address, value and alignment. The claim passes no record, so that it leaves
/// the item count as it is, and it leaves each record that was there before as it was.
pub proof fn law_added_task_is_claimed_next(
    records: Seq<Record>,
    at: int,
    data: Seq<u8>,
    align: usize,
    vtable: usize,
    items: usize,
)
    ensures
        ({
            let added = records.push(new_record(at, data, align, vtable));
            let k = claim_index(added);
            let claimed = after_claim(added);
            &&& k == records.len()
            &&& added[k].vtable == vtable
            &&& added[k].data == data
            &&& added[k].align == align
            &&& forall|task: ClaimedTask| #[trigger]
                task.is_record(added, k) ==> {
                    &&& task.vtable == vtable
                    &&& task.size == data.len()
                    &&& task.align == align
                }
            &&& items_after_claim(added, items) == items
            &&& claimed.len() == records.len() + 1
            &&& claimed.drop_last() == records
            &&& claimed.last().vtable == vtable
            &&& claimed.last().data == data
            &&& claimed.last().align == align
            &&& claimed.last().state == 1
        }),
{
}

/// Where record `k` is the last that nobody has claimed, a claim takes one off the item count
/// for each record behind it; where there is none, which `k` says as -1, it takes one off for
/// each record. The count wraps around.
pub proof fn law_claim_counts_passed(records: Seq<Record>, items: usize, k: int)
    requires
        records.len() <= usize::MAX,
        -1 <= k < records.len(),
        k >= 0 ==> records[k].state == 0,
        forall|j: int| k < j < records.len() ==> (#[trigger] records[j]).state != 0,
    ensures
        claim_index(records) == k,
        ({
            let left = items - (records.len() - 1 - k);
            items_after_claim(records, items) == if left >= 0 {
                left
            } else {
                left + usize::MAX + 1
            }
        }),
{
    law_claim_is_last_unclaimed(records);
}

/// Where record `k` is the last that nobody has claimed, a claim makes it claimed and changes
/// nothing else; where there is none, which `k` says as -1, it changes nothing.
pub proof fn law_claim_marks_last_unclaimed(records: Seq<Record>, k: int, j: int)
    requires
        -1 <= k < records.len(),
        k >= 0 ==> records[k].state == 0,
        forall|j: int| k < j < records.len() ==> (#[trigger] records[j]).state != 0,
        0 <= j < records.len(),
    ensures
        after_claim(records).len() == records.len(),
        k == -1 ==> after_claim(records) == records,
        after_claim(records)[j].state == if j == k {
            1
        } else {
            records[j].state
        },
        after_claim(records)[j].vtable == records[j].vtable,
        after_claim(records)[j].data == records[j].data,
        after_claim(records)[j].align == records[j].align,
        after_claim(records)[j].value_padding == records[j].value_padding,
        after_claim(records)[j].ptr_padding == records[j].ptr_padding,
{
    law_claim_is_last_unclaimed(records);
}

/// A step of the queue.
pub enum QueueStep {
    /// A record is added.
    Add(Record),
    /// A task is claimed.
    Claim,
    /// A state is stored for a record.
    Mark(int, u8),
    /// What may be removed is removed.
    Cleanup,
}

/// Whether a step stores no [`NOT_CLAIMED`], and stores a state only for a record that is
/// there.
pub open spec fn step_allowed(records: Seq<Record>, step: QueueStep) -> bool {
    match step {
        QueueStep::Mark(k, state) => 0 <= k < records.len() && state != NOT_CLAIMED,
        _ => true,
    }
}

/// Whether a step stores a state for record `j`.
pub open spec fn marks(step: QueueStep, j: int) -> bool {
    match step {
        QueueStep::Mark(k, _) => k == j,
        _ => false,
    }
}

/// The records after a step.
pub open spec fn after_step(records: Seq<Record>, step: QueueStep) -> Seq<Record> {
    match step {
        QueueStep::Add(added) => records.push(added),
        QueueStep::Claim => after_claim(records),
        QueueStep::Mark(k, state) => buffer::with_state(records, k, state),
        QueueStep::Cleanup => after_cleanup(records),
    }
}

/// The records after some steps.
pub open spec fn after_steps(records: Seq<Record>, steps: Seq<QueueStep>) -> Seq<Record>
    decreases steps.len(),
{
    if steps.len() == 0 {
        records
    } else {
        after_step(after_steps(records, steps.drop_last()), steps.last())
    }
}

/// Whether each of some steps is allowed where it is taken.
pub open spec fn steps_allowed(records: Seq<Record>, steps: Seq<QueueStep>) -> bool
    decreases steps.len(),
{
    steps.len() == 0 || {
        &&& steps_allowed(records, steps.drop_last())
        &&& step_allowed(after_steps(records, steps.drop_last()), steps.last())
    }
}

/// Whether record `j` is there before, between and after some steps.
pub open spec fn stays(records: Seq<Record>, steps: Seq<QueueStep>, j: int) -> bool
    decreases steps.len(),
{
    &&& 0 <= j < after_steps(records, steps).len()
    &&& steps.len() > 0 ==> stays(records, steps.drop_last(), j)
}

/// A record that is not to be claimed never becomes one that is: through any adds, claims,
/// marks and cleanups it keeps all but its state, its state stays other than
/// [`NOT_CLAIMED`], and no claim takes it, for as long as it is not removed.
pub proof fn law_claimed_once(records: Seq<Record>, steps: Seq<QueueStep>, j: int)
    requires
        0 <= j < records.len(),
        records[j].state != NOT_CLAIMED,
        steps_allowed(records, steps),
        stays(records, steps, j),
    ensures
        after_steps(records, steps)[j].state != NOT_CLAIMED,
        after_steps(records, steps)[j] == records[j].with_state(
            after_steps(records, steps)[j].state,
        ),
        claim_index(after_steps(records, steps)) != j,
    decreases steps.len(),
{
    if steps.len() > 0 {
        let before = after_steps(records, steps.drop_last());
        reveal_with_fuel(stays, 2);
        law_claimed_once(records, steps.drop_last(), j);
        law_claim_is_last_unclaimed(before);
        lemma_free_tail(before);
    }
    law_claim_is_last_unclaimed(after_steps(records, steps));
}

/// A record that is neither to be claimed nor to be removed stays through any adds, claims,
/// marks and cleanups that do not mark it as one that may be removed.
pub proof fn law_claimed_task_stays(records: Seq<Record>, steps: Seq<QueueStep>, j: int)
    requires
        0 <= j < records.len(),
        records[j].state != NOT_CLAIMED,
        records[j].state != CAN_FREE,
        steps_allowed(records, steps),
        forall|i: int| 0 <= i < steps.len() ==> #[trigger] steps[i] != QueueStep::Mark(j, CAN_FREE),
    ensures
        stays(records, steps, j),
        after_steps(records, steps)[j].state != CAN_FREE,
    decreases steps.len(),
{
    if steps.len() > 0 {
        let front = steps.drop_last();
        let before = after_steps(records, front);
        assert forall|i: int| 0 <= i < front.len() implies #[trigger] front[i] != QueueStep::Mark(
            j,
            CAN_FREE,
        ) by {
            assert(front[i] == steps[i]);
        }
        law_claimed_task_stays(records, front, j);
        law_claimed_once(records, front, j);
        law_claim_is_last_unclaimed(before);
        law_cleanup_removes_only_free(before);
        assert(steps[steps.len() - 1] == steps.last());
    }
}

/// A claimed record stays as it is, and where it is, through any adds, claims, marks of
/// other records and cleanups: its state is [`CLAIMED`] until it is marked itself.
pub proof fn law_claimed_until_marked(records: Seq<Record>, steps: Seq<QueueStep>, j: int)
    requires
        0 <= j < records.len(),
        records[j].state == CLAIMED,
        steps_allowed(records, steps),
        forall|i: int| 0 <= i < steps.len() ==> !marks(#[trigger] steps[i], j),
    ensures
        0 <= j < after_steps(records, steps).len(),
        after_steps(records, steps)[j] == records[j],
        buffer::state_offset(after_steps(records, steps), j) == buffer::state_offset(records, j),
    decreases steps.len(),
{
    if steps.len() > 0 {
        let front = steps.drop_last();
        let before = after_steps(records, front);
        assert forall|i: int| 0 <= i < front.len() implies !marks(#[trigger] front[i], j) by {
            assert(front[i] == steps[i]);
        }
        law_claimed_until_marked(records, front, j);
        law_claim_is_last_unclaimed(before);
        law_cleanup_removes_only_free(before);
        buffer::law_state_place_is_kept(before, j);
        assert(steps[steps.len() - 1] == steps.last());
        match steps.last() {
            QueueStep::Add(added) => {
                assert(buffer::state_offset(before.push(added), j) == buffer::state_offset(
                    before,
                    j,
                ));
            },
            QueueStep::Claim => {
                let k = claim_index(before);
                if k >= 0 {
                    assert(buffer::state_offset(buffer::with_state(before, k, CLAIMED), j)
                        == buffer::state_offset(before, j));
                }
            },
            QueueStep::Mark(k, state) => {
                assert(buffer::state_offset(buffer::with_state(before, k, state), j)
                    == buffer::state_offset(before, j));
            },
            QueueStep::Cleanup => {
                let n = before.len() - free_tail(before);
                assert(before[j].state != CAN_FREE);
                assert(buffer::state_offset(before.take(n), j) == buffer::state_offset(before, j));
            },
        }
    }
}

/// The claim after a claim takes a task that was added earlier.
pub proof fn law_claims_go_back(records: Seq<Record>)
    requires
        claim_index(records) >= 0,
    ensures
        claim_index(after_claim(records)) < claim_index(records),
{
    let k = claim_index(records);
    let after = after_claim(records);
    law_claim_is_last_unclaimed(records);
    law_claim_is_last_unclaimed(after);
    if claim_index(after) > k {
        assert(after[claim_index(after)] == records[claim_index(after)]);
    }
}

/// How many records nobody has claimed.
pub open spec fn unclaimed(records: Seq<Record>) -> nat {
    records.filter(|r: Record| r.state == NOT_CLAIMED).len()
}

/// The number of records that nobody has claimed is none of no records, and each record that is
/// added makes it one more exactly where nobody has claimed that record.
pub proof fn law_unclaimed_counts(records: Seq<Record>, added: Record)
    ensures
        unclaimed(Seq::<Record>::empty()) == 0,
        unclaimed(records.push(added)) == unclaimed(records) + if added.state == 0 {
            1nat
        } else {
            0
        },
{
    reveal(Seq::filter);
    assert(records.push(added).drop_last() =~= records);
}

/// Where no record is to be claimed, none is unclaimed.
pub proof fn lemma_none_unclaimed(records: Seq<Record>)
    requires
        claim_index(records) < 0,
    ensures
        unclaimed(records) == 0,
    decreases records.len(),
{
    reveal(Seq::filter);
    if records.len() > 0 {
        lemma_none_unclaimed(records.drop_last());
    }
}

/// A claim leaves one task fewer to claim, whatever state the claimed task is put into.
pub proof fn law_claim_uses_up_one(records: Seq<Record>, state: u8)
    requires
        claim_index(records) >= 0,
        state != NOT_CLAIMED,
    ensures
        unclaimed(buffer::with_state(records, claim_index(records), state)) + 1 == unclaimed(
            records,
        ),
    decreases records.len(),
{
    reveal(Seq::filter);
    let k = claim_index(records);
    let after = buffer::with_state(records, k, state);
    law_claim_is_last_unclaimed(records);
    if records.last().state == NOT_CLAIMED {
        assert(after.drop_last() =~= records.drop_last());
    } else {
        law_claim_uses_up_one(records.drop_last(), state);
        assert(after.drop_last() =~= buffer::with_state(records.drop_last(), k, state));
    }
}

/// A cleanup removes no record that nobody has claimed.
pub proof fn lemma_cleanup_keeps_unclaimed(records: Seq<Record>)
    ensures
        unclaimed(after_cleanup(records)) == unclaimed(records),
    decreases records.len(),
{
    reveal(Seq::filter);
    lemma_free_tail(records);
    if records.len() > 0 && records.last().state == CAN_FREE {
        lemma_cleanup_keeps_unclaimed(records.drop_last());
        lemma_free_tail(records.drop_last());
        assert(records.take(records.len() - free_tail(records)) =~= records.drop_last().take(
            records.drop_last().len() - free_tail(records.drop_last()),
        ));
    } else {
        assert(records.take(records.len() as int) =~= records);
    }
}

/// A cleanup removes no record but those that may be removed, and a second one
/// removes nothing more.
pub proof fn law_cleanup_removes_only_free(records: Seq<Record>)
    ensures
        free_tail(records) <= records.len(),
        forall|j: int|
            0 <= j < records.len() && (#[trigger] records[j]).state != CAN_FREE ==> j
                < records.len() - free_tail(records),
        free_tail(after_cleanup(records)) == 0,
{
    lemma_free_tail(records);
    let kept = after_cleanup(records);
    if kept.len() > 0 {
        assert(kept.last() == records[kept.len() - 1]);
    }
}

/// A cleanup takes records off the end, those that may be removed and no other, until the last
/// one is none that may be removed. The records that stay are as they were.
pub proof fn law_cleanup_keeps_front(records: Seq<Record>)
    ensures
        ({
            let kept = after_cleanup(records);
            &&& kept.len() <= records.len()
            &&& forall|j: int| 0 <= j < kept.len() ==> #[trigger] kept[j] == records[j]
            &&& forall|j: int|
                kept.len() <= j < records.len() ==> (#[trigger] records[j]).state == 3
            &&& kept.len() > 0 ==> kept.last().state != 3
        }),
{
    lemma_free_tail(records);
}

/// The records behind the place where the records start that may be removed are all such
/// records, and the one that ends there is none.
pub proof fn law_cleanup_is_by_state(records: Seq<Record>)
    ensures
        ({
            let cut = buffer::start(records, records.len() - free_tail(records));
            &&& forall|j: int|
                0 <= j < records.len() && #[trigger] buffer::start(records, j) >= cut
                    ==> records[j].state == 3
            &&& forall|j: int|
                0 <= j < records.len() && cut == #[trigger] buffer::start(records, j)
                    + records[j].size() ==> records[j].state != 3
        }),
{
    let kept = records.len() - free_tail(records);
    let cut = buffer::start(records, kept);
    lemma_free_tail(records);
    assert forall|j: int|
        0 <= j < records.len() && #[trigger] buffer::start(records, j) >= cut implies records[j].state
        == 3 by {
        if j < kept {
            buffer::lemma_start_increases(records, j, kept);
        }
    }
    assert forall|j: int|
        0 <= j < records.len() && cut == #[trigger] buffer::start(records, j)
            + records[j].size() implies records[j].state != 3 by {
        if j >= kept {
            if j > kept {
                buffer::lemma_start_increases(records, kept, j);
            }
        } else if j < kept - 1 {
            buffer::lemma_start_increases(records, j, kept - 1);
            buffer::lemma_start_increases(records, kept - 1, kept);
        }
    }
}

/// A cleanup empties the queue exactly where each record may be removed.
pub proof fn law_cleanup_empties(records: Seq<Record>)
    ensures
        (after_cleanup(records).len() == 0) == (forall|j: int|
            0 <= j < records.len() ==> (#[trigger] records[j]).state == CAN_FREE),
{
    lemma_free_tail(records);
    if free_tail(records) < records.len() {
        assert(records[records.len() - free_tail(records) - 1].state != CAN_FREE);
    }
}

} // verus!
