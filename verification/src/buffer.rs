//! Records that stand one after the other in one buffer.
use vstd::prelude::*;
use crate::layout::FIXED_SIZE;
use crate::record;
use crate::record::Record;
use crate::word;
use crate::word::WORD;

verus! {

/// The bytes of records that stand one after the other.
pub open spec fn encode_all(records: Seq<Record>) -> Seq<u8>
    decreases records.len(),
{
    if records.len() == 0 {
        Seq::empty()
    } else {
        encode_all(records.drop_last()) + records.last().encode()
    }
}

/// The records that are read from a buffer by cutting the last one off again and again.
/// A buffer whose end gives no size that fits in it is read no further.
pub open spec fn decode_all(bytes: Seq<u8>) -> Seq<Record>
    decreases bytes.len(),
{
    let size = record::word_from_end(bytes, 0);
    if bytes.len() == 0 || size == 0 || size > bytes.len() {
        Seq::empty()
    } else {
        decode_all(bytes.take(bytes.len() - size)).push(record::decode_last(bytes))
    }
}

/// Where record `k` starts in the buffer; `records.len()` gives the end of the buffer.
pub open spec fn start(records: Seq<Record>, k: int) -> int {
    encode_all(records.take(k)).len() as int
}

/// Where the value of record `k` starts in the buffer.
pub open spec fn value_offset(records: Seq<Record>, k: int) -> int {
    start(records, k) + records[k].value_at()
}

/// Where the state of record `k` lies in the buffer.
pub open spec fn state_offset(records: Seq<Record>, k: int) -> int {
    start(records, k) + records[k].state_at()
}

/// Whether `offset` is where the state of some record lies.
pub open spec fn is_state_offset(records: Seq<Record>, offset: int) -> bool {
    exists|k: int| 0 <= k < records.len() && #[trigger] state_offset(records, k) == offset
}

/// Each record is well formed.
pub open spec fn all_wf(records: Seq<Record>) -> bool {
    forall|k: int| 0 <= k < records.len() ==> (#[trigger] records[k]).wf()
}

/// The records with the state of record `k` replaced.
pub open spec fn with_state(records: Seq<Record>, k: int, state: u8) -> Seq<Record> {
    records.update(k, records[k].with_state(state))
}

/// One step of the start of a record: the next record starts where this one ends.
pub proof fn lemma_start_step(records: Seq<Record>, k: int)
    requires
        0 <= k < records.len(),
    ensures
        encode_all(records.take(k + 1)) == encode_all(records.take(k)) + records[k].encode(),
        start(records, k + 1) == start(records, k) + records[k].size(),
{
    assert(records.take(k + 1).drop_last() =~= records.take(k));
    record::law_record_size(records[k]);
}

/// The buffer up to the start of record `k` holds the records in front of it.
pub proof fn lemma_prefix(records: Seq<Record>, k: int)
    requires
        0 <= k <= records.len(),
    ensures
        start(records, k) <= encode_all(records).len(),
        encode_all(records).take(start(records, k)) == encode_all(records.take(k)),
        k == records.len() ==> start(records, k) == encode_all(records).len(),
    decreases records.len() - k,
{
    if k == records.len() {
        assert(records.take(k) =~= records);
        assert(encode_all(records).take(start(records, k)) =~= encode_all(records));
    } else {
        lemma_start_step(records, k);
        lemma_prefix(records, k + 1);
        assert(encode_all(records).take(start(records, k)) =~= encode_all(records).take(
            start(records, k + 1),
        ).take(start(records, k)));
        assert((encode_all(records.take(k)) + records[k].encode()).take(start(records, k))
            =~= encode_all(records.take(k)));
    }
}

/// Records stand in the order in which they were added, without overlap.
pub proof fn lemma_start_increases(records: Seq<Record>, j: int, k: int)
    requires
        0 <= j < k <= records.len(),
    ensures
        start(records, j) + records[j].size() <= start(records, k),
    decreases k - j,
{
    if j + 1 == k {
        lemma_start_step(records, j);
    } else {
        lemma_start_increases(records, j, k - 1);
        lemma_start_step(records, k - 1);
    }
}

/// The buffer has at least [`FIXED_SIZE`] bytes for each record.
pub proof fn lemma_len_bound(records: Seq<Record>)
    ensures
        FIXED_SIZE * records.len() <= encode_all(records).len(),
    decreases records.len(),
{
    if records.len() > 0 {
        lemma_len_bound(records.drop_last());
        record::law_record_size(records.last());
    }
}

/// The state of one record lies where the state of no other record lies.
pub proof fn law_state_offsets_differ(records: Seq<Record>, j: int, k: int)
    requires
        0 <= j < records.len(),
        0 <= k < records.len(),
        j != k,
    ensures
        state_offset(records, j) != state_offset(records, k),
{
    if j < k {
        lemma_start_increases(records, j, k);
    } else {
        lemma_start_increases(records, k, j);
    }
}

/// Changing the state of a record changes the one byte of the buffer where that state
/// lies, and moves no record.
pub proof fn law_state_change_is_local(records: Seq<Record>, k: int, state: u8)
    requires
        0 <= k < records.len(),
    ensures
        0 <= state_offset(records, k) < encode_all(records).len(),
        encode_all(with_state(records, k, state)) == encode_all(records).update(
            state_offset(records, k),
            state,
        ),
        forall|j: int|
            0 <= j <= records.len() ==> #[trigger] start(with_state(records, k, state), j) == start(
                records,
                j,
            ),
    decreases records.len(),
{
    let changed = with_state(records, k, state);
    record::law_state_is_one_byte(records[k], state);
    record::law_record_size(records[k]);
    lemma_start_step(records, k);
    lemma_prefix(records, k);
    lemma_prefix(records, k + 1);
    let last = records.len() - 1;
    if k == last {
        assert(changed.drop_last() =~= records.drop_last());
        assert(records.take(k) =~= records.drop_last());
        assert(encode_all(changed) =~= encode_all(records).update(state_offset(records, k), state));
    } else {
        law_state_change_is_local(records.drop_last(), k, state);
        assert(changed.drop_last() =~= with_state(records.drop_last(), k, state));
        assert(records.drop_last().take(k) =~= records.take(k));
        assert(encode_all(changed) =~= encode_all(records).update(state_offset(records, k), state));
    }
    assert forall|j: int| 0 <= j <= records.len() implies #[trigger] start(changed, j) == start(
        records,
        j,
    ) by {
        if j == records.len() {
            assert(changed.take(j) =~= changed);
            assert(records.take(j) =~= records);
        } else if k == last {
            assert(changed.take(j) =~= records.take(j));
        } else {
            assert(start(with_state(records.drop_last(), k, state), j) == start(
                records.drop_last(),
                j,
            ));
            assert(changed.take(j) =~= with_state(records.drop_last(), k, state).take(j));
            assert(records.take(j) =~= records.drop_last().take(j));
        }
    }
}

/// The bytes where the value of a record lies are its value.
pub proof fn lemma_value_bytes(records: Seq<Record>, k: int)
    requires
        0 <= k < records.len(),
    ensures
        0 <= value_offset(records, k),
        value_offset(records, k) + records[k].data.len() <= encode_all(records).len(),
        encode_all(records).subrange(
            value_offset(records, k),
            value_offset(records, k) + records[k].data.len(),
        ) == records[k].data,
{
    lemma_start_step(records, k);
    lemma_prefix(records, k + 1);
    record::law_record_size(records[k]);
    word::law_word_round_trip(records[k].vtable);
    let all = encode_all(records);
    let from = value_offset(records, k);
    let to = from + records[k].data.len();
    assert(all.subrange(from, to) =~= all.take(start(records, k + 1)).subrange(from, to));
    assert((encode_all(records.take(k)) + records[k].encode()).subrange(from, to)
        =~= records[k].data);
}

/// Where the parts of a record lie in a buffer: the first record starts at the start of the
/// buffer and each other one where the one in front of it ends, the value stands a word behind
/// the padding, and the state behind the value. The state is the byte that lies there.
pub proof fn law_places_in_buffer(records: Seq<Record>, k: int)
    requires
        0 <= k < records.len(),
    ensures
        start(records, 0) == 0,
        start(records, k + 1) == start(records, k) + records[k].value_padding + 8
            + records[k].data.len() + 1 + records[k].ptr_padding + 32,
        start(records, records.len() as int) == encode_all(records).len(),
        encode_all(records).subrange(start(records, k), start(records, k + 1))
            == records[k].encode(),
        value_offset(records, k) == start(records, k) + records[k].value_padding + 8,
        state_offset(records, k) == value_offset(records, k) + records[k].data.len(),
        0 <= value_offset(records, k) <= state_offset(records, k) < encode_all(records).len(),
        encode_all(records).subrange(value_offset(records, k), state_offset(records, k))
            == records[k].data,
        encode_all(records)[state_offset(records, k)] == records[k].state,
        is_state_offset(records, state_offset(records, k)),
{
    lemma_start_step(records, k);
    lemma_prefix(records, k + 1);
    lemma_prefix(records, records.len() as int);
    lemma_value_bytes(records, k);
    record::law_record_size(records[k]);
    assert(records.take(0) =~= Seq::<Record>::empty());
    let all = encode_all(records);
    let (from, to) = (start(records, k), start(records, k + 1));
    assert(all.subrange(from, to) =~= all.take(to).subrange(from, to));
    assert((encode_all(records.take(k)) + records[k].encode()).subrange(from, to)
        =~= records[k].encode());
    law_state_change_is_local(records, k, records[k].state);
    assert(with_state(records, k, records[k].state) =~= records);
    assert(all.update(state_offset(records, k), records[k].state)[state_offset(records, k)]
        == records[k].state);
}

/// A place is that of a state exactly where it is, for some record, the place behind the
/// value of that record.
pub proof fn law_state_offset_is_behind_value(records: Seq<Record>, offset: int)
    ensures
        is_state_offset(records, offset) == (exists|k: int|
            0 <= k < records.len() && offset == #[trigger] value_offset(records, k)
                + records[k].data.len()),
{
    if is_state_offset(records, offset) {
        let k = choose|k: int|
            0 <= k < records.len() && #[trigger] state_offset(records, k) == offset;
        assert(offset == value_offset(records, k) + records[k].data.len());
    }
    if exists|k: int|
        0 <= k < records.len() && offset == #[trigger] value_offset(records, k)
            + records[k].data.len() {
        let k = choose|k: int|
            0 <= k < records.len() && offset == #[trigger] value_offset(records, k)
                + records[k].data.len();
        assert(state_offset(records, k) == offset);
    }
}

/// Replacing the state of a record changes that state and nothing else of any record.
pub proof fn law_with_state_changes_one(records: Seq<Record>, k: int, state: u8, j: int)
    requires
        0 <= k < records.len(),
        0 <= j < records.len(),
    ensures
        with_state(records, k, state).len() == records.len(),
        with_state(records, k, state)[k].state == state,
        j != k ==> with_state(records, k, state)[j] == records[j],
        with_state(records, k, state)[j].vtable == records[j].vtable,
        with_state(records, k, state)[j].data == records[j].data,
        with_state(records, k, state)[j].align == records[j].align,
        with_state(records, k, state)[j].value_padding == records[j].value_padding,
        with_state(records, k, state)[j].ptr_padding == records[j].ptr_padding,
{
}

/// Adding a record moves no record that is there.
pub proof fn law_push_keeps_offsets(records: Seq<Record>, added: Record)
    ensures
        encode_all(records.push(added)) == encode_all(records) + added.encode(),
        forall|j: int|
            0 <= j <= records.len() ==> #[trigger] start(records.push(added), j) == start(
                records,
                j,
            ),
{
    let pushed = records.push(added);
    assert(pushed.drop_last() =~= records);
    assert forall|j: int| 0 <= j <= records.len() implies #[trigger] start(pushed, j) == start(
        records,
        j,
    ) by {
        assert(pushed.take(j) =~= records.take(j));
    }
}

/// Taking records off the end moves none of those that stay.
pub proof fn law_take_keeps_offsets(records: Seq<Record>, n: int)
    requires
        0 <= n <= records.len(),
    ensures
        encode_all(records.take(n)) == encode_all(records).take(start(records, n)),
        forall|j: int| 0 <= j <= n ==> #[trigger] start(records.take(n), j) == start(records, j),
{
    lemma_prefix(records, n);
    assert forall|j: int| 0 <= j <= n implies #[trigger] start(records.take(n), j) == start(
        records,
        j,
    ) by {
        assert(records.take(n).take(j) =~= records.take(j));
    }
}

/// Reading the end of a buffer gives back the record that was added last.
pub proof fn law_last_record_reads_back(records: Seq<Record>)
    requires
        all_wf(records),
        records.len() > 0,
    ensures
        record::decode_last(encode_all(records)) == records.last(),
{
    assert(records[records.len() - 1].wf());
    record::law_record_round_trip(encode_all(records.drop_last()), records.last());
}

/// Cutting the last record off a buffer leaves what stands in front of it.
proof fn lemma_decode_step(front: Seq<u8>, last: Record)
    requires
        last.wf(),
    ensures
        decode_all(front + last.encode()) == decode_all(front).push(last),
        (front + last.encode()).len() == front.len() + last.size(),
{
    let bytes = front + last.encode();
    record::law_record_size(last);
    assert(record::word_from_end(bytes, 0) == last.size()) by {
        record::lemma_footer(front, last);
    }
    assert(record::decode_last(bytes) == last) by {
        record::law_record_round_trip(front, last);
    }
    assert(bytes.take(bytes.len() - last.size()) =~= front);
}

/// Reading a buffer from its end gives back the records that were written into it, in their
/// order, with nothing left over.
pub proof fn law_buffer_reads_back(records: Seq<Record>)
    requires
        all_wf(records),
    ensures
        decode_all(encode_all(records)) == records,
        encode_all(records).len() % (WORD as nat) == 0,
    decreases records.len(),
{
    if records.len() == 0 {
        assert(decode_all(encode_all(records)) =~= records);
    } else {
        let front = records.drop_last();
        let last = records.last();
        assert(records[records.len() - 1].wf());
        assert forall|k: int| 0 <= k < front.len() implies (#[trigger] front[k]).wf() by {
            assert(front[k] == records[k]);
        }
        law_buffer_reads_back(front);
        lemma_decode_step(encode_all(front), last);
        assert(front.push(last) =~= records);
    }
}

/// The place of a state stays the place of that state when a record is added, when a state
/// changes, and when records behind its own are taken off the end.
pub proof fn law_state_place_is_kept(records: Seq<Record>, k: int)
    requires
        0 <= k < records.len(),
    ensures
        forall|added: Record| #[trigger]
            state_offset(records.push(added), k) == state_offset(records, k),
        forall|j: int, state: u8|
            0 <= j < records.len() ==> #[trigger] state_offset(with_state(records, j, state), k)
                == state_offset(records, k),
        forall|n: int|
            k < n <= records.len() ==> #[trigger] state_offset(records.take(n), k)
                == state_offset(records, k),
{
    assert forall|added: Record| #[trigger]
        state_offset(records.push(added), k) == state_offset(records, k) by {
        law_push_keeps_offsets(records, added);
        assert(start(records.push(added), k) == start(records, k));
    }
    assert forall|j: int, state: u8| 0 <= j < records.len() implies #[trigger] state_offset(
        with_state(records, j, state),
        k,
    ) == state_offset(records, k) by {
        law_state_change_is_local(records, j, state);
        assert(start(with_state(records, j, state), k) == start(records, k));
    }
    assert forall|n: int| k < n <= records.len() implies #[trigger] state_offset(
        records.take(n),
        k,
    ) == state_offset(records, k) by {
        law_take_keeps_offsets(records, n);
        assert(start(records.take(n), k) == start(records, k));
    }
}

/// The bytes of a buffer determine the records that it holds: no two queues share a
/// buffer.
pub proof fn law_buffer_determines_records(a: Seq<Record>, b: Seq<Record>)
    requires
        all_wf(a),
        all_wf(b),
        encode_all(a) == encode_all(b),
    ensures
        a == b,
    decreases a.len(),
{
    lemma_len_bound(a);
    lemma_len_bound(b);
    if a.len() > 0 {
        assert(b.len() > 0);
        record::law_record_round_trip(encode_all(a.drop_last()), a.last());
        record::law_record_round_trip(encode_all(b.drop_last()), b.last());
        assert(a.last() == b.last());
        let n = encode_all(a).len() - a.last().encode().len();
        assert(encode_all(a.drop_last()) =~= encode_all(a).take(n));
        assert(encode_all(b.drop_last()) =~= encode_all(b).take(n));
        law_buffer_determines_records(a.drop_last(), b.drop_last());
        assert(a =~= a.drop_last().push(a.last()));
        assert(b =~= b.drop_last().push(b.last()));
    } else {
        assert(a =~= b);
    }
}

} // verus!
