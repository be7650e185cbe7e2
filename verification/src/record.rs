//! The record of a task in the queue's buffer.
//!
//! A record holds, in this order: padding, the address of the value's vtable, the bytes of
//! the value, its state, padding, the length of that second padding, the alignment of the
//! value, the size of the value, the size of the record. The sizes stand last, so a buffer
//! of records is read from its end.
use vstd::prelude::*;
use crate::layout;
use crate::layout::FIXED_SIZE;
use crate::layout::FOOTER_SIZE;
use crate::layout::STATE_SIZE;
use crate::word;
use crate::word::WORD;

verus! {

/// State of a task that nobody has claimed.
pub const NOT_CLAIMED: u8 = 0;

/// State of a task that a runner has claimed.
pub const CLAIMED: u8 = 1;

/// State of a task that has run.
pub const FINISHED: u8 = 2;

/// State of a task whose record may be removed.
pub const CAN_FREE: u8 = 3;

/// What a record holds.
#[verifier::ext_equal]
pub struct Record {
    /// Zero bytes in front of the vtable address.
    pub value_padding: nat,
    /// The bytes of the value.
    pub data: Seq<u8>,
    /// The state of the task.
    pub state: u8,
    /// Zero bytes between the state and the words that close the record.
    pub ptr_padding: nat,
    /// The address of the value's vtable.
    pub vtable: usize,
    /// The alignment of the value.
    pub align: usize,
}

/// A run of zero bytes.
pub open spec fn zeros(n: nat) -> Seq<u8> {
    Seq::new(n, |i: int| 0u8)
}

impl Record {
    /// Bytes of the record.
    pub open spec fn size(self) -> int {
        layout::record_size(self.value_padding as int, self.data.len() as int, self.ptr_padding as int)
    }

    /// The alignment is one, the record takes a whole number of words, the sizes fit in
    /// words, and an aligned copy of the value can be made.
    pub open spec fn wf(self) -> bool {
        &&& self.align > 0
        &&& self.size() % (WORD as int) == 0
        &&& self.size() <= usize::MAX
        &&& self.data.len() + self.align <= isize::MAX
    }

    /// The record in another state.
    pub open spec fn with_state(self, state: u8) -> Record {
        Record { state, ..self }
    }

    /// Where the value starts, counted from the start of the record.
    pub open spec fn value_at(self) -> int {
        self.value_padding + WORD
    }

    /// Where the state lies, counted from the start of the record.
    pub open spec fn state_at(self) -> int {
        self.value_padding + WORD + self.data.len()
    }

    /// The part of the record in front of the words that close it.
    pub open spec fn body(self) -> Seq<u8> {
        zeros(self.value_padding) + word::word_bytes(self.vtable) + self.data + seq![self.state]
            + zeros(self.ptr_padding)
    }

    /// The words that close the record.
    pub open spec fn footer(self) -> Seq<u8> {
        word::word_bytes(self.ptr_padding as usize) + word::word_bytes(self.align)
            + word::word_bytes(self.data.len() as usize) + word::word_bytes(self.size() as usize)
    }

    /// The bytes of the record.
    pub open spec fn encode(self) -> Seq<u8> {
        self.body() + self.footer()
    }
}

/// The word that ends `words` words before the end of `bytes`.
pub open spec fn word_from_end(bytes: Seq<u8>, words: int) -> usize {
    word::word_value(
        bytes.subrange(bytes.len() - (words + 1) * WORD, bytes.len() - words * WORD),
    )
}

/// The record at the end of `bytes`.
pub open spec fn decode_last(bytes: Seq<u8>) -> Record {
    let size = word_from_end(bytes, 0);
    let data_len = word_from_end(bytes, 1);
    let ptr_padding = word_from_end(bytes, 3);
    let state_at = bytes.len() - FOOTER_SIZE - ptr_padding - STATE_SIZE;
    let value_at = state_at - data_len;
    Record {
        value_padding: (size - FIXED_SIZE - ptr_padding - data_len) as nat,
        data: bytes.subrange(value_at, state_at),
        state: bytes[state_at],
        ptr_padding: ptr_padding as nat,
        vtable: word::word_value(bytes.subrange(value_at - WORD, value_at)),
        align: word_from_end(bytes, 2),
    }
}

/// A record takes as many bytes as its size says.
pub proof fn law_record_size(r: Record)
    ensures
        r.encode().len() == r.size(),
{
    word::law_word_round_trip(r.vtable);
    word::law_word_round_trip(r.ptr_padding as usize);
    word::law_word_round_trip(r.align);
    word::law_word_round_trip(r.data.len() as usize);
    word::law_word_round_trip(r.size() as usize);
}

/// The numbers that stand for the states of a task.
pub proof fn law_state_numbers()
    ensures
        NOT_CLAIMED == 0,
        CLAIMED == 1,
        FINISHED == 2,
        CAN_FREE == 3,
{
}

/// What each byte of a record says: zeros, the vtable address, the value, the state, zeros,
/// then in one word each the number of those second zeros, the alignment of the value, its
/// size and the size of the record, all of this without a gap.
pub proof fn law_record_parts(r: Record)
    requires
        r.wf(),
    ensures
        ({
            let bytes = r.encode();
            let value: int = r.value_padding as int + 8;
            let state = value + r.data.len();
            let close = state + 1 + r.ptr_padding;
            &&& bytes.len() == close + 32
            &&& forall|i: int| 0 <= i < r.value_padding ==> #[trigger] bytes[i] == 0
            &&& word::word_value(bytes.subrange(r.value_padding as int, value)) == r.vtable
            &&& bytes.subrange(value, state) == r.data
            &&& bytes[state] == r.state
            &&& forall|i: int| state < i < close ==> #[trigger] bytes[i] == 0
            &&& word::word_value(bytes.subrange(close, close + 8)) == r.ptr_padding
            &&& word::word_value(bytes.subrange(close + 8, close + 16)) == r.align
            &&& word::word_value(bytes.subrange(close + 16, close + 24)) == r.data.len()
            &&& word::word_value(bytes.subrange(close + 24, close + 32)) == bytes.len()
        }),
{
    word::law_word_round_trip(r.vtable);
    word::law_word_round_trip(r.ptr_padding as usize);
    word::law_word_round_trip(r.align);
    word::law_word_round_trip(r.data.len() as usize);
    word::law_word_round_trip(r.size() as usize);
    let bytes = r.encode();
    let value: int = r.value_padding as int + 8;
    let state = value + r.data.len();
    let close = state + 1 + r.ptr_padding;
    assert(bytes.subrange(r.value_padding as int, value) =~= word::word_bytes(r.vtable));
    assert(bytes.subrange(value, state) =~= r.data);
    assert(bytes.subrange(close, close + 8) =~= word::word_bytes(r.ptr_padding as usize));
    assert(bytes.subrange(close + 8, close + 16) =~= word::word_bytes(r.align));
    assert(bytes.subrange(close + 16, close + 24) =~= word::word_bytes(r.data.len() as usize));
    assert(bytes.subrange(close + 24, close + 32) =~= word::word_bytes(r.size() as usize));
}

/// Another state changes nothing of a record but its state.
pub proof fn law_with_state_changes_state(r: Record, state: u8)
    ensures
        r.with_state(state).state == state,
        r.with_state(state).vtable == r.vtable,
        r.with_state(state).data == r.data,
        r.with_state(state).align == r.align,
        r.with_state(state).value_padding == r.value_padding,
        r.with_state(state).ptr_padding == r.ptr_padding,
{
}

/// The words of a record, read from the end of a buffer.
pub proof fn lemma_footer(prefix: Seq<u8>, r: Record)
    requires
        r.wf(),
    ensures
        word_from_end(prefix + r.encode(), 0) == r.size(),
        word_from_end(prefix + r.encode(), 1) == r.data.len(),
        word_from_end(prefix + r.encode(), 2) == r.align,
        word_from_end(prefix + r.encode(), 3) == r.ptr_padding,
        word::word_value(
            (prefix + r.encode()).subrange(
                prefix.len() + r.value_at() - WORD,
                prefix.len() + r.value_at(),
            ),
        ) == r.vtable,
{
    word::law_word_round_trip(r.vtable);
    word::law_word_round_trip(r.ptr_padding as usize);
    word::law_word_round_trip(r.align);
    word::law_word_round_trip(r.data.len() as usize);
    word::law_word_round_trip(r.size() as usize);
    let bytes = prefix + r.encode();
    let n = bytes.len();
    let value_at = prefix.len() + r.value_at();
    assert(bytes.subrange(n - WORD, n as int) =~= word::word_bytes(r.size() as usize));
    assert(bytes.subrange(n - 2 * WORD, n - WORD) =~= word::word_bytes(r.data.len() as usize));
    assert(bytes.subrange(n - 3 * WORD, n - 2 * WORD) =~= word::word_bytes(r.align));
    assert(bytes.subrange(n - 4 * WORD, n - 3 * WORD) =~= word::word_bytes(r.ptr_padding as usize));
    assert(bytes.subrange(value_at - WORD, value_at) =~= word::word_bytes(r.vtable));
}

/// Reading the record at the end of a buffer gives back the record that was written
/// there, whatever stands in front of it.
pub proof fn law_record_round_trip(prefix: Seq<u8>, r: Record)
    requires
        r.wf(),
    ensures
        decode_last(prefix + r.encode()) == r,
{
    lemma_footer(prefix, r);
    law_record_size(r);
    word::law_word_round_trip(r.vtable);
    let bytes = prefix + r.encode();
    let state_at = bytes.len() - FOOTER_SIZE - r.ptr_padding - STATE_SIZE;
    assert(state_at == prefix.len() + r.state_at());
    assert(bytes.subrange(state_at - r.data.len(), state_at) =~= r.data);
    assert(bytes[state_at] == r.state);
    assert(decode_last(bytes) =~= r);
}

/// Changing the state of a record changes one byte.
pub proof fn law_state_is_one_byte(r: Record, state: u8)
    ensures
        r.with_state(state).size() == r.size(),
        r.with_state(state).encode() == r.encode().update(r.state_at(), state),
{
    law_record_size(r);
    word::law_word_round_trip(r.vtable);
    assert(r.with_state(state).encode() =~= r.encode().update(r.state_at(), state));
}

} // verus!
