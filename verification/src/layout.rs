//! Where the parts of a record lie: paddings and sizes.
use vstd::prelude::*;
use crate::word::WORD;

verus! {

/// Bytes of the state flag of a record.
pub const STATE_SIZE: usize = 1;

/// Bytes of the words that close a record: the padding in front of them, the alignment
/// and the size of the value, and the size of the record.
pub const FOOTER_SIZE: usize = 32;

/// Bytes of a record besides its value and its paddings: the vtable address, the state and
/// the words that close it.
pub const FIXED_SIZE: usize = 41;

/// Bytes to the next multiple of `align` at or after `position`.
pub open spec fn padding(position: int, align: int) -> int {
    if position % align == 0 {
        0
    } else {
        align - position % align
    }
}

/// Bytes from `position` to the next multiple of `align` strictly after it.
pub open spec fn full_padding(position: int, align: int) -> int {
    align - position % align
}

/// Bytes in front of the value and its vtable address, in a record that starts at the
/// address `at`: those that bring the value to a multiple of its alignment.
pub open spec fn value_padding(at: int, value_align: int) -> int {
    padding(at + WORD, value_align)
}

/// Bytes in front of the words that close a record whose value takes `value_size` bytes:
/// those that bring them to a whole number of words from the start of the record.
pub open spec fn ptr_padding(value_padding: int, value_size: int) -> int {
    padding(value_padding + WORD + value_size + STATE_SIZE, WORD as int)
}

/// Bytes of a whole record.
pub open spec fn record_size(value_padding: int, value_size: int, ptr_padding: int) -> int {
    value_padding + value_size + ptr_padding + FIXED_SIZE
}

/// Bytes of the record of a value of `value_size` bytes and alignment `value_align`, where
/// the record starts at the address `at`.
pub open spec fn record_size_at(at: int, value_size: int, value_align: int) -> int {
    let before = value_padding(at, value_align);
    record_size(before, value_size, ptr_padding(before, value_size))
}

/// Padding brings a position to a multiple of the alignment, in fewer bytes than
/// the alignment; the full padding does so too, in at least one byte.
pub proof fn law_padding_aligns(position: int, align: int)
    requires
        align > 0,
    ensures
        0 <= padding(position, align) < align,
        (position + padding(position, align)) % align == 0,
        0 < full_padding(position, align) <= align,
        (position + full_padding(position, align)) % align == 0,
{
    let q = position / align;
    let r = position % align;
    vstd::arithmetic::div_mod::lemma_fundamental_div_mod(position, align);
    vstd::arithmetic::div_mod::lemma_mod_bound(position, align);
    assert(position + (align - r) == align * (q + 1)) by (nonlinear_arith)
        requires
            position == align * q + r,
    ;
    vstd::arithmetic::div_mod::lemma_mod_multiples_basic(q + 1, align);
    assert((q + 1) * align == align * (q + 1)) by (nonlinear_arith);
}

/// The value of a record lies at a multiple of its alignment.
pub proof fn law_value_is_aligned(at: int, align: int)
    requires
        align > 0,
    ensures
        (at + value_padding(at, align) + WORD) % align == 0,
{
    law_padding_aligns(at + WORD, align);
}

/// A record takes a whole number of words.
pub proof fn law_record_is_whole_words(at: int, value_size: int, value_align: int)
    ensures
        record_size_at(at, value_size, value_align) % (WORD as int) == 0,
{
    let before = value_padding(at, value_align);
    law_padding_aligns(before + WORD + value_size + STATE_SIZE, WORD as int);
}

/// The size of a record is at most that of its value, one alignment and a bounded
/// number of further bytes, wherever the record starts.
pub proof fn law_record_size_bound(at: int, value_size: int, value_align: int)
    requires
        value_align > 0,
    ensures
        value_size + FIXED_SIZE <= record_size_at(at, value_size, value_align),
        record_size_at(at, value_size, value_align) < value_size + value_align + FIXED_SIZE + WORD,
{
    let before = value_padding(at, value_align);
    law_padding_aligns(at + WORD, value_align);
    law_padding_aligns(before + WORD + value_size + STATE_SIZE, WORD as int);
}

/// The paddings of a record are the least that there can be: fewer bytes than the alignment of
/// the value bring the value, which stands a word behind them, to a multiple of it, and fewer
/// than a word bring the four words that close the record to a whole number of words from its
/// start. Besides the paddings and the value a record takes a word, a byte and four words.
pub proof fn law_record_paddings_are_least(at: int, value_size: int, value_align: int)
    requires
        value_align > 0,
    ensures
        0 <= value_padding(at, value_align) < value_align,
        (at + value_padding(at, value_align) + 8) % value_align == 0,
        ({
            let before = value_padding(at, value_align);
            let between = ptr_padding(before, value_size);
            &&& 0 <= between < 8
            &&& (before + 8 + value_size + 1 + between) % 8 == 0
            &&& record_size_at(at, value_size, value_align) == before + 8 + value_size + 1 + between
                + 32
        }),
{
    let before = value_padding(at, value_align);
    law_padding_aligns(at + WORD, value_align);
    law_padding_aligns(before + WORD + value_size + STATE_SIZE, WORD as int);
}

/// The padding of a sum is that of the remainders of its parts.
proof fn lemma_padding_of_sum(a: int, b: int, align: int)
    requires
        align > 0,
    ensures
        padding((a % align + b % align) % align, align) == padding(a + b, align),
{
    vstd::arithmetic::div_mod::lemma_add_mod_noop(a, b, align);
    vstd::arithmetic::div_mod::lemma_mod_twice(a + b, align);
}

/// Computes [`padding`].
pub fn padding_at(position: usize, align: usize) -> (r: usize)
    requires
        align > 0,
    ensures
        r == padding(position as int, align as int),
        r < align,
        (position + r) % (align as int) == 0,
{
    proof {
        law_padding_aligns(position as int, align as int);
    }
    let mut padding: usize = align - (position % align);
    if padding == align {
        padding = 0;
    }
    padding
}

/// Computes [`value_padding`] for a record that starts `filled` bytes after the address
/// `base`.
fn value_padding_at(base: usize, filled: usize, align: usize) -> (r: usize)
    requires
        0 < align <= isize::MAX,
    ensures
        r == value_padding(base + filled, align as int),
{
    let at: usize = (base % align + filled % align) % align;
    let value: usize = (at + WORD % align) % align;
    proof {
        let (b, f, a) = (base as int, filled as int, align as int);
        vstd::arithmetic::div_mod::lemma_add_mod_noop(b, f, a);
        vstd::arithmetic::div_mod::lemma_mod_twice(b + f, a);
        lemma_padding_of_sum(b + f, WORD as int, a);
    }
    padding_at(value, align)
}

/// The parts of a record whose size is not fixed.
#[derive(Clone, Copy, Debug, PartialEq, Eq)]
pub struct RecordLayout {
    /// Bytes in front of the vtable address and the value.
    pub value_padding: usize,
    /// Bytes in front of the words that close the record.
    pub ptr_padding: usize,
    /// Bytes of the whole record.
    pub size: usize,
}

impl RecordLayout {
    /// The layout of the record of a value of `value_size` bytes and alignment
    /// `value_align`, where the record starts `filled` bytes after the address `base`.
    pub fn new(base: usize, filled: usize, value_size: usize, value_align: usize) -> (r:
        RecordLayout)
        requires
            0 < value_align <= isize::MAX,
            record_size_at(base + filled, value_size as int, value_align as int) <= usize::MAX,
        ensures
            r.value_padding == value_padding(base + filled, value_align as int),
            r.ptr_padding == ptr_padding(r.value_padding as int, value_size as int),
            r.size == record_size_at(base + filled, value_size as int, value_align as int),
            r.value_padding < value_align,
            (base + filled + r.value_padding + 8) % (value_align as int) == 0,
            r.ptr_padding < 8,
            r.size == r.value_padding + 8 + value_size + 1 + r.ptr_padding + 32,
            r.size % 8 == 0,
    {
        proof {
            let before = value_padding(base + filled, value_align as int);
            law_record_paddings_are_least(
                base + filled,
                value_size as int,
                value_align as int,
            );
            law_padding_aligns(base + filled + WORD, value_align as int);
            law_padding_aligns(before + WORD + value_size + STATE_SIZE, WORD as int);
        }
        let value_padding: usize = value_padding_at(base, filled, value_align);
        let size: usize = value_padding + WORD + value_size + STATE_SIZE;
        let ptr_padding: usize = padding_at(size, WORD);
        let size: usize = size + ptr_padding + FOOTER_SIZE;
        RecordLayout { value_padding, ptr_padding, size }
    }
}

} // verus!
