//! Bit-field arithmetic on 64-bit words.
//!
//! Every packed hardware structure in this crate (virtual addresses,
//! page-table entries) is a `u64` cut into fields. A field is named by the
//! position of its lowest bit and its width.

use vstd::prelude::*;

verus! {

/// The word whose low `width` bits are set and whose other bits are clear.
pub open spec fn low_mask(width: u64) -> u64 {
    !(0xFFFF_FFFF_FFFF_FFFFu64 << width)
}

/// The value of the field of `word` that starts at bit `offset` and is
/// `width` bits wide.
pub open spec fn field_of(word: u64, offset: u64, width: u64) -> u64 {
    (word >> offset) & low_mask(width)
}

/// `word` with the field at `offset` replaced by the low `width` bits of
/// `value`.
pub open spec fn with_field(word: u64, offset: u64, width: u64, value: u64) -> u64 {
    (word & !(low_mask(width) << offset)) | ((value & low_mask(width)) << offset)
}

/// Whether a field description stays inside a 64-bit word.
pub open spec fn field_fits(offset: u64, width: u64) -> bool {
    0 < width < 64 && offset + width <= 64
}

/// Whether two fields share no bit.
pub open spec fn fields_disjoint(offset_a: u64, width_a: u64, offset_b: u64, width_b: u64) -> bool {
    offset_a + width_a <= offset_b || offset_b + width_b <= offset_a
}

/// A field value is below two to the power of its width.
pub proof fn lemma_field_bound(word: u64, offset: u64, width: u64)
    by (bit_vector)
    requires
        0 < width < 64,
        offset < 64,
    ensures
        field_of(word, offset, width) <= low_mask(width),
        field_of(word, offset, width) < (1u64 << width),
        low_mask(width) + 1 == (1u64 << width),
{
}

/// Reading back a field that was just written gives the written value,
/// truncated to the field's width.
pub proof fn lemma_field_written(word: u64, offset: u64, width: u64, value: u64)
    by (bit_vector)
    requires
        0 < width < 64,
        offset + width <= 64,
    ensures
        field_of(with_field(word, offset, width, value), offset, width) == value & low_mask(width),
        value <= low_mask(width) ==> field_of(with_field(word, offset, width, value), offset, width)
            == value,
{
}

/// Writing a field leaves every field that shares no bit with it unchanged.
pub proof fn lemma_field_untouched(
    word: u64,
    offset: u64,
    width: u64,
    value: u64,
    other_offset: u64,
    other_width: u64,
)
    by (bit_vector)
    requires
        0 < width < 64,
        offset + width <= 64,
        0 < other_width < 64,
        other_offset + other_width <= 64,
        offset + width <= other_offset || other_offset + other_width <= offset,
    ensures
        field_of(with_field(word, offset, width, value), other_offset, other_width) == field_of(
            word,
            other_offset,
            other_width,
        ),
{
}

/// Extracts the field of `word` at `offset` of the given `width`.
pub fn get_field(word: u64, offset: u64, width: u64) -> (value: u64)
    requires
        field_fits(offset, width),
    ensures
        value == field_of(word, offset, width),
        value <= low_mask(width),
{
    proof {
        lemma_field_bound(word, offset, width);
    }
    (word >> offset) & !(0xFFFF_FFFF_FFFF_FFFFu64 << width)
}

/// Replaces the field of `word` at `offset` of the given `width` by the low
/// bits of `value`.
pub fn set_field(word: u64, offset: u64, width: u64, value: u64) -> (result: u64)
    requires
        field_fits(offset, width),
    ensures
        result == with_field(word, offset, width, value),
        field_of(result, offset, width) == value & low_mask(width),
        value <= low_mask(width) ==> field_of(result, offset, width) == value,
        forall|other_offset: u64, other_width: u64|
            field_fits(other_offset, other_width) && fields_disjoint(
                offset,
                width,
                other_offset,
                other_width,
            ) ==> #[trigger] field_of(result, other_offset, other_width) == field_of(
                word,
                other_offset,
                other_width,
            ),
{
    let mask: u64 = !(0xFFFF_FFFF_FFFF_FFFFu64 << width);
    let result: u64 = (word & !(mask << offset)) | ((value & mask) << offset);
    proof {
        lemma_field_written(word, offset, width, value);
        assert forall|other_offset: u64, other_width: u64|
            field_fits(other_offset, other_width) && fields_disjoint(
                offset,
                width,
                other_offset,
                other_width,
            ) implies #[trigger] field_of(result, other_offset, other_width) == field_of(
            word,
            other_offset,
            other_width,
        ) by {
            lemma_field_untouched(word, offset, width, value, other_offset, other_width);
        }
    }
    result
}

/// The word that stands for a flag in a one-bit field.
pub open spec fn flag_word(flag: bool) -> u64 {
    if flag {
        1
    } else {
        0
    }
}

/// Whether bit `offset` of `word` is set.
pub open spec fn flag_of(word: u64, offset: u64) -> bool {
    field_of(word, offset, 1) == 1
}

/// `after` agrees with `before` on every field that shares no bit with the
/// field at `offset` of the given `width`.
pub open spec fn only_field_changed(before: u64, after: u64, offset: u64, width: u64) -> bool {
    forall|other_offset: u64, other_width: u64|
        field_fits(other_offset, other_width) && fields_disjoint(
            offset,
            width,
            other_offset,
            other_width,
        ) ==> #[trigger] field_of(after, other_offset, other_width) == field_of(
            before,
            other_offset,
            other_width,
        )
}

/// The masks of the field widths that the hardware structures use, as
/// numbers.
pub proof fn lemma_low_mask_values()
    by (bit_vector)
    ensures
        low_mask(1) == 1,
        low_mask(3) == 7,
        low_mask(9) == 0x1FF,
        low_mask(12) == 0xFFF,
        low_mask(16) == 0xFFFF,
        low_mask(22) == 0x3F_FFFF,
        low_mask(31) == 0x7FFF_FFFF,
        low_mask(40) == 0xFF_FFFF_FFFF,
{
}

/// Every field of the zero word is zero.
pub proof fn lemma_zero_word(offset: u64, width: u64)
    by (bit_vector)
    ensures
        field_of(0, offset, width) == 0,
{
}

/// Whether bit `offset` of `word` is set.
pub fn get_flag(word: u64, offset: u64) -> (flag: bool)
    requires
        offset < 64,
    ensures
        flag == flag_of(word, offset),
{
    get_field(word, offset, 1) == 1
}

/// `word` with bit `offset` set or cleared.
pub fn set_flag(word: u64, offset: u64, flag: bool) -> (result: u64)
    requires
        offset < 64,
    ensures
        result == with_field(word, offset, 1, flag_word(flag)),
        flag_of(result, offset) == flag,
        only_field_changed(word, result, offset, 1),
{
    proof {
        lemma_low_mask_values();
    }
    set_field(
        word,
        offset,
        1,
        if flag {
            1
        } else {
            0
        },
    )
}

} // verus!
