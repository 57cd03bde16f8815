//! The alignment that a GGUF file asks for its tensor data.
//!
//! A file may give the alignment under the key `general.alignment`, and the
//! backend divides by it once it has read the header. A file that could give
//! zero is therefore told apart here, on its bytes alone, before the backend
//! sees it.
//!
//! In a GGUF header a key is followed by the kind of its value, a 32-bit
//! number in little-endian order, and then by the value. A key may be padded
//! with zero bytes, which a reader drops. So wherever a header gives an
//! alignment of zero, its bytes hold the key, then any number of zero bytes,
//! then one of the six kinds of small integers, then a value of that kind
//! made of zero bytes only. The search looks for exactly that, anywhere in
//! the bytes: it may find it in a file whose header gives no such alignment,
//! and never misses it in one whose header does.

use vstd::prelude::*;

verus! {

/// The text `general.alignment` in bytes.
pub open spec fn alignment_key() -> Seq<u8> {
    seq![
        103u8,
        101u8,
        110u8,
        101u8,
        114u8,
        97u8,
        108u8,
        46u8,
        97u8,
        108u8,
        105u8,
        103u8,
        110u8,
        109u8,
        101u8,
        110u8,
        116u8,
    ]
}

/// The length of the key.
pub const KEY_LEN: usize = 17;

/// The key stands in `bytes` at `at`.
pub open spec fn key_at(bytes: Seq<u8>, at: int) -> bool {
    &&& 0 <= at
    &&& at + 17 <= bytes.len()
    &&& forall|i: int| 0 <= i < 17 ==> bytes[at + i] == alignment_key()[i]
}

/// The bytes from `from` up to `to` are there and are all zero.
pub open spec fn all_zero(bytes: Seq<u8>, from: int, to: int) -> bool {
    &&& 0 <= from <= to <= bytes.len()
    &&& forall|i: int| from <= i < to ==> bytes[i] == 0
}

/// The bytes that a value of kind `kind` takes, for the six kinds of small
/// integers: one for the 8-bit kinds 0 and 1, two for the 16-bit kinds 2
/// and 3, four for the 32-bit kinds 4 and 5.
pub open spec fn width_of(kind: u8) -> int {
    if kind <= 1 {
        1
    } else if kind <= 3 {
        2
    } else {
        4
    }
}

/// At `at` stand the kind of a small integer, in four bytes, and a value of
/// that kind that is zero.
pub open spec fn zero_value_at(bytes: Seq<u8>, at: int) -> bool {
    &&& 0 <= at < bytes.len()
    &&& bytes[at] <= 5
    &&& all_zero(bytes, at + 1, at + 4 + width_of(bytes[at]))
}

/// At `at` stands the key, padded with `pad` zero bytes and followed by a
/// small integer that is zero.
pub open spec fn zero_alignment_with(bytes: Seq<u8>, at: int, pad: int) -> bool {
    &&& key_at(bytes, at)
    &&& all_zero(bytes, at + 17, at + 17 + pad)
    &&& zero_value_at(bytes, at + 17 + pad)
}

/// Somewhere in `bytes` stands the key, padded or not, followed by a small
/// integer that is zero.
pub open spec fn may_align_to_zero(bytes: Seq<u8>) -> bool {
    exists|at: int, pad: int| #[trigger] zero_alignment_with(bytes, at, pad)
}

/// The key, byte by byte.
fn key_bytes() -> (key: Vec<u8>)
    ensures
        key@ == alignment_key(),
{
    let mut key: Vec<u8> = Vec::new();
    key.push(103);
    key.push(101);
    key.push(110);
    key.push(101);
    key.push(114);
    key.push(97);
    key.push(108);
    key.push(46);
    key.push(97);
    key.push(108);
    key.push(105);
    key.push(103);
    key.push(110);
    key.push(109);
    key.push(101);
    key.push(110);
    key.push(116);
    assert(key@ =~= alignment_key());
    key
}

/// Whether the key stands in `bytes` at `at`.
fn key_stands(bytes: &[u8], key: &Vec<u8>, at: usize) -> (stands: bool)
    requires
        key@ == alignment_key(),
        at + 17 <= bytes@.len(),
    ensures
        stands == key_at(bytes@, at as int),
{
    let len = bytes.len();
    let mut i: usize = 0;
    while i < KEY_LEN
        invariant
            i <= 17,
            key@ == alignment_key(),
            len == bytes@.len(),
            at + 17 <= len,
            forall|j: int| 0 <= j < i ==> bytes@[at + j] == alignment_key()[j],
        decreases 17 - i,
    {
        if bytes[at + i] != key[i] {
            return false;
        }
        i += 1;
    }
    true
}

/// The end of the zero bytes that stand in a row from `from` on.
fn zeros_end(bytes: &[u8], from: usize) -> (end: usize)
    requires
        from <= bytes@.len(),
    ensures
        from <= end <= bytes@.len(),
        all_zero(bytes@, from as int, end as int),
        end < bytes@.len() ==> bytes@[end as int] != 0,
{
    let mut end: usize = from;
    while end < bytes.len() && bytes[end] == 0
        invariant
            from <= end <= bytes@.len(),
            all_zero(bytes@, from as int, end as int),
        decreases bytes@.len() - end,
    {
        end += 1;
    }
    end
}

/// Whether a small integer that is zero stands at `at`, kind and value.
fn zero_value_stands(bytes: &[u8], at: usize) -> (stands: bool)
    requires
        at <= bytes@.len(),
    ensures
        stands == zero_value_at(bytes@, at as int),
{
    let len = bytes.len();
    if at >= len {
        return false;
    }
    let kind: u8 = bytes[at];
    if kind > 5 {
        return false;
    }
    let width: usize = if kind <= 1 {
        1
    } else if kind <= 3 {
        2
    } else {
        4
    };
    if len - at < 4 + width {
        return false;
    }
    let end = zeros_end(bytes, at + 1);
    end >= at + 4 + width
}

/// Whether the bytes of a GGUF file could give an alignment of zero.
pub fn gives_zero_alignment(bytes: &[u8]) -> (found: bool)
    ensures
        found == may_align_to_zero(bytes@),
{
    let len = bytes.len();
    if len < KEY_LEN {
        return false;
    }
    let key = key_bytes();
    let mut at: usize = 0;
    while at <= len - KEY_LEN
        invariant
            len == bytes@.len(),
            len >= 17,
            key@ == alignment_key(),
            at <= len - 17 + 1,
            forall|a: int, pad: int| 0 <= a < at ==> !#[trigger] zero_alignment_with(bytes@, a, pad),
        decreases len - at,
    {
        if key_stands(bytes, &key, at) {
            let from: usize = at + KEY_LEN;
            let end = zeros_end(bytes, from);
            if end - from >= 5 {
                assert(zero_alignment_with(bytes@, at as int, 0));
                return true;
            }
            if zero_value_stands(bytes, end) {
                assert(zero_alignment_with(bytes@, at as int, end - from));
                return true;
            }
            assert forall|pad: int| !#[trigger] zero_alignment_with(bytes@, at as int, pad) by {
                if zero_alignment_with(bytes@, at as int, pad) {
                    let value = from + pad;
                    if value < end {
                        assert(bytes@[value] == 0);
                        if end < len {
                            assert(value + 1 <= end < value + 5);
                            assert(bytes@[end as int] == 0);
                        }
                    } else if value > end {
                        assert(bytes@[end as int] == 0);
                    }
                }
            }
        }
        at += 1;
    }
    assert forall|a: int, pad: int| !#[trigger] zero_alignment_with(bytes@, a, pad) by {
        if zero_alignment_with(bytes@, a, pad) {
            assert(key_at(bytes@, a));
            assert(a < at);
        }
    }
    false
}

} // verus!
