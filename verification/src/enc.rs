//! Variable-length encoding of integers.
//!
//! A value is cut into groups of seven bits and written most significant
//! group first.  Every byte but the last carries the continuation bit `0x80`.
//! An unsigned 32-bit value takes one to five bytes, an unsigned 64-bit value
//! one to ten.  A signed value is sent through the zig-zag map first.
//!
//! Encoding yields the one shortest form of a value.  Decoding also takes
//! forms with leading zero groups, as long as they stay within the bytes that
//! the width permits, and rejects what does not fit the width.
use crate::wire::reversed;
use vstd::prelude::*;
use vstd::std_specs::iter::IteratorSpec;

verus! {

/// Largest number of bytes that the encoding of a `u32` takes.
pub const MAX_UVARINT_LEN: usize = 5;

/// The seven payload bits of a group.
pub open spec fn group_payload(b: u8) -> nat {
    (b % 128) as nat
}

/// Whether a byte announces that another group follows it.
pub open spec fn has_continuation(b: u8) -> bool {
    b >= 128
}

/// The groups of `v`, most significant first, each with the continuation bit
/// set.  These are the bytes that precede the final group of a larger value;
/// zero has none.
pub open spec fn uvarint_prefix(v: nat) -> Seq<u8>
    decreases v,
{
    if v == 0 {
        Seq::empty()
    } else {
        uvarint_prefix(v / 128).push((128 + v % 128) as u8)
    }
}

/// The canonical encoding of `v`: the continuation groups of `v / 128`
/// followed by the lowest group, which carries no continuation bit.
pub open spec fn uvarint_encoding(v: nat) -> Seq<u8> {
    uvarint_prefix(v / 128).push((v % 128) as u8)
}

/// The number accumulated from a run of groups, most significant first.
pub open spec fn groups_value(s: Seq<u8>) -> nat
    decreases s.len(),
{
    if s.len() == 0 {
        0
    } else {
        groups_value(s.drop_last()) * 128 + group_payload(s.last())
    }
}

/// Length of the longest prefix of `s` in which every byte carries the
/// continuation bit.
pub open spec fn continuation_run(s: Seq<u8>) -> nat
    decreases s.len(),
{
    if s.len() == 0 || !has_continuation(s[0]) {
        0
    } else {
        1 + continuation_run(s.drop_first())
    }
}

/// Exclusive upper bound of the number that `count` groups can hold.
pub open spec fn groups_bound(count: nat) -> nat
    decreases count,
{
    if count == 0 {
        1
    } else {
        128 * groups_bound((count - 1) as nat)
    }
}

/// The encoding is minimal: `v` has at most `k` continuation groups exactly
/// when `k` groups can hold it.
pub proof fn lemma_uvarint_prefix_len(v: nat, k: nat)
    ensures
        uvarint_prefix(v).len() <= k <==> v < groups_bound(k),
    decreases v,
{
    if v != 0 && k != 0 {
        lemma_uvarint_prefix_len(v / 128, (k - 1) as nat);
    } else if k != 0 {
        lemma_groups_bound_positive(k);
    }
}

/// No bound is zero.
pub proof fn lemma_groups_bound_positive(k: nat)
    ensures
        groups_bound(k) >= 1,
    decreases k,
{
    if k > 0 {
        lemma_groups_bound_positive((k - 1) as nat);
    }
}

/// Every continuation group asks for more, the groups hold `v`, and the
/// leading group is not zero.
pub proof fn lemma_uvarint_prefix(v: nat)
    ensures
        forall|j: int|
            0 <= j < uvarint_prefix(v).len() ==> has_continuation(#[trigger] uvarint_prefix(v)[j]),
        groups_value(uvarint_prefix(v)) == v,
        v > 0 ==> uvarint_prefix(v).len() > 0 && group_payload(uvarint_prefix(v)[0]) > 0,
    decreases v,
{
    if v != 0 {
        lemma_uvarint_prefix(v / 128);
        assert(uvarint_prefix(v).drop_last() =~= uvarint_prefix(v / 128));
    }
}

/// Encodes `value` in one to five bytes.
pub fn encode_uvarint(value: u32) -> (bytes: Vec<u8>)
    ensures
        bytes@ == uvarint_encoding(value as nat),
        1 <= bytes.len() <= MAX_UVARINT_LEN,
{
    let mut buf: Vec<u8> = Vec::new();
    let mut remaining: u32 = value;
    assert(value & 0x7f == value % 128 && value >> 7 == value / 128) by (bit_vector);
    buf.push((remaining & 0x7f) as u8);
    remaining = remaining >> 7;
    assert(buf@.reverse() =~= seq![(value % 128) as u8]);
    assert(uvarint_prefix(remaining as nat) + buf@.reverse() =~= uvarint_encoding(value as nat));
    while remaining > 0
        invariant
            uvarint_prefix(remaining as nat) + buf@.reverse() == uvarint_encoding(value as nat),
        decreases remaining,
    {
        let ghost before = buf@;
        let group: u8 = 0x80 | ((remaining & 0x7f) as u8);
        assert(group == 128 + remaining % 128 && remaining >> 7 == remaining / 128) by (bit_vector)
            requires
                group == 0x80 | ((remaining & 0x7f) as u8),
        ;
        buf.push(group);
        assert(buf@.reverse() =~= seq![group] + before.reverse());
        assert(uvarint_prefix(remaining as nat) + before.reverse() =~= uvarint_prefix(
            (remaining / 128) as nat,
        ) + buf@.reverse());
        remaining = remaining >> 7;
    }
    assert(uvarint_prefix(0) + buf@.reverse() =~= buf@.reverse());
    proof {
        reveal_with_fuel(groups_bound, 5);
        lemma_uvarint_prefix_len((value / 128) as nat, 4);
    }
    reversed(&buf)
}

/// Why a byte sequence is not the encoding of a `u32`.
#[derive(Debug, PartialEq, Eq, Structural, Clone, Copy)]
pub enum DecodeUvarintError {
    /// The groups describe a value of more than 32 bits.
    ValueTooLarge,
    /// The input ended before a byte without continuation bit.
    UnexpectedEof,
}

/// Number of bytes that a decoder of at most `max_len` groups takes from the
/// front of `s`: up to and including the first byte without continuation bit,
/// never more than `max_len`, never more than there are.
pub open spec fn groups_consumed(s: Seq<u8>, max_len: nat) -> nat {
    let wanted = if continuation_run(s) < max_len {
        continuation_run(s) + 1
    } else {
        max_len
    };
    if wanted <= s.len() {
        wanted
    } else {
        s.len()
    }
}

/// What a decoder of at most `max_len` groups makes of the front of `s`, for a
/// target type whose largest value is `max_value`.
///
/// The input is exhausted when it ends before `max_len` bytes were seen and
/// every byte seen asks for more.  The value is too large when the last
/// permitted byte still asks for more, or when the groups taken hold a number
/// above `max_value`.
pub open spec fn groups_decoding(s: Seq<u8>, max_len: nat, max_value: nat) -> Result<
    nat,
    DecodeUvarintError,
> {
    let n = groups_consumed(s, max_len);
    if continuation_run(s) >= n {
        if n < max_len {
            Err(DecodeUvarintError::UnexpectedEof)
        } else {
            Err(DecodeUvarintError::ValueTooLarge)
        }
    } else if groups_value(s.take(n as int)) > max_value {
        Err(DecodeUvarintError::ValueTooLarge)
    } else {
        Ok(groups_value(s.take(n as int)))
    }
}

/// Number of bytes that decoding a `u32` takes from the front of `s`.
pub open spec fn uvarint_consumed(s: Seq<u8>) -> nat {
    groups_consumed(s, 5)
}

/// What decoding a `u32` from the front of `s` yields.
pub open spec fn uvarint_decoding(s: Seq<u8>) -> Result<u32, DecodeUvarintError> {
    match groups_decoding(s, 5, 0xffff_ffff) {
        Ok(v) => Ok(v as u32),
        Err(e) => Err(e),
    }
}

/// Outcome of feeding one more byte to the decoder.
pub enum UvarintStep {
    /// The byte ended the encoding; the value is complete.
    Done(u32),
    /// The byte asked for more; the groups so far are kept.
    More(u32),
    /// The value cannot be held in 32 bits.
    TooLarge,
}

/// What `uvarint_step` returns, stated over numbers.
pub open spec fn uvarint_step_spec(acc: nat, index: nat, byte: u8) -> UvarintStep {
    if index == 4 && (acc * 128 + group_payload(byte) > 0xffff_ffff || has_continuation(byte)) {
        UvarintStep::TooLarge
    } else if has_continuation(byte) {
        UvarintStep::More((acc * 128 + group_payload(byte)) as u32)
    } else {
        UvarintStep::Done((acc * 128 + group_payload(byte)) as u32)
    }
}

/// A run of groups holds a number below the bound of its length.
pub proof fn lemma_groups_value_bound(s: Seq<u8>)
    ensures
        groups_value(s) < groups_bound(s.len()),
    decreases s.len(),
{
    if s.len() > 0 {
        lemma_groups_value_bound(s.drop_last());
    }
}

/// Takes the `index`-th byte of an encoding into the groups accumulated from
/// the `index` bytes before it.
pub fn uvarint_step(acc: u32, index: usize, byte: u8) -> (step: UvarintStep)
    requires
        index < MAX_UVARINT_LEN,
        acc < groups_bound(index as nat),
    ensures
        step == uvarint_step_spec(acc as nat, index as nat, byte),
        acc * 128 + group_payload(byte) < groups_bound((index + 1) as nat),
        step !is TooLarge ==> acc * 128 + group_payload(byte) <= u32::MAX,
{
    proof {
        reveal_with_fuel(groups_bound, 6);
    }
    let shifted: u32 = acc << 7;
    assert((byte & 0x80 != 0) == (byte >= 128) && (byte & 0x7f) == byte % 128) by (bit_vector);
    assert(((acc << 7) >> 7 != acc) == (acc >= 0x200_0000)) by (bit_vector)
        requires
            acc < 0x1000_0000,
    ;
    if index == 4 && (shifted >> 7 != acc || byte & 0x80 != 0) {
        return UvarintStep::TooLarge;
    }
    let low: u8 = byte & 0x7f;
    let value: u32 = shifted | (low as u32);
    assert(value == acc * 128 + low) by (bit_vector)
        requires
            value == (acc << 7) | (low as u32),
            acc < 0x200_0000,
            low < 128,
    ;
    if byte & 0x80 != 0 {
        UvarintStep::More(value)
    } else {
        UvarintStep::Done(value)
    }
}

/// Relates a prefix in which every byte asks for more to `continuation_run`.
pub proof fn lemma_continuation_run(s: Seq<u8>, k: nat)
    requires
        k <= s.len(),
        forall|j: int| 0 <= j < k ==> has_continuation(#[trigger] s[j]),
    ensures
        continuation_run(s) >= k,
        k == s.len() ==> continuation_run(s) == k,
        k < s.len() && !has_continuation(s[k as int]) ==> continuation_run(s) == k,
    decreases k,
{
    if k > 0 {
        let t = s.drop_first();
        assert forall|j: int| 0 <= j < k - 1 implies has_continuation(#[trigger] t[j]) by {
            assert(t[j] == s[j + 1]);
        }
        lemma_continuation_run(t, (k - 1) as nat);
    }
}

/// Appending one group multiplies the value by 128 and adds the payload.
pub proof fn lemma_groups_value_take(s: Seq<u8>, k: int)
    requires
        0 <= k < s.len(),
    ensures
        groups_value(s.take(k + 1)) == groups_value(s.take(k)) * 128 + group_payload(s[k]),
{
    assert(s.take(k + 1).drop_last() =~= s.take(k));
}

/// Decodes an unsigned variable-length integer from the front of a byte
/// iterator, taking no byte beyond the one that ends the encoding.
pub fn decode_uvarint<'a, I: Iterator<Item = &'a u8>>(bytes: &mut I) -> (r: Result<
    u32,
    DecodeUvarintError,
>)
    requires
        <I as IteratorSpec>::obeys_prophetic_iter_laws(old(bytes)),
    ensures
        r == uvarint_decoding(<I as IteratorSpec>::remaining(old(bytes)).unref()),
        <I as IteratorSpec>::remaining(final(bytes)) == <I as IteratorSpec>::remaining(
            old(bytes),
        ).skip(uvarint_consumed(<I as IteratorSpec>::remaining(old(bytes)).unref()) as int),
{
    let ghost input = <I as IteratorSpec>::remaining(bytes);
    let ghost s = input.unref();
    let mut acc: u32 = 0;
    let mut index: usize = 0;
    assert(s.take(0) =~= Seq::<u8>::empty());
    assert(input.skip(0) =~= input);
    loop
        invariant
            index < MAX_UVARINT_LEN,
            index <= s.len(),
            s == input.unref(),
            input == <I as IteratorSpec>::remaining(old(bytes)),
            <I as IteratorSpec>::obeys_prophetic_iter_laws(bytes),
            <I as IteratorSpec>::remaining(bytes) == input.skip(index as int),
            forall|j: int| 0 <= j < index ==> has_continuation(#[trigger] s[j]),
            acc == groups_value(s.take(index as int)),
        decreases MAX_UVARINT_LEN - index,
    {
        proof {
            lemma_groups_value_bound(s.take(index as int));
            lemma_continuation_run(s, index as nat);
        }
        match bytes.next() {
            None => {
                return Err(DecodeUvarintError::UnexpectedEof);
            },
            Some(b) => {
                proof {
                    assert(*b == s[index as int]);
                    assert(input.skip(index as int).drop_first() =~= input.skip(index + 1));
                    lemma_groups_value_take(s, index as int);
                    if has_continuation(*b) {
                        lemma_continuation_run(s, (index + 1) as nat);
                    }
                }
                match uvarint_step(acc, index, *b) {
                    UvarintStep::Done(value) => {
                        return Ok(value);
                    },
                    UvarintStep::TooLarge => {
                        return Err(DecodeUvarintError::ValueTooLarge);
                    },
                    UvarintStep::More(next) => {
                        acc = next;
                        index = index + 1;
                    },
                }
            },
        }
    }
}

/// Decoding undoes encoding, whatever follows the encoding: a decoder that
/// permits enough groups for `v` and whose target type can hold `v` returns
/// `v` and takes exactly the bytes of the encoding.
pub proof fn lemma_groups_round_trip(v: nat, rest: Seq<u8>, max_len: nat, max_value: nat)
    requires
        max_len > 0,
        v <= max_value,
        v < groups_bound(max_len),
    ensures
        groups_decoding(uvarint_encoding(v) + rest, max_len, max_value) == Ok::<
            nat,
            DecodeUvarintError,
        >(v),
        groups_consumed(uvarint_encoding(v) + rest, max_len) == uvarint_encoding(v).len(),
        uvarint_encoding(v).len() <= max_len,
{
    let p = uvarint_prefix(v / 128);
    let e = uvarint_encoding(v);
    let s = e + rest;
    lemma_uvarint_prefix(v / 128);
    assert(p.len() <= max_len - 1) by {
        let below = groups_bound((max_len - 1) as nat);
        assert(v < 128 * below);
        assert(v / 128 < below);
        lemma_uvarint_prefix_len(v / 128, (max_len - 1) as nat);
    }
    assert forall|j: int| 0 <= j < p.len() implies has_continuation(#[trigger] s[j]) by {
        assert(s[j] == p[j]);
    }
    assert(s[p.len() as int] == (v % 128) as u8);
    lemma_continuation_run(s, p.len());
    assert(s.take(e.len() as int) =~= e);
    assert(e.drop_last() =~= p);
}

/// A `u32` survives encoding and decoding, whatever follows the encoding.
pub proof fn lemma_uvarint_round_trip(v: u32, rest: Seq<u8>)
    ensures
        uvarint_decoding(uvarint_encoding(v as nat) + rest) == Ok::<u32, DecodeUvarintError>(v),
        uvarint_consumed(uvarint_encoding(v as nat) + rest) == uvarint_encoding(v as nat).len(),
{
    reveal_with_fuel(groups_bound, 6);
    lemma_groups_round_trip(v as nat, rest, 5, 0xffff_ffff);
}

/// No two values share an encoding.
pub proof fn lemma_uvarint_encoding_injective(a: u32, b: u32)
    requires
        uvarint_encoding(a as nat) == uvarint_encoding(b as nat),
    ensures
        a == b,
{
    lemma_uvarint_round_trip(a, Seq::empty());
    lemma_uvarint_round_trip(b, Seq::empty());
}

/// Nothing is decoded from no bytes.
pub proof fn lemma_uvarint_of_nothing()
    ensures
        uvarint_decoding(Seq::empty()) == Err::<u32, DecodeUvarintError>(
            DecodeUvarintError::UnexpectedEof,
        ),
        uvarint_consumed(Seq::empty()) == 0,
{
    assert(continuation_run(Seq::<u8>::empty()) == 0);
}

/// Largest number of bytes that the encoding of a `u64` takes.
pub const MAX_UVARLONG_LEN: usize = 10;

/// Encodes `value` in one to ten bytes.
pub fn encode_uvarlong(value: u64) -> (bytes: Vec<u8>)
    ensures
        bytes@ == uvarint_encoding(value as nat),
        1 <= bytes.len() <= MAX_UVARLONG_LEN,
{
    let mut buf: Vec<u8> = Vec::new();
    let mut remaining: u64 = value;
    assert(value & 0x7f == value % 128 && value >> 7 == value / 128) by (bit_vector);
    buf.push((remaining & 0x7f) as u8);
    remaining = remaining >> 7;
    assert(buf@.reverse() =~= seq![(value % 128) as u8]);
    assert(uvarint_prefix(remaining as nat) + buf@.reverse() =~= uvarint_encoding(value as nat));
    while remaining > 0
        invariant
            uvarint_prefix(remaining as nat) + buf@.reverse() == uvarint_encoding(value as nat),
        decreases remaining,
    {
        let ghost before = buf@;
        let group: u8 = 0x80 | ((remaining & 0x7f) as u8);
        assert(group == 128 + remaining % 128 && remaining >> 7 == remaining / 128) by (bit_vector)
            requires
                group == 0x80 | ((remaining & 0x7f) as u8),
        ;
        buf.push(group);
        assert(buf@.reverse() =~= seq![group] + before.reverse());
        assert(uvarint_prefix(remaining as nat) + before.reverse() =~= uvarint_prefix(
            (remaining / 128) as nat,
        ) + buf@.reverse());
        remaining = remaining >> 7;
    }
    assert(uvarint_prefix(0) + buf@.reverse() =~= buf@.reverse());
    proof {
        reveal_with_fuel(groups_bound, 10);
        lemma_uvarint_prefix_len((value / 128) as nat, 9);
    }
    reversed(&buf)
}

/// Outcome of feeding one more byte to the 64-bit decoder.
pub enum UvarlongStep {
    /// The byte ended the encoding; the value is complete.
    Done(u64),
    /// The byte asked for more; the groups so far are kept.
    More(u64),
    /// The value cannot be held in 64 bits.
    TooLarge,
}

/// What `uvarlong_step` returns, stated over numbers.
pub open spec fn uvarlong_step_spec(acc: nat, index: nat, byte: u8) -> UvarlongStep {
    if index == 9 && (acc * 128 + group_payload(byte) > 0xffff_ffff_ffff_ffff || has_continuation(
        byte,
    )) {
        UvarlongStep::TooLarge
    } else if has_continuation(byte) {
        UvarlongStep::More((acc * 128 + group_payload(byte)) as u64)
    } else {
        UvarlongStep::Done((acc * 128 + group_payload(byte)) as u64)
    }
}

/// Takes the `index`-th byte of an encoding into the groups accumulated from
/// the `index` bytes before it.
pub fn uvarlong_step(acc: u64, index: usize, byte: u8) -> (step: UvarlongStep)
    requires
        index < MAX_UVARLONG_LEN,
        acc < groups_bound(index as nat),
    ensures
        step == uvarlong_step_spec(acc as nat, index as nat, byte),
        acc * 128 + group_payload(byte) < groups_bound((index + 1) as nat),
        step !is TooLarge ==> acc * 128 + group_payload(byte) <= u64::MAX,
{
    proof {
        reveal_with_fuel(groups_bound, 11);
    }
    let shifted: u64 = acc << 7;
    assert((byte & 0x80 != 0) == (byte >= 128) && (byte & 0x7f) == byte % 128) by (bit_vector);
    assert(((acc << 7) >> 7 != acc) == (acc >= 0x200_0000_0000_0000)) by (bit_vector)
        requires
            acc < 0x8000_0000_0000_0000,
    ;
    if index == 9 && (shifted >> 7 != acc || byte & 0x80 != 0) {
        return UvarlongStep::TooLarge;
    }
    let low: u8 = byte & 0x7f;
    let value: u64 = shifted | (low as u64);
    assert(value == acc * 128 + low) by (bit_vector)
        requires
            value == (acc << 7) | (low as u64),
            acc < 0x200_0000_0000_0000,
            low < 128,
    ;
    if byte & 0x80 != 0 {
        UvarlongStep::More(value)
    } else {
        UvarlongStep::Done(value)
    }
}

/// The zig-zag image of a signed number: 0, -1, 1, -2, 2, ... are sent to
/// 0, 1, 2, 3, 4, ..., so that numbers near zero get short encodings.
pub open spec fn zigzag(v: int) -> nat {
    if v >= 0 {
        (2 * v) as nat
    } else {
        (-2 * v - 1) as nat
    }
}

/// The signed number whose zig-zag image is `u`.
pub open spec fn unzigzag(u: nat) -> int {
    if u % 2 == 0 {
        (u / 2) as int
    } else {
        -((u / 2) as int) - 1
    }
}

/// The two zig-zag maps undo each other.
pub proof fn lemma_zigzag_inverse(v: int, u: nat)
    ensures
        unzigzag(zigzag(v)) == v,
        zigzag(unzigzag(u)) == u,
{
}

/// Zig-zag image of an `i32`.
pub fn zigzag_encode32(v: i32) -> (u: u32)
    ensures
        u == zigzag(v as int),
{
    if v >= 0 {
        (v as u32) * 2
    } else {
        ((-(v + 1)) as u32) * 2 + 1
    }
}

/// The `i32` whose zig-zag image is `u`.
pub fn zigzag_decode32(u: u32) -> (v: i32)
    ensures
        v == unzigzag(u as nat),
{
    if u % 2 == 0 {
        (u / 2) as i32
    } else {
        -((u / 2) as i32) - 1
    }
}

/// Zig-zag image of an `i64`.
pub fn zigzag_encode64(v: i64) -> (u: u64)
    ensures
        u == zigzag(v as int),
{
    if v >= 0 {
        (v as u64) * 2
    } else {
        ((-(v + 1)) as u64) * 2 + 1
    }
}

/// The `i64` whose zig-zag image is `u`.
pub fn zigzag_decode64(u: u64) -> (v: i64)
    ensures
        v == unzigzag(u as nat),
{
    if u % 2 == 0 {
        (u / 2) as i64
    } else {
        -((u / 2) as i64) - 1
    }
}

/// Encodes a signed 32-bit value: the zig-zag image, in groups.
pub fn encode_varint(value: i32) -> (bytes: Vec<u8>)
    ensures
        bytes@ == uvarint_encoding(zigzag(value as int)),
        1 <= bytes.len() <= MAX_UVARINT_LEN,
{
    encode_uvarint(zigzag_encode32(value))
}

/// Encodes a signed 64-bit value: the zig-zag image, in groups.
pub fn encode_varlong(value: i64) -> (bytes: Vec<u8>)
    ensures
        bytes@ == uvarint_encoding(zigzag(value as int)),
        1 <= bytes.len() <= MAX_UVARLONG_LEN,
{
    encode_uvarlong(zigzag_encode64(value))
}

} // verus!
