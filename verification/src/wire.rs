//! Fixed-width integers on the wire: big-endian, two's complement.
use vstd::prelude::*;

verus! {

/// Number of values that `width` bytes can tell apart: 256 to the `width`.
pub open spec fn bytes_bound(width: nat) -> nat
    decreases width,
{
    if width == 0 {
        1
    } else {
        256 * bytes_bound((width - 1) as nat)
    }
}

/// The unsigned number that `s` holds, most significant byte first.
pub open spec fn be_value(s: Seq<u8>) -> nat
    decreases s.len(),
{
    if s.len() == 0 {
        0
    } else {
        be_value(s.drop_last()) * 256 + s.last() as nat
    }
}

/// The lowest `width` bytes of `v`, most significant first.
pub open spec fn be_bytes(v: nat, width: nat) -> Seq<u8>
    decreases width,
{
    if width == 0 {
        Seq::empty()
    } else {
        be_bytes(v / 256, (width - 1) as nat).push((v % 256) as u8)
    }
}

/// The residue by which two's complement stores `v` among `modulus` values.
pub open spec fn to_unsigned(v: int, modulus: nat) -> nat {
    if v < 0 {
        (v + modulus) as nat
    } else {
        v as nat
    }
}

/// The signed number that two's complement reads from the residue `u`.
pub open spec fn to_signed(u: nat, modulus: nat) -> int {
    if 2 * u >= modulus {
        u - modulus
    } else {
        u as int
    }
}

/// The bytes of the signed number `v` in a field of `width` bytes.
pub open spec fn signed_bytes(v: int, width: nat) -> Seq<u8> {
    be_bytes(to_unsigned(v, bytes_bound(width)), width)
}

/// The signed number that the field `s` holds.
pub open spec fn signed_value(s: Seq<u8>) -> int {
    to_signed(be_value(s), bytes_bound(s.len()))
}

/// A field is as long as its width.
pub proof fn lemma_be_bytes_len(v: nat, width: nat)
    ensures
        be_bytes(v, width).len() == width,
    decreases width,
{
    if width > 0 {
        lemma_be_bytes_len(v / 256, (width - 1) as nat);
    }
}

/// A field holds a number below the bound of its length.
pub proof fn lemma_be_value_bound(s: Seq<u8>)
    ensures
        be_value(s) < bytes_bound(s.len()),
    decreases s.len(),
{
    if s.len() > 0 {
        lemma_be_value_bound(s.drop_last());
    }
}

/// Reading a written field gives the number back, if the field is wide
/// enough for it.
pub proof fn lemma_be_value_of_bytes(v: nat, width: nat)
    requires
        v < bytes_bound(width),
    ensures
        be_value(be_bytes(v, width)) == v,
    decreases width,
{
    lemma_be_bytes_len(v, width);
    if width > 0 {
        let below = bytes_bound((width - 1) as nat);
        assert(v < 256 * below);
        assert(v / 256 < below);
        lemma_be_value_of_bytes(v / 256, (width - 1) as nat);
        assert(be_bytes(v, width).drop_last() =~= be_bytes(v / 256, (width - 1) as nat));
    }
}

/// Writing the number read from a field gives the field back.
pub proof fn lemma_be_bytes_of_value(s: Seq<u8>)
    ensures
        be_bytes(be_value(s), s.len()) == s,
    decreases s.len(),
{
    if s.len() > 0 {
        lemma_be_bytes_of_value(s.drop_last());
        assert(be_bytes(be_value(s), s.len()) =~= s);
    }
}

/// Two's complement loses nothing: a signed number within the range of
/// `width` bytes is read back from its field.
pub proof fn lemma_signed_value_of_bytes(v: int, width: nat)
    requires
        -(bytes_bound(width) as int) <= 2 * v < bytes_bound(width),
    ensures
        signed_value(signed_bytes(v, width)) == v,
        signed_bytes(v, width).len() == width,
{
    lemma_be_bytes_len(to_unsigned(v, bytes_bound(width)), width);
    lemma_be_value_of_bytes(to_unsigned(v, bytes_bound(width)), width);
}

/// Writing the signed number read from a field gives the field back.
pub proof fn lemma_signed_bytes_of_value(s: Seq<u8>)
    ensures
        signed_bytes(signed_value(s), s.len()) == s,
        -(bytes_bound(s.len()) as int) <= 2 * signed_value(s) < bytes_bound(s.len()),
{
    lemma_be_value_bound(s);
    lemma_be_bytes_of_value(s);
}

/// Appends `more` to `out`.
pub fn append_bytes(out: &mut Vec<u8>, more: &[u8])
    ensures
        final(out)@ == old(out)@ + more@,
{
    out.extend_from_slice(more);
    assert(out@ =~= old(out)@ + more@);
}

/// Returns the bytes of `v` in opposite order.
pub fn reversed(v: &Vec<u8>) -> (r: Vec<u8>)
    ensures
        r@ == v@.reverse(),
{
    let mut r: Vec<u8> = Vec::new();
    let mut i: usize = v.len();
    while i > 0
        invariant
            i <= v.len(),
            r.len() == v.len() - i,
            forall|j: int| 0 <= j < r.len() ==> r[j] == v[v.len() - 1 - j],
        decreases i,
    {
        i = i - 1;
        r.push(v[i]);
    }
    assert(r@ =~= v@.reverse());
    r
}

/// Reads a field of at most eight bytes as an unsigned number.
pub fn be_decode(bytes: &[u8]) -> (v: u64)
    requires
        bytes.len() <= 8,
    ensures
        v == be_value(bytes@),
{
    let mut acc: u64 = 0;
    let mut i: usize = 0;
    assert(bytes@.take(0) =~= Seq::<u8>::empty());
    while i < bytes.len()
        invariant
            i <= bytes.len() <= 8,
            acc == be_value(bytes@.take(i as int)),
        decreases bytes.len() - i,
    {
        proof {
            reveal_with_fuel(bytes_bound, 9);
            lemma_be_value_bound(bytes@.take(i as int));
            assert(bytes@.take(i + 1).drop_last() =~= bytes@.take(i as int));
        }
        acc = acc * 256 + bytes[i] as u64;
        i = i + 1;
    }
    assert(bytes@.take(bytes.len() as int) =~= bytes@);
    acc
}

/// Writes the lowest `width` bytes of `v`, most significant first.
pub fn be_encode(v: u64, width: usize) -> (bytes: Vec<u8>)
    requires
        width <= 8,
    ensures
        bytes@ == be_bytes(v as nat, width as nat),
        bytes.len() == width,
{
    let mut low_first: Vec<u8> = Vec::new();
    let mut rest: u64 = v;
    let mut i: usize = 0;
    while i < width
        invariant
            i <= width,
            low_first.len() == i,
            be_bytes(v as nat, width as nat) =~= be_bytes(rest as nat, (width - i) as nat)
                + low_first@.reverse(),
        decreases width - i,
    {
        let ghost before = low_first@;
        low_first.push((rest % 256) as u8);
        assert(low_first@.reverse() =~= seq![(rest % 256) as u8] + before.reverse());
        rest = rest / 256;
        i = i + 1;
    }
    reversed(&low_first)
}

/// Number of values of a field of one to seven bytes.
fn modulus_of(width: usize) -> (m: u64)
    requires
        1 <= width <= 7,
    ensures
        m == bytes_bound(width as nat),
{
    proof {
        reveal_with_fuel(bytes_bound, 8);
    }
    let mut m: u64 = 256;
    let mut i: usize = 1;
    while i < width
        invariant
            1 <= i <= width <= 7,
            m == bytes_bound(i as nat),
        decreases width - i,
    {
        proof {
            reveal_with_fuel(bytes_bound, 8);
        }
        m = m * 256;
        i = i + 1;
    }
    m
}

/// Reads a field of one to eight bytes as a signed number.
pub fn signed_decode(bytes: &[u8]) -> (v: i64)
    requires
        1 <= bytes.len() <= 8,
    ensures
        v == signed_value(bytes@),
{
    let u = be_decode(bytes);
    proof {
        reveal_with_fuel(bytes_bound, 9);
        lemma_be_value_bound(bytes@);
    }
    if bytes.len() == 8 {
        if u >= 0x8000_0000_0000_0000 {
            ((u - 0x8000_0000_0000_0000) as i64) + i64::MIN
        } else {
            u as i64
        }
    } else {
        let m = modulus_of(bytes.len());
        if u >= m / 2 {
            (u as i64) - (m as i64)
        } else {
            u as i64
        }
    }
}

/// Writes a signed number into a field of one to eight bytes.
pub fn signed_encode(v: i64, width: usize) -> (bytes: Vec<u8>)
    requires
        1 <= width <= 8,
        -(bytes_bound(width as nat) as int) <= 2 * v < bytes_bound(width as nat),
    ensures
        bytes@ == signed_bytes(v as int, width as nat),
        bytes.len() == width,
{
    proof {
        reveal_with_fuel(bytes_bound, 9);
    }
    let u: u64 = if v >= 0 {
        v as u64
    } else if width == 8 {
        ((v - i64::MIN) as u64) + 0x8000_0000_0000_0000
    } else {
        let m = modulus_of(width);
        ((m as i64) + v) as u64
    };
    be_encode(u, width)
}

} // verus!
