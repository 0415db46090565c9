//! Values that are read from a source field by field.
use crate::reader::{parse_i32, view_result, Parsed, Reader, ReaderError, ReaderResult};
use vstd::prelude::*;

verus! {

/// A value with a wire form that can be read back.
pub trait Readable: Sized + View {
    /// What reading makes of an input: the fields in the order of their
    /// declaration, up to the first one that fails.
    spec fn parse(input: Seq<u8>) -> Parsed<Self::V>;

    /// Reads the value from the front of what `reader` still holds.
    fn read<R: Reader>(reader: &mut R) -> (r: ReaderResult<Self>)
        ensures
            view_result(r) == Self::parse(old(reader).remaining()).value,
            final(reader).remaining() == Self::parse(old(reader).remaining()).rest,
    ;
}

/// The models of a run of values.
pub open spec fn views<T: View>(items: Seq<T>) -> Seq<T::V> {
    items.map_values(|item: T| item@)
}

/// Puts the values read so far in front of what the rest of a run gives.
pub open spec fn prepend<V>(done: Seq<V>, others: Parsed<Seq<V>>) -> Parsed<Seq<V>> {
    Parsed {
        value: match others.value {
            Ok(items) => Ok(done + items),
            Err(e) => Err(e),
        },
        rest: others.rest,
    }
}

/// What reading `count` values, one after the other, makes of an input.
pub open spec fn parse_many<T: Readable>(input: Seq<u8>, count: nat) -> Parsed<Seq<T::V>>
    decreases count,
{
    if count == 0 {
        Parsed { value: Ok(Seq::empty()), rest: input }
    } else {
        let first = T::parse(input);
        match first.value {
            Ok(item) => prepend(seq![item], parse_many::<T>(first.rest, (count - 1) as nat)),
            Err(e) => Parsed { value: Err(e), rest: first.rest },
        }
    }
}

/// What reading a counted run makes of an input: a signed 32-bit count, which
/// must not be negative, then that many values.
pub open spec fn parse_counted<T: Readable>(input: Seq<u8>) -> Parsed<Seq<T::V>> {
    let count = parse_i32(input);
    match count.value {
        Ok(n) => if n < 0 {
            Parsed { value: Err(ReaderError::NegativeLength), rest: count.rest }
        } else {
            parse_many::<T>(count.rest, n as nat)
        },
        Err(e) => Parsed { value: Err(e), rest: count.rest },
    }
}

/// Reads `count` values, one after the other.
pub fn read_many<T: Readable, R: Reader>(reader: &mut R, count: usize) -> (r: ReaderResult<Vec<T>>)
    ensures
        match r {
            Ok(items) => parse_many::<T>(old(reader).remaining(), count as nat).value == Ok::<
                Seq<T::V>,
                ReaderError,
            >(views(items@)),
            Err(e) => parse_many::<T>(old(reader).remaining(), count as nat).value == Err::<
                Seq<T::V>,
                ReaderError,
            >(e),
        },
        final(reader).remaining() == parse_many::<T>(old(reader).remaining(), count as nat).rest,
{
    let mut items: Vec<T> = Vec::new();
    let mut i: usize = 0;
    proof {
        let all = parse_many::<T>(reader.remaining(), count as nat);
        assert(views(items@) =~= Seq::<T::V>::empty());
        if all.value is Ok {
            assert(Seq::<T::V>::empty() + all.value->Ok_0 =~= all.value->Ok_0);
        }
    }
    while i < count
        invariant
            i <= count,
            parse_many::<T>(old(reader).remaining(), count as nat) == prepend(
                views(items@),
                parse_many::<T>(reader.remaining(), (count - i) as nat),
            ),
        decreases count - i,
    {
        let ghost done = views(items@);
        match T::read(reader) {
            Err(e) => {
                return Err(e);
            },
            Ok(item) => {
                proof {
                    let others = parse_many::<T>(reader.remaining(), (count - i - 1) as nat);
                    assert(views(items@.push(item)) =~= done.push(item@));
                    if others.value is Ok {
                        assert(done + (seq![item@] + others.value->Ok_0) =~= done.push(item@)
                            + others.value->Ok_0);
                    }
                }
                items.push(item);
            },
        }
        i = i + 1;
    }
    proof {
        assert(views(items@) + Seq::<T::V>::empty() =~= views(items@));
    }
    Ok(items)
}

/// Reads a counted run: the count, then the values.
pub fn read_counted<T: Readable, R: Reader>(reader: &mut R) -> (r: ReaderResult<Vec<T>>)
    ensures
        match r {
            Ok(items) => parse_counted::<T>(old(reader).remaining()).value == Ok::<
                Seq<T::V>,
                ReaderError,
            >(views(items@)),
            Err(e) => parse_counted::<T>(old(reader).remaining()).value == Err::<
                Seq<T::V>,
                ReaderError,
            >(e),
        },
        final(reader).remaining() == parse_counted::<T>(old(reader).remaining()).rest,
{
    let count = reader.next_i32()?;
    if count < 0 {
        return Err(ReaderError::NegativeLength);
    }
    read_many(reader, count as usize)
}

} // verus!
