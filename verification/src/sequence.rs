//! Encoding of variable-length sequences: the number of items as a 64-bit
//! little-endian integer, then the items' encodings in order.

use vstd::prelude::*;
use vstd::bytes::*;
use crate::encoding::{lemma_prefix_split, Decodable, DecodeError, Encodable};

verus! {

/// The encodings of the items of `items`, one after the other.
pub open spec fn concat_encodings<T: Encodable>(items: Seq<T::V>) -> Seq<u8>
    decreases items.len(),
{
    if items.len() == 0 {
        Seq::empty()
    } else {
        T::encoding(items[0]) + concat_encodings::<T>(items.drop_first())
    }
}

/// The encoding of a sequence: its length, then its items.
pub open spec fn sequence_encoding<T: Encodable>(items: Seq<T::V>) -> Seq<u8> {
    spec_u64_to_le_bytes(items.len() as u64) + concat_encodings::<T>(items)
}

/// A sequence is canonical if its length fits the length prefix and each of
/// its items is canonical.
pub open spec fn sequence_canonical<T: Encodable>(items: Seq<T::V>) -> bool {
    &&& items.len() <= u64::MAX
    &&& forall|i: int| 0 <= i < items.len() ==> T::canonical(#[trigger] items[i])
}

/// Appending an item to a sequence appends its encoding.
pub proof fn lemma_concat_push<T: Encodable>(items: Seq<T::V>, last: T::V)
    ensures
        concat_encodings::<T>(items.push(last)) == concat_encodings::<T>(items) + T::encoding(
            last,
        ),
    decreases items.len(),
{
    let all = items.push(last);
    if items.len() == 0 {
        assert(all.drop_first() =~= Seq::<T::V>::empty());
        assert(concat_encodings::<T>(all.drop_first()) =~= Seq::<u8>::empty());
        assert(concat_encodings::<T>(all) =~= T::encoding(last));
        assert(concat_encodings::<T>(items) + T::encoding(last) =~= T::encoding(last));
    } else {
        assert(all.drop_first() =~= items.drop_first().push(last));
        lemma_concat_push::<T>(items.drop_first(), last);
        assert(all[0] == items[0]);
        assert(concat_encodings::<T>(all) =~= concat_encodings::<T>(items) + T::encoding(last));
    }
}

/// Two canonical sequences of the same length whose item encodings both
/// stand at the start of `s` are the same sequence.
pub proof fn lemma_items_unambiguous<T: Decodable>(a: Seq<T::V>, b: Seq<T::V>, s: Seq<u8>)
    requires
        a.len() == b.len(),
        forall|i: int| 0 <= i < a.len() ==> T::canonical(#[trigger] a[i]),
        forall|i: int| 0 <= i < b.len() ==> T::canonical(#[trigger] b[i]),
        concat_encodings::<T>(a).is_prefix_of(s),
        concat_encodings::<T>(b).is_prefix_of(s),
    ensures
        a == b,
    decreases a.len(),
{
    if a.len() == 0 {
        assert(a =~= b);
    } else {
        lemma_prefix_split(T::encoding(a[0]), concat_encodings::<T>(a.drop_first()), s);
        lemma_prefix_split(T::encoding(b[0]), concat_encodings::<T>(b.drop_first()), s);
        T::lemma_unambiguous(a[0], b[0], s);
        let ta = a.drop_first();
        let tb = b.drop_first();
        assert forall|i: int| 0 <= i < ta.len() implies T::canonical(#[trigger] ta[i]) by {
            assert(ta[i] == a[i + 1]);
        }
        assert forall|i: int| 0 <= i < tb.len() implies T::canonical(#[trigger] tb[i]) by {
            assert(tb[i] == b[i + 1]);
        }
        lemma_items_unambiguous::<T>(ta, tb, s.skip(T::encoding(a[0]).len() as int));
        assert(a =~= seq![a[0]] + ta);
        assert(b =~= seq![b[0]] + tb);
    }
}

impl<T: Encodable> Encodable for [T] {
    open spec fn encoding(v: Seq<T::V>) -> Seq<u8> {
        sequence_encoding::<T>(v)
    }

    open spec fn canonical(v: Seq<T::V>) -> bool {
        sequence_canonical::<T>(v)
    }

    fn consensus_encode(&self, writer: &mut Vec<u8>) -> (written: usize) {
        let ghost items = self.deep_view();
        let before = writer.len();
        let count = self.len();
        (count as u64).consensus_encode(writer);
        let mut i: usize = 0;
        proof {
            assert(items.take(0) =~= Seq::<T::V>::empty());
            assert(writer@ =~= old(writer)@ + (spec_u64_to_le_bytes(count as u64)
                + concat_encodings::<T>(items.take(0))));
        }
        while i < count
            invariant
                i <= count,
                count == self@.len(),
                items == self.deep_view(),
                before == old(writer)@.len(),
                forall|j: int| 0 <= j < i ==> T::canonical(#[trigger] items[j]),
                writer@ == old(writer)@ + (spec_u64_to_le_bytes(count as u64)
                    + concat_encodings::<T>(items.take(i as int))),
            decreases count - i,
        {
            self[i].consensus_encode(writer);
            proof {
                lemma_concat_push::<T>(items.take(i as int), items[i as int]);
                assert(items.take(i + 1) =~= items.take(i as int).push(items[i as int]));
                assert(writer@ =~= old(writer)@ + (spec_u64_to_le_bytes(count as u64)
                    + concat_encodings::<T>(items.take(i + 1))));
            }
            i += 1;
        }
        proof {
            assert(items.take(count as int) =~= items);
        }
        writer.len() - before
    }
}

impl<T: Encodable> Encodable for Vec<T> {
    open spec fn encoding(v: Seq<T::V>) -> Seq<u8> {
        sequence_encoding::<T>(v)
    }

    open spec fn canonical(v: Seq<T::V>) -> bool {
        sequence_canonical::<T>(v)
    }

    fn consensus_encode(&self, writer: &mut Vec<u8>) -> (written: usize) {
        let items = self.as_slice();
        assert(items.deep_view() =~= self.deep_view());
        items.consensus_encode(writer)
    }
}

impl<T: Decodable> Decodable for Vec<T> {
    proof fn lemma_unambiguous(a: Seq<T::V>, b: Seq<T::V>, s: Seq<u8>) {
        let la = spec_u64_to_le_bytes(a.len() as u64);
        let lb = spec_u64_to_le_bytes(b.len() as u64);
        lemma_prefix_split(la, concat_encodings::<T>(a), s);
        lemma_prefix_split(lb, concat_encodings::<T>(b), s);
        u64::lemma_unambiguous(a.len() as u64, b.len() as u64, s);
        lemma_auto_spec_u64_to_from_le_bytes();
        lemma_items_unambiguous::<T>(a, b, s.skip(8));
    }

    fn consensus_decode(bytes: &[u8], start: usize) -> (r: Result<(Self, usize), DecodeError>) {
        let ghost s = bytes@.skip(start as int);
        let ghost has = exists|w: Seq<T::V>|
            Self::canonical(w) && (#[trigger] Self::encoding(w)).is_prefix_of(s);
        let ghost w = choose|w: Seq<T::V>|
            Self::canonical(w) && (#[trigger] Self::encoding(w)).is_prefix_of(s);
        proof {
            lemma_auto_spec_u64_to_from_le_bytes();
        }
        let (count, first) = match u64::consensus_decode(bytes, start) {
            Ok(found) => found,
            Err(e) => {
                proof {
                    if has {
                        lemma_prefix_split(
                            spec_u64_to_le_bytes(w.len() as u64),
                            concat_encodings::<T>(w),
                            s,
                        );
                        assert(u64::encoding(w.len() as u64).is_prefix_of(s));
                    }
                }
                return Err(e);
            },
        };
        proof {
            if has {
                lemma_prefix_split(
                    spec_u64_to_le_bytes(w.len() as u64),
                    concat_encodings::<T>(w),
                    s,
                );
                assert(spec_u64_to_le_bytes(count) =~= s.subrange(0, 8));
                u64::lemma_unambiguous(w.len() as u64, count, s);
                assert(s.skip(8) =~= bytes@.skip(first as int));
                assert(w.skip(0) =~= w);
                assert(w.take(0) =~= Seq::<T::V>::empty());
            }
        }
        let mut items: Vec<T> = Vec::new();
        let mut pos = first;
        let mut i: u64 = 0;
        proof {
            assert(items.deep_view() =~= Seq::<T::V>::empty());
            assert(bytes@.subrange(first as int, pos as int) =~= Seq::<u8>::empty());
        }
        while i < count
            invariant
                i <= count,
                first == start + 8,
                first <= pos <= bytes@.len(),
                items@.len() == i,
                forall|j: int| 0 <= j < i ==> T::canonical(#[trigger] items.deep_view()[j]),
                bytes@.subrange(first as int, pos as int) == concat_encodings::<T>(
                    items.deep_view(),
                ),
                has == exists|w: Seq<T::V>|
                    Self::canonical(w) && (#[trigger] Self::encoding(w)).is_prefix_of(s),
                s == bytes@.skip(start as int),
                has ==> {
                    &&& Self::canonical(w)
                    &&& w.len() == count
                    &&& w.take(i as int) == items.deep_view()
                    &&& concat_encodings::<T>(w.skip(i as int)).is_prefix_of(
                        bytes@.skip(pos as int),
                    )
                },
            decreases count - i,
        {
            let ghost done = items.deep_view();
            let ghost tail = w.skip(i as int);
            proof {
                if has {
                    assert(tail[0] == w[i as int]);
                    lemma_prefix_split(
                        T::encoding(tail[0]),
                        concat_encodings::<T>(tail.drop_first()),
                        bytes@.skip(pos as int),
                    );
                    assert(T::canonical(w[i as int]));
                }
            }
            let (item, next) = match T::consensus_decode(bytes, pos) {
                Ok(found) => found,
                Err(e) => {
                    proof {
                        if has {
                            assert(T::encoding(w[i as int]).is_prefix_of(bytes@.skip(pos as int)));
                        }
                    }
                    return Err(e);
                },
            };
            let ghost e = T::encoding(item.deep_view());
            items.push(item);
            proof {
                assert(items.deep_view() =~= done.push(item.deep_view()));
                lemma_concat_push::<T>(done, item.deep_view());
                assert(bytes@.subrange(first as int, next as int) =~= bytes@.subrange(
                    first as int,
                    pos as int,
                ) + e);
                if has {
                    assert(e =~= bytes@.skip(pos as int).subrange(0, e.len() as int));
                    T::lemma_unambiguous(w[i as int], item.deep_view(), bytes@.skip(pos as int));
                    assert(w.take(i + 1) =~= w.take(i as int).push(w[i as int]));
                    assert(tail.drop_first() =~= w.skip(i + 1));
                    assert(bytes@.skip(pos as int).skip(e.len() as int) =~= bytes@.skip(
                        next as int,
                    ));
                }
            }
            pos = next;
            i += 1;
        }
        proof {
            assert(bytes@.subrange(start as int, pos as int) =~= bytes@.subrange(
                start as int,
                first as int,
            ) + bytes@.subrange(first as int, pos as int));
        }
        Ok((items, pos))
    }
}

} // verus!
