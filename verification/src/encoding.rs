//! Canonical binary encoding: every consensus-relevant value has exactly one
//! byte string, and decoding is the inverse of encoding.

use vstd::prelude::*;
use vstd::bytes::*;
use vstd::slice::*;

verus! {

/// Why a byte string could not be decoded.
#[derive(Clone, Debug, PartialEq, Eq)]
pub struct DecodeError {
    message: String,
}

impl DecodeError {
    /// The description that the error carries.
    pub closed spec fn description(&self) -> String {
        self.message
    }

    /// The text of the description.
    pub open spec fn text(&self) -> Seq<char> {
        self.description()@
    }

    /// An error that carries a fixed description.
    pub fn from_str(s: &'static str) -> (e: Self)
        ensures
            e.text() == s@,
    {
        DecodeError { message: s.to_owned() }
    }

    /// An error that wraps a lower-level cause: it carries the text that the
    /// cause displays.
    pub fn from_err<E: std::error::Error + Send + 'static>(e: E) -> (err: Self)
        ensures
            vstd::string::to_string_from_display_ensures::<E>(&e, err.description()),
    {
        DecodeError { message: e.to_string() }
    }

    /// The description that the error carries.
    pub fn message(&self) -> (m: &String)
        ensures
            m@ == self.text(),
    {
        &self.message
    }
}

/// Data which has a canonical byte string.
///
/// The logical value of a datum is its deep view; the byte string is a
/// function of the logical value alone.
pub trait Encodable: DeepView {
    /// The canonical byte string of a logical value.
    spec fn encoding(v: Self::V) -> Seq<u8>;

    /// The logical values in canonical form: those that data of this type
    /// have, and that decoding can yield.
    spec fn canonical(v: Self::V) -> bool;

    /// Appends the canonical byte string of `self` to `writer` and returns
    /// the number of bytes appended. What is written is canonical.
    fn consensus_encode(&self, writer: &mut Vec<u8>) -> (written: usize)
        ensures
            final(writer)@ == old(writer)@ + Self::encoding(self.deep_view()),
            written == Self::encoding(self.deep_view()).len(),
            Self::canonical(self.deep_view()),
    ;
}

/// Data which can be read back from its canonical byte string.
pub trait Decodable: Encodable + Sized {
    /// A byte string starts with the encoding of at most one canonical value.
    proof fn lemma_unambiguous(a: Self::V, b: Self::V, s: Seq<u8>)
        requires
            Self::canonical(a),
            Self::canonical(b),
            Self::encoding(a).is_prefix_of(s),
            Self::encoding(b).is_prefix_of(s),
        ensures
            a == b,
    ;

    /// Decodes the value whose encoding starts at `bytes[start]`, and returns
    /// it with the position just behind its encoding.
    fn consensus_decode(bytes: &[u8], start: usize) -> (r: Result<(Self, usize), DecodeError>)
        requires
            start <= bytes@.len(),
        ensures
            match r {
                Ok((v, end)) => {
                    &&& start <= end <= bytes@.len()
                    &&& Self::canonical(v.deep_view())
                    &&& bytes@.subrange(start as int, end as int) == Self::encoding(v.deep_view())
                },
                Err(_) => forall|v: Self::V|
                    !(Self::canonical(v) && #[trigger] Self::encoding(v).is_prefix_of(
                        bytes@.skip(start as int),
                    )),
            },
    ;
}

/// What decoding at `start` may return: the one canonical value whose
/// encoding stands there, with the position behind it, or an error if no
/// canonical value's encoding stands there.
pub open spec fn decode_outcome<T: Decodable>(
    bytes: Seq<u8>,
    start: int,
    r: Result<(T, usize), DecodeError>,
) -> bool {
    match r {
        Ok((v, end)) => {
            &&& start <= end <= bytes.len()
            &&& T::canonical(v.deep_view())
            &&& bytes.subrange(start, end as int) == T::encoding(v.deep_view())
        },
        Err(_) => forall|v: T::V|
            !(T::canonical(v) && #[trigger] T::encoding(v).is_prefix_of(bytes.skip(start))),
    }
}

/// If `a + b` is a prefix of `s`, then `a` is a prefix of `s` and `b` is a
/// prefix of what follows `a` in `s`.
pub proof fn lemma_prefix_split(a: Seq<u8>, b: Seq<u8>, s: Seq<u8>)
    requires
        (a + b).is_prefix_of(s),
    ensures
        a.is_prefix_of(s),
        b.is_prefix_of(s.skip(a.len() as int)),
{
    let ab = a + b;
    assert(ab =~= s.subrange(0, ab.len() as int));
    assert forall|i: int| 0 <= i < a.len() implies a[i] == s[i] by {
        assert(ab[i] == s.subrange(0, ab.len() as int)[i]);
    }
    assert(a =~= s.subrange(0, a.len() as int));
    let t = s.skip(a.len() as int);
    assert forall|i: int| 0 <= i < b.len() implies b[i] == t[i] by {
        assert(ab[a.len() + i] == s.subrange(0, ab.len() as int)[a.len() + i]);
    }
    assert(b =~= t.subrange(0, b.len() as int));
}

/// Round-trip law: decoding the encoding of a canonical value, whatever
/// follows it, yields that value and the position just behind its encoding.
pub proof fn lemma_round_trip<T: Decodable>(
    v: T::V,
    rest: Seq<u8>,
    r: Result<(T, usize), DecodeError>,
)
    requires
        T::canonical(v),
        decode_outcome::<T>(T::encoding(v) + rest, 0, r),
    ensures
        r is Ok,
        r->Ok_0.0.deep_view() == v,
        r->Ok_0.1 == T::encoding(v).len(),
{
    let s = T::encoding(v) + rest;
    assert(s.skip(0) =~= s);
    assert(T::encoding(v) =~= s.subrange(0, T::encoding(v).len() as int));
    assert(T::encoding(v).is_prefix_of(s));
    match r {
        Ok((d, end)) => {
            let e = T::encoding(d.deep_view());
            assert(e == s.subrange(0, end as int));
            assert(e =~= s.subrange(0, e.len() as int));
            T::lemma_unambiguous(d.deep_view(), v, s);
        },
        Err(_) => {
            assert(false);
        },
    }
}

/// Injectivity: two canonical values with the same encoding are the same
/// value, so any change to a value changes its bytes.
pub proof fn lemma_encoding_injective<T: Decodable>(a: T::V, b: T::V)
    requires
        T::canonical(a),
        T::canonical(b),
        T::encoding(a) == T::encoding(b),
    ensures
        a == b,
{
    let s = T::encoding(a);
    assert(s =~= s.subrange(0, s.len() as int));
    T::lemma_unambiguous(a, b, s);
}

/// Determinism law: two data with the same logical value have the same
/// encoding, so encoding one value twice gives the same bytes.
pub proof fn lemma_encoding_deterministic<T: Encodable>(a: &T, b: &T)
    requires
        a.deep_view() == b.deep_view(),
    ensures
        T::encoding(a.deep_view()) == T::encoding(b.deep_view()),
{
}

/// Appends `bytes` to `writer` and returns how many bytes were appended.
pub fn append_bytes(writer: &mut Vec<u8>, bytes: &[u8]) -> (written: usize)
    ensures
        final(writer)@ == old(writer)@ + bytes@,
        written == bytes@.len(),
{
    let count = bytes.len();
    let mut i: usize = 0;
    assert(bytes@.take(0) =~= Seq::<u8>::empty());
    while i < count
        invariant
            i <= count,
            count == bytes@.len(),
            writer@ == old(writer)@ + bytes@.take(i as int),
        decreases count - i,
    {
        writer.push(bytes[i]);
        assert(bytes@.take(i + 1) =~= bytes@.take(i as int).push(bytes@[i as int]));
        i += 1;
    }
    assert(bytes@.take(count as int) =~= bytes@);
    count
}

impl Encodable for u64 {
    open spec fn encoding(v: u64) -> Seq<u8> {
        spec_u64_to_le_bytes(v)
    }

    open spec fn canonical(v: u64) -> bool {
        true
    }

    fn consensus_encode(&self, writer: &mut Vec<u8>) -> (written: usize) {
        let mut bytes = u64_to_le_bytes(*self);
        writer.append(&mut bytes);
        8
    }
}

impl Decodable for u64 {
    proof fn lemma_unambiguous(a: u64, b: u64, s: Seq<u8>) {
        lemma_auto_spec_u64_to_from_le_bytes();
        assert(spec_u64_to_le_bytes(a) =~= s.subrange(0, 8));
        assert(spec_u64_to_le_bytes(b) =~= s.subrange(0, 8));
        assert(spec_u64_from_le_bytes(spec_u64_to_le_bytes(a)) == a);
        assert(spec_u64_from_le_bytes(spec_u64_to_le_bytes(b)) == b);
    }

    fn consensus_decode(bytes: &[u8], start: usize) -> (r: Result<(Self, usize), DecodeError>) {
        proof {
            lemma_auto_spec_u64_to_from_le_bytes();
        }
        if bytes.len() - start < 8 {
            return Err(DecodeError::from_str("input ends inside an integer"));
        }
        let word = slice_subrange(bytes, start, start + 8);
        let value = u64_from_le_bytes(word);
        proof {
            assert(spec_u64_to_le_bytes(value) == word@);
        }
        Ok((value, start + 8))
    }
}

impl Encodable for u32 {
    open spec fn encoding(v: u32) -> Seq<u8> {
        spec_u32_to_le_bytes(v)
    }

    open spec fn canonical(v: u32) -> bool {
        true
    }

    fn consensus_encode(&self, writer: &mut Vec<u8>) -> (written: usize) {
        let mut bytes = u32_to_le_bytes(*self);
        writer.append(&mut bytes);
        4
    }
}

impl Decodable for u32 {
    proof fn lemma_unambiguous(a: u32, b: u32, s: Seq<u8>) {
        lemma_auto_spec_u32_to_from_le_bytes();
        assert(spec_u32_to_le_bytes(a) =~= s.subrange(0, 4));
        assert(spec_u32_to_le_bytes(b) =~= s.subrange(0, 4));
        assert(spec_u32_from_le_bytes(spec_u32_to_le_bytes(a)) == a);
        assert(spec_u32_from_le_bytes(spec_u32_to_le_bytes(b)) == b);
    }

    fn consensus_decode(bytes: &[u8], start: usize) -> (r: Result<(Self, usize), DecodeError>) {
        proof {
            lemma_auto_spec_u32_to_from_le_bytes();
        }
        if bytes.len() - start < 4 {
            return Err(DecodeError::from_str("input ends inside an integer"));
        }
        let word = slice_subrange(bytes, start, start + 4);
        let value = u32_from_le_bytes(word);
        proof {
            assert(spec_u32_to_le_bytes(value) == word@);
        }
        Ok((value, start + 4))
    }
}

impl<const N: usize> Encodable for [u8; N] {
    open spec fn encoding(v: Seq<u8>) -> Seq<u8> {
        v
    }

    open spec fn canonical(v: Seq<u8>) -> bool {
        v.len() == N
    }

    fn consensus_encode(&self, writer: &mut Vec<u8>) -> (written: usize) {
        assert(self.deep_view() =~= self@);
        let mut i: usize = 0;
        while i < N
            invariant
                i <= N,
                self@.len() == N,
                writer@ == old(writer)@ + self@.take(i as int),
            decreases N - i,
        {
            writer.push(self[i]);
            assert(self@.take(i + 1) =~= self@.take(i as int).push(self@[i as int]));
            i += 1;
        }
        assert(self@.take(N as int) =~= self@);
        N
    }
}

impl<const N: usize> Decodable for [u8; N] {
    proof fn lemma_unambiguous(a: Seq<u8>, b: Seq<u8>, s: Seq<u8>) {
        assert(a =~= s.subrange(0, N as int));
        assert(b =~= s.subrange(0, N as int));
    }

    fn consensus_decode(bytes: &[u8], start: usize) -> (r: Result<(Self, usize), DecodeError>) {
        if bytes.len() - start < N {
            return Err(DecodeError::from_str("input ends inside a fixed-size value"));
        }
        let len = bytes.len();
        let mut value = [0u8; N];
        let mut i: usize = 0;
        while i < N
            invariant
                i <= N,
                start + N <= len,
                len == bytes@.len(),
                value@.len() == N,
                forall|j: int| 0 <= j < i ==> value@[j] == bytes@[start + j],
            decreases N - i,
        {
            value[i] = bytes[start + i];
            i += 1;
        }
        assert(value.deep_view() =~= value@);
        assert(value@ =~= bytes@.subrange(start as int, start + N));
        Ok((value, start + N))
    }
}

impl<A: Encodable, B: Encodable> Encodable for (A, B) {
    open spec fn encoding(v: (A::V, B::V)) -> Seq<u8> {
        A::encoding(v.0) + B::encoding(v.1)
    }

    open spec fn canonical(v: (A::V, B::V)) -> bool {
        A::canonical(v.0) && B::canonical(v.1)
    }

    fn consensus_encode(&self, writer: &mut Vec<u8>) -> (written: usize) {
        let before = writer.len();
        self.0.consensus_encode(writer);
        self.1.consensus_encode(writer);
        assert(writer@ =~= old(writer)@ + Self::encoding(self.deep_view()));
        writer.len() - before
    }
}

impl<A: Decodable, B: Decodable> Decodable for (A, B) {
    proof fn lemma_unambiguous(a: (A::V, B::V), b: (A::V, B::V), s: Seq<u8>) {
        lemma_prefix_split(A::encoding(a.0), B::encoding(a.1), s);
        lemma_prefix_split(A::encoding(b.0), B::encoding(b.1), s);
        A::lemma_unambiguous(a.0, b.0, s);
        B::lemma_unambiguous(a.1, b.1, s.skip(A::encoding(a.0).len() as int));
    }

    fn consensus_decode(bytes: &[u8], start: usize) -> (r: Result<(Self, usize), DecodeError>) {
        let ghost s = bytes@.skip(start as int);
        let (first, mid) = match A::consensus_decode(bytes, start) {
            Ok(found) => found,
            Err(e) => {
                proof {
                    assert forall|v: (A::V, B::V)|
                        !(Self::canonical(v) && #[trigger] Self::encoding(v).is_prefix_of(s)) by {
                        if Self::canonical(v) && Self::encoding(v).is_prefix_of(s) {
                            lemma_prefix_split(A::encoding(v.0), B::encoding(v.1), s);
                        }
                    }
                }
                return Err(e);
            },
        };
        let ghost ea = A::encoding(first.deep_view());
        proof {
            assert(ea =~= s.subrange(0, ea.len() as int));
            assert(s.skip(ea.len() as int) =~= bytes@.skip(mid as int));
        }
        let (second, end) = match B::consensus_decode(bytes, mid) {
            Ok(found) => found,
            Err(e) => {
                proof {
                    assert forall|v: (A::V, B::V)|
                        !(Self::canonical(v) && #[trigger] Self::encoding(v).is_prefix_of(s)) by {
                        if Self::canonical(v) && Self::encoding(v).is_prefix_of(s) {
                            lemma_prefix_split(A::encoding(v.0), B::encoding(v.1), s);
                            A::lemma_unambiguous(v.0, first.deep_view(), s);
                        }
                    }
                }
                return Err(e);
            },
        };
        proof {
            let eb = B::encoding(second.deep_view());
            assert(bytes@.subrange(start as int, end as int) =~= ea + eb);
        }
        Ok(((first, second), end))
    }
}

/// The canonical byte string of `value`, in a vector of its own.
pub fn encode_to_vec<T: Encodable>(value: &T) -> (bytes: Vec<u8>)
    ensures
        bytes@ == T::encoding(value.deep_view()),
        T::canonical(value.deep_view()),
{
    let mut bytes: Vec<u8> = Vec::new();
    value.consensus_encode(&mut bytes);
    assert(bytes@ =~= T::encoding(value.deep_view()));
    bytes
}

/// Decodes the value of which `bytes` is the whole encoding. Bytes left over
/// behind a value are an error.
pub fn decode_exact<T: Decodable>(bytes: &[u8]) -> (r: Result<T, DecodeError>)
    ensures
        match r {
            Ok(v) => T::canonical(v.deep_view()) && bytes@ == T::encoding(v.deep_view()),
            Err(_) => forall|v: T::V| !(T::canonical(v) && bytes@ == #[trigger] T::encoding(v)),
        },
{
    assert(bytes@.skip(0) =~= bytes@);
    match T::consensus_decode(bytes, 0) {
        Ok((value, end)) => {
            if end == bytes.len() {
                assert(bytes@.subrange(0, end as int) =~= bytes@);
                Ok(value)
            } else {
                proof {
                    let found = value.deep_view();
                    assert(T::encoding(found) =~= bytes@.subrange(0, T::encoding(found).len() as int));
                    assert forall|v: T::V| !(T::canonical(v) && bytes@ == #[trigger] T::encoding(
                        v,
                    )) by {
                        if T::canonical(v) && bytes@ == T::encoding(v) {
                            assert(bytes@ =~= bytes@.subrange(0, bytes@.len() as int));
                            T::lemma_unambiguous(v, found, bytes@);
                        }
                    }
                }
                Err(DecodeError::from_str("bytes are left over behind the value"))
            }
        },
        Err(e) => {
            proof {
                assert forall|v: T::V| !(T::canonical(v) && bytes@ == #[trigger] T::encoding(
                    v,
                )) by {
                    if T::canonical(v) && bytes@ == T::encoding(v) {
                        assert(bytes@ =~= bytes@.subrange(0, bytes@.len() as int));
                        assert(T::encoding(v).is_prefix_of(bytes@));
                    }
                }
            }
            Err(e)
        },
    }
}


/// Round trip in code: encodes `value` and decodes the bytes again. For
/// every datum the result has the logical value of `value`.
pub fn round_trip<T: Decodable>(value: &T) -> (back: T)
    ensures
        back.deep_view() == value.deep_view(),
{
    let bytes = encode_to_vec(value);
    match decode_exact::<T>(bytes.as_slice()) {
        Ok(back) => {
            proof {
                lemma_encoding_injective::<T>(back.deep_view(), value.deep_view());
            }
            back
        },
        Err(_) => vstd::pervasive::unreached(),
    }
}

} // verus!
