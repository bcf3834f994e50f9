//! The binary codec: a little-endian, length-prefixed wire format.
//!
//! Every wire type has a mathematical model, a byte image (`encoding`) and a
//! total decoding function on byte sequences. Readers and writers are proved
//! against those, and each type proves that decoding its own image gives the
//! value back.

use vstd::prelude::*;
use vstd::slice::slice_subrange;

verus! {

/// Why a byte sequence is not the image of a value.
#[derive(Clone, Copy, Debug, PartialEq, Eq, Structural)]
pub enum DecodeError {
    /// The input ended before the value did.
    UnexpectedEof,
    /// A ULEB128 number needs more than 32 bits.
    InvalidLength,
    /// A bounded string is longer than its bound.
    StringTooLong,
    /// A room identifier is empty or holds a character outside `[A-Za-z0-9_-]`.
    InvalidRoomId,
    /// A tagged variant carries a discriminant that no variant has.
    InvalidEnum(u8),
    /// A timestamp lies outside the representable range.
    InvalidTimestamp,
}

impl DecodeError {
    /// The reason in words.
    pub fn message(&self) -> (s: String)
        ensures
            s@ == self.reason(),
    {
        match self {
            DecodeError::UnexpectedEof => "unexpected EOF".to_owned(),
            DecodeError::InvalidLength => "invalid length".to_owned(),
            DecodeError::StringTooLong => "string too long".to_owned(),
            DecodeError::InvalidRoomId => "invalid room id".to_owned(),
            DecodeError::InvalidEnum(_) => "invalid enum".to_owned(),
            DecodeError::InvalidTimestamp => "invalid timestamp".to_owned(),
        }
    }

    /// The reason in words.
    pub open spec fn reason(&self) -> Seq<char> {
        match self {
            DecodeError::UnexpectedEof => "unexpected EOF"@,
            DecodeError::InvalidLength => "invalid length"@,
            DecodeError::StringTooLong => "string too long"@,
            DecodeError::InvalidRoomId => "invalid room id"@,
            DecodeError::InvalidEnum(_) => "invalid enum"@,
            DecodeError::InvalidTimestamp => "invalid timestamp"@,
        }
    }
}

/// The largest number a ULEB128 prefix may carry.
pub open spec fn uleb_limit() -> int {
    0xffff_ffff
}

/// The ULEB128 image of a number: seven bits per byte, low bits first, the
/// top bit of a byte set when more bytes follow.
pub open spec fn uleb_encoding(v: nat) -> Seq<u8>
    decreases v,
{
    if v < 128 {
        seq![v as u8]
    } else {
        seq![(v % 128 + 128) as u8] + uleb_encoding(v / 128)
    }
}

/// Reads ULEB128 bytes from the front of `bytes`, of which `depth` bytes of
/// the same number were read before. Gives the number that the bytes from
/// here on carry and how many of them there are.
pub open spec fn uleb_scan(bytes: Seq<u8>, depth: nat) -> Result<(int, int), DecodeError>
    decreases 5 - depth,
{
    if depth >= 5 {
        Err(DecodeError::InvalidLength)
    } else if bytes.len() == 0 {
        Err(DecodeError::UnexpectedEof)
    } else if bytes[0] < 128 {
        Ok((bytes[0] as int, 1))
    } else {
        match uleb_scan(bytes.skip(1), depth + 1) {
            Ok((high, n)) => Ok((bytes[0] - 128 + 128 * high, n + 1)),
            Err(e) => Err(e),
        }
    }
}

/// The number at the front of `bytes` and the count of bytes it takes. At
/// most five bytes are read, and the number must fit in 32 bits.
pub open spec fn uleb_decoding(bytes: Seq<u8>) -> Result<(u64, int), DecodeError> {
    match uleb_scan(bytes, 0) {
        Ok((v, n)) => if v <= uleb_limit() {
            Ok((v as u64, n))
        } else {
            Err(DecodeError::InvalidLength)
        },
        Err(e) => Err(e),
    }
}

/// What five minus `depth` bytes can carry at most, plus one.
pub open spec fn uleb_room(depth: nat) -> int {
    if depth >= 5 {
        1
    } else if depth == 4 {
        128
    } else if depth == 3 {
        0x4000
    } else if depth == 2 {
        0x20_0000
    } else if depth == 1 {
        0x1000_0000
    } else {
        0x8_0000_0000
    }
}

/// A scan that succeeds stays within the bytes and within what the remaining
/// depth can carry.
pub proof fn lemma_uleb_scan_bounds(bytes: Seq<u8>, depth: nat)
    ensures
        match uleb_scan(bytes, depth) {
            Ok((v, n)) => 0 <= v < uleb_room(depth) && 1 <= n <= bytes.len() && n <= 5 - depth,
            Err(_) => true,
        },
    decreases 5 - depth,
{
    if depth < 5 && bytes.len() > 0 && bytes[0] >= 128 {
        lemma_uleb_scan_bounds(bytes.skip(1), depth + 1);
    }
}

/// Scanning the image of a number that fits the remaining depth gives the
/// number back and stops where the image ends.
pub proof fn lemma_uleb_scan_encoding(v: nat, rest: Seq<u8>, depth: nat)
    requires
        v < uleb_room(depth),
        depth < 5,
    ensures
        uleb_scan(uleb_encoding(v) + rest, depth) == Ok::<(int, int), DecodeError>(
            (v as int, uleb_encoding(v).len() as int),
        ),
    decreases v,
{
    let image = uleb_encoding(v) + rest;
    if v < 128 {
        assert(image[0] == v as u8);
    } else {
        assert(image[0] == (v % 128 + 128) as u8);
        assert(image.skip(1) =~= uleb_encoding(v / 128) + rest);
        lemma_uleb_scan_encoding(v / 128, rest, depth + 1);
    }
}

/// Decoding the image of a 32-bit number gives the number back.
pub proof fn lemma_uleb_round_trip(v: u64, rest: Seq<u8>)
    requires
        v <= uleb_limit(),
    ensures
        uleb_decoding(uleb_encoding(v as nat) + rest) == Ok::<(u64, int), DecodeError>(
            (v, uleb_encoding(v as nat).len() as int),
        ),
{
    lemma_uleb_scan_encoding(v as nat, rest, 0);
}

/// A cursor over a byte slice.
pub struct BinaryReader<'a>(&'a [u8], usize);

impl<'a> BinaryReader<'a> {
    #[verifier::type_invariant]
    spec fn inv(&self) -> bool {
        self.1 <= self.0@.len()
    }

    /// The bytes not read yet.
    pub closed spec fn remaining(&self) -> Seq<u8> {
        self.0@.skip(self.1 as int)
    }

    /// A reader at the front of a byte slice.
    pub fn new(data: &'a [u8]) -> (r: Self)
        ensures
            r.remaining() == data@,
    {
        Self(data, 0)
    }

    /// How many bytes are not read yet.
    pub fn left(&self) -> (n: usize)
        ensures
            n == self.remaining().len(),
    {
        proof {
            use_type_invariant(self);
        }
        self.0.len() - self.1
    }

    /// The next byte.
    pub fn byte(&mut self) -> (res: Result<u8, DecodeError>)
        ensures
            old(self).remaining().len() == 0 ==> res == Err::<u8, DecodeError>(
                DecodeError::UnexpectedEof,
            ) && final(self).remaining() == old(self).remaining(),
            old(self).remaining().len() > 0 ==> res == Ok::<u8, DecodeError>(
                old(self).remaining()[0],
            ) && final(self).remaining() == old(self).remaining().skip(1),
    {
        proof {
            use_type_invariant(&*self);
        }
        if self.1 < self.0.len() {
            let b: u8 = self.0[self.1];
            self.1 = self.1 + 1;
            assert(self.remaining() =~= old(self).remaining().skip(1));
            Ok(b)
        } else {
            Err(DecodeError::UnexpectedEof)
        }
    }

    /// The next `n` bytes.
    pub fn take(&mut self, n: usize) -> (res: Result<&'a [u8], DecodeError>)
        ensures
            old(self).remaining().len() < n ==> res is Err && res->Err_0
                == DecodeError::UnexpectedEof && final(self).remaining() == old(
                self,
            ).remaining(),
            old(self).remaining().len() >= n ==> res is Ok && res->Ok_0@ == old(
                self,
            ).remaining().take(n as int) && final(self).remaining() == old(self).remaining().skip(
                n as int,
            ),
    {
        proof {
            use_type_invariant(&*self);
        }
        if n <= self.0.len() - self.1 {
            let part = slice_subrange(self.0, self.1, self.1 + n);
            self.1 = self.1 + n;
            assert(self.remaining() =~= old(self).remaining().skip(n as int));
            assert(part@ =~= old(self).remaining().take(n as int));
            Ok(part)
        } else {
            Err(DecodeError::UnexpectedEof)
        }
    }

    /// Reads one value of a wire type.
    pub fn read<T: BinaryData>(&mut self) -> (res: Result<T, DecodeError>)
        ensures
            read_outcome::<T>(old(self).remaining(), final(self).remaining(), res),
    {
        T::read_binary(self)
    }

    /// Reads a count and that many values.
    pub fn array<T: BinaryData>(&mut self) -> (res: Result<Vec<T>, DecodeError>)
        ensures
            match array_decoding::<T>(old(self).remaining()) {
                Ok((m, n)) => res is Ok && seq_model(res->Ok_0@) == m && 0 <= n <= old(
                    self,
                ).remaining().len() && final(self).remaining() == old(self).remaining().skip(n),
                Err(e) => res is Err && res->Err_0 == e,
            },
    {
        let ghost start = self.remaining();
        let count: u64 = match self.uleb() {
            Ok(c) => c,
            Err(e) => {
                return Err(e);
            },
        };
        let ghost body = self.remaining();
        let ghost head = uleb_decoding(start)->Ok_0.1;
        let mut out: Vec<T> = Vec::new();
        let ghost mut used: int = 0;
        let mut i: u64 = 0;
        while i < count
            invariant
                i <= count,
                0 <= used <= body.len(),
                start == old(self).remaining(),
                uleb_decoding(start) == Ok::<(u64, int), DecodeError>((count, head)),
                body == start.skip(head),
                self.remaining() == body.skip(used),
                match seq_decoding::<T>(self.remaining(), (count - i) as nat) {
                    Ok((ms, k)) => seq_decoding::<T>(body, count as nat) == Ok::<
                        (Seq<T::Model>, int),
                        DecodeError,
                    >((seq_model(out@) + ms, used + k)),
                    Err(e) => seq_decoding::<T>(body, count as nat) == Err::<
                        (Seq<T::Model>, int),
                        DecodeError,
                    >(e),
                },
            decreases count - i,
        {
            let ghost before = self.remaining();
            let ghost models = seq_model(out@);
            match T::read_binary(self) {
                Ok(item) => {
                    proof {
                        let n = T::decoding(before)->Ok_0.1;
                        assert(body.skip(used).skip(n) =~= body.skip(used + n));
                        used = used + n;
                    }
                    out.push(item);
                    proof {
                        assert(seq_model(out@) =~= models.push(item.model()));
                        match seq_decoding::<T>(self.remaining(), (count - i - 1) as nat) {
                            Ok((ms, k)) => {
                                assert(models + (seq![item.model()] + ms) =~= seq_model(out@) + ms);
                            },
                            Err(e) => {},
                        }
                    }
                },
                Err(e) => {
                    assert(seq_decoding::<T>(before, (count - i) as nat) == Err::<
                        (Seq<T::Model>, int),
                        DecodeError,
                    >(e));
                    return Err(e);
                },
            }
            i = i + 1;
        }
        proof {
            assert(seq_model(out@) + Seq::<T::Model>::empty() =~= seq_model(out@));
            assert(start.skip(head).skip(used) =~= start.skip(head + used));
        }
        Ok(out)
    }

    fn uleb_from(&mut self, depth: u8) -> (res: Result<u64, DecodeError>)
        requires
            depth <= 5,
        ensures
            match uleb_scan(old(self).remaining(), depth as nat) {
                Ok((v, n)) => res == Ok::<u64, DecodeError>(v as u64) && final(self).remaining()
                    == old(self).remaining().skip(n),
                Err(e) => res == Err::<u64, DecodeError>(e),
            },
        decreases 5 - depth,
    {
        if depth >= 5 {
            return Err(DecodeError::InvalidLength);
        }
        let ghost start = self.remaining();
        let b: u8 = match self.byte() {
            Ok(b) => b,
            Err(e) => {
                return Err(e);
            },
        };
        if b < 128 {
            Ok(b as u64)
        } else {
            proof {
                lemma_uleb_scan_bounds(start.skip(1), (depth + 1) as nat);
            }
            match self.uleb_from(depth + 1) {
                Ok(high) => {
                    proof {
                        let n = uleb_scan(start.skip(1), (depth + 1) as nat)->Ok_0.1;
                        assert(start.skip(1).skip(n) =~= start.skip(n + 1));
                    }
                    Ok((b - 128) as u64 + 128 * high)
                },
                Err(e) => Err(e),
            }
        }
    }

    /// Reads a ULEB128 number of at most 32 bits.
    pub fn uleb(&mut self) -> (res: Result<u64, DecodeError>)
        ensures
            match uleb_decoding(old(self).remaining()) {
                Ok((v, n)) => res == Ok::<u64, DecodeError>(v) && v <= uleb_limit() && 0 <= n
                    <= old(self).remaining().len() && final(self).remaining() == old(
                    self,
                ).remaining().skip(n),
                Err(e) => res == Err::<u64, DecodeError>(e),
            },
    {
        proof {
            lemma_uleb_scan_bounds(self.remaining(), 0);
        }
        match self.uleb_from(0) {
            Ok(v) => if v > 0xffff_ffff {
                Err(DecodeError::InvalidLength)
            } else {
                Ok(v)
            },
            Err(e) => Err(e),
        }
    }
}

/// An appender to a byte vector.
pub struct BinaryWriter<'a>(pub &'a mut Vec<u8>);

impl<'a> BinaryWriter<'a> {
    /// A writer that appends to a byte vector.
    pub fn new(vec: &'a mut Vec<u8>) -> (w: Self)
        ensures
            *w.0 == *old(vec),
            *final(w.0) == *final(vec),
    {
        Self(vec)
    }

    /// Writes a count and the values.
    pub fn array<T: BinaryData>(&mut self, v: &[T])
        ensures
            final(self).0@ == old(self).0@ + array_encoding::<T>(seq_model(v@)),
            *final(final(self).0) == *final(old(self).0),
    {
        self.uleb(v.len() as u64);
        let ghost head = self.0@;
        let ghost models = seq_model(v@);
        assert(models.skip(0) =~= models);
        let mut i: usize = 0;
        while i < v.len()
            invariant
                i <= v.len(),
                models == seq_model(v@),
                self.0@ + seq_encoding::<T>(models.skip(i as int)) == head + seq_encoding::<T>(
                    models,
                ),
                *final(self.0) == *final(old(self).0),
            decreases v.len() - i,
        {
            let ghost before = self.0@;
            let ghost tail = models.skip(i as int);
            v[i].write_binary(self);
            proof {
                assert(tail[0] == v@[i as int].model());
                assert(tail.skip(1) =~= models.skip(i + 1));
                assert(before + (T::encoding(tail[0]) + seq_encoding::<T>(tail.skip(1))) =~= (before
                    + T::encoding(tail[0])) + seq_encoding::<T>(tail.skip(1)));
            }
            i = i + 1;
        }
        proof {
            assert(models.skip(i as int) =~= Seq::<T::Model>::empty());
            assert(self.0@ + Seq::<u8>::empty() =~= self.0@);
            assert(old(self).0@ + (uleb_encoding(v@.len()) + seq_encoding::<T>(models)) =~= head
                + seq_encoding::<T>(models));
        }
    }

    /// Writes one value of a wire type.
    #[inline]
    pub fn write<T: BinaryData>(&mut self, v: &T)
        ensures
            final(self).0@ == old(self).0@ + T::encoding(v.model()),
            *final(final(self).0) == *final(old(self).0),
    {
        v.write_binary(self)
    }

    /// Writes one value of a wire type, taking it.
    #[inline]
    pub fn write_val<T: BinaryData>(&mut self, v: T)
        ensures
            final(self).0@ == old(self).0@ + T::encoding(v.model()),
            *final(final(self).0) == *final(old(self).0),
    {
        v.write_binary(self)
    }

    /// Writes a number as ULEB128.
    pub fn uleb(&mut self, v: u64)
        ensures
            final(self).0@ == old(self).0@ + uleb_encoding(v as nat),
            *final(final(self).0) == *final(old(self).0),
    {
        let mut left: u64 = v;
        while left >= 128
            invariant
                self.0@ + uleb_encoding(left as nat) == old(self).0@ + uleb_encoding(v as nat),
                *final(self.0) == *final(old(self).0),
            decreases left,
        {
            let ghost before = self.0@;
            let low: u8 = (left % 128 + 128) as u8;
            self.0.push(low);
            proof {
                assert(before + (seq![low] + uleb_encoding((left / 128) as nat)) =~= before.push(low)
                    + uleb_encoding((left / 128) as nat));
            }
            left = left / 128;
        }
        let ghost before = self.0@;
        self.0.push(left as u8);
        proof {
            assert(before + seq![left as u8] =~= before.push(left as u8));
        }
    }
}

/// The models of a sequence of values, one by one.
pub open spec fn seq_model<T: BinaryData>(s: Seq<T>) -> Seq<T::Model> {
    Seq::new(s.len(), |i: int| s[i].model())
}

/// The images of the values of a sequence, one after the other.
pub open spec fn seq_encoding<T: BinaryData>(s: Seq<T::Model>) -> Seq<u8>
    decreases s.len(),
{
    if s.len() == 0 {
        Seq::empty()
    } else {
        T::encoding(s[0]) + seq_encoding::<T>(s.skip(1))
    }
}

/// `count` values from the front of `bytes`, and the bytes they take together.
pub open spec fn seq_decoding<T: BinaryData>(bytes: Seq<u8>, count: nat) -> Result<
    (Seq<T::Model>, int),
    DecodeError,
>
    decreases count,
{
    if count == 0 {
        Ok((Seq::empty(), 0))
    } else {
        match T::decoding(bytes) {
            Ok((m, n)) => match seq_decoding::<T>(bytes.skip(n), (count - 1) as nat) {
                Ok((ms, k)) => Ok((seq![m] + ms, n + k)),
                Err(e) => Err(e),
            },
            Err(e) => Err(e),
        }
    }
}

/// The image of a sequence: its length, then its values.
pub open spec fn array_encoding<T: BinaryData>(m: Seq<T::Model>) -> Seq<u8> {
    uleb_encoding(m.len()) + seq_encoding::<T>(m)
}

/// The sequence at the front of `bytes`: a count, then that many values.
pub open spec fn array_decoding<T: BinaryData>(bytes: Seq<u8>) -> Result<
    (Seq<T::Model>, int),
    DecodeError,
> {
    match uleb_decoding(bytes) {
        Ok((count, n)) => match seq_decoding::<T>(bytes.skip(n), count as nat) {
            Ok((ms, k)) => Ok((ms, n + k)),
            Err(e) => Err(e),
        },
        Err(e) => Err(e),
    }
}

/// Whether each value of a sequence can be decoded from its image.
pub open spec fn seq_writable<T: BinaryData>(s: Seq<T::Model>) -> bool {
    forall|i: int| 0 <= i < s.len() ==> T::writable(#[trigger] s[i])
}

/// Decoding the images of a sequence, one after the other, gives the
/// sequence back.
pub proof fn lemma_seq_round_trip<T: BinaryData>(s: Seq<T::Model>, rest: Seq<u8>)
    requires
        seq_writable::<T>(s),
    ensures
        seq_decoding::<T>(seq_encoding::<T>(s) + rest, s.len()) == Ok::<
            (Seq<T::Model>, int),
            DecodeError,
        >((s, seq_encoding::<T>(s).len() as int)),
    decreases s.len(),
{
    if s.len() > 0 {
        let first = T::encoding(s[0]);
        let others = seq_encoding::<T>(s.skip(1));
        assert(first + others + rest =~= first + (others + rest));
        assert(T::writable(s[0]));
        T::lemma_round_trip(s[0], others + rest);
        assert((first + (others + rest)).skip(first.len() as int) =~= others + rest);
        assert forall|i: int| 0 <= i < s.skip(1).len() implies T::writable(
            #[trigger] s.skip(1)[i],
        ) by {
            assert(s.skip(1)[i] == s[i + 1]);
        }
        lemma_seq_round_trip::<T>(s.skip(1), rest);
        assert(seq![s[0]] + s.skip(1) =~= s);
    } else {
        assert(s =~= Seq::<T::Model>::empty());
    }
}

impl<T: BinaryData> BinaryData for Vec<T> {
    type Model = Seq<T::Model>;

    open spec fn model(&self) -> Seq<T::Model> {
        seq_model(self@)
    }

    open spec fn writable(m: Seq<T::Model>) -> bool {
        m.len() <= uleb_limit() && seq_writable::<T>(m)
    }

    open spec fn encoding(m: Seq<T::Model>) -> Seq<u8> {
        array_encoding::<T>(m)
    }

    open spec fn decoding(bytes: Seq<u8>) -> Result<(Seq<T::Model>, int), DecodeError> {
        array_decoding::<T>(bytes)
    }

    proof fn lemma_round_trip(m: Seq<T::Model>, rest: Seq<u8>) {
        let head = uleb_encoding(m.len());
        let body = seq_encoding::<T>(m);
        assert(head + body + rest =~= head + (body + rest));
        lemma_uleb_round_trip(m.len() as u64, body + rest);
        assert((head + (body + rest)).skip(head.len() as int) =~= body + rest);
        lemma_seq_round_trip::<T>(m, rest);
    }

    fn read_binary(r: &mut BinaryReader<'_>) -> (res: Result<Self, DecodeError>) {
        r.array()
    }

    fn write_binary(&self, w: &mut BinaryWriter<'_>) {
        w.array(self.as_slice())
    }
}

/// What a read of a `T` from `before` must give: the decoded value and the
/// bytes behind it, or the decoding's error.
pub open spec fn read_outcome<T: BinaryData>(
    before: Seq<u8>,
    after: Seq<u8>,
    res: Result<T, DecodeError>,
) -> bool {
    match T::decoding(before) {
        Ok((m, n)) => res is Ok && res->Ok_0.model() == m && 0 <= n <= before.len() && after
            == before.skip(n),
        Err(e) => res is Err && res->Err_0 == e,
    }
}

/// A type with a place in the wire format.
pub trait BinaryData: Sized {
    /// The mathematical value that a `Self` stands for.
    type Model;

    spec fn model(&self) -> Self::Model;

    /// Whether a value's image can be decoded again: its lengths fit a
    /// ULEB128 prefix and its own bounds hold.
    spec fn writable(m: Self::Model) -> bool;

    /// The byte image of a value.
    spec fn encoding(m: Self::Model) -> Seq<u8>;

    /// The value at the front of `bytes` and the count of bytes it takes, or
    /// why there is none.
    spec fn decoding(bytes: Seq<u8>) -> Result<(Self::Model, int), DecodeError>;

    /// Decoding an image gives the value back, whatever follows the image.
    proof fn lemma_round_trip(m: Self::Model, rest: Seq<u8>)
        requires
            Self::writable(m),
        ensures
            Self::decoding(Self::encoding(m) + rest) == Ok::<(Self::Model, int), DecodeError>(
                (m, Self::encoding(m).len() as int),
            ),
    ;

    fn read_binary(r: &mut BinaryReader<'_>) -> (res: Result<Self, DecodeError>)
        ensures
            match Self::decoding(old(r).remaining()) {
                Ok((m, n)) => res is Ok && res->Ok_0.model() == m && 0 <= n <= old(
                    r,
                ).remaining().len() && final(r).remaining() == old(r).remaining().skip(n),
                Err(e) => res is Err && res->Err_0 == e,
            },
    ;

    fn write_binary(&self, w: &mut BinaryWriter<'_>)
        ensures
            final(w).0@ == old(w).0@ + Self::encoding(self.model()),
            *final(final(w).0) == *final(old(w).0),
    ;
}

} // verus!
