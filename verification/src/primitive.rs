//! The wire images of the primitive values: integers, booleans, strings,
//! pairs, optionals and results.

use crate::bin::{
    uleb_decoding, uleb_encoding, uleb_limit, lemma_uleb_round_trip, BinaryData, BinaryReader,
    BinaryWriter, DecodeError,
};
use byteorder::ByteOrder;
use byteorder::LittleEndian;
use vstd::bytes::*;
use vstd::prelude::*;
use vstd::string::*;
use vstd::utf8::*;

verus! {

/// What `String::from_utf8_lossy` makes of bytes that are not valid UTF-8.
pub uninterp spec fn utf8_lossy_repair(bytes: Seq<u8>) -> Seq<char>;

/// The text that bytes stand for: their UTF-8 decoding, with each invalid
/// part replaced.
pub open spec fn lossy_text(bytes: Seq<u8>) -> Seq<char> {
    if valid_utf8(bytes) {
        decode_utf8(bytes)
    } else {
        utf8_lossy_repair(bytes)
    }
}

/// `String::from_utf8_lossy`: valid UTF-8 decodes to its text; of other
/// bytes the contract only names the result.
#[verifier::external_body]
fn string_from_utf8_lossy(bytes: &[u8]) -> (s: String)
    ensures
        valid_utf8(bytes@) ==> s@ == decode_utf8(bytes@),
        !valid_utf8(bytes@) ==> s@ == utf8_lossy_repair(bytes@),
{
    String::from_utf8_lossy(bytes).into_owned()
}

/// The text that bytes stand for.
pub fn text_of(bytes: &[u8]) -> (s: String)
    ensures
        s@ == lossy_text(bytes@),
{
    string_from_utf8_lossy(bytes)
}

/// `byteorder::LittleEndian::read_u16`: the first two bytes, low byte first.
#[verifier::external_body]
fn le_read_u16(buf: &[u8]) -> (v: u16)
    requires
        buf@.len() >= 2,
    ensures
        v == spec_u16_from_le_bytes(buf@.take(2)),
{
    LittleEndian::read_u16(buf)
}

/// `byteorder::LittleEndian::read_u32`: the first four bytes, low byte first.
#[verifier::external_body]
fn le_read_u32(buf: &[u8]) -> (v: u32)
    requires
        buf@.len() >= 4,
    ensures
        v == spec_u32_from_le_bytes(buf@.take(4)),
{
    LittleEndian::read_u32(buf)
}

/// `byteorder::LittleEndian::read_u64`: the first eight bytes, low byte first.
#[verifier::external_body]
fn le_read_u64(buf: &[u8]) -> (v: u64)
    requires
        buf@.len() >= 8,
    ensures
        v == spec_u64_from_le_bytes(buf@.take(8)),
{
    LittleEndian::read_u64(buf)
}

/// `byteorder::LittleEndian::read_i32`: the unsigned reading of the first
/// four bytes, taken as two's complement.
#[verifier::external_body]
fn le_read_i32(buf: &[u8]) -> (v: i32)
    requires
        buf@.len() >= 4,
    ensures
        v == spec_u32_from_le_bytes(buf@.take(4)) as i32,
{
    LittleEndian::read_i32(buf)
}

/// `byteorder::LittleEndian::read_i64`: the unsigned reading of the first
/// eight bytes, taken as two's complement.
#[verifier::external_body]
fn le_read_i64(buf: &[u8]) -> (v: i64)
    requires
        buf@.len() >= 8,
    ensures
        v == spec_u64_from_le_bytes(buf@.take(8)) as i64,
{
    LittleEndian::read_i64(buf)
}

/// The value that a fixed number of leading bytes stands for.
pub open spec fn fixed_decoding<M>(bytes: Seq<u8>, width: int, value: M) -> Result<
    (M, int),
    DecodeError,
> {
    if bytes.len() < width {
        Err(DecodeError::UnexpectedEof)
    } else {
        Ok((value, width))
    }
}

impl BinaryData for () {
    type Model = ();

    open spec fn model(&self) -> () {
        ()
    }

    open spec fn writable(m: ()) -> bool {
        true
    }

    open spec fn encoding(m: ()) -> Seq<u8> {
        Seq::empty()
    }

    open spec fn decoding(bytes: Seq<u8>) -> Result<((), int), DecodeError> {
        Ok(((), 0))
    }

    proof fn lemma_round_trip(m: (), rest: Seq<u8>) {
    }

    fn read_binary(r: &mut BinaryReader<'_>) -> (res: Result<Self, DecodeError>) {
        assert(r.remaining().skip(0) =~= r.remaining());
        Ok(())
    }

    fn write_binary(&self, w: &mut BinaryWriter<'_>) {
        assert(w.0@ + Seq::<u8>::empty() =~= w.0@);
    }
}

impl BinaryData for u8 {
    type Model = u8;

    open spec fn model(&self) -> u8 {
        *self
    }

    open spec fn writable(m: u8) -> bool {
        true
    }

    open spec fn encoding(m: u8) -> Seq<u8> {
        seq![m]
    }

    open spec fn decoding(bytes: Seq<u8>) -> Result<(u8, int), DecodeError> {
        fixed_decoding(bytes, 1, bytes[0])
    }

    proof fn lemma_round_trip(m: u8, rest: Seq<u8>) {
        assert((seq![m] + rest)[0] == m);
    }

    fn read_binary(r: &mut BinaryReader<'_>) -> (res: Result<Self, DecodeError>) {
        r.byte()
    }

    fn write_binary(&self, w: &mut BinaryWriter<'_>) {
        let ghost before = w.0@;
        w.0.push(*self);
        assert(before.push(*self) =~= before + seq![*self]);
    }
}

impl BinaryData for i8 {
    type Model = i8;

    open spec fn model(&self) -> i8 {
        *self
    }

    open spec fn writable(m: i8) -> bool {
        true
    }

    open spec fn encoding(m: i8) -> Seq<u8> {
        seq![m as u8]
    }

    open spec fn decoding(bytes: Seq<u8>) -> Result<(i8, int), DecodeError> {
        fixed_decoding(bytes, 1, bytes[0] as i8)
    }

    proof fn lemma_round_trip(m: i8, rest: Seq<u8>) {
        assert((seq![m as u8] + rest)[0] == m as u8);
        assert((m as u8) as i8 == m) by (bit_vector);
    }

    fn read_binary(r: &mut BinaryReader<'_>) -> (res: Result<Self, DecodeError>) {
        match r.byte() {
            Ok(b) => Ok(#[verifier::truncate] (b as i8)),
            Err(e) => Err(e),
        }
    }

    fn write_binary(&self, w: &mut BinaryWriter<'_>) {
        let ghost before = w.0@;
        let b: u8 = #[verifier::truncate] (*self as u8);
        w.0.push(b);
        assert(before.push(b) =~= before + seq![b]);
    }
}

impl BinaryData for bool {
    type Model = bool;

    open spec fn model(&self) -> bool {
        *self
    }

    open spec fn writable(m: bool) -> bool {
        true
    }

    open spec fn encoding(m: bool) -> Seq<u8> {
        seq![if m { 1u8 } else { 0u8 }]
    }

    open spec fn decoding(bytes: Seq<u8>) -> Result<(bool, int), DecodeError> {
        fixed_decoding(bytes, 1, bytes[0] == 1)
    }

    proof fn lemma_round_trip(m: bool, rest: Seq<u8>) {
        assert((Self::encoding(m) + rest)[0] == if m { 1u8 } else { 0u8 });
    }

    fn read_binary(r: &mut BinaryReader<'_>) -> (res: Result<Self, DecodeError>) {
        match r.byte() {
            Ok(b) => Ok(b == 1),
            Err(e) => Err(e),
        }
    }

    fn write_binary(&self, w: &mut BinaryWriter<'_>) {
        let ghost before = w.0@;
        let b: u8 = if *self { 1 } else { 0 };
        w.0.push(b);
        assert(before.push(b) =~= before + seq![b]);
    }
}

impl BinaryData for u16 {
    type Model = u16;

    open spec fn model(&self) -> u16 {
        *self
    }

    open spec fn writable(m: u16) -> bool {
        true
    }

    open spec fn encoding(m: u16) -> Seq<u8> {
        spec_u16_to_le_bytes(m)
    }

    open spec fn decoding(bytes: Seq<u8>) -> Result<(u16, int), DecodeError> {
        fixed_decoding(bytes, 2, spec_u16_from_le_bytes(bytes.take(2)))
    }

    proof fn lemma_round_trip(m: u16, rest: Seq<u8>) {
        lemma_auto_spec_u16_to_from_le_bytes();
        assert((spec_u16_to_le_bytes(m) + rest).take(2) =~= spec_u16_to_le_bytes(m));
    }

    fn read_binary(r: &mut BinaryReader<'_>) -> (res: Result<Self, DecodeError>) {
        match r.take(2) {
            Ok(part) => {
                assert(part@.take(2) =~= part@);
                Ok(le_read_u16(part))
            },
            Err(e) => Err(e),
        }
    }

    fn write_binary(&self, w: &mut BinaryWriter<'_>) {
        let mut image = u16_to_le_bytes(*self);
        w.0.append(&mut image);
    }
}

impl BinaryData for u32 {
    type Model = u32;

    open spec fn model(&self) -> u32 {
        *self
    }

    open spec fn writable(m: u32) -> bool {
        true
    }

    open spec fn encoding(m: u32) -> Seq<u8> {
        spec_u32_to_le_bytes(m)
    }

    open spec fn decoding(bytes: Seq<u8>) -> Result<(u32, int), DecodeError> {
        fixed_decoding(bytes, 4, spec_u32_from_le_bytes(bytes.take(4)))
    }

    proof fn lemma_round_trip(m: u32, rest: Seq<u8>) {
        lemma_auto_spec_u32_to_from_le_bytes();
        assert((spec_u32_to_le_bytes(m) + rest).take(4) =~= spec_u32_to_le_bytes(m));
    }

    fn read_binary(r: &mut BinaryReader<'_>) -> (res: Result<Self, DecodeError>) {
        match r.take(4) {
            Ok(part) => {
                assert(part@.take(4) =~= part@);
                Ok(le_read_u32(part))
            },
            Err(e) => Err(e),
        }
    }

    fn write_binary(&self, w: &mut BinaryWriter<'_>) {
        let mut image = u32_to_le_bytes(*self);
        w.0.append(&mut image);
    }
}

impl BinaryData for u64 {
    type Model = u64;

    open spec fn model(&self) -> u64 {
        *self
    }

    open spec fn writable(m: u64) -> bool {
        true
    }

    open spec fn encoding(m: u64) -> Seq<u8> {
        spec_u64_to_le_bytes(m)
    }

    open spec fn decoding(bytes: Seq<u8>) -> Result<(u64, int), DecodeError> {
        fixed_decoding(bytes, 8, spec_u64_from_le_bytes(bytes.take(8)))
    }

    proof fn lemma_round_trip(m: u64, rest: Seq<u8>) {
        lemma_auto_spec_u64_to_from_le_bytes();
        assert((spec_u64_to_le_bytes(m) + rest).take(8) =~= spec_u64_to_le_bytes(m));
    }

    fn read_binary(r: &mut BinaryReader<'_>) -> (res: Result<Self, DecodeError>) {
        match r.take(8) {
            Ok(part) => {
                assert(part@.take(8) =~= part@);
                Ok(le_read_u64(part))
            },
            Err(e) => Err(e),
        }
    }

    fn write_binary(&self, w: &mut BinaryWriter<'_>) {
        let mut image = u64_to_le_bytes(*self);
        w.0.append(&mut image);
    }
}

impl BinaryData for i32 {
    type Model = i32;

    open spec fn model(&self) -> i32 {
        *self
    }

    open spec fn writable(m: i32) -> bool {
        true
    }

    open spec fn encoding(m: i32) -> Seq<u8> {
        spec_u32_to_le_bytes(m as u32)
    }

    open spec fn decoding(bytes: Seq<u8>) -> Result<(i32, int), DecodeError> {
        fixed_decoding(bytes, 4, spec_u32_from_le_bytes(bytes.take(4)) as i32)
    }

    proof fn lemma_round_trip(m: i32, rest: Seq<u8>) {
        lemma_auto_spec_u32_to_from_le_bytes();
        assert((spec_u32_to_le_bytes(m as u32) + rest).take(4) =~= spec_u32_to_le_bytes(m as u32));
        assert((m as u32) as i32 == m) by (bit_vector);
    }

    fn read_binary(r: &mut BinaryReader<'_>) -> (res: Result<Self, DecodeError>) {
        match r.take(4) {
            Ok(part) => {
                assert(part@.take(4) =~= part@);
                Ok(le_read_i32(part))
            },
            Err(e) => Err(e),
        }
    }

    fn write_binary(&self, w: &mut BinaryWriter<'_>) {
        let mut image = u32_to_le_bytes(#[verifier::truncate] (*self as u32));
        w.0.append(&mut image);
    }
}

impl BinaryData for i64 {
    type Model = i64;

    open spec fn model(&self) -> i64 {
        *self
    }

    open spec fn writable(m: i64) -> bool {
        true
    }

    open spec fn encoding(m: i64) -> Seq<u8> {
        spec_u64_to_le_bytes(m as u64)
    }

    open spec fn decoding(bytes: Seq<u8>) -> Result<(i64, int), DecodeError> {
        fixed_decoding(bytes, 8, spec_u64_from_le_bytes(bytes.take(8)) as i64)
    }

    proof fn lemma_round_trip(m: i64, rest: Seq<u8>) {
        lemma_auto_spec_u64_to_from_le_bytes();
        assert((spec_u64_to_le_bytes(m as u64) + rest).take(8) =~= spec_u64_to_le_bytes(m as u64));
        assert((m as u64) as i64 == m) by (bit_vector);
    }

    fn read_binary(r: &mut BinaryReader<'_>) -> (res: Result<Self, DecodeError>) {
        match r.take(8) {
            Ok(part) => {
                assert(part@.take(8) =~= part@);
                Ok(le_read_i64(part))
            },
            Err(e) => Err(e),
        }
    }

    fn write_binary(&self, w: &mut BinaryWriter<'_>) {
        let mut image = u64_to_le_bytes(#[verifier::truncate] (*self as u64));
        w.0.append(&mut image);
    }
}

/// The image of a text: the length of its UTF-8 bytes, then the bytes.
pub open spec fn text_encoding(text: Seq<char>) -> Seq<u8> {
    uleb_encoding(encode_utf8(text).len()) + encode_utf8(text)
}

/// The raw bytes of a length-prefixed text at the front of `bytes`, and
/// what prefix and text take together.
pub open spec fn blob_decoding(bytes: Seq<u8>) -> Result<(Seq<u8>, int), DecodeError> {
    match uleb_decoding(bytes) {
        Ok((len, n)) => if bytes.len() - n < len {
            Err(DecodeError::UnexpectedEof)
        } else {
            Ok((bytes.skip(n).take(len as int), n + len))
        },
        Err(e) => Err(e),
    }
}

/// The text at the front of `bytes`.
pub open spec fn text_decoding(bytes: Seq<u8>) -> Result<(Seq<char>, int), DecodeError> {
    match blob_decoding(bytes) {
        Ok((raw, n)) => Ok((lossy_text(raw), n)),
        Err(e) => Err(e),
    }
}

/// A text of at most 32 bits of length comes back from its image.
pub proof fn lemma_text_round_trip(text: Seq<char>, rest: Seq<u8>)
    requires
        encode_utf8(text).len() <= uleb_limit(),
    ensures
        blob_decoding(text_encoding(text) + rest) == Ok::<(Seq<u8>, int), DecodeError>(
            (encode_utf8(text), text_encoding(text).len() as int),
        ),
        text_decoding(text_encoding(text) + rest) == Ok::<(Seq<char>, int), DecodeError>(
            (text, text_encoding(text).len() as int),
        ),
{
    let raw = encode_utf8(text);
    let head = uleb_encoding(raw.len());
    let whole = text_encoding(text) + rest;
    assert(whole =~= head + (raw + rest));
    lemma_uleb_round_trip(raw.len() as u64, raw + rest);
    assert(whole.skip(head.len() as int) =~= raw + rest);
    assert((raw + rest).take(raw.len() as int) =~= raw);
    encode_utf8_valid_utf8(text);
    encode_utf8_decode_utf8(text);
}

/// Reads a length-prefixed run of bytes.
pub fn read_blob<'a>(r: &mut BinaryReader<'a>) -> (res: Result<&'a [u8], DecodeError>)
    ensures
        match blob_decoding(old(r).remaining()) {
            Ok((raw, n)) => res is Ok && res->Ok_0@ == raw && 0 <= n <= old(r).remaining().len()
                && final(r).remaining() == old(r).remaining().skip(n),
            Err(e) => res is Err && res->Err_0 == e,
        },
{
    let ghost start = r.remaining();
    let len: u64 = match r.uleb() {
        Ok(len) => len,
        Err(e) => {
            return Err(e);
        },
    };
    let ghost n = uleb_decoding(start)->Ok_0.1;
    match r.take(len as usize) {
        Ok(part) => {
            assert(start.skip(n).skip(len as int) =~= start.skip(n + len));
            Ok(part)
        },
        Err(e) => Err(e),
    }
}

/// Writes a text with its length in front.
pub fn write_text(w: &mut BinaryWriter<'_>, text: &str)
    ensures
        final(w).0@ == old(w).0@ + text_encoding(text@),
        *final(final(w).0) == *final(old(w).0),
{
    let ghost before = w.0@;
    let mut raw = text.as_bytes_vec();
    w.uleb(raw.len() as u64);
    w.0.append(&mut raw);
    assert(before + uleb_encoding(encode_utf8(text@).len()) + encode_utf8(text@) =~= before
        + text_encoding(text@));
}

impl BinaryData for String {
    type Model = Seq<char>;

    open spec fn model(&self) -> Seq<char> {
        self@
    }

    open spec fn writable(m: Seq<char>) -> bool {
        encode_utf8(m).len() <= uleb_limit()
    }

    open spec fn encoding(m: Seq<char>) -> Seq<u8> {
        text_encoding(m)
    }

    open spec fn decoding(bytes: Seq<u8>) -> Result<(Seq<char>, int), DecodeError> {
        text_decoding(bytes)
    }

    proof fn lemma_round_trip(m: Seq<char>, rest: Seq<u8>) {
        lemma_text_round_trip(m, rest);
    }

    fn read_binary(r: &mut BinaryReader<'_>) -> (res: Result<Self, DecodeError>) {
        match read_blob(r) {
            Ok(raw) => Ok(string_from_utf8_lossy(raw)),
            Err(e) => Err(e),
        }
    }

    fn write_binary(&self, w: &mut BinaryWriter<'_>) {
        write_text(w, self.as_str());
    }
}

impl<A: BinaryData, B: BinaryData> BinaryData for (A, B) {
    type Model = (A::Model, B::Model);

    open spec fn model(&self) -> (A::Model, B::Model) {
        (self.0.model(), self.1.model())
    }

    open spec fn writable(m: (A::Model, B::Model)) -> bool {
        A::writable(m.0) && B::writable(m.1)
    }

    open spec fn encoding(m: (A::Model, B::Model)) -> Seq<u8> {
        A::encoding(m.0) + B::encoding(m.1)
    }

    open spec fn decoding(bytes: Seq<u8>) -> Result<((A::Model, B::Model), int), DecodeError> {
        match A::decoding(bytes) {
            Ok((a, n)) => match B::decoding(bytes.skip(n)) {
                Ok((b, k)) => Ok(((a, b), n + k)),
                Err(e) => Err(e),
            },
            Err(e) => Err(e),
        }
    }

    proof fn lemma_round_trip(m: (A::Model, B::Model), rest: Seq<u8>) {
        let first = A::encoding(m.0);
        let second = B::encoding(m.1);
        assert(first + second + rest =~= first + (second + rest));
        A::lemma_round_trip(m.0, second + rest);
        assert((first + (second + rest)).skip(first.len() as int) =~= second + rest);
        B::lemma_round_trip(m.1, rest);
    }

    fn read_binary(r: &mut BinaryReader<'_>) -> (res: Result<Self, DecodeError>) {
        let ghost start = r.remaining();
        let a: A = match A::read_binary(r) {
            Ok(a) => a,
            Err(e) => {
                return Err(e);
            },
        };
        let ghost n = A::decoding(start)->Ok_0.1;
        match B::read_binary(r) {
            Ok(b) => {
                proof {
                    let k = B::decoding(start.skip(n))->Ok_0.1;
                    assert(start.skip(n).skip(k) =~= start.skip(n + k));
                }
                Ok((a, b))
            },
            Err(e) => Err(e),
        }
    }

    fn write_binary(&self, w: &mut BinaryWriter<'_>) {
        let ghost before = w.0@;
        self.0.write_binary(w);
        self.1.write_binary(w);
        assert(before + A::encoding(self.0.model()) + B::encoding(self.1.model()) =~= before + (
        A::encoding(self.0.model()) + B::encoding(self.1.model())));
    }
}

impl<T: BinaryData> BinaryData for Option<T> {
    type Model = Option<T::Model>;

    open spec fn model(&self) -> Option<T::Model> {
        match self {
            Some(v) => Some(v.model()),
            None => None,
        }
    }

    open spec fn writable(m: Option<T::Model>) -> bool {
        match m {
            Some(v) => T::writable(v),
            None => true,
        }
    }

    open spec fn encoding(m: Option<T::Model>) -> Seq<u8> {
        match m {
            Some(v) => seq![1u8] + T::encoding(v),
            None => seq![0u8],
        }
    }

    open spec fn decoding(bytes: Seq<u8>) -> Result<(Option<T::Model>, int), DecodeError> {
        if bytes.len() == 0 {
            Err(DecodeError::UnexpectedEof)
        } else if bytes[0] == 1 {
            match T::decoding(bytes.skip(1)) {
                Ok((v, n)) => Ok((Some(v), n + 1)),
                Err(e) => Err(e),
            }
        } else {
            Ok((None, 1))
        }
    }

    proof fn lemma_round_trip(m: Option<T::Model>, rest: Seq<u8>) {
        let image = Self::encoding(m) + rest;
        match m {
            Some(v) => {
                assert(image[0] == 1u8);
                assert(image.skip(1) =~= T::encoding(v) + rest);
                T::lemma_round_trip(v, rest);
            },
            None => {
                assert(image[0] == 0u8);
            },
        }
    }

    fn read_binary(r: &mut BinaryReader<'_>) -> (res: Result<Self, DecodeError>) {
        let ghost start = r.remaining();
        let tag: u8 = match r.byte() {
            Ok(tag) => tag,
            Err(e) => {
                return Err(e);
            },
        };
        if tag == 1 {
            match T::read_binary(r) {
                Ok(v) => {
                    proof {
                        let n = T::decoding(start.skip(1))->Ok_0.1;
                        assert(start.skip(1).skip(n) =~= start.skip(n + 1));
                    }
                    Ok(Some(v))
                },
                Err(e) => Err(e),
            }
        } else {
            Ok(None)
        }
    }

    fn write_binary(&self, w: &mut BinaryWriter<'_>) {
        let ghost before = w.0@;
        match self {
            Some(v) => {
                w.0.push(1);
                v.write_binary(w);
                assert(before.push(1u8) + T::encoding(v.model()) =~= before + (seq![1u8]
                    + T::encoding(v.model())));
            },
            None => {
                w.0.push(0);
                assert(before.push(0u8) =~= before + seq![0u8]);
            },
        }
    }
}

impl<A: BinaryData, B: BinaryData> BinaryData for Result<A, B> {
    type Model = Result<A::Model, B::Model>;

    open spec fn model(&self) -> Result<A::Model, B::Model> {
        match self {
            Ok(v) => Ok(v.model()),
            Err(e) => Err(e.model()),
        }
    }

    open spec fn writable(m: Result<A::Model, B::Model>) -> bool {
        match m {
            Ok(v) => A::writable(v),
            Err(e) => B::writable(e),
        }
    }

    open spec fn encoding(m: Result<A::Model, B::Model>) -> Seq<u8> {
        match m {
            Ok(v) => seq![1u8] + A::encoding(v),
            Err(e) => seq![0u8] + B::encoding(e),
        }
    }

    open spec fn decoding(bytes: Seq<u8>) -> Result<(Result<A::Model, B::Model>, int), DecodeError> {
        if bytes.len() == 0 {
            Err(DecodeError::UnexpectedEof)
        } else if bytes[0] == 1 {
            match A::decoding(bytes.skip(1)) {
                Ok((v, n)) => Ok((Ok(v), n + 1)),
                Err(e) => Err(e),
            }
        } else {
            match B::decoding(bytes.skip(1)) {
                Ok((v, n)) => Ok((Err(v), n + 1)),
                Err(e) => Err(e),
            }
        }
    }

    proof fn lemma_round_trip(m: Result<A::Model, B::Model>, rest: Seq<u8>) {
        let image = Self::encoding(m) + rest;
        match m {
            Ok(v) => {
                assert(image[0] == 1u8);
                assert(image.skip(1) =~= A::encoding(v) + rest);
                A::lemma_round_trip(v, rest);
            },
            Err(e) => {
                assert(image[0] == 0u8);
                assert(image.skip(1) =~= B::encoding(e) + rest);
                B::lemma_round_trip(e, rest);
            },
        }
    }

    fn read_binary(r: &mut BinaryReader<'_>) -> (res: Result<Self, DecodeError>) {
        let ghost start = r.remaining();
        let tag: u8 = match r.byte() {
            Ok(tag) => tag,
            Err(e) => {
                return Err(e);
            },
        };
        if tag == 1 {
            match A::read_binary(r) {
                Ok(v) => {
                    proof {
                        let n = A::decoding(start.skip(1))->Ok_0.1;
                        assert(start.skip(1).skip(n) =~= start.skip(n + 1));
                    }
                    Ok(Ok(v))
                },
                Err(e) => Err(e),
            }
        } else {
            match B::read_binary(r) {
                Ok(v) => {
                    proof {
                        let n = B::decoding(start.skip(1))->Ok_0.1;
                        assert(start.skip(1).skip(n) =~= start.skip(n + 1));
                    }
                    Ok(Err(v))
                },
                Err(e) => Err(e),
            }
        }
    }

    fn write_binary(&self, w: &mut BinaryWriter<'_>) {
        let ghost before = w.0@;
        match self {
            Ok(v) => {
                w.0.push(1);
                v.write_binary(w);
                assert(before.push(1u8) + A::encoding(v.model()) =~= before + (seq![1u8]
                    + A::encoding(v.model())));
            },
            Err(e) => {
                w.0.push(0);
                e.write_binary(w);
                assert(before.push(0u8) + B::encoding(e.model()) =~= before + (seq![0u8]
                    + B::encoding(e.model())));
            },
        }
    }
}

} // verus!
