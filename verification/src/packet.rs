//! Whole packets: one value of a wire type per byte vector.

use crate::bin::{BinaryData, BinaryReader, BinaryWriter, DecodeError};
use vstd::prelude::*;

verus! {

/// Appends the image of a value to a byte vector.
pub fn encode_packet<T: BinaryData>(payload: &T, vec: &mut Vec<u8>)
    ensures
        final(vec)@ == old(vec)@ + T::encoding(payload.model()),
{
    let mut w = BinaryWriter::new(vec);
    w.write(payload);
}

/// The value at the front of a packet. What follows the value is ignored.
pub fn decode_packet<T: BinaryData>(data: &[u8]) -> (res: Result<T, DecodeError>)
    ensures
        match T::decoding(data@) {
            Ok((m, n)) => res is Ok && res->Ok_0.model() == m,
            Err(e) => res is Err && res->Err_0 == e,
        },
{
    let mut r = BinaryReader::new(data);
    r.read()
}

/// Decoding the packet of a value gives the value back.
pub proof fn lemma_packet_round_trip<T: BinaryData>(m: T::Model)
    requires
        T::writable(m),
    ensures
        T::decoding(T::encoding(m)) == Ok::<(T::Model, int), DecodeError>(
            (m, T::encoding(m).len() as int),
        ),
{
    T::lemma_round_trip(m, Seq::empty());
    assert(T::encoding(m) + Seq::<u8>::empty() =~= T::encoding(m));
}

} // verus!
