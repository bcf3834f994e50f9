//! The wire images of timestamps and of 128-bit identifiers.

use crate::bin::{BinaryData, BinaryReader, BinaryWriter, DecodeError};
use crate::wire::shaped;
use chrono::TimeZone;
use chrono::Utc;
use vstd::prelude::*;

verus! {

/// Whether a number of milliseconds since the epoch is a moment that the
/// calendar can name.
pub uninterp spec fn timestamp_in_range(millis: i64) -> bool;

/// `chrono::TimeZone::timestamp_millis_opt` on `Utc`, asked whether it
/// gives a single moment: the contract names the answer.
#[verifier::external_body]
fn millis_in_range(millis: i64) -> (ok: bool)
    ensures
        ok == timestamp_in_range(millis),
{
    Utc.timestamp_millis_opt(millis).single().is_some()
}

/// A moment, in milliseconds since the epoch.
#[derive(Clone, Copy, Debug)]
pub struct Timestamp {
    millis: i64,
}

impl View for Timestamp {
    type V = i64;

    closed spec fn view(&self) -> i64 {
        self.millis
    }
}

impl Timestamp {
    #[verifier::type_invariant]
    spec fn inv(&self) -> bool {
        timestamp_in_range(self.millis)
    }

    /// The moment of a number of milliseconds, if there is one.
    pub fn from_millis(millis: i64) -> (res: Result<Self, DecodeError>)
        ensures
            timestamp_in_range(millis) ==> res is Ok && res->Ok_0@ == millis,
            !timestamp_in_range(millis) ==> res is Err && res->Err_0
                == DecodeError::InvalidTimestamp,
    {
        if millis_in_range(millis) {
            Ok(Timestamp { millis })
        } else {
            Err(DecodeError::InvalidTimestamp)
        }
    }

    /// The milliseconds since the epoch.
    pub fn timestamp_millis(&self) -> (millis: i64)
        ensures
            millis == self@,
            timestamp_in_range(millis),
    {
        proof {
            use_type_invariant(self);
        }
        self.millis
    }
}

impl BinaryData for Timestamp {
    type Model = i64;

    open spec fn model(&self) -> i64 {
        self@
    }

    open spec fn writable(m: i64) -> bool {
        timestamp_in_range(m)
    }

    open spec fn encoding(m: i64) -> Seq<u8> {
        i64::encoding(m)
    }

    open spec fn decoding(bytes: Seq<u8>) -> Result<(i64, int), DecodeError> {
        match i64::decoding(bytes) {
            Ok((m, n)) => if timestamp_in_range(m) {
                Ok((m, n))
            } else {
                Err(DecodeError::InvalidTimestamp)
            },
            Err(e) => Err(e),
        }
    }

    proof fn lemma_round_trip(m: i64, rest: Seq<u8>) {
        i64::lemma_round_trip(m, rest);
    }

    fn read_binary(r: &mut BinaryReader<'_>) -> (res: Result<Self, DecodeError>) {
        match i64::read_binary(r) {
            Ok(millis) => Timestamp::from_millis(millis),
            Err(e) => Err(e),
        }
    }

    fn write_binary(&self, w: &mut BinaryWriter<'_>) {
        self.timestamp_millis().write_binary(w);
    }
}

/// The identifier whose high and low halves are given.
pub open spec fn joined(low: u64, high: u64) -> u128 {
    ((high as u128) << 64) | (low as u128)
}

/// A 128-bit identifier travels as its low half, then its high half.
impl BinaryData for u128 {
    type Model = u128;

    open spec fn model(&self) -> u128 {
        *self
    }

    open spec fn writable(m: u128) -> bool {
        true
    }

    open spec fn encoding(m: u128) -> Seq<u8> {
        <(u64, u64)>::encoding((m as u64, (m >> 64) as u64))
    }

    open spec fn decoding(bytes: Seq<u8>) -> Result<(u128, int), DecodeError> {
        shaped::<(u64, u64), u128>(bytes, |p: (u64, u64)| joined(p.0, p.1))
    }

    proof fn lemma_round_trip(m: u128, rest: Seq<u8>) {
        <(u64, u64)>::lemma_round_trip((m as u64, (m >> 64) as u64), rest);
        assert((((m >> 64) as u64) as u128) << 64 | ((m as u64) as u128) == m) by (bit_vector);
    }

    fn read_binary(r: &mut BinaryReader<'_>) -> (res: Result<Self, DecodeError>) {
        match <(u64, u64)>::read_binary(r) {
            Ok(p) => Ok(((p.1 as u128) << 64) | (p.0 as u128)),
            Err(e) => Err(e),
        }
    }

    fn write_binary(&self, w: &mut BinaryWriter<'_>) {
        let low: u64 = #[verifier::truncate] (*self as u64);
        let high: u64 = #[verifier::truncate] ((*self >> 64) as u64);
        (low, high).write_binary(w);
    }
}

} // verus!
