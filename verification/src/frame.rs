//! Frames: a ULEB128 length of at most 32 bits, then that many bytes of
//! payload, of which there may be at most two mebibytes.

use crate::bin::{
    lemma_uleb_round_trip, lemma_uleb_scan_bounds, uleb_decoding, uleb_encoding, uleb_limit,
    BinaryData, BinaryReader, BinaryWriter, DecodeError,
};
use vstd::prelude::*;

verus! {

/// The protocol version that a client announces.
pub const PROTOCOL_VERSION: u8 = 1;

/// The most bytes a frame's payload may have.
pub const MAX_FRAME: usize = 0x20_0000;

/// How many frames may wait to be sent on one connection.
pub const SEND_QUEUE_DEPTH: usize = 1024;

/// Why a stream of frames is broken.
#[derive(Clone, Copy, Debug, PartialEq, Eq, Structural)]
pub enum FrameError {
    /// The length prefix needs more than 32 bits.
    InvalidLength,
    /// The payload is longer than a frame may be.
    TooLarge,
}

impl FrameError {
    /// The reason in words.
    pub open spec fn reason(&self) -> Seq<char> {
        match self {
            FrameError::InvalidLength => "invalid length"@,
            FrameError::TooLarge => "data packet too large"@,
        }
    }

    /// The reason in words.
    pub fn message(&self) -> (s: String)
        ensures
            s@ == self.reason(),
    {
        match self {
            FrameError::InvalidLength => "invalid length".to_owned(),
            FrameError::TooLarge => "data packet too large".to_owned(),
        }
    }
}

/// Which side of the one-byte handshake a party takes.
#[derive(Clone, Copy, Debug, PartialEq, Eq, Structural)]
pub enum Handshake {
    /// Write the version byte: the party drives the connection.
    Announce(u8),
    /// Read the peer's version byte and remember it.
    Listen,
}

/// The side of the handshake of a party that was or was not given a
/// version to announce.
pub fn handshake(version: Option<u8>) -> (side: Handshake)
    ensures
        side == match version {
            Some(v) => Handshake::Announce(v),
            None => Handshake::Listen,
        },
{
    match version {
        Some(v) => Handshake::Announce(v),
        None => Handshake::Listen,
    }
}

/// The bytes of a frame: the length of the payload, then the payload.
pub open spec fn frame_image(payload: Seq<u8>) -> Seq<u8> {
    uleb_encoding(payload.len()) + payload
}

/// What the front of a byte stream says of its first frame's length.
pub enum HeaderModel {
    /// The length prefix has not ended yet.
    Incomplete,
    /// The payload has this many bytes and starts behind `used` bytes.
    Length { len: int, used: int },
    /// The stream is broken.
    Invalid(FrameError),
}

/// The length of the first frame of a byte stream.
pub open spec fn frame_header(bytes: Seq<u8>) -> HeaderModel {
    match uleb_decoding(bytes) {
        Ok((len, n)) => if len > MAX_FRAME {
            HeaderModel::Invalid(FrameError::TooLarge)
        } else {
            HeaderModel::Length { len: len as int, used: n }
        },
        Err(DecodeError::UnexpectedEof) => HeaderModel::Incomplete,
        Err(_) => HeaderModel::Invalid(FrameError::InvalidLength),
    }
}

/// What the front of a byte stream holds.
pub enum FrameModel {
    /// Less than a frame.
    Incomplete,
    /// A frame with this payload, `used` bytes long in all.
    Frame { payload: Seq<u8>, used: int },
    /// The stream is broken.
    Invalid(FrameError),
}

/// The first frame of a byte stream.
pub open spec fn first_frame(bytes: Seq<u8>) -> FrameModel {
    match frame_header(bytes) {
        HeaderModel::Incomplete => FrameModel::Incomplete,
        HeaderModel::Invalid(e) => FrameModel::Invalid(e),
        HeaderModel::Length { len, used } => if bytes.len() - used < len {
            FrameModel::Incomplete
        } else {
            FrameModel::Frame { payload: bytes.skip(used).take(len), used: used + len }
        },
    }
}

/// What a reader of length prefixes does next.
#[derive(Clone, Copy, Debug, PartialEq, Eq, Structural)]
pub enum HeaderStep {
    /// Read one more byte of the prefix.
    Incomplete,
    /// Read this many bytes of payload.
    Length { len: usize },
    /// Close the connection.
    Invalid(FrameError),
}

/// What to do after the bytes of a length prefix read so far.
pub fn frame_length(header: &[u8]) -> (step: HeaderStep)
    ensures
        match frame_header(header@) {
            HeaderModel::Incomplete => step == HeaderStep::Incomplete,
            HeaderModel::Length { len, used } => step == (HeaderStep::Length { len: len as usize })
                && len <= MAX_FRAME,
            HeaderModel::Invalid(e) => step == HeaderStep::Invalid(e),
        },
{
    let mut r = BinaryReader::new(header);
    match r.uleb() {
        Ok(len) => if len > MAX_FRAME as u64 {
            HeaderStep::Invalid(FrameError::TooLarge)
        } else {
            HeaderStep::Length { len: len as usize }
        },
        Err(DecodeError::UnexpectedEof) => HeaderStep::Incomplete,
        Err(_) => HeaderStep::Invalid(FrameError::InvalidLength),
    }
}

/// What the front of a buffer holds.
#[derive(Debug)]
pub enum FrameStep<'a> {
    /// Less than a frame: read more.
    Incomplete,
    /// A frame with this payload; the next frame starts behind `used`
    /// bytes.
    Frame { payload: &'a [u8], used: usize },
    /// Close the connection.
    Invalid(FrameError),
}

impl<'a> View for FrameStep<'a> {
    type V = FrameModel;

    open spec fn view(&self) -> FrameModel {
        match self {
            FrameStep::Incomplete => FrameModel::Incomplete,
            FrameStep::Frame { payload, used } => FrameModel::Frame {
                payload: payload@,
                used: *used as int,
            },
            FrameStep::Invalid(e) => FrameModel::Invalid(*e),
        }
    }
}

/// Takes the first frame off the front of a buffer.
pub fn take_frame<'a>(buf: &'a [u8]) -> (step: FrameStep<'a>)
    ensures
        step@ == first_frame(buf@),
        step matches FrameStep::Frame { payload, used } ==> 1 <= used <= buf@.len(),
{
    let mut r = BinaryReader::new(buf);
    proof {
        lemma_uleb_scan_bounds(buf@, 0);
    }
    let len: u64 = match r.uleb() {
        Ok(len) => len,
        Err(DecodeError::UnexpectedEof) => {
            return FrameStep::Incomplete;
        },
        Err(_) => {
            return FrameStep::Invalid(FrameError::InvalidLength);
        },
    };
    if len > MAX_FRAME as u64 {
        return FrameStep::Invalid(FrameError::TooLarge);
    }
    let ghost n = uleb_decoding(buf@)->Ok_0.1;
    match r.take(len as usize) {
        Ok(payload) => {
            let used: usize = buf.len() - r.left();
            FrameStep::Frame { payload, used }
        },
        Err(_) => FrameStep::Incomplete,
    }
}

/// The length prefix of a payload of a given length.
pub fn frame_prefix(len: usize) -> (res: Result<Vec<u8>, FrameError>)
    ensures
        len <= uleb_limit() ==> res is Ok && res->Ok_0@ == uleb_encoding(len as nat),
        len > uleb_limit() ==> res == Err::<Vec<u8>, FrameError>(FrameError::TooLarge),
{
    if len > 0xffff_ffff {
        return Err(FrameError::TooLarge);
    }
    let mut prefix: Vec<u8> = Vec::new();
    let mut w = BinaryWriter::new(&mut prefix);
    w.uleb(len as u64);
    assert(Seq::<u8>::empty() + uleb_encoding(len as nat) =~= uleb_encoding(len as nat));
    Ok(prefix)
}

/// Appends the frame of a value to a byte vector: the length of the
/// value's image, then the image. A value whose image has more bytes than
/// 32 bits count is refused, and nothing is appended.
pub fn encode_frame<T: BinaryData>(payload: &T, out: &mut Vec<u8>) -> (res: Result<(), FrameError>)
    ensures
        T::encoding(payload.model()).len() <= uleb_limit() ==> res is Ok && final(out)@ == old(
            out,
        )@ + frame_image(T::encoding(payload.model())),
        T::encoding(payload.model()).len() > uleb_limit() ==> res is Err && res->Err_0
            == FrameError::TooLarge && final(out)@ == old(out)@,
{
    let ghost before = out@;
    let mut image: Vec<u8> = Vec::new();
    crate::packet::encode_packet(payload, &mut image);
    assert(image@ =~= T::encoding(payload.model()));
    match frame_prefix(image.len()) {
        Ok(mut prefix) => {
            out.append(&mut prefix);
            out.append(&mut image);
            assert(out@ =~= before + frame_image(T::encoding(payload.model())));
            Ok(())
        },
        Err(e) => Err(e),
    }
}

/// The frame of a payload of at most two mebibytes is taken off the front
/// of whatever stream it leads, whole and alone.
pub proof fn lemma_frame_received(payload: Seq<u8>, rest: Seq<u8>)
    requires
        payload.len() <= MAX_FRAME,
    ensures
        first_frame(frame_image(payload) + rest) == (FrameModel::Frame {
            payload,
            used: frame_image(payload).len() as int,
        }),
{
    let head = uleb_encoding(payload.len());
    let stream = frame_image(payload) + rest;
    assert(stream =~= head + (payload + rest));
    lemma_uleb_round_trip(payload.len() as u64, payload + rest);
    assert(stream.skip(head.len() as int) =~= payload + rest);
    assert((payload + rest).take(payload.len() as int) =~= payload);
}

/// A frame whose payload is longer than two mebibytes is refused, whatever
/// follows.
pub proof fn lemma_frame_refused(payload: Seq<u8>, rest: Seq<u8>)
    requires
        MAX_FRAME < payload.len() <= uleb_limit(),
    ensures
        first_frame(frame_image(payload) + rest) == FrameModel::Invalid(FrameError::TooLarge),
{
    let head = uleb_encoding(payload.len());
    let stream = frame_image(payload) + rest;
    assert(stream =~= head + (payload + rest));
    lemma_uleb_round_trip(payload.len() as u64, payload + rest);
}

/// The bytes of a sequence of frames, one after the other.
pub open spec fn frames_image(payloads: Seq<Seq<u8>>) -> Seq<u8>
    decreases payloads.len(),
{
    if payloads.len() == 0 {
        Seq::empty()
    } else {
        frame_image(payloads[0]) + frames_image(payloads.skip(1))
    }
}

/// The payloads of the first `count` frames of a stream and the bytes they
/// take, if the stream starts with that many frames.
pub open spec fn frames_taken(bytes: Seq<u8>, count: nat) -> Option<(Seq<Seq<u8>>, int)>
    decreases count,
{
    if count == 0 {
        Some((Seq::empty(), 0))
    } else {
        match first_frame(bytes) {
            FrameModel::Frame { payload, used } => match frames_taken(
                bytes.skip(used),
                (count - 1) as nat,
            ) {
                Some((more, n)) => Some((seq![payload] + more, used + n)),
                None => None,
            },
            _ => None,
        }
    }
}

/// Frames that are written one after the other are received one for one.
pub proof fn lemma_frames_one_for_one(payloads: Seq<Seq<u8>>, rest: Seq<u8>)
    requires
        forall|i: int| 0 <= i < payloads.len() ==> (#[trigger] payloads[i]).len() <= MAX_FRAME,
    ensures
        frames_taken(frames_image(payloads) + rest, payloads.len()) == Some(
            (payloads, frames_image(payloads).len() as int),
        ),
    decreases payloads.len(),
{
    if payloads.len() > 0 {
        let first = frame_image(payloads[0]);
        let others = frames_image(payloads.skip(1));
        assert(first + others + rest =~= first + (others + rest));
        lemma_frame_received(payloads[0], others + rest);
        assert((first + (others + rest)).skip(first.len() as int) =~= others + rest);
        assert forall|i: int| 0 <= i < payloads.skip(1).len() implies (
        #[trigger] payloads.skip(1)[i]).len() <= MAX_FRAME by {
            assert(payloads.skip(1)[i] == payloads[i + 1]);
        }
        lemma_frames_one_for_one(payloads.skip(1), rest);
        assert(seq![payloads[0]] + payloads.skip(1) =~= payloads);
    } else {
        assert(payloads =~= Seq::<Seq<u8>>::empty());
    }
}

} // verus!
