use phira_mp::command::{ClientCommand, RoomId};
use phira_mp::frame::{
    encode_frame, frame_length, frame_prefix, handshake, take_frame, FrameError, FrameStep,
    Handshake, HeaderStep, MAX_FRAME, PROTOCOL_VERSION, SEND_QUEUE_DEPTH,
};
use phira_mp::packet::decode_packet;

#[test]
fn the_client_announces_its_version() {
    assert_eq!(PROTOCOL_VERSION, 1);
    assert_eq!(SEND_QUEUE_DEPTH, 1024);
    assert_eq!(handshake(Some(PROTOCOL_VERSION)), Handshake::Announce(1));
    assert_eq!(handshake(None), Handshake::Listen);
}

#[test]
fn frames_carry_their_length() {
    let mut out = Vec::new();
    assert_eq!(encode_frame(&ClientCommand::Ping, &mut out), Ok(()));
    assert_eq!(out, vec![1, 0]);
    let join = ClientCommand::JoinRoom { id: RoomId::new("r1".to_owned()).unwrap(), monitor: false };
    assert_eq!(encode_frame(&join, &mut out), Ok(()));
    assert_eq!(out, vec![1, 0, 5, 6, 2, b'r', b'1', 0]);
    assert_eq!(frame_prefix(300), Ok(vec![0xac, 0x02]));
    assert_eq!(frame_prefix(0), Ok(vec![0]));
}

#[test]
fn frames_are_received_one_for_one() {
    let mut stream = Vec::new();
    let sizes = [0usize, 1, 127, 128, 20_000, MAX_FRAME];
    for (i, size) in sizes.iter().enumerate() {
        stream.extend(frame_prefix(*size).unwrap());
        stream.extend(vec![i as u8; *size]);
    }
    let mut at = 0;
    for (i, size) in sizes.iter().enumerate() {
        match take_frame(&stream[at..]) {
            FrameStep::Frame { payload, used } => {
                assert_eq!(payload.len(), *size);
                assert!(payload.iter().all(|b| *b == i as u8));
                at += used;
            }
            other => panic!("frame {} was not taken: {:?}", i, other),
        }
    }
    assert_eq!(at, stream.len());
    assert!(matches!(take_frame(&stream[at..]), FrameStep::Incomplete));
}

#[test]
fn a_frame_over_two_mebibytes_is_refused() {
    let mut stream = frame_prefix(MAX_FRAME + 1).unwrap();
    assert_eq!(frame_length(&stream), HeaderStep::Invalid(FrameError::TooLarge));
    stream.extend(vec![0u8; MAX_FRAME + 1]);
    assert!(matches!(take_frame(&stream), FrameStep::Invalid(FrameError::TooLarge)));
    assert_eq!(FrameError::TooLarge.message(), "data packet too large");
    assert_eq!(FrameError::InvalidLength.message(), "invalid length");
}

#[test]
fn length_prefixes_are_read_byte_by_byte() {
    assert_eq!(frame_length(&[]), HeaderStep::Incomplete);
    assert_eq!(frame_length(&[0x80]), HeaderStep::Incomplete);
    assert_eq!(frame_length(&[0x80, 0x01]), HeaderStep::Length { len: 128 });
    assert_eq!(frame_length(&[5]), HeaderStep::Length { len: 5 });
    assert_eq!(frame_length(&[0x80, 0x80, 0x80, 0x01]), HeaderStep::Length { len: MAX_FRAME });
    assert_eq!(frame_length(&[0x81, 0x80, 0x80, 0x01]), HeaderStep::Invalid(FrameError::TooLarge));
    assert_eq!(
        frame_length(&[0x80, 0x80, 0x80, 0x80, 0x80]),
        HeaderStep::Invalid(FrameError::InvalidLength)
    );
    assert_eq!(
        frame_length(&[0x80, 0x80, 0x80, 0x80, 0x70]),
        HeaderStep::Invalid(FrameError::InvalidLength)
    );
}

#[test]
fn a_partial_frame_waits_for_more() {
    assert!(matches!(take_frame(&[3, 1, 2]), FrameStep::Incomplete));
    match take_frame(&[3, 1, 2, 3, 9]) {
        FrameStep::Frame { payload, used } => {
            assert_eq!(payload, &[1, 2, 3]);
            assert_eq!(used, 4);
        }
        other => panic!("unexpected {:?}", other),
    }
    match take_frame(&[1, 7, 0xff]) {
        FrameStep::Frame { payload, used } => {
            assert_eq!(used, 2);
            assert!(matches!(decode_packet::<ClientCommand>(payload), Ok(ClientCommand::LeaveRoom)));
        }
        other => panic!("unexpected {:?}", other),
    }
}
