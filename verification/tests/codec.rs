use phira_mp::bin::{BinaryData, BinaryReader, BinaryWriter, DecodeError};
use phira_mp::command::{
    ClientCommand, ClientRoomState, CompactPos, JoinRoomResponse, JudgeEvent, Judgement, Message,
    RoomId, RoomState, ServerCommand, TouchFrame, UserInfo, UserTable, Varchar,
};
use phira_mp::packet::{decode_packet, encode_packet};
use phira_mp::stamp::Timestamp;
use std::sync::Arc;

fn image<T: BinaryData>(value: &T) -> Vec<u8> {
    let mut buf = Vec::new();
    encode_packet(value, &mut buf);
    buf
}

/// Writes a value, reads it back, writes that again: the two images agree.
fn round_trip<T: BinaryData + std::fmt::Debug>(value: &T) -> Vec<u8> {
    let first = image(value);
    let back: T = decode_packet(&first).unwrap();
    assert_eq!(format!("{:?}", back), format!("{:?}", value));
    assert_eq!(image(&back), first);
    first
}

#[test]
fn uleb_writes_low_bits_first() {
    let mut buf = Vec::new();
    BinaryWriter::new(&mut buf).uleb(300);
    assert_eq!(buf, vec![0xac, 0x02]);
    let mut r = BinaryReader::new(&buf);
    assert_eq!(r.uleb(), Ok(300));
    let mut buf = Vec::new();
    BinaryWriter::new(&mut buf).uleb(0);
    BinaryWriter::new(&mut buf).uleb(127);
    BinaryWriter::new(&mut buf).uleb(128);
    assert_eq!(buf, vec![0x00, 0x7f, 0x80, 0x01]);
}

#[test]
fn uleb_rejects_more_than_32_bits() {
    let bytes = [0x80u8, 0x80, 0x80, 0x80, 0x10];
    let mut r = BinaryReader::new(&bytes);
    assert_eq!(r.uleb(), Err(DecodeError::InvalidLength));
    let bytes = [0xffu8, 0xff, 0xff, 0xff, 0x0f];
    let mut r = BinaryReader::new(&bytes);
    assert_eq!(r.uleb(), Ok(0xffff_ffff));
    let bytes = [0x80u8, 0x80, 0x80, 0x80, 0x80, 0x00];
    let mut r = BinaryReader::new(&bytes);
    assert_eq!(r.uleb(), Err(DecodeError::InvalidLength));
    let mut buf = Vec::new();
    BinaryWriter::new(&mut buf).uleb(0x1_0000_0000);
    assert_eq!(buf, vec![0x80, 0x80, 0x80, 0x80, 0x10]);
    assert_eq!(BinaryReader::new(&buf).uleb(), Err(DecodeError::InvalidLength));
    let bytes = [0x80u8, 0x80];
    assert_eq!(BinaryReader::new(&bytes).uleb(), Err(DecodeError::UnexpectedEof));
}

#[test]
fn reader_takes_bytes_in_order() {
    let bytes = [1u8, 2, 3, 4];
    let mut r = BinaryReader::new(&bytes);
    assert_eq!(r.byte(), Ok(1));
    assert_eq!(r.take(2), Ok(&bytes[1..3]));
    assert_eq!(r.left(), 1);
    assert_eq!(r.take(2), Err(DecodeError::UnexpectedEof));
    assert_eq!(r.take(usize::MAX), Err(DecodeError::UnexpectedEof));
    assert_eq!(r.byte(), Ok(4));
    assert_eq!(r.byte(), Err(DecodeError::UnexpectedEof));
}

#[test]
fn integers_are_little_endian() {
    assert_eq!(image(&0x1234u16), vec![0x34, 0x12]);
    assert_eq!(image(&0x1234_5678u32), vec![0x78, 0x56, 0x34, 0x12]);
    assert_eq!(image(&0x0102_0304_0506_0708u64), vec![8, 7, 6, 5, 4, 3, 2, 1]);
    assert_eq!(image(&-2i32), vec![0xfe, 0xff, 0xff, 0xff]);
    assert_eq!(image(&-2i64), vec![0xfe, 0xff, 0xff, 0xff, 0xff, 0xff, 0xff, 0xff]);
    assert_eq!(image(&-1i8), vec![0xff]);
    assert_eq!(image(&200u8), vec![200]);
    assert_eq!(decode_packet::<u16>(&[0x34, 0x12]), Ok(0x1234));
    assert_eq!(decode_packet::<u32>(&[0x78, 0x56, 0x34, 0x12]), Ok(0x1234_5678));
    assert_eq!(decode_packet::<u64>(&[8, 7, 6, 5, 4, 3, 2, 1]), Ok(0x0102_0304_0506_0708));
    assert_eq!(decode_packet::<i32>(&[0xfe, 0xff, 0xff, 0xff]), Ok(-2));
    assert_eq!(decode_packet::<i64>(&[0xfe, 0xff, 0xff, 0xff, 0xff, 0xff, 0xff, 0xff]), Ok(-2));
    assert_eq!(decode_packet::<i8>(&[0x80]), Ok(-128));
    assert_eq!(decode_packet::<u32>(&[1, 2, 3]), Err(DecodeError::UnexpectedEof));
    assert_eq!(decode_packet::<()>(&[]), Ok(()));
}

#[test]
fn booleans_optionals_and_results() {
    assert_eq!(image(&true), vec![1]);
    assert_eq!(image(&false), vec![0]);
    assert_eq!(decode_packet::<bool>(&[1]), Ok(true));
    assert_eq!(decode_packet::<bool>(&[0]), Ok(false));
    assert_eq!(decode_packet::<bool>(&[2]), Ok(false));
    assert_eq!(image(&Some(7u8)), vec![1, 7]);
    assert_eq!(image(&None::<u8>), vec![0]);
    assert_eq!(decode_packet::<Option<u8>>(&[1, 7]), Ok(Some(7)));
    assert_eq!(decode_packet::<Option<u8>>(&[0, 7]), Ok(None));
    assert_eq!(decode_packet::<Option<u8>>(&[1]), Err(DecodeError::UnexpectedEof));
    let ok: Result<u8, String> = Ok(3);
    let err: Result<u8, String> = Err("e".to_owned());
    assert_eq!(image(&ok), vec![1, 3]);
    assert_eq!(image(&err), vec![0, 1, b'e']);
    assert_eq!(decode_packet::<Result<u8, String>>(&[1, 3]), Ok(ok));
    assert_eq!(decode_packet::<Result<u8, String>>(&[0, 1, b'e']), Ok(err));
    assert_eq!(image(&(1u8, 2u16)), vec![1, 2, 0]);
    assert_eq!(decode_packet::<(u8, u16)>(&[1, 2, 0]), Ok((1, 2)));
}

#[test]
fn string_round_trip() {
    let mut buf = Vec::new();
    "héllo".to_owned().write_binary(&mut BinaryWriter::new(&mut buf));
    assert_eq!(buf, vec![6, b'h', 0xc3, 0xa9, b'l', b'l', b'o']);
    let mut r = BinaryReader::new(&buf);
    assert_eq!(r.read::<String>(), Ok("héllo".to_owned()));
    assert_eq!(decode_packet::<String>(&[2, b'a']), Err(DecodeError::UnexpectedEof));
}

#[test]
fn invalid_utf8_is_replaced() {
    assert_eq!(decode_packet::<String>(&[3, b'a', 0xff, b'b']), Ok("a\u{fffd}b".to_owned()));
}

#[test]
fn sequences_carry_their_count() {
    let values: Vec<u16> = vec![1, 2, 3];
    assert_eq!(image(&values), vec![3, 1, 0, 2, 0, 3, 0]);
    assert_eq!(decode_packet::<Vec<u16>>(&[3, 1, 0, 2, 0, 3, 0]), Ok(values));
    assert_eq!(decode_packet::<Vec<u16>>(&[2, 1, 0, 2]), Err(DecodeError::UnexpectedEof));
    assert_eq!(decode_packet::<Vec<u16>>(&[0]), Ok(Vec::new()));
    let mut buf = Vec::new();
    BinaryWriter::new(&mut buf).array(&[true, false]);
    assert_eq!(buf, vec![2, 1, 0]);
    assert_eq!(BinaryReader::new(&buf).array::<bool>(), Ok(vec![true, false]));
    let mut buf = Vec::new();
    let mut w = BinaryWriter::new(&mut buf);
    w.write(&5u8);
    w.write_val(6u8);
    assert_eq!(buf, vec![5, 6]);
}

#[test]
fn identifiers_travel_low_half_first() {
    let id: u128 = 0x0102_0304_0506_0708_1112_1314_1516_1718;
    assert_eq!(
        image(&id),
        vec![0x18, 0x17, 0x16, 0x15, 0x14, 0x13, 0x12, 0x11, 8, 7, 6, 5, 4, 3, 2, 1]
    );
    assert_eq!(decode_packet::<u128>(&image(&id)), Ok(id));
}

#[test]
fn timestamps_must_be_in_range() {
    let moment = Timestamp::from_millis(1_431_648_000).unwrap();
    assert_eq!(moment.timestamp_millis(), 1_431_648_000);
    assert_eq!(image(&moment), image(&1_431_648_000i64));
    let back: Timestamp = decode_packet(&image(&moment)).unwrap();
    assert_eq!(back.timestamp_millis(), 1_431_648_000);
    assert!(matches!(Timestamp::from_millis(i64::MAX), Err(DecodeError::InvalidTimestamp)));
    assert!(matches!(
        decode_packet::<Timestamp>(&image(&i64::MIN)),
        Err(DecodeError::InvalidTimestamp)
    ));
    assert!(Timestamp::from_millis(-1).is_ok());
}

#[test]
fn bounded_strings_keep_their_bound() {
    assert!(Varchar::<3>::new("abc".to_owned()).is_ok());
    assert_eq!(Varchar::<3>::new("abcd".to_owned()), Err(DecodeError::StringTooLong));
    assert_eq!(Varchar::<3>::new("héé".to_owned()), Err(DecodeError::StringTooLong));
    let text = Varchar::<3>::new("ab".to_owned()).unwrap();
    assert_eq!(text.as_str(), "ab");
    assert_eq!(image(&text), vec![2, b'a', b'b']);
    assert_eq!(text.clone().into_inner(), "ab");
    assert_eq!(decode_packet::<Varchar<3>>(&[3, b'a', b'b', b'c']), Ok(Varchar::<3>::new("abc".to_owned()).unwrap()));
    assert_eq!(decode_packet::<Varchar<3>>(&[4, b'a', b'b', b'c', b'd']), Err(DecodeError::StringTooLong));
    assert_eq!(decode_packet::<Varchar<3>>(&[4]), Err(DecodeError::StringTooLong));
    assert_eq!(decode_packet::<Varchar<3>>(&[3, b'a']), Err(DecodeError::UnexpectedEof));
    assert_eq!(decode_packet::<Varchar<3>>(&[2, 0xff, 0xff]), Err(DecodeError::StringTooLong));
}

#[test]
fn room_ids_are_checked() {
    assert!(RoomId::new("room-1_A".to_owned()).is_ok());
    assert_eq!(RoomId::new(String::new()), Err(DecodeError::InvalidRoomId));
    assert_eq!(RoomId::new("a b".to_owned()).unwrap_err(), DecodeError::InvalidRoomId);
    assert_eq!(RoomId::new("é".to_owned()).unwrap_err(), DecodeError::InvalidRoomId);
    assert_eq!(RoomId::new("x".repeat(21)).unwrap_err(), DecodeError::StringTooLong);
    assert!(RoomId::new("x".repeat(20)).is_ok());
    let id = RoomId::new("r1".to_owned()).unwrap();
    assert_eq!(id.as_str(), "r1");
    assert!(id.same(&RoomId::new("r1".to_owned()).unwrap()));
    assert!(!id.same(&RoomId::new("r2".to_owned()).unwrap()));
    assert_eq!(image(&id), vec![2, b'r', b'1']);
    assert_eq!(id.clone().into_string(), "r1");
    assert_eq!(decode_packet::<RoomId>(&[2, b'r', b'1']), Ok(id));
    assert_eq!(decode_packet::<RoomId>(&[0]), Err(DecodeError::InvalidRoomId));
    assert_eq!(decode_packet::<RoomId>(&[1, b'!']), Err(DecodeError::InvalidRoomId));
    assert_eq!(decode_packet::<RoomId>(&[21]), Err(DecodeError::StringTooLong));
    assert!(RoomId::validate(Varchar::<20>::new("ok".to_owned()).unwrap()).is_ok());
}

#[test]
fn errors_have_reasons() {
    assert_eq!(DecodeError::UnexpectedEof.message(), "unexpected EOF");
    assert_eq!(DecodeError::InvalidLength.message(), "invalid length");
    assert_eq!(DecodeError::StringTooLong.message(), "string too long");
    assert_eq!(DecodeError::InvalidRoomId.message(), "invalid room id");
    assert_eq!(DecodeError::InvalidEnum(9).message(), "invalid enum");
    assert_eq!(DecodeError::InvalidTimestamp.message(), "invalid timestamp");
}

#[test]
fn telemetry_images() {
    let pos = CompactPos::from_bits(0x3c00, 0xc000);
    assert_eq!(pos.x_bits(), 0x3c00);
    assert_eq!(pos.y_bits(), 0xc000);
    assert_eq!(image(&pos), vec![0x00, 0x3c, 0x00, 0xc0]);
    let frame = TouchFrame { time: 0x3f80_0000, points: vec![(-1, pos)] };
    assert_eq!(round_trip(&frame), vec![0, 0, 0x80, 0x3f, 1, 0xff, 0x00, 0x3c, 0x00, 0xc0]);
    let event = JudgeEvent { time: 1, line_id: 2, note_id: 3, judgement: Judgement::HoldGood };
    assert_eq!(round_trip(&event), vec![1, 0, 0, 0, 2, 0, 0, 0, 3, 0, 0, 0, 5]);
    assert_eq!(image(&Judgement::Perfect), vec![0]);
    assert_eq!(decode_packet::<Judgement>(&[3]), Ok(Judgement::Miss));
    assert_eq!(decode_packet::<Judgement>(&[6]), Err(DecodeError::InvalidEnum(6)));
}

#[test]
fn room_state_images() {
    assert_eq!(RoomState::default(), RoomState::SelectChart(None));
    assert_eq!(round_trip(&RoomState::SelectChart(None)), vec![0, 0]);
    assert_eq!(round_trip(&RoomState::SelectChart(Some(42))), vec![0, 1, 42, 0, 0, 0]);
    assert_eq!(round_trip(&RoomState::WaitingForReady), vec![1]);
    assert_eq!(round_trip(&RoomState::Playing), vec![2]);
    assert_eq!(decode_packet::<RoomState>(&[3]), Err(DecodeError::InvalidEnum(3)));
    assert_eq!(decode_packet::<RoomState>(&[]), Err(DecodeError::UnexpectedEof));
}

fn info(id: i32, name: &str, monitor: bool) -> UserInfo {
    UserInfo { id, name: name.to_owned(), monitor }
}

fn picture() -> ClientRoomState {
    let mut users = UserTable::new();
    users.insert(1, info(1, "A", false));
    users.insert(9, info(9, "M", true));
    ClientRoomState {
        id: RoomId::new("r1".to_owned()).unwrap(),
        state: RoomState::Playing,
        live: true,
        locked: false,
        cycle: true,
        is_host: false,
        is_ready: true,
        users,
    }
}

#[test]
fn user_tables_are_maps() {
    let mut table = UserTable::new();
    table.insert(1, info(1, "A", false));
    table.insert(2, info(2, "B", false));
    table.insert(1, info(1, "A2", true));
    assert_eq!(table.len(), 2);
    assert_eq!(table.key_at(0), 1);
    assert_eq!(table.value_at(0).name, "A2");
    assert_eq!(table.get(2).unwrap().name, "B");
    assert!(table.get(3).is_none());
    table.remove(1);
    table.remove(7);
    assert_eq!(table.len(), 1);
    assert_eq!(table.as_slice()[0].0, 2);
    let copy = table.clone();
    assert_eq!(copy.len(), 1);
    assert_eq!(round_trip(&table), vec![1, 2, 0, 0, 0, 2, 0, 0, 0, 1, b'B', 0]);
    let twice: UserTable =
        decode_packet(&[2, 5, 0, 0, 0, 5, 0, 0, 0, 1, b'x', 0, 5, 0, 0, 0, 5, 0, 0, 0, 1, b'y', 1])
            .unwrap();
    assert_eq!(twice.len(), 1);
    assert_eq!(twice.get(5).unwrap().name, "y");
}

#[test]
fn room_pictures_and_join_answers() {
    assert_eq!(round_trip(&info(2, "B", true)), vec![2, 0, 0, 0, 1, b'B', 1]);
    assert_eq!(
        round_trip(&picture()),
        vec![
            2, b'r', b'1', 2, 1, 0, 1, 0, 1, 2, 1, 0, 0, 0, 1, 0, 0, 0, 1, b'A', 0, 9, 0, 0, 0, 9, 0,
            0, 0, 1, b'M', 1
        ]
    );
    let resp = JoinRoomResponse {
        state: RoomState::SelectChart(None),
        users: vec![info(1, "A", false)],
        live: false,
    };
    assert_eq!(round_trip(&resp), vec![0, 0, 1, 1, 0, 0, 0, 1, b'A', 0, 0]);
}

#[test]
fn message_images() {
    let all = vec![
        Message::Chat { user: 1, content: "hi".to_owned() },
        Message::CreateRoom { user: 1 },
        Message::JoinRoom { user: 2, name: "B".to_owned() },
        Message::LeaveRoom { user: 2, name: "B".to_owned() },
        Message::NewHost { user: 3 },
        Message::SelectChart { user: 1, name: "song".to_owned(), id: 42 },
        Message::GameStart { user: 1 },
        Message::Ready { user: 2 },
        Message::CancelReady { user: 2 },
        Message::CancelGame { user: 1 },
        Message::StartPlaying,
        Message::Played { user: 1, score: 7, accuracy: 0x3f80_0000, full_combo: true },
        Message::GameEnd,
        Message::Abort { user: 2 },
        Message::LockRoom { lock: true },
        Message::CycleRoom { cycle: false },
    ];
    for (tag, message) in all.iter().enumerate() {
        let bytes = round_trip(message);
        assert_eq!(bytes[0] as usize, tag);
    }
    assert_eq!(image(&all[0]), vec![0, 1, 0, 0, 0, 2, b'h', b'i']);
    assert_eq!(image(&all[5]), vec![5, 1, 0, 0, 0, 4, b's', b'o', b'n', b'g', 42, 0, 0, 0]);
    assert_eq!(image(&all[10]), vec![10]);
    assert_eq!(image(&all[11]), vec![11, 1, 0, 0, 0, 7, 0, 0, 0, 0, 0, 0x80, 0x3f, 1]);
    assert_eq!(image(&all[14]), vec![14, 1]);
    assert!(matches!(decode_packet::<Message>(&[16]), Err(DecodeError::InvalidEnum(16))));
    assert!(matches!(decode_packet::<Message>(&[1, 0]), Err(DecodeError::UnexpectedEof)));
}

#[test]
fn client_command_images() {
    let frames = Arc::new(vec![TouchFrame { time: 1, points: Vec::new() }]);
    let judges = Arc::new(vec![JudgeEvent {
        time: 1,
        line_id: 2,
        note_id: 3,
        judgement: Judgement::Bad,
    }]);
    let all = vec![
        ClientCommand::Ping,
        ClientCommand::Authenticate { token: Varchar::<32>::new("t".to_owned()).unwrap() },
        ClientCommand::Chat { message: Varchar::<200>::new("hi".to_owned()).unwrap() },
        ClientCommand::Touches { frames },
        ClientCommand::Judges { judges },
        ClientCommand::CreateRoom { id: RoomId::new("r1".to_owned()).unwrap() },
        ClientCommand::JoinRoom { id: RoomId::new("r1".to_owned()).unwrap(), monitor: true },
        ClientCommand::LeaveRoom,
        ClientCommand::LockRoom { lock: true },
        ClientCommand::CycleRoom { cycle: true },
        ClientCommand::SelectChart { id: 42 },
        ClientCommand::RequestStart,
        ClientCommand::Ready,
        ClientCommand::CancelReady,
        ClientCommand::Played { id: 7 },
        ClientCommand::Abort,
    ];
    for (tag, command) in all.iter().enumerate() {
        let bytes = round_trip(command);
        assert_eq!(bytes[0] as usize, tag);
    }
    assert_eq!(image(&all[0]), vec![0]);
    assert_eq!(image(&all[1]), vec![1, 1, b't']);
    assert_eq!(image(&all[3]), vec![3, 1, 1, 0, 0, 0, 0]);
    assert_eq!(image(&all[6]), vec![6, 2, b'r', b'1', 1]);
    assert_eq!(image(&all[10]), vec![10, 42, 0, 0, 0]);
    assert!(matches!(decode_packet::<ClientCommand>(&[16]), Err(DecodeError::InvalidEnum(16))));
    assert!(matches!(
        decode_packet::<ClientCommand>(&[5, 1, b' ']),
        Err(DecodeError::InvalidRoomId)
    ));
    let long = [vec![1u8, 33], vec![b'a'; 33]].concat();
    assert!(matches!(decode_packet::<ClientCommand>(&long), Err(DecodeError::StringTooLong)));
}

#[test]
fn server_command_images() {
    let refused: Result<(), String> = Err("no".to_owned());
    let frames = Arc::new(vec![TouchFrame { time: 1, points: Vec::new() }]);
    let all = vec![
        ServerCommand::Pong,
        ServerCommand::Authenticate(Ok((info(1, "A", false), Some(picture())))),
        ServerCommand::Chat(Ok(())),
        ServerCommand::Touches { player: 1, frames },
        ServerCommand::Judges { player: 1, judges: Arc::new(Vec::new()) },
        ServerCommand::Message(Message::GameEnd),
        ServerCommand::ChangeState(RoomState::Playing),
        ServerCommand::ChangeHost(true),
        ServerCommand::CreateRoom(refused.clone()),
        ServerCommand::JoinRoom(Ok(JoinRoomResponse {
            state: RoomState::WaitingForReady,
            users: Vec::new(),
            live: true,
        })),
        ServerCommand::OnJoinRoom(info(2, "B", false)),
        ServerCommand::LeaveRoom(Ok(())),
        ServerCommand::LockRoom(Ok(())),
        ServerCommand::CycleRoom(Ok(())),
        ServerCommand::SelectChart(refused.clone()),
        ServerCommand::RequestStart(Ok(())),
        ServerCommand::Ready(Ok(())),
        ServerCommand::CancelReady(Ok(())),
        ServerCommand::Played(Ok(())),
        ServerCommand::Abort(refused),
    ];
    for (tag, command) in all.iter().enumerate() {
        let bytes = round_trip(command);
        assert_eq!(bytes[0] as usize, tag);
    }
    assert_eq!(image(&all[0]), vec![0]);
    assert_eq!(image(&all[2]), vec![2, 1]);
    assert_eq!(image(&all[5]), vec![5, 12]);
    assert_eq!(image(&all[6]), vec![6, 2]);
    assert_eq!(image(&all[7]), vec![7, 1]);
    assert_eq!(image(&all[8]), vec![8, 0, 2, b'n', b'o']);
    assert_eq!(image(&all[9]), vec![9, 1, 1, 0, 1]);
    assert_eq!(
        image(&ServerCommand::Authenticate(Err("x".to_owned()))),
        vec![1, 0, 1, b'x']
    );
    assert!(matches!(decode_packet::<ServerCommand>(&[20]), Err(DecodeError::InvalidEnum(20))));
    assert!(matches!(decode_packet::<ServerCommand>(&[]), Err(DecodeError::UnexpectedEof)));
}

#[test]
fn what_follows_a_packet_is_ignored() {
    assert_eq!(decode_packet::<u8>(&[1, 2, 3]), Ok(1));
    let mut buf = vec![9u8];
    encode_packet(&1u16, &mut buf);
    assert_eq!(buf, vec![9, 1, 0]);
}
