use phira_mp::client::{Beat, CallKind, Client, ClientStep, LivePlayer, Reply, Slots};
use phira_mp::command::{
    JoinRoomResponse, JudgeEvent, Judgement, Message, RoomId, RoomState, ServerCommand, TouchFrame,
    UserInfo,
};
use phira_mp::{HEARTBEAT_DISCONNECT_TIMEOUT, HEARTBEAT_INTERVAL, HEARTBEAT_TIMEOUT, TIMEOUT};
use std::sync::Arc;

fn info(id: i32, name: &str, monitor: bool) -> UserInfo {
    UserInfo { id, name: name.to_owned(), monitor }
}

fn in_a_room() -> Client {
    let mut client = Client::new();
    client.authenticate(info(1, "A", false), None);
    assert!(client.create_room(RoomId::new("r1".to_owned()).unwrap()));
    client
}

#[test]
fn the_timers() {
    assert_eq!(TIMEOUT, 7_000);
    assert_eq!(HEARTBEAT_INTERVAL, 3_000);
    assert_eq!(HEARTBEAT_TIMEOUT, 2_000);
    assert_eq!(HEARTBEAT_DISCONNECT_TIMEOUT, 10_000);
}

#[test]
fn answers_go_to_the_call_that_waits() {
    let mut client = Client::new();
    assert!(matches!(client.process(ServerCommand::Chat(Ok(()))), ClientStep::Nothing));
    client.begin(CallKind::Chat);
    assert!(matches!(client.process(ServerCommand::Ready(Ok(()))), ClientStep::Nothing));
    match client.process(ServerCommand::Chat(Err("no room".to_owned()))) {
        ClientStep::Resolve(Reply::Plain(CallKind::Chat, Err(reason))) => assert_eq!(reason, "no room"),
        other => panic!("unexpected {:?}", other),
    }
    assert!(matches!(client.process(ServerCommand::Chat(Ok(()))), ClientStep::Nothing));
    client.begin(CallKind::Abort);
    client.abandon(CallKind::Abort);
    assert!(matches!(client.process(ServerCommand::Abort(Ok(()))), ClientStep::Nothing));
    assert!(matches!(client.process(ServerCommand::Pong), ClientStep::Pong));
    client.begin(CallKind::Authenticate);
    assert!(matches!(
        client.process(ServerCommand::Authenticate(Err("x".to_owned()))),
        ClientStep::Resolve(Reply::Authenticate(Err(_)))
    ));
    client.begin(CallKind::JoinRoom);
    assert!(matches!(
        client.process(ServerCommand::JoinRoom(Err("x".to_owned()))),
        ClientStep::Resolve(Reply::JoinRoom(Err(_)))
    ));
}

#[test]
fn every_kind_has_its_slot() {
    let kinds = [
        CallKind::Authenticate,
        CallKind::Chat,
        CallKind::CreateRoom,
        CallKind::JoinRoom,
        CallKind::LeaveRoom,
        CallKind::LockRoom,
        CallKind::CycleRoom,
        CallKind::SelectChart,
        CallKind::RequestStart,
        CallKind::Ready,
        CallKind::CancelReady,
        CallKind::Played,
        CallKind::Abort,
    ];
    let mut slots = Slots::new();
    for (i, kind) in kinds.iter().enumerate() {
        assert!(!slots.get(*kind));
        slots.set(*kind, true);
        for (j, other) in kinds.iter().enumerate() {
            assert_eq!(slots.get(*other), j <= i);
        }
    }
    slots.set(CallKind::Chat, false);
    assert!(!slots.get(CallKind::Chat));
    assert!(slots.get(CallKind::Authenticate) && slots.get(CallKind::CreateRoom));
}

#[test]
fn the_picture_follows_the_room() {
    let mut client = in_a_room();
    assert_eq!(client.me().unwrap().id, 1);
    assert_eq!(client.blocking_room_id().unwrap().as_str(), "r1");
    assert_eq!(client.blocking_room_state(), Some(RoomState::SelectChart(None)));
    assert_eq!(client.room_state(), Some(RoomState::SelectChart(None)));
    assert_eq!(client.blocking_is_host(), Some(true));
    assert_eq!(client.blocking_is_ready(), Some(false));
    assert_eq!(client.user_name(1), "A");
    assert_eq!(client.user_name(2), "?");
    assert_eq!(client.user_name_opt(2), None);

    client.process(ServerCommand::OnJoinRoom(info(2, "B", false)));
    assert_eq!(client.user_name(2), "B");
    assert!(!client.room.as_ref().unwrap().live);
    client.process(ServerCommand::OnJoinRoom(info(9, "M", true)));
    assert!(client.room.as_ref().unwrap().live);
    client.process(ServerCommand::OnJoinRoom(info(3, "C", false)));
    assert!(client.room.as_ref().unwrap().live);

    client.process(ServerCommand::Message(Message::LockRoom { lock: true }));
    client.process(ServerCommand::Message(Message::CycleRoom { cycle: true }));
    client.process(ServerCommand::Message(Message::LeaveRoom { user: 2, name: "B".to_owned() }));
    client.process(ServerCommand::Message(Message::Chat { user: 3, content: "hi".to_owned() }));
    let room = client.room.as_ref().unwrap();
    assert!(room.locked && room.cycle);
    assert_eq!(client.user_name_opt(2), None);
    let messages = client.blocking_take_messages();
    assert_eq!(messages.len(), 4);
    assert!(matches!(messages[3], Message::Chat { user: 3, .. }));
    assert!(client.blocking_take_messages().is_empty());

    client.process(ServerCommand::ChangeState(RoomState::WaitingForReady));
    assert_eq!(client.blocking_room_state(), Some(RoomState::WaitingForReady));
    assert_eq!(client.blocking_is_ready(), Some(true));
    client.process(ServerCommand::ChangeHost(false));
    assert_eq!(client.blocking_is_host(), Some(false));
    client.process(ServerCommand::ChangeState(RoomState::Playing));
    assert_eq!(client.blocking_is_ready(), Some(false));
    client.ready();
    assert_eq!(client.blocking_is_ready(), Some(true));
    client.cancel_ready();
    assert_eq!(client.blocking_is_ready(), Some(false));
    client.request_start();
    assert_eq!(client.blocking_is_ready(), Some(true));
    client.leave_room();
    assert_eq!(client.blocking_room_id(), None);
    assert_eq!(client.blocking_is_host(), None);
    client.process(ServerCommand::ChangeHost(true));
    client.process(ServerCommand::Message(Message::LockRoom { lock: true }));
    assert!(client.room.is_none());
    assert_eq!(client.blocking_take_messages().len(), 1);
}

#[test]
fn joining_builds_the_picture_from_the_answer() {
    let mut client = Client::new();
    assert!(!client.create_room(RoomId::new("r1".to_owned()).unwrap()));
    assert!(client.room.is_none());
    client.join_room(
        RoomId::new("r2".to_owned()).unwrap(),
        JoinRoomResponse {
            state: RoomState::SelectChart(Some(4)),
            users: vec![info(1, "A", false), info(2, "B", false), info(1, "A again", false)],
            live: true,
        },
    );
    let room = client.room.as_ref().unwrap();
    assert_eq!(room.id.as_str(), "r2");
    assert_eq!(room.state, RoomState::SelectChart(Some(4)));
    assert!(room.live && !room.locked && !room.cycle && !room.is_host && !room.is_ready);
    assert_eq!(room.users.len(), 2);
    assert_eq!(client.user_name(1), "A again");
}

#[test]
fn telemetry_is_kept_per_player_until_taken() {
    let mut client = in_a_room();
    let frame = |time: u32| TouchFrame { time, points: Vec::new() };
    let event = |note_id: u32| JudgeEvent { time: 0, line_id: 0, note_id, judgement: Judgement::Miss };
    client.process(ServerCommand::Touches { player: 2, frames: Arc::new(vec![frame(1), frame(2)]) });
    client.process(ServerCommand::Touches { player: 2, frames: Arc::new(vec![frame(3)]) });
    client.process(ServerCommand::Judges { player: 2, judges: Arc::new(vec![event(7)]) });
    client.process(ServerCommand::Judges { player: 3, judges: Arc::new(vec![event(8), event(9)]) });
    let two = client.live_player(2);
    assert_eq!(two.touch_frames.iter().map(|f| f.time).collect::<Vec<_>>(), vec![1, 2, 3]);
    assert_eq!(two.judge_events.len(), 1);
    assert_eq!(two.judge_events[0].note_id, 7);
    let again = client.live_player(2);
    assert!(again.touch_frames.is_empty() && again.judge_events.is_empty());
    client.process(ServerCommand::ChangeState(RoomState::Playing));
    let three = client.live_player(3);
    assert!(three.judge_events.is_empty());
    let nobody: LivePlayer = client.live_player(44);
    assert!(nobody.touch_frames.is_empty());
}

#[test]
fn missed_heartbeats_are_counted() {
    let mut client = Client::new();
    assert_eq!(client.delay(), None);
    client.heartbeat(Beat::TimedOut, 2_000);
    client.heartbeat(Beat::TimedOut, 2_001);
    assert_eq!(client.ping_fail_count(), 2);
    assert_eq!(client.delay(), Some(2_001));
    client.heartbeat(Beat::SendFailed, 3);
    assert_eq!(client.ping_fail_count(), 2);
    client.heartbeat(Beat::Answered, 40);
    assert_eq!(client.ping_fail_count(), 0);
    assert_eq!(client.delay(), Some(40));
    for _ in 0..256 {
        client.heartbeat(Beat::TimedOut, 1);
    }
    assert_eq!(client.ping_fail_count(), 0);
    assert_eq!(client.ping(12), 12);
    assert_eq!(client.delay(), Some(12));
}
