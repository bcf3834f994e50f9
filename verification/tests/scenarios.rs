use phira_mp::command::{
    ClientCommand, CompactPos, JudgeEvent, Judgement, RoomId, RoomState, ServerCommand, TouchFrame,
    Varchar,
};
use phira_mp::room::{Chart, Delivery, Record};
use phira_mp::server::{Dangle, Identity, Outcome, ServerState, Session};
use phira_mp::session::Watch;
use std::sync::Arc;

fn token() -> ClientCommand {
    ClientCommand::Authenticate {
        token: Varchar::<32>::new("0123456789abcdef0123456789abcdef".to_owned()).unwrap(),
    }
}

fn room_id(id: &str) -> RoomId {
    RoomId::new(id.to_owned()).unwrap()
}

fn text(cmd: &ServerCommand) -> String {
    format!("{:?}", cmd)
}

fn show(outcome: &Outcome) -> String {
    format!("{:?}", outcome)
}

/// What a user was sent, in order.
fn seen_by(out: &[Delivery], user: i32) -> Vec<String> {
    let mut seen = Vec::new();
    for delivery in out {
        if delivery.to.contains(&user) {
            seen.push(text(&delivery.cmd));
        }
    }
    seen
}

fn connect(server: &mut ServerState, session: u128, id: i32, name: &str) -> Outcome {
    assert!(server.accept(session, 1, 0));
    let mut out = Vec::new();
    let step = server.receive(session, token(), 0, &mut out);
    assert!(matches!(step, Outcome::FetchUser { .. }));
    assert!(out.is_empty());
    server.authenticated(
        session,
        Ok(Identity { id, name: name.to_owned(), language: "en-US".to_owned() }),
    )
}

fn send(server: &mut ServerState, session: u128, cmd: ClientCommand) -> (Outcome, Vec<Delivery>) {
    let mut out = Vec::new();
    let outcome = server.receive(session, cmd, 1, &mut out);
    (outcome, out)
}

fn record(id: i32, player: i32) -> Record {
    Record {
        id,
        player,
        score: 1_000_000,
        perfect: 10,
        good: 0,
        bad: 0,
        miss: 0,
        max_combo: 10,
        accuracy: 0x3f80_0000,
        full_combo: true,
        std: 0,
        std_score: 0,
    }
}

/// A and B in room "r1", A its host.
fn two_in_a_room() -> ServerState {
    let mut server = ServerState::new(Vec::new());
    connect(&mut server, 101, 1, "A");
    connect(&mut server, 102, 2, "B");
    let (reply, _) = send(&mut server, 101, ClientCommand::CreateRoom { id: room_id("r1") });
    assert_eq!(show(&reply), "Reply(CreateRoom(Ok(())))");
    let (reply, _) =
        send(&mut server, 102, ClientCommand::JoinRoom { id: room_id("r1"), monitor: false });
    assert!(matches!(reply, Outcome::Reply(ServerCommand::JoinRoom(Ok(_)))));
    server
}

/// The room of `two_in_a_room` with chart 42 selected and both playing.
fn two_playing() -> ServerState {
    let mut server = two_in_a_room();
    let (step, _) = send(&mut server, 101, ClientCommand::SelectChart { id: 42 });
    assert_eq!(show(&step), "FetchChart { id: 42 }");
    let mut out = Vec::new();
    server.chart_fetched(1, Ok(Chart { id: 42, name: "song".to_owned() }), &mut out);
    send(&mut server, 101, ClientCommand::RequestStart);
    send(&mut server, 102, ClientCommand::Ready);
    assert_eq!(server.rooms[0].client_room_state(), RoomState::Playing);
    server
}

#[test]
fn create_join_chat() {
    let mut server = ServerState::new(Vec::new());
    assert!(server.accept(101, 1, 0));
    assert_eq!(server.sessions[0].version(), 1);
    let mut out = Vec::new();
    let step = server.receive(101, token(), 0, &mut out);
    assert_eq!(show(&step), "FetchUser { token: \"0123456789abcdef0123456789abcdef\" }");
    let reply = server.authenticated(
        101,
        Ok(Identity { id: 1, name: "A".to_owned(), language: "en-US".to_owned() }),
    );
    assert_eq!(
        show(&reply),
        "Reply(Authenticate(Ok((UserInfo { id: 1, name: \"A\", monitor: false }, None))))"
    );
    let (reply, out) = send(&mut server, 101, ClientCommand::CreateRoom { id: room_id("r1") });
    assert_eq!(show(&reply), "Reply(CreateRoom(Ok(())))");
    assert_eq!(seen_by(&out, 1), vec!["Message(CreateRoom { user: 1 })".to_owned()]);

    connect(&mut server, 102, 2, "B");
    let (reply, out) =
        send(&mut server, 102, ClientCommand::JoinRoom { id: room_id("r1"), monitor: false });
    let joined = "Message(JoinRoom { user: 2, name: \"B\" })".to_owned();
    assert!(seen_by(&out, 1).contains(&joined));
    assert!(seen_by(&out, 2).contains(&joined));
    assert_eq!(
        seen_by(&out, 1),
        vec!["OnJoinRoom(UserInfo { id: 2, name: \"B\", monitor: false })".to_owned(), joined]
    );
    match reply {
        Outcome::Reply(ServerCommand::JoinRoom(Ok(resp))) => {
            assert_eq!(
                format!("{:?}", resp.users),
                "[UserInfo { id: 1, name: \"A\", monitor: false }, \
                 UserInfo { id: 2, name: \"B\", monitor: false }]"
            );
            assert_eq!(resp.state, RoomState::SelectChart(None));
            assert!(!resp.live);
        }
        other => panic!("unexpected answer {:?}", other),
    }

    let message = Varchar::<200>::new("hi".to_owned()).unwrap();
    let (reply, out) = send(&mut server, 102, ClientCommand::Chat { message });
    assert_eq!(show(&reply), "Reply(Chat(Ok(())))");
    let chat = vec!["Message(Chat { user: 2, content: \"hi\" })".to_owned()];
    assert_eq!(seen_by(&out, 1), chat);
    assert_eq!(seen_by(&out, 2), chat);
}

#[test]
fn lock_blocks_join() {
    let mut server = two_in_a_room();
    let (reply, out) = send(&mut server, 101, ClientCommand::LockRoom { lock: true });
    assert_eq!(show(&reply), "Reply(LockRoom(Ok(())))");
    assert_eq!(seen_by(&out, 2), vec!["Message(LockRoom { lock: true })".to_owned()]);
    connect(&mut server, 103, 3, "C");
    let (reply, out) =
        send(&mut server, 103, ClientCommand::JoinRoom { id: room_id("r1"), monitor: false });
    assert_eq!(show(&reply), "Reply(JoinRoom(Err(\"join-room-locked\")))");
    assert!(out.is_empty());
    assert_eq!(server.rooms[0].audience(), vec![1, 2]);
    assert!(server.users[2].room.is_none());
}

#[test]
fn ready_start_play() {
    let mut server = two_in_a_room();
    let (step, out) = send(&mut server, 101, ClientCommand::SelectChart { id: 42 });
    assert_eq!(show(&step), "FetchChart { id: 42 }");
    assert!(out.is_empty());
    let mut out = Vec::new();
    let reply = server.chart_fetched(1, Ok(Chart { id: 42, name: "song".to_owned() }), &mut out);
    assert_eq!(text(&reply), "SelectChart(Ok(()))");
    assert_eq!(server.rooms[0].client_room_state(), RoomState::SelectChart(Some(42)));
    assert_eq!(
        seen_by(&out, 2),
        vec![
            "Message(SelectChart { user: 1, name: \"song\", id: 42 })".to_owned(),
            "ChangeState(SelectChart(Some(42)))".to_owned(),
        ]
    );

    let (reply, out) = send(&mut server, 101, ClientCommand::RequestStart);
    assert_eq!(show(&reply), "Reply(RequestStart(Ok(())))");
    assert_eq!(server.rooms[0].client_room_state(), RoomState::WaitingForReady);
    assert!(server.rooms[0].client_state(1).is_ready);
    assert!(!server.rooms[0].client_state(2).is_ready);
    assert_eq!(
        seen_by(&out, 2),
        vec!["Message(GameStart { user: 1 })".to_owned(), "ChangeState(WaitingForReady)".to_owned()]
    );

    let (reply, out) = send(&mut server, 102, ClientCommand::Ready);
    assert_eq!(show(&reply), "Reply(Ready(Ok(())))");
    assert_eq!(server.rooms[0].client_room_state(), RoomState::Playing);
    let expected = vec![
        "Message(Ready { user: 2 })".to_owned(),
        "Message(StartPlaying)".to_owned(),
        "ChangeState(Playing)".to_owned(),
    ];
    assert_eq!(seen_by(&out, 1), expected);
    assert_eq!(seen_by(&out, 2), expected);

    let (step, _) = send(&mut server, 101, ClientCommand::Played { id: 7 });
    assert_eq!(show(&step), "FetchRecord { id: 7 }");
    let mut out = Vec::new();
    let reply = server.record_fetched(1, Ok(record(7, 1)), &mut out);
    assert_eq!(text(&reply), "Played(Ok(()))");
    assert_eq!(
        seen_by(&out, 2),
        vec!["Message(Played { user: 1, score: 1000000, accuracy: 1065353216, full_combo: true })"
            .to_owned()]
    );
    assert_eq!(server.rooms[0].client_room_state(), RoomState::Playing);

    let mut out = Vec::new();
    let reply = server.record_fetched(2, Ok(record(8, 2)), &mut out);
    assert_eq!(text(&reply), "Played(Ok(()))");
    let expected = vec![
        "Message(Played { user: 2, score: 1000000, accuracy: 1065353216, full_combo: true })"
            .to_owned(),
        "Message(GameEnd)".to_owned(),
        "ChangeState(SelectChart(Some(42)))".to_owned(),
    ];
    assert_eq!(seen_by(&out, 1), expected);
    assert_eq!(seen_by(&out, 2), expected);
    assert_eq!(server.rooms[0].client_room_state(), RoomState::SelectChart(Some(42)));
}

#[test]
fn host_migration() {
    let mut server = two_in_a_room();
    connect(&mut server, 103, 3, "C");
    send(&mut server, 103, ClientCommand::JoinRoom { id: room_id("r1"), monitor: false });
    let mut out = Vec::new();
    server.chart_fetched(1, Ok(Chart { id: 42, name: "song".to_owned() }), &mut out);
    send(&mut server, 101, ClientCommand::RequestStart);
    send(&mut server, 102, ClientCommand::Ready);
    send(&mut server, 103, ClientCommand::Ready);
    assert_eq!(server.rooms[0].client_room_state(), RoomState::Playing);
    assert_eq!(server.rooms[0].audience(), vec![1, 2, 3]);

    let mut out = Vec::new();
    let next = server.lost_connection(101, &mut out);
    assert_eq!(next, Dangle::Nothing);
    assert!(server.user_index(1).is_none());
    assert_eq!(server.rooms[0].audience(), vec![2, 3]);
    let chosen = server.rooms[0].host.unwrap();
    assert!(chosen == 2 || chosen == 3);
    let other = if chosen == 2 { 3 } else { 2 };
    let left = "Message(LeaveRoom { user: 1, name: \"A\" })".to_owned();
    let new_host = format!("Message(NewHost {{ user: {} }})", chosen);
    assert_eq!(seen_by(&out, chosen), vec![left.clone(), new_host.clone(), "ChangeHost(true)".to_owned()]);
    assert_eq!(seen_by(&out, other), vec![left, new_host]);
}

#[test]
fn cycle_rotation() {
    let mut server = two_in_a_room();
    let (reply, _) = send(&mut server, 101, ClientCommand::CycleRoom { cycle: true });
    assert_eq!(show(&reply), "Reply(CycleRoom(Ok(())))");
    let mut out = Vec::new();
    server.chart_fetched(1, Ok(Chart { id: 42, name: "song".to_owned() }), &mut out);
    send(&mut server, 101, ClientCommand::RequestStart);
    send(&mut server, 102, ClientCommand::Ready);
    assert_eq!(server.rooms[0].client_room_state(), RoomState::Playing);

    let mut out = Vec::new();
    server.record_fetched(1, Ok(record(7, 1)), &mut out);
    server.record_fetched(2, Ok(record(8, 2)), &mut out);
    let played_a =
        "Message(Played { user: 1, score: 1000000, accuracy: 1065353216, full_combo: true })";
    let played_b =
        "Message(Played { user: 2, score: 1000000, accuracy: 1065353216, full_combo: true })";
    assert_eq!(
        seen_by(&out, 1),
        vec![
            played_a.to_owned(),
            played_b.to_owned(),
            "Message(GameEnd)".to_owned(),
            "ChangeHost(false)".to_owned(),
            "Message(NewHost { user: 2 })".to_owned(),
            "ChangeState(SelectChart(Some(42)))".to_owned(),
        ]
    );
    assert_eq!(
        seen_by(&out, 2),
        vec![
            played_a.to_owned(),
            played_b.to_owned(),
            "Message(GameEnd)".to_owned(),
            "Message(NewHost { user: 2 })".to_owned(),
            "ChangeHost(true)".to_owned(),
            "ChangeState(SelectChart(Some(42)))".to_owned(),
        ]
    );
    assert_eq!(server.rooms[0].host, Some(2));
}

#[test]
fn reconnect() {
    let mut server = ServerState::new(Vec::new());
    connect(&mut server, 201, 7, "G");
    send(&mut server, 201, ClientCommand::CreateRoom { id: room_id("r") });

    assert_eq!(server.watch(201, 10_000), Watch::Sleep { until: 10_001 });
    assert_eq!(server.watch(201, 10_001), Watch::Lost);
    let mut out = Vec::new();
    let next = server.lost_connection(201, &mut out);
    assert_eq!(next, Dangle::Grace { user: 7, mark: 0 });
    assert!(out.is_empty());
    assert_eq!(server.session_of(7), None);
    assert_eq!(server.watch(201, 10_002), Watch::Gone);

    assert!(server.accept(202, 1, 12_000));
    let mut out = Vec::new();
    let step = server.receive(202, token(), 12_000, &mut out);
    assert!(matches!(step, Outcome::FetchUser { .. }));
    let reply = server.authenticated(
        202,
        Ok(Identity { id: 7, name: "G".to_owned(), language: "en-US".to_owned() }),
    );
    match reply {
        Outcome::Reply(ServerCommand::Authenticate(Ok((info, Some(room))))) => {
            assert_eq!(info.id, 7);
            assert_eq!(info.name, "G");
            assert_eq!(room.id.as_str(), "r");
            assert!(room.is_host);
            assert_eq!(room.state, RoomState::SelectChart(None));
        }
        other => panic!("unexpected answer {:?}", other),
    }
    assert!(out.is_empty());
    assert_eq!(server.users.len(), 1);
    assert_eq!(server.session_of(7), Some(202));
    assert_eq!(server.rooms[0].audience(), vec![7]);

    let mut out = Vec::new();
    server.dangle_expired(7, 0, &mut out);
    assert!(out.is_empty());
    assert_eq!(server.users.len(), 1);
    assert_eq!(server.rooms.len(), 1);
}

#[test]
fn grace_that_runs_out_removes_the_user() {
    let mut server = two_in_a_room();
    let mut out = Vec::new();
    assert_eq!(server.lost_connection(102, &mut out), Dangle::Grace { user: 2, mark: 0 });
    assert_eq!(server.lost_connection(102, &mut out), Dangle::Nothing);
    assert!(out.is_empty());
    server.dangle_expired(2, 0, &mut out);
    assert!(server.user_index(2).is_none());
    assert_eq!(seen_by(&out, 1), vec!["Message(LeaveRoom { user: 2, name: \"B\" })".to_owned()]);
    assert_eq!(server.rooms[0].audience(), vec![1]);
}

#[test]
fn last_player_ends_the_room() {
    let mut server = ServerState::new(vec![9]);
    connect(&mut server, 101, 1, "A");
    connect(&mut server, 109, 9, "M");
    send(&mut server, 101, ClientCommand::CreateRoom { id: room_id("r1") });
    let (reply, _) =
        send(&mut server, 109, ClientCommand::JoinRoom { id: room_id("r1"), monitor: true });
    assert!(matches!(reply, Outcome::Reply(ServerCommand::JoinRoom(Ok(_)))));
    assert!(server.rooms[0].is_live());
    let (reply, out) = send(&mut server, 101, ClientCommand::LeaveRoom);
    assert_eq!(show(&reply), "Reply(LeaveRoom(Ok(())))");
    assert_eq!(seen_by(&out, 9), vec!["Message(LeaveRoom { user: 1, name: \"A\" })".to_owned()]);
    assert!(server.rooms.is_empty());
    assert!(server.users[0].room.is_none());
    assert!(server.users[1].room.is_none());
}

#[test]
fn requests_are_refused_with_their_reasons() {
    let mut server = two_playing();
    connect(&mut server, 103, 3, "C");
    let join = |server: &mut ServerState, id: &str, monitor: bool| {
        show(&send(server, 103, ClientCommand::JoinRoom { id: room_id(id), monitor }).0)
    };
    assert_eq!(join(&mut server, "nowhere", false), "Reply(JoinRoom(Err(\"room not found\")))");
    assert_eq!(join(&mut server, "r1", false), "Reply(JoinRoom(Err(\"join-game-ongoing\")))");
    let (reply, _) = send(&mut server, 103, ClientCommand::CreateRoom { id: room_id("r1") });
    assert_eq!(show(&reply), "Reply(CreateRoom(Err(\"create-id-occupied\")))");
    let (reply, _) = send(&mut server, 103, ClientCommand::LeaveRoom);
    assert_eq!(show(&reply), "Reply(LeaveRoom(Err(\"no room\")))");
    let (reply, _) = send(&mut server, 103, ClientCommand::Ready);
    assert_eq!(show(&reply), "Reply(Ready(Err(\"no room\")))");
    let (reply, _) = send(&mut server, 103, token());
    assert_eq!(show(&reply), "Reply(Authenticate(Err(\"repeated authenticate\")))");

    let (reply, _) = send(&mut server, 102, ClientCommand::CreateRoom { id: room_id("r2") });
    assert_eq!(show(&reply), "Reply(CreateRoom(Err(\"already in room\")))");
    let (reply, _) = send(&mut server, 102, ClientCommand::LockRoom { lock: true });
    assert_eq!(show(&reply), "Reply(LockRoom(Err(\"only host can do this\")))");
    let (reply, _) = send(&mut server, 102, ClientCommand::Ready);
    assert_eq!(show(&reply), "Reply(Ready(Err(\"invalid state\")))");
    let (reply, _) = send(&mut server, 101, ClientCommand::RequestStart);
    assert_eq!(show(&reply), "Reply(RequestStart(Err(\"invalid state\")))");
    let (reply, _) = send(&mut server, 101, ClientCommand::SelectChart { id: 1 });
    assert_eq!(show(&reply), "Reply(SelectChart(Err(\"invalid state\")))");

    let mut out = Vec::new();
    let reply = server.record_fetched(1, Ok(record(7, 2)), &mut out);
    assert_eq!(text(&reply), "Played(Err(\"invalid record\"))");
    let reply = server.record_fetched(1, Err("not found".to_owned()), &mut out);
    assert_eq!(text(&reply), "Played(Err(\"not found\"))");
    assert!(out.is_empty());
    let (reply, _) = send(&mut server, 101, ClientCommand::Abort);
    assert_eq!(show(&reply), "Reply(Abort(Ok(())))");
    let (reply, _) = send(&mut server, 101, ClientCommand::Abort);
    assert_eq!(show(&reply), "Reply(Abort(Err(\"aborted\")))");
    let reply = server.record_fetched(1, Ok(record(7, 1)), &mut out);
    assert_eq!(text(&reply), "Played(Err(\"aborted\"))");
    let reply = server.record_fetched(2, Ok(record(8, 2)), &mut out);
    assert_eq!(text(&reply), "Played(Ok(()))");
    assert_eq!(server.rooms[0].client_room_state(), RoomState::SelectChart(Some(42)));
    let reply = server.record_fetched(2, Ok(record(8, 2)), &mut out);
    assert_eq!(text(&reply), "Played(Err(\"invalid state\"))");
}

#[test]
fn readiness_can_be_taken_back() {
    let mut server = two_in_a_room();
    let (reply, _) = send(&mut server, 101, ClientCommand::RequestStart);
    assert_eq!(show(&reply), "Reply(RequestStart(Err(\"start-no-chart-selected\")))");
    let mut out = Vec::new();
    server.chart_fetched(1, Ok(Chart { id: 5, name: "x".to_owned() }), &mut out);
    connect(&mut server, 103, 3, "C");
    send(&mut server, 103, ClientCommand::JoinRoom { id: room_id("r1"), monitor: false });
    send(&mut server, 101, ClientCommand::RequestStart);
    let (reply, _) = send(&mut server, 101, ClientCommand::Ready);
    assert_eq!(show(&reply), "Reply(Ready(Err(\"already ready\")))");
    let (reply, _) = send(&mut server, 102, ClientCommand::CancelReady);
    assert_eq!(show(&reply), "Reply(CancelReady(Err(\"not ready\")))");
    send(&mut server, 102, ClientCommand::Ready);
    let (reply, out) = send(&mut server, 102, ClientCommand::CancelReady);
    assert_eq!(show(&reply), "Reply(CancelReady(Ok(())))");
    assert_eq!(seen_by(&out, 3), vec!["Message(CancelReady { user: 2 })".to_owned()]);
    assert_eq!(server.rooms[0].client_room_state(), RoomState::WaitingForReady);
    let (reply, out) = send(&mut server, 101, ClientCommand::CancelReady);
    assert_eq!(show(&reply), "Reply(CancelReady(Ok(())))");
    assert_eq!(
        seen_by(&out, 3),
        vec!["Message(CancelGame { user: 1 })".to_owned(), "ChangeState(SelectChart(Some(5)))".to_owned()]
    );
}

#[test]
fn a_room_takes_eight_players_and_any_monitor() {
    let mut server = ServerState::new(vec![50]);
    connect(&mut server, 100, 0, "host");
    send(&mut server, 100, ClientCommand::CreateRoom { id: room_id("full") });
    for i in 1..8 {
        connect(&mut server, 100 + i as u128, i, "p");
        let (reply, _) = send(
            &mut server,
            100 + i as u128,
            ClientCommand::JoinRoom { id: room_id("full"), monitor: false },
        );
        assert!(matches!(reply, Outcome::Reply(ServerCommand::JoinRoom(Ok(_)))));
    }
    connect(&mut server, 108, 8, "late");
    let (reply, _) =
        send(&mut server, 108, ClientCommand::JoinRoom { id: room_id("full"), monitor: false });
    assert_eq!(show(&reply), "Reply(JoinRoom(Err(\"join-room-full\")))");
    let (reply, _) =
        send(&mut server, 108, ClientCommand::JoinRoom { id: room_id("full"), monitor: true });
    assert_eq!(show(&reply), "Reply(JoinRoom(Err(\"join-cant-monitor\")))");
    connect(&mut server, 150, 50, "watcher");
    let (reply, _) =
        send(&mut server, 150, ClientCommand::JoinRoom { id: room_id("full"), monitor: true });
    match reply {
        Outcome::Reply(ServerCommand::JoinRoom(Ok(resp))) => {
            assert!(resp.live);
            assert_eq!(resp.users.len(), 9);
            assert!(resp.users[8].monitor);
        }
        other => panic!("unexpected answer {:?}", other),
    }
    assert_eq!(server.rooms[0].users.len(), 8);
}

#[test]
fn a_wrong_token_fails_the_connection() {
    let mut server = ServerState::new(Vec::new());
    assert!(server.accept(1, 1, 0));
    assert!(!server.accept(1, 1, 0));
    let mut out = Vec::new();
    let step = server.receive(1, ClientCommand::Ping, 5, &mut out);
    assert_eq!(show(&step), "Reply(Pong)");
    let step = server.receive(1, ClientCommand::Ready, 6, &mut out);
    assert_eq!(show(&step), "Nothing");
    let short = ClientCommand::Authenticate { token: Varchar::<32>::new("abc".to_owned()).unwrap() };
    let step = server.receive(1, short, 7, &mut out);
    assert_eq!(show(&step), "Reject(Authenticate(Err(\"invalid token\")))");
    let step = server.receive(1, ClientCommand::Ping, 8, &mut out);
    assert_eq!(show(&step), "Nothing");
    assert_eq!(server.sessions[0].last_recv, 8);

    assert!(server.accept(2, 1, 0));
    server.receive(2, token(), 0, &mut out);
    let step = server.authenticated(2, Err("503".to_owned()));
    assert_eq!(show(&step), "Reject(Authenticate(Err(\"failed to fetch info\")))");
    assert!(server.users.is_empty());
}

#[test]
fn telemetry_reaches_the_monitors_of_a_live_room() {
    let mut server = ServerState::new(vec![9]);
    connect(&mut server, 101, 1, "A");
    connect(&mut server, 109, 9, "M");
    send(&mut server, 101, ClientCommand::CreateRoom { id: room_id("r1") });
    let frames = Arc::new(vec![TouchFrame {
        time: 0x4000_0000,
        points: vec![(0, CompactPos::from_bits(0x3c00, 0xbc00))],
    }]);
    let (step, out) = send(&mut server, 101, ClientCommand::Touches { frames: frames.clone() });
    assert_eq!(show(&step), "Nothing");
    assert!(out.is_empty());
    send(&mut server, 109, ClientCommand::JoinRoom { id: room_id("r1"), monitor: true });
    let (_, out) = send(&mut server, 101, ClientCommand::Touches { frames });
    assert_eq!(out.len(), 1);
    assert_eq!(out[0].to, vec![9]);
    assert!(matches!(&out[0].cmd, ServerCommand::Touches { player: 1, frames } if frames.len() == 1));
    assert_eq!(server.rooms[0].users[0].game_time, 0x4000_0000);
    let judges = Arc::new(vec![JudgeEvent {
        time: 0,
        line_id: 1,
        note_id: 2,
        judgement: Judgement::Good,
    }]);
    let (_, out) = send(&mut server, 101, ClientCommand::Judges { judges });
    assert_eq!(out[0].to, vec![9]);
    assert!(matches!(&out[0].cmd, ServerCommand::Judges { player: 1, .. }));
}

#[test]
fn vacant_entry_is_not_taken() {
    let mut server = ServerState::new(Vec::new());
    let mut taken = Vec::new();
    for _ in 0..16 {
        let id = loop {
            if let Some(id) = server.vacant_entry() {
                break id;
            }
        };
        assert!(!taken.contains(&id));
        assert!(server.accept(id, 1, 0));
        taken.push(id);
    }
    assert_eq!(server.sessions.len(), 16);
}

#[test]
fn the_watchdog_waits_ten_seconds() {
    let session = Session::new(5, 1, 1_000);
    assert_eq!(session.watchdog(1_000), Watch::Sleep { until: 11_000 });
    assert_eq!(session.watchdog(10_999), Watch::Sleep { until: 11_000 });
    assert_eq!(session.watchdog(11_000), Watch::Lost);
    assert_eq!(session.watchdog(u64::MAX), Watch::Lost);
    let late = Session::new(5, 1, u64::MAX - 1);
    assert_eq!(late.watchdog(u64::MAX), Watch::Sleep { until: u64::MAX });
}

#[test]
fn a_failed_connection_is_deaf() {
    let mut server = two_in_a_room();
    assert_eq!(server.name_of(101), Some("A".to_owned()));
    assert_eq!(server.name_of(999), None);
    assert!(server.can_monitor(1) == false);
    server.mark_failed(101);
    server.mark_failed(999);
    let (step, out) = send(&mut server, 101, ClientCommand::Ping);
    assert_eq!(show(&step), "Nothing");
    assert!(out.is_empty());
    let (step, _) = send(&mut server, 102, ClientCommand::Ping);
    assert_eq!(show(&step), "Reply(Pong)");
    let mut out = Vec::new();
    assert_eq!(server.leave_room_with(2, 0, &mut out), Ok(()));
    assert_eq!(server.leave_room(2, &mut out), Err(phira_mp::RoomError::NoRoom));
    assert_eq!(server.pick_successor(1), 1);
    server.drop_user_with(1, 1, &mut out);
    assert!(server.rooms.is_empty());
    assert_eq!(server.users.len(), 1);
    assert_eq!(server.dangle_with(2, 2, &mut out), Dangle::Grace { user: 2, mark: 0 });
    assert_eq!(server.lost_connection_with(102, 2, &mut out), Dangle::Nothing);
    server.dangle_expired_with(2, 1, 2, &mut out);
    assert_eq!(server.users.len(), 1);
    server.dangle_expired_with(2, 0, 2, &mut out);
    assert!(server.users.is_empty());
}

#[test]
fn a_taken_identifier_is_not_vacant() {
    let mut server = ServerState::new(Vec::new());
    assert_eq!(server.vacant(7), Some(7));
    assert!(server.accept(7, 1, 0));
    assert_eq!(server.vacant(7), None);
    assert_eq!(server.vacant(8), Some(8));
}
