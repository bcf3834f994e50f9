use phira_mp::command::{RoomId, RoomState, ServerCommand};
use phira_mp::room::{
    tell, Chart, Delivery, InternalRoomState, Record, Room, RoomError, GAME_TIME_UNSET,
    ROOM_MAX_USERS,
};
use phira_mp::server::User;

fn room(host: i32) -> Room {
    Room::new(RoomId::new("r".to_owned()).unwrap(), host, format!("u{}", host))
}

fn sent(out: &[Delivery]) -> Vec<(Vec<i32>, String)> {
    out.iter().map(|d| (d.to.clone(), format!("{:?}", d.cmd))).collect()
}

fn said(to: &[i32], what: &str) -> (Vec<i32>, String) {
    (to.to_vec(), what.to_owned())
}

fn record(player: i32) -> Record {
    Record {
        id: 1,
        player,
        score: 5,
        perfect: 0,
        good: 0,
        bad: 0,
        miss: 0,
        max_combo: 0,
        accuracy: 0,
        full_combo: false,
        std: 0,
        std_score: 0,
    }
}

#[test]
fn a_new_room_has_its_host_alone() {
    let room = room(1);
    assert_eq!(room.host, Some(1));
    assert_eq!(room.audience(), vec![1]);
    assert!(!room.is_live());
    assert!(!room.is_locked());
    assert!(!room.is_cycle());
    assert_eq!(room.client_room_state(), RoomState::SelectChart(None));
    assert_eq!(room.check_host(1), Ok(()));
    assert_eq!(room.check_host(2), Err(RoomError::NotHost));
    assert_eq!(room.users().len(), 1);
    assert!(room.monitors().is_empty());
    assert_eq!(ROOM_MAX_USERS, 8);
}

#[test]
fn players_are_capped_and_monitors_are_not() {
    let mut room = room(0);
    for id in 1..8 {
        assert!(room.add_user(id, "p".to_owned(), false));
    }
    assert!(!room.add_user(8, "late".to_owned(), false));
    room.live = true;
    for id in 100..120 {
        assert!(room.add_user(id, "m".to_owned(), true));
    }
    assert_eq!(room.users().len(), 8);
    assert_eq!(room.monitors().len(), 20);
    assert!(room.monitors()[0].monitor);
    assert_eq!(room.audience().len(), 28);
}

#[test]
fn broadcasts_name_their_recipients() {
    let mut room = room(1);
    room.add_user(2, "B".to_owned(), false);
    room.live = true;
    room.add_user(9, "M".to_owned(), true);
    let mut out = Vec::new();
    room.broadcast(ServerCommand::ChangeHost(true), &mut out);
    room.broadcast_monitors(ServerCommand::Pong, &mut out);
    room.send_as(2, "yo".to_owned(), &mut out);
    room.on_state_change(&mut out);
    tell(2, ServerCommand::ChangeHost(false), &mut out);
    assert_eq!(
        sent(&out),
        vec![
            said(&[1, 2, 9], "ChangeHost(true)"),
            said(&[9], "Pong"),
            said(&[1, 2, 9], "Message(Chat { user: 2, content: \"yo\" })"),
            said(&[1, 2, 9], "ChangeState(SelectChart(None))"),
            said(&[2], "ChangeHost(false)"),
        ]
    );
}

#[test]
fn a_leaving_host_hands_over() {
    let mut room = room(1);
    room.add_user(2, "B".to_owned(), false);
    room.add_user(3, "C".to_owned(), false);
    let mut out = Vec::new();
    assert!(!room.on_user_leave_with(1, "A".to_owned(), false, 3, &mut out));
    assert_eq!(room.host, Some(3));
    assert_eq!(room.audience(), vec![2, 3]);
    assert_eq!(
        sent(&out),
        vec![
            said(&[1, 2, 3], "Message(LeaveRoom { user: 1, name: \"A\" })"),
            said(&[2, 3], "Message(NewHost { user: 3 })"),
            said(&[3], "ChangeHost(true)"),
        ]
    );
    let mut out = Vec::new();
    assert!(!room.on_user_leave_with(2, "B".to_owned(), false, 0, &mut out));
    assert_eq!(room.host, Some(3));
    assert_eq!(sent(&out), vec![said(&[2, 3], "Message(LeaveRoom { user: 2, name: \"B\" })")]);
    let mut out = Vec::new();
    assert!(room.on_user_leave_with(3, "C".to_owned(), false, 3, &mut out));
    assert_eq!(room.host, None);
    assert!(room.audience().is_empty());
}

#[test]
fn a_random_successor_is_one_of_the_others() {
    for _ in 0..32 {
        let mut room = room(1);
        room.add_user(2, "B".to_owned(), false);
        room.add_user(3, "C".to_owned(), false);
        let picked = room.pick_successor(1, false);
        assert!(picked == 2 || picked == 3);
        let mut out = Vec::new();
        assert!(!room.on_user_leave(1, "A".to_owned(), false, &mut out));
        let host = room.host.unwrap();
        assert!(host == 2 || host == 3);
    }
}

#[test]
fn leaving_can_complete_a_round() {
    let mut room = room(1);
    room.add_user(2, "B".to_owned(), false);
    let mut out = Vec::new();
    assert_eq!(room.select_chart(1, Chart { id: 3, name: "c".to_owned() }, &mut out), Ok(()));
    assert_eq!(room.request_start(1, &mut out), Ok(()));
    assert_eq!(room.ready(2, &mut out), Ok(()));
    assert_eq!(room.may_play(), Ok(()));
    assert_eq!(room.played(1, record(1), &mut out), Ok(()));
    assert_eq!(room.played(1, record(1), &mut out), Err(RoomError::AlreadyUploaded));
    let mut out = Vec::new();
    assert!(!room.on_user_leave_with(2, "B".to_owned(), false, 0, &mut out));
    assert_eq!(
        sent(&out),
        vec![
            said(&[1, 2], "Message(LeaveRoom { user: 2, name: \"B\" })"),
            said(&[1], "Message(GameEnd)"),
            said(&[1], "ChangeState(SelectChart(Some(3)))"),
        ]
    );
    assert!(matches!(room.state, InternalRoomState::SelectChart));
}

#[test]
fn a_sole_host_starts_playing_at_once() {
    let mut room = room(1);
    let mut out = Vec::new();
    assert_eq!(room.may_select_chart(2), Err(RoomError::NotHost));
    assert_eq!(room.may_select_chart(1), Ok(()));
    room.select_chart(1, Chart { id: 3, name: "c".to_owned() }, &mut out).unwrap();
    room.record_game_time(1, 77);
    assert_eq!(room.users[0].game_time, 77);
    let mut out = Vec::new();
    assert_eq!(room.request_start(1, &mut out), Ok(()));
    assert_eq!(
        sent(&out),
        vec![
            said(&[1], "Message(GameStart { user: 1 })"),
            said(&[1], "ChangeState(WaitingForReady)"),
            said(&[1], "Message(StartPlaying)"),
            said(&[1], "ChangeState(Playing)"),
        ]
    );
    assert_eq!(room.users[0].game_time, GAME_TIME_UNSET);
    assert_eq!(room.may_select_chart(1), Err(RoomError::InvalidState));
    assert_eq!(room.abort(1, &mut out), Ok(()));
    assert_eq!(room.client_room_state(), RoomState::SelectChart(Some(3)));
    assert_eq!(room.may_play(), Err(RoomError::InvalidState));
}

#[test]
fn cycling_wraps_around() {
    let mut room = room(1);
    room.add_user(2, "B".to_owned(), false);
    let mut out = Vec::new();
    assert_eq!(room.cycle_room(2, true, &mut out), Err(RoomError::NotHost));
    assert_eq!(room.cycle_room(1, true, &mut out), Ok(()));
    assert_eq!(room.lock_room(1, true, &mut out), Ok(()));
    assert!(room.is_cycle() && room.is_locked());
    room.select_chart(1, Chart { id: 3, name: "c".to_owned() }, &mut out).unwrap();
    for expected in [2, 1, 2] {
        let host = room.host.unwrap();
        room.request_start(host, &mut out).unwrap();
        let other = if host == 1 { 2 } else { 1 };
        room.ready(other, &mut out).unwrap();
        room.abort(1, &mut out).unwrap();
        room.abort(2, &mut out).unwrap();
        assert_eq!(room.host, Some(expected));
    }
    room.reset_game_time();
    room.check_all_ready(&mut out);
    assert_eq!(room.client_room_state(), RoomState::SelectChart(Some(3)));
}

#[test]
fn a_room_shows_itself_to_each_user() {
    let mut room = room(1);
    room.add_user(2, "B".to_owned(), false);
    room.live = true;
    room.add_user(9, "M".to_owned(), true);
    let seen = room.client_state(2);
    assert_eq!(seen.id.as_str(), "r");
    assert!(!seen.is_host);
    assert!(!seen.is_ready);
    assert!(seen.live);
    assert_eq!(seen.users.len(), 3);
    assert_eq!(seen.users.key_at(2), 9);
    assert!(seen.users.get(9).unwrap().monitor);
    assert_eq!(seen.users.get(1).unwrap().name, "u1");
    assert!(room.client_state(1).is_host);
    assert_eq!(room.state.to_client(Some(4)), RoomState::SelectChart(Some(4)));
    assert_eq!(RoomError::RoomFull.message(), "join-room-full");
    assert_eq!(RoomError::NotHost.message(), "only host can do this");
    assert_eq!(RoomError::FetchFailed.message(), "failed to fetch info");
    assert_eq!(RoomError::InvalidToken.message(), "invalid token");
}

#[test]
fn users_know_their_rights() {
    let mut user = User::new(5, "E".to_owned(), "zh-CN".to_owned());
    assert!(user.can_monitor(&vec![1, 5]));
    assert!(!user.can_monitor(&vec![1, 6]));
    let info = user.to_info();
    assert_eq!((info.id, info.name.as_str(), info.monitor), (5, "E", false));
    user.dangle_mark = Some(3);
    user.set_session(77);
    assert_eq!(user.session, Some(77));
    assert_eq!(user.dangle_mark, None);
}
