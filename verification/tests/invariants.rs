use phira_mp::command::{ClientCommand, RoomId, Varchar};
use phira_mp::room::{Chart, InternalRoomState, Record, ROOM_MAX_USERS};
use phira_mp::server::{Dangle, Identity, Outcome, ServerState};

/// A small generator of numbers that looks random and is not.
struct Dice(u64);

impl Dice {
    fn roll(&mut self, sides: u64) -> u64 {
        self.0 = self.0.wrapping_mul(6364136223846793005).wrapping_add(1442695040888963407);
        (self.0 >> 33) % sides
    }
}

fn token() -> ClientCommand {
    ClientCommand::Authenticate {
        token: Varchar::<32>::new("0123456789abcdef0123456789abcdef".to_owned()).unwrap(),
    }
}

fn room_id(n: u64) -> RoomId {
    RoomId::new(format!("room-{}", n)).unwrap()
}

fn record(player: i32) -> Record {
    Record {
        id: 1,
        player,
        score: 0,
        perfect: 0,
        good: 0,
        bad: 0,
        miss: 0,
        max_combo: 0,
        accuracy: 0,
        full_combo: false,
        std: 0,
        std_score: 0,
    }
}

/// What holds of every server state.
fn check(server: &ServerState) {
    for (i, user) in server.users.iter().enumerate() {
        assert!(server.users[..i].iter().all(|other| other.id != user.id));
        if let Some(id) = &user.room {
            let room = server.rooms.iter().find(|room| room.id.same(id));
            let room = room.expect("a user's room is a room of the server");
            let list = if user.monitor { &room.monitors } else { &room.users };
            assert!(list.iter().any(|member| member.id == user.id));
        }
    }
    for (i, room) in server.rooms.iter().enumerate() {
        assert!(server.rooms[..i].iter().all(|other| !other.id.same(&room.id)));
        assert!(room.users.len() <= ROOM_MAX_USERS);
        assert!(!room.users.is_empty());
        let host = room.host.expect("a room has a host");
        assert!(room.users.iter().any(|member| member.id == host));
        let everyone = room.audience();
        for (k, id) in everyone.iter().enumerate() {
            assert!(!everyone[..k].contains(id));
            let at = server.user_index(*id).expect("a member is a user of the server");
            assert!(server.users[at].room.as_ref().map_or(false, |r| r.same(&room.id)));
        }
        if !room.monitors.is_empty() {
            assert!(room.is_live());
        }
        if let InternalRoomState::WaitForReady { started } = &room.state {
            assert!(everyone.iter().any(|id| !started.contains(id)));
        }
        if let InternalRoomState::Playing { results, aborted } = &room.state {
            assert!(room
                .users
                .iter()
                .any(|member| !results.contains_key(&member.id) && !aborted.contains(&member.id)));
        }
    }
}

#[test]
fn a_busy_evening_keeps_the_server_in_order() {
    let mut dice = Dice(2024);
    let mut server = ServerState::new(vec![10, 11]);
    let mut next_session: u128 = 1;
    let mut sessions: Vec<u128> = Vec::new();
    let mut graces: Vec<(i32, u64)> = Vec::new();
    for step in 0..6000u64 {
        let mut out = Vec::new();
        let roll = dice.roll(20);
        if sessions.is_empty() || roll == 0 {
            let session = next_session;
            next_session += 1;
            assert!(server.accept(session, 1, step));
            let asked = server.receive(session, token(), step, &mut out);
            assert!(matches!(asked, Outcome::FetchUser { .. }));
            let id = dice.roll(12) as i32;
            let who = Identity { id, name: format!("u{}", id), language: "en-US".to_owned() };
            assert!(matches!(server.authenticated(session, Ok(who)), Outcome::Reply(_)));
            sessions.push(session);
        } else if roll == 1 {
            let at = dice.roll(sessions.len() as u64) as usize;
            let session = sessions.remove(at);
            if let Dangle::Grace { user, mark } = server.lost_connection(session, &mut out) {
                graces.push((user, mark));
            }
        } else if roll == 2 && !graces.is_empty() {
            let (user, mark) = graces.remove(0);
            server.dangle_expired(user, mark, &mut out);
        } else {
            let session = sessions[dice.roll(sessions.len() as u64) as usize];
            let user = server.user_of(session);
            let cmd = match dice.roll(12) {
                0 => ClientCommand::CreateRoom { id: room_id(dice.roll(4)) },
                1 | 2 => ClientCommand::JoinRoom { id: room_id(dice.roll(4)), monitor: false },
                3 => ClientCommand::JoinRoom { id: room_id(dice.roll(4)), monitor: true },
                4 => ClientCommand::LeaveRoom,
                5 => ClientCommand::SelectChart { id: 1 },
                6 => ClientCommand::RequestStart,
                7 => ClientCommand::Ready,
                8 => ClientCommand::CancelReady,
                9 => ClientCommand::Played { id: 1 },
                10 => ClientCommand::Abort,
                _ => ClientCommand::CycleRoom { cycle: dice.roll(2) == 0 },
            };
            match (server.receive(session, cmd, step, &mut out), user) {
                (Outcome::FetchChart { id }, Some(user)) => {
                    server.chart_fetched(user, Ok(Chart { id, name: "c".to_owned() }), &mut out);
                }
                (Outcome::FetchRecord { .. }, Some(user)) => {
                    server.record_fetched(user, Ok(record(user)), &mut out);
                }
                _ => {}
            }
        }
        for delivery in &out {
            for user in &delivery.to {
                assert!(delivery.to.iter().filter(|other| *other == user).count() == 1);
            }
        }
        check(&server);
    }
    assert!(!server.rooms.is_empty() || !server.users.is_empty());
}
