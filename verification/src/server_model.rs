//! The mathematical server: who is known, which rooms there are and which
//! connections are open, and what each request makes of them.

use crate::command::{
    ClientCommandModel, ClientRoomStateModel, JoinRoomResponseModel, MessageModel,
    ServerCommandModel, UserInfoModel,
};
use crate::room::{
    keeps_room, member_infos, note, ChartModel, DeliveryModel, MemberModel, Phase, Record,
    RoomError, RoomModel, Step,
};
use vstd::prelude::*;

verus! {

/// A user that the server knows.
pub struct UserModel {
    pub id: i32,
    pub name: Seq<char>,
    pub lang: Seq<char>,
    pub session: Option<u128>,
    pub room: Option<Seq<char>>,
    pub monitor: bool,
    pub dangle_mark: Option<u64>,
}

impl UserModel {
    /// What others are told of the user.
    pub open spec fn to_info(self) -> UserInfoModel {
        UserInfoModel { id: self.id, name: self.name, monitor: self.monitor }
    }
}

/// An open connection.
pub struct SessionModel {
    pub id: u128,
    pub version: u8,
    pub user: Option<i32>,
    pub waiting_for_authenticate: bool,
    pub panicked: bool,
    pub last_recv: u64,
}

/// What the identity service says of a token's owner.
pub struct IdentityModel {
    pub id: i32,
    pub name: Seq<char>,
    pub language: Seq<char>,
}

/// What the caller of the server has to do after a step.
pub enum OutcomeModel {
    /// Nothing is sent to the requester.
    Nothing,
    /// The answer goes to the requester.
    Reply(ServerCommandModel),
    /// The answer goes to the requester, and the connection is reported
    /// lost.
    Reject(ServerCommandModel),
    /// The identity service is asked for the owner of a token.
    FetchUser { token: Seq<char> },
    /// The chart service is asked for a chart.
    FetchChart { id: i32 },
    /// The score service is asked for a record.
    FetchRecord { id: i32 },
}

/// What the caller has to do after a connection was lost.
pub enum DangleModel {
    /// Nothing.
    Nothing,
    /// Wait for the grace interval, then report that it has run out.
    Grace { user: i32, mark: u64 },
}

/// The answer to a request that carries nothing or a reason.
pub open spec fn answer(res: Result<(), RoomError>) -> Result<(), Seq<char>> {
    match res {
        Ok(_) => Ok(()),
        Err(why) => Err(why.reason()),
    }
}

/// The users with the room of everyone in a given room unset.
pub open spec fn cleared(users: Map<i32, UserModel>, room: Seq<char>) -> Map<i32, UserModel> {
    Map::new(
        |id: i32| users.contains_key(id),
        |id: i32|
            if users[id].room == Some(room) {
                UserModel { room: None, ..users[id] }
            } else {
                users[id]
            },
    )
}

/// The mathematical server.
pub struct ServerModel {
    pub users: Map<i32, UserModel>,
    pub rooms: Map<Seq<char>, RoomModel>,
    pub sessions: Map<u128, SessionModel>,
    pub monitors: Seq<i32>,
    pub next_mark: u64,
}

impl ServerModel {
    /// What holds of every server: each user and room is filed under its
    /// own id; each room is well-formed and has a host; a user's room is a
    /// room that lists the user, among the monitors or the players as the
    /// user's flag says; and whoever a room lists is a user of that room.
    pub open spec fn wf(self) -> bool {
        &&& forall|id: i32| #[trigger] self.users.contains_key(id) ==> self.users[id].id == id
        &&& forall|r: Seq<char>| #[trigger]
            self.rooms.contains_key(r) ==> self.rooms[r].id == r && self.rooms[r].wf()
                && self.rooms[r].host is Some
        &&& forall|id: i32| #[trigger]
            self.users.contains_key(id) ==> match self.users[id].room {
                Some(r) => self.rooms.contains_key(r) && self.rooms[r].holds(
                    id,
                    self.users[id].monitor,
                ),
                None => true,
            }
        &&& forall|r: Seq<char>, x: i32|
            self.rooms.contains_key(r) && #[trigger] self.rooms[r].audience().contains(x)
                ==> self.users.contains_key(x) && self.users[x].room == Some(r)
    }

    /// A request that changes nothing.
    pub open spec fn idle(self, outcome: OutcomeModel) -> (
        ServerModel,
        Seq<DeliveryModel>,
        OutcomeModel,
    ) {
        (self, Seq::empty(), outcome)
    }

    /// The server with one room replaced.
    pub open spec fn with_room(self, room: RoomModel) -> ServerModel {
        ServerModel { rooms: self.rooms.insert(room.id, room), ..self }
    }

    /// The server with one user replaced.
    pub open spec fn with_user(self, user: UserModel) -> ServerModel {
        ServerModel { users: self.users.insert(user.id, user), ..self }
    }

    /// Whether a user may watch rooms.
    pub open spec fn can_monitor(self, user: i32) -> bool {
        self.monitors.contains(user)
    }

    /// A user makes a room and is its host.
    pub open spec fn create_room(self, user: i32, id: Seq<char>) -> (
        ServerModel,
        Seq<DeliveryModel>,
        Result<(), RoomError>,
    ) {
        let u = self.users[user];
        if u.room is Some {
            (self, Seq::empty(), Err(RoomError::AlreadyInRoom))
        } else if self.rooms.contains_key(id) {
            (self, Seq::empty(), Err(RoomError::IdOccupied))
        } else {
            let room = RoomModel {
                id,
                host: Some(user),
                phase: Phase::SelectChart,
                live: false,
                locked: false,
                cycle: false,
                users: seq![MemberModel { id: user, name: u.name, game_time: 0 }],
                monitors: Seq::empty(),
                chart: None,
            };
            (
                self.with_room(room).with_user(UserModel { room: Some(id), monitor: false, ..u }),
                seq![room.to_all(note(MessageModel::CreateRoom { user }))],
                Ok(()),
            )
        }
    }

    /// Why a user cannot join a room, if it cannot.
    pub open spec fn join_refusal(self, user: i32, id: Seq<char>, monitor: bool) -> Option<
        RoomError,
    > {
        let u = self.users[user];
        if u.room is Some {
            Some(RoomError::AlreadyInRoom)
        } else if !self.rooms.contains_key(id) {
            Some(RoomError::RoomNotFound)
        } else if self.rooms[id].locked {
            Some(RoomError::RoomLocked)
        } else if !(self.rooms[id].phase is SelectChart) {
            Some(RoomError::GameOngoing)
        } else if monitor && !self.can_monitor(user) {
            Some(RoomError::CantMonitor)
        } else if !monitor && self.rooms[id].users.len() >= crate::room::ROOM_MAX_USERS {
            Some(RoomError::RoomFull)
        } else {
            None
        }
    }

    /// The room that a user has joined.
    pub open spec fn joined_room(self, user: i32, id: Seq<char>, monitor: bool) -> RoomModel {
        self.rooms[id].add_user(
            MemberModel { id: user, name: self.users[user].name, game_time: 0 },
            monitor,
        ).0
    }

    /// A user joins a room, as a player or as a monitor. Everyone in the
    /// room, the newcomer included, is told; the newcomer gets the room's
    /// state and members.
    pub open spec fn join_room(self, user: i32, id: Seq<char>, monitor: bool) -> (
        ServerModel,
        Seq<DeliveryModel>,
        Result<JoinRoomResponseModel, RoomError>,
    ) {
        match self.join_refusal(user, id, monitor) {
            Some(why) => (self, Seq::empty(), Err(why)),
            None => {
                let u = UserModel { room: Some(id), monitor, ..self.users[user] };
                let room = self.joined_room(user, id, monitor);
                (
                    self.with_room(room).with_user(u),
                    seq![
                        room.to_all(ServerCommandModel::OnJoinRoom(u.to_info())),
                        room.to_all(note(MessageModel::JoinRoom { user, name: u.name })),
                    ],
                    Ok(
                        JoinRoomResponseModel {
                            state: room.public_state(),
                            users: member_infos(room.users, false) + member_infos(
                                room.monitors,
                                true,
                            ),
                            live: room.live,
                        },
                    ),
                )
            },
        }
    }

    /// Whether a successor is one for the room that a user is about to
    /// leave: one of the players that stay, where the host's role passes on.
    pub open spec fn fit_successor(self, user: i32, successor: i32) -> bool {
        let u = self.users[user];
        match u.room {
            Some(r) => self.rooms[r].needs_successor(user, u.monitor) ==> self.rooms[r].remove_user(
                user,
                u.monitor,
            ).user_ids().contains(successor),
            None => true,
        }
    }

    /// A user leaves its room. A room that ends goes, and whoever was
    /// still in it is in no room.
    pub open spec fn leave_room(self, user: i32, successor: i32) -> (
        ServerModel,
        Seq<DeliveryModel>,
        Result<(), RoomError>,
    ) {
        let u = self.users[user];
        match u.room {
            None => (self, Seq::empty(), Err(RoomError::NoRoom)),
            Some(r) => {
                let (after, sent, ended) = self.rooms[r].leave(user, u.name, u.monitor, successor);
                if ended {
                    (
                        ServerModel {
                            rooms: self.rooms.remove(r),
                            users: cleared(self.users, r),
                            ..self
                        },
                        sent,
                        Ok(()),
                    )
                } else {
                    (
                        self.with_room(after).with_user(UserModel { room: None, ..u }),
                        sent,
                        Ok(()),
                    )
                }
            },
        }
    }

    /// A request to the room of a user: the room takes the step, or the
    /// user is in no room.
    pub open spec fn in_room(self, user: i32, step: spec_fn(RoomModel) -> Step) -> (
        ServerModel,
        Seq<DeliveryModel>,
        Result<(), RoomError>,
    ) {
        match self.users[user].room {
            None => (self, Seq::empty(), Err(RoomError::NoRoom)),
            Some(r) => {
                let (after, sent, res) = step(self.rooms[r]);
                (self.with_room(after), sent, res)
            },
        }
    }
}

/// The length of the tokens that the identity service takes, in bytes.
pub const TOKEN_LENGTH: usize = 32;

impl ServerModel {
    /// What a request of an authenticated user makes of the server: the
    /// server afterwards, what is sent to whom, and what the requester
    /// gets or the caller has to fetch. `successor` is the player that
    /// becomes host where the request makes the host leave.
    pub open spec fn process(self, user: i32, cmd: ClientCommandModel, successor: i32) -> (
        ServerModel,
        Seq<DeliveryModel>,
        OutcomeModel,
    ) {
        let room = self.users[user].room;
        match cmd {
            ClientCommandModel::Ping => self.idle(OutcomeModel::Reply(ServerCommandModel::Pong)),
            ClientCommandModel::Authenticate { .. } => self.idle(
                OutcomeModel::Reply(
                    ServerCommandModel::Authenticate(
                        Err(RoomError::RepeatedAuthenticate.reason()),
                    ),
                ),
            ),
            ClientCommandModel::Chat { message } => match room {
                None => self.idle(
                    OutcomeModel::Reply(ServerCommandModel::Chat(Err(RoomError::NoRoom.reason()))),
                ),
                Some(r) => (
                    self,
                    seq![
                        self.rooms[r].to_all(note(MessageModel::Chat { user, content: message })),
                    ],
                    OutcomeModel::Reply(ServerCommandModel::Chat(Ok(()))),
                ),
            },
            ClientCommandModel::Touches { frames } => match room {
                None => self.idle(OutcomeModel::Nothing),
                Some(r) => {
                    let (after, sent) = self.rooms[r].touches(user, frames);
                    (self.with_room(after), sent, OutcomeModel::Nothing)
                },
            },
            ClientCommandModel::Judges { judges } => match room {
                None => self.idle(OutcomeModel::Nothing),
                Some(r) => (self, self.rooms[r].judges(user, judges), OutcomeModel::Nothing),
            },
            ClientCommandModel::CreateRoom { id } => {
                let (after, sent, res) = self.create_room(user, id);
                (after, sent, OutcomeModel::Reply(ServerCommandModel::CreateRoom(answer(res))))
            },
            ClientCommandModel::JoinRoom { id, monitor } => {
                let (after, sent, res) = self.join_room(user, id, monitor);
                (
                    after,
                    sent,
                    OutcomeModel::Reply(
                        ServerCommandModel::JoinRoom(
                            match res {
                                Ok(resp) => Ok(resp),
                                Err(why) => Err(why.reason()),
                            },
                        ),
                    ),
                )
            },
            ClientCommandModel::LeaveRoom => {
                let (after, sent, res) = self.leave_room(user, successor);
                (after, sent, OutcomeModel::Reply(ServerCommandModel::LeaveRoom(answer(res))))
            },
            ClientCommandModel::LockRoom { lock } => {
                let (after, sent, res) = self.in_room(
                    user,
                    |room: RoomModel| room.lock_room(user, lock),
                );
                (after, sent, OutcomeModel::Reply(ServerCommandModel::LockRoom(answer(res))))
            },
            ClientCommandModel::CycleRoom { cycle } => {
                let (after, sent, res) = self.in_room(
                    user,
                    |room: RoomModel| room.cycle_room(user, cycle),
                );
                (after, sent, OutcomeModel::Reply(ServerCommandModel::CycleRoom(answer(res))))
            },
            ClientCommandModel::SelectChart { id } => match room {
                None => self.idle(
                    OutcomeModel::Reply(
                        ServerCommandModel::SelectChart(Err(RoomError::NoRoom.reason())),
                    ),
                ),
                Some(r) => match self.rooms[r].may_select_chart(user) {
                    Err(why) => self.idle(
                        OutcomeModel::Reply(ServerCommandModel::SelectChart(Err(why.reason()))),
                    ),
                    Ok(_) => self.idle(OutcomeModel::FetchChart { id }),
                },
            },
            ClientCommandModel::RequestStart => {
                let (after, sent, res) = self.in_room(
                    user,
                    |room: RoomModel| room.request_start(user),
                );
                (after, sent, OutcomeModel::Reply(ServerCommandModel::RequestStart(answer(res))))
            },
            ClientCommandModel::Ready => {
                let (after, sent, res) = self.in_room(user, |room: RoomModel| room.ready(user));
                (after, sent, OutcomeModel::Reply(ServerCommandModel::Ready(answer(res))))
            },
            ClientCommandModel::CancelReady => {
                let (after, sent, res) = self.in_room(
                    user,
                    |room: RoomModel| room.cancel_ready(user),
                );
                (after, sent, OutcomeModel::Reply(ServerCommandModel::CancelReady(answer(res))))
            },
            ClientCommandModel::Played { id } => match room {
                None => self.idle(
                    OutcomeModel::Reply(ServerCommandModel::Played(Err(RoomError::NoRoom.reason()))),
                ),
                Some(r) => match self.rooms[r].may_play() {
                    Err(why) => self.idle(
                        OutcomeModel::Reply(ServerCommandModel::Played(Err(why.reason()))),
                    ),
                    Ok(_) => self.idle(OutcomeModel::FetchRecord { id }),
                },
            },
            ClientCommandModel::Abort => {
                let (after, sent, res) = self.in_room(user, |room: RoomModel| room.abort(user));
                (after, sent, OutcomeModel::Reply(ServerCommandModel::Abort(answer(res))))
            },
        }
    }

    /// What the answer of the chart service makes of the server: the
    /// service's failure is passed on; a chart is selected if the request
    /// still stands.
    pub open spec fn chart_fetched(self, user: i32, fetched: Result<ChartModel, Seq<char>>) -> (
        ServerModel,
        Seq<DeliveryModel>,
        ServerCommandModel,
    ) {
        match fetched {
            Err(reason) => (self, Seq::empty(), ServerCommandModel::SelectChart(Err(reason))),
            Ok(chart) => {
                let (after, sent, res) = self.in_room(
                    user,
                    |room: RoomModel| room.select_chart(user, chart),
                );
                (after, sent, ServerCommandModel::SelectChart(answer(res)))
            },
        }
    }

    /// What the answer of the score service makes of the server.
    pub open spec fn record_fetched(self, user: i32, fetched: Result<Record, Seq<char>>) -> (
        ServerModel,
        Seq<DeliveryModel>,
        ServerCommandModel,
    ) {
        match fetched {
            Err(reason) => (self, Seq::empty(), ServerCommandModel::Played(Err(reason))),
            Ok(record) => {
                let (after, sent, res) = self.in_room(
                    user,
                    |room: RoomModel| room.played(user, record),
                );
                (after, sent, ServerCommandModel::Played(answer(res)))
            },
        }
    }

    /// The server with one connection replaced.
    pub open spec fn with_session(self, session: SessionModel) -> ServerModel {
        ServerModel { sessions: self.sessions.insert(session.id, session), ..self }
    }

    /// An identifier as a candidate for a new connection: the identifier
    /// itself where no connection has it, nothing where one has.
    pub open spec fn vacant(self, id: u128) -> Option<u128> {
        if self.sessions.contains_key(id) {
            None
        } else {
            Some(id)
        }
    }

    /// A connection is accepted: it is filed, waiting for its owner to
    /// authenticate. An id that is taken is refused.
    pub open spec fn accept(self, id: u128, version: u8, now: u64) -> (ServerModel, bool) {
        if self.sessions.contains_key(id) {
            (self, false)
        } else {
            (
                self.with_session(
                    SessionModel {
                        id,
                        version,
                        user: None,
                        waiting_for_authenticate: true,
                        panicked: false,
                        last_recv: now,
                    },
                ),
                true,
            )
        }
    }

    /// What a command that arrives on a connection makes of the server. The
    /// time of arrival is noted. A connection that has failed is deaf. A
    /// ping is answered in any phase. Before authentication only a token
    /// counts: one of the right length is looked up, another fails the
    /// connection. Afterwards the command is the user's request.
    pub open spec fn receive(
        self,
        session: u128,
        cmd: ClientCommandModel,
        now: u64,
        successor: i32,
    ) -> (ServerModel, Seq<DeliveryModel>, OutcomeModel) {
        if !self.sessions.contains_key(session) {
            self.idle(OutcomeModel::Nothing)
        } else {
            let s = SessionModel { last_recv: now, ..self.sessions[session] };
            let noted = self.with_session(s);
            if s.panicked {
                noted.idle(OutcomeModel::Nothing)
            } else if cmd is Ping {
                noted.idle(OutcomeModel::Reply(ServerCommandModel::Pong))
            } else if s.waiting_for_authenticate {
                match cmd {
                    ClientCommandModel::Authenticate { token } => if vstd::utf8::encode_utf8(
                        token,
                    ).len() != TOKEN_LENGTH {
                        noted.with_session(SessionModel { panicked: true, ..s }).idle(
                            OutcomeModel::Reject(
                                ServerCommandModel::Authenticate(
                                    Err(RoomError::InvalidToken.reason()),
                                ),
                            ),
                        )
                    } else {
                        noted.idle(OutcomeModel::FetchUser { token })
                    },
                    _ => noted.idle(OutcomeModel::Nothing),
                }
            } else {
                match s.user {
                    Some(user) => if noted.users.contains_key(user) {
                        noted.process(user, cmd, successor)
                    } else {
                        noted.idle(OutcomeModel::Nothing)
                    },
                    None => noted.idle(OutcomeModel::Nothing),
                }
            }
        }
    }

    /// A connection has failed: it is deaf from now on.
    pub open spec fn failed(self, session: u128) -> ServerModel {
        if self.sessions.contains_key(session) {
            self.with_session(SessionModel { panicked: true, ..self.sessions[session] })
        } else {
            self
        }
    }

    /// The room of a user as the user sees it, if the user is in one.
    pub open spec fn room_state_of(self, user: i32) -> Option<ClientRoomStateModel> {
        match self.users[user].room {
            Some(r) => Some(self.rooms[r].client_state(user)),
            None => None,
        }
    }

    /// What the answer of the identity service makes of the server. A
    /// failure fails the connection. An owner that the server knows gets
    /// this connection, and a pending grace interval is off; an unknown one
    /// becomes a user. The requester is told who it is and where it is.
    pub open spec fn authenticated(
        self,
        session: u128,
        fetched: Result<IdentityModel, Seq<char>>,
    ) -> (ServerModel, OutcomeModel) {
        if !self.sessions.contains_key(session) {
            (self, OutcomeModel::Nothing)
        } else {
            let s = self.sessions[session];
            match fetched {
                Err(_) => (
                    self.with_session(SessionModel { panicked: true, ..s }),
                    OutcomeModel::Reject(
                        ServerCommandModel::Authenticate(Err(RoomError::FetchFailed.reason())),
                    ),
                ),
                Ok(who) => {
                    let user = if self.users.contains_key(who.id) {
                        UserModel {
                            session: Some(session),
                            dangle_mark: None,
                            ..self.users[who.id]
                        }
                    } else {
                        UserModel {
                            id: who.id,
                            name: who.name,
                            lang: who.language,
                            session: Some(session),
                            room: None,
                            monitor: false,
                            dangle_mark: None,
                        }
                    };
                    let after = self.with_user(user).with_session(
                        SessionModel { user: Some(who.id), waiting_for_authenticate: false, ..s },
                    );
                    (
                        after,
                        OutcomeModel::Reply(
                            ServerCommandModel::Authenticate(
                                Ok((user.to_info(), after.room_state_of(who.id))),
                            ),
                        ),
                    )
                },
            }
        }
    }

    /// A user is taken off the server: out of its room first, if it is in
    /// one.
    pub open spec fn drop_user(self, user: i32, successor: i32) -> (
        ServerModel,
        Seq<DeliveryModel>,
    ) {
        let (left, sent, _) = self.leave_room(user, successor);
        (ServerModel { users: left.users.remove(user), ..left }, sent)
    }

    /// Whether a user is in a room that is playing.
    pub open spec fn is_playing(self, user: i32) -> bool {
        match self.users[user].room {
            Some(r) => self.rooms[r].phase is Playing,
            None => false,
        }
    }

    /// A user loses its connection. In the middle of a round that is the
    /// end for the user. Else the user gets a mark and a grace interval.
    pub open spec fn dangle(self, user: i32, successor: i32) -> (
        ServerModel,
        Seq<DeliveryModel>,
        DangleModel,
    ) {
        let u = UserModel { session: None, ..self.users[user] };
        let cut = self.with_user(u);
        if cut.is_playing(user) {
            let (after, sent) = cut.drop_user(user, successor);
            (after, sent, DangleModel::Nothing)
        } else {
            let mark = self.next_mark;
            (
                ServerModel {
                    next_mark: if mark == u64::MAX {
                        0
                    } else {
                        (mark + 1) as u64
                    },
                    ..cut.with_user(UserModel { dangle_mark: Some(mark), ..u })
                },
                Seq::empty(),
                DangleModel::Grace { user, mark },
            )
        }
    }

    /// A connection is reported lost: it is taken off the server, and its
    /// user, if the user still has this connection, dangles.
    pub open spec fn lost_connection(self, session: u128, successor: i32) -> (
        ServerModel,
        Seq<DeliveryModel>,
        DangleModel,
    ) {
        if !self.sessions.contains_key(session) {
            (self, Seq::empty(), DangleModel::Nothing)
        } else {
            let closed = ServerModel { sessions: self.sessions.remove(session), ..self };
            match self.sessions[session].user {
                Some(user) => if closed.users.contains_key(user) && closed.users[user].session
                    == Some(session) {
                    closed.dangle(user, successor)
                } else {
                    (closed, Seq::empty(), DangleModel::Nothing)
                },
                None => (closed, Seq::empty(), DangleModel::Nothing),
            }
        }
    }

    /// A grace interval has run out: a user that still carries the
    /// interval's mark is taken off the server.
    pub open spec fn dangle_expired(self, user: i32, mark: u64, successor: i32) -> (
        ServerModel,
        Seq<DeliveryModel>,
    ) {
        if self.users.contains_key(user) && self.users[user].dangle_mark == Some(mark) {
            self.drop_user(user, successor)
        } else {
            (self, Seq::empty())
        }
    }
}

/// A step of a room that keeps its members keeps the server well-formed.
pub proof fn lemma_room_step(s: ServerModel, r: Seq<char>, after: RoomModel)
    requires
        s.wf(),
        s.rooms.contains_key(r),
        keeps_room(s.rooms[r], after),
    ensures
        s.with_room(after).wf(),
        s.with_room(after).rooms == s.rooms.insert(r, after),
{
    let before = s.rooms[r];
    let t = s.with_room(after);
    assert(after.id == r);
    assert(before.users.len() == before.user_ids().len());
    assert(after.users.len() == after.user_ids().len());
    assert(before.audience() == after.audience());
    assert forall|q: Seq<char>| #[trigger] t.rooms.contains_key(q) implies t.rooms[q].id == q
        && t.rooms[q].wf() && t.rooms[q].host is Some by {
        if q != r {
            assert(s.rooms.contains_key(q));
        }
    }
    assert forall|id: i32| #[trigger] t.users.contains_key(id) implies match t.users[id].room {
        Some(q) => t.rooms.contains_key(q) && t.rooms[q].holds(id, t.users[id].monitor),
        None => true,
    } by {
        assert(s.users.contains_key(id));
    }
    assert forall|q: Seq<char>, x: i32|
        t.rooms.contains_key(q) && #[trigger] t.rooms[q].audience().contains(
            x,
        ) implies t.users.contains_key(x) && t.users[x].room == Some(q) by {
        if q != r {
            assert(s.rooms.contains_key(q) && s.rooms[q].audience().contains(x));
        } else {
            assert(s.rooms.contains_key(r) && s.rooms[r].audience().contains(x));
        }
    }
}

/// A user in no room is listed by no room.
pub proof fn lemma_roomless(s: ServerModel, user: i32)
    requires
        s.wf(),
        s.users.contains_key(user),
        s.users[user].room is None,
    ensures
        forall|r: Seq<char>| #[trigger]
            s.rooms.contains_key(r) ==> !s.rooms[r].audience().contains(user),
{
    assert forall|r: Seq<char>| #[trigger] s.rooms.contains_key(r) implies !s.rooms[r].audience().contains(
        user,
    ) by {
        if s.rooms[r].audience().contains(user) {
            assert(s.users[user].room == Some(r));
        }
    }
}

/// Making a room keeps the server well-formed.
pub proof fn lemma_create_room(s: ServerModel, user: i32, id: Seq<char>)
    requires
        s.wf(),
        s.users.contains_key(user),
    ensures
        s.create_room(user, id).0.wf(),
{
    if s.users[user].room is None && !s.rooms.contains_key(id) {
        let t = s.create_room(user, id).0;
        let room = t.rooms[id];
        lemma_roomless(s, user);
        assert(room.audience() =~= seq![user]);
        assert(room.user_ids() =~= seq![user]);
        assert(room.user_ids()[0] == user);
        assert(room.wf());
        assert forall|q: Seq<char>| #[trigger] t.rooms.contains_key(q) implies t.rooms[q].id == q
            && t.rooms[q].wf() && t.rooms[q].host is Some by {
            if q != id {
                assert(s.rooms.contains_key(q));
            }
        }
        assert forall|x: i32| #[trigger] t.users.contains_key(x) implies match t.users[x].room {
            Some(q) => t.rooms.contains_key(q) && t.rooms[q].holds(x, t.users[x].monitor),
            None => true,
        } by {
            if x != user {
                assert(s.users.contains_key(x));
            }
        }
        assert forall|q: Seq<char>, x: i32|
            t.rooms.contains_key(q) && #[trigger] t.rooms[q].audience().contains(
                x,
            ) implies t.users.contains_key(x) && t.users[x].room == Some(q) by {
            if q != id {
                assert(s.rooms.contains_key(q) && s.rooms[q].audience().contains(x));
            } else {
                assert(room.audience()[0] == user);
            }
        }
    }
}

/// Joining a room keeps the server well-formed.
pub proof fn lemma_join_room(s: ServerModel, user: i32, id: Seq<char>, monitor: bool)
    requires
        s.wf(),
        s.users.contains_key(user),
    ensures
        s.join_room(user, id, monitor).0.wf(),
        s.join_refusal(user, id, monitor) is None ==> !s.rooms[id].audience().contains(user),
{
    if s.join_refusal(user, id, monitor) is None {
        let t = s.join_room(user, id, monitor).0;
        let before = s.rooms[id];
        let room = s.joined_room(user, id, monitor);
        lemma_roomless(s, user);
        if monitor {
            assert(room.monitor_ids() =~= before.monitor_ids().push(user));
            assert(room.user_ids() =~= before.user_ids());
            assert(room.audience() =~= before.audience().push(user));
            assert(before.audience() + Seq::<i32>::empty() =~= before.audience());
            assert(room.audience() =~= before.audience().push(user) + Seq::<i32>::empty());
            crate::room::lemma_insert_before(before.audience(), Seq::empty(), user);
            assert(room.monitor_ids()[before.monitors.len() as int] == user);
        } else {
            assert(room.user_ids() =~= before.user_ids().push(user));
            assert(room.monitor_ids() =~= before.monitor_ids());
            assert(room.audience() =~= before.user_ids().push(user) + before.monitor_ids());
            crate::room::lemma_insert_before(before.user_ids(), before.monitor_ids(), user);
            assert(room.user_ids()[before.users.len() as int] == user);
            let h = before.host->Some_0;
            let k = choose|k: int| 0 <= k < before.user_ids().len() && before.user_ids()[k] == h;
            assert(room.user_ids()[k] == h);
        }
        assert(room.wf());
        assert forall|x: i32| room.audience().contains(x) implies x == user
            || before.audience().contains(x) by {
            let k = choose|k: int| 0 <= k < room.audience().len() && room.audience()[k] == x;
            if monitor {
                if k < before.audience().len() {
                    assert(before.audience()[k] == x);
                }
            } else {
                if k < before.users.len() {
                    assert(before.audience()[k] == x);
                } else if k > before.users.len() {
                    assert(before.audience()[k - 1] == x);
                }
            }
        }
        assert forall|x: i32| before.user_ids().contains(x) implies room.user_ids().contains(
            x,
        ) by {
            let k = choose|k: int| 0 <= k < before.user_ids().len() && before.user_ids()[k] == x;
            assert(room.user_ids()[k] == x);
        }
        assert forall|x: i32| before.monitor_ids().contains(x) implies room.monitor_ids().contains(
            x,
        ) by {
            let k = choose|k: int|
                0 <= k < before.monitor_ids().len() && before.monitor_ids()[k] == x;
            assert(room.monitor_ids()[k] == x);
        }
        assert forall|q: Seq<char>| #[trigger] t.rooms.contains_key(q) implies t.rooms[q].id == q
            && t.rooms[q].wf() && t.rooms[q].host is Some by {
            if q != id {
                assert(s.rooms.contains_key(q));
            }
        }
        assert forall|x: i32| #[trigger] t.users.contains_key(x) implies match t.users[x].room {
            Some(q) => t.rooms.contains_key(q) && t.rooms[q].holds(x, t.users[x].monitor),
            None => true,
        } by {
            if x != user {
                assert(s.users.contains_key(x));
            }
        }
        assert forall|q: Seq<char>, x: i32|
            t.rooms.contains_key(q) && #[trigger] t.rooms[q].audience().contains(
                x,
            ) implies t.users.contains_key(x) && t.users[x].room == Some(q) by {
            if q != id {
                assert(s.rooms.contains_key(q) && s.rooms[q].audience().contains(x));
            } else if x != user {
                assert(s.rooms.contains_key(id) && s.rooms[id].audience().contains(x));
            }
        }
    }
}

/// Leaving a room keeps the server well-formed.
pub proof fn lemma_leave_room(s: ServerModel, user: i32, successor: i32)
    requires
        s.wf(),
        s.users.contains_key(user),
        s.fit_successor(user, successor),
    ensures
        s.leave_room(user, successor).0.wf(),
        s.leave_room(user, successor).0.users.dom() == s.users.dom(),
        s.leave_room(user, successor).0.users[user].room is None,
{
    let u = s.users[user];
    match u.room {
        None => {},
        Some(r) => {
            let before = s.rooms[r];
            let (after, sent, ended) = before.leave(user, u.name, u.monitor, successor);
            let t = s.leave_room(user, successor).0;
            crate::room::lemma_leave_wf(before, user, u.name, u.monitor, successor);
            assert(t.users.dom() =~= s.users.dom());
            assert forall|q: Seq<char>| #[trigger] t.rooms.contains_key(q) implies t.rooms[q].id
                == q && t.rooms[q].wf() && t.rooms[q].host is Some by {
                if q != r {
                    assert(s.rooms.contains_key(q));
                } else {
                    assert(!ended);
                    crate::room::lemma_remove_user(before, user, u.monitor);
                    lemma_host_kept(before, user, u.name, u.monitor, successor);
                }
            }
            assert forall|x: i32| #[trigger] t.users.contains_key(x) implies match t.users[x].room {
                Some(q) => t.rooms.contains_key(q) && t.rooms[q].holds(x, t.users[x].monitor),
                None => true,
            } by {
                assert(s.users.contains_key(x));
                if ended {
                    match s.users[x].room {
                        Some(q) => {
                            if q != r {
                                assert(s.rooms.contains_key(q));
                            }
                        },
                        None => {},
                    }
                } else if x != user {
                    match s.users[x].room {
                        Some(q) => {
                            if q == r {
                                lemma_others_stay(
                                    before,
                                    user,
                                    u.name,
                                    u.monitor,
                                    successor,
                                    x,
                                    s.users[x].monitor,
                                );
                            }
                        },
                        None => {},
                    }
                }
            }
            assert forall|q: Seq<char>, x: i32|
                t.rooms.contains_key(q) && #[trigger] t.rooms[q].audience().contains(
                    x,
                ) implies t.users.contains_key(x) && t.users[x].room == Some(q) by {
                if q != r {
                    assert(s.rooms.contains_key(q) && s.rooms[q].audience().contains(x));
                    assert(s.users[x].room == Some(q));
                } else {
                    assert(x != user);
                    assert(before.audience().contains(x));
                }
            }
        },
    }
}

/// A room that goes on after a member left has a host.
pub proof fn lemma_host_kept(
    room: RoomModel,
    user: i32,
    name: Seq<char>,
    monitor: bool,
    successor: i32,
)
    requires
        room.wf(),
        room.host is Some,
        room.holds(user, monitor),
        room.needs_successor(user, monitor) ==> room.remove_user(user, monitor).user_ids().contains(
            successor,
        ),
        !room.leave(user, name, monitor, successor).2,
    ensures
        room.leave(user, name, monitor, successor).0.host is Some,
{
    let after = room.leave(user, name, monitor, successor).0;
    crate::room::lemma_leave_wf(room, user, name, monitor, successor);
    crate::room::lemma_remove_user(room, user, monitor);
    let left = room.remove_user(user, monitor);
    if room.host == Some(user) {
        let led = RoomModel { host: Some(successor), ..left };
        assert(led.check_all_ready().0.host is Some);
    } else {
        assert(left.check_all_ready().0.host is Some);
    }
}

/// Whoever else is in a room stays in its list when a member leaves.
pub proof fn lemma_others_stay(
    room: RoomModel,
    user: i32,
    name: Seq<char>,
    monitor: bool,
    successor: i32,
    other: i32,
    other_monitor: bool,
)
    requires
        room.wf(),
        room.holds(user, monitor),
        room.holds(other, other_monitor),
        other != user,
        room.needs_successor(user, monitor) ==> room.remove_user(user, monitor).user_ids().contains(
            successor,
        ),
    ensures
        room.leave(user, name, monitor, successor).0.holds(other, other_monitor),
{
    let left = room.remove_user(user, monitor);
    crate::room::lemma_remove_user(room, user, monitor);
    crate::room::lemma_parts_distinct(room.user_ids(), room.monitor_ids());
    crate::room::lemma_parts_distinct(left.user_ids(), left.monitor_ids());
    assert(left.holds(other, other_monitor)) by {
        if other_monitor {
            let k = choose|k: int| 0 <= k < room.monitor_ids().len() && room.monitor_ids()[k] == other;
            assert(room.audience()[room.user_ids().len() + k] == other);
            assert(room.audience().contains(other));
            assert(left.audience().contains(other));
            if !left.monitor_ids().contains(other) {
                let j = choose|j: int| 0 <= j < left.audience().len() && left.audience()[j] == other;
                assert(j < left.user_ids().len());
                assert(left.user_ids()[j] == other);
                assert(left.user_ids().contains(other));
                assert(room.user_ids().contains(other));
            }
        }
    }
    let after = room.leave(user, name, monitor, successor).0;
    if room.host == Some(user) {
        if left.users.len() == 0 {
            let gone = RoomModel { host: None, ..left };
            assert(gone.user_ids() =~= left.user_ids());
            assert(gone.monitor_ids() =~= left.monitor_ids());
        } else {
            let led = RoomModel { host: Some(successor), ..left };
            assert(led.audience() =~= left.audience());
            assert(led.user_ids() =~= left.user_ids());
            crate::room::lemma_check_all_ready_keeps(led);
        }
    } else {
        match room.host {
            Some(h) => {
                assert(left.user_ids().contains(h));
            },
            None => {},
        }
        crate::room::lemma_check_all_ready_keeps(left);
    }
}

/// A user that changes in connection and mark only leaves the server
/// well-formed.
pub proof fn lemma_touch_user(s: ServerModel, user: UserModel)
    requires
        s.wf(),
        s.users.contains_key(user.id),
        user.room == s.users[user.id].room,
        user.monitor == s.users[user.id].monitor,
    ensures
        s.with_user(user).wf(),
{
    let t = s.with_user(user);
    assert forall|id: i32| #[trigger] t.users.contains_key(id) implies match t.users[id].room {
        Some(r) => t.rooms.contains_key(r) && t.rooms[r].holds(id, t.users[id].monitor),
        None => true,
    } by {
        assert(s.users.contains_key(id));
    }
    assert forall|r: Seq<char>, x: i32|
        t.rooms.contains_key(r) && #[trigger] t.rooms[r].audience().contains(
            x,
        ) implies t.users.contains_key(x) && t.users[x].room == Some(r) by {
        assert(s.rooms.contains_key(r) && s.rooms[r].audience().contains(x));
    }
}

/// A new user in no room leaves the server well-formed.
pub proof fn lemma_new_user(s: ServerModel, user: UserModel)
    requires
        s.wf(),
        !s.users.contains_key(user.id),
        user.room is None,
    ensures
        s.with_user(user).wf(),
{
    let t = s.with_user(user);
    assert forall|id: i32| #[trigger] t.users.contains_key(id) implies match t.users[id].room {
        Some(r) => t.rooms.contains_key(r) && t.rooms[r].holds(id, t.users[id].monitor),
        None => true,
    } by {
        if id != user.id {
            assert(s.users.contains_key(id));
        }
    }
    assert forall|r: Seq<char>, x: i32|
        t.rooms.contains_key(r) && #[trigger] t.rooms[r].audience().contains(
            x,
        ) implies t.users.contains_key(x) && t.users[x].room == Some(r) by {
        assert(s.rooms.contains_key(r) && s.rooms[r].audience().contains(x));
    }
}

/// Taking a user off the server leaves it well-formed.
pub proof fn lemma_drop_user(s: ServerModel, user: i32, successor: i32)
    requires
        s.wf(),
        s.users.contains_key(user),
        s.fit_successor(user, successor),
    ensures
        s.drop_user(user, successor).0.wf(),
        !s.drop_user(user, successor).0.users.contains_key(user),
{
    let left = s.leave_room(user, successor).0;
    lemma_leave_room(s, user, successor);
    assert(left.users.dom().contains(user));
    lemma_roomless(left, user);
    let t = s.drop_user(user, successor).0;
    assert forall|id: i32| #[trigger] t.users.contains_key(id) implies match t.users[id].room {
        Some(r) => t.rooms.contains_key(r) && t.rooms[r].holds(id, t.users[id].monitor),
        None => true,
    } by {
        assert(left.users.contains_key(id));
    }
    assert forall|r: Seq<char>, x: i32|
        t.rooms.contains_key(r) && #[trigger] t.rooms[r].audience().contains(
            x,
        ) implies t.users.contains_key(x) && t.users[x].room == Some(r) by {
        assert(left.rooms.contains_key(r) && left.rooms[r].audience().contains(x));
    }
}

/// Whether a successor fits the user of a connection, if it has one that
/// the server knows.
pub open spec fn fit_for(s: ServerModel, session: u128, successor: i32) -> bool {
    s.sessions.contains_key(session) ==> match s.sessions[session].user {
        Some(user) => s.users.contains_key(user) ==> s.fit_successor(user, successor),
        None => true,
    }
}

/// A server that differs from a well-formed one in its connections and
/// its next mark only is well-formed.
pub proof fn lemma_same_rooms_and_users(s: ServerModel, t: ServerModel)
    requires
        s.wf(),
        t.users == s.users,
        t.rooms == s.rooms,
    ensures
        t.wf(),
        forall|user: i32, successor: i32|
            s.fit_successor(user, successor) ==> #[trigger] t.fit_successor(user, successor),
{
}

/// A lost connection leaves the server well-formed.
pub proof fn lemma_dangle(s: ServerModel, user: i32, successor: i32)
    requires
        s.wf(),
        s.users.contains_key(user),
        s.fit_successor(user, successor),
    ensures
        s.dangle(user, successor).0.wf(),
{
    let u = UserModel { session: None, ..s.users[user] };
    lemma_touch_user(s, u);
    let cut = s.with_user(u);
    assert(cut.fit_successor(user, successor));
    if cut.is_playing(user) {
        lemma_drop_user(cut, user, successor);
    } else {
        let marked = UserModel { dangle_mark: Some(s.next_mark), ..u };
        lemma_touch_user(cut, marked);
        lemma_same_rooms_and_users(cut.with_user(marked), s.dangle(user, successor).0);
    }
}

/// A connection reported lost leaves the server well-formed, and is
/// filed no more.
pub proof fn lemma_lost_connection(s: ServerModel, session: u128, successor: i32)
    requires
        s.wf(),
        fit_for(s, session, successor),
    ensures
        s.lost_connection(session, successor).0.wf(),
        !s.lost_connection(session, successor).0.sessions.contains_key(session),
{
    if s.sessions.contains_key(session) {
        let closed = ServerModel { sessions: s.sessions.remove(session), ..s };
        lemma_same_rooms_and_users(s, closed);
        match s.sessions[session].user {
            Some(user) => {
                if closed.users.contains_key(user) && closed.users[user].session == Some(session) {
                    lemma_dangle(closed, user, successor);
                }
            },
            None => {},
        }
    }
}

/// The answer of the identity service leaves the server well-formed, and
/// a user that the server knew stays the one user of its id.
pub proof fn lemma_authenticated(s: ServerModel, session: u128, fetched: Result<
    IdentityModel,
    Seq<char>,
>)
    requires
        s.wf(),
    ensures
        s.authenticated(session, fetched).0.wf(),
        forall|id: i32|
            s.users.contains_key(id) ==> #[trigger] s.authenticated(
                session,
                fetched,
            ).0.users.contains_key(id) && s.authenticated(session, fetched).0.users[id].room
                == s.users[id].room,
        s.authenticated(session, fetched).0.rooms == s.rooms,
{
    if s.sessions.contains_key(session) {
        let sess = s.sessions[session];
        match fetched {
            Err(_) => {
                lemma_same_rooms_and_users(s, s.authenticated(session, fetched).0);
            },
            Ok(who) => {
                if s.users.contains_key(who.id) {
                    let user = UserModel {
                        session: Some(session),
                        dangle_mark: None,
                        ..s.users[who.id]
                    };
                    lemma_touch_user(s, user);
                    lemma_same_rooms_and_users(
                        s.with_user(user),
                        s.authenticated(session, fetched).0,
                    );
                } else {
                    let user = UserModel {
                        id: who.id,
                        name: who.name,
                        lang: who.language,
                        session: Some(session),
                        room: None,
                        monitor: false,
                        dangle_mark: None,
                    };
                    lemma_new_user(s, user);
                    lemma_same_rooms_and_users(
                        s.with_user(user),
                        s.authenticated(session, fetched).0,
                    );
                }
            },
        }
    }
}

} // verus!
