//! The server's registries and the requests that change them.
//!
//! The server holds users, rooms and connections in lists without duplicate
//! keys. `ServerState` stands for the `ServerModel` that the lists are the
//! tables of, and each request is proved to do what the model's function of
//! the same name says.

use crate::command::{
    frames_model, infos_model, ClientCommand, ClientCommandModel, JoinRoomResponse, JudgeEvent,
    Message, RoomId, ServerCommand, TouchFrame, UserInfo,
};
use crate::registry::{
    lemma_table_at, lemma_table_push, lemma_table_remove, lemma_table_update, table,
};
use crate::room::{
    keeps_room, outbox, Chart, Delivery, DeliveryModel, InternalRoomState, Record, Room,
    RoomError, RoomModel,
};
use crate::server_model::{
    answer, cleared, lemma_create_room, lemma_join_room, lemma_leave_room, lemma_room_step,
    DangleModel, IdentityModel, OutcomeModel, ServerModel, SessionModel, UserModel,
};
use std::sync::Arc;
use vstd::prelude::*;

verus! {

/// A user that the server knows.
#[derive(Debug)]
pub struct User {
    pub id: i32,
    pub name: String,
    pub lang: String,
    pub session: Option<u128>,
    pub room: Option<RoomId>,
    pub monitor: bool,
    pub dangle_mark: Option<u64>,
}

impl View for User {
    type V = UserModel;

    open spec fn view(&self) -> UserModel {
        UserModel {
            id: self.id,
            name: self.name@,
            lang: self.lang@,
            session: self.session,
            room: match self.room {
                Some(r) => Some(r@),
                None => None,
            },
            monitor: self.monitor,
            dangle_mark: self.dangle_mark,
        }
    }
}

impl User {
    /// A user without connection and room.
    pub fn new(id: i32, name: String, lang: String) -> (user: Self)
        ensures
            user@ == (UserModel {
                id,
                name: name@,
                lang: lang@,
                session: None,
                room: None,
                monitor: false,
                dangle_mark: None,
            }),
    {
        User { id, name, lang, session: None, room: None, monitor: false, dangle_mark: None }
    }

    /// What others are told of the user.
    pub fn to_info(&self) -> (info: UserInfo)
        ensures
            info@ == self@.to_info(),
    {
        UserInfo { id: self.id, name: self.name.clone(), monitor: self.monitor }
    }

    /// Whether the user is among those that may watch rooms.
    pub fn can_monitor(&self, allowed: &Vec<i32>) -> (b: bool)
        ensures
            b == allowed@.contains(self.id),
    {
        let mut i: usize = 0;
        while i < allowed.len()
            invariant
                i <= allowed.len(),
                forall|j: int| 0 <= j < i ==> allowed@[j] != self.id,
            decreases allowed.len() - i,
        {
            if allowed[i] == self.id {
                return true;
            }
            i = i + 1;
        }
        false
    }

    /// Gives the user a connection; a pending grace interval is off.
    pub fn set_session(&mut self, session: u128)
        ensures
            final(self)@ == (UserModel {
                session: Some(session),
                dangle_mark: None,
                ..old(self)@
            }),
    {
        self.session = Some(session);
        self.dangle_mark = None;
    }
}

/// An open connection.
#[derive(Clone, Copy, Debug)]
pub struct Session {
    pub id: u128,
    pub version: u8,
    pub user: Option<i32>,
    pub waiting_for_authenticate: bool,
    pub panicked: bool,
    pub last_recv: u64,
}

impl View for Session {
    type V = SessionModel;

    open spec fn view(&self) -> SessionModel {
        SessionModel {
            id: self.id,
            version: self.version,
            user: self.user,
            waiting_for_authenticate: self.waiting_for_authenticate,
            panicked: self.panicked,
            last_recv: self.last_recv,
        }
    }
}

impl Session {
    /// A connection that waits for its owner to authenticate.
    pub fn new(id: u128, version: u8, now: u64) -> (s: Self)
        ensures
            s@ == (SessionModel {
                id,
                version,
                user: None,
                waiting_for_authenticate: true,
                panicked: false,
                last_recv: now,
            }),
    {
        Session {
            id,
            version,
            user: None,
            waiting_for_authenticate: true,
            panicked: false,
            last_recv: now,
        }
    }

    /// The protocol version that the peer announced.
    pub fn version(&self) -> (v: u8)
        ensures
            v == self@.version,
    {
        self.version
    }
}

/// What the identity service says of a token's owner.
#[derive(Debug)]
pub struct Identity {
    pub id: i32,
    pub name: String,
    pub language: String,
}

impl View for Identity {
    type V = IdentityModel;

    open spec fn view(&self) -> IdentityModel {
        IdentityModel { id: self.id, name: self.name@, language: self.language@ }
    }
}

/// What the caller of the server has to do after a step.
#[derive(Debug)]
pub enum Outcome {
    /// Nothing is sent to the requester.
    Nothing,
    /// The answer goes to the requester.
    Reply(ServerCommand),
    /// The answer goes to the requester, and the connection is reported
    /// lost.
    Reject(ServerCommand),
    /// The identity service is asked for the owner of a token.
    FetchUser { token: String },
    /// The chart service is asked for a chart.
    FetchChart { id: i32 },
    /// The score service is asked for a record.
    FetchRecord { id: i32 },
}

impl View for Outcome {
    type V = OutcomeModel;

    open spec fn view(&self) -> OutcomeModel {
        match self {
            Outcome::Nothing => OutcomeModel::Nothing,
            Outcome::Reply(cmd) => OutcomeModel::Reply(cmd@),
            Outcome::Reject(cmd) => OutcomeModel::Reject(cmd@),
            Outcome::FetchUser { token } => OutcomeModel::FetchUser { token: token@ },
            Outcome::FetchChart { id } => OutcomeModel::FetchChart { id: *id },
            Outcome::FetchRecord { id } => OutcomeModel::FetchRecord { id: *id },
        }
    }
}

/// What the caller has to do after a connection was lost.
#[derive(Clone, Copy, Debug, PartialEq, Eq, Structural)]
pub enum Dangle {
    /// Nothing.
    Nothing,
    /// Wait for the grace interval, then report that it has run out.
    Grace { user: i32, mark: u64 },
}

impl View for Dangle {
    type V = DangleModel;

    open spec fn view(&self) -> DangleModel {
        match self {
            Dangle::Nothing => DangleModel::Nothing,
            Dangle::Grace { user, mark } => DangleModel::Grace { user: *user, mark: *mark },
        }
    }
}

/// The ids of a list of users.
pub open spec fn user_keys(users: Seq<User>) -> Seq<i32> {
    Seq::new(users.len(), |i: int| users[i].id)
}

/// The models of a list of users.
pub open spec fn user_models(users: Seq<User>) -> Seq<UserModel> {
    Seq::new(users.len(), |i: int| users[i]@)
}

/// The ids of a list of rooms.
pub open spec fn room_keys(rooms: Seq<Room>) -> Seq<Seq<char>> {
    Seq::new(rooms.len(), |i: int| rooms[i].id@)
}

/// The models of a list of rooms.
pub open spec fn room_models(rooms: Seq<Room>) -> Seq<RoomModel> {
    Seq::new(rooms.len(), |i: int| rooms[i]@)
}

/// The ids of a list of connections.
pub open spec fn session_keys(sessions: Seq<Session>) -> Seq<u128> {
    Seq::new(sessions.len(), |i: int| sessions[i].id)
}

/// The models of a list of connections.
pub open spec fn session_models(sessions: Seq<Session>) -> Seq<SessionModel> {
    Seq::new(sessions.len(), |i: int| sessions[i]@)
}

/// The users, filed by id.
pub open spec fn users_table(users: Seq<User>) -> Map<i32, UserModel> {
    table(user_keys(users), user_models(users))
}

/// The rooms, filed by id.
pub open spec fn rooms_table(rooms: Seq<Room>) -> Map<Seq<char>, RoomModel> {
    table(room_keys(rooms), room_models(rooms))
}

/// The connections, filed by id.
pub open spec fn sessions_table(sessions: Seq<Session>) -> Map<u128, SessionModel> {
    table(session_keys(sessions), session_models(sessions))
}

/// A list of rooms with one of them changed, its id kept, files the
/// changed room under that id.
pub proof fn lemma_rooms_update(before: Seq<Room>, after: Seq<Room>, i: int)
    requires
        room_keys(before).no_duplicates(),
        0 <= i < before.len(),
        after.len() == before.len(),
        after[i].id@ == before[i].id@,
        forall|j: int| 0 <= j < before.len() && j != i ==> after[j] == before[j],
    ensures
        room_keys(after) == room_keys(before),
        rooms_table(after) == rooms_table(before).insert(before[i].id@, after[i]@),
        rooms_table(before).contains_key(before[i].id@),
        rooms_table(before)[before[i].id@] == before[i]@,
{
    assert(room_keys(after) =~= room_keys(before));
    assert(room_models(after) =~= room_models(before).update(i, after[i]@));
    lemma_table_update(room_keys(before), room_models(before), i, after[i]@);
    lemma_table_at(room_keys(before), room_models(before), i);
}

/// A list of users with one of them changed, its id kept, files the
/// changed user under that id.
pub proof fn lemma_users_update(before: Seq<User>, after: Seq<User>, i: int)
    requires
        user_keys(before).no_duplicates(),
        0 <= i < before.len(),
        after.len() == before.len(),
        after[i].id == before[i].id,
        forall|j: int| 0 <= j < before.len() && j != i ==> after[j] == before[j],
    ensures
        user_keys(after) == user_keys(before),
        users_table(after) == users_table(before).insert(before[i].id, after[i]@),
        users_table(before).contains_key(before[i].id),
        users_table(before)[before[i].id] == before[i]@,
{
    assert(user_keys(after) =~= user_keys(before));
    assert(user_models(after) =~= user_models(before).update(i, after[i]@));
    lemma_table_update(user_keys(before), user_models(before), i, after[i]@);
    lemma_table_at(user_keys(before), user_models(before), i);
}

/// A list of connections with one of them changed, its id kept, files
/// the changed connection under that id.
pub proof fn lemma_sessions_update(before: Seq<Session>, after: Seq<Session>, i: int)
    requires
        session_keys(before).no_duplicates(),
        0 <= i < before.len(),
        after.len() == before.len(),
        after[i].id == before[i].id,
        forall|j: int| 0 <= j < before.len() && j != i ==> after[j] == before[j],
    ensures
        session_keys(after) == session_keys(before),
        sessions_table(after) == sessions_table(before).insert(before[i].id, after[i]@),
        sessions_table(before).contains_key(before[i].id),
        sessions_table(before)[before[i].id] == before[i]@,
{
    assert(session_keys(after) =~= session_keys(before));
    assert(session_models(after) =~= session_models(before).update(i, after[i]@));
    lemma_table_update(session_keys(before), session_models(before), i, after[i]@);
    lemma_table_at(session_keys(before), session_models(before), i);
}

/// Appending a room under a new id files it.
pub proof fn lemma_rooms_push(before: Seq<Room>, room: Room)
    requires
        room_keys(before).no_duplicates(),
        !room_keys(before).contains(room.id@),
    ensures
        room_keys(before.push(room)).no_duplicates(),
        rooms_table(before.push(room)) == rooms_table(before).insert(room.id@, room@),
{
    assert(room_keys(before.push(room)) =~= room_keys(before).push(room.id@));
    assert(room_models(before.push(room)) =~= room_models(before).push(room@));
    lemma_table_push(room_keys(before), room_models(before), room.id@, room@);
}

/// Taking a room out of the list takes it out of the files.
pub proof fn lemma_rooms_remove(before: Seq<Room>, i: int)
    requires
        room_keys(before).no_duplicates(),
        0 <= i < before.len(),
    ensures
        room_keys(before.remove(i)).no_duplicates(),
        rooms_table(before.remove(i)) == rooms_table(before).remove(before[i].id@),
{
    assert(room_keys(before.remove(i)) =~= room_keys(before).remove(i));
    assert(room_models(before.remove(i)) =~= room_models(before).remove(i));
    lemma_table_remove(room_keys(before), room_models(before), i);
}

/// Appending a user under a new id files it.
pub proof fn lemma_users_push(before: Seq<User>, user: User)
    requires
        user_keys(before).no_duplicates(),
        !user_keys(before).contains(user.id),
    ensures
        user_keys(before.push(user)).no_duplicates(),
        users_table(before.push(user)) == users_table(before).insert(user.id, user@),
{
    assert(user_keys(before.push(user)) =~= user_keys(before).push(user.id));
    assert(user_models(before.push(user)) =~= user_models(before).push(user@));
    lemma_table_push(user_keys(before), user_models(before), user.id, user@);
}

/// Taking a user out of the list takes it out of the files.
pub proof fn lemma_users_remove(before: Seq<User>, i: int)
    requires
        user_keys(before).no_duplicates(),
        0 <= i < before.len(),
    ensures
        user_keys(before.remove(i)).no_duplicates(),
        users_table(before.remove(i)) == users_table(before).remove(before[i].id),
{
    assert(user_keys(before.remove(i)) =~= user_keys(before).remove(i));
    assert(user_models(before.remove(i)) =~= user_models(before).remove(i));
    lemma_table_remove(user_keys(before), user_models(before), i);
}

/// Appending a connection under a new id files it.
pub proof fn lemma_sessions_push(before: Seq<Session>, session: Session)
    requires
        session_keys(before).no_duplicates(),
        !session_keys(before).contains(session.id),
    ensures
        session_keys(before.push(session)).no_duplicates(),
        sessions_table(before.push(session)) == sessions_table(before).insert(
            session.id,
            session@,
        ),
{
    assert(session_keys(before.push(session)) =~= session_keys(before).push(session.id));
    assert(session_models(before.push(session)) =~= session_models(before).push(session@));
    lemma_table_push(session_keys(before), session_models(before), session.id, session@);
}

/// Taking a connection out of the list takes it out of the files.
pub proof fn lemma_sessions_remove(before: Seq<Session>, i: int)
    requires
        session_keys(before).no_duplicates(),
        0 <= i < before.len(),
    ensures
        session_keys(before.remove(i)).no_duplicates(),
        sessions_table(before.remove(i)) == sessions_table(before).remove(before[i].id),
{
    assert(session_keys(before.remove(i)) =~= session_keys(before).remove(i));
    assert(session_models(before.remove(i)) =~= session_models(before).remove(i));
    lemma_table_remove(session_keys(before), session_models(before), i);
}

/// A server in which one room took a step that keeps its members is
/// well-formed, and is the server before with that room replaced.
pub proof fn lemma_stepped(before: ServerState, after: ServerState, ri: int)
    requires
        before.wf(),
        0 <= ri < before.rooms@.len(),
        after.users@ == before.users@,
        after.sessions@ == before.sessions@,
        after.monitors@ == before.monitors@,
        after.next_mark == before.next_mark,
        after.rooms@.len() == before.rooms@.len(),
        forall|j: int| 0 <= j < before.rooms@.len() && j != ri ==> after.rooms@[j] == before.rooms@[j],
        keeps_room(before.rooms@[ri]@, after.rooms@[ri]@),
    ensures
        after.wf(),
        after@ == before@.with_room(after.rooms@[ri]@),
{
    lemma_rooms_update(before.rooms@, after.rooms@, ri);
    lemma_room_step(before@, before.rooms@[ri].id@, after.rooms@[ri]@);
}

/// The server.
#[derive(Debug)]
pub struct ServerState {
    pub sessions: Vec<Session>,
    pub users: Vec<User>,
    pub rooms: Vec<Room>,
    /// The ids of the users that may watch rooms.
    pub monitors: Vec<i32>,
    /// The mark that the next grace interval gets.
    pub next_mark: u64,
}

impl View for ServerState {
    type V = ServerModel;

    open spec fn view(&self) -> ServerModel {
        ServerModel {
            users: users_table(self.users@),
            rooms: rooms_table(self.rooms@),
            sessions: sessions_table(self.sessions@),
            monitors: self.monitors@,
            next_mark: self.next_mark,
        }
    }
}

impl ServerState {
    /// No key is filed twice, and what the lists stand for is a
    /// well-formed server.
    pub open spec fn wf(&self) -> bool {
        &&& user_keys(self.users@).no_duplicates()
        &&& room_keys(self.rooms@).no_duplicates()
        &&& session_keys(self.sessions@).no_duplicates()
        &&& self@.wf()
    }

    /// A server without users, rooms and connections.
    pub fn new(monitors: Vec<i32>) -> (server: Self)
        ensures
            server.wf(),
            server@.users == Map::<i32, UserModel>::empty(),
            server@.rooms == Map::<Seq<char>, RoomModel>::empty(),
            server@.sessions == Map::<u128, SessionModel>::empty(),
            server@.monitors == monitors@,
    {
        let server = ServerState {
            sessions: Vec::new(),
            users: Vec::new(),
            rooms: Vec::new(),
            monitors,
            next_mark: 0,
        };
        proof {
            assert(server@.users =~= Map::<i32, UserModel>::empty());
            assert(server@.rooms =~= Map::<Seq<char>, RoomModel>::empty());
            assert(server@.sessions =~= Map::<u128, SessionModel>::empty());
        }
        server
    }

    /// Where a user is filed.
    pub fn user_index(&self, id: i32) -> (at: Option<usize>)
        ensures
            match at {
                Some(i) => i < self.users@.len() && self.users@[i as int].id == id,
                None => !user_keys(self.users@).contains(id),
            },
            user_keys(self.users@).no_duplicates() ==> (at is Some <==> self@.users.contains_key(
                id,
            )) && (at is Some ==> self@.users[id] == self.users@[at->Some_0 as int]@),
    {
        let mut i: usize = 0;
        while i < self.users.len()
            invariant
                i <= self.users.len(),
                forall|j: int| 0 <= j < i ==> user_keys(self.users@)[j] != id,
            decreases self.users.len() - i,
        {
            if self.users[i].id == id {
                proof {
                    if user_keys(self.users@).no_duplicates() {
                        assert(user_keys(self.users@)[i as int] == id);
                        lemma_table_at(user_keys(self.users@), user_models(self.users@), i as int);
                    }
                }
                return Some(i);
            }
            i = i + 1;
        }
        None
    }

    /// Where a room is filed.
    pub fn room_index(&self, id: &RoomId) -> (at: Option<usize>)
        ensures
            match at {
                Some(i) => i < self.rooms@.len() && self.rooms@[i as int].id@ == id@,
                None => !room_keys(self.rooms@).contains(id@),
            },
            room_keys(self.rooms@).no_duplicates() ==> (at is Some <==> self@.rooms.contains_key(
                id@,
            )) && (at is Some ==> self@.rooms[id@] == self.rooms@[at->Some_0 as int]@),
    {
        let mut i: usize = 0;
        while i < self.rooms.len()
            invariant
                i <= self.rooms.len(),
                forall|j: int| 0 <= j < i ==> room_keys(self.rooms@)[j] != id@,
            decreases self.rooms.len() - i,
        {
            if self.rooms[i].id.same(id) {
                proof {
                    if room_keys(self.rooms@).no_duplicates() {
                        assert(room_keys(self.rooms@)[i as int] == id@);
                        lemma_table_at(room_keys(self.rooms@), room_models(self.rooms@), i as int);
                    }
                }
                return Some(i);
            }
            i = i + 1;
        }
        None
    }

    /// Where a connection is filed.
    pub fn session_index(&self, id: u128) -> (at: Option<usize>)
        ensures
            match at {
                Some(i) => i < self.sessions@.len() && self.sessions@[i as int].id == id,
                None => !session_keys(self.sessions@).contains(id),
            },
            session_keys(self.sessions@).no_duplicates() ==> (at is Some
                <==> self@.sessions.contains_key(id)) && (at is Some ==> self@.sessions[id]
                == self.sessions@[at->Some_0 as int]@),
    {
        let mut i: usize = 0;
        while i < self.sessions.len()
            invariant
                i <= self.sessions.len(),
                forall|j: int| 0 <= j < i ==> session_keys(self.sessions@)[j] != id,
            decreases self.sessions.len() - i,
        {
            if self.sessions[i].id == id {
                proof {
                    if session_keys(self.sessions@).no_duplicates() {
                        assert(session_keys(self.sessions@)[i as int] == id);
                        lemma_table_at(
                            session_keys(self.sessions@),
                            session_models(self.sessions@),
                            i as int,
                        );
                    }
                }
                return Some(i);
            }
            i = i + 1;
        }
        None
    }

    /// Where the room of a user is filed, if the user is in one.
    pub fn room_of(&self, user: i32) -> (at: Option<usize>)
        requires
            self.wf(),
            self@.users.contains_key(user),
        ensures
            match at {
                Some(i) => i < self.rooms@.len() && self@.users[user].room == Some(
                    self.rooms@[i as int].id@,
                ) && self@.rooms.contains_key(self.rooms@[i as int].id@)
                    && self@.rooms[self.rooms@[i as int].id@] == self.rooms@[i as int]@,
                None => self@.users[user].room is None,
            },
    {
        match self.user_index(user) {
            Some(ui) => match &self.users[ui].room {
                Some(id) => self.room_index(id),
                None => None,
            },
            None => None,
        }
    }

    /// The connection that a user's commands go to, if the user has one.
    pub fn session_of(&self, user: i32) -> (session: Option<u128>)
        requires
            self.wf(),
        ensures
            session == if self@.users.contains_key(user) {
                self@.users[user].session
            } else {
                None
            },
    {
        match self.user_index(user) {
            Some(ui) => self.users[ui].session,
            None => None,
        }
    }
}

impl ServerState {
    /// A user makes a room and is its host.
    pub fn create_room(&mut self, user: i32, id: RoomId, out: &mut Vec<Delivery>) -> (res: Result<
        (),
        RoomError,
    >)
        requires
            old(self).wf(),
            old(self)@.users.contains_key(user),
        ensures
            final(self).wf(),
            final(self)@ == old(self)@.create_room(user, id@).0,
            outbox(final(out)@) == outbox(old(out)@) + old(self)@.create_room(user, id@).1,
            res == old(self)@.create_room(user, id@).2,
    {
        let ghost before = *self;
        let ghost sent = outbox(out@);
        proof {
            assert(sent + Seq::<DeliveryModel>::empty() =~= sent);
            lemma_create_room(before@, user, id@);
        }
        let ui: usize = match self.user_index(user) {
            Some(ui) => ui,
            None => {
                return Err(RoomError::NoRoom);
            },
        };
        if self.users[ui].room.is_some() {
            return Err(RoomError::AlreadyInRoom);
        }
        if self.room_index(&id).is_some() {
            return Err(RoomError::IdOccupied);
        }
        let name = self.users[ui].name.clone();
        let room = Room::new(id.duplicate(), user, name);
        room.send(Message::CreateRoom { user }, out);
        let ghost made = room;
        self.rooms.push(room);
        self.users[ui].room = Some(id);
        self.users[ui].monitor = false;
        proof {
            lemma_rooms_push(before.rooms@, made);
            lemma_users_update(before.users@, self.users@, ui as int);
            let goal = before@.create_room(user, id@);
            assert(self@.rooms =~= goal.0.rooms);
            assert(self@.users =~= goal.0.users);
            assert(outbox(out@) =~= sent + goal.1);
        }
        Ok(())
    }

    /// Whether a user may watch rooms.
    pub fn can_monitor(&self, user: i32) -> (b: bool)
        ensures
            b == self@.can_monitor(user),
    {
        let mut i: usize = 0;
        while i < self.monitors.len()
            invariant
                i <= self.monitors.len(),
                forall|j: int| 0 <= j < i ==> self.monitors@[j] != user,
            decreases self.monitors.len() - i,
        {
            if self.monitors[i] == user {
                return true;
            }
            i = i + 1;
        }
        false
    }

    /// A user joins a room, as a player or as a monitor.
    pub fn join_room(
        &mut self,
        user: i32,
        id: RoomId,
        monitor: bool,
        out: &mut Vec<Delivery>,
    ) -> (res: Result<JoinRoomResponse, RoomError>)
        requires
            old(self).wf(),
            old(self)@.users.contains_key(user),
        ensures
            final(self).wf(),
            final(self)@ == old(self)@.join_room(user, id@, monitor).0,
            outbox(final(out)@) == outbox(old(out)@) + old(self)@.join_room(user, id@, monitor).1,
            match old(self)@.join_room(user, id@, monitor).2 {
                Ok(resp) => res is Ok && res->Ok_0@ == resp,
                Err(why) => res is Err && res->Err_0 == why,
            },
    {
        let ghost before = *self;
        let ghost sent = outbox(out@);
        proof {
            assert(sent + Seq::<DeliveryModel>::empty() =~= sent);
            lemma_join_room(before@, user, id@, monitor);
        }
        let ui: usize = match self.user_index(user) {
            Some(ui) => ui,
            None => {
                return Err(RoomError::NoRoom);
            },
        };
        if self.users[ui].room.is_some() {
            return Err(RoomError::AlreadyInRoom);
        }
        let ri: usize = match self.room_index(&id) {
            Some(ri) => ri,
            None => {
                return Err(RoomError::RoomNotFound);
            },
        };
        if self.rooms[ri].locked {
            return Err(RoomError::RoomLocked);
        }
        let selecting = match &self.rooms[ri].state {
            InternalRoomState::SelectChart => true,
            _ => false,
        };
        if !selecting {
            return Err(RoomError::GameOngoing);
        }
        if monitor && !self.can_monitor(user) {
            return Err(RoomError::CantMonitor);
        }
        if !monitor && self.rooms[ri].users.len() >= crate::room::ROOM_MAX_USERS {
            return Err(RoomError::RoomFull);
        }
        let name = self.users[ui].name.clone();
        let taken = self.rooms[ri].add_user(user, name.clone(), monitor);
        self.users[ui].monitor = monitor;
        self.users[ui].room = Some(id);
        let info = UserInfo { id: user, name: name.clone(), monitor };
        self.rooms[ri].broadcast(ServerCommand::OnJoinRoom(info), out);
        self.rooms[ri].send(Message::JoinRoom { user, name }, out);
        let mut infos = self.rooms[ri].users();
        let mut watchers = self.rooms[ri].monitors();
        let ghost players = infos@;
        let ghost watching = watchers@;
        infos.append(&mut watchers);
        let resp = JoinRoomResponse {
            state: self.rooms[ri].client_room_state(),
            users: infos,
            live: self.rooms[ri].live,
        };
        proof {
            lemma_rooms_update(before.rooms@, self.rooms@, ri as int);
            lemma_users_update(before.users@, self.users@, ui as int);
            let goal = before@.join_room(user, id@, monitor);
            assert(self@.rooms =~= goal.0.rooms);
            assert(self@.users =~= goal.0.users);
            assert(outbox(out@) =~= sent + goal.1);
            assert(infos_model(players + watching) =~= infos_model(players) + infos_model(
                watching,
            ));
        }
        Ok(resp)
    }

    /// Unsets the room of everyone whose room has a given id.
    fn clear_room(&mut self, id: &RoomId)
        requires
            user_keys(old(self).users@).no_duplicates(),
        ensures
            final(self)@.users == cleared(old(self)@.users, id@),
            user_keys(final(self).users@) == user_keys(old(self).users@),
            final(self).rooms == old(self).rooms,
            final(self).sessions == old(self).sessions,
            final(self).monitors == old(self).monitors,
            final(self).next_mark == old(self).next_mark,
    {
        let ghost before = self.users@;
        let mut i: usize = 0;
        while i < self.users.len()
            invariant
                i <= self.users.len(),
                self.users@.len() == before.len(),
                self.rooms == old(self).rooms,
                self.sessions == old(self).sessions,
                self.monitors == old(self).monitors,
                self.next_mark == old(self).next_mark,
                forall|j: int|
                    0 <= j < i ==> (#[trigger] self.users@[j])@ == if before[j]@.room == Some(id@) {
                        UserModel { room: None, ..before[j]@ }
                    } else {
                        before[j]@
                    },
                forall|j: int| i <= j < before.len() ==> #[trigger] self.users@[j] == before[j],
            decreases self.users.len() - i,
        {
            let here = match &self.users[i].room {
                Some(r) => r.same(id),
                None => false,
            };
            if here {
                self.users[i].room = None;
            }
            i = i + 1;
        }
        proof {
            let keys = user_keys(before);
            assert(user_keys(self.users@) =~= keys);
            let left = users_table(self.users@);
            let right = cleared(users_table(before), id@);
            assert forall|k: i32| left.contains_key(k) implies left[k] == right[k] by {
                let j = keys.index_of(k);
                assert(0 <= j < keys.len() && keys[j] == k);
                assert(self.users@[j]@ == user_models(self.users@)[j]);
            }
            assert(left =~= right);
        }
    }

    /// A user leaves its room, and `successor` takes the host's role where
    /// the host leaves and another player is there.
    pub fn leave_room_with(&mut self, user: i32, successor: i32, out: &mut Vec<Delivery>) -> (res:
        Result<(), RoomError>)
        requires
            old(self).wf(),
            old(self)@.users.contains_key(user),
            old(self)@.fit_successor(user, successor),
        ensures
            final(self).wf(),
            final(self)@ == old(self)@.leave_room(user, successor).0,
            outbox(final(out)@) == outbox(old(out)@) + old(self)@.leave_room(user, successor).1,
            res == old(self)@.leave_room(user, successor).2,
    {
        let ghost before = *self;
        let ghost sent = outbox(out@);
        proof {
            assert(sent + Seq::<DeliveryModel>::empty() =~= sent);
            lemma_leave_room(before@, user, successor);
        }
        let ui: usize = match self.user_index(user) {
            Some(ui) => ui,
            None => {
                return Err(RoomError::NoRoom);
            },
        };
        let ri: usize = match self.room_of(user) {
            Some(ri) => ri,
            None => {
                return Err(RoomError::NoRoom);
            },
        };
        let name = self.users[ui].name.clone();
        let monitor = self.users[ui].monitor;
        let ended = self.rooms[ri].on_user_leave_with(user, name, monitor, successor, out);
        let ghost goal = before@.leave_room(user, successor);
        if ended {
            let ghost stepped_rooms = self.rooms@;
            let gone = self.rooms.remove(ri);
            proof {
                assert(gone.id@ == before.rooms@[ri as int].id@);
                assert(self.rooms@ =~= before.rooms@.remove(ri as int));
                lemma_rooms_remove(before.rooms@, ri as int);
                lemma_table_at(room_keys(before.rooms@), room_models(before.rooms@), ri as int);
            }
            self.clear_room(&gone.id);
            proof {
                assert(self@.rooms =~= goal.0.rooms);
                assert(self@.users =~= goal.0.users);
            }
        } else {
            self.users[ui].room = None;
            proof {
                lemma_rooms_update(before.rooms@, self.rooms@, ri as int);
                lemma_users_update(before.users@, self.users@, ui as int);
                assert(self@.rooms =~= goal.0.rooms);
                assert(self@.users =~= goal.0.users);
            }
        }
        Ok(())
    }

    /// One of the players that stay in a user's room when the user leaves,
    /// picked at random.
    pub fn pick_successor(&self, user: i32) -> (successor: i32)
        requires
            self.wf(),
            self@.users.contains_key(user),
        ensures
            self@.fit_successor(user, successor),
    {
        let ui: usize = match self.user_index(user) {
            Some(ui) => ui,
            None => {
                return user;
            },
        };
        match self.room_of(user) {
            Some(ri) => self.rooms[ri].pick_successor(user, self.users[ui].monitor),
            None => user,
        }
    }

    /// A user leaves its room. Where the host leaves and other players
    /// are there, one of them, picked at random, becomes host.
    pub fn leave_room(&mut self, user: i32, out: &mut Vec<Delivery>) -> (res: Result<(), RoomError>)
        requires
            old(self).wf(),
            old(self)@.users.contains_key(user),
        ensures
            final(self).wf(),
            exists|successor: i32|
                old(self)@.fit_successor(user, successor) && #[trigger] stepped(
                    final(self)@,
                    outbox(final(out)@),
                    res,
                    old(self)@.leave_room(user, successor),
                    outbox(old(out)@),
                ),
    {
        let ghost before = self@;
        let ghost sent = outbox(out@);
        let successor: i32 = self.pick_successor(user);
        let res = self.leave_room_with(user, successor, out);
        assert(stepped(self@, outbox(out@), res, before.leave_room(user, successor), sent));
        res
    }
}

/// Whether a server, an outbox and an answer are what a step says.
pub open spec fn stepped<R>(
    after: ServerModel,
    out: Seq<DeliveryModel>,
    res: R,
    goal: (ServerModel, Seq<DeliveryModel>, R),
    sent: Seq<DeliveryModel>,
) -> bool {
    after == goal.0 && out == sent + goal.1 && res == goal.2
}

impl ServerState {
    /// The host of a user's room locks or unlocks it.
    pub fn lock_room(&mut self, user: i32, lock: bool, out: &mut Vec<Delivery>) -> (res: Result<
        (),
        RoomError,
    >)
        requires
            old(self).wf(),
            old(self)@.users.contains_key(user),
        ensures
            final(self).wf(),
            stepped(
                final(self)@,
                outbox(final(out)@),
                res,
                old(self)@.in_room(user, |room: RoomModel| room.lock_room(user, lock)),
                outbox(old(out)@),
            ),
    {
        let ghost before = *self;
        let ghost sent = outbox(out@);
        proof {
            assert(sent + Seq::<DeliveryModel>::empty() =~= sent);
        }
        match self.room_of(user) {
            None => Err(RoomError::NoRoom),
            Some(ri) => {
                let res = self.rooms[ri].lock_room(user, lock, out);
                proof {
                    lemma_stepped(before, *self, ri as int);
                }
                res
            },
        }
    }

    /// The host of a user's room switches host rotation on or off.
    pub fn cycle_room(&mut self, user: i32, cycle: bool, out: &mut Vec<Delivery>) -> (res: Result<
        (),
        RoomError,
    >)
        requires
            old(self).wf(),
            old(self)@.users.contains_key(user),
        ensures
            final(self).wf(),
            stepped(
                final(self)@,
                outbox(final(out)@),
                res,
                old(self)@.in_room(user, |room: RoomModel| room.cycle_room(user, cycle)),
                outbox(old(out)@),
            ),
    {
        let ghost before = *self;
        let ghost sent = outbox(out@);
        proof {
            assert(sent + Seq::<DeliveryModel>::empty() =~= sent);
        }
        match self.room_of(user) {
            None => Err(RoomError::NoRoom),
            Some(ri) => {
                let res = self.rooms[ri].cycle_room(user, cycle, out);
                proof {
                    lemma_stepped(before, *self, ri as int);
                }
                res
            },
        }
    }

    /// The host of a user's room selects a chart.
    pub fn select_chart(
        &mut self,
        user: i32,
        chart: Chart,
        out: &mut Vec<Delivery>,
    ) -> (res: Result<(), RoomError>)
        requires
            old(self).wf(),
            old(self)@.users.contains_key(user),
        ensures
            final(self).wf(),
            stepped(
                final(self)@,
                outbox(final(out)@),
                res,
                old(self)@.in_room(user, |room: RoomModel| room.select_chart(user, chart@)),
                outbox(old(out)@),
            ),
    {
        let ghost before = *self;
        let ghost sent = outbox(out@);
        proof {
            assert(sent + Seq::<DeliveryModel>::empty() =~= sent);
        }
        match self.room_of(user) {
            None => Err(RoomError::NoRoom),
            Some(ri) => {
                let res = self.rooms[ri].select_chart(user, chart, out);
                proof {
                    lemma_stepped(before, *self, ri as int);
                }
                res
            },
        }
    }

    /// The host of a user's room starts a round.
    pub fn request_start(&mut self, user: i32, out: &mut Vec<Delivery>) -> (res: Result<
        (),
        RoomError,
    >)
        requires
            old(self).wf(),
            old(self)@.users.contains_key(user),
        ensures
            final(self).wf(),
            stepped(
                final(self)@,
                outbox(final(out)@),
                res,
                old(self)@.in_room(user, |room: RoomModel| room.request_start(user)),
                outbox(old(out)@),
            ),
    {
        let ghost before = *self;
        let ghost sent = outbox(out@);
        proof {
            assert(sent + Seq::<DeliveryModel>::empty() =~= sent);
        }
        match self.room_of(user) {
            None => Err(RoomError::NoRoom),
            Some(ri) => {
                let res = self.rooms[ri].request_start(user, out);
                proof {
                    lemma_stepped(before, *self, ri as int);
                }
                res
            },
        }
    }

    /// A user declares readiness.
    pub fn ready(&mut self, user: i32, out: &mut Vec<Delivery>) -> (res: Result<
        (),
        RoomError,
    >)
        requires
            old(self).wf(),
            old(self)@.users.contains_key(user),
        ensures
            final(self).wf(),
            stepped(
                final(self)@,
                outbox(final(out)@),
                res,
                old(self)@.in_room(user, |room: RoomModel| room.ready(user)),
                outbox(old(out)@),
            ),
    {
        let ghost before = *self;
        let ghost sent = outbox(out@);
        proof {
            assert(sent + Seq::<DeliveryModel>::empty() =~= sent);
        }
        match self.room_of(user) {
            None => Err(RoomError::NoRoom),
            Some(ri) => {
                let res = self.rooms[ri].ready(user, out);
                proof {
                    lemma_stepped(before, *self, ri as int);
                }
                res
            },
        }
    }

    /// A user takes its readiness back.
    pub fn cancel_ready(&mut self, user: i32, out: &mut Vec<Delivery>) -> (res: Result<
        (),
        RoomError,
    >)
        requires
            old(self).wf(),
            old(self)@.users.contains_key(user),
        ensures
            final(self).wf(),
            stepped(
                final(self)@,
                outbox(final(out)@),
                res,
                old(self)@.in_room(user, |room: RoomModel| room.cancel_ready(user)),
                outbox(old(out)@),
            ),
    {
        let ghost before = *self;
        let ghost sent = outbox(out@);
        proof {
            assert(sent + Seq::<DeliveryModel>::empty() =~= sent);
        }
        match self.room_of(user) {
            None => Err(RoomError::NoRoom),
            Some(ri) => {
                let res = self.rooms[ri].cancel_ready(user, out);
                proof {
                    lemma_stepped(before, *self, ri as int);
                }
                res
            },
        }
    }

    /// A user hands in the record of its play.
    pub fn played(&mut self, user: i32, record: Record, out: &mut Vec<Delivery>) -> (res: Result<
        (),
        RoomError,
    >)
        requires
            old(self).wf(),
            old(self)@.users.contains_key(user),
        ensures
            final(self).wf(),
            stepped(
                final(self)@,
                outbox(final(out)@),
                res,
                old(self)@.in_room(user, |room: RoomModel| room.played(user, record)),
                outbox(old(out)@),
            ),
    {
        let ghost before = *self;
        let ghost sent = outbox(out@);
        proof {
            assert(sent + Seq::<DeliveryModel>::empty() =~= sent);
        }
        match self.room_of(user) {
            None => Err(RoomError::NoRoom),
            Some(ri) => {
                let res = self.rooms[ri].played(user, record, out);
                proof {
                    lemma_stepped(before, *self, ri as int);
                }
                res
            },
        }
    }

    /// A user gives the round up.
    pub fn abort(&mut self, user: i32, out: &mut Vec<Delivery>) -> (res: Result<
        (),
        RoomError,
    >)
        requires
            old(self).wf(),
            old(self)@.users.contains_key(user),
        ensures
            final(self).wf(),
            stepped(
                final(self)@,
                outbox(final(out)@),
                res,
                old(self)@.in_room(user, |room: RoomModel| room.abort(user)),
                outbox(old(out)@),
            ),
    {
        let ghost before = *self;
        let ghost sent = outbox(out@);
        proof {
            assert(sent + Seq::<DeliveryModel>::empty() =~= sent);
        }
        match self.room_of(user) {
            None => Err(RoomError::NoRoom),
            Some(ri) => {
                let res = self.rooms[ri].abort(user, out);
                proof {
                    lemma_stepped(before, *self, ri as int);
                }
                res
            },
        }
    }

    /// What the answer of the chart service makes of the server.
    pub fn chart_fetched(
        &mut self,
        user: i32,
        fetched: Result<Chart, String>,
        out: &mut Vec<Delivery>,
    ) -> (reply: ServerCommand)
        requires
            old(self).wf(),
            old(self)@.users.contains_key(user),
        ensures
            final(self).wf(),
            final(self)@ == old(self)@.chart_fetched(user, fetched_chart(fetched)).0,
            outbox(final(out)@) == outbox(old(out)@) + old(self)@.chart_fetched(
                user,
                fetched_chart(fetched),
            ).1,
            reply@ == old(self)@.chart_fetched(user, fetched_chart(fetched)).2,
    {
        match fetched {
            Err(reason) => {
                assert(outbox(out@) + Seq::<DeliveryModel>::empty() =~= outbox(out@));
                ServerCommand::SelectChart(Err(reason))
            },
            Ok(chart) => {
                let res = self.select_chart(user, chart, out);
                ServerCommand::SelectChart(told(res))
            },
        }
    }

    /// What the answer of the score service makes of the server.
    pub fn record_fetched(
        &mut self,
        user: i32,
        fetched: Result<Record, String>,
        out: &mut Vec<Delivery>,
    ) -> (reply: ServerCommand)
        requires
            old(self).wf(),
            old(self)@.users.contains_key(user),
        ensures
            final(self).wf(),
            final(self)@ == old(self)@.record_fetched(user, fetched_record(fetched)).0,
            outbox(final(out)@) == outbox(old(out)@) + old(self)@.record_fetched(
                user,
                fetched_record(fetched),
            ).1,
            reply@ == old(self)@.record_fetched(user, fetched_record(fetched)).2,
    {
        match fetched {
            Err(reason) => {
                assert(outbox(out@) + Seq::<DeliveryModel>::empty() =~= outbox(out@));
                ServerCommand::Played(Err(reason))
            },
            Ok(record) => {
                let res = self.played(user, record, out);
                ServerCommand::Played(told(res))
            },
        }
    }

    /// A chat line of a user.
    fn on_chat(
        &mut self,
        user: i32,
        message: String,
        out: &mut Vec<Delivery>,
        Ghost(successor): Ghost<i32>,
    ) -> (outcome: Outcome)
        requires
            old(self).wf(),
            old(self)@.users.contains_key(user),
        ensures
            final(self).wf(),
            stepped(
                final(self)@,
                outbox(final(out)@),
                outcome@,
                old(self)@.process(user, ClientCommandModel::Chat { message: message@ }, successor),
                outbox(old(out)@),
            ),
    {
        let ghost before = *self;
        let ghost sent = outbox(out@);
        proof {
            assert(sent + Seq::<DeliveryModel>::empty() =~= sent);
        }
        match self.room_of(user) {
            None => Outcome::Reply(ServerCommand::Chat(Err(RoomError::NoRoom.message()))),
            Some(ri) => {
                self.rooms[ri].send_as(user, message, out);
                proof {
                    assert(outbox(out@) =~= sent + before@.process(
                        user,
                        ClientCommandModel::Chat { message: message@ },
                        successor,
                    ).1);
                }
                Outcome::Reply(ServerCommand::Chat(Ok(())))
            },
        }
    }

    /// Touch frames of a user.
    fn on_touches(
        &mut self,
        user: i32,
        frames: Arc<Vec<TouchFrame>>,
        out: &mut Vec<Delivery>,
        Ghost(successor): Ghost<i32>,
    ) -> (outcome: Outcome)
        requires
            old(self).wf(),
            old(self)@.users.contains_key(user),
        ensures
            final(self).wf(),
            stepped(
                final(self)@,
                outbox(final(out)@),
                outcome@,
                old(self)@.process(user, ClientCommandModel::Touches { frames: frames_model(frames@) }, successor),
                outbox(old(out)@),
            ),
    {
        let ghost before = *self;
        let ghost sent = outbox(out@);
        proof {
            assert(sent + Seq::<DeliveryModel>::empty() =~= sent);
        }
        match self.room_of(user) {
            None => Outcome::Nothing,
            Some(ri) => {
                self.rooms[ri].touches(user, frames, out);
                proof {
                    lemma_stepped(before, *self, ri as int);
                }
                Outcome::Nothing
            },
        }
    }

    /// Judgements of a user.
    fn on_judges(
        &mut self,
        user: i32,
        judges: Arc<Vec<JudgeEvent>>,
        out: &mut Vec<Delivery>,
        Ghost(successor): Ghost<i32>,
    ) -> (outcome: Outcome)
        requires
            old(self).wf(),
            old(self)@.users.contains_key(user),
        ensures
            final(self).wf(),
            stepped(
                final(self)@,
                outbox(final(out)@),
                outcome@,
                old(self)@.process(user, ClientCommandModel::Judges { judges: judges@ }, successor),
                outbox(old(out)@),
            ),
    {
        let ghost before = *self;
        let ghost sent = outbox(out@);
        proof {
            assert(sent + Seq::<DeliveryModel>::empty() =~= sent);
        }
        match self.room_of(user) {
            None => Outcome::Nothing,
            Some(ri) => {
                self.rooms[ri].judges(user, judges, out);
                Outcome::Nothing
            },
        }
    }

    /// A user asks for a room of its own.
    fn on_create_room(
        &mut self,
        user: i32,
        id: RoomId,
        out: &mut Vec<Delivery>,
        Ghost(successor): Ghost<i32>,
    ) -> (outcome: Outcome)
        requires
            old(self).wf(),
            old(self)@.users.contains_key(user),
        ensures
            final(self).wf(),
            stepped(
                final(self)@,
                outbox(final(out)@),
                outcome@,
                old(self)@.process(user, ClientCommandModel::CreateRoom { id: id@ }, successor),
                outbox(old(out)@),
            ),
    {
        let ghost before = *self;
        let ghost sent = outbox(out@);
        proof {
            assert(sent + Seq::<DeliveryModel>::empty() =~= sent);
        }
        let res = self.create_room(user, id, out);
        Outcome::Reply(ServerCommand::CreateRoom(told(res)))
    }

    /// A user asks to join a room.
    fn on_join_room(
        &mut self,
        user: i32,
        id: RoomId,
        monitor: bool,
        out: &mut Vec<Delivery>,
        Ghost(successor): Ghost<i32>,
    ) -> (outcome: Outcome)
        requires
            old(self).wf(),
            old(self)@.users.contains_key(user),
        ensures
            final(self).wf(),
            stepped(
                final(self)@,
                outbox(final(out)@),
                outcome@,
                old(self)@.process(user, ClientCommandModel::JoinRoom { id: id@, monitor }, successor),
                outbox(old(out)@),
            ),
    {
        let ghost before = *self;
        let ghost sent = outbox(out@);
        proof {
            assert(sent + Seq::<DeliveryModel>::empty() =~= sent);
        }
        let res = self.join_room(user, id, monitor, out);
        Outcome::Reply(
            ServerCommand::JoinRoom(
                match res {
                    Ok(resp) => Ok(resp),
                    Err(why) => Err(why.message()),
                },
            ),
        )
    }

    /// A user asks to lock or unlock its room.
    fn on_lock_room(
        &mut self,
        user: i32,
        lock: bool,
        out: &mut Vec<Delivery>,
        Ghost(successor): Ghost<i32>,
    ) -> (outcome: Outcome)
        requires
            old(self).wf(),
            old(self)@.users.contains_key(user),
        ensures
            final(self).wf(),
            stepped(
                final(self)@,
                outbox(final(out)@),
                outcome@,
                old(self)@.process(user, ClientCommandModel::LockRoom { lock }, successor),
                outbox(old(out)@),
            ),
    {
        let ghost before = *self;
        let ghost sent = outbox(out@);
        proof {
            assert(sent + Seq::<DeliveryModel>::empty() =~= sent);
        }
        let res = self.lock_room(user, lock, out);
        Outcome::Reply(ServerCommand::LockRoom(told(res)))
    }

    /// A user asks to switch host rotation.
    fn on_cycle_room(
        &mut self,
        user: i32,
        cycle: bool,
        out: &mut Vec<Delivery>,
        Ghost(successor): Ghost<i32>,
    ) -> (outcome: Outcome)
        requires
            old(self).wf(),
            old(self)@.users.contains_key(user),
        ensures
            final(self).wf(),
            stepped(
                final(self)@,
                outbox(final(out)@),
                outcome@,
                old(self)@.process(user, ClientCommandModel::CycleRoom { cycle }, successor),
                outbox(old(out)@),
            ),
    {
        let ghost before = *self;
        let ghost sent = outbox(out@);
        proof {
            assert(sent + Seq::<DeliveryModel>::empty() =~= sent);
        }
        let res = self.cycle_room(user, cycle, out);
        Outcome::Reply(ServerCommand::CycleRoom(told(res)))
    }

    /// A user asks to select a chart.
    fn on_select_chart(
        &mut self,
        user: i32,
        id: i32,
        out: &mut Vec<Delivery>,
        Ghost(successor): Ghost<i32>,
    ) -> (outcome: Outcome)
        requires
            old(self).wf(),
            old(self)@.users.contains_key(user),
        ensures
            final(self).wf(),
            stepped(
                final(self)@,
                outbox(final(out)@),
                outcome@,
                old(self)@.process(user, ClientCommandModel::SelectChart { id }, successor),
                outbox(old(out)@),
            ),
    {
        let ghost before = *self;
        let ghost sent = outbox(out@);
        proof {
            assert(sent + Seq::<DeliveryModel>::empty() =~= sent);
        }
        match self.room_of(user) {
            None => Outcome::Reply(ServerCommand::SelectChart(Err(RoomError::NoRoom.message()))),
            Some(ri) => match self.rooms[ri].may_select_chart(user) {
                Err(why) => Outcome::Reply(ServerCommand::SelectChart(Err(why.message()))),
                Ok(_) => Outcome::FetchChart { id },
            },
        }
    }

    /// A user asks to start a round.
    fn on_request_start(
        &mut self,
        user: i32,
        out: &mut Vec<Delivery>,
        Ghost(successor): Ghost<i32>,
    ) -> (outcome: Outcome)
        requires
            old(self).wf(),
            old(self)@.users.contains_key(user),
        ensures
            final(self).wf(),
            stepped(
                final(self)@,
                outbox(final(out)@),
                outcome@,
                old(self)@.process(user, ClientCommandModel::RequestStart, successor),
                outbox(old(out)@),
            ),
    {
        let ghost before = *self;
        let ghost sent = outbox(out@);
        proof {
            assert(sent + Seq::<DeliveryModel>::empty() =~= sent);
        }
        let res = self.request_start(user, out);
        Outcome::Reply(ServerCommand::RequestStart(told(res)))
    }

    /// A user declares readiness.
    fn on_ready(
        &mut self,
        user: i32,
        out: &mut Vec<Delivery>,
        Ghost(successor): Ghost<i32>,
    ) -> (outcome: Outcome)
        requires
            old(self).wf(),
            old(self)@.users.contains_key(user),
        ensures
            final(self).wf(),
            stepped(
                final(self)@,
                outbox(final(out)@),
                outcome@,
                old(self)@.process(user, ClientCommandModel::Ready, successor),
                outbox(old(out)@),
            ),
    {
        let ghost before = *self;
        let ghost sent = outbox(out@);
        proof {
            assert(sent + Seq::<DeliveryModel>::empty() =~= sent);
        }
        let res = self.ready(user, out);
        Outcome::Reply(ServerCommand::Ready(told(res)))
    }

    /// A user takes its readiness back.
    fn on_cancel_ready(
        &mut self,
        user: i32,
        out: &mut Vec<Delivery>,
        Ghost(successor): Ghost<i32>,
    ) -> (outcome: Outcome)
        requires
            old(self).wf(),
            old(self)@.users.contains_key(user),
        ensures
            final(self).wf(),
            stepped(
                final(self)@,
                outbox(final(out)@),
                outcome@,
                old(self)@.process(user, ClientCommandModel::CancelReady, successor),
                outbox(old(out)@),
            ),
    {
        let ghost before = *self;
        let ghost sent = outbox(out@);
        proof {
            assert(sent + Seq::<DeliveryModel>::empty() =~= sent);
        }
        let res = self.cancel_ready(user, out);
        Outcome::Reply(ServerCommand::CancelReady(told(res)))
    }

    /// A user announces a record.
    fn on_played(
        &mut self,
        user: i32,
        id: i32,
        out: &mut Vec<Delivery>,
        Ghost(successor): Ghost<i32>,
    ) -> (outcome: Outcome)
        requires
            old(self).wf(),
            old(self)@.users.contains_key(user),
        ensures
            final(self).wf(),
            stepped(
                final(self)@,
                outbox(final(out)@),
                outcome@,
                old(self)@.process(user, ClientCommandModel::Played { id }, successor),
                outbox(old(out)@),
            ),
    {
        let ghost before = *self;
        let ghost sent = outbox(out@);
        proof {
            assert(sent + Seq::<DeliveryModel>::empty() =~= sent);
        }
        match self.room_of(user) {
            None => Outcome::Reply(ServerCommand::Played(Err(RoomError::NoRoom.message()))),
            Some(ri) => match self.rooms[ri].may_play() {
                Err(why) => Outcome::Reply(ServerCommand::Played(Err(why.message()))),
                Ok(_) => Outcome::FetchRecord { id },
            },
        }
    }

    /// A user gives the round up.
    fn on_abort(
        &mut self,
        user: i32,
        out: &mut Vec<Delivery>,
        Ghost(successor): Ghost<i32>,
    ) -> (outcome: Outcome)
        requires
            old(self).wf(),
            old(self)@.users.contains_key(user),
        ensures
            final(self).wf(),
            stepped(
                final(self)@,
                outbox(final(out)@),
                outcome@,
                old(self)@.process(user, ClientCommandModel::Abort, successor),
                outbox(old(out)@),
            ),
    {
        let ghost before = *self;
        let ghost sent = outbox(out@);
        proof {
            assert(sent + Seq::<DeliveryModel>::empty() =~= sent);
        }
        let res = self.abort(user, out);
        Outcome::Reply(ServerCommand::Abort(told(res)))
    }

    /// A user asks to leave its room.
    fn on_leave_room(&mut self, user: i32, out: &mut Vec<Delivery>) -> (found: (
        Outcome,
        Ghost<i32>,
    ))
        requires
            old(self).wf(),
            old(self)@.users.contains_key(user),
        ensures
            final(self).wf(),
            old(self)@.fit_successor(user, found.1@),
            stepped(
                final(self)@,
                outbox(final(out)@),
                found.0@,
                old(self)@.process(user, ClientCommandModel::LeaveRoom, found.1@),
                outbox(old(out)@),
            ),
    {
        let successor: i32 = self.pick_successor(user);
        let res = self.leave_room_with(user, successor, out);
        (Outcome::Reply(ServerCommand::LeaveRoom(told(res))), Ghost(successor))
    }

    /// What a request of an authenticated user makes of the server.
    pub fn process(&mut self, user: i32, cmd: ClientCommand, out: &mut Vec<Delivery>) -> (outcome:
        Outcome)
        requires
            old(self).wf(),
            old(self)@.users.contains_key(user),
        ensures
            final(self).wf(),
            exists|successor: i32|
                old(self)@.fit_successor(user, successor) && #[trigger] stepped(
                    final(self)@,
                    outbox(final(out)@),
                    outcome@,
                    old(self)@.process(user, cmd@, successor),
                    outbox(old(out)@),
                ),
    {
        let ghost before = self@;
        let ghost sent = outbox(out@);
        let ghost any = some_successor(before, user);
        proof {
            lemma_some_successor(before, user);
        }
        match cmd {
            ClientCommand::Ping => {
                assert(sent + Seq::<DeliveryModel>::empty() =~= sent);
                let outcome = Outcome::Reply(ServerCommand::Pong);
                assert(stepped(self@, outbox(out@), outcome@, before.process(user, cmd@, any), sent));
                outcome
            },
            ClientCommand::Authenticate { token } => {
                assert(sent + Seq::<DeliveryModel>::empty() =~= sent);
                let outcome = Outcome::Reply(
                    ServerCommand::Authenticate(Err(RoomError::RepeatedAuthenticate.message())),
                );
                assert(stepped(self@, outbox(out@), outcome@, before.process(user, cmd@, any), sent));
                outcome
            },
            ClientCommand::Chat { message } => {
                let outcome = self.on_chat(user, message.into_inner(), out, Ghost(any));
                assert(stepped(self@, outbox(out@), outcome@, before.process(user, cmd@, any), sent));
                outcome
            },
            ClientCommand::Touches { frames } => {
                let outcome = self.on_touches(user, frames, out, Ghost(any));
                assert(stepped(self@, outbox(out@), outcome@, before.process(user, cmd@, any), sent));
                outcome
            },
            ClientCommand::Judges { judges } => {
                let outcome = self.on_judges(user, judges, out, Ghost(any));
                assert(stepped(self@, outbox(out@), outcome@, before.process(user, cmd@, any), sent));
                outcome
            },
            ClientCommand::CreateRoom { id } => {
                let outcome = self.on_create_room(user, id, out, Ghost(any));
                assert(stepped(self@, outbox(out@), outcome@, before.process(user, cmd@, any), sent));
                outcome
            },
            ClientCommand::JoinRoom { id, monitor } => {
                let outcome = self.on_join_room(user, id, monitor, out, Ghost(any));
                assert(stepped(self@, outbox(out@), outcome@, before.process(user, cmd@, any), sent));
                outcome
            },
            ClientCommand::LeaveRoom => {
                let (outcome, Ghost(successor)) = self.on_leave_room(user, out);
                assert(stepped(
                    self@,
                    outbox(out@),
                    outcome@,
                    before.process(user, cmd@, successor),
                    sent,
                ));
                outcome
            },
            ClientCommand::LockRoom { lock } => {
                let outcome = self.on_lock_room(user, lock, out, Ghost(any));
                assert(stepped(self@, outbox(out@), outcome@, before.process(user, cmd@, any), sent));
                outcome
            },
            ClientCommand::CycleRoom { cycle } => {
                let outcome = self.on_cycle_room(user, cycle, out, Ghost(any));
                assert(stepped(self@, outbox(out@), outcome@, before.process(user, cmd@, any), sent));
                outcome
            },
            ClientCommand::SelectChart { id } => {
                let outcome = self.on_select_chart(user, id, out, Ghost(any));
                assert(stepped(self@, outbox(out@), outcome@, before.process(user, cmd@, any), sent));
                outcome
            },
            ClientCommand::RequestStart => {
                let outcome = self.on_request_start(user, out, Ghost(any));
                assert(stepped(self@, outbox(out@), outcome@, before.process(user, cmd@, any), sent));
                outcome
            },
            ClientCommand::Ready => {
                let outcome = self.on_ready(user, out, Ghost(any));
                assert(stepped(self@, outbox(out@), outcome@, before.process(user, cmd@, any), sent));
                outcome
            },
            ClientCommand::CancelReady => {
                let outcome = self.on_cancel_ready(user, out, Ghost(any));
                assert(stepped(self@, outbox(out@), outcome@, before.process(user, cmd@, any), sent));
                outcome
            },
            ClientCommand::Played { id } => {
                let outcome = self.on_played(user, id, out, Ghost(any));
                assert(stepped(self@, outbox(out@), outcome@, before.process(user, cmd@, any), sent));
                outcome
            },
            ClientCommand::Abort => {
                let outcome = self.on_abort(user, out, Ghost(any));
                assert(stepped(self@, outbox(out@), outcome@, before.process(user, cmd@, any), sent));
                outcome
            },
        }
    }
}

/// A successor that fits: the first of the players that stay.
pub open spec fn some_successor(s: ServerModel, user: i32) -> i32 {
    match s.users[user].room {
        Some(r) => if s.rooms[r].remove_user(user, s.users[user].monitor).users.len() > 0 {
            s.rooms[r].remove_user(user, s.users[user].monitor).user_ids()[0]
        } else {
            user
        },
        None => user,
    }
}

/// There is a successor that fits.
pub proof fn lemma_some_successor(s: ServerModel, user: i32)
    ensures
        s.fit_successor(user, some_successor(s, user)),
{
    match s.users[user].room {
        Some(r) => {
            let left = s.rooms[r].remove_user(user, s.users[user].monitor);
            if left.users.len() > 0 {
                assert(left.user_ids().contains(left.user_ids()[0]));
            }
        },
        None => {},
    }
}

/// The answer to a request, in words where it is a refusal.
pub fn told(res: Result<(), RoomError>) -> (reply: Result<(), String>)
    ensures
        crate::command::reply_model(reply) == answer(res),
{
    match res {
        Ok(_) => Ok(()),
        Err(why) => Err(why.message()),
    }
}

/// What the chart service said, as the model has it.
pub open spec fn fetched_chart(fetched: Result<Chart, String>) -> Result<
    crate::room::ChartModel,
    Seq<char>,
> {
    match fetched {
        Ok(chart) => Ok(chart@),
        Err(reason) => Err(reason@),
    }
}

/// What the score service said, as the model has it.
pub open spec fn fetched_record(fetched: Result<Record, String>) -> Result<Record, Seq<char>> {
    match fetched {
        Ok(record) => Ok(record),
        Err(reason) => Err(reason@),
    }
}

} // verus!
