//! Connections: acceptance, authentication, the dispatch of what arrives on
//! them, their loss and the grace that a user gets afterwards.

use crate::command::{ClientCommand, ClientRoomState, ServerCommand};
use crate::room::{outbox, Delivery, DeliveryModel, InternalRoomState, RoomError};
use crate::server::{
    lemma_sessions_push, lemma_sessions_remove, lemma_sessions_update, lemma_users_push,
    lemma_users_remove, lemma_users_update, stepped, Dangle, Identity, Outcome, ServerState,
    Session, User,
};
use crate::server_model::{
    fit_for, lemma_authenticated, lemma_dangle, lemma_drop_user, lemma_leave_room,
    lemma_lost_connection, lemma_same_rooms_and_users, lemma_touch_user, IdentityModel,
    ServerModel, TOKEN_LENGTH,
};
use uuid::Uuid;
use vstd::prelude::*;

verus! {

/// How long a connection may be silent, in milliseconds.
pub const HEARTBEAT_DISCONNECT_TIMEOUT: u64 = 10_000;

/// How long a user without connection keeps its place, in milliseconds.
pub const DANGLE_GRACE: u64 = 10_000;

/// What the watchdog of a connection does next.
#[derive(Clone, Copy, Debug, PartialEq, Eq, Structural)]
pub enum Watch {
    /// Sleep until the given time, then look again.
    Sleep { until: u64 },
    /// Report the connection lost, and stop.
    Lost,
    /// The connection is gone: stop.
    Gone,
}

/// When a connection that was last heard at `last_recv` is given up.
pub open spec fn deadline(last_recv: u64) -> int {
    last_recv + HEARTBEAT_DISCONNECT_TIMEOUT
}

impl Session {
    /// What the watchdog does at time `now`: it sleeps while the deadline
    /// lies ahead, and reports the connection lost once it has passed.
    pub fn watchdog(&self, now: u64) -> (step: Watch)
        ensures
            deadline(self.last_recv) > now ==> step is Sleep && step->until == if deadline(
                self.last_recv,
            ) > u64::MAX {
                u64::MAX as int
            } else {
                deadline(self.last_recv)
            },
            deadline(self.last_recv) <= now ==> step == Watch::Lost,
    {
        match self.last_recv.checked_add(HEARTBEAT_DISCONNECT_TIMEOUT) {
            Some(until) => if until > now {
                Watch::Sleep { until }
            } else {
                Watch::Lost
            },
            None => Watch::Sleep { until: u64::MAX },
        }
    }
}

/// `uuid::Uuid::new_v4`, as the 128 bits of the identifier: random, so
/// nothing is known of it.
#[verifier::external_body]
fn fresh_id() -> u128 {
    Uuid::new_v4().as_u128()
}

impl ServerState {
    /// A random identifier, if no connection has it.
    pub fn vacant_entry(&self) -> (id: Option<u128>)
        requires
            self.wf(),
        ensures
            exists|drawn: u128| id == #[trigger] self@.vacant(drawn),
            id is Some ==> !self@.sessions.contains_key(id->Some_0),
    {
        let drawn: u128 = fresh_id();
        let id = self.vacant(drawn);
        assert(id == self@.vacant(drawn));
        id
    }

    /// An identifier as a candidate for a new connection: the identifier
    /// itself where no connection has it, nothing where one has.
    pub fn vacant(&self, id: u128) -> (found: Option<u128>)
        requires
            self.wf(),
        ensures
            found == self@.vacant(id),
    {
        if self.session_index(id).is_some() {
            None
        } else {
            Some(id)
        }
    }

    /// Files a new connection.
    pub fn accept(&mut self, id: u128, version: u8, now: u64) -> (taken: bool)
        requires
            old(self).wf(),
        ensures
            final(self).wf(),
            (final(self)@, taken) == old(self)@.accept(id, version, now),
    {
        let ghost before = *self;
        if self.session_index(id).is_some() {
            return false;
        }
        let session = Session::new(id, version, now);
        self.sessions.push(session);
        proof {
            lemma_sessions_push(before.sessions@, session);
            lemma_same_rooms_and_users(before@, self@);
        }
        true
    }

    /// Marks a connection as failed: what arrives on it is dropped, until
    /// it is reported lost.
    pub fn mark_failed(&mut self, session: u128)
        requires
            old(self).wf(),
        ensures
            final(self).wf(),
            final(self)@ == old(self)@.failed(session),
    {
        let ghost before = *self;
        match self.session_index(session) {
            Some(si) => {
                self.sessions[si].panicked = true;
                proof {
                    lemma_sessions_update(before.sessions@, self.sessions@, si as int);
                    lemma_same_rooms_and_users(before@, self@);
                }
            },
            None => {},
        }
    }

    /// What the watchdog of a connection does at time `now`.
    pub fn watch(&self, session: u128, now: u64) -> (step: Watch)
        requires
            self.wf(),
        ensures
            !self@.sessions.contains_key(session) ==> step == Watch::Gone,
            self@.sessions.contains_key(session) ==> (deadline(self@.sessions[session].last_recv)
                <= now <==> step == Watch::Lost) && !(step is Gone),
    {
        match self.session_index(session) {
            Some(si) => self.sessions[si].watchdog(now),
            None => Watch::Gone,
        }
    }

    /// A user is taken off the server: out of its room first, if it is in
    /// one.
    pub fn drop_user_with(&mut self, user: i32, successor: i32, out: &mut Vec<Delivery>)
        requires
            old(self).wf(),
            old(self)@.users.contains_key(user),
            old(self)@.fit_successor(user, successor),
        ensures
            final(self).wf(),
            final(self)@ == old(self)@.drop_user(user, successor).0,
            outbox(final(out)@) == outbox(old(out)@) + old(self)@.drop_user(user, successor).1,
    {
        let ghost before = *self;
        proof {
            lemma_leave_room(before@, user, successor);
            lemma_drop_user(before@, user, successor);
        }
        let _ = self.leave_room_with(user, successor, out);
        let ghost left = *self;
        match self.user_index(user) {
            Some(ui) => {
                let _ = self.users.remove(ui);
                proof {
                    lemma_users_remove(left.users@, ui as int);
                    assert(self@.users =~= before@.drop_user(user, successor).0.users);
                }
            },
            None => {
                assert(left@.users.dom().contains(user));
            },
        }
    }

    /// A user loses its connection.
    pub fn dangle_with(
        &mut self,
        user: i32,
        successor: i32,
        out: &mut Vec<Delivery>,
    ) -> (next: Dangle)
        requires
            old(self).wf(),
            old(self)@.users.contains_key(user),
            old(self)@.fit_successor(user, successor),
        ensures
            final(self).wf(),
            final(self)@ == old(self)@.dangle(user, successor).0,
            outbox(final(out)@) == outbox(old(out)@) + old(self)@.dangle(user, successor).1,
            next@ == old(self)@.dangle(user, successor).2,
    {
        let ghost before = *self;
        let ghost sent = outbox(out@);
        proof {
            assert(sent + Seq::<DeliveryModel>::empty() =~= sent);
            lemma_dangle(before@, user, successor);
        }
        let ui: usize = match self.user_index(user) {
            Some(ui) => ui,
            None => {
                return Dangle::Nothing;
            },
        };
        self.users[ui].session = None;
        let ghost cut = *self;
        proof {
            lemma_users_update(before.users@, cut.users@, ui as int);
            lemma_touch_user(before@, cut.users@[ui as int]@);
            assert(cut@.users =~= before@.with_user(cut.users@[ui as int]@).users);
            assert(cut@ == before@.with_user(cut.users@[ui as int]@));
        }
        let playing = match self.room_of(user) {
            Some(ri) => match &self.rooms[ri].state {
                InternalRoomState::Playing { .. } => true,
                _ => false,
            },
            None => false,
        };
        if playing {
            self.drop_user_with(user, successor, out);
            Dangle::Nothing
        } else {
            let mark: u64 = self.next_mark;
            self.users[ui].dangle_mark = Some(mark);
            self.next_mark = if mark == u64::MAX {
                0
            } else {
                mark + 1
            };
            proof {
                lemma_users_update(cut.users@, self.users@, ui as int);
                assert(self@.users =~= before@.dangle(user, successor).0.users);
            }
            Dangle::Grace { user, mark }
        }
    }

    /// A connection is reported lost.
    pub fn lost_connection_with(
        &mut self,
        session: u128,
        successor: i32,
        out: &mut Vec<Delivery>,
    ) -> (next: Dangle)
        requires
            old(self).wf(),
            fit_for(old(self)@, session, successor),
        ensures
            final(self).wf(),
            final(self)@ == old(self)@.lost_connection(session, successor).0,
            outbox(final(out)@) == outbox(old(out)@) + old(self)@.lost_connection(
                session,
                successor,
            ).1,
            next@ == old(self)@.lost_connection(session, successor).2,
            !final(self)@.sessions.contains_key(session),
    {
        let ghost before = *self;
        let ghost sent = outbox(out@);
        proof {
            assert(sent + Seq::<DeliveryModel>::empty() =~= sent);
            lemma_lost_connection(before@, session, successor);
        }
        let si: usize = match self.session_index(session) {
            Some(si) => si,
            None => {
                return Dangle::Nothing;
            },
        };
        let gone = self.sessions.remove(si);
        proof {
            lemma_sessions_remove(before.sessions@, si as int);
            lemma_same_rooms_and_users(before@, self@);
        }
        let user: i32 = match gone.user {
            Some(user) => user,
            None => {
                return Dangle::Nothing;
            },
        };
        let held = match self.user_index(user) {
            Some(ui) => match self.users[ui].session {
                Some(s) => s == session,
                None => false,
            },
            None => false,
        };
        if held {
            self.dangle_with(user, successor, out)
        } else {
            Dangle::Nothing
        }
    }

    /// A grace interval has run out.
    pub fn dangle_expired_with(
        &mut self,
        user: i32,
        mark: u64,
        successor: i32,
        out: &mut Vec<Delivery>,
    )
        requires
            old(self).wf(),
            old(self)@.users.contains_key(user) ==> old(self)@.fit_successor(user, successor),
        ensures
            final(self).wf(),
            final(self)@ == old(self)@.dangle_expired(user, mark, successor).0,
            outbox(final(out)@) == outbox(old(out)@) + old(self)@.dangle_expired(
                user,
                mark,
                successor,
            ).1,
    {
        let ghost sent = outbox(out@);
        proof {
            assert(sent + Seq::<DeliveryModel>::empty() =~= sent);
        }
        let marked = match self.user_index(user) {
            Some(ui) => match self.users[ui].dangle_mark {
                Some(m) => m == mark,
                None => false,
            },
            None => false,
        };
        if marked {
            self.drop_user_with(user, successor, out);
        }
    }

    /// The user of a connection, if the server knows it.
    pub fn user_of(&self, session: u128) -> (user: Option<i32>)
        requires
            self.wf(),
        ensures
            match user {
                Some(u) => self@.sessions.contains_key(session) && self@.sessions[session].user
                    == Some(u) && self@.users.contains_key(u),
                None => !self@.sessions.contains_key(session) || match self@.sessions[session].user {
                    Some(u) => !self@.users.contains_key(u),
                    None => true,
                },
            },
    {
        match self.session_index(session) {
            Some(si) => match self.sessions[si].user {
                Some(u) => if self.user_index(u).is_some() {
                    Some(u)
                } else {
                    None
                },
                None => None,
            },
            None => None,
        }
    }

    /// The name of the user of a connection.
    pub fn name_of(&self, session: u128) -> (name: Option<String>)
        requires
            self.wf(),
        ensures
            match name {
                Some(n) => self@.sessions.contains_key(session) && match self@.sessions[session].user {
                    Some(u) => self@.users.contains_key(u) && n@ == self@.users[u].name,
                    None => false,
                },
                None => !self@.sessions.contains_key(session) || match self@.sessions[session].user {
                    Some(u) => !self@.users.contains_key(u),
                    None => true,
                },
            },
    {
        match self.user_of(session) {
            Some(user) => match self.user_index(user) {
                Some(ui) => Some(self.users[ui].name.clone()),
                None => None,
            },
            None => None,
        }
    }

    /// A connection is reported lost. Where that makes a host leave a
    /// room with other players, one of them, picked at random, becomes host.
    pub fn lost_connection(&mut self, session: u128, out: &mut Vec<Delivery>) -> (next: Dangle)
        requires
            old(self).wf(),
        ensures
            final(self).wf(),
            !final(self)@.sessions.contains_key(session),
            exists|successor: i32|
                fit_for(old(self)@, session, successor) && #[trigger] stepped(
                    final(self)@,
                    outbox(final(out)@),
                    next@,
                    old(self)@.lost_connection(session, successor),
                    outbox(old(out)@),
                ),
    {
        let ghost before = self@;
        let ghost sent = outbox(out@);
        let successor: i32 = match self.user_of(session) {
            Some(user) => self.pick_successor(user),
            None => 0,
        };
        let next = self.lost_connection_with(session, successor, out);
        assert(stepped(self@, outbox(out@), next@, before.lost_connection(session, successor), sent));
        next
    }

    /// A grace interval has run out. Where that makes a host leave a room
    /// with other players, one of them, picked at random, becomes host.
    pub fn dangle_expired(&mut self, user: i32, mark: u64, out: &mut Vec<Delivery>)
        requires
            old(self).wf(),
        ensures
            final(self).wf(),
            exists|successor: i32|
                (old(self)@.users.contains_key(user) ==> old(self)@.fit_successor(user, successor))
                    && #[trigger] stepped(
                    final(self)@,
                    outbox(final(out)@),
                    (),
                    (
                        old(self)@.dangle_expired(user, mark, successor).0,
                        old(self)@.dangle_expired(user, mark, successor).1,
                        (),
                    ),
                    outbox(old(out)@),
                ),
    {
        let ghost before = self@;
        let ghost sent = outbox(out@);
        let successor: i32 = if self.user_index(user).is_some() {
            self.pick_successor(user)
        } else {
            0
        };
        self.dangle_expired_with(user, mark, successor, out);
        assert(stepped(
            self@,
            outbox(out@),
            (),
            (
                before.dangle_expired(user, mark, successor).0,
                before.dangle_expired(user, mark, successor).1,
                (),
            ),
            sent,
        ));
    }

    /// What the answer of the identity service makes of the server.
    pub fn authenticated(&mut self, session: u128, fetched: Result<Identity, String>) -> (outcome:
        Outcome)
        requires
            old(self).wf(),
        ensures
            final(self).wf(),
            final(self)@ == old(self)@.authenticated(session, fetched_identity(fetched)).0,
            outcome@ == old(self)@.authenticated(session, fetched_identity(fetched)).1,
    {
        let ghost before = *self;
        proof {
            lemma_authenticated(before@, session, fetched_identity(fetched));
        }
        let si: usize = match self.session_index(session) {
            Some(si) => si,
            None => {
                return Outcome::Nothing;
            },
        };
        match fetched {
            Err(_) => {
                self.sessions[si].panicked = true;
                proof {
                    lemma_sessions_update(before.sessions@, self.sessions@, si as int);
                }
                Outcome::Reject(ServerCommand::Authenticate(Err(RoomError::FetchFailed.message())))
            },
            Ok(who) => {
                let id: i32 = who.id;
                let ui: usize = match self.user_index(id) {
                    Some(ui) => {
                        self.users[ui].set_session(session);
                        proof {
                            lemma_users_update(before.users@, self.users@, ui as int);
                        }
                        ui
                    },
                    None => {
                        let mut user = User::new(id, who.name, who.language);
                        user.set_session(session);
                        let ghost made = user;
                        self.users.push(user);
                        proof {
                            lemma_users_push(before.users@, made);
                        }
                        self.users.len() - 1
                    },
                };
                self.sessions[si].user = Some(id);
                self.sessions[si].waiting_for_authenticate = false;
                proof {
                    lemma_sessions_update(before.sessions@, self.sessions@, si as int);
                    let goal = before@.authenticated(session, fetched_identity(fetched)).0;
                    assert(self@.users =~= goal.users);
                    assert(self@.sessions =~= goal.sessions);
                    assert(self@ == goal);
                }
                let info = self.users[ui].to_info();
                proof {
                    crate::registry::lemma_table_at(
                        crate::server::user_keys(self.users@),
                        crate::server::user_models(self.users@),
                        ui as int,
                    );
                }
                let room: Option<ClientRoomState> = match self.room_of(id) {
                    Some(ri) => Some(self.rooms[ri].client_state(id)),
                    None => None,
                };
                Outcome::Reply(ServerCommand::Authenticate(Ok((info, room))))
            },
        }
    }

    /// What a command that arrives on a connection makes of the server.
    pub fn receive(
        &mut self,
        session: u128,
        cmd: ClientCommand,
        now: u64,
        out: &mut Vec<Delivery>,
    ) -> (outcome: Outcome)
        requires
            old(self).wf(),
        ensures
            final(self).wf(),
            exists|successor: i32|
                fit_for(old(self)@, session, successor) && #[trigger] stepped(
                    final(self)@,
                    outbox(final(out)@),
                    outcome@,
                    old(self)@.receive(session, cmd@, now, successor),
                    outbox(old(out)@),
                ),
    {
        let ghost before = *self;
        let ghost sent = outbox(out@);
        let ghost any = fallback(before@, session);
        proof {
            assert(sent + Seq::<DeliveryModel>::empty() =~= sent);
            lemma_fallback(before@, session);
        }
        let si: usize = match self.session_index(session) {
            Some(si) => si,
            None => {
                assert(stepped(
                    self@,
                    outbox(out@),
                    Outcome::Nothing@,
                    before@.receive(session, cmd@, now, any),
                    sent,
                ));
                return Outcome::Nothing;
            },
        };
        self.sessions[si].last_recv = now;
        let ghost noted = *self;
        proof {
            lemma_sessions_update(before.sessions@, self.sessions@, si as int);
            lemma_same_rooms_and_users(before@, self@);
            assert(noted@ == before@.with_session(noted.sessions@[si as int]@));
        }
        let s: Session = self.sessions[si];
        if s.panicked {
            assert(stepped(
                self@,
                outbox(out@),
                Outcome::Nothing@,
                before@.receive(session, cmd@, now, any),
                sent,
            ));
            return Outcome::Nothing;
        }
        if s.waiting_for_authenticate {
            let outcome = match cmd {
                ClientCommand::Ping => Outcome::Reply(ServerCommand::Pong),
                ClientCommand::Authenticate { token } => {
                    let token = token.into_inner();
                    if token.as_str().as_bytes().len() != TOKEN_LENGTH {
                        self.sessions[si].panicked = true;
                        proof {
                            lemma_sessions_update(noted.sessions@, self.sessions@, si as int);
                            lemma_same_rooms_and_users(noted@, self@);
                        }
                        Outcome::Reject(
                            ServerCommand::Authenticate(Err(RoomError::InvalidToken.message())),
                        )
                    } else {
                        Outcome::FetchUser { token }
                    }
                },
                _ => Outcome::Nothing,
            };
            assert(stepped(
                self@,
                outbox(out@),
                outcome@,
                before@.receive(session, cmd@, now, any),
                sent,
            ));
            return outcome;
        }
        if let ClientCommand::Ping = cmd {
            let outcome = Outcome::Reply(ServerCommand::Pong);
            assert(stepped(
                self@,
                outbox(out@),
                outcome@,
                before@.receive(session, cmd@, now, any),
                sent,
            ));
            return outcome;
        }
        match self.user_of(session) {
            Some(user) => {
                let outcome = self.process(user, cmd, out);
                proof {
                    let successor = choose|successor: i32|
                        noted@.fit_successor(user, successor) && #[trigger] stepped(
                            self@,
                            outbox(out@),
                            outcome@,
                            noted@.process(user, cmd@, successor),
                            sent,
                        );
                    assert(before@.fit_successor(user, successor));
                    assert(stepped(
                        self@,
                        outbox(out@),
                        outcome@,
                        before@.receive(session, cmd@, now, successor),
                        sent,
                    ));
                }
                outcome
            },
            None => {
                assert(stepped(
                    self@,
                    outbox(out@),
                    Outcome::Nothing@,
                    before@.receive(session, cmd@, now, any),
                    sent,
                ));
                Outcome::Nothing
            },
        }
    }
}

/// What the identity service said, as the model has it.
pub open spec fn fetched_identity(fetched: Result<Identity, String>) -> Result<
    IdentityModel,
    Seq<char>,
> {
    match fetched {
        Ok(who) => Ok(who@),
        Err(reason) => Err(reason@),
    }
}

/// A successor that fits the user of a connection.
pub open spec fn fallback(s: ServerModel, session: u128) -> i32 {
    match s.sessions[session].user {
        Some(user) => crate::server::some_successor(s, user),
        None => 0,
    }
}

/// There is a successor that fits the user of a connection.
pub proof fn lemma_fallback(s: ServerModel, session: u128)
    ensures
        fit_for(s, session, fallback(s, session)),
{
    match s.sessions[session].user {
        Some(user) => {
            crate::server::lemma_some_successor(s, user);
        },
        None => {},
    }
}

} // verus!
