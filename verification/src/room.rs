//! A room: its members, its host and the round it is in.
//!
//! The room is a state machine on plain values. Each operation changes the
//! room and appends what has to be sent to a list of deliveries; whoever runs
//! the server performs the sending. `RoomModel` is the mathematical room, and
//! every operation is proved to do what the model's function of the same
//! name says.

use crate::command::{
    frames_model, ClientRoomState, ClientRoomStateModel, JudgeEvent, Message, MessageModel, RoomId,
    RoomState, ServerCommand, ServerCommandModel, TouchFrame, UserInfo, UserInfoModel,
};
use rand::seq::SliceRandom;
use rand::thread_rng;
use std::collections::HashMap;
use std::collections::HashSet;
use std::sync::Arc;
use vstd::prelude::*;
use vstd::std_specs::hash::*;

verus! {

broadcast use vstd::std_specs::hash::group_hash_axioms;

/// The most players a room takes. Monitors do not count.
pub const ROOM_MAX_USERS: usize = 8;

/// The bit pattern of negative infinity as a single-precision number: the
/// game time of a player who has not touched the screen this round.
pub const GAME_TIME_UNSET: u32 = 0xff80_0000;

/// A playable track, as the chart service describes it.
#[derive(Clone, Debug)]
pub struct Chart {
    pub id: i32,
    pub name: String,
}

/// A chart, as the model has it.
pub struct ChartModel {
    pub id: i32,
    pub name: Seq<char>,
}

impl View for Chart {
    type V = ChartModel;

    open spec fn view(&self) -> ChartModel {
        ChartModel { id: self.id, name: self.name@ }
    }
}

/// The outcome of one play, as the score service describes it. Accuracy and
/// the two deviation figures are bit patterns of single-precision numbers.
#[derive(Clone, Copy, Debug, PartialEq, Eq, Structural)]
pub struct Record {
    pub id: i32,
    pub player: i32,
    pub score: i32,
    pub perfect: i32,
    pub good: i32,
    pub bad: i32,
    pub miss: i32,
    pub max_combo: i32,
    pub accuracy: u32,
    pub full_combo: bool,
    pub std: u32,
    pub std_score: u32,
}

/// Why a request was turned down.
#[derive(Clone, Copy, Debug, PartialEq, Eq, Structural)]
pub enum RoomError {
    NotHost,
    NoRoom,
    InvalidState,
    AlreadyInRoom,
    RoomNotFound,
    IdOccupied,
    RoomLocked,
    GameOngoing,
    CantMonitor,
    RoomFull,
    NoChartSelected,
    AlreadyReady,
    NotReady,
    InvalidRecord,
    Aborted,
    AlreadyUploaded,
    RepeatedAuthenticate,
    InvalidToken,
    FetchFailed,
}

impl RoomError {
    /// The reason as it is sent to the client. Where the server has a
    /// message catalog, the reason is the catalog's key.
    pub open spec fn reason(&self) -> Seq<char> {
        match self {
            RoomError::NotHost => "only host can do this"@,
            RoomError::NoRoom => "no room"@,
            RoomError::InvalidState => "invalid state"@,
            RoomError::AlreadyInRoom => "already in room"@,
            RoomError::RoomNotFound => "room not found"@,
            RoomError::IdOccupied => "create-id-occupied"@,
            RoomError::RoomLocked => "join-room-locked"@,
            RoomError::GameOngoing => "join-game-ongoing"@,
            RoomError::CantMonitor => "join-cant-monitor"@,
            RoomError::RoomFull => "join-room-full"@,
            RoomError::NoChartSelected => "start-no-chart-selected"@,
            RoomError::AlreadyReady => "already ready"@,
            RoomError::NotReady => "not ready"@,
            RoomError::InvalidRecord => "invalid record"@,
            RoomError::Aborted => "aborted"@,
            RoomError::AlreadyUploaded => "already uploaded"@,
            RoomError::RepeatedAuthenticate => "repeated authenticate"@,
            RoomError::InvalidToken => "invalid token"@,
            RoomError::FetchFailed => "failed to fetch info"@,
        }
    }

    /// The reason as a string.
    pub fn message(&self) -> (s: String)
        ensures
            s@ == self.reason(),
    {
        match self {
            RoomError::NotHost => "only host can do this".to_owned(),
            RoomError::NoRoom => "no room".to_owned(),
            RoomError::InvalidState => "invalid state".to_owned(),
            RoomError::AlreadyInRoom => "already in room".to_owned(),
            RoomError::RoomNotFound => "room not found".to_owned(),
            RoomError::IdOccupied => "create-id-occupied".to_owned(),
            RoomError::RoomLocked => "join-room-locked".to_owned(),
            RoomError::GameOngoing => "join-game-ongoing".to_owned(),
            RoomError::CantMonitor => "join-cant-monitor".to_owned(),
            RoomError::RoomFull => "join-room-full".to_owned(),
            RoomError::NoChartSelected => "start-no-chart-selected".to_owned(),
            RoomError::AlreadyReady => "already ready".to_owned(),
            RoomError::NotReady => "not ready".to_owned(),
            RoomError::InvalidRecord => "invalid record".to_owned(),
            RoomError::Aborted => "aborted".to_owned(),
            RoomError::AlreadyUploaded => "already uploaded".to_owned(),
            RoomError::RepeatedAuthenticate => "repeated authenticate".to_owned(),
            RoomError::InvalidToken => "invalid token".to_owned(),
            RoomError::FetchFailed => "failed to fetch info".to_owned(),
        }
    }
}

/// One command for a list of users. Whoever runs the server hands a copy to
/// the session of each of them, in the order of the list.
#[derive(Debug)]
pub struct Delivery {
    pub to: Vec<i32>,
    pub cmd: ServerCommand,
}

/// A delivery, as the model has it.
pub struct DeliveryModel {
    pub to: Seq<i32>,
    pub cmd: ServerCommandModel,
}

impl View for Delivery {
    type V = DeliveryModel;

    open spec fn view(&self) -> DeliveryModel {
        DeliveryModel { to: self.to@, cmd: self.cmd@ }
    }
}

/// The models of a list of deliveries.
pub open spec fn outbox(out: Seq<Delivery>) -> Seq<DeliveryModel> {
    Seq::new(out.len(), |i: int| out[i]@)
}

/// A user in a room. The game time is the bit pattern of the time of the
/// user's latest touch frame.
#[derive(Debug)]
pub struct Member {
    pub id: i32,
    pub name: String,
    pub game_time: u32,
}

/// A member of a room, as the model has it.
pub struct MemberModel {
    pub id: i32,
    pub name: Seq<char>,
    pub game_time: u32,
}

impl View for Member {
    type V = MemberModel;

    open spec fn view(&self) -> MemberModel {
        MemberModel { id: self.id, name: self.name@, game_time: self.game_time }
    }
}

/// The models of a list of members.
pub open spec fn members_model(members: Seq<Member>) -> Seq<MemberModel> {
    Seq::new(members.len(), |i: int| members[i]@)
}

/// The ids of a list of members, in order.
pub open spec fn member_ids(members: Seq<MemberModel>) -> Seq<i32> {
    Seq::new(members.len(), |i: int| members[i].id)
}

/// The user records of a list of members.
pub open spec fn member_infos(members: Seq<MemberModel>, monitor: bool) -> Seq<UserInfoModel> {
    Seq::new(
        members.len(),
        |i: int| UserInfoModel { id: members[i].id, name: members[i].name, monitor },
    )
}

/// The table entries of a list of members.
pub open spec fn member_entries(members: Seq<MemberModel>, monitor: bool) -> Seq<
    (i32, UserInfoModel),
> {
    Seq::new(
        members.len(),
        |i: int| (members[i].id, UserInfoModel { id: members[i].id, name: members[i].name, monitor }),
    )
}

/// A list of members without the one of a given id.
pub open spec fn without(members: Seq<MemberModel>, id: i32) -> Seq<MemberModel> {
    if member_ids(members).contains(id) {
        members.remove(member_ids(members).index_of(id))
    } else {
        members
    }
}

/// The members with every game time unset.
pub open spec fn with_times_unset(members: Seq<MemberModel>) -> Seq<MemberModel> {
    Seq::new(
        members.len(),
        |i: int| MemberModel { id: members[i].id, name: members[i].name, game_time: GAME_TIME_UNSET },
    )
}

/// The round a room is in.
#[derive(Debug)]
pub enum InternalRoomState {
    SelectChart,
    WaitForReady { started: HashSet<i32> },
    Playing { results: HashMap<i32, Record>, aborted: HashSet<i32> },
}

/// The round a room is in, as the model has it.
pub enum Phase {
    SelectChart,
    WaitForReady { started: Set<i32> },
    Playing { results: Map<i32, Record>, aborted: Set<i32> },
}

impl View for InternalRoomState {
    type V = Phase;

    open spec fn view(&self) -> Phase {
        match self {
            InternalRoomState::SelectChart => Phase::SelectChart,
            InternalRoomState::WaitForReady { started } => Phase::WaitForReady {
                started: started@,
            },
            InternalRoomState::Playing { results, aborted } => Phase::Playing {
                results: results@,
                aborted: aborted@,
            },
        }
    }
}

impl Phase {
    /// The state that clients are told.
    pub open spec fn to_client(self, chart: Option<i32>) -> RoomState {
        match self {
            Phase::SelectChart => RoomState::SelectChart(chart),
            Phase::WaitForReady { .. } => RoomState::WaitingForReady,
            Phase::Playing { .. } => RoomState::Playing,
        }
    }
}

impl InternalRoomState {
    /// The state that clients are told.
    pub fn to_client(&self, chart: Option<i32>) -> (s: RoomState)
        ensures
            s == self@.to_client(chart),
    {
        match self {
            InternalRoomState::SelectChart => RoomState::SelectChart(chart),
            InternalRoomState::WaitForReady { .. } => RoomState::WaitingForReady,
            InternalRoomState::Playing { .. } => RoomState::Playing,
        }
    }
}

/// The mathematical room.
pub struct RoomModel {
    pub id: Seq<char>,
    pub host: Option<i32>,
    pub phase: Phase,
    pub live: bool,
    pub locked: bool,
    pub cycle: bool,
    pub users: Seq<MemberModel>,
    pub monitors: Seq<MemberModel>,
    pub chart: Option<ChartModel>,
}

impl RoomModel {
    /// The ids of the players, in the order in which they came.
    pub open spec fn user_ids(self) -> Seq<i32> {
        member_ids(self.users)
    }

    /// The ids of the monitors, in the order in which they came.
    pub open spec fn monitor_ids(self) -> Seq<i32> {
        member_ids(self.monitors)
    }

    /// Everyone in the room: the players, then the monitors.
    pub open spec fn audience(self) -> Seq<i32> {
        self.user_ids() + self.monitor_ids()
    }

    /// What holds of every room: nobody is in it twice, it has at most
    /// eight players, its host is one of its players and is there as long as
    /// a player is, and a room with a monitor is live.
    pub open spec fn wf(self) -> bool {
        &&& self.audience().no_duplicates()
        &&& self.users.len() <= ROOM_MAX_USERS
        &&& match self.host {
            Some(h) => self.user_ids().contains(h),
            None => self.users.len() == 0,
        }
        &&& (self.monitors.len() > 0 ==> self.live)
        &&& match self.phase {
            Phase::SelectChart => true,
            Phase::WaitForReady { started } => started.finite(),
            Phase::Playing { results, aborted } => results.dom().finite() && aborted.finite(),
        }
    }

    /// The id of the selected chart.
    pub open spec fn chart_id(self) -> Option<i32> {
        match self.chart {
            Some(c) => Some(c.id),
            None => None,
        }
    }

    /// The state that clients are told.
    pub open spec fn public_state(self) -> RoomState {
        self.phase.to_client(self.chart_id())
    }

    /// Whether a user has declared readiness for the round.
    pub open spec fn is_ready(self, user: i32) -> bool {
        match self.phase {
            Phase::WaitForReady { started } => started.contains(user),
            _ => false,
        }
    }

    /// The room as one of its users sees it.
    pub open spec fn client_state(self, user: i32) -> ClientRoomStateModel {
        ClientRoomStateModel {
            id: self.id,
            state: self.public_state(),
            live: self.live,
            locked: self.locked,
            cycle: self.cycle,
            is_host: self.host == Some(user),
            is_ready: self.is_ready(user),
            users: member_entries(self.users, false) + member_entries(self.monitors, true),
        }
    }

    /// A command for everyone in the room.
    pub open spec fn to_all(self, cmd: ServerCommandModel) -> DeliveryModel {
        DeliveryModel { to: self.audience(), cmd }
    }

    /// A command for the monitors.
    pub open spec fn to_monitors(self, cmd: ServerCommandModel) -> DeliveryModel {
        DeliveryModel { to: self.monitor_ids(), cmd }
    }

    /// The room after a user was offered to it, and whether it took the
    /// user: a monitor always, a player while fewer than eight are there.
    /// A room that takes a monitor is live from then on.
    pub open spec fn add_user(self, user: MemberModel, monitor: bool) -> (RoomModel, bool) {
        if monitor {
            (RoomModel { monitors: self.monitors.push(user), live: true, ..self }, true)
        } else if self.users.len() >= ROOM_MAX_USERS {
            (self, false)
        } else {
            (RoomModel { users: self.users.push(user), ..self }, true)
        }
    }
}

/// A room.
#[derive(Debug)]
pub struct Room {
    pub id: RoomId,
    pub host: Option<i32>,
    pub state: InternalRoomState,
    pub live: bool,
    pub locked: bool,
    pub cycle: bool,
    pub users: Vec<Member>,
    pub monitors: Vec<Member>,
    pub chart: Option<Chart>,
}

impl View for Room {
    type V = RoomModel;

    open spec fn view(&self) -> RoomModel {
        RoomModel {
            id: self.id@,
            host: self.host,
            phase: self.state@,
            live: self.live,
            locked: self.locked,
            cycle: self.cycle,
            users: members_model(self.users@),
            monitors: members_model(self.monitors@),
            chart: match self.chart {
                Some(c) => Some(c@),
                None => None,
            },
        }
    }
}

/// Collects the ids of a list of members.
fn ids_of(members: &Vec<Member>, into: &mut Vec<i32>)
    ensures
        final(into)@ == old(into)@ + member_ids(members_model(members@)),
{
    let ghost start = into@;
    let mut i: usize = 0;
    while i < members.len()
        invariant
            i <= members.len(),
            into@ == start + member_ids(members_model(members@)).take(i as int),
        decreases members.len() - i,
    {
        into.push(members[i].id);
        i = i + 1;
        assert(into@ =~= start + member_ids(members_model(members@)).take(i as int));
    }
    assert(member_ids(members_model(members@)).take(i as int) =~= member_ids(
        members_model(members@),
    ));
}

impl Room {
    /// A room with its first player, who is its host.
    pub fn new(id: RoomId, host: i32, host_name: String) -> (room: Self)
        ensures
            room@ == (RoomModel {
                id: id@,
                host: Some(host),
                phase: Phase::SelectChart,
                live: false,
                locked: false,
                cycle: false,
                users: seq![MemberModel { id: host, name: host_name@, game_time: 0 }],
                monitors: Seq::empty(),
                chart: None,
            }),
            room@.wf(),
    {
        let mut users: Vec<Member> = Vec::new();
        users.push(Member { id: host, name: host_name, game_time: 0 });
        let room = Room {
            id,
            host: Some(host),
            state: InternalRoomState::SelectChart,
            live: false,
            locked: false,
            cycle: false,
            users,
            monitors: Vec::new(),
            chart: None,
        };
        proof {
            assert(room@.users =~= seq![MemberModel { id: host, name: host_name@, game_time: 0 }]);
            assert(room@.monitors =~= Seq::empty());
            assert(room@.audience() =~= seq![host]);
            assert(room@.user_ids()[0] == host);
        }
        room
    }

    /// Whether a monitor has joined the room.
    pub fn is_live(&self) -> (b: bool)
        ensures
            b == self@.live,
    {
        self.live
    }

    /// Whether the room takes no newcomers.
    pub fn is_locked(&self) -> (b: bool)
        ensures
            b == self@.locked,
    {
        self.locked
    }

    /// Whether the host's role moves on at the end of each round.
    pub fn is_cycle(&self) -> (b: bool)
        ensures
            b == self@.cycle,
    {
        self.cycle
    }

    /// The state that clients are told.
    pub fn client_room_state(&self) -> (s: RoomState)
        ensures
            s == self@.public_state(),
    {
        let chart: Option<i32> = match &self.chart {
            Some(c) => Some(c.id),
            None => None,
        };
        self.state.to_client(chart)
    }

    /// The ids of everyone in the room: the players, then the monitors.
    pub fn audience(&self) -> (ids: Vec<i32>)
        ensures
            ids@ == self@.audience(),
    {
        let mut ids: Vec<i32> = Vec::new();
        ids_of(&self.users, &mut ids);
        ids_of(&self.monitors, &mut ids);
        ids
    }

    /// Whether the user is the room's host.
    pub fn check_host(&self, user: i32) -> (res: Result<(), RoomError>)
        ensures
            self@.host == Some(user) ==> res == Ok::<(), RoomError>(()),
            self@.host != Some(user) ==> res == Err::<(), RoomError>(RoomError::NotHost),
    {
        match self.host {
            Some(h) => if h == user {
                Ok(())
            } else {
                Err(RoomError::NotHost)
            },
            None => Err(RoomError::NotHost),
        }
    }

    /// Queues a command for everyone in the room.
    pub fn broadcast(&self, cmd: ServerCommand, out: &mut Vec<Delivery>)
        ensures
            outbox(final(out)@) == outbox(old(out)@).push(self@.to_all(cmd@)),
    {
        let to = self.audience();
        out.push(Delivery { to, cmd });
        assert(outbox(out@) =~= outbox(old(out)@).push(self@.to_all(cmd@)));
    }

    /// Queues a command for the monitors.
    pub fn broadcast_monitors(&self, cmd: ServerCommand, out: &mut Vec<Delivery>)
        ensures
            outbox(final(out)@) == outbox(old(out)@).push(self@.to_monitors(cmd@)),
    {
        let mut to: Vec<i32> = Vec::new();
        ids_of(&self.monitors, &mut to);
        out.push(Delivery { to, cmd });
        assert(outbox(out@) =~= outbox(old(out)@).push(self@.to_monitors(cmd@)));
    }

    /// Queues a message for everyone in the room.
    #[inline]
    pub fn send(&self, msg: Message, out: &mut Vec<Delivery>)
        ensures
            outbox(final(out)@) == outbox(old(out)@).push(
                self@.to_all(ServerCommandModel::Message(msg@)),
            ),
    {
        self.broadcast(ServerCommand::Message(msg), out);
    }

    /// Queues a chat line of a user for everyone in the room.
    #[inline]
    pub fn send_as(&self, user: i32, content: String, out: &mut Vec<Delivery>)
        ensures
            outbox(final(out)@) == outbox(old(out)@).push(
                self@.to_all(
                    ServerCommandModel::Message(MessageModel::Chat { user, content: content@ }),
                ),
            ),
    {
        self.send(Message::Chat { user, content }, out);
    }

    /// Tells everyone the state of the room.
    pub fn on_state_change(&self, out: &mut Vec<Delivery>)
        ensures
            outbox(final(out)@) == outbox(old(out)@).push(
                self@.to_all(ServerCommandModel::ChangeState(self@.public_state())),
            ),
    {
        self.broadcast(ServerCommand::ChangeState(self.client_room_state()), out);
    }

    /// Offers a user to the room.
    pub fn add_user(&mut self, id: i32, name: String, monitor: bool) -> (taken: bool)
        requires
            old(self)@.wf(),
            old(self)@.host is Some,
            !old(self)@.audience().contains(id),
        ensures
            (final(self)@, taken) == old(self)@.add_user(
                MemberModel { id, name: name@, game_time: 0 },
                monitor,
            ),
            final(self)@.wf(),
    {
        let ghost before = self@;
        let member = Member { id, name, game_time: 0 };
        if monitor {
            self.monitors.push(member);
            self.live = true;
            proof {
                assert(self@.monitors =~= before.monitors.push(member@));
                assert(self@.users =~= before.users);
                assert(self@.audience() =~= before.audience().push(id) + Seq::<i32>::empty());
                assert(before.audience() + Seq::<i32>::empty() =~= before.audience());
                lemma_insert_before(before.audience(), Seq::empty(), id);
                assert(self@.user_ids() =~= before.user_ids());
            }
            true
        } else if self.users.len() >= ROOM_MAX_USERS {
            false
        } else {
            self.users.push(member);
            proof {
                assert(self@.users =~= before.users.push(member@));
                assert(self@.monitors =~= before.monitors);
                assert(self@.user_ids() =~= before.user_ids().push(id));
                lemma_insert_before(before.user_ids(), before.monitor_ids(), id);
                assert(self@.audience() =~= before.user_ids().push(id) + before.monitor_ids());
                match before.host {
                    Some(h) => {
                        let k = choose|k: int|
                            0 <= k < before.user_ids().len() && before.user_ids()[k] == h;
                        assert(self@.user_ids()[k] == h);
                    },
                    None => {},
                }
            }
            true
        }
    }

    /// The players, in the order in which they came.
    pub fn users(&self) -> (infos: Vec<UserInfo>)
        ensures
            crate::command::infos_model(infos@) == member_infos(self@.users, false),
    {
        infos_of(&self.users, false)
    }

    /// The monitors, in the order in which they came.
    pub fn monitors(&self) -> (infos: Vec<UserInfo>)
        ensures
            crate::command::infos_model(infos@) == member_infos(self@.monitors, true),
    {
        infos_of(&self.monitors, true)
    }
}

/// The user records of a list of members.
fn infos_of(members: &Vec<Member>, monitor: bool) -> (infos: Vec<UserInfo>)
    ensures
        crate::command::infos_model(infos@) == member_infos(members_model(members@), monitor),
{
    let mut infos: Vec<UserInfo> = Vec::new();
    let mut i: usize = 0;
    while i < members.len()
        invariant
            i <= members.len(),
            infos@.len() == i,
            crate::command::infos_model(infos@) == member_infos(
                members_model(members@),
                monitor,
            ).take(i as int),
        decreases members.len() - i,
    {
        let ghost prev = infos@;
        let ghost goal = member_infos(members_model(members@), monitor);
        let info = UserInfo { id: members[i].id, name: members[i].name.clone(), monitor };
        assert(info@ == goal[i as int]);
        infos.push(info);
        proof {
            assert forall|j: int| 0 <= j < i + 1 implies crate::command::infos_model(infos@)[j]
                == goal.take(i + 1)[j] by {
                if j < i {
                    assert(crate::command::infos_model(prev)[j] == goal.take(i as int)[j]);
                }
            }
        }
        i = i + 1;
        assert(crate::command::infos_model(infos@) =~= member_infos(
            members_model(members@),
            monitor,
        ).take(i as int));
    }
    assert(member_infos(members_model(members@), monitor).take(i as int) =~= member_infos(
        members_model(members@),
        monitor,
    ));
    infos
}

/// Whether every id of a list is in a set.
pub open spec fn all_in(ids: Seq<i32>, set: Set<i32>) -> bool {
    forall|i: int| 0 <= i < ids.len() ==> set.contains(#[trigger] ids[i])
}

/// A command for one user.
pub open spec fn only(user: i32, cmd: ServerCommandModel) -> DeliveryModel {
    DeliveryModel { to: seq![user], cmd }
}

/// A message as a command.
pub open spec fn note(msg: MessageModel) -> ServerCommandModel {
    ServerCommandModel::Message(msg)
}

impl RoomModel {
    /// Whether everyone in the room, monitors included, has declared
    /// readiness.
    pub open spec fn all_ready(self) -> bool {
        match self.phase {
            Phase::WaitForReady { started } => all_in(self.audience(), started),
            _ => false,
        }
    }

    /// Whether every player has handed in a result or given up.
    pub open spec fn all_done(self) -> bool {
        match self.phase {
            Phase::Playing { results, aborted } => all_in(
                self.user_ids(),
                results.dom().union(aborted),
            ),
            _ => false,
        }
    }

    /// The player behind the host in the order of arrival, the first
    /// player behind the last.
    pub open spec fn next_host(self) -> i32 {
        let at = self.user_ids().index_of(self.host->Some_0);
        self.user_ids()[(at + 1) % (self.users.len() as int)]
    }

    /// The room with every player's game time unset.
    pub open spec fn reset_game_time(self) -> RoomModel {
        RoomModel { users: with_times_unset(self.users), ..self }
    }

    /// Moves the round on where it can: from waiting to playing when
    /// everyone is ready, from playing to chart selection when every player
    /// is done. At the end of a round a cycling room hands the host's role
    /// to the next player. Gives the room afterwards and what is sent.
    pub open spec fn check_all_ready(self) -> (RoomModel, Seq<DeliveryModel>) {
        if self.all_ready() {
            let playing = RoomModel {
                phase: Phase::Playing { results: Map::empty(), aborted: Set::empty() },
                ..self.reset_game_time()
            };
            (
                playing,
                seq![
                    self.to_all(note(MessageModel::StartPlaying)),
                    playing.to_all(ServerCommandModel::ChangeState(RoomState::Playing)),
                ],
            )
        } else if self.all_done() {
            let ended = RoomModel { phase: Phase::SelectChart, ..self };
            let state = ServerCommandModel::ChangeState(ended.public_state());
            if self.cycle && self.host is Some {
                let next = self.next_host();
                let cycled = RoomModel { host: Some(next), ..ended };
                (
                    cycled,
                    seq![
                        self.to_all(note(MessageModel::GameEnd)),
                        only(self.host->Some_0, ServerCommandModel::ChangeHost(false)),
                        self.to_all(note(MessageModel::NewHost { user: next })),
                        only(next, ServerCommandModel::ChangeHost(true)),
                        self.to_all(state),
                    ],
                )
            } else {
                (ended, seq![self.to_all(note(MessageModel::GameEnd)), self.to_all(state)])
            }
        } else {
            (self, Seq::empty())
        }
    }

    /// Whether a user is in the list that its monitor flag names.
    pub open spec fn holds(self, user: i32, monitor: bool) -> bool {
        if monitor {
            self.monitor_ids().contains(user)
        } else {
            self.user_ids().contains(user)
        }
    }

    /// The room without a user.
    pub open spec fn remove_user(self, user: i32, monitor: bool) -> RoomModel {
        if monitor {
            RoomModel { monitors: without(self.monitors, user), ..self }
        } else {
            RoomModel { users: without(self.users, user), ..self }
        }
    }

    /// Whether a leaving user leaves the host's role to someone: the user
    /// is the host and another player is there.
    pub open spec fn needs_successor(self, user: i32, monitor: bool) -> bool {
        self.host == Some(user) && self.remove_user(user, monitor).users.len() > 0
    }

    /// A user leaves. Everyone, the leaver included, is told. Where the
    /// host leaves, the room ends if no player is left (the third part of
    /// the result), else `successor` becomes host. Then the round moves on
    /// where it can.
    pub open spec fn leave(self, user: i32, name: Seq<char>, monitor: bool, successor: i32) -> (
        RoomModel,
        Seq<DeliveryModel>,
        bool,
    ) {
        let said = self.to_all(note(MessageModel::LeaveRoom { user, name }));
        let left = self.remove_user(user, monitor);
        if self.host == Some(user) {
            if left.users.len() == 0 {
                (RoomModel { host: None, ..left }, seq![said], true)
            } else {
                let led = RoomModel { host: Some(successor), ..left };
                let (after, sent) = led.check_all_ready();
                (
                    after,
                    seq![
                        said,
                        led.to_all(note(MessageModel::NewHost { user: successor })),
                        only(successor, ServerCommandModel::ChangeHost(true)),
                    ] + sent,
                    false,
                )
            }
        } else {
            let (after, sent) = left.check_all_ready();
            (after, seq![said] + sent, false)
        }
    }
}

/// Taking one value out of a list without duplicates leaves a list without
/// duplicates that holds every other value and not the one taken.
pub proof fn lemma_remove_distinct(s: Seq<i32>, k: int)
    requires
        s.no_duplicates(),
        0 <= k < s.len(),
    ensures
        s.remove(k).no_duplicates(),
        !s.remove(k).contains(s[k]),
        forall|x: i32| x != s[k] ==> (s.remove(k).contains(x) <==> s.contains(x)),
{
    let r = s.remove(k);
    assert forall|i: int, j: int| 0 <= i < r.len() && 0 <= j < r.len() && i != j implies r[i]
        != r[j] by {
        let a = if i < k {
            i
        } else {
            i + 1
        };
        let b = if j < k {
            j
        } else {
            j + 1
        };
        assert(r[i] == s[a] && r[j] == s[b]);
    }
    if r.contains(s[k]) {
        let i = choose|i: int| 0 <= i < r.len() && r[i] == s[k];
        let a = if i < k {
            i
        } else {
            i + 1
        };
        assert(r[i] == s[a]);
    }
    assert forall|x: i32| x != s[k] implies (r.contains(x) <==> s.contains(x)) by {
        if r.contains(x) {
            let i = choose|i: int| 0 <= i < r.len() && r[i] == x;
            let a = if i < k {
                i
            } else {
                i + 1
            };
            assert(s[a] == x);
        }
        if s.contains(x) {
            let a = choose|a: int| 0 <= a < s.len() && s[a] == x;
            let i = if a < k {
                a
            } else {
                a - 1
            };
            assert(r[i] == x);
        }
    }
}

/// The ids of a list without a member are the ids of the list without the
/// member's id.
pub proof fn lemma_without_ids(members: Seq<MemberModel>, id: i32)
    requires
        member_ids(members).contains(id),
    ensures
        member_ids(without(members, id)) == member_ids(members).remove(
            member_ids(members).index_of(id),
        ),
        0 <= member_ids(members).index_of(id) < members.len(),
        member_ids(members)[member_ids(members).index_of(id)] == id,
{
    let k = member_ids(members).index_of(id);
    assert(member_ids(without(members, id)) =~= member_ids(members).remove(k));
}

/// A room that a member leaves keeps its members distinct, and each of the
/// others stays where it was.
pub proof fn lemma_remove_user(room: RoomModel, user: i32, monitor: bool)
    requires
        room.audience().no_duplicates(),
        room.holds(user, monitor),
    ensures
        room.remove_user(user, monitor).audience().no_duplicates(),
        !room.remove_user(user, monitor).audience().contains(user),
        room.remove_user(user, monitor).users.len() <= room.users.len(),
        forall|x: i32|
            x != user ==> (room.remove_user(user, monitor).user_ids().contains(x)
                <==> room.user_ids().contains(x)),
        forall|x: i32|
            x != user ==> (room.remove_user(user, monitor).audience().contains(x)
                <==> room.audience().contains(x)),
        !monitor ==> room.remove_user(user, monitor).monitors == room.monitors,
        monitor ==> room.remove_user(user, monitor).users == room.users,
{
    let left = room.remove_user(user, monitor);
    let users = room.user_ids();
    let monitors = room.monitor_ids();
    let all = room.audience();
    if monitor {
        lemma_without_ids(room.monitors, user);
        let k = monitors.index_of(user);
        assert(all[users.len() + k] == user);
        assert(left.audience() =~= all.remove(users.len() + k));
        lemma_remove_distinct(all, users.len() + k);
        assert(left.user_ids() =~= users);
    } else {
        lemma_without_ids(room.users, user);
        let k = users.index_of(user);
        assert(all[k] == user);
        assert(left.audience() =~= all.remove(k));
        lemma_remove_distinct(all, k);
        assert forall|x: i32| x != user implies (left.user_ids().contains(x) <==> users.contains(
            x,
        )) by {
            if left.user_ids().contains(x) {
                let i = choose|i: int| 0 <= i < left.user_ids().len() && left.user_ids()[i] == x;
                let a = if i < k {
                    i
                } else {
                    i + 1
                };
                assert(users[a] == x);
            }
            if users.contains(x) {
                let a = choose|a: int| 0 <= a < users.len() && users[a] == x;
                let i = if a < k {
                    a
                } else {
                    a - 1
                };
                assert(left.user_ids()[i] == x);
            }
        }
    }
}

/// Moving the round on keeps a room well-formed.
pub proof fn lemma_check_all_ready_wf(room: RoomModel)
    requires
        room.wf(),
    ensures
        room.check_all_ready().0.wf(),
        room.check_all_ready().0.user_ids() == room.user_ids(),
        room.check_all_ready().0.monitors == room.monitors,
        room.check_all_ready().0.id == room.id,
{
    let after = room.check_all_ready().0;
    assert(member_ids(with_times_unset(room.users)) =~= room.user_ids());
    assert(after.user_ids() =~= room.user_ids());
    if !room.all_ready() && room.all_done() && room.cycle && room.host is Some {
        let ids = room.user_ids();
        let at = ids.index_of(room.host->Some_0);
        assert(0 <= at < ids.len());
        let next = (at + 1) % (ids.len() as int);
        assert(0 <= next < ids.len());
        assert(ids[next] == room.next_host());
    }
}

/// A room that a member leaves stays well-formed.
pub proof fn lemma_leave_wf(
    room: RoomModel,
    user: i32,
    name: Seq<char>,
    monitor: bool,
    successor: i32,
)
    requires
        room.wf(),
        room.holds(user, monitor),
        room.needs_successor(user, monitor) ==> room.remove_user(
            user,
            monitor,
        ).user_ids().contains(successor),
    ensures
        room.leave(user, name, monitor, successor).0.wf(),
        !room.leave(user, name, monitor, successor).0.audience().contains(user),
        room.leave(user, name, monitor, successor).2 <==> room.host == Some(user)
            && room.remove_user(user, monitor).users.len() == 0,
        forall|x: i32|
            x != user ==> (room.leave(user, name, monitor, successor).0.audience().contains(x)
                <==> room.audience().contains(x)),
        room.leave(user, name, monitor, successor).0.id == room.id,
{
    let left = room.remove_user(user, monitor);
    lemma_remove_user(room, user, monitor);
    if room.host == Some(user) {
        if left.users.len() == 0 {
            let gone = RoomModel { host: None, ..left };
            assert(gone.audience() =~= left.audience());
        } else {
            let led = RoomModel { host: Some(successor), ..left };
            assert(led.audience() =~= left.audience());
            assert(led.user_ids() =~= left.user_ids());
            lemma_check_all_ready_wf(led);
            assert(led.check_all_ready().0.audience() =~= led.audience());
        }
    } else {
        match room.host {
            Some(h) => {
                assert(left.user_ids().contains(h));
            },
            None => {},
        }
        lemma_check_all_ready_wf(left);
        assert(left.check_all_ready().0.audience() =~= left.audience());
    }
}

/// `rand::seq::SliceRandom::choose` on the thread's generator: nothing of
/// an empty list, else one of the list's values, whichever.
#[verifier::external_body]
fn choose_id(ids: &Vec<i32>) -> (picked: Option<i32>)
    ensures
        ids@.len() == 0 ==> picked is None,
        ids@.len() > 0 ==> picked is Some && ids@.contains(picked->Some_0),
{
    ids.choose(&mut thread_rng()).copied()
}

/// Queues a command for one user.
pub fn tell(user: i32, cmd: ServerCommand, out: &mut Vec<Delivery>)
    ensures
        outbox(final(out)@) == outbox(old(out)@).push(only(user, cmd@)),
{
    let mut to: Vec<i32> = Vec::new();
    to.push(user);
    out.push(Delivery { to, cmd });
    assert(outbox(out@) =~= outbox(old(out)@).push(only(user, cmd@)));
}

/// Where in a list the member of a given id stands.
fn position(members: &Vec<Member>, id: i32) -> (at: Option<usize>)
    ensures
        match at {
            Some(k) => k < members@.len() && member_ids(members_model(members@))[k as int] == id,
            None => !member_ids(members_model(members@)).contains(id),
        },
{
    let mut i: usize = 0;
    while i < members.len()
        invariant
            i <= members.len(),
            forall|j: int| 0 <= j < i ==> member_ids(members_model(members@))[j] != id,
        decreases members.len() - i,
    {
        if members[i].id == id {
            return Some(i);
        }
        i = i + 1;
    }
    None
}

/// Whether every member of a list is in a set.
fn every_in(members: &Vec<Member>, set: &HashSet<i32>) -> (b: bool)
    ensures
        b == all_in(member_ids(members_model(members@)), set@),
{
    let ghost ids = member_ids(members_model(members@));
    let mut i: usize = 0;
    while i < members.len()
        invariant
            i <= members.len(),
            ids == member_ids(members_model(members@)),
            forall|j: int| 0 <= j < i ==> set@.contains(#[trigger] ids[j]),
        decreases members.len() - i,
    {
        if !set.contains(&members[i].id) {
            assert(!set@.contains(ids[i as int]));
            return false;
        }
        i = i + 1;
    }
    true
}

/// Whether every member of a list has a result or has given up.
fn every_done(members: &Vec<Member>, results: &HashMap<i32, Record>, aborted: &HashSet<i32>) -> (b:
    bool)
    ensures
        b == all_in(member_ids(members_model(members@)), results@.dom().union(aborted@)),
{
    let ghost ids = member_ids(members_model(members@));
    let ghost done = results@.dom().union(aborted@);
    let mut i: usize = 0;
    while i < members.len()
        invariant
            i <= members.len(),
            ids == member_ids(members_model(members@)),
            done == results@.dom().union(aborted@),
            forall|j: int| 0 <= j < i ==> done.contains(#[trigger] ids[j]),
        decreases members.len() - i,
    {
        if !results.contains_key(&members[i].id) && !aborted.contains(&members[i].id) {
            assert(!done.contains(ids[i as int]));
            return false;
        }
        i = i + 1;
    }
    true
}

/// The two parts of a list without duplicates have none either.
pub proof fn lemma_parts_distinct(front: Seq<i32>, back: Seq<i32>)
    requires
        (front + back).no_duplicates(),
    ensures
        front.no_duplicates(),
        back.no_duplicates(),
        forall|x: i32| front.contains(x) ==> !back.contains(x),
{
    let whole = front + back;
    assert forall|i: int, j: int| 0 <= i < front.len() && 0 <= j < front.len() && i != j implies front[i]
        != front[j] by {
        assert(whole[i] == front[i] && whole[j] == front[j]);
    }
    assert forall|i: int, j: int| 0 <= i < back.len() && 0 <= j < back.len() && i != j implies back[i]
        != back[j] by {
        assert(whole[front.len() + i] == back[i] && whole[front.len() + j] == back[j]);
    }
    assert forall|x: i32| front.contains(x) implies !back.contains(x) by {
        let i = choose|i: int| 0 <= i < front.len() && front[i] == x;
        if back.contains(x) {
            let j = choose|j: int| 0 <= j < back.len() && back[j] == x;
            assert(whole[i] == x && whole[front.len() + j] == x);
        }
    }
}

/// Everyone of two lists is in a set when everyone of each is.
pub proof fn lemma_all_in_concat(front: Seq<i32>, back: Seq<i32>, set: Set<i32>)
    ensures
        all_in(front + back, set) <==> all_in(front, set) && all_in(back, set),
{
    let whole = front + back;
    if all_in(whole, set) {
        assert forall|i: int| 0 <= i < front.len() implies set.contains(#[trigger] front[i]) by {
            assert(whole[i] == front[i]);
        }
        assert forall|i: int| 0 <= i < back.len() implies set.contains(#[trigger] back[i]) by {
            assert(whole[front.len() + i] == back[i]);
        }
    }
    if all_in(front, set) && all_in(back, set) {
        assert forall|i: int| 0 <= i < whole.len() implies set.contains(#[trigger] whole[i]) by {
            if i < front.len() {
                assert(whole[i] == front[i]);
            } else {
                assert(whole[i] == back[i - front.len()]);
            }
        }
    }
}

impl Room {
    /// Unsets every player's game time.
    pub fn reset_game_time(&mut self)
        ensures
            final(self)@ == old(self)@.reset_game_time(),
    {
        let ghost before = self@;
        let mut i: usize = 0;
        while i < self.users.len()
            invariant
                i <= self.users.len(),
                self.users@.len() == before.users.len(),
                self@ == (RoomModel { users: members_model(self.users@), ..before }),
                forall|j: int|
                    0 <= j < i ==> (#[trigger] self.users@[j])@ == with_times_unset(
                        before.users,
                    )[j],
                forall|j: int|
                    i <= j < self.users@.len() ==> (#[trigger] self.users@[j])@ == before.users[j],
            decreases self.users.len() - i,
        {
            let id: i32 = self.users[i].id;
            let name = self.users[i].name.clone();
            self.users.set(i, Member { id, name, game_time: GAME_TIME_UNSET });
            i = i + 1;
        }
        assert(members_model(self.users@) =~= with_times_unset(before.users));
    }

    /// Moves the round on where it can.
    pub fn check_all_ready(&mut self, out: &mut Vec<Delivery>)
        requires
            old(self)@.wf(),
        ensures
            final(self)@ == old(self)@.check_all_ready().0,
            outbox(final(out)@) == outbox(old(out)@) + old(self)@.check_all_ready().1,
            final(self)@.wf(),
    {
        let ghost before = self@;
        let ghost sent = outbox(out@);
        proof {
            lemma_check_all_ready_wf(before);
            assert(sent + Seq::<DeliveryModel>::empty() =~= sent);
        }
        let ready = match &self.state {
            InternalRoomState::WaitForReady { started } => {
                proof {
                    lemma_all_in_concat(before.user_ids(), before.monitor_ids(), started@);
                }
                every_in(&self.users, started) && every_in(&self.monitors, started)
            },
            _ => false,
        };
        if ready {
            self.send(Message::StartPlaying, out);
            self.reset_game_time();
            self.state = InternalRoomState::Playing {
                results: HashMap::new(),
                aborted: HashSet::new(),
            };
            self.on_state_change(out);
            proof {
                let goal = before.check_all_ready();
                assert(self@ == goal.0);
                assert(outbox(out@) =~= sent + goal.1);
            }
            return ;
        }
        let done = match &self.state {
            InternalRoomState::Playing { results, aborted } => every_done(
                &self.users,
                results,
                aborted,
            ),
            _ => false,
        };
        if done {
            self.send(Message::GameEnd, out);
            self.state = InternalRoomState::SelectChart;
            let turn: Option<i32> = if self.cycle {
                self.host
            } else {
                None
            };
            match turn {
                Some(host) => {
                    proof {
                        lemma_parts_distinct(before.user_ids(), before.monitor_ids());
                    }
                    let at: usize = match position(&self.users, host) {
                        Some(k) => k,
                        None => 0,
                    };
                    let next_at: usize = (at + 1) % self.users.len();
                    let next: i32 = self.users[next_at].id;
                    proof {
                        let ids = before.user_ids();
                        assert(ids.contains(host));
                        assert(ids[at as int] == host);
                        let chosen = ids.index_of(host);
                        assert(0 <= chosen < ids.len() && ids[chosen] == host);
                        assert(chosen == at);
                        assert(next == before.next_host());
                    }
                    tell(host, ServerCommand::ChangeHost(false), out);
                    self.host = Some(next);
                    assert(self@.audience() =~= before.audience());
                    self.send(Message::NewHost { user: next }, out);
                    tell(next, ServerCommand::ChangeHost(true), out);
                },
                None => {},
            }
            self.on_state_change(out);
            proof {
                let goal = before.check_all_ready();
                assert(self@.audience() =~= before.audience());
                assert(self@ == goal.0);
                assert(outbox(out@) =~= sent + goal.1);
            }
        }
    }

    /// A user leaves, and `successor` takes the host's role where the host
    /// leaves and another player is there. Says whether the room has ended.
    pub fn on_user_leave_with(
        &mut self,
        user: i32,
        name: String,
        monitor: bool,
        successor: i32,
        out: &mut Vec<Delivery>,
    ) -> (ended: bool)
        requires
            old(self)@.wf(),
            old(self)@.holds(user, monitor),
            old(self)@.needs_successor(user, monitor) ==> old(self)@.remove_user(
                user,
                monitor,
            ).user_ids().contains(successor),
        ensures
            final(self)@ == old(self)@.leave(user, name@, monitor, successor).0,
            outbox(final(out)@) == outbox(old(out)@) + old(self)@.leave(
                user,
                name@,
                monitor,
                successor,
            ).1,
            ended == old(self)@.leave(user, name@, monitor, successor).2,
            final(self)@.wf(),
    {
        let ghost before = self@;
        let ghost sent = outbox(out@);
        let ghost goal = before.leave(user, name@, monitor, successor);
        proof {
            lemma_leave_wf(before, user, name@, monitor, successor);
            lemma_remove_user(before, user, monitor);
            lemma_parts_distinct(before.user_ids(), before.monitor_ids());
        }
        self.send(Message::LeaveRoom { user, name }, out);
        if monitor {
            match position(&self.monitors, user) {
                Some(k) => {
                    let _ = self.monitors.remove(k);
                    proof {
                        let ids = before.monitor_ids();
                        let chosen = ids.index_of(user);
                        assert(0 <= chosen < ids.len() && ids[chosen] == user);
                        assert(chosen == k);
                        assert(members_model(self.monitors@) =~= before.monitors.remove(k as int));
                    }
                },
                None => {},
            }
        } else {
            match position(&self.users, user) {
                Some(k) => {
                    let _ = self.users.remove(k);
                    proof {
                        let ids = before.user_ids();
                        let chosen = ids.index_of(user);
                        assert(0 <= chosen < ids.len() && ids[chosen] == user);
                        assert(chosen == k);
                        assert(members_model(self.users@) =~= before.users.remove(k as int));
                    }
                },
                None => {},
            }
        }
        assert(self@ == before.remove_user(user, monitor));
        let was_host = match self.host {
            Some(h) => h == user,
            None => false,
        };
        if was_host {
            if self.users.len() == 0 {
                self.host = None;
                proof {
                    assert(outbox(out@) =~= sent + goal.1);
                }
                return true;
            }
            self.host = Some(successor);
            self.send(Message::NewHost { user: successor }, out);
            tell(successor, ServerCommand::ChangeHost(true), out);
        }
        let ghost led = self@;
        let ghost told = outbox(out@);
        proof {
            if before.host == Some(user) {
                assert(led.audience() =~= before.remove_user(user, monitor).audience());
                assert(led.user_ids() =~= before.remove_user(user, monitor).user_ids());
            } else {
                match before.host {
                    Some(h) => {
                        assert(led.user_ids().contains(h));
                    },
                    None => {},
                }
            }
        }
        self.check_all_ready(out);
        proof {
            assert(outbox(out@) =~= sent + goal.1);
        }
        false
    }

    /// The players that stay when a user leaves.
    fn others(&self, user: i32) -> (ids: Vec<i32>)
        ensures
            forall|x: i32| ids@.contains(x) <==> x != user && self@.user_ids().contains(x),
    {
        let ghost all = self@.user_ids();
        let mut ids: Vec<i32> = Vec::new();
        let mut i: usize = 0;
        while i < self.users.len()
            invariant
                i <= self.users.len(),
                all == self@.user_ids(),
                forall|x: i32|
                    ids@.contains(x) <==> x != user && exists|j: int|
                        0 <= j < i && #[trigger] all[j] == x,
            decreases self.users.len() - i,
        {
            let id: i32 = self.users[i].id;
            let ghost prev = ids@;
            if id != user {
                ids.push(id);
            }
            proof {
                assert forall|x: i32|
                    ids@.contains(x) <==> x != user && exists|j: int|
                        0 <= j < i + 1 && #[trigger] all[j] == x by {
                    if ids@.contains(x) {
                        let k = choose|k: int| 0 <= k < ids@.len() && ids@[k] == x;
                        if k < prev.len() {
                            assert(prev[k] == x);
                            assert(prev.contains(x));
                        } else {
                            assert(all[i as int] == x);
                        }
                    }
                    if x != user && exists|j: int| 0 <= j < i + 1 && #[trigger] all[j] == x {
                        let j = choose|j: int| 0 <= j < i + 1 && #[trigger] all[j] == x;
                        if j < i {
                            assert(prev.contains(x));
                            let k = choose|k: int| 0 <= k < prev.len() && prev[k] == x;
                            assert(ids@[k] == x);
                        } else {
                            assert(ids@[ids@.len() - 1] == x);
                        }
                    }
                }
            }
            i = i + 1;
        }
        ids
    }

    /// One of the players that stay when a user leaves, picked at random;
    /// the user itself where none stays.
    pub fn pick_successor(&self, user: i32, monitor: bool) -> (successor: i32)
        requires
            self@.wf(),
            self@.holds(user, monitor),
        ensures
            self@.needs_successor(user, monitor) ==> self@.remove_user(
                user,
                monitor,
            ).user_ids().contains(successor),
    {
        let ghost before = self@;
        let candidates = self.others(user);
        let successor: i32 = match choose_id(&candidates) {
            Some(id) => id,
            None => user,
        };
        proof {
            lemma_remove_user(before, user, monitor);
            if before.needs_successor(user, monitor) {
                let left = before.remove_user(user, monitor);
                let x = left.user_ids()[0];
                assert(left.user_ids().contains(x));
                assert(left.audience()[0] == x);
                assert(left.audience().contains(x));
                assert(candidates@.contains(x));
                assert(candidates@.len() > 0);
                assert(candidates@.contains(successor));
            }
        }
        successor
    }

    /// A user leaves. Where the host leaves and other players are there,
    /// one of them, picked at random, becomes host. Says whether the room
    /// has ended.
    #[must_use]
    pub fn on_user_leave(
        &mut self,
        user: i32,
        name: String,
        monitor: bool,
        out: &mut Vec<Delivery>,
    ) -> (ended: bool)
        requires
            old(self)@.wf(),
            old(self)@.holds(user, monitor),
        ensures
            exists|successor: i32| #[trigger]
                left_with(
                    old(self)@,
                    user,
                    name@,
                    monitor,
                    successor,
                    final(self)@,
                    outbox(old(out)@),
                    outbox(final(out)@),
                    ended,
                ),
            final(self)@.wf(),
    {
        let ghost before = self@;
        let ghost sent = outbox(out@);
        let successor: i32 = self.pick_successor(user, monitor);
        let ended = self.on_user_leave_with(user, name, monitor, successor, out);
        assert(left_with(before, user, name@, monitor, successor, self@, sent, outbox(out@), ended));
        ended
    }
}

/// What a leave with a given successor makes of a room and its outbox.
pub open spec fn left_with(
    before: RoomModel,
    user: i32,
    name: Seq<char>,
    monitor: bool,
    successor: i32,
    after: RoomModel,
    sent: Seq<DeliveryModel>,
    out: Seq<DeliveryModel>,
    ended: bool,
) -> bool {
    &&& before.needs_successor(user, monitor) ==> before.remove_user(
        user,
        monitor,
    ).user_ids().contains(successor)
    &&& after == before.leave(user, name, monitor, successor).0
    &&& out == sent + before.leave(user, name, monitor, successor).1
    &&& ended == before.leave(user, name, monitor, successor).2
}

/// What a request makes of a room: the room afterwards, what is sent, and
/// the answer.
pub type Step = (RoomModel, Seq<DeliveryModel>, Result<(), RoomError>);

/// The members with the game time of one of them set.
pub open spec fn with_time(members: Seq<MemberModel>, id: i32, time: u32) -> Seq<MemberModel> {
    Seq::new(
        members.len(),
        |i: int|
            if members[i].id == id {
                MemberModel { game_time: time, ..members[i] }
            } else {
                members[i]
            },
    )
}

impl RoomModel {
    /// A request that is turned down: nothing changes, nothing is sent.
    pub open spec fn refuse(self, why: RoomError) -> Step {
        (self, Seq::empty(), Err(why))
    }

    /// The host locks or unlocks the room; everyone is told.
    pub open spec fn lock_room(self, user: i32, lock: bool) -> Step {
        if self.host != Some(user) {
            self.refuse(RoomError::NotHost)
        } else {
            let room = RoomModel { locked: lock, ..self };
            (room, seq![room.to_all(note(MessageModel::LockRoom { lock }))], Ok(()))
        }
    }

    /// The host switches host rotation on or off; everyone is told.
    pub open spec fn cycle_room(self, user: i32, cycle: bool) -> Step {
        if self.host != Some(user) {
            self.refuse(RoomError::NotHost)
        } else {
            let room = RoomModel { cycle, ..self };
            (room, seq![room.to_all(note(MessageModel::CycleRoom { cycle }))], Ok(()))
        }
    }

    /// Whether a user may select a chart now: the room selects charts and
    /// the user is its host.
    pub open spec fn may_select_chart(self, user: i32) -> Result<(), RoomError> {
        if !(self.phase is SelectChart) {
            Err(RoomError::InvalidState)
        } else if self.host != Some(user) {
            Err(RoomError::NotHost)
        } else {
            Ok(())
        }
    }

    /// The host selects a chart; everyone is told the chart and the state.
    pub open spec fn select_chart(self, user: i32, chart: ChartModel) -> Step {
        match self.may_select_chart(user) {
            Err(why) => self.refuse(why),
            Ok(_) => {
                let room = RoomModel { chart: Some(chart), ..self };
                (
                    room,
                    seq![
                        self.to_all(
                            note(
                                MessageModel::SelectChart { user, name: chart.name, id: chart.id },
                            ),
                        ),
                        room.to_all(ServerCommandModel::ChangeState(room.public_state())),
                    ],
                    Ok(()),
                )
            },
        }
    }

    /// The host starts a round: the room waits for readiness, with the
    /// host ready, and moves on at once if nobody else is there.
    pub open spec fn request_start(self, user: i32) -> Step {
        if !(self.phase is SelectChart) {
            self.refuse(RoomError::InvalidState)
        } else if self.host != Some(user) {
            self.refuse(RoomError::NotHost)
        } else if self.chart is None {
            self.refuse(RoomError::NoChartSelected)
        } else {
            let waiting = RoomModel {
                phase: Phase::WaitForReady { started: Set::empty().insert(user) },
                ..self.reset_game_time()
            };
            let (after, sent) = waiting.check_all_ready();
            (
                after,
                seq![
                    self.to_all(note(MessageModel::GameStart { user })),
                    waiting.to_all(ServerCommandModel::ChangeState(RoomState::WaitingForReady)),
                ] + sent,
                Ok(()),
            )
        }
    }

    /// A user declares readiness.
    pub open spec fn ready(self, user: i32) -> Step {
        match self.phase {
            Phase::WaitForReady { started } => if started.contains(user) {
                self.refuse(RoomError::AlreadyReady)
            } else {
                let marked = RoomModel {
                    phase: Phase::WaitForReady { started: started.insert(user) },
                    ..self
                };
                let (after, sent) = marked.check_all_ready();
                (after, seq![self.to_all(note(MessageModel::Ready { user }))] + sent, Ok(()))
            },
            _ => self.refuse(RoomError::InvalidState),
        }
    }

    /// A user takes its readiness back. Where the host does, the round is
    /// off for everyone.
    pub open spec fn cancel_ready(self, user: i32) -> Step {
        match self.phase {
            Phase::WaitForReady { started } => if !started.contains(user) {
                self.refuse(RoomError::NotReady)
            } else if self.host == Some(user) {
                let back = RoomModel { phase: Phase::SelectChart, ..self };
                (
                    back,
                    seq![
                        self.to_all(note(MessageModel::CancelGame { user })),
                        back.to_all(ServerCommandModel::ChangeState(back.public_state())),
                    ],
                    Ok(()),
                )
            } else {
                (
                    RoomModel {
                        phase: Phase::WaitForReady { started: started.remove(user) },
                        ..self
                    },
                    seq![self.to_all(note(MessageModel::CancelReady { user }))],
                    Ok(()),
                )
            },
            _ => self.refuse(RoomError::InvalidState),
        }
    }

    /// Whether results are taken now.
    pub open spec fn may_play(self) -> Result<(), RoomError> {
        if self.phase is Playing {
            Ok(())
        } else {
            Err(RoomError::InvalidState)
        }
    }

    /// A user hands in the record of its play.
    pub open spec fn played(self, user: i32, record: Record) -> Step {
        match self.phase {
            Phase::Playing { results, aborted } => if record.player != user {
                self.refuse(RoomError::InvalidRecord)
            } else if aborted.contains(user) {
                self.refuse(RoomError::Aborted)
            } else if results.contains_key(user) {
                self.refuse(RoomError::AlreadyUploaded)
            } else {
                let scored = RoomModel {
                    phase: Phase::Playing { results: results.insert(user, record), aborted },
                    ..self
                };
                let (after, sent) = scored.check_all_ready();
                (
                    after,
                    seq![
                        self.to_all(
                            note(
                                MessageModel::Played {
                                    user,
                                    score: record.score,
                                    accuracy: record.accuracy,
                                    full_combo: record.full_combo,
                                },
                            ),
                        ),
                    ] + sent,
                    Ok(()),
                )
            },
            _ => self.refuse(RoomError::InvalidState),
        }
    }

    /// A user gives the round up.
    pub open spec fn abort(self, user: i32) -> Step {
        match self.phase {
            Phase::Playing { results, aborted } => if results.contains_key(user) {
                self.refuse(RoomError::AlreadyUploaded)
            } else if aborted.contains(user) {
                self.refuse(RoomError::Aborted)
            } else {
                let given_up = RoomModel {
                    phase: Phase::Playing { results, aborted: aborted.insert(user) },
                    ..self
                };
                let (after, sent) = given_up.check_all_ready();
                (after, seq![self.to_all(note(MessageModel::Abort { user }))] + sent, Ok(()))
            },
            _ => self.refuse(RoomError::InvalidState),
        }
    }

    /// The room with a user's game time set.
    pub open spec fn record_game_time(self, user: i32, time: u32) -> RoomModel {
        RoomModel {
            users: with_time(self.users, user, time),
            monitors: with_time(self.monitors, user, time),
            ..self
        }
    }

    /// Touch frames of a user: a live room notes the time of the last
    /// frame and passes the frames to its monitors; another room drops them.
    pub open spec fn touches(self, user: i32, frames: Seq<crate::command::TouchFrameModel>) -> (
        RoomModel,
        Seq<DeliveryModel>,
    ) {
        if !self.live {
            (self, Seq::empty())
        } else {
            let room = if frames.len() > 0 {
                self.record_game_time(user, frames.last().time)
            } else {
                self
            };
            (room, seq![room.to_monitors(ServerCommandModel::Touches { player: user, frames })])
        }
    }

    /// Judgements of a user: a live room passes them to its monitors;
    /// another room drops them.
    pub open spec fn judges(self, user: i32, judges: Seq<crate::command::JudgeEvent>) -> Seq<
        DeliveryModel,
    > {
        if !self.live {
            Seq::empty()
        } else {
            seq![self.to_monitors(ServerCommandModel::Judges { player: user, judges })]
        }
    }
}

/// A request leaves a well-formed room well-formed, with the members it had.
pub open spec fn keeps_room(before: RoomModel, after: RoomModel) -> bool {
    &&& after.wf()
    &&& after.user_ids() == before.user_ids()
    &&& after.monitor_ids() == before.monitor_ids()
    &&& after.id == before.id
}

/// A room that differs from a well-formed one in round, flags, chart or
/// game times only, and has finite sets, is well-formed.
pub proof fn lemma_same_members_wf(before: RoomModel, after: RoomModel)
    requires
        before.wf(),
        after.user_ids() == before.user_ids(),
        after.monitor_ids() == before.monitor_ids(),
        after.host == before.host,
        after.live == before.live,
        after.id == before.id,
        match after.phase {
            Phase::SelectChart => true,
            Phase::WaitForReady { started } => started.finite(),
            Phase::Playing { results, aborted } => results.dom().finite() && aborted.finite(),
        },
    ensures
        keeps_room(before, after),
{
    assert(after.users.len() == after.user_ids().len());
    assert(before.users.len() == before.user_ids().len());
    assert(after.monitors.len() == after.monitor_ids().len());
    assert(before.monitors.len() == before.monitor_ids().len());
}

/// Moving the round on keeps the members.
pub proof fn lemma_check_all_ready_keeps(room: RoomModel)
    requires
        room.wf(),
    ensures
        keeps_room(room, room.check_all_ready().0),
{
    lemma_check_all_ready_wf(room);
    assert(room.check_all_ready().0.monitor_ids() =~= room.monitor_ids());
}

impl Room {
    /// The host locks or unlocks the room.
    pub fn lock_room(&mut self, user: i32, lock: bool, out: &mut Vec<Delivery>) -> (res: Result<
        (),
        RoomError,
    >)
        requires
            old(self)@.wf(),
        ensures
            (final(self)@, outbox(final(out)@), res) == (
                old(self)@.lock_room(user, lock).0,
                outbox(old(out)@) + old(self)@.lock_room(user, lock).1,
                old(self)@.lock_room(user, lock).2,
            ),
            keeps_room(old(self)@, final(self)@),
    {
        let ghost before = self@;
        let ghost sent = outbox(out@);
        proof {
            assert(sent + Seq::<DeliveryModel>::empty() =~= sent);
            lemma_same_members_wf(before, before);
        }
        match self.check_host(user) {
            Err(e) => {
                return Err(e);
            },
            Ok(_) => {},
        }
        self.locked = lock;
        self.send(Message::LockRoom { lock }, out);
        proof {
            lemma_same_members_wf(before, self@);
            assert(outbox(out@) =~= sent + before.lock_room(user, lock).1);
        }
        Ok(())
    }

    /// The host switches host rotation on or off.
    pub fn cycle_room(&mut self, user: i32, cycle: bool, out: &mut Vec<Delivery>) -> (res: Result<
        (),
        RoomError,
    >)
        requires
            old(self)@.wf(),
        ensures
            (final(self)@, outbox(final(out)@), res) == (
                old(self)@.cycle_room(user, cycle).0,
                outbox(old(out)@) + old(self)@.cycle_room(user, cycle).1,
                old(self)@.cycle_room(user, cycle).2,
            ),
            keeps_room(old(self)@, final(self)@),
    {
        let ghost before = self@;
        let ghost sent = outbox(out@);
        proof {
            assert(sent + Seq::<DeliveryModel>::empty() =~= sent);
            lemma_same_members_wf(before, before);
        }
        match self.check_host(user) {
            Err(e) => {
                return Err(e);
            },
            Ok(_) => {},
        }
        self.cycle = cycle;
        self.send(Message::CycleRoom { cycle }, out);
        proof {
            lemma_same_members_wf(before, self@);
            assert(outbox(out@) =~= sent + before.cycle_room(user, cycle).1);
        }
        Ok(())
    }

    /// Whether a user may select a chart now.
    pub fn may_select_chart(&self, user: i32) -> (res: Result<(), RoomError>)
        ensures
            res == self@.may_select_chart(user),
    {
        match &self.state {
            InternalRoomState::SelectChart => self.check_host(user),
            _ => Err(RoomError::InvalidState),
        }
    }

    /// The host selects a chart.
    pub fn select_chart(
        &mut self,
        user: i32,
        chart: Chart,
        out: &mut Vec<Delivery>,
    ) -> (res: Result<(), RoomError>)
        requires
            old(self)@.wf(),
        ensures
            (final(self)@, outbox(final(out)@), res) == (
                old(self)@.select_chart(user, chart@).0,
                outbox(old(out)@) + old(self)@.select_chart(user, chart@).1,
                old(self)@.select_chart(user, chart@).2,
            ),
            keeps_room(old(self)@, final(self)@),
    {
        let ghost before = self@;
        let ghost sent = outbox(out@);
        proof {
            assert(sent + Seq::<DeliveryModel>::empty() =~= sent);
            lemma_same_members_wf(before, before);
        }
        match self.may_select_chart(user) {
            Err(e) => {
                return Err(e);
            },
            Ok(_) => {},
        }
        self.send(Message::SelectChart { user, name: chart.name.clone(), id: chart.id }, out);
        self.chart = Some(chart);
        self.on_state_change(out);
        proof {
            lemma_same_members_wf(before, self@);
            assert(outbox(out@) =~= sent + before.select_chart(user, chart@).1);
        }
        Ok(())
    }

    /// The host starts a round.
    pub fn request_start(&mut self, user: i32, out: &mut Vec<Delivery>) -> (res: Result<
        (),
        RoomError,
    >)
        requires
            old(self)@.wf(),
        ensures
            (final(self)@, outbox(final(out)@), res) == (
                old(self)@.request_start(user).0,
                outbox(old(out)@) + old(self)@.request_start(user).1,
                old(self)@.request_start(user).2,
            ),
            keeps_room(old(self)@, final(self)@),
    {
        let ghost before = self@;
        let ghost sent = outbox(out@);
        proof {
            assert(sent + Seq::<DeliveryModel>::empty() =~= sent);
            lemma_same_members_wf(before, before);
        }
        match self.may_select_chart(user) {
            Err(e) => {
                return Err(e);
            },
            Ok(_) => {},
        }
        if self.chart.is_none() {
            return Err(RoomError::NoChartSelected);
        }
        self.reset_game_time();
        self.send(Message::GameStart { user }, out);
        let mut started: HashSet<i32> = HashSet::new();
        started.insert(user);
        self.state = InternalRoomState::WaitForReady { started };
        self.on_state_change(out);
        proof {
            assert(member_ids(with_times_unset(before.users)) =~= before.user_ids());
            assert(self@.audience() =~= before.audience());
            lemma_same_members_wf(before, self@);
            lemma_check_all_ready_keeps(self@);
        }
        self.check_all_ready(out);
        proof {
            assert(outbox(out@) =~= sent + before.request_start(user).1);
        }
        Ok(())
    }

    /// A user declares readiness.
    pub fn ready(&mut self, user: i32, out: &mut Vec<Delivery>) -> (res: Result<(), RoomError>)
        requires
            old(self)@.wf(),
        ensures
            (final(self)@, outbox(final(out)@), res) == (
                old(self)@.ready(user).0,
                outbox(old(out)@) + old(self)@.ready(user).1,
                old(self)@.ready(user).2,
            ),
            keeps_room(old(self)@, final(self)@),
    {
        let ghost before = self@;
        let ghost sent = outbox(out@);
        proof {
            assert(sent + Seq::<DeliveryModel>::empty() =~= sent);
            lemma_same_members_wf(before, before);
        }
        match &mut self.state {
            InternalRoomState::WaitForReady { started } => {
                if started.contains(&user) {
                    return Err(RoomError::AlreadyReady);
                }
                started.insert(user);
            },
            _ => {
                return Err(RoomError::InvalidState);
            },
        }
        self.send(Message::Ready { user }, out);
        proof {
            lemma_same_members_wf(before, self@);
            lemma_check_all_ready_keeps(self@);
        }
        self.check_all_ready(out);
        proof {
            assert(outbox(out@) =~= sent + before.ready(user).1);
        }
        Ok(())
    }

    /// A user takes its readiness back.
    pub fn cancel_ready(&mut self, user: i32, out: &mut Vec<Delivery>) -> (res: Result<
        (),
        RoomError,
    >)
        requires
            old(self)@.wf(),
        ensures
            (final(self)@, outbox(final(out)@), res) == (
                old(self)@.cancel_ready(user).0,
                outbox(old(out)@) + old(self)@.cancel_ready(user).1,
                old(self)@.cancel_ready(user).2,
            ),
            keeps_room(old(self)@, final(self)@),
    {
        let ghost before = self@;
        let ghost sent = outbox(out@);
        proof {
            assert(sent + Seq::<DeliveryModel>::empty() =~= sent);
            lemma_same_members_wf(before, before);
        }
        match &mut self.state {
            InternalRoomState::WaitForReady { started } => {
                if !started.contains(&user) {
                    return Err(RoomError::NotReady);
                }
                started.remove(&user);
            },
            _ => {
                return Err(RoomError::InvalidState);
            },
        }
        if self.check_host(user).is_ok() {
            self.send(Message::CancelGame { user }, out);
            self.state = InternalRoomState::SelectChart;
            self.on_state_change(out);
        } else {
            self.send(Message::CancelReady { user }, out);
        }
        proof {
            lemma_same_members_wf(before, self@);
            assert(outbox(out@) =~= sent + before.cancel_ready(user).1);
        }
        Ok(())
    }

    /// Whether results are taken now.
    pub fn may_play(&self) -> (res: Result<(), RoomError>)
        ensures
            res == self@.may_play(),
    {
        match &self.state {
            InternalRoomState::Playing { .. } => Ok(()),
            _ => Err(RoomError::InvalidState),
        }
    }

    /// A user hands in the record of its play.
    pub fn played(&mut self, user: i32, record: Record, out: &mut Vec<Delivery>) -> (res: Result<
        (),
        RoomError,
    >)
        requires
            old(self)@.wf(),
        ensures
            (final(self)@, outbox(final(out)@), res) == (
                old(self)@.played(user, record).0,
                outbox(old(out)@) + old(self)@.played(user, record).1,
                old(self)@.played(user, record).2,
            ),
            keeps_room(old(self)@, final(self)@),
    {
        let ghost before = self@;
        let ghost sent = outbox(out@);
        proof {
            assert(sent + Seq::<DeliveryModel>::empty() =~= sent);
            lemma_same_members_wf(before, before);
        }
        match &mut self.state {
            InternalRoomState::Playing { results, aborted } => {
                if record.player != user {
                    return Err(RoomError::InvalidRecord);
                }
                if aborted.contains(&user) {
                    return Err(RoomError::Aborted);
                }
                if results.contains_key(&user) {
                    return Err(RoomError::AlreadyUploaded);
                }
                results.insert(user, record);
            },
            _ => {
                return Err(RoomError::InvalidState);
            },
        }
        self.send(
            Message::Played {
                user,
                score: record.score,
                accuracy: record.accuracy,
                full_combo: record.full_combo,
            },
            out,
        );
        proof {
            lemma_same_members_wf(before, self@);
            lemma_check_all_ready_keeps(self@);
        }
        self.check_all_ready(out);
        proof {
            assert(outbox(out@) =~= sent + before.played(user, record).1);
        }
        Ok(())
    }

    /// A user gives the round up.
    pub fn abort(&mut self, user: i32, out: &mut Vec<Delivery>) -> (res: Result<(), RoomError>)
        requires
            old(self)@.wf(),
        ensures
            (final(self)@, outbox(final(out)@), res) == (
                old(self)@.abort(user).0,
                outbox(old(out)@) + old(self)@.abort(user).1,
                old(self)@.abort(user).2,
            ),
            keeps_room(old(self)@, final(self)@),
    {
        let ghost before = self@;
        let ghost sent = outbox(out@);
        proof {
            assert(sent + Seq::<DeliveryModel>::empty() =~= sent);
            lemma_same_members_wf(before, before);
        }
        match &mut self.state {
            InternalRoomState::Playing { results, aborted } => {
                if results.contains_key(&user) {
                    return Err(RoomError::AlreadyUploaded);
                }
                if aborted.contains(&user) {
                    return Err(RoomError::Aborted);
                }
                aborted.insert(user);
            },
            _ => {
                return Err(RoomError::InvalidState);
            },
        }
        self.send(Message::Abort { user }, out);
        proof {
            lemma_same_members_wf(before, self@);
            lemma_check_all_ready_keeps(self@);
        }
        self.check_all_ready(out);
        proof {
            assert(outbox(out@) =~= sent + before.abort(user).1);
        }
        Ok(())
    }
}

/// Sets the game time of the member of a given id.
fn set_time(members: &mut Vec<Member>, id: i32, time: u32)
    ensures
        members_model(final(members)@) == with_time(members_model(old(members)@), id, time),
{
    let ghost before = members_model(members@);
    let mut i: usize = 0;
    while i < members.len()
        invariant
            i <= members.len(),
            members@.len() == before.len(),
            forall|j: int|
                0 <= j < i ==> (#[trigger] members@[j])@ == with_time(before, id, time)[j],
            forall|j: int| i <= j < members@.len() ==> (#[trigger] members@[j])@ == before[j],
        decreases members.len() - i,
    {
        if members[i].id == id {
            let name = members[i].name.clone();
            members.set(i, Member { id, name, game_time: time });
        }
        i = i + 1;
    }
    assert(members_model(members@) =~= with_time(before, id, time));
}

/// Puts the members of a list into a table.
fn entries_of(members: &Vec<Member>, monitor: bool, into: &mut crate::command::UserTable)
    requires
        crate::command::entry_keys(old(into)@ + member_entries(members_model(members@), monitor)).no_duplicates(),
    ensures
        final(into)@ == old(into)@ + member_entries(members_model(members@), monitor),
{
    let ghost start = into@;
    let ghost goal = member_entries(members_model(members@), monitor);
    let mut i: usize = 0;
    while i < members.len()
        invariant
            i <= members.len(),
            goal == member_entries(members_model(members@), monitor),
            crate::command::entry_keys(start + goal).no_duplicates(),
            into@ == start + goal.take(i as int),
        decreases members.len() - i,
    {
        let ghost prev = into@;
        let info = UserInfo { id: members[i].id, name: members[i].name.clone(), monitor };
        assert((members[i as int].id, info@) == goal[i as int]);
        into.insert(members[i].id, info);
        proof {
            let keys = crate::command::entry_keys(prev);
            let all = crate::command::entry_keys(start + goal);
            if keys.contains(goal[i as int].0) {
                let k = choose|k: int| 0 <= k < keys.len() && keys[k] == goal[i as int].0;
                assert(all[k] == keys[k]);
                assert(all[start.len() + i] == goal[i as int].0);
            }
            assert(into@ =~= start + goal.take(i + 1));
        }
        i = i + 1;
    }
    assert(goal.take(i as int) =~= goal);
}

impl Room {
    /// Notes the time of a user's latest touch frame.
    pub fn record_game_time(&mut self, user: i32, time: u32)
        ensures
            final(self)@ == old(self)@.record_game_time(user, time),
    {
        set_time(&mut self.users, user, time);
        set_time(&mut self.monitors, user, time);
    }

    /// Takes touch frames of a user.
    pub fn touches(&mut self, user: i32, frames: Arc<Vec<TouchFrame>>, out: &mut Vec<Delivery>)
        requires
            old(self)@.wf(),
        ensures
            final(self)@ == old(self)@.touches(user, frames_model(frames@)).0,
            outbox(final(out)@) == outbox(old(out)@) + old(self)@.touches(
                user,
                frames_model(frames@),
            ).1,
            keeps_room(old(self)@, final(self)@),
    {
        let ghost before = self@;
        let ghost sent = outbox(out@);
        proof {
            assert(sent + Seq::<DeliveryModel>::empty() =~= sent);
            lemma_same_members_wf(before, before);
        }
        if !self.live {
            return ;
        }
        let count: usize = frames.len();
        if count > 0 {
            let time: u32 = frames[count - 1].time;
            self.record_game_time(user, time);
            proof {
                assert(member_ids(with_time(before.users, user, time)) =~= before.user_ids());
                assert(member_ids(with_time(before.monitors, user, time))
                    =~= before.monitor_ids());
                assert(frames_model(frames@).last().time == time);
            }
        }
        proof {
            lemma_same_members_wf(before, self@);
        }
        self.broadcast_monitors(ServerCommand::Touches { player: user, frames }, out);
        proof {
            assert(outbox(out@) =~= sent + before.touches(user, frames_model(frames@)).1);
        }
    }

    /// Takes judgements of a user.
    pub fn judges(&self, user: i32, judges: Arc<Vec<JudgeEvent>>, out: &mut Vec<Delivery>)
        ensures
            outbox(final(out)@) == outbox(old(out)@) + self@.judges(user, judges@),
    {
        let ghost sent = outbox(out@);
        if !self.live {
            assert(sent + Seq::<DeliveryModel>::empty() =~= sent);
            return ;
        }
        self.broadcast_monitors(ServerCommand::Judges { player: user, judges }, out);
        assert(outbox(out@) =~= sent + self@.judges(user, judges@));
    }

    /// The room as one of its users sees it.
    pub fn client_state(&self, user: i32) -> (state: ClientRoomState)
        requires
            self@.wf(),
        ensures
            state@ == self@.client_state(user),
    {
        let is_ready = match &self.state {
            InternalRoomState::WaitForReady { started } => started.contains(&user),
            _ => false,
        };
        let mut users = crate::command::UserTable::new();
        proof {
            let a = member_entries(self@.users, false);
            let b = member_entries(self@.monitors, true);
            assert(crate::command::entry_keys(a + b) =~= self@.audience());
            assert(Seq::<(i32, UserInfoModel)>::empty() + a =~= a);
            lemma_parts_distinct(self@.user_ids(), self@.monitor_ids());
            assert(crate::command::entry_keys(a) =~= self@.user_ids());
        }
        entries_of(&self.users, false, &mut users);
        assert(users@ =~= member_entries(self@.users, false));
        entries_of(&self.monitors, true, &mut users);
        let state = ClientRoomState {
            id: self.id.duplicate(),
            state: self.client_room_state(),
            live: self.live,
            locked: self.locked,
            cycle: self.cycle,
            is_host: self.check_host(user).is_ok(),
            is_ready,
            users,
        };
        state
    }
}

/// A list without duplicates stays so when a new value is put between
/// its two parts.
pub proof fn lemma_insert_before(front: Seq<i32>, back: Seq<i32>, x: i32)
    requires
        (front + back).no_duplicates(),
        !(front + back).contains(x),
    ensures
        (front.push(x) + back).no_duplicates(),
{
    let whole = front + back;
    let grown = front.push(x) + back;
    assert forall|i: int, j: int| 0 <= i < grown.len() && 0 <= j < grown.len() && i != j implies grown[i]
        != grown[j] by {
        let a = if i < front.len() {
            i
        } else {
            i - 1
        };
        let b = if j < front.len() {
            j
        } else {
            j - 1
        };
        if i != front.len() {
            assert(whole[a] == grown[i]);
        }
        if j != front.len() {
            assert(whole[b] == grown[j]);
        }
    }
}

} // verus!
