//! The client's side: its picture of the room, the calls it waits on, its
//! heartbeat, and the telemetry of the players it watches.
//!
//! Whoever owns the connection sends the requests and hands what arrives to
//! `Client::process`; the client says what to do with it.

use crate::command::{
    frames_model, upsert, upsert_all, without_key, ClientRoomState, ClientRoomStateModel,
    CompactPos, JoinRoomResponse, JoinRoomResponseModel, JudgeEvent, Message, MessageModel, RoomId,
    RoomState, ServerCommand, ServerCommandModel, TouchFrame, TouchFrameModel, UserInfo,
    UserInfoModel, UserTable,
};
use dashmap::DashMap;
use vstd::prelude::*;

verus! {

/// How long a call waits for its answer, in milliseconds.
pub const TIMEOUT: u64 = 7_000;

/// How long the client waits between two heartbeats, in milliseconds.
pub const HEARTBEAT_INTERVAL: u64 = 3_000;

/// How long a heartbeat waits for its answer, in milliseconds.
pub const HEARTBEAT_TIMEOUT: u64 = 2_000;

/// The telemetry of one player.
#[derive(Debug)]
pub struct LivePlayer {
    pub touch_frames: Vec<TouchFrame>,
    pub judge_events: Vec<JudgeEvent>,
}

/// The telemetry of one player, as sequences.
pub struct LivePlayerModel {
    pub touch_frames: Seq<TouchFrameModel>,
    pub judge_events: Seq<JudgeEvent>,
}

impl View for LivePlayer {
    type V = LivePlayerModel;

    open spec fn view(&self) -> LivePlayerModel {
        LivePlayerModel {
            touch_frames: frames_model(self.touch_frames@),
            judge_events: self.judge_events@,
        }
    }
}

impl LivePlayer {
    /// Telemetry with nothing in it.
    pub fn new() -> (buffers: Self)
        ensures
            buffers@ == LivePlayerModel::empty(),
    {
        let buffers = LivePlayer { touch_frames: Vec::new(), judge_events: Vec::new() };
        assert(buffers@.touch_frames =~= Seq::empty());
        buffers
    }
}

impl LivePlayerModel {
    /// Telemetry with nothing in it.
    pub open spec fn empty() -> LivePlayerModel {
        LivePlayerModel { touch_frames: Seq::empty(), judge_events: Seq::empty() }
    }
}

/// `dashmap::DashMap`, carried as it is: what it holds is known through
/// `live_contents` only.
#[verifier::external_type_specification]
#[verifier::external_body]
#[verifier::reject_recursive_types(K)]
#[verifier::reject_recursive_types(V)]
#[verifier::reject_recursive_types(S)]
pub struct ExDashMap<K, V, S>(DashMap<K, V, S>);

/// What a map of telemetry holds: the telemetry of each player it has.
pub uninterp spec fn live_contents(map: DashMap<i32, LivePlayer>) -> Map<i32, LivePlayer>;

/// The telemetry of nobody.
pub open spec fn no_telemetry() -> Map<i32, LivePlayer> {
    Map::empty()
}

/// `DashMap::new`: a map that holds nothing.
#[verifier::external_body]
fn live_new() -> (map: DashMap<i32, LivePlayer>)
    ensures
        live_contents(map) == no_telemetry(),
{
    DashMap::new()
}

/// `DashMap::insert`: the map holds the value under the key, in the place
/// of what the key had.
#[verifier::external_body]
fn live_insert(map: &mut DashMap<i32, LivePlayer>, player: i32, buffers: LivePlayer)
    ensures
        live_contents(*final(map)) == live_contents(*old(map)).insert(player, buffers),
{
    map.insert(player, buffers);
}

/// `DashMap::remove`: the map holds the key no more, and what it had
/// under the key comes back.
#[verifier::external_body]
fn live_remove(map: &mut DashMap<i32, LivePlayer>, player: i32) -> (taken: Option<LivePlayer>)
    ensures
        live_contents(*final(map)) == live_contents(*old(map)).remove(player),
        taken == if live_contents(*old(map)).contains_key(player) {
            Some(live_contents(*old(map))[player])
        } else {
            None
        },
{
    map.remove(&player).map(|entry| entry.1)
}

/// `DashMap::clear`: the map holds nothing.
#[verifier::external_body]
fn live_clear(map: &mut DashMap<i32, LivePlayer>)
    ensures
        live_contents(*final(map)) == no_telemetry(),
{
    map.clear();
}

/// The calls that wait for an answer, one kind each.
#[derive(Clone, Copy, Debug, PartialEq, Eq, Structural, Hash)]
pub enum CallKind {
    Authenticate,
    Chat,
    CreateRoom,
    JoinRoom,
    LeaveRoom,
    LockRoom,
    CycleRoom,
    SelectChart,
    RequestStart,
    Ready,
    CancelReady,
    Played,
    Abort,
}

/// The answer to a call.
#[derive(Debug)]
pub enum Reply {
    Authenticate(Result<(UserInfo, Option<ClientRoomState>), String>),
    JoinRoom(Result<JoinRoomResponse, String>),
    Plain(CallKind, Result<(), String>),
}

/// The answer to a call, as the model has it.
pub enum ReplyModel {
    Authenticate(Result<(UserInfoModel, Option<ClientRoomStateModel>), Seq<char>>),
    JoinRoom(Result<JoinRoomResponseModel, Seq<char>>),
    Plain(CallKind, Result<(), Seq<char>>),
}

impl View for Reply {
    type V = ReplyModel;

    open spec fn view(&self) -> ReplyModel {
        match self {
            Reply::Authenticate(r) => ReplyModel::Authenticate(
                match r {
                    Ok((info, room)) => Ok(
                        (
                            info@,
                            match room {
                                Some(state) => Some(state@),
                                None => None,
                            },
                        ),
                    ),
                    Err(reason) => Err(reason@),
                },
            ),
            Reply::JoinRoom(r) => ReplyModel::JoinRoom(
                match r {
                    Ok(resp) => Ok(resp@),
                    Err(reason) => Err(reason@),
                },
            ),
            Reply::Plain(kind, r) => ReplyModel::Plain(*kind, crate::command::reply_model(*r)),
        }
    }
}

impl ReplyModel {
    /// The kind of call that an answer answers.
    pub open spec fn kind(self) -> CallKind {
        match self {
            ReplyModel::Authenticate(_) => CallKind::Authenticate,
            ReplyModel::JoinRoom(_) => CallKind::JoinRoom,
            ReplyModel::Plain(kind, _) => kind,
        }
    }
}

/// What the owner of the connection does with a command that arrived.
#[derive(Debug)]
pub enum ClientStep {
    /// Nothing.
    Nothing,
    /// Tell the heartbeat that its answer is there.
    Pong,
    /// Hand the answer to the call that waits for it.
    Resolve(Reply),
}

/// What to do with a command that arrived, as the model has it.
pub enum ClientStepModel {
    Nothing,
    Pong,
    Resolve(ReplyModel),
}

impl View for ClientStep {
    type V = ClientStepModel;

    open spec fn view(&self) -> ClientStepModel {
        match self {
            ClientStep::Nothing => ClientStepModel::Nothing,
            ClientStep::Pong => ClientStepModel::Pong,
            ClientStep::Resolve(reply) => ClientStepModel::Resolve(reply@),
        }
    }
}

/// How a heartbeat ended.
#[derive(Clone, Copy, Debug, PartialEq, Eq, Structural)]
pub enum Beat {
    /// The ping could not be sent.
    SendFailed,
    /// No answer came in time.
    TimedOut,
    /// The answer came.
    Answered,
}

/// The number of a kind of call.
pub open spec fn slot(kind: CallKind) -> u16 {
    match kind {
        CallKind::Authenticate => 0,
        CallKind::Chat => 1,
        CallKind::CreateRoom => 2,
        CallKind::JoinRoom => 3,
        CallKind::LeaveRoom => 4,
        CallKind::LockRoom => 5,
        CallKind::CycleRoom => 6,
        CallKind::SelectChart => 7,
        CallKind::RequestStart => 8,
        CallKind::Ready => 9,
        CallKind::CancelReady => 10,
        CallKind::Played => 11,
        CallKind::Abort => 12,
    }
}

/// Setting or clearing one bit of a word changes that bit and no other.
proof fn lemma_one_bit(word: u16, i: u16, j: u16)
    requires
        i < 16,
        j < 16,
    ensures
        ((word | (1u16 << i)) & (1u16 << j) != 0) == (i == j || word & (1u16 << j) != 0),
        ((word & !(1u16 << i)) & (1u16 << j) != 0) == (i != j && word & (1u16 << j) != 0),
{
    assert(((word | (1u16 << i)) & (1u16 << j) != 0) == (i == j || word & (1u16 << j) != 0))
        by (bit_vector)
        requires
            i < 16,
            j < 16,
    ;
    assert(((word & !(1u16 << i)) & (1u16 << j) != 0) == (i != j && word & (1u16 << j) != 0))
        by (bit_vector)
        requires
            i < 16,
            j < 16,
    ;
}

/// The calls that wait: one bit for each kind.
#[derive(Clone, Copy, Debug)]
pub struct Slots {
    word: u16,
}

impl Slots {
    /// Whether a call of a kind waits.
    pub closed spec fn waits(&self, kind: CallKind) -> bool {
        self.word & (1u16 << slot(kind)) != 0
    }

    /// The kinds of which a call waits.
    pub open spec fn view(&self) -> Set<CallKind> {
        Set::new(|kind: CallKind| self.waits(kind))
    }

    /// No call waits.
    pub fn new() -> (slots: Self)
        ensures
            slots.view() == Set::<CallKind>::empty(),
    {
        let slots = Slots { word: 0 };
        proof {
            assert forall|kind: CallKind| !slots.waits(kind) by {
                let i = slot(kind);
                assert(0u16 & (1u16 << i) == 0) by (bit_vector);
            }
            assert(slots.view() =~= Set::<CallKind>::empty());
        }
        slots
    }

    /// The number of a kind of call.
    fn number(kind: CallKind) -> (i: u16)
        ensures
            i == slot(kind),
            i < 13,
    {
        match kind {
            CallKind::Authenticate => 0,
            CallKind::Chat => 1,
            CallKind::CreateRoom => 2,
            CallKind::JoinRoom => 3,
            CallKind::LeaveRoom => 4,
            CallKind::LockRoom => 5,
            CallKind::CycleRoom => 6,
            CallKind::SelectChart => 7,
            CallKind::RequestStart => 8,
            CallKind::Ready => 9,
            CallKind::CancelReady => 10,
            CallKind::Played => 11,
            CallKind::Abort => 12,
        }
    }

    /// Whether a call of a kind waits.
    pub fn get(&self, kind: CallKind) -> (waits: bool)
        ensures
            waits == self.view().contains(kind),
    {
        let i: u16 = Self::number(kind);
        self.word & (1u16 << i) != 0
    }

    /// Makes a call of a kind wait, or wait no more.
    pub fn set(&mut self, kind: CallKind, waits: bool)
        ensures
            final(self).view() == if waits {
                old(self).view().insert(kind)
            } else {
                old(self).view().remove(kind)
            },
    {
        let i: u16 = Self::number(kind);
        let ghost before = self.word;
        if waits {
            self.word = self.word | (1u16 << i);
        } else {
            self.word = self.word & !(1u16 << i);
        }
        proof {
            let goal = if waits {
                old(self).view().insert(kind)
            } else {
                old(self).view().remove(kind)
            };
            assert forall|k: CallKind| self.view().contains(k) == goal.contains(k) by {
                lemma_one_bit(before, i, slot(k));
            }
            assert(self.view() =~= goal);
        }
    }
}

/// The mathematical client.
pub struct ClientModel {
    pub delay: Option<u64>,
    pub me: Option<UserInfoModel>,
    pub room: Option<ClientRoomStateModel>,
    pub pending: Set<CallKind>,
    pub live: Map<i32, LivePlayerModel>,
    pub messages: Seq<MessageModel>,
    pub ping_fail_count: u8,
}

/// The telemetry of a player that a map has, or none yet.
pub open spec fn live_of(live: Map<i32, LivePlayerModel>, player: i32) -> LivePlayerModel {
    if live.contains_key(player) {
        live[player]
    } else {
        LivePlayerModel::empty()
    }
}

/// The table entries of a list of user records, each under its id.
pub open spec fn entries_of(infos: Seq<UserInfoModel>) -> Seq<(i32, UserInfoModel)> {
    Seq::new(infos.len(), |i: int| (infos[i].id, infos[i]))
}

/// The picture of a room after a message about it.
pub open spec fn room_after(room: ClientRoomStateModel, msg: MessageModel) -> ClientRoomStateModel {
    match msg {
        MessageModel::LockRoom { lock } => ClientRoomStateModel { locked: lock, ..room },
        MessageModel::CycleRoom { cycle } => ClientRoomStateModel { cycle, ..room },
        MessageModel::LeaveRoom { user, .. } => ClientRoomStateModel {
            users: without_key(room.users, user),
            ..room
        },
        _ => room,
    }
}

impl ClientModel {
    /// An answer arrives: it goes to the call of its kind that waits, and
    /// nowhere if none does.
    pub open spec fn resolve(self, reply: ReplyModel) -> (ClientModel, ClientStepModel) {
        if self.pending.contains(reply.kind()) {
            (
                ClientModel { pending: self.pending.remove(reply.kind()), ..self },
                ClientStepModel::Resolve(reply),
            )
        } else {
            (self, ClientStepModel::Nothing)
        }
    }

    /// What a command from the server makes of the client.
    pub open spec fn process(self, cmd: ServerCommandModel) -> (ClientModel, ClientStepModel) {
        match cmd {
            ServerCommandModel::Pong => (self, ClientStepModel::Pong),
            ServerCommandModel::Touches { player, frames } => {
                let had = live_of(self.live, player);
                (
                    ClientModel {
                        live: self.live.insert(
                            player,
                            LivePlayerModel { touch_frames: had.touch_frames + frames, ..had },
                        ),
                        ..self
                    },
                    ClientStepModel::Nothing,
                )
            },
            ServerCommandModel::Judges { player, judges } => {
                let had = live_of(self.live, player);
                (
                    ClientModel {
                        live: self.live.insert(
                            player,
                            LivePlayerModel { judge_events: had.judge_events + judges, ..had },
                        ),
                        ..self
                    },
                    ClientStepModel::Nothing,
                )
            },
            ServerCommandModel::Message(msg) => (
                ClientModel {
                    room: match self.room {
                        Some(room) => Some(room_after(room, msg)),
                        None => None,
                    },
                    messages: self.messages.push(msg),
                    ..self
                },
                ClientStepModel::Nothing,
            ),
            ServerCommandModel::ChangeState(state) => (
                ClientModel {
                    live: Map::empty(),
                    room: match self.room {
                        Some(room) => Some(
                            ClientRoomStateModel { state, is_ready: room.is_host, ..room },
                        ),
                        None => None,
                    },
                    ..self
                },
                ClientStepModel::Nothing,
            ),
            ServerCommandModel::ChangeHost(is_host) => (
                ClientModel {
                    room: match self.room {
                        Some(room) => Some(ClientRoomStateModel { is_host, ..room }),
                        None => None,
                    },
                    ..self
                },
                ClientStepModel::Nothing,
            ),
            ServerCommandModel::OnJoinRoom(info) => (
                ClientModel {
                    room: match self.room {
                        Some(room) => Some(
                            ClientRoomStateModel {
                                live: room.live || info.monitor,
                                users: upsert(room.users, info.id, info),
                                ..room
                            },
                        ),
                        None => None,
                    },
                    ..self
                },
                ClientStepModel::Nothing,
            ),
            ServerCommandModel::Authenticate(r) => self.resolve(ReplyModel::Authenticate(r)),
            ServerCommandModel::JoinRoom(r) => self.resolve(ReplyModel::JoinRoom(r)),
            ServerCommandModel::Chat(r) => self.resolve(ReplyModel::Plain(CallKind::Chat, r)),
            ServerCommandModel::CreateRoom(r) => self.resolve(
                ReplyModel::Plain(CallKind::CreateRoom, r),
            ),
            ServerCommandModel::LeaveRoom(r) => self.resolve(
                ReplyModel::Plain(CallKind::LeaveRoom, r),
            ),
            ServerCommandModel::LockRoom(r) => self.resolve(
                ReplyModel::Plain(CallKind::LockRoom, r),
            ),
            ServerCommandModel::CycleRoom(r) => self.resolve(
                ReplyModel::Plain(CallKind::CycleRoom, r),
            ),
            ServerCommandModel::SelectChart(r) => self.resolve(
                ReplyModel::Plain(CallKind::SelectChart, r),
            ),
            ServerCommandModel::RequestStart(r) => self.resolve(
                ReplyModel::Plain(CallKind::RequestStart, r),
            ),
            ServerCommandModel::Ready(r) => self.resolve(ReplyModel::Plain(CallKind::Ready, r)),
            ServerCommandModel::CancelReady(r) => self.resolve(
                ReplyModel::Plain(CallKind::CancelReady, r),
            ),
            ServerCommandModel::Played(r) => self.resolve(ReplyModel::Plain(CallKind::Played, r)),
            ServerCommandModel::Abort(r) => self.resolve(ReplyModel::Plain(CallKind::Abort, r)),
        }
    }

    /// The picture of a room that the user has just made.
    pub open spec fn created(id: Seq<char>, me: UserInfoModel) -> ClientRoomStateModel {
        ClientRoomStateModel {
            id,
            state: RoomState::SelectChart(None),
            live: false,
            locked: false,
            cycle: false,
            is_host: true,
            is_ready: false,
            users: seq![(me.id, me)],
        }
    }

    /// The picture of a room that the user has just joined.
    pub open spec fn joined(id: Seq<char>, resp: JoinRoomResponseModel) -> ClientRoomStateModel {
        ClientRoomStateModel {
            id,
            state: resp.state,
            live: resp.live,
            locked: false,
            cycle: false,
            is_host: false,
            is_ready: false,
            users: upsert_all(Seq::empty(), entries_of(resp.users)),
        }
    }

    /// The client after a heartbeat: a missed answer counts, an answer
    /// clears the count, and the time that the heartbeat took is noted.
    pub open spec fn heartbeat(self, beat: Beat, elapsed: u64) -> ClientModel {
        ClientModel {
            ping_fail_count: match beat {
                Beat::SendFailed => self.ping_fail_count,
                Beat::TimedOut => if self.ping_fail_count == u8::MAX {
                    0
                } else {
                    (self.ping_fail_count + 1) as u8
                },
                Beat::Answered => 0,
            },
            delay: Some(elapsed),
            ..self
        }
    }
}

/// The client's state.
pub struct Client {
    pub delay: Option<u64>,
    pub me: Option<UserInfo>,
    pub room: Option<ClientRoomState>,
    pub pending: Slots,
    live_players: DashMap<i32, LivePlayer>,
    pub messages: Vec<Message>,
    pub ping_fail_count: u8,
}

/// The models of a sequence of messages.
pub open spec fn messages_model(messages: Seq<Message>) -> Seq<MessageModel> {
    Seq::new(messages.len(), |i: int| messages[i]@)
}

impl View for Client {
    type V = ClientModel;

    closed spec fn view(&self) -> ClientModel {
        ClientModel {
            delay: self.delay,
            me: match self.me {
                Some(me) => Some(me@),
                None => None,
            },
            room: match self.room {
                Some(room) => Some(room@),
                None => None,
            },
            pending: self.pending.view(),
            live: live_contents(self.live_players).map_values(|buffers: LivePlayer| buffers@),
            messages: messages_model(self.messages@),
            ping_fail_count: self.ping_fail_count,
        }
    }
}

/// A copy of a touch frame.
fn copy_frame(frame: &TouchFrame) -> (copy: TouchFrame)
    ensures
        copy@ == frame@,
{
    let mut points: Vec<(i8, CompactPos)> = Vec::new();
    let mut i: usize = 0;
    while i < frame.points.len()
        invariant
            i <= frame.points.len(),
            points@ == frame.points@.take(i as int),
        decreases frame.points.len() - i,
    {
        points.push(frame.points[i]);
        i = i + 1;
        assert(points@ =~= frame.points@.take(i as int));
    }
    assert(frame.points@.take(i as int) =~= frame.points@);
    TouchFrame { time: frame.time, points }
}

impl Client {
    /// A client that knows nothing yet.
    pub fn new() -> (client: Self)
        ensures
            client@ == (ClientModel {
                delay: None,
                me: None,
                room: None,
                pending: Set::empty(),
                live: Map::empty(),
                messages: Seq::empty(),
                ping_fail_count: 0,
            }),
    {
        let client = Client {
            delay: None,
            me: None,
            room: None,
            pending: Slots::new(),
            live_players: live_new(),
            messages: Vec::new(),
            ping_fail_count: 0,
        };
        proof {
            assert(client@.live =~= Map::empty());
            assert(client@.messages =~= Seq::empty());
        }
        client
    }

    /// The telemetry of a player that has come in since it was last
    /// taken. A player that the client did not know is known from now on.
    pub fn live_player(&mut self, player: i32) -> (buffers: LivePlayer)
        ensures
            buffers@ == live_of(old(self)@.live, player),
            final(self)@ == (ClientModel {
                live: old(self)@.live.insert(player, LivePlayerModel::empty()),
                ..old(self)@
            }),
    {
        let ghost before = live_contents(self.live_players);
        let taken = match live_remove(&mut self.live_players, player) {
            Some(buffers) => buffers,
            None => LivePlayer::new(),
        };
        let fresh = LivePlayer::new();
        live_insert(&mut self.live_players, player, fresh);
        proof {
            assert(self@.live =~= old(self)@.live.insert(player, LivePlayerModel::empty()));
        }
        taken
    }

    /// Puts touch frames behind those that a player has.
    fn add_touches(&mut self, player: i32, frames: &Vec<TouchFrame>)
        ensures
            final(self)@ == old(self)@.process(
                ServerCommandModel::Touches { player, frames: frames_model(frames@) },
            ).0,
    {
        let ghost before = *self;
        let mut buffers = match live_remove(&mut self.live_players, player) {
            Some(buffers) => buffers,
            None => LivePlayer::new(),
        };
        let ghost had = buffers@;
        assert(had == live_of(before@.live, player));
        let mut i: usize = 0;
        while i < frames.len()
            invariant
                i <= frames.len(),
                buffers@.judge_events == had.judge_events,
                buffers@.touch_frames == had.touch_frames + frames_model(frames@).take(i as int),
            decreases frames.len() - i,
        {
            let ghost prev = buffers.touch_frames@;
            let copy = copy_frame(&frames[i]);
            buffers.touch_frames.push(copy);
            proof {
                assert(frames_model(buffers.touch_frames@) =~= frames_model(prev).push(copy@));
                assert(frames_model(frames@).take(i + 1) =~= frames_model(frames@).take(
                    i as int,
                ).push(frames@[i as int]@));
            }
            i = i + 1;
            assert(buffers@.touch_frames =~= had.touch_frames + frames_model(frames@).take(
                i as int,
            ));
        }
        assert(frames_model(frames@).take(i as int) =~= frames_model(frames@));
        live_insert(&mut self.live_players, player, buffers);
        proof {
            let goal = before@.process(
                ServerCommandModel::Touches { player, frames: frames_model(frames@) },
            ).0;
            assert(self@.live =~= goal.live);
        }
    }

    /// Puts judgements behind those that a player has.
    fn add_judges(&mut self, player: i32, judges: &Vec<JudgeEvent>)
        ensures
            final(self)@ == old(self)@.process(
                ServerCommandModel::Judges { player, judges: judges@ },
            ).0,
    {
        let ghost before = *self;
        let mut buffers = match live_remove(&mut self.live_players, player) {
            Some(buffers) => buffers,
            None => LivePlayer::new(),
        };
        let ghost had = buffers@;
        assert(had == live_of(before@.live, player));
        let mut i: usize = 0;
        while i < judges.len()
            invariant
                i <= judges.len(),
                buffers@.touch_frames == had.touch_frames,
                buffers@.judge_events == had.judge_events + judges@.take(i as int),
            decreases judges.len() - i,
        {
            buffers.judge_events.push(judges[i]);
            i = i + 1;
            assert(buffers@.judge_events =~= had.judge_events + judges@.take(i as int));
        }
        assert(judges@.take(i as int) =~= judges@);
        live_insert(&mut self.live_players, player, buffers);
        proof {
            let goal = before@.process(ServerCommandModel::Judges { player, judges: judges@ }).0;
            assert(self@.live =~= goal.live);
        }
    }

    /// An answer arrives.
    fn resolve(&mut self, kind: CallKind, reply: Reply) -> (step: ClientStep)
        requires
            reply@.kind() == kind,
        ensures
            (final(self)@, step@) == old(self)@.resolve(reply@),
    {
        if self.pending.get(kind) {
            self.pending.set(kind, false);
            ClientStep::Resolve(reply)
        } else {
            ClientStep::Nothing
        }
    }

    /// What a command from the server makes of the client, and what the
    /// owner of the connection does with it.
    pub fn process(&mut self, cmd: ServerCommand) -> (step: ClientStep)
        ensures
            (final(self)@, step@) == old(self)@.process(cmd@),
    {
        match cmd {
            ServerCommand::Pong => ClientStep::Pong,
            ServerCommand::Touches { player, frames } => {
                self.add_touches(player, &frames);
                ClientStep::Nothing
            },
            ServerCommand::Judges { player, judges } => {
                self.add_judges(player, &judges);
                ClientStep::Nothing
            },
            ServerCommand::Message(msg) => {
                self.note(msg);
                ClientStep::Nothing
            },
            ServerCommand::ChangeState(state) => {
                live_clear(&mut self.live_players);
                match &mut self.room {
                    Some(room) => {
                        room.state = state;
                        room.is_ready = room.is_host;
                    },
                    None => {},
                }
                assert(self@.live =~= Map::empty());
                ClientStep::Nothing
            },
            ServerCommand::ChangeHost(is_host) => {
                match &mut self.room {
                    Some(room) => {
                        room.is_host = is_host;
                    },
                    None => {},
                }
                ClientStep::Nothing
            },
            ServerCommand::OnJoinRoom(info) => {
                match &mut self.room {
                    Some(room) => {
                        room.live = room.live || info.monitor;
                        room.users.insert(info.id, info);
                    },
                    None => {},
                }
                ClientStep::Nothing
            },
            ServerCommand::Authenticate(r) => self.resolve(
                CallKind::Authenticate,
                Reply::Authenticate(r),
            ),
            ServerCommand::JoinRoom(r) => self.resolve(CallKind::JoinRoom, Reply::JoinRoom(r)),
            ServerCommand::Chat(r) => self.resolve(
                CallKind::Chat,
                Reply::Plain(CallKind::Chat, r),
            ),
            ServerCommand::CreateRoom(r) => self.resolve(
                CallKind::CreateRoom,
                Reply::Plain(CallKind::CreateRoom, r),
            ),
            ServerCommand::LeaveRoom(r) => self.resolve(
                CallKind::LeaveRoom,
                Reply::Plain(CallKind::LeaveRoom, r),
            ),
            ServerCommand::LockRoom(r) => self.resolve(
                CallKind::LockRoom,
                Reply::Plain(CallKind::LockRoom, r),
            ),
            ServerCommand::CycleRoom(r) => self.resolve(
                CallKind::CycleRoom,
                Reply::Plain(CallKind::CycleRoom, r),
            ),
            ServerCommand::SelectChart(r) => self.resolve(
                CallKind::SelectChart,
                Reply::Plain(CallKind::SelectChart, r),
            ),
            ServerCommand::RequestStart(r) => self.resolve(
                CallKind::RequestStart,
                Reply::Plain(CallKind::RequestStart, r),
            ),
            ServerCommand::Ready(r) => self.resolve(
                CallKind::Ready,
                Reply::Plain(CallKind::Ready, r),
            ),
            ServerCommand::CancelReady(r) => self.resolve(
                CallKind::CancelReady,
                Reply::Plain(CallKind::CancelReady, r),
            ),
            ServerCommand::Played(r) => self.resolve(
                CallKind::Played,
                Reply::Plain(CallKind::Played, r),
            ),
            ServerCommand::Abort(r) => self.resolve(
                CallKind::Abort,
                Reply::Plain(CallKind::Abort, r),
            ),
        }
    }

    /// Takes a message about the room: the picture follows it, and the
    /// message waits to be taken.
    fn note(&mut self, msg: Message)
        ensures
            final(self)@ == old(self)@.process(ServerCommandModel::Message(msg@)).0,
    {
        match &mut self.room {
            Some(room) => {
                match &msg {
                    Message::LockRoom { lock } => {
                        room.locked = *lock;
                    },
                    Message::CycleRoom { cycle } => {
                        room.cycle = *cycle;
                    },
                    Message::LeaveRoom { user, .. } => {
                        room.users.remove(*user);
                    },
                    _ => {},
                }
            },
            None => {},
        }
        self.messages.push(msg);
        assert(self@.messages =~= old(self)@.messages.push(msg@));
    }

    /// A call of a kind is sent and waits for its answer.
    pub fn begin(&mut self, kind: CallKind)
        ensures
            final(self)@ == (ClientModel {
                pending: old(self)@.pending.insert(kind),
                ..old(self)@
            }),
    {
        self.pending.set(kind, true);
    }

    /// A call of a kind has waited too long: it waits no more.
    pub fn abandon(&mut self, kind: CallKind)
        ensures
            final(self)@ == (ClientModel {
                pending: old(self)@.pending.remove(kind),
                ..old(self)@
            }),
    {
        self.pending.set(kind, false);
    }

    /// The server has said who the user is and where.
    pub fn authenticate(&mut self, me: UserInfo, room: Option<ClientRoomState>)
        ensures
            final(self)@ == (ClientModel {
                me: Some(me@),
                room: match room {
                    Some(state) => Some(state@),
                    None => None,
                },
                ..old(self)@
            }),
    {
        self.me = Some(me);
        self.room = room;
    }

    /// The server has made the room that the user asked for. Says whether
    /// the client knew who the user is; if not, nothing changes.
    pub fn create_room(&mut self, id: RoomId) -> (known: bool)
        ensures
            known == old(self)@.me is Some,
            final(self)@ == match old(self)@.me {
                Some(me) => ClientModel {
                    room: Some(ClientModel::created(id@, me)),
                    ..old(self)@
                },
                None => old(self)@,
            },
    {
        let me: UserInfo = match &self.me {
            Some(me) => me.duplicate(),
            None => {
                return false;
            },
        };
        let mut users = UserTable::new();
        users.insert(me.id, me);
        self.room = Some(
            ClientRoomState {
                id,
                state: RoomState::SelectChart(None),
                live: false,
                locked: false,
                cycle: false,
                is_host: true,
                is_ready: false,
                users,
            },
        );
        proof {
            let me = old(self)@.me->Some_0;
            assert(self@.room->Some_0.users =~= seq![(me.id, me)]);
        }
        true
    }

    /// The server has let the user into a room.
    pub fn join_room(&mut self, id: RoomId, resp: JoinRoomResponse)
        ensures
            final(self)@ == (ClientModel {
                room: Some(ClientModel::joined(id@, resp@)),
                ..old(self)@
            }),
    {
        let mut users = UserTable::new();
        let ghost entries = entries_of(resp@.users);
        assert(entries.skip(0) =~= entries);
        let mut i: usize = 0;
        while i < resp.users.len()
            invariant
                i <= resp.users.len(),
                entries == entries_of(resp@.users),
                upsert_all(users@, entries.skip(i as int)) == upsert_all(Seq::empty(), entries),
            decreases resp.users.len() - i,
        {
            let info = resp.users[i].duplicate();
            users.insert(info.id, info);
            proof {
                let rest = entries.skip(i as int);
                assert(rest[0] == entries[i as int]);
                assert(rest.skip(1) =~= entries.skip(i + 1));
            }
            i = i + 1;
        }
        self.room = Some(
            ClientRoomState {
                id,
                state: resp.state,
                live: resp.live,
                locked: false,
                cycle: false,
                is_host: false,
                is_ready: false,
                users,
            },
        );
    }

    /// The server has let the user out of its room.
    pub fn leave_room(&mut self)
        ensures
            final(self)@ == (ClientModel { room: None, ..old(self)@ }),
    {
        self.room = None;
    }

    /// The server has taken the user's readiness, or its taking back.
    fn set_ready(&mut self, ready: bool)
        ensures
            final(self)@ == (ClientModel {
                room: match old(self)@.room {
                    Some(room) => Some(ClientRoomStateModel { is_ready: ready, ..room }),
                    None => None,
                },
                ..old(self)@
            }),
    {
        match &mut self.room {
            Some(room) => {
                room.is_ready = ready;
            },
            None => {},
        }
    }

    /// The server has started the round that the user asked for: the user
    /// is ready.
    pub fn request_start(&mut self)
        ensures
            final(self)@ == (ClientModel {
                room: match old(self)@.room {
                    Some(room) => Some(ClientRoomStateModel { is_ready: true, ..room }),
                    None => None,
                },
                ..old(self)@
            }),
    {
        self.set_ready(true);
    }

    /// The server has taken the user's readiness.
    pub fn ready(&mut self)
        ensures
            final(self)@ == (ClientModel {
                room: match old(self)@.room {
                    Some(room) => Some(ClientRoomStateModel { is_ready: true, ..room }),
                    None => None,
                },
                ..old(self)@
            }),
    {
        self.set_ready(true);
    }

    /// The server has let the user take its readiness back.
    pub fn cancel_ready(&mut self)
        ensures
            final(self)@ == (ClientModel {
                room: match old(self)@.room {
                    Some(room) => Some(ClientRoomStateModel { is_ready: false, ..room }),
                    None => None,
                },
                ..old(self)@
            }),
    {
        self.set_ready(false);
    }

    /// A heartbeat has ended.
    pub fn heartbeat(&mut self, beat: Beat, elapsed: u64)
        ensures
            final(self)@ == old(self)@.heartbeat(beat, elapsed),
    {
        match beat {
            Beat::SendFailed => {},
            Beat::TimedOut => {
                self.ping_fail_count = self.ping_fail_count.wrapping_add(1);
            },
            Beat::Answered => {
                self.ping_fail_count = 0;
            },
        }
        self.delay = Some(elapsed);
    }

    /// A direct heartbeat has been answered after `elapsed` milliseconds.
    pub fn ping(&mut self, elapsed: u64) -> (delay: u64)
        ensures
            delay == elapsed,
            final(self)@ == (ClientModel { delay: Some(elapsed), ..old(self)@ }),
    {
        self.delay = Some(elapsed);
        elapsed
    }

    /// Who the user is, once the server has said so.
    pub fn me(&self) -> (me: Option<UserInfo>)
        ensures
            match self@.me {
                Some(info) => me is Some && me->Some_0@ == info,
                None => me is None,
            },
    {
        match &self.me {
            Some(me) => Some(me.duplicate()),
            None => None,
        }
    }

    /// The name of a user of the room, if the room has the user.
    pub fn user_name_opt(&self, id: i32) -> (name: Option<String>)
        ensures
            match self@.room {
                Some(room) => match room.user_name(id) {
                    Some(n) => name is Some && name->Some_0@ == n,
                    None => name is None,
                },
                None => name is None,
            },
    {
        match &self.room {
            Some(room) => match room.users.get(id) {
                Some(info) => Some(info.name),
                None => None,
            },
            None => None,
        }
    }

    /// The name of a user of the room, or a question mark.
    pub fn user_name(&self, id: i32) -> (name: String)
        ensures
            name@ == match self@.room {
                Some(room) => match room.user_name(id) {
                    Some(n) => n,
                    None => "?"@,
                },
                None => "?"@,
            },
    {
        match self.user_name_opt(id) {
            Some(name) => name,
            None => "?".to_owned(),
        }
    }

    /// Takes the messages that have come in.
    pub fn blocking_take_messages(&mut self) -> (taken: Vec<Message>)
        ensures
            messages_model(taken@) == old(self)@.messages,
            final(self)@ == (ClientModel { messages: Seq::empty(), ..old(self)@ }),
    {
        let mut taken: Vec<Message> = Vec::new();
        taken.append(&mut self.messages);
        proof {
            assert(messages_model(taken@) =~= old(self)@.messages);
            assert(self@.messages =~= Seq::empty());
        }
        taken
    }

    /// The id of the room that the user is in.
    pub fn blocking_room_id(&self) -> (id: Option<RoomId>)
        ensures
            match self@.room {
                Some(room) => id is Some && id->Some_0@ == room.id,
                None => id is None,
            },
    {
        match &self.room {
            Some(room) => Some(room.id.duplicate()),
            None => None,
        }
    }

    /// The state of the room that the user is in.
    pub fn blocking_room_state(&self) -> (state: Option<RoomState>)
        ensures
            state == match self@.room {
                Some(room) => Some(room.state),
                None => None,
            },
    {
        match &self.room {
            Some(room) => Some(room.state),
            None => None,
        }
    }

    /// The state of the room that the user is in.
    pub fn room_state(&self) -> (state: Option<RoomState>)
        ensures
            state == match self@.room {
                Some(room) => Some(room.state),
                None => None,
            },
    {
        self.blocking_room_state()
    }

    /// Whether the user is the host of its room.
    pub fn blocking_is_host(&self) -> (is_host: Option<bool>)
        ensures
            is_host == match self@.room {
                Some(room) => Some(room.is_host),
                None => None,
            },
    {
        match &self.room {
            Some(room) => Some(room.is_host),
            None => None,
        }
    }

    /// Whether the user is ready.
    pub fn blocking_is_ready(&self) -> (is_ready: Option<bool>)
        ensures
            is_ready == match self@.room {
                Some(room) => Some(room.is_ready),
                None => None,
            },
    {
        match &self.room {
            Some(room) => Some(room.is_ready),
            None => None,
        }
    }

    /// How long the last heartbeat took, in milliseconds.
    pub fn delay(&self) -> (delay: Option<u64>)
        ensures
            delay == self@.delay,
    {
        self.delay
    }

    /// How many heartbeats in a row have gone unanswered.
    pub fn ping_fail_count(&self) -> (count: u8)
        ensures
            count == self@.ping_fail_count,
    {
        self.ping_fail_count
    }
}

} // verus!
