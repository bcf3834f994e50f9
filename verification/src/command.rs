//! The values that travel between client and server, each with its
//! mathematical model.

use std::sync::Arc;
use vstd::prelude::*;
use vstd::string::*;
use vstd::utf8::*;

verus! {

/// A touch position: two half-precision numbers, held as their bit patterns.
#[derive(Clone, Copy, Debug, PartialEq, Eq, Structural)]
pub struct CompactPos {
    pub x: u16,
    pub y: u16,
}

impl CompactPos {
    /// A position from the bit patterns of its two half-precision numbers.
    pub fn from_bits(x: u16, y: u16) -> (p: Self)
        ensures
            p == (CompactPos { x, y }),
    {
        Self { x, y }
    }

    /// The bit pattern of the horizontal coordinate.
    pub fn x_bits(&self) -> (b: u16)
        ensures
            b == self.x,
    {
        self.x
    }

    /// The bit pattern of the vertical coordinate.
    pub fn y_bits(&self) -> (b: u16)
        ensures
            b == self.y,
    {
        self.y
    }
}

/// A string of at most `N` bytes.
#[derive(Debug, PartialEq, Eq, Hash)]
pub struct Varchar<const N: usize>(String);

impl<const N: usize> View for Varchar<N> {
    type V = Seq<char>;

    closed spec fn view(&self) -> Seq<char> {
        self.0@
    }
}

/// Whether a text fits a bounded string of `bound` bytes.
pub open spec fn text_fits(text: Seq<char>, bound: int) -> bool {
    encode_utf8(text).len() <= bound
}

impl<const N: usize> Varchar<N> {
    #[verifier::type_invariant]
    spec fn inv(&self) -> bool {
        text_fits(self.0@, N as int)
    }

    /// Takes a string that fits; refuses a longer one.
    pub fn new(value: String) -> (res: Result<Self, crate::bin::DecodeError>)
        ensures
            text_fits(value@, N as int) ==> res is Ok && res->Ok_0@ == value@,
            !text_fits(value@, N as int) ==> res is Err && res->Err_0
                == crate::bin::DecodeError::StringTooLong,
    {
        let fits = value.as_str().as_bytes().len() <= N;
        if !fits {
            Err(crate::bin::DecodeError::StringTooLong)
        } else {
            Ok(Varchar(value))
        }
    }

    /// The string itself.
    pub fn into_inner(self) -> (s: String)
        ensures
            s@ == self@,
            text_fits(s@, N as int),
    {
        proof {
            use_type_invariant(&self);
        }
        self.0
    }

    /// The string as a slice.
    pub fn as_str(&self) -> (s: &str)
        ensures
            s@ == self@,
            text_fits(s@, N as int),
    {
        proof {
            use_type_invariant(self);
        }
        self.0.as_str()
    }

    /// A copy of this string.
    pub fn duplicate(&self) -> (c: Self)
        ensures
            c@ == self@,
    {
        proof {
            use_type_invariant(self);
        }
        Varchar(self.0.clone())
    }
}

impl<const N: usize> Clone for Varchar<N> {
    fn clone(&self) -> (c: Self)
        ensures
            c@ == self@,
    {
        self.duplicate()
    }
}

/// Whether a byte is one that a room identifier may hold: an ASCII letter
/// or digit, `-` or `_`.
pub open spec fn room_id_byte(b: u8) -> bool {
    ||| 0x30 <= b <= 0x39
    ||| 0x41 <= b <= 0x5a
    ||| 0x61 <= b <= 0x7a
    ||| b == 0x2d
    ||| b == 0x5f
}

/// Whether a text is a room identifier: between 1 and 20 bytes, each of
/// them allowed.
pub open spec fn is_room_id(text: Seq<char>) -> bool {
    let raw = encode_utf8(text);
    &&& 1 <= raw.len() <= 20
    &&& forall|i: int| 0 <= i < raw.len() ==> room_id_byte(#[trigger] raw[i])
}

/// The name of a room.
#[derive(Debug, PartialEq, Eq, Hash)]
pub struct RoomId(Varchar<20>);

impl View for RoomId {
    type V = Seq<char>;

    closed spec fn view(&self) -> Seq<char> {
        self.0@
    }
}

impl RoomId {
    #[verifier::type_invariant]
    spec fn inv(&self) -> bool {
        is_room_id(self.0@)
    }

    /// Checks the characters of a bounded string.
    pub fn validate(inner: Varchar<20>) -> (res: Result<Self, crate::bin::DecodeError>)
        ensures
            is_room_id(inner@) ==> res is Ok && res->Ok_0@ == inner@,
            !is_room_id(inner@) ==> res is Err && res->Err_0
                == crate::bin::DecodeError::InvalidRoomId,
    {
        let raw = inner.as_str().as_bytes();
        if raw.len() == 0 {
            return Err(crate::bin::DecodeError::InvalidRoomId);
        }
        let mut i: usize = 0;
        while i < raw.len()
            invariant
                i <= raw.len(),
                raw@ == encode_utf8(inner@),
                forall|j: int| 0 <= j < i ==> room_id_byte(#[trigger] raw@[j]),
            decreases raw.len() - i,
        {
            let b: u8 = raw[i];
            let allowed = (0x30 <= b && b <= 0x39) || (0x41 <= b && b <= 0x5a) || (0x61 <= b && b
                <= 0x7a) || b == 0x2d || b == 0x5f;
            if !allowed {
                return Err(crate::bin::DecodeError::InvalidRoomId);
            }
            i = i + 1;
        }
        Ok(RoomId(inner))
    }

    /// Takes a string that is a room identifier; refuses any other.
    pub fn new(value: String) -> (res: Result<Self, crate::bin::DecodeError>)
        ensures
            is_room_id(value@) ==> res is Ok && res->Ok_0@ == value@,
            !text_fits(value@, 20) ==> res is Err && res->Err_0
                == crate::bin::DecodeError::StringTooLong,
            text_fits(value@, 20) && !is_room_id(value@) ==> res is Err && res->Err_0
                == crate::bin::DecodeError::InvalidRoomId,
    {
        match Varchar::<20>::new(value) {
            Ok(inner) => Self::validate(inner),
            Err(e) => Err(e),
        }
    }

    /// The identifier as a string slice.
    pub fn as_str(&self) -> (s: &str)
        ensures
            s@ == self@,
            is_room_id(s@),
    {
        proof {
            use_type_invariant(self);
        }
        self.0.as_str()
    }

    /// The identifier as a string.
    pub fn into_string(self) -> (s: String)
        ensures
            s@ == self@,
            is_room_id(s@),
    {
        proof {
            use_type_invariant(&self);
        }
        self.0.into_inner()
    }

    /// Whether two identifiers name the same room.
    pub fn same(&self, other: &RoomId) -> (b: bool)
        ensures
            b == (self@ == other@),
    {
        self.0.as_str().to_owned() == other.0.as_str().to_owned()
    }

    /// A copy of this identifier.
    pub fn duplicate(&self) -> (c: Self)
        ensures
            c@ == self@,
    {
        proof {
            use_type_invariant(self);
        }
        RoomId(self.0.duplicate())
    }
}

impl Clone for RoomId {
    fn clone(&self) -> (c: Self)
        ensures
            c@ == self@,
    {
        self.duplicate()
    }
}

/// The fingers on the screen at one moment. The time is the bit pattern of
/// a single-precision number of seconds.
#[derive(Clone, Debug)]
pub struct TouchFrame {
    pub time: u32,
    pub points: Vec<(i8, CompactPos)>,
}

/// A touch frame, as the model has it.
pub struct TouchFrameModel {
    pub time: u32,
    pub points: Seq<(i8, CompactPos)>,
}

impl View for TouchFrame {
    type V = TouchFrameModel;

    open spec fn view(&self) -> TouchFrameModel {
        TouchFrameModel { time: self.time, points: self.points@ }
    }
}

/// How well a note was hit.
#[derive(Clone, Copy, Debug, PartialEq, Eq, Structural)]
pub enum Judgement {
    Perfect,
    Good,
    Bad,
    Miss,
    HoldPerfect,
    HoldGood,
}

/// One judged note. The time is the bit pattern of a single-precision
/// number of seconds.
#[derive(Clone, Copy, Debug, PartialEq, Eq, Structural)]
pub struct JudgeEvent {
    pub time: u32,
    pub line_id: u32,
    pub note_id: u32,
    pub judgement: Judgement,
}

/// What a client sends.
#[derive(Debug)]
#[allow(inconsistent_fields)]
pub enum ClientCommand {
    Ping,
    Authenticate { token: Varchar<32> },
    Chat { message: Varchar<200> },
    Touches { frames: Arc<Vec<TouchFrame>> },
    Judges { judges: Arc<Vec<JudgeEvent>> },
    CreateRoom { id: RoomId },
    JoinRoom { id: RoomId, monitor: bool },
    LeaveRoom,
    LockRoom { lock: bool },
    CycleRoom { cycle: bool },
    SelectChart { id: i32 },
    RequestStart,
    Ready,
    CancelReady,
    Played { id: i32 },
    Abort,
}

/// What a client sends, as the model has it.
#[allow(inconsistent_fields)]
pub enum ClientCommandModel {
    Ping,
    Authenticate { token: Seq<char> },
    Chat { message: Seq<char> },
    Touches { frames: Seq<TouchFrameModel> },
    Judges { judges: Seq<JudgeEvent> },
    CreateRoom { id: Seq<char> },
    JoinRoom { id: Seq<char>, monitor: bool },
    LeaveRoom,
    LockRoom { lock: bool },
    CycleRoom { cycle: bool },
    SelectChart { id: i32 },
    RequestStart,
    Ready,
    CancelReady,
    Played { id: i32 },
    Abort,
}

/// The models of a sequence of touch frames.
pub open spec fn frames_model(frames: Seq<TouchFrame>) -> Seq<TouchFrameModel> {
    Seq::new(frames.len(), |i: int| frames[i]@)
}

impl View for ClientCommand {
    type V = ClientCommandModel;

    open spec fn view(&self) -> ClientCommandModel {
        match self {
            ClientCommand::Ping => ClientCommandModel::Ping,
            ClientCommand::Authenticate { token } => ClientCommandModel::Authenticate {
                token: token@,
            },
            ClientCommand::Chat { message } => ClientCommandModel::Chat { message: message@ },
            ClientCommand::Touches { frames } => ClientCommandModel::Touches {
                frames: frames_model(frames@),
            },
            ClientCommand::Judges { judges } => ClientCommandModel::Judges { judges: judges@ },
            ClientCommand::CreateRoom { id } => ClientCommandModel::CreateRoom { id: id@ },
            ClientCommand::JoinRoom { id, monitor } => ClientCommandModel::JoinRoom {
                id: id@,
                monitor: *monitor,
            },
            ClientCommand::LeaveRoom => ClientCommandModel::LeaveRoom,
            ClientCommand::LockRoom { lock } => ClientCommandModel::LockRoom { lock: *lock },
            ClientCommand::CycleRoom { cycle } => ClientCommandModel::CycleRoom { cycle: *cycle },
            ClientCommand::SelectChart { id } => ClientCommandModel::SelectChart { id: *id },
            ClientCommand::RequestStart => ClientCommandModel::RequestStart,
            ClientCommand::Ready => ClientCommandModel::Ready,
            ClientCommand::CancelReady => ClientCommandModel::CancelReady,
            ClientCommand::Played { id } => ClientCommandModel::Played { id: *id },
            ClientCommand::Abort => ClientCommandModel::Abort,
        }
    }
}

/// What happened in a room, told to everyone in it. An accuracy is the bit
/// pattern of a single-precision number.
#[derive(Clone, Debug)]
pub enum Message {
    Chat { user: i32, content: String },
    CreateRoom { user: i32 },
    JoinRoom { user: i32, name: String },
    LeaveRoom { user: i32, name: String },
    NewHost { user: i32 },
    SelectChart { user: i32, name: String, id: i32 },
    GameStart { user: i32 },
    Ready { user: i32 },
    CancelReady { user: i32 },
    CancelGame { user: i32 },
    StartPlaying,
    Played { user: i32, score: i32, accuracy: u32, full_combo: bool },
    GameEnd,
    Abort { user: i32 },
    LockRoom { lock: bool },
    CycleRoom { cycle: bool },
}

/// A message to a room, as the model has it.
pub enum MessageModel {
    Chat { user: i32, content: Seq<char> },
    CreateRoom { user: i32 },
    JoinRoom { user: i32, name: Seq<char> },
    LeaveRoom { user: i32, name: Seq<char> },
    NewHost { user: i32 },
    SelectChart { user: i32, name: Seq<char>, id: i32 },
    GameStart { user: i32 },
    Ready { user: i32 },
    CancelReady { user: i32 },
    CancelGame { user: i32 },
    StartPlaying,
    Played { user: i32, score: i32, accuracy: u32, full_combo: bool },
    GameEnd,
    Abort { user: i32 },
    LockRoom { lock: bool },
    CycleRoom { cycle: bool },
}

impl View for Message {
    type V = MessageModel;

    open spec fn view(&self) -> MessageModel {
        match self {
            Message::Chat { user, content } => MessageModel::Chat {
                user: *user,
                content: content@,
            },
            Message::CreateRoom { user } => MessageModel::CreateRoom { user: *user },
            Message::JoinRoom { user, name } => MessageModel::JoinRoom { user: *user, name: name@ },
            Message::LeaveRoom { user, name } => MessageModel::LeaveRoom {
                user: *user,
                name: name@,
            },
            Message::NewHost { user } => MessageModel::NewHost { user: *user },
            Message::SelectChart { user, name, id } => MessageModel::SelectChart {
                user: *user,
                name: name@,
                id: *id,
            },
            Message::GameStart { user } => MessageModel::GameStart { user: *user },
            Message::Ready { user } => MessageModel::Ready { user: *user },
            Message::CancelReady { user } => MessageModel::CancelReady { user: *user },
            Message::CancelGame { user } => MessageModel::CancelGame { user: *user },
            Message::StartPlaying => MessageModel::StartPlaying,
            Message::Played { user, score, accuracy, full_combo } => MessageModel::Played {
                user: *user,
                score: *score,
                accuracy: *accuracy,
                full_combo: *full_combo,
            },
            Message::GameEnd => MessageModel::GameEnd,
            Message::Abort { user } => MessageModel::Abort { user: *user },
            Message::LockRoom { lock } => MessageModel::LockRoom { lock: *lock },
            Message::CycleRoom { cycle } => MessageModel::CycleRoom { cycle: *cycle },
        }
    }
}

/// The state of a room as clients see it.
#[derive(Clone, Copy, Debug, PartialEq, Eq, Structural)]
pub enum RoomState {
    SelectChart(Option<i32>),
    WaitingForReady,
    Playing,
}

impl Default for RoomState {
    fn default() -> (s: Self)
        ensures
            s == RoomState::SelectChart(None),
    {
        RoomState::SelectChart(None)
    }
}

/// What others are told of a user.
#[derive(Clone, Debug)]
pub struct UserInfo {
    pub id: i32,
    pub name: String,
    pub monitor: bool,
}

/// A user record, as the model has it.
pub struct UserInfoModel {
    pub id: i32,
    pub name: Seq<char>,
    pub monitor: bool,
}

impl View for UserInfo {
    type V = UserInfoModel;

    open spec fn view(&self) -> UserInfoModel {
        UserInfoModel { id: self.id, name: self.name@, monitor: self.monitor }
    }
}

impl UserInfo {
    /// A copy of this record.
    pub fn duplicate(&self) -> (c: Self)
        ensures
            c@ == self@,
    {
        UserInfo { id: self.id, name: self.name.clone(), monitor: self.monitor }
    }
}

/// The models of a sequence of user records.
pub open spec fn infos_model(infos: Seq<UserInfo>) -> Seq<UserInfoModel> {
    Seq::new(infos.len(), |i: int| infos[i]@)
}

/// The models of the entries of a user table.
pub open spec fn entries_model(entries: Seq<(i32, UserInfo)>) -> Seq<(i32, UserInfoModel)> {
    Seq::new(entries.len(), |i: int| (entries[i].0, entries[i].1@))
}

/// The keys of the entries of a user table.
pub open spec fn entry_keys(entries: Seq<(i32, UserInfoModel)>) -> Seq<i32> {
    Seq::new(entries.len(), |i: int| entries[i].0)
}

/// The table after a record was put under a key: in the place of the
/// record that the key had, or behind all others.
pub open spec fn upsert(entries: Seq<(i32, UserInfoModel)>, key: i32, value: UserInfoModel) -> Seq<
    (i32, UserInfoModel),
> {
    if entry_keys(entries).contains(key) {
        entries.update(entry_keys(entries).index_of(key), (key, value))
    } else {
        entries.push((key, value))
    }
}

/// The table after a list of entries was put into it, one by one.
pub open spec fn upsert_all(
    entries: Seq<(i32, UserInfoModel)>,
    more: Seq<(i32, UserInfoModel)>,
) -> Seq<(i32, UserInfoModel)>
    decreases more.len(),
{
    if more.len() == 0 {
        entries
    } else {
        upsert_all(upsert(entries, more[0].0, more[0].1), more.skip(1))
    }
}

/// The table without the entry of a key.
pub open spec fn without_key(entries: Seq<(i32, UserInfoModel)>, key: i32) -> Seq<
    (i32, UserInfoModel),
> {
    if entry_keys(entries).contains(key) {
        entries.remove(entry_keys(entries).index_of(key))
    } else {
        entries
    }
}

/// The record that a table has for a key.
pub open spec fn lookup(entries: Seq<(i32, UserInfoModel)>, key: i32) -> Option<UserInfoModel> {
    if entry_keys(entries).contains(key) {
        Some(entries[entry_keys(entries).index_of(key)].1)
    } else {
        None
    }
}

/// Putting a record into a table without duplicate keys leaves it without
/// duplicate keys.
pub proof fn lemma_upsert_keys(entries: Seq<(i32, UserInfoModel)>, key: i32, value: UserInfoModel)
    requires
        entry_keys(entries).no_duplicates(),
    ensures
        entry_keys(upsert(entries, key, value)).no_duplicates(),
{
    let keys = entry_keys(entries);
    let after = upsert(entries, key, value);
    if keys.contains(key) {
        let at = keys.index_of(key);
        assert(0 <= at < keys.len() && keys[at] == key);
        assert(entry_keys(after) =~= keys);
    } else {
        assert(entry_keys(after) =~= keys.push(key));
        assert forall|i: int, j: int|
            0 <= i < keys.len() + 1 && 0 <= j < keys.len() + 1 && i != j implies keys.push(key)[i]
            != keys.push(key)[j] by {
            if i < keys.len() {
                assert(keys.contains(keys[i]));
            }
            if j < keys.len() {
                assert(keys.contains(keys[j]));
            }
        }
    }
}

/// Entries with distinct keys, none of them in the table, go behind the
/// table as they are.
pub proof fn lemma_upsert_all_distinct(
    entries: Seq<(i32, UserInfoModel)>,
    more: Seq<(i32, UserInfoModel)>,
)
    requires
        entry_keys(entries + more).no_duplicates(),
    ensures
        upsert_all(entries, more) == entries + more,
    decreases more.len(),
{
    if more.len() == 0 {
        assert(entries + more =~= entries);
    } else {
        let all = entries + more;
        let key = more[0].0;
        assert(all[entries.len() as int] == more[0]);
        if entry_keys(entries).contains(key) {
            let i = choose|i: int| 0 <= i < entries.len() && entry_keys(entries)[i] == key;
            assert(entry_keys(all)[i] == key);
            assert(entry_keys(all)[entries.len() as int] == key);
        }
        let grown = entries.push(more[0]);
        assert(grown + more.skip(1) =~= all);
        lemma_upsert_all_distinct(grown, more.skip(1));
    }
}

/// A map from user ids to user records: a list of entries in which no key
/// occurs twice.
#[derive(Debug)]
pub struct UserTable {
    entries: Vec<(i32, UserInfo)>,
}

impl View for UserTable {
    type V = Seq<(i32, UserInfoModel)>;

    closed spec fn view(&self) -> Seq<(i32, UserInfoModel)> {
        entries_model(self.entries@)
    }
}

impl UserTable {
    #[verifier::type_invariant]
    spec fn inv(&self) -> bool {
        entry_keys(entries_model(self.entries@)).no_duplicates()
    }

    /// An empty table.
    pub fn new() -> (table: Self)
        ensures
            table@ == Seq::<(i32, UserInfoModel)>::empty(),
    {
        let table = UserTable { entries: Vec::new() };
        assert(table@ =~= Seq::<(i32, UserInfoModel)>::empty());
        table
    }

    /// The number of entries.
    pub fn len(&self) -> (n: usize)
        ensures
            n == self@.len(),
            entry_keys(self@).no_duplicates(),
    {
        proof {
            use_type_invariant(self);
        }
        self.entries.len()
    }

    /// The key of the entry at a place.
    pub fn key_at(&self, i: usize) -> (key: i32)
        requires
            i < self@.len(),
        ensures
            key == self@[i as int].0,
    {
        self.entries[i].0
    }

    /// The record of the entry at a place.
    pub fn value_at(&self, i: usize) -> (value: &UserInfo)
        requires
            i < self@.len(),
        ensures
            value@ == self@[i as int].1,
    {
        &self.entries[i].1
    }

    /// The entries, in their order.
    pub fn as_slice(&self) -> (entries: &[(i32, UserInfo)])
        ensures
            entries_model(entries@) == self@,
            entry_keys(self@).no_duplicates(),
    {
        proof {
            use_type_invariant(self);
        }
        self.entries.as_slice()
    }

    /// Where the entry of a key stands.
    fn find(&self, key: i32) -> (at: Option<usize>)
        ensures
            match at {
                Some(i) => i < self.entries@.len() && entry_keys(self@).index_of(key) == i
                    && self.entries@[i as int].0 == key && entry_keys(self@).contains(key),
                None => !entry_keys(self@).contains(key),
            },
    {
        proof {
            use_type_invariant(self);
        }
        let mut i: usize = 0;
        while i < self.entries.len()
            invariant
                i <= self.entries.len(),
                entry_keys(self@).no_duplicates(),
                forall|j: int| 0 <= j < i ==> entry_keys(self@)[j] != key,
            decreases self.entries.len() - i,
        {
            if self.entries[i].0 == key {
                proof {
                    let keys = entry_keys(self@);
                    assert(keys[i as int] == key);
                    let at = keys.index_of(key);
                    assert(0 <= at < keys.len() && keys[at] == key);
                }
                return Some(i);
            }
            i = i + 1;
        }
        None
    }

    /// A copy of the record of a key.
    pub fn get(&self, key: i32) -> (found: Option<UserInfo>)
        ensures
            match lookup(self@, key) {
                Some(info) => found is Some && found->Some_0@ == info,
                None => found is None,
            },
    {
        match self.find(key) {
            Some(i) => Some(self.entries[i].1.duplicate()),
            None => None,
        }
    }

    /// Puts a record under a key.
    pub fn insert(&mut self, key: i32, value: UserInfo)
        ensures
            final(self)@ == upsert(old(self)@, key, value@),
    {
        let ghost before = self@;
        proof {
            use_type_invariant(&*self);
            lemma_upsert_keys(before, key, value@);
        }
        let at = self.find(key);
        let mut held = UserTable::new();
        core::mem::swap(self, &mut held);
        let mut entries = held.entries;
        match at {
            Some(i) => {
                entries.set(i, (key, value));
            },
            None => {
                entries.push((key, value));
            },
        }
        assert(entries_model(entries@) =~= upsert(before, key, value@));
        *self = UserTable { entries };
    }

    /// Takes the entry of a key out.
    pub fn remove(&mut self, key: i32)
        ensures
            final(self)@ == without_key(old(self)@, key),
    {
        let ghost before = self@;
        proof {
            use_type_invariant(&*self);
        }
        match self.find(key) {
            Some(i) => {
                let mut held = UserTable::new();
                core::mem::swap(self, &mut held);
                let mut entries = held.entries;
                let _ = entries.remove(i);
                proof {
                    assert(entries_model(entries@) =~= before.remove(i as int));
                    assert(entry_keys(entries_model(entries@)) =~= entry_keys(before).remove(
                        i as int,
                    ));
                    let keys = entry_keys(before);
                    let fewer = keys.remove(i as int);
                    assert forall|a: int, b: int|
                        0 <= a < fewer.len() && 0 <= b < fewer.len() && a != b implies fewer[a]
                        != fewer[b] by {
                        let a2 = if a < i {
                            a
                        } else {
                            a + 1
                        };
                        let b2 = if b < i {
                            b
                        } else {
                            b + 1
                        };
                        assert(fewer[a] == keys[a2] && fewer[b] == keys[b2]);
                    }
                }
                *self = UserTable { entries };
            },
            None => {},
        }
    }
}

impl Clone for UserTable {
    fn clone(&self) -> (c: Self)
        ensures
            c@ == self@,
    {
        proof {
            use_type_invariant(self);
        }
        let mut entries: Vec<(i32, UserInfo)> = Vec::new();
        let mut i: usize = 0;
        while i < self.entries.len()
            invariant
                i <= self.entries.len(),
                entries@.len() == i,
                entries_model(entries@) == self@.take(i as int),
            decreases self.entries.len() - i,
        {
            let ghost prev = entries@;
            let copy = (self.entries[i].0, self.entries[i].1.duplicate());
            assert((copy.0, copy.1@) == self@[i as int]);
            entries.push(copy);
            proof {
                assert forall|j: int| 0 <= j < i + 1 implies entries_model(entries@)[j]
                    == self@.take(i + 1)[j] by {
                    if j < i {
                        assert(entries_model(prev)[j] == self@.take(i as int)[j]);
                    }
                }
                assert(entries_model(entries@) =~= self@.take(i + 1));
            }
            i = i + 1;
        }
        assert(self@.take(i as int) =~= self@);
        UserTable { entries }
    }
}

/// A client's picture of the room it is in.
#[derive(Debug, Clone)]
pub struct ClientRoomState {
    pub id: RoomId,
    pub state: RoomState,
    pub live: bool,
    pub locked: bool,
    pub cycle: bool,
    pub is_host: bool,
    pub is_ready: bool,
    pub users: UserTable,
}

/// A client's picture of a room, as the model has it.
pub struct ClientRoomStateModel {
    pub id: Seq<char>,
    pub state: RoomState,
    pub live: bool,
    pub locked: bool,
    pub cycle: bool,
    pub is_host: bool,
    pub is_ready: bool,
    pub users: Seq<(i32, UserInfoModel)>,
}

impl View for ClientRoomState {
    type V = ClientRoomStateModel;

    open spec fn view(&self) -> ClientRoomStateModel {
        ClientRoomStateModel {
            id: self.id@,
            state: self.state,
            live: self.live,
            locked: self.locked,
            cycle: self.cycle,
            is_host: self.is_host,
            is_ready: self.is_ready,
            users: self.users@,
        }
    }
}

impl ClientRoomStateModel {
    /// The name of a user of the room, if the room has the user.
    pub open spec fn user_name(self, id: i32) -> Option<Seq<char>> {
        match lookup(self.users, id) {
            Some(info) => Some(info.name),
            None => None,
        }
    }
}

/// What a user is told of the room it has joined.
#[derive(Debug, Clone)]
pub struct JoinRoomResponse {
    pub state: RoomState,
    pub users: Vec<UserInfo>,
    pub live: bool,
}

/// The answer to a join, as the model has it.
pub struct JoinRoomResponseModel {
    pub state: RoomState,
    pub users: Seq<UserInfoModel>,
    pub live: bool,
}

impl View for JoinRoomResponse {
    type V = JoinRoomResponseModel;

    open spec fn view(&self) -> JoinRoomResponseModel {
        JoinRoomResponseModel {
            state: self.state,
            users: infos_model(self.users@),
            live: self.live,
        }
    }
}

/// What the server sends.
#[derive(Debug)]
pub enum ServerCommand {
    Pong,
    Authenticate(Result<(UserInfo, Option<ClientRoomState>), String>),
    Chat(Result<(), String>),
    Touches { player: i32, frames: Arc<Vec<TouchFrame>> },
    Judges { player: i32, judges: Arc<Vec<JudgeEvent>> },
    Message(Message),
    ChangeState(RoomState),
    ChangeHost(bool),
    CreateRoom(Result<(), String>),
    JoinRoom(Result<JoinRoomResponse, String>),
    OnJoinRoom(UserInfo),
    LeaveRoom(Result<(), String>),
    LockRoom(Result<(), String>),
    CycleRoom(Result<(), String>),
    SelectChart(Result<(), String>),
    RequestStart(Result<(), String>),
    Ready(Result<(), String>),
    CancelReady(Result<(), String>),
    Played(Result<(), String>),
    Abort(Result<(), String>),
}

/// What the server sends, as the model has it.
pub enum ServerCommandModel {
    Pong,
    Authenticate(Result<(UserInfoModel, Option<ClientRoomStateModel>), Seq<char>>),
    Chat(Result<(), Seq<char>>),
    Touches { player: i32, frames: Seq<TouchFrameModel> },
    Judges { player: i32, judges: Seq<JudgeEvent> },
    Message(MessageModel),
    ChangeState(RoomState),
    ChangeHost(bool),
    CreateRoom(Result<(), Seq<char>>),
    JoinRoom(Result<JoinRoomResponseModel, Seq<char>>),
    OnJoinRoom(UserInfoModel),
    LeaveRoom(Result<(), Seq<char>>),
    LockRoom(Result<(), Seq<char>>),
    CycleRoom(Result<(), Seq<char>>),
    SelectChart(Result<(), Seq<char>>),
    RequestStart(Result<(), Seq<char>>),
    Ready(Result<(), Seq<char>>),
    CancelReady(Result<(), Seq<char>>),
    Played(Result<(), Seq<char>>),
    Abort(Result<(), Seq<char>>),
}

/// The model of a reply that carries nothing or a reason.
pub open spec fn reply_model(reply: Result<(), String>) -> Result<(), Seq<char>> {
    match reply {
        Ok(_) => Ok(()),
        Err(reason) => Err(reason@),
    }
}

impl View for ServerCommand {
    type V = ServerCommandModel;

    open spec fn view(&self) -> ServerCommandModel {
        match self {
            ServerCommand::Pong => ServerCommandModel::Pong,
            ServerCommand::Authenticate(r) => ServerCommandModel::Authenticate(
                match r {
                    Ok((info, room)) => Ok(
                        (
                            info@,
                            match room {
                                Some(state) => Some(state@),
                                None => None,
                            },
                        ),
                    ),
                    Err(reason) => Err(reason@),
                },
            ),
            ServerCommand::Chat(r) => ServerCommandModel::Chat(reply_model(*r)),
            ServerCommand::Touches { player, frames } => ServerCommandModel::Touches {
                player: *player,
                frames: frames_model(frames@),
            },
            ServerCommand::Judges { player, judges } => ServerCommandModel::Judges {
                player: *player,
                judges: judges@,
            },
            ServerCommand::Message(m) => ServerCommandModel::Message(m@),
            ServerCommand::ChangeState(s) => ServerCommandModel::ChangeState(*s),
            ServerCommand::ChangeHost(h) => ServerCommandModel::ChangeHost(*h),
            ServerCommand::CreateRoom(r) => ServerCommandModel::CreateRoom(reply_model(*r)),
            ServerCommand::JoinRoom(r) => ServerCommandModel::JoinRoom(
                match r {
                    Ok(resp) => Ok(resp@),
                    Err(reason) => Err(reason@),
                },
            ),
            ServerCommand::OnJoinRoom(info) => ServerCommandModel::OnJoinRoom(info@),
            ServerCommand::LeaveRoom(r) => ServerCommandModel::LeaveRoom(reply_model(*r)),
            ServerCommand::LockRoom(r) => ServerCommandModel::LockRoom(reply_model(*r)),
            ServerCommand::CycleRoom(r) => ServerCommandModel::CycleRoom(reply_model(*r)),
            ServerCommand::SelectChart(r) => ServerCommandModel::SelectChart(reply_model(*r)),
            ServerCommand::RequestStart(r) => ServerCommandModel::RequestStart(reply_model(*r)),
            ServerCommand::Ready(r) => ServerCommandModel::Ready(reply_model(*r)),
            ServerCommand::CancelReady(r) => ServerCommandModel::CancelReady(reply_model(*r)),
            ServerCommand::Played(r) => ServerCommandModel::Played(reply_model(*r)),
            ServerCommand::Abort(r) => ServerCommandModel::Abort(reply_model(*r)),
        }
    }
}

} // verus!
