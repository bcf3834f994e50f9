//! The wire images of the commands and of what they carry.
//!
//! A struct is the image of its fields in order. A tagged variant is one
//! byte, the variant's number, and then the image of what the variant
//! carries.

use crate::bin::{
    array_encoding, lemma_uleb_round_trip, seq_model, uleb_decoding, uleb_encoding, uleb_limit,
    BinaryData, BinaryReader, BinaryWriter, DecodeError,
};
use crate::command::{
    entry_keys, is_room_id, lemma_upsert_all_distinct, text_fits, upsert_all, ClientRoomState,
    ClientRoomStateModel, CompactPos, JoinRoomResponse, JoinRoomResponseModel, JudgeEvent,
    Judgement, RoomId, RoomState, TouchFrame, TouchFrameModel, UserInfo, UserInfoModel, UserTable,
    Varchar,
};
use crate::primitive::{lossy_text, text_encoding, write_text};
use vstd::prelude::*;
use vstd::utf8::*;

verus! {

/// What follows a tag byte, wrapped into a variant; the tag counts among
/// the bytes taken.
pub open spec fn tagged<T: BinaryData, M>(bytes: Seq<u8>, wrap: spec_fn(T::Model) -> M) -> Result<
    (M, int),
    DecodeError,
> {
    match T::decoding(bytes.skip(1)) {
        Ok((m, n)) => Ok((wrap(m), n + 1)),
        Err(e) => Err(e),
    }
}

/// A value that has the shape of another: decoded as the other, then
/// wrapped.
pub open spec fn shaped<T: BinaryData, M>(bytes: Seq<u8>, wrap: spec_fn(T::Model) -> M) -> Result<
    (M, int),
    DecodeError,
> {
    match T::decoding(bytes) {
        Ok((m, n)) => Ok((wrap(m), n)),
        Err(e) => Err(e),
    }
}

/// The image of a tag and what it carries.
pub open spec fn tag_image<T: BinaryData>(tag: u8, m: T::Model) -> Seq<u8> {
    seq![tag] + T::encoding(m)
}

/// What follows a tag comes back from the image of tag and value.
pub proof fn lemma_tagged<T: BinaryData>(tag: u8, m: T::Model, rest: Seq<u8>)
    requires
        T::writable(m),
    ensures
        (tag_image::<T>(tag, m) + rest).len() > 0,
        (tag_image::<T>(tag, m) + rest)[0] == tag,
        T::decoding((tag_image::<T>(tag, m) + rest).skip(1)) == Ok::<(T::Model, int), DecodeError>(
            (m, tag_image::<T>(tag, m).len() - 1),
        ),
{
    let image = tag_image::<T>(tag, m) + rest;
    assert(image.skip(1) =~= T::encoding(m) + rest);
    T::lemma_round_trip(m, rest);
}

/// Reads what follows a tag byte that was read from `start`.
pub(crate) fn read_tagged<T: BinaryData>(
    r: &mut BinaryReader<'_>,
    Ghost(start): Ghost<Seq<u8>>,
) -> (res: Result<T, DecodeError>)
    requires
        start.len() > 0,
        old(r).remaining() == start.skip(1),
    ensures
        match T::decoding(start.skip(1)) {
            Ok((m, n)) => res is Ok && res->Ok_0.model() == m && 0 <= n + 1 <= start.len()
                && final(r).remaining() == start.skip(n + 1),
            Err(e) => res is Err && res->Err_0 == e,
        },
{
    let res = T::read_binary(r);
    proof {
        match T::decoding(start.skip(1)) {
            Ok((m, n)) => {
                assert(start.skip(1).skip(n) =~= start.skip(n + 1));
            },
            Err(e) => {},
        }
    }
    res
}

/// Writes a tag byte.
pub(crate) fn write_tag(w: &mut BinaryWriter<'_>, tag: u8)
    ensures
        final(w).0@ == old(w).0@ + seq![tag],
        *final(final(w).0) == *final(old(w).0),
{
    let ghost before = w.0@;
    w.0.push(tag);
    assert(before.push(tag) =~= before + seq![tag]);
}

impl BinaryData for CompactPos {
    type Model = CompactPos;

    open spec fn model(&self) -> CompactPos {
        *self
    }

    open spec fn writable(m: CompactPos) -> bool {
        true
    }

    open spec fn encoding(m: CompactPos) -> Seq<u8> {
        <(u16, u16)>::encoding((m.x, m.y))
    }

    open spec fn decoding(bytes: Seq<u8>) -> Result<(CompactPos, int), DecodeError> {
        shaped::<(u16, u16), CompactPos>(bytes, |p: (u16, u16)| CompactPos { x: p.0, y: p.1 })
    }

    proof fn lemma_round_trip(m: CompactPos, rest: Seq<u8>) {
        <(u16, u16)>::lemma_round_trip((m.x, m.y), rest);
    }

    fn read_binary(r: &mut BinaryReader<'_>) -> (res: Result<Self, DecodeError>) {
        match <(u16, u16)>::read_binary(r) {
            Ok(p) => Ok(CompactPos { x: p.0, y: p.1 }),
            Err(e) => Err(e),
        }
    }

    fn write_binary(&self, w: &mut BinaryWriter<'_>) {
        (self.x, self.y).write_binary(w);
    }
}

/// The text of a bounded string at the front of `bytes`: refused where the
/// announced length or the decoded text goes over the bound.
pub open spec fn bounded_decoding(bytes: Seq<u8>, bound: int) -> Result<
    (Seq<char>, int),
    DecodeError,
> {
    match uleb_decoding(bytes) {
        Ok((len, n)) => if len > bound {
            Err(DecodeError::StringTooLong)
        } else if bytes.len() - n < len {
            Err(DecodeError::UnexpectedEof)
        } else {
            let text = lossy_text(bytes.skip(n).take(len as int));
            if text_fits(text, bound) {
                Ok((text, n + len))
            } else {
                Err(DecodeError::StringTooLong)
            }
        },
        Err(e) => Err(e),
    }
}

/// A text within its bound comes back from its image.
pub proof fn lemma_bounded_round_trip(text: Seq<char>, bound: int, rest: Seq<u8>)
    requires
        text_fits(text, bound),
        encode_utf8(text).len() <= uleb_limit(),
    ensures
        bounded_decoding(text_encoding(text) + rest, bound) == Ok::<(Seq<char>, int), DecodeError>(
            (text, text_encoding(text).len() as int),
        ),
{
    let raw = encode_utf8(text);
    let head = uleb_encoding(raw.len());
    let whole = text_encoding(text) + rest;
    assert(whole =~= head + (raw + rest));
    lemma_uleb_round_trip(raw.len() as u64, raw + rest);
    assert(whole.skip(head.len() as int) =~= raw + rest);
    assert((raw + rest).take(raw.len() as int) =~= raw);
    encode_utf8_valid_utf8(text);
    encode_utf8_decode_utf8(text);
}

impl<const N: usize> BinaryData for Varchar<N> {
    type Model = Seq<char>;

    open spec fn model(&self) -> Seq<char> {
        self@
    }

    open spec fn writable(m: Seq<char>) -> bool {
        text_fits(m, N as int) && encode_utf8(m).len() <= uleb_limit()
    }

    open spec fn encoding(m: Seq<char>) -> Seq<u8> {
        text_encoding(m)
    }

    open spec fn decoding(bytes: Seq<u8>) -> Result<(Seq<char>, int), DecodeError> {
        bounded_decoding(bytes, N as int)
    }

    proof fn lemma_round_trip(m: Seq<char>, rest: Seq<u8>) {
        lemma_bounded_round_trip(m, N as int, rest);
    }

    fn read_binary(r: &mut BinaryReader<'_>) -> (res: Result<Self, DecodeError>) {
        let ghost start = r.remaining();
        let len: u64 = match r.uleb() {
            Ok(len) => len,
            Err(e) => {
                return Err(e);
            },
        };
        if len > N as u64 {
            return Err(DecodeError::StringTooLong);
        }
        let ghost n = uleb_decoding(start)->Ok_0.1;
        match r.take(len as usize) {
            Ok(raw) => {
                assert(start.skip(n).skip(len as int) =~= start.skip(n + len));
                let text = crate::primitive::text_of(raw);
                Varchar::new(text)
            },
            Err(e) => Err(e),
        }
    }

    fn write_binary(&self, w: &mut BinaryWriter<'_>) {
        write_text(w, self.as_str());
    }
}

impl BinaryData for RoomId {
    type Model = Seq<char>;

    open spec fn model(&self) -> Seq<char> {
        self@
    }

    open spec fn writable(m: Seq<char>) -> bool {
        is_room_id(m)
    }

    open spec fn encoding(m: Seq<char>) -> Seq<u8> {
        text_encoding(m)
    }

    open spec fn decoding(bytes: Seq<u8>) -> Result<(Seq<char>, int), DecodeError> {
        match bounded_decoding(bytes, 20) {
            Ok((text, n)) => if is_room_id(text) {
                Ok((text, n))
            } else {
                Err(DecodeError::InvalidRoomId)
            },
            Err(e) => Err(e),
        }
    }

    proof fn lemma_round_trip(m: Seq<char>, rest: Seq<u8>) {
        lemma_bounded_round_trip(m, 20, rest);
    }

    fn read_binary(r: &mut BinaryReader<'_>) -> (res: Result<Self, DecodeError>) {
        match Varchar::<20>::read_binary(r) {
            Ok(inner) => RoomId::validate(inner),
            Err(e) => Err(e),
        }
    }

    fn write_binary(&self, w: &mut BinaryWriter<'_>) {
        write_text(w, self.as_str());
    }
}

impl BinaryData for TouchFrame {
    type Model = TouchFrameModel;

    open spec fn model(&self) -> TouchFrameModel {
        self@
    }

    open spec fn writable(m: TouchFrameModel) -> bool {
        m.points.len() <= uleb_limit()
    }

    open spec fn encoding(m: TouchFrameModel) -> Seq<u8> {
        <(u32, Vec<(i8, CompactPos)>)>::encoding((m.time, m.points))
    }

    open spec fn decoding(bytes: Seq<u8>) -> Result<(TouchFrameModel, int), DecodeError> {
        shaped::<(u32, Vec<(i8, CompactPos)>), TouchFrameModel>(
            bytes,
            |p: (u32, Seq<(i8, CompactPos)>)| TouchFrameModel { time: p.0, points: p.1 },
        )
    }

    proof fn lemma_round_trip(m: TouchFrameModel, rest: Seq<u8>) {
        <(u32, Vec<(i8, CompactPos)>)>::lemma_round_trip((m.time, m.points), rest);
    }

    fn read_binary(r: &mut BinaryReader<'_>) -> (res: Result<Self, DecodeError>) {
        match <(u32, Vec<(i8, CompactPos)>)>::read_binary(r) {
            Ok(p) => {
                let frame = TouchFrame { time: p.0, points: p.1 };
                assert(frame@.points =~= p.1.model());
                Ok(frame)
            },
            Err(e) => Err(e),
        }
    }

    fn write_binary(&self, w: &mut BinaryWriter<'_>) {
        let ghost before = w.0@;
        self.time.write_binary(w);
        self.points.write_binary(w);
        proof {
            assert(self.points.model() =~= self@.points);
            assert(w.0@ =~= before + Self::encoding(self@));
        }
    }
}

/// The number of a judgement.
pub open spec fn judgement_tag(j: Judgement) -> u8 {
    match j {
        Judgement::Perfect => 0,
        Judgement::Good => 1,
        Judgement::Bad => 2,
        Judgement::Miss => 3,
        Judgement::HoldPerfect => 4,
        Judgement::HoldGood => 5,
    }
}

impl BinaryData for Judgement {
    type Model = Judgement;

    open spec fn model(&self) -> Judgement {
        *self
    }

    open spec fn writable(m: Judgement) -> bool {
        true
    }

    open spec fn encoding(m: Judgement) -> Seq<u8> {
        seq![judgement_tag(m)]
    }

    open spec fn decoding(bytes: Seq<u8>) -> Result<(Judgement, int), DecodeError> {
        if bytes.len() == 0 {
            Err(DecodeError::UnexpectedEof)
        } else if bytes[0] == 0 {
            Ok((Judgement::Perfect, 1))
        } else if bytes[0] == 1 {
            Ok((Judgement::Good, 1))
        } else if bytes[0] == 2 {
            Ok((Judgement::Bad, 1))
        } else if bytes[0] == 3 {
            Ok((Judgement::Miss, 1))
        } else if bytes[0] == 4 {
            Ok((Judgement::HoldPerfect, 1))
        } else if bytes[0] == 5 {
            Ok((Judgement::HoldGood, 1))
        } else {
            Err(DecodeError::InvalidEnum(bytes[0]))
        }
    }

    proof fn lemma_round_trip(m: Judgement, rest: Seq<u8>) {
        assert((seq![judgement_tag(m)] + rest)[0] == judgement_tag(m));
    }

    fn read_binary(r: &mut BinaryReader<'_>) -> (res: Result<Self, DecodeError>) {
        let tag: u8 = match r.byte() {
            Ok(tag) => tag,
            Err(e) => {
                return Err(e);
            },
        };
        match tag {
            0 => Ok(Judgement::Perfect),
            1 => Ok(Judgement::Good),
            2 => Ok(Judgement::Bad),
            3 => Ok(Judgement::Miss),
            4 => Ok(Judgement::HoldPerfect),
            5 => Ok(Judgement::HoldGood),
            x => Err(DecodeError::InvalidEnum(x)),
        }
    }

    fn write_binary(&self, w: &mut BinaryWriter<'_>) {
        let tag: u8 = match self {
            Judgement::Perfect => 0,
            Judgement::Good => 1,
            Judgement::Bad => 2,
            Judgement::Miss => 3,
            Judgement::HoldPerfect => 4,
            Judgement::HoldGood => 5,
        };
        write_tag(w, tag);
    }
}

impl BinaryData for JudgeEvent {
    type Model = JudgeEvent;

    open spec fn model(&self) -> JudgeEvent {
        *self
    }

    open spec fn writable(m: JudgeEvent) -> bool {
        true
    }

    open spec fn encoding(m: JudgeEvent) -> Seq<u8> {
        <(u32, (u32, (u32, Judgement)))>::encoding((m.time, (m.line_id, (m.note_id, m.judgement))))
    }

    open spec fn decoding(bytes: Seq<u8>) -> Result<(JudgeEvent, int), DecodeError> {
        shaped::<(u32, (u32, (u32, Judgement))), JudgeEvent>(
            bytes,
            |p: (u32, (u32, (u32, Judgement)))|
                JudgeEvent { time: p.0, line_id: p.1.0, note_id: p.1.1.0, judgement: p.1.1.1 },
        )
    }

    proof fn lemma_round_trip(m: JudgeEvent, rest: Seq<u8>) {
        <(u32, (u32, (u32, Judgement)))>::lemma_round_trip(
            (m.time, (m.line_id, (m.note_id, m.judgement))),
            rest,
        );
    }

    fn read_binary(r: &mut BinaryReader<'_>) -> (res: Result<Self, DecodeError>) {
        match <(u32, (u32, (u32, Judgement)))>::read_binary(r) {
            Ok(p) => Ok(
                JudgeEvent { time: p.0, line_id: p.1.0, note_id: p.1.1.0, judgement: p.1.1.1 },
            ),
            Err(e) => Err(e),
        }
    }

    fn write_binary(&self, w: &mut BinaryWriter<'_>) {
        (self.time, (self.line_id, (self.note_id, self.judgement))).write_binary(w);
    }
}

impl BinaryData for RoomState {
    type Model = RoomState;

    open spec fn model(&self) -> RoomState {
        *self
    }

    open spec fn writable(m: RoomState) -> bool {
        true
    }

    open spec fn encoding(m: RoomState) -> Seq<u8> {
        match m {
            RoomState::SelectChart(chart) => tag_image::<Option<i32>>(0, chart),
            RoomState::WaitingForReady => seq![1u8],
            RoomState::Playing => seq![2u8],
        }
    }

    open spec fn decoding(bytes: Seq<u8>) -> Result<(RoomState, int), DecodeError> {
        if bytes.len() == 0 {
            Err(DecodeError::UnexpectedEof)
        } else if bytes[0] == 0 {
            tagged::<Option<i32>, RoomState>(bytes, |chart: Option<i32>| RoomState::SelectChart(chart))
        } else if bytes[0] == 1 {
            Ok((RoomState::WaitingForReady, 1))
        } else if bytes[0] == 2 {
            Ok((RoomState::Playing, 1))
        } else {
            Err(DecodeError::InvalidEnum(bytes[0]))
        }
    }

    proof fn lemma_round_trip(m: RoomState, rest: Seq<u8>) {
        match m {
            RoomState::SelectChart(chart) => {
                lemma_tagged::<Option<i32>>(0, chart, rest);
            },
            RoomState::WaitingForReady => {
                assert((seq![1u8] + rest)[0] == 1u8);
            },
            RoomState::Playing => {
                assert((seq![2u8] + rest)[0] == 2u8);
            },
        }
    }

    fn read_binary(r: &mut BinaryReader<'_>) -> (res: Result<Self, DecodeError>) {
        let ghost start = r.remaining();
        let tag: u8 = match r.byte() {
            Ok(tag) => tag,
            Err(e) => {
                return Err(e);
            },
        };
        match tag {
            0 => match read_tagged::<Option<i32>>(r, Ghost(start)) {
                Ok(chart) => Ok(RoomState::SelectChart(chart)),
                Err(e) => Err(e),
            },
            1 => Ok(RoomState::WaitingForReady),
            2 => Ok(RoomState::Playing),
            x => Err(DecodeError::InvalidEnum(x)),
        }
    }

    fn write_binary(&self, w: &mut BinaryWriter<'_>) {
        let ghost before = w.0@;
        match self {
            RoomState::SelectChart(chart) => {
                write_tag(w, 0);
                chart.write_binary(w);
                assert(w.0@ =~= before + Self::encoding(*self));
            },
            RoomState::WaitingForReady => {
                write_tag(w, 1);
            },
            RoomState::Playing => {
                write_tag(w, 2);
            },
        }
    }
}

impl BinaryData for UserInfo {
    type Model = UserInfoModel;

    open spec fn model(&self) -> UserInfoModel {
        self@
    }

    open spec fn writable(m: UserInfoModel) -> bool {
        String::writable(m.name)
    }

    open spec fn encoding(m: UserInfoModel) -> Seq<u8> {
        <(i32, (String, bool))>::encoding((m.id, (m.name, m.monitor)))
    }

    open spec fn decoding(bytes: Seq<u8>) -> Result<(UserInfoModel, int), DecodeError> {
        shaped::<(i32, (String, bool)), UserInfoModel>(
            bytes,
            |p: (i32, (Seq<char>, bool))| UserInfoModel { id: p.0, name: p.1.0, monitor: p.1.1 },
        )
    }

    proof fn lemma_round_trip(m: UserInfoModel, rest: Seq<u8>) {
        <(i32, (String, bool))>::lemma_round_trip((m.id, (m.name, m.monitor)), rest);
    }

    fn read_binary(r: &mut BinaryReader<'_>) -> (res: Result<Self, DecodeError>) {
        match <(i32, (String, bool))>::read_binary(r) {
            Ok(p) => Ok(UserInfo { id: p.0, name: p.1.0, monitor: p.1.1 }),
            Err(e) => Err(e),
        }
    }

    fn write_binary(&self, w: &mut BinaryWriter<'_>) {
        let ghost before = w.0@;
        self.id.write_binary(w);
        self.name.write_binary(w);
        self.monitor.write_binary(w);
        assert(w.0@ =~= before + Self::encoding(self@));
    }
}

/// Whether a table can be decoded from its image: no key twice, and each
/// record writable.
pub open spec fn table_writable(m: Seq<(i32, UserInfoModel)>) -> bool {
    &&& entry_keys(m).no_duplicates()
    &&& Vec::<(i32, UserInfo)>::writable(m)
}

impl BinaryData for UserTable {
    type Model = Seq<(i32, UserInfoModel)>;

    open spec fn model(&self) -> Seq<(i32, UserInfoModel)> {
        self@
    }

    open spec fn writable(m: Seq<(i32, UserInfoModel)>) -> bool {
        table_writable(m)
    }

    open spec fn encoding(m: Seq<(i32, UserInfoModel)>) -> Seq<u8> {
        array_encoding::<(i32, UserInfo)>(m)
    }

    open spec fn decoding(bytes: Seq<u8>) -> Result<(Seq<(i32, UserInfoModel)>, int), DecodeError> {
        shaped::<Vec<(i32, UserInfo)>, Seq<(i32, UserInfoModel)>>(
            bytes,
            |list: Seq<(i32, UserInfoModel)>| upsert_all(Seq::empty(), list),
        )
    }

    proof fn lemma_round_trip(m: Seq<(i32, UserInfoModel)>, rest: Seq<u8>) {
        Vec::<(i32, UserInfo)>::lemma_round_trip(m, rest);
        assert(Seq::<(i32, UserInfoModel)>::empty() + m =~= m);
        lemma_upsert_all_distinct(Seq::empty(), m);
    }

    fn read_binary(r: &mut BinaryReader<'_>) -> (res: Result<Self, DecodeError>) {
        let list: Vec<(i32, UserInfo)> = match r.array::<(i32, UserInfo)>() {
            Ok(list) => list,
            Err(e) => {
                return Err(e);
            },
        };
        let ghost models = seq_model(list@);
        let mut table = UserTable::new();
        let mut i: usize = 0;
        assert(models.skip(0) =~= models);
        while i < list.len()
            invariant
                i <= list.len(),
                models == seq_model(list@),
                upsert_all(table@, models.skip(i as int)) == upsert_all(Seq::empty(), models),
            decreases list.len() - i,
        {
            let ghost before = table@;
            table.insert(list[i].0, list[i].1.duplicate());
            proof {
                let rest = models.skip(i as int);
                assert(rest[0] == models[i as int]);
                assert(rest.skip(1) =~= models.skip(i + 1));
            }
            i = i + 1;
        }
        Ok(table)
    }

    fn write_binary(&self, w: &mut BinaryWriter<'_>) {
        let entries = self.as_slice();
        assert(seq_model(entries@) =~= self@);
        w.array(entries);
    }
}

/// The fields of a client's picture of a room, in their order.
pub type RoomShape = (RoomId, (RoomState, (bool, (bool, (bool, (bool, (bool, UserTable)))))));

/// The models of those fields.
pub type RoomShapeModel = (
    Seq<char>,
    (RoomState, (bool, (bool, (bool, (bool, (bool, Seq<(i32, UserInfoModel)>)))))),
);

/// The fields of a picture of a room.
pub open spec fn room_shape(m: ClientRoomStateModel) -> RoomShapeModel {
    (m.id, (m.state, (m.live, (m.locked, (m.cycle, (m.is_host, (m.is_ready, m.users)))))))
}

/// The picture of a room that has given fields.
pub open spec fn room_of_shape(p: RoomShapeModel) -> ClientRoomStateModel {
    ClientRoomStateModel {
        id: p.0,
        state: p.1.0,
        live: p.1.1.0,
        locked: p.1.1.1.0,
        cycle: p.1.1.1.1.0,
        is_host: p.1.1.1.1.1.0,
        is_ready: p.1.1.1.1.1.1.0,
        users: p.1.1.1.1.1.1.1,
    }
}

impl BinaryData for ClientRoomState {
    type Model = ClientRoomStateModel;

    open spec fn model(&self) -> ClientRoomStateModel {
        self@
    }

    open spec fn writable(m: ClientRoomStateModel) -> bool {
        RoomShape::writable(room_shape(m))
    }

    open spec fn encoding(m: ClientRoomStateModel) -> Seq<u8> {
        RoomShape::encoding(room_shape(m))
    }

    open spec fn decoding(bytes: Seq<u8>) -> Result<(ClientRoomStateModel, int), DecodeError> {
        shaped::<RoomShape, ClientRoomStateModel>(bytes, |p: RoomShapeModel| room_of_shape(p))
    }

    proof fn lemma_round_trip(m: ClientRoomStateModel, rest: Seq<u8>) {
        RoomShape::lemma_round_trip(room_shape(m), rest);
    }

    fn read_binary(r: &mut BinaryReader<'_>) -> (res: Result<Self, DecodeError>) {
        match RoomShape::read_binary(r) {
            Ok(p) => {
                let (id, (state, (live, (locked, (cycle, (is_host, (is_ready, users))))))) = p;
                Ok(ClientRoomState { id, state, live, locked, cycle, is_host, is_ready, users })
            },
            Err(e) => Err(e),
        }
    }

    fn write_binary(&self, w: &mut BinaryWriter<'_>) {
        let ghost before = w.0@;
        self.id.write_binary(w);
        self.state.write_binary(w);
        self.live.write_binary(w);
        self.locked.write_binary(w);
        self.cycle.write_binary(w);
        self.is_host.write_binary(w);
        self.is_ready.write_binary(w);
        self.users.write_binary(w);
        assert(w.0@ =~= before + Self::encoding(self@));
    }
}

impl BinaryData for JoinRoomResponse {
    type Model = JoinRoomResponseModel;

    open spec fn model(&self) -> JoinRoomResponseModel {
        self@
    }

    open spec fn writable(m: JoinRoomResponseModel) -> bool {
        Vec::<UserInfo>::writable(m.users)
    }

    open spec fn encoding(m: JoinRoomResponseModel) -> Seq<u8> {
        <(RoomState, (Vec<UserInfo>, bool))>::encoding((m.state, (m.users, m.live)))
    }

    open spec fn decoding(bytes: Seq<u8>) -> Result<(JoinRoomResponseModel, int), DecodeError> {
        shaped::<(RoomState, (Vec<UserInfo>, bool)), JoinRoomResponseModel>(
            bytes,
            |p: (RoomState, (Seq<UserInfoModel>, bool))|
                JoinRoomResponseModel { state: p.0, users: p.1.0, live: p.1.1 },
        )
    }

    proof fn lemma_round_trip(m: JoinRoomResponseModel, rest: Seq<u8>) {
        <(RoomState, (Vec<UserInfo>, bool))>::lemma_round_trip((m.state, (m.users, m.live)), rest);
    }

    fn read_binary(r: &mut BinaryReader<'_>) -> (res: Result<Self, DecodeError>) {
        match <(RoomState, (Vec<UserInfo>, bool))>::read_binary(r) {
            Ok(p) => {
                let (state, (users, live)) = p;
                let resp = JoinRoomResponse { state, users, live };
                assert(resp@.users =~= seq_model(users@));
                Ok(resp)
            },
            Err(e) => Err(e),
        }
    }

    fn write_binary(&self, w: &mut BinaryWriter<'_>) {
        let ghost before = w.0@;
        self.state.write_binary(w);
        self.users.write_binary(w);
        self.live.write_binary(w);
        proof {
            assert(seq_model(self.users@) =~= self@.users);
            assert(w.0@ =~= before + Self::encoding(self@));
        }
    }
}

} // verus!
