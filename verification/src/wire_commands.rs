//! The wire images of the three command sets.

use crate::bin::{seq_model, BinaryData, BinaryReader, BinaryWriter, DecodeError};
use crate::command::{
    frames_model, ClientCommand, ClientCommandModel, ClientRoomState, ClientRoomStateModel,
    JoinRoomResponse, JoinRoomResponseModel, JudgeEvent, Message, MessageModel, RoomId, RoomState,
    ServerCommand, ServerCommandModel, TouchFrame, TouchFrameModel, UserInfo, UserInfoModel,
    Varchar,
};
use crate::wire::{lemma_tagged, read_tagged, tag_image, tagged, write_tag};
use std::sync::Arc;
use vstd::prelude::*;

verus! {

impl BinaryData for Message {
    type Model = MessageModel;

    open spec fn model(&self) -> MessageModel {
        self@
    }

    open spec fn writable(m: MessageModel) -> bool {
        match m {
            MessageModel::Chat { user, content } => <(i32, String)>::writable((user, content)),
            MessageModel::CreateRoom { user } => <i32>::writable(user),
            MessageModel::JoinRoom { user, name } => <(i32, String)>::writable((user, name)),
            MessageModel::LeaveRoom { user, name } => <(i32, String)>::writable((user, name)),
            MessageModel::NewHost { user } => <i32>::writable(user),
            MessageModel::SelectChart { user, name, id } => <(i32, (String, i32))>::writable(
                (user, (name, id)),
            ),
            MessageModel::GameStart { user } => <i32>::writable(user),
            MessageModel::Ready { user } => <i32>::writable(user),
            MessageModel::CancelReady { user } => <i32>::writable(user),
            MessageModel::CancelGame { user } => <i32>::writable(user),
            MessageModel::StartPlaying => <()>::writable(()),
            MessageModel::Played { user, score, accuracy, full_combo } => <(i32, (i32, (u32, bool)))>::writable(
                (user, (score, (accuracy, full_combo))),
            ),
            MessageModel::GameEnd => <()>::writable(()),
            MessageModel::Abort { user } => <i32>::writable(user),
            MessageModel::LockRoom { lock } => <bool>::writable(lock),
            MessageModel::CycleRoom { cycle } => <bool>::writable(cycle),
        }
    }

    open spec fn encoding(m: MessageModel) -> Seq<u8> {
        match m {
            MessageModel::Chat { user, content } => tag_image::<(i32, String)>(0, (user, content)),
            MessageModel::CreateRoom { user } => tag_image::<i32>(1, user),
            MessageModel::JoinRoom { user, name } => tag_image::<(i32, String)>(2, (user, name)),
            MessageModel::LeaveRoom { user, name } => tag_image::<(i32, String)>(3, (user, name)),
            MessageModel::NewHost { user } => tag_image::<i32>(4, user),
            MessageModel::SelectChart { user, name, id } => tag_image::<(i32, (String, i32))>(
                5,
                (user, (name, id)),
            ),
            MessageModel::GameStart { user } => tag_image::<i32>(6, user),
            MessageModel::Ready { user } => tag_image::<i32>(7, user),
            MessageModel::CancelReady { user } => tag_image::<i32>(8, user),
            MessageModel::CancelGame { user } => tag_image::<i32>(9, user),
            MessageModel::StartPlaying => tag_image::<()>(10, ()),
            MessageModel::Played { user, score, accuracy, full_combo } => tag_image::<(i32, (i32, (u32, bool)))>(
                11,
                (user, (score, (accuracy, full_combo))),
            ),
            MessageModel::GameEnd => tag_image::<()>(12, ()),
            MessageModel::Abort { user } => tag_image::<i32>(13, user),
            MessageModel::LockRoom { lock } => tag_image::<bool>(14, lock),
            MessageModel::CycleRoom { cycle } => tag_image::<bool>(15, cycle),
        }
    }

    open spec fn decoding(bytes: Seq<u8>) -> Result<(MessageModel, int), DecodeError> {
        if bytes.len() == 0 {
            Err(DecodeError::UnexpectedEof)
        } else if bytes[0] == 0 {
            tagged::<(i32, String), MessageModel>(
                bytes,
                |p: (i32, Seq<char>)| MessageModel::Chat { user: p.0, content: p.1 },
            )
        } else if bytes[0] == 1 {
            tagged::<i32, MessageModel>(bytes, |p: i32| MessageModel::CreateRoom { user: p })
        } else if bytes[0] == 2 {
            tagged::<(i32, String), MessageModel>(
                bytes,
                |p: (i32, Seq<char>)| MessageModel::JoinRoom { user: p.0, name: p.1 },
            )
        } else if bytes[0] == 3 {
            tagged::<(i32, String), MessageModel>(
                bytes,
                |p: (i32, Seq<char>)| MessageModel::LeaveRoom { user: p.0, name: p.1 },
            )
        } else if bytes[0] == 4 {
            tagged::<i32, MessageModel>(bytes, |p: i32| MessageModel::NewHost { user: p })
        } else if bytes[0] == 5 {
            tagged::<(i32, (String, i32)), MessageModel>(
                bytes,
                |p: (i32, (Seq<char>, i32))| MessageModel::SelectChart { user: p.0, name: p.1.0, id: p.1.1 },
            )
        } else if bytes[0] == 6 {
            tagged::<i32, MessageModel>(bytes, |p: i32| MessageModel::GameStart { user: p })
        } else if bytes[0] == 7 {
            tagged::<i32, MessageModel>(bytes, |p: i32| MessageModel::Ready { user: p })
        } else if bytes[0] == 8 {
            tagged::<i32, MessageModel>(bytes, |p: i32| MessageModel::CancelReady { user: p })
        } else if bytes[0] == 9 {
            tagged::<i32, MessageModel>(bytes, |p: i32| MessageModel::CancelGame { user: p })
        } else if bytes[0] == 10 {
            tagged::<(), MessageModel>(bytes, |p: ()| MessageModel::StartPlaying)
        } else if bytes[0] == 11 {
            tagged::<(i32, (i32, (u32, bool))), MessageModel>(
                bytes,
                |p: (i32, (i32, (u32, bool)))| MessageModel::Played { user: p.0, score: p.1.0, accuracy: p.1.1.0, full_combo: p.1.1.1 },
            )
        } else if bytes[0] == 12 {
            tagged::<(), MessageModel>(bytes, |p: ()| MessageModel::GameEnd)
        } else if bytes[0] == 13 {
            tagged::<i32, MessageModel>(bytes, |p: i32| MessageModel::Abort { user: p })
        } else if bytes[0] == 14 {
            tagged::<bool, MessageModel>(bytes, |p: bool| MessageModel::LockRoom { lock: p })
        } else if bytes[0] == 15 {
            tagged::<bool, MessageModel>(bytes, |p: bool| MessageModel::CycleRoom { cycle: p })
        } else {
            Err(DecodeError::InvalidEnum(bytes[0]))
        }
    }

    proof fn lemma_round_trip(m: MessageModel, rest: Seq<u8>) {
        match m {
            MessageModel::Chat { user, content } => {
                lemma_tagged::<(i32, String)>(0, (user, content), rest);
            },
            MessageModel::CreateRoom { user } => {
                lemma_tagged::<i32>(1, user, rest);
            },
            MessageModel::JoinRoom { user, name } => {
                lemma_tagged::<(i32, String)>(2, (user, name), rest);
            },
            MessageModel::LeaveRoom { user, name } => {
                lemma_tagged::<(i32, String)>(3, (user, name), rest);
            },
            MessageModel::NewHost { user } => {
                lemma_tagged::<i32>(4, user, rest);
            },
            MessageModel::SelectChart { user, name, id } => {
                lemma_tagged::<(i32, (String, i32))>(5, (user, (name, id)), rest);
            },
            MessageModel::GameStart { user } => {
                lemma_tagged::<i32>(6, user, rest);
            },
            MessageModel::Ready { user } => {
                lemma_tagged::<i32>(7, user, rest);
            },
            MessageModel::CancelReady { user } => {
                lemma_tagged::<i32>(8, user, rest);
            },
            MessageModel::CancelGame { user } => {
                lemma_tagged::<i32>(9, user, rest);
            },
            MessageModel::StartPlaying => {
                lemma_tagged::<()>(10, (), rest);
            },
            MessageModel::Played { user, score, accuracy, full_combo } => {
                lemma_tagged::<(i32, (i32, (u32, bool)))>(
                    11,
                    (user, (score, (accuracy, full_combo))),
                    rest,
                );
            },
            MessageModel::GameEnd => {
                lemma_tagged::<()>(12, (), rest);
            },
            MessageModel::Abort { user } => {
                lemma_tagged::<i32>(13, user, rest);
            },
            MessageModel::LockRoom { lock } => {
                lemma_tagged::<bool>(14, lock, rest);
            },
            MessageModel::CycleRoom { cycle } => {
                lemma_tagged::<bool>(15, cycle, rest);
            },
        }
    }

    fn read_binary(r: &mut BinaryReader<'_>) -> (res: Result<Self, DecodeError>) {
        let ghost start = r.remaining();
        let tag: u8 = match r.byte() {
            Ok(tag) => tag,
            Err(e) => {
                return Err(e);
            },
        };
        match tag {
            0 => read_message_chat(r, Ghost(start)),
            1 => read_message_create_room(r, Ghost(start)),
            2 => read_message_join_room(r, Ghost(start)),
            3 => read_message_leave_room(r, Ghost(start)),
            4 => read_message_new_host(r, Ghost(start)),
            5 => read_message_select_chart(r, Ghost(start)),
            6 => read_message_game_start(r, Ghost(start)),
            7 => read_message_ready(r, Ghost(start)),
            8 => read_message_cancel_ready(r, Ghost(start)),
            9 => read_message_cancel_game(r, Ghost(start)),
            10 => read_message_start_playing(r, Ghost(start)),
            11 => read_message_played(r, Ghost(start)),
            12 => read_message_game_end(r, Ghost(start)),
            13 => read_message_abort(r, Ghost(start)),
            14 => read_message_lock_room(r, Ghost(start)),
            15 => read_message_cycle_room(r, Ghost(start)),
            x => Err(DecodeError::InvalidEnum(x)),
        }
    }

    fn write_binary(&self, w: &mut BinaryWriter<'_>) {
        let ghost before = w.0@;
        match self {
            Message::Chat { user, content } => {
                write_tag(w, 0);
                user.write_binary(w);
                content.write_binary(w);
                proof {
                    assert(w.0@ =~= before + Self::encoding(self@));
                }
            },
            Message::CreateRoom { user } => {
                write_tag(w, 1);
                user.write_binary(w);
                proof {
                    assert(w.0@ =~= before + Self::encoding(self@));
                }
            },
            Message::JoinRoom { user, name } => {
                write_tag(w, 2);
                user.write_binary(w);
                name.write_binary(w);
                proof {
                    assert(w.0@ =~= before + Self::encoding(self@));
                }
            },
            Message::LeaveRoom { user, name } => {
                write_tag(w, 3);
                user.write_binary(w);
                name.write_binary(w);
                proof {
                    assert(w.0@ =~= before + Self::encoding(self@));
                }
            },
            Message::NewHost { user } => {
                write_tag(w, 4);
                user.write_binary(w);
                proof {
                    assert(w.0@ =~= before + Self::encoding(self@));
                }
            },
            Message::SelectChart { user, name, id } => {
                write_tag(w, 5);
                user.write_binary(w);
                name.write_binary(w);
                id.write_binary(w);
                proof {
                    assert(w.0@ =~= before + Self::encoding(self@));
                }
            },
            Message::GameStart { user } => {
                write_tag(w, 6);
                user.write_binary(w);
                proof {
                    assert(w.0@ =~= before + Self::encoding(self@));
                }
            },
            Message::Ready { user } => {
                write_tag(w, 7);
                user.write_binary(w);
                proof {
                    assert(w.0@ =~= before + Self::encoding(self@));
                }
            },
            Message::CancelReady { user } => {
                write_tag(w, 8);
                user.write_binary(w);
                proof {
                    assert(w.0@ =~= before + Self::encoding(self@));
                }
            },
            Message::CancelGame { user } => {
                write_tag(w, 9);
                user.write_binary(w);
                proof {
                    assert(w.0@ =~= before + Self::encoding(self@));
                }
            },
            Message::StartPlaying => {
                write_tag(w, 10);
                proof {
                    assert(w.0@ =~= before + Self::encoding(self@));
                }
            },
            Message::Played { user, score, accuracy, full_combo } => {
                write_tag(w, 11);
                user.write_binary(w);
                score.write_binary(w);
                accuracy.write_binary(w);
                full_combo.write_binary(w);
                proof {
                    assert(w.0@ =~= before + Self::encoding(self@));
                }
            },
            Message::GameEnd => {
                write_tag(w, 12);
                proof {
                    assert(w.0@ =~= before + Self::encoding(self@));
                }
            },
            Message::Abort { user } => {
                write_tag(w, 13);
                user.write_binary(w);
                proof {
                    assert(w.0@ =~= before + Self::encoding(self@));
                }
            },
            Message::LockRoom { lock } => {
                write_tag(w, 14);
                lock.write_binary(w);
                proof {
                    assert(w.0@ =~= before + Self::encoding(self@));
                }
            },
            Message::CycleRoom { cycle } => {
                write_tag(w, 15);
                cycle.write_binary(w);
                proof {
                    assert(w.0@ =~= before + Self::encoding(self@));
                }
            },
        }
    }
}

/// Reads what `Message::Chat` carries.
fn read_message_chat(
    r: &mut BinaryReader<'_>,
    Ghost(start): Ghost<Seq<u8>>,
) -> (res: Result<Message, DecodeError>)
    requires
        start.len() > 0,
        old(r).remaining() == start.skip(1),
    ensures
        match tagged::<(i32, String), MessageModel>(
            start,
            |p: (i32, Seq<char>)| MessageModel::Chat { user: p.0, content: p.1 },
        ) {
            Ok((m, n)) => res is Ok && res->Ok_0@ == m && 0 <= n <= start.len()
                && final(r).remaining() == start.skip(n),
            Err(e) => res is Err && res->Err_0 == e,
        },
{
    match read_tagged::<(i32, String)>(r, Ghost(start)) {
        Ok(p) => {
            let made = Message::Chat { user: p.0, content: p.1 };
            Ok(made)
        },
        Err(e) => Err(e),
    }
}

/// Reads what `Message::CreateRoom` carries.
fn read_message_create_room(
    r: &mut BinaryReader<'_>,
    Ghost(start): Ghost<Seq<u8>>,
) -> (res: Result<Message, DecodeError>)
    requires
        start.len() > 0,
        old(r).remaining() == start.skip(1),
    ensures
        match tagged::<i32, MessageModel>(start, |p: i32| MessageModel::CreateRoom { user: p }) {
            Ok((m, n)) => res is Ok && res->Ok_0@ == m && 0 <= n <= start.len()
                && final(r).remaining() == start.skip(n),
            Err(e) => res is Err && res->Err_0 == e,
        },
{
    match read_tagged::<i32>(r, Ghost(start)) {
        Ok(p) => {
            let made = Message::CreateRoom { user: p };
            Ok(made)
        },
        Err(e) => Err(e),
    }
}

/// Reads what `Message::JoinRoom` carries.
fn read_message_join_room(
    r: &mut BinaryReader<'_>,
    Ghost(start): Ghost<Seq<u8>>,
) -> (res: Result<Message, DecodeError>)
    requires
        start.len() > 0,
        old(r).remaining() == start.skip(1),
    ensures
        match tagged::<(i32, String), MessageModel>(
            start,
            |p: (i32, Seq<char>)| MessageModel::JoinRoom { user: p.0, name: p.1 },
        ) {
            Ok((m, n)) => res is Ok && res->Ok_0@ == m && 0 <= n <= start.len()
                && final(r).remaining() == start.skip(n),
            Err(e) => res is Err && res->Err_0 == e,
        },
{
    match read_tagged::<(i32, String)>(r, Ghost(start)) {
        Ok(p) => {
            let made = Message::JoinRoom { user: p.0, name: p.1 };
            Ok(made)
        },
        Err(e) => Err(e),
    }
}

/// Reads what `Message::LeaveRoom` carries.
fn read_message_leave_room(
    r: &mut BinaryReader<'_>,
    Ghost(start): Ghost<Seq<u8>>,
) -> (res: Result<Message, DecodeError>)
    requires
        start.len() > 0,
        old(r).remaining() == start.skip(1),
    ensures
        match tagged::<(i32, String), MessageModel>(
            start,
            |p: (i32, Seq<char>)| MessageModel::LeaveRoom { user: p.0, name: p.1 },
        ) {
            Ok((m, n)) => res is Ok && res->Ok_0@ == m && 0 <= n <= start.len()
                && final(r).remaining() == start.skip(n),
            Err(e) => res is Err && res->Err_0 == e,
        },
{
    match read_tagged::<(i32, String)>(r, Ghost(start)) {
        Ok(p) => {
            let made = Message::LeaveRoom { user: p.0, name: p.1 };
            Ok(made)
        },
        Err(e) => Err(e),
    }
}

/// Reads what `Message::NewHost` carries.
fn read_message_new_host(
    r: &mut BinaryReader<'_>,
    Ghost(start): Ghost<Seq<u8>>,
) -> (res: Result<Message, DecodeError>)
    requires
        start.len() > 0,
        old(r).remaining() == start.skip(1),
    ensures
        match tagged::<i32, MessageModel>(start, |p: i32| MessageModel::NewHost { user: p }) {
            Ok((m, n)) => res is Ok && res->Ok_0@ == m && 0 <= n <= start.len()
                && final(r).remaining() == start.skip(n),
            Err(e) => res is Err && res->Err_0 == e,
        },
{
    match read_tagged::<i32>(r, Ghost(start)) {
        Ok(p) => {
            let made = Message::NewHost { user: p };
            Ok(made)
        },
        Err(e) => Err(e),
    }
}

/// Reads what `Message::SelectChart` carries.
fn read_message_select_chart(
    r: &mut BinaryReader<'_>,
    Ghost(start): Ghost<Seq<u8>>,
) -> (res: Result<Message, DecodeError>)
    requires
        start.len() > 0,
        old(r).remaining() == start.skip(1),
    ensures
        match tagged::<(i32, (String, i32)), MessageModel>(
            start,
            |p: (i32, (Seq<char>, i32))| MessageModel::SelectChart { user: p.0, name: p.1.0, id: p.1.1 },
        ) {
            Ok((m, n)) => res is Ok && res->Ok_0@ == m && 0 <= n <= start.len()
                && final(r).remaining() == start.skip(n),
            Err(e) => res is Err && res->Err_0 == e,
        },
{
    match read_tagged::<(i32, (String, i32))>(r, Ghost(start)) {
        Ok(p) => {
            let made = Message::SelectChart { user: p.0, name: p.1.0, id: p.1.1 };
            Ok(made)
        },
        Err(e) => Err(e),
    }
}

/// Reads what `Message::GameStart` carries.
fn read_message_game_start(
    r: &mut BinaryReader<'_>,
    Ghost(start): Ghost<Seq<u8>>,
) -> (res: Result<Message, DecodeError>)
    requires
        start.len() > 0,
        old(r).remaining() == start.skip(1),
    ensures
        match tagged::<i32, MessageModel>(start, |p: i32| MessageModel::GameStart { user: p }) {
            Ok((m, n)) => res is Ok && res->Ok_0@ == m && 0 <= n <= start.len()
                && final(r).remaining() == start.skip(n),
            Err(e) => res is Err && res->Err_0 == e,
        },
{
    match read_tagged::<i32>(r, Ghost(start)) {
        Ok(p) => {
            let made = Message::GameStart { user: p };
            Ok(made)
        },
        Err(e) => Err(e),
    }
}

/// Reads what `Message::Ready` carries.
fn read_message_ready(
    r: &mut BinaryReader<'_>,
    Ghost(start): Ghost<Seq<u8>>,
) -> (res: Result<Message, DecodeError>)
    requires
        start.len() > 0,
        old(r).remaining() == start.skip(1),
    ensures
        match tagged::<i32, MessageModel>(start, |p: i32| MessageModel::Ready { user: p }) {
            Ok((m, n)) => res is Ok && res->Ok_0@ == m && 0 <= n <= start.len()
                && final(r).remaining() == start.skip(n),
            Err(e) => res is Err && res->Err_0 == e,
        },
{
    match read_tagged::<i32>(r, Ghost(start)) {
        Ok(p) => {
            let made = Message::Ready { user: p };
            Ok(made)
        },
        Err(e) => Err(e),
    }
}

/// Reads what `Message::CancelReady` carries.
fn read_message_cancel_ready(
    r: &mut BinaryReader<'_>,
    Ghost(start): Ghost<Seq<u8>>,
) -> (res: Result<Message, DecodeError>)
    requires
        start.len() > 0,
        old(r).remaining() == start.skip(1),
    ensures
        match tagged::<i32, MessageModel>(start, |p: i32| MessageModel::CancelReady { user: p }) {
            Ok((m, n)) => res is Ok && res->Ok_0@ == m && 0 <= n <= start.len()
                && final(r).remaining() == start.skip(n),
            Err(e) => res is Err && res->Err_0 == e,
        },
{
    match read_tagged::<i32>(r, Ghost(start)) {
        Ok(p) => {
            let made = Message::CancelReady { user: p };
            Ok(made)
        },
        Err(e) => Err(e),
    }
}

/// Reads what `Message::CancelGame` carries.
fn read_message_cancel_game(
    r: &mut BinaryReader<'_>,
    Ghost(start): Ghost<Seq<u8>>,
) -> (res: Result<Message, DecodeError>)
    requires
        start.len() > 0,
        old(r).remaining() == start.skip(1),
    ensures
        match tagged::<i32, MessageModel>(start, |p: i32| MessageModel::CancelGame { user: p }) {
            Ok((m, n)) => res is Ok && res->Ok_0@ == m && 0 <= n <= start.len()
                && final(r).remaining() == start.skip(n),
            Err(e) => res is Err && res->Err_0 == e,
        },
{
    match read_tagged::<i32>(r, Ghost(start)) {
        Ok(p) => {
            let made = Message::CancelGame { user: p };
            Ok(made)
        },
        Err(e) => Err(e),
    }
}

/// Reads what `Message::StartPlaying` carries.
fn read_message_start_playing(
    r: &mut BinaryReader<'_>,
    Ghost(start): Ghost<Seq<u8>>,
) -> (res: Result<Message, DecodeError>)
    requires
        start.len() > 0,
        old(r).remaining() == start.skip(1),
    ensures
        match tagged::<(), MessageModel>(start, |p: ()| MessageModel::StartPlaying) {
            Ok((m, n)) => res is Ok && res->Ok_0@ == m && 0 <= n <= start.len()
                && final(r).remaining() == start.skip(n),
            Err(e) => res is Err && res->Err_0 == e,
        },
{
    match read_tagged::<()>(r, Ghost(start)) {
        Ok(p) => {
            let made = Message::StartPlaying;
            Ok(made)
        },
        Err(e) => Err(e),
    }
}

/// Reads what `Message::Played` carries.
fn read_message_played(
    r: &mut BinaryReader<'_>,
    Ghost(start): Ghost<Seq<u8>>,
) -> (res: Result<Message, DecodeError>)
    requires
        start.len() > 0,
        old(r).remaining() == start.skip(1),
    ensures
        match tagged::<(i32, (i32, (u32, bool))), MessageModel>(
            start,
            |p: (i32, (i32, (u32, bool)))| MessageModel::Played { user: p.0, score: p.1.0, accuracy: p.1.1.0, full_combo: p.1.1.1 },
        ) {
            Ok((m, n)) => res is Ok && res->Ok_0@ == m && 0 <= n <= start.len()
                && final(r).remaining() == start.skip(n),
            Err(e) => res is Err && res->Err_0 == e,
        },
{
    match read_tagged::<(i32, (i32, (u32, bool)))>(r, Ghost(start)) {
        Ok(p) => {
            let made = Message::Played { user: p.0, score: p.1.0, accuracy: p.1.1.0, full_combo: p.1.1.1 };
            Ok(made)
        },
        Err(e) => Err(e),
    }
}

/// Reads what `Message::GameEnd` carries.
fn read_message_game_end(
    r: &mut BinaryReader<'_>,
    Ghost(start): Ghost<Seq<u8>>,
) -> (res: Result<Message, DecodeError>)
    requires
        start.len() > 0,
        old(r).remaining() == start.skip(1),
    ensures
        match tagged::<(), MessageModel>(start, |p: ()| MessageModel::GameEnd) {
            Ok((m, n)) => res is Ok && res->Ok_0@ == m && 0 <= n <= start.len()
                && final(r).remaining() == start.skip(n),
            Err(e) => res is Err && res->Err_0 == e,
        },
{
    match read_tagged::<()>(r, Ghost(start)) {
        Ok(p) => {
            let made = Message::GameEnd;
            Ok(made)
        },
        Err(e) => Err(e),
    }
}

/// Reads what `Message::Abort` carries.
fn read_message_abort(
    r: &mut BinaryReader<'_>,
    Ghost(start): Ghost<Seq<u8>>,
) -> (res: Result<Message, DecodeError>)
    requires
        start.len() > 0,
        old(r).remaining() == start.skip(1),
    ensures
        match tagged::<i32, MessageModel>(start, |p: i32| MessageModel::Abort { user: p }) {
            Ok((m, n)) => res is Ok && res->Ok_0@ == m && 0 <= n <= start.len()
                && final(r).remaining() == start.skip(n),
            Err(e) => res is Err && res->Err_0 == e,
        },
{
    match read_tagged::<i32>(r, Ghost(start)) {
        Ok(p) => {
            let made = Message::Abort { user: p };
            Ok(made)
        },
        Err(e) => Err(e),
    }
}

/// Reads what `Message::LockRoom` carries.
fn read_message_lock_room(
    r: &mut BinaryReader<'_>,
    Ghost(start): Ghost<Seq<u8>>,
) -> (res: Result<Message, DecodeError>)
    requires
        start.len() > 0,
        old(r).remaining() == start.skip(1),
    ensures
        match tagged::<bool, MessageModel>(start, |p: bool| MessageModel::LockRoom { lock: p }) {
            Ok((m, n)) => res is Ok && res->Ok_0@ == m && 0 <= n <= start.len()
                && final(r).remaining() == start.skip(n),
            Err(e) => res is Err && res->Err_0 == e,
        },
{
    match read_tagged::<bool>(r, Ghost(start)) {
        Ok(p) => {
            let made = Message::LockRoom { lock: p };
            Ok(made)
        },
        Err(e) => Err(e),
    }
}

/// Reads what `Message::CycleRoom` carries.
fn read_message_cycle_room(
    r: &mut BinaryReader<'_>,
    Ghost(start): Ghost<Seq<u8>>,
) -> (res: Result<Message, DecodeError>)
    requires
        start.len() > 0,
        old(r).remaining() == start.skip(1),
    ensures
        match tagged::<bool, MessageModel>(start, |p: bool| MessageModel::CycleRoom { cycle: p }) {
            Ok((m, n)) => res is Ok && res->Ok_0@ == m && 0 <= n <= start.len()
                && final(r).remaining() == start.skip(n),
            Err(e) => res is Err && res->Err_0 == e,
        },
{
    match read_tagged::<bool>(r, Ghost(start)) {
        Ok(p) => {
            let made = Message::CycleRoom { cycle: p };
            Ok(made)
        },
        Err(e) => Err(e),
    }
}

impl BinaryData for ClientCommand {
    type Model = ClientCommandModel;

    open spec fn model(&self) -> ClientCommandModel {
        self@
    }

    open spec fn writable(m: ClientCommandModel) -> bool {
        match m {
            ClientCommandModel::Ping => <()>::writable(()),
            ClientCommandModel::Authenticate { token } => <Varchar<32>>::writable(token),
            ClientCommandModel::Chat { message } => <Varchar<200>>::writable(message),
            ClientCommandModel::Touches { frames } => <Vec<TouchFrame>>::writable(frames),
            ClientCommandModel::Judges { judges } => <Vec<JudgeEvent>>::writable(judges),
            ClientCommandModel::CreateRoom { id } => <RoomId>::writable(id),
            ClientCommandModel::JoinRoom { id, monitor } => <(RoomId, bool)>::writable(
                (id, monitor),
            ),
            ClientCommandModel::LeaveRoom => <()>::writable(()),
            ClientCommandModel::LockRoom { lock } => <bool>::writable(lock),
            ClientCommandModel::CycleRoom { cycle } => <bool>::writable(cycle),
            ClientCommandModel::SelectChart { id } => <i32>::writable(id),
            ClientCommandModel::RequestStart => <()>::writable(()),
            ClientCommandModel::Ready => <()>::writable(()),
            ClientCommandModel::CancelReady => <()>::writable(()),
            ClientCommandModel::Played { id } => <i32>::writable(id),
            ClientCommandModel::Abort => <()>::writable(()),
        }
    }

    open spec fn encoding(m: ClientCommandModel) -> Seq<u8> {
        match m {
            ClientCommandModel::Ping => tag_image::<()>(0, ()),
            ClientCommandModel::Authenticate { token } => tag_image::<Varchar<32>>(1, token),
            ClientCommandModel::Chat { message } => tag_image::<Varchar<200>>(2, message),
            ClientCommandModel::Touches { frames } => tag_image::<Vec<TouchFrame>>(3, frames),
            ClientCommandModel::Judges { judges } => tag_image::<Vec<JudgeEvent>>(4, judges),
            ClientCommandModel::CreateRoom { id } => tag_image::<RoomId>(5, id),
            ClientCommandModel::JoinRoom { id, monitor } => tag_image::<(RoomId, bool)>(
                6,
                (id, monitor),
            ),
            ClientCommandModel::LeaveRoom => tag_image::<()>(7, ()),
            ClientCommandModel::LockRoom { lock } => tag_image::<bool>(8, lock),
            ClientCommandModel::CycleRoom { cycle } => tag_image::<bool>(9, cycle),
            ClientCommandModel::SelectChart { id } => tag_image::<i32>(10, id),
            ClientCommandModel::RequestStart => tag_image::<()>(11, ()),
            ClientCommandModel::Ready => tag_image::<()>(12, ()),
            ClientCommandModel::CancelReady => tag_image::<()>(13, ()),
            ClientCommandModel::Played { id } => tag_image::<i32>(14, id),
            ClientCommandModel::Abort => tag_image::<()>(15, ()),
        }
    }

    open spec fn decoding(bytes: Seq<u8>) -> Result<(ClientCommandModel, int), DecodeError> {
        if bytes.len() == 0 {
            Err(DecodeError::UnexpectedEof)
        } else if bytes[0] == 0 {
            tagged::<(), ClientCommandModel>(bytes, |p: ()| ClientCommandModel::Ping)
        } else if bytes[0] == 1 {
            tagged::<Varchar<32>, ClientCommandModel>(
                bytes,
                |p: Seq<char>| ClientCommandModel::Authenticate { token: p },
            )
        } else if bytes[0] == 2 {
            tagged::<Varchar<200>, ClientCommandModel>(
                bytes,
                |p: Seq<char>| ClientCommandModel::Chat { message: p },
            )
        } else if bytes[0] == 3 {
            tagged::<Vec<TouchFrame>, ClientCommandModel>(
                bytes,
                |p: Seq<TouchFrameModel>| ClientCommandModel::Touches { frames: p },
            )
        } else if bytes[0] == 4 {
            tagged::<Vec<JudgeEvent>, ClientCommandModel>(
                bytes,
                |p: Seq<JudgeEvent>| ClientCommandModel::Judges { judges: p },
            )
        } else if bytes[0] == 5 {
            tagged::<RoomId, ClientCommandModel>(
                bytes,
                |p: Seq<char>| ClientCommandModel::CreateRoom { id: p },
            )
        } else if bytes[0] == 6 {
            tagged::<(RoomId, bool), ClientCommandModel>(
                bytes,
                |p: (Seq<char>, bool)| ClientCommandModel::JoinRoom { id: p.0, monitor: p.1 },
            )
        } else if bytes[0] == 7 {
            tagged::<(), ClientCommandModel>(bytes, |p: ()| ClientCommandModel::LeaveRoom)
        } else if bytes[0] == 8 {
            tagged::<bool, ClientCommandModel>(
                bytes,
                |p: bool| ClientCommandModel::LockRoom { lock: p },
            )
        } else if bytes[0] == 9 {
            tagged::<bool, ClientCommandModel>(
                bytes,
                |p: bool| ClientCommandModel::CycleRoom { cycle: p },
            )
        } else if bytes[0] == 10 {
            tagged::<i32, ClientCommandModel>(
                bytes,
                |p: i32| ClientCommandModel::SelectChart { id: p },
            )
        } else if bytes[0] == 11 {
            tagged::<(), ClientCommandModel>(bytes, |p: ()| ClientCommandModel::RequestStart)
        } else if bytes[0] == 12 {
            tagged::<(), ClientCommandModel>(bytes, |p: ()| ClientCommandModel::Ready)
        } else if bytes[0] == 13 {
            tagged::<(), ClientCommandModel>(bytes, |p: ()| ClientCommandModel::CancelReady)
        } else if bytes[0] == 14 {
            tagged::<i32, ClientCommandModel>(bytes, |p: i32| ClientCommandModel::Played { id: p })
        } else if bytes[0] == 15 {
            tagged::<(), ClientCommandModel>(bytes, |p: ()| ClientCommandModel::Abort)
        } else {
            Err(DecodeError::InvalidEnum(bytes[0]))
        }
    }

    proof fn lemma_round_trip(m: ClientCommandModel, rest: Seq<u8>) {
        match m {
            ClientCommandModel::Ping => {
                lemma_tagged::<()>(0, (), rest);
            },
            ClientCommandModel::Authenticate { token } => {
                lemma_tagged::<Varchar<32>>(1, token, rest);
            },
            ClientCommandModel::Chat { message } => {
                lemma_tagged::<Varchar<200>>(2, message, rest);
            },
            ClientCommandModel::Touches { frames } => {
                lemma_tagged::<Vec<TouchFrame>>(3, frames, rest);
            },
            ClientCommandModel::Judges { judges } => {
                lemma_tagged::<Vec<JudgeEvent>>(4, judges, rest);
            },
            ClientCommandModel::CreateRoom { id } => {
                lemma_tagged::<RoomId>(5, id, rest);
            },
            ClientCommandModel::JoinRoom { id, monitor } => {
                lemma_tagged::<(RoomId, bool)>(6, (id, monitor), rest);
            },
            ClientCommandModel::LeaveRoom => {
                lemma_tagged::<()>(7, (), rest);
            },
            ClientCommandModel::LockRoom { lock } => {
                lemma_tagged::<bool>(8, lock, rest);
            },
            ClientCommandModel::CycleRoom { cycle } => {
                lemma_tagged::<bool>(9, cycle, rest);
            },
            ClientCommandModel::SelectChart { id } => {
                lemma_tagged::<i32>(10, id, rest);
            },
            ClientCommandModel::RequestStart => {
                lemma_tagged::<()>(11, (), rest);
            },
            ClientCommandModel::Ready => {
                lemma_tagged::<()>(12, (), rest);
            },
            ClientCommandModel::CancelReady => {
                lemma_tagged::<()>(13, (), rest);
            },
            ClientCommandModel::Played { id } => {
                lemma_tagged::<i32>(14, id, rest);
            },
            ClientCommandModel::Abort => {
                lemma_tagged::<()>(15, (), rest);
            },
        }
    }

    fn read_binary(r: &mut BinaryReader<'_>) -> (res: Result<Self, DecodeError>) {
        let ghost start = r.remaining();
        let tag: u8 = match r.byte() {
            Ok(tag) => tag,
            Err(e) => {
                return Err(e);
            },
        };
        match tag {
            0 => read_client_ping(r, Ghost(start)),
            1 => read_client_authenticate(r, Ghost(start)),
            2 => read_client_chat(r, Ghost(start)),
            3 => read_client_touches(r, Ghost(start)),
            4 => read_client_judges(r, Ghost(start)),
            5 => read_client_create_room(r, Ghost(start)),
            6 => read_client_join_room(r, Ghost(start)),
            7 => read_client_leave_room(r, Ghost(start)),
            8 => read_client_lock_room(r, Ghost(start)),
            9 => read_client_cycle_room(r, Ghost(start)),
            10 => read_client_select_chart(r, Ghost(start)),
            11 => read_client_request_start(r, Ghost(start)),
            12 => read_client_ready(r, Ghost(start)),
            13 => read_client_cancel_ready(r, Ghost(start)),
            14 => read_client_played(r, Ghost(start)),
            15 => read_client_abort(r, Ghost(start)),
            x => Err(DecodeError::InvalidEnum(x)),
        }
    }

    fn write_binary(&self, w: &mut BinaryWriter<'_>) {
        let ghost before = w.0@;
        match self {
            ClientCommand::Ping => {
                write_tag(w, 0);
                proof {
                    assert(w.0@ =~= before + Self::encoding(self@));
                }
            },
            ClientCommand::Authenticate { token } => {
                write_tag(w, 1);
                token.write_binary(w);
                proof {
                    assert(w.0@ =~= before + Self::encoding(self@));
                }
            },
            ClientCommand::Chat { message } => {
                write_tag(w, 2);
                message.write_binary(w);
                proof {
                    assert(w.0@ =~= before + Self::encoding(self@));
                }
            },
            ClientCommand::Touches { frames } => {
                write_tag(w, 3);
                w.array(frames.as_slice());
                proof {
                    assert(seq_model(frames@) =~= frames_model(frames@));
                    assert(w.0@ =~= before + Self::encoding(self@));
                }
            },
            ClientCommand::Judges { judges } => {
                write_tag(w, 4);
                w.array(judges.as_slice());
                proof {
                    assert(seq_model(judges@) =~= judges@);
                    assert(w.0@ =~= before + Self::encoding(self@));
                }
            },
            ClientCommand::CreateRoom { id } => {
                write_tag(w, 5);
                id.write_binary(w);
                proof {
                    assert(w.0@ =~= before + Self::encoding(self@));
                }
            },
            ClientCommand::JoinRoom { id, monitor } => {
                write_tag(w, 6);
                id.write_binary(w);
                monitor.write_binary(w);
                proof {
                    assert(w.0@ =~= before + Self::encoding(self@));
                }
            },
            ClientCommand::LeaveRoom => {
                write_tag(w, 7);
                proof {
                    assert(w.0@ =~= before + Self::encoding(self@));
                }
            },
            ClientCommand::LockRoom { lock } => {
                write_tag(w, 8);
                lock.write_binary(w);
                proof {
                    assert(w.0@ =~= before + Self::encoding(self@));
                }
            },
            ClientCommand::CycleRoom { cycle } => {
                write_tag(w, 9);
                cycle.write_binary(w);
                proof {
                    assert(w.0@ =~= before + Self::encoding(self@));
                }
            },
            ClientCommand::SelectChart { id } => {
                write_tag(w, 10);
                id.write_binary(w);
                proof {
                    assert(w.0@ =~= before + Self::encoding(self@));
                }
            },
            ClientCommand::RequestStart => {
                write_tag(w, 11);
                proof {
                    assert(w.0@ =~= before + Self::encoding(self@));
                }
            },
            ClientCommand::Ready => {
                write_tag(w, 12);
                proof {
                    assert(w.0@ =~= before + Self::encoding(self@));
                }
            },
            ClientCommand::CancelReady => {
                write_tag(w, 13);
                proof {
                    assert(w.0@ =~= before + Self::encoding(self@));
                }
            },
            ClientCommand::Played { id } => {
                write_tag(w, 14);
                id.write_binary(w);
                proof {
                    assert(w.0@ =~= before + Self::encoding(self@));
                }
            },
            ClientCommand::Abort => {
                write_tag(w, 15);
                proof {
                    assert(w.0@ =~= before + Self::encoding(self@));
                }
            },
        }
    }
}

/// Reads what `ClientCommand::Ping` carries.
fn read_client_ping(
    r: &mut BinaryReader<'_>,
    Ghost(start): Ghost<Seq<u8>>,
) -> (res: Result<ClientCommand, DecodeError>)
    requires
        start.len() > 0,
        old(r).remaining() == start.skip(1),
    ensures
        match tagged::<(), ClientCommandModel>(start, |p: ()| ClientCommandModel::Ping) {
            Ok((m, n)) => res is Ok && res->Ok_0@ == m && 0 <= n <= start.len()
                && final(r).remaining() == start.skip(n),
            Err(e) => res is Err && res->Err_0 == e,
        },
{
    match read_tagged::<()>(r, Ghost(start)) {
        Ok(p) => {
            let made = ClientCommand::Ping;
            Ok(made)
        },
        Err(e) => Err(e),
    }
}

/// Reads what `ClientCommand::Authenticate` carries.
fn read_client_authenticate(
    r: &mut BinaryReader<'_>,
    Ghost(start): Ghost<Seq<u8>>,
) -> (res: Result<ClientCommand, DecodeError>)
    requires
        start.len() > 0,
        old(r).remaining() == start.skip(1),
    ensures
        match tagged::<Varchar<32>, ClientCommandModel>(
            start,
            |p: Seq<char>| ClientCommandModel::Authenticate { token: p },
        ) {
            Ok((m, n)) => res is Ok && res->Ok_0@ == m && 0 <= n <= start.len()
                && final(r).remaining() == start.skip(n),
            Err(e) => res is Err && res->Err_0 == e,
        },
{
    match read_tagged::<Varchar<32>>(r, Ghost(start)) {
        Ok(p) => {
            let made = ClientCommand::Authenticate { token: p };
            Ok(made)
        },
        Err(e) => Err(e),
    }
}

/// Reads what `ClientCommand::Chat` carries.
fn read_client_chat(
    r: &mut BinaryReader<'_>,
    Ghost(start): Ghost<Seq<u8>>,
) -> (res: Result<ClientCommand, DecodeError>)
    requires
        start.len() > 0,
        old(r).remaining() == start.skip(1),
    ensures
        match tagged::<Varchar<200>, ClientCommandModel>(
            start,
            |p: Seq<char>| ClientCommandModel::Chat { message: p },
        ) {
            Ok((m, n)) => res is Ok && res->Ok_0@ == m && 0 <= n <= start.len()
                && final(r).remaining() == start.skip(n),
            Err(e) => res is Err && res->Err_0 == e,
        },
{
    match read_tagged::<Varchar<200>>(r, Ghost(start)) {
        Ok(p) => {
            let made = ClientCommand::Chat { message: p };
            Ok(made)
        },
        Err(e) => Err(e),
    }
}

/// Reads what `ClientCommand::Touches` carries.
fn read_client_touches(
    r: &mut BinaryReader<'_>,
    Ghost(start): Ghost<Seq<u8>>,
) -> (res: Result<ClientCommand, DecodeError>)
    requires
        start.len() > 0,
        old(r).remaining() == start.skip(1),
    ensures
        match tagged::<Vec<TouchFrame>, ClientCommandModel>(
            start,
            |p: Seq<TouchFrameModel>| ClientCommandModel::Touches { frames: p },
        ) {
            Ok((m, n)) => res is Ok && res->Ok_0@ == m && 0 <= n <= start.len()
                && final(r).remaining() == start.skip(n),
            Err(e) => res is Err && res->Err_0 == e,
        },
{
    match read_tagged::<Vec<TouchFrame>>(r, Ghost(start)) {
        Ok(p) => {
            let made = ClientCommand::Touches { frames: Arc::new(p) };
            proof {
                assert(seq_model(p@) =~= frames_model(p@));
            }
            Ok(made)
        },
        Err(e) => Err(e),
    }
}

/// Reads what `ClientCommand::Judges` carries.
fn read_client_judges(
    r: &mut BinaryReader<'_>,
    Ghost(start): Ghost<Seq<u8>>,
) -> (res: Result<ClientCommand, DecodeError>)
    requires
        start.len() > 0,
        old(r).remaining() == start.skip(1),
    ensures
        match tagged::<Vec<JudgeEvent>, ClientCommandModel>(
            start,
            |p: Seq<JudgeEvent>| ClientCommandModel::Judges { judges: p },
        ) {
            Ok((m, n)) => res is Ok && res->Ok_0@ == m && 0 <= n <= start.len()
                && final(r).remaining() == start.skip(n),
            Err(e) => res is Err && res->Err_0 == e,
        },
{
    match read_tagged::<Vec<JudgeEvent>>(r, Ghost(start)) {
        Ok(p) => {
            let made = ClientCommand::Judges { judges: Arc::new(p) };
            proof {
                assert(seq_model(p@) =~= p@);
            }
            Ok(made)
        },
        Err(e) => Err(e),
    }
}

/// Reads what `ClientCommand::CreateRoom` carries.
fn read_client_create_room(
    r: &mut BinaryReader<'_>,
    Ghost(start): Ghost<Seq<u8>>,
) -> (res: Result<ClientCommand, DecodeError>)
    requires
        start.len() > 0,
        old(r).remaining() == start.skip(1),
    ensures
        match tagged::<RoomId, ClientCommandModel>(
            start,
            |p: Seq<char>| ClientCommandModel::CreateRoom { id: p },
        ) {
            Ok((m, n)) => res is Ok && res->Ok_0@ == m && 0 <= n <= start.len()
                && final(r).remaining() == start.skip(n),
            Err(e) => res is Err && res->Err_0 == e,
        },
{
    match read_tagged::<RoomId>(r, Ghost(start)) {
        Ok(p) => {
            let made = ClientCommand::CreateRoom { id: p };
            Ok(made)
        },
        Err(e) => Err(e),
    }
}

/// Reads what `ClientCommand::JoinRoom` carries.
fn read_client_join_room(
    r: &mut BinaryReader<'_>,
    Ghost(start): Ghost<Seq<u8>>,
) -> (res: Result<ClientCommand, DecodeError>)
    requires
        start.len() > 0,
        old(r).remaining() == start.skip(1),
    ensures
        match tagged::<(RoomId, bool), ClientCommandModel>(
            start,
            |p: (Seq<char>, bool)| ClientCommandModel::JoinRoom { id: p.0, monitor: p.1 },
        ) {
            Ok((m, n)) => res is Ok && res->Ok_0@ == m && 0 <= n <= start.len()
                && final(r).remaining() == start.skip(n),
            Err(e) => res is Err && res->Err_0 == e,
        },
{
    match read_tagged::<(RoomId, bool)>(r, Ghost(start)) {
        Ok(p) => {
            let made = ClientCommand::JoinRoom { id: p.0, monitor: p.1 };
            Ok(made)
        },
        Err(e) => Err(e),
    }
}

/// Reads what `ClientCommand::LeaveRoom` carries.
fn read_client_leave_room(
    r: &mut BinaryReader<'_>,
    Ghost(start): Ghost<Seq<u8>>,
) -> (res: Result<ClientCommand, DecodeError>)
    requires
        start.len() > 0,
        old(r).remaining() == start.skip(1),
    ensures
        match tagged::<(), ClientCommandModel>(start, |p: ()| ClientCommandModel::LeaveRoom) {
            Ok((m, n)) => res is Ok && res->Ok_0@ == m && 0 <= n <= start.len()
                && final(r).remaining() == start.skip(n),
            Err(e) => res is Err && res->Err_0 == e,
        },
{
    match read_tagged::<()>(r, Ghost(start)) {
        Ok(p) => {
            let made = ClientCommand::LeaveRoom;
            Ok(made)
        },
        Err(e) => Err(e),
    }
}

/// Reads what `ClientCommand::LockRoom` carries.
fn read_client_lock_room(
    r: &mut BinaryReader<'_>,
    Ghost(start): Ghost<Seq<u8>>,
) -> (res: Result<ClientCommand, DecodeError>)
    requires
        start.len() > 0,
        old(r).remaining() == start.skip(1),
    ensures
        match tagged::<bool, ClientCommandModel>(
            start,
            |p: bool| ClientCommandModel::LockRoom { lock: p },
        ) {
            Ok((m, n)) => res is Ok && res->Ok_0@ == m && 0 <= n <= start.len()
                && final(r).remaining() == start.skip(n),
            Err(e) => res is Err && res->Err_0 == e,
        },
{
    match read_tagged::<bool>(r, Ghost(start)) {
        Ok(p) => {
            let made = ClientCommand::LockRoom { lock: p };
            Ok(made)
        },
        Err(e) => Err(e),
    }
}

/// Reads what `ClientCommand::CycleRoom` carries.
fn read_client_cycle_room(
    r: &mut BinaryReader<'_>,
    Ghost(start): Ghost<Seq<u8>>,
) -> (res: Result<ClientCommand, DecodeError>)
    requires
        start.len() > 0,
        old(r).remaining() == start.skip(1),
    ensures
        match tagged::<bool, ClientCommandModel>(
            start,
            |p: bool| ClientCommandModel::CycleRoom { cycle: p },
        ) {
            Ok((m, n)) => res is Ok && res->Ok_0@ == m && 0 <= n <= start.len()
                && final(r).remaining() == start.skip(n),
            Err(e) => res is Err && res->Err_0 == e,
        },
{
    match read_tagged::<bool>(r, Ghost(start)) {
        Ok(p) => {
            let made = ClientCommand::CycleRoom { cycle: p };
            Ok(made)
        },
        Err(e) => Err(e),
    }
}

/// Reads what `ClientCommand::SelectChart` carries.
fn read_client_select_chart(
    r: &mut BinaryReader<'_>,
    Ghost(start): Ghost<Seq<u8>>,
) -> (res: Result<ClientCommand, DecodeError>)
    requires
        start.len() > 0,
        old(r).remaining() == start.skip(1),
    ensures
        match tagged::<i32, ClientCommandModel>(
            start,
            |p: i32| ClientCommandModel::SelectChart { id: p },
        ) {
            Ok((m, n)) => res is Ok && res->Ok_0@ == m && 0 <= n <= start.len()
                && final(r).remaining() == start.skip(n),
            Err(e) => res is Err && res->Err_0 == e,
        },
{
    match read_tagged::<i32>(r, Ghost(start)) {
        Ok(p) => {
            let made = ClientCommand::SelectChart { id: p };
            Ok(made)
        },
        Err(e) => Err(e),
    }
}

/// Reads what `ClientCommand::RequestStart` carries.
fn read_client_request_start(
    r: &mut BinaryReader<'_>,
    Ghost(start): Ghost<Seq<u8>>,
) -> (res: Result<ClientCommand, DecodeError>)
    requires
        start.len() > 0,
        old(r).remaining() == start.skip(1),
    ensures
        match tagged::<(), ClientCommandModel>(start, |p: ()| ClientCommandModel::RequestStart) {
            Ok((m, n)) => res is Ok && res->Ok_0@ == m && 0 <= n <= start.len()
                && final(r).remaining() == start.skip(n),
            Err(e) => res is Err && res->Err_0 == e,
        },
{
    match read_tagged::<()>(r, Ghost(start)) {
        Ok(p) => {
            let made = ClientCommand::RequestStart;
            Ok(made)
        },
        Err(e) => Err(e),
    }
}

/// Reads what `ClientCommand::Ready` carries.
fn read_client_ready(
    r: &mut BinaryReader<'_>,
    Ghost(start): Ghost<Seq<u8>>,
) -> (res: Result<ClientCommand, DecodeError>)
    requires
        start.len() > 0,
        old(r).remaining() == start.skip(1),
    ensures
        match tagged::<(), ClientCommandModel>(start, |p: ()| ClientCommandModel::Ready) {
            Ok((m, n)) => res is Ok && res->Ok_0@ == m && 0 <= n <= start.len()
                && final(r).remaining() == start.skip(n),
            Err(e) => res is Err && res->Err_0 == e,
        },
{
    match read_tagged::<()>(r, Ghost(start)) {
        Ok(p) => {
            let made = ClientCommand::Ready;
            Ok(made)
        },
        Err(e) => Err(e),
    }
}

/// Reads what `ClientCommand::CancelReady` carries.
fn read_client_cancel_ready(
    r: &mut BinaryReader<'_>,
    Ghost(start): Ghost<Seq<u8>>,
) -> (res: Result<ClientCommand, DecodeError>)
    requires
        start.len() > 0,
        old(r).remaining() == start.skip(1),
    ensures
        match tagged::<(), ClientCommandModel>(start, |p: ()| ClientCommandModel::CancelReady) {
            Ok((m, n)) => res is Ok && res->Ok_0@ == m && 0 <= n <= start.len()
                && final(r).remaining() == start.skip(n),
            Err(e) => res is Err && res->Err_0 == e,
        },
{
    match read_tagged::<()>(r, Ghost(start)) {
        Ok(p) => {
            let made = ClientCommand::CancelReady;
            Ok(made)
        },
        Err(e) => Err(e),
    }
}

/// Reads what `ClientCommand::Played` carries.
fn read_client_played(
    r: &mut BinaryReader<'_>,
    Ghost(start): Ghost<Seq<u8>>,
) -> (res: Result<ClientCommand, DecodeError>)
    requires
        start.len() > 0,
        old(r).remaining() == start.skip(1),
    ensures
        match tagged::<i32, ClientCommandModel>(
            start,
            |p: i32| ClientCommandModel::Played { id: p },
        ) {
            Ok((m, n)) => res is Ok && res->Ok_0@ == m && 0 <= n <= start.len()
                && final(r).remaining() == start.skip(n),
            Err(e) => res is Err && res->Err_0 == e,
        },
{
    match read_tagged::<i32>(r, Ghost(start)) {
        Ok(p) => {
            let made = ClientCommand::Played { id: p };
            Ok(made)
        },
        Err(e) => Err(e),
    }
}

/// Reads what `ClientCommand::Abort` carries.
fn read_client_abort(
    r: &mut BinaryReader<'_>,
    Ghost(start): Ghost<Seq<u8>>,
) -> (res: Result<ClientCommand, DecodeError>)
    requires
        start.len() > 0,
        old(r).remaining() == start.skip(1),
    ensures
        match tagged::<(), ClientCommandModel>(start, |p: ()| ClientCommandModel::Abort) {
            Ok((m, n)) => res is Ok && res->Ok_0@ == m && 0 <= n <= start.len()
                && final(r).remaining() == start.skip(n),
            Err(e) => res is Err && res->Err_0 == e,
        },
{
    match read_tagged::<()>(r, Ghost(start)) {
        Ok(p) => {
            let made = ClientCommand::Abort;
            Ok(made)
        },
        Err(e) => Err(e),
    }
}

impl BinaryData for ServerCommand {
    type Model = ServerCommandModel;

    open spec fn model(&self) -> ServerCommandModel {
        self@
    }

    open spec fn writable(m: ServerCommandModel) -> bool {
        match m {
            ServerCommandModel::Pong => <()>::writable(()),
            ServerCommandModel::Authenticate(v) => <Result<(UserInfo, Option<ClientRoomState>), String>>::writable(
                v,
            ),
            ServerCommandModel::Chat(v) => <Result<(), String>>::writable(v),
            ServerCommandModel::Touches { player, frames } => <(i32, Vec<TouchFrame>)>::writable(
                (player, frames),
            ),
            ServerCommandModel::Judges { player, judges } => <(i32, Vec<JudgeEvent>)>::writable(
                (player, judges),
            ),
            ServerCommandModel::Message(v) => <Message>::writable(v),
            ServerCommandModel::ChangeState(v) => <RoomState>::writable(v),
            ServerCommandModel::ChangeHost(v) => <bool>::writable(v),
            ServerCommandModel::CreateRoom(v) => <Result<(), String>>::writable(v),
            ServerCommandModel::JoinRoom(v) => <Result<JoinRoomResponse, String>>::writable(v),
            ServerCommandModel::OnJoinRoom(v) => <UserInfo>::writable(v),
            ServerCommandModel::LeaveRoom(v) => <Result<(), String>>::writable(v),
            ServerCommandModel::LockRoom(v) => <Result<(), String>>::writable(v),
            ServerCommandModel::CycleRoom(v) => <Result<(), String>>::writable(v),
            ServerCommandModel::SelectChart(v) => <Result<(), String>>::writable(v),
            ServerCommandModel::RequestStart(v) => <Result<(), String>>::writable(v),
            ServerCommandModel::Ready(v) => <Result<(), String>>::writable(v),
            ServerCommandModel::CancelReady(v) => <Result<(), String>>::writable(v),
            ServerCommandModel::Played(v) => <Result<(), String>>::writable(v),
            ServerCommandModel::Abort(v) => <Result<(), String>>::writable(v),
        }
    }

    open spec fn encoding(m: ServerCommandModel) -> Seq<u8> {
        match m {
            ServerCommandModel::Pong => tag_image::<()>(0, ()),
            ServerCommandModel::Authenticate(v) => tag_image::<Result<(UserInfo, Option<ClientRoomState>), String>>(
                1,
                v,
            ),
            ServerCommandModel::Chat(v) => tag_image::<Result<(), String>>(2, v),
            ServerCommandModel::Touches { player, frames } => tag_image::<(i32, Vec<TouchFrame>)>(
                3,
                (player, frames),
            ),
            ServerCommandModel::Judges { player, judges } => tag_image::<(i32, Vec<JudgeEvent>)>(
                4,
                (player, judges),
            ),
            ServerCommandModel::Message(v) => tag_image::<Message>(5, v),
            ServerCommandModel::ChangeState(v) => tag_image::<RoomState>(6, v),
            ServerCommandModel::ChangeHost(v) => tag_image::<bool>(7, v),
            ServerCommandModel::CreateRoom(v) => tag_image::<Result<(), String>>(8, v),
            ServerCommandModel::JoinRoom(v) => tag_image::<Result<JoinRoomResponse, String>>(9, v),
            ServerCommandModel::OnJoinRoom(v) => tag_image::<UserInfo>(10, v),
            ServerCommandModel::LeaveRoom(v) => tag_image::<Result<(), String>>(11, v),
            ServerCommandModel::LockRoom(v) => tag_image::<Result<(), String>>(12, v),
            ServerCommandModel::CycleRoom(v) => tag_image::<Result<(), String>>(13, v),
            ServerCommandModel::SelectChart(v) => tag_image::<Result<(), String>>(14, v),
            ServerCommandModel::RequestStart(v) => tag_image::<Result<(), String>>(15, v),
            ServerCommandModel::Ready(v) => tag_image::<Result<(), String>>(16, v),
            ServerCommandModel::CancelReady(v) => tag_image::<Result<(), String>>(17, v),
            ServerCommandModel::Played(v) => tag_image::<Result<(), String>>(18, v),
            ServerCommandModel::Abort(v) => tag_image::<Result<(), String>>(19, v),
        }
    }

    open spec fn decoding(bytes: Seq<u8>) -> Result<(ServerCommandModel, int), DecodeError> {
        if bytes.len() == 0 {
            Err(DecodeError::UnexpectedEof)
        } else if bytes[0] == 0 {
            tagged::<(), ServerCommandModel>(bytes, |p: ()| ServerCommandModel::Pong)
        } else if bytes[0] == 1 {
            tagged::<Result<(UserInfo, Option<ClientRoomState>), String>, ServerCommandModel>(
                bytes,
                |p: Result<(UserInfoModel, Option<ClientRoomStateModel>), Seq<char>>| ServerCommandModel::Authenticate(p),
            )
        } else if bytes[0] == 2 {
            tagged::<Result<(), String>, ServerCommandModel>(
                bytes,
                |p: Result<(), Seq<char>>| ServerCommandModel::Chat(p),
            )
        } else if bytes[0] == 3 {
            tagged::<(i32, Vec<TouchFrame>), ServerCommandModel>(
                bytes,
                |p: (i32, Seq<TouchFrameModel>)| ServerCommandModel::Touches { player: p.0, frames: p.1 },
            )
        } else if bytes[0] == 4 {
            tagged::<(i32, Vec<JudgeEvent>), ServerCommandModel>(
                bytes,
                |p: (i32, Seq<JudgeEvent>)| ServerCommandModel::Judges { player: p.0, judges: p.1 },
            )
        } else if bytes[0] == 5 {
            tagged::<Message, ServerCommandModel>(
                bytes,
                |p: MessageModel| ServerCommandModel::Message(p),
            )
        } else if bytes[0] == 6 {
            tagged::<RoomState, ServerCommandModel>(
                bytes,
                |p: RoomState| ServerCommandModel::ChangeState(p),
            )
        } else if bytes[0] == 7 {
            tagged::<bool, ServerCommandModel>(bytes, |p: bool| ServerCommandModel::ChangeHost(p))
        } else if bytes[0] == 8 {
            tagged::<Result<(), String>, ServerCommandModel>(
                bytes,
                |p: Result<(), Seq<char>>| ServerCommandModel::CreateRoom(p),
            )
        } else if bytes[0] == 9 {
            tagged::<Result<JoinRoomResponse, String>, ServerCommandModel>(
                bytes,
                |p: Result<JoinRoomResponseModel, Seq<char>>| ServerCommandModel::JoinRoom(p),
            )
        } else if bytes[0] == 10 {
            tagged::<UserInfo, ServerCommandModel>(
                bytes,
                |p: UserInfoModel| ServerCommandModel::OnJoinRoom(p),
            )
        } else if bytes[0] == 11 {
            tagged::<Result<(), String>, ServerCommandModel>(
                bytes,
                |p: Result<(), Seq<char>>| ServerCommandModel::LeaveRoom(p),
            )
        } else if bytes[0] == 12 {
            tagged::<Result<(), String>, ServerCommandModel>(
                bytes,
                |p: Result<(), Seq<char>>| ServerCommandModel::LockRoom(p),
            )
        } else if bytes[0] == 13 {
            tagged::<Result<(), String>, ServerCommandModel>(
                bytes,
                |p: Result<(), Seq<char>>| ServerCommandModel::CycleRoom(p),
            )
        } else if bytes[0] == 14 {
            tagged::<Result<(), String>, ServerCommandModel>(
                bytes,
                |p: Result<(), Seq<char>>| ServerCommandModel::SelectChart(p),
            )
        } else if bytes[0] == 15 {
            tagged::<Result<(), String>, ServerCommandModel>(
                bytes,
                |p: Result<(), Seq<char>>| ServerCommandModel::RequestStart(p),
            )
        } else if bytes[0] == 16 {
            tagged::<Result<(), String>, ServerCommandModel>(
                bytes,
                |p: Result<(), Seq<char>>| ServerCommandModel::Ready(p),
            )
        } else if bytes[0] == 17 {
            tagged::<Result<(), String>, ServerCommandModel>(
                bytes,
                |p: Result<(), Seq<char>>| ServerCommandModel::CancelReady(p),
            )
        } else if bytes[0] == 18 {
            tagged::<Result<(), String>, ServerCommandModel>(
                bytes,
                |p: Result<(), Seq<char>>| ServerCommandModel::Played(p),
            )
        } else if bytes[0] == 19 {
            tagged::<Result<(), String>, ServerCommandModel>(
                bytes,
                |p: Result<(), Seq<char>>| ServerCommandModel::Abort(p),
            )
        } else {
            Err(DecodeError::InvalidEnum(bytes[0]))
        }
    }

    proof fn lemma_round_trip(m: ServerCommandModel, rest: Seq<u8>) {
        match m {
            ServerCommandModel::Pong => {
                lemma_tagged::<()>(0, (), rest);
            },
            ServerCommandModel::Authenticate(v) => {
                lemma_tagged::<Result<(UserInfo, Option<ClientRoomState>), String>>(1, v, rest);
            },
            ServerCommandModel::Chat(v) => {
                lemma_tagged::<Result<(), String>>(2, v, rest);
            },
            ServerCommandModel::Touches { player, frames } => {
                lemma_tagged::<(i32, Vec<TouchFrame>)>(3, (player, frames), rest);
            },
            ServerCommandModel::Judges { player, judges } => {
                lemma_tagged::<(i32, Vec<JudgeEvent>)>(4, (player, judges), rest);
            },
            ServerCommandModel::Message(v) => {
                lemma_tagged::<Message>(5, v, rest);
            },
            ServerCommandModel::ChangeState(v) => {
                lemma_tagged::<RoomState>(6, v, rest);
            },
            ServerCommandModel::ChangeHost(v) => {
                lemma_tagged::<bool>(7, v, rest);
            },
            ServerCommandModel::CreateRoom(v) => {
                lemma_tagged::<Result<(), String>>(8, v, rest);
            },
            ServerCommandModel::JoinRoom(v) => {
                lemma_tagged::<Result<JoinRoomResponse, String>>(9, v, rest);
            },
            ServerCommandModel::OnJoinRoom(v) => {
                lemma_tagged::<UserInfo>(10, v, rest);
            },
            ServerCommandModel::LeaveRoom(v) => {
                lemma_tagged::<Result<(), String>>(11, v, rest);
            },
            ServerCommandModel::LockRoom(v) => {
                lemma_tagged::<Result<(), String>>(12, v, rest);
            },
            ServerCommandModel::CycleRoom(v) => {
                lemma_tagged::<Result<(), String>>(13, v, rest);
            },
            ServerCommandModel::SelectChart(v) => {
                lemma_tagged::<Result<(), String>>(14, v, rest);
            },
            ServerCommandModel::RequestStart(v) => {
                lemma_tagged::<Result<(), String>>(15, v, rest);
            },
            ServerCommandModel::Ready(v) => {
                lemma_tagged::<Result<(), String>>(16, v, rest);
            },
            ServerCommandModel::CancelReady(v) => {
                lemma_tagged::<Result<(), String>>(17, v, rest);
            },
            ServerCommandModel::Played(v) => {
                lemma_tagged::<Result<(), String>>(18, v, rest);
            },
            ServerCommandModel::Abort(v) => {
                lemma_tagged::<Result<(), String>>(19, v, rest);
            },
        }
    }

    fn read_binary(r: &mut BinaryReader<'_>) -> (res: Result<Self, DecodeError>) {
        let ghost start = r.remaining();
        let tag: u8 = match r.byte() {
            Ok(tag) => tag,
            Err(e) => {
                return Err(e);
            },
        };
        match tag {
            0 => read_server_pong(r, Ghost(start)),
            1 => read_server_authenticate(r, Ghost(start)),
            2 => read_server_chat(r, Ghost(start)),
            3 => read_server_touches(r, Ghost(start)),
            4 => read_server_judges(r, Ghost(start)),
            5 => read_server_message(r, Ghost(start)),
            6 => read_server_change_state(r, Ghost(start)),
            7 => read_server_change_host(r, Ghost(start)),
            8 => read_server_create_room(r, Ghost(start)),
            9 => read_server_join_room(r, Ghost(start)),
            10 => read_server_on_join_room(r, Ghost(start)),
            11 => read_server_leave_room(r, Ghost(start)),
            12 => read_server_lock_room(r, Ghost(start)),
            13 => read_server_cycle_room(r, Ghost(start)),
            14 => read_server_select_chart(r, Ghost(start)),
            15 => read_server_request_start(r, Ghost(start)),
            16 => read_server_ready(r, Ghost(start)),
            17 => read_server_cancel_ready(r, Ghost(start)),
            18 => read_server_played(r, Ghost(start)),
            19 => read_server_abort(r, Ghost(start)),
            x => Err(DecodeError::InvalidEnum(x)),
        }
    }

    fn write_binary(&self, w: &mut BinaryWriter<'_>) {
        let ghost before = w.0@;
        match self {
            ServerCommand::Pong => {
                write_tag(w, 0);
                proof {
                    assert(w.0@ =~= before + Self::encoding(self@));
                }
            },
            ServerCommand::Authenticate(v) => {
                write_tag(w, 1);
                v.write_binary(w);
                proof {
                    assert(w.0@ =~= before + Self::encoding(self@));
                }
            },
            ServerCommand::Chat(v) => {
                write_tag(w, 2);
                v.write_binary(w);
                proof {
                    assert(w.0@ =~= before + Self::encoding(self@));
                }
            },
            ServerCommand::Touches { player, frames } => {
                write_tag(w, 3);
                player.write_binary(w);
                w.array(frames.as_slice());
                proof {
                    assert(seq_model(frames@) =~= frames_model(frames@));
                    assert(w.0@ =~= before + Self::encoding(self@));
                }
            },
            ServerCommand::Judges { player, judges } => {
                write_tag(w, 4);
                player.write_binary(w);
                w.array(judges.as_slice());
                proof {
                    assert(seq_model(judges@) =~= judges@);
                    assert(w.0@ =~= before + Self::encoding(self@));
                }
            },
            ServerCommand::Message(v) => {
                write_tag(w, 5);
                v.write_binary(w);
                proof {
                    assert(w.0@ =~= before + Self::encoding(self@));
                }
            },
            ServerCommand::ChangeState(v) => {
                write_tag(w, 6);
                v.write_binary(w);
                proof {
                    assert(w.0@ =~= before + Self::encoding(self@));
                }
            },
            ServerCommand::ChangeHost(v) => {
                write_tag(w, 7);
                v.write_binary(w);
                proof {
                    assert(w.0@ =~= before + Self::encoding(self@));
                }
            },
            ServerCommand::CreateRoom(v) => {
                write_tag(w, 8);
                v.write_binary(w);
                proof {
                    assert(w.0@ =~= before + Self::encoding(self@));
                }
            },
            ServerCommand::JoinRoom(v) => {
                write_tag(w, 9);
                v.write_binary(w);
                proof {
                    assert(w.0@ =~= before + Self::encoding(self@));
                }
            },
            ServerCommand::OnJoinRoom(v) => {
                write_tag(w, 10);
                v.write_binary(w);
                proof {
                    assert(w.0@ =~= before + Self::encoding(self@));
                }
            },
            ServerCommand::LeaveRoom(v) => {
                write_tag(w, 11);
                v.write_binary(w);
                proof {
                    assert(w.0@ =~= before + Self::encoding(self@));
                }
            },
            ServerCommand::LockRoom(v) => {
                write_tag(w, 12);
                v.write_binary(w);
                proof {
                    assert(w.0@ =~= before + Self::encoding(self@));
                }
            },
            ServerCommand::CycleRoom(v) => {
                write_tag(w, 13);
                v.write_binary(w);
                proof {
                    assert(w.0@ =~= before + Self::encoding(self@));
                }
            },
            ServerCommand::SelectChart(v) => {
                write_tag(w, 14);
                v.write_binary(w);
                proof {
                    assert(w.0@ =~= before + Self::encoding(self@));
                }
            },
            ServerCommand::RequestStart(v) => {
                write_tag(w, 15);
                v.write_binary(w);
                proof {
                    assert(w.0@ =~= before + Self::encoding(self@));
                }
            },
            ServerCommand::Ready(v) => {
                write_tag(w, 16);
                v.write_binary(w);
                proof {
                    assert(w.0@ =~= before + Self::encoding(self@));
                }
            },
            ServerCommand::CancelReady(v) => {
                write_tag(w, 17);
                v.write_binary(w);
                proof {
                    assert(w.0@ =~= before + Self::encoding(self@));
                }
            },
            ServerCommand::Played(v) => {
                write_tag(w, 18);
                v.write_binary(w);
                proof {
                    assert(w.0@ =~= before + Self::encoding(self@));
                }
            },
            ServerCommand::Abort(v) => {
                write_tag(w, 19);
                v.write_binary(w);
                proof {
                    assert(w.0@ =~= before + Self::encoding(self@));
                }
            },
        }
    }
}

/// Reads what `ServerCommand::Pong` carries.
fn read_server_pong(
    r: &mut BinaryReader<'_>,
    Ghost(start): Ghost<Seq<u8>>,
) -> (res: Result<ServerCommand, DecodeError>)
    requires
        start.len() > 0,
        old(r).remaining() == start.skip(1),
    ensures
        match tagged::<(), ServerCommandModel>(start, |p: ()| ServerCommandModel::Pong) {
            Ok((m, n)) => res is Ok && res->Ok_0@ == m && 0 <= n <= start.len()
                && final(r).remaining() == start.skip(n),
            Err(e) => res is Err && res->Err_0 == e,
        },
{
    match read_tagged::<()>(r, Ghost(start)) {
        Ok(p) => {
            let made = ServerCommand::Pong;
            Ok(made)
        },
        Err(e) => Err(e),
    }
}

/// Reads what `ServerCommand::Authenticate` carries.
fn read_server_authenticate(
    r: &mut BinaryReader<'_>,
    Ghost(start): Ghost<Seq<u8>>,
) -> (res: Result<ServerCommand, DecodeError>)
    requires
        start.len() > 0,
        old(r).remaining() == start.skip(1),
    ensures
        match tagged::<Result<(UserInfo, Option<ClientRoomState>), String>, ServerCommandModel>(
            start,
            |p: Result<(UserInfoModel, Option<ClientRoomStateModel>), Seq<char>>| ServerCommandModel::Authenticate(p),
        ) {
            Ok((m, n)) => res is Ok && res->Ok_0@ == m && 0 <= n <= start.len()
                && final(r).remaining() == start.skip(n),
            Err(e) => res is Err && res->Err_0 == e,
        },
{
    match read_tagged::<Result<(UserInfo, Option<ClientRoomState>), String>>(r, Ghost(start)) {
        Ok(p) => {
            let made = ServerCommand::Authenticate(p);
            Ok(made)
        },
        Err(e) => Err(e),
    }
}

/// Reads what `ServerCommand::Chat` carries.
fn read_server_chat(
    r: &mut BinaryReader<'_>,
    Ghost(start): Ghost<Seq<u8>>,
) -> (res: Result<ServerCommand, DecodeError>)
    requires
        start.len() > 0,
        old(r).remaining() == start.skip(1),
    ensures
        match tagged::<Result<(), String>, ServerCommandModel>(
            start,
            |p: Result<(), Seq<char>>| ServerCommandModel::Chat(p),
        ) {
            Ok((m, n)) => res is Ok && res->Ok_0@ == m && 0 <= n <= start.len()
                && final(r).remaining() == start.skip(n),
            Err(e) => res is Err && res->Err_0 == e,
        },
{
    match read_tagged::<Result<(), String>>(r, Ghost(start)) {
        Ok(p) => {
            let made = ServerCommand::Chat(p);
            Ok(made)
        },
        Err(e) => Err(e),
    }
}

/// Reads what `ServerCommand::Touches` carries.
fn read_server_touches(
    r: &mut BinaryReader<'_>,
    Ghost(start): Ghost<Seq<u8>>,
) -> (res: Result<ServerCommand, DecodeError>)
    requires
        start.len() > 0,
        old(r).remaining() == start.skip(1),
    ensures
        match tagged::<(i32, Vec<TouchFrame>), ServerCommandModel>(
            start,
            |p: (i32, Seq<TouchFrameModel>)| ServerCommandModel::Touches { player: p.0, frames: p.1 },
        ) {
            Ok((m, n)) => res is Ok && res->Ok_0@ == m && 0 <= n <= start.len()
                && final(r).remaining() == start.skip(n),
            Err(e) => res is Err && res->Err_0 == e,
        },
{
    match read_tagged::<(i32, Vec<TouchFrame>)>(r, Ghost(start)) {
        Ok(p) => {
            let made = ServerCommand::Touches { player: p.0, frames: Arc::new(p.1) };
            proof {
                assert(seq_model(p.1@) =~= frames_model(p.1@));
            }
            Ok(made)
        },
        Err(e) => Err(e),
    }
}

/// Reads what `ServerCommand::Judges` carries.
fn read_server_judges(
    r: &mut BinaryReader<'_>,
    Ghost(start): Ghost<Seq<u8>>,
) -> (res: Result<ServerCommand, DecodeError>)
    requires
        start.len() > 0,
        old(r).remaining() == start.skip(1),
    ensures
        match tagged::<(i32, Vec<JudgeEvent>), ServerCommandModel>(
            start,
            |p: (i32, Seq<JudgeEvent>)| ServerCommandModel::Judges { player: p.0, judges: p.1 },
        ) {
            Ok((m, n)) => res is Ok && res->Ok_0@ == m && 0 <= n <= start.len()
                && final(r).remaining() == start.skip(n),
            Err(e) => res is Err && res->Err_0 == e,
        },
{
    match read_tagged::<(i32, Vec<JudgeEvent>)>(r, Ghost(start)) {
        Ok(p) => {
            let made = ServerCommand::Judges { player: p.0, judges: Arc::new(p.1) };
            proof {
                assert(seq_model(p.1@) =~= p.1@);
            }
            Ok(made)
        },
        Err(e) => Err(e),
    }
}

/// Reads what `ServerCommand::Message` carries.
fn read_server_message(
    r: &mut BinaryReader<'_>,
    Ghost(start): Ghost<Seq<u8>>,
) -> (res: Result<ServerCommand, DecodeError>)
    requires
        start.len() > 0,
        old(r).remaining() == start.skip(1),
    ensures
        match tagged::<Message, ServerCommandModel>(
            start,
            |p: MessageModel| ServerCommandModel::Message(p),
        ) {
            Ok((m, n)) => res is Ok && res->Ok_0@ == m && 0 <= n <= start.len()
                && final(r).remaining() == start.skip(n),
            Err(e) => res is Err && res->Err_0 == e,
        },
{
    match read_tagged::<Message>(r, Ghost(start)) {
        Ok(p) => {
            let made = ServerCommand::Message(p);
            Ok(made)
        },
        Err(e) => Err(e),
    }
}

/// Reads what `ServerCommand::ChangeState` carries.
fn read_server_change_state(
    r: &mut BinaryReader<'_>,
    Ghost(start): Ghost<Seq<u8>>,
) -> (res: Result<ServerCommand, DecodeError>)
    requires
        start.len() > 0,
        old(r).remaining() == start.skip(1),
    ensures
        match tagged::<RoomState, ServerCommandModel>(
            start,
            |p: RoomState| ServerCommandModel::ChangeState(p),
        ) {
            Ok((m, n)) => res is Ok && res->Ok_0@ == m && 0 <= n <= start.len()
                && final(r).remaining() == start.skip(n),
            Err(e) => res is Err && res->Err_0 == e,
        },
{
    match read_tagged::<RoomState>(r, Ghost(start)) {
        Ok(p) => {
            let made = ServerCommand::ChangeState(p);
            Ok(made)
        },
        Err(e) => Err(e),
    }
}

/// Reads what `ServerCommand::ChangeHost` carries.
fn read_server_change_host(
    r: &mut BinaryReader<'_>,
    Ghost(start): Ghost<Seq<u8>>,
) -> (res: Result<ServerCommand, DecodeError>)
    requires
        start.len() > 0,
        old(r).remaining() == start.skip(1),
    ensures
        match tagged::<bool, ServerCommandModel>(
            start,
            |p: bool| ServerCommandModel::ChangeHost(p),
        ) {
            Ok((m, n)) => res is Ok && res->Ok_0@ == m && 0 <= n <= start.len()
                && final(r).remaining() == start.skip(n),
            Err(e) => res is Err && res->Err_0 == e,
        },
{
    match read_tagged::<bool>(r, Ghost(start)) {
        Ok(p) => {
            let made = ServerCommand::ChangeHost(p);
            Ok(made)
        },
        Err(e) => Err(e),
    }
}

/// Reads what `ServerCommand::CreateRoom` carries.
fn read_server_create_room(
    r: &mut BinaryReader<'_>,
    Ghost(start): Ghost<Seq<u8>>,
) -> (res: Result<ServerCommand, DecodeError>)
    requires
        start.len() > 0,
        old(r).remaining() == start.skip(1),
    ensures
        match tagged::<Result<(), String>, ServerCommandModel>(
            start,
            |p: Result<(), Seq<char>>| ServerCommandModel::CreateRoom(p),
        ) {
            Ok((m, n)) => res is Ok && res->Ok_0@ == m && 0 <= n <= start.len()
                && final(r).remaining() == start.skip(n),
            Err(e) => res is Err && res->Err_0 == e,
        },
{
    match read_tagged::<Result<(), String>>(r, Ghost(start)) {
        Ok(p) => {
            let made = ServerCommand::CreateRoom(p);
            Ok(made)
        },
        Err(e) => Err(e),
    }
}

/// Reads what `ServerCommand::JoinRoom` carries.
fn read_server_join_room(
    r: &mut BinaryReader<'_>,
    Ghost(start): Ghost<Seq<u8>>,
) -> (res: Result<ServerCommand, DecodeError>)
    requires
        start.len() > 0,
        old(r).remaining() == start.skip(1),
    ensures
        match tagged::<Result<JoinRoomResponse, String>, ServerCommandModel>(
            start,
            |p: Result<JoinRoomResponseModel, Seq<char>>| ServerCommandModel::JoinRoom(p),
        ) {
            Ok((m, n)) => res is Ok && res->Ok_0@ == m && 0 <= n <= start.len()
                && final(r).remaining() == start.skip(n),
            Err(e) => res is Err && res->Err_0 == e,
        },
{
    match read_tagged::<Result<JoinRoomResponse, String>>(r, Ghost(start)) {
        Ok(p) => {
            let made = ServerCommand::JoinRoom(p);
            Ok(made)
        },
        Err(e) => Err(e),
    }
}

/// Reads what `ServerCommand::OnJoinRoom` carries.
fn read_server_on_join_room(
    r: &mut BinaryReader<'_>,
    Ghost(start): Ghost<Seq<u8>>,
) -> (res: Result<ServerCommand, DecodeError>)
    requires
        start.len() > 0,
        old(r).remaining() == start.skip(1),
    ensures
        match tagged::<UserInfo, ServerCommandModel>(
            start,
            |p: UserInfoModel| ServerCommandModel::OnJoinRoom(p),
        ) {
            Ok((m, n)) => res is Ok && res->Ok_0@ == m && 0 <= n <= start.len()
                && final(r).remaining() == start.skip(n),
            Err(e) => res is Err && res->Err_0 == e,
        },
{
    match read_tagged::<UserInfo>(r, Ghost(start)) {
        Ok(p) => {
            let made = ServerCommand::OnJoinRoom(p);
            Ok(made)
        },
        Err(e) => Err(e),
    }
}

/// Reads what `ServerCommand::LeaveRoom` carries.
fn read_server_leave_room(
    r: &mut BinaryReader<'_>,
    Ghost(start): Ghost<Seq<u8>>,
) -> (res: Result<ServerCommand, DecodeError>)
    requires
        start.len() > 0,
        old(r).remaining() == start.skip(1),
    ensures
        match tagged::<Result<(), String>, ServerCommandModel>(
            start,
            |p: Result<(), Seq<char>>| ServerCommandModel::LeaveRoom(p),
        ) {
            Ok((m, n)) => res is Ok && res->Ok_0@ == m && 0 <= n <= start.len()
                && final(r).remaining() == start.skip(n),
            Err(e) => res is Err && res->Err_0 == e,
        },
{
    match read_tagged::<Result<(), String>>(r, Ghost(start)) {
        Ok(p) => {
            let made = ServerCommand::LeaveRoom(p);
            Ok(made)
        },
        Err(e) => Err(e),
    }
}

/// Reads what `ServerCommand::LockRoom` carries.
fn read_server_lock_room(
    r: &mut BinaryReader<'_>,
    Ghost(start): Ghost<Seq<u8>>,
) -> (res: Result<ServerCommand, DecodeError>)
    requires
        start.len() > 0,
        old(r).remaining() == start.skip(1),
    ensures
        match tagged::<Result<(), String>, ServerCommandModel>(
            start,
            |p: Result<(), Seq<char>>| ServerCommandModel::LockRoom(p),
        ) {
            Ok((m, n)) => res is Ok && res->Ok_0@ == m && 0 <= n <= start.len()
                && final(r).remaining() == start.skip(n),
            Err(e) => res is Err && res->Err_0 == e,
        },
{
    match read_tagged::<Result<(), String>>(r, Ghost(start)) {
        Ok(p) => {
            let made = ServerCommand::LockRoom(p);
            Ok(made)
        },
        Err(e) => Err(e),
    }
}

/// Reads what `ServerCommand::CycleRoom` carries.
fn read_server_cycle_room(
    r: &mut BinaryReader<'_>,
    Ghost(start): Ghost<Seq<u8>>,
) -> (res: Result<ServerCommand, DecodeError>)
    requires
        start.len() > 0,
        old(r).remaining() == start.skip(1),
    ensures
        match tagged::<Result<(), String>, ServerCommandModel>(
            start,
            |p: Result<(), Seq<char>>| ServerCommandModel::CycleRoom(p),
        ) {
            Ok((m, n)) => res is Ok && res->Ok_0@ == m && 0 <= n <= start.len()
                && final(r).remaining() == start.skip(n),
            Err(e) => res is Err && res->Err_0 == e,
        },
{
    match read_tagged::<Result<(), String>>(r, Ghost(start)) {
        Ok(p) => {
            let made = ServerCommand::CycleRoom(p);
            Ok(made)
        },
        Err(e) => Err(e),
    }
}

/// Reads what `ServerCommand::SelectChart` carries.
fn read_server_select_chart(
    r: &mut BinaryReader<'_>,
    Ghost(start): Ghost<Seq<u8>>,
) -> (res: Result<ServerCommand, DecodeError>)
    requires
        start.len() > 0,
        old(r).remaining() == start.skip(1),
    ensures
        match tagged::<Result<(), String>, ServerCommandModel>(
            start,
            |p: Result<(), Seq<char>>| ServerCommandModel::SelectChart(p),
        ) {
            Ok((m, n)) => res is Ok && res->Ok_0@ == m && 0 <= n <= start.len()
                && final(r).remaining() == start.skip(n),
            Err(e) => res is Err && res->Err_0 == e,
        },
{
    match read_tagged::<Result<(), String>>(r, Ghost(start)) {
        Ok(p) => {
            let made = ServerCommand::SelectChart(p);
            Ok(made)
        },
        Err(e) => Err(e),
    }
}

/// Reads what `ServerCommand::RequestStart` carries.
fn read_server_request_start(
    r: &mut BinaryReader<'_>,
    Ghost(start): Ghost<Seq<u8>>,
) -> (res: Result<ServerCommand, DecodeError>)
    requires
        start.len() > 0,
        old(r).remaining() == start.skip(1),
    ensures
        match tagged::<Result<(), String>, ServerCommandModel>(
            start,
            |p: Result<(), Seq<char>>| ServerCommandModel::RequestStart(p),
        ) {
            Ok((m, n)) => res is Ok && res->Ok_0@ == m && 0 <= n <= start.len()
                && final(r).remaining() == start.skip(n),
            Err(e) => res is Err && res->Err_0 == e,
        },
{
    match read_tagged::<Result<(), String>>(r, Ghost(start)) {
        Ok(p) => {
            let made = ServerCommand::RequestStart(p);
            Ok(made)
        },
        Err(e) => Err(e),
    }
}

/// Reads what `ServerCommand::Ready` carries.
fn read_server_ready(
    r: &mut BinaryReader<'_>,
    Ghost(start): Ghost<Seq<u8>>,
) -> (res: Result<ServerCommand, DecodeError>)
    requires
        start.len() > 0,
        old(r).remaining() == start.skip(1),
    ensures
        match tagged::<Result<(), String>, ServerCommandModel>(
            start,
            |p: Result<(), Seq<char>>| ServerCommandModel::Ready(p),
        ) {
            Ok((m, n)) => res is Ok && res->Ok_0@ == m && 0 <= n <= start.len()
                && final(r).remaining() == start.skip(n),
            Err(e) => res is Err && res->Err_0 == e,
        },
{
    match read_tagged::<Result<(), String>>(r, Ghost(start)) {
        Ok(p) => {
            let made = ServerCommand::Ready(p);
            Ok(made)
        },
        Err(e) => Err(e),
    }
}

/// Reads what `ServerCommand::CancelReady` carries.
fn read_server_cancel_ready(
    r: &mut BinaryReader<'_>,
    Ghost(start): Ghost<Seq<u8>>,
) -> (res: Result<ServerCommand, DecodeError>)
    requires
        start.len() > 0,
        old(r).remaining() == start.skip(1),
    ensures
        match tagged::<Result<(), String>, ServerCommandModel>(
            start,
            |p: Result<(), Seq<char>>| ServerCommandModel::CancelReady(p),
        ) {
            Ok((m, n)) => res is Ok && res->Ok_0@ == m && 0 <= n <= start.len()
                && final(r).remaining() == start.skip(n),
            Err(e) => res is Err && res->Err_0 == e,
        },
{
    match read_tagged::<Result<(), String>>(r, Ghost(start)) {
        Ok(p) => {
            let made = ServerCommand::CancelReady(p);
            Ok(made)
        },
        Err(e) => Err(e),
    }
}

/// Reads what `ServerCommand::Played` carries.
fn read_server_played(
    r: &mut BinaryReader<'_>,
    Ghost(start): Ghost<Seq<u8>>,
) -> (res: Result<ServerCommand, DecodeError>)
    requires
        start.len() > 0,
        old(r).remaining() == start.skip(1),
    ensures
        match tagged::<Result<(), String>, ServerCommandModel>(
            start,
            |p: Result<(), Seq<char>>| ServerCommandModel::Played(p),
        ) {
            Ok((m, n)) => res is Ok && res->Ok_0@ == m && 0 <= n <= start.len()
                && final(r).remaining() == start.skip(n),
            Err(e) => res is Err && res->Err_0 == e,
        },
{
    match read_tagged::<Result<(), String>>(r, Ghost(start)) {
        Ok(p) => {
            let made = ServerCommand::Played(p);
            Ok(made)
        },
        Err(e) => Err(e),
    }
}

/// Reads what `ServerCommand::Abort` carries.
fn read_server_abort(
    r: &mut BinaryReader<'_>,
    Ghost(start): Ghost<Seq<u8>>,
) -> (res: Result<ServerCommand, DecodeError>)
    requires
        start.len() > 0,
        old(r).remaining() == start.skip(1),
    ensures
        match tagged::<Result<(), String>, ServerCommandModel>(
            start,
            |p: Result<(), Seq<char>>| ServerCommandModel::Abort(p),
        ) {
            Ok((m, n)) => res is Ok && res->Ok_0@ == m && 0 <= n <= start.len()
                && final(r).remaining() == start.skip(n),
            Err(e) => res is Err && res->Err_0 == e,
        },
{
    match read_tagged::<Result<(), String>>(r, Ghost(start)) {
        Ok(p) => {
            let made = ServerCommand::Abort(p);
            Ok(made)
        },
        Err(e) => Err(e),
    }
}

} // verus!
