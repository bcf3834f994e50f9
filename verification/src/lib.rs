//! Session and room coordination for a multiplayer rhythm game: the wire
//! codec, the frame format, the room state machine and the per-session
//! dispatcher, as verified functions on plain values.

pub mod bin;
pub mod client;
pub mod command;
pub mod frame;
pub mod laws;
pub mod packet;
pub mod primitive;
pub mod registry;
pub mod room;
pub mod server;
pub mod server_model;
pub mod session;
pub mod stamp;
pub mod wire;
pub mod wire_commands;

pub use bin::{BinaryData, BinaryReader, BinaryWriter, DecodeError};
pub use client::{Client, LivePlayer, HEARTBEAT_INTERVAL, HEARTBEAT_TIMEOUT, TIMEOUT};
pub use command::{
    ClientCommand, ClientRoomState, CompactPos, JoinRoomResponse, JudgeEvent, Judgement, Message,
    RoomId, RoomState, ServerCommand, TouchFrame, UserInfo, UserTable, Varchar,
};
pub use packet::{decode_packet, encode_packet};
pub use room::{Chart, Delivery, InternalRoomState, Member, Record, Room, RoomError};
pub use server::{Dangle, Identity, Outcome, ServerState, Session, User};
pub use session::HEARTBEAT_DISCONNECT_TIMEOUT;
