//! What holds of rooms, servers and the codec beyond the single function:
//! each statement is proved from the models that the functions are proved
//! against.

use crate::bin::{
    lemma_uleb_scan_encoding, uleb_decoding, uleb_encoding, uleb_limit, uleb_room, uleb_scan,
    BinaryData, DecodeError,
};
use crate::command::{is_room_id, text_fits, RoomId};
use crate::room::{ChartModel, Phase, Record, RoomError, RoomModel};
use crate::server_model::{
    fit_for, lemma_lost_connection, DangleModel, IdentityModel, ServerModel,
};
use vstd::prelude::*;

verus! {

/// Whether every user that has declared readiness is in the room.
pub open spec fn started_within(room: RoomModel) -> bool {
    match room.phase {
        Phase::WaitForReady { started } => forall|x: i32|
            started.contains(x) ==> room.audience().contains(x),
        _ => true,
    }
}

/// Declaring readiness and taking it back keep the ready users within
/// the room.
pub proof fn lemma_ready_within_members(room: RoomModel, user: i32)
    requires
        room.wf(),
        room.audience().contains(user),
        started_within(room),
    ensures
        started_within(room.ready(user).0),
        started_within(room.cancel_ready(user).0),
{
    match room.phase {
        Phase::WaitForReady { started } => {
            if !started.contains(user) {
                let marked = RoomModel {
                    phase: Phase::WaitForReady { started: started.insert(user) },
                    ..room
                };
                assert(marked.audience() =~= room.audience());
                assert(started_within(marked));
                assert(marked.check_all_ready().0.audience() =~= marked.audience()) by {
                    crate::room::lemma_check_all_ready_wf(
                        RoomModel { phase: marked.phase, ..room },
                    );
                    assert(marked.wf());
                    crate::room::lemma_check_all_ready_keeps(marked);
                }
            } else if room.host != Some(user) {
                let fewer = RoomModel {
                    phase: Phase::WaitForReady { started: started.remove(user) },
                    ..room
                };
                assert(fewer.audience() =~= room.audience());
            }
        },
        _ => {},
    }
}

/// When a room starts playing, as many users have declared readiness as
/// the room has players and monitors.
pub proof fn lemma_playing_counts(room: RoomModel)
    requires
        room.wf(),
        started_within(room),
        room.phase is WaitForReady,
        room.check_all_ready().0.phase is Playing,
    ensures
        room.phase->started.len() == room.users.len() + room.monitors.len(),
{
    let started = room.phase->started;
    let all = room.audience();
    assert(room.all_ready());
    assert(all.to_set() =~= started) by {
        assert forall|x: i32| all.to_set().contains(x) <==> started.contains(x) by {
            if all.to_set().contains(x) {
                let i = choose|i: int| 0 <= i < all.len() && all[i] == x;
                assert(started.contains(all[i]));
            }
        }
    }
    all.unique_seq_to_set();
}

/// A request succeeds only in the state that it belongs to: a chart is
/// selected and a round is started while charts are selected, readiness is
/// declared and taken back while the room waits, results and give-ups are
/// taken while the room plays. In another state the request is refused as
/// out of place and changes nothing.
pub proof fn lemma_requests_need_their_state(
    room: RoomModel,
    user: i32,
    chart: ChartModel,
    record: Record,
)
    ensures
        !(room.phase is SelectChart) ==> room.select_chart(user, chart) == room.refuse(
            RoomError::InvalidState,
        ) && room.request_start(user) == room.refuse(RoomError::InvalidState),
        !(room.phase is WaitForReady) ==> room.ready(user) == room.refuse(RoomError::InvalidState)
            && room.cancel_ready(user) == room.refuse(RoomError::InvalidState),
        !(room.phase is Playing) ==> room.played(user, record) == room.refuse(
            RoomError::InvalidState,
        ) && room.abort(user) == room.refuse(RoomError::InvalidState),
{
}

/// Only the host locks the room, switches host rotation, selects a chart
/// and starts a round: from anyone else the request is refused and changes
/// nothing.
pub proof fn lemma_host_only(room: RoomModel, user: i32, flag: bool, chart: ChartModel)
    requires
        room.host != Some(user),
    ensures
        room.lock_room(user, flag) == room.refuse(RoomError::NotHost),
        room.cycle_room(user, flag) == room.refuse(RoomError::NotHost),
        room.select_chart(user, chart).2 is Err && room.select_chart(user, chart).0 == room,
        room.request_start(user).2 is Err && room.request_start(user).0 == room,
{
}

/// A request that is refused changes nothing and sends nothing.
pub proof fn lemma_refusal_changes_nothing(
    room: RoomModel,
    user: i32,
    flag: bool,
    chart: ChartModel,
    record: Record,
)
    ensures
        refusal_is_idle(room, room.lock_room(user, flag)),
        refusal_is_idle(room, room.cycle_room(user, flag)),
        refusal_is_idle(room, room.select_chart(user, chart)),
        refusal_is_idle(room, room.request_start(user)),
        refusal_is_idle(room, room.ready(user)),
        refusal_is_idle(room, room.cancel_ready(user)),
        refusal_is_idle(room, room.played(user, record)),
        refusal_is_idle(room, room.abort(user)),
{
}

/// Whether a step, if it is a refusal, leaves the room as it was and sends
/// nothing.
pub open spec fn refusal_is_idle(room: RoomModel, step: crate::room::Step) -> bool {
    step.2 is Err ==> step.0 == room && step.1 == Seq::<crate::room::DeliveryModel>::empty()
}

/// A well-formed room has at most eight players, and its host is one of
/// them.
pub proof fn lemma_room_bounds(room: RoomModel)
    requires
        room.wf(),
    ensures
        room.users.len() <= crate::room::ROOM_MAX_USERS,
        room.host matches Some(h) ==> room.user_ids().contains(h),
{
}

/// A room that is live stays live, whatever is asked of it and whoever
/// comes or goes.
pub proof fn lemma_live_is_sticky(
    room: RoomModel,
    user: i32,
    flag: bool,
    chart: ChartModel,
    record: Record,
    member: crate::room::MemberModel,
    name: Seq<char>,
    successor: i32,
)
    requires
        room.live,
    ensures
        room.lock_room(user, flag).0.live,
        room.cycle_room(user, flag).0.live,
        room.select_chart(user, chart).0.live,
        room.request_start(user).0.live,
        room.ready(user).0.live,
        room.cancel_ready(user).0.live,
        room.played(user, record).0.live,
        room.abort(user).0.live,
        room.check_all_ready().0.live,
        room.add_user(member, flag).0.live,
        room.leave(user, name, flag, successor).0.live,
        room.record_game_time(user, 0).live,
{
}

/// Nobody joins a locked room: the request is refused and changes
/// nothing.
pub proof fn lemma_lock_blocks_join(s: ServerModel, user: i32, id: Seq<char>, monitor: bool)
    requires
        s.users.contains_key(user),
        s.users[user].room is None,
        s.rooms.contains_key(id),
        s.rooms[id].locked,
    ensures
        s.join_room(user, id, monitor) == (
            s,
            Seq::<crate::room::DeliveryModel>::empty(),
            Err::<crate::command::JoinRoomResponseModel, RoomError>(RoomError::RoomLocked),
        ),
{
}

/// Nobody is in two rooms.
pub proof fn lemma_one_room(s: ServerModel, first: Seq<char>, second: Seq<char>, user: i32)
    requires
        s.wf(),
        s.rooms.contains_key(first),
        s.rooms.contains_key(second),
        s.rooms[first].audience().contains(user),
        s.rooms[second].audience().contains(user),
    ensures
        first == second,
{
}

/// Whether a user has declared readiness is what the room's picture says
/// of that user.
pub proof fn lemma_is_ready(room: RoomModel, user: i32)
    ensures
        room.client_state(user).is_ready <==> room.phase is WaitForReady
            && room.phase->started.contains(user),
{
}

/// A playing room goes back to chart selection exactly when every player
/// has handed in a result or given up.
pub proof fn lemma_round_ends_when_done(room: RoomModel)
    requires
        room.phase is Playing,
    ensures
        room.check_all_ready().0.phase is SelectChart <==> room.all_done(),
        !room.all_done() ==> room.check_all_ready().0 == room,
{
}

/// A round starts exactly when the host asks for it while charts are
/// selected and one is selected; the room then waits with the host alone
/// ready, and moves on from there.
pub proof fn lemma_request_start(room: RoomModel, user: i32)
    ensures
        room.request_start(user).2 is Ok <==> room.phase is SelectChart && room.host == Some(user)
            && room.chart is Some,
        room.request_start(user).2 is Ok ==> room.request_start(user).0 == (RoomModel {
            phase: Phase::WaitForReady { started: Set::empty().insert(user) },
            ..room.reset_game_time()
        }).check_all_ready().0,
{
}

/// A connection that was reported lost is filed no more, and reporting it
/// again changes nothing.
pub proof fn lemma_reaped_once(s: ServerModel, session: u128, first: i32, second: i32)
    requires
        s.wf(),
        fit_for(s, session, first),
    ensures
        !s.lost_connection(session, first).0.sessions.contains_key(session),
        s.lost_connection(session, first).0.lost_connection(session, second) == (
            s.lost_connection(session, first).0,
            Seq::<crate::room::DeliveryModel>::empty(),
            DangleModel::Nothing,
        ),
{
    lemma_lost_connection(s, session, first);
}

/// A user that the server knows and that authenticates again stays the one
/// user of its id, in the room it was in, with the new connection and no
/// grace interval pending; no other user changes.
pub proof fn lemma_reconnect(s: ServerModel, session: u128, who: IdentityModel)
    requires
        s.wf(),
        s.sessions.contains_key(session),
        s.users.contains_key(who.id),
    ensures
        s.authenticated(session, Ok(who)).0.users.dom() == s.users.dom(),
        s.authenticated(session, Ok(who)).0.rooms == s.rooms,
        s.authenticated(session, Ok(who)).0.users[who.id] == (crate::server_model::UserModel {
            session: Some(session),
            dangle_mark: None,
            ..s.users[who.id]
        }),
        forall|id: i32|
            id != who.id && s.users.contains_key(id) ==> #[trigger] s.authenticated(
                session,
                Ok(who),
            ).0.users[id] == s.users[id],
{
    assert(s.authenticated(session, Ok(who)).0.users.dom() =~= s.users.dom());
}

/// A grace interval that runs out after the user has come back does
/// nothing.
pub proof fn lemma_grace_is_off_after_reconnect(
    s: ServerModel,
    session: u128,
    who: IdentityModel,
    mark: u64,
    successor: i32,
)
    requires
        s.wf(),
        s.sessions.contains_key(session),
        s.users.contains_key(who.id),
    ensures
        s.authenticated(session, Ok(who)).0.dangle_expired(who.id, mark, successor).0
            == s.authenticated(session, Ok(who)).0,
{
    let t = s.authenticated(session, Ok(who)).0;
    assert(t.users.contains_key(who.id));
    assert(t.users[who.id].dangle_mark is None);
}

/// Scanning the image of a number that is too large for the remaining
/// depth fails.
pub proof fn lemma_uleb_scan_overflows(v: nat, rest: Seq<u8>, depth: nat)
    requires
        v >= uleb_room(depth),
        depth <= 5,
    ensures
        uleb_scan(uleb_encoding(v) + rest, depth) == Err::<(int, int), DecodeError>(
            DecodeError::InvalidLength,
        ),
    decreases 5 - depth,
{
    if depth < 5 {
        let image = uleb_encoding(v) + rest;
        assert(v >= 128);
        assert(image[0] == (v % 128 + 128) as u8);
        assert(image.skip(1) =~= uleb_encoding(v / 128) + rest);
        lemma_uleb_scan_overflows(v / 128, rest, depth + 1);
    }
}

/// The image of a number of more than 32 bits is refused.
pub proof fn lemma_uleb_rejects_wide(v: nat, rest: Seq<u8>)
    requires
        v > uleb_limit(),
    ensures
        uleb_decoding(uleb_encoding(v) + rest) == Err::<(u64, int), DecodeError>(
            DecodeError::InvalidLength,
        ),
{
    if v < uleb_room(0) {
        lemma_uleb_scan_encoding(v, rest, 0);
    } else {
        lemma_uleb_scan_overflows(v, rest, 0);
    }
}

/// What decodes as a bounded string is within the bound, and what decodes
/// as a room identifier is one.
pub proof fn lemma_decoded_text_is_valid(bytes: Seq<u8>, bound: int)
    ensures
        crate::wire::bounded_decoding(bytes, bound) matches Ok((text, _)) ==> text_fits(
            text,
            bound,
        ),
        RoomId::decoding(bytes) matches Ok((text, _)) ==> is_room_id(text),
{
}

} // verus!
