//! What holds of the relay, whatever its clients do.

use crate::client::{clients_receive_what_was_sent, received, Received};
use crate::group::{
    called, departed, distinct, entered, has_peer, is_called, lemma_called, lemma_called_nobody,
    lemma_others_is_remove, lemma_others_members, lemma_others_of_strangers, lemma_seated, members,
    other_than, others, seated, valid, DeliveryModel, MemberModel,
};
use crate::reader::json_value;
use crate::relay::{
    addressed, joined_under, roster, socket_step, welcome, Connection, ConnectionModel, EventModel,
    Outcome, SocketEvent,
};
use crate::wire::{json_text, ClientMessage, ClientModel, ServerModel};
use vstd::prelude::*;

verus! {

/// Whatever happens on a socket, afterwards no group is empty and no peer id
/// occurs twice in a group.
pub proof fn groups_stay_valid(
    rooms: Map<Seq<char>, Seq<MemberModel>>,
    connection: ConnectionModel,
    event: EventModel,
)
    requires
        valid(rooms),
    ensures
        valid(socket_step(rooms, connection, event).rooms),
{
    match (event, connection.joined) {
        (EventModel::Text(Some(ClientModel::Join { code, peer_id, name })), _) => {
            lemma_seated(
                members(rooms, code),
                MemberModel { peer_id, name, connection: connection.id },
            );
        },
        (EventModel::Closed, Some((code, peer_id))) => {
            lemma_others_members(members(rooms, code), peer_id);
        },
        _ => {},
    }
}

/// The pairing code of the group that an event can change.
pub open spec fn group_at_stake(connection: ConnectionModel, event: EventModel) -> Option<
    Seq<char>,
> {
    match (event, connection.joined) {
        (EventModel::Text(Some(ClientModel::Join { code, .. })), _) => Some(code),
        (EventModel::Closed, Some((code, _))) => Some(code),
        _ => None,
    }
}

/// An event changes at most one group: the one that is joined, or the one that
/// the connection was in. A signal changes none.
pub proof fn other_groups_are_untouched(
    rooms: Map<Seq<char>, Seq<MemberModel>>,
    connection: ConnectionModel,
    event: EventModel,
    other: Seq<char>,
)
    requires
        group_at_stake(connection, event) != Some(other),
    ensures
        members(socket_step(rooms, connection, event).rooms, other) == members(rooms, other),
{
}

/// A client that has not joined anywhere is not passed on, and nothing changes.
pub proof fn strangers_are_not_passed_on(
    rooms: Map<Seq<char>, Seq<MemberModel>>,
    connection: ConnectionModel,
    event: EventModel,
)
    requires
        connection.joined is None,
        !(event matches EventModel::Text(Some(ClientModel::Join { .. }))),
    ensures
        socket_step(rooms, connection, event) == (Outcome { rooms, connection, sent: seq![] }),
{
}

/// Whether a connection is that of a member of a group.
pub open spec fn is_member(room: Seq<MemberModel>, connection: u64) -> bool {
    exists|m: MemberModel| #[trigger] room.contains(m) && m.connection == connection
}

/// A signal reaches members of the group whose pairing code it names, and
/// nobody else, and only where its sender joined under that code; what it
/// carries is passed on as it came, under the peer id of its sender.
pub proof fn signals_stay_in_their_group(
    rooms: Map<Seq<char>, Seq<MemberModel>>,
    connection: ConnectionModel,
    code: Seq<char>,
    target_peer_id: Option<Seq<char>>,
    kind: Seq<char>,
    data: Seq<char>,
    i: int,
)
    requires
        ({
            let event = EventModel::Text(
                Some(ClientModel::Signal { code, target_peer_id, kind, data }),
            );
            0 <= i < socket_step(rooms, connection, event).sent.len()
        }),
    ensures
        ({
            let event = EventModel::Text(
                Some(ClientModel::Signal { code, target_peer_id, kind, data }),
            );
            let delivery = socket_step(rooms, connection, event).sent[i];
            &&& connection.joined matches Some((_, from_peer_id)) && delivery.text == json_text(
                ServerModel::Signal { from_peer_id, kind, data },
            )
            &&& joined_under(connection, code)
            &&& is_member(members(rooms, code), delivery.to)
        }),
{
    let room = members(rooms, code);
    let from = match connection.joined {
        Some((_, from)) => from,
        None => seq![],
    };
    let to = addressed(room, target_peer_id, from);
    match target_peer_id {
        Some(target) => {
            assert(room.contains(to[i])) by {
                room.lemma_filter_contains_rev(is_called(target), to[i]);
            }
        },
        None => {
            lemma_others_members(room, from);
            assert(to.contains(to[i]));
        },
    }
}

/// A signal into a group whose pairing code its sender did not join under is not
/// passed on, and nothing changes.
pub proof fn foreign_signals_are_not_passed_on(
    rooms: Map<Seq<char>, Seq<MemberModel>>,
    connection: ConnectionModel,
    code: Seq<char>,
    target_peer_id: Option<Seq<char>>,
    kind: Seq<char>,
    data: Seq<char>,
)
    requires
        !joined_under(connection, code),
    ensures
        socket_step(
            rooms,
            connection,
            EventModel::Text(Some(ClientModel::Signal { code, target_peer_id, kind, data })),
        ) == (Outcome { rooms, connection, sent: seq![] }),
{
}

/// Whether a connection is under a pairing code when an event happens: it joined
/// under it before, or the event is that it joins.
pub open spec fn served_under(
    connection: ConnectionModel,
    event: EventModel,
    code: Seq<char>,
) -> bool {
    ||| joined_under(connection, code)
    ||| event matches EventModel::Text(Some(ClientModel::Join { code: joining, .. })) && joining
        == code
}

/// Whether a connection is that of a member of a group whose pairing code
/// another connection is under when an event happens.
pub open spec fn shares_a_code(
    rooms: Map<Seq<char>, Seq<MemberModel>>,
    connection: ConnectionModel,
    event: EventModel,
    to: u64,
) -> bool {
    exists|code: Seq<char>| #[trigger]
        served_under(connection, event, code) && is_member(members(rooms, code), to)
}

/// The relay only ever passes something on between connections under the same
/// pairing code: whatever is sent goes back to the same connection, or to a
/// member of a group whose pairing code the connection joined under.
pub proof fn relaying_stays_under_one_pairing_code(
    rooms: Map<Seq<char>, Seq<MemberModel>>,
    connection: ConnectionModel,
    event: EventModel,
    i: int,
)
    requires
        0 <= i < socket_step(rooms, connection, event).sent.len(),
    ensures
        ({
            let to = socket_step(rooms, connection, event).sent[i].to;
            to == connection.id || shares_a_code(rooms, connection, event, to)
        }),
{
    match (event, connection.joined) {
        (EventModel::Text(Some(ClientModel::Join { code, peer_id, .. })), _) => {
            let room = members(rooms, code);
            let told = others(room, peer_id);
            lemma_others_members(room, peer_id);
            assert(served_under(connection, event, code));
            if i > 0 {
                assert(told.contains(told[i - 1]));
                assert(room.contains(told[i - 1]));
            }
        },
        (
            EventModel::Text(Some(ClientModel::Signal { code, target_peer_id, kind, data })),
            Some(_),
        ) => {
            assert(served_under(connection, event, code));
            signals_stay_in_their_group(rooms, connection, code, target_peer_id, kind, data, i);
        },
        (EventModel::Closed, Some((code, peer_id))) => {
            let room = members(rooms, code);
            let told = others(room, peer_id);
            lemma_others_members(room, peer_id);
            assert(served_under(connection, event, code));
            assert(told.contains(told[i]));
            assert(room.contains(told[i]));
        },
        _ => {},
    }
}

/// A connection comes under a pairing code by joining under it, and in no other
/// way; and until it is closed it stays under the codes that it joined under.
pub proof fn codes_come_from_joins(
    rooms: Map<Seq<char>, Seq<MemberModel>>,
    connection: ConnectionModel,
    event: EventModel,
    code: Seq<char>,
)
    ensures
        ({
            let after = socket_step(rooms, connection, event).connection;
            &&& joined_under(after, code) ==> served_under(connection, event, code)
            &&& served_under(connection, event, code) && event !is Closed ==> joined_under(
                after,
                code,
            )
        }),
{
}

/// The groups after a history of events, each on some connection.
pub open spec fn groups_after(
    history: Seq<(ConnectionModel, EventModel)>,
) -> Map<Seq<char>, Seq<MemberModel>>
    decreases history.len(),
{
    if history.len() == 0 {
        Map::empty()
    } else {
        let (connection, event) = history.last();
        socket_step(groups_after(history.drop_last()), connection, event).rooms
    }
}

/// At all times, whatever happened on whatever connections, no group is empty
/// and no peer id occurs twice in a group.
pub proof fn groups_are_always_valid(history: Seq<(ConnectionModel, EventModel)>)
    ensures
        valid(groups_after(history)),
    decreases history.len(),
{
    if history.len() > 0 {
        let (connection, event) = history.last();
        groups_are_always_valid(history.drop_last());
        groups_stay_valid(groups_after(history.drop_last()), connection, event);
    }
}

/// A signal without a target, from a connection under its pairing code, reaches
/// everybody in the group once, but for the member with the peer id of its sender: the
/// deliveries are those for the others, and the others are distinct members with other
/// peer ids, and all of them.
pub proof fn broadcasts_reach_everybody_else(
    rooms: Map<Seq<char>, Seq<MemberModel>>,
    connection: ConnectionModel,
    code: Seq<char>,
    from_peer_id: Seq<char>,
    kind: Seq<char>,
    data: Seq<char>,
)
    requires
        valid(rooms),
        connection.joined matches Some((_, peer_id)) && peer_id == from_peer_id,
        joined_under(connection, code),
    ensures
        ({
            let event = EventModel::Text(
                Some(ClientModel::Signal { code, target_peer_id: None, kind, data }),
            );
            let sent = socket_step(rooms, connection, event).sent;
            let room = members(rooms, code);
            let reached = others(room, from_peer_id);
            &&& sent.len() == reached.len()
            &&& forall|i: int| 0 <= i < sent.len() ==> (#[trigger] sent[i]).to
                == reached[i].connection
            &&& distinct(reached)
            &&& forall|m: MemberModel| #[trigger]
                reached.contains(m) <==> room.contains(m) && m.peer_id != from_peer_id
            &&& has_peer(room, from_peer_id) ==> sent.len() == room.len() - 1
            &&& !has_peer(room, from_peer_id) ==> sent.len() == room.len()
        }),
{
    let room = members(rooms, code);
    lemma_others_members(room, from_peer_id);
    if has_peer(room, from_peer_id) {
        let i = choose|i: int| 0 <= i < room.len() && (#[trigger] room[i]).peer_id == from_peer_id;
        lemma_others_is_remove(room, i);
    } else {
        lemma_others_of_strangers(room, from_peer_id);
    }
}

/// A signal with a target, from a connection under its pairing code, reaches the
/// member with that peer id, once, and nobody if there is none.
pub proof fn directed_signals_reach_their_target(
    rooms: Map<Seq<char>, Seq<MemberModel>>,
    connection: ConnectionModel,
    code: Seq<char>,
    target: Seq<char>,
    kind: Seq<char>,
    data: Seq<char>,
    i: int,
)
    requires
        valid(rooms),
        connection.joined is Some,
        joined_under(connection, code),
    ensures
        ({
            let event = EventModel::Text(
                Some(ClientModel::Signal { code, target_peer_id: Some(target), kind, data }),
            );
            let sent = socket_step(rooms, connection, event).sent;
            let room = members(rooms, code);
            &&& 0 <= i < room.len() && room[i].peer_id == target ==> sent.len() == 1 && sent[0].to
                == room[i].connection
            &&& !has_peer(room, target) ==> sent.len() == 0
        }),
{
    let room = members(rooms, code);
    if 0 <= i < room.len() && room[i].peer_id == target {
        lemma_called(room, i);
    }
    if !has_peer(room, target) {
        lemma_called_nobody(room, target);
    }
}

/// After a join, a signal from a connection under the same pairing code that names
/// the newcomer reaches the newcomer's
/// connection, and no other.
pub proof fn newcomers_can_be_reached(
    rooms: Map<Seq<char>, Seq<MemberModel>>,
    connection: ConnectionModel,
    code: Seq<char>,
    peer_id: Seq<char>,
    name: Seq<char>,
    sender: ConnectionModel,
    kind: Seq<char>,
    data: Seq<char>,
)
    requires
        valid(rooms),
        sender.joined is Some,
        joined_under(sender, code),
    ensures
        ({
            let join = EventModel::Text(Some(ClientModel::Join { code, peer_id, name }));
            let signal = EventModel::Text(
                Some(ClientModel::Signal { code, target_peer_id: Some(peer_id), kind, data }),
            );
            let after = socket_step(rooms, connection, join).rooms;
            let sent = socket_step(after, sender, signal).sent;
            sent.len() == 1 && sent[0].to == connection.id
        }),
{
    let room = members(rooms, code);
    let member = MemberModel { peer_id, name, connection: connection.id };
    let after = seated(room, member);
    lemma_seated(room, member);
    let i = choose|i: int| 0 <= i < after.len() && (#[trigger] after[i]).peer_id == peer_id;
    lemma_called(after, i);
    assert(after[i] == member);
    assert(members(entered(rooms, code, member), code) == after);
}

/// After a connection was closed, nobody in its group has its peer id, and no
/// signal into that group can reach that peer id.
pub proof fn departed_peers_cannot_be_reached(
    rooms: Map<Seq<char>, Seq<MemberModel>>,
    connection: ConnectionModel,
    code: Seq<char>,
    peer_id: Seq<char>,
    sender: ConnectionModel,
    kind: Seq<char>,
    data: Seq<char>,
)
    requires
        connection.joined == Some((code, peer_id)),
    ensures
        ({
            let signal = EventModel::Text(
                Some(ClientModel::Signal { code, target_peer_id: Some(peer_id), kind, data }),
            );
            let after = socket_step(rooms, connection, EventModel::Closed).rooms;
            &&& !has_peer(members(after, code), peer_id)
            &&& socket_step(after, sender, signal).sent.len() == 0
        }),
{
    let room = members(rooms, code);
    let after = members(departed(rooms, code, peer_id), code);
    lemma_others_members(room, peer_id);
    assert forall|i: int| 0 <= i < after.len() implies (#[trigger] after[i]).peer_id != peer_id by {
        assert(others(room, peer_id).contains(after[i]));
    }
    lemma_called_nobody(after, peer_id);
}

/// Closing a connection undoes its join: where the peer id was new to the
/// group, the groups are as they were before. Those who were told of the
/// newcomer are those who are told of its departure.
pub proof fn closing_undoes_joining(
    rooms: Map<Seq<char>, Seq<MemberModel>>,
    connection: ConnectionModel,
    code: Seq<char>,
    peer_id: Seq<char>,
    name: Seq<char>,
)
    requires
        valid(rooms),
        !has_peer(members(rooms, code), peer_id),
    ensures
        ({
            let join = EventModel::Text(Some(ClientModel::Join { code, peer_id, name }));
            let joined = socket_step(rooms, connection, join);
            let closed = socket_step(joined.rooms, joined.connection, EventModel::Closed);
            &&& closed.rooms == rooms
            &&& closed.sent.len() == joined.sent.len() - 1
            &&& forall|i: int| 0 <= i < closed.sent.len() ==> (#[trigger] closed.sent[i]).to
                == joined.sent[i + 1].to
        }),
{
    let room = members(rooms, code);
    let member = MemberModel { peer_id, name, connection: connection.id };
    let after = entered(rooms, code, member);
    lemma_seated(room, member);
    lemma_others_of_strangers(room, peer_id);
    assert(others(members(after, code), peer_id) == room);
    assert(departed(after, code, peer_id) =~= rooms);
}

/// A connection is closed once: closing it again does nothing.
pub proof fn closing_twice_is_closing_once(
    rooms: Map<Seq<char>, Seq<MemberModel>>,
    connection: ConnectionModel,
)
    ensures
        ({
            let closed = socket_step(rooms, connection, EventModel::Closed);
            socket_step(closed.rooms, closed.connection, EventModel::Closed) == (Outcome {
                rooms: closed.rooms,
                connection: closed.connection,
                sent: seq![],
            })
        }),
{
}

/// A newcomer is told who was in the group before, and everybody in the group
/// with another peer id is told of the newcomer, once.
pub proof fn newcomers_are_announced(
    rooms: Map<Seq<char>, Seq<MemberModel>>,
    connection: ConnectionModel,
    code: Seq<char>,
    peer_id: Seq<char>,
    name: Seq<char>,
)
    requires
        valid(rooms),
    ensures
        ({
            let join = EventModel::Text(Some(ClientModel::Join { code, peer_id, name }));
            let sent = socket_step(rooms, connection, join).sent;
            let room = members(rooms, code);
            let told = others(room, peer_id);
            &&& sent.len() == told.len() + 1
            &&& sent[0] == (DeliveryModel {
                to: connection.id,
                text: json_text(ServerModel::Joined { peers: roster(room) }),
            })
            &&& forall|i: int| 0 <= i < told.len() ==> #[trigger] sent[i + 1] == (DeliveryModel {
                to: told[i].connection,
                text: json_text(ServerModel::PeerJoined { peer_id, name }),
            })
            &&& distinct(told)
            &&& forall|m: MemberModel| #[trigger]
                told.contains(m) <==> room.contains(m) && m.peer_id != peer_id
        }),
{
    lemma_others_members(members(rooms, code), peer_id);
}

/// Where a client signals JSON, every text that goes out is one that a client can
/// read: the newcomer reads who was in the group before, the others who came or who
/// left, and whoever a signal goes to reads its kind and the very value that it
/// carries, under the peer id of its sender.
pub proof fn clients_can_read_what_is_sent(
    rooms: Map<Seq<char>, Seq<MemberModel>>,
    connection: ConnectionModel,
    event: EventModel,
    i: int,
)
    requires
        event matches EventModel::Text(Some(ClientModel::Signal { data, .. })) ==> json_value(
            data,
        ) is Some,
        0 <= i < socket_step(rooms, connection, event).sent.len(),
    ensures
        ({
            let text = socket_step(rooms, connection, event).sent[i].text;
            match (event, connection.joined) {
                (EventModel::Text(Some(ClientModel::Join { code, peer_id, name })), _) => received(
                    text,
                ) == Some(
                    if i == 0 {
                        Received::Joined { peers: roster(members(rooms, code)) }
                    } else {
                        Received::PeerJoined { peer_id, name }
                    },
                ),
                (
                    EventModel::Text(Some(ClientModel::Signal { kind, data, .. })),
                    Some((_, from_peer_id)),
                ) => received(text) == Some(
                    Received::Signal { from_peer_id, kind, data: json_value(data).unwrap() },
                ),
                (EventModel::Closed, Some((_, peer_id))) => received(text) == Some(
                    Received::PeerLeft { peer_id },
                ),
                _ => false,
            }
        }),
{
    match (event, connection.joined) {
        (EventModel::Text(Some(ClientModel::Join { code, peer_id, name })), _) => {
            clients_receive_what_was_sent(
                ServerModel::Joined { peers: roster(members(rooms, code)) },
            );
            clients_receive_what_was_sent(ServerModel::PeerJoined { peer_id, name });
        },
        (
            EventModel::Text(Some(ClientModel::Signal { kind, data, .. })),
            Some((_, from_peer_id)),
        ) => {
            clients_receive_what_was_sent(ServerModel::Signal { from_peer_id, kind, data });
        },
        (EventModel::Closed, Some((_, peer_id))) => {
            clients_receive_what_was_sent(ServerModel::PeerLeft { peer_id });
        },
        _ => {},
    }
}

/// The members with another peer id are told apart in one way only.
proof fn lemma_filter_is_others(
    room: Seq<MemberModel>,
    peer_id: Seq<char>,
    other: spec_fn(MemberModel) -> bool,
)
    requires
        forall|m: MemberModel| #[trigger] other(m) <==> m.peer_id != peer_id,
    ensures
        room.filter(other) == others(room, peer_id),
{
    assert(other =~= other_than(peer_id));
}

/// Whatever is looked up, a group is the one that stands under its pairing code.
pub proof fn groups_are_found_under_their_code(
    rooms: Map<Seq<char>, Seq<MemberModel>>,
    code: Seq<char>,
)
    ensures
        rooms.contains_key(code) ==> members(rooms, code) == rooms[code],
        !rooms.contains_key(code) ==> members(rooms, code).len() == 0,
{
}

/// After somebody entered a group, its members are the newcomer and those members that
/// have another peer id, none of them twice; the other groups are as they were.
pub proof fn entering_adds_the_newcomer(
    rooms: Map<Seq<char>, Seq<MemberModel>>,
    code: Seq<char>,
    member: MemberModel,
)
    requires
        valid(rooms),
    ensures
        ({
            let after = entered(rooms, code, member);
            &&& after.contains_key(code)
            &&& forall|m: MemberModel| #[trigger]
                after[code].contains(m) <==> m == member || (rooms.contains_key(code)
                    && rooms[code].contains(m) && m.peer_id != member.peer_id)
            &&& forall|i: int, j: int|
                0 <= i < j < after[code].len() ==> (#[trigger] after[code][i]).peer_id != (
                #[trigger] after[code][j]).peer_id
            &&& forall|other: Seq<char>|
                other != code ==> (#[trigger] after.contains_key(other) <==> rooms.contains_key(
                    other,
                ))
            &&& forall|other: Seq<char>|
                other != code && rooms.contains_key(other) ==> #[trigger] after[other]
                    == rooms[other]
        }),
{
    let room = members(rooms, code);
    let after = seated(room, member);
    lemma_seated(room, member);
    lemma_others_members(room, member.peer_id);
    lemma_others_members(after, member.peer_id);
    let at = choose|i: int| 0 <= i < after.len() && (#[trigger] after[i]).peer_id == member.peer_id;
    assert(after[at] == member);
    assert forall|m: MemberModel| #[trigger] after.contains(m) <==> m == member || (
    rooms.contains_key(code) && rooms[code].contains(m) && m.peer_id != member.peer_id) by {
        if after.contains(m) && m.peer_id == member.peer_id {
            let i = choose|i: int| 0 <= i < after.len() && after[i] == m;
            if i != at {
                assert(after[i].peer_id != after[at].peer_id);
            }
        }
        if m.peer_id != member.peer_id {
            assert(others(after, member.peer_id).contains(m) <==> after.contains(m));
            assert(others(room, member.peer_id).contains(m) <==> room.contains(m));
        }
    }
}

/// After somebody left a group, its members are those that were in it under another peer
/// id, in the same order, and the group is gone only where there are none; the other groups
/// are as they were.
pub proof fn leaving_keeps_the_others(
    rooms: Map<Seq<char>, Seq<MemberModel>>,
    code: Seq<char>,
    peer_id: Seq<char>,
)
    ensures
        ({
            let after = departed(rooms, code, peer_id);
            &&& forall|m: MemberModel|
                after.contains_key(code) && #[trigger] after[code].contains(m)
                    ==> rooms.contains_key(code) && rooms[code].contains(m) && m.peer_id != peer_id
            &&& forall|m: MemberModel|
                rooms.contains_key(code) && #[trigger] rooms[code].contains(m) && m.peer_id
                    != peer_id ==> after.contains_key(code) && after[code].contains(m)
            &&& after.contains_key(code) ==> rooms.contains_key(code) && after[code]
                == rooms[code].filter(|m: MemberModel| m.peer_id != peer_id)
            &&& after.contains_key(code) ==> after[code].len() > 0
            &&& forall|other: Seq<char>|
                other != code ==> (#[trigger] after.contains_key(other) <==> rooms.contains_key(
                    other,
                ))
            &&& forall|other: Seq<char>|
                other != code && rooms.contains_key(other) ==> #[trigger] after[other]
                    == rooms[other]
        }),
{
    let room = members(rooms, code);
    let after = departed(rooms, code, peer_id);
    let rest = others(room, peer_id);
    lemma_others_members(room, peer_id);
    lemma_filter_is_others(room, peer_id, |m: MemberModel| m.peer_id != peer_id);
    if !rooms.contains_key(code) {
        reveal(Seq::filter);
    }
    assert forall|m: MemberModel|
        rooms.contains_key(code) && #[trigger] rooms[code].contains(m) && m.peer_id
            != peer_id implies after.contains_key(code) && after[code].contains(m) by {
        assert(rest.contains(m));
    }
    assert forall|m: MemberModel|
        after.contains_key(code) && #[trigger] after[code].contains(m) implies rooms.contains_key(
        code,
    ) && rooms[code].contains(m) && m.peer_id != peer_id by {
        assert(rest.contains(m));
    }
}

/// Nothing but a join and the close changes the groups, or what the relay knows of a
/// connection: its number, the pairing code and peer id that it last joined with, and the
/// pairing codes that it joined under before.
pub proof fn only_joins_and_closes_change_anything(
    rooms: Map<Seq<char>, Seq<MemberModel>>,
    connection: ConnectionModel,
    event: EventModel,
)
    requires
        !(event matches EventModel::Text(Some(ClientModel::Join { .. }))),
        event !is Closed,
    ensures
        ({
            let step = socket_step(rooms, connection, event);
            &&& step.rooms == rooms
            &&& step.connection.id == connection.id
            &&& step.connection.joined == connection.joined
            &&& step.connection.earlier == connection.earlier
        }),
{
}

/// What the relay knows of a connection after a history of events on it, whatever the
/// groups were at each of them.
pub open spec fn connection_after(
    connection: ConnectionModel,
    history: Seq<(Map<Seq<char>, Seq<MemberModel>>, EventModel)>,
) -> ConnectionModel
    decreases history.len(),
{
    if history.len() == 0 {
        connection
    } else {
        let (rooms, event) = history.last();
        socket_step(rooms, connection_after(connection, history.drop_last()), event).connection
    }
}

/// A history without a join and without a close leaves a connection as it was.
pub proof fn memberships_last(
    connection: ConnectionModel,
    history: Seq<(Map<Seq<char>, Seq<MemberModel>>, EventModel)>,
)
    requires
        forall|i: int|
            0 <= i < history.len() ==> (#[trigger] history[i]).1 !is Closed && !(
            history[i].1 matches EventModel::Text(Some(ClientModel::Join { .. }))),
    ensures
        connection_after(connection, history) == connection,
    decreases history.len(),
{
    if history.len() > 0 {
        let front = history.drop_last();
        assert forall|i: int| 0 <= i < front.len() implies (#[trigger] front[i]).1 !is Closed && !(
        front[i].1 matches EventModel::Text(Some(ClientModel::Join { .. }))) by {
            assert(front[i] == history[i]);
        }
        memberships_last(connection, front);
        let (rooms, event) = history.last();
        assert(history[history.len() - 1].1 == event);
        only_joins_and_closes_change_anything(rooms, connection, event);
    }
}

/// What a client is once it joined, and as long as it neither joins again nor closes:
/// however much it signals in between, each signal that names a member of the group is
/// delivered to that member's connection, and to no other, and is read there as one from the
/// peer id of the join; a signal that names nobody goes to all members with other peer ids;
/// and when the client closes, these are told that this peer id left.
pub proof fn joined_clients_are_served_until_they_close(
    rooms: Map<Seq<char>, Seq<MemberModel>>,
    connection: ConnectionModel,
    code: Seq<char>,
    peer_id: Seq<char>,
    name: Seq<char>,
    history: Seq<(Map<Seq<char>, Seq<MemberModel>>, EventModel)>,
    now: Map<Seq<char>, Seq<MemberModel>>,
    i: int,
    kind: Seq<char>,
    data: Seq<char>,
)
    requires
        forall|k: int|
            0 <= k < history.len() ==> (#[trigger] history[k]).1 !is Closed && !(
            history[k].1 matches EventModel::Text(Some(ClientModel::Join { .. }))),
        valid(now),
        now.contains_key(code),
        0 <= i < now[code].len(),
    ensures
        ({
            let join = EventModel::Text(Some(ClientModel::Join { code, peer_id, name }));
            let joined = socket_step(rooms, connection, join).connection;
            let client = connection_after(joined, history);
            let target_peer_id = Some(now[code][i].peer_id);
            let directed = socket_step(
                now,
                client,
                EventModel::Text(Some(ClientModel::Signal { code, target_peer_id, kind, data })),
            ).sent;
            let broadcast = socket_step(
                now,
                client,
                EventModel::Text(
                    Some(ClientModel::Signal { code, target_peer_id: None, kind, data }),
                ),
            ).sent;
            let farewell = socket_step(now, client, EventModel::Closed).sent;
            let told = now[code].filter(|m: MemberModel| m.peer_id != peer_id);
            let signal = Received::Signal {
                from_peer_id: peer_id,
                kind,
                data: json_value(data).unwrap(),
            };
            &&& client.joined == Some((code, peer_id))
            &&& directed.len() == 1
            &&& directed[0].to == now[code][i].connection
            &&& json_value(data) is Some ==> received(directed[0].text) == Some(signal)
            &&& broadcast.len() == told.len()
            &&& forall|k: int| #![trigger broadcast[k]]
                0 <= k < told.len() ==> broadcast[k].to == told[k].connection && (json_value(
                    data,
                ) is Some ==> received(broadcast[k].text) == Some(signal))
            &&& farewell.len() == told.len()
            &&& forall|k: int| #![trigger farewell[k]]
                0 <= k < told.len() ==> farewell[k].to == told[k].connection && received(
                    farewell[k].text,
                ) == Some(Received::PeerLeft { peer_id })
        }),
{
    let join = EventModel::Text(Some(ClientModel::Join { code, peer_id, name }));
    let joined = socket_step(rooms, connection, join).connection;
    memberships_last(joined, history);
    lemma_called(now[code], i);
    lemma_filter_is_others(now[code], peer_id, |m: MemberModel| m.peer_id != peer_id);
    if json_value(data) is Some {
        clients_receive_what_was_sent(ServerModel::Signal { from_peer_id: peer_id, kind, data });
    }
    clients_receive_what_was_sent(ServerModel::PeerLeft { peer_id });
}

/// A join makes the client a member of the group, under its own number, and of no other
/// group; from then on the connection is under this pairing code, and still under those that
/// it joined under before.
pub proof fn joins_make_members(
    rooms: Map<Seq<char>, Seq<MemberModel>>,
    connection: ConnectionModel,
    code: Seq<char>,
    peer_id: Seq<char>,
    name: Seq<char>,
)
    requires
        valid(rooms),
    ensures
        ({
            let join = EventModel::Text(Some(ClientModel::Join { code, peer_id, name }));
            let step = socket_step(rooms, connection, join);
            let newcomer = MemberModel { peer_id, name, connection: connection.id };
            &&& step.connection.id == connection.id
            &&& step.connection.joined == Some((code, peer_id))
            &&& forall|c: Seq<char>| #[trigger]
                step.connection.earlier.contains(c) <==> connection.earlier.contains(c) || (
                connection.joined is Some && connection.joined.unwrap().0 == c)
            &&& step.rooms.contains_key(code)
            &&& forall|m: MemberModel| #[trigger]
                step.rooms[code].contains(m) <==> m == newcomer || (rooms.contains_key(code)
                    && rooms[code].contains(m) && m.peer_id != peer_id)
            &&& forall|i: int, j: int|
                0 <= i < j < step.rooms[code].len() ==> (#[trigger] step.rooms[code][i]).peer_id
                    != (#[trigger] step.rooms[code][j]).peer_id
            &&& forall|other: Seq<char>|
                other != code ==> (#[trigger] step.rooms.contains_key(other)
                    <==> rooms.contains_key(other))
            &&& forall|other: Seq<char>|
                other != code && rooms.contains_key(other) ==> #[trigger] step.rooms[other]
                    == rooms[other]
        }),
{
    entering_adds_the_newcomer(
        rooms,
        code,
        MemberModel { peer_id, name, connection: connection.id },
    );
}

/// What a newcomer reads lists the group that was there before: as many peers as it had
/// members, each with the peer id and the name of the member in its place.
pub proof fn newcomers_read_who_is_there(
    rooms: Map<Seq<char>, Seq<MemberModel>>,
    connection: ConnectionModel,
    code: Seq<char>,
    peer_id: Seq<char>,
    name: Seq<char>,
)
    ensures
        ({
            let join = EventModel::Text(Some(ClientModel::Join { code, peer_id, name }));
            let sent = socket_step(rooms, connection, join).sent;
            &&& sent.len() > 0
            &&& sent[0].to == connection.id
            &&& match received(sent[0].text) {
                Some(Received::Joined { peers }) => {
                    &&& rooms.contains_key(code) ==> peers.len() == rooms[code].len()
                    &&& !rooms.contains_key(code) ==> peers.len() == 0
                    &&& forall|i: int| #![trigger peers[i]]
                        rooms.contains_key(code) && 0 <= i < rooms[code].len() ==> peers[i].peer_id
                            == rooms[code][i].peer_id && peers[i].name == rooms[code][i].name
                },
                _ => false,
            }
        }),
{
    clients_receive_what_was_sent(ServerModel::Joined { peers: roster(members(rooms, code)) });
}

/// A name is read by newcomers as its bearer gave it: who joins a group after a client is
/// told of this client, by the peer id and the name of its own join, and of nobody else with
/// that peer id.
pub proof fn names_are_read_as_they_were_given(
    rooms: Map<Seq<char>, Seq<MemberModel>>,
    connection: ConnectionModel,
    code: Seq<char>,
    peer_id: Seq<char>,
    name: Seq<char>,
    next: ConnectionModel,
    next_peer_id: Seq<char>,
    next_name: Seq<char>,
)
    requires
        valid(rooms),
    ensures
        ({
            let join = EventModel::Text(Some(ClientModel::Join { code, peer_id, name }));
            let after = socket_step(rooms, connection, join).rooms;
            let next_join = EventModel::Text(
                Some(ClientModel::Join { code, peer_id: next_peer_id, name: next_name }),
            );
            let sent = socket_step(after, next, next_join).sent;
            match received(sent[0].text) {
                Some(Received::Joined { peers }) => {
                    &&& exists|i: int|
                        0 <= i < peers.len() && (#[trigger] peers[i]).peer_id == peer_id
                            && peers[i].name == name
                    &&& forall|i: int|
                        0 <= i < peers.len() && (#[trigger] peers[i]).peer_id == peer_id
                            ==> peers[i].name == name
                },
                _ => false,
            }
        }),
{
    let join = EventModel::Text(Some(ClientModel::Join { code, peer_id, name }));
    let after = socket_step(rooms, connection, join).rooms;
    let newcomer = MemberModel { peer_id, name, connection: connection.id };
    joins_make_members(rooms, connection, code, peer_id, name);
    newcomers_read_who_is_there(after, next, code, next_peer_id, next_name);
    clients_receive_what_was_sent(ServerModel::Joined { peers: roster(members(after, code)) });
    let peers = roster(members(after, code));
    assert(after[code].contains(newcomer));
    let at = choose|i: int| 0 <= i < after[code].len() && after[code][i] == newcomer;
    assert(peers[at].peer_id == peer_id && peers[at].name == name);
    assert forall|i: int|
        0 <= i < peers.len() && (#[trigger] peers[i]).peer_id == peer_id implies peers[i].name
        == name by {
        assert(after[code].contains(after[code][i]));
    }
}

/// Everybody who was in the group under another peer id is told of the newcomer, once, by
/// the peer id and the name of the join; nobody else is told anything but the newcomer.
pub proof fn newcomers_are_told_of(
    rooms: Map<Seq<char>, Seq<MemberModel>>,
    connection: ConnectionModel,
    code: Seq<char>,
    peer_id: Seq<char>,
    name: Seq<char>,
)
    ensures
        ({
            let join = EventModel::Text(Some(ClientModel::Join { code, peer_id, name }));
            let sent = socket_step(rooms, connection, join).sent;
            let told = rooms[code].filter(|m: MemberModel| m.peer_id != peer_id);
            &&& rooms.contains_key(code) ==> sent.len() == told.len() + 1
            &&& !rooms.contains_key(code) ==> sent.len() == 1
            &&& forall|i: int| #![trigger sent[i + 1]]
                rooms.contains_key(code) && 0 <= i < told.len() ==> sent[i + 1].to
                    == told[i].connection && received(sent[i + 1].text) == Some(
                    Received::PeerJoined { peer_id, name },
                )
        }),
{
    lemma_filter_is_others(rooms[code], peer_id, |m: MemberModel| m.peer_id != peer_id);
    clients_receive_what_was_sent(ServerModel::PeerJoined { peer_id, name });
    if !rooms.contains_key(code) {
        reveal(Seq::filter);
    }
}

/// Where a signal goes. It goes nowhere unless its sender joined, and joined under the
/// pairing code that it names, and there is such a group. It then goes to the member with the
/// peer id that it names, or to nobody where there is none; or, where it names none, to all
/// members with another peer id than its sender. Each is to read the same: the kind and the
/// value of the signal, from the peer id that the sender last joined with.
pub proof fn signals_go_where_they_are_meant_to(
    rooms: Map<Seq<char>, Seq<MemberModel>>,
    connection: ConnectionModel,
    code: Seq<char>,
    target_peer_id: Option<Seq<char>>,
    kind: Seq<char>,
    data: Seq<char>,
)
    requires
        valid(rooms),
    ensures
        ({
            let signal = EventModel::Text(
                Some(ClientModel::Signal { code, target_peer_id, kind, data }),
            );
            let sent = socket_step(rooms, connection, signal).sent;
            let room = rooms[code];
            match connection.joined {
                Some((last, from_peer_id)) => {
                    let under = last == code || connection.earlier.contains(code);
                    let told = room.filter(|m: MemberModel| m.peer_id != from_peer_id);
                    &&& !under || !rooms.contains_key(code) ==> sent.len() == 0
                    &&& under && rooms.contains_key(code) ==> match target_peer_id {
                        Some(target) => {
                            &&& forall|i: int|
                                0 <= i < room.len() && (#[trigger] room[i]).peer_id == target
                                    ==> sent.len() == 1 && sent[0].to == room[i].connection
                            &&& (forall|i: int|
                                0 <= i < room.len() ==> (#[trigger] room[i]).peer_id != target)
                                ==> sent.len() == 0
                        },
                        None => {
                            &&& sent.len() == told.len()
                            &&& forall|i: int| #![trigger sent[i]]
                                0 <= i < told.len() ==> sent[i].to == told[i].connection
                        },
                    }
                    &&& forall|i: int, k: int| #![trigger sent[i], sent[k]]
                        0 <= i < k < sent.len() ==> sent[i].text == sent[k].text
                    &&& forall|i: int| #![trigger sent[i]]
                        json_value(data) is Some && 0 <= i < sent.len() ==> received(sent[i].text)
                            == Some(
                            Received::Signal {
                                from_peer_id,
                                kind,
                                data: json_value(data).unwrap(),
                            },
                        )
                },
                None => sent.len() == 0,
            }
        }),
{
    let room = members(rooms, code);
    if let Some((_, from_peer_id)) = connection.joined {
        lemma_filter_is_others(room, from_peer_id, |m: MemberModel| m.peer_id != from_peer_id);
        if json_value(data) is Some {
            clients_receive_what_was_sent(ServerModel::Signal { from_peer_id, kind, data });
        }
    }
    if let Some(target) = target_peer_id {
        if has_peer(room, target) {
            assert forall|i: int|
                0 <= i < room.len() && (#[trigger] room[i]).peer_id == target implies called(
                room,
                target,
            ) == seq![room[i]] by {
                lemma_called(room, i);
            }
        } else {
            lemma_called_nobody(room, target);
        }
    }
    if !rooms.contains_key(code) {
        reveal(Seq::filter);
    }
}

/// What a close does. Where the client joined, the group keeps those who have another peer
/// id, with their names and connections, and loses nobody else, whoever joined in between;
/// these, and nobody else, are told, once, that the peer id left. Other groups are as they
/// were, and the connection is no longer joined.
pub proof fn closes_take_out_the_client_alone(
    rooms: Map<Seq<char>, Seq<MemberModel>>,
    connection: ConnectionModel,
    code: Seq<char>,
    peer_id: Seq<char>,
)
    requires
        connection.joined == Some((code, peer_id)),
    ensures
        ({
            let step = socket_step(rooms, connection, EventModel::Closed);
            let after = step.rooms;
            let told = rooms[code].filter(|m: MemberModel| m.peer_id != peer_id);
            &&& forall|m: MemberModel|
                after.contains_key(code) && #[trigger] after[code].contains(m)
                    ==> rooms.contains_key(code) && rooms[code].contains(m) && m.peer_id != peer_id
            &&& forall|m: MemberModel|
                rooms.contains_key(code) && #[trigger] rooms[code].contains(m) && m.peer_id
                    != peer_id ==> after.contains_key(code) && after[code].contains(m)
            &&& after.contains_key(code) ==> after[code] == told && told.len() > 0
            &&& forall|other: Seq<char>|
                other != code ==> (#[trigger] after.contains_key(other) <==> rooms.contains_key(
                    other,
                ))
            &&& forall|other: Seq<char>|
                other != code && rooms.contains_key(other) ==> #[trigger] after[other]
                    == rooms[other]
            &&& !rooms.contains_key(code) ==> step.sent.len() == 0
            &&& rooms.contains_key(code) ==> step.sent.len() == told.len()
            &&& forall|i: int| #![trigger step.sent[i]]
                0 <= i < step.sent.len() ==> step.sent[i].to == told[i].connection && received(
                    step.sent[i].text,
                ) == Some(Received::PeerLeft { peer_id })
            &&& step.connection.id == connection.id
            &&& step.connection.joined is None
            &&& step.connection.earlier == connection.earlier
        }),
{
    leaving_keeps_the_others(rooms, code, peer_id);
    lemma_filter_is_others(rooms[code], peer_id, |m: MemberModel| m.peer_id != peer_id);
    clients_receive_what_was_sent(ServerModel::PeerLeft { peer_id });
    if !rooms.contains_key(code) {
        reveal(Seq::filter);
    }
}

/// Who stays can still be reached: after a client closed, a signal that names another member
/// of the group, from a connection under its pairing code, reaches the connection of that
/// member, and no other.
pub proof fn those_who_stay_can_be_reached(
    rooms: Map<Seq<char>, Seq<MemberModel>>,
    connection: ConnectionModel,
    code: Seq<char>,
    peer_id: Seq<char>,
    i: int,
    sender: ConnectionModel,
    kind: Seq<char>,
    data: Seq<char>,
)
    requires
        valid(rooms),
        connection.joined == Some((code, peer_id)),
        rooms.contains_key(code),
        0 <= i < rooms[code].len(),
        rooms[code][i].peer_id != peer_id,
        sender.joined is Some,
        sender.joined.unwrap().0 == code || sender.earlier.contains(code),
    ensures
        ({
            let after = socket_step(rooms, connection, EventModel::Closed).rooms;
            let target_peer_id = Some(rooms[code][i].peer_id);
            let signal = EventModel::Text(
                Some(ClientModel::Signal { code, target_peer_id, kind, data }),
            );
            let sent = socket_step(after, sender, signal).sent;
            &&& sent.len() == 1
            &&& sent[0].to == rooms[code][i].connection
        }),
{
    let after = socket_step(rooms, connection, EventModel::Closed).rooms;
    let m = rooms[code][i];
    closes_take_out_the_client_alone(rooms, connection, code, peer_id);
    groups_stay_valid(rooms, connection, EventModel::Closed);
    assert(rooms[code].contains(m));
    let at = choose|k: int| 0 <= k < after[code].len() && after[code][k] == m;
    signals_go_where_they_are_meant_to(after, sender, code, Some(m.peer_id), kind, data);
    assert(after[code][at].peer_id == m.peer_id);
}

/// A connection that joined nowhere closes without a trace, and what is no message of a
/// client is ignored.
pub proof fn nothing_comes_of_nothing(
    rooms: Map<Seq<char>, Seq<MemberModel>>,
    connection: ConnectionModel,
    event: EventModel,
)
    requires
        event is NonText || event == EventModel::Text(None) || (event is Closed
            && connection.joined is None),
    ensures
        ({
            let step = socket_step(rooms, connection, event);
            &&& step.rooms == rooms
            &&& step.connection == connection
            &&& step.sent.len() == 0
        }),
{
}

/// The relay sees what happens on a socket as it is: every field of a message as the client
/// sent it.
pub proof fn events_are_seen_as_they_are(event: SocketEvent)
    ensures
        match event {
            SocketEvent::Text(Some(ClientMessage::Join { code, peer_id, name })) => event@
                == EventModel::Text(
                Some(ClientModel::Join { code: code@, peer_id: peer_id@, name: name@ }),
            ),
            SocketEvent::Text(
                Some(ClientMessage::Signal { code, target_peer_id, kind, data }),
            ) => event@ == EventModel::Text(
                Some(
                    ClientModel::Signal {
                        code: code@,
                        target_peer_id: if target_peer_id is Some {
                            Some(target_peer_id.unwrap()@)
                        } else {
                            None
                        },
                        kind: kind@,
                        data: data@,
                    },
                ),
            ),
            SocketEvent::Text(None) => event@ == EventModel::Text(None),
            SocketEvent::NonText => event@ == EventModel::NonText,
            SocketEvent::Closed => event@ == EventModel::Closed,
        },
{
}

/// The relay sees a connection as it is.
pub proof fn connections_are_seen_as_they_are(connection: Connection)
    ensures
        connection@.id == connection.id,
        connection.joined is None <==> connection@.joined is None,
        connection.joined matches Some((code, peer_id)) ==> connection@.joined == Some(
            (code@, peer_id@),
        ),
        forall|i: int|
            0 <= i < connection.earlier@.len() ==> connection@.earlier.contains(
                (#[trigger] connection.earlier@[i])@,
            ),
        forall|code: Seq<char>| #[trigger]
            connection@.earlier.contains(code) ==> exists|i: int|
                0 <= i < connection.earlier@.len() && (#[trigger] connection.earlier@[i])@ == code,
{
    let codes = connection.earlier@.map_values(|code: String| code@);
    assert forall|i: int| 0 <= i < connection.earlier@.len() implies connection@.earlier.contains(
        (#[trigger] connection.earlier@[i])@,
    ) by {
        assert(codes[i] == connection.earlier@[i]@);
        assert(codes.contains(codes[i]));
    }
    assert forall|code: Seq<char>| #[trigger] connection@.earlier.contains(code) implies exists|
        i: int,
    |
        0 <= i < connection.earlier@.len() && (#[trigger] connection.earlier@[i])@ == code by {
        assert(codes.contains(code));
        let i = choose|i: int| 0 <= i < codes.len() && codes[i] == code;
        assert(connection.earlier@[i]@ == code);
    }
}

/// What is sent when somebody enters a group: to the newcomer, who is in it, each by the
/// peer id and the name that it has there; to everybody in it with another peer id, who
/// came.
pub proof fn welcomes_name_everybody(room: Seq<MemberModel>, member: MemberModel)
    ensures
        ({
            let sent = welcome(room, member);
            let told = room.filter(|m: MemberModel| m.peer_id != member.peer_id);
            &&& sent.len() == told.len() + 1
            &&& sent[0].to == member.connection
            &&& match received(sent[0].text) {
                Some(Received::Joined { peers }) => {
                    &&& peers.len() == room.len()
                    &&& forall|i: int| #![trigger peers[i]]
                        0 <= i < room.len() ==> peers[i].peer_id == room[i].peer_id
                            && peers[i].name == room[i].name
                },
                _ => false,
            }
            &&& forall|i: int| #![trigger sent[i + 1]]
                0 <= i < told.len() ==> sent[i + 1].to == told[i].connection && received(
                    sent[i + 1].text,
                ) == Some(Received::PeerJoined { peer_id: member.peer_id, name: member.name })
        }),
{
    lemma_filter_is_others(room, member.peer_id, |m: MemberModel| m.peer_id != member.peer_id);
    clients_receive_what_was_sent(ServerModel::Joined { peers: roster(room) });
    clients_receive_what_was_sent(
        ServerModel::PeerJoined { peer_id: member.peer_id, name: member.name },
    );
}

} // verus!
