//! The relay: who is connected under which pairing code, and who gets what.
//!
//! The relay groups its clients by pairing code. It does not know what the
//! messages are about: it passes on what a client sends to the member of the
//! group that the message names, or to everybody else in the group. It only does
//! so between clients under the same pairing code: what a client sends into a
//! group that it did not join is dropped.
//!
//! Every connection has a number, and a [`Delivery`] says which text goes to
//! which connection. Sockets are the caller's business.

use crate::group::{
    called, departed, distinct, entered, fan_out, has_peer, lemma_called, lemma_called_nobody,
    lemma_others_is_remove, lemma_others_members, lemma_others_of_strangers, lemma_seated, members,
    other_than, others, seated, valid, DeliveryModel, MemberModel,
};
use crate::table::Table;
use crate::wire::{
    json, json_text, peers_model, text_model, ClientMessage, ClientModel, PeerInfo, PeerModel,
    ServerMessage, ServerModel,
};
use vstd::prelude::*;

verus! {

/// A client in a group.
pub struct Member {
    pub peer_id: String,
    pub name: String,
    pub connection: u64,
}

impl View for Member {
    type V = MemberModel;

    open spec fn view(&self) -> MemberModel {
        MemberModel { peer_id: self.peer_id@, name: self.name@, connection: self.connection }
    }
}

/// The contents of a group.
pub open spec fn room_model(room: Seq<Member>) -> Seq<MemberModel> {
    room.map_values(|m: Member| m@)
}

/// A text for a connection.
pub struct Delivery {
    pub to: u64,
    pub text: String,
}

impl View for Delivery {
    type V = DeliveryModel;

    open spec fn view(&self) -> DeliveryModel {
        DeliveryModel { to: self.to, text: self.text@ }
    }
}

/// The contents of a list of deliveries.
pub open spec fn deliveries_model(deliveries: Seq<Delivery>) -> Seq<DeliveryModel> {
    deliveries.map_values(|d: Delivery| d@)
}

/// The groups of connected clients, by pairing code.
pub struct RelayState {
    rooms: Table<Vec<Member>>,
}

impl View for RelayState {
    type V = Map<Seq<char>, Seq<MemberModel>>;

    closed spec fn view(&self) -> Map<Seq<char>, Seq<MemberModel>> {
        self.rooms@.map_values(|room: Vec<Member>| room_model(room@))
    }
}

impl Default for RelayState {
    fn default() -> (state: Self)
        ensures
            state@ == Map::<Seq<char>, Seq<MemberModel>>::empty(),
    {
        let rooms: Table<Vec<Member>> = Table::new();
        assert(rooms@.map_values(|room: Vec<Member>| room_model(room@)) =~= Map::empty());
        RelayState { rooms }
    }
}

impl RelayState {
    #[verifier::type_invariant]
    spec fn inv(&self) -> bool {
        valid(self@)
    }
}

/// A list of deliveries is seen as it is: each with its connection and its text.
pub proof fn lemma_deliveries_seen(deliveries: Seq<Delivery>)
    ensures
        deliveries_model(deliveries).len() == deliveries.len(),
        forall|i: int| #![trigger deliveries[i]]
            0 <= i < deliveries.len() ==> deliveries[i].to == deliveries_model(deliveries)[i].to
                && deliveries[i].text@ == deliveries_model(deliveries)[i].text,
{
}

/// One text for every member of a group but the one called `except_peer_id`.
fn send_to_others(room: &Vec<Member>, except_peer_id: &String, payload: &String) -> (deliveries:
    Vec<Delivery>)
    ensures
        deliveries_model(deliveries@) == fan_out(
            others(room_model(room@), except_peer_id@),
            payload@,
        ),
{
    let ghost model = room_model(room@);
    let ghost other = other_than(except_peer_id@);
    let mut deliveries: Vec<Delivery> = Vec::new();
    assert(model.take(0).filter(other) =~= seq![]) by {
        reveal(Seq::filter);
    }
    let mut i: usize = 0;
    while i < room.len()
        invariant
            i <= room@.len(),
            model == room_model(room@),
            other == other_than(except_peer_id@),
            deliveries_model(deliveries@) == fan_out(model.take(i as int).filter(other), payload@),
        decreases room@.len() - i,
    {
        let ghost sent = deliveries_model(deliveries@);
        proof {
            reveal(Seq::filter);
            assert(model.take(i + 1).drop_last() =~= model.take(i as int));
        }
        if room[i].peer_id != *except_peer_id {
            deliveries.push(Delivery { to: room[i].connection, text: payload.clone() });
            assert(deliveries_model(deliveries@) =~= sent.push(
                DeliveryModel { to: model[i as int].connection, text: payload@ },
            ));
            assert(fan_out(model.take(i + 1).filter(other), payload@) =~= sent.push(
                DeliveryModel { to: model[i as int].connection, text: payload@ },
            ));
        }
        i = i + 1;
    }
    assert(model.take(room@.len() as int) =~= model);
    deliveries
}

/// One text for everybody in the group of a pairing code but the member called
/// `except_peer_id`.
pub fn broadcast_except(
    state: &RelayState,
    code: &str,
    except_peer_id: &str,
    payload: &str,
) -> (deliveries: Vec<Delivery>)
    ensures
        deliveries_model(deliveries@) == fan_out(
            others(members(state@, code@), except_peer_id@),
            payload@,
        ),
        !state@.contains_key(code@) ==> deliveries@.len() == 0,
        state@.contains_key(code@) ==> deliveries@.len() == state@[code@].filter(
            |m: MemberModel| m.peer_id != except_peer_id@,
        ).len(),
        forall|i: int| #![trigger deliveries@[i]]
            0 <= i < deliveries@.len() ==> deliveries@[i].to == state@[code@].filter(
                |m: MemberModel| m.peer_id != except_peer_id@,
            )[i].connection && deliveries@[i].text@ == payload@,
{
    let deliveries = match state.rooms.get(&code.to_owned()) {
        Some(room) => send_to_others(room, &except_peer_id.to_owned(), &payload.to_owned()),
        None => {
            let deliveries: Vec<Delivery> = Vec::new();
            proof {
                reveal(Seq::filter);
            }
            assert(deliveries_model(deliveries@) =~= fan_out(
                others(members(state@, code@), except_peer_id@),
                payload@,
            ));
            deliveries
        },
    };
    proof {
        let other = |m: MemberModel| m.peer_id != except_peer_id@;
        assert(other =~= other_than(except_peer_id@));
        lemma_deliveries_seen(deliveries@);
    }
    deliveries
}

/// What the others see of the members of a group.
pub open spec fn roster(room: Seq<MemberModel>) -> Seq<PeerModel> {
    room.map_values(|m: MemberModel| PeerModel { peer_id: m.peer_id, name: m.name })
}

/// Who a signal goes to: the member that it names, or everybody but its sender.
pub open spec fn addressed(
    room: Seq<MemberModel>,
    target: Option<Seq<char>>,
    from: Seq<char>,
) -> Seq<MemberModel> {
    match target {
        Some(peer_id) => called(room, peer_id),
        None => others(room, from),
    }
}

/// What is sent when `member` enters a group: the members so far to the
/// newcomer, the newcomer to everybody else.
pub open spec fn welcome(room: Seq<MemberModel>, member: MemberModel) -> Seq<DeliveryModel> {
    seq![
        DeliveryModel {
            to: member.connection,
            text: json_text(ServerModel::Joined { peers: roster(room) }),
        },
    ] + fan_out(
        others(room, member.peer_id),
        json_text(ServerModel::PeerJoined { peer_id: member.peer_id, name: member.name }),
    )
}

/// Lists the members of a group.
fn list_peers(room: &Vec<Member>) -> (peers: Vec<PeerInfo>)
    ensures
        peers_model(peers@) == roster(room_model(room@)),
{
    let mut peers: Vec<PeerInfo> = Vec::new();
    let mut i: usize = 0;
    while i < room.len()
        invariant
            i <= room@.len(),
            peers@.len() == i,
            forall|j: int|
                0 <= j < i ==> (#[trigger] peers@[j])@ == (PeerModel {
                    peer_id: room@[j].peer_id@,
                    name: room@[j].name@,
                }),
        decreases room@.len() - i,
    {
        peers.push(PeerInfo { peer_id: room[i].peer_id.clone(), name: room[i].name.clone() });
        i = i + 1;
    }
    assert(peers_model(peers@) =~= roster(room_model(room@)));
    peers
}

/// Where a group has the peer id, if it does.
fn find_peer(room: &Vec<Member>, peer_id: &String) -> (found: Option<usize>)
    ensures
        found is Some <==> has_peer(room_model(room@), peer_id@),
        found matches Some(i) ==> i < room@.len() && room@[i as int].peer_id@ == peer_id@,
{
    let ghost model = room_model(room@);
    let mut i: usize = 0;
    while i < room.len()
        invariant
            i <= room@.len(),
            model == room_model(room@),
            forall|j: int| 0 <= j < i ==> (#[trigger] model[j]).peer_id != peer_id@,
        decreases room@.len() - i,
    {
        assert(model[i as int].peer_id == room@[i as int].peer_id@);
        if room[i].peer_id == *peer_id {
            return Some(i);
        }
        i = i + 1;
    }
    None
}

/// Puts a member into a group.
fn seat(room: &mut Vec<Member>, member: Member)
    requires
        distinct(room_model(old(room)@)),
    ensures
        room_model(final(room)@) == seated(room_model(old(room)@), member@),
{
    let ghost before = room_model(room@);
    match find_peer(room, &member.peer_id) {
        Some(i) => {
            room.remove(i);
            room.insert(i, member);
            assert(before[i as int].peer_id == member@.peer_id);
            assert(room_model(room@) =~= seated(before, member@));
        },
        None => {
            room.push(member);
            assert(room_model(room@) =~= seated(before, member@));
        },
    }
}

impl RelayState {
    /// Enters a client into the group of a pairing code, in place of a member
    /// with the same peer id.
    pub fn join(&mut self, connection: u64, code: &String, peer_id: &String, name: &String) -> (
    deliveries: Vec<Delivery>)
        ensures
            final(self)@ == entered(
                old(self)@,
                code@,
                (MemberModel { peer_id: peer_id@, name: name@, connection }),
            ),
            valid(final(self)@),
            deliveries_model(deliveries@) == welcome(
                members(old(self)@, code@),
                (MemberModel { peer_id: peer_id@, name: name@, connection }),
            ),
            deliveries@.len() == deliveries_model(deliveries@).len(),
            forall|i: int| #![trigger deliveries@[i]]
                0 <= i < deliveries@.len() ==> deliveries@[i].to == deliveries_model(
                    deliveries@,
                )[i].to && deliveries@[i].text@ == deliveries_model(deliveries@)[i].text,
    {
        proof {
            use_type_invariant(&*self);
        }
        let ghost before = self@;
        let ghost member = MemberModel { peer_id: peer_id@, name: name@, connection };
        let mut rooms: Table<Vec<Member>> = Table::new();
        std::mem::swap(&mut rooms, &mut self.rooms);
        let mut room = match rooms.remove(code) {
            Some(room) => room,
            None => Vec::new(),
        };
        assert(room_model(room@) =~= members(before, code@));
        let peers = list_peers(&room);
        seat(
            &mut room,
            Member { peer_id: peer_id.clone(), name: name.clone(), connection },
        );
        rooms.insert(code.clone(), room);
        proof {
            lemma_seated(members(before, code@), member);
            let model = rooms@.map_values(|room: Vec<Member>| room_model(room@));
            assert(model =~= entered(before, code@, member));
        }
        self.rooms = rooms;
        let mut deliveries: Vec<Delivery> = Vec::new();
        deliveries.push(Delivery { to: connection, text: json(&ServerMessage::Joined { peers }) });
        let announcement = json(
            &ServerMessage::PeerJoined { peer_id: peer_id.clone(), name: name.clone() },
        );
        let ghost first = deliveries_model(deliveries@);
        let mut rest = broadcast_except(
            self,
            code.as_str(),
            peer_id.as_str(),
            announcement.as_str(),
        );
        let ghost second = deliveries_model(rest@);
        deliveries.append(&mut rest);
        assert(deliveries_model(deliveries@) =~= first + second);
        proof {
            lemma_deliveries_seen(deliveries@);
        }
        deliveries
    }

    /// Passes a signal on: to the member that it names, or to everybody in the
    /// group of its pairing code but its sender.
    fn signal(
        &self,
        from_peer_id: &String,
        code: &String,
        target_peer_id: &Option<String>,
        kind: String,
        data: String,
    ) -> (deliveries: Vec<Delivery>)
        ensures
            deliveries_model(deliveries@) == fan_out(
                addressed(members(self@, code@), text_model(*target_peer_id), from_peer_id@),
                json_text(
                    ServerModel::Signal { from_peer_id: from_peer_id@, kind: kind@, data: data@ },
                ),
            ),
    {
        proof {
            use_type_invariant(self);
        }
        let payload = json(
            &ServerMessage::Signal { from_peer_id: from_peer_id.clone(), kind, data },
        );
        let ghost room_now = members(self@, code@);
        match target_peer_id {
            Some(target) => {
                let mut deliveries: Vec<Delivery> = Vec::new();
                match self.rooms.get(code) {
                    Some(room) => {
                        match find_peer(room, target) {
                            Some(i) => {
                                proof {
                                    lemma_called(room_now, i as int);
                                }
                                deliveries.push(
                                    Delivery { to: room[i].connection, text: payload },
                                );
                            },
                            None => {
                                proof {
                                    lemma_called_nobody(room_now, target@);
                                }
                            },
                        }
                    },
                    None => {
                        proof {
                            lemma_called_nobody(room_now, target@);
                        }
                    },
                }
                assert(deliveries_model(deliveries@) =~= fan_out(
                    called(room_now, target@),
                    payload@,
                ));
                deliveries
            },
            None => broadcast_except(
                self,
                code.as_str(),
                from_peer_id.as_str(),
                payload.as_str(),
            ),
        }
    }

    /// Takes a member out of the group of a pairing code, and tells those who
    /// are left.
    pub fn leave(&mut self, code: &String, peer_id: &String) -> (deliveries: Vec<Delivery>)
        ensures
            final(self)@ == departed(old(self)@, code@, peer_id@),
            valid(final(self)@),
            deliveries_model(deliveries@) == fan_out(
                others(members(old(self)@, code@), peer_id@),
                json_text(ServerModel::PeerLeft { peer_id: peer_id@ }),
            ),
            deliveries@.len() == deliveries_model(deliveries@).len(),
            forall|i: int| #![trigger deliveries@[i]]
                0 <= i < deliveries@.len() ==> deliveries@[i].to == deliveries_model(
                    deliveries@,
                )[i].to && deliveries@[i].text@ == deliveries_model(deliveries@)[i].text,
    {
        proof {
            use_type_invariant(&*self);
        }
        let ghost before = self@;
        let ghost room_then = members(before, code@);
        proof {
            lemma_others_members(room_then, peer_id@);
        }
        let left = json(&ServerMessage::PeerLeft { peer_id: peer_id.clone() });
        let deliveries = broadcast_except(self, code.as_str(), peer_id.as_str(), left.as_str());
        let mut rooms: Table<Vec<Member>> = Table::new();
        std::mem::swap(&mut rooms, &mut self.rooms);
        match rooms.remove(code) {
            Some(mut room) => {
                match find_peer(&room, peer_id) {
                    Some(i) => {
                        proof {
                            lemma_others_is_remove(room_then, i as int);
                        }
                        room.remove(i);
                    },
                    None => {
                        proof {
                            lemma_others_of_strangers(room_then, peer_id@);
                        }
                    },
                }
                assert(room_model(room@) =~= others(room_then, peer_id@));
                if room.len() > 0 {
                    rooms.insert(code.clone(), room);
                }
            },
            None => {
                proof {
                    lemma_others_of_strangers(room_then, peer_id@);
                }
            },
        }
        proof {
            let model = rooms@.map_values(|room: Vec<Member>| room_model(room@));
            assert(model =~= departed(before, code@, peer_id@));
        }
        self.rooms = rooms;
        proof {
            lemma_deliveries_seen(deliveries@);
        }
        deliveries
    }
}

/// The relay's side of a connection: its number, the pairing code and peer id
/// that it last joined with, and the pairing codes that it joined under before.
pub struct Connection {
    pub id: u64,
    pub joined: Option<(String, String)>,
    pub earlier: Vec<String>,
}

/// The content of a `Connection`.
#[verifier::ext_equal]
pub struct ConnectionModel {
    pub id: u64,
    pub joined: Option<(Seq<char>, Seq<char>)>,
    pub earlier: Set<Seq<char>>,
}

/// The contents of a list of pairing codes.
pub open spec fn codes_model(codes: Seq<String>) -> Set<Seq<char>> {
    codes.map_values(|code: String| code@).to_set()
}

impl View for Connection {
    type V = ConnectionModel;

    open spec fn view(&self) -> ConnectionModel {
        ConnectionModel {
            id: self.id,
            joined: match self.joined {
                Some((code, peer_id)) => Some((code@, peer_id@)),
                None => None,
            },
            earlier: codes_model(self.earlier@),
        }
    }
}

/// Whether a connection joined under a pairing code.
pub open spec fn joined_under(connection: ConnectionModel, code: Seq<char>) -> bool {
    ||| connection.joined matches Some((last, _)) && last == code
    ||| connection.earlier.contains(code)
}

/// The pairing codes that a connection joined under, all told.
pub open spec fn all_codes(connection: ConnectionModel) -> Set<Seq<char>> {
    match connection.joined {
        Some((last, _)) => connection.earlier.insert(last),
        None => connection.earlier,
    }
}

impl Connection {
    /// A connection that has not joined a group yet.
    pub fn new(id: u64) -> (connection: Self)
        ensures
            connection@ == (ConnectionModel { id, joined: None, earlier: Set::empty() }),
            connection.id == id,
            connection.joined is None,
            connection.earlier@.len() == 0,
    {
        let connection = Connection { id, joined: None, earlier: Vec::new() };
        assert(connection@.earlier =~= Set::empty());
        connection
    }

    /// Whether a pairing code is among those that the connection joined under before
    /// its last.
    fn has_earlier(&self, code: &String) -> (found: bool)
        ensures
            found == self@.earlier.contains(code@),
    {
        let ghost model = self.earlier@.map_values(|code: String| code@);
        let mut i: usize = 0;
        while i < self.earlier.len()
            invariant
                i <= self.earlier@.len(),
                model == self.earlier@.map_values(|code: String| code@),
                forall|j: int| 0 <= j < i ==> #[trigger] model[j] != code@,
            decreases self.earlier@.len() - i,
        {
            assert(model[i as int] == self.earlier@[i as int]@);
            if self.earlier[i] == *code {
                return true;
            }
            i = i + 1;
        }
        false
    }

    /// Whether the connection joined under a pairing code.
    pub fn is_under(&self, code: &String) -> (under: bool)
        ensures
            under == joined_under(self@, code@),
            under <==> (self.joined is Some && self.joined.unwrap().0@ == code@)
                || self@.earlier.contains(code@),
    {
        let last = match &self.joined {
            Some((last, _)) => *last == *code,
            None => false,
        };
        last || self.has_earlier(code)
    }

    /// Takes down that the connection joined.
    fn record(&mut self, code: String, peer_id: String)
        ensures
            final(self)@ == (ConnectionModel {
                id: old(self)@.id,
                joined: Some((code@, peer_id@)),
                earlier: all_codes(old(self)@),
            }),
    {
        let ghost before = self@;
        let mut joined = Some((code, peer_id));
        std::mem::swap(&mut joined, &mut self.joined);
        if let Some((last, _)) = joined {
            if !self.has_earlier(&last) {
                let ghost codes = self.earlier@.map_values(|code: String| code@);
                self.earlier.push(last);
                proof {
                    assert(self.earlier@.map_values(|code: String| code@) =~= codes.push(last@));
                    assert(codes.push(last@).to_set() =~= codes.to_set().insert(last@)) by {
                        assert(codes.push(last@)[codes.len() as int] == last@);
                        assert forall|c: Seq<char>| codes.contains(c) implies #[trigger] codes.push(
                            last@,
                        ).contains(c) by {
                            let i = choose|i: int| 0 <= i < codes.len() && codes[i] == c;
                            assert(codes.push(last@)[i] == c);
                        }
                    }
                }
            } else {
                assert(before.earlier.insert(last@) =~= before.earlier);
            }
        }
        assert(self@.earlier =~= all_codes(before));
    }
}

/// What happens on a socket.
pub enum SocketEvent {
    /// A text arrived; `None` if it is no message of a client.
    Text(Option<ClientMessage>),
    /// Something other than a text arrived.
    NonText,
    /// The socket was closed or failed.
    Closed,
}

/// The content of a `SocketEvent`.
#[verifier::ext_equal]
pub enum EventModel {
    Text(Option<ClientModel>),
    NonText,
    Closed,
}

impl View for SocketEvent {
    type V = EventModel;

    open spec fn view(&self) -> EventModel {
        match *self {
            SocketEvent::Text(Some(message)) => EventModel::Text(Some(message@)),
            SocketEvent::Text(None) => EventModel::Text(None),
            SocketEvent::NonText => EventModel::NonText,
            SocketEvent::Closed => EventModel::Closed,
        }
    }
}

/// The groups, the connection and what is sent, after an event on a socket.
#[verifier::ext_equal]
pub struct Outcome {
    pub rooms: Map<Seq<char>, Seq<MemberModel>>,
    pub connection: ConnectionModel,
    pub sent: Seq<DeliveryModel>,
}

/// What an event on a socket does. A signal is passed on only where its sender
/// joined under the pairing code that it names.
pub open spec fn socket_step(
    rooms: Map<Seq<char>, Seq<MemberModel>>,
    connection: ConnectionModel,
    event: EventModel,
) -> Outcome {
    match (event, connection.joined) {
        (EventModel::Text(Some(ClientModel::Join { code, peer_id, name })), _) => {
            let member = MemberModel { peer_id, name, connection: connection.id };
            Outcome {
                rooms: entered(rooms, code, member),
                connection: ConnectionModel {
                    id: connection.id,
                    joined: Some((code, peer_id)),
                    earlier: all_codes(connection),
                },
                sent: welcome(members(rooms, code), member),
            }
        },
        (
            EventModel::Text(Some(ClientModel::Signal { code, target_peer_id, kind, data })),
            Some((_, from_peer_id)),
        ) => Outcome {
            rooms,
            connection,
            sent: if joined_under(connection, code) {
                fan_out(
                    addressed(members(rooms, code), target_peer_id, from_peer_id),
                    json_text(ServerModel::Signal { from_peer_id, kind, data }),
                )
            } else {
                seq![]
            },
        },
        (EventModel::Closed, Some((code, peer_id))) => Outcome {
            rooms: departed(rooms, code, peer_id),
            connection: ConnectionModel { joined: None, ..connection },
            sent: fan_out(
                others(members(rooms, code), peer_id),
                json_text(ServerModel::PeerLeft { peer_id }),
            ),
        },
        _ => Outcome { rooms, connection, sent: seq![] },
    }
}

/// Serves one event on a socket. The result is what to send; a connection is
/// served until it is closed.
pub fn handle_socket(
    connection: &mut Connection,
    state: &mut RelayState,
    event: SocketEvent,
) -> (deliveries: Vec<Delivery>)
    ensures
        socket_step(old(state)@, old(connection)@, event@) == (Outcome {
            rooms: final(state)@,
            connection: final(connection)@,
            sent: deliveries_model(deliveries@),
        }),
        valid(final(state)@),
        deliveries@.len() == socket_step(old(state)@, old(connection)@, event@).sent.len(),
        forall|i: int| #![trigger deliveries@[i]]
            0 <= i < deliveries@.len() ==> {
                let sent = socket_step(old(state)@, old(connection)@, event@).sent;
                deliveries@[i].to == sent[i].to && deliveries@[i].text@ == sent[i].text
            },
        final(connection).id == old(connection).id,
{
    proof {
        use_type_invariant(&*state);
    }
    let mut deliveries: Vec<Delivery> = Vec::new();
    assert(deliveries_model(deliveries@) =~= seq![]);
    match event {
        SocketEvent::Text(Some(ClientMessage::Join { code, peer_id, name })) => {
            deliveries = state.join(connection.id, &code, &peer_id, &name);
            connection.record(code, peer_id);
        },
        SocketEvent::Text(
            Some(ClientMessage::Signal { code, target_peer_id, kind, data }),
        ) => {
            let under = connection.is_under(&code);
            if let Some((_, from_peer_id)) = &connection.joined {
                if under {
                    deliveries = state.signal(from_peer_id, &code, &target_peer_id, kind, data);
                }
            }
        },
        SocketEvent::Closed => {
            if let Some((code, peer_id)) = &connection.joined {
                deliveries = state.leave(code, peer_id);
            }
            connection.joined = None;
        },
        _ => {},
    }
    proof {
        lemma_deliveries_seen(deliveries@);
    }
    deliveries
}

} // verus!
