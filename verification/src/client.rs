//! The messages of the relay, as a client sees them.

use crate::message_laws::{messages_read_back, peer_value, peers_value};
use crate::reader::{json_value, Json};
use crate::wire::{carries_json, json_text, PeerModel, ServerModel};
use vstd::prelude::*;

verus! {

/// What stands under a key of an object: the first member of that name.
pub open spec fn member(members: Seq<(Seq<char>, Json)>, key: Seq<char>) -> Option<Json>
    decreases members.len(),
{
    if members.len() == 0 {
        None
    } else if members[0].0 == key {
        Some(members[0].1)
    } else {
        member(members.drop_first(), key)
    }
}

/// The text that stands under a key of an object.
pub open spec fn text_member(members: Seq<(Seq<char>, Json)>, key: Seq<char>) -> Option<Seq<char>> {
    match member(members, key) {
        Some(Json::Text(s)) => Some(s),
        _ => None,
    }
}

/// The peer that a value stands for.
pub open spec fn peer_of(value: Json) -> Option<PeerModel> {
    match value {
        Json::Object(members) => match (
            text_member(members, "peer_id"@),
            text_member(members, "name"@),
        ) {
            (Some(peer_id), Some(name)) => Some(PeerModel { peer_id, name }),
            _ => None,
        },
        _ => None,
    }
}

/// The peers that a value stands for.
pub open spec fn peers_of(value: Json) -> Option<Seq<PeerModel>> {
    match value {
        Json::Array(items) => if forall|i: int|
            0 <= i < items.len() ==> peer_of(#[trigger] items[i]) is Some {
            Some(items.map_values(|item: Json| peer_of(item).unwrap()))
        } else {
            None
        },
        _ => None,
    }
}

/// A message as a client sees it: what a signal carries is a value, not a text.
pub enum Received {
    Joined { peers: Seq<PeerModel> },
    PeerJoined { peer_id: Seq<char>, name: Seq<char> },
    PeerLeft { peer_id: Seq<char> },
    Signal { from_peer_id: Seq<char>, kind: Seq<char>, data: Json },
}

/// What a client makes of the members of an object: it goes by `type`, and looks the
/// other fields up by their names.
pub open spec fn message_of(members: Seq<(Seq<char>, Json)>) -> Option<Received> {
    match text_member(members, "type"@) {
        Some(kind) => if kind == "joined"@ {
            match member(members, "peers"@) {
                Some(list) => match peers_of(list) {
                    Some(peers) => Some(Received::Joined { peers }),
                    None => None,
                },
                None => None,
            }
        } else if kind == "peerJoined"@ {
            match (text_member(members, "peer_id"@), text_member(members, "name"@)) {
                (Some(peer_id), Some(name)) => Some(Received::PeerJoined { peer_id, name }),
                _ => None,
            }
        } else if kind == "peerLeft"@ {
            match text_member(members, "peer_id"@) {
                Some(peer_id) => Some(Received::PeerLeft { peer_id }),
                None => None,
            }
        } else if kind == "signal"@ {
            match (
                text_member(members, "from_peer_id"@),
                text_member(members, "kind"@),
                member(members, "data"@),
            ) {
                (Some(from_peer_id), Some(kind), Some(data)) => Some(
                    Received::Signal { from_peer_id, kind, data },
                ),
                _ => None,
            }
        } else {
            None
        },
        None => None,
    }
}

/// What a client makes of a text.
pub open spec fn received(text: Seq<char>) -> Option<Received> {
    match json_value(text) {
        Some(Json::Object(members)) => message_of(members),
        _ => None,
    }
}

/// A message as a client is to see it.
pub open spec fn as_received(message: ServerModel) -> Received {
    match message {
        ServerModel::Joined { peers } => Received::Joined { peers },
        ServerModel::PeerJoined { peer_id, name } => Received::PeerJoined { peer_id, name },
        ServerModel::PeerLeft { peer_id } => Received::PeerLeft { peer_id },
        ServerModel::Signal { from_peer_id, kind, data } => Received::Signal {
            from_peer_id,
            kind,
            data: json_value(data).unwrap(),
        },
    }
}

/// The kinds of messages differ.
proof fn lemma_kinds_differ()
    ensures
        "joined"@ != "peerJoined"@,
        "joined"@ != "peerLeft"@,
        "joined"@ != "signal"@,
        "peerJoined"@ != "peerLeft"@,
        "peerJoined"@ != "signal"@,
        "peerLeft"@ != "signal"@,
{
    reveal_strlit("joined");
    reveal_strlit("peerJoined");
    reveal_strlit("peerLeft");
    reveal_strlit("signal");
    assert("joined"@.len() == 6 && "signal"@.len() == 6 && "joined"@[0] != "signal"@[0]);
    assert("peerJoined"@.len() == 10 && "peerLeft"@.len() == 8);
}

/// The keys of messages differ.
proof fn lemma_keys_differ()
    ensures
        "type"@ != "peers"@,
        "type"@ != "peer_id"@,
        "type"@ != "name"@,
        "type"@ != "from_peer_id"@,
        "type"@ != "kind"@,
        "type"@ != "data"@,
        "peer_id"@ != "name"@,
        "from_peer_id"@ != "kind"@,
        "from_peer_id"@ != "data"@,
        "kind"@ != "data"@,
{
    reveal_strlit("type");
    reveal_strlit("peers");
    reveal_strlit("peer_id");
    reveal_strlit("name");
    reveal_strlit("from_peer_id");
    reveal_strlit("kind");
    reveal_strlit("data");
    assert("type"@[0] == 't' && "name"@[0] == 'n' && "kind"@[0] == 'k' && "data"@[0] == 'd');
}

/// A peer is seen in its value.
proof fn lemma_peer_is_seen(peer: PeerModel)
    ensures
        peer_of(peer_value(peer)) == Some(peer),
{
    let members = seq![("peer_id"@, Json::Text(peer.peer_id)), ("name"@, Json::Text(peer.name))];
    lemma_keys_differ();
    assert(member(members, "peer_id"@) == Some(Json::Text(peer.peer_id)));
    assert(members.drop_first()[0] == ("name"@, Json::Text(peer.name)));
    assert(member(members.drop_first(), "name"@) == Some(Json::Text(peer.name)));
}

/// A list of peers is seen in its value.
proof fn lemma_peers_are_seen(peers: Seq<PeerModel>)
    ensures
        peers_of(peers_value(peers)) == Some(peers),
{
    let items = peers.map_values(|peer: PeerModel| peer_value(peer));
    assert forall|i: int| 0 <= i < items.len() implies peer_of(#[trigger] items[i]) == Some(
        peers[i],
    ) by {
        lemma_peer_is_seen(peers[i]);
    }
    assert(items.map_values(|item: Json| peer_of(item).unwrap()) =~= peers);
}

/// What a client makes of the text of a message is the message.
pub proof fn clients_receive_what_was_sent(message: ServerModel)
    requires
        carries_json(message),
    ensures
        received(json_text(message)) == Some(as_received(message)),
        match message {
            ServerModel::Joined { peers } => received(json_text(message)) == Some(
                Received::Joined { peers },
            ),
            ServerModel::PeerJoined { peer_id, name } => received(json_text(message)) == Some(
                Received::PeerJoined { peer_id, name },
            ),
            ServerModel::PeerLeft { peer_id } => received(json_text(message)) == Some(
                Received::PeerLeft { peer_id },
            ),
            ServerModel::Signal { from_peer_id, kind, data } => received(json_text(message))
                == Some(
                Received::Signal { from_peer_id, kind, data: json_value(data).unwrap() },
            ),
        },
{
    messages_read_back(message);
    lemma_kinds_differ();
    lemma_keys_differ();
    reveal_with_fuel(member, 5);
    if let ServerModel::Joined { peers } = message {
        lemma_peers_are_seen(peers);
    }
}

} // verus!
