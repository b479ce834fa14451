//! The messages that travel between the relay and its clients.

use crate::reader::json_value;
use vstd::prelude::*;
use vstd::string::*;

verus! {

/// What a client sends.
///
/// The payload of a signal is opaque to the relay: `data` is its JSON text.
pub enum ClientMessage {
    /// Enter the group of a pairing code under a peer id and a display name.
    Join { code: String, peer_id: String, name: String },
    /// Pass `kind` and `data` on to one member of a group, or to all others.
    Signal { code: String, target_peer_id: Option<String>, kind: String, data: String },
}

/// A member of a group, as the others see it.
pub struct PeerInfo {
    pub peer_id: String,
    pub name: String,
}

/// What the relay sends.
pub enum ServerMessage {
    /// Answers a client's own join: who was in the group before.
    Joined { peers: Vec<PeerInfo> },
    /// Somebody else entered the group.
    PeerJoined { peer_id: String, name: String },
    /// Somebody else's connection ended.
    PeerLeft { peer_id: String },
    /// A signal from somebody else; `data` is the JSON text that they sent.
    Signal { from_peer_id: String, kind: String, data: String },
}

/// The content of a message of a client.
#[verifier::ext_equal]
pub enum ClientModel {
    Join { code: Seq<char>, peer_id: Seq<char>, name: Seq<char> },
    Signal {
        code: Seq<char>,
        target_peer_id: Option<Seq<char>>,
        kind: Seq<char>,
        data: Seq<char>,
    },
}

/// The content of an optional text.
pub open spec fn text_model(text: Option<String>) -> Option<Seq<char>> {
    match text {
        Some(s) => Some(s@),
        None => None,
    }
}

impl View for ClientMessage {
    type V = ClientModel;

    open spec fn view(&self) -> ClientModel {
        match *self {
            ClientMessage::Join { code, peer_id, name } => ClientModel::Join {
                code: code@,
                peer_id: peer_id@,
                name: name@,
            },
            ClientMessage::Signal { code, target_peer_id, kind, data } => ClientModel::Signal {
                code: code@,
                target_peer_id: text_model(target_peer_id),
                kind: kind@,
                data: data@,
            },
        }
    }
}

/// A peer id and a display name.
#[verifier::ext_equal]
pub struct PeerModel {
    pub peer_id: Seq<char>,
    pub name: Seq<char>,
}

/// The content of a message of the relay.
#[verifier::ext_equal]
pub enum ServerModel {
    Joined { peers: Seq<PeerModel> },
    PeerJoined { peer_id: Seq<char>, name: Seq<char> },
    PeerLeft { peer_id: Seq<char> },
    Signal { from_peer_id: Seq<char>, kind: Seq<char>, data: Seq<char> },
}

impl View for PeerInfo {
    type V = PeerModel;

    open spec fn view(&self) -> PeerModel {
        PeerModel { peer_id: self.peer_id@, name: self.name@ }
    }
}

/// The contents of a list of peers.
pub open spec fn peers_model(peers: Seq<PeerInfo>) -> Seq<PeerModel> {
    peers.map_values(|p: PeerInfo| p@)
}

impl View for ServerMessage {
    type V = ServerModel;

    open spec fn view(&self) -> ServerModel {
        match *self {
            ServerMessage::Joined { peers } => ServerModel::Joined { peers: peers_model(peers@) },
            ServerMessage::PeerJoined { peer_id, name } => ServerModel::PeerJoined {
                peer_id: peer_id@,
                name: name@,
            },
            ServerMessage::PeerLeft { peer_id } => ServerModel::PeerLeft { peer_id: peer_id@ },
            ServerMessage::Signal { from_peer_id, kind, data } => ServerModel::Signal {
                from_peer_id: from_peer_id@,
                kind: kind@,
                data: data@,
            },
        }
    }
}

/// How one character stands inside a JSON string.
pub open spec fn json_escape(c: char) -> Seq<char> {
    if c == '"' {
        seq!['\\', '"']
    } else if c == '\\' {
        seq!['\\', '\\']
    } else if c == '\u{8}' {
        seq!['\\', 'b']
    } else if c == '\u{c}' {
        seq!['\\', 'f']
    } else if c == '\n' {
        seq!['\\', 'n']
    } else if c == '\r' {
        seq!['\\', 'r']
    } else if c == '\t' {
        seq!['\\', 't']
    } else if (c as int) < 32 {
        seq![
            '\\',
            'u',
            '0',
            '0',
            "0123456789abcdef"@[c as int / 16],
            "0123456789abcdef"@[c as int % 16],
        ]
    } else {
        seq![c]
    }
}

/// `json_escape` as a value.
pub open spec fn json_escaper() -> spec_fn(char) -> Seq<char> {
    |c: char| json_escape(c)
}

/// The JSON string that stands for a text.
pub open spec fn json_string(s: Seq<char>) -> Seq<char> {
    seq!['"'] + s.flat_map(json_escaper()) + seq!['"']
}

/// The JSON object that stands for a peer.
pub open spec fn peer_text(peer: PeerModel) -> Seq<char> {
    "{\"peer_id\":"@ + json_string(peer.peer_id) + ",\"name\":"@ + json_string(peer.name) + "}"@
}

/// A peer that follows another in a list.
pub open spec fn next_peer_text() -> spec_fn(PeerModel) -> Seq<char> {
    |peer: PeerModel| ","@ + peer_text(peer)
}

/// The items of the JSON array that stands for a list of peers.
pub open spec fn peers_text(peers: Seq<PeerModel>) -> Seq<char> {
    if peers.len() == 0 {
        seq![]
    } else {
        peer_text(peers[0]) + peers.drop_first().flat_map(next_peer_text())
    }
}

/// The JSON text of a message.
pub open spec fn json_text(message: ServerModel) -> Seq<char> {
    match message {
        ServerModel::Joined { peers } => "{\"type\":\"joined\",\"peers\":["@ + peers_text(peers)
            + "]}"@,
        ServerModel::PeerJoined { peer_id, name } => "{\"type\":\"peerJoined\",\"peer_id\":"@
            + json_string(peer_id) + ",\"name\":"@ + json_string(name) + "}"@,
        ServerModel::PeerLeft { peer_id } => "{\"type\":\"peerLeft\",\"peer_id\":"@ + json_string(
            peer_id,
        ) + "}"@,
        ServerModel::Signal { from_peer_id, kind, data } =>
            "{\"type\":\"signal\",\"from_peer_id\":"@ + json_string(from_peer_id) + ",\"kind\":"@
            + json_string(kind) + ",\"data\":"@ + data + "}"@,
    }
}

/// A signal's `data` is the JSON text of some value. The other messages hold no such
/// text.
pub open spec fn carries_json(message: ServerModel) -> bool {
    match message {
        ServerModel::Signal { data, .. } => json_value(data) is Some,
        _ => true,
    }
}

/// Writes a text as a JSON string.
///
/// Calls `serde_json::to_string` on a `str`. Trusted: the result is the text
/// between double quotes, with `"` and `\` preceded by a backslash, with the
/// short escapes for backspace, form feed, line feed, carriage return and tab,
/// with every other control character below U+0020 as `\u00` and two lower-case
/// hexadecimal digits, and with every other character as it is; writing a
/// `str` to memory never fails.
#[verifier::external_body]
fn json_quote(s: &str) -> (text: String)
    ensures
        text@ == json_string(s@),
{
    serde_json::to_string(s).unwrap_or_default()
}

/// Adds the JSON object that stands for a peer to `out`.
fn write_peer(out: &mut String, peer: &PeerInfo)
    ensures
        final(out)@ == old(out)@ + peer_text(peer@),
{
    out.append("{\"peer_id\":");
    out.append(json_quote(peer.peer_id.as_str()).as_str());
    out.append(",\"name\":");
    out.append(json_quote(peer.name.as_str()).as_str());
    out.append("}");
    assert(out@ =~= old(out)@ + peer_text(peer@));
}

/// Adds the items of the JSON array that stands for a list of peers to `out`.
fn write_peers(out: &mut String, peers: &Vec<PeerInfo>)
    ensures
        final(out)@ == old(out)@ + peers_text(peers_model(peers@)),
{
    let ghost all = peers_model(peers@);
    if peers.len() > 0 {
        write_peer(out, &peers[0]);
        let ghost rest = all.drop_first();
        let ghost head = old(out)@ + peer_text(all[0]);
        assert(rest.take(0).flat_map(next_peer_text()) =~= seq![]);
        let mut i: usize = 1;
        while i < peers.len()
            invariant
                1 <= i <= peers@.len(),
                all == peers_model(peers@),
                rest == all.drop_first(),
                out@ == head + rest.take(i - 1).flat_map(next_peer_text()),
            decreases peers@.len() - i,
        {
            out.append(",");
            write_peer(out, &peers[i]);
            proof {
                rest.lemma_flat_map_take_append(next_peer_text(), i - 1);
                assert(rest[i - 1] == peers@[i as int]@);
                assert(out@ =~= head + rest.take(i as int).flat_map(next_peer_text()));
            }
            i = i + 1;
        }
        assert(rest.take(peers@.len() - 1) =~= rest);
        assert(out@ =~= old(out)@ + peers_text(all));
    }
}

/// Writes a message as JSON.
pub fn json(value: &ServerMessage) -> (text: String)
    ensures
        text@ == json_text(value@),
{
    let mut text = String::new();
    match value {
        ServerMessage::Joined { peers } => {
            text.append("{\"type\":\"joined\",\"peers\":[");
            write_peers(&mut text, peers);
            text.append("]}");
        },
        ServerMessage::PeerJoined { peer_id, name } => {
            text.append("{\"type\":\"peerJoined\",\"peer_id\":");
            text.append(json_quote(peer_id.as_str()).as_str());
            text.append(",\"name\":");
            text.append(json_quote(name.as_str()).as_str());
            text.append("}");
        },
        ServerMessage::PeerLeft { peer_id } => {
            text.append("{\"type\":\"peerLeft\",\"peer_id\":");
            text.append(json_quote(peer_id.as_str()).as_str());
            text.append("}");
        },
        ServerMessage::Signal { from_peer_id, kind, data } => {
            text.append("{\"type\":\"signal\",\"from_peer_id\":");
            text.append(json_quote(from_peer_id.as_str()).as_str());
            text.append(",\"kind\":");
            text.append(json_quote(kind.as_str()).as_str());
            text.append(",\"data\":");
            text.append(data.as_str());
            text.append("}");
        },
    }
    assert(text@ =~= json_text(value@));
    text
}

} // verus!
