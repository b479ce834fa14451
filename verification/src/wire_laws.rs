//! What holds of the texts that the relay sends.

use crate::text::lemma_flat_map_first;
use crate::wire::{
    json_escape, json_escaper, json_string, json_text, next_peer_text, peer_text, peers_text,
    PeerModel, ServerMessage, ServerModel,
};
use vstd::prelude::*;

verus! {

/// The hexadecimal digits are told apart by the number that they stand for.
proof fn lemma_hex_digits(a: int, b: int)
    requires
        0 <= a < 16,
        0 <= b < 16,
        "0123456789abcdef"@[a] == "0123456789abcdef"@[b],
    ensures
        a == b,
{
    reveal_strlit("0123456789abcdef");
}

/// An escaped character starts with no double quote, and what two characters
/// are escaped to begins alike only for the same character.
proof fn lemma_escape_told_apart(a: char, b: char, u: Seq<char>, v: Seq<char>)
    requires
        json_escape(a) + u == json_escape(b) + v,
    ensures
        a == b,
        u == v,
{
    let left = json_escape(a) + u;
    let right = json_escape(b) + v;
    assert(left[0] == json_escape(a)[0]);
    assert(right[0] == json_escape(b)[0]);
    if json_escape(a).len() > 1 && json_escape(b).len() > 1 {
        assert(left[1] == json_escape(a)[1]);
        assert(right[1] == json_escape(b)[1]);
        if json_escape(a).len() > 2 && json_escape(b).len() > 2 {
            assert(left[4] == json_escape(a)[4]);
            assert(right[4] == json_escape(b)[4]);
            assert(left[5] == json_escape(a)[5]);
            assert(right[5] == json_escape(b)[5]);
            lemma_hex_digits(a as int / 16, b as int / 16);
            lemma_hex_digits(a as int % 16, b as int % 16);
        }
    }
    assert(a == b);
    assert(u =~= left.skip(json_escape(a).len() as int));
    assert(v =~= right.skip(json_escape(b).len() as int));
}

/// The escaped characters of a text end at the first double quote that is not
/// escaped.
proof fn lemma_body_told_apart(s: Seq<char>, t: Seq<char>, u: Seq<char>, v: Seq<char>)
    requires
        s.flat_map(json_escaper()) + seq!['"'] + u == t.flat_map(json_escaper()) + seq!['"'] + v,
    ensures
        s == t,
        u == v,
    decreases s.len(),
{
    let left = s.flat_map(json_escaper()) + seq!['"'] + u;
    let right = t.flat_map(json_escaper()) + seq!['"'] + v;
    if s.len() == 0 && t.len() == 0 {
        assert(s =~= t);
        assert(u =~= left.skip(1));
        assert(v =~= right.skip(1));
    } else if s.len() == 0 {
        lemma_flat_map_first(t, json_escaper());
        assert(left[0] == '"');
        assert(right[0] == json_escape(t[0])[0]);
    } else if t.len() == 0 {
        lemma_flat_map_first(s, json_escaper());
        assert(right[0] == '"');
        assert(left[0] == json_escape(s[0])[0]);
    } else {
        lemma_flat_map_first(s, json_escaper());
        lemma_flat_map_first(t, json_escaper());
        let s_rest = s.drop_first().flat_map(json_escaper()) + seq!['"'] + u;
        let t_rest = t.drop_first().flat_map(json_escaper()) + seq!['"'] + v;
        assert(left =~= json_escape(s[0]) + s_rest);
        assert(right =~= json_escape(t[0]) + t_rest);
        lemma_escape_told_apart(s[0], t[0], s_rest, t_rest);
        lemma_body_told_apart(s.drop_first(), t.drop_first(), u, v);
        assert(s =~= seq![s[0]] + s.drop_first());
        assert(t =~= seq![t[0]] + t.drop_first());
    }
}

/// A JSON string is unambiguous, whatever follows it: where it ends, and which
/// text it stands for, is settled by the string itself. So no name or id that a
/// client sends can end its own string early.
pub proof fn json_string_is_unambiguous(s: Seq<char>, t: Seq<char>, u: Seq<char>, v: Seq<char>)
    requires
        json_string(s) + u == json_string(t) + v,
    ensures
        s == t,
        u == v,
{
    let left = json_string(s) + u;
    let right = json_string(t) + v;
    assert(left.skip(1) =~= s.flat_map(json_escaper()) + seq!['"'] + u);
    assert(right.skip(1) =~= t.flat_map(json_escaper()) + seq!['"'] + v);
    lemma_body_told_apart(s, t, u, v);
}

/// Texts with the same beginning are told apart by what follows it.
proof fn lemma_same_beginning(p: Seq<char>, u: Seq<char>, v: Seq<char>)
    requires
        p + u == p + v,
    ensures
        u == v,
{
    assert(u =~= (p + u).skip(p.len() as int));
    assert(v =~= (p + v).skip(p.len() as int));
}

/// A string behind a fixed beginning is unambiguous, whatever follows it.
proof fn lemma_field_told_apart(
    p: Seq<char>,
    s: Seq<char>,
    t: Seq<char>,
    u: Seq<char>,
    v: Seq<char>,
)
    requires
        p + (json_string(s) + u) == p + (json_string(t) + v),
    ensures
        s == t,
        u == v,
{
    lemma_same_beginning(p, json_string(s) + u, json_string(t) + v);
    json_string_is_unambiguous(s, t, u, v);
}

/// The JSON object of a peer is unambiguous, whatever follows it.
proof fn lemma_peer_told_apart(a: PeerModel, b: PeerModel, u: Seq<char>, v: Seq<char>)
    requires
        peer_text(a) + u == peer_text(b) + v,
    ensures
        a == b,
        u == v,
{
    let open = "{\"peer_id\":"@;
    let middle = ",\"name\":"@;
    let close = "}"@;
    let a_rest = middle + (json_string(a.name) + (close + u));
    let b_rest = middle + (json_string(b.name) + (close + v));
    assert(peer_text(a) + u =~= open + (json_string(a.peer_id) + a_rest));
    assert(peer_text(b) + v =~= open + (json_string(b.peer_id) + b_rest));
    lemma_field_told_apart(open, a.peer_id, b.peer_id, a_rest, b_rest);
    lemma_field_told_apart(middle, a.name, b.name, close + u, close + v);
    lemma_same_beginning(close, u, v);
}

/// The peers that follow the first one in a list are unambiguous.
proof fn lemma_next_peers_told_apart(s: Seq<PeerModel>, t: Seq<PeerModel>)
    requires
        s.flat_map(next_peer_text()) + "]}"@ == t.flat_map(next_peer_text()) + "]}"@,
    ensures
        s == t,
    decreases s.len(),
{
    reveal_strlit("]}");
    reveal_strlit(",");
    let left = s.flat_map(next_peer_text()) + "]}"@;
    let right = t.flat_map(next_peer_text()) + "]}"@;
    if s.len() > 0 {
        lemma_flat_map_first(s, next_peer_text());
        assert(left[0] == ',');
    }
    if t.len() > 0 {
        lemma_flat_map_first(t, next_peer_text());
        assert(right[0] == ',');
    }
    if s.len() == 0 {
        assert(left[0] == ']');
    }
    if t.len() == 0 {
        assert(right[0] == ']');
    }
    if s.len() > 0 {
        let s_rest = s.drop_first().flat_map(next_peer_text()) + "]}"@;
        let t_rest = t.drop_first().flat_map(next_peer_text()) + "]}"@;
        assert(left =~= ","@ + (peer_text(s[0]) + s_rest));
        assert(right =~= ","@ + (peer_text(t[0]) + t_rest));
        lemma_same_beginning(","@, peer_text(s[0]) + s_rest, peer_text(t[0]) + t_rest);
        lemma_peer_told_apart(s[0], t[0], s_rest, t_rest);
        lemma_next_peers_told_apart(s.drop_first(), t.drop_first());
        assert(s =~= seq![s[0]] + s.drop_first());
        assert(t =~= seq![t[0]] + t.drop_first());
    } else {
        assert(s =~= t);
    }
}

/// A list of peers is unambiguous.
proof fn lemma_peers_told_apart(s: Seq<PeerModel>, t: Seq<PeerModel>)
    requires
        peers_text(s) + "]}"@ == peers_text(t) + "]}"@,
    ensures
        s == t,
{
    reveal_strlit("]}");
    reveal_strlit("{\"peer_id\":");
    let left = peers_text(s) + "]}"@;
    let right = peers_text(t) + "]}"@;
    if s.len() == 0 {
        assert(left[0] == ']');
    } else {
        assert(left[0] == '{');
    }
    if t.len() == 0 {
        assert(right[0] == ']');
    } else {
        assert(right[0] == '{');
    }
    if s.len() > 0 {
        let s_rest = s.drop_first().flat_map(next_peer_text()) + "]}"@;
        let t_rest = t.drop_first().flat_map(next_peer_text()) + "]}"@;
        assert(left =~= peer_text(s[0]) + s_rest);
        assert(right =~= peer_text(t[0]) + t_rest);
        lemma_peer_told_apart(s[0], t[0], s_rest, t_rest);
        lemma_next_peers_told_apart(s.drop_first(), t.drop_first());
        assert(s =~= seq![s[0]] + s.drop_first());
        assert(t =~= seq![t[0]] + t.drop_first());
    } else {
        assert(s =~= t);
    }
}

/// The two letters by which the kinds of messages are told apart.
spec fn kind_letters(message: ServerModel) -> (char, char) {
    match message {
        ServerModel::Joined { .. } => ('j', '"'),
        ServerModel::PeerJoined { .. } => ('p', 'J'),
        ServerModel::PeerLeft { .. } => ('p', 'L'),
        ServerModel::Signal { .. } => ('s', '"'),
    }
}

/// The text of a message has the letters of its kind in their place.
proof fn lemma_kind_letters(message: ServerModel)
    ensures
        json_text(message).len() > 13,
        json_text(message)[9] == kind_letters(message).0,
        message is PeerJoined || message is PeerLeft ==> json_text(message)[13] == kind_letters(
            message,
        ).1,
{
    reveal_strlit("{\"type\":\"joined\",\"peers\":[");
    reveal_strlit("{\"type\":\"peerJoined\",\"peer_id\":");
    reveal_strlit("{\"type\":\"peerLeft\",\"peer_id\":");
    reveal_strlit("{\"type\":\"signal\",\"from_peer_id\":");
}

/// The text of the answer to a join is unambiguous.
proof fn lemma_joined_told_apart(s: Seq<PeerModel>, t: Seq<PeerModel>)
    requires
        json_text(ServerModel::Joined { peers: s }) == json_text(ServerModel::Joined { peers: t }),
    ensures
        s == t,
{
    let open = "{\"type\":\"joined\",\"peers\":["@;
    let a = json_text(ServerModel::Joined { peers: s });
    let b = json_text(ServerModel::Joined { peers: t });
    assert(a =~= open + (peers_text(s) + "]}"@));
    assert(b =~= open + (peers_text(t) + "]}"@));
    lemma_same_beginning(open, peers_text(s) + "]}"@, peers_text(t) + "]}"@);
    lemma_peers_told_apart(s, t);
}

/// The text that announces a newcomer is unambiguous.
proof fn lemma_peer_joined_told_apart(
    a_id: Seq<char>,
    a_name: Seq<char>,
    b_id: Seq<char>,
    b_name: Seq<char>,
)
    requires
        json_text(ServerModel::PeerJoined { peer_id: a_id, name: a_name }) == json_text(
            ServerModel::PeerJoined { peer_id: b_id, name: b_name },
        ),
    ensures
        a_id == b_id,
        a_name == b_name,
{
    let open = "{\"type\":\"peerJoined\",\"peer_id\":"@;
    let middle = ",\"name\":"@;
    let close = "}"@;
    let a = json_text(ServerModel::PeerJoined { peer_id: a_id, name: a_name });
    let b = json_text(ServerModel::PeerJoined { peer_id: b_id, name: b_name });
    let a_rest = middle + (json_string(a_name) + close);
    let b_rest = middle + (json_string(b_name) + close);
    assert(a =~= open + (json_string(a_id) + a_rest));
    assert(b =~= open + (json_string(b_id) + b_rest));
    lemma_field_told_apart(open, a_id, b_id, a_rest, b_rest);
    lemma_field_told_apart(middle, a_name, b_name, close, close);
}

/// The text about a departure is unambiguous.
proof fn lemma_peer_left_told_apart(a_id: Seq<char>, b_id: Seq<char>)
    requires
        json_text(ServerModel::PeerLeft { peer_id: a_id }) == json_text(
            ServerModel::PeerLeft { peer_id: b_id },
        ),
    ensures
        a_id == b_id,
{
    let open = "{\"type\":\"peerLeft\",\"peer_id\":"@;
    let close = "}"@;
    let a = json_text(ServerModel::PeerLeft { peer_id: a_id });
    let b = json_text(ServerModel::PeerLeft { peer_id: b_id });
    assert(a =~= open + (json_string(a_id) + close));
    assert(b =~= open + (json_string(b_id) + close));
    lemma_field_told_apart(open, a_id, b_id, close, close);
}

/// The text of a signal is unambiguous.
proof fn lemma_signal_told_apart(
    a_from: Seq<char>,
    a_kind: Seq<char>,
    a_data: Seq<char>,
    b_from: Seq<char>,
    b_kind: Seq<char>,
    b_data: Seq<char>,
)
    requires
        json_text(ServerModel::Signal { from_peer_id: a_from, kind: a_kind, data: a_data })
            == json_text(
            ServerModel::Signal { from_peer_id: b_from, kind: b_kind, data: b_data },
        ),
    ensures
        a_from == b_from,
        a_kind == b_kind,
        a_data == b_data,
{
    let open = "{\"type\":\"signal\",\"from_peer_id\":"@;
    let kind = ",\"kind\":"@;
    let data = ",\"data\":"@;
    let close = "}"@;
    let a = json_text(ServerModel::Signal { from_peer_id: a_from, kind: a_kind, data: a_data });
    let b = json_text(ServerModel::Signal { from_peer_id: b_from, kind: b_kind, data: b_data });
    let a_data_on = data + (a_data + close);
    let b_data_on = data + (b_data + close);
    let a_kind_on = kind + (json_string(a_kind) + a_data_on);
    let b_kind_on = kind + (json_string(b_kind) + b_data_on);
    assert(a =~= open + (json_string(a_from) + a_kind_on));
    assert(b =~= open + (json_string(b_from) + b_kind_on));
    lemma_field_told_apart(open, a_from, b_from, a_kind_on, b_kind_on);
    lemma_field_told_apart(kind, a_kind, b_kind, a_data_on, b_data_on);
    lemma_same_beginning(data, a_data + close, b_data + close);
    assert((a_data + close).len() == (b_data + close).len());
    assert(a_data =~= (a_data + close).take(a_data.len() as int));
    assert(b_data =~= (b_data + close).take(b_data.len() as int));
}

/// The text of a message is unambiguous: different messages have different
/// texts, whatever names, ids and data they carry.
pub proof fn json_is_unambiguous(a: ServerModel, b: ServerModel)
    requires
        json_text(a) == json_text(b),
    ensures
        a == b,
{
    lemma_kind_letters(a);
    lemma_kind_letters(b);
    match (a, b) {
        (ServerModel::Joined { peers: s }, ServerModel::Joined { peers: t }) => {
            lemma_joined_told_apart(s, t);
        },
        (
            ServerModel::PeerJoined { peer_id: a_id, name: a_name },
            ServerModel::PeerJoined { peer_id: b_id, name: b_name },
        ) => {
            lemma_peer_joined_told_apart(a_id, a_name, b_id, b_name);
        },
        (ServerModel::PeerLeft { peer_id: a_id }, ServerModel::PeerLeft { peer_id: b_id }) => {
            lemma_peer_left_told_apart(a_id, b_id);
        },
        (
            ServerModel::Signal { from_peer_id: a_from, kind: a_kind, data: a_data },
            ServerModel::Signal { from_peer_id: b_from, kind: b_kind, data: b_data },
        ) => {
            lemma_signal_told_apart(a_from, a_kind, a_data, b_from, b_kind, b_data);
        },
        _ => {},
    }
}

/// A message is seen as it is: every field as it was given.
pub proof fn messages_are_seen_as_they_are(message: ServerMessage)
    ensures
        match message {
            ServerMessage::Joined { peers } => match message@ {
                ServerModel::Joined { peers: seen } => {
                    &&& seen.len() == peers@.len()
                    &&& forall|i: int| #![trigger seen[i]]
                        0 <= i < seen.len() ==> seen[i].peer_id == peers@[i].peer_id@
                            && seen[i].name == peers@[i].name@
                },
                _ => false,
            },
            ServerMessage::PeerJoined { peer_id, name } => message@ == (ServerModel::PeerJoined {
                peer_id: peer_id@,
                name: name@,
            }),
            ServerMessage::PeerLeft { peer_id } => message@ == (ServerModel::PeerLeft {
                peer_id: peer_id@,
            }),
            ServerMessage::Signal { from_peer_id, kind, data } => message@
                == (ServerModel::Signal {
                from_peer_id: from_peer_id@,
                kind: kind@,
                data: data@,
            }),
        },
{
}

/// What a signal carries stands in its text as it came, character by character, in front of
/// the closing brace; and what comes before it does not depend on it.
pub proof fn signals_carry_their_data_as_it_came(
    from_peer_id: Seq<char>,
    kind: Seq<char>,
    data: Seq<char>,
)
    ensures
        ({
            let without = json_text(ServerModel::Signal { from_peer_id, kind, data: seq![] });
            &&& without.len() > 0
            &&& json_text(ServerModel::Signal { from_peer_id, kind, data }) == without.drop_last()
                + data + seq!['}']
        }),
{
    let without = json_text(ServerModel::Signal { from_peer_id, kind, data: seq![] });
    let head = "{\"type\":\"signal\",\"from_peer_id\":"@ + json_string(from_peer_id)
        + ",\"kind\":"@ + json_string(kind) + ",\"data\":"@;
    assert("}"@ =~= seq!['}']) by {
        reveal_strlit("}");
    }
    assert(without =~= head + seq!['}']);
    assert(without.drop_last() =~= head);
    assert(json_text(ServerModel::Signal { from_peer_id, kind, data }) =~= head + data + seq!['}']);
}

} // verus!
