//! The messages of the relay read back: what a client finds in a text is what the
//! relay put into it.

use crate::reader::{
    begins_with, four_digits, hex_digit, is_space, json_value, read_escape, read_items,
    read_members, read_string, read_unicode, read_value, skip_space, Json,
};
use crate::reader_laws::lemma_value_before;
use crate::text::lemma_flat_map_first;
use crate::wire::{
    carries_json, json_escape, json_escaper, json_string, json_text, next_peer_text, peer_text,
    peers_text, PeerModel, ServerModel,
};
use vstd::prelude::*;

verus! {

/// The value of a JSON object that stands for a peer.
pub open spec fn peer_value(peer: PeerModel) -> Json {
    Json::Object(seq![("peer_id"@, Json::Text(peer.peer_id)), ("name"@, Json::Text(peer.name))])
}

/// The value of the JSON array that stands for a list of peers.
pub open spec fn peers_value(peers: Seq<PeerModel>) -> Json {
    Json::Array(peers.map_values(|peer: PeerModel| peer_value(peer)))
}

/// The value of a message: an object whose `type` names the kind of the message. What
/// a signal carries is in it as the value that its text stands for.
pub open spec fn message_value(message: ServerModel) -> Json {
    Json::Object(
        match message {
            ServerModel::Joined { peers } => seq![
                ("type"@, Json::Text("joined"@)),
                ("peers"@, peers_value(peers)),
            ],
            ServerModel::PeerJoined { peer_id, name } => seq![
                ("type"@, Json::Text("peerJoined"@)),
                ("peer_id"@, Json::Text(peer_id)),
                ("name"@, Json::Text(name)),
            ],
            ServerModel::PeerLeft { peer_id } => seq![
                ("type"@, Json::Text("peerLeft"@)),
                ("peer_id"@, Json::Text(peer_id)),
            ],
            ServerModel::Signal { from_peer_id, kind, data } => seq![
                ("type"@, Json::Text("signal"@)),
                ("from_peer_id"@, Json::Text(from_peer_id)),
                ("kind"@, Json::Text(kind)),
                ("data"@, json_value(data).unwrap()),
            ],
        },
    )
}

/// The hexadecimal digits stand for their places.
proof fn lemma_hex_digit(i: int)
    requires
        0 <= i < 16,
    ensures
        hex_digit("0123456789abcdef"@[i]) == i,
{
    reveal_strlit("0123456789abcdef");
}

/// A control character reads back from its four digits.
proof fn lemma_control_reads_back(c: char, rest: Seq<char>)
    requires
        (c as int) < 32,
    ensures
        read_unicode(
            seq![
                '0',
                '0',
                "0123456789abcdef"@[c as int / 16],
                "0123456789abcdef"@[c as int % 16],
            ] + rest,
        ) == Some((c, rest)),
{
    let high = "0123456789abcdef"@[c as int / 16];
    let low = "0123456789abcdef"@[c as int % 16];
    let s = seq!['0', '0', high, low] + rest;
    lemma_hex_digit(c as int / 16);
    lemma_hex_digit(c as int % 16);
    assert(hex_digit('0') == 0);
    assert(s[0] == '0' && s[1] == '0' && s[2] == high && s[3] == low);
    assert(four_digits(s) == Some(c as int));
    assert(s.skip(4) =~= rest);
    assert((c as int) as char == c);
}

/// A character reads back from how it stands in a string.
proof fn lemma_escape_reads_back(c: char, rest: Seq<char>)
    ensures
        read_string(json_escape(c) + rest) == match read_string(rest) {
            Some((text, after)) => Some((seq![c] + text, after)),
            None => None,
        },
{
    let s = json_escape(c) + rest;
    let behind = s.skip(1);
    assert(s[0] == json_escape(c)[0]);
    if json_escape(c).len() == 1 {
        assert(behind =~= rest);
    } else if json_escape(c).len() == 2 {
        assert(behind =~= seq![json_escape(c)[1]] + rest);
        assert(behind.skip(1) =~= rest);
        assert(read_escape(behind) == Some((c, rest)));
    } else {
        let digits = seq![
            '0',
            '0',
            "0123456789abcdef"@[c as int / 16],
            "0123456789abcdef"@[c as int % 16],
        ];
        assert(behind =~= seq!['u'] + (digits + rest));
        assert(behind.skip(1) =~= digits + rest);
        lemma_control_reads_back(c, rest);
        assert(read_escape(behind) == Some((c, rest)));
    }
}

/// A text reads back from its string.
proof fn lemma_body_reads_back(s: Seq<char>, t: Seq<char>)
    ensures
        read_string(s.flat_map(json_escaper()) + (seq!['"'] + t)) == Some((s, t)),
    decreases s.len(),
{
    let close = seq!['"'] + t;
    if s.len() == 0 {
        assert(s.flat_map(json_escaper()) + close =~= close);
        assert(close.skip(1) =~= t);
        assert(s =~= seq![]);
    } else {
        let more = s.drop_first().flat_map(json_escaper()) + close;
        lemma_flat_map_first(s, json_escaper());
        assert(s.flat_map(json_escaper()) + close =~= json_escape(s[0]) + more);
        lemma_body_reads_back(s.drop_first(), t);
        lemma_escape_reads_back(s[0], more);
        assert(seq![s[0]] + s.drop_first() =~= s);
    }
}

/// A JSON string reads back behind its opening quote.
proof fn lemma_string_reads_back(s: Seq<char>, t: Seq<char>)
    ensures
        begins_with(json_string(s) + t, '"'),
        read_string((json_string(s) + t).skip(1)) == Some((s, t)),
{
    lemma_body_reads_back(s, t);
    assert((json_string(s) + t).skip(1) =~= s.flat_map(json_escaper()) + (seq!['"'] + t));
}

/// A JSON string is the value that it stands for.
proof fn lemma_text_reads_back(s: Seq<char>, t: Seq<char>)
    requires
        t.len() == 0 || !is_space(t[0]),
    ensures
        read_value(json_string(s) + t) == Some((Json::Text(s), t)),
{
    lemma_string_reads_back(s, t);
}

/// A member reads back before another one.
proof fn lemma_member_before_member(
    key: Seq<char>,
    text: Seq<char>,
    value: Json,
    more: Seq<char>,
    members: Seq<(Seq<char>, Json)>,
    t: Seq<char>,
)
    requires
        read_value(text + (seq![','] + more)) == Some((value, seq![','] + more)),
        read_members(more) == Some((members, t)),
    ensures
        read_members(json_string(key) + (seq![':'] + (text + (seq![','] + more)))) == Some(
            (seq![(key, value)] + members, t),
        ),
{
    let rest = seq![','] + more;
    let colon = seq![':'] + (text + rest);
    lemma_string_reads_back(key, colon);
    assert(colon.skip(1) =~= text + rest);
    assert(rest.skip(1) =~= more);
    assert(skip_space(colon) == colon);
}

/// A member reads back before the end of its object.
proof fn lemma_member_before_end(key: Seq<char>, text: Seq<char>, value: Json, t: Seq<char>)
    requires
        read_value(text + (seq!['}'] + t)) == Some((value, seq!['}'] + t)),
    ensures
        read_members(json_string(key) + (seq![':'] + (text + (seq!['}'] + t)))) == Some(
            (seq![(key, value)], t),
        ),
{
    let rest = seq!['}'] + t;
    let colon = seq![':'] + (text + rest);
    lemma_string_reads_back(key, colon);
    assert(colon.skip(1) =~= text + rest);
    assert(rest.skip(1) =~= t);
    assert(skip_space(colon) == colon);
}

/// An object reads back from its members.
proof fn lemma_object_reads_back(
    inner: Seq<char>,
    members: Seq<(Seq<char>, Json)>,
    t: Seq<char>,
)
    requires
        begins_with(inner, '"'),
        read_members(inner) == Some((members, t)),
        t.len() == 0 || !is_space(t[0]),
    ensures
        read_value(seq!['{'] + inner) == Some((Json::Object(members), t)),
{
    let s = seq!['{'] + inner;
    assert(s.skip(1) =~= inner);
    assert(skip_space(inner) == inner);
    assert(skip_space(t) == t);
}

/// A text without quotes, backslashes and control characters stands in its string
/// as it is.
proof fn lemma_plain_string(s: Seq<char>)
    requires
        forall|i: int|
            0 <= i < s.len() ==> #[trigger] s[i] != '"' && s[i] != '\\' && (s[i] as int) >= 32,
    ensures
        s.flat_map(json_escaper()) == s,
    decreases s.len(),
{
    if s.len() > 0 {
        lemma_flat_map_first(s, json_escaper());
        lemma_plain_string(s.drop_first());
        assert(json_escape(s[0]) =~= seq![s[0]]);
    }
    assert(s.flat_map(json_escaper()) =~= s);
}

/// The keys and the kinds of the messages stand in quotes as they are.
proof fn lemma_words_are_plain()
    ensures
        json_string("type"@) == "\"type\""@,
        json_string("joined"@) == "\"joined\""@,
        json_string("peerJoined"@) == "\"peerJoined\""@,
        json_string("peerLeft"@) == "\"peerLeft\""@,
        json_string("signal"@) == "\"signal\""@,
        json_string("peers"@) == "\"peers\""@,
        json_string("peer_id"@) == "\"peer_id\""@,
        json_string("name"@) == "\"name\""@,
        json_string("from_peer_id"@) == "\"from_peer_id\""@,
        json_string("kind"@) == "\"kind\""@,
        json_string("data"@) == "\"data\""@,
{
    assert(json_string("type"@) =~= "\"type\""@) by {
        reveal_strlit("type");
        reveal_strlit("\"type\"");
        lemma_plain_string("type"@);
    }
    assert(json_string("joined"@) =~= "\"joined\""@) by {
        reveal_strlit("joined");
        reveal_strlit("\"joined\"");
        lemma_plain_string("joined"@);
    }
    assert(json_string("peerJoined"@) =~= "\"peerJoined\""@) by {
        reveal_strlit("peerJoined");
        reveal_strlit("\"peerJoined\"");
        lemma_plain_string("peerJoined"@);
    }
    assert(json_string("peerLeft"@) =~= "\"peerLeft\""@) by {
        reveal_strlit("peerLeft");
        reveal_strlit("\"peerLeft\"");
        lemma_plain_string("peerLeft"@);
    }
    assert(json_string("signal"@) =~= "\"signal\""@) by {
        reveal_strlit("signal");
        reveal_strlit("\"signal\"");
        lemma_plain_string("signal"@);
    }
    assert(json_string("peers"@) =~= "\"peers\""@) by {
        reveal_strlit("peers");
        reveal_strlit("\"peers\"");
        lemma_plain_string("peers"@);
    }
    assert(json_string("peer_id"@) =~= "\"peer_id\""@) by {
        reveal_strlit("peer_id");
        reveal_strlit("\"peer_id\"");
        lemma_plain_string("peer_id"@);
    }
    assert(json_string("name"@) =~= "\"name\""@) by {
        reveal_strlit("name");
        reveal_strlit("\"name\"");
        lemma_plain_string("name"@);
    }
    assert(json_string("from_peer_id"@) =~= "\"from_peer_id\""@) by {
        reveal_strlit("from_peer_id");
        reveal_strlit("\"from_peer_id\"");
        lemma_plain_string("from_peer_id"@);
    }
    assert(json_string("kind"@) =~= "\"kind\""@) by {
        reveal_strlit("kind");
        reveal_strlit("\"kind\"");
        lemma_plain_string("kind"@);
    }
    assert(json_string("data"@) =~= "\"data\""@) by {
        reveal_strlit("data");
        reveal_strlit("\"data\"");
        lemma_plain_string("data"@);
    }
}

/// The text of a peer, taken apart.
proof fn lemma_peer_text(peer: PeerModel, t: Seq<char>)
    ensures
        peer_text(peer) + t == seq!['{'] + (json_string("peer_id"@) + (seq![':'] + (json_string(
            peer.peer_id,
        ) + (seq![','] + (json_string("name"@) + (seq![':'] + (json_string(peer.name) + (seq!['}']
            + t)))))))),
{
    let id = json_string(peer.peer_id);
    let name = json_string(peer.name);
    lemma_words_are_plain();
    let first = json_string("peer_id"@);
    let second = json_string("name"@);
    assert("{\"peer_id\":"@ =~= seq!['{'] + first + seq![':']) by {
        reveal_strlit("{\"peer_id\":");
        reveal_strlit("\"peer_id\"");
    }
    assert(",\"name\":"@ =~= seq![','] + second + seq![':']) by {
        reveal_strlit(",\"name\":");
        reveal_strlit("\"name\"");
    }
    assert("}"@ =~= seq!['}']) by {
        reveal_strlit("}");
    }
    assert((seq!['{'] + first + seq![':']) + id + (seq![','] + second + seq![':']) + name
        + seq!['}'] + t =~= seq!['{'] + (first + (seq![':'] + (id + (seq![','] + (second + (
    seq![':'] + (name + (seq!['}'] + t)))))))));
}

/// A peer reads back from its text.
proof fn lemma_peer_reads_back(peer: PeerModel, t: Seq<char>)
    requires
        t.len() == 0 || !is_space(t[0]),
    ensures
        begins_with(peer_text(peer) + t, '{'),
        read_value(peer_text(peer) + t) == Some((peer_value(peer), t)),
{
    let end = seq!['}'] + t;
    let last = json_string("name"@) + (seq![':'] + (json_string(peer.name) + end));
    let rest = seq![','] + last;
    let inner = json_string("peer_id"@) + (seq![':'] + (json_string(peer.peer_id) + rest));
    lemma_peer_text(peer, t);
    lemma_text_reads_back(peer.name, end);
    lemma_member_before_end("name"@, json_string(peer.name), Json::Text(peer.name), t);
    lemma_text_reads_back(peer.peer_id, rest);
    lemma_member_before_member(
        "peer_id"@,
        json_string(peer.peer_id),
        Json::Text(peer.peer_id),
        last,
        seq![("name"@, Json::Text(peer.name))],
        t,
    );
    assert(seq![("peer_id"@, Json::Text(peer.peer_id))] + seq![("name"@, Json::Text(peer.name))]
        =~= seq![("peer_id"@, Json::Text(peer.peer_id)), ("name"@, Json::Text(peer.name))]);
    lemma_string_reads_back("peer_id"@, seq![':'] + (json_string(peer.peer_id) + rest));
    lemma_object_reads_back(
        inner,
        seq![("peer_id"@, Json::Text(peer.peer_id)), ("name"@, Json::Text(peer.name))],
        t,
    );
}

/// The items of a list of peers read back behind the opening bracket.
proof fn lemma_peers_read_back(peers: Seq<PeerModel>, t: Seq<char>)
    requires
        peers.len() > 0,
    ensures
        begins_with(peers_text(peers) + (seq![']'] + t), '{'),
        read_items(peers_text(peers) + (seq![']'] + t)) == Some(
            (peers.map_values(|peer: PeerModel| peer_value(peer)), t),
        ),
    decreases peers.len(),
{
    let end = seq![']'] + t;
    let more = peers.drop_first();
    let s = peers_text(peers) + end;
    let values = peers.map_values(|peer: PeerModel| peer_value(peer));
    if more.len() == 0 {
        assert(more.flat_map(next_peer_text()) =~= seq![]);
        assert(s =~= peer_text(peers[0]) + end);
        lemma_peer_reads_back(peers[0], end);
        assert(end.skip(1) =~= t);
        assert(values =~= seq![peer_value(peers[0])]);
    } else {
        let behind = peers_text(more) + end;
        let rest = seq![','] + behind;
        lemma_flat_map_first(more, next_peer_text());
        assert(","@ =~= seq![',']) by {
            reveal_strlit(",");
        }
        assert(s =~= peer_text(peers[0]) + rest);
        lemma_peer_reads_back(peers[0], rest);
        lemma_peers_read_back(more, t);
        assert(rest.skip(1) =~= behind);
        assert(values =~= seq![peer_value(peers[0])] + more.map_values(
            |peer: PeerModel| peer_value(peer),
        ));
    }
}

/// A list of peers reads back.
proof fn lemma_list_reads_back(peers: Seq<PeerModel>, t: Seq<char>)
    requires
        t.len() == 0 || !is_space(t[0]),
    ensures
        read_value(seq!['['] + peers_text(peers) + seq![']'] + t) == Some((peers_value(peers), t)),
{
    let s = seq!['['] + peers_text(peers) + seq![']'] + t;
    let inner = peers_text(peers) + (seq![']'] + t);
    assert(s =~= seq!['['] + inner);
    assert(s.skip(1) =~= inner);
    assert(skip_space(t) == t);
    if peers.len() == 0 {
        assert(inner =~= seq![']'] + t);
        assert(inner.skip(1) =~= t);
        assert(peers.map_values(|peer: PeerModel| peer_value(peer)) =~= seq![]);
    } else {
        lemma_peers_read_back(peers, t);
    }
    assert(skip_space(inner) == inner);
}

/// What opens a message: the brace, the kind under `type`, and the key of what follows.
spec fn opening(kind: Seq<char>, key: Seq<char>) -> Seq<char> {
    seq!['{'] + json_string("type"@) + seq![':'] + json_string(kind) + seq![','] + json_string(key)
        + seq![':']
}

/// A comma and the key of what follows.
spec fn next_key(key: Seq<char>) -> Seq<char> {
    seq![','] + json_string(key) + seq![':']
}

/// What opens a message, taken apart.
proof fn lemma_opening(kind: Seq<char>, key: Seq<char>, t: Seq<char>)
    ensures
        opening(kind, key) + t == seq!['{'] + (json_string("type"@) + (seq![':'] + (json_string(
            kind,
        ) + (seq![','] + (json_string(key) + (seq![':'] + t)))))),
{
}

/// A key and its value, taken apart.
proof fn lemma_next_key(key: Seq<char>, value: Seq<char>, t: Seq<char>)
    ensures
        next_key(key) + value + t == seq![','] + (json_string(key) + (seq![':'] + (value + t))),
{
}

/// The fixed parts of the texts.
proof fn lemma_fixed_parts()
    ensures
        "{\"type\":\"joined\",\"peers\":["@ == opening("joined"@, "peers"@) + seq!['['],
        "]}"@ == seq![']'] + seq!['}'],
        "{\"type\":\"peerJoined\",\"peer_id\":"@ == opening("peerJoined"@, "peer_id"@),
        "{\"type\":\"peerLeft\",\"peer_id\":"@ == opening("peerLeft"@, "peer_id"@),
        "{\"type\":\"signal\",\"from_peer_id\":"@ == opening("signal"@, "from_peer_id"@),
        ",\"name\":"@ == next_key("name"@),
        ",\"kind\":"@ == next_key("kind"@),
        ",\"data\":"@ == next_key("data"@),
        "}"@ == seq!['}'],
{
    lemma_words_are_plain();
    assert("]}"@ =~= seq![']'] + seq!['}']) by {
        reveal_strlit("]}");
    }
    assert("}"@ =~= seq!['}']) by {
        reveal_strlit("}");
    }
    assert("{\"type\":\"joined\",\"peers\":["@ =~= opening("joined"@, "peers"@) + seq!['[']) by {
        reveal_strlit("{\"type\":\"joined\",\"peers\":[");
        reveal_strlit("\"type\"");
        reveal_strlit("\"joined\"");
        reveal_strlit("\"peers\"");
    }
    assert("{\"type\":\"peerJoined\",\"peer_id\":"@ =~= opening("peerJoined"@, "peer_id"@)) by {
        reveal_strlit("{\"type\":\"peerJoined\",\"peer_id\":");
        reveal_strlit("\"type\"");
        reveal_strlit("\"peerJoined\"");
        reveal_strlit("\"peer_id\"");
    }
    assert("{\"type\":\"peerLeft\",\"peer_id\":"@ =~= opening("peerLeft"@, "peer_id"@)) by {
        reveal_strlit("{\"type\":\"peerLeft\",\"peer_id\":");
        reveal_strlit("\"type\"");
        reveal_strlit("\"peerLeft\"");
        reveal_strlit("\"peer_id\"");
    }
    assert("{\"type\":\"signal\",\"from_peer_id\":"@ =~= opening("signal"@, "from_peer_id"@)) by {
        reveal_strlit("{\"type\":\"signal\",\"from_peer_id\":");
        reveal_strlit("\"type\"");
        reveal_strlit("\"signal\"");
        reveal_strlit("\"from_peer_id\"");
    }
    assert(",\"name\":"@ =~= next_key("name"@)) by {
        reveal_strlit(",\"name\":");
        reveal_strlit("\"name\"");
    }
    assert(",\"kind\":"@ =~= next_key("kind"@)) by {
        reveal_strlit(",\"kind\":");
        reveal_strlit("\"kind\"");
    }
    assert(",\"data\":"@ =~= next_key("data"@)) by {
        reveal_strlit(",\"data\":");
        reveal_strlit("\"data\"");
    }
}

/// A text holds the last members of an object, and its end.
#[verifier::opaque]
spec fn holds_members(text: Seq<char>, members: Seq<(Seq<char>, Json)>) -> bool {
    read_members(text) == Some((members, Seq::<char>::empty()))
}

/// A text is that of a value before the end of an object.
#[verifier::opaque]
spec fn holds_value(text: Seq<char>, value: Json) -> bool {
    read_value(text + seq!['}']) == Some((value, seq!['}']))
}

/// A text is that of an object with these members.
#[verifier::opaque]
spec fn holds_object(text: Seq<char>, members: Seq<(Seq<char>, Json)>) -> bool {
    json_value(text) == Some(Json::Object(members))
}

/// An object of a message reads back from its kind and its other members.
proof fn lemma_object_of_kind(kind: Seq<char>, more: Seq<char>, members: Seq<(Seq<char>, Json)>)
    requires
        holds_members(more, members),
    ensures
        holds_object(
            seq!['{'] + (json_string("type"@) + (seq![':'] + (json_string(kind) + (seq![',']
                + more)))),
            seq![("type"@, Json::Text(kind))] + members,
        ),
{
    reveal(holds_members);
    reveal(holds_object);
    let rest = seq![','] + more;
    let inner = json_string("type"@) + (seq![':'] + (json_string(kind) + rest));
    let none = Seq::<char>::empty();
    lemma_text_reads_back(kind, rest);
    lemma_member_before_member("type"@, json_string(kind), Json::Text(kind), more, members, none);
    lemma_string_reads_back("type"@, seq![':'] + (json_string(kind) + rest));
    lemma_object_reads_back(inner, seq![("type"@, Json::Text(kind))] + members, none);
}

/// The last member of a message reads back.
proof fn lemma_last_member(key: Seq<char>, text: Seq<char>, value: Json)
    requires
        holds_value(text, value),
    ensures
        holds_members(json_string(key) + (seq![':'] + (text + seq!['}'])), seq![(key, value)]),
{
    reveal(holds_members);
    reveal(holds_value);
    let none = Seq::<char>::empty();
    assert(seq!['}'] =~= seq!['}'] + none);
    lemma_member_before_end(key, text, value, none);
}

/// The last member of a message reads back where it is a text.
proof fn lemma_last_text(key: Seq<char>, s: Seq<char>)
    ensures
        holds_members(
            json_string(key) + (seq![':'] + (json_string(s) + seq!['}'])),
            seq![(key, Json::Text(s))],
        ),
{
    assert(holds_value(json_string(s), Json::Text(s))) by {
        reveal(holds_value);
        lemma_text_reads_back(s, seq!['}']);
    }
    lemma_last_member(key, json_string(s), Json::Text(s));
}

/// A member that is a text reads back before others.
proof fn lemma_next_text(
    key: Seq<char>,
    s: Seq<char>,
    more: Seq<char>,
    members: Seq<(Seq<char>, Json)>,
)
    requires
        holds_members(more, members),
    ensures
        holds_members(
            json_string(key) + (seq![':'] + (json_string(s) + (seq![','] + more))),
            seq![(key, Json::Text(s))] + members,
        ),
{
    reveal(holds_members);
    let none = Seq::<char>::empty();
    lemma_text_reads_back(s, seq![','] + more);
    lemma_member_before_member(key, json_string(s), Json::Text(s), more, members, none);
}

/// The answer to a join, taken apart.
proof fn lemma_joined_text(peers: Seq<PeerModel>)
    ensures
        json_text(ServerModel::Joined { peers }) == seq!['{'] + (json_string("type"@) + (seq![':']
            + (json_string("joined"@) + (seq![','] + (json_string("peers"@) + (seq![':'] + (seq![
            '[',
        ] + peers_text(peers) + seq![']'] + seq!['}']))))))),
{
    let list = seq!['['] + peers_text(peers) + seq![']'] + seq!['}'];
    lemma_fixed_parts();
    lemma_opening("joined"@, "peers"@, list);
    assert(opening("joined"@, "peers"@) + seq!['['] + peers_text(peers) + (seq![']'] + seq!['}'])
        =~= opening("joined"@, "peers"@) + list);
}

/// The answer to a join reads back.
proof fn lemma_joined_reads_back(peers: Seq<PeerModel>)
    ensures
        holds_object(
            json_text(ServerModel::Joined { peers }),
            seq![("type"@, Json::Text("joined"@)), ("peers"@, peers_value(peers))],
        ),
{
    let list = seq!['['] + peers_text(peers) + seq![']'];
    let more = json_string("peers"@) + (seq![':'] + (list + seq!['}']));
    lemma_joined_text(peers);
    assert(holds_value(list, peers_value(peers))) by {
        reveal(holds_value);
        lemma_list_reads_back(peers, seq!['}']);
    }
    lemma_last_member("peers"@, list, peers_value(peers));
    lemma_object_of_kind("joined"@, more, seq![("peers"@, peers_value(peers))]);
    assert(seq![("type"@, Json::Text("joined"@))] + seq![("peers"@, peers_value(peers))] =~= seq![
        ("type"@, Json::Text("joined"@)),
        ("peers"@, peers_value(peers)),
    ]);
}

/// The news of a newcomer, taken apart.
proof fn lemma_peer_joined_text(peer_id: Seq<char>, name: Seq<char>)
    ensures
        json_text(ServerModel::PeerJoined { peer_id, name }) == seq!['{'] + (json_string("type"@)
            + (seq![':'] + (json_string("peerJoined"@) + (seq![','] + (json_string("peer_id"@) + (
        seq![':'] + (json_string(peer_id) + (seq![','] + (json_string("name"@) + (seq![':'] + (
        json_string(name) + seq!['}']))))))))))),
{
    let id = json_string(peer_id);
    let last = next_key("name"@) + json_string(name) + seq!['}'];
    lemma_fixed_parts();
    lemma_next_key("name"@, json_string(name), seq!['}']);
    lemma_opening("peerJoined"@, "peer_id"@, id + last);
    assert(opening("peerJoined"@, "peer_id"@) + id + next_key("name"@) + json_string(name) + seq![
        '}',
    ] =~= opening("peerJoined"@, "peer_id"@) + (id + last));
}

/// The news of a newcomer reads back.
proof fn lemma_peer_joined_reads_back(peer_id: Seq<char>, name: Seq<char>)
    ensures
        holds_object(
            json_text(ServerModel::PeerJoined { peer_id, name }),
            seq![
                ("type"@, Json::Text("peerJoined"@)),
                ("peer_id"@, Json::Text(peer_id)),
                ("name"@, Json::Text(name)),
            ],
        ),
{
    let last = json_string("name"@) + (seq![':'] + (json_string(name) + seq!['}']));
    let more = json_string("peer_id"@) + (seq![':'] + (json_string(peer_id) + (seq![','] + last)));
    let members = seq![("peer_id"@, Json::Text(peer_id))] + seq![("name"@, Json::Text(name))];
    lemma_peer_joined_text(peer_id, name);
    lemma_last_text("name"@, name);
    lemma_next_text("peer_id"@, peer_id, last, seq![("name"@, Json::Text(name))]);
    lemma_object_of_kind("peerJoined"@, more, members);
    assert(seq![("type"@, Json::Text("peerJoined"@))] + members =~= seq![
        ("type"@, Json::Text("peerJoined"@)),
        ("peer_id"@, Json::Text(peer_id)),
        ("name"@, Json::Text(name)),
    ]);
}

/// The news that a peer left reads back.
proof fn lemma_peer_left_reads_back(peer_id: Seq<char>)
    ensures
        holds_object(
            json_text(ServerModel::PeerLeft { peer_id }),
            seq![("type"@, Json::Text("peerLeft"@)), ("peer_id"@, Json::Text(peer_id))],
        ),
{
    let message = ServerModel::PeerLeft { peer_id };
    let behind = json_string(peer_id) + seq!['}'];
    let more = json_string("peer_id"@) + (seq![':'] + behind);
    lemma_fixed_parts();
    lemma_opening("peerLeft"@, "peer_id"@, behind);
    assert(json_text(message) =~= opening("peerLeft"@, "peer_id"@) + behind);
    lemma_last_text("peer_id"@, peer_id);
    lemma_object_of_kind("peerLeft"@, more, seq![("peer_id"@, Json::Text(peer_id))]);
    assert(seq![("type"@, Json::Text("peerLeft"@))] + seq![("peer_id"@, Json::Text(peer_id))]
        =~= seq![("type"@, Json::Text("peerLeft"@)), ("peer_id"@, Json::Text(peer_id))]);
}

/// The text of a signal, taken apart.
proof fn lemma_signal_text(from_peer_id: Seq<char>, kind: Seq<char>, data: Seq<char>)
    ensures
        json_text(ServerModel::Signal { from_peer_id, kind, data }) == seq!['{'] + (json_string(
            "type"@,
        ) + (seq![':'] + (json_string("signal"@) + (seq![','] + (json_string("from_peer_id"@) + (
        seq![':'] + (json_string(from_peer_id) + (seq![','] + (json_string("kind"@) + (seq![':'] + (
        json_string(kind) + (seq![','] + (json_string("data"@) + (seq![':'] + (data + seq![
            '}',
        ]))))))))))))))),
{
    let id = json_string(from_peer_id);
    let name = json_string(kind);
    let last = next_key("data"@) + data + seq!['}'];
    let middle = next_key("kind"@) + name + last;
    lemma_fixed_parts();
    lemma_next_key("data"@, data, seq!['}']);
    lemma_next_key("kind"@, name, last);
    lemma_opening("signal"@, "from_peer_id"@, id + middle);
    assert(opening("signal"@, "from_peer_id"@) + id + next_key("kind"@) + name + next_key("data"@)
        + data + seq!['}'] =~= opening("signal"@, "from_peer_id"@) + (id + middle));
}

/// What a signal carries reads back before the end of the signal.
proof fn lemma_carried_reads_back(data: Seq<char>)
    requires
        json_value(data) is Some,
    ensures
        holds_value(data, json_value(data).unwrap()),
{
    reveal(holds_value);
    lemma_value_before(data, seq!['}']);
    assert(Seq::<char>::empty() + seq!['}'] =~= seq!['}']);
}

/// A signal reads back, with the value of what it carries.
proof fn lemma_signal_reads_back(
    from_peer_id: Seq<char>,
    kind: Seq<char>,
    data: Seq<char>,
    value: Json,
)
    requires
        holds_value(data, value),
    ensures
        holds_object(
            json_text(ServerModel::Signal { from_peer_id, kind, data }),
            seq![
                ("type"@, Json::Text("signal"@)),
                ("from_peer_id"@, Json::Text(from_peer_id)),
                ("kind"@, Json::Text(kind)),
                ("data"@, value),
            ],
        ),
{
    let last = json_string("data"@) + (seq![':'] + (data + seq!['}']));
    let middle = json_string("kind"@) + (seq![':'] + (json_string(kind) + (seq![','] + last)));
    let more = json_string("from_peer_id"@) + (seq![':'] + (json_string(from_peer_id) + (seq![',']
        + middle)));
    let end = seq![("kind"@, Json::Text(kind))] + seq![("data"@, value)];
    let members = seq![("from_peer_id"@, Json::Text(from_peer_id))] + end;
    lemma_signal_text(from_peer_id, kind, data);
    lemma_last_member("data"@, data, value);
    lemma_next_text("kind"@, kind, last, seq![("data"@, value)]);
    lemma_next_text("from_peer_id"@, from_peer_id, middle, end);
    lemma_object_of_kind("signal"@, more, members);
    assert(seq![("type"@, Json::Text("signal"@))] + members =~= seq![
        ("type"@, Json::Text("signal"@)),
        ("from_peer_id"@, Json::Text(from_peer_id)),
        ("kind"@, Json::Text(kind)),
        ("data"@, value),
    ]);
}

/// A string without quotes, backslashes and control characters is read as it stands.
pub proof fn plain_strings_are_read_as_they_stand(s: Seq<char>)
    requires
        forall|i: int|
            0 <= i < s.len() ==> #[trigger] s[i] != '"' && s[i] != '\\' && (s[i] as int) >= 32,
    ensures
        json_value(seq!['"'] + s + seq!['"']) == Some(Json::Text(s)),
{
    lemma_plain_string(s);
    lemma_text_reads_back(s, Seq::<char>::empty());
    assert(json_string(s) + Seq::<char>::empty() =~= seq!['"'] + s + seq!['"']);
}

/// Every message of the relay is a JSON text, and reads back as the object that the
/// message says: its kind under `type`, and its fields under their names. What a
/// signal carries is in it as the very value that was given.
pub proof fn messages_read_back(message: ServerModel)
    requires
        carries_json(message),
    ensures
        json_text(message).len() > 0,
        json_value(json_text(message)) == Some(message_value(message)),
        match message {
            ServerModel::Joined { peers } => json_value(json_text(message)) == Some(
                Json::Object(
                    seq![
                        ("type"@, Json::Text("joined"@)),
                        (
                            "peers"@,
                            Json::Array(
                                Seq::new(
                                    peers.len(),
                                    |i: int|
                                        Json::Object(
                                            seq![
                                                ("peer_id"@, Json::Text(peers[i].peer_id)),
                                                ("name"@, Json::Text(peers[i].name)),
                                            ],
                                        ),
                                ),
                            ),
                        ),
                    ],
                ),
            ),
            ServerModel::PeerJoined { peer_id, name } => json_value(json_text(message)) == Some(
                Json::Object(
                    seq![
                        ("type"@, Json::Text("peerJoined"@)),
                        ("peer_id"@, Json::Text(peer_id)),
                        ("name"@, Json::Text(name)),
                    ],
                ),
            ),
            ServerModel::PeerLeft { peer_id } => json_value(json_text(message)) == Some(
                Json::Object(
                    seq![("type"@, Json::Text("peerLeft"@)), ("peer_id"@, Json::Text(peer_id))],
                ),
            ),
            ServerModel::Signal { from_peer_id, kind, data } => json_value(json_text(message))
                == Some(
                Json::Object(
                    seq![
                        ("type"@, Json::Text("signal"@)),
                        ("from_peer_id"@, Json::Text(from_peer_id)),
                        ("kind"@, Json::Text(kind)),
                        ("data"@, json_value(data).unwrap()),
                    ],
                ),
            ),
        },
{
    reveal(holds_object);
    match message {
        ServerModel::Joined { peers } => {
            lemma_joined_reads_back(peers);
            assert(peers.map_values(|peer: PeerModel| peer_value(peer)) =~= Seq::new(
                peers.len(),
                |i: int|
                    Json::Object(
                        seq![
                            ("peer_id"@, Json::Text(peers[i].peer_id)),
                            ("name"@, Json::Text(peers[i].name)),
                        ],
                    ),
            ));
        },
        ServerModel::PeerJoined { peer_id, name } => lemma_peer_joined_reads_back(peer_id, name),
        ServerModel::PeerLeft { peer_id } => lemma_peer_left_reads_back(peer_id),
        ServerModel::Signal { from_peer_id, kind, data } => {
            lemma_carried_reads_back(data);
            lemma_signal_reads_back(from_peer_id, kind, data, json_value(data).unwrap());
        },
    }
}

} // verus!
