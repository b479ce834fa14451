//! Groups of clients as mathematical values, and what changes them.

use vstd::prelude::*;

verus! {

/// The content of a `Member`.
#[verifier::ext_equal]
pub struct MemberModel {
    pub peer_id: Seq<char>,
    pub name: Seq<char>,
    pub connection: u64,
}

/// The content of a `Delivery`.
#[verifier::ext_equal]
pub struct DeliveryModel {
    pub to: u64,
    pub text: Seq<char>,
}

/// Tells the members with another peer id from those with `peer_id`.
pub open spec fn other_than(peer_id: Seq<char>) -> spec_fn(MemberModel) -> bool {
    |m: MemberModel| m.peer_id != peer_id
}

/// A group without the member called `peer_id`.
pub open spec fn others(room: Seq<MemberModel>, peer_id: Seq<char>) -> Seq<MemberModel> {
    room.filter(other_than(peer_id))
}

/// Tells the members called `peer_id` from the others.
pub open spec fn is_called(peer_id: Seq<char>) -> spec_fn(MemberModel) -> bool {
    |m: MemberModel| m.peer_id == peer_id
}

/// The member of a group called `peer_id`, if there is one.
pub open spec fn called(room: Seq<MemberModel>, peer_id: Seq<char>) -> Seq<MemberModel> {
    room.filter(is_called(peer_id))
}

/// Whether a group has a member called `peer_id`.
pub open spec fn has_peer(room: Seq<MemberModel>, peer_id: Seq<char>) -> bool {
    exists|i: int| 0 <= i < room.len() && (#[trigger] room[i]).peer_id == peer_id
}

/// The same text to every member of a group.
pub open spec fn fan_out(room: Seq<MemberModel>, text: Seq<char>) -> Seq<DeliveryModel> {
    room.map_values(|m: MemberModel| DeliveryModel { to: m.connection, text })
}

/// The members of the group of a pairing code: none, where there is no group.
pub open spec fn members(
    rooms: Map<Seq<char>, Seq<MemberModel>>,
    code: Seq<char>,
) -> Seq<MemberModel> {
    if rooms.contains_key(code) {
        rooms[code]
    } else {
        seq![]
    }
}

/// In a group no peer id occurs twice.
pub open spec fn distinct(room: Seq<MemberModel>) -> bool {
    forall|i: int, j: int|
        0 <= i < j < room.len() ==> (#[trigger] room[i]).peer_id != (#[trigger] room[j]).peer_id
}

/// What holds of the groups at all times: none is empty, and in none does a
/// peer id occur twice.
pub open spec fn valid(rooms: Map<Seq<char>, Seq<MemberModel>>) -> bool {
    forall|code: Seq<char>| #[trigger]
        rooms.contains_key(code) ==> rooms[code].len() > 0 && distinct(rooms[code])
}

/// Puts `member` in the place of a member with the same peer id.
pub open spec fn replaced_by(member: MemberModel) -> spec_fn(MemberModel) -> MemberModel {
    |m: MemberModel|
        if m.peer_id == member.peer_id {
            member
        } else {
            m
        }
}

/// A group after `member` entered it: in the place of the member with the same
/// peer id, or at the end.
pub open spec fn seated(room: Seq<MemberModel>, member: MemberModel) -> Seq<MemberModel> {
    if has_peer(room, member.peer_id) {
        room.map_values(replaced_by(member))
    } else {
        room.push(member)
    }
}

/// The groups after `member` entered the group of `code`.
pub open spec fn entered(
    rooms: Map<Seq<char>, Seq<MemberModel>>,
    code: Seq<char>,
    member: MemberModel,
) -> Map<Seq<char>, Seq<MemberModel>> {
    rooms.insert(code, seated(members(rooms, code), member))
}

/// The groups after the member called `peer_id` left the group of `code`: a
/// group that nobody is left in is gone.
pub open spec fn departed(
    rooms: Map<Seq<char>, Seq<MemberModel>>,
    code: Seq<char>,
    peer_id: Seq<char>,
) -> Map<Seq<char>, Seq<MemberModel>> {
    let rest = others(members(rooms, code), peer_id);
    if rest.len() == 0 {
        rooms.remove(code)
    } else {
        rooms.insert(code, rest)
    }
}

/// Where the list has only members with other peer ids, nobody is taken out.
pub proof fn lemma_others_of_strangers(room: Seq<MemberModel>, peer_id: Seq<char>)
    requires
        !has_peer(room, peer_id),
    ensures
        others(room, peer_id) == room,
    decreases room.len(),
{
    reveal(Seq::filter);
    if room.len() > 0 {
        assert(!has_peer(room.drop_last(), peer_id)) by {
            assert forall|i: int| 0 <= i < room.drop_last().len() implies (
            #[trigger] room.drop_last()[i]).peer_id != peer_id by {
                assert(room[i].peer_id != peer_id);
            }
        }
        lemma_others_of_strangers(room.drop_last(), peer_id);
        assert(room[room.len() - 1].peer_id != peer_id);
        assert(others(room, peer_id) =~= room);
    }
}

/// Leaving out the member called `peer_id` is removing its place.
pub proof fn lemma_others_is_remove(room: Seq<MemberModel>, i: int)
    requires
        distinct(room),
        0 <= i < room.len(),
    ensures
        others(room, room[i].peer_id) == room.remove(i),
{
    reveal(Seq::filter);
    let peer_id = room[i].peer_id;
    let before = room.take(i);
    let after = room.skip(i + 1);
    assert(!has_peer(before, peer_id));
    assert(!has_peer(after, peer_id));
    lemma_others_of_strangers(before, peer_id);
    lemma_others_of_strangers(after, peer_id);
    assert(room =~= before.push(room[i]) + after);
    Seq::filter_distributes_over_add(before.push(room[i]), after, other_than(peer_id));
    assert(before.push(room[i]).drop_last() =~= before);
    assert(others(room, peer_id) =~= room.remove(i));
}

/// The others are members, each with another peer id, and every member with
/// another peer id is among them.
pub proof fn lemma_others_members(room: Seq<MemberModel>, peer_id: Seq<char>)
    ensures
        forall|m: MemberModel| #[trigger]
            others(room, peer_id).contains(m) <==> room.contains(m) && m.peer_id != peer_id,
        distinct(room) ==> distinct(others(room, peer_id)),
    decreases room.len(),
{
    reveal(Seq::filter);
    let other = other_than(peer_id);
    if room.len() > 0 {
        let front = room.drop_last();
        let last = room.last();
        lemma_others_members(front, peer_id);
        let kept = others(front, peer_id);
        assert forall|m: MemberModel|
            others(room, peer_id).contains(m) <==> room.contains(m) && m.peer_id != peer_id by {
            if room.contains(m) && m != last {
                let i = choose|i: int| 0 <= i < room.len() && room[i] == m;
                assert(front[i] == m);
                assert(front.contains(m));
            }
            if front.contains(m) {
                let i = choose|i: int| 0 <= i < front.len() && front[i] == m;
                assert(room[i] == m);
            }
            if kept.contains(m) && other(last) {
                let i = choose|i: int| 0 <= i < kept.len() && kept[i] == m;
                assert(kept.push(last)[i] == m);
            }
            if m == last && other(last) {
                assert(kept.push(last)[kept.len() as int] == m);
            }
            if m == last {
                assert(room[room.len() - 1] == m);
            }
        }
        if distinct(room) {
            assert(distinct(front));
            if other(last) {
                assert forall|i: int| 0 <= i < kept.len() implies (#[trigger] kept[i]).peer_id
                    != last.peer_id by {
                    assert(others(front, peer_id).contains(kept[i]));
                    assert(front.contains(kept[i]));
                    let j = choose|j: int| 0 <= j < front.len() && front[j] == kept[i];
                    assert(room[j].peer_id != room[room.len() - 1].peer_id);
                }
            }
        }
    }
}

/// Who is called `peer_id` in a group that has the peer id at `i`.
pub proof fn lemma_called(room: Seq<MemberModel>, i: int)
    requires
        distinct(room),
        0 <= i < room.len(),
    ensures
        called(room, room[i].peer_id) == seq![room[i]],
    decreases room.len(),
{
    reveal(Seq::filter);
    let peer_id = room[i].peer_id;
    let front = room.drop_last();
    if i == room.len() - 1 {
        assert(!has_peer(front, peer_id)) by {
            assert forall|j: int| 0 <= j < front.len() implies (#[trigger] front[j]).peer_id
                != peer_id by {
                assert(room[j].peer_id != room[i].peer_id);
            }
        }
        lemma_called_nobody(front, peer_id);
    } else {
        assert(distinct(front));
        assert(front[i] == room[i]);
        lemma_called(front, i);
        assert(room[i].peer_id != room[room.len() - 1].peer_id);
    }
    assert(called(room, peer_id) =~= seq![room[i]]);
}

/// Nobody is called `peer_id` in a group without that peer id.
pub proof fn lemma_called_nobody(room: Seq<MemberModel>, peer_id: Seq<char>)
    requires
        !has_peer(room, peer_id),
    ensures
        called(room, peer_id) == Seq::<MemberModel>::empty(),
    decreases room.len(),
{
    reveal(Seq::filter);
    if room.len() > 0 {
        let front = room.drop_last();
        assert(!has_peer(front, peer_id)) by {
            assert forall|j: int| 0 <= j < front.len() implies (#[trigger] front[j]).peer_id
                != peer_id by {
                assert(room[j].peer_id != peer_id);
            }
        }
        lemma_called_nobody(front, peer_id);
        assert(room[room.len() - 1].peer_id != peer_id);
    }
}

/// Entering a group changes nothing for the others, and keeps peer ids
/// distinct.
pub proof fn lemma_seated(room: Seq<MemberModel>, member: MemberModel)
    ensures
        others(seated(room, member), member.peer_id) == others(room, member.peer_id),
        distinct(room) ==> distinct(seated(room, member)),
        has_peer(seated(room, member), member.peer_id),
        seated(room, member).len() > 0,
{
    reveal(Seq::filter);
    let after = seated(room, member);
    if has_peer(room, member.peer_id) {
        let i = choose|i: int|
            0 <= i < room.len() && (#[trigger] room[i]).peer_id == member.peer_id;
        assert(after[i] == member);
        lemma_replaced_others(room, member);
    } else {
        assert(after.drop_last() =~= room);
        assert(after[room.len() as int] == member);
    }
}

/// Replacing the members called like `member` changes nothing for the others.
proof fn lemma_replaced_others(room: Seq<MemberModel>, member: MemberModel)
    ensures
        others(room.map_values(replaced_by(member)), member.peer_id) == others(
            room,
            member.peer_id,
        ),
    decreases room.len(),
{
    reveal(Seq::filter);
    let replace = replaced_by(member);
    if room.len() > 0 {
        lemma_replaced_others(room.drop_last(), member);
        assert(room.map_values(replace).drop_last() =~= room.drop_last().map_values(replace));
    }
}

} // verus!
