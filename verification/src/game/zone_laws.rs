//! Where cards go when they move, written out zone by zone.

use vstd::prelude::*;
#[allow(unused_imports)]
use crate::game::mulligan_laws::{everyone_passes, filter_loses_one, filters_agree};
#[allow(unused_imports)]
use crate::types::events::GameEvent;
#[allow(unused_imports)]
use crate::types::game_object::ObjectModel;
#[allow(unused_imports)]
use crate::types::game_state::{zone_lists_are_separate, StateModel};
#[allow(unused_imports)]
use crate::types::identifiers::{CardId, ObjectId, PlayerId};
#[allow(unused_imports)]
use crate::types::player::{is_position, position_is_unique, same_ids_same_positions, PlayerModel};
#[allow(unused_imports)]
use crate::types::zones::{is_private, Zone};

verus! {

/// Each zone is what it is called: a player's hand, library and graveyard are their own, and the
/// battlefield, exile and the command zone are everyone's.
pub proof fn zones_are_what_they_are_called(s: StateModel, i: int)
    requires
        0 <= i < s.players.len(),
        forall|j: int| 0 <= j < i ==> (#[trigger] s.players[j]).id != s.players[i].id,
    ensures
        s.has_player(s.players[i].id),
        s.zone_list(s.players[i].id, Zone::Hand) == s.players[i].hand,
        s.zone_list(s.players[i].id, Zone::Library) == s.players[i].library,
        s.zone_list(s.players[i].id, Zone::Graveyard) == s.players[i].graveyard,
        forall|player: PlayerId| #[trigger]
            s.zone_list(player, Zone::Battlefield) == s.battlefield,
        forall|player: PlayerId| #[trigger] s.zone_list(player, Zone::Exile) == s.exile,
        forall|player: PlayerId| #[trigger] s.zone_list(player, Zone::Command) == s.command_zone,
{
    let id = s.players[i].id;
    assert(is_position(s.players, id, i));
    position_is_unique(s.players, id, i);
}

/// Exactly hands, libraries and graveyards belong to one player each.
pub proof fn private_zones(zone: Zone)
    ensures
        is_private(zone) <==> zone == Zone::Hand || zone == Zone::Library || zone
            == Zone::Graveyard,
{
}

/// The cards other than one.
pub open spec fn other_than(id: ObjectId) -> spec_fn(ObjectId) -> bool {
    |other: ObjectId| other != id
}

/// The same players with the same life totals; their cards may differ.
pub open spec fn only_lists_differ(before: Seq<PlayerModel>, after: Seq<PlayerModel>) -> bool {
    &&& after.len() == before.len()
    &&& forall|i: int|
        0 <= i < before.len() ==> (#[trigger] after[i]).id == before[i].id && after[i].life
            == before[i].life
}

/// A list without one of its cards.
pub open spec fn without(list: Seq<ObjectId>, id: ObjectId) -> Seq<ObjectId> {
    list.filter(other_than(id))
}

proof fn removing_leaves_the_others(list: Seq<ObjectId>, id: ObjectId)
    requires
        list.no_duplicates(),
    ensures
        list.remove_value(id) == without(list, id),
{
    let all = |other: ObjectId| true;
    let others = other_than(id);
    everyone_passes(list, all);
    list.index_of_first_ensures(id);
    if list.contains(id) {
        let k = list.index_of_first(id).unwrap();
        filter_loses_one(list, all, others, id, k);
        assert(without(list, id) == list.remove(k));
        assert(list.remove_value(id) == list.remove(k));
    } else {
        filters_agree(list, all, others);
        assert(without(list, id) == list);
    }
}

/// A card that moves leaves the zone it is in and goes to the end of the one it moves to, among
/// its owner's cards. Every other zone of every player stays as it is, and of all objects only
/// the zone of the card changes.
pub proof fn moving_takes_a_card_along(s: StateModel, id: ObjectId, to: Zone)
    requires
        s.valid(),
        s.objects.contains_key(id),
    ensures
        ({
            let t = s.moved(id, to);
            &&& t == (StateModel {
                players: t.players,
                objects: s.objects.insert(id, ObjectModel { zone: to, ..s.objects[id] }),
                battlefield: t.battlefield,
                exile: t.exile,
                command_zone: t.command_zone,
                ..s
            })
            &&& only_lists_differ(s.players, t.players)
        }),
        forall|player: PlayerId, zone: Zone|
            s.has_player(player) && zone != Zone::Stack ==> #[trigger] s.moved(id, to).zone_list(
                player,
                zone,
            ) == {
                let mine = player == s.objects[id].owner || !(zone == Zone::Hand || zone
                    == Zone::Library || zone == Zone::Graveyard);
                let left = if mine {
                    without(s.zone_list(player, zone), id)
                } else {
                    s.zone_list(player, zone)
                };
                if mine && zone == to {
                    left.push(id)
                } else {
                    left
                }
            },
        s.zone_change(id, to) == (GameEvent::ZoneChanged {
            object_id: id,
            from: s.objects[id].zone,
            to,
        }),
{
    let owner = s.objects[id].owner;
    let from = s.objects[id].zone;
    let t = s.moved(id, to);
    let left = s.zone_list(owner, from).remove_value(id);
    let lifted = s.lifted(id);
    zone_lists_are_separate(s, owner, from, left);
    assert(lifted.has_player(owner));
    let list = lifted.zone_list(owner, to).push(id);
    let placed = lifted.with_zone_list(owner, to, list);
    zone_lists_are_separate(lifted, owner, to, list);
    assert forall|player: PlayerId, zone: Zone|
        s.has_player(player) && zone != Zone::Stack implies #[trigger] t.zone_list(player, zone)
        == {
        let mine = player == owner || !(zone == Zone::Hand || zone == Zone::Library || zone
            == Zone::Graveyard);
        let rest = if mine {
            without(s.zone_list(player, zone), id)
        } else {
            s.zone_list(player, zone)
        };
        if mine && zone == to {
            rest.push(id)
        } else {
            rest
        }
    } by {
        assert(lifted.has_player(player));
        assert(t.zone_list(player, zone) == placed.zone_list(player, zone));
        assert(s.zone_matches(player, zone));
        removing_leaves_the_others(s.zone_list(player, zone), id);
        assert(s.zone_list(player, zone).contains(id) <==> s.resides(id, player, zone));
        s.zone_list(player, zone).index_of_first_ensures(id);
        private_zones(zone);
    }
}

/// A card put into a library comes to lie on top of it or at its bottom; the rest is as for any
/// move.
pub proof fn library_positions(s: StateModel, id: ObjectId, top: bool)
    requires
        s.valid(),
        s.objects.contains_key(id),
    ensures
        ({
            let t = s.moved_to_library(id, top);
            let owner = s.objects[id].owner;
            let others = without(s.zone_list(owner, Zone::Library), id);
            &&& t.zone_list(owner, Zone::Library) == if top {
                seq![id] + others
            } else {
                others.push(id)
            }
            &&& t == (StateModel {
                players: t.players,
                objects: s.objects.insert(
                    id,
                    ObjectModel { zone: Zone::Library, ..s.objects[id] },
                ),
                battlefield: t.battlefield,
                exile: t.exile,
                command_zone: t.command_zone,
                ..s
            })
            &&& only_lists_differ(s.players, t.players)
        }),
        forall|player: PlayerId, zone: Zone|
            s.has_player(player) && zone != Zone::Stack && !(player == s.objects[id].owner && zone
                == Zone::Library) ==> #[trigger] s.moved_to_library(id, top).zone_list(player, zone)
                == if player == s.objects[id].owner || !(zone == Zone::Hand || zone
                == Zone::Library || zone == Zone::Graveyard) {
                without(s.zone_list(player, zone), id)
            } else {
                s.zone_list(player, zone)
            },
{
    let owner = s.objects[id].owner;
    let from = s.objects[id].zone;
    let t = s.moved_to_library(id, top);
    let left = s.zone_list(owner, from).remove_value(id);
    let lifted = s.lifted(id);
    zone_lists_are_separate(s, owner, from, left);
    assert(lifted.has_player(owner));
    let library = lifted.zone_list(owner, Zone::Library);
    let list = if top {
        library.insert(0, id)
    } else {
        library.push(id)
    };
    let placed = lifted.with_zone_list(owner, Zone::Library, list);
    zone_lists_are_separate(lifted, owner, Zone::Library, list);
    assert(s.zone_matches(owner, Zone::Library));
    removing_leaves_the_others(s.zone_list(owner, Zone::Library), id);
    assert(s.zone_list(owner, Zone::Library).contains(id) <==> s.resides(
        id,
        owner,
        Zone::Library,
    ));
    s.zone_list(owner, Zone::Library).index_of_first_ensures(id);
    assert(library == without(s.zone_list(owner, Zone::Library), id));
    assert(library.insert(0, id) =~= seq![id] + library);
    assert(t.zone_list(owner, Zone::Library) == placed.zone_list(owner, Zone::Library));
    assert forall|player: PlayerId, zone: Zone|
        s.has_player(player) && zone != Zone::Stack && !(player == owner && zone
            == Zone::Library) implies #[trigger] t.zone_list(player, zone) == if player == owner
        || !(zone == Zone::Hand || zone == Zone::Library || zone == Zone::Graveyard) {
        without(s.zone_list(player, zone), id)
    } else {
        s.zone_list(player, zone)
    } by {
        assert(lifted.has_player(player));
        assert(t.zone_list(player, zone) == placed.zone_list(player, zone));
        assert(s.zone_matches(player, zone));
        removing_leaves_the_others(s.zone_list(player, zone), id);
        assert(s.zone_list(player, zone).contains(id) <==> s.resides(id, player, zone));
        s.zone_list(player, zone).index_of_first_ensures(id);
        private_zones(zone);
    }
}

/// A new card gets the next identifier, belongs to its owner, who controls it, and lies at the end
/// of the zone it is made in, with nothing on it. No other list and no other object changes.
pub proof fn new_cards_are_plain(
    s: StateModel,
    card_id: CardId,
    owner: PlayerId,
    name: Seq<char>,
    zone: Zone,
)
    requires
        s.has_player(owner),
        s.next_object_id < u64::MAX,
    ensures
        ({
            let t = s.created(card_id, owner, name, zone);
            let id = ObjectId(s.next_object_id);
            let object = t.objects[id];
            &&& t.next_object_id == s.next_object_id + 1
            &&& s.valid() ==> !s.objects.contains_key(id)
            &&& t == (StateModel {
                players: t.players,
                objects: s.objects.insert(id, object),
                next_object_id: t.next_object_id,
                battlefield: t.battlefield,
                exile: t.exile,
                command_zone: t.command_zone,
                ..s
            })
            &&& only_lists_differ(s.players, t.players)
            &&& object.id == id
            &&& object.card_id == card_id
            &&& object.owner == owner
            &&& object.controller == owner
            &&& object.name == name
            &&& object.zone == zone
            &&& !object.is_token
            &&& !object.is_commander
            &&& !object.tapped
            &&& !object.transformed
            &&& !object.attacking
            &&& !object.phased_out
            &&& object.counters.len() == 0
            &&& object.abilities.len() == 0
            &&& object.static_definitions.len() == 0
            &&& zone != Zone::Stack ==> t.zone_list(owner, zone) == s.zone_list(owner, zone).push(
                id,
            )
        }),
        forall|player: PlayerId, place: Zone|
            s.has_player(player) && (place != zone || (player != owner && (zone == Zone::Hand
                || zone == Zone::Library || zone == Zone::Graveyard))) ==> #[trigger] s.created(
                card_id,
                owner,
                name,
                zone,
            ).zone_list(player, place) == s.zone_list(player, place),
{
    let id = ObjectId(s.next_object_id);
    let list = s.zone_list(owner, zone).push(id);
    let placed = s.with_zone_list(owner, zone, list);
    let t = s.created(card_id, owner, name, zone);
    zone_lists_are_separate(s, owner, zone, list);
    private_zones(zone);
    assert(t.zone_list(owner, zone) == placed.zone_list(owner, zone));
    assert forall|player: PlayerId, place: Zone|
        s.has_player(player) && (place != zone || (player != owner && (zone == Zone::Hand || zone
            == Zone::Library || zone == Zone::Graveyard))) implies #[trigger] t.zone_list(
        player,
        place,
    ) == s.zone_list(player, place) by {
        assert(t.zone_list(player, place) == placed.zone_list(player, place));
    }
}

/// A list without the first occurrence of a card.
pub open spec fn less_first(list: Seq<ObjectId>, id: ObjectId) -> Seq<ObjectId>
    decreases list.len(),
{
    if list.len() == 0 {
        list
    } else if list[0] == id {
        list.skip(1)
    } else {
        seq![list[0]] + less_first(list.skip(1), id)
    }
}

proof fn removing_takes_the_first(list: Seq<ObjectId>, id: ObjectId)
    ensures
        list.remove_value(id) == less_first(list, id),
    decreases list.len(),
{
    list.index_of_first_ensures(id);
    if list.len() > 0 {
        let rest = list.skip(1);
        rest.index_of_first_ensures(id);
        removing_takes_the_first(rest, id);
        if list.contains(id) {
            let k = list.index_of_first(id).unwrap();
            if list[0] == id {
                assert(k == 0);
                assert(list.remove(0) =~= rest);
            } else {
                assert(rest[k - 1] == id);
                let r = rest.index_of_first(id).unwrap();
                assert(list[r + 1] == id);
                assert(r == k - 1) by {
                    if r < k - 1 {
                        assert(list[r + 1] != id);
                    } else if k - 1 < r {
                        assert(rest[k - 1] != id);
                    }
                }
                assert(list.remove(k) =~= seq![list[0]] + rest.remove(k - 1));
            }
        } else {
            assert(!rest.contains(id)) by {
                if rest.contains(id) {
                    let r = choose|r: int| 0 <= r < rest.len() && rest[r] == id;
                    assert(list[r + 1] == id);
                }
            }
            assert(list[0] != id);
            assert(list =~= seq![list[0]] + rest);
        }
    }
}

/// The list of a zone once a card has left the zone it is said to be in.
pub open spec fn list_left(
    s: StateModel,
    id: ObjectId,
    player: PlayerId,
    zone: Zone,
) -> Seq<ObjectId> {
    let mine = player == s.objects[id].owner || !(zone == Zone::Hand || zone == Zone::Library
        || zone == Zone::Graveyard);
    if mine && zone == s.objects[id].zone {
        less_first(s.zone_list(player, zone), id)
    } else {
        s.zone_list(player, zone)
    }
}

proof fn lifting_takes_the_first(s: StateModel, id: ObjectId)
    requires
        s.has_player(s.objects[id].owner),
    ensures
        only_lists_differ(s.players, s.lifted(id).players),
        forall|player: PlayerId| #[trigger]
            s.lifted(id).has_player(player) == s.has_player(player),
        forall|player: PlayerId, zone: Zone|
            s.has_player(player) && zone != Zone::Stack ==> #[trigger] s.lifted(id).zone_list(
                player,
                zone,
            ) == list_left(s, id, player, zone),
{
    let owner = s.objects[id].owner;
    let from = s.objects[id].zone;
    let left = s.zone_list(owner, from).remove_value(id);
    same_ids_same_positions(s.players, s.players, owner);
    zone_lists_are_separate(s, owner, from, left);
    assert forall|player: PlayerId, zone: Zone|
        s.has_player(player) && zone != Zone::Stack implies #[trigger] s.lifted(id).zone_list(
        player,
        zone,
    ) == list_left(s, id, player, zone) by {
        removing_takes_the_first(s.zone_list(owner, from), id);
        private_zones(zone);
    }
}

/// In any state at all a card that moves to a zone leaves the list of the zone it is said to be in
/// where it is found first, and goes to the end of the other list.
pub proof fn moving_takes_the_first_found(s: StateModel, id: ObjectId, to: Zone)
    requires
        s.has_player(s.objects[id].owner),
    ensures
        ({
            let t = s.moved(id, to);
            &&& t == (StateModel {
                players: t.players,
                objects: s.objects.insert(id, ObjectModel { zone: to, ..s.objects[id] }),
                battlefield: t.battlefield,
                exile: t.exile,
                command_zone: t.command_zone,
                ..s
            })
            &&& only_lists_differ(s.players, t.players)
        }),
        forall|player: PlayerId, zone: Zone|
            s.has_player(player) && zone != Zone::Stack ==> #[trigger] s.moved(id, to).zone_list(
                player,
                zone,
            ) == if zone == to && (player == s.objects[id].owner || !(zone == Zone::Hand || zone
                == Zone::Library || zone == Zone::Graveyard)) {
                list_left(s, id, player, zone).push(id)
            } else {
                list_left(s, id, player, zone)
            },
{
    let owner = s.objects[id].owner;
    let t = s.moved(id, to);
    let lifted = s.lifted(id);
    lifting_takes_the_first(s, id);
    assert(lifted.has_player(owner));
    let list = lifted.zone_list(owner, to).push(id);
    let placed = lifted.with_zone_list(owner, to, list);
    same_ids_same_positions(lifted.players, lifted.players, owner);
    zone_lists_are_separate(lifted, owner, to, list);
    assert forall|player: PlayerId, zone: Zone|
        s.has_player(player) && zone != Zone::Stack implies #[trigger] t.zone_list(player, zone)
        == if zone == to && (player == owner || !(zone == Zone::Hand || zone == Zone::Library
        || zone == Zone::Graveyard)) {
        list_left(s, id, player, zone).push(id)
    } else {
        list_left(s, id, player, zone)
    } by {
        assert(lifted.has_player(player));
        assert(t.zone_list(player, zone) == placed.zone_list(player, zone));
        assert(lifted.zone_list(player, zone) == list_left(s, id, player, zone));
        assert(lifted.zone_list(owner, zone) == list_left(s, id, owner, zone));
        private_zones(zone);
    }
}

/// The same of a card that is put into its owner's library, on top or at the bottom.
pub proof fn library_takes_the_first_found(s: StateModel, id: ObjectId, top: bool)
    requires
        s.has_player(s.objects[id].owner),
    ensures
        ({
            let t = s.moved_to_library(id, top);
            let left = list_left(s, id, s.objects[id].owner, Zone::Library);
            &&& t == (StateModel {
                players: t.players,
                objects: s.objects.insert(
                    id,
                    ObjectModel { zone: Zone::Library, ..s.objects[id] },
                ),
                battlefield: t.battlefield,
                exile: t.exile,
                command_zone: t.command_zone,
                ..s
            })
            &&& only_lists_differ(s.players, t.players)
            &&& t.zone_list(s.objects[id].owner, Zone::Library) == if top {
                seq![id] + left
            } else {
                left.push(id)
            }
        }),
        forall|player: PlayerId, zone: Zone|
            s.has_player(player) && zone != Zone::Stack && !(player == s.objects[id].owner && zone
                == Zone::Library) ==> #[trigger] s.moved_to_library(id, top).zone_list(player, zone)
                == list_left(s, id, player, zone),
{
    let owner = s.objects[id].owner;
    let t = s.moved_to_library(id, top);
    let lifted = s.lifted(id);
    lifting_takes_the_first(s, id);
    assert(lifted.has_player(owner));
    let library = lifted.zone_list(owner, Zone::Library);
    let list = if top {
        library.insert(0, id)
    } else {
        library.push(id)
    };
    let placed = lifted.with_zone_list(owner, Zone::Library, list);
    same_ids_same_positions(lifted.players, lifted.players, owner);
    zone_lists_are_separate(lifted, owner, Zone::Library, list);
    assert(library.insert(0, id) =~= seq![id] + library);
    assert(t.zone_list(owner, Zone::Library) == placed.zone_list(owner, Zone::Library));
    assert forall|player: PlayerId, zone: Zone|
        s.has_player(player) && zone != Zone::Stack && !(player == owner && zone
            == Zone::Library) implies #[trigger] t.zone_list(player, zone) == list_left(
        s,
        id,
        player,
        zone,
    ) by {
        assert(lifted.has_player(player));
        assert(t.zone_list(player, zone) == placed.zone_list(player, zone));
        assert(lifted.zone_list(player, zone) == list_left(s, id, player, zone));
    }
}

} // verus!
