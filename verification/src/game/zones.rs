use vstd::prelude::*;
use crate::types::events::GameEvent;
use crate::types::game_object::GameObject;
#[allow(unused_imports)]
use crate::types::game_object::{plain_object, ObjectModel};
use crate::types::game_state::GameState;
#[allow(unused_imports)]
use crate::types::game_state::{same_frame, writing_zone_lists, zone_lists_are_separate, StateModel};
use crate::types::identifiers::{CardId, ObjectId, PlayerId};
use crate::types::player::find_player;
#[allow(unused_imports)]
use crate::types::player::{same_ids, same_ids_same_positions};
use crate::types::zones::Zone;
#[allow(unused_imports)]
use crate::types::zones::is_private;

verus! {

/// Takes the first occurrence of a card out of a list.
fn remove_card(list: &mut Vec<ObjectId>, id: ObjectId)
    ensures
        final(list)@ == old(list)@.remove_value(id),
{
    let len: usize = list.len();
    for i in 0..len
        invariant
            len == list@.len(),
            list@ == old(list)@,
            forall|j: int| 0 <= j < i ==> list@[j] != id,
    {
        if list[i] == id {
            proof {
                assert(list@[i as int] == id);
                list@.index_of_first_ensures(id);
            }
            list.remove(i);
            return;
        }
    }
    proof {
        list@.index_of_first_ensures(id);
    }
}

impl StateModel {
    /// The state after a card has left the list of the zone it is in.
    pub open spec fn lifted(self, id: ObjectId) -> StateModel {
        let object = self.objects[id];
        self.with_zone_list(
            object.owner,
            object.zone,
            self.zone_list(object.owner, object.zone).remove_value(id),
        )
    }

    pub open spec fn with_zone_of(self, id: ObjectId, zone: Zone) -> StateModel {
        StateModel {
            objects: self.objects.insert(id, ObjectModel { zone, ..self.objects[id] }),
            ..self
        }
    }

    /// A card goes to the end of a zone, among the cards of its owner.
    pub open spec fn moved(self, id: ObjectId, to: Zone) -> StateModel {
        let owner = self.objects[id].owner;
        let lifted = self.lifted(id);
        lifted.with_zone_list(owner, to, lifted.zone_list(owner, to).push(id)).with_zone_of(id, to)
    }

    /// A card goes to the top or to the bottom of its owner's library.
    pub open spec fn moved_to_library(self, id: ObjectId, top: bool) -> StateModel {
        let owner = self.objects[id].owner;
        let lifted = self.lifted(id);
        let library = lifted.zone_list(owner, Zone::Library);
        lifted.with_zone_list(
            owner,
            Zone::Library,
            if top {
                library.insert(0, id)
            } else {
                library.push(id)
            },
        ).with_zone_of(id, Zone::Library)
    }

    pub open spec fn zone_change(self, id: ObjectId, to: Zone) -> GameEvent {
        GameEvent::ZoneChanged { object_id: id, from: self.objects[id].zone, to }
    }
}

fn lift(state: &mut GameState, id: ObjectId, owner: PlayerId, zone: Zone)
    requires
        old(state)@.has_player(owner),
    ensures
        final(state)@ == old(state)@.with_zone_list(
            owner,
            zone,
            old(state)@.zone_list(owner, zone).remove_value(id),
        ),
{
    let seat: usize = find_player(&state.players, owner).unwrap();
    match zone {
        Zone::Library => remove_card(&mut state.players[seat].library, id),
        Zone::Hand => remove_card(&mut state.players[seat].hand, id),
        Zone::Graveyard => remove_card(&mut state.players[seat].graveyard, id),
        Zone::Battlefield => remove_card(&mut state.battlefield, id),
        Zone::Exile => remove_card(&mut state.exile, id),
        Zone::Command => remove_card(&mut state.command_zone, id),
        Zone::Stack => {},
    }
    assert(state@ =~= old(state)@.with_zone_list(
        owner,
        zone,
        old(state)@.zone_list(owner, zone).remove_value(id),
    ));
}

/// Puts a card at the end of the list of a zone.
fn append(state: &mut GameState, id: ObjectId, owner: PlayerId, zone: Zone)
    requires
        old(state)@.has_player(owner),
    ensures
        final(state)@ == old(state)@.with_zone_list(
            owner,
            zone,
            old(state)@.zone_list(owner, zone).push(id),
        ),
{
    let seat: usize = find_player(&state.players, owner).unwrap();
    match zone {
        Zone::Library => state.players[seat].library.push(id),
        Zone::Hand => state.players[seat].hand.push(id),
        Zone::Graveyard => state.players[seat].graveyard.push(id),
        Zone::Battlefield => state.battlefield.push(id),
        Zone::Exile => state.exile.push(id),
        Zone::Command => state.command_zone.push(id),
        Zone::Stack => {},
    }
    assert(state@ =~= old(state)@.with_zone_list(
        owner,
        zone,
        old(state)@.zone_list(owner, zone).push(id),
    ));
}

fn set_zone(state: &mut GameState, id: ObjectId, zone: Zone)
    requires
        old(state)@.objects.contains_key(id),
    ensures
        final(state)@ == old(state)@.with_zone_of(id, zone),
{
    state.objects.get_mut(&id).unwrap().zone = zone;
    assert(state@ =~= old(state)@.with_zone_of(id, zone));
}

/// Moves a card to a zone of its owner.
pub fn move_to_zone(
    state: &mut GameState,
    id: ObjectId,
    to: Zone,
    events: &mut Vec<GameEvent>,
)
    requires
        old(state)@.objects.contains_key(id),
        old(state)@.has_player(old(state)@.objects[id].owner),
    ensures
        final(state)@ == old(state)@.moved(id, to),
        final(events)@ == old(events)@.push(old(state)@.zone_change(id, to)),
{
    let object = state.objects.get(&id).unwrap();
    let owner = object.owner;
    let from = object.zone;
    proof {
        let left = state@.zone_list(owner, from).remove_value(id);
        zone_lists_are_separate(state@, owner, from, left);
    }
    lift(state, id, owner, from);
    append(state, id, owner, to);
    set_zone(state, id, to);
    events.push(GameEvent::ZoneChanged { object_id: id, from, to });
}

/// Moves a card to the top or to the bottom of its owner's library.
pub fn move_to_library_position(
    state: &mut GameState,
    id: ObjectId,
    top: bool,
    events: &mut Vec<GameEvent>,
)
    requires
        old(state)@.objects.contains_key(id),
        old(state)@.has_player(old(state)@.objects[id].owner),
    ensures
        final(state)@ == old(state)@.moved_to_library(id, top),
        final(events)@ == old(events)@.push(old(state)@.zone_change(id, Zone::Library)),
{
    let object = state.objects.get(&id).unwrap();
    let owner = object.owner;
    let from = object.zone;
    proof {
        let left = state@.zone_list(owner, from).remove_value(id);
        zone_lists_are_separate(state@, owner, from, left);
    }
    lift(state, id, owner, from);
    if top {
        let ghost lifted = state@;
        assert(lifted.has_player(owner));
        let seat: usize = find_player(&state.players, owner).unwrap();
        state.players[seat].library.insert(0, id);
        assert(state@ =~= lifted.with_zone_list(
            owner,
            Zone::Library,
            lifted.zone_list(owner, Zone::Library).insert(0, id),
        ));
    } else {
        append(state, id, owner, Zone::Library);
    }
    set_zone(state, id, Zone::Library);
    events.push(GameEvent::ZoneChanged { object_id: id, from, to: Zone::Library });
}

/// A list without repetitions loses exactly the card that is removed.
pub proof fn removing_a_card(list: Seq<ObjectId>, id: ObjectId)
    requires
        list.no_duplicates(),
    ensures
        list.remove_value(id).no_duplicates(),
        forall|other: ObjectId| #[trigger]
            list.remove_value(id).contains(other) <==> list.contains(other) && other != id,
{
    list.index_of_first_ensures(id);
    let rest = list.remove_value(id);
    if list.contains(id) {
        let k = list.index_of_first(id).unwrap();
        assert forall|other: ObjectId| #[trigger] rest.contains(other) <==> list.contains(other)
            && other != id by {
            if list.contains(other) && other != id {
                let i = choose|i: int| 0 <= i < list.len() && list[i] == other;
                assert(i != k);
                assert(rest[if i < k {
                    i
                } else {
                    i - 1
                }] == other);
            }
            if rest.contains(other) {
                let i = choose|i: int| 0 <= i < rest.len() && rest[i] == other;
                assert(list[if i < k {
                    i
                } else {
                    i + 1
                }] == other);
            }
        }
    }
}

/// Taking a card out of its zone and entering it in another keeps a valid game valid.
proof fn placing_keeps_valid(s: StateModel, id: ObjectId, to: Zone, list: Seq<ObjectId>)
    requires
        s.valid(),
        s.objects.contains_key(id),
        to != Zone::Stack ==> list.no_duplicates(),
        to != Zone::Stack ==> forall|other: ObjectId| #[trigger]
            list.contains(other) <==> other == id || s.lifted(id).zone_list(
                s.objects[id].owner,
                to,
            ).contains(other),
    ensures
        s.lifted(id).with_zone_list(s.objects[id].owner, to, list).with_zone_of(id, to).valid(),
{
    let owner = s.objects[id].owner;
    let from = s.objects[id].zone;
    let left = s.zone_list(owner, from).remove_value(id);
    let lifted = s.lifted(id);
    let placed = lifted.with_zone_list(owner, to, list);
    let t = placed.with_zone_of(id, to);
    zone_lists_are_separate(s, owner, from, left);
    zone_lists_are_separate(lifted, owner, to, list);
    assert forall|i: int, j: int| 0 <= i < j < t.players.len() implies (
    #[trigger] t.players[i]).id != (#[trigger] t.players[j]).id by {
        assert(s.players[i].id != s.players[j].id);
        assert(lifted.players[i].id == s.players[i].id);
        assert(lifted.players[j].id == s.players[j].id);
    }
    assert forall|other: PlayerId| #[trigger] t.has_player(other) == s.has_player(other) by {
        assert(placed.has_player(other) == lifted.has_player(other));
        assert(lifted.has_player(other) == s.has_player(other));
    }
    assert forall|i: int| 0 <= i < t.seat_order.len() implies t.has_player(
        #[trigger] t.seat_order[i],
    ) by {
        assert(s.has_player(s.seat_order[i]));
    }
    assert forall|other: ObjectId| #[trigger] t.objects.contains_key(other) implies t.has_player(
        t.objects[other].owner,
    ) && t.objects[other].id == other && other.0 < t.next_object_id by {
        assert(s.objects.contains_key(other));
        assert(t.objects[other].owner == s.objects[other].owner);
    }
    assert forall|who: PlayerId, zone: Zone|
        t.has_player(who) && zone != Zone::Stack implies #[trigger] t.zone_matches(who, zone) by {
        assert(s.has_player(who));
        assert(lifted.has_player(who));
        assert(t.zone_list(who, zone) == placed.zone_list(who, zone));
        assert(s.zone_matches(who, zone));
        assert(s.zone_matches(owner, zone));
        removing_a_card(s.zone_list(owner, zone), id);
        assert forall|other: ObjectId| #[trigger]
            t.zone_list(who, zone).contains(other) <==> t.resides(other, who, zone) by {
            assert(s.zone_list(who, zone).contains(other) <==> s.resides(other, who, zone));
            assert(s.zone_list(owner, zone).contains(id) <==> s.resides(id, owner, zone));
            assert(s.zone_list(who, zone).contains(id) <==> s.resides(id, who, zone));
        }
    }
}

/// Moving a card leaves everything but zones and objects alone.
pub proof fn moving_keeps_frame(s: StateModel, id: ObjectId, to: Zone)
    requires
        s.has_player(s.objects[id].owner),
    ensures
        same_frame(s, s.moved(id, to)),
{
    let owner = s.objects[id].owner;
    let from = s.objects[id].zone;
    let lifted = s.lifted(id);
    zone_lists_are_separate(s, owner, from, s.zone_list(owner, from).remove_value(id));
    assert(lifted.has_player(owner));
    zone_lists_are_separate(lifted, owner, to, lifted.zone_list(owner, to).push(id));
}

/// Moving a card keeps a valid game valid.
pub proof fn moving_keeps_valid(s: StateModel, id: ObjectId, to: Zone)
    requires
        s.valid(),
        s.objects.contains_key(id),
    ensures
        s.moved(id, to).valid(),
{
    let owner = s.objects[id].owner;
    let from = s.objects[id].zone;
    let left = s.zone_list(owner, from).remove_value(id);
    zone_lists_are_separate(s, owner, from, left);
    if to != Zone::Stack {
        let target = s.lifted(id).zone_list(owner, to);
        lifting_leaves_room(s, id, to);
        assert forall|other: ObjectId| #[trigger] target.push(id).contains(other) <==> other == id
            || target.contains(other) by {
            if target.contains(other) {
                let i = choose|i: int| 0 <= i < target.len() && target[i] == other;
                assert(target.push(id)[i] == other);
            }
            assert(target.push(id)[target.len() as int] == id);
        }
    }
    placing_keeps_valid(s, id, to, s.lifted(id).zone_list(owner, to).push(id));
}

/// Putting a card into a library keeps a valid game valid.
pub proof fn moving_to_library_keeps_valid(s: StateModel, id: ObjectId, top: bool)
    requires
        s.valid(),
        s.objects.contains_key(id),
    ensures
        s.moved_to_library(id, top).valid(),
{
    let owner = s.objects[id].owner;
    let library = s.lifted(id).zone_list(owner, Zone::Library);
    let list = if top {
        library.insert(0, id)
    } else {
        library.push(id)
    };
    lifting_leaves_room(s, id, Zone::Library);
    assert forall|other: ObjectId| #[trigger] list.contains(other) <==> other == id
        || library.contains(other) by {
        if library.contains(other) {
            let i = choose|i: int| 0 <= i < library.len() && library[i] == other;
            assert(list[if top {
                i + 1
            } else {
                i
            }] == other);
        }
        assert(list[if top {
            0
        } else {
            library.len() as int
        }] == id);
    }
    placing_keeps_valid(s, id, Zone::Library, list);
}

/// A lifted card is in none of its owner's lists, and they repeat nothing.
proof fn lifting_leaves_room(s: StateModel, id: ObjectId, zone: Zone)
    requires
        s.valid(),
        s.objects.contains_key(id),
        zone != Zone::Stack,
    ensures
        s.lifted(id).zone_list(s.objects[id].owner, zone).no_duplicates(),
        !s.lifted(id).zone_list(s.objects[id].owner, zone).contains(id),
{
    let owner = s.objects[id].owner;
    let from = s.objects[id].zone;
    zone_lists_are_separate(s, owner, from, s.zone_list(owner, from).remove_value(id));
    assert(s.zone_matches(owner, zone));
    removing_a_card(s.zone_list(owner, zone), id);
    assert(s.zone_list(owner, zone).contains(id) <==> s.resides(id, owner, zone));
}

/// The objects once some of them are in another zone.
pub open spec fn rezoned(
    objects: Map<ObjectId, ObjectModel>,
    ids: Seq<ObjectId>,
    zone: Zone,
) -> Map<ObjectId, ObjectModel> {
    Map::new(
        |id: ObjectId| objects.contains_key(id),
        |id: ObjectId|
            if ids.contains(id) {
                ObjectModel { zone, ..objects[id] }
            } else {
                objects[id]
            },
    )
}

pub open spec fn zone_changes(ids: Seq<ObjectId>, from: Zone, to: Zone) -> Seq<GameEvent> {
    ids.map_values(|id: ObjectId| GameEvent::ZoneChanged { object_id: id, from, to })
}

impl StateModel {
    /// The first `k` cards of one zone of a player go, in order, to the end of another.
    pub open spec fn transferred(
        self,
        player: PlayerId,
        from: Zone,
        to: Zone,
        k: nat,
    ) -> StateModel {
        let list = self.zone_list(player, from);
        let shifted = self.with_zone_list(player, from, list.skip(k as int)).with_zone_list(
            player,
            to,
            self.zone_list(player, to) + list.take(k as int),
        );
        StateModel { objects: rezoned(self.objects, list.take(k as int), to), ..shifted }
    }
}

/// What a transfer does to the zones of every player.
pub proof fn transfer_lists(s: StateModel, player: PlayerId, from: Zone, to: Zone, k: nat)
    requires
        s.has_player(player),
        from != to,
        is_private(from),
        is_private(to),
    ensures
        same_ids(s.players, s.transferred(player, from, to, k).players),
        forall|other: PlayerId| #[trigger]
            s.transferred(player, from, to, k).has_player(other) == s.has_player(other),
        forall|other: PlayerId, zone: Zone|
            s.has_player(other) ==> #[trigger] s.transferred(player, from, to, k).zone_list(
                other,
                zone,
            ) == if other == player && zone == from {
                s.zone_list(player, from).skip(k as int)
            } else if other == player && zone == to {
                s.zone_list(player, to) + s.zone_list(player, from).take(k as int)
            } else {
                s.zone_list(other, zone)
            },
{
    let list = s.zone_list(player, from);
    let once = s.with_zone_list(player, from, list.skip(k as int));
    let twice = once.with_zone_list(player, to, s.zone_list(player, to) + list.take(k as int));
    let t = s.transferred(player, from, to, k);
    zone_lists_are_separate(s, player, from, list.skip(k as int));
    assert(once.has_player(player));
    zone_lists_are_separate(once, player, to, s.zone_list(player, to) + list.take(k as int));
    assert forall|other: PlayerId| #[trigger] t.has_player(other) == s.has_player(other) by {
        assert(twice.has_player(other) == once.has_player(other));
        assert(once.has_player(other) == s.has_player(other));
    }
    assert forall|other: PlayerId, zone: Zone| s.has_player(other) implies #[trigger] t.zone_list(
        other,
        zone,
    ) == if other == player && zone == from {
        list.skip(k as int)
    } else if other == player && zone == to {
        s.zone_list(player, to) + list.take(k as int)
    } else {
        s.zone_list(other, zone)
    } by {
        assert(once.has_player(other));
        assert(t.zone_list(other, zone) == twice.zone_list(other, zone));
        assert(once.zone_list(other, zone) == once.zone_list(other, zone));
    }
}

/// One more card of a transfer is one more move.
pub proof fn transfer_step(s: StateModel, player: PlayerId, from: Zone, to: Zone, k: nat)
    requires
        s.valid(),
        s.has_player(player),
        from != to,
        is_private(from),
        is_private(to),
        k < s.zone_list(player, from).len(),
    ensures
        ({
            let before = s.transferred(player, from, to, k);
            let id = s.zone_list(player, from)[k as int];
            &&& before.objects.contains_key(id)
            &&& before.objects[id].owner == player
            &&& before.objects[id].zone == from
            &&& before.has_player(player)
            &&& before.moved(id, to) == s.transferred(player, from, to, k + 1)
        }),
{
    let list = s.zone_list(player, from);
    let id = list[k as int];
    let before = s.transferred(player, from, to, k);
    let after = s.transferred(player, from, to, k + 1);
    transfer_lists(s, player, from, to, k);
    transfer_lists(s, player, from, to, k + 1);
    assert(s.zone_matches(player, from));
    assert(list.contains(id));
    assert(s.resides(id, player, from));
    assert(!list.take(k as int).contains(id)) by {
        if list.take(k as int).contains(id) {
            let i = choose|i: int| 0 <= i < k && list.take(k as int)[i] == id;
            assert(list[i] == list[k as int]);
        }
    }
    assert(before.has_player(player));
    let rest = list.skip(k as int);
    assert(before.zone_list(player, from) == rest);
    rest.index_of_first_ensures(id);
    assert(rest[0] == id);
    assert(rest.contains(id));
    assert(rest.remove_value(id) =~= list.skip((k + 1) as int));
    assert(list.take((k + 1) as int) =~= list.take(k as int).push(id));
    let lifted = before.lifted(id);
    zone_lists_are_separate(before, player, from, list.skip((k + 1) as int));
    assert(lifted.has_player(player));
    assert(lifted.zone_list(player, to) == s.zone_list(player, to) + list.take(k as int));
    assert(lifted.zone_list(player, to).push(id) =~= s.zone_list(player, to) + list.take(
        (k + 1) as int,
    ));
    assert(before.moved(id, to).objects =~= after.objects) by {
        assert forall|other: ObjectId| list.take((k + 1) as int).contains(other) <==> (list.take(
            k as int,
        ).contains(other) || other == id) by {
            let taken = list.take(k as int);
            if taken.contains(other) {
                let i = choose|i: int| 0 <= i < taken.len() && taken[i] == other;
                assert(taken.push(id)[i] == other);
            }
            assert(taken.push(id)[taken.len() as int] == id);
        }
    }
    let more = s.zone_list(player, to) + list.take((k + 1) as int);
    let most = s.zone_list(player, to) + list.take(k as int);
    let once = s.with_zone_list(player, from, rest);
    let next = s.with_zone_list(player, from, list.skip((k + 1) as int));
    let shifted = once.with_zone_list(player, to, most);
    zone_lists_are_separate(s, player, from, rest);
    assert(once.has_player(player));
    writing_zone_lists(once, player, from, to, list.skip((k + 1) as int), most);
    writing_zone_lists(s, player, from, to, rest, list.skip((k + 1) as int));
    assert(shifted.with_zone_list(player, from, list.skip((k + 1) as int)) == next.with_zone_list(
        player,
        to,
        most,
    ));
    zone_lists_are_separate(s, player, from, list.skip((k + 1) as int));
    assert(next.has_player(player));
    writing_zone_lists(next, player, to, from, most, more);
    assert(before.moved(id, to).players =~= next.with_zone_list(player, to, more).players);
    assert(before.moved(id, to) =~= after);
}

/// A transfer keeps a valid game valid.
pub proof fn transferring_keeps_valid(
    s: StateModel,
    player: PlayerId,
    from: Zone,
    to: Zone,
    k: nat,
)
    requires
        s.valid(),
        s.has_player(player),
        from != to,
        is_private(from),
        is_private(to),
        k <= s.zone_list(player, from).len(),
    ensures
        s.transferred(player, from, to, k).valid(),
    decreases k,
{
    if k == 0 {
        transfer_of_nothing(s, player, from, to);
    } else {
        transferring_keeps_valid(s, player, from, to, (k - 1) as nat);
        transfer_step(s, player, from, to, (k - 1) as nat);
        moving_keeps_valid(
            s.transferred(player, from, to, (k - 1) as nat),
            s.zone_list(player, from)[k - 1],
            to,
        );
    }
}

/// Moving no card changes nothing.
pub proof fn transfer_of_nothing(s: StateModel, player: PlayerId, from: Zone, to: Zone)
    requires
        s.has_player(player),
        from != to,
        is_private(from),
        is_private(to),
    ensures
        s.transferred(player, from, to, 0) == s,
{
    let t = s.transferred(player, from, to, 0);
    same_ids_same_positions(s.players, s.players, player);
    transfer_lists(s, player, from, to, 0);
    assert(s.zone_list(player, from).skip(0) =~= s.zone_list(player, from));
    assert(s.zone_list(player, to) + s.zone_list(player, from).take(0) =~= s.zone_list(player, to));
    same_ids_same_positions(
        s.players,
        s.with_zone_list(player, from, s.zone_list(player, from).skip(0)).players,
        player,
    );
    assert(t.players =~= s.players);
    assert(t.objects =~= s.objects);
    assert(t =~= s);
}

impl StateModel {
    /// A new card enters the game at the end of a zone.
    pub open spec fn created(
        self,
        card_id: CardId,
        owner: PlayerId,
        name: Seq<char>,
        zone: Zone,
    ) -> StateModel {
        let id = ObjectId(self.next_object_id);
        let placed = self.with_zone_list(owner, zone, self.zone_list(owner, zone).push(id));
        StateModel {
            objects: self.objects.insert(id, plain_object(id, card_id, owner, name, zone)),
            next_object_id: (self.next_object_id + 1) as u64,
            ..placed
        }
    }
}

/// Creates a card in a zone of its owner.
pub fn create_object(
    state: &mut GameState,
    card_id: CardId,
    owner: PlayerId,
    name: String,
    zone: Zone,
) -> (id: ObjectId)
    requires
        old(state)@.has_player(owner),
        old(state)@.next_object_id < u64::MAX,
    ensures
        id == ObjectId(old(state)@.next_object_id),
        final(state)@ == old(state)@.created(card_id, owner, name@, zone),
        old(state)@.valid() ==> final(state)@.valid(),
{
    let id = ObjectId(state.next_object_id);
    append(state, id, owner, zone);
    state.next_object_id = state.next_object_id + 1;
    let ghost text = name@;
    state.objects.insert(id, GameObject::new(id, card_id, owner, name, zone));
    proof {
        assert(state@ =~= old(state)@.created(card_id, owner, text, zone));
        if old(state)@.valid() {
            creating_keeps_valid(old(state)@, card_id, owner, text, zone);
        }
    }
    id
}

proof fn creating_keeps_valid(
    s: StateModel,
    card_id: CardId,
    owner: PlayerId,
    name: Seq<char>,
    zone: Zone,
)
    requires
        s.valid(),
        s.has_player(owner),
        s.next_object_id < u64::MAX,
    ensures
        s.created(card_id, owner, name, zone).valid(),
{
    let id = ObjectId(s.next_object_id);
    let list = s.zone_list(owner, zone);
    let placed = s.with_zone_list(owner, zone, list.push(id));
    let t = s.created(card_id, owner, name, zone);
    zone_lists_are_separate(s, owner, zone, list.push(id));
    assert(!s.objects.contains_key(id));
    assert forall|i: int, j: int| 0 <= i < j < t.players.len() implies (
    #[trigger] t.players[i]).id != (#[trigger] t.players[j]).id by {
        assert(s.players[i].id != s.players[j].id);
    }
    assert forall|other: PlayerId| #[trigger] t.has_player(other) == s.has_player(other) by {
        assert(placed.has_player(other) == s.has_player(other));
    }
    assert forall|i: int| 0 <= i < t.seat_order.len() implies t.has_player(
        #[trigger] t.seat_order[i],
    ) by {
        assert(s.has_player(s.seat_order[i]));
    }
    assert forall|other: ObjectId| #[trigger] t.objects.contains_key(other) implies t.has_player(
        t.objects[other].owner,
    ) && t.objects[other].id == other && other.0 < t.next_object_id by {
        if other != id {
            assert(s.objects.contains_key(other));
        }
    }
    assert forall|who: PlayerId, place: Zone|
        t.has_player(who) && place != Zone::Stack implies #[trigger] t.zone_matches(who, place) by {
        assert(s.has_player(who));
        assert(t.zone_list(who, place) == placed.zone_list(who, place));
        assert(s.zone_matches(who, place));
        let before = s.zone_list(who, place);
        assert(before.contains(id) <==> s.resides(id, who, place));
        assert forall|other: ObjectId| #[trigger]
            t.zone_list(who, place).contains(other) <==> t.resides(other, who, place) by {
            assert(before.contains(other) <==> s.resides(other, who, place));
            if before.contains(other) {
                let i = choose|i: int| 0 <= i < before.len() && before[i] == other;
                assert(before.push(id)[i] == other);
            }
            assert(before.push(id)[before.len() as int] == id);
        }
    }
}

} // verus!
