use vstd::prelude::*;
use crate::game::zones::move_to_zone;
#[allow(unused_imports)]
use crate::game::zones::{moving_keeps_frame, moving_keeps_valid};
use crate::types::ability::{
    clone_counters, Effect, EffectKind, ResolvedAbility, TargetFilter, TargetRef,
};
#[allow(unused_imports)]
use crate::types::ability::AbilityModel;
use crate::types::events::GameEvent;
#[allow(unused_imports)]
use crate::types::game_object::ObjectModel;
use crate::types::game_state::GameState;
#[allow(unused_imports)]
use crate::types::game_state::{restyling_keeps_valid, same_frame, StateModel};
use crate::types::identifiers::ObjectId;
use crate::types::player::find_player;
use crate::types::zones::Zone;

verus! {

/// The objects among the targets, in order.
pub open spec fn object_targets(targets: Seq<TargetRef>) -> Seq<ObjectId>
    decreases targets.len(),
{
    if targets.len() == 0 {
        Seq::empty()
    } else {
        match targets.last() {
            TargetRef::Object(id) => object_targets(targets.drop_last()).push(id),
            TargetRef::Player(_) => object_targets(targets.drop_last()),
        }
    }
}

/// The objects that an ability moves: its source, or what it targets.
pub open spec fn moved_objects(ability: AbilityModel) -> Seq<ObjectId> {
    if ability.effect->ChangeZone_target == TargetFilter::SelfRef {
        seq![ability.source_id]
    } else {
        object_targets(ability.targets)
    }
}

/// An object moves if it is there, its owner is in the game, and it is where it has to come from.
pub open spec fn can_move(s: StateModel, ability: AbilityModel, id: ObjectId) -> bool {
    &&& s.objects.contains_key(id)
    &&& s.has_player(s.objects[id].owner)
    &&& ability.effect->ChangeZone_origin matches Some(origin) ==> s.objects[id].zone == origin
}

/// How an object arrives on the battlefield.
pub open spec fn arrival(object: ObjectModel, ability: AbilityModel) -> ObjectModel {
    ObjectModel {
        controller: if ability.effect->ChangeZone_under_your_control {
            ability.controller
        } else {
            object.controller
        },
        tapped: ability.effect->ChangeZone_enter_tapped,
        transformed: ability.effect->ChangeZone_enter_transformed,
        attacking: ability.effect->ChangeZone_enters_attacking,
        counters: ability.effect->ChangeZone_enter_with_counters,
        ..object
    }
}

/// The state after one object has been moved, or left where it is.
pub open spec fn one_moved(s: StateModel, ability: AbilityModel, id: ObjectId) -> StateModel {
    let to = ability.effect->ChangeZone_destination;
    let moved = s.moved(id, to);
    if !can_move(s, ability, id) {
        s
    } else if to == Zone::Battlefield {
        StateModel {
            objects: moved.objects.insert(id, arrival(moved.objects[id], ability)),
            ..moved
        }
    } else {
        moved
    }
}

pub open spec fn all_moved(
    s: StateModel,
    ability: AbilityModel,
    ids: Seq<ObjectId>,
) -> StateModel
    decreases ids.len(),
{
    if ids.len() == 0 {
        s
    } else {
        one_moved(all_moved(s, ability, ids.drop_last()), ability, ids.last())
    }
}

pub open spec fn move_events(
    s: StateModel,
    ability: AbilityModel,
    ids: Seq<ObjectId>,
) -> Seq<GameEvent>
    decreases ids.len(),
{
    if ids.len() == 0 {
        Seq::empty()
    } else {
        let before = all_moved(s, ability, ids.drop_last());
        let events = move_events(s, ability, ids.drop_last());
        if can_move(before, ability, ids.last()) {
            events.push(
                before.zone_change(ids.last(), ability.effect->ChangeZone_destination),
            )
        } else {
            events
        }
    }
}

/// The state after a zone-change effect.
pub open spec fn after_change_zone(s: StateModel, ability: AbilityModel) -> StateModel {
    all_moved(s, ability, moved_objects(ability))
}

pub open spec fn change_zone_events(s: StateModel, ability: AbilityModel) -> Seq<GameEvent> {
    move_events(s, ability, moved_objects(ability)).push(
        GameEvent::EffectResolved { kind: EffectKind::ChangeZone, source_id: ability.source_id },
    )
}

proof fn one_moved_keeps(s: StateModel, ability: AbilityModel, id: ObjectId)
    ensures
        same_frame(s, one_moved(s, ability, id)),
        one_moved(s, ability, id).waiting_for == s.waiting_for,
        s.objects.dom().subset_of(one_moved(s, ability, id).objects.dom()),
        s.valid() ==> one_moved(s, ability, id).valid(),
{
    if can_move(s, ability, id) {
        let to = ability.effect->ChangeZone_destination;
        let moved = s.moved(id, to);
        moving_keeps_frame(s, id, to);
        if s.valid() {
            moving_keeps_valid(s, id, to);
            if to == Zone::Battlefield {
                restyling_keeps_valid(moved, id, arrival(moved.objects[id], ability));
            }
        }
    }
}

proof fn all_moved_keeps(s: StateModel, ability: AbilityModel, ids: Seq<ObjectId>)
    ensures
        same_frame(s, all_moved(s, ability, ids)),
        all_moved(s, ability, ids).waiting_for == s.waiting_for,
        s.objects.dom().subset_of(all_moved(s, ability, ids).objects.dom()),
        s.valid() ==> all_moved(s, ability, ids).valid(),
    decreases ids.len(),
{
    if ids.len() > 0 {
        all_moved_keeps(s, ability, ids.drop_last());
        one_moved_keeps(all_moved(s, ability, ids.drop_last()), ability, ids.last());
    }
}

/// A zone-change effect keeps a valid game valid and leaves everything but zones and objects
/// alone.
pub proof fn change_zone_keeps(s: StateModel, ability: AbilityModel)
    ensures
        same_frame(s, after_change_zone(s, ability)),
        after_change_zone(s, ability).waiting_for == s.waiting_for,
        s.objects.dom().subset_of(after_change_zone(s, ability).objects.dom()),
        s.valid() ==> after_change_zone(s, ability).valid(),
{
    all_moved_keeps(s, ability, moved_objects(ability));
}

fn collect_objects(targets: &Vec<TargetRef>) -> (ids: Vec<ObjectId>)
    ensures
        ids@ == object_targets(targets@),
{
    let mut ids: Vec<ObjectId> = Vec::new();
    for i in 0..targets.len()
        invariant
            ids@ == object_targets(targets@.take(i as int)),
    {
        assert(targets@.take(i + 1).drop_last() =~= targets@.take(i as int));
        if let TargetRef::Object(id) = targets[i] {
            ids.push(id);
        }
    }
    assert(targets@.take(targets@.len() as int) =~= targets@);
    ids
}

fn move_one(
    state: &mut GameState,
    ability: &ResolvedAbility,
    id: ObjectId,
    events: &mut Vec<GameEvent>,
)
    requires
        ability@.effect is ChangeZone,
    ensures
        final(state)@ == one_moved(old(state)@, ability@, id),
        final(events)@ == if can_move(old(state)@, ability@, id) {
            old(events)@.push(
                old(state)@.zone_change(id, ability@.effect->ChangeZone_destination),
            )
        } else {
            old(events)@
        },
{
    if let Effect::ChangeZone {
        destination,
        origin,
        enter_transformed,
        under_your_control,
        enter_tapped,
        enters_attacking,
        enter_with_counters,
        ..
    } = &ability.effect {
        let (owner, zone) = match state.objects.get(&id) {
            Some(object) => (object.owner, object.zone),
            None => {
                return ;
            },
        };
        if find_player(&state.players, owner).is_none() {
            return ;
        }
        if let Some(origin) = origin {
            if zone != *origin {
                return ;
            }
        }
        move_to_zone(state, id, *destination, events);
        if *destination == Zone::Battlefield {
            let ghost moved = state@;
            let object = state.objects.get_mut(&id).unwrap();
            if *under_your_control {
                object.controller = ability.controller;
            }
            object.tapped = *enter_tapped;
            object.transformed = *enter_transformed;
            object.attacking = *enters_attacking;
            object.counters = clone_counters(enter_with_counters);
            assert(state@ =~= one_moved(old(state)@, ability@, id));
        }
    }
}

/// Moves the source of the ability, or the objects it targets, to another zone.
pub fn resolve(state: &mut GameState, ability: &ResolvedAbility, events: &mut Vec<GameEvent>)
    requires
        ability@.effect is ChangeZone,
    ensures
        final(state)@ == after_change_zone(old(state)@, ability@),
        final(events)@ == old(events)@ + change_zone_events(old(state)@, ability@),
{
    let ghost start = state@;
    let itself = matches!(
        &ability.effect,
        Effect::ChangeZone { target: TargetFilter::SelfRef, .. }
    );
    let ids: Vec<ObjectId> = if itself {
        vec![ability.source_id]
    } else {
        collect_objects(&ability.targets)
    };
    assert(ids@ =~= moved_objects(ability@));
    for i in 0..ids.len()
        invariant
            ability@.effect is ChangeZone,
            start == old(state)@,
            state@ == all_moved(start, ability@, ids@.take(i as int)),
            events@ =~= old(events)@ + move_events(start, ability@, ids@.take(i as int)),
    {
        assert(ids@.take(i + 1).drop_last() =~= ids@.take(i as int));
        move_one(state, ability, ids[i], events);
    }
    assert(ids@.take(ids@.len() as int) =~= ids@);
    events.push(
        GameEvent::EffectResolved { kind: EffectKind::ChangeZone, source_id: ability.source_id },
    );
    assert(events@ =~= old(events)@ + change_zone_events(start, ability@));
}

} // verus!
