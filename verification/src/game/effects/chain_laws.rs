//! How abilities resolve, written out: what each effect does, how often, and what comes after it.

use vstd::prelude::*;
#[allow(unused_imports)]
use crate::game::effects::{
    chain_outcome, chain_start, effect_outcome, repeated_outcome, repetitions, Outcome,
};
#[allow(unused_imports)]
use crate::game::effects::change_zone::{
    after_change_zone, all_moved, can_move, change_zone_events, move_events, moved_objects,
    one_moved,
};
#[allow(unused_imports)]
use crate::game::effects::copy_spell::{after_copy_effect, copy_effect_events, copy_source};
#[allow(unused_imports)]
use crate::types::ability::{
    AbilityModel, EffectKind, EffectModel, ErrorModel, QuantityExpr, TargetFilter, TargetRef,
};
#[allow(unused_imports)]
use crate::types::events::GameEvent;
#[allow(unused_imports)]
use crate::types::game_object::ObjectModel;
#[allow(unused_imports)]
use crate::types::game_state::{StateModel, WaitModel};
#[allow(unused_imports)]
use crate::types::identifiers::ObjectId;
#[allow(unused_imports)]
use crate::types::zones::Zone;

verus! {

/// Before an ability may happen or not, its controller is asked; it then waits, to happen without
/// asking again, and nothing else changes.
pub proof fn optional_abilities_ask_first(
    s: StateModel,
    ability: AbilityModel,
    events: Seq<GameEvent>,
    depth: nat,
)
    requires
        depth <= 20,
        ability.optional,
    ensures
        chain_outcome(s, ability, events, depth) == (Outcome {
            state: StateModel {
                waiting_for: WaitModel::OptionalEffectChoice {
                    player: ability.controller,
                    source_id: ability.source_id,
                    description: ability.description,
                },
                pending_optional_ability: Some(AbilityModel { optional: false, ..ability }),
                ..s
            },
            events,
            error: None,
        }),
{
}

/// A chain of more than twenty sub-abilities breaks off with an error and no further effect.
pub proof fn chains_do_not_go_on_for_ever(
    s: StateModel,
    ability: AbilityModel,
    events: Seq<GameEvent>,
    depth: nat,
)
    requires
        depth > 20,
    ensures
        chain_outcome(s, ability, events, depth) == (Outcome {
            state: s,
            events,
            error: Some(ErrorModel::ChainTooDeep),
        }),
{
}

/// An ability that happens once, by itself.
pub open spec fn once(ability: AbilityModel) -> AbilityModel {
    AbilityModel { repeat_for: None, sub_ability: None, ..ability }
}

/// Nothing failed, and nobody has to choose.
pub open spec fn carries_on(outcome: Outcome) -> bool {
    outcome.error is None && outcome.state.waiting_for is Priority
}

/// The first ability of a chain, however often it happens, finds the active player with priority.
pub proof fn chains_start_with_priority(
    s: StateModel,
    ability: AbilityModel,
    events: Seq<GameEvent>,
)
    requires
        !ability.optional,
        ability.sub_ability is None,
    ensures
        chain_outcome(s, ability, events, 0) == chain_outcome(
            (StateModel {
                waiting_for: WaitModel::Priority { player: s.active_player },
                ..s
            }),
            ability,
            events,
            1,
        ),
{
}

/// The sub-ability follows once the ability has happened, unless it failed or somebody has to
/// choose first.
pub proof fn sub_abilities_follow(
    s: StateModel,
    ability: AbilityModel,
    events: Seq<GameEvent>,
    depth: nat,
)
    requires
        depth <= 20,
        !ability.optional,
        ability.sub_ability is Some,
    ensures
        ({
            let first = chain_outcome(
                s,
                (AbilityModel { sub_ability: None, ..ability }),
                events,
                depth,
            );
            chain_outcome(s, ability, events, depth) == if carries_on(first) {
                chain_outcome(first.state, *(ability.sub_ability->0), first.events, depth + 1)
            } else {
                first
            }
        }),
{
    let alone = AbilityModel { sub_ability: None, ..ability };
    let start = chain_start(s, depth);
    same_repetitions(start, ability, alone, events, repetitions(ability));
}

proof fn same_repetitions(
    s: StateModel,
    one: AbilityModel,
    two: AbilityModel,
    events: Seq<GameEvent>,
    n: nat,
)
    requires
        one.effect == two.effect,
        one.targets == two.targets,
        one.source_id == two.source_id,
        one.controller == two.controller,
    ensures
        repeated_outcome(s, one, events, n) == repeated_outcome(s, two, events, n),
    decreases n,
{
    if n > 0 {
        same_effect(s, one, two, events);
        let first = effect_outcome(s, one, events);
        if first.goes_on() {
            same_repetitions(first.state, one, two, first.events, (n - 1) as nat);
        }
    }
}

/// What an effect does depends on the effect, its targets, its source and its controller alone.
pub proof fn same_effect(
    s: StateModel,
    one: AbilityModel,
    two: AbilityModel,
    events: Seq<GameEvent>,
)
    requires
        one.effect == two.effect,
        one.targets == two.targets,
        one.source_id == two.source_id,
        one.controller == two.controller,
    ensures
        effect_outcome(s, one, events) == effect_outcome(s, two, events),
{
    assert(moved_objects(one) == moved_objects(two));
    same_moves(s, one, two, moved_objects(one));
}

proof fn same_moves(s: StateModel, one: AbilityModel, two: AbilityModel, ids: Seq<ObjectId>)
    requires
        one.effect == two.effect,
        one.controller == two.controller,
    ensures
        all_moved(s, one, ids) == all_moved(s, two, ids),
        move_events(s, one, ids) == move_events(s, two, ids),
    decreases ids.len(),
{
    if ids.len() > 0 {
        same_moves(s, one, two, ids.drop_last());
        let before = all_moved(s, one, ids.drop_last());
        assert(can_move(before, one, ids.last()) == can_move(before, two, ids.last()));
        assert(one_moved(before, one, ids.last()) == one_moved(before, two, ids.last()));
    }
}

/// An ability that happens no time at all does nothing.
pub proof fn no_time_is_nothing(
    s: StateModel,
    ability: AbilityModel,
    events: Seq<GameEvent>,
    depth: nat,
    value: i32,
)
    requires
        0 < depth <= 20,
        !ability.optional,
        ability.sub_ability is None,
        ability.repeat_for == Some(QuantityExpr::Fixed { value }),
        value <= 0,
    ensures
        chain_outcome(s, ability, events, depth) == (Outcome { state: s, events, error: None }),
{
}

/// An ability that happens several times happens once and then the other times, as long as nothing
/// fails and nobody has to choose.
pub proof fn several_times_is_once_and_again(
    s: StateModel,
    ability: AbilityModel,
    events: Seq<GameEvent>,
    depth: nat,
    value: i32,
)
    requires
        0 < depth <= 20,
        !ability.optional,
        ability.sub_ability is None,
        ability.repeat_for == Some(QuantityExpr::Fixed { value }),
        value > 0,
    ensures
        ({
            let first = chain_outcome(s, once(ability), events, depth);
            chain_outcome(s, ability, events, depth) == if carries_on(first) {
                chain_outcome(
                    first.state,
                    (AbilityModel {
                        repeat_for: Some(QuantityExpr::Fixed { value: (value - 1) as i32 }),
                        ..ability
                    }),
                    first.events,
                    depth,
                )
            } else {
                first
            }
        }),
{
    let single = once(ability);
    let fewer = AbilityModel {
        repeat_for: Some(QuantityExpr::Fixed { value: (value - 1) as i32 }),
        ..ability
    };
    same_effect(s, ability, single, events);
    let first = effect_outcome(s, single, events);
    assert(repeated_outcome(s, single, events, 1) == first) by {
        assert(repeated_outcome(first.state, single, first.events, 0) == (Outcome {
            state: first.state,
            events: first.events,
            error: None,
        }));
        if first.goes_on() {
            assert(first =~= (Outcome {
                state: first.state,
                events: first.events,
                error: None,
            }));
        }
    }
    if first.goes_on() {
        same_repetitions(first.state, ability, fewer, first.events, (value - 1) as nat);
    }
}

/// A copy effect copies, and fails exactly if there is nothing to copy or no identifier is left.
pub proof fn copy_effects_copy(
    s: StateModel,
    ability: AbilityModel,
    events: Seq<GameEvent>,
    depth: nat,
)
    requires
        0 < depth <= 20,
        !ability.optional,
        ability.sub_ability is None,
        ability.repeat_for is None,
        ability.effect is CopySpell,
    ensures
        ({
            let outcome = chain_outcome(s, ability, events, depth);
            &&& s.next_object_id < u64::MAX ==> {
                &&& outcome.state == after_copy_effect(s, ability)
                &&& outcome.events == events + copy_effect_events(s, ability)
                &&& copy_source(s, ability) is Some ==> outcome.error is None
                &&& copy_source(s, ability) is None ==> outcome.error == Some(
                    ErrorModel::MissingParam("No spell or ability on stack to copy"@),
                )
            }
            &&& s.next_object_id == u64::MAX ==> outcome == (Outcome {
                state: s,
                events,
                error: Some(ErrorModel::IdsExhausted),
            })
        }),
{
    let first = effect_outcome(s, ability, events);
    if first.goes_on() {
        assert(repeated_outcome(first.state, ability, first.events, 0) =~= first);
    }
}

/// A card that puts itself somewhere from where it has to be goes there, under its controller or
/// whoever controls the ability, tapped, transformed, attacking and with counters as the effect
/// says if it enters the battlefield. From anywhere else it stays where it is. Either way the
/// effect has resolved.
pub proof fn cards_put_themselves_where_they_say(
    s: StateModel,
    ability: AbilityModel,
    events: Seq<GameEvent>,
    depth: nat,
)
    requires
        0 < depth <= 20,
        !ability.optional,
        ability.sub_ability is None,
        ability.repeat_for is None,
        ability.effect is ChangeZone,
        ability.effect->ChangeZone_target == TargetFilter::SelfRef,
        s.objects.contains_key(ability.source_id),
        s.has_player(s.objects[ability.source_id].owner),
    ensures
        ({
            let id = ability.source_id;
            let from = s.objects[id].zone;
            let to = ability.effect->ChangeZone_destination;
            let there = ability.effect->ChangeZone_origin is None
                || ability.effect->ChangeZone_origin == Some(from);
            let moved = s.moved(id, to);
            let resolved = GameEvent::EffectResolved {
                kind: EffectKind::ChangeZone,
                source_id: id,
            };
            let outcome = chain_outcome(s, ability, events, depth);
            &&& outcome.error is None
            &&& outcome.state == after_change_zone(s, ability)
            &&& outcome.events == events + change_zone_events(s, ability)
            &&& !there ==> outcome.state == s && outcome.events == events.push(resolved)
            &&& there ==> outcome.events == events.push(
                GameEvent::ZoneChanged { object_id: id, from, to },
            ).push(resolved)
            &&& there && to != Zone::Battlefield ==> outcome.state == moved
            &&& there && to == Zone::Battlefield ==> outcome.state == (StateModel {
                objects: moved.objects.insert(
                    id,
                    ObjectModel {
                        controller: if ability.effect->ChangeZone_under_your_control {
                            ability.controller
                        } else {
                            moved.objects[id].controller
                        },
                        tapped: ability.effect->ChangeZone_enter_tapped,
                        transformed: ability.effect->ChangeZone_enter_transformed,
                        attacking: ability.effect->ChangeZone_enters_attacking,
                        counters: ability.effect->ChangeZone_enter_with_counters,
                        ..moved.objects[id]
                    },
                ),
                ..moved
            })
        }),
{
    let id = ability.source_id;
    let ids = seq![id];
    assert(moved_objects(ability) =~= ids);
    assert(ids.drop_last() =~= Seq::empty());
    assert(all_moved(s, ability, ids.drop_last()) == s);
    assert(move_events(s, ability, ids.drop_last()) =~= Seq::empty());
    assert(ids.last() == id);
    let first = effect_outcome(s, ability, events);
    if first.goes_on() {
        assert(repeated_outcome(first.state, ability, first.events, 0) =~= first);
    }
    let from = s.objects[id].zone;
    let to = ability.effect->ChangeZone_destination;
    let resolved = GameEvent::EffectResolved { kind: EffectKind::ChangeZone, source_id: id };
    if can_move(s, ability, id) {
        assert(events + change_zone_events(s, ability) =~= events.push(
            GameEvent::ZoneChanged { object_id: id, from, to },
        ).push(resolved));
    } else {
        assert(events + change_zone_events(s, ability) =~= events.push(resolved));
    }
}

/// Effects other than copying and changing zones fail without doing anything, and say which effect
/// it was.
pub proof fn other_effects_fail(
    s: StateModel,
    ability: AbilityModel,
    events: Seq<GameEvent>,
    depth: nat,
)
    requires
        0 < depth <= 20,
        !ability.optional,
        ability.repeat_for is None,
        ability.effect is DealDamage || ability.effect is Draw || ability.effect is Mill,
    ensures
        ({
            let kind = if ability.effect is DealDamage {
                EffectKind::DealDamage
            } else if ability.effect is Draw {
                EffectKind::Draw
            } else {
                EffectKind::Mill
            };
            chain_outcome(s, ability, events, depth) == (Outcome {
                state: s,
                events,
                error: Some(ErrorModel::NoHandler(kind)),
            })
        }),
{
}

/// A card that is not there, or whose owner has left, goes nowhere; the effect has resolved.
pub proof fn absent_cards_go_nowhere(s: StateModel, ability: AbilityModel)
    requires
        ability.effect is ChangeZone,
        ability.effect->ChangeZone_target == TargetFilter::SelfRef,
        !s.objects.contains_key(ability.source_id) || !s.has_player(
            s.objects[ability.source_id].owner,
        ),
    ensures
        after_change_zone(s, ability) == s,
        change_zone_events(s, ability) == seq![
            GameEvent::EffectResolved {
                kind: EffectKind::ChangeZone,
                source_id: ability.source_id,
            },
        ],
{
    let ids = seq![ability.source_id];
    assert(moved_objects(ability) =~= ids);
    assert(ids.drop_last() =~= Seq::empty());
    assert(all_moved(s, ability, ids.drop_last()) == s);
    assert(move_events(s, ability, ids.drop_last()) =~= Seq::empty());
    assert(ids.last() == ability.source_id);
}

/// The same effect on a card that puts itself somewhere.
pub open spec fn of_itself(ability: AbilityModel, id: ObjectId) -> AbilityModel {
    match ability.effect {
        EffectModel::ChangeZone {
            destination,
            target,
            origin,
            owner_library,
            enter_transformed,
            under_your_control,
            enter_tapped,
            enters_attacking,
            up_to,
            enter_with_counters,
        } => AbilityModel {
            effect: EffectModel::ChangeZone {
                destination,
                target: TargetFilter::SelfRef,
                origin,
                owner_library,
                enter_transformed,
                under_your_control,
                enter_tapped,
                enters_attacking,
                up_to,
                enter_with_counters,
            },
            source_id: id,
            ..ability
        },
        _ => ability,
    }
}

/// Without targets nothing moves. The objects targeted move one after the other, in the order of
/// the targets, each as if it put itself there; players among the targets have no part in it.
pub proof fn targets_move_one_after_the_other(
    s: StateModel,
    ability: AbilityModel,
    target: TargetRef,
)
    requires
        ability.effect is ChangeZone,
        ability.effect->ChangeZone_target != TargetFilter::SelfRef,
    ensures
        ({
            let more = AbilityModel { targets: ability.targets.push(target), ..ability };
            let before = after_change_zone(s, ability);
            let reported = change_zone_events(s, ability);
            let resolved = GameEvent::EffectResolved {
                kind: EffectKind::ChangeZone,
                source_id: ability.source_id,
            };
            &&& ability.targets.len() == 0 ==> before == s && reported == seq![resolved]
            &&& target is Player ==> after_change_zone(s, more) == before && change_zone_events(
                s,
                more,
            ) == reported
            &&& target matches TargetRef::Object(id) ==> {
                let last = of_itself(ability, id);
                &&& after_change_zone(s, more) == after_change_zone(before, last)
                &&& change_zone_events(s, more) == reported.drop_last() + change_zone_events(
                    before,
                    last,
                ).drop_last().push(resolved)
            }
        }),
{
    let more = AbilityModel { targets: ability.targets.push(target), ..ability };
    let ids = moved_objects(ability);
    assert(more.targets.drop_last() =~= ability.targets);
    same_moves(s, ability, more, ids);
    if let TargetRef::Object(id) = target {
        let last = of_itself(ability, id);
        let all = ids.push(id);
        assert(moved_objects(more) == all);
        assert(all.drop_last() =~= ids);
        let before = all_moved(s, ability, ids);
        let one = seq![id];
        assert(moved_objects(last) =~= one);
        assert(one.drop_last() =~= Seq::empty());
        assert(all_moved(before, last, one.drop_last()) == before);
        assert(move_events(before, last, one.drop_last()) =~= Seq::empty());
        assert(one.last() == id);
        assert(can_move(before, more, id) == can_move(before, last, id));
        assert(one_moved(before, more, id) == one_moved(before, last, id));
        let resolved = GameEvent::EffectResolved {
            kind: EffectKind::ChangeZone,
            source_id: ability.source_id,
        };
        assert(change_zone_events(s, ability).drop_last() =~= move_events(s, ability, ids));
        assert(change_zone_events(before, last).drop_last() =~= move_events(before, last, one));
        assert(change_zone_events(s, more) =~= change_zone_events(s, ability).drop_last()
            + change_zone_events(before, last).drop_last().push(resolved));
    }
}

} // verus!
