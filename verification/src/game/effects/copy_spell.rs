use vstd::prelude::*;
use crate::game::functioning_abilities::active_static_definitions;
#[allow(unused_imports)]
use crate::game::functioning_abilities::active_statics;
use crate::types::ability::{
    Effect, EffectError, EffectKind, ResolvedAbility, TargetFilter, TargetRef,
};
#[allow(unused_imports)]
use crate::types::ability::{effect_kind, AbilityModel, EffectModel, ErrorModel};
use crate::types::events::GameEvent;
#[allow(unused_imports)]
use crate::types::game_object::ObjectModel;
use crate::types::game_state::{CopyTargetSlot, GameState, WaitingFor};
#[allow(unused_imports)]
use crate::types::game_state::{same_frame, slot_models, SlotModel, StateModel, WaitModel};
use crate::types::identifiers::{ObjectId, PlayerId};
use crate::types::stack::{StackEntry, StackEntryKind};
#[allow(unused_imports)]
use crate::types::stack::{ability_of, EntryModel, KindModel};
use crate::types::statics::StaticMode;
#[allow(unused_imports)]
use crate::types::statics::StaticDefinition;
use crate::types::zones::Zone;

verus! {

/// The first object among the targets of an ability.
pub open spec fn first_object_target(targets: Seq<TargetRef>) -> Option<ObjectId>
    decreases targets.len(),
{
    if targets.len() == 0 {
        None
    } else {
        match targets[0] {
            TargetRef::Object(id) => Some(id),
            TargetRef::Player(_) => first_object_target(targets.drop_first()),
        }
    }
}

/// The entry nearest the bottom of the stack that has the identifier.
pub open spec fn entry_with_id(stack: Seq<EntryModel>, id: ObjectId) -> Option<EntryModel>
    decreases stack.len(),
{
    if stack.len() == 0 {
        None
    } else if stack[0].id == id {
        Some(stack[0])
    } else {
        entry_with_id(stack.drop_first(), id)
    }
}

/// What a copy effect copies: the object it targets, if it targets one; the entry it comes from,
/// if it copies itself; else the top of the stack.
pub open spec fn copy_source(s: StateModel, ability: AbilityModel) -> Option<EntryModel> {
    match first_object_target(ability.targets) {
        Some(id) => entry_with_id(s.stack, id),
        None => if ability.effect == (EffectModel::CopySpell { target: TargetFilter::SelfRef }) {
            entry_with_id(s.stack, ability.source_id)
        } else if s.stack.len() > 0 {
            Some(s.stack.last())
        } else {
            None
        },
    }
}

/// An entry is protected from being copied by its own ability, or by a static ability of its
/// object that functions.
pub open spec fn cant_be_copied(s: StateModel, entry: EntryModel) -> bool {
    ||| ability_of(entry.kind) matches Some(ability) && ability.cant_be_copied
    ||| s.objects.contains_key(entry.id) && active_statics(s.objects[entry.id]).contains(
        StaticDefinition { mode: StaticMode::CantBeCopied },
    )
}

/// An ability under another controller, along with everything that hangs on it.
pub open spec fn controlled_by(ability: AbilityModel, controller: PlayerId) -> AbilityModel
    decreases ability,
{
    AbilityModel {
        controller,
        sub_ability: match ability.sub_ability {
            Some(sub) => Some(Box::new(controlled_by(*sub, controller))),
            None => None,
        },
        else_ability: match ability.else_ability {
            Some(sub) => Some(Box::new(controlled_by(*sub, controller))),
            None => None,
        },
        ..ability
    }
}

pub open spec fn kind_controlled_by(kind: KindModel, controller: PlayerId) -> KindModel {
    match kind {
        KindModel::Spell { card_id, ability, casting_variant, actual_mana_spent } =>
            KindModel::Spell {
                card_id,
                ability: match ability {
                    Some(ability) => Some(controlled_by(ability, controller)),
                    None => None,
                },
                casting_variant,
                actual_mana_spent,
            },
        KindModel::ActivatedAbility { source_id, ability } => KindModel::ActivatedAbility {
            source_id,
            ability: controlled_by(ability, controller),
        },
        KindModel::TriggeredAbility {
            source_id,
            ability,
            condition,
            trigger_event,
            description,
            source_name,
        } => KindModel::TriggeredAbility {
            source_id,
            ability: controlled_by(ability, controller),
            condition,
            trigger_event,
            description,
            source_name,
        },
        KindModel::KeywordAction { action } => KindModel::KeywordAction { action },
    }
}

/// The copy of an entry: the same in everything but its identifier and who controls it.
pub open spec fn copy_of(entry: EntryModel, id: ObjectId, controller: PlayerId) -> EntryModel {
    EntryModel {
        id,
        source_id: entry.source_id,
        controller,
        kind: kind_controlled_by(entry.kind, controller),
    }
}

/// The object of a copied spell.
pub open spec fn copy_of_object(
    object: ObjectModel,
    id: ObjectId,
    controller: PlayerId,
) -> ObjectModel {
    ObjectModel { id, controller, zone: Zone::Stack, is_token: true, ..object }
}

/// The targets of an entry.
pub open spec fn targets_of(entry: EntryModel) -> Seq<TargetRef> {
    match ability_of(entry.kind) {
        Some(ability) => ability.targets,
        None => Seq::empty(),
    }
}

/// One slot for each target, which shows the target and offers no alternative.
pub open spec fn target_slots(targets: Seq<TargetRef>) -> Seq<SlotModel> {
    targets.map_values(
        |target: TargetRef| SlotModel { current: target, legal_alternatives: Seq::empty() },
    )
}

/// The state once the copy of `entry` is on the stack.
pub open spec fn copied(s: StateModel, ability: AbilityModel, entry: EntryModel) -> StateModel {
    let id = ObjectId(s.next_object_id);
    let targets = targets_of(entry);
    StateModel {
        next_object_id: (s.next_object_id + 1) as u64,
        objects: if s.objects.contains_key(entry.id) {
            s.objects.insert(id, copy_of_object(s.objects[entry.id], id, ability.controller))
        } else {
            s.objects
        },
        stack: s.stack.push(copy_of(entry, id, ability.controller)),
        waiting_for: if targets.len() > 0 {
            WaitModel::CopyRetarget {
                player: ability.controller,
                copy_id: id,
                target_slots: target_slots(targets),
            }
        } else {
            s.waiting_for
        },
        ..s
    }
}

pub open spec fn effect_resolved(ability: AbilityModel) -> GameEvent {
    GameEvent::EffectResolved { kind: effect_kind(ability.effect), source_id: ability.source_id }
}

/// What copying reports: that the copy is on the stack, and that the effect is done unless the
/// controller has yet to choose targets.
pub open spec fn copy_events(
    s: StateModel,
    ability: AbilityModel,
    entry: EntryModel,
) -> Seq<GameEvent> {
    let pushed = GameEvent::StackPushed { object_id: ObjectId(s.next_object_id) };
    if targets_of(entry).len() > 0 {
        seq![pushed]
    } else {
        seq![pushed, effect_resolved(ability)]
    }
}

/// The copy effect does put a copy on the stack.
pub open spec fn makes_copy(s: StateModel, ability: AbilityModel) -> bool {
    copy_source(s, ability) matches Some(entry) && !cant_be_copied(s, entry)
}

/// The state after a copy effect.
pub open spec fn after_copy_effect(s: StateModel, ability: AbilityModel) -> StateModel {
    if makes_copy(s, ability) {
        copied(s, ability, copy_source(s, ability)->0)
    } else {
        s
    }
}

/// What a copy effect reports: nothing if there is nothing to copy.
pub open spec fn copy_effect_events(s: StateModel, ability: AbilityModel) -> Seq<GameEvent> {
    if makes_copy(s, ability) {
        copy_events(s, ability, copy_source(s, ability)->0)
    } else if copy_source(s, ability) is Some {
        seq![effect_resolved(ability)]
    } else {
        Seq::empty()
    }
}

pub open spec fn nothing_to_copy() -> ErrorModel {
    ErrorModel::MissingParam("No spell or ability on stack to copy"@)
}

/// CR 707.10: Copies a spell or ability by putting a copy onto the stack with the same
/// characteristics and choices.
/// CR 707.10c: A copy with targets leaves its controller to choose new ones.
pub fn resolve(
    state: &mut GameState,
    ability: &ResolvedAbility,
    events: &mut Vec<GameEvent>,
) -> (result: Result<(), EffectError>)
    requires
        makes_copy(old(state)@, ability@) ==> old(state)@.next_object_id < u64::MAX,
    ensures
        result is Ok <==> copy_source(old(state)@, ability@) is Some,
        result matches Err(error) ==> error@ == nothing_to_copy(),
        final(state)@ == after_copy_effect(old(state)@, ability@),
        final(events)@ == old(events)@ + copy_effect_events(old(state)@, ability@),
{
    let ghost before = state@;
    let entry: StackEntry = match copy_source_entry(state, ability) {
        Some(entry) => entry,
        None => {
            assert(events@ =~= old(events)@ + copy_effect_events(before, ability@));
            return Err(
                EffectError::MissingParam("No spell or ability on stack to copy".to_string()),
            );
        },
    };

    if stack_entry_cant_be_copied(state, &entry) {
        events.push(
            GameEvent::EffectResolved {
                kind: EffectKind::from(&ability.effect),
                source_id: ability.source_id,
            },
        );
        assert(events@ =~= old(events)@ + copy_effect_events(before, ability@));
        return Ok(());
    }
    let copy_id = ObjectId(state.next_object_id);
    state.next_object_id = state.next_object_id + 1;

    // A spell on the stack has an object, and so has its copy; an ability has none.
    if let Some(source) = state.objects.get(&entry.id) {
        let mut object = source.clone();
        object.id = copy_id;
        object.controller = ability.controller;
        object.zone = Zone::Stack;
        object.is_token = true;
        state.objects.insert(copy_id, object);
    }
    let mut kind: StackEntryKind = entry.kind.clone();
    set_copied_kind_controller(&mut kind, ability.controller);
    state.stack.push(
        StackEntry {
            id: copy_id,
            source_id: entry.source_id,
            controller: ability.controller,
            kind,
        },
    );
    events.push(GameEvent::StackPushed { object_id: copy_id });
    assert(state@.stack =~= before.stack.push(copy_of(entry@, copy_id, ability.controller)));

    let mut slots: Vec<CopyTargetSlot> = Vec::new();
    if let Some(copied_ability) = entry.ability() {
        for i in 0..copied_ability.targets.len()
            invariant
                slots@.len() == i,
                forall|j: int|
                    0 <= j < i ==> (#[trigger] slots@[j])@ == target_slots(
                        copied_ability.targets@,
                    )[j],
        {
            slots.push(
                CopyTargetSlot {
                    current: copied_ability.targets[i],
                    legal_alternatives: Vec::new(),
                },
            );
            assert(slots@[i as int]@ =~= target_slots(copied_ability.targets@)[i as int]);
        }
    }
    assert(slot_models(slots@) =~= target_slots(targets_of(entry@)));
    assert(slots@.len() == targets_of(entry@).len());

    if !slots.is_empty() {
        state.waiting_for = WaitingFor::CopyRetarget {
            player: ability.controller,
            copy_id,
            target_slots: slots,
        };
        assert(state@ =~= copied(before, ability@, entry@));
        assert(events@ =~= old(events)@ + copy_events(before, ability@, entry@));
        return Ok(());
    }
    events.push(
        GameEvent::EffectResolved {
            kind: EffectKind::from(&ability.effect),
            source_id: ability.source_id,
        },
    );
    assert(state@ =~= copied(before, ability@, entry@));
    assert(events@ =~= old(events)@ + copy_events(before, ability@, entry@));
    Ok(())
}

/// A copy effect keeps a valid game valid and touches nothing but the stack, the objects and what
/// the game waits for.
pub proof fn copy_effect_keeps(s: StateModel, ability: AbilityModel)
    requires
        s.next_object_id < u64::MAX,
    ensures
        same_frame(s, after_copy_effect(s, ability)),
        s.objects.dom().subset_of(after_copy_effect(s, ability).objects.dom()),
        s.valid() ==> after_copy_effect(s, ability).valid(),
{
    if s.valid() && makes_copy(s, ability) {
        let t = after_copy_effect(s, ability);
        let id = ObjectId(s.next_object_id);
        assert(!s.objects.contains_key(id));
        assert forall|other: PlayerId| #[trigger] t.has_player(other) == s.has_player(other) by {}
        assert forall|i: int| 0 <= i < t.seat_order.len() implies t.has_player(
            #[trigger] t.seat_order[i],
        ) by {
            assert(s.has_player(s.seat_order[i]));
        }
        assert forall|other: ObjectId| #[trigger]
            t.objects.contains_key(other) implies t.has_player(t.objects[other].owner)
            && t.objects[other].id == other && other.0 < t.next_object_id by {
            if other != id {
                assert(s.objects.contains_key(other));
            }
        }
        assert forall|who: PlayerId, zone: Zone|
            t.has_player(who) && zone != Zone::Stack implies #[trigger] t.zone_matches(
            who,
            zone,
        ) by {
            assert(s.zone_matches(who, zone));
            assert(t.zone_list(who, zone) == s.zone_list(who, zone));
            assert forall|other: ObjectId| #[trigger]
                t.zone_list(who, zone).contains(other) <==> t.resides(other, who, zone) by {
                assert(s.zone_list(who, zone).contains(other) <==> s.resides(other, who, zone));
            }
        }
    }
}

fn find_entry(state: &GameState, id: ObjectId) -> (found: Option<StackEntry>)
    ensures
        found is Some <==> entry_with_id(state@.stack, id) is Some,
        found matches Some(entry) ==> Some(entry@) == entry_with_id(state@.stack, id),
{
    let ghost stack = state@.stack;
    assert(stack.skip(0) =~= stack);
    for i in 0..state.stack.len()
        invariant
            stack == state@.stack,
            entry_with_id(stack.skip(i as int), id) == entry_with_id(stack, id),
    {
        assert(stack.skip(i as int)[0] == state.stack@[i as int]@);
        if state.stack[i].id == id {
            return Some(state.stack[i].clone());
        }
        assert(stack.skip(i as int).drop_first() =~= stack.skip(i + 1));
    }
    None
}

fn find_object_target(targets: &Vec<TargetRef>) -> (found: Option<ObjectId>)
    ensures
        found == first_object_target(targets@),
{
    assert(targets@.skip(0) =~= targets@);
    for i in 0..targets.len()
        invariant
            first_object_target(targets@.skip(i as int)) == first_object_target(targets@),
    {
        assert(targets@.skip(i as int)[0] == targets@[i as int]);
        if let TargetRef::Object(id) = targets[i] {
            return Some(id);
        }
        assert(targets@.skip(i as int).drop_first() =~= targets@.skip(i + 1));
    }
    None
}

/// Picks the entry that a copy effect copies.
pub fn copy_source_entry(state: &GameState, ability: &ResolvedAbility) -> (found: Option<
    StackEntry,
>)
    ensures
        found is Some <==> copy_source(state@, ability@) is Some,
        found matches Some(entry) ==> Some(entry@) == copy_source(state@, ability@),
{
    if let Some(id) = find_object_target(&ability.targets) {
        return find_entry(state, id);
    }
    if matches!(&ability.effect, Effect::CopySpell { target: TargetFilter::SelfRef }) {
        return find_entry(state, ability.source_id);
    }
    if state.stack.is_empty() {
        None
    } else {
        let top: usize = state.stack.len() - 1;
        Some(state.stack[top].clone())
    }
}

/// Whether something keeps an entry from being copied.
pub fn stack_entry_cant_be_copied(state: &GameState, entry: &StackEntry) -> (protected: bool)
    ensures
        protected == cant_be_copied(state@, entry@),
{
    if let Some(ability) = entry.ability() {
        if ability.cant_be_copied {
            return true;
        }
    }
    if let Some(object) = state.objects.get(&entry.id) {
        let active = active_static_definitions(object);
        for i in 0..active.len()
            invariant
                state@.objects.contains_key(entry.id),
                active@ == active_statics(state@.objects[entry.id]),
                forall|j: int|
                    0 <= j < i ==> active@[j] != (StaticDefinition {
                        mode: StaticMode::CantBeCopied,
                    }),
        {
            if active[i].mode == StaticMode::CantBeCopied {
                assert(active@[i as int] == (StaticDefinition { mode: StaticMode::CantBeCopied }));
                return true;
            }
        }
    }
    false
}

/// Puts a copied entry under its controller.
pub fn set_copied_kind_controller(kind: &mut StackEntryKind, controller: PlayerId)
    ensures
        final(kind)@ == kind_controlled_by(old(kind)@, controller),
{
    match kind {
        StackEntryKind::Spell { ability: Some(ability), .. } => {
            set_resolved_controller_recursive(ability, controller);
        },
        StackEntryKind::ActivatedAbility { ability, .. } => {
            set_resolved_controller_recursive(ability, controller);
        },
        StackEntryKind::TriggeredAbility { ability, .. } => {
            set_resolved_controller_recursive(ability, controller);
        },
        StackEntryKind::Spell { ability: None, .. } | StackEntryKind::KeywordAction { .. } => {},
    }
}

/// Puts an ability, its sub-abilities and its alternatives under one controller.
pub fn set_resolved_controller_recursive(ability: &mut ResolvedAbility, controller: PlayerId)
    ensures
        final(ability)@ == controlled_by(old(ability)@, controller),
    decreases *old(ability),
{
    ability.controller = controller;
    if let Some(sub_ability) = ability.sub_ability.as_mut() {
        set_resolved_controller_recursive(sub_ability, controller);
    }
    if let Some(else_ability) = ability.else_ability.as_mut() {
        set_resolved_controller_recursive(else_ability, controller);
    }
}

} // verus!
