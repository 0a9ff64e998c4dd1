//! CR 707.10: What holds of every copy of a spell or ability.

use vstd::prelude::*;
#[allow(unused_imports)]
use crate::game::effects::copy_spell::{
    after_copy_effect, cant_be_copied, controlled_by, copy_effect_events, copy_of, copy_source,
    effect_resolved, entry_with_id, first_object_target, kind_controlled_by, makes_copy,
    nothing_to_copy, target_slots, targets_of,
};
#[allow(unused_imports)]
use crate::types::ability::{
    effect_kind, AbilityModel, EffectKind, EffectModel, ErrorModel, TargetFilter, TargetRef,
};
#[allow(unused_imports)]
use crate::types::events::GameEvent;
#[allow(unused_imports)]
use crate::types::game_state::{StateModel, WaitModel};
#[allow(unused_imports)]
use crate::types::identifiers::{ObjectId, PlayerId};
#[allow(unused_imports)]
use crate::types::stack::{ability_of, EntryModel, KindModel};
#[allow(unused_imports)]
use crate::types::statics::{StaticDefinition, StaticMode};
#[allow(unused_imports)]
use crate::types::zones::Zone;

verus! {

/// Two abilities have the same characteristics and choices, down to the last of the abilities
/// that hang on them; who controls them is left open.
pub open spec fn same_choices(one: AbilityModel, two: AbilityModel) -> bool
    decreases one,
{
    &&& one.effect == two.effect
    &&& one.targets == two.targets
    &&& one.source_id == two.source_id
    &&& one.optional == two.optional
    &&& one.cant_be_copied == two.cant_be_copied
    &&& one.repeat_for == two.repeat_for
    &&& one.description == two.description
    &&& match (one.sub_ability, two.sub_ability) {
        (Some(a), Some(b)) => same_choices(*a, *b),
        (None, None) => true,
        _ => false,
    }
    &&& match (one.else_ability, two.else_ability) {
        (Some(a), Some(b)) => same_choices(*a, *b),
        (None, None) => true,
        _ => false,
    }
}

/// A player controls an ability and everything that hangs on it.
pub open spec fn wholly_controlled(ability: AbilityModel, controller: PlayerId) -> bool
    decreases ability,
{
    &&& ability.controller == controller
    &&& match ability.sub_ability {
        Some(sub) => wholly_controlled(*sub, controller),
        None => true,
    }
    &&& match ability.else_ability {
        Some(sub) => wholly_controlled(*sub, controller),
        None => true,
    }
}

/// Putting an ability under another controller changes who controls it, all the way down, and
/// nothing else.
pub proof fn only_the_controller_changes(ability: AbilityModel, controller: PlayerId)
    ensures
        same_choices(ability, controlled_by(ability, controller)),
        wholly_controlled(controlled_by(ability, controller), controller),
    decreases ability,
{
    match ability.sub_ability {
        Some(sub) => only_the_controller_changes(*sub, controller),
        None => {},
    }
    match ability.else_ability {
        Some(sub) => only_the_controller_changes(*sub, controller),
        None => {},
    }
}

/// The last controller an ability is put under counts.
pub proof fn last_controller_counts(ability: AbilityModel, one: PlayerId, two: PlayerId)
    ensures
        controlled_by(controlled_by(ability, one), two) == controlled_by(ability, two),
    decreases ability,
{
    match ability.sub_ability {
        Some(sub) => last_controller_counts(*sub, one, two),
        None => {},
    }
    match ability.else_ability {
        Some(sub) => last_controller_counts(*sub, one, two),
        None => {},
    }
    assert(controlled_by(controlled_by(ability, one), two) =~= controlled_by(ability, two));
}

/// An ability that a player controls all the way down is not changed by putting it under them.
pub proof fn own_abilities_copy_unchanged(ability: AbilityModel, controller: PlayerId)
    requires
        wholly_controlled(ability, controller),
    ensures
        controlled_by(ability, controller) == ability,
    decreases ability,
{
    match ability.sub_ability {
        Some(sub) => own_abilities_copy_unchanged(*sub, controller),
        None => {},
    }
    match ability.else_ability {
        Some(sub) => own_abilities_copy_unchanged(*sub, controller),
        None => {},
    }
    assert(controlled_by(ability, controller) =~= ability);
}

/// CR 707.10: The copy goes on top of the stack under the control of whoever made it. It comes
/// from the same source and has the same characteristics, choices and targets. Everything that
/// was on the stack stays there unchanged, and so does every object.
pub proof fn copy_goes_on_top(s: StateModel, ability: AbilityModel)
    requires
        makes_copy(s, ability),
    ensures
        ({
            let entry = copy_source(s, ability)->0;
            let t = after_copy_effect(s, ability);
            let copy = t.stack.last();
            &&& t.stack == s.stack.push(copy)
            &&& copy.id == ObjectId(s.next_object_id)
            &&& copy.controller == ability.controller
            &&& copy.source_id == entry.source_id
            &&& targets_of(copy) == targets_of(entry)
            &&& ability_of(copy.kind) is Some <==> ability_of(entry.kind) is Some
            &&& ability_of(entry.kind) matches Some(original) ==> same_choices(
                original,
                ability_of(copy.kind)->0,
            ) && wholly_controlled(ability_of(copy.kind)->0, ability.controller)
        }),
        forall|id: ObjectId| #[trigger]
            s.objects.contains_key(id) && id != ObjectId(s.next_object_id) ==> after_copy_effect(
                s,
                ability,
            ).objects.contains_key(id) && after_copy_effect(s, ability).objects[id]
                == s.objects[id],
{
    let entry = copy_source(s, ability)->0;
    match ability_of(entry.kind) {
        Some(original) => only_the_controller_changes(original, ability.controller),
        None => {},
    }
}

/// CR 707.10: The copy of a spell is itself an object on the stack, a token under the control of
/// whoever made it. An ability has no object, and neither has its copy.
pub proof fn spell_copies_are_objects(s: StateModel, ability: AbilityModel)
    requires
        s.valid(),
        makes_copy(s, ability),
    ensures
        ({
            let entry = copy_source(s, ability)->0;
            let id = ObjectId(s.next_object_id);
            let t = after_copy_effect(s, ability);
            &&& !s.objects.contains_key(id)
            &&& t.objects.contains_key(id) <==> s.objects.contains_key(entry.id)
            &&& t.objects.contains_key(id) ==> t.objects[id].zone == Zone::Stack
                && t.objects[id].is_token && t.objects[id].controller == ability.controller
                && t.objects[id].card_id == s.objects[entry.id].card_id && t.objects[id].name
                == s.objects[entry.id].name
        }),
{
}

/// Every entry of the stack has an identifier that was handed out, and each its own.
pub open spec fn entries_are_distinct(s: StateModel) -> bool {
    &&& forall|i: int| 0 <= i < s.stack.len() ==> (#[trigger] s.stack[i]).id.0 < s.next_object_id
    &&& forall|i: int, j: int|
        0 <= i < j < s.stack.len() ==> (#[trigger] s.stack[i]).id != (#[trigger] s.stack[j]).id
}

/// The copy can be told from everything else on the stack.
pub proof fn copies_are_distinct(s: StateModel, ability: AbilityModel)
    requires
        entries_are_distinct(s),
        makes_copy(s, ability) ==> s.next_object_id < u64::MAX,
    ensures
        entries_are_distinct(after_copy_effect(s, ability)),
{
    if makes_copy(s, ability) {
        let t = after_copy_effect(s, ability);
        let entry = copy_source(s, ability)->0;
        let copy = copy_of(entry, ObjectId(s.next_object_id), ability.controller);
        assert(t.stack == s.stack.push(copy));
        assert forall|i: int| 0 <= i < t.stack.len() implies (#[trigger] t.stack[i]).id.0
            < t.next_object_id by {
            if i < s.stack.len() {
                assert(t.stack[i] == s.stack[i]);
            }
        }
        assert forall|i: int, j: int| 0 <= i < j < t.stack.len() implies (#[trigger] t.stack[i]).id
            != (#[trigger] t.stack[j]).id by {
            assert(t.stack[i] == s.stack[i]);
            if j < s.stack.len() {
                assert(t.stack[j] == s.stack[j]);
            }
        }
    }
}

/// CR 707.10c: Whoever made the copy may choose new targets exactly if it has any: the game then
/// shows each of them, and the effect is reported as resolved only where nothing is to be chosen.
pub proof fn copies_with_targets_are_retargeted(s: StateModel, ability: AbilityModel)
    requires
        makes_copy(s, ability),
    ensures
        ({
            let targets = targets_of(copy_source(s, ability)->0);
            let t = after_copy_effect(s, ability);
            let news = copy_effect_events(s, ability);
            &&& targets.len() > 0 ==> t.waiting_for == (WaitModel::CopyRetarget {
                player: ability.controller,
                copy_id: t.stack.last().id,
                target_slots: target_slots(targets),
            }) && !news.contains(effect_resolved(ability))
            &&& targets.len() == 0 ==> t.waiting_for == s.waiting_for && news.last()
                == effect_resolved(ability)
        }),
{
}

/// What is protected from being copied is not copied: the effect resolves without doing
/// anything.
pub proof fn protected_entries_are_not_copied(s: StateModel, ability: AbilityModel)
    requires
        copy_source(s, ability) matches Some(entry) && cant_be_copied(s, entry),
    ensures
        after_copy_effect(s, ability) == s,
        copy_effect_events(s, ability) == seq![effect_resolved(ability)],
{
}

/// CR 707.10: The copy is what the original is: a spell of the same card, cast in the same way for
/// the same mana; an ability of the same source; a trigger with the same condition, event,
/// description and source; the same keyword action. Their abilities differ in their controllers
/// alone.
pub open spec fn same_kind(original: KindModel, copy: KindModel, controller: PlayerId) -> bool {
    match original {
        KindModel::Spell { card_id, ability, casting_variant, actual_mana_spent } => {
            &&& copy is Spell
            &&& copy->card_id == card_id
            &&& copy->casting_variant == casting_variant
            &&& copy->actual_mana_spent == actual_mana_spent
            &&& ability is Some <==> copy->Spell_ability is Some
            &&& ability matches Some(resolved) ==> same_choices(resolved, copy->Spell_ability->0)
                && wholly_controlled(copy->Spell_ability->0, controller)
        },
        KindModel::ActivatedAbility { source_id, ability } => {
            &&& copy is ActivatedAbility
            &&& copy->ActivatedAbility_source_id == source_id
            &&& same_choices(ability, copy->ActivatedAbility_ability)
            &&& wholly_controlled(copy->ActivatedAbility_ability, controller)
        },
        KindModel::TriggeredAbility {
            source_id,
            ability,
            condition,
            trigger_event,
            description,
            source_name,
        } => {
            &&& copy is TriggeredAbility
            &&& copy->TriggeredAbility_source_id == source_id
            &&& copy->condition == condition
            &&& copy->trigger_event == trigger_event
            &&& copy->description == description
            &&& copy->source_name == source_name
            &&& same_choices(ability, copy->TriggeredAbility_ability)
            &&& wholly_controlled(copy->TriggeredAbility_ability, controller)
        },
        KindModel::KeywordAction { action } => {
            &&& copy is KeywordAction
            &&& copy->action == action
        },
    }
}

/// The copy on top of the stack is of the same kind as what it copies.
pub proof fn copies_are_of_the_same_kind(s: StateModel, ability: AbilityModel)
    requires
        makes_copy(s, ability),
    ensures
        same_kind(
            copy_source(s, ability)->0.kind,
            after_copy_effect(s, ability).stack.last().kind,
            ability.controller,
        ),
{
    match copy_source(s, ability)->0.kind {
        KindModel::Spell { ability: Some(resolved), .. } => {
            only_the_controller_changes(resolved, ability.controller);
        },
        KindModel::ActivatedAbility { ability: resolved, .. } => {
            only_the_controller_changes(resolved, ability.controller);
        },
        KindModel::TriggeredAbility { ability: resolved, .. } => {
            only_the_controller_changes(resolved, ability.controller);
        },
        _ => {},
    }
}

/// Putting the kind of an entry under a controller keeps it the same kind of entry.
pub proof fn only_the_controller_of_a_kind_changes(kind: KindModel, controller: PlayerId)
    ensures
        same_kind(kind, kind_controlled_by(kind, controller), controller),
{
    match kind {
        KindModel::Spell { ability: Some(resolved), .. } => {
            only_the_controller_changes(resolved, controller);
        },
        KindModel::ActivatedAbility { ability: resolved, .. } => {
            only_the_controller_changes(resolved, controller);
        },
        KindModel::TriggeredAbility { ability: resolved, .. } => {
            only_the_controller_changes(resolved, controller);
        },
        _ => {},
    }
}

/// The ability that a spell, an activated or a triggered ability on the stack resolves with says
/// that it can't be copied.
pub open spec fn flagged(kind: KindModel) -> bool {
    match kind {
        KindModel::Spell { ability: Some(resolved), .. } => resolved.cant_be_copied,
        KindModel::Spell { ability: None, .. } => false,
        KindModel::ActivatedAbility { ability: resolved, .. } => resolved.cant_be_copied,
        KindModel::TriggeredAbility { ability: resolved, .. } => resolved.cant_be_copied,
        KindModel::KeywordAction { .. } => false,
    }
}

/// The object has not phased out, and one of its static abilities says that it can't be copied.
pub open spec fn shielded(s: StateModel, id: ObjectId) -> bool {
    &&& s.objects.contains_key(id)
    &&& !s.objects[id].phased_out
    &&& exists|i: int|
        0 <= i < s.objects[id].static_definitions.len() && (
        #[trigger] s.objects[id].static_definitions[i]).mode == StaticMode::CantBeCopied
}

/// An entry of any kind stays uncopied if its ability or its object says so; nothing then happens
/// but that the effect is reported. Every other entry is copied: the stack grows by one.
pub proof fn exactly_the_protected_stay_uncopied(
    s: StateModel,
    ability: AbilityModel,
    entry: EntryModel,
)
    requires
        copy_source(s, ability) == Some(entry),
    ensures
        cant_be_copied(s, entry) <==> flagged(entry.kind) || shielded(s, entry.id),
        flagged(entry.kind) || shielded(s, entry.id) ==> after_copy_effect(s, ability) == s
            && copy_effect_events(s, ability) == seq![
            GameEvent::EffectResolved {
                kind: effect_kind(ability.effect),
                source_id: ability.source_id,
            },
        ],
        !flagged(entry.kind) && !shielded(s, entry.id) ==> after_copy_effect(s, ability).stack.len()
            == s.stack.len() + 1,
{
    let shield = StaticDefinition { mode: StaticMode::CantBeCopied };
    if s.objects.contains_key(entry.id) {
        let list = s.objects[entry.id].static_definitions;
        if list.contains(shield) {
            let i = choose|i: int| 0 <= i < list.len() && list[i] == shield;
            assert(list[i].mode == StaticMode::CantBeCopied);
        }
        if exists|i: int| 0 <= i < list.len() && (#[trigger] list[i]).mode
            == StaticMode::CantBeCopied {
            let i = choose|i: int|
                0 <= i < list.len() && (#[trigger] list[i]).mode == StaticMode::CantBeCopied;
            assert(list[i] == shield);
            assert(list.contains(shield));
        }
    }
}

/// `stack[i]` is the entry nearest the bottom that has the identifier.
pub open spec fn is_lowest(stack: Seq<EntryModel>, id: ObjectId, i: int) -> bool {
    &&& 0 <= i < stack.len()
    &&& stack[i].id == id
    &&& forall|j: int| 0 <= j < i ==> (#[trigger] stack[j]).id != id
}

proof fn lowest_is_found(stack: Seq<EntryModel>, id: ObjectId, i: int)
    requires
        is_lowest(stack, id, i),
    ensures
        entry_with_id(stack, id) == Some(stack[i]),
    decreases i,
{
    if i > 0 {
        assert(stack[0].id != id);
        let rest = stack.drop_first();
        assert forall|j: int| 0 <= j < i - 1 implies (#[trigger] rest[j]).id != id by {
            assert(rest[j] == stack[j + 1]);
        }
        lowest_is_found(rest, id, i - 1);
    }
}

proof fn missing_is_not_found(stack: Seq<EntryModel>, id: ObjectId)
    requires
        forall|j: int| 0 <= j < stack.len() ==> (#[trigger] stack[j]).id != id,
    ensures
        entry_with_id(stack, id) is None,
    decreases stack.len(),
{
    if stack.len() > 0 {
        let rest = stack.drop_first();
        assert forall|j: int| 0 <= j < rest.len() implies (#[trigger] rest[j]).id != id by {
            assert(rest[j] == stack[j + 1]);
        }
        missing_is_not_found(rest, id);
    }
}

proof fn first_object_is_found(targets: Seq<TargetRef>, k: int, id: ObjectId)
    requires
        0 <= k < targets.len(),
        targets[k] == TargetRef::Object(id),
        forall|j: int| 0 <= j < k ==> (#[trigger] targets[j]) is Player,
    ensures
        first_object_target(targets) == Some(id),
    decreases k,
{
    if k > 0 {
        assert(targets[0] is Player);
        let rest = targets.drop_first();
        assert forall|j: int| 0 <= j < k - 1 implies (#[trigger] rest[j]) is Player by {
            assert(rest[j] == targets[j + 1]);
        }
        first_object_is_found(rest, k - 1, id);
    }
}

proof fn no_object_is_found(targets: Seq<TargetRef>)
    requires
        forall|j: int| 0 <= j < targets.len() ==> (#[trigger] targets[j]) is Player,
    ensures
        first_object_target(targets) is None,
    decreases targets.len(),
{
    if targets.len() > 0 {
        assert(targets[0] is Player);
        let rest = targets.drop_first();
        assert forall|j: int| 0 <= j < rest.len() implies (#[trigger] rest[j]) is Player by {
            assert(rest[j] == targets[j + 1]);
        }
        no_object_is_found(rest);
    }
}

/// A copy effect that targets an object copies the entry of the stack with the identifier of the
/// first object it targets, and nothing if there is none.
pub proof fn targeted_entries_are_copied(
    s: StateModel,
    ability: AbilityModel,
    k: int,
    id: ObjectId,
)
    requires
        0 <= k < ability.targets.len(),
        ability.targets[k] == TargetRef::Object(id),
        forall|j: int| 0 <= j < k ==> (#[trigger] ability.targets[j]) is Player,
    ensures
        forall|i: int| #[trigger]
            is_lowest(s.stack, id, i) ==> copy_source(s, ability) == Some(s.stack[i]),
        (forall|i: int| 0 <= i < s.stack.len() ==> (#[trigger] s.stack[i]).id != id)
            ==> copy_source(s, ability) is None,
{
    first_object_is_found(ability.targets, k, id);
    assert forall|i: int| #[trigger] is_lowest(s.stack, id, i) implies copy_source(s, ability)
        == Some(s.stack[i]) by {
        lowest_is_found(s.stack, id, i);
    }
    if forall|i: int| 0 <= i < s.stack.len() ==> (#[trigger] s.stack[i]).id != id {
        missing_is_not_found(s.stack, id);
    }
}

/// A copy effect that targets no object and copies itself copies the entry it comes from; any
/// other one copies the top of the stack. On an empty stack there is nothing to copy.
pub proof fn untargeted_effects_copy_themselves_or_the_top(s: StateModel, ability: AbilityModel)
    requires
        forall|j: int| 0 <= j < ability.targets.len() ==> (#[trigger] ability.targets[j]) is Player,
    ensures
        ability.effect == (EffectModel::CopySpell { target: TargetFilter::SelfRef }) ==> {
            &&& forall|i: int| #[trigger]
                is_lowest(s.stack, ability.source_id, i) ==> copy_source(s, ability) == Some(
                    s.stack[i],
                )
            &&& (forall|i: int|
                0 <= i < s.stack.len() ==> (#[trigger] s.stack[i]).id != ability.source_id)
                ==> copy_source(s, ability) is None
        },
        ability.effect != (EffectModel::CopySpell { target: TargetFilter::SelfRef })
            && s.stack.len() > 0 ==> copy_source(s, ability) == Some(s.stack[s.stack.len() - 1]),
        s.stack.len() == 0 ==> copy_source(s, ability) is None,
{
    no_object_is_found(ability.targets);
    let id = ability.source_id;
    assert forall|i: int| #[trigger] is_lowest(s.stack, id, i) && ability.effect == (
    EffectModel::CopySpell { target: TargetFilter::SelfRef }) implies copy_source(s, ability)
        == Some(s.stack[i]) by {
        lowest_is_found(s.stack, id, i);
    }
    if forall|i: int| 0 <= i < s.stack.len() ==> (#[trigger] s.stack[i]).id != id {
        missing_is_not_found(s.stack, id);
    }
}

/// Without anything to copy, nothing happens and nothing is reported.
pub proof fn nothing_comes_of_nothing(s: StateModel, ability: AbilityModel)
    requires
        copy_source(s, ability) is None,
    ensures
        after_copy_effect(s, ability) == s,
        copy_effect_events(s, ability).len() == 0,
        nothing_to_copy() == ErrorModel::MissingParam("No spell or ability on stack to copy"@),
{
}

/// The targets that a spell or an ability on the stack has; a keyword action has none.
pub open spec fn printed_targets(kind: KindModel) -> Seq<TargetRef> {
    match kind {
        KindModel::Spell { ability: Some(resolved), .. } => resolved.targets,
        KindModel::Spell { ability: None, .. } => Seq::empty(),
        KindModel::ActivatedAbility { ability: resolved, .. } => resolved.targets,
        KindModel::TriggeredAbility { ability: resolved, .. } => resolved.targets,
        KindModel::KeywordAction { .. } => Seq::empty(),
    }
}

/// All that copying does: a new entry with a new identifier, under the control of whoever copies,
/// on top of the stack; an object for it if the original has one, the same but for its
/// identifier, its controller, its zone and that it is a token; and one identifier used up.
/// Nothing else changes.
pub proof fn copying_does_just_that(s: StateModel, ability: AbilityModel)
    requires
        makes_copy(s, ability),
        s.next_object_id < u64::MAX,
    ensures
        ({
            let t = after_copy_effect(s, ability);
            let original = copy_source(s, ability)->0;
            let id = ObjectId(s.next_object_id);
            &&& t.stack.len() == s.stack.len() + 1
            &&& forall|i: int| 0 <= i < s.stack.len() ==> #[trigger] t.stack[i] == s.stack[i]
            &&& t.stack.last().id == id
            &&& t.stack.last().controller == ability.controller
            &&& t.stack.last().source_id == original.source_id
            &&& t.next_object_id == s.next_object_id + 1
            &&& s.objects.contains_key(original.id) ==> {
                let old = s.objects[original.id];
                let new = t.objects[id];
                &&& t.objects == s.objects.insert(id, new)
                &&& new.id == id
                &&& new.controller == ability.controller
                &&& new.zone == Zone::Stack
                &&& new.is_token
                &&& new.card_id == old.card_id
                &&& new.owner == old.owner
                &&& new.name == old.name
                &&& new.is_commander == old.is_commander
                &&& new.tapped == old.tapped
                &&& new.transformed == old.transformed
                &&& new.attacking == old.attacking
                &&& new.phased_out == old.phased_out
                &&& new.counters == old.counters
                &&& new.abilities == old.abilities
                &&& new.static_definitions == old.static_definitions
            }
            &&& !s.objects.contains_key(original.id) ==> t.objects == s.objects
            &&& t.format_config == s.format_config
            &&& t.players == s.players
            &&& t.seat_order == s.seat_order
            &&& t.active_player == s.active_player
            &&& t.turn_number == s.turn_number
            &&& t.phase == s.phase
            &&& t.battlefield == s.battlefield
            &&& t.exile == s.exile
            &&& t.command_zone == s.command_zone
            &&& t.rng == s.rng
            &&& t.final_mulligan_counts == s.final_mulligan_counts
            &&& t.forced_bottom_counts == s.forced_bottom_counts
            &&& t.pending_begin_game_abilities == s.pending_begin_game_abilities
            &&& t.resolving_begin_game_abilities == s.resolving_begin_game_abilities
            &&& t.pending_optional_ability == s.pending_optional_ability
        }),
{
}

/// CR 707.10c: Whoever copies is asked for new targets exactly if the original has any, with one
/// slot for each, which shows the target the original has and offers nothing else. Only where
/// nobody is asked is the effect reported as resolved.
pub proof fn retargeting_shows_every_target(s: StateModel, ability: AbilityModel)
    requires
        makes_copy(s, ability),
    ensures
        ({
            let t = after_copy_effect(s, ability);
            let targets = printed_targets(copy_source(s, ability)->0.kind);
            let id = ObjectId(s.next_object_id);
            let pushed = GameEvent::StackPushed { object_id: id };
            let resolved = GameEvent::EffectResolved {
                kind: effect_kind(ability.effect),
                source_id: ability.source_id,
            };
            &&& targets.len() == 0 ==> t.waiting_for == s.waiting_for && copy_effect_events(
                s,
                ability,
            ) == seq![pushed, resolved]
            &&& targets.len() > 0 ==> {
                &&& copy_effect_events(s, ability) == seq![pushed]
                &&& t.waiting_for matches WaitModel::CopyRetarget { player, copy_id, target_slots }
                &&& player == ability.controller
                &&& copy_id == id
                &&& target_slots.len() == targets.len()
                &&& forall|i: int|
                    0 <= i < targets.len() ==> (#[trigger] target_slots[i]).current == targets[i]
                        && target_slots[i].legal_alternatives.len() == 0
            }
        }),
{
}

/// An effect is reported under its own kind.
pub proof fn effects_have_their_own_kind(effect: EffectModel)
    ensures
        effect is CopySpell <==> effect_kind(effect) == EffectKind::CopySpell,
        effect is ChangeZone <==> effect_kind(effect) == EffectKind::ChangeZone,
        effect is DealDamage <==> effect_kind(effect) == EffectKind::DealDamage,
        effect is Draw <==> effect_kind(effect) == EffectKind::Draw,
        effect is Mill <==> effect_kind(effect) == EffectKind::Mill,
{
}

} // verus!
