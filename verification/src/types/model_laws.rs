//! A model leaves nothing out: whatever can be told apart in a value can be told apart in its
//! model.

use vstd::prelude::*;
#[allow(unused_imports)]
use crate::types::ability::{
    effect_kind, variant_name, AbilityDefinition, Effect, EffectError, EffectModel, ErrorModel,
    ResolvedAbility,
};
#[allow(unused_imports)]
use crate::types::actions::{ActionModel, GameAction};
#[allow(unused_imports)]
use crate::types::format::FormatConfig;
#[allow(unused_imports)]
use crate::types::game_object::{plain_object, GameObject, ObjectModel};
#[allow(unused_imports)]
use crate::types::game_state::{initial_state, GameState, WaitModel, WaitingFor};
#[allow(unused_imports)]
use crate::types::identifiers::{CardId, ObjectId, PlayerId};
#[allow(unused_imports)]
use crate::types::phase::Phase;
#[allow(unused_imports)]
use crate::types::player::Player;
#[allow(unused_imports)]
use crate::types::stack::{ability_of, KindModel, StackEntry, StackEntryKind};
#[allow(unused_imports)]
use crate::types::zones::Zone;

verus! {

/// A player is known by identifier, life and the cards in each zone of theirs.
pub proof fn players_are_modelled_in_full(player: Player)
    ensures
        player@.id == player.id,
        player@.life == player.life,
        player@.hand == player.hand@,
        player@.library == player.library@,
        player@.graveyard == player.graveyard@,
{
}

/// An object is known by each of its characteristics.
pub proof fn objects_are_modelled_in_full(object: GameObject)
    ensures
        object@.id == object.id,
        object@.card_id == object.card_id,
        object@.owner == object.owner,
        object@.controller == object.controller,
        object@.name == object.name@,
        object@.zone == object.zone,
        object@.is_token == object.is_token,
        object@.is_commander == object.is_commander,
        object@.tapped == object.tapped,
        object@.transformed == object.transformed,
        object@.attacking == object.attacking,
        object@.phased_out == object.phased_out,
        object@.counters == object.counters@,
        object@.abilities.len() == object.abilities@.len(),
        forall|i: int|
            0 <= i < object.abilities@.len() ==> #[trigger] object@.abilities[i]
                == object.abilities@[i]@,
        object@.static_definitions == object.static_definitions@,
{
}

/// An effect is known by what it is and each of its parameters.
pub proof fn effects_are_modelled_in_full(effect: Effect)
    ensures
        match effect {
            Effect::DealDamage { amount, target, damage_source } => effect@ == (
            EffectModel::DealDamage { amount, target, damage_source }),
            Effect::Draw { count, target } => effect@ == (EffectModel::Draw { count, target }),
            Effect::Mill { count, target, destination } => effect@ == (EffectModel::Mill {
                count,
                target,
                destination,
            }),
            Effect::ChangeZone {
                destination,
                target,
                origin,
                owner_library,
                enter_transformed,
                under_your_control,
                enter_tapped,
                enters_attacking,
                up_to,
                enter_with_counters,
            } => effect@ == (EffectModel::ChangeZone {
                destination,
                target,
                origin,
                owner_library,
                enter_transformed,
                under_your_control,
                enter_tapped,
                enters_attacking,
                up_to,
                enter_with_counters: enter_with_counters@,
            }),
            Effect::CopySpell { target } => effect@ == (EffectModel::CopySpell { target }),
        },
{
}

/// An ability about to resolve is known by each of its parts, and so is what hangs on it.
pub proof fn abilities_are_modelled_in_full(ability: ResolvedAbility)
    ensures
        ability@.effect == ability.effect@,
        ability@.targets == ability.targets@,
        ability@.source_id == ability.source_id,
        ability@.controller == ability.controller,
        ability@.optional == ability.optional,
        ability@.cant_be_copied == ability.cant_be_copied,
        ability@.repeat_for == ability.repeat_for,
        ability.description is Some <==> ability@.description is Some,
        ability.description is Some ==> ability@.description->0 == ability.description->0@,
        ability.sub_ability is Some <==> ability@.sub_ability is Some,
        ability.sub_ability is Some ==> *(ability@.sub_ability->0) == (*(
        ability.sub_ability->0))@,
        ability.else_ability is Some <==> ability@.else_ability is Some,
        ability.else_ability is Some ==> *(ability@.else_ability->0) == (*(
        ability.else_ability->0))@,
{
}

/// A printed ability is known by each of its parts, and so is what hangs on it.
pub proof fn definitions_are_modelled_in_full(definition: AbilityDefinition)
    ensures
        definition@.kind == definition.kind,
        definition@.effect == definition.effect@,
        definition@.optional == definition.optional,
        definition@.cant_be_copied == definition.cant_be_copied,
        definition@.repeat_for == definition.repeat_for,
        definition.description is Some <==> definition@.description is Some,
        definition.description is Some ==> definition@.description->0
            == definition.description->0@,
        definition.sub_ability is Some <==> definition@.sub_ability is Some,
        definition.sub_ability is Some ==> *(definition@.sub_ability->0) == (*(
        definition.sub_ability->0))@,
        definition.else_ability is Some <==> definition@.else_ability is Some,
        definition.else_ability is Some ==> *(definition@.else_ability->0) == (*(
        definition.else_ability->0))@,
{
}

/// What an entry on the stack is, is known in each of its parts.
pub proof fn kinds_are_modelled_in_full(kind: StackEntryKind)
    ensures
        match kind {
            StackEntryKind::Spell { card_id, ability, casting_variant, actual_mana_spent } => {
                &&& kind@ is Spell
                &&& kind@->card_id == card_id
                &&& kind@->casting_variant == casting_variant
                &&& kind@->actual_mana_spent == actual_mana_spent
                &&& ability is Some <==> kind@->Spell_ability is Some
                &&& ability is Some ==> kind@->Spell_ability->0 == ability->0@
            },
            StackEntryKind::ActivatedAbility { source_id, ability } => kind@ == (
            KindModel::ActivatedAbility { source_id, ability: ability@ }),
            StackEntryKind::TriggeredAbility {
                source_id,
                ability,
                condition,
                trigger_event,
                description,
                source_name,
            } => {
                &&& kind@ is TriggeredAbility
                &&& kind@->TriggeredAbility_source_id == source_id
                &&& kind@->TriggeredAbility_ability == (*ability)@
                &&& kind@->condition == condition
                &&& kind@->trigger_event == trigger_event
                &&& description is Some <==> kind@->description is Some
                &&& description is Some ==> kind@->description->0 == description->0@
                &&& kind@->source_name == source_name@
            },
            StackEntryKind::KeywordAction { action } => kind@ == (KindModel::KeywordAction {
                action,
            }),
        },
{
}

/// An entry on the stack is known by each of its parts.
pub proof fn entries_are_modelled_in_full(entry: StackEntry)
    ensures
        entry@.id == entry.id,
        entry@.source_id == entry.source_id,
        entry@.controller == entry.controller,
        entry@.kind == entry.kind@,
{
}

/// What the game waits for is known, and from whom.
pub proof fn waiting_is_modelled_in_full(waiting: WaitingFor)
    ensures
        match waiting {
            WaitingFor::Priority { player } => waiting@ == (WaitModel::Priority { player }),
            WaitingFor::MulliganDecision { pending, free_first_mulligan } => waiting@ == (
            WaitModel::MulliganDecision { pending: pending@, free_first_mulligan }),
            WaitingFor::MulliganBottomCards { pending } => waiting@ == (
            WaitModel::MulliganBottomCards { pending: pending@ }),
            WaitingFor::OptionalEffectChoice { player, source_id, description } => {
                &&& waiting@ matches WaitModel::OptionalEffectChoice {
                    player: asked,
                    source_id: source,
                    description: text,
                }
                &&& asked == player
                &&& source == source_id
                &&& description is Some <==> text is Some
                &&& description is Some ==> text->0 == description->0@
            },
            WaitingFor::CopyRetarget { player, copy_id, target_slots } => {
                &&& waiting@ matches WaitModel::CopyRetarget {
                    player: asked,
                    copy_id: copy,
                    target_slots: slots,
                }
                &&& asked == player
                &&& copy == copy_id
                &&& slots.len() == target_slots@.len()
                &&& forall|i: int|
                    0 <= i < slots.len() ==> (#[trigger] slots[i]).current
                        == target_slots@[i].current && slots[i].legal_alternatives
                        == target_slots@[i].legal_alternatives@
            },
        },
{
}

/// A game is known by each of its parts.
pub proof fn games_are_modelled_in_full(state: GameState)
    ensures
        state@.format_config == state.format_config,
        state@.players.len() == state.players@.len(),
        forall|i: int|
            0 <= i < state.players@.len() ==> #[trigger] state@.players[i] == state.players@[i]@,
        state@.seat_order == state.seat_order@,
        state@.active_player == state.active_player,
        state@.turn_number == state.turn_number,
        state@.phase == state.phase,
        state@.objects == state.objects@,
        state@.next_object_id == state.next_object_id,
        state@.battlefield == state.battlefield@,
        state@.exile == state.exile@,
        state@.command_zone == state.command_zone@,
        state@.stack.len() == state.stack@.len(),
        forall|i: int|
            0 <= i < state.stack@.len() ==> #[trigger] state@.stack[i] == state.stack@[i]@,
        state@.waiting_for == state.waiting_for@,
        state@.rng == state.rng,
        state@.final_mulligan_counts == state.final_mulligan_counts@,
        state@.forced_bottom_counts == state.forced_bottom_counts@,
        state@.pending_begin_game_abilities.len() == state.pending_begin_game_abilities@.len(),
        forall|i: int|
            0 <= i < state.pending_begin_game_abilities@.len()
                ==> #[trigger] state@.pending_begin_game_abilities[i]
                == state.pending_begin_game_abilities@[i].ability@,
        state@.resolving_begin_game_abilities == state.resolving_begin_game_abilities,
        state.pending_optional_ability is Some <==> state@.pending_optional_ability is Some,
        state.pending_optional_ability is Some ==> state@.pending_optional_ability->0
            == state.pending_optional_ability->0@,
{
}

/// An answer is known by what it says.
pub proof fn answers_are_modelled_in_full(action: GameAction)
    ensures
        match action {
            GameAction::MulliganDecision { keep } => action@ == (ActionModel::MulliganDecision {
                keep,
            }),
            GameAction::SelectCards { cards } => action@ == (ActionModel::SelectCards {
                cards: cards@,
            }),
            GameAction::DecideOptionalEffect { accept } => action@ == (
            ActionModel::DecideOptionalEffect { accept }),
        },
{
}

/// An error is known by what went wrong.
pub proof fn errors_are_modelled_in_full(error: EffectError)
    ensures
        match error {
            EffectError::MissingParam(what) => error@ == ErrorModel::MissingParam(what@),
            EffectError::ChainTooDeep => error@ == ErrorModel::ChainTooDeep,
            EffectError::IdsExhausted => error@ == ErrorModel::IdsExhausted,
            EffectError::NoHandler(kind) => error@ == ErrorModel::NoHandler(kind),
        },
{
}

/// An effect is called what its kind is called.
pub proof fn effects_are_called_by_their_kind(effect: EffectModel)
    ensures
        ({
            let name = variant_name(effect_kind(effect));
            match effect {
                EffectModel::DealDamage { .. } => name == "DealDamage"@,
                EffectModel::Draw { .. } => name == "Draw"@,
                EffectModel::Mill { .. } => name == "Mill"@,
                EffectModel::ChangeZone { .. } => name == "ChangeZone"@,
                EffectModel::CopySpell { .. } => name == "CopySpell"@,
            }
        }),
{
}

/// In a new game the players are numbered from zero and sit in that order, each with the life of
/// the format and without cards. There are no objects, nothing is on the stack, nobody has taken a
/// mulligan, and the first player has priority before the first turn.
pub proof fn new_games_are_empty(config: FormatConfig, num_players: u8, seed: u64)
    ensures
        ({
            let s = initial_state(config, num_players, seed);
            &&& s.format_config == config
            &&& s.players.len() == num_players
            &&& s.seat_order.len() == num_players
            &&& forall|i: int|
                0 <= i < num_players ==> (#[trigger] s.players[i]).id == PlayerId(i as u8)
                    && s.players[i].life == config.starting_life && s.players[i].hand.len() == 0
                    && s.players[i].library.len() == 0 && s.players[i].graveyard.len() == 0
            &&& forall|i: int|
                0 <= i < num_players ==> #[trigger] s.seat_order[i] == PlayerId(i as u8)
            &&& s.active_player == PlayerId(0)
            &&& s.turn_number == 0
            &&& s.phase == Phase::Untap
            &&& s.objects == Map::<ObjectId, ObjectModel>::empty()
            &&& s.next_object_id == 1
            &&& s.battlefield.len() == 0
            &&& s.exile.len() == 0
            &&& s.command_zone.len() == 0
            &&& s.stack.len() == 0
            &&& s.waiting_for == (WaitModel::Priority { player: PlayerId(0) })
            &&& s.rng.state == seed
            &&& s.final_mulligan_counts == Map::<PlayerId, u8>::empty()
            &&& s.forced_bottom_counts == Map::<PlayerId, u8>::empty()
            &&& s.pending_begin_game_abilities.len() == 0
            &&& !s.resolving_begin_game_abilities
            &&& s.pending_optional_ability is None
        }),
{
}

/// A new object is owned and controlled by one player, and nothing is on it.
pub proof fn new_objects_are_plain(
    id: ObjectId,
    card_id: CardId,
    owner: PlayerId,
    name: Seq<char>,
    zone: Zone,
)
    ensures
        ({
            let object = plain_object(id, card_id, owner, name, zone);
            &&& object.id == id
            &&& object.card_id == card_id
            &&& object.owner == owner
            &&& object.controller == owner
            &&& object.name == name
            &&& object.zone == zone
            &&& !object.is_token
            &&& !object.is_commander
            &&& !object.tapped
            &&& !object.transformed
            &&& !object.attacking
            &&& !object.phased_out
            &&& object.counters.len() == 0
            &&& object.abilities.len() == 0
            &&& object.static_definitions.len() == 0
        }),
{
}

/// A spell resolves with the ability it has, if any, an activated or triggered ability with itself,
/// and a keyword action with none.
pub proof fn entries_resolve_with_their_ability(kind: KindModel)
    ensures
        match kind {
            KindModel::Spell { ability, .. } => ability_of(kind) == ability,
            KindModel::ActivatedAbility { ability, .. } => ability_of(kind) == Some(ability),
            KindModel::TriggeredAbility { ability, .. } => ability_of(kind) == Some(ability),
            KindModel::KeywordAction { .. } => ability_of(kind) is None,
        },
{
}

} // verus!
