use vstd::prelude::*;
use crate::types::ability::ResolvedAbility;
#[allow(unused_imports)]
use crate::types::ability::{text_of, AbilityModel};
use crate::types::events::GameEvent;
use crate::types::identifiers::{CardId, ObjectId, PlayerId};

verus! {

/// How a spell was cast.
#[derive(Clone, Copy, Debug, PartialEq, Eq, Structural, Hash)]
pub enum CastingVariant {
    Normal,
    Flashback,
}

/// What must hold for a trigger to resolve.
#[derive(Clone, Copy, Debug, PartialEq, Eq, Structural, Hash)]
pub enum TriggerCondition {
    DuringYourTurn,
}

/// A keyword action that uses the stack and has no ability of its own.
#[derive(Clone, Copy, Debug, PartialEq, Eq, Structural, Hash)]
pub enum KeywordAction {
    Equip { target: ObjectId },
    Crew,
}

#[derive(Debug)]
#[allow(inconsistent_fields)]
pub enum StackEntryKind {
    Spell {
        card_id: CardId,
        ability: Option<ResolvedAbility>,
        casting_variant: CastingVariant,
        actual_mana_spent: u32,
    },
    ActivatedAbility { source_id: ObjectId, ability: ResolvedAbility },
    TriggeredAbility {
        source_id: ObjectId,
        ability: Box<ResolvedAbility>,
        condition: Option<TriggerCondition>,
        trigger_event: Option<GameEvent>,
        description: Option<String>,
        source_name: String,
    },
    KeywordAction { action: KeywordAction },
}

/// What an entry on the stack is, as a value.
#[verifier::ext_equal]
#[allow(inconsistent_fields)]
pub enum KindModel {
    Spell {
        card_id: CardId,
        ability: Option<AbilityModel>,
        casting_variant: CastingVariant,
        actual_mana_spent: u32,
    },
    ActivatedAbility { source_id: ObjectId, ability: AbilityModel },
    TriggeredAbility {
        source_id: ObjectId,
        ability: AbilityModel,
        condition: Option<TriggerCondition>,
        trigger_event: Option<GameEvent>,
        description: Option<Seq<char>>,
        source_name: Seq<char>,
    },
    KeywordAction { action: KeywordAction },
}

pub open spec fn ability_model(ability: Option<ResolvedAbility>) -> Option<AbilityModel> {
    match ability {
        Some(ability) => Some(ability@),
        None => None,
    }
}

impl View for StackEntryKind {
    type V = KindModel;

    open spec fn view(&self) -> KindModel {
        match *self {
            StackEntryKind::Spell { card_id, ability, casting_variant, actual_mana_spent } =>
                KindModel::Spell {
                    card_id,
                    ability: ability_model(ability),
                    casting_variant,
                    actual_mana_spent,
                },
            StackEntryKind::ActivatedAbility { source_id, ability } =>
                KindModel::ActivatedAbility { source_id, ability: ability@ },
            StackEntryKind::TriggeredAbility {
                source_id,
                ability,
                condition,
                trigger_event,
                description,
                source_name,
            } => KindModel::TriggeredAbility {
                source_id,
                ability: (*ability)@,
                condition,
                trigger_event,
                description: text_of(description),
                source_name: source_name@,
            },
            StackEntryKind::KeywordAction { action } => KindModel::KeywordAction { action },
        }
    }
}

impl Clone for StackEntryKind {
    fn clone(&self) -> (res: StackEntryKind)
        ensures
            res@ == self@,
    {
        match self {
            StackEntryKind::Spell { card_id, ability, casting_variant, actual_mana_spent } =>
                StackEntryKind::Spell {
                    card_id: *card_id,
                    ability: match ability {
                        Some(ability) => Some(ability.clone()),
                        None => None,
                    },
                    casting_variant: *casting_variant,
                    actual_mana_spent: *actual_mana_spent,
                },
            StackEntryKind::ActivatedAbility { source_id, ability } =>
                StackEntryKind::ActivatedAbility {
                    source_id: *source_id,
                    ability: ability.clone(),
                },
            StackEntryKind::TriggeredAbility {
                source_id,
                ability,
                condition,
                trigger_event,
                description,
                source_name,
            } => StackEntryKind::TriggeredAbility {
                source_id: *source_id,
                ability: Box::new((&**ability).clone()),
                condition: *condition,
                trigger_event: *trigger_event,
                description: description.clone(),
                source_name: source_name.clone(),
            },
            StackEntryKind::KeywordAction { action } => StackEntryKind::KeywordAction {
                action: *action,
            },
        }
    }
}

#[derive(Debug)]
pub struct StackEntry {
    pub id: ObjectId,
    pub source_id: ObjectId,
    pub controller: PlayerId,
    pub kind: StackEntryKind,
}

/// An entry on the stack as a value.
#[verifier::ext_equal]
pub struct EntryModel {
    pub id: ObjectId,
    pub source_id: ObjectId,
    pub controller: PlayerId,
    pub kind: KindModel,
}

impl View for StackEntry {
    type V = EntryModel;

    open spec fn view(&self) -> EntryModel {
        EntryModel {
            id: self.id,
            source_id: self.source_id,
            controller: self.controller,
            kind: self.kind@,
        }
    }
}

/// The ability that resolves with an entry; a keyword action and a spell without text have none.
pub open spec fn ability_of(kind: KindModel) -> Option<AbilityModel> {
    match kind {
        KindModel::Spell { ability, .. } => ability,
        KindModel::ActivatedAbility { ability, .. } => Some(ability),
        KindModel::TriggeredAbility { ability, .. } => Some(ability),
        KindModel::KeywordAction { .. } => None,
    }
}

impl StackEntry {
    pub fn ability(&self) -> (ability: Option<&ResolvedAbility>)
        ensures
            ability is Some <==> ability_of(self@.kind) is Some,
            ability matches Some(found) ==> Some(found@) == ability_of(self@.kind),
    {
        match &self.kind {
            StackEntryKind::Spell { ability, .. } => ability.as_ref(),
            StackEntryKind::ActivatedAbility { ability, .. } => Some(ability),
            StackEntryKind::TriggeredAbility { ability, .. } => Some(&**ability),
            StackEntryKind::KeywordAction { .. } => None,
        }
    }
}

impl Clone for StackEntry {
    fn clone(&self) -> (res: StackEntry)
        ensures
            res@ == self@,
    {
        StackEntry {
            id: self.id,
            source_id: self.source_id,
            controller: self.controller,
            kind: self.kind.clone(),
        }
    }
}

pub open spec fn entry_models(entries: Seq<StackEntry>) -> Seq<EntryModel> {
    entries.map_values(|entry: StackEntry| entry@)
}

} // verus!
