use vstd::prelude::*;
use crate::types::ability::{
    clone_counters, clone_definitions, AbilityDefinition, CounterType, QuantityExpr,
};
#[allow(unused_imports)]
use crate::types::ability::{definition_models, DefinitionModel};
use crate::types::identifiers::{CardId, ObjectId, PlayerId};
use crate::types::statics::StaticDefinition;
use crate::types::zones::Zone;

verus! {

/// A card, a token or a spell, wherever it is.
#[derive(Debug)]
pub struct GameObject {
    pub id: ObjectId,
    pub card_id: CardId,
    pub owner: PlayerId,
    pub controller: PlayerId,
    pub name: String,
    pub zone: Zone,
    pub is_token: bool,
    pub is_commander: bool,
    pub tapped: bool,
    pub transformed: bool,
    pub attacking: bool,
    pub phased_out: bool,
    pub counters: Vec<(CounterType, QuantityExpr)>,
    pub abilities: Vec<AbilityDefinition>,
    pub static_definitions: Vec<StaticDefinition>,
}

/// An object as a value.
#[verifier::ext_equal]
pub struct ObjectModel {
    pub id: ObjectId,
    pub card_id: CardId,
    pub owner: PlayerId,
    pub controller: PlayerId,
    pub name: Seq<char>,
    pub zone: Zone,
    pub is_token: bool,
    pub is_commander: bool,
    pub tapped: bool,
    pub transformed: bool,
    pub attacking: bool,
    pub phased_out: bool,
    pub counters: Seq<(CounterType, QuantityExpr)>,
    pub abilities: Seq<DefinitionModel>,
    pub static_definitions: Seq<StaticDefinition>,
}

impl View for GameObject {
    type V = ObjectModel;

    open spec fn view(&self) -> ObjectModel {
        ObjectModel {
            id: self.id,
            card_id: self.card_id,
            owner: self.owner,
            controller: self.controller,
            name: self.name@,
            zone: self.zone,
            is_token: self.is_token,
            is_commander: self.is_commander,
            tapped: self.tapped,
            transformed: self.transformed,
            attacking: self.attacking,
            phased_out: self.phased_out,
            counters: self.counters@,
            abilities: definition_models(self.abilities@),
            static_definitions: self.static_definitions@,
        }
    }
}

/// A card without abilities, owned and controlled by one player.
pub open spec fn plain_object(
    id: ObjectId,
    card_id: CardId,
    owner: PlayerId,
    name: Seq<char>,
    zone: Zone,
) -> ObjectModel {
    ObjectModel {
        id,
        card_id,
        owner,
        controller: owner,
        name,
        zone,
        is_token: false,
        is_commander: false,
        tapped: false,
        transformed: false,
        attacking: false,
        phased_out: false,
        counters: Seq::empty(),
        abilities: Seq::empty(),
        static_definitions: Seq::empty(),
    }
}

impl GameObject {
    pub fn new(
        id: ObjectId,
        card_id: CardId,
        owner: PlayerId,
        name: String,
        zone: Zone,
    ) -> (object: GameObject)
        ensures
            object@ == plain_object(id, card_id, owner, name@, zone),
    {
        let object = GameObject {
            id,
            card_id,
            owner,
            controller: owner,
            name,
            zone,
            is_token: false,
            is_commander: false,
            tapped: false,
            transformed: false,
            attacking: false,
            phased_out: false,
            counters: Vec::new(),
            abilities: Vec::new(),
            static_definitions: Vec::new(),
        };
        assert(object@ =~= plain_object(id, card_id, owner, name@, zone));
        object
    }
}

impl Clone for GameObject {
    fn clone(&self) -> (res: GameObject)
        ensures
            res@ == self@,
    {
        GameObject {
            id: self.id,
            card_id: self.card_id,
            owner: self.owner,
            controller: self.controller,
            name: self.name.clone(),
            zone: self.zone,
            is_token: self.is_token,
            is_commander: self.is_commander,
            tapped: self.tapped,
            transformed: self.transformed,
            attacking: self.attacking,
            phased_out: self.phased_out,
            counters: clone_counters(&self.counters),
            abilities: clone_definitions(&self.abilities),
            static_definitions: self.static_definitions.clone(),
        }
    }
}

} // verus!
