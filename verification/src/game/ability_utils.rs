use vstd::prelude::*;
use crate::types::ability::{AbilityDefinition, ResolvedAbility};
#[allow(unused_imports)]
use crate::types::ability::{AbilityModel, DefinitionModel};
use crate::types::identifiers::{ObjectId, PlayerId};

verus! {

/// A printed ability about to resolve for a player, without targets as yet.
pub open spec fn resolved_from(
    definition: DefinitionModel,
    source_id: ObjectId,
    controller: PlayerId,
) -> AbilityModel
    decreases definition,
{
    AbilityModel {
        effect: definition.effect,
        targets: Seq::empty(),
        source_id,
        controller,
        optional: definition.optional,
        cant_be_copied: definition.cant_be_copied,
        repeat_for: definition.repeat_for,
        description: definition.description,
        sub_ability: match definition.sub_ability {
            Some(sub) => Some(Box::new(resolved_from(*sub, source_id, controller))),
            None => None,
        },
        else_ability: match definition.else_ability {
            Some(sub) => Some(Box::new(resolved_from(*sub, source_id, controller))),
            None => None,
        },
    }
}

/// Makes a printed ability ready to resolve.
pub fn build_resolved_from_def(
    definition: &AbilityDefinition,
    source_id: ObjectId,
    controller: PlayerId,
) -> (ability: ResolvedAbility)
    ensures
        ability@ == resolved_from(definition@, source_id, controller),
    decreases definition,
{
    ResolvedAbility {
        effect: definition.effect.clone(),
        targets: Vec::new(),
        source_id,
        controller,
        optional: definition.optional,
        cant_be_copied: definition.cant_be_copied,
        repeat_for: definition.repeat_for,
        description: definition.description.clone(),
        sub_ability: match &definition.sub_ability {
            Some(sub) => Some(Box::new(build_resolved_from_def(&**sub, source_id, controller))),
            None => None,
        },
        else_ability: match &definition.else_ability {
            Some(sub) => Some(Box::new(build_resolved_from_def(&**sub, source_id, controller))),
            None => None,
        },
    }
}

} // verus!
