use vstd::prelude::*;
use crate::types::game_object::GameObject;
#[allow(unused_imports)]
use crate::types::game_object::ObjectModel;
use crate::types::statics::StaticDefinition;

verus! {

/// The static abilities of an object that function now: none while it is phased out
/// (CR 702.26b), else all of them.
pub open spec fn active_statics(object: ObjectModel) -> Seq<StaticDefinition> {
    if object.phased_out {
        Seq::empty()
    } else {
        object.static_definitions
    }
}

/// Lists the static abilities of an object that function now.
pub fn active_static_definitions(object: &GameObject) -> (active: Vec<StaticDefinition>)
    ensures
        active@ == active_statics(object@),
{
    if object.phased_out {
        Vec::new()
    } else {
        object.static_definitions.clone()
    }
}

} // verus!
