use std::collections::hash_map::Entry;
use std::collections::HashMap;
use vstd::prelude::*;
use crate::types::game_object::GameObject;
#[allow(unused_imports)]
use crate::types::game_object::ObjectModel;
use crate::types::identifiers::ObjectId;

verus! {

broadcast use vstd::std_specs::hash::group_hash_axioms;

/// The objects of a game, by identifier.
#[derive(Debug)]
pub struct ObjectMap {
    entries: HashMap<u64, GameObject>,
}

impl ObjectMap {
    pub closed spec fn objects(self) -> Map<ObjectId, GameObject> {
        Map::new(
            |id: ObjectId| self.entries@.contains_key(id.0),
            |id: ObjectId| self.entries@[id.0],
        )
    }

    pub open spec fn models(self) -> Map<ObjectId, ObjectModel> {
        self.objects().map_values(|object: GameObject| object@)
    }

    pub fn new() -> (map: ObjectMap)
        ensures
            map@ == Map::<ObjectId, ObjectModel>::empty(),
    {
        let map = ObjectMap { entries: HashMap::new() };
        assert(map@ =~= Map::<ObjectId, ObjectModel>::empty());
        map
    }

    pub fn get(&self, id: &ObjectId) -> (object: Option<&GameObject>)
        ensures
            object is Some <==> self@.contains_key(*id),
            object matches Some(found) ==> found@ == self@[*id],
    {
        self.entries.get(&id.0)
    }

    pub fn get_mut(&mut self, id: &ObjectId) -> (object: Option<&mut GameObject>)
        ensures
            object is Some <==> old(self)@.contains_key(*id),
            object is None ==> final(self)@ == old(self)@,
            object matches Some(found) ==> found@ == old(self)@[*id] && final(self)@
                == old(self)@.insert(*id, final(found)@),
    {
        match self.entries.entry(id.0) {
            Entry::Occupied(entry) => Some(entry.into_mut()),
            Entry::Vacant(_) => None,
        }
    }

    pub fn insert(&mut self, id: ObjectId, object: GameObject)
        ensures
            final(self)@ == old(self)@.insert(id, object@),
    {
        self.entries.insert(id.0, object);
        assert(self@ =~= old(self)@.insert(id, object@));
    }
}

impl View for ObjectMap {
    type V = Map<ObjectId, ObjectModel>;

    open spec fn view(&self) -> Map<ObjectId, ObjectModel> {
        self.models()
    }
}

} // verus!
