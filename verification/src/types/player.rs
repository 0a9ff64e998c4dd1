use vstd::prelude::*;
use crate::types::identifiers::{ObjectId, PlayerId};

verus! {

/// A player and the zones that belong to them. The first card of a library is its top.
#[derive(Debug)]
pub struct Player {
    pub id: PlayerId,
    pub life: i32,
    pub hand: Vec<ObjectId>,
    pub library: Vec<ObjectId>,
    pub graveyard: Vec<ObjectId>,
}

/// A player as a value.
#[verifier::ext_equal]
pub struct PlayerModel {
    pub id: PlayerId,
    pub life: i32,
    pub hand: Seq<ObjectId>,
    pub library: Seq<ObjectId>,
    pub graveyard: Seq<ObjectId>,
}

impl View for Player {
    type V = PlayerModel;

    open spec fn view(&self) -> PlayerModel {
        PlayerModel {
            id: self.id,
            life: self.life,
            hand: self.hand@,
            library: self.library@,
            graveyard: self.graveyard@,
        }
    }
}

pub open spec fn player_models(players: Seq<Player>) -> Seq<PlayerModel> {
    players.map_values(|player: Player| player@)
}

/// The position of the first player with the identifier.
pub open spec fn is_position(players: Seq<PlayerModel>, id: PlayerId, i: int) -> bool {
    &&& 0 <= i < players.len()
    &&& players[i].id == id
    &&& forall|j: int| 0 <= j < i ==> (#[trigger] players[j]).id != id
}

pub open spec fn has_player(players: Seq<PlayerModel>, id: PlayerId) -> bool {
    exists|i: int| is_position(players, id, i)
}

pub open spec fn position_of(players: Seq<PlayerModel>, id: PlayerId) -> int {
    choose|i: int| is_position(players, id, i)
}

/// Every seat in the list is taken by a player at position `i`, which is then the only one.
pub proof fn position_is_unique(players: Seq<PlayerModel>, id: PlayerId, i: int)
    requires
        is_position(players, id, i),
    ensures
        has_player(players, id),
        position_of(players, id) == i,
{
    let j = position_of(players, id);
    assert(is_position(players, id, j));
    if i < j {
        assert(players[i].id != id);
    } else if j < i {
        assert(players[j].id != id);
    }
}

/// Some player has the identifier exactly if there is a first one.
pub proof fn first_player_exists(players: Seq<PlayerModel>, id: PlayerId, i: int)
    requires
        0 <= i < players.len(),
        players[i].id == id,
    ensures
        has_player(players, id),
    decreases i,
{
    if exists|j: int| 0 <= j < i && (#[trigger] players[j]).id == id {
        let j = choose|j: int| 0 <= j < i && (#[trigger] players[j]).id == id;
        first_player_exists(players, id, j);
    } else {
        assert(is_position(players, id, i));
    }
}

pub open spec fn same_ids(before: Seq<PlayerModel>, after: Seq<PlayerModel>) -> bool {
    &&& before.len() == after.len()
    &&& forall|i: int|
        #![trigger after[i]]
        #![trigger before[i]]
        0 <= i < before.len() ==> after[i].id == before[i].id
}

/// Players are found where they were as long as the identifiers stay in place.
pub proof fn same_ids_same_positions(
    before: Seq<PlayerModel>,
    after: Seq<PlayerModel>,
    id: PlayerId,
)
    requires
        same_ids(before, after),
    ensures
        has_player(after, id) == has_player(before, id),
        has_player(before, id) ==> is_position(before, id, position_of(before, id)) && position_of(
            after,
            id,
        ) == position_of(before, id),
{
    if has_player(before, id) {
        let i = position_of(before, id);
        assert(is_position(before, id, i));
        assert forall|j: int| 0 <= j < i implies (#[trigger] after[j]).id != id by {
            assert(before[j].id != id);
        }
        assert(is_position(after, id, i));
        position_is_unique(after, id, i);
    }
    if has_player(after, id) {
        let i = position_of(after, id);
        assert(is_position(after, id, i));
        assert(before[i].id == id);
        first_player_exists(before, id, i);
    }
}

/// Finds a player by identifier.
pub fn find_player(players: &Vec<Player>, id: PlayerId) -> (found: Option<usize>)
    ensures
        found is Some <==> has_player(player_models(players@), id),
        found matches Some(i) ==> is_position(player_models(players@), id, i as int) && i
            == position_of(player_models(players@), id),
{
    let ghost models = player_models(players@);
    for i in 0..players.len()
        invariant
            models == player_models(players@),
            forall|j: int| 0 <= j < i ==> (#[trigger] models[j]).id != id,
    {
        assert(models[i as int] == players@[i as int]@);
        if players[i].id == id {
            proof {
                position_is_unique(models, id, i as int);
            }
            return Some(i);
        }
    }
    None
}

} // verus!
