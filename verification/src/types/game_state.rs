use vstd::prelude::*;
use crate::types::ability::{ResolvedAbility, TargetRef};
#[allow(unused_imports)]
use crate::types::ability::{text_of, AbilityModel};
use crate::types::format::FormatConfig;
#[allow(unused_imports)]
use crate::types::format::GameFormat;
#[allow(unused_imports)]
use crate::types::game_object::ObjectModel;
use crate::types::identifiers::{ObjectId, PlayerId};
use crate::types::mulligan_counts::MulliganCounts;
use crate::types::object_map::ObjectMap;
use crate::types::phase::Phase;
use crate::types::player::Player;
#[allow(unused_imports)]
use crate::types::player::{
    first_player_exists, has_player, player_models, position_of, same_ids, same_ids_same_positions,
    PlayerModel,
};
use crate::types::stack::StackEntry;
#[allow(unused_imports)]
use crate::types::stack::{ability_model, entry_models, EntryModel};
use crate::types::zones::Zone;
#[allow(unused_imports)]
use crate::types::zones::is_private;
use crate::util::rng::GameRng;

verus! {

/// A player who has yet to keep a hand, and the mulligans they have taken.
#[derive(Clone, Copy, Debug, PartialEq, Eq, Structural, Hash)]
pub struct MulliganDecisionEntry {
    pub player: PlayerId,
    pub mulligan_count: u8,
}

/// A player who has yet to put cards on the bottom, and how many.
#[derive(Clone, Copy, Debug, PartialEq, Eq, Structural, Hash)]
pub struct MulliganBottomEntry {
    pub player: PlayerId,
    pub count: u8,
}

/// A target of a copy, which its controller may change.
#[derive(Debug)]
pub struct CopyTargetSlot {
    pub current: TargetRef,
    pub legal_alternatives: Vec<TargetRef>,
}

/// A target of a copy as a value.
#[verifier::ext_equal]
pub struct SlotModel {
    pub current: TargetRef,
    pub legal_alternatives: Seq<TargetRef>,
}

impl View for CopyTargetSlot {
    type V = SlotModel;

    open spec fn view(&self) -> SlotModel {
        SlotModel { current: self.current, legal_alternatives: self.legal_alternatives@ }
    }
}

pub open spec fn slot_models(slots: Seq<CopyTargetSlot>) -> Seq<SlotModel> {
    slots.map_values(|slot: CopyTargetSlot| slot@)
}

fn clone_slots(slots: &Vec<CopyTargetSlot>) -> (res: Vec<CopyTargetSlot>)
    ensures
        slot_models(res@) == slot_models(slots@),
{
    let mut res: Vec<CopyTargetSlot> = Vec::new();
    for i in 0..slots.len()
        invariant
            res@.len() == i,
            forall|j: int| 0 <= j < i ==> (#[trigger] res@[j])@ == slots@[j]@,
    {
        res.push(
            CopyTargetSlot {
                current: slots[i].current,
                legal_alternatives: slots[i].legal_alternatives.clone(),
            },
        );
    }
    assert(slot_models(res@) =~= slot_models(slots@));
    res
}

/// What the game waits for.
#[derive(Debug)]
#[allow(inconsistent_fields)]
pub enum WaitingFor {
    Priority { player: PlayerId },
    MulliganDecision { pending: Vec<MulliganDecisionEntry>, free_first_mulligan: bool },
    MulliganBottomCards { pending: Vec<MulliganBottomEntry> },
    OptionalEffectChoice {
        player: PlayerId,
        source_id: ObjectId,
        description: Option<String>,
    },
    CopyRetarget { player: PlayerId, copy_id: ObjectId, target_slots: Vec<CopyTargetSlot> },
}

/// What the game waits for, as a value.
#[verifier::ext_equal]
#[allow(inconsistent_fields)]
pub enum WaitModel {
    Priority { player: PlayerId },
    MulliganDecision { pending: Seq<MulliganDecisionEntry>, free_first_mulligan: bool },
    MulliganBottomCards { pending: Seq<MulliganBottomEntry> },
    OptionalEffectChoice {
        player: PlayerId,
        source_id: ObjectId,
        description: Option<Seq<char>>,
    },
    CopyRetarget { player: PlayerId, copy_id: ObjectId, target_slots: Seq<SlotModel> },
}

impl View for WaitingFor {
    type V = WaitModel;

    open spec fn view(&self) -> WaitModel {
        match *self {
            WaitingFor::Priority { player } => WaitModel::Priority { player },
            WaitingFor::MulliganDecision { pending, free_first_mulligan } =>
                WaitModel::MulliganDecision { pending: pending@, free_first_mulligan },
            WaitingFor::MulliganBottomCards { pending } => WaitModel::MulliganBottomCards {
                pending: pending@,
            },
            WaitingFor::OptionalEffectChoice { player, source_id, description } =>
                WaitModel::OptionalEffectChoice {
                    player,
                    source_id,
                    description: text_of(description),
                },
            WaitingFor::CopyRetarget { player, copy_id, target_slots } =>
                WaitModel::CopyRetarget {
                    player,
                    copy_id,
                    target_slots: slot_models(target_slots@),
                },
        }
    }
}

impl Clone for WaitingFor {
    fn clone(&self) -> (res: WaitingFor)
        ensures
            res@ == self@,
    {
        match self {
            WaitingFor::Priority { player } => WaitingFor::Priority { player: *player },
            WaitingFor::MulliganDecision { pending, free_first_mulligan } =>
                WaitingFor::MulliganDecision {
                    pending: pending.clone(),
                    free_first_mulligan: *free_first_mulligan,
                },
            WaitingFor::MulliganBottomCards { pending } => WaitingFor::MulliganBottomCards {
                pending: pending.clone(),
            },
            WaitingFor::OptionalEffectChoice { player, source_id, description } =>
                WaitingFor::OptionalEffectChoice {
                    player: *player,
                    source_id: *source_id,
                    description: description.clone(),
                },
            WaitingFor::CopyRetarget { player, copy_id, target_slots } =>
                WaitingFor::CopyRetarget {
                    player: *player,
                    copy_id: *copy_id,
                    target_slots: clone_slots(target_slots),
                },
        }
    }
}

/// A beginning-of-game ability that has not resolved yet.
#[derive(Debug)]
pub struct PendingBeginGameAbility {
    pub ability: ResolvedAbility,
}

pub open spec fn pending_models(pending: Seq<PendingBeginGameAbility>) -> Seq<AbilityModel> {
    pending.map_values(|entry: PendingBeginGameAbility| entry.ability@)
}

/// A game in progress.
#[derive(Debug)]
pub struct GameState {
    pub format_config: FormatConfig,
    pub players: Vec<Player>,
    /// The players who are still in the game, in turn order.
    pub seat_order: Vec<PlayerId>,
    pub active_player: PlayerId,
    pub turn_number: u32,
    pub phase: Phase,
    pub objects: ObjectMap,
    pub next_object_id: u64,
    pub battlefield: Vec<ObjectId>,
    pub exile: Vec<ObjectId>,
    pub command_zone: Vec<ObjectId>,
    /// The last entry is the top of the stack.
    pub stack: Vec<StackEntry>,
    pub waiting_for: WaitingFor,
    pub rng: GameRng,
    /// The mulligans of the players who have locked in a hand.
    pub final_mulligan_counts: MulliganCounts,
    /// The size of the hand of each player who took the last mulligan there is, all of which they
    /// owe.
    pub forced_bottom_counts: MulliganCounts,
    /// The beginning-of-game abilities that are left, the next one last.
    pub pending_begin_game_abilities: Vec<PendingBeginGameAbility>,
    pub resolving_begin_game_abilities: bool,
    /// The ability that waits for its controller to say whether it happens.
    pub pending_optional_ability: Option<ResolvedAbility>,
}

/// A game in progress, as a value.
#[verifier::ext_equal]
pub struct StateModel {
    pub format_config: FormatConfig,
    pub players: Seq<PlayerModel>,
    pub seat_order: Seq<PlayerId>,
    pub active_player: PlayerId,
    pub turn_number: u32,
    pub phase: Phase,
    pub objects: Map<ObjectId, ObjectModel>,
    pub next_object_id: u64,
    pub battlefield: Seq<ObjectId>,
    pub exile: Seq<ObjectId>,
    pub command_zone: Seq<ObjectId>,
    pub stack: Seq<EntryModel>,
    pub waiting_for: WaitModel,
    pub rng: GameRng,
    pub final_mulligan_counts: Map<PlayerId, u8>,
    pub forced_bottom_counts: Map<PlayerId, u8>,
    pub pending_begin_game_abilities: Seq<AbilityModel>,
    pub resolving_begin_game_abilities: bool,
    pub pending_optional_ability: Option<AbilityModel>,
}

impl View for GameState {
    type V = StateModel;

    open spec fn view(&self) -> StateModel {
        StateModel {
            format_config: self.format_config,
            players: player_models(self.players@),
            seat_order: self.seat_order@,
            active_player: self.active_player,
            turn_number: self.turn_number,
            phase: self.phase,
            objects: self.objects@,
            next_object_id: self.next_object_id,
            battlefield: self.battlefield@,
            exile: self.exile@,
            command_zone: self.command_zone@,
            stack: entry_models(self.stack@),
            waiting_for: self.waiting_for@,
            rng: self.rng,
            final_mulligan_counts: self.final_mulligan_counts@,
            forced_bottom_counts: self.forced_bottom_counts@,
            pending_begin_game_abilities: pending_models(self.pending_begin_game_abilities@),
            resolving_begin_game_abilities: self.resolving_begin_game_abilities,
            pending_optional_ability: ability_model(self.pending_optional_ability),
        }
    }
}

impl StateModel {
    pub open spec fn has_player(self, id: PlayerId) -> bool {
        has_player(self.players, id)
    }

    pub open spec fn player(self, id: PlayerId) -> PlayerModel {
        self.players[position_of(self.players, id)]
    }

    pub open spec fn with_player(self, id: PlayerId, player: PlayerModel) -> StateModel {
        StateModel {
            players: self.players.update(position_of(self.players, id), player),
            ..self
        }
    }

    /// The cards in a zone: those of one player where the zone is private, else all of them.
    pub open spec fn zone_list(self, owner: PlayerId, zone: Zone) -> Seq<ObjectId> {
        match zone {
            Zone::Library => self.player(owner).library,
            Zone::Hand => self.player(owner).hand,
            Zone::Graveyard => self.player(owner).graveyard,
            Zone::Battlefield => self.battlefield,
            Zone::Exile => self.exile,
            Zone::Command => self.command_zone,
            Zone::Stack => Seq::empty(),
        }
    }

    pub open spec fn with_zone_list(
        self,
        owner: PlayerId,
        zone: Zone,
        list: Seq<ObjectId>,
    ) -> StateModel {
        match zone {
            Zone::Library => self.with_player(
                owner,
                PlayerModel { library: list, ..self.player(owner) },
            ),
            Zone::Hand => self.with_player(owner, PlayerModel { hand: list, ..self.player(owner) }),
            Zone::Graveyard => self.with_player(
                owner,
                PlayerModel { graveyard: list, ..self.player(owner) },
            ),
            Zone::Battlefield => StateModel { battlefield: list, ..self },
            Zone::Exile => StateModel { exile: list, ..self },
            Zone::Command => StateModel { command_zone: list, ..self },
            Zone::Stack => self,
        }
    }

    /// The object is in the zone, and in the part of it that belongs to `owner`.
    pub open spec fn resides(self, id: ObjectId, owner: PlayerId, zone: Zone) -> bool {
        &&& self.objects.contains_key(id)
        &&& self.objects[id].zone == zone
        &&& is_private(zone) ==> self.objects[id].owner == owner
    }

    /// A zone lists the objects that are in it, each once.
    pub open spec fn zone_matches(self, owner: PlayerId, zone: Zone) -> bool {
        &&& self.zone_list(owner, zone).no_duplicates()
        &&& forall|id: ObjectId| #[trigger]
            self.zone_list(owner, zone).contains(id) <==> self.resides(id, owner, zone)
    }

    /// Everyone in turn order is a player.
    pub open spec fn seats_taken(self) -> bool {
        forall|i: int|
            0 <= i < self.seat_order.len() ==> self.has_player(#[trigger] self.seat_order[i])
    }

    /// The invariant of a game: players are told apart by their identifiers, everyone in turn
    /// order is a player, every object has an owner and an identifier already handed out, and
    /// every zone but the stack lists what is in it.
    pub open spec fn valid(self) -> bool {
        &&& forall|i: int, j: int|
            0 <= i < j < self.players.len() ==> (#[trigger] self.players[i]).id != (
            #[trigger] self.players[j]).id
        &&& self.seat_order.no_duplicates()
        &&& forall|i: int|
            0 <= i < self.seat_order.len() ==> self.has_player(#[trigger] self.seat_order[i])
        &&& forall|id: ObjectId| #[trigger]
            self.objects.contains_key(id) ==> self.has_player(self.objects[id].owner)
                && self.objects[id].id == id && id.0 < self.next_object_id
        &&& forall|owner: PlayerId, zone: Zone|
            self.has_player(owner) && zone != Zone::Stack ==> #[trigger] self.zone_matches(
                owner,
                zone,
            )
    }
}

/// Of two lists written to one zone the second counts, and lists of two zones can be written in
/// either order.
pub proof fn writing_zone_lists(
    s: StateModel,
    owner: PlayerId,
    one: Zone,
    two: Zone,
    list: Seq<ObjectId>,
    next: Seq<ObjectId>,
)
    requires
        s.has_player(owner),
        one != two,
    ensures
        s.with_zone_list(owner, one, list).with_zone_list(owner, one, next) == s.with_zone_list(
            owner,
            one,
            next,
        ),
        s.with_zone_list(owner, one, list).with_zone_list(owner, two, next) == s.with_zone_list(
            owner,
            two,
            next,
        ).with_zone_list(owner, one, list),
{
    let first = s.with_zone_list(owner, one, list);
    let second = s.with_zone_list(owner, two, next);
    zone_lists_are_separate(s, owner, one, list);
    zone_lists_are_separate(s, owner, two, next);
    same_ids_same_positions(s.players, first.players, owner);
    same_ids_same_positions(s.players, second.players, owner);
    assert(first.with_zone_list(owner, one, next) =~= s.with_zone_list(owner, one, next));
    assert(first.with_zone_list(owner, two, next) =~= second.with_zone_list(owner, one, list));
}

/// Resolving effects leaves these alone: who plays and in which order, the turn, the randomness,
/// the mulligans taken, and the beginning-of-game abilities still to come.
pub open spec fn same_frame(before: StateModel, after: StateModel) -> bool {
    &&& same_ids(before.players, after.players)
    &&& after.seat_order == before.seat_order
    &&& after.format_config == before.format_config
    &&& after.active_player == before.active_player
    &&& after.turn_number == before.turn_number
    &&& after.phase == before.phase
    &&& after.rng == before.rng
    &&& after.final_mulligan_counts == before.final_mulligan_counts
    &&& after.forced_bottom_counts == before.forced_bottom_counts
    &&& after.pending_begin_game_abilities == before.pending_begin_game_abilities
    &&& after.resolving_begin_game_abilities == before.resolving_begin_game_abilities
}

/// Validity speaks only of players, seats, objects and zones.
pub proof fn waiting_keeps_valid(s: StateModel, t: StateModel)
    requires
        s.valid(),
        t.players == s.players,
        t.seat_order == s.seat_order,
        t.objects == s.objects,
        t.next_object_id == s.next_object_id,
        t.battlefield == s.battlefield,
        t.exile == s.exile,
        t.command_zone == s.command_zone,
    ensures
        t.valid(),
{
    assert forall|other: PlayerId| #[trigger] t.has_player(other) == s.has_player(other) by {}
    assert forall|i: int| 0 <= i < t.seat_order.len() implies t.has_player(
        #[trigger] t.seat_order[i],
    ) by {
        assert(s.has_player(s.seat_order[i]));
    }
    assert forall|who: PlayerId, zone: Zone|
        t.has_player(who) && zone != Zone::Stack implies #[trigger] t.zone_matches(who, zone) by {
        assert(s.zone_matches(who, zone));
        assert(t.zone_list(who, zone) == s.zone_list(who, zone));
        assert forall|other: ObjectId| #[trigger]
            t.zone_list(who, zone).contains(other) <==> t.resides(other, who, zone) by {
            assert(s.zone_list(who, zone).contains(other) <==> s.resides(other, who, zone));
        }
    }
}

/// Two lists of the same cards hold the same cards, and repeat them alike.
pub proof fn permutation_facts(before: Seq<ObjectId>, after: Seq<ObjectId>)
    requires
        before.to_multiset() == after.to_multiset(),
    ensures
        before.len() == after.len(),
        before.no_duplicates() ==> after.no_duplicates(),
        forall|id: ObjectId| #[trigger] after.contains(id) <==> before.contains(id),
{
    vstd::seq_lib::to_multiset_len(before);
    vstd::seq_lib::to_multiset_len(after);
    if before.no_duplicates() {
        before.lemma_multiset_has_no_duplicates();
        after.lemma_multiset_has_no_duplicates_conv();
    }
    assert forall|id: ObjectId| #[trigger] after.contains(id) <==> before.contains(id) by {
        vstd::seq_lib::to_multiset_contains(before, id);
        vstd::seq_lib::to_multiset_contains(after, id);
    }
}

/// Putting the cards of zones in another order keeps a valid game valid.
pub proof fn permuting_keeps_valid(s: StateModel, t: StateModel)
    requires
        s.valid(),
        same_ids(s.players, t.players),
        t.seat_order == s.seat_order,
        t.objects == s.objects,
        t.next_object_id == s.next_object_id,
        forall|owner: PlayerId, zone: Zone|
            s.has_player(owner) ==> (#[trigger] t.zone_list(owner, zone)).to_multiset()
                == s.zone_list(owner, zone).to_multiset(),
    ensures
        t.valid(),
{
    assert forall|i: int, j: int| 0 <= i < j < t.players.len() implies (
    #[trigger] t.players[i]).id != (#[trigger] t.players[j]).id by {
        assert(s.players[i].id != s.players[j].id);
    }
    assert forall|other: PlayerId| #[trigger] t.has_player(other) == s.has_player(other) by {
        same_ids_same_positions(s.players, t.players, other);
    }
    assert forall|i: int| 0 <= i < t.seat_order.len() implies t.has_player(
        #[trigger] t.seat_order[i],
    ) by {
        assert(s.has_player(s.seat_order[i]));
    }
    assert forall|other: ObjectId| #[trigger] t.objects.contains_key(other) implies t.has_player(
        t.objects[other].owner,
    ) && t.objects[other].id == other && other.0 < t.next_object_id by {
        assert(s.objects.contains_key(other));
        assert(s.has_player(s.objects[other].owner));
    }
    assert forall|who: PlayerId, zone: Zone|
        t.has_player(who) && zone != Zone::Stack implies #[trigger] t.zone_matches(who, zone) by {
        assert(s.has_player(who));
        assert(s.zone_matches(who, zone));
        permutation_facts(s.zone_list(who, zone), t.zone_list(who, zone));
        assert forall|other: ObjectId| #[trigger]
            t.zone_list(who, zone).contains(other) <==> t.resides(other, who, zone) by {
            assert(s.zone_list(who, zone).contains(other) <==> s.resides(other, who, zone));
        }
    }
}

/// Changing an object in anything but its identifier, owner and zone keeps a valid game valid.
pub proof fn restyling_keeps_valid(s: StateModel, id: ObjectId, object: ObjectModel)
    requires
        s.valid(),
        s.objects.contains_key(id),
        object.id == s.objects[id].id,
        object.owner == s.objects[id].owner,
        object.zone == s.objects[id].zone,
    ensures
        (StateModel { objects: s.objects.insert(id, object), ..s }).valid(),
{
    let t = StateModel { objects: s.objects.insert(id, object), ..s };
    assert forall|other: PlayerId| #[trigger] t.has_player(other) == s.has_player(other) by {}
    assert forall|i: int| 0 <= i < t.seat_order.len() implies t.has_player(
        #[trigger] t.seat_order[i],
    ) by {
        assert(s.has_player(s.seat_order[i]));
    }
    assert forall|other: ObjectId| #[trigger] t.objects.contains_key(other) implies t.has_player(
        t.objects[other].owner,
    ) && t.objects[other].id == other && other.0 < t.next_object_id by {
        assert(s.objects.contains_key(other));
    }
    assert forall|who: PlayerId, zone: Zone|
        t.has_player(who) && zone != Zone::Stack implies #[trigger] t.zone_matches(who, zone) by {
        assert(s.zone_matches(who, zone));
        assert(t.zone_list(who, zone) == s.zone_list(who, zone));
        assert forall|other: ObjectId| #[trigger]
            t.zone_list(who, zone).contains(other) <==> t.resides(other, who, zone) by {
            assert(s.zone_list(who, zone).contains(other) <==> s.resides(other, who, zone));
        }
    }
}

/// A game that has not begun: nobody has cards.
pub open spec fn initial_state(config: FormatConfig, num_players: u8, seed: u64) -> StateModel {
    StateModel {
        format_config: config,
        players: Seq::new(
            num_players as nat,
            |i: int|
                PlayerModel {
                    id: PlayerId(i as u8),
                    life: config.starting_life,
                    hand: Seq::empty(),
                    library: Seq::empty(),
                    graveyard: Seq::empty(),
                },
        ),
        seat_order: Seq::new(num_players as nat, |i: int| PlayerId(i as u8)),
        active_player: PlayerId(0),
        turn_number: 0,
        phase: Phase::Untap,
        objects: Map::empty(),
        next_object_id: 1,
        battlefield: Seq::empty(),
        exile: Seq::empty(),
        command_zone: Seq::empty(),
        stack: Seq::empty(),
        waiting_for: WaitModel::Priority { player: PlayerId(0) },
        rng: GameRng { state: seed },
        final_mulligan_counts: Map::empty(),
        forced_bottom_counts: Map::empty(),
        pending_begin_game_abilities: Seq::empty(),
        resolving_begin_game_abilities: false,
        pending_optional_ability: None,
    }
}

impl GameState {
    pub fn new(config: FormatConfig, num_players: u8, seed: u64) -> (state: GameState)
        ensures
            state@ == initial_state(config, num_players, seed),
            state@.valid(),
    {
        let mut players: Vec<Player> = Vec::new();
        let mut seat_order: Vec<PlayerId> = Vec::new();
        let ghost expected = initial_state(config, num_players, seed);
        for i in 0..num_players
            invariant
                expected == initial_state(config, num_players, seed),
                players@.len() == i,
                forall|j: int| 0 <= j < i ==> (#[trigger] players@[j])@ == expected.players[j],
                seat_order@ == expected.seat_order.take(i as int),
        {
            players.push(
                Player {
                    id: PlayerId(i),
                    life: config.starting_life,
                    hand: Vec::new(),
                    library: Vec::new(),
                    graveyard: Vec::new(),
                },
            );
            assert(players@[i as int]@ =~= expected.players[i as int]);
            seat_order.push(PlayerId(i));
        }
        let state = GameState {
            format_config: config,
            players,
            seat_order,
            active_player: PlayerId(0),
            turn_number: 0,
            phase: Phase::Untap,
            objects: ObjectMap::new(),
            next_object_id: 1,
            battlefield: Vec::new(),
            exile: Vec::new(),
            command_zone: Vec::new(),
            stack: Vec::new(),
            waiting_for: WaitingFor::Priority { player: PlayerId(0) },
            rng: GameRng::new(seed),
            final_mulligan_counts: MulliganCounts::new(),
            forced_bottom_counts: MulliganCounts::new(),
            pending_begin_game_abilities: Vec::new(),
            resolving_begin_game_abilities: false,
            pending_optional_ability: None,
        };
        proof {
            assert(player_models(state.players@) =~= expected.players);
            assert(state@ =~= expected);
            assert forall|i: int| 0 <= i < expected.seat_order.len() implies expected.has_player(
                #[trigger] expected.seat_order[i],
            ) by {
                first_player_exists(expected.players, expected.seat_order[i], i);
            }
            assert forall|owner: PlayerId, zone: Zone|
                expected.has_player(owner) && zone
                    != Zone::Stack implies #[trigger] expected.zone_matches(owner, zone) by {
                same_ids_same_positions(expected.players, expected.players, owner);
                assert(expected.zone_list(owner, zone) =~= Seq::empty());
            }
        }
        state
    }

    pub fn new_two_player(seed: u64) -> (state: GameState)
        ensures
            state@ == initial_state(
                FormatConfig { format: GameFormat::Standard, starting_life: 20 },
                2,
                seed,
            ),
            state@.valid(),
    {
        GameState::new(FormatConfig::standard(), 2, seed)
    }
}

/// Replacing the list of one zone changes that list and no other, and who plays stays the same.
pub proof fn zone_lists_are_separate(
    s: StateModel,
    owner: PlayerId,
    zone: Zone,
    list: Seq<ObjectId>,
)
    requires
        s.has_player(owner),
    ensures
        same_ids(s.players, s.with_zone_list(owner, zone, list).players),
        forall|other: PlayerId| #[trigger]
            s.with_zone_list(owner, zone, list).has_player(other) == s.has_player(other),
        forall|other: PlayerId, place: Zone|
            s.has_player(other) ==> #[trigger] s.with_zone_list(owner, zone, list).zone_list(
                other,
                place,
            ) == if place == zone && zone != Zone::Stack && (is_private(zone) ==> other == owner) {
                list
            } else {
                s.zone_list(other, place)
            },
{
    let t = s.with_zone_list(owner, zone, list);
    same_ids_same_positions(s.players, s.players, owner);
    assert(same_ids(s.players, t.players));
    assert forall|other: PlayerId| #[trigger] t.has_player(other) == s.has_player(other) by {
        same_ids_same_positions(s.players, t.players, other);
    }
    assert forall|other: PlayerId, place: Zone| s.has_player(other) implies #[trigger] t.zone_list(
        other,
        place,
    ) == if place == zone && zone != Zone::Stack && (is_private(zone) ==> other == owner) {
        list
    } else {
        s.zone_list(other, place)
    } by {
        same_ids_same_positions(s.players, t.players, other);
    }
}

} // verus!
