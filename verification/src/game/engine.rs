use vstd::prelude::*;
use crate::game::effects::resolve_ability_chain;
#[allow(unused_imports)]
use crate::game::effects::{
    asks_nothing_of_hands, chain_asks_nothing_of_hands, chain_keeps, chain_outcome, Outcome,
};
use crate::game::mulligan::{
    handle_mulligan_bottom, handle_mulligan_decision, resume_begin_game_abilities, start_mulligan,
};
#[allow(unused_imports)]
use crate::game::mulligan::{
    asks_players, awaiting, bottom_index, bottom_refusal, bottom_step, bottoming_asks_players,
    deciding_asks_players, decision_index, decision_refusal, decision_step,
    draining_asks_nothing_of_hands, is_bottom_of, is_decision_of, resumed, started,
    starting_asks_players, Step,
};
use crate::game::turn_control::is_authorized_submitter;
#[allow(unused_imports)]
use crate::game::turn_control::may_submit;
#[allow(unused_imports)]
use crate::game::turns::priority;
use crate::types::ability::ResolvedAbility;
use crate::types::actions::GameAction;
#[allow(unused_imports)]
use crate::types::actions::ActionModel;
use crate::types::events::GameEvent;
use crate::types::game_state::{GameState, WaitingFor};
#[allow(unused_imports)]
use crate::types::game_state::{waiting_keeps_valid, StateModel, WaitModel};
use crate::types::identifiers::{ObjectId, PlayerId};
use crate::types::phase::Phase;

verus! {

/// What an answer led to, and what the game waits for now.
#[derive(Debug)]
pub struct ActionResult {
    pub events: Vec<GameEvent>,
    pub waiting_for: WaitingFor,
}

/// Why an answer was refused.
#[derive(Debug)]
pub enum EngineError {
    /// The game does not wait for this player.
    NotYourDecision,
    /// The game waits for another kind of answer, or for another choice.
    InvalidAction(String),
    /// The game asks about an optional ability, but none is there.
    NothingToDecide,
}

/// A refusal as a value.
#[verifier::ext_equal]
pub enum RefusalModel {
    NotYourDecision,
    InvalidAction(Seq<char>),
    NothingToDecide,
}

impl View for EngineError {
    type V = RefusalModel;

    open spec fn view(&self) -> RefusalModel {
        match *self {
            EngineError::NotYourDecision => RefusalModel::NotYourDecision,
            EngineError::InvalidAction(message) => RefusalModel::InvalidAction(message@),
            EngineError::NothingToDecide => RefusalModel::NothingToDecide,
        }
    }
}

/// A game in order: it is valid, and about their hands it asks only players, to decide only those
/// who may still take a mulligan.
pub open spec fn in_order(s: StateModel) -> bool {
    s.valid() && asks_players(s, s.waiting_for)
}

/// Whether and why an answer is refused.
pub open spec fn refusal(s: StateModel, player: PlayerId, action: ActionModel) -> Option<
    RefusalModel,
> {
    if !may_submit(s, player) {
        Some(RefusalModel::NotYourDecision)
    } else {
        match action {
            ActionModel::MulliganDecision { .. } => match decision_refusal(s, player) {
                Some(message) => Some(RefusalModel::InvalidAction(message)),
                None => None,
            },
            ActionModel::SelectCards { cards } => match bottom_refusal(s, player, cards) {
                Some(message) => Some(RefusalModel::InvalidAction(message)),
                None => None,
            },
            ActionModel::DecideOptionalEffect { .. } => if !(s.waiting_for
                is OptionalEffectChoice) {
                Some(RefusalModel::InvalidAction("No optional effect to decide"@))
            } else if s.pending_optional_ability is None {
                Some(RefusalModel::NothingToDecide)
            } else {
                None
            },
        }
    }
}

/// An optional ability happens, or its alternative if it has one. If that interrupted the
/// beginning of the game, the other abilities of the opening hands follow.
pub open spec fn optional_decided(s: StateModel, accept: bool) -> Step {
    let asked = s.pending_optional_ability->0;
    let freed = StateModel {
        pending_optional_ability: None,
        waiting_for: priority(s),
        ..s
    };
    let chosen = if accept {
        Some(asked)
    } else {
        match asked.else_ability {
            Some(otherwise) => Some(*otherwise),
            None => None,
        }
    };
    let outcome = match chosen {
        Some(ability) => chain_outcome(freed, ability, Seq::empty(), 0),
        None => Outcome { state: freed, events: Seq::empty(), error: None },
    };
    if outcome.state.waiting_for is Priority && outcome.state.resolving_begin_game_abilities {
        resumed(outcome.state, outcome.events)
    } else {
        Step {
            state: outcome.state,
            events: outcome.events,
            next: outcome.state.waiting_for,
        }
    }
}

/// What an answer that is not refused leads to.
pub open spec fn answered(s: StateModel, player: PlayerId, action: ActionModel) -> Step {
    match action {
        ActionModel::MulliganDecision { keep } => decision_step(s, player, keep, Seq::empty()),
        ActionModel::SelectCards { cards } => bottom_step(s, player, cards, Seq::empty()),
        ActionModel::DecideOptionalEffect { accept } => optional_decided(s, accept),
    }
}

/// An answer has been refused and changed nothing, or has led to a valid state in which only
/// players are asked.
spec fn answer_taken(
    s: StateModel,
    player: PlayerId,
    action: ActionModel,
    result: Result<WaitingFor, EngineError>,
    after: StateModel,
    events: Seq<GameEvent>,
) -> bool {
    match result {
        Err(error) => Some(error@) == refusal(s, player, action) && after == s,
        Ok(waiting) => {
            &&& refusal(s, player, action) is None
            &&& answered(s, player, action) == (Step { state: after, events, next: waiting@ })
            &&& after.valid()
            &&& asks_players(after, waiting@)
        },
    }
}

/// Whether only players are asked depends on who plays alone.
proof fn same_players_asked(s: StateModel, t: StateModel, next: WaitModel)
    requires
        t.players == s.players,
        asks_players(s, next),
    ensures
        asks_players(t, next),
{
    assert forall|player: PlayerId| s.has_player(player) == #[trigger] t.has_player(player) by {}
}

fn decide_optional(state: &mut GameState, accept: bool, events: &mut Vec<GameEvent>) -> (waiting:
    WaitingFor)
    requires
        old(state)@.valid(),
        old(state)@.pending_optional_ability is Some,
        old(events)@.len() == 0,
    ensures
        optional_decided(old(state)@, accept) == (Step {
            state: final(state)@,
            events: final(events)@,
            next: waiting@,
        }),
        final(state)@.valid(),
        asks_nothing_of_hands(waiting@),
{
    let ghost start = state@;
    let asked: ResolvedAbility = state.pending_optional_ability.take().unwrap();
    state.waiting_for = WaitingFor::Priority { player: state.active_player };
    let ghost freed = state@;
    proof {
        assert(freed =~= (StateModel {
            pending_optional_ability: None,
            waiting_for: priority(start),
            ..start
        }));
        waiting_keeps_valid(start, freed);
        assert(events@ =~= Seq::empty());
    }
    if accept {
        proof {
            chain_keeps(freed, asked@, Seq::empty(), 0);
            chain_asks_nothing_of_hands(freed, asked@, Seq::empty(), 0);
        }
        let _ = resolve_ability_chain(state, &asked, events, 0);
    } else if let Some(otherwise) = &asked.else_ability {
        proof {
            chain_keeps(freed, otherwise@, Seq::empty(), 0);
            chain_asks_nothing_of_hands(freed, otherwise@, Seq::empty(), 0);
        }
        let _ = resolve_ability_chain(state, &**otherwise, events, 0);
    }
    if matches!(state.waiting_for, WaitingFor::Priority { .. })
        && state.resolving_begin_game_abilities {
        proof {
            draining_asks_nothing_of_hands(state@, state@.pending_begin_game_abilities, events@);
        }
        resume_begin_game_abilities(state, events)
    } else {
        state.waiting_for.clone()
    }
}

fn submit_decision(
    state: &mut GameState,
    player: PlayerId,
    keep: bool,
    events: &mut Vec<GameEvent>,
) -> (result: Result<WaitingFor, EngineError>)
    requires
        in_order(old(state)@),
        may_submit(old(state)@, player),
        old(events)@ == Seq::<GameEvent>::empty(),
    ensures
        answer_taken(
            old(state)@,
            player,
            (ActionModel::MulliganDecision { keep }),
            result,
            final(state)@,
            final(events)@,
        ),
{
    let ghost start = state@;
    proof {
        if start.waiting_for is MulliganDecision {
            let pending = start.waiting_for->MulliganDecision_pending;
            let i = decision_index(pending, player);
            assert(is_decision_of(pending, player, i));
            assert(start.has_player(pending[i].player));
            deciding_asks_players(start, player, keep, events@);
        }
    }
    match handle_mulligan_decision(state, player, keep, events) {
        Ok(waiting) => Ok(waiting),
        Err(message) => Err(EngineError::InvalidAction(message)),
    }
}

fn submit_cards(
    state: &mut GameState,
    player: PlayerId,
    cards: Vec<ObjectId>,
    events: &mut Vec<GameEvent>,
) -> (result: Result<WaitingFor, EngineError>)
    requires
        in_order(old(state)@),
        may_submit(old(state)@, player),
        old(events)@ == Seq::<GameEvent>::empty(),
    ensures
        answer_taken(
            old(state)@,
            player,
            (ActionModel::SelectCards { cards: cards@ }),
            result,
            final(state)@,
            final(events)@,
        ),
{
    let ghost start = state@;
    proof {
        if start.waiting_for is MulliganBottomCards {
            let pending = start.waiting_for->MulliganBottomCards_pending;
            let i = bottom_index(pending, player);
            assert(is_bottom_of(pending, player, i));
            assert(start.has_player(pending[i].player));
            if bottom_refusal(start, player, cards@) is None {
                bottoming_asks_players(start, player, cards@, events@);
            }
        }
    }
    match handle_mulligan_bottom(state, player, cards, events) {
        Ok(waiting) => Ok(waiting),
        Err(message) => Err(EngineError::InvalidAction(message)),
    }
}

fn submit_choice(
    state: &mut GameState,
    player: PlayerId,
    accept: bool,
    events: &mut Vec<GameEvent>,
) -> (result: Result<WaitingFor, EngineError>)
    requires
        in_order(old(state)@),
        may_submit(old(state)@, player),
        old(events)@ == Seq::<GameEvent>::empty(),
    ensures
        answer_taken(
            old(state)@,
            player,
            (ActionModel::DecideOptionalEffect { accept }),
            result,
            final(state)@,
            final(events)@,
        ),
{
    if !matches!(state.waiting_for, WaitingFor::OptionalEffectChoice { .. }) {
        return Err(EngineError::InvalidAction("No optional effect to decide".to_string()));
    }
    if state.pending_optional_ability.is_none() {
        return Err(EngineError::NothingToDecide);
    }
    Ok(decide_optional(state, accept, events))
}

/// Takes the answer of a player.
pub fn apply(state: &mut GameState, player: PlayerId, action: GameAction) -> (result: Result<
    ActionResult,
    EngineError,
>)
    requires
        in_order(old(state)@),
    ensures
        result is Ok <==> refusal(old(state)@, player, action@) is None,
        result matches Err(error) ==> Some(error@) == refusal(old(state)@, player, action@)
            && final(state)@ == old(state)@,
        result matches Ok(done) ==> ({
            let step = answered(old(state)@, player, action@);
            &&& final(state)@ == awaiting(step)
            &&& done.events@ == step.events
            &&& done.waiting_for@ == step.next
        }),
        in_order(final(state)@),
{
    let ghost start = state@;
    if !is_authorized_submitter(state, player) {
        return Err(EngineError::NotYourDecision);
    }
    let mut events: Vec<GameEvent> = Vec::new();
    let submitted = match action {
        GameAction::MulliganDecision { keep } => submit_decision(state, player, keep, &mut events),
        GameAction::SelectCards { cards } => submit_cards(state, player, cards, &mut events),
        GameAction::DecideOptionalEffect { accept } => submit_choice(
            state,
            player,
            accept,
            &mut events,
        ),
    };
    let waiting_for: WaitingFor = match submitted {
        Ok(waiting) => waiting,
        Err(error) => {
            return Err(error);
        },
    };
    let ghost after = state@;
    state.waiting_for = waiting_for.clone();
    proof {
        let step = answered(start, player, action@);
        assert(state@ =~= awaiting(step));
        waiting_keeps_valid(after, state@);
        same_players_asked(after, state@, waiting_for@);
    }
    Ok(ActionResult { events, waiting_for })
}

/// The first turn belongs to the starting player.
pub open spec fn first_turn(s: StateModel, player: PlayerId) -> StateModel {
    StateModel { active_player: player, turn_number: 1, phase: Phase::Untap, ..s }
}

/// Begins a game: `player` takes the first turn, and everyone is dealt a hand.
pub fn start_game_with_starting_player(state: &mut GameState, player: PlayerId) -> (result:
    ActionResult)
    requires
        old(state)@.valid(),
    ensures
        ({
            let step = started(first_turn(old(state)@, player), seq![GameEvent::GameStarted]);
            &&& final(state)@ == awaiting(step)
            &&& result.events@ == step.events
            &&& result.waiting_for@ == step.next
        }),
        in_order(final(state)@),
{
    let ghost start = state@;
    state.active_player = player;
    state.turn_number = 1;
    state.phase = Phase::Untap;
    let mut events: Vec<GameEvent> = Vec::new();
    events.push(GameEvent::GameStarted);
    proof {
        assert(state@ =~= first_turn(start, player));
        waiting_keeps_valid(start, state@);
        assert(events@ =~= seq![GameEvent::GameStarted]);
        starting_asks_players(state@, events@);
    }
    let waiting_for = start_mulligan(state, &mut events);
    let ghost after = state@;
    state.waiting_for = waiting_for.clone();
    proof {
        assert(state@ =~= awaiting(
            started(first_turn(start, player), seq![GameEvent::GameStarted]),
        ));
        waiting_keeps_valid(after, state@);
    }
    ActionResult { events, waiting_for }
}

} // verus!
