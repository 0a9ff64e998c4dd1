//! Who may answer the game, what it says to answers out of place, and what the others lead to,
//! written out.

use vstd::prelude::*;
#[allow(unused_imports)]
use crate::game::effects::{chain_outcome, Outcome};
#[allow(unused_imports)]
use crate::game::engine::{answered, first_turn, refusal, EngineError, RefusalModel};
#[allow(unused_imports)]
use crate::game::functioning_abilities::active_statics;
#[allow(unused_imports)]
use crate::game::mulligan::{
    awaiting, bottom_index, bottom_refusal, bottom_step, decision_index, decision_refusal,
    decision_step, is_bottom_of, is_decision_of, must_bottom, must_decide, resumed, Step,
};
#[allow(unused_imports)]
use crate::game::stack::top_outcome;
#[allow(unused_imports)]
use crate::game::targeting::{legal_targets, permanents, stack_abilities};
#[allow(unused_imports)]
use crate::game::turn_control::may_submit;
#[allow(unused_imports)]
use crate::types::ability::{ControllerRef, TargetFilter, TargetRef, TypedFilter};
#[allow(unused_imports)]
use crate::types::actions::ActionModel;
#[allow(unused_imports)]
use crate::types::events::GameEvent;
#[allow(unused_imports)]
use crate::types::game_object::ObjectModel;
#[allow(unused_imports)]
use crate::types::game_state::{MulliganBottomEntry, MulliganDecisionEntry, StateModel, WaitModel};
#[allow(unused_imports)]
use crate::types::identifiers::{ObjectId, PlayerId};
#[allow(unused_imports)]
use crate::types::phase::Phase;
#[allow(unused_imports)]
use crate::types::stack::{EntryModel, KindModel};

verus! {

/// The game waits for the player: for everyone with an entry while hands are being settled, else
/// for the one player it names.
pub open spec fn is_asked(s: StateModel, player: PlayerId) -> bool {
    match s.waiting_for {
        WaitModel::Priority { player: asked } => asked == player,
        WaitModel::MulliganDecision { pending, .. } => exists|i: int|
            0 <= i < pending.len() && (#[trigger] pending[i]).player == player,
        WaitModel::MulliganBottomCards { pending } => exists|i: int|
            0 <= i < pending.len() && (#[trigger] pending[i]).player == player,
        WaitModel::OptionalEffectChoice { player: asked, .. } => asked == player,
        WaitModel::CopyRetarget { player: asked, .. } => asked == player,
    }
}

proof fn decider_has_a_place(pending: Seq<MulliganDecisionEntry>, player: PlayerId, i: int)
    requires
        0 <= i < pending.len(),
        pending[i].player == player,
    ensures
        must_decide(pending, player),
    decreases i,
{
    if exists|j: int| 0 <= j < i && (#[trigger] pending[j]).player == player {
        let j = choose|j: int| 0 <= j < i && (#[trigger] pending[j]).player == player;
        decider_has_a_place(pending, player, j);
    } else {
        assert(is_decision_of(pending, player, i));
    }
}

proof fn debtor_has_a_place(pending: Seq<MulliganBottomEntry>, player: PlayerId, i: int)
    requires
        0 <= i < pending.len(),
        pending[i].player == player,
    ensures
        must_bottom(pending, player),
    decreases i,
{
    if exists|j: int| 0 <= j < i && (#[trigger] pending[j]).player == player {
        let j = choose|j: int| 0 <= j < i && (#[trigger] pending[j]).player == player;
        debtor_has_a_place(pending, player, j);
    } else {
        assert(is_bottom_of(pending, player, i));
    }
}

/// Exactly the players the game waits for may answer.
pub proof fn exactly_those_asked_may_answer(s: StateModel, player: PlayerId)
    ensures
        may_submit(s, player) <==> is_asked(s, player),
{
    match s.waiting_for {
        WaitModel::MulliganDecision { pending, .. } => {
            if is_asked(s, player) {
                let i = choose|i: int|
                    0 <= i < pending.len() && (#[trigger] pending[i]).player == player;
                decider_has_a_place(pending, player, i);
            }
            if must_decide(pending, player) {
                let k = decision_index(pending, player);
                assert(is_decision_of(pending, player, k));
                assert(pending[k].player == player);
            }
        },
        WaitModel::MulliganBottomCards { pending } => {
            if is_asked(s, player) {
                let i = choose|i: int|
                    0 <= i < pending.len() && (#[trigger] pending[i]).player == player;
                debtor_has_a_place(pending, player, i);
            }
            if must_bottom(pending, player) {
                let k = bottom_index(pending, player);
                assert(is_bottom_of(pending, player, k));
                assert(pending[k].player == player);
            }
        },
        _ => {},
    }
}

/// Who is not asked is told so. Of the others, decisions and choices about hands are refused as
/// the phase says, and the choice about an optional ability exactly if none is to be made or the
/// ability is gone.
pub proof fn refusals_say_why(s: StateModel, player: PlayerId, action: ActionModel)
    ensures
        !is_asked(s, player) ==> refusal(s, player, action) == Some(RefusalModel::NotYourDecision),
        is_asked(s, player) ==> match action {
            ActionModel::MulliganDecision { .. } => {
                &&& decision_refusal(s, player) is None ==> refusal(s, player, action) is None
                &&& decision_refusal(s, player) matches Some(message) ==> refusal(s, player, action)
                    == Some(RefusalModel::InvalidAction(message))
            },
            ActionModel::SelectCards { cards } => {
                &&& bottom_refusal(s, player, cards) is None ==> refusal(s, player, action) is None
                &&& bottom_refusal(s, player, cards) matches Some(message) ==> refusal(
                    s,
                    player,
                    action,
                ) == Some(RefusalModel::InvalidAction(message))
            },
            ActionModel::DecideOptionalEffect { .. } => {
                let asked = s.waiting_for is OptionalEffectChoice;
                &&& !asked ==> refusal(s, player, action) == Some(
                    RefusalModel::InvalidAction("No optional effect to decide"@),
                )
                &&& asked && s.pending_optional_ability is None ==> refusal(s, player, action)
                    == Some(RefusalModel::NothingToDecide)
                &&& asked && s.pending_optional_ability is Some ==> refusal(s, player, action)
                    is None
            },
        },
{
    exactly_those_asked_may_answer(s, player);
}

/// Decisions and choices about hands lead where their phase takes them.
pub proof fn answers_about_hands(s: StateModel, player: PlayerId, keep: bool, cards: Seq<ObjectId>)
    ensures
        answered(s, player, ActionModel::MulliganDecision { keep }) == decision_step(
            s,
            player,
            keep,
            Seq::empty(),
        ),
        answered(s, player, ActionModel::SelectCards { cards }) == bottom_step(
            s,
            player,
            cards,
            Seq::empty(),
        ),
{
}

/// An optional ability that is accepted resolves; one that is declined gives way to its
/// alternative, if it has one. Nobody is asked about it again. If the game was only beginning and
/// nothing is asked, the other abilities of the opening hands follow.
pub proof fn optional_abilities_happen_if_accepted(s: StateModel, player: PlayerId, accept: bool)
    requires
        s.pending_optional_ability is Some,
    ensures
        ({
            let asked = s.pending_optional_ability->0;
            let freed = StateModel {
                pending_optional_ability: None,
                waiting_for: WaitModel::Priority { player: s.active_player },
                ..s
            };
            let outcome = if accept {
                chain_outcome(freed, asked, Seq::empty(), 0)
            } else if asked.else_ability is Some {
                chain_outcome(freed, *(asked.else_ability->0), Seq::empty(), 0)
            } else {
                Outcome { state: freed, events: Seq::empty(), error: None }
            };
            let step = answered(s, player, ActionModel::DecideOptionalEffect { accept });
            &&& outcome.state.waiting_for is Priority
                && outcome.state.resolving_begin_game_abilities ==> step == resumed(
                outcome.state,
                outcome.events,
            )
            &&& !(outcome.state.waiting_for is Priority
                && outcome.state.resolving_begin_game_abilities) ==> step == (Step {
                state: outcome.state,
                events: outcome.events,
                next: outcome.state.waiting_for,
            })
        }),
{
}

/// Waiting for the next answer changes what is waited for and nothing else.
pub proof fn waiting_changes_no_more(step: Step)
    ensures
        awaiting(step) == (StateModel { waiting_for: step.next, ..step.state }),
{
}

/// The first turn is the starting player's, and begins with the untap step.
pub proof fn first_turn_is_the_starting_players(s: StateModel, player: PlayerId)
    ensures
        first_turn(s, player) == (StateModel {
            active_player: player,
            turn_number: 1,
            phase: Phase::Untap,
            ..s
        }),
{
}

/// CR 608: The top entry leaves the stack before its ability resolves as a chain of its own; an
/// entry without one just leaves, and the active player has priority.
pub proof fn top_of_the_stack_resolves(s: StateModel, events: Seq<GameEvent>)
    requires
        s.stack.len() > 0,
    ensures
        ({
            let top = s.stack[s.stack.len() - 1];
            let popped = StateModel { stack: s.stack.take(s.stack.len() - 1), ..s };
            let gone = Outcome {
                state: StateModel {
                    waiting_for: WaitModel::Priority { player: s.active_player },
                    ..popped
                },
                events,
                error: None,
            };
            top_outcome(s, events) == match top.kind {
                KindModel::Spell { ability: Some(ability), .. } => chain_outcome(
                    popped,
                    ability,
                    events,
                    0,
                ),
                KindModel::Spell { ability: None, .. } => gone,
                KindModel::ActivatedAbility { ability, .. } => chain_outcome(
                    popped,
                    ability,
                    events,
                    0,
                ),
                KindModel::TriggeredAbility { ability, .. } => chain_outcome(
                    popped,
                    ability,
                    events,
                    0,
                ),
                KindModel::KeywordAction { .. } => gone,
            }
        }),
{
    assert(s.stack.drop_last() =~= s.stack.take(s.stack.len() - 1));
}

/// Whether what `controller` controls is wanted by `you`.
pub open spec fn wants(wanted: Option<ControllerRef>, controller: PlayerId, you: PlayerId) -> bool {
    wanted is None || (wanted == Some(ControllerRef::You) && controller == you) || (wanted == Some(
        ControllerRef::Opponent,
    ) && controller != you)
}

proof fn stack_abilities_are_listed(
    stack: Seq<EntryModel>,
    wanted: Option<ControllerRef>,
    you: PlayerId,
)
    ensures
        stack_abilities(stack, wanted, you) == stack.filter(
            |entry: EntryModel|
                (entry.kind is ActivatedAbility || entry.kind is TriggeredAbility) && wants(
                    wanted,
                    entry.controller,
                    you,
                ),
        ).map_values(|entry: EntryModel| TargetRef::Object(entry.id)),
    decreases stack.len(),
{
    reveal(Seq::filter);
    if stack.len() > 0 {
        stack_abilities_are_listed(stack.drop_last(), wanted, you);
    }
    assert(stack_abilities(stack, wanted, you) =~= stack.filter(
        |entry: EntryModel|
            (entry.kind is ActivatedAbility || entry.kind is TriggeredAbility) && wants(
                wanted,
                entry.controller,
                you,
            ),
    ).map_values(|entry: EntryModel| TargetRef::Object(entry.id)));
}

/// A filter for abilities on the stack lists the activated and triggered ones whose controller is
/// wanted, from the bottom up.
pub proof fn abilities_on_the_stack_are_listed(
    s: StateModel,
    wanted: Option<ControllerRef>,
    you: PlayerId,
    source: ObjectId,
)
    ensures
        legal_targets(s, TargetFilter::StackAbility { controller: wanted }, you, source)
            == s.stack.filter(
            |entry: EntryModel|
                (entry.kind is ActivatedAbility || entry.kind is TriggeredAbility) && wants(
                    wanted,
                    entry.controller,
                    you,
                ),
        ).map_values(|entry: EntryModel| TargetRef::Object(entry.id)),
{
    stack_abilities_are_listed(s.stack, wanted, you);
}

proof fn permanents_are_listed(
    s: StateModel,
    ids: Seq<ObjectId>,
    wanted: Option<ControllerRef>,
    you: PlayerId,
)
    ensures
        permanents(s, ids, wanted, you) == ids.filter(
            |id: ObjectId|
                s.objects.contains_key(id) && !s.objects[id].phased_out && wants(
                    wanted,
                    s.objects[id].controller,
                    you,
                ),
        ).map_values(|id: ObjectId| TargetRef::Object(id)),
    decreases ids.len(),
{
    reveal(Seq::filter);
    if ids.len() > 0 {
        permanents_are_listed(s, ids.drop_last(), wanted, you);
    }
    assert(permanents(s, ids, wanted, you) =~= ids.filter(
        |id: ObjectId|
            s.objects.contains_key(id) && !s.objects[id].phased_out && wants(
                wanted,
                s.objects[id].controller,
                you,
            ),
    ).map_values(|id: ObjectId| TargetRef::Object(id)));
}

/// A filter for permanents lists those on the battlefield that have not phased out and whose
/// controller is wanted; one for anything lists every seat and every such permanent.
pub proof fn permanents_and_players_are_listed(
    s: StateModel,
    wanted: Option<ControllerRef>,
    you: PlayerId,
    source: ObjectId,
)
    ensures
        legal_targets(s, TargetFilter::Typed(TypedFilter { controller: wanted }), you, source)
            == s.battlefield.filter(
            |id: ObjectId|
                s.objects.contains_key(id) && !s.objects[id].phased_out && wants(
                    wanted,
                    s.objects[id].controller,
                    you,
                ),
        ).map_values(|id: ObjectId| TargetRef::Object(id)),
        legal_targets(s, TargetFilter::Any, you, source) == s.seat_order.map_values(
            |player: PlayerId| TargetRef::Player(player),
        ) + legal_targets(s, TargetFilter::Typed(TypedFilter { controller: None }), you, source),
        legal_targets(s, TargetFilter::SelfRef, you, source) == seq![TargetRef::Object(source)],
        legal_targets(s, TargetFilter::Controller, you, source) == seq![TargetRef::Player(you)],
{
    permanents_are_listed(s, s.battlefield, wanted, you);
}

/// A refusal is known by its reason.
pub proof fn refusals_are_modelled_in_full(error: EngineError)
    ensures
        match error {
            EngineError::NotYourDecision => error@ == RefusalModel::NotYourDecision,
            EngineError::InvalidAction(message) => error@ == RefusalModel::InvalidAction(message@),
            EngineError::NothingToDecide => error@ == RefusalModel::NothingToDecide,
        },
{
}

/// CR 702.26b: While an object is phased out none of its static abilities functions, else all do.
pub proof fn phased_out_objects_have_no_static_abilities(object: ObjectModel)
    ensures
        object.phased_out ==> active_statics(object).len() == 0,
        !object.phased_out ==> active_statics(object) == object.static_definitions,
{
}

} // verus!
