use vstd::prelude::*;
use crate::types::ability::{ControllerRef, TargetFilter, TargetRef};
use crate::types::game_state::GameState;
#[allow(unused_imports)]
use crate::types::game_state::StateModel;
use crate::types::identifiers::{ObjectId, PlayerId};
use crate::types::stack::StackEntryKind;
#[allow(unused_imports)]
use crate::types::stack::EntryModel;

verus! {

/// Whether something controlled by `controller` is what `you` look for.
pub open spec fn controller_matches(
    wanted: Option<ControllerRef>,
    controller: PlayerId,
    you: PlayerId,
) -> bool {
    match wanted {
        None => true,
        Some(ControllerRef::You) => controller == you,
        Some(ControllerRef::Opponent) => controller != you,
    }
}

/// The activated and triggered abilities on the stack, from the bottom up.
pub open spec fn stack_abilities(
    stack: Seq<EntryModel>,
    wanted: Option<ControllerRef>,
    you: PlayerId,
) -> Seq<TargetRef>
    decreases stack.len(),
{
    if stack.len() == 0 {
        Seq::empty()
    } else {
        let below = stack_abilities(stack.drop_last(), wanted, you);
        let entry = stack.last();
        if (entry.kind is ActivatedAbility || entry.kind is TriggeredAbility)
            && controller_matches(wanted, entry.controller, you) {
            below.push(TargetRef::Object(entry.id))
        } else {
            below
        }
    }
}

/// The permanents among some objects that have not phased out, in the order they came.
pub open spec fn permanents(
    s: StateModel,
    ids: Seq<ObjectId>,
    wanted: Option<ControllerRef>,
    you: PlayerId,
) -> Seq<TargetRef>
    decreases ids.len(),
{
    if ids.len() == 0 {
        Seq::empty()
    } else {
        let before = permanents(s, ids.drop_last(), wanted, you);
        let id = ids.last();
        if s.objects.contains_key(id) && !s.objects[id].phased_out && controller_matches(
            wanted,
            s.objects[id].controller,
            you,
        ) {
            before.push(TargetRef::Object(id))
        } else {
            before
        }
    }
}

/// Everything a filter admits, for an ability of `you` from `source`.
pub open spec fn legal_targets(
    s: StateModel,
    filter: TargetFilter,
    you: PlayerId,
    source: ObjectId,
) -> Seq<TargetRef> {
    match filter {
        TargetFilter::SelfRef => seq![TargetRef::Object(source)],
        TargetFilter::Controller => seq![TargetRef::Player(you)],
        TargetFilter::StackAbility { controller } => stack_abilities(s.stack, controller, you),
        TargetFilter::Typed(typed) => permanents(s, s.battlefield, typed.controller, you),
        TargetFilter::Any => s.seat_order.map_values(|player: PlayerId| TargetRef::Player(player))
            + permanents(s, s.battlefield, None, you),
    }
}

fn matches_controller(wanted: Option<ControllerRef>, controller: PlayerId, you: PlayerId) -> (res:
    bool)
    ensures
        res == controller_matches(wanted, controller, you),
{
    match wanted {
        None => true,
        Some(ControllerRef::You) => controller == you,
        Some(ControllerRef::Opponent) => controller != you,
    }
}

fn push_stack_abilities(
    state: &GameState,
    wanted: Option<ControllerRef>,
    you: PlayerId,
    targets: &mut Vec<TargetRef>,
)
    ensures
        final(targets)@ == old(targets)@ + stack_abilities(state@.stack, wanted, you),
{
    let ghost stack = state@.stack;
    for i in 0..state.stack.len()
        invariant
            stack == state@.stack,
            targets@ =~= old(targets)@ + stack_abilities(stack.take(i as int), wanted, you),
    {
        let entry = &state.stack[i];
        assert(stack.take(i + 1).drop_last() =~= stack.take(i as int));
        assert(stack.take(i + 1).last() == entry@);
        let is_ability = matches!(
            entry.kind,
            StackEntryKind::ActivatedAbility { .. } | StackEntryKind::TriggeredAbility { .. }
        );
        if is_ability && matches_controller(wanted, entry.controller, you) {
            targets.push(TargetRef::Object(entry.id));
        }
    }
    assert(stack.take(stack.len() as int) =~= stack);
}

fn push_permanents(
    state: &GameState,
    wanted: Option<ControllerRef>,
    you: PlayerId,
    targets: &mut Vec<TargetRef>,
)
    ensures
        final(targets)@ == old(targets)@ + permanents(state@, state@.battlefield, wanted, you),
{
    let ghost ids = state@.battlefield;
    for i in 0..state.battlefield.len()
        invariant
            ids == state@.battlefield,
            targets@ =~= old(targets)@ + permanents(state@, ids.take(i as int), wanted, you),
    {
        let id: ObjectId = state.battlefield[i];
        assert(ids.take(i + 1).drop_last() =~= ids.take(i as int));
        assert(ids.take(i + 1).last() == id);
        if let Some(object) = state.objects.get(&id) {
            if !object.phased_out && matches_controller(wanted, object.controller, you) {
                targets.push(TargetRef::Object(id));
            }
        }
    }
    assert(ids.take(ids.len() as int) =~= ids);
}

/// Lists what an ability could target.
pub fn find_legal_targets(
    state: &GameState,
    filter: &TargetFilter,
    controller: PlayerId,
    source_id: ObjectId,
) -> (targets: Vec<TargetRef>)
    ensures
        targets@ == legal_targets(state@, *filter, controller, source_id),
{
    let mut targets: Vec<TargetRef> = Vec::new();
    match filter {
        TargetFilter::SelfRef => targets.push(TargetRef::Object(source_id)),
        TargetFilter::Controller => targets.push(TargetRef::Player(controller)),
        TargetFilter::StackAbility { controller: wanted } => push_stack_abilities(
            state,
            *wanted,
            controller,
            &mut targets,
        ),
        TargetFilter::Typed(typed) => push_permanents(
            state,
            typed.controller,
            controller,
            &mut targets,
        ),
        TargetFilter::Any => {
            for i in 0..state.seat_order.len()
                invariant
                    targets@ =~= state@.seat_order.take(i as int).map_values(
                        |player: PlayerId| TargetRef::Player(player),
                    ),
            {
                targets.push(TargetRef::Player(state.seat_order[i]));
            }
            push_permanents(state, None, controller, &mut targets);
        },
    }
    assert(targets@ =~= legal_targets(state@, *filter, controller, source_id));
    targets
}

} // verus!
