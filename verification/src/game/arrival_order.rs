//! CR 103.5: Players settle their hands at the same time, so it makes no difference whose answer
//! arrives first, except for which cards two players redraw from one source of random numbers.

use vstd::prelude::*;
#[allow(unused_imports)]
use crate::game::effects::{asks_nothing_of_hands, chain_outcome, chain_start};
#[allow(unused_imports)]
use crate::game::mulligan::{
    after_decision, awaiting, bottom_index, bottom_refusal, bottom_step, bottomed, bottomed_events,
    bottoms_chosen, chosen_cards_exist, decided, decision_events, decision_index, decision_left,
    decision_refusal, decision_state, decision_step, drained, draining_asks_nothing_of_hands,
    finished, first_missing, grants_free_first, hand_abilities, is_bottom_of, is_decision_of,
    must_bottom, must_decide, opening_abilities, owed_bottoms, owed_by, queued, redraw_events,
    redrawn, reshuffled, settled,
};
#[allow(unused_imports)]
use crate::game::mulligan_laws::{
    bottoming_one_card, bottoming_touches_one_player, cards_of, deciding_step_only_adds_events,
    decision_facts, draining_only_adds_events, hand_size, holds_cards, library_size,
    with_bottom_card,
};
#[allow(unused_imports)]
use crate::types::ability::AbilityModel;
#[allow(unused_imports)]
use crate::types::events::GameEvent;
#[allow(unused_imports)]
use crate::types::game_state::{
    waiting_keeps_valid, MulliganBottomEntry, MulliganDecisionEntry, StateModel, WaitModel,
};
#[allow(unused_imports)]
use crate::types::identifiers::{ObjectId, PlayerId};
#[allow(unused_imports)]
use crate::types::player::{is_position, position_of, same_ids, same_ids_same_positions};
#[allow(unused_imports)]
use crate::types::zones::Zone;

verus! {

/// The games differ at most in what they wait for.
pub open spec fn same_but_waiting(s: StateModel, t: StateModel) -> bool {
    t == (StateModel { waiting_for: t.waiting_for, ..s })
}

/// What players owe depends on the mulligans on record, the seats and the format alone.
proof fn same_record_same_debts(s: StateModel, t: StateModel, order: Seq<PlayerId>)
    requires
        t.final_mulligan_counts == s.final_mulligan_counts,
        t.forced_bottom_counts == s.forced_bottom_counts,
        t.seat_order == s.seat_order,
        t.format_config == s.format_config,
    ensures
        owed_bottoms(t, order) == owed_bottoms(s, order),
    decreases order.len(),
{
    if order.len() > 0 {
        same_record_same_debts(s, t, order.drop_last());
        assert(owed_by(t, order.last()) == owed_by(s, order.last()));
    }
}

proof fn hand_abilities_ignore_waiting(
    s: StateModel,
    t: StateModel,
    player: PlayerId,
    cards: Seq<ObjectId>,
)
    requires
        same_but_waiting(s, t),
    ensures
        hand_abilities(t, player, cards) == hand_abilities(s, player, cards),
    decreases cards.len(),
{
    if cards.len() > 0 {
        hand_abilities_ignore_waiting(s, t, player, cards.drop_last());
    }
}

proof fn opening_abilities_ignore_waiting(s: StateModel, t: StateModel, order: Seq<PlayerId>)
    requires
        same_but_waiting(s, t),
    ensures
        opening_abilities(t, order) == opening_abilities(s, order),
    decreases order.len(),
{
    if order.len() > 0 {
        opening_abilities_ignore_waiting(s, t, order.drop_last());
        assert(t.player(order.last()) == s.player(order.last()));
        hand_abilities_ignore_waiting(s, t, order.last(), s.player(order.last()).hand);
    }
}

proof fn draining_ignores_waiting(
    s: StateModel,
    t: StateModel,
    queue: Seq<AbilityModel>,
    events: Seq<GameEvent>,
)
    requires
        same_but_waiting(s, t),
    ensures
        awaiting(drained(t, queue, events)) == awaiting(drained(s, queue, events)),
        drained(t, queue, events).events == drained(s, queue, events).events,
        drained(t, queue, events).next == drained(s, queue, events).next,
{
    if queue.len() > 0 {
        let rest = queue.drop_last();
        let popped = StateModel { pending_begin_game_abilities: rest, ..s };
        let other = StateModel { pending_begin_game_abilities: rest, ..t };
        assert(chain_start(other, 0) == chain_start(popped, 0));
        assert(chain_outcome(other, queue.last(), events, 0) == chain_outcome(
            popped,
            queue.last(),
            events,
            0,
        ));
    }
}

proof fn finishing_ignores_waiting(s: StateModel, t: StateModel, events: Seq<GameEvent>)
    requires
        same_but_waiting(s, t),
    ensures
        awaiting(finished(t, events)) == awaiting(finished(s, events)),
        finished(t, events).events == finished(s, events).events,
        finished(t, events).next == finished(s, events).next,
{
    opening_abilities_ignore_waiting(s, t, s.seat_order);
    let begun = StateModel { resolving_begin_game_abilities: true, ..queued(s) };
    let other = StateModel { resolving_begin_game_abilities: true, ..queued(t) };
    draining_ignores_waiting(begun, other, begun.pending_begin_game_abilities, events);
}

proof fn going_on_ignores_waiting(
    s: StateModel,
    t: StateModel,
    pending: Seq<MulliganDecisionEntry>,
    free_first: bool,
    events: Seq<GameEvent>,
)
    requires
        same_but_waiting(s, t),
    ensures
        awaiting(after_decision(t, pending, free_first, events)) == awaiting(
            after_decision(s, pending, free_first, events),
        ),
        after_decision(t, pending, free_first, events).events == after_decision(
            s,
            pending,
            free_first,
            events,
        ).events,
{
    same_record_same_debts(s, t, s.seat_order);
    finishing_ignores_waiting(settled(s), settled(t), events);
}

/// Redrawing takes no notice of the record and of what the game waits for.
proof fn redrawing_ignores_the_record(
    s: StateModel,
    player: PlayerId,
    counts: Map<PlayerId, u8>,
    forced: Map<PlayerId, u8>,
    waiting: WaitModel,
)
    ensures
        ({
            let t = recorded(s, counts, forced, waiting);
            &&& redrawn(t, player) == recorded(redrawn(s, player), counts, forced, waiting)
            &&& redraw_events(t, player) == redraw_events(s, player)
        }),
{
    let t = recorded(s, counts, forced, waiting);
    assert(reshuffled(t, player) == recorded(reshuffled(s, player), counts, forced, waiting));
    assert(redrawn(t, player) == recorded(redrawn(s, player), counts, forced, waiting));
}

/// A state with another record and another thing to wait for.
spec fn recorded(
    s: StateModel,
    counts: Map<PlayerId, u8>,
    forced: Map<PlayerId, u8>,
    waiting: WaitModel,
) -> StateModel {
    StateModel {
        final_mulligan_counts: counts,
        forced_bottom_counts: forced,
        waiting_for: waiting,
        ..s
    }
}

/// The first entry of another player stays the first.
proof fn other_decisions_stay(
    pending: Seq<MulliganDecisionEntry>,
    i: int,
    j: int,
    one: PlayerId,
    two: PlayerId,
    keep: bool,
)
    requires
        is_decision_of(pending, one, i),
        is_decision_of(pending, two, j),
        one != two,
    ensures
        ({
            let left = decision_left(pending, i, keep);
            let place = if left.len() < pending.len() && i < j {
                j - 1
            } else {
                j
            };
            &&& must_decide(left, two)
            &&& decision_index(left, two) == place
            &&& left[place] == pending[j]
        }),
{
    let left = decision_left(pending, i, keep);
    let place = if left.len() < pending.len() && i < j {
        j - 1
    } else {
        j
    };
    assert(left[place] == pending[j]);
    assert forall|k: int| 0 <= k < place implies (#[trigger] left[k]).player != two by {
        if left.len() < pending.len() && k >= i {
            assert(left[k] == pending[k + 1]);
            assert(pending[k + 1].player != two);
        } else {
            assert(pending[k].player != two);
        }
    }
    assert(is_decision_of(left, two, place));
    let found = decision_index(left, two);
    assert(is_decision_of(left, two, found));
    if found < place {
        assert(left[found].player != two);
    } else if place < found {
        assert(left[place].player != two);
    }
}

proof fn lists_commute(
    pending: Seq<MulliganDecisionEntry>,
    i: int,
    j: int,
    one: PlayerId,
    two: PlayerId,
    keep_one: bool,
    keep_two: bool,
)
    requires
        is_decision_of(pending, one, i),
        is_decision_of(pending, two, j),
        one != two,
    ensures
        ({
            let left = decision_left(pending, i, keep_one);
            let rest = decision_left(pending, j, keep_two);
            decision_left(left, decision_index(left, two), keep_two) == decision_left(
                rest,
                decision_index(rest, one),
                keep_one,
            )
        }),
{
    other_decisions_stay(pending, i, j, one, two, keep_one);
    other_decisions_stay(pending, j, i, two, one, keep_two);
    let left = decision_left(pending, i, keep_one);
    let rest = decision_left(pending, j, keep_two);
    assert(decision_left(left, decision_index(left, two), keep_two) =~= decision_left(
        rest,
        decision_index(rest, one),
        keep_one,
    ));
}

/// Keeping a hand commutes with the decision of another player, but for what the game waits for.
proof fn decisions_commute(
    s: StateModel,
    one: MulliganDecisionEntry,
    two: MulliganDecisionEntry,
    keep: bool,
    after_one: WaitModel,
    after_two: WaitModel,
)
    requires
        one.player != two.player,
    ensures
        ({
            let s1 = StateModel { waiting_for: after_one, ..decision_state(s, one, true) };
            let s2 = StateModel { waiting_for: after_two, ..decision_state(s, two, keep) };
            &&& same_but_waiting(decision_state(s1, two, keep), decision_state(s2, one, true))
            &&& decision_events(s1, two, keep) == decision_events(s, two, keep)
        }),
{
    let counts = s.final_mulligan_counts.insert(one.player, one.mulligan_count);
    let forced = s.forced_bottom_counts.remove(one.player);
    redrawing_ignores_the_record(s, two.player, counts, forced, after_one);
    let s1 = StateModel { waiting_for: after_one, ..decision_state(s, one, true) };
    let s2 = StateModel { waiting_for: after_two, ..decision_state(s, two, keep) };
    assert(s1 == recorded(s, counts, forced, after_one));
    let t1 = decision_state(s1, two, keep);
    let t2 = decision_state(s2, one, true);
    assert(t1.final_mulligan_counts =~= t2.final_mulligan_counts);
    assert(t1.forced_bottom_counts =~= t2.forced_bottom_counts);
    assert(same_but_waiting(t1, t2));
}

proof fn last_answers_agree(
    s: StateModel,
    t: StateModel,
    pending: Seq<MulliganDecisionEntry>,
    free_first: bool,
    news: Seq<GameEvent>,
)
    requires
        same_but_waiting(s, t),
    ensures
        ({
            let one = after_decision(s, pending, free_first, Seq::empty() + news);
            let two = after_decision(t, pending, free_first, Seq::empty() + Seq::empty());
            &&& awaiting(one) == awaiting(two)
            &&& one.events == news + two.events
        }),
{
    deciding_step_only_adds_events(s, pending, free_first, Seq::empty() + news);
    deciding_step_only_adds_events(t, pending, free_first, Seq::empty() + Seq::empty());
    going_on_ignores_waiting(s, t, pending, free_first, Seq::empty());
    let one = after_decision(s, pending, free_first, Seq::empty() + news);
    let two = after_decision(t, pending, free_first, Seq::empty() + Seq::empty());
    assert(one.events =~= news + two.events);
}

/// A decision after which somebody is still asked only asks again.
proof fn asking_again(s: StateModel, pending: Seq<MulliganDecisionEntry>, i: int, keep: bool)
    requires
        decision_left(pending, i, keep).len() > 0,
    ensures
        ({
            let step = decided(s, pending, i, keep, Seq::empty());
            &&& step.state == decision_state(s, pending[i], keep)
            &&& step.events == decision_events(s, pending[i], keep)
            &&& step.next is MulliganDecision
            &&& step.next->MulliganDecision_pending == decision_left(pending, i, keep)
        }),
{
    assert(Seq::empty() + decision_events(s, pending[i], keep) =~= decision_events(
        s,
        pending[i],
        keep,
    ));
}

proof fn decisions_in_any_order(
    s: StateModel,
    pending: Seq<MulliganDecisionEntry>,
    one: PlayerId,
    two: PlayerId,
    keep: bool,
)
    requires
        one != two,
        must_decide(pending, one),
        must_decide(pending, two),
    ensures
        ({
            let first = decided(s, pending, decision_index(pending, one), true, Seq::empty());
            let early = decided(s, pending, decision_index(pending, two), keep, Seq::empty());
            let left = first.next->MulliganDecision_pending;
            let rest = early.next->MulliganDecision_pending;
            let second = decided(
                awaiting(first),
                left,
                decision_index(left, two),
                keep,
                Seq::empty(),
            );
            let late = decided(
                awaiting(early),
                rest,
                decision_index(rest, one),
                true,
                Seq::empty(),
            );
            &&& first.next is MulliganDecision
            &&& must_decide(left, two)
            &&& early.next is MulliganDecision
            &&& must_decide(rest, one)
            &&& awaiting(second) == awaiting(late)
            &&& first.events + second.events == early.events + late.events
        }),
{
    let i = decision_index(pending, one);
    let j = decision_index(pending, two);
    assert(is_decision_of(pending, one, i));
    assert(is_decision_of(pending, two, j));
    other_decisions_stay(pending, i, j, one, two, true);
    other_decisions_stay(pending, j, i, two, one, keep);
    asking_again(s, pending, i, true);
    asking_again(s, pending, j, keep);
    let first = decided(s, pending, i, true, Seq::empty());
    let early = decided(s, pending, j, keep, Seq::empty());
    let left = decision_left(pending, i, true);
    let rest = decision_left(pending, j, keep);
    let ends = decision_left(left, decision_index(left, two), keep);
    lists_commute(pending, i, j, one, two, true, keep);
    decisions_commute(s, pending[i], pending[j], keep, first.next, early.next);
    let t1 = decision_state(awaiting(first), pending[j], keep);
    let t2 = decision_state(awaiting(early), pending[i], true);
    let news = decision_events(s, pending[j], keep);
    last_answers_agree(t1, t2, ends, grants_free_first(s), news);
    let second = decided(awaiting(first), left, decision_index(left, two), keep, Seq::empty());
    let late = decided(awaiting(early), rest, decision_index(rest, one), true, Seq::empty());
    assert(second == after_decision(t1, ends, grants_free_first(s), Seq::empty() + news));
    assert(late == after_decision(
        t2,
        ends,
        grants_free_first(s),
        Seq::empty() + Seq::empty(),
    ));
    assert(first.events =~= Seq::empty());
    assert(first.events + second.events =~= second.events);
}

/// CR 103.5: It makes no difference whether a player keeps before or after another one decides.
/// Either decision is taken whether the other has arrived or not, and in the end the game is the
/// same and has reported the same.
pub proof fn keeping_in_any_order(s: StateModel, one: PlayerId, two: PlayerId, keep: bool)
    requires
        one != two,
        decision_refusal(s, one) is None,
        decision_refusal(s, two) is None,
    ensures
        ({
            let first = decision_step(s, one, true, Seq::empty());
            let second = decision_step(awaiting(first), two, keep, Seq::empty());
            let early = decision_step(s, two, keep, Seq::empty());
            let late = decision_step(awaiting(early), one, true, Seq::empty());
            &&& decision_refusal(awaiting(first), two) is None
            &&& decision_refusal(awaiting(early), one) is None
            &&& awaiting(second) == awaiting(late)
            &&& first.events + second.events == early.events + late.events
        }),
{
    decisions_in_any_order(s, s.waiting_for->MulliganDecision_pending, one, two, keep);
}

/// Two players' decisions leave the same record and hands of the same size in either order.
proof fn decisions_leave_the_same_record(
    s: StateModel,
    one: MulliganDecisionEntry,
    keep_one: bool,
    two: MulliganDecisionEntry,
    keep_two: bool,
    after_one: WaitModel,
    after_two: WaitModel,
)
    requires
        s.valid(),
        s.has_player(one.player),
        s.has_player(two.player),
        one.player != two.player,
    ensures
        ({
            let s1 = StateModel { waiting_for: after_one, ..decision_state(s, one, keep_one) };
            let s2 = StateModel { waiting_for: after_two, ..decision_state(s, two, keep_two) };
            let t1 = decision_state(s1, two, keep_two);
            let t2 = decision_state(s2, one, keep_one);
            &&& t1.final_mulligan_counts == t2.final_mulligan_counts
            &&& t1.forced_bottom_counts == t2.forced_bottom_counts
            &&& t1.seat_order == t2.seat_order
            &&& t1.format_config == t2.format_config
            &&& forall|other: PlayerId| #[trigger]
                s.has_player(other) ==> hand_size(t1, other) == hand_size(t2, other) && cards_of(
                    t1,
                    other,
                ) == cards_of(t2, other)
        }),
{
    let d1 = decision_state(s, one, keep_one);
    let d2 = decision_state(s, two, keep_two);
    let s1 = StateModel { waiting_for: after_one, ..d1 };
    let s2 = StateModel { waiting_for: after_two, ..d2 };
    decision_facts(s, one, keep_one);
    decision_facts(s, two, keep_two);
    waiting_keeps_valid(d1, s1);
    waiting_keeps_valid(d2, s2);
    assert(d1.has_player(two.player));
    assert(d2.has_player(one.player));
    assert(s1.has_player(two.player));
    assert(s2.has_player(one.player));
    decision_facts(s1, two, keep_two);
    decision_facts(s2, one, keep_one);
    let t1 = decision_state(s1, two, keep_two);
    let t2 = decision_state(s2, one, keep_one);
    assert(t1.final_mulligan_counts =~= t2.final_mulligan_counts);
    assert(t1.forced_bottom_counts =~= t2.forced_bottom_counts) by {
        assert(hand_size(s2, one.player) == hand_size(d2, one.player));
        assert(hand_size(s1, two.player) == hand_size(d1, two.player));
        assert(library_size(s2, one.player) == library_size(d2, one.player));
        assert(library_size(s1, two.player) == library_size(d1, two.player));
    }
    assert forall|other: PlayerId| #[trigger] s.has_player(other) implies hand_size(t1, other)
        == hand_size(t2, other) && cards_of(t1, other) == cards_of(t2, other) by {
        assert(s1.has_player(other) && s2.has_player(other)) by {
            assert(d1.has_player(other) && d2.has_player(other));
        }
        assert(hand_size(s1, other) == hand_size(d1, other));
        assert(hand_size(s2, other) == hand_size(d2, other));
        assert(library_size(s1, other) == library_size(d1, other));
        assert(library_size(s2, other) == library_size(d2, other));
        assert(cards_of(s1, other) == cards_of(d1, other));
        assert(cards_of(s2, other) == cards_of(d2, other));
    }
}

/// CR 103.5: In whichever order two players decide, both decisions are taken, and afterwards the
/// same players are asked, with the same mulligans on record. If both redraw, which cards they
/// get may depend on the order, how many may not.
pub proof fn deciding_in_any_order(
    s: StateModel,
    one: PlayerId,
    keep_one: bool,
    two: PlayerId,
    keep_two: bool,
)
    requires
        s.valid(),
        s.has_player(one),
        s.has_player(two),
        one != two,
        decision_refusal(s, one) is None,
        decision_refusal(s, two) is None,
    ensures
        ({
            let first = decision_step(s, one, keep_one, Seq::empty());
            let second = decision_step(awaiting(first), two, keep_two, Seq::empty());
            let early = decision_step(s, two, keep_two, Seq::empty());
            let late = decision_step(awaiting(early), one, keep_one, Seq::empty());
            &&& decision_refusal(awaiting(first), two) is None
            &&& decision_refusal(awaiting(early), one) is None
            &&& asks_nothing_of_hands(second.next) <==> asks_nothing_of_hands(late.next)
            &&& !asks_nothing_of_hands(second.next) ==> {
                &&& second.next == late.next
                &&& second.state.final_mulligan_counts == late.state.final_mulligan_counts
                &&& second.state.forced_bottom_counts == late.state.forced_bottom_counts
                &&& forall|other: PlayerId| #[trigger]
                    s.has_player(other) ==> hand_size(second.state, other) == hand_size(
                        late.state,
                        other,
                    ) && cards_of(second.state, other) == cards_of(late.state, other)
            }
        }),
{
    let pending = s.waiting_for->MulliganDecision_pending;
    let i = decision_index(pending, one);
    let j = decision_index(pending, two);
    assert(is_decision_of(pending, one, i));
    assert(is_decision_of(pending, two, j));
    other_decisions_stay(pending, i, j, one, two, keep_one);
    other_decisions_stay(pending, j, i, two, one, keep_two);
    asking_again(s, pending, i, keep_one);
    asking_again(s, pending, j, keep_two);
    lists_commute(pending, i, j, one, two, keep_one, keep_two);
    let first = decided(s, pending, i, keep_one, Seq::empty());
    let early = decided(s, pending, j, keep_two, Seq::empty());
    decisions_leave_the_same_record(
        s,
        pending[i],
        keep_one,
        pending[j],
        keep_two,
        first.next,
        early.next,
    );
    let left = decision_left(pending, i, keep_one);
    let ends = decision_left(left, decision_index(left, two), keep_two);
    let t1 = decision_state(awaiting(first), pending[j], keep_two);
    let t2 = decision_state(awaiting(early), pending[i], keep_one);
    going_on_asks_alike(
        t1,
        t2,
        ends,
        grants_free_first(s),
        Seq::empty() + decision_events(awaiting(first), pending[j], keep_two),
        Seq::empty() + decision_events(awaiting(early), pending[i], keep_one),
    );
}

proof fn going_on_asks_alike(
    s: StateModel,
    t: StateModel,
    pending: Seq<MulliganDecisionEntry>,
    free_first: bool,
    news: Seq<GameEvent>,
    tidings: Seq<GameEvent>,
)
    requires
        t.final_mulligan_counts == s.final_mulligan_counts,
        t.forced_bottom_counts == s.forced_bottom_counts,
        t.seat_order == s.seat_order,
        t.format_config == s.format_config,
    ensures
        ({
            let one = after_decision(s, pending, free_first, news);
            let two = after_decision(t, pending, free_first, tidings);
            &&& asks_nothing_of_hands(one.next) <==> asks_nothing_of_hands(two.next)
            &&& !asks_nothing_of_hands(one.next) ==> one.next == two.next && one.state == s
                && two.state == t
        }),
{
    same_record_same_debts(s, t, s.seat_order);
    let begun = StateModel { resolving_begin_game_abilities: true, ..queued(settled(s)) };
    let other = StateModel { resolving_begin_game_abilities: true, ..queued(settled(t)) };
    draining_asks_nothing_of_hands(begun, begun.pending_begin_game_abilities, news);
    draining_asks_nothing_of_hands(other, other.pending_begin_game_abilities, tidings);
}

proof fn bottom_cards_commute(s: StateModel, one: ObjectId, two: ObjectId)
    requires
        s.has_player(s.objects[one].owner),
        s.has_player(s.objects[two].owner),
        s.objects[one].owner != s.objects[two].owner,
        same_ids(s.players, with_bottom_card(s, one).players),
        same_ids(s.players, with_bottom_card(s, two).players),
    ensures
        with_bottom_card(with_bottom_card(s, one), two) == with_bottom_card(
            with_bottom_card(s, two),
            one,
        ),
{
    let p = s.objects[one].owner;
    let q = s.objects[two].owner;
    let s1 = with_bottom_card(s, one);
    let s2 = with_bottom_card(s, two);
    same_ids_same_positions(s.players, s1.players, p);
    same_ids_same_positions(s.players, s1.players, q);
    same_ids_same_positions(s.players, s2.players, p);
    same_ids_same_positions(s.players, s2.players, q);
    let t1 = with_bottom_card(s1, two);
    let t2 = with_bottom_card(s2, one);
    assert(t1.players =~= t2.players);
    assert(t1.objects =~= t2.objects);
}

/// Cards of two players going to the bottom, one each, may go in either order.
proof fn single_cards_commute(s: StateModel, one: ObjectId, two: ObjectId)
    requires
        s.objects.contains_key(one),
        s.objects.contains_key(two),
        s.has_player(s.objects[one].owner),
        s.has_player(s.objects[two].owner),
        s.objects[one].owner != s.objects[two].owner,
        s.objects[one].zone == Zone::Hand || s.objects[one].zone == Zone::Library,
        s.objects[two].zone == Zone::Hand || s.objects[two].zone == Zone::Library,
    ensures
        s.moved_to_library(one, false).moved_to_library(two, false) == s.moved_to_library(
            two,
            false,
        ).moved_to_library(one, false),
{
    bottoming_one_card(s, one);
    bottoming_one_card(s, two);
    let s1 = with_bottom_card(s, one);
    let s2 = with_bottom_card(s, two);
    same_ids_same_positions(s.players, s1.players, s.objects[two].owner);
    same_ids_same_positions(s.players, s2.players, s.objects[one].owner);
    bottoming_one_card(s1, two);
    bottoming_one_card(s2, one);
    bottom_cards_commute(s, one, two);
}

proof fn card_commutes(
    s: StateModel,
    p: PlayerId,
    cards: Seq<ObjectId>,
    q: PlayerId,
    card: ObjectId,
)
    requires
        p != q,
        s.has_player(p),
        s.has_player(q),
        holds_cards(s, p, cards),
        holds_cards(s, q, seq![card]),
    ensures
        bottomed(s, cards).moved_to_library(card, false) == bottomed(
            s.moved_to_library(card, false),
            cards,
        ),
    decreases cards.len(),
{
    let single = seq![card];
    assert(single[0] == card);
    if cards.len() > 0 {
        let rest = cards.drop_last();
        let last = cards.last();
        assert forall|i: int| 0 <= i < rest.len() implies s.objects.contains_key(#[trigger] rest[i])
            && s.objects[rest[i]].owner == p && (s.objects[rest[i]].zone == Zone::Hand
            || s.objects[rest[i]].zone == Zone::Library) by {
            assert(rest[i] == cards[i]);
        }
        card_commutes(s, p, rest, q, card);
        bottoming_touches_one_player(s, p, rest);
        let before = bottomed(s, rest);
        assert(s.objects.contains_key(cards[cards.len() - 1]));
        assert(before.objects.dom().contains(last));
        assert(before.objects.dom().contains(card));
        same_ids_same_positions(s.players, before.players, p);
        same_ids_same_positions(s.players, before.players, q);
        single_cards_commute(before, last, card);
    }
}

/// The cards of two players may go to the bottom in either order.
pub proof fn cards_commute(
    s: StateModel,
    p: PlayerId,
    cards: Seq<ObjectId>,
    q: PlayerId,
    others: Seq<ObjectId>,
)
    requires
        p != q,
        s.has_player(p),
        s.has_player(q),
        holds_cards(s, p, cards),
        holds_cards(s, q, others),
    ensures
        bottomed(bottomed(s, cards), others) == bottomed(bottomed(s, others), cards),
    decreases others.len(),
{
    if others.len() > 0 {
        let rest = others.drop_last();
        let last = others.last();
        assert forall|i: int| 0 <= i < rest.len() implies s.objects.contains_key(#[trigger] rest[i])
            && s.objects[rest[i]].owner == q && (s.objects[rest[i]].zone == Zone::Hand
            || s.objects[rest[i]].zone == Zone::Library) by {
            assert(rest[i] == others[i]);
        }
        cards_commute(s, p, cards, q, rest);
        bottoming_touches_one_player(s, q, rest);
        let before = bottomed(s, rest);
        same_ids_same_positions(s.players, before.players, p);
        same_ids_same_positions(s.players, before.players, q);
        assert forall|i: int| 0 <= i < cards.len() implies before.objects.contains_key(
            #[trigger] cards[i],
        ) && before.objects[cards[i]].owner == p && (before.objects[cards[i]].zone == Zone::Hand
            || before.objects[cards[i]].zone == Zone::Library) by {
            assert(s.objects.contains_key(cards[i]));
            assert(s.objects.dom().contains(cards[i]));
        }
        assert(s.objects.contains_key(others[others.len() - 1]));
        assert(before.objects.dom().contains(last));
        assert(holds_cards(before, q, seq![last])) by {
            assert(seq![last][0] == last);
        }
        card_commutes(before, p, cards, q, last);
    }
}

/// The first debt of another player stays the first.
proof fn other_bottoms_stay(
    pending: Seq<MulliganBottomEntry>,
    i: int,
    j: int,
    one: PlayerId,
    two: PlayerId,
)
    requires
        is_bottom_of(pending, one, i),
        is_bottom_of(pending, two, j),
        one != two,
    ensures
        ({
            let left = pending.remove(i);
            let place = if i < j {
                j - 1
            } else {
                j
            };
            &&& must_bottom(left, two)
            &&& bottom_index(left, two) == place
            &&& left[place] == pending[j]
        }),
{
    let left = pending.remove(i);
    let place = if i < j {
        j - 1
    } else {
        j
    };
    assert(left[place] == pending[j]);
    assert forall|k: int| 0 <= k < place implies (#[trigger] left[k]).player != two by {
        if k >= i {
            assert(left[k] == pending[k + 1]);
            assert(pending[k + 1].player != two);
        } else {
            assert(pending[k].player != two);
        }
    }
    assert(is_bottom_of(left, two, place));
    let found = bottom_index(left, two);
    assert(is_bottom_of(left, two, found));
    if found < place {
        assert(left[found].player != two);
    } else if place < found {
        assert(left[place].player != two);
    }
}

/// Cards going to the bottom take no notice of what the game waits for.
proof fn bottoming_ignores_waiting(s: StateModel, t: StateModel, cards: Seq<ObjectId>)
    requires
        same_but_waiting(s, t),
    ensures
        bottomed(t, cards) == (StateModel { waiting_for: t.waiting_for, ..bottomed(s, cards) }),
    decreases cards.len(),
{
    if cards.len() > 0 {
        bottoming_ignores_waiting(s, t, cards.drop_last());
        let before = bottomed(s, cards.drop_last());
        let other = bottomed(t, cards.drop_last());
        let card = cards.last();
        assert(other.lifted(card) == (StateModel {
            waiting_for: t.waiting_for,
            ..before.lifted(card)
        }));
        assert(other.moved_to_library(card, false) == (StateModel {
            waiting_for: t.waiting_for,
            ..before.moved_to_library(card, false)
        }));
    }
}

/// The choice of one player leaves the choice of another as good as it was.
proof fn other_choices_stay(
    s: StateModel,
    p: PlayerId,
    cards: Seq<ObjectId>,
    q: PlayerId,
    others: Seq<ObjectId>,
)
    requires
        p != q,
        s.has_player(p),
        s.has_player(q),
        holds_cards(s, p, cards),
    ensures
        first_missing(bottomed(s, cards).player(q).hand, others) == first_missing(
            s.player(q).hand,
            others,
        ),
{
    let t = bottomed(s, cards);
    bottoming_touches_one_player(s, p, cards);
    same_ids_same_positions(s.players, t.players, p);
    same_ids_same_positions(s.players, t.players, q);
    let i = position_of(s.players, p);
    let j = position_of(s.players, q);
    assert(is_position(s.players, p, i));
    assert(is_position(s.players, q, j));
    assert(t.players[j] == s.players[j]);
}

proof fn choices_in_any_order(
    s: StateModel,
    pending: Seq<MulliganBottomEntry>,
    p: PlayerId,
    cards: Seq<ObjectId>,
    q: PlayerId,
    others: Seq<ObjectId>,
)
    requires
        p != q,
        s.has_player(p),
        s.has_player(q),
        must_bottom(pending, p),
        must_bottom(pending, q),
        holds_cards(s, p, cards),
        holds_cards(s, q, others),
    ensures
        ({
            let i = bottom_index(pending, p);
            let j = bottom_index(pending, q);
            let first = bottoms_chosen(s, pending, i, cards, Seq::empty());
            let early = bottoms_chosen(s, pending, j, others, Seq::empty());
            let left = pending.remove(i);
            let rest = pending.remove(j);
            let j1 = bottom_index(left, q);
            let i2 = bottom_index(rest, p);
            let second = bottoms_chosen(awaiting(first), left, j1, others, Seq::empty());
            let late = bottoms_chosen(awaiting(early), rest, i2, cards, Seq::empty());
            &&& first.next == (WaitModel::MulliganBottomCards { pending: left })
            &&& early.next == (WaitModel::MulliganBottomCards { pending: rest })
            &&& must_bottom(left, q)
            &&& left[j1] == pending[j]
            &&& must_bottom(rest, p)
            &&& rest[i2] == pending[i]
            &&& awaiting(first) == (StateModel {
                waiting_for: first.next,
                ..bottomed(s, cards)
            })
            &&& awaiting(early) == (StateModel {
                waiting_for: early.next,
                ..bottomed(s, others)
            })
            &&& awaiting(second) == awaiting(late)
        }),
{
    let i = bottom_index(pending, p);
    let j = bottom_index(pending, q);
    assert(is_bottom_of(pending, p, i));
    assert(is_bottom_of(pending, q, j));
    other_bottoms_stay(pending, i, j, p, q);
    other_bottoms_stay(pending, j, i, q, p);
    let first = bottoms_chosen(s, pending, i, cards, Seq::empty());
    let early = bottoms_chosen(s, pending, j, others, Seq::empty());
    let left = pending.remove(i);
    let rest = pending.remove(j);
    let j1 = bottom_index(left, q);
    let i2 = bottom_index(rest, p);
    assert(left.remove(j1) =~= rest.remove(i2));
    bottoming_ignores_waiting(bottomed(s, cards), awaiting(first), others);
    bottoming_ignores_waiting(bottomed(s, others), awaiting(early), cards);
    cards_commute(s, p, cards, q, others);
    let t1 = bottomed(awaiting(first), others);
    let t2 = bottomed(awaiting(early), cards);
    assert(same_but_waiting(t1, t2));
    let news = Seq::empty() + bottomed_events(awaiting(first), others);
    let tidings = Seq::empty() + bottomed_events(awaiting(early), cards);
    finishing_agrees(settled(t1), settled(t2), news, tidings);
    let second = bottoms_chosen(awaiting(first), left, j1, others, Seq::empty());
    let late = bottoms_chosen(awaiting(early), rest, i2, cards, Seq::empty());
    assert(awaiting(second) == awaiting(late));
}

proof fn finishing_agrees(
    s: StateModel,
    t: StateModel,
    news: Seq<GameEvent>,
    tidings: Seq<GameEvent>,
)
    requires
        same_but_waiting(s, t),
    ensures
        awaiting(finished(s, news)) == awaiting(finished(t, tidings)),
{
    let begun = StateModel { resolving_begin_game_abilities: true, ..queued(s) };
    let other = StateModel { resolving_begin_game_abilities: true, ..queued(t) };
    draining_only_adds_events(begun, begun.pending_begin_game_abilities, news);
    draining_only_adds_events(other, other.pending_begin_game_abilities, tidings);
    finishing_ignores_waiting(s, t, Seq::empty());
}

/// A choice of cards that is not refused names cards of the player's hand.
proof fn accepted_choice(s: StateModel, player: PlayerId, cards: Seq<ObjectId>)
    requires
        s.valid(),
        s.has_player(player),
        bottom_refusal(s, player, cards) is None,
    ensures
        holds_cards(s, player, cards),
{
    chosen_cards_exist(s, player, cards);
    assert forall|k: int| 0 <= k < cards.len() implies s.objects.contains_key(#[trigger] cards[k])
        && s.objects[cards[k]].owner == player && (s.objects[cards[k]].zone == Zone::Hand
        || s.objects[cards[k]].zone == Zone::Library) by {
        assert(s.resides(cards[k], player, Zone::Hand));
    }
}

/// CR 103.5: It makes no difference which of two players puts cards on the bottom first. Either
/// choice is taken whether the other has arrived or not, and in the end the game is the same.
pub proof fn bottoming_in_any_order(
    s: StateModel,
    one: PlayerId,
    cards: Seq<ObjectId>,
    two: PlayerId,
    others: Seq<ObjectId>,
)
    requires
        s.valid(),
        s.has_player(one),
        s.has_player(two),
        one != two,
        bottom_refusal(s, one, cards) is None,
        bottom_refusal(s, two, others) is None,
    ensures
        ({
            let first = bottom_step(s, one, cards, Seq::empty());
            let second = bottom_step(awaiting(first), two, others, Seq::empty());
            let early = bottom_step(s, two, others, Seq::empty());
            let late = bottom_step(awaiting(early), one, cards, Seq::empty());
            &&& bottom_refusal(awaiting(first), two, others) is None
            &&& bottom_refusal(awaiting(early), one, cards) is None
            &&& awaiting(second) == awaiting(late)
        }),
{
    let pending = s.waiting_for->MulliganBottomCards_pending;
    accepted_choice(s, one, cards);
    accepted_choice(s, two, others);
    choices_in_any_order(s, pending, one, cards, two, others);
    other_choices_stay(s, one, cards, two, others);
    other_choices_stay(s, two, others, one, cards);
}

} // verus!
