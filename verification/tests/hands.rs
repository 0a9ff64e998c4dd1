use engine::game::engine::{apply, start_game_with_starting_player, EngineError};
use engine::game::mulligan::{
    bottom_count_for, enter_bottom_phase_public, finish_mulligans_public, free_first_mulligan,
    handle_mulligan_bottom, handle_mulligan_decision, resume_begin_game_abilities, start_mulligan,
};
use engine::game::turn_control::is_authorized_submitter;
use engine::game::zones::create_object;
use engine::types::ability::{AbilityDefinition, AbilityKind, Effect, TargetFilter};
use engine::types::actions::GameAction;
use engine::types::events::GameEvent;
use engine::types::format::FormatConfig;
use engine::types::game_state::{
    GameState, MulliganBottomEntry, MulliganDecisionEntry, WaitingFor,
};
use engine::types::identifiers::{CardId, ObjectId, PlayerId};
use engine::types::phase::Phase;
use engine::types::zones::Zone;

fn table(config: FormatConfig, players: u8, cards: u64) -> GameState {
    let mut state = GameState::new(config, players, 7);
    for player in 0..players {
        for i in 0..cards {
            create_object(
                &mut state,
                CardId(u64::from(player) * 1000 + i),
                PlayerId(player),
                format!("Card {}", i),
                Zone::Library,
            );
        }
    }
    state
}

fn duel(cards: u64) -> GameState {
    table(FormatConfig::standard(), 2, cards)
}

fn decide_for(state: &mut GameState, player: u8, keep: bool) -> Vec<GameEvent> {
    let mut events = Vec::new();
    state.waiting_for =
        handle_mulligan_decision(state, PlayerId(player), keep, &mut events).unwrap();
    events
}

fn bottom_for(state: &mut GameState, player: u8, cards: Vec<ObjectId>) -> Vec<GameEvent> {
    let mut events = Vec::new();
    state.waiting_for =
        handle_mulligan_bottom(state, PlayerId(player), cards, &mut events).unwrap();
    events
}

fn started_table(mut state: GameState) -> GameState {
    let mut events = Vec::new();
    state.waiting_for = start_mulligan(&mut state, &mut events);
    state
}

fn all_cards(state: &GameState, seat: usize) -> Vec<ObjectId> {
    let player = &state.players[seat];
    let mut cards: Vec<ObjectId> = player.hand.clone();
    cards.extend(player.library.iter().copied());
    cards.sort_by_key(|id| id.0);
    cards
}

fn hands_and_libraries(state: &GameState) -> Vec<(Vec<ObjectId>, Vec<ObjectId>)> {
    state
        .players
        .iter()
        .map(|player| (player.hand.clone(), player.library.clone()))
        .collect()
}

fn decisions(state: &GameState) -> Vec<MulliganDecisionEntry> {
    match &state.waiting_for {
        WaitingFor::MulliganDecision { pending, .. } => pending.clone(),
        other => panic!("no decisions pending: {:?}", other),
    }
}

fn bottoms(state: &GameState) -> Vec<MulliganBottomEntry> {
    match &state.waiting_for {
        WaitingFor::MulliganBottomCards { pending } => pending.clone(),
        other => panic!("no bottoms pending: {:?}", other),
    }
}

fn leyline(optional: bool) -> AbilityDefinition {
    let mut definition = AbilityDefinition::new(
        AbilityKind::BeginGame,
        Effect::ChangeZone {
            destination: Zone::Battlefield,
            target: TargetFilter::SelfRef,
            origin: Some(Zone::Hand),
            owner_library: false,
            enter_transformed: false,
            under_your_control: false,
            enter_tapped: false,
            enters_attacking: false,
            up_to: false,
            enter_with_counters: vec![],
        },
    );
    definition.optional = optional;
    definition
}

fn give(state: &mut GameState, card: ObjectId, ability: AbilityDefinition) {
    state.objects.get_mut(&card).unwrap().abilities.push(ability);
}

#[test]
fn starting_reports_every_card_and_every_draw() {
    let mut state = duel(9);
    let mut events = vec![GameEvent::GameStarted];
    start_mulligan(&mut state, &mut events);
    let mut expected = vec![GameEvent::GameStarted, GameEvent::MulliganStarted];
    for seat in 0..2 {
        for card in &state.players[seat].hand {
            expected.push(GameEvent::ZoneChanged {
                object_id: *card,
                from: Zone::Library,
                to: Zone::Hand,
            });
        }
        expected.push(GameEvent::CardsDrawn { player_id: PlayerId(seat as u8), count: 7 });
    }
    assert_eq!(events, expected);
}

#[test]
fn short_libraries_are_drawn_empty() {
    let mut state = duel(3);
    let mut events = Vec::new();
    start_mulligan(&mut state, &mut events);
    assert_eq!(state.players[0].hand.len(), 3);
    assert!(state.players[0].library.is_empty());
    assert_eq!(events.len(), 1 + 2 * 4);
    assert_eq!(events[4], GameEvent::CardsDrawn { player_id: PlayerId(0), count: 7 });
}

#[test]
fn cards_are_neither_lost_nor_gained() {
    let mut state = duel(20);
    let before: Vec<Vec<ObjectId>> = (0..2).map(|seat| all_cards(&state, seat)).collect();
    state = started_table(state);
    for _ in 0..3 {
        decide_for(&mut state, 0, false);
        decide_for(&mut state, 1, false);
        for seat in 0..2 {
            assert_eq!(all_cards(&state, seat), before[seat]);
            for card in &state.players[seat].hand {
                assert_eq!(state.objects.get(card).unwrap().zone, Zone::Hand);
            }
            for card in &state.players[seat].library {
                assert_eq!(state.objects.get(card).unwrap().zone, Zone::Library);
            }
        }
    }
}

#[test]
fn shuffling_changes_the_order_and_repeats_for_a_seed() {
    let unshuffled = duel(20);
    let one = started_table(duel(20));
    let two = started_table(duel(20));
    assert_eq!(hands_and_libraries(&one), hands_and_libraries(&two));
    let mut dealt = one.players[0].hand.clone();
    dealt.extend(one.players[0].library.iter().copied());
    assert_ne!(dealt, unshuffled.players[0].library);
}

#[test]
fn a_mulligan_moves_only_the_cards_of_its_player() {
    let mut state = started_table(duel(20));
    let before = hands_and_libraries(&state);
    let events = decide_for(&mut state, 1, false);
    let after = hands_and_libraries(&state);
    assert_eq!(after[0], before[0]);
    assert_ne!(after[1], before[1]);
    assert_eq!(events.len(), 7 + 7 + 1);
    assert_eq!(
        events[0],
        GameEvent::ZoneChanged { object_id: before[1].0[0], from: Zone::Hand, to: Zone::Library }
    );
    assert_eq!(events[14], GameEvent::CardsDrawn { player_id: PlayerId(1), count: 7 });
}

#[test]
fn decisions_out_of_place_are_refused_and_change_nothing() {
    let mut state = duel(20);
    let before = hands_and_libraries(&state);
    let mut events = Vec::new();
    assert_eq!(
        handle_mulligan_decision(&mut state, PlayerId(0), true, &mut events).unwrap_err(),
        "handle_mulligan_decision called outside MulliganDecision"
    );
    assert_eq!(hands_and_libraries(&state), before);
    let mut state = started_table(state);
    let before = hands_and_libraries(&state);
    assert_eq!(
        handle_mulligan_decision(&mut state, PlayerId(17), false, &mut events).unwrap_err(),
        "Player PlayerId(17) is not in the mulligan pending set"
    );
    assert_eq!(hands_and_libraries(&state), before);
    assert!(events.is_empty());
    assert_eq!(decisions(&state).len(), 2);
}

#[test]
fn choices_out_of_place_are_refused_and_change_nothing() {
    let mut state = started_table(duel(20));
    let mut events = Vec::new();
    assert_eq!(
        handle_mulligan_bottom(&mut state, PlayerId(0), vec![], &mut events).unwrap_err(),
        "handle_mulligan_bottom called outside MulliganBottomCards"
    );
    decide_for(&mut state, 0, false);
    decide_for(&mut state, 0, false);
    decide_for(&mut state, 0, true);
    decide_for(&mut state, 1, true);
    let before = hands_and_libraries(&state);
    let mine = state.players[0].hand[0];
    let theirs = state.players[1].hand[0];
    assert_eq!(
        handle_mulligan_bottom(&mut state, PlayerId(1), vec![theirs], &mut events).unwrap_err(),
        "Player PlayerId(1) is not in the bottoms pending set"
    );
    assert_eq!(
        handle_mulligan_bottom(&mut state, PlayerId(0), vec![mine], &mut events).unwrap_err(),
        "Expected 2 cards to bottom, got 1"
    );
    assert_eq!(
        handle_mulligan_bottom(
            &mut state,
            PlayerId(0),
            vec![mine, ObjectId(1234567890)],
            &mut events
        )
        .unwrap_err(),
        "Card ObjectId(1234567890) is not in player's hand"
    );
    assert_eq!(
        handle_mulligan_bottom(
            &mut state,
            PlayerId(0),
            vec![theirs, ObjectId(1234567890)],
            &mut events
        )
        .unwrap_err(),
        format!("Card ObjectId({}) is not in player's hand", theirs.0)
    );
    assert!(events.is_empty());
    assert_eq!(hands_and_libraries(&state), before);
    assert_eq!(bottoms(&state), vec![MulliganBottomEntry { player: PlayerId(0), count: 2 }]);
}

#[test]
fn the_seventh_mulligan_is_the_last() {
    let mut state = started_table(duel(20));
    for taken in 1..7u8 {
        decide_for(&mut state, 0, false);
        assert_eq!(
            decisions(&state)[0],
            MulliganDecisionEntry { player: PlayerId(0), mulligan_count: taken }
        );
    }
    decide_for(&mut state, 0, false);
    assert_eq!(
        decisions(&state),
        vec![MulliganDecisionEntry { player: PlayerId(1), mulligan_count: 0 }]
    );
    assert_eq!(state.final_mulligan_counts.get(PlayerId(0)), Some(7));
    assert_eq!(state.final_mulligan_counts.get(PlayerId(1)), None);
    decide_for(&mut state, 1, true);
    assert_eq!(bottoms(&state), vec![MulliganBottomEntry { player: PlayerId(0), count: 7 }]);
    let hand = state.players[0].hand.clone();
    let library = state.players[0].library.clone();
    bottom_for(&mut state, 0, hand.clone());
    assert!(state.players[0].hand.is_empty());
    let mut expected = library;
    expected.extend(hand);
    assert_eq!(state.players[0].library, expected);
    assert!(matches!(state.waiting_for, WaitingFor::Priority { .. }));
    assert_eq!(state.final_mulligan_counts.get(PlayerId(0)), None);
}

#[test]
fn the_last_mulligan_costs_the_whole_hand_even_if_the_first_is_free() {
    let mut state = started_table(table(FormatConfig::standard(), 3, 30));
    for _ in 0..7 {
        decide_for(&mut state, 0, false);
    }
    decide_for(&mut state, 1, true);
    decide_for(&mut state, 2, true);
    assert_eq!(bottoms(&state), vec![MulliganBottomEntry { player: PlayerId(0), count: 7 }]);
    assert_eq!(state.players[0].hand.len(), 7);
    let hand = state.players[0].hand.clone();
    bottom_for(&mut state, 0, hand);
    assert!(state.players[0].hand.is_empty());
    assert_eq!(state.forced_bottom_counts.get(PlayerId(0)), None);
}

#[test]
fn six_mulligans_with_a_free_one_cost_five_cards() {
    let mut state = started_table(table(FormatConfig::brawl(), 2, 20));
    for _ in 0..6 {
        decide_for(&mut state, 0, false);
    }
    decide_for(&mut state, 0, true);
    decide_for(&mut state, 1, true);
    assert_eq!(bottoms(&state), vec![MulliganBottomEntry { player: PlayerId(0), count: 5 }]);
}

#[test]
fn the_last_mulligan_costs_no_more_than_there_is() {
    let mut state = started_table(duel(3));
    for _ in 0..7 {
        decide_for(&mut state, 0, false);
    }
    assert_eq!(state.final_mulligan_counts.get(PlayerId(0)), Some(7));
    assert_eq!(state.forced_bottom_counts.get(PlayerId(0)), Some(3));
    decide_for(&mut state, 1, true);
    assert_eq!(bottoms(&state), vec![MulliganBottomEntry { player: PlayerId(0), count: 3 }]);
    let mut state = started_table(duel(0));
    for _ in 0..7 {
        decide_for(&mut state, 0, false);
    }
    decide_for(&mut state, 1, true);
    assert!(matches!(state.waiting_for, WaitingFor::Priority { .. }));
}

#[test]
fn named_cards_go_to_the_bottom_in_the_order_named() {
    let mut state = started_table(duel(20));
    decide_for(&mut state, 1, false);
    decide_for(&mut state, 1, false);
    decide_for(&mut state, 1, true);
    decide_for(&mut state, 0, true);
    let hand = state.players[1].hand.clone();
    let mut library = state.players[1].library.clone();
    let events = bottom_for(&mut state, 1, vec![hand[4], hand[1]]);
    assert_eq!(state.players[1].hand, vec![hand[0], hand[2], hand[3], hand[5], hand[6]]);
    library.extend(vec![hand[4], hand[1]]);
    assert_eq!(state.players[1].library, library);
    assert_eq!(
        events,
        vec![
            GameEvent::ZoneChanged { object_id: hand[4], from: Zone::Hand, to: Zone::Library },
            GameEvent::ZoneChanged { object_id: hand[1], from: Zone::Hand, to: Zone::Library },
            GameEvent::PhaseChanged { phase: Phase::Upkeep },
        ]
    );
}

#[test]
fn a_card_named_twice_is_refused() {
    let mut state = started_table(duel(20));
    decide_for(&mut state, 0, false);
    decide_for(&mut state, 0, false);
    decide_for(&mut state, 0, true);
    decide_for(&mut state, 1, true);
    let before = hands_and_libraries(&state);
    let card = state.players[0].hand[0];
    let mut events = Vec::new();
    assert_eq!(
        handle_mulligan_bottom(&mut state, PlayerId(0), vec![card, card], &mut events)
            .unwrap_err(),
        "Cards to bottom must all be different"
    );
    assert_eq!(state.players[0].hand.len(), 7);
    assert_eq!(hands_and_libraries(&state), before);
    assert!(events.is_empty());
    assert_eq!(bottoms(&state), vec![MulliganBottomEntry { player: PlayerId(0), count: 2 }]);
}

#[test]
fn keeping_may_come_before_or_after_another_decision() {
    for keep in [true, false] {
        let mut one = started_table(duel(20));
        let mut two = started_table(duel(20));
        let mut first = decide_for(&mut one, 0, true);
        first.extend(decide_for(&mut one, 1, keep));
        let mut second = decide_for(&mut two, 1, keep);
        second.extend(decide_for(&mut two, 0, true));
        assert_eq!(hands_and_libraries(&one), hands_and_libraries(&two));
        assert_eq!(first, second);
        assert_eq!(format!("{:?}", one.waiting_for), format!("{:?}", two.waiting_for));
        assert_eq!(one.phase, two.phase);
    }
}

#[test]
fn two_mulligans_ask_alike_in_either_order() {
    let mut one = started_table(duel(20));
    let mut two = started_table(duel(20));
    decide_for(&mut one, 0, false);
    decide_for(&mut one, 1, false);
    decide_for(&mut two, 1, false);
    decide_for(&mut two, 0, false);
    assert_eq!(decisions(&one), decisions(&two));
    for seat in 0..2 {
        assert_eq!(all_cards(&one, seat), all_cards(&two, seat));
        assert_eq!(one.players[seat].hand.len(), 7);
        assert_eq!(two.players[seat].hand.len(), 7);
    }
}

#[test]
fn bottoms_may_come_in_either_order() {
    let mut ends = Vec::new();
    for order in [[0u8, 1], [1, 0]] {
        let mut state = started_table(duel(20));
        for player in 0..2 {
            decide_for(&mut state, player, false);
            decide_for(&mut state, player, true);
        }
        assert_eq!(
            bottoms(&state),
            vec![
                MulliganBottomEntry { player: PlayerId(0), count: 1 },
                MulliganBottomEntry { player: PlayerId(1), count: 1 },
            ]
        );
        for player in order {
            let card = state.players[player as usize].hand[2];
            bottom_for(&mut state, player, vec![card]);
        }
        assert!(matches!(state.waiting_for, WaitingFor::Priority { .. }));
        ends.push(hands_and_libraries(&state));
    }
    assert_eq!(ends[0], ends[1]);
}

#[test]
fn the_players_asked_stay_in_turn_order() {
    let mut state = started_table(table(FormatConfig::standard(), 5, 20));
    decide_for(&mut state, 3, true);
    decide_for(&mut state, 1, false);
    decide_for(&mut state, 0, true);
    let asked: Vec<(PlayerId, u8)> =
        decisions(&state).iter().map(|entry| (entry.player, entry.mulligan_count)).collect();
    assert_eq!(asked, vec![(PlayerId(1), 1), (PlayerId(2), 0), (PlayerId(4), 0)]);
    for (player, count) in [(0, Some(0)), (1, None), (2, None), (3, Some(0)), (4, None)] {
        assert_eq!(state.final_mulligan_counts.get(PlayerId(player)), count);
    }
}

#[test]
fn only_mulligans_that_count_are_paid_for() {
    assert_eq!(bottom_count_for(0, false), 0);
    assert_eq!(bottom_count_for(3, false), 3);
    assert_eq!(bottom_count_for(0, true), 0);
    assert_eq!(bottom_count_for(1, true), 0);
    assert_eq!(bottom_count_for(7, true), 6);
    assert_eq!(bottom_count_for(255, true), 254);
    assert!(!free_first_mulligan(&duel(0)));
    assert!(free_first_mulligan(&table(FormatConfig::commander(), 2, 0)));
    assert!(free_first_mulligan(&table(FormatConfig::brawl(), 2, 0)));
    assert!(free_first_mulligan(&table(FormatConfig::standard(), 3, 0)));
}

#[test]
fn the_bottoms_phase_can_be_entered_when_the_last_decider_leaves() {
    let mut state = started_table(table(FormatConfig::standard(), 3, 20));
    decide_for(&mut state, 0, false);
    decide_for(&mut state, 0, false);
    decide_for(&mut state, 0, true);
    decide_for(&mut state, 1, true);
    state.seat_order.pop();
    let mut events = Vec::new();
    state.waiting_for = enter_bottom_phase_public(&mut state, &mut events);
    // A duel without a free mulligan is left.
    assert_eq!(bottoms(&state), vec![MulliganBottomEntry { player: PlayerId(0), count: 2 }]);
    state.waiting_for = finish_mulligans_public(&mut state, &mut events);
    assert!(matches!(state.waiting_for, WaitingFor::Priority { player: PlayerId(0) }));
    assert_eq!(events, vec![GameEvent::PhaseChanged { phase: Phase::Upkeep }]);
    assert!(!state.resolving_begin_game_abilities);
}

#[test]
fn nobody_owes_cards_for_hands_kept_at_once() {
    let mut state = duel(20);
    let mut events = Vec::new();
    let waiting = enter_bottom_phase_public(&mut state, &mut events);
    assert!(matches!(waiting, WaitingFor::Priority { player: PlayerId(0) }));
    assert_eq!(state.phase, Phase::Upkeep);
}

#[test]
fn mandatory_abilities_resolve_in_turn_order_and_hand_order() {
    let mut state = started_table(duel(20));
    let late = state.players[1].hand[0];
    let second = state.players[0].hand[5];
    let first = state.players[0].hand[2];
    for card in [late, second, first] {
        give(&mut state, card, leyline(false));
    }
    decide_for(&mut state, 1, true);
    let events = decide_for(&mut state, 0, true);
    let moved: Vec<ObjectId> = events
        .iter()
        .filter_map(|event| match event {
            GameEvent::ZoneChanged { object_id, to: Zone::Battlefield, .. } => Some(*object_id),
            _ => None,
        })
        .collect();
    assert_eq!(moved, vec![first, second, late]);
    assert_eq!(state.battlefield, vec![first, second, late]);
    assert_eq!(*events.last().unwrap(), GameEvent::PhaseChanged { phase: Phase::Upkeep });
    assert!(matches!(state.waiting_for, WaitingFor::Priority { .. }));
    assert!(state.pending_begin_game_abilities.is_empty());
}

#[test]
fn every_begin_game_ability_of_a_card_counts() {
    let mut state = started_table(duel(20));
    let card = state.players[0].hand[0];
    give(
        &mut state,
        card,
        AbilityDefinition::new(
            AbilityKind::Activated,
            Effect::CopySpell { target: TargetFilter::Any },
        ),
    );
    give(&mut state, card, leyline(true).description("first".to_string()));
    give(&mut state, card, leyline(true).description("second".to_string()));
    give(&mut state, card, leyline(false));
    decide_for(&mut state, 0, true);
    decide_for(&mut state, 1, true);
    for (text, left) in [("first", 2), ("second", 1)] {
        match &state.waiting_for {
            WaitingFor::OptionalEffectChoice { player, source_id, description } => {
                assert_eq!(*player, PlayerId(0));
                assert_eq!(*source_id, card);
                assert_eq!(description.as_deref(), Some(text));
            }
            other => panic!("expected a choice, got {:?}", other),
        }
        assert_eq!(state.pending_begin_game_abilities.len(), left);
        apply(&mut state, PlayerId(0), GameAction::DecideOptionalEffect { accept: false })
            .unwrap();
    }
    assert_eq!(state.battlefield, vec![card]);
    assert!(matches!(state.waiting_for, WaitingFor::Priority { .. }));
}

#[test]
fn cards_in_libraries_do_not_begin_the_game_on_the_battlefield() {
    let mut state = started_table(duel(20));
    let card = state.players[0].library[0];
    give(&mut state, card, leyline(false));
    decide_for(&mut state, 0, true);
    decide_for(&mut state, 1, true);
    assert!(state.battlefield.is_empty());
}

#[test]
fn each_optional_ability_asks_before_the_first_turn() {
    let mut state = started_table(duel(20));
    let one = state.players[0].hand[0];
    let two = state.players[1].hand[0];
    give(&mut state, one, leyline(true).description("May begin the game".to_string()));
    give(&mut state, two, leyline(true));
    decide_for(&mut state, 0, true);
    decide_for(&mut state, 1, true);
    match &state.waiting_for {
        WaitingFor::OptionalEffectChoice { player, source_id, description } => {
            assert_eq!(*player, PlayerId(0));
            assert_eq!(*source_id, one);
            assert_eq!(description.as_deref(), Some("May begin the game"));
        }
        other => panic!("expected a choice, got {:?}", other),
    }
    assert!(state.resolving_begin_game_abilities);
    assert!(is_authorized_submitter(&state, PlayerId(0)));
    assert!(!is_authorized_submitter(&state, PlayerId(1)));
    let done = apply(&mut state, PlayerId(0), GameAction::DecideOptionalEffect { accept: false })
        .unwrap();
    assert!(matches!(
        done.waiting_for,
        WaitingFor::OptionalEffectChoice { player: PlayerId(1), source_id, .. } if source_id == two
    ));
    assert_eq!(state.phase, Phase::Untap);
    let done = apply(&mut state, PlayerId(1), GameAction::DecideOptionalEffect { accept: true })
        .unwrap();
    assert!(matches!(done.waiting_for, WaitingFor::Priority { player: PlayerId(0) }));
    assert_eq!(state.battlefield, vec![two]);
    assert!(state.players[0].hand.contains(&one));
    assert!(!state.resolving_begin_game_abilities);
    assert_eq!(state.phase, Phase::Upkeep);
}

#[test]
fn earlier_reports_stay() {
    let mut state = started_table(duel(20));
    let mut events = vec![GameEvent::GameStarted];
    state.waiting_for =
        handle_mulligan_decision(&mut state, PlayerId(0), false, &mut events).unwrap();
    assert_eq!(events[0], GameEvent::GameStarted);
    assert_eq!(events.len(), 16);
    decide_for(&mut state, 0, true);
    decide_for(&mut state, 1, true);
    let card = state.players[0].hand[0];
    state.waiting_for =
        handle_mulligan_bottom(&mut state, PlayerId(0), vec![card], &mut events).unwrap();
    assert_eq!(
        events[16],
        GameEvent::ZoneChanged { object_id: card, from: Zone::Hand, to: Zone::Library }
    );
    assert_eq!(events[17], GameEvent::PhaseChanged { phase: Phase::Upkeep });
    assert_eq!(events.len(), 18);
}

#[test]
fn every_card_is_in_the_game_once_it_begins() {
    let mut state = started_table(duel(20));
    let card = state.players[1].hand[4];
    give(&mut state, card, leyline(false));
    decide_for(&mut state, 0, true);
    decide_for(&mut state, 1, true);
    for id in 1..=40 {
        let object = state.objects.get(&ObjectId(id)).unwrap();
        let player = &state.players[object.owner.0 as usize];
        assert_eq!(player.hand.contains(&object.id), object.zone == Zone::Hand);
        assert_eq!(player.library.contains(&object.id), object.zone == Zone::Library);
        assert_eq!(state.battlefield.contains(&object.id), object.zone == Zone::Battlefield);
    }
    assert_eq!(state.objects.get(&card).unwrap().zone, Zone::Battlefield);
}

#[test]
fn resuming_with_nothing_left_goes_on_with_the_turn() {
    let mut state = duel(0);
    state.resolving_begin_game_abilities = true;
    state.active_player = PlayerId(1);
    state.phase = Phase::Draw;
    let mut events = Vec::new();
    let waiting = resume_begin_game_abilities(&mut state, &mut events);
    assert!(matches!(waiting, WaitingFor::Priority { player: PlayerId(1) }));
    assert!(events.is_empty());
    assert_eq!(state.phase, Phase::Draw);
    assert!(!state.resolving_begin_game_abilities);
}

#[test]
fn answers_are_taken_only_from_whom_the_game_waits_for() {
    let mut state = duel(20);
    let result = start_game_with_starting_player(&mut state, PlayerId(1));
    assert_eq!(result.events[0], GameEvent::GameStarted);
    assert_eq!(result.events[1], GameEvent::MulliganStarted);
    assert_eq!(state.active_player, PlayerId(1));
    assert_eq!(state.turn_number, 1);
    apply(&mut state, PlayerId(0), GameAction::MulliganDecision { keep: true }).unwrap();
    assert!(matches!(
        apply(&mut state, PlayerId(0), GameAction::MulliganDecision { keep: true }),
        Err(EngineError::NotYourDecision)
    ));
    match apply(&mut state, PlayerId(1), GameAction::SelectCards { cards: vec![] }) {
        Err(EngineError::InvalidAction(message)) => assert_eq!(
            message,
            "handle_mulligan_bottom called outside MulliganBottomCards"
        ),
        other => panic!("expected a refusal, got {:?}", other),
    }
    match apply(&mut state, PlayerId(1), GameAction::DecideOptionalEffect { accept: true }) {
        Err(EngineError::InvalidAction(message)) => {
            assert_eq!(message, "No optional effect to decide")
        }
        other => panic!("expected a refusal, got {:?}", other),
    }
    apply(&mut state, PlayerId(1), GameAction::MulliganDecision { keep: false }).unwrap();
    apply(&mut state, PlayerId(1), GameAction::MulliganDecision { keep: true }).unwrap();
    let card = state.players[1].hand[6];
    let done =
        apply(&mut state, PlayerId(1), GameAction::SelectCards { cards: vec![card] }).unwrap();
    assert!(matches!(done.waiting_for, WaitingFor::Priority { player: PlayerId(1) }));
    assert_eq!(*state.players[1].library.last().unwrap(), card);
    match apply(&mut state, PlayerId(1), GameAction::MulliganDecision { keep: true }) {
        Err(EngineError::InvalidAction(message)) => assert_eq!(
            message,
            "handle_mulligan_decision called outside MulliganDecision"
        ),
        other => panic!("expected a refusal, got {:?}", other),
    }
    state.waiting_for = WaitingFor::OptionalEffectChoice {
        player: PlayerId(0),
        source_id: card,
        description: None,
    };
    assert!(matches!(
        apply(&mut state, PlayerId(0), GameAction::DecideOptionalEffect { accept: true }),
        Err(EngineError::NothingToDecide)
    ));
}
