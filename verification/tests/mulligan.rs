use engine::game::engine::{apply, start_game_with_starting_player};
use engine::game::mulligan::{
    handle_mulligan_bottom, handle_mulligan_decision, start_mulligan,
};
use engine::game::turn_control::is_authorized_submitter;
use engine::game::zones::create_object;
use engine::types::ability::{AbilityDefinition, AbilityKind, Effect, TargetFilter};
use engine::types::actions::GameAction;
use engine::types::events::GameEvent;
use engine::types::format::FormatConfig;
use engine::types::game_state::{GameState, WaitingFor};
use engine::types::identifiers::{CardId, ObjectId, PlayerId};
use engine::types::phase::Phase;
use engine::types::zones::Zone;

/// Decides for `player`; the game then waits for what the decision led to.
fn decide(
    state: &mut GameState,
    player: PlayerId,
    keep: bool,
    events: &mut Vec<GameEvent>,
) -> WaitingFor {
    let wf = handle_mulligan_decision(state, player, keep, events)
        .expect("handle_mulligan_decision");
    state.waiting_for = wf.clone();
    wf
}

fn bottom(
    state: &mut GameState,
    player: PlayerId,
    cards: Vec<ObjectId>,
    events: &mut Vec<GameEvent>,
) -> Result<WaitingFor, String> {
    let wf = handle_mulligan_bottom(state, player, cards, events)?;
    state.waiting_for = wf.clone();
    Ok(wf)
}

fn setup_with_libraries(cards_per_player: usize) -> GameState {
    setup_n_player_with_libraries(2, cards_per_player)
}

fn setup_n_player_with_libraries(num_players: u8, cards_per_player: usize) -> GameState {
    let mut state = if num_players == 2 {
        GameState::new_two_player(42)
    } else {
        GameState::new(
            FormatConfig::standard(),
            num_players,
            42,
        )
    };
    state.turn_number = 1;
    state.phase = Phase::Untap;

    for player_idx in 0..num_players {
        for i in 0..cards_per_player {
            create_object(
                &mut state,
                CardId((player_idx as u64) * 100 + i as u64),
                PlayerId(player_idx),
                format!("Card {} P{}", i, player_idx),
                Zone::Library,
            );
        }
    }

    state
}

fn pending_decision_players(wf: &WaitingFor) -> Vec<PlayerId> {
    match wf {
        WaitingFor::MulliganDecision { pending, .. } => {
            pending.iter().map(|e| e.player).collect()
        }
        _ => vec![],
    }
}

fn decision_count_for(wf: &WaitingFor, player: PlayerId) -> Option<u8> {
    match wf {
        WaitingFor::MulliganDecision { pending, .. } => pending
            .iter()
            .find(|e| e.player == player)
            .map(|e| e.mulligan_count),
        _ => None,
    }
}

fn pending_bottom_for(wf: &WaitingFor, player: PlayerId) -> Option<u8> {
    match wf {
        WaitingFor::MulliganBottomCards { pending } => {
            pending.iter().find(|e| e.player == player).map(|e| e.count)
        }
        _ => None,
    }
}

#[test]
fn start_mulligan_draws_seven_for_each_player() {
    let mut state = setup_with_libraries(20);
    let mut events = Vec::new();

    let waiting = start_mulligan(&mut state, &mut events);

    assert_eq!(state.players[0].hand.len(), 7);
    assert_eq!(state.players[1].hand.len(), 7);
    assert_eq!(state.players[0].library.len(), 13);
    assert_eq!(state.players[1].library.len(), 13);
    assert_eq!(
        pending_decision_players(&waiting),
        vec![PlayerId(0), PlayerId(1)],
        "both players should be pending at game start"
    );
}

#[test]
fn start_mulligan_emits_event() {
    let mut state = setup_with_libraries(20);
    let mut events = Vec::new();

    start_mulligan(&mut state, &mut events);

    assert!(events
        .iter()
        .any(|e| matches!(e, GameEvent::MulliganStarted)));
}

#[test]
fn keep_removes_player_from_pending() {
    let mut state = setup_with_libraries(20);
    let mut events = Vec::new();
    state.waiting_for = start_mulligan(&mut state, &mut events);

    let waiting = decide(&mut state, PlayerId(0), true, &mut events);
    assert_eq!(
        pending_decision_players(&waiting),
        vec![PlayerId(1)],
        "P0 should be removed; P1 still pending"
    );
}

#[test]
fn mulligan_keeps_player_in_pending_and_increments_count() {
    let mut state = setup_with_libraries(20);
    let mut events = Vec::new();
    state.waiting_for = start_mulligan(&mut state, &mut events);

    let waiting = decide(&mut state, PlayerId(0), false, &mut events);
    assert_eq!(
        decision_count_for(&waiting, PlayerId(0)),
        Some(1),
        "P0 mulligan_count should increment to 1"
    );
    assert!(
        pending_decision_players(&waiting).contains(&PlayerId(0)),
        "P0 should remain pending after mulligan"
    );
}

#[test]
fn keep_after_mulligan_defers_bottoms_until_all_keep() {
    let mut state = setup_with_libraries(20);
    let mut events = Vec::new();
    state.waiting_for = start_mulligan(&mut state, &mut events);

    // P0 mulligans once then keeps; P1 still pending → still decision phase.
    decide(&mut state, PlayerId(0), false, &mut events);
    let waiting = decide(&mut state, PlayerId(0), true, &mut events);
    assert!(
        matches!(waiting, WaitingFor::MulliganDecision { .. }),
        "should still be decision phase while P1 is pending, got {:?}",
        waiting
    );

    // P1 keeps → enters bottoms phase for P0 only.
    let waiting = decide(&mut state, PlayerId(1), true, &mut events);
    assert_eq!(
        pending_bottom_for(&waiting, PlayerId(0)),
        Some(1),
        "P0 owes 1 bottom card after 1 mulligan in 2-player Standard"
    );
    assert_eq!(
        pending_bottom_for(&waiting, PlayerId(1)),
        None,
        "P1 owes nothing"
    );
}

#[test]
fn mulligan_redraws_seven() {
    let mut state = setup_with_libraries(20);
    let mut events = Vec::new();
    state.waiting_for = start_mulligan(&mut state, &mut events);

    assert_eq!(state.players[0].hand.len(), 7);

    decide(&mut state, PlayerId(0), false, &mut events);

    assert_eq!(state.players[0].hand.len(), 7);
}

#[test]
fn handle_bottom_cards_puts_on_bottom() {
    let mut state = setup_with_libraries(20);
    let mut events = Vec::new();
    state.waiting_for = start_mulligan(&mut state, &mut events);

    // P0 mulligans then keeps; P1 keeps → enter bottoms phase.
    decide(&mut state, PlayerId(0), false, &mut events);
    decide(&mut state, PlayerId(0), true, &mut events);
    decide(&mut state, PlayerId(1), true, &mut events);

    let card_to_bottom = state.players[0].hand[0];
    let result = bottom(&mut state, PlayerId(0), vec![card_to_bottom], &mut events);
    assert!(result.is_ok());
    assert_eq!(state.players[0].hand.len(), 6);
    assert_eq!(*state.players[0].library.last().unwrap(), card_to_bottom);
}

#[test]
fn handle_bottom_cards_wrong_count_errors() {
    let mut state = setup_with_libraries(20);
    let mut events = Vec::new();
    state.waiting_for = start_mulligan(&mut state, &mut events);

    // Drive into bottoms phase: P0 mulligans+keeps, P1 keeps.
    decide(&mut state, PlayerId(0), false, &mut events);
    decide(&mut state, PlayerId(0), true, &mut events);
    decide(&mut state, PlayerId(1), true, &mut events);

    let result = handle_mulligan_bottom(&mut state, PlayerId(0), vec![], &mut events);
    assert!(result.is_err());
}

#[test]
fn both_players_keep_starts_game() {
    let mut state = setup_with_libraries(20);
    let mut events = Vec::new();
    state.waiting_for = start_mulligan(&mut state, &mut events);

    let waiting = decide(&mut state, PlayerId(0), true, &mut events);
    assert!(matches!(waiting, WaitingFor::MulliganDecision { .. }));

    let waiting = decide(&mut state, PlayerId(1), true, &mut events);
    assert!(matches!(waiting, WaitingFor::Priority { .. }));
}

/// CR 103.5: 4-player pod, every player submits in non-turn order; all keep.
/// All four mulligan decisions complete simultaneously and the game starts.
#[test]
fn four_player_concurrent_keep_in_any_order() {
    let mut state = setup_n_player_with_libraries(4, 20);
    let mut events = Vec::new();
    state.waiting_for = start_mulligan(&mut state, &mut events);

    // Submit in reverse seat order.
    let _ = decide(&mut state, PlayerId(3), true, &mut events);
    let _ = decide(&mut state, PlayerId(0), true, &mut events);
    let _ = decide(&mut state, PlayerId(2), true, &mut events);
    let waiting = decide(&mut state, PlayerId(1), true, &mut events);

    assert!(
        matches!(waiting, WaitingFor::Priority { .. }),
        "all four players kept → game should start, got {:?}",
        waiting
    );
}

/// CR 103.5: 4-player pod, partial — two keep, two mulligan.
/// Pending shrinks to the mulliganing players only.
#[test]
fn four_player_partial_keep_pending_shrinks() {
    let mut state = setup_n_player_with_libraries(4, 20);
    let mut events = Vec::new();
    state.waiting_for = start_mulligan(&mut state, &mut events);

    decide(&mut state, PlayerId(0), true, &mut events);
    decide(&mut state, PlayerId(1), true, &mut events);
    decide(&mut state, PlayerId(2), false, &mut events);
    let waiting = decide(&mut state, PlayerId(3), false, &mut events);

    let pending = pending_decision_players(&waiting);
    assert_eq!(
        pending,
        vec![PlayerId(2), PlayerId(3)],
        "only mulliganing players should remain pending"
    );
    assert_eq!(decision_count_for(&waiting, PlayerId(2)), Some(1));
    assert_eq!(decision_count_for(&waiting, PlayerId(3)), Some(1));
}

/// CR 103.5: 4-player pod bottoms phase — three players owe bottoms,
/// they submit in non-seat order, all resolve concurrently.
#[test]
fn four_player_concurrent_bottom_in_any_order() {
    // Need a 4-player game without free-first-mulligan so all three mulligans
    // produce bottoms. Multiplayer (≥3 seats) always grants free first per
    // CR 103.5c, so a single mulligan is free. Take TWO mulligans per player
    // to ensure each owes one bottom card.
    let mut state = setup_n_player_with_libraries(4, 30);
    let mut events = Vec::new();
    state.waiting_for = start_mulligan(&mut state, &mut events);

    // P0, P2, P3 each mulligan twice then keep; P1 keeps immediately.
    for &pid in &[PlayerId(0), PlayerId(2), PlayerId(3)] {
        decide(&mut state, pid, false, &mut events);
        decide(&mut state, pid, false, &mut events);
        decide(&mut state, pid, true, &mut events);
    }
    let waiting = decide(&mut state, PlayerId(1), true, &mut events);

    // Bottoms phase: P0/P2/P3 each owe 1 (2 mulligans - 1 free).
    assert_eq!(pending_bottom_for(&waiting, PlayerId(0)), Some(1));
    assert_eq!(pending_bottom_for(&waiting, PlayerId(2)), Some(1));
    assert_eq!(pending_bottom_for(&waiting, PlayerId(3)), Some(1));
    assert_eq!(pending_bottom_for(&waiting, PlayerId(1)), None);

    // Submit bottom cards in non-seat order.
    let card3 = state.players[3].hand[0];
    let card0 = state.players[0].hand[0];
    let card2 = state.players[2].hand[0];
    bottom(&mut state, PlayerId(3), vec![card3], &mut events).unwrap();
    bottom(&mut state, PlayerId(0), vec![card0], &mut events).unwrap();
    let waiting = bottom(&mut state, PlayerId(2), vec![card2], &mut events).unwrap();

    assert!(
        matches!(waiting, WaitingFor::Priority { .. }),
        "all bottoms submitted → game should start, got {:?}",
        waiting
    );
}

#[test]
fn optional_begin_game_ability_prompts_before_resolving() {
    let mut state = setup_with_libraries(20);
    let mut events = Vec::new();
    state.waiting_for = start_mulligan(&mut state, &mut events);

    let leyline_id = state.players[0].hand[0];
    let mut begin_game = AbilityDefinition::new(
        AbilityKind::BeginGame,
        Effect::ChangeZone {
            destination: Zone::Battlefield,
            target: TargetFilter::SelfRef,
            origin: Some(Zone::Hand),
            owner_library: false,
            enter_transformed: false,
            under_your_control: false,
            enter_tapped: false,
            enters_attacking: false,
            up_to: false,
            enter_with_counters: vec![],
        },
    )
    .description("If this card is in your opening hand, you may begin the game with it on the battlefield.".to_string());
    begin_game.optional = true;
    state
        .objects
        .get_mut(&leyline_id)
        .expect("opening hand card exists")
        .abilities
        .push(begin_game);

    decide(&mut state, PlayerId(0), true, &mut events);
    decide(&mut state, PlayerId(1), true, &mut events);

    assert!(matches!(
        state.waiting_for,
        WaitingFor::OptionalEffectChoice {
            player: PlayerId(0),
            source_id,
            ..
        } if source_id == leyline_id
    ));
    assert_eq!(state.objects.get(&leyline_id).unwrap().zone, Zone::Hand);

    let result = apply(
        &mut state,
        PlayerId(0),
        GameAction::DecideOptionalEffect { accept: true },
    )
    .expect("accepting begin-game effect should resolve");

    assert_eq!(state.objects.get(&leyline_id).unwrap().zone, Zone::Battlefield);
    assert!(matches!(result.waiting_for, WaitingFor::Priority { .. }));
    assert!(!state.resolving_begin_game_abilities);
}

#[test]
fn multiplayer_first_mulligan_is_free() {
    let mut state = setup_n_player_with_libraries(3, 30);
    let mut events = Vec::new();
    state.waiting_for = start_mulligan(&mut state, &mut events);

    // CR 103.5c: First mulligan in multiplayer doesn't count.
    let waiting = decide(&mut state, PlayerId(0), false, &mut events);
    assert_eq!(
        decision_count_for(&waiting, PlayerId(0)),
        Some(1),
        "Mulligan count should increment to 1"
    );

    // Keep after first mulligan — drive into bottoms phase by keeping others too.
    decide(&mut state, PlayerId(0), true, &mut events);
    decide(&mut state, PlayerId(1), true, &mut events);
    let waiting = decide(&mut state, PlayerId(2), true, &mut events);

    assert_eq!(
        pending_bottom_for(&waiting, PlayerId(0)),
        None,
        "P0 had 1 free mulligan → owes 0 bottom cards"
    );
    assert!(
        matches!(waiting, WaitingFor::Priority { .. }),
        "with no bottoms owed, game should start immediately"
    );
}

#[test]
fn multiplayer_two_mulligans_bottoms_one() {
    let mut state = setup_n_player_with_libraries(3, 30);
    let mut events = Vec::new();
    state.waiting_for = start_mulligan(&mut state, &mut events);

    decide(&mut state, PlayerId(0), false, &mut events);
    decide(&mut state, PlayerId(0), false, &mut events);
    decide(&mut state, PlayerId(0), true, &mut events);
    decide(&mut state, PlayerId(1), true, &mut events);
    let waiting = decide(&mut state, PlayerId(2), true, &mut events);
    assert_eq!(
        pending_bottom_for(&waiting, PlayerId(0)),
        Some(1),
        "After 2 mulligans in multiplayer, P0 should bottom 1 card"
    );
}

#[test]
fn ai_starting_player_can_submit_mulligan_decision() {
    let mut state = GameState::new(FormatConfig::commander(), 2, 42);
    for player_idx in 0..2u8 {
        for i in 0..10 {
            create_object(
                &mut state,
                CardId((player_idx as u64) * 100 + i as u64),
                PlayerId(player_idx),
                format!("Card {} P{}", i, player_idx),
                Zone::Library,
            );
        }
    }
    let c0 = create_object(
        &mut state,
        CardId(200),
        PlayerId(0),
        "P0 Cmd".to_string(),
        Zone::Command,
    );
    let c1 = create_object(
        &mut state,
        CardId(201),
        PlayerId(1),
        "P1 Cmd".to_string(),
        Zone::Command,
    );
    state.objects.get_mut(&c0).unwrap().is_commander = true;
    state.objects.get_mut(&c1).unwrap().is_commander = true;

    let result = start_game_with_starting_player(&mut state, PlayerId(1));

    // CR 103.5: Both players are pending simultaneously at start.
    assert!(
        matches!(result.waiting_for, WaitingFor::MulliganDecision { .. }),
        "expected MulliganDecision, got {:?}",
        result.waiting_for
    );
    let pending = pending_decision_players(&result.waiting_for);
    assert!(
        pending.contains(&PlayerId(0)) && pending.contains(&PlayerId(1)),
        "both players should be pending, got {:?}",
        pending
    );

    // P1 (AI) is authorized as a member of the pending set.
    assert!(is_authorized_submitter(
        &state,
        PlayerId(1)
    ));

    let r = apply(
        &mut state,
        PlayerId(1),
        GameAction::MulliganDecision { keep: true },
    );
    assert!(
        r.is_ok(),
        "AI P1 should be authorized to submit MulliganDecision, got {:?}",
        r
    );
}

/// Commander Rules Committee free-mulligan rule supplements CR 103.5c
/// (which covers only multiplayer and Brawl). A 2-player Commander
/// duel grants a free first mulligan.
#[test]
fn commander_first_mulligan_is_free_in_duel() {
    let mut state = GameState::new(FormatConfig::commander(), 2, 42);
    state.turn_number = 1;
    state.phase = Phase::Untap;
    for player_idx in 0..2u8 {
        for i in 0..20 {
            create_object(
                &mut state,
                CardId((player_idx as u64) * 100 + i as u64),
                PlayerId(player_idx),
                format!("Card {} P{}", i, player_idx),
                Zone::Library,
            );
        }
    }

    let mut events = Vec::new();
    state.waiting_for = start_mulligan(&mut state, &mut events);

    decide(&mut state, PlayerId(0), false, &mut events);
    decide(&mut state, PlayerId(0), true, &mut events);
    let waiting = decide(&mut state, PlayerId(1), true, &mut events);
    assert_eq!(
        pending_bottom_for(&waiting, PlayerId(0)),
        None,
        "Commander duel: first mulligan should be free — no MulliganBottomCards"
    );
}

/// CR 103.5c: A Brawl duel grants a free first mulligan.
#[test]
fn brawl_first_mulligan_is_free_in_duel() {
    let mut state = GameState::new(FormatConfig::brawl(), 2, 42);
    state.turn_number = 1;
    state.phase = Phase::Untap;
    for player_idx in 0..2u8 {
        for i in 0..20 {
            create_object(
                &mut state,
                CardId((player_idx as u64) * 100 + i as u64),
                PlayerId(player_idx),
                format!("Card {} P{}", i, player_idx),
                Zone::Library,
            );
        }
    }

    let mut events = Vec::new();
    state.waiting_for = start_mulligan(&mut state, &mut events);

    decide(&mut state, PlayerId(0), false, &mut events);
    decide(&mut state, PlayerId(0), true, &mut events);
    let waiting = decide(&mut state, PlayerId(1), true, &mut events);
    assert_eq!(pending_bottom_for(&waiting, PlayerId(0)), None);
}

/// CR 103.5c only applies to multiplayer (3+ players) and Brawl. A
/// Standard 1v1 duel must require bottoming 1 card after 1 mulligan.
#[test]
fn standard_duel_has_no_free_mulligan() {
    let mut state = GameState::new(FormatConfig::standard(), 2, 42);
    state.turn_number = 1;
    state.phase = Phase::Untap;
    for player_idx in 0..2u8 {
        for i in 0..20 {
            create_object(
                &mut state,
                CardId((player_idx as u64) * 100 + i as u64),
                PlayerId(player_idx),
                format!("Card {} P{}", i, player_idx),
                Zone::Library,
            );
        }
    }

    let mut events = Vec::new();
    state.waiting_for = start_mulligan(&mut state, &mut events);

    decide(&mut state, PlayerId(0), false, &mut events);
    decide(&mut state, PlayerId(0), true, &mut events);
    let waiting = decide(&mut state, PlayerId(1), true, &mut events);
    assert_eq!(
        pending_bottom_for(&waiting, PlayerId(0)),
        Some(1),
        "Standard duel: after 1 mulligan, should bottom 1 card"
    );
}
