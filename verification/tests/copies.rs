use engine::game::effects::copy_spell::{
    copy_source_entry, resolve, set_resolved_controller_recursive, stack_entry_cant_be_copied,
};
use engine::game::effects::resolve_ability_chain;
use engine::game::stack::resolve_top;
use engine::game::targeting::find_legal_targets;
use engine::game::turn_control::is_authorized_submitter;
use engine::game::zones::{create_object, move_to_library_position};
use engine::types::ability::{
    ControllerRef, CounterType, Effect, EffectError, EffectKind, QuantityExpr, ResolvedAbility,
    TargetFilter, TargetRef, TypedFilter,
};
use engine::types::events::GameEvent;
use engine::types::game_object::GameObject;
use engine::types::game_state::{GameState, WaitingFor};
use engine::types::identifiers::{CardId, ObjectId, PlayerId};
use engine::types::stack::{CastingVariant, KeywordAction, StackEntry, StackEntryKind};
use engine::types::statics::{StaticDefinition, StaticMode};
use engine::types::zones::Zone;
use engine::util::text::decimal_text;

fn draw_two(source: u64, controller: u8, targets: Vec<TargetRef>) -> ResolvedAbility {
    ResolvedAbility::new(
        Effect::Draw {
            count: QuantityExpr::Fixed { value: 2 },
            target: TargetFilter::Controller,
        },
        targets,
        ObjectId(source),
        PlayerId(controller),
    )
}

fn copy_effect(target: TargetFilter, targets: Vec<TargetRef>, source: u64) -> ResolvedAbility {
    ResolvedAbility::new(
        Effect::CopySpell { target },
        targets,
        ObjectId(source),
        PlayerId(1),
    )
}

fn push_cast(state: &mut GameState, id: u64, ability: Option<ResolvedAbility>) {
    state.objects.insert(
        ObjectId(id),
        GameObject::new(
            ObjectId(id),
            CardId(id + 100),
            PlayerId(0),
            "Divination".to_string(),
            Zone::Stack,
        ),
    );
    state.stack.push(StackEntry {
        id: ObjectId(id),
        source_id: ObjectId(id),
        controller: PlayerId(0),
        kind: StackEntryKind::Spell {
            card_id: CardId(id + 100),
            ability,
            casting_variant: CastingVariant::Flashback,
            actual_mana_spent: 3,
        },
    });
}

fn push_activated(state: &mut GameState, id: u64, controller: u8, ability: ResolvedAbility) {
    state.stack.push(StackEntry {
        id: ObjectId(id),
        source_id: ability.source_id,
        controller: PlayerId(controller),
        kind: StackEntryKind::ActivatedAbility { source_id: ability.source_id, ability },
    });
}

fn fresh_game() -> GameState {
    let mut state = GameState::new_two_player(42);
    state.next_object_id = 500;
    state
}

fn ability_on(entry: &StackEntry) -> &ResolvedAbility {
    entry.ability().expect("the entry has an ability")
}

#[test]
fn the_copy_has_everything_but_the_controller_from_the_original() {
    let mut state = fresh_game();
    let mut ability = draw_two(10, 0, vec![]);
    ability.sub_ability = Some(Box::new(draw_two(11, 0, vec![TargetRef::Player(PlayerId(0))])));
    ability.sub_ability.as_mut().unwrap().else_ability = Some(Box::new(draw_two(12, 0, vec![])));
    ability.else_ability = Some(Box::new(draw_two(13, 0, vec![])));
    push_cast(&mut state, 10, Some(ability));
    let mut events = vec![GameEvent::MulliganStarted];
    resolve(&mut state, &copy_effect(TargetFilter::Any, vec![], 20), &mut events).unwrap();

    assert_eq!(state.stack.len(), 2);
    assert_eq!(state.stack[0].controller, PlayerId(0));
    assert_eq!(ability_on(&state.stack[0]).controller, PlayerId(0));
    let copy = &state.stack[1];
    assert_eq!(copy.id, ObjectId(500));
    assert_eq!(copy.source_id, ObjectId(10));
    assert_eq!(copy.controller, PlayerId(1));
    match &copy.kind {
        StackEntryKind::Spell { card_id, casting_variant, actual_mana_spent, .. } => {
            assert_eq!(*card_id, CardId(110));
            assert_eq!(*casting_variant, CastingVariant::Flashback);
            assert_eq!(*actual_mana_spent, 3);
        }
        other => panic!("expected a spell, got {:?}", other),
    }
    let top = ability_on(copy);
    let sub = top.sub_ability.as_ref().unwrap();
    assert_eq!(top.controller, PlayerId(1));
    assert_eq!(top.source_id, ObjectId(10));
    assert_eq!(sub.controller, PlayerId(1));
    assert_eq!(sub.source_id, ObjectId(11));
    assert_eq!(sub.targets, vec![TargetRef::Player(PlayerId(0))]);
    assert_eq!(sub.else_ability.as_ref().unwrap().controller, PlayerId(1));
    assert_eq!(top.else_ability.as_ref().unwrap().controller, PlayerId(1));

    let object = state.objects.get(&ObjectId(500)).unwrap();
    assert_eq!(object.id, ObjectId(500));
    assert_eq!(object.owner, PlayerId(0));
    assert_eq!(object.controller, PlayerId(1));
    assert_eq!(object.name, "Divination");
    assert!(object.is_token);
    assert!(!state.objects.get(&ObjectId(10)).unwrap().is_token);
    assert_eq!(state.next_object_id, 501);
    assert_eq!(
        events,
        vec![
            GameEvent::MulliganStarted,
            GameEvent::StackPushed { object_id: ObjectId(500) },
            GameEvent::EffectResolved {
                kind: EffectKind::CopySpell,
                source_id: ObjectId(20),
            },
        ]
    );
}

#[test]
fn the_last_controller_of_an_ability_counts() {
    let mut ability = draw_two(10, 0, vec![]);
    ability.sub_ability = Some(Box::new(draw_two(11, 0, vec![])));
    let original = format!("{:?}", ability);
    set_resolved_controller_recursive(&mut ability, PlayerId(1));
    assert_eq!(ability.controller, PlayerId(1));
    assert_eq!(ability.sub_ability.as_ref().unwrap().controller, PlayerId(1));
    set_resolved_controller_recursive(&mut ability, PlayerId(0));
    assert_eq!(format!("{:?}", ability), original);
}

#[test]
fn each_target_of_a_copy_can_be_changed() {
    let mut state = fresh_game();
    let targets = vec![TargetRef::Player(PlayerId(1)), TargetRef::Object(ObjectId(50))];
    push_cast(&mut state, 10, Some(draw_two(10, 0, targets.clone())));
    let mut events = Vec::new();
    resolve(&mut state, &copy_effect(TargetFilter::Any, vec![], 20), &mut events).unwrap();
    match &state.waiting_for {
        WaitingFor::CopyRetarget { player, copy_id, target_slots } => {
            assert_eq!(*player, PlayerId(1));
            assert_eq!(*copy_id, ObjectId(500));
            let shown: Vec<TargetRef> = target_slots.iter().map(|slot| slot.current).collect();
            assert_eq!(shown, targets);
            assert!(target_slots.iter().all(|slot| slot.legal_alternatives.is_empty()));
        }
        other => panic!("expected a retarget, got {:?}", other),
    }
    assert_eq!(events, vec![GameEvent::StackPushed { object_id: ObjectId(500) }]);
    assert!(is_authorized_submitter(&state, PlayerId(1)));
    assert!(!is_authorized_submitter(&state, PlayerId(0)));
}

#[test]
fn a_copy_effect_picks_its_target_then_itself_then_the_top() {
    let mut state = fresh_game();
    push_cast(&mut state, 10, Some(draw_two(10, 0, vec![])));
    push_activated(&mut state, 11, 0, draw_two(90, 0, vec![]));
    push_cast(&mut state, 12, None);
    let aimed = copy_effect(
        TargetFilter::SelfRef,
        vec![TargetRef::Player(PlayerId(0)), TargetRef::Object(ObjectId(11))],
        10,
    );
    assert_eq!(copy_source_entry(&state, &aimed).unwrap().id, ObjectId(11));
    let own = copy_effect(TargetFilter::SelfRef, vec![TargetRef::Player(PlayerId(0))], 10);
    assert_eq!(copy_source_entry(&state, &own).unwrap().id, ObjectId(10));
    let top = copy_effect(TargetFilter::Any, vec![], 10);
    assert_eq!(copy_source_entry(&state, &top).unwrap().id, ObjectId(12));
    let gone = copy_effect(TargetFilter::Any, vec![TargetRef::Object(ObjectId(99))], 10);
    assert!(copy_source_entry(&state, &gone).is_none());
    let mut events = Vec::new();
    match resolve(&mut state, &gone, &mut events) {
        Err(EffectError::MissingParam(message)) => {
            assert_eq!(message, "No spell or ability on stack to copy")
        }
        other => panic!("expected an error, got {:?}", other),
    }
    assert!(events.is_empty());
    assert_eq!(state.stack.len(), 3);
    assert_eq!(state.next_object_id, 500);
}

#[test]
fn protected_entries_stay_uncopied() {
    let mut state = fresh_game();
    push_cast(&mut state, 10, Some(draw_two(10, 0, vec![])));
    assert!(!stack_entry_cant_be_copied(&state, &state.stack[0]));
    state
        .objects
        .get_mut(&ObjectId(10))
        .unwrap()
        .static_definitions
        .push(StaticDefinition { mode: StaticMode::CantBeCountered });
    assert!(!stack_entry_cant_be_copied(&state, &state.stack[0]));
    state
        .objects
        .get_mut(&ObjectId(10))
        .unwrap()
        .static_definitions
        .push(StaticDefinition { mode: StaticMode::CantBeCopied });
    assert!(stack_entry_cant_be_copied(&state, &state.stack[0]));
    let mut events = Vec::new();
    resolve(&mut state, &copy_effect(TargetFilter::Any, vec![], 20), &mut events).unwrap();
    assert_eq!(state.stack.len(), 1);
    assert_eq!(state.next_object_id, 500);
    assert_eq!(
        events,
        vec![GameEvent::EffectResolved { kind: EffectKind::CopySpell, source_id: ObjectId(20) }]
    );
    state.objects.get_mut(&ObjectId(10)).unwrap().phased_out = true;
    assert!(!stack_entry_cant_be_copied(&state, &state.stack[0]));
}

#[test]
fn entries_without_abilities_and_objects_are_copied_too() {
    let mut state = fresh_game();
    state.stack.push(StackEntry {
        id: ObjectId(30),
        source_id: ObjectId(31),
        controller: PlayerId(0),
        kind: StackEntryKind::KeywordAction { action: KeywordAction::Crew },
    });
    let mut events = Vec::new();
    resolve(&mut state, &copy_effect(TargetFilter::Any, vec![], 20), &mut events).unwrap();
    assert_eq!(state.stack[1].id, ObjectId(500));
    assert_eq!(state.stack[1].controller, PlayerId(1));
    assert!(matches!(
        state.stack[1].kind,
        StackEntryKind::KeywordAction { action: KeywordAction::Crew }
    ));
    assert!(state.objects.get(&ObjectId(500)).is_none());
    assert!(matches!(state.waiting_for, WaitingFor::Priority { .. }));
}

#[test]
fn copies_of_copies_have_identifiers_of_their_own() {
    let mut state = fresh_game();
    push_cast(&mut state, 10, Some(draw_two(10, 0, vec![])));
    let mut effect = copy_effect(TargetFilter::Any, vec![], 20);
    effect.repeat_for = Some(QuantityExpr::Fixed { value: 3 });
    let mut events = Vec::new();
    assert!(resolve_ability_chain(&mut state, &effect, &mut events, 0).is_ok());
    let ids: Vec<u64> = state.stack.iter().map(|entry| entry.id.0).collect();
    assert_eq!(ids, vec![10, 500, 501, 502]);
    assert!(state.stack.iter().skip(1).all(|entry| ability_on(entry).controller == PlayerId(1)));
}

#[test]
fn chains_stop_at_errors_and_at_choices() {
    let mut state = fresh_game();
    let mut events = Vec::new();
    assert!(matches!(
        resolve_ability_chain(&mut state, &draw_two(10, 0, vec![]), &mut events, 0),
        Err(EffectError::NoHandler(EffectKind::Draw))
    ));
    assert!(matches!(
        resolve_ability_chain(&mut state, &draw_two(10, 0, vec![]), &mut events, 21),
        Err(EffectError::ChainTooDeep)
    ));
    push_cast(&mut state, 10, Some(draw_two(10, 0, vec![TargetRef::Player(PlayerId(0))])));
    let mut effect = copy_effect(TargetFilter::Any, vec![], 20);
    effect.sub_ability = Some(Box::new(copy_effect(TargetFilter::Any, vec![], 21)));
    assert!(resolve_ability_chain(&mut state, &effect, &mut events, 0).is_ok());
    assert_eq!(state.stack.len(), 2);
    assert!(matches!(state.waiting_for, WaitingFor::CopyRetarget { .. }));
    state.next_object_id = u64::MAX;
    assert!(matches!(
        resolve_ability_chain(&mut state, &effect, &mut events, 0),
        Err(EffectError::IdsExhausted)
    ));
    assert_eq!(state.stack.len(), 2);
    effect.optional = true;
    assert!(resolve_ability_chain(&mut state, &effect, &mut events, 0).is_ok());
    assert!(matches!(
        state.waiting_for,
        WaitingFor::OptionalEffectChoice { player: PlayerId(1), source_id: ObjectId(20), .. }
    ));
    assert!(!state.pending_optional_ability.as_ref().unwrap().optional);
}

#[test]
fn resolving_takes_one_entry_off_the_stack() {
    let mut state = fresh_game();
    let mut events = Vec::new();
    resolve_top(&mut state, &mut events);
    assert!(events.is_empty());
    push_cast(&mut state, 10, None);
    push_cast(&mut state, 12, None);
    resolve_top(&mut state, &mut events);
    assert_eq!(state.stack.len(), 1);
    assert_eq!(events, vec![GameEvent::StackResolved { object_id: ObjectId(12) }]);
    assert!(matches!(state.waiting_for, WaitingFor::Priority { player: PlayerId(0) }));
}

#[test]
fn permanents_arrive_as_the_effect_says() {
    let mut state = GameState::new_two_player(42);
    let card = create_object(
        &mut state,
        CardId(1),
        PlayerId(0),
        "Gemstone Caverns".to_string(),
        Zone::Hand,
    );
    let mut ability = ResolvedAbility::new(
        Effect::ChangeZone {
            destination: Zone::Battlefield,
            target: TargetFilter::SelfRef,
            origin: Some(Zone::Graveyard),
            owner_library: false,
            enter_transformed: false,
            under_your_control: true,
            enter_tapped: true,
            enters_attacking: false,
            up_to: false,
            enter_with_counters: vec![(CounterType::Luck, QuantityExpr::Fixed { value: 1 })],
        },
        vec![],
        card,
        PlayerId(1),
    );
    let mut events = Vec::new();
    assert!(resolve_ability_chain(&mut state, &ability, &mut events, 0).is_ok());
    assert_eq!(state.players[0].hand, vec![card]);
    if let Effect::ChangeZone { origin, .. } = &mut ability.effect {
        *origin = Some(Zone::Hand);
    }
    assert!(resolve_ability_chain(&mut state, &ability, &mut events, 0).is_ok());
    assert!(state.players[0].hand.is_empty());
    assert_eq!(state.battlefield, vec![card]);
    let object = state.objects.get(&card).unwrap();
    assert_eq!(object.zone, Zone::Battlefield);
    assert_eq!(object.controller, PlayerId(1));
    assert!(object.tapped);
    assert!(!object.attacking);
    assert_eq!(object.counters, vec![(CounterType::Luck, QuantityExpr::Fixed { value: 1 })]);
    assert_eq!(
        events[1],
        GameEvent::ZoneChanged { object_id: card, from: Zone::Hand, to: Zone::Battlefield }
    );
}

#[test]
fn filters_list_what_they_admit() {
    let mut state = GameState::new_two_player(42);
    let mine = create_object(
        &mut state,
        CardId(1),
        PlayerId(0),
        "Island".to_string(),
        Zone::Battlefield,
    );
    let theirs = create_object(
        &mut state,
        CardId(2),
        PlayerId(1),
        "Swamp".to_string(),
        Zone::Battlefield,
    );
    push_activated(&mut state, 40, 0, draw_two(40, 0, vec![]));
    push_activated(&mut state, 41, 1, draw_two(41, 1, vec![]));
    push_cast(&mut state, 42, None);
    let list = |state: &GameState, filter: TargetFilter| {
        find_legal_targets(state, &filter, PlayerId(0), mine)
    };
    assert_eq!(list(&state, TargetFilter::SelfRef), vec![TargetRef::Object(mine)]);
    assert_eq!(list(&state, TargetFilter::Controller), vec![TargetRef::Player(PlayerId(0))]);
    assert_eq!(
        list(&state, TargetFilter::StackAbility { controller: None }),
        vec![TargetRef::Object(ObjectId(40)), TargetRef::Object(ObjectId(41))]
    );
    assert_eq!(
        list(&state, TargetFilter::StackAbility { controller: Some(ControllerRef::Opponent) }),
        vec![TargetRef::Object(ObjectId(41))]
    );
    assert_eq!(
        list(
            &state,
            TargetFilter::Typed(TypedFilter::default().controller(ControllerRef::Opponent))
        ),
        vec![TargetRef::Object(theirs)]
    );
    assert_eq!(
        list(&state, TargetFilter::Any),
        vec![
            TargetRef::Player(PlayerId(0)),
            TargetRef::Player(PlayerId(1)),
            TargetRef::Object(mine),
            TargetRef::Object(theirs),
        ]
    );
    state.objects.get_mut(&theirs).unwrap().phased_out = true;
    assert_eq!(
        list(&state, TargetFilter::Typed(TypedFilter::default())),
        vec![TargetRef::Object(mine)]
    );
}

#[test]
fn cards_can_be_put_on_top_of_a_library() {
    let mut state = GameState::new_two_player(42);
    let mut ids = Vec::new();
    for i in 0..3 {
        ids.push(create_object(
            &mut state,
            CardId(i),
            PlayerId(1),
            "Forest".to_string(),
            Zone::Library,
        ));
    }
    let mut events = Vec::new();
    move_to_library_position(&mut state, ids[2], true, &mut events);
    assert_eq!(state.players[1].library, vec![ids[2], ids[0], ids[1]]);
    move_to_library_position(&mut state, ids[0], false, &mut events);
    assert_eq!(state.players[1].library, vec![ids[2], ids[1], ids[0]]);
    assert_eq!(events.len(), 2);
}

#[test]
fn numbers_are_written_in_decimal() {
    assert_eq!(decimal_text(0), "0");
    assert_eq!(decimal_text(9), "9");
    assert_eq!(decimal_text(10), "10");
    assert_eq!(decimal_text(255), "255");
    assert_eq!(decimal_text(u64::MAX), "18446744073709551615");
}
