use hivesim::components::ComponentManager;
use hivesim::entity_manager::{Entity, EntityManager};
use hivesim::game_state::{
    game_init, game_load, game_update, harvest_system, movement_system, Collision, Command,
    GameInput, HarvestOutcome, MoveOutcome, ResourceKind, SolidContainer, UserCommand,
};
use hivesim::position::Position;

#[test]
fn spawn_unit() {
    let mut game_state = game_init();
    let mut game_input = GameInput::default();
    game_input.create_unit = true;

    game_state = game_update(game_state, 100, &game_input);

    // can't create entities if hive isn't a thing
    assert_eq!(game_state.get_units().len(), 0);
}

#[test]
fn test_harvest_system() {
    let mut entity_manager = EntityManager::new();

    let unit = entity_manager.create();
    let mut pos_c = ComponentManager::<Position>::new();

    let mut solid_c = ComponentManager::<SolidContainer>::new();

    // unit
    pos_c.create_with(&unit, Position::new(0, 0));
    solid_c.create_with(&unit, SolidContainer { iron_count: 0, copper_count: 0 });

    let iron_node = entity_manager.create();
    pos_c.create_with(&iron_node, Position::new(0, 1));
    solid_c.create_with(&iron_node, SolidContainer { iron_count: 100, copper_count: 0 });

    harvest_system(&unit, &mut pos_c, &mut solid_c, &iron_node, ResourceKind::Iron);

    let iron_s = solid_c.get(&iron_node).unwrap();
    assert_eq!(iron_s.iron_count, 99);

    let unit_s = solid_c.get(&unit).unwrap();
    assert_eq!(unit_s.iron_count, 1);
}

#[test]
fn test_movement_system() {
    let mut entity_manager = EntityManager::new();

    let unit = entity_manager.create();
    let mut pos_c = ComponentManager::<Position>::new();
    let mut solid_c = ComponentManager::<Collision>::new();

    // unit
    pos_c.create_with(&unit, Position::new(0, 0));
    solid_c.create_with(&unit, Collision { value: true });

    let iron_node = entity_manager.create();
    pos_c.create_with(&iron_node, Position::new(0, 1));
    solid_c.create_with(&iron_node, Collision { value: true });

    movement_system(&unit, &mut pos_c, &mut solid_c, Position::new(0, 1));

    let iron_s = pos_c.get(&iron_node).unwrap();
    assert_eq!(*iron_s, Position::new(0, 1));

    let unit_s = pos_c.get(&unit).unwrap();
    assert_eq!(*unit_s, Position::new(0, 0));
}

#[test]
fn movement_outcomes() {
    let mut pos_c = ComponentManager::<Position>::new();
    let mut col_c = ComponentManager::<Collision>::new();
    let mover = Entity(1);
    let blocker = Entity(2);
    pos_c.create_with(&mover, Position::new(0, 0));
    pos_c.create_with(&blocker, Position::new(0, 1));
    col_c.create_with(&blocker, Collision { value: true });

    // Target tile occupied by a collision holder: rejected.
    let r1 = movement_system(&mover, &mut pos_c, &mut col_c, Position::new(0, 1));
    assert_eq!(r1, MoveOutcome::Collides);
    assert_eq!(*pos_c.get(&mover).unwrap(), Position::new(0, 0));

    // More than 100 offset units in one tick: rejected.
    let r2 = movement_system(&mover, &mut pos_c, &mut col_c, Position::new(2, 0));
    assert_eq!(r2, MoveOutcome::TooFast);
    assert_eq!(*pos_c.get(&mover).unwrap(), Position::new(0, 0));

    // One tile sideways onto a free tile: accepted.
    let r3 = movement_system(&mover, &mut pos_c, &mut col_c, Position::new(1, 0));
    assert_eq!(r3, MoveOutcome::Moved);
    assert_eq!(*pos_c.get(&mover).unwrap(), Position::new(1, 0));
}

#[test]
fn harvest_outcomes() {
    let mut pos_c = ComponentManager::<Position>::new();
    let mut solid_c = ComponentManager::<SolidContainer>::new();
    let unit = Entity(1);
    let far_node = Entity(2);
    let empty_node = Entity(3);
    let bare_node = Entity(4);
    pos_c.create_with(&unit, Position::new(0, 0));
    pos_c.create_with(&far_node, Position::new(2, 2));
    pos_c.create_with(&empty_node, Position::new(0, 1));
    pos_c.create_with(&bare_node, Position::new(1, 0));
    solid_c.create_with(&far_node, SolidContainer { iron_count: 9, copper_count: 0 });
    solid_c.create_with(&empty_node, SolidContainer { iron_count: 0, copper_count: 0 });

    // Manhattan distance 4: too far away.
    let r1 = harvest_system(&unit, &mut pos_c, &mut solid_c, &far_node, ResourceKind::Iron);
    assert_eq!(r1, HarvestOutcome::TooFar);
    assert_eq!(solid_c.get(&far_node).unwrap().iron_count, 9);

    // In range but the node has no iron left.
    let r2 = harvest_system(&unit, &mut pos_c, &mut solid_c, &empty_node, ResourceKind::Iron);
    assert_eq!(r2, HarvestOutcome::Empty);

    // In range but the target has no container at all.
    let r3 = harvest_system(&unit, &mut pos_c, &mut solid_c, &bare_node, ResourceKind::Iron);
    assert_eq!(r3, HarvestOutcome::NothingToHarvest);

    // The harvester still holds nothing.
    assert!(solid_c.get(&unit).is_none());
}

#[test]
fn harvest_conserves_total() {
    let mut pos_c = ComponentManager::<Position>::new();
    let mut solid_c = ComponentManager::<SolidContainer>::new();
    let a = Entity(1);
    let b = Entity(2);
    pos_c.create_with(&a, Position::new(0, 0));
    pos_c.create_with(&b, Position::new(0, 1));
    solid_c.create_with(&a, SolidContainer { iron_count: 5, copper_count: 0 });
    solid_c.create_with(&b, SolidContainer { iron_count: 7, copper_count: 0 });

    let r = harvest_system(&a, &mut pos_c, &mut solid_c, &b, ResourceKind::Iron);
    assert_eq!(r, HarvestOutcome::Harvested);
    assert_eq!(solid_c.get(&a).unwrap().iron_count, 6);
    assert_eq!(solid_c.get(&b).unwrap().iron_count, 6);

    // A harvester without a container gets one holding exactly one unit.
    let c = Entity(3);
    pos_c.create_with(&c, Position::new(1, 1));
    let r2 = harvest_system(&c, &mut pos_c, &mut solid_c, &b, ResourceKind::Iron);
    assert_eq!(r2, HarvestOutcome::Harvested);
    assert_eq!(solid_c.get(&c).unwrap().iron_count, 1);
    assert_eq!(solid_c.get(&b).unwrap().iron_count, 5);
}

#[test]
fn hive_created_once() {
    let mut state = game_init();
    assert!(!state.has_hive());
    let mut input = GameInput::default();
    input.create_hive = true;
    state = game_update(state, 100, &input);
    assert!(state.has_hive());
    assert_eq!(state.get_units().len(), 1);
    // A second request changes nothing.
    state = game_update(state, 100, &input);
    assert_eq!(state.get_units().len(), 1);
}

#[test]
fn spawn_rejected_on_occupied_tile() {
    let mut state = game_init();
    let mut input = GameInput::default();
    input.create_hive = true;
    input.create_unit = true;
    // Hive request handles first, so the unit spawns in the same tick.
    state = game_update(state, 100, &input);
    assert_eq!(state.get_units().len(), 2);
    // The spawn tile (0, 1) is now occupied by the first unit.
    let mut again = GameInput::default();
    again.create_unit = true;
    state = game_update(state, 100, &again);
    assert_eq!(state.get_units().len(), 2);
}

#[test]
fn load_program_rejected_far_from_hive() {
    let mut state = game_load();
    let mut input = GameInput::default();
    input.create_unit = true;
    state = game_update(state, 100, &input);
    let unit = Entity(4);
    // The iron node at (10, 5) is outside command range; the unit at (0, 1)
    // is inside it. Loading into an entity without a memory also does
    // nothing.
    let iron = Entity(2);
    let mut load = GameInput::default();
    load.user_commands.push(UserCommand::LoadProgram(
        iron,
        vec![Command::Harvest(unit)],
    ));
    state = game_update(state, 100, &load);
    // The iron node never executes anything: its counts stay put.
    for _ in 0..5 {
        state = game_update(state, 100, &GameInput::default());
    }
    assert_eq!(state.get_mineable_count(&iron), Some(2));
}

#[test]
fn program_counter_wraps_in_order() {
    let mut state = game_init();
    let mut input = GameInput::default();
    input.create_hive = true;
    input.create_unit = true;
    state = game_update(state, 100, &input);
    let unit = Entity(2);
    assert_eq!(state.get_entity_position(&unit), Position::new(0, 1));

    let program = vec![
        Command::MoveP(Position::new(0, 2)),
        Command::MoveP(Position::new(1, 2)),
        Command::MoveP(Position::new(1, 1)),
    ];
    let mut load = GameInput::default();
    load.user_commands.push(UserCommand::LoadProgram(unit, program));
    // The load tick already executes instruction 0.
    state = game_update(state, 100, &load);
    assert_eq!(state.get_entity_position(&unit), Position::new(0, 2));

    // Each MoveP completes in one tick, so the instructions keep running in
    // order 1, 2, 0, 1, 2, 0 over the following ticks. The wrapped-around
    // first command is rejected as too fast from (1, 1), which leaves the
    // unit in place but still advances the counter.
    let expected = [
        Position::new(1, 2),
        Position::new(1, 1),
        Position::new(1, 1),
        Position::new(1, 2),
        Position::new(1, 1),
        Position::new(1, 1),
    ];
    for want in expected.iter() {
        state = game_update(state, 100, &GameInput::default());
        assert_eq!(state.get_entity_position(&unit), *want);
    }
}

#[test]
fn full_harvest_round_trip() {
    // The pre-built level: hive at (0, 0), an iron node with 2 units at
    // (10, 5). A unit spawns at (0, 1), walks to the node, harvests one
    // unit, walks back and deposits it in the hive.
    let mut state = game_load();
    let hive = Entity(1);
    let iron = Entity(2);
    assert_eq!(state.get_mineable_count(&iron), Some(2));
    assert_eq!(state.get_mineable_count(&hive), Some(0));

    let mut input = GameInput::default();
    input.create_unit = true;
    state = game_update(state, 100, &input);
    let unit = Entity(4);
    assert_eq!(state.get_entity_position(&unit), Position::new(0, 1));

    let program = vec![
        Command::MoveD(Position::new(10, 5)),
        Command::Harvest(iron),
        Command::MoveD(Position::new(0, 0)),
        Command::Deposit(hive),
    ];
    let mut load = GameInput::default();
    load.user_commands.push(UserCommand::LoadProgram(unit, program));
    state = game_update(state, 100, &load);

    let idle = GameInput::default();
    let mut deposited = false;
    for _ in 0..4000 {
        state = game_update(state, 100, &idle);
        if state.get_mineable_count(&hive) == Some(1) {
            deposited = true;
            break;
        }
    }
    assert!(deposited, "the unit never deposited its iron at the hive");
    assert_eq!(state.get_mineable_count(&iron), Some(1));
    let back = state.get_entity_position(&unit);
    assert_eq!(back.get_x(), 0);
    assert_eq!(back.get_y(), 0);
}

#[test]
fn program_builders() {
    let path = hivesim::utils::generate_path((0, 0), (2, 0));
    let prog = hivesim::game_state::generate_pathing_program(&path);
    assert_eq!(
        prog,
        vec![
            Command::MoveP(Position::new(1, 0)),
            Command::MoveP(Position::new(2, 0)),
        ]
    );

    let target = Entity(9);
    let round_trip = hivesim::game_state::program_harvest_unit(
        &Entity(4),
        &target,
        &Position::new(10, 5),
    );
    assert_eq!(
        round_trip,
        vec![
            Command::MoveD(Position::new(10, 5)),
            Command::Harvest(target),
            Command::MoveD(Position::new(0, 0)),
            Command::Deposit(Entity(1)),
        ]
    );
}

#[test]
fn state_dump_lists_every_entity() {
    let state = game_load();
    let dump = state.string();
    let expected = "Entity: 1\n\t P: 0, 0\n\t I: 0\nEntity: 2\n\t P: 1000, 500\n\t I: 2\nEntity: 3\n\t P: 500, 1000\n\t I: 900\n";
    assert_eq!(dump, expected);
}

#[test]
fn query_surface_lists_components() {
    let mut state = game_load();
    assert_eq!(state.get_mineable_nodes(), vec![Entity(1), Entity(2), Entity(3)]);
    assert_eq!(state.get_programable_units().len(), 0);
    let mut input = GameInput::default();
    input.create_unit = true;
    state = game_update(state, 100, &input);
    assert_eq!(state.get_programable_units(), vec![Entity(4)]);
    assert_eq!(state.get_units().len(), 4);
}
