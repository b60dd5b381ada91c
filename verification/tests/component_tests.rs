use hivesim::components::ComponentManager;
use hivesim::entity_manager::{Entity, EntityManager};
use hivesim::game_state::SolidContainer;
use hivesim::position::Position;

#[test]
fn components() {
    let position_component_manager = ComponentManager::<Position>::new();
    let mut p = EntityManager::new();
    let new_e = p.create();
    assert_eq!(new_e.0, 1);

    assert_eq!(position_component_manager.contains(&new_e), false);
}

#[test]
fn components_create() {
    let mut position_component_manager = ComponentManager::<Position>::new();
    let mut p = EntityManager::new();
    let new_e = p.create();
    assert_eq!(new_e.0, 1);

    position_component_manager.create_with(&new_e, Position::new(10, 20));
    assert_eq!(position_component_manager.contains(&new_e), true);

    match position_component_manager.index_of(&new_e) {
        Some(t) => assert_eq!(t, 0 as usize),
        None => assert_eq!(true, false),
    };

    assert_eq!(position_component_manager.contains(&new_e), true);

    let pos = match position_component_manager.get(&new_e) {
        Some(t) => t,
        _ => panic!("Failed to get item"),
    };
    assert_eq!(pos.get_x(), 10);
    assert_eq!(pos.get_y(), 20);
}

#[test]
fn component_remove() {
    let mut position_component_manager = ComponentManager::<Position>::new();
    let mut p = EntityManager::new();
    let new_e = p.create();

    position_component_manager.create_with(&new_e, Position::new(10, 20));

    position_component_manager.remove(&new_e);
    assert_eq!(position_component_manager.contains(&new_e), false);
    assert_eq!(position_component_manager.len(), 0);
}

#[test]
fn component_remove_keeps_other_lookups() {
    // Swap-removal regression: removing one entity's component moves the
    // last component into the vacated slot, and the moved owner's lookup
    // entry must follow it.
    let mut containers = ComponentManager::<SolidContainer>::new();
    let mut em = EntityManager::new();
    let a = em.create();
    let b = em.create();
    let c = em.create();
    containers.create_with(&a, SolidContainer { iron_count: 1, copper_count: 10 });
    containers.create_with(&b, SolidContainer { iron_count: 2, copper_count: 20 });
    containers.create_with(&c, SolidContainer { iron_count: 3, copper_count: 30 });

    containers.remove(&a);

    assert_eq!(containers.contains(&a), false);
    assert_eq!(containers.len(), 2);
    let cb = containers.get(&b).expect("b's component must survive the removal");
    assert_eq!(cb.iron_count, 2);
    assert_eq!(cb.copper_count, 20);
    let cc = containers.get(&c).expect("c's component must survive the removal");
    assert_eq!(cc.iron_count, 3);
    assert_eq!(cc.copper_count, 30);

    // Mutation after the removal must land on the right component.
    containers.set(&c, SolidContainer { iron_count: 33, copper_count: 30 });
    assert_eq!(containers.get(&b).unwrap().iron_count, 2);
    assert_eq!(containers.get(&c).unwrap().iron_count, 33);
}

#[test]
fn component_get_and_set_roundtrip() {
    let mut containers = ComponentManager::<SolidContainer>::new();
    let e = Entity(7);
    assert_eq!(containers.contains(&e), false);
    containers.create_with(&e, SolidContainer { iron_count: 5, copper_count: 6 });
    assert_eq!(containers.contains(&e), true);
    let c = containers.get(&e).unwrap();
    assert_eq!(c.iron_count, 5);
    assert_eq!(c.copper_count, 6);
    containers.set(&e, SolidContainer { iron_count: 8, copper_count: 9 });
    let c2 = containers.get(&e).unwrap();
    assert_eq!(c2.iron_count, 8);
    assert_eq!(c2.copper_count, 9);
}
