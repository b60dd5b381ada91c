use hivesim::entity_manager::{Entity, EntityManager};

#[test]
fn entitys() {
    let p = Entity(20);
    assert_eq!(p.0, 20);
}

#[test]
fn entity_manager() {
    let p = EntityManager::new();
    assert_eq!(p.peek_next_id(), 1);
}

#[test]
fn entity_create() {
    let mut p = EntityManager::new();
    let new_e = p.create();
    let new_f = p.create();
    assert_ne!(new_e, new_f);
}

#[test]
fn base_entity_manager() {
    let p = EntityManager::new();
    assert_eq!(p.count(), 0);
}

#[test]
fn first_entity_has_id_one() {
    let mut p = EntityManager::new();
    let e = p.create();
    assert_eq!(e.0, 1);
}

#[test]
fn count_reflects_total_created() {
    let mut p = EntityManager::new();
    for i in 1..=5u64 {
        let e = p.create();
        assert_eq!(e.0, i);
        assert_eq!(p.count(), i as usize);
    }
    let units = p.units();
    assert_eq!(units.len(), 5);
    assert_eq!(units[0], Entity(1));
    assert_eq!(units[4], Entity(5));
}
