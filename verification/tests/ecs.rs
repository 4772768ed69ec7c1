use steven::ecs::{ComponentMem, Filter, Key, Manager};

fn process_all(m: &mut Manager) -> Vec<(bool, Vec<usize>)> {
    let mut out = Vec::new();
    for e in m.take_changes() {
        let ch = m.begin_change(e);
        let dropped = ch.dropped_components(m.component_slot_count());
        out.push((ch.is_removed(), dropped));
        m.finish_change(&ch);
    }
    out
}

#[test]
fn manager_starts_with_the_world_entity() {
    let m = Manager::new();
    let world = m.get_world();
    assert!(m.is_entity_valid(world));
    assert!(m.find(&Filter::new()).is_empty());
}

#[test]
fn created_entities_are_found_in_slot_order() {
    let mut m = Manager::new();
    let a = m.create_entity();
    let b = m.create_entity();
    assert_ne!(a, b);
    assert!(m.is_entity_valid(a));
    assert!(m.is_entity_valid(b));
    assert_eq!(m.find(&Filter::new()), vec![a, b]);
}

#[test]
fn filters_find_entities_with_their_components() {
    let mut m = Manager::new();
    let a = m.create_entity();
    let b = m.create_entity();
    let pos: Key<(i32, i32)> = Key::new(0);
    let name: Key<String> = Key::new(1);
    m.add_component(a, pos);
    m.add_component(b, pos);
    m.add_component(b, name);
    assert_eq!(m.find(&Filter::new().with(pos)), vec![a, b]);
    assert_eq!(m.find(&Filter::new().with(name)), vec![b]);
    assert_eq!(m.find(&Filter::new().with(pos).with(name)), vec![b]);
    let changes = process_all(&mut m);
    assert_eq!(changes.len(), 2);
    assert!(changes.iter().all(|(removed, dropped)| !removed && dropped.is_empty()));
    assert_eq!(m.find(&Filter::new().with(name)), vec![b]);
}

#[test]
fn removed_component_values_are_dropped_when_processed() {
    let mut m = Manager::new();
    let a = m.create_entity();
    let pos: Key<u8> = Key::new(0);
    let vel: Key<u8> = Key::new(1);
    m.add_component(a, pos);
    m.add_component(a, vel);
    process_all(&mut m);
    assert!(m.remove_component(a, vel));
    assert_eq!(m.find(&Filter::new().with(vel)), vec![]);
    assert!(!m.remove_component(a, Key::<u8>::new(5)));
    let changes = process_all(&mut m);
    assert_eq!(changes, vec![(false, vec![1])]);
    assert!(!m.remove_component(a, vel));
    assert_eq!(m.find(&Filter::new().with(vel)), vec![]);
    assert_eq!(m.find(&Filter::new().with(pos)), vec![a]);
}

#[test]
fn removed_entities_free_their_slot_for_the_next_generation() {
    let mut m = Manager::new();
    let a = m.create_entity();
    let b = m.create_entity();
    let pos: Key<u8> = Key::new(0);
    m.add_component(a, pos);
    process_all(&mut m);
    m.remove_entity(a);
    assert!(m.is_entity_valid(a));
    assert_eq!(m.find(&Filter::new()), vec![b]);
    let changes = process_all(&mut m);
    assert_eq!(changes, vec![(true, vec![0])]);
    assert!(!m.is_entity_valid(a));
    let c = m.create_entity();
    assert_ne!(c, a);
    assert!(m.is_entity_valid(c));
    assert!(!m.is_entity_valid(a));
    assert_eq!(m.find(&Filter::new()), vec![c, b]);
    let d = m.create_entity();
    assert_eq!(m.find(&Filter::new()), vec![c, b, d]);
}

#[test]
fn systems_gain_and_lose_entities_as_components_change() {
    let mut m = Manager::new();
    let a = m.create_entity();
    let pos: Key<u8> = Key::new(0);
    let vel: Key<u8> = Key::new(1);
    let moving = Filter::new().with(pos).with(vel);
    m.add_component(a, pos);
    let e = m.take_changes()[0];
    let ch = m.begin_change(e);
    assert!(!ch.added_for(&moving));
    assert!(ch.added_for(&Filter::new().with(pos)));
    m.finish_change(&ch);
    m.add_component(a, vel);
    let e = m.take_changes()[0];
    let ch = m.begin_change(e);
    assert!(ch.added_for(&moving));
    assert!(!ch.removed_for(&moving));
    m.finish_change(&ch);
    assert!(m.remove_component(a, pos));
    let e = m.take_changes()[0];
    let ch = m.begin_change(e);
    assert!(ch.removed_for(&moving));
    assert_eq!(m.find(&moving), vec![a]);
    m.finish_change(&ch);
    assert_eq!(m.find(&moving), vec![]);
}

#[test]
fn component_storage_keeps_values_by_slot() {
    let mut mem: ComponentMem<String> = ComponentMem::new();
    mem.add(0, "zero".to_string());
    mem.add(70, "seventy".to_string());
    mem.add(130, "one-thirty".to_string());
    assert_eq!(mem.get(0), "zero");
    assert_eq!(mem.get(70), "seventy");
    mem.get_mut(70).push('!');
    assert_eq!(mem.get(70), "seventy!");
    mem.remove(70);
    mem.add(70, "again".to_string());
    assert_eq!(mem.get(70), "again");
    mem.remove(0);
    assert_eq!(mem.get(130), "one-thirty");
}

#[test]
fn get_component_follows_adds_and_removes() {
    let mut m = Manager::new();
    let a = m.create_entity();
    let b = m.create_entity();
    let pos: Key<u8> = Key::new(0);
    let mut mem: ComponentMem<u8> = ComponentMem::new();
    assert_eq!(m.get_component(a, pos, &mem), None);
    m.add_component(a, pos);
    mem.add(1, 7);
    process_all(&mut m);
    assert_eq!(m.get_component(a, pos, &mem), Some(&7));
    assert_eq!(m.get_component(b, pos, &mem), None);
    assert_eq!(m.get_component(a, Key::<u8>::new(3), &mem), None);
    assert!(m.remove_component(a, pos));
    assert_eq!(m.get_component(a, pos, &mem), None);
    assert_eq!(m.find(&Filter::new().with(pos)), vec![]);
}
