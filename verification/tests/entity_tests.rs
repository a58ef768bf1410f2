use game_engine::entity::{EntityManager, Scene};
use game_engine::memory::Handle;
use game_engine::mouse::MouseButtons;
use game_engine::memory::Pool;

type Manager = EntityManager<u32, i32, u8, u16>;

#[test]
fn create_entity_and_count() {
    let mut m: Manager = EntityManager::new(2);
    assert_eq!(m.entity_count(), 0);
    let a = m.create_entity(10).unwrap();
    let b = m.create_entity(20).unwrap();
    assert_eq!(m.create_entity(30), None);
    assert_eq!(m.entity_count(), 2);
    assert_eq!(m.transforms.get(a), Some(&10));
    assert_eq!(m.transforms.get(b), Some(&20));
    assert_eq!(m.entities, vec![a, b]);
}

#[test]
fn create_particle_fills_all_pools() {
    let mut m: Manager = EntityManager::new(1);
    let e = m.create_particle(1, -1, 2, 3).unwrap();
    assert_eq!(m.transforms.get(e), Some(&1));
    assert_eq!(m.velocities.get(e), Some(&-1));
    assert_eq!(m.colors.get(e), Some(&2));
    assert_eq!(m.lifetimes.get(e), Some(&3));
    assert_eq!(m.create_particle(4, 5, 6, 7), None);
    assert_eq!(m.entity_count(), 1);
}

#[test]
fn destroy_entity_swaps_last_in() {
    let mut m: Manager = EntityManager::new(3);
    let a = m.create_particle(1, 1, 1, 1).unwrap();
    let b = m.create_particle(2, 2, 2, 2).unwrap();
    let c = m.create_particle(3, 3, 3, 3).unwrap();
    m.destroy_entity(a);
    assert_eq!(m.entities, vec![c, b]);
    assert_eq!(m.transforms.get(a), None);
    assert_eq!(m.velocities.get(a), None);
    assert_eq!(m.entity_count(), 2);
    // Destroying again changes nothing.
    m.destroy_entity(a);
    assert_eq!(m.entities, vec![c, b]);
    // A stale handle does not reach the slot's next occupant.
    let d = m.create_entity(4).unwrap();
    assert_eq!(d.index, a.index);
    assert_ne!(d, a);
    assert_eq!(m.transforms.get(a), None);
    assert_eq!(m.transforms.get(d), Some(&4));
}

#[test]
fn destroy_unknown_entity_is_harmless() {
    let mut m: Manager = EntityManager::new(2);
    let a = m.create_entity(1).unwrap();
    m.destroy_entity(Handle::new(1, 0));
    m.destroy_entity(Handle::invalid());
    assert_eq!(m.entities, vec![a]);
    assert_eq!(m.transforms.get(a), Some(&1));
}

#[test]
fn scene_clear_removes_everything() {
    let mut scene: Scene<u32, i32, u8, u16> = Scene::new(4);
    let mut hs = Vec::new();
    for i in 0..4u32 {
        hs.push(scene.entities.create_particle(i, i as i32, 0, 0).unwrap());
    }
    scene.clear();
    assert_eq!(scene.entities.entity_count(), 0);
    for h in hs {
        assert_eq!(scene.entities.transforms.get(h), None);
        assert_eq!(scene.entities.lifetimes.get(h), None);
    }
    assert!(scene.entities.create_entity(9).is_some());
}

#[test]
fn mouse_buttons_frames() {
    let mut m = MouseButtons::new();
    m.press_left();
    assert!(m.left_button && m.left_just_pressed);
    m.clear_frame_state();
    assert!(m.left_button && !m.left_just_pressed);
    m.press_left();
    assert!(!m.left_just_pressed);
    m.release_left();
    assert!(!m.left_button && m.left_just_released);
    m.press_right();
    m.release_right();
    assert!(m.right_just_pressed && m.right_just_released && !m.right_button);
    m.clear_frame_state();
    assert_eq!(m, MouseButtons::new());
}

#[test]
fn pool_iter_mut_changes_every_object() {
    let mut pool: Pool<u32> = Pool::new(3);
    pool.allocate(1);
    pool.allocate(2);
    pool.allocate(3);
    pool.free(1);
    let items = pool.iter_mut();
    assert_eq!(items.iter().map(|(i, _)| *i).collect::<Vec<_>>(), vec![0, 2]);
    for (_, v) in items {
        *v *= 10;
    }
    assert_eq!(pool.get(0), Some(&10));
    assert_eq!(pool.get(1), None);
    assert_eq!(pool.get(2), Some(&30));
    assert_eq!(pool.allocate(7), Some(1));
}

#[test]
fn particle_after_plain_entity_keeps_components_on_its_handle() {
    let mut m: Manager = EntityManager::new(2);
    let plain = m.create_entity(1).unwrap();
    let p = m.create_particle(2, 3, 4, 5).unwrap();
    assert_ne!(plain, p);
    assert_eq!(m.transforms.get(p), Some(&2));
    assert_eq!(m.velocities.get(p), Some(&3));
    assert_eq!(m.colors.get(p), Some(&4));
    assert_eq!(m.lifetimes.get(p), Some(&5));
    assert_eq!(m.velocities.get(plain), None);
    assert_eq!(m.colors.get(plain), None);
    m.destroy_entity(p);
    assert_eq!(m.velocities.get(p), None);
    assert_eq!(m.entities, vec![plain]);
}

#[test]
fn generational_insert_places_value_under_handle() {
    let mut pool: game_engine::memory::GenerationalPool<u8> =
        game_engine::memory::GenerationalPool::new(2);
    let h = Handle::new(0, 7);
    assert!(pool.insert(h, 9));
    assert_eq!(pool.get(h), Some(&9));
    assert_eq!(pool.get(Handle::new(0, 0)), None);
    // The slot left the free stack: the next allocation takes the other one.
    let other = pool.allocate(1).unwrap();
    assert_eq!(other.index, 1);
    assert_eq!(pool.allocate(2), None);
    assert!(!pool.insert(Handle::new(5, 0), 1));
}
