use lumina::ecs::{chunk_range, ComponentManager, Query, Scene, Stage};
use lumina::object::{
    create_component_id, delete_component_id, ComponentIds, Entity, GameObject, GameObjectIds,
    SystemGroup,
};

const TRANSFORM: u64 = 1;
const LIGHT: u64 = 2;

#[test]
fn game_object_ids_are_fresh() {
    let mut ids = GameObjectIds::new();
    let a = GameObject::create_game_object(&mut ids);
    let b = GameObject::create_game_object(&mut ids);
    assert_ne!(a.get_id(), b.get_id());
    let c = GameObject::create_game_object_with_id(7, &mut ids);
    assert_eq!(c.get_id(), 7);
    assert_eq!(GameObject::new(9).get_id(), 9);
}

#[test]
fn component_ids_come_and_go() {
    let mut reg = ComponentIds::new();
    let a = create_component_id(&mut reg);
    let b = create_component_id(&mut reg);
    assert_ne!(a, b);
    delete_component_id(&mut reg, a);
    let c = create_component_id(&mut reg);
    assert_ne!(c, b);
}

#[test]
fn entities_hold_one_component_per_kind() {
    let mut e: Entity<&str> = Entity::new();
    e.add_component(TRANSFORM, "t1");
    e.add_component(TRANSFORM, "t2");
    assert!(e.has_component(TRANSFORM));
    assert_eq!(e.get_component(TRANSFORM), Some(&"t2"));
    assert_eq!(e.get_components(TRANSFORM), vec![&"t2"]);
    assert!(e.get_components(LIGHT).is_empty());
    assert_eq!(e.remove_component(TRANSFORM), Some("t2"));
    assert!(!e.has_component(TRANSFORM));
}

#[test]
fn query_spawns_pushes_and_kills() {
    let mut ids = GameObjectIds::new();
    let mut q: Query<&str> = Query::new();
    let g = q.spawn(&mut ids, TRANSFORM, "origin");
    q.push(&g, LIGHT, "lamp");
    let e = q.query_entity(&g).unwrap();
    assert_eq!(e.get_component(TRANSFORM), Some(&"origin"));
    assert_eq!(e.get_component(LIGHT), Some(&"lamp"));
    let h = q.spawn_with_id(42, &mut ids);
    assert_eq!(h.get_id(), 42);
    assert!(!q.query_entity(&h).unwrap().has_component(TRANSFORM));
    q.kill(&g);
    assert!(q.query_entity(&g).is_none());
}

#[test]
fn live_ids_skip_the_dead_and_repeats() {
    let mut ids = GameObjectIds::new();
    let mut q: Query<&str> = Query::new();
    let a = q.spawn_with_id(5, &mut ids);
    let _b = q.spawn_with_id(3, &mut ids);
    let _c = q.spawn_with_id(5, &mut ids);
    let d = q.spawn_with_id(9, &mut ids);
    q.kill(&d);
    assert_eq!(q.live_ids(), vec![5, 3]);
    q.kill(&a);
    assert_eq!(q.live_ids(), vec![3]);
}

#[test]
fn component_manager_queries() {
    let mut ids = GameObjectIds::new();
    let mut component_ids = ComponentIds::new();
    let mut m: ComponentManager<&str> = ComponentManager::new();
    let g = m.spawn(&mut ids, TRANSFORM, "t");
    m.push(&g, LIGHT, "l");
    assert_eq!(m.query(&g, LIGHT), Some(&"l"));
    assert_eq!(m.query_all(&g, LIGHT), vec![&"l"]);
    let id = create_component_id(&mut component_ids);
    let other = GameObject::new(id);
    assert!(m.query_entity(&other).is_none());
    assert!(m.query_all(&other, LIGHT).is_empty());
    m.kill(&other, &mut component_ids);
    assert!(m.query_entity(&g).is_some());
}

#[test]
fn scene_and_stage() {
    let mut ids = GameObjectIds::new();
    let mut s: Scene<u8> = Scene::new();
    let g = s.spawn(&mut ids, TRANSFORM, 1);
    s.push(&g, LIGHT, 2);
    assert_eq!(s.query(&g, LIGHT), Some(&2));
    assert_eq!(s.query_all(&g, TRANSFORM), vec![&1]);
    s.kill(&g);
    assert_eq!(s.query(&g, LIGHT), None);
    let stage: Stage<u8> = Stage::new("main");
    assert_eq!(stage.name, "main");
}

#[test]
fn groups_hold_members() {
    let mut group: SystemGroup<u8> = SystemGroup::new();
    group.add_member(3, Entity::new());
    group.remove_member(3);
    group.remove_member(4);
}

#[test]
fn work_is_split_without_gaps() {
    assert_eq!(chunk_range(0, 10, 3), (0, 3));
    assert_eq!(chunk_range(1, 10, 3), (3, 6));
    assert_eq!(chunk_range(2, 10, 3), (6, 10));
    assert_eq!(chunk_range(0, 2, 4), (0, 0));
    assert_eq!(chunk_range(3, 2, 4), (1, 2));
}

#[test]
fn components_change_in_place() {
    let mut ids = GameObjectIds::new();
    let mut m: ComponentManager<u32> = ComponentManager::new();
    let g = m.spawn(&mut ids, TRANSFORM, 10);
    if let Some(t) = m.query_mut(&g, TRANSFORM) {
        *t += 5;
    }
    assert_eq!(m.query(&g, TRANSFORM), Some(&15));
    assert!(m.query_mut(&g, LIGHT).is_none());
    let mut s: Scene<u32> = Scene::new();
    let h = s.spawn(&mut ids, TRANSFORM, 1);
    assert_ne!(g.get_id(), h.get_id());
    *s.query_mut(&h, TRANSFORM).unwrap() = 7;
    assert_eq!(s.query(&h, TRANSFORM), Some(&7));
    let mut e: Entity<u32> = Entity::new();
    e.add_component(LIGHT, 2);
    *e.get_mut_component(LIGHT).unwrap() *= 3;
    assert_eq!(e.get_component(LIGHT), Some(&6));
}

#[test]
fn duplicates_keep_the_id() {
    let g = GameObject::new(12);
    assert_eq!(g.duplicate().get_id(), 12);
}

#[test]
fn stages_share_one_registry() {
    let mut ids = GameObjectIds::new();
    let mut first: Stage<u8> = Stage::new("one");
    let mut second: Stage<u8> = Stage::new("two");
    let a = first.manager.spawn(&mut ids, TRANSFORM, 0);
    let b = second.manager.spawn(&mut ids, TRANSFORM, 0);
    assert_ne!(a.get_id(), b.get_id());
    assert_eq!(first.manager.live_ids(), vec![a.get_id()]);
    assert_eq!(second.manager.live_ids(), vec![b.get_id()]);
}
