use citybuilder_ecs::ecs::{ComponentPool, EntIt, Mut, SystemRegistry, World};
use citybuilder_ecs::examples::{Health, HEALTH_COMPONENT};
use citybuilder_ecs::grid::{GridInputSystem, GridMovementSystem};
use citybuilder_ecs::schedule::DependencyError;

#[test]
fn main_test_dummy_test() {
    assert_eq!(2 + 2, 4);
}

#[test]
fn main_test_test_entity_creation() {
    let mut world: World<Health> = World::new();
    let entity1 = world.create_entity();
    let entity2 = world.create_entity();

    assert_eq!(entity1, 0);
    assert_eq!(entity2, 1);
}

#[test]
fn system_dependency_test_test_circular_dependency_detection() {
    let mut world: World<Health> = World::new();

    world
        .add_single_iterator_system_with_dependencies("system_a", "system_a", vec!["system_b"])
        .unwrap();

    let result =
        world.add_single_iterator_system_with_dependencies("system_b", "system_b", vec!["system_a"]);

    assert!(result.is_err());
    if let Err(DependencyError::CircularDependency(cycle)) = result {
        assert!(cycle.contains(&"system_a"));
        assert!(cycle.contains(&"system_b"));
    } else {
        panic!("Expected circular dependency error, got: {:?}", result);
    }
}

#[test]
fn test_unknown_dependency() {
    let mut world: World<Health> = World::new();

    world
        .add_single_iterator_system_with_dependencies("system_a", "system_a", vec!["unknown_system"])
        .unwrap();

    let result = world.finalize_systems();

    assert!(result.is_err());
    if let Err(DependencyError::UnknownSystemDependency(dep)) = result {
        assert_eq!(dep, "unknown_system");
    } else {
        panic!("Expected unknown dependency error, got: {:?}", result);
    }
}

#[test]
fn test_system_dependencies_query() {
    let mut world: World<Health> = World::new();

    world.add_single_iterator_system_with_dependencies("time_system", "time_system", vec![]).unwrap();

    world.add_single_iterator_system_with_dependencies("input_system", "input_system", vec![]).unwrap();

    world
        .add_single_iterator_system_with_dependencies(
            "dependent_system",
            "dependent_system",
            vec!["time_system", "input_system"],
        )
        .unwrap();

    let deps = world.get_system_dependencies("dependent_system");
    assert!(deps.is_some());
    let deps = deps.unwrap();
    assert_eq!(deps.len(), 2);
    assert!(deps.contains(&"time_system"));
    assert!(deps.contains(&"input_system"));
}

#[test]
fn execution_order_puts_dependencies_first() {
    let mut world: World<Health> = World::new();
    world.add_single_iterator_system_with_dependencies("D", "system_d", vec!["system_b", "system_c"]).unwrap();
    world.add_single_iterator_system_with_dependencies("B", "system_b", vec!["system_a"]).unwrap();
    world.add_single_iterator_system_with_dependencies("C", "system_c", vec!["system_a"]).unwrap();
    world.add_single_iterator_system_with_dependencies("A", "system_a", vec![]).unwrap();
    assert!(world.finalize_systems().is_ok());
    assert_eq!(world.system_count(), 4);

    let order = world.get_system_execution_order();
    assert_eq!(order.len(), 4);
    let pos = |id: &str| order.iter().position(|s| *s == id).unwrap();
    assert_eq!(order[0], "system_a");
    assert_eq!(order[3], "system_d");
    assert!(pos("system_b") < pos("system_d"));
    assert!(pos("system_c") < pos("system_d"));
}

#[test]
fn duplicate_and_self_dependencies_are_refused() {
    let mut world: World<Health> = World::new();
    world.add_single_iterator_system_with_dependencies("A", "system_a", vec![]).unwrap();
    match world.add_single_iterator_system_with_dependencies("A again", "system_a", vec![]) {
        Err(DependencyError::DuplicateSystem(id)) => assert_eq!(id, "system_a"),
        other => panic!("unexpected {:?}", other),
    }
    match world.add_single_iterator_system_with_dependencies("Loop", "system_loop", vec!["system_loop"]) {
        Err(DependencyError::CircularDependency(cycle)) => assert_eq!(cycle, vec!["system_loop", "system_loop"]),
        other => panic!("unexpected {:?}", other),
    }
    assert_eq!(world.system_count(), 1);
    assert_eq!(world.get_system_execution_order(), vec!["system_a"]);
    assert!(world.get_system_dependencies("system_loop").is_none());
}

#[test]
fn longer_cycles_are_found() {
    let mut world: World<Health> = World::new();
    world.add_single_iterator_system_with_dependencies("A", "a", vec!["b"]).unwrap();
    world.add_single_iterator_system_with_dependencies("B", "b", vec!["c"]).unwrap();
    match world.add_single_iterator_system_with_dependencies("C", "c", vec!["d", "a"]) {
        Err(DependencyError::CircularDependency(cycle)) => assert_eq!(cycle, vec!["c", "a"]),
        other => panic!("unexpected {:?}", other),
    }
    assert_eq!(world.system_count(), 2);
}

#[test]
fn components_are_read_back_and_removed() {
    let mut world: World<Health> = World::new();
    let e = world.create_entity();
    assert!(!world.has_component(e, HEALTH_COMPONENT));
    assert!(world.get_component(e, HEALTH_COMPONENT).is_none());

    world.add_component(e, HEALTH_COMPONENT, Health::new(10));
    assert!(world.has_component(e, HEALTH_COMPONENT));
    assert_eq!(world.get_component(e, HEALTH_COMPONENT).unwrap().current, 10);

    world.get_component_mut(e, HEALTH_COMPONENT).unwrap().damage(3);
    assert_eq!(world.get_component(e, HEALTH_COMPONENT).unwrap().current, 7);

    world.add_component(e, HEALTH_COMPONENT, Health::new(20));
    assert_eq!(world.get_component(e, HEALTH_COMPONENT).unwrap().max, 20);

    assert!(world.remove_component(e, HEALTH_COMPONENT));
    assert!(!world.has_component(e, HEALTH_COMPONENT));
    assert!(!world.remove_component(e, HEALTH_COMPONENT));
    assert!(world.get_component_mut(e, HEALTH_COMPONENT).is_none());
}

#[test]
fn queries_keep_creation_order() {
    let mut world: World<u32> = World::new();
    let a = world.create_entity();
    let b = world.create_entity();
    let c = world.create_entity();
    world.add_component(a, 1, 10);
    world.add_component(c, 1, 30);
    world.add_component(c, 2, 31);
    world.add_component(b, 2, 21);

    assert_eq!(world.entities_with_components(&[1]), vec![a, c]);
    assert_eq!(world.entities_with_components(&[1, 2]), vec![c]);
    assert_eq!(world.entities_with_components(&[]), vec![a, b, c]);
    assert_eq!(world.entities_with_components(&[3]), Vec::<u32>::new());
    assert_eq!(world.get_all_entities(), &vec![a, b, c]);
}

#[test]
fn iterators_walk_matching_entities() {
    let mut world: World<Health> = World::new();
    let a = world.create_entity();
    let b = world.create_entity();
    world.add_component(a, HEALTH_COMPONENT, Health::new(1));
    world.add_component(b, HEALTH_COMPONENT, Health::new(2));

    let mut it: EntIt<(Mut<Health>, Health)> = world.iter_entities::<Mut<Health>, Health>();
    assert_eq!(it.remaining_count(), 2);
    assert_eq!(it.next(), Some(a));
    assert_eq!(it.next(), Some(b));
    assert_eq!(it.next(), None);
    assert_eq!(it.next(), None);

    let it2 = world.iter_entities_2::<Health, Mut<Health>>();
    assert_eq!(it2.remaining_count(), 2);
    let _marker = Mut::<Health>::inner_type();
    let it1 = world.iter_entities_1::<Health>();
    assert_eq!(it1.remaining_count(), 2);
    let it3 = world.iter_entities_3::<Health, Health, Mut<Health>>();
    assert_eq!(it3.remaining_count(), 2);
    let it4 = world.iter_entities_4::<Health, Health, Health, Health>();
    assert_eq!(it4.remaining_count(), 2);
}

#[test]
fn component_pool_basics() {
    let mut pool: ComponentPool<&str> = ComponentPool::new();
    pool.insert(3, "three");
    pool.insert(5, "five");
    assert!(pool.contains(3));
    assert_eq!(pool.get(5), Some(&"five"));
    *pool.get_mut(5).unwrap() = "FIVE";
    assert_eq!(pool.get(5), Some(&"FIVE"));
    let mut ids = pool.entities();
    ids.sort();
    assert_eq!(ids, vec![3, 5]);
    assert_eq!(pool.remove(3), Some("three"));
    assert!(!pool.contains(3));
    assert_eq!(pool.remove(3), None);
}

#[test]
fn registry_runs_systems_after_their_dependencies() {
    let world: World<Health> = World::new();
    let mut registry = SystemRegistry::new();
    registry.register_system("GridMovementSystem", GridMovementSystem);
    registry.register_system("GridInputSystem", GridInputSystem);
    let names = registry.execute_systems(&world).unwrap();
    assert_eq!(names, vec!["GridInputSystem".to_string(), "GridMovementSystem".to_string()]);
}

#[test]
fn registry_keeps_registration_order_when_it_is_already_valid() {
    let world: World<Health> = World::new();
    let mut registry = SystemRegistry::new();
    registry.register_system("GridInputSystem", GridInputSystem);
    registry.register_system("GridMovementSystem", GridMovementSystem);
    registry.register_system("Unrelated", GridInputSystem);
    let names = registry.execute_systems(&world).unwrap();
    assert_eq!(
        names,
        vec!["GridInputSystem".to_string(), "GridMovementSystem".to_string(), "Unrelated".to_string()]
    );
}

#[test]
fn registry_refuses_a_dependency_cycle() {
    let world: World<Health> = World::new();
    let mut registry = SystemRegistry::new();
    // Registered under the very name it depends on.
    registry.register_system("GridInputSystem", GridMovementSystem);
    assert_eq!(registry.execute_systems(&world), Err("Circular dependency between systems".to_string()));
}

#[test]
fn iterators_hand_out_components() {
    let mut world: World<Health> = World::new();
    let a = world.create_entity();
    let _b = world.create_entity();
    let c = world.create_entity();
    world.add_component(a, HEALTH_COMPONENT, Health::new(10));
    world.add_component(c, HEALTH_COMPONENT, Health::new(30));

    let mut it = world.iter_entities::<Health, Mut<Health>>();
    let (e, first, second) = it.next_components(&world).unwrap();
    assert_eq!(e, a);
    assert_eq!(first.max, 10);
    assert_eq!(second.max, 10);
    let (e, first, _) = it.next_components(&world).unwrap();
    assert_eq!(e, c);
    assert_eq!(first.max, 30);
    assert!(it.next_components(&world).is_none());
}

#[test]
fn mutable_queries_hand_out_components_to_change() {
    let mut world: World<Health> = World::new();
    let a = world.create_entity();
    let b = world.create_entity();
    world.add_component(a, HEALTH_COMPONENT, Health::new(10));
    world.add_component(b, HEALTH_COMPONENT, Health::new(30));

    let mut it = world.iter_entities::<Mut<Health>, Health>();
    while let Some((_, health)) = it.next_component_mut(&mut world) {
        health.current = health.current - 5;
    }
    assert!(it.next_component_mut(&mut world).is_none());
    assert_eq!(world.get_component(a, HEALTH_COMPONENT).unwrap().current, 5);
    assert_eq!(world.get_component(b, HEALTH_COMPONENT).unwrap().current, 25);
}
