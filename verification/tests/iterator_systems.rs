use citybuilder_ecs::ecs::{Mut, World};
use citybuilder_ecs::game::{
    GameComponent, GridComponent, ObstacleComponent, PlayerComponent, GAME_GRID_COMPONENT,
    GAME_OBSTACLE_COMPONENT, GAME_PLAYER_COMPONENT,
};

/// Two entities with a player and an obstacle component (the second also
/// with a grid), and one with a grid and an obstacle.
fn create_test_world() -> World<GameComponent> {
    let mut world = World::new();
    let e1 = world.create_entity();
    world.add_component(e1, GAME_PLAYER_COMPONENT, GameComponent::Player(PlayerComponent::new(10, 20)));
    world.add_component(e1, GAME_OBSTACLE_COMPONENT, GameComponent::Obstacle(ObstacleComponent::new(1, -1)));
    let e2 = world.create_entity();
    world.add_component(e2, GAME_PLAYER_COMPONENT, GameComponent::Player(PlayerComponent::new(5, 15)));
    world.add_component(e2, GAME_OBSTACLE_COMPONENT, GameComponent::Obstacle(ObstacleComponent::new(-1, 2)));
    world.add_component(e2, GAME_GRID_COMPONENT, GameComponent::Grid(GridComponent::new(16, 16)));
    let e3 = world.create_entity();
    world.add_component(e3, GAME_GRID_COMPONENT, GameComponent::Grid(GridComponent::new(16, 16)));
    world.add_component(e3, GAME_OBSTACLE_COMPONENT, GameComponent::Obstacle(ObstacleComponent::new(0, 0)));
    world
}

/// A system over one query: counts the matched entities.
fn movement_system(world: &World<GameComponent>) -> usize {
    let mut it = world.iter_entities::<PlayerComponent, Mut<ObstacleComponent>>();
    let mut n = 0;
    while it.next_components(world).is_some() {
        n += 1;
    }
    n
}

/// A system over two queries.
fn physics_dual_system(world: &World<GameComponent>) -> (usize, usize) {
    let movement = world.iter_entities::<PlayerComponent, Mut<ObstacleComponent>>();
    let physics = world.iter_entities::<GridComponent, ObstacleComponent>();
    (movement.remaining_count(), physics.remaining_count())
}

/// A system over three queries.
fn complex_system(world: &World<GameComponent>) -> (usize, usize, usize) {
    let a = world.iter_entities::<PlayerComponent, ObstacleComponent>();
    let b = world.iter_entities::<GridComponent, ObstacleComponent>();
    let c = world.iter_entities::<PlayerComponent, GridComponent>();
    (a.remaining_count(), b.remaining_count(), c.remaining_count())
}

fn register(world: &mut World<GameComponent>, name: &'static str) {
    world.add_single_iterator_system_with_dependencies(name, name, Vec::new()).unwrap();
}

#[test]
fn test_single_iterator_system() {
    let mut world = create_test_world();
    register(&mut world, "TestMovementSystem");
    assert_eq!(movement_system(&world), 2);
    assert_eq!(world.system_count(), 1);
}

#[test]
fn test_dual_iterator_system() {
    let mut world = create_test_world();
    register(&mut world, "TestPhysicsSystem");
    assert_eq!(physics_dual_system(&world), (2, 2));
    assert_eq!(world.system_count(), 1);
}

#[test]
fn test_triple_iterator_system() {
    let mut world = create_test_world();
    register(&mut world, "TestComplexSystem");
    assert_eq!(complex_system(&world), (2, 2, 1));
    assert_eq!(world.system_count(), 1);
}

#[test]
fn multiple_iterator_systems_test_test_mixed_system_types() {
    let mut world = create_test_world();
    register(&mut world, "Movement");
    register(&mut world, "Physics");
    register(&mut world, "Complex");
    assert_eq!(world.system_count(), 3);
    let order = world.get_system_execution_order();
    assert_eq!(order, vec!["Movement", "Physics", "Complex"]);
    movement_system(&world);
    physics_dual_system(&world);
    complex_system(&world);
}

#[test]
fn test_system_component_type_tracking() {
    let mut world = create_test_world();
    register(&mut world, "PhysicsSystem");
    world.enable_debug_tracking();
    physics_dual_system(&world);
    let history = world.get_debug_history();
    println!("Debug history: {}", history);
}
