use citybuilder_ecs::ecs::{Component, World};
use citybuilder_ecs::grid::{
    GridComponent, GridGameWorld, GridPositionComponent, InputComponent,
    ObstacleComponent, PlayerComponent, RenderComponent, GRID_POSITION_COMPONENT,
    OBSTACLE_COMPONENT, PLAYER_COMPONENT, RENDER_COMPONENT,
};

#[test]
fn test_grid_position_component() {
    let pos = GridPositionComponent { x: 5, y: 10 };
    assert!(pos.validate());

    let invalid_pos = GridPositionComponent { x: -1, y: 5 };
    assert!(!invalid_pos.validate());
}

#[test]
fn test_input_component() {
    let mut input = InputComponent::new();
    assert!(!input.move_up);

    input.move_up = true;
    input.move_right = true;

    input.clear();
    assert!(!input.move_up);
    assert!(!input.move_right);
}

#[test]
fn test_grid_game_world_creation() {
    let mut game = GridGameWorld::new();
    game.initialize_game();

    assert!(game.get_player_position().is_some());

    let pos = game.get_player_position().unwrap();
    assert_eq!(pos, (1, 1));
}

#[test]
fn test_player_movement() {
    let mut game = GridGameWorld::new();
    game.initialize_game();

    assert!(game.move_player(1, 0));
    let pos = game.get_player_position().unwrap();
    assert_eq!(pos, (2, 1));

    assert!(!game.move_player(1, 0));
    let pos = game.get_player_position().unwrap();
    assert_eq!(pos, (2, 1));
}

#[test]
fn test_system_execution() {
    let mut game = GridGameWorld::new();
    game.initialize_game();

    assert!(game.update().is_ok());
}

#[test]
fn test_game_state_rendering() {
    let mut game = GridGameWorld::new();
    game.initialize_game();

    let state = game.get_game_state();
    assert!(state.contains('@'));
    assert!(state.contains('#'));

    let lines: Vec<&str> = state.split('\n').collect();
    assert_eq!(lines.len(), 8);
    assert_eq!(lines[0].len(), 10);
}

#[test]
fn new_game_board_is_drawn_exactly() {
    let mut game = GridGameWorld::new();
    game.initialize_game();
    let expected = [
        "..........",
        ".@.###....",
        "...#...###",
        "...#......",
        "...#......",
        ".###......",
        "..........",
        "..........",
    ]
    .join("\n");
    assert_eq!(game.get_game_state(), expected);
}

#[test]
fn empty_world_draws_an_empty_board() {
    let game = GridGameWorld::new();
    let state = game.get_game_state();
    assert_eq!(state, vec![".........."; 8].join("\n"));
    assert_eq!(game.get_player_position(), None);
}

#[test]
fn moves_stay_on_the_field_and_off_obstacles() {
    let mut game = GridGameWorld::new();
    assert!(!game.move_player(1, 0));
    game.initialize_game();

    assert!(!game.move_player(-2, 0));
    assert!(!game.move_player(0, -2));
    assert!(game.move_player(-1, 0));
    assert_eq!(game.get_player_position(), Some((0, 1)));
    assert!(game.move_player(0, 6));
    assert_eq!(game.get_player_position(), Some((0, 7)));
    assert!(!game.move_player(0, 1));
    assert!(game.move_player(9, 0));
    assert_eq!(game.get_player_position(), Some((9, 7)));
    assert!(!game.move_player(1, 0));
    assert!(!game.move_player(-8, -2));
    assert_eq!(game.get_player_position(), Some((9, 7)));
    assert!(game.move_player(0, 0));
}

#[test]
fn the_board_shows_the_player_over_an_obstacle() {
    let mut game = GridGameWorld::new();
    let e = game.world.create_entity();
    game.world.add_component(e, OBSTACLE_COMPONENT, GridComponent::Obstacle(ObstacleComponent { block_movement: true }));
    game.world.add_component(e, GRID_POSITION_COMPONENT, GridComponent::Position(GridPositionComponent { x: 0, y: 0 }));
    game.world.add_component(e, RENDER_COMPONENT, GridComponent::Render(RenderComponent { symbol: '#', color: "brown".to_string() }));
    let p = game.world.create_entity();
    game.world.add_component(p, PLAYER_COMPONENT, GridComponent::Player(PlayerComponent { name: "P".to_string() }));
    game.world.add_component(p, GRID_POSITION_COMPONENT, GridComponent::Position(GridPositionComponent { x: 0, y: 0 }));
    game.world.add_component(p, RENDER_COMPONENT, GridComponent::Render(RenderComponent { symbol: 'P', color: "red".to_string() }));
    let far = game.world.create_entity();
    game.world.add_component(far, OBSTACLE_COMPONENT, GridComponent::Obstacle(ObstacleComponent { block_movement: true }));
    game.world.add_component(far, GRID_POSITION_COMPONENT, GridComponent::Position(GridPositionComponent { x: 40, y: 0 }));
    game.world.add_component(far, RENDER_COMPONENT, GridComponent::Render(RenderComponent { symbol: 'X', color: "red".to_string() }));

    let state = game.get_game_state();
    assert!(state.starts_with("P........."));
    assert!(!state.contains('X'));
    assert_eq!(game.get_player_position(), Some((0, 0)));
}

#[test]
fn update_reports_the_systems_in_order() {
    let mut game = GridGameWorld::new();
    let names = game.update().unwrap();
    assert_eq!(
        names,
        vec![
            "GridInputSystem".to_string(),
            "GridMovementSystem".to_string(),
            "GridCollisionSystem".to_string(),
            "GridRenderSystem".to_string(),
        ]
    );
}
