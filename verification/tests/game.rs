use citybuilder_ecs::ecs::{Component, Entity, World};
use citybuilder_ecs::game::{
    movement_from_keys, move_players, GameComponent, GameRenderer, GridComponent, GridGame,
    GridRenderableComponent, ObstacleComponent, PlayerComponent, PlayerMovementSystem,
    GAME_GRID_COMPONENT, GAME_OBSTACLE_COMPONENT, GAME_PLAYER_COMPONENT,
};
use citybuilder_ecs::input::Key;
use citybuilder_ecs::input_action::ButtonInput;

fn spawn(world: &mut World<GameComponent>, type_id: u64, c: GameComponent) -> Entity {
    let e = world.create_entity();
    world.add_component(e, type_id, c);
    e
}

fn player_position(world: &World<GameComponent>, e: Entity) -> (i32, i32) {
    match world.get_component(e, GAME_PLAYER_COMPONENT) {
        Some(GameComponent::Player(p)) => p.get_grid_position(),
        _ => panic!("no player"),
    }
}

/// A 3 by 2 field, a player on (0, 0) and an obstacle on (1, 1).
fn small_world() -> (World<GameComponent>, Entity) {
    let mut world: World<GameComponent> = World::new();
    spawn(&mut world, GAME_GRID_COMPONENT, GameComponent::Grid(GridComponent::new(3, 2)));
    let player = spawn(&mut world, GAME_PLAYER_COMPONENT, GameComponent::Player(PlayerComponent::new(0, 0)));
    spawn(&mut world, GAME_OBSTACLE_COMPONENT, GameComponent::Obstacle(ObstacleComponent::new(1, 1)));
    (world, player)
}

#[test]
fn test_game_renderer_creation() {
    let _renderer = GameRenderer::new();
}

#[test]
fn test_player_movement_system_creation() {
    let _system = PlayerMovementSystem::new();
}

#[test]
fn test_player_movement_without_input_manager() {
    let mut world: World<GameComponent> = World::new();
    let moved = PlayerMovementSystem::update_player_movement(&mut world, &ButtonInput::new());
    assert!(moved.is_empty());
}

#[test]
fn test_components() {
    let p = PlayerComponent::new(2, 3);
    assert_eq!(p.get_grid_position(), (2, 3));
    let mut q = p;
    q.set_grid_position(4, 5);
    assert_eq!(q.get_grid_position(), (4, 5));
    assert!(p.validate());
    let g = GridComponent::new(10, 8);
    assert!(g.is_within_bounds(0, 0));
    assert!(g.is_within_bounds(9, 7));
    assert!(!g.is_within_bounds(10, 7));
    assert!(!g.is_within_bounds(-1, 0));
    assert!(g.validate());
    assert!(!GridComponent::new(0, 8).validate());
    let o = ObstacleComponent::new(1, 2);
    assert_eq!(o.get_grid_position(), (1, 2));
    assert!(o.is_blocking);
    let r = GridRenderableComponent::new('@', "#FF0000");
    assert_eq!(r.character, '@');
    assert!(r.validate());
    assert!(!GridRenderableComponent::new('@', "").validate());
    assert_eq!(GridComponent::component_type_id(), GAME_GRID_COMPONENT);
}

#[test]
fn test_movement_from_keys() {
    let mut input = ButtonInput::new();
    assert_eq!(movement_from_keys(&input), (0, 0));
    input.press_key(&Key::W);
    assert_eq!(movement_from_keys(&input), (0, -1));
    input.press_key(&Key::ArrowRight);
    assert_eq!(movement_from_keys(&input), (1, -1));
    input.press_key(&Key::S);
    assert_eq!(movement_from_keys(&input), (1, 0));
    input.press_key(&Key::A);
    assert_eq!(movement_from_keys(&input), (0, 0));
    input.release_key(&Key::W);
    assert_eq!(movement_from_keys(&input), (0, 1));
}

#[test]
fn test_move_players_moves_and_blocks() {
    let (mut world, player) = small_world();
    assert_eq!(move_players(&mut world, 1, 0), vec![player]);
    assert_eq!(player_position(&world, player), (1, 0));
    // The obstacle on (1, 1) blocks the step down.
    assert!(move_players(&mut world, 0, 1).is_empty());
    assert_eq!(player_position(&world, player), (1, 0));
    // The right edge of a 3-wide field.
    assert_eq!(move_players(&mut world, 1, 0), vec![player]);
    assert!(move_players(&mut world, 1, 0).is_empty());
    assert_eq!(player_position(&world, player), (2, 0));
    // The top edge.
    assert!(move_players(&mut world, 0, -1).is_empty());
    assert_eq!(move_players(&mut world, 0, 1), vec![player]);
    assert_eq!(player_position(&world, player), (2, 1));
}

#[test]
fn test_move_players_needs_grid_and_step() {
    let mut world: World<GameComponent> = World::new();
    let player = spawn(&mut world, GAME_PLAYER_COMPONENT, GameComponent::Player(PlayerComponent::new(5, 5)));
    assert!(move_players(&mut world, 1, 0).is_empty());
    assert_eq!(player_position(&world, player), (5, 5));
    let (mut world, player) = small_world();
    assert!(move_players(&mut world, 0, 0).is_empty());
    assert_eq!(player_position(&world, player), (0, 0));
}

#[test]
fn test_move_players_every_player() {
    let (mut world, first) = small_world();
    let second = spawn(&mut world, GAME_PLAYER_COMPONENT, GameComponent::Player(PlayerComponent::new(1, 0)));
    // The second player steps onto the obstacle's cell: it stays.
    assert_eq!(move_players(&mut world, 0, 1), vec![first]);
    assert_eq!(player_position(&world, first), (0, 1));
    assert_eq!(player_position(&world, second), (1, 0));
}

#[test]
fn test_update_player_movement_reads_keys() {
    let (mut world, player) = small_world();
    let mut input = ButtonInput::new();
    input.press_key(&Key::D);
    assert_eq!(PlayerMovementSystem::update_player_movement(&mut world, &input), vec![player]);
    assert_eq!(player_position(&world, player), (1, 0));
}

#[test]
fn test_render_game_state() {
    let (world, _player) = small_world();
    assert_eq!(GameRenderer::render_game_state(&world), Ok("♂··\n·█·\n".to_string()));
}

#[test]
fn test_render_player_over_obstacle() {
    let (mut world, _player) = small_world();
    spawn(&mut world, GAME_PLAYER_COMPONENT, GameComponent::Player(PlayerComponent::new(1, 1)));
    assert_eq!(GameRenderer::render_game_state(&world), Ok("♂··\n·♂·\n".to_string()));
}

#[test]
fn test_render_errors() {
    let world: World<GameComponent> = World::new();
    assert_eq!(GameRenderer::render_game_state(&world), Err("No grid component found".to_string()));
    let mut world: World<GameComponent> = World::new();
    spawn(&mut world, GAME_GRID_COMPONENT, GameComponent::Player(PlayerComponent::new(0, 0)));
    assert_eq!(
        GameRenderer::render_game_state(&world),
        Err("Failed to get grid component".to_string())
    );
}

#[test]
fn test_print_game_state_empty_world() {
    let world: World<GameComponent> = World::new();
    let text = GameRenderer::game_state_text(&world);
    assert_eq!(text, "..........\n".repeat(10));
}

#[test]
fn game_state_text_uses_the_grid() {
    let (world, _player) = small_world();
    assert_eq!(GameRenderer::game_state_text(&world), "@..\n.#.\n");
}

#[test]
fn test_grid_game_creation() {
    let game = GridGame::new();
    assert!(!game.is_running);
    assert_eq!(game.target_fps, 10);
}

#[test]
fn test_game_world_initialization() {
    let mut game = GridGame::new();
    game.initialize_game_world();
    let grid_entities = game.world.entities_with_components(&[GAME_GRID_COMPONENT]);
    assert_eq!(grid_entities.len(), 1);
    let player_entities = game.world.entities_with_components(&[GAME_PLAYER_COMPONENT]);
    assert_eq!(player_entities.len(), 1);
    let obstacle_entities = game.world.entities_with_components(&[GAME_OBSTACLE_COMPONENT]);
    assert!(obstacle_entities.len() > 0);
}

#[test]
fn test_player_initial_position() {
    let mut game = GridGame::new();
    game.initialize_game_world();
    let player_entities = game.world.entities_with_components(&[GAME_PLAYER_COMPONENT]);
    if let Some(&player_entity) = player_entities.first() {
        if let Some(GameComponent::Player(player)) = game.world.get_component(player_entity, GAME_PLAYER_COMPONENT) {
            assert_eq!(player.get_grid_position(), (1, 1));
        }
    }
}

#[test]
fn game_stop_and_world_access() {
    let mut game = GridGame::new();
    game.is_running = true;
    game.stop();
    assert!(!game.is_running);
    let e = game.get_world_mut().create_entity();
    assert_eq!(e, 0);
    assert_eq!(game.get_world().get_all_entities(), &vec![0]);
}

#[test]
fn new_game_board_and_moves() {
    let mut game = GridGame::new();
    game.initialize_game_world();
    let board = GameRenderer::game_state_text(game.get_world());
    let rows: Vec<&str> = board.lines().collect();
    assert_eq!(rows.len(), 8);
    assert_eq!(rows[1], ".@...###....");
    assert_eq!(rows[2], "...#........");
    assert_eq!(rows[6], "..#.#.#...#.");
    let mut input = ButtonInput::new();
    input.press_key(&Key::ArrowRight);
    assert_eq!(game.update(&input), vec![1]);
    // (3, 1) is free, (3, 2) below it is a wall.
    assert_eq!(game.update(&input), vec![1]);
    let mut down = ButtonInput::new();
    down.press_key(&Key::S);
    assert!(game.update(&down).is_empty());
    assert_eq!(player_position(game.get_world(), 1), (3, 1));
}
