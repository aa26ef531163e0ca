use vstd::prelude::*;
use vstd::string::StringExecFns;
use crate::ecs::{Component, ComponentTypeId, Entity, World, has_in, same_component};
use crate::input::{ButtonState, Key};
use crate::input_action::{ButtonInput, key_lookup, recorded_down};
use crate::text::push_char;

verus! {

/// The id under which player components are stored.
pub const GAME_PLAYER_COMPONENT: ComponentTypeId = 20;

/// The id under which the grid component is stored.
pub const GAME_GRID_COMPONENT: ComponentTypeId = 21;

/// The id under which obstacle components are stored.
pub const GAME_OBSTACLE_COMPONENT: ComponentTypeId = 22;

/// The id under which grid-renderable components are stored.
pub const GAME_RENDERABLE_COMPONENT: ComponentTypeId = 23;

/// The player character, standing on a cell of the grid.
#[derive(Clone, Copy, Debug)]
pub struct PlayerComponent {
    pub grid_x: i32,
    pub grid_y: i32,
}

impl PlayerComponent {
    /// A player standing on (`grid_x`, `grid_y`).
    pub fn new(grid_x: i32, grid_y: i32) -> (p: Self)
        ensures
            p.grid_x == grid_x,
            p.grid_y == grid_y,
    {
        PlayerComponent { grid_x, grid_y }
    }

    /// The cell the player stands on.
    pub fn get_grid_position(&self) -> (r: (i32, i32))
        ensures
            r == (self.grid_x, self.grid_y),
    {
        (self.grid_x, self.grid_y)
    }

    /// Puts the player on (`x`, `y`).
    pub fn set_grid_position(&mut self, x: i32, y: i32)
        ensures
            final(self).grid_x == x,
            final(self).grid_y == y,
    {
        self.grid_x = x;
        self.grid_y = y;
    }
}

impl Component for PlayerComponent {
    open spec fn spec_valid(&self) -> bool {
        true
    }

    open spec fn spec_type_id() -> ComponentTypeId {
        GAME_PLAYER_COMPONENT
    }

    fn validate(&self) -> (b: bool) {
        true
    }

    fn component_type_id() -> (id: ComponentTypeId) {
        GAME_PLAYER_COMPONENT
    }
}

/// The playing field: `width` columns and `height` rows.
#[derive(Clone, Copy, Debug)]
pub struct GridComponent {
    pub width: u32,
    pub height: u32,
}

/// Whether (`x`, `y`) lies on a field of `width` columns and `height` rows,
/// the sizes read as `i32`.
pub open spec fn within_bounds(width: u32, height: u32, x: int, y: int) -> bool {
    0 <= x && 0 <= y && x < (width as i32) && y < (height as i32)
}

impl GridComponent {
    /// A field of `width` columns and `height` rows.
    pub fn new(width: u32, height: u32) -> (g: Self)
        ensures
            g.width == width,
            g.height == height,
    {
        GridComponent { width, height }
    }

    /// Whether (`x`, `y`) lies on the field.
    pub fn is_within_bounds(&self, x: i32, y: i32) -> (b: bool)
        ensures
            b == within_bounds(self.width, self.height, x as int, y as int),
    {
        x >= 0 && y >= 0 && x < self.width as i32 && y < self.height as i32
    }
}

impl Component for GridComponent {
    open spec fn spec_valid(&self) -> bool {
        self.width > 0 && self.height > 0
    }

    open spec fn spec_type_id() -> ComponentTypeId {
        GAME_GRID_COMPONENT
    }

    fn validate(&self) -> (b: bool) {
        self.width > 0 && self.height > 0
    }

    fn component_type_id() -> (id: ComponentTypeId) {
        GAME_GRID_COMPONENT
    }
}

/// An obstacle that blocks movement onto its cell.
#[derive(Clone, Copy, Debug)]
pub struct ObstacleComponent {
    pub grid_x: i32,
    pub grid_y: i32,
    pub is_blocking: bool,
}

impl ObstacleComponent {
    /// A blocking obstacle on (`grid_x`, `grid_y`).
    pub fn new(grid_x: i32, grid_y: i32) -> (o: Self)
        ensures
            o.grid_x == grid_x,
            o.grid_y == grid_y,
            o.is_blocking,
    {
        ObstacleComponent { grid_x, grid_y, is_blocking: true }
    }

    /// The cell the obstacle stands on.
    pub fn get_grid_position(&self) -> (r: (i32, i32))
        ensures
            r == (self.grid_x, self.grid_y),
    {
        (self.grid_x, self.grid_y)
    }
}

impl Component for ObstacleComponent {
    open spec fn spec_valid(&self) -> bool {
        true
    }

    open spec fn spec_type_id() -> ComponentTypeId {
        GAME_OBSTACLE_COMPONENT
    }

    fn validate(&self) -> (b: bool) {
        true
    }

    fn component_type_id() -> (id: ComponentTypeId) {
        GAME_OBSTACLE_COMPONENT
    }
}

/// Marks an entity as drawn on the grid with `character` in `color`.
#[derive(Clone, Debug)]
pub struct GridRenderableComponent {
    pub character: char,
    pub color: String,
}

impl GridRenderableComponent {
    /// A renderable drawn with `character` in `color`.
    pub fn new(character: char, color: &str) -> (r: Self)
        ensures
            r.character == character,
            r.color@ == color@,
    {
        GridRenderableComponent { character, color: color.to_string() }
    }
}

impl Component for GridRenderableComponent {
    open spec fn spec_valid(&self) -> bool {
        self.color@.len() > 0
    }

    open spec fn spec_type_id() -> ComponentTypeId {
        GAME_RENDERABLE_COMPONENT
    }

    fn validate(&self) -> (b: bool) {
        self.color.as_str().unicode_len() != 0
    }

    fn component_type_id() -> (id: ComponentTypeId) {
        GAME_RENDERABLE_COMPONENT
    }
}

/// A component of the grid game, as the world stores it.
#[derive(Clone, Debug)]
pub enum GameComponent {
    Player(PlayerComponent),
    Grid(GridComponent),
    Obstacle(ObstacleComponent),
    Renderable(GridRenderableComponent),
}

/// The components of a game world, by type and entity.
pub type GameComponents = Map<ComponentTypeId, Map<Entity, GameComponent>>;

/// Whether `key` is down in the recorded key states.
pub open spec fn key_down(keys: Seq<(Key, ButtonState)>, key: Key) -> bool {
    recorded_down(key_lookup(keys, key))
}

/// The step the movement keys ask for: W or ArrowUp moves up (y - 1), S or
/// ArrowDown down (y + 1), A or ArrowLeft left (x - 1), D or ArrowRight
/// right (x + 1); opposite keys cancel.
pub open spec fn movement_of(keys: Seq<(Key, ButtonState)>) -> (int, int) {
    let up = key_down(keys, Key::W) || key_down(keys, Key::ArrowUp);
    let down = key_down(keys, Key::S) || key_down(keys, Key::ArrowDown);
    let left = key_down(keys, Key::A) || key_down(keys, Key::ArrowLeft);
    let right = key_down(keys, Key::D) || key_down(keys, Key::ArrowRight);
    (
        (if right { 1int } else { 0int }) - (if left { 1int } else { 0int }),
        (if down { 1int } else { 0int }) - (if up { 1int } else { 0int }),
    )
}

/// The step the movement keys held in `input` ask for.
pub fn movement_from_keys(input: &ButtonInput) -> (d: (i32, i32))
    ensures
        d.0 == movement_of(input.spec_keys()).0,
        d.1 == movement_of(input.spec_keys()).1,
{
    let mut dx: i32 = 0;
    let mut dy: i32 = 0;
    if input.is_key_pressed(&Key::W) || input.is_key_pressed(&Key::ArrowUp) {
        dy = dy - 1;
    }
    if input.is_key_pressed(&Key::S) || input.is_key_pressed(&Key::ArrowDown) {
        dy = dy + 1;
    }
    if input.is_key_pressed(&Key::A) || input.is_key_pressed(&Key::ArrowLeft) {
        dx = dx - 1;
    }
    if input.is_key_pressed(&Key::D) || input.is_key_pressed(&Key::ArrowRight) {
        dx = dx + 1;
    }
    (dx, dy)
}

/// The cell of the player component stored for `entity`, when there is one.
pub open spec fn player_at(comps: GameComponents, entity: Entity) -> Option<(i32, i32)> {
    if has_in(comps, GAME_PLAYER_COMPONENT, entity) {
        match comps[GAME_PLAYER_COMPONENT][entity] {
            GameComponent::Player(p) => Some((p.grid_x, p.grid_y)),
            _ => None,
        }
    } else {
        None
    }
}

/// The cell of the obstacle component stored for `entity`, when there is one.
pub open spec fn obstacle_pos(comps: GameComponents, entity: Entity) -> Option<(i32, i32)> {
    if has_in(comps, GAME_OBSTACLE_COMPONENT, entity) {
        match comps[GAME_OBSTACLE_COMPONENT][entity] {
            GameComponent::Obstacle(o) => Some((o.grid_x, o.grid_y)),
            _ => None,
        }
    } else {
        None
    }
}

/// The grid component stored for `entity`, when there is one.
pub open spec fn grid_at(comps: GameComponents, entity: Entity) -> Option<GridComponent> {
    if has_in(comps, GAME_GRID_COMPONENT, entity) {
        match comps[GAME_GRID_COMPONENT][entity] {
            GameComponent::Grid(g) => Some(g),
            _ => None,
        }
    } else {
        None
    }
}

/// Whether one of `entities` is an obstacle standing on (`x`, `y`).
pub open spec fn obstacle_on(comps: GameComponents, entities: Seq<Entity>, x: int, y: int) -> bool {
    exists|i: int|
        0 <= i < entities.len() && (#[trigger] obstacle_pos(comps, entities[i]) matches Some(
            p,
        ) && p.0 == x && p.1 == y)
}

/// Whether one of `entities` is a player standing on (`x`, `y`).
pub open spec fn player_on(comps: GameComponents, entities: Seq<Entity>, x: int, y: int) -> bool {
    exists|i: int|
        0 <= i < entities.len() && (#[trigger] player_at(comps, entities[i]) matches Some(p)
            && p.0 == x && p.1 == y)
}

/// The first of `entities` that has a grid component.
pub open spec fn first_grid_entity(comps: GameComponents, entities: Seq<Entity>) -> Option<Entity>
    decreases entities.len(),
{
    if entities.len() == 0 {
        None
    } else if has_in(comps, GAME_GRID_COMPONENT, entities[0]) {
        Some(entities[0])
    } else {
        first_grid_entity(comps, entities.drop_first())
    }
}

/// Whether a player on `pos` may step by (`dx`, `dy`): the target fits in
/// `i32`, lies within the bounds of `grid` (any target does when the grid
/// entity holds no grid component) and no obstacle stands on it.
pub open spec fn may_step(
    comps: GameComponents,
    entities: Seq<Entity>,
    grid: Option<GridComponent>,
    pos: (i32, i32),
    dx: i32,
    dy: i32,
) -> bool {
    let x = pos.0 + dx;
    let y = pos.1 + dy;
    &&& i32::MIN <= x <= i32::MAX
    &&& i32::MIN <= y <= i32::MAX
    &&& match grid {
        Some(g) => within_bounds(g.width, g.height, x, y),
        None => true,
    }
    &&& !obstacle_on(comps, entities, x, y)
}

/// Whether the player component of `entity` moves when the world asks for a
/// step of (`dx`, `dy`): the step is not zero, some entity has a grid
/// component, `entity` is one of `entities` with a player component, and
/// the player may step there.
pub open spec fn player_moves(
    comps: GameComponents,
    entities: Seq<Entity>,
    entity: Entity,
    dx: i32,
    dy: i32,
) -> bool {
    &&& (dx != 0 || dy != 0)
    &&& first_grid_entity(comps, entities) matches Some(g)
    &&& entities.contains(entity)
    &&& player_at(comps, entity) matches Some(p)
    &&& may_step(comps, entities, grid_at(comps, g), p, dx, dy)
}

/// A player moves exactly when the step is not zero, some entity has a grid
/// component, and the target cell fits in `i32`, has no obstacle on it and,
/// when the first grid entity holds a grid, lies on it: `0 <= x < width` and
/// `0 <= y < height` (the sizes read as `i32`). A player that moves so
/// always lands on the field.
pub proof fn lemma_player_moves_onto_free_cells(
    comps: GameComponents,
    entities: Seq<Entity>,
    entity: Entity,
    dx: i32,
    dy: i32,
)
    ensures
        player_moves(comps, entities, entity, dx, dy) <==> {
            &&& dx != 0 || dy != 0
            &&& entities.contains(entity)
            &&& first_grid_entity(comps, entities) matches Some(g)
            &&& player_at(comps, entity) matches Some(p)
            &&& i32::MIN <= p.0 + dx <= i32::MAX
            &&& i32::MIN <= p.1 + dy <= i32::MAX
            &&& !obstacle_on(comps, entities, p.0 + dx, p.1 + dy)
            &&& grid_at(comps, g) matches Some(grid) ==> {
                &&& 0 <= p.0 + dx
                &&& p.0 + dx < grid.width as i32
                &&& 0 <= p.1 + dy
                &&& p.1 + dy < grid.height as i32
            }
        },
{
}

/// The components after the players that move, among the first `n` of
/// `entities`, have stepped by (`dx`, `dy`).
pub open spec fn stepped_players(
    comps: GameComponents,
    entities: Seq<Entity>,
    n: int,
    dx: i32,
    dy: i32,
) -> GameComponents {
    if comps.contains_key(GAME_PLAYER_COMPONENT) {
        comps.insert(
            GAME_PLAYER_COMPONENT,
            Map::new(
                |e: Entity| comps[GAME_PLAYER_COMPONENT].contains_key(e),
                |e: Entity|
                    if entities.take(n).contains(e) && player_moves(comps, entities, e, dx, dy) {
                        let p = player_at(comps, e)->0;
                        GameComponent::Player(
                            PlayerComponent { grid_x: (p.0 + dx) as i32, grid_y: (p.1 + dy) as i32 },
                        )
                    } else {
                        comps[GAME_PLAYER_COMPONENT][e]
                    },
            ),
        )
    } else {
        comps
    }
}

/// The grid component of the first entity that has one; `None` inside when
/// that entity's grid slot holds another kind of component.
fn find_grid(world: &World<GameComponent>) -> (r: Option<(Entity, Option<GridComponent>)>)
    ensures
        match first_grid_entity(world.spec_components(), world.spec_entities()) {
            Some(e) => r == Some((e, grid_at(world.spec_components(), e))),
            None => r is None,
        },
{
    let entities = world.get_all_entities();
    let ghost comps = world.spec_components();
    let ghost es = entities@;
    proof {
        assert(es.subrange(0, es.len() as int) =~= es);
    }
    let mut i: usize = 0;
    while i < entities.len()
        invariant
            i <= es.len(),
            es == entities@,
            es == world.spec_entities(),
            comps == world.spec_components(),
            first_grid_entity(comps, es) == first_grid_entity(
                comps,
                es.subrange(i as int, es.len() as int),
            ),
        decreases es.len() - i,
    {
        let e = entities[i];
        let ghost rest = es.subrange(i as int, es.len() as int);
        assert(rest[0] == e);
        if world.has_component(e, GAME_GRID_COMPONENT) {
            let g = match world.get_component(e, GAME_GRID_COMPONENT) {
                Some(GameComponent::Grid(g)) => Some(*g),
                _ => None,
            };
            return Some((e, g));
        }
        assert(es.subrange(i + 1, es.len() as int) =~= rest.drop_first());
        i = i + 1;
    }
    None
}

/// Whether an obstacle stands on (`x`, `y`).
fn obstacle_on_cell(world: &World<GameComponent>, x: i64, y: i64) -> (b: bool)
    ensures
        b == obstacle_on(world.spec_components(), world.spec_entities(), x as int, y as int),
{
    let entities = world.get_all_entities();
    let ghost comps = world.spec_components();
    let ghost es = entities@;
    let mut i: usize = 0;
    while i < entities.len()
        invariant
            i <= es.len(),
            es == entities@,
            es == world.spec_entities(),
            comps == world.spec_components(),
            forall|j: int|
                0 <= j < i ==> !(#[trigger] obstacle_pos(comps, es[j]) matches Some(p) && p.0 == x
                    && p.1 == y),
        decreases es.len() - i,
    {
        let e = entities[i];
        match world.get_component(e, GAME_OBSTACLE_COMPONENT) {
            Some(GameComponent::Obstacle(o)) => {
                if o.grid_x as i64 == x && o.grid_y as i64 == y {
                    assert(obstacle_pos(comps, es[i as int]) == Some((o.grid_x, o.grid_y)));
                    return true;
                }
            },
            _ => {},
        }
        i = i + 1;
    }
    false
}

/// Obstacles are read from the obstacle slots alone, so stepping players
/// does not change where obstacles stand.
proof fn lemma_obstacles_kept(comps: GameComponents, entities: Seq<Entity>, n: int, dx: i32, dy: i32)
    ensures
        forall|x: int, y: int|
            #[trigger] obstacle_on(stepped_players(comps, entities, n, dx, dy), entities, x, y)
                == obstacle_on(comps, entities, x, y),
        forall|e: Entity|
            #[trigger] obstacle_pos(stepped_players(comps, entities, n, dx, dy), e) == obstacle_pos(
                comps,
                e,
            ),
{
    let after = stepped_players(comps, entities, n, dx, dy);
    assert forall|e: Entity| #[trigger] obstacle_pos(after, e) == obstacle_pos(comps, e) by {
        if comps.contains_key(GAME_PLAYER_COMPONENT) {
            assert(after[GAME_OBSTACLE_COMPONENT] == comps[GAME_OBSTACLE_COMPONENT]
                || !comps.contains_key(GAME_OBSTACLE_COMPONENT));
        }
    }
    assert forall|x: int, y: int|
        #[trigger] obstacle_on(after, entities, x, y) == obstacle_on(comps, entities, x, y) by {
        if obstacle_on(after, entities, x, y) {
            let i = choose|i: int|
                0 <= i < entities.len() && (#[trigger] obstacle_pos(after, entities[i]) matches Some(
                    p,
                ) && p.0 == x && p.1 == y);
            assert(obstacle_pos(comps, entities[i]) == obstacle_pos(after, entities[i]));
        }
        if obstacle_on(comps, entities, x, y) {
            let i = choose|i: int|
                0 <= i < entities.len() && (#[trigger] obstacle_pos(comps, entities[i]) matches Some(
                    p,
                ) && p.0 == x && p.1 == y);
            assert(obstacle_pos(comps, entities[i]) == obstacle_pos(after, entities[i]));
        }
    }
}

/// Steps every player by (`dx`, `dy`), in creation order. Nothing moves
/// when the step is zero or no entity has a grid component. Otherwise the
/// grid component of the first entity that has one bounds the field, and a
/// player moves exactly when the target cell fits in `i32`, lies within the
/// field and no obstacle stands on it. Returns the players that moved.
pub fn move_players(world: &mut World<GameComponent>, dx: i32, dy: i32) -> (moved: Vec<Entity>)
    requires
        old(world).wf(),
    ensures
        final(world).wf(),
        final(world).spec_entities() == old(world).spec_entities(),
        final(world).spec_next_entity() == old(world).spec_next_entity(),
        final(world).spec_schedule() == old(world).spec_schedule(),
        final(world).spec_tracker() == old(world).spec_tracker(),
        final(world).spec_components() == stepped_players(
            old(world).spec_components(),
            old(world).spec_entities(),
            old(world).spec_entities().len() as int,
            dx,
            dy,
        ),
        moved@ == old(world).spec_entities().filter(
            |e: Entity|
                player_moves(old(world).spec_components(), old(world).spec_entities(), e, dx, dy),
        ),
{
    let ghost comps = world.spec_components();
    let ghost es = world.spec_entities();
    let ghost pred = |e: Entity| player_moves(comps, es, e, dx, dy);
    let mut moved: Vec<Entity> = Vec::new();
    proof {
        world.lemma_entities_numbered();
    }
    if dx == 0 && dy == 0 {
        proof {
            assert(es.filter(pred) =~= Seq::<Entity>::empty()) by {
                es.lemma_all_neg_filter_empty(pred);
            }
            if comps.contains_key(GAME_PLAYER_COMPONENT) {
                assert(stepped_players(comps, es, es.len() as int, dx, dy)[GAME_PLAYER_COMPONENT]
                    =~= comps[GAME_PLAYER_COMPONENT]);
                assert(stepped_players(comps, es, es.len() as int, dx, dy) =~= comps);
            }
        }
        return moved;
    }
    let grid = match find_grid(world) {
        Some(found) => found.1,
        None => {
            proof {
                assert(es.filter(pred) =~= Seq::<Entity>::empty()) by {
                    es.lemma_all_neg_filter_empty(pred);
                }
                if comps.contains_key(GAME_PLAYER_COMPONENT) {
                    assert(stepped_players(comps, es, es.len() as int, dx, dy)[GAME_PLAYER_COMPONENT]
                        =~= comps[GAME_PLAYER_COMPONENT]);
                    assert(stepped_players(comps, es, es.len() as int, dx, dy) =~= comps);
                }
            }
            return moved;
        },
    };
    let n = world.get_all_entities().len();
    proof {
        if comps.contains_key(GAME_PLAYER_COMPONENT) {
            assert(stepped_players(comps, es, 0, dx, dy)[GAME_PLAYER_COMPONENT]
                =~= comps[GAME_PLAYER_COMPONENT]);
            assert(stepped_players(comps, es, 0, dx, dy) =~= comps);
        }
        assert(es.take(0).filter(pred) =~= Seq::<Entity>::empty());
    }
    let mut i: usize = 0;
    while i < n
        invariant
            i <= n,
            n == es.len(),
            world.wf(),
            world.spec_entities() == es,
            world.spec_next_entity() == old(world).spec_next_entity(),
            world.spec_schedule() == old(world).spec_schedule(),
            world.spec_tracker() == old(world).spec_tracker(),
            comps == old(world).spec_components(),
            es == old(world).spec_entities(),
            forall|j: int| 0 <= j < es.len() ==> #[trigger] es[j] == j,
            dx != 0 || dy != 0,
            first_grid_entity(comps, es) matches Some(g) && grid == grid_at(comps, g),
            pred == (|e: Entity| player_moves(comps, es, e, dx, dy)),
            world.spec_components() == stepped_players(comps, es, i as int, dx, dy),
            moved@ == es.take(i as int).filter(pred),
        decreases n - i,
    {
        let e = world.get_all_entities()[i];
        let ghost now = world.spec_components();
        proof {
            assert(e == i);
            assert(!es.take(i as int).contains(e)) by {
                if es.take(i as int).contains(e) {
                    let k = choose|k: int| 0 <= k < i && es.take(i as int)[k] == e;
                    assert(es[k] == k);
                }
            }
            assert(es.contains(e)) by {
                assert(es[i as int] == e);
            }
            assert(player_at(now, e) == player_at(comps, e));
            assert(es.take(i + 1) =~= es.take(i as int).push(e));
            assert(es.take(i + 1).drop_last() =~= es.take(i as int));
            reveal_with_fuel(Seq::<_>::filter, 1);
            lemma_obstacles_kept(comps, es, i as int, dx, dy);
        }
        let pos = match world.get_component(e, GAME_PLAYER_COMPONENT) {
            Some(GameComponent::Player(p)) => Some((p.grid_x, p.grid_y)),
            _ => None,
        };
        assert(pos == player_at(comps, e));
        let mut step = false;
        let mut nx: i64 = 0;
        let mut ny: i64 = 0;
        match pos {
            Some(p) => {
                nx = p.0 as i64 + dx as i64;
                ny = p.1 as i64 + dy as i64;
                let fits = i32::MIN as i64 <= nx && nx <= i32::MAX as i64 && i32::MIN as i64 <= ny
                    && ny <= i32::MAX as i64;
                let inside = match grid {
                    Some(g) => nx >= 0 && ny >= 0 && nx < (g.width as i32) as i64 && ny < (
                    g.height as i32) as i64,
                    None => true,
                };
                if fits && inside {
                    step = !obstacle_on_cell(world, nx, ny);
                }
            },
            None => {},
        }
        assert(step == player_moves(comps, es, e, dx, dy));
        if step {
            match world.get_component_mut(e, GAME_PLAYER_COMPONENT) {
                Some(slot) => {
                    *slot = GameComponent::Player(
                        PlayerComponent { grid_x: nx as i32, grid_y: ny as i32 },
                    );
                },
                None => {},
            }
            moved.push(e);
        }
        proof {
            let next = stepped_players(comps, es, i + 1, dx, dy);
            assert forall|x: Entity| #[trigger] es.take(i + 1).contains(x) == (es.take(
                i as int,
            ).contains(x) || x == e) by {
                vstd::seq_lib::lemma_seq_contains_after_push(es.take(i as int), e, x);
            }
            if comps.contains_key(GAME_PLAYER_COMPONENT) {
                assert(world.spec_components()[GAME_PLAYER_COMPONENT] =~= next[GAME_PLAYER_COMPONENT]);
                assert(world.spec_components() =~= next);
            } else {
                assert(world.spec_components() =~= next);
            }
        }
        i = i + 1;
    }
    proof {
        assert(es.take(es.len() as int) =~= es);
    }
    moved
}

/// The characters a board is drawn with: for a player, for an obstacle and
/// for an empty cell.
pub type Glyphs = (char, char, char);

/// The character drawn on cell (`x`, `y`): a player over an obstacle over
/// an empty cell.
pub open spec fn game_cell(comps: GameComponents, entities: Seq<Entity>, glyphs: Glyphs, x: int, y: int) -> char {
    if player_on(comps, entities, x, y) {
        glyphs.0
    } else if obstacle_on(comps, entities, x, y) {
        glyphs.1
    } else {
        glyphs.2
    }
}

/// The first `n` cells of row `y`, each column and the row read as `i32`.
pub open spec fn game_row_prefix(
    comps: GameComponents,
    entities: Seq<Entity>,
    glyphs: Glyphs,
    y: int,
    n: nat,
) -> Seq<char> {
    Seq::new(n, |x: int| game_cell(comps, entities, glyphs, (x as i32) as int, (y as i32) as int))
}

/// The first `height` rows of a board `width` cells wide, each row ended by
/// a line break.
pub open spec fn game_board(
    comps: GameComponents,
    entities: Seq<Entity>,
    glyphs: Glyphs,
    width: nat,
    height: nat,
) -> Seq<char>
    decreases height,
{
    if height == 0 {
        Seq::empty()
    } else {
        game_board(comps, entities, glyphs, width, (height - 1) as nat) + game_row_prefix(
            comps,
            entities,
            glyphs,
            height - 1,
            width,
        ).push('\n')
    }
}

/// The board is `height` rows of `width + 1` characters: row `y` holds the
/// cells of columns `0..width` in order (each column and the row read as
/// `i32`), then a line break.
pub proof fn lemma_game_board_layout(
    comps: GameComponents,
    entities: Seq<Entity>,
    glyphs: Glyphs,
    width: nat,
    height: nat,
)
    ensures
        game_board(comps, entities, glyphs, width, height).len() == height * (width + 1),
        forall|y: int, x: int|
            0 <= y < height && 0 <= x < width ==> #[trigger] game_board(
                comps,
                entities,
                glyphs,
                width,
                height,
            )[y * (width + 1) + x] == game_cell(
                comps,
                entities,
                glyphs,
                (x as i32) as int,
                (y as i32) as int,
            ),
        forall|y: int|
            0 <= y < height ==> #[trigger] game_board(comps, entities, glyphs, width, height)[y * (
            width + 1) + width] == '\n',
    decreases height,
{
    if height > 0 {
        let h = (height - 1) as nat;
        lemma_game_board_layout(comps, entities, glyphs, width, h);
        let before = game_board(comps, entities, glyphs, width, h);
        let row = game_row_prefix(comps, entities, glyphs, h as int, width).push('\n');
        let all = game_board(comps, entities, glyphs, width, height);
        assert(all == before + row);
        assert(row.len() == width + 1);
        assert(h * (width + 1) + (width + 1) == height * (width + 1)) by (nonlinear_arith)
            requires
                h + 1 == height,
        ;
        assert forall|y: int, x: int| 0 <= y < height && 0 <= x < width implies #[trigger] all[y * (
            width + 1) + x] == game_cell(comps, entities, glyphs, (x as i32) as int, (y as i32) as int) by {
            if y < h {
                assert(y * (width + 1) + x < h * (width + 1)) by (nonlinear_arith)
                    requires
                        0 <= y < h,
                        0 <= x < width,
                ;
                assert(all[y * (width + 1) + x] == before[y * (width + 1) + x]);
            } else {
                assert(y * (width + 1) == h * (width + 1));
                assert(all[y * (width + 1) + x] == row[x]);
            }
        }
        assert forall|y: int| 0 <= y < height implies #[trigger] all[y * (width + 1) + width] == '\n' by {
            if y < h {
                assert(y * (width + 1) + width < h * (width + 1)) by (nonlinear_arith)
                    requires
                        0 <= y < h,
                ;
                assert(all[y * (width + 1) + width] == before[y * (width + 1) + width]);
            } else {
                assert(y * (width + 1) == h * (width + 1));
                assert(all[y * (width + 1) + width] == row[width as int]);
            }
        }
    } else {
        assert(height * (width + 1) == 0) by (nonlinear_arith)
            requires
                height == 0,
        ;
    }
}

/// Whether a player stands on (`x`, `y`).
fn player_on_cell(world: &World<GameComponent>, x: i64, y: i64) -> (b: bool)
    ensures
        b == player_on(world.spec_components(), world.spec_entities(), x as int, y as int),
{
    let entities = world.get_all_entities();
    let ghost comps = world.spec_components();
    let ghost es = entities@;
    let mut i: usize = 0;
    while i < entities.len()
        invariant
            i <= es.len(),
            es == entities@,
            es == world.spec_entities(),
            comps == world.spec_components(),
            forall|j: int|
                0 <= j < i ==> !(#[trigger] player_at(comps, es[j]) matches Some(p) && p.0 == x
                    && p.1 == y),
        decreases es.len() - i,
    {
        let e = entities[i];
        match world.get_component(e, GAME_PLAYER_COMPONENT) {
            Some(GameComponent::Player(p)) => {
                if p.grid_x as i64 == x && p.grid_y as i64 == y {
                    assert(player_at(comps, es[i as int]) == Some((p.grid_x, p.grid_y)));
                    return true;
                }
            },
            _ => {},
        }
        i = i + 1;
    }
    false
}

/// The character drawn on cell (`x`, `y`).
fn cell_char(world: &World<GameComponent>, glyphs: Glyphs, x: i32, y: i32) -> (c: char)
    ensures
        c == game_cell(world.spec_components(), world.spec_entities(), glyphs, x as int, y as int),
{
    if player_on_cell(world, x as i64, y as i64) {
        glyphs.0
    } else if obstacle_on_cell(world, x as i64, y as i64) {
        glyphs.1
    } else {
        glyphs.2
    }
}

/// The board of `width` by `height` cells drawn with `glyphs`.
fn draw_board(world: &World<GameComponent>, glyphs: Glyphs, width: u32, height: u32) -> (text: String)
    ensures
        text@ == game_board(
            world.spec_components(),
            world.spec_entities(),
            glyphs,
            width as nat,
            height as nat,
        ),
{
    let ghost comps = world.spec_components();
    let ghost es = world.spec_entities();
    let mut text = String::new();
    let mut y: u32 = 0;
    while y < height
        invariant
            y <= height,
            comps == world.spec_components(),
            es == world.spec_entities(),
            text@ == game_board(comps, es, glyphs, width as nat, y as nat),
        decreases height - y,
    {
        let ghost before = text@;
        let mut x: u32 = 0;
        while x < width
            invariant
                x <= width,
                comps == world.spec_components(),
                es == world.spec_entities(),
                text@ == before + game_row_prefix(comps, es, glyphs, y as int, x as nat),
            decreases width - x,
        {
            let c = cell_char(world, glyphs, x as i32, y as i32);
            push_char(&mut text, c);
            proof {
                assert(game_row_prefix(comps, es, glyphs, y as int, (x + 1) as nat)
                    =~= game_row_prefix(comps, es, glyphs, y as int, x as nat).push(c));
            }
            x = x + 1;
        }
        push_char(&mut text, '\n');
        proof {
            assert(text@ =~= game_board(comps, es, glyphs, width as nat, (y + 1) as nat));
        }
        y = y + 1;
    }
    text
}

/// Draws the game grid.
pub struct GameRenderer;

impl GameRenderer {
    /// A renderer.
    pub fn new() -> (r: Self) {
        GameRenderer
    }

    /// The board of the world as text. It is an error when no entity has a
    /// grid component, or when the first entity that has one holds another
    /// kind of component in its grid slot. Otherwise the grid component of
    /// that entity gives the size: `height` rows of `width` cells, each row
    /// ended by a line break, a cell showing `♂` where a player stands, else
    /// `█` where an obstacle stands, else `·`.
    pub fn render_game_state(world: &World<GameComponent>) -> (r: Result<String, String>)
        ensures
            ({
                let comps = world.spec_components();
                let es = world.spec_entities();
                match first_grid_entity(comps, es) {
                    None => r matches Err(m) && m@ == "No grid component found"@,
                    Some(e) => match grid_at(comps, e) {
                        None => r matches Err(m) && m@ == "Failed to get grid component"@,
                        Some(g) => r matches Ok(text) && text@ == game_board(
                            comps,
                            es,
                            ('♂', '█', '·'),
                            g.width as nat,
                            g.height as nat,
                        ),
                    },
                }
            }),
    {
        let g = match find_grid(world) {
            None => {
                return Err("No grid component found".to_string());
            },
            Some(found) => match found.1 {
                None => {
                    return Err("Failed to get grid component".to_string());
                },
                Some(g) => g,
            },
        };
        Ok(draw_board(world, ('♂', '█', '·'), g.width, g.height))
    }

    /// The board of the world as plain text: sized by the grid component of
    /// the first entity that has one, 10 by 10 when there is none (or that
    /// entity holds another kind of component in its grid slot); `@` where a
    /// player stands, else `#` where an obstacle stands, else `.`; each row
    /// ended by a line break.
    pub fn game_state_text(world: &World<GameComponent>) -> (r: String)
        ensures
            ({
                let comps = world.spec_components();
                let es = world.spec_entities();
                let size = match first_grid_entity(comps, es) {
                    Some(e) => match grid_at(comps, e) {
                        Some(g) => (g.width, g.height),
                        None => (10u32, 10u32),
                    },
                    None => (10u32, 10u32),
                };
                r@ == game_board(comps, es, ('@', '#', '.'), size.0 as nat, size.1 as nat)
            }),
    {
        let size = match find_grid(world) {
            Some(found) => match found.1 {
                Some(g) => (g.width, g.height),
                None => (10, 10),
            },
            None => (10, 10),
        };
        draw_board(world, ('@', '#', '.'), size.0, size.1)
    }
}

/// Moves players according to the movement keys.
pub struct PlayerMovementSystem;

impl PlayerMovementSystem {
    /// A movement system.
    pub fn new() -> (r: Self) {
        PlayerMovementSystem
    }

    /// Steps the players by the movement the keys held in `input` ask for
    /// (see `movement_from_keys` and `move_players`); returns the players
    /// that moved.
    pub fn update_player_movement(world: &mut World<GameComponent>, input: &ButtonInput) -> (moved:
        Vec<Entity>)
        requires
            old(world).wf(),
        ensures
            ({
                let dx = movement_of(input.spec_keys()).0 as i32;
                let dy = movement_of(input.spec_keys()).1 as i32;
                &&& final(world).wf()
                &&& final(world).spec_entities() == old(world).spec_entities()
                &&& final(world).spec_next_entity() == old(world).spec_next_entity()
                &&& final(world).spec_schedule() == old(world).spec_schedule()
                &&& final(world).spec_tracker() == old(world).spec_tracker()
                &&& final(world).spec_components() == stepped_players(
                    old(world).spec_components(),
                    old(world).spec_entities(),
                    old(world).spec_entities().len() as int,
                    dx,
                    dy,
                )
                &&& moved@ == old(world).spec_entities().filter(
                    |e: Entity|
                        player_moves(
                            old(world).spec_components(),
                            old(world).spec_entities(),
                            e,
                            dx,
                            dy,
                        ),
                )
            }),
    {
        let d = movement_from_keys(input);
        move_players(world, d.0, d.1)
    }
}

/// The cells of the obstacles of a new game: a vertical wall, a horizontal
/// wall, an L-shaped block and three scattered obstacles.
pub open spec fn game_obstacle_cells() -> Seq<(i32, i32)> {
    seq![
        (3i32, 2i32),
        (3i32, 3i32),
        (3i32, 4i32),
        (5i32, 1i32),
        (6i32, 1i32),
        (7i32, 1i32),
        (9i32, 5i32),
        (10i32, 5i32),
        (10i32, 6i32),
        (2i32, 6i32),
        (4i32, 6i32),
        (6i32, 6i32),
    ]
}

/// The components that setting up a game on entities from `first` on
/// writes: the grid's on `first`, the player's on the next, the obstacles'
/// on the twelve after it.
pub open spec fn game_spawn_written(first: int, type_id: ComponentTypeId, entity: Entity) -> bool {
    ||| entity == first && type_id == GAME_GRID_COMPONENT
    ||| entity == first + 1 && type_id == GAME_PLAYER_COMPONENT
    ||| first + 2 <= entity < first + 14 && type_id == GAME_OBSTACLE_COMPONENT
}

/// The 2D grid game: its world, whether it is running, and its frame rate.
pub struct GridGame {
    pub world: World<GameComponent>,
    pub is_running: bool,
    pub target_fps: u32,
}

impl GridGame {
    /// A stopped game with an empty world, aiming at 10 frames per second.
    pub fn new() -> (g: Self)
        ensures
            g.world.wf(),
            g.world.spec_entities() == Seq::<Entity>::empty(),
            g.world.spec_next_entity() == 0,
            g.world.spec_components() == GameComponents::empty(),
            !g.is_running,
            g.target_fps == 10,
    {
        GridGame { world: World::new(), is_running: false, target_fps: 10 }
    }

    /// Sets up the world on fourteen new entities: a 12 by 8 grid, the
    /// player on (1, 1) and twelve obstacles (see `game_obstacle_cells`);
    /// no other component changes.
    pub fn initialize_game_world(&mut self)
        requires
            old(self).world.wf(),
            old(self).world.spec_next_entity() + 14 <= u32::MAX,
        ensures
            ({
                let n = old(self).world.spec_next_entity();
                let before = old(self).world.spec_components();
                let after = final(self).world.spec_components();
                &&& final(self).world.wf()
                &&& final(self).world.spec_next_entity() == n + 14
                &&& final(self).world.spec_entities() == old(self).world.spec_entities() + Seq::new(
                    14,
                    |i: int| (n + i) as Entity,
                )
                &&& final(self).world.spec_schedule() == old(self).world.spec_schedule()
                &&& final(self).world.spec_tracker() == old(self).world.spec_tracker()
                &&& final(self).is_running == old(self).is_running
                &&& final(self).target_fps == old(self).target_fps
                &&& grid_at(after, n as Entity) == Some(GridComponent { width: 12, height: 8 })
                &&& player_at(after, (n + 1) as Entity) == Some((1i32, 1i32))
                &&& forall|k: int|
                    0 <= k < 12 ==> obstacle_pos(after, (n + 2 + k) as Entity) == Some(
                        #[trigger] game_obstacle_cells()[k],
                    )
                &&& forall|t: ComponentTypeId, e: Entity|
                    !game_spawn_written(n as int, t, e) ==> same_component(before, after, t, e)
            }),
    {
        let ghost n = self.world.spec_next_entity();
        let ghost start = self.world.spec_components();
        let ghost start_entities = self.world.spec_entities();
        let grid = self.world.create_entity();
        self.world.add_component(grid, GAME_GRID_COMPONENT, GameComponent::Grid(GridComponent::new(12, 8)));
        let player = self.world.create_entity();
        self.world.add_component(
            player,
            GAME_PLAYER_COMPONENT,
            GameComponent::Player(PlayerComponent::new(1, 1)),
        );
        proof {
            crate::ecs::lemma_added_component_read_back(
                start,
                GAME_GRID_COMPONENT,
                grid,
                GameComponent::Grid(GridComponent { width: 12, height: 8 }),
            );
            let mid = crate::ecs::with_component(
                start,
                GAME_GRID_COMPONENT,
                grid,
                GameComponent::Grid(GridComponent { width: 12, height: 8 }),
            );
            crate::ecs::lemma_added_component_read_back(
                mid,
                GAME_PLAYER_COMPONENT,
                player,
                GameComponent::Player(PlayerComponent { grid_x: 1, grid_y: 1 }),
            );
            assert(same_component(mid, self.world.spec_components(), GAME_GRID_COMPONENT, grid));
            assert(self.world.spec_entities() =~= start_entities + Seq::new(
                2,
                |i: int| (n + i) as Entity,
            ));
        }
        let mut cells: Vec<(i32, i32)> = Vec::new();
        cells.push((3, 2));
        cells.push((3, 3));
        cells.push((3, 4));
        cells.push((5, 1));
        cells.push((6, 1));
        cells.push((7, 1));
        cells.push((9, 5));
        cells.push((10, 5));
        cells.push((10, 6));
        cells.push((2, 6));
        cells.push((4, 6));
        cells.push((6, 6));
        assert(cells@ =~= game_obstacle_cells());
        let mut k: usize = 0;
        while k < cells.len()
            invariant
                k <= 12,
                cells@ == game_obstacle_cells(),
                grid == n,
                player == n + 1,
                n + 14 <= u32::MAX,
                self.world.wf(),
                self.world.spec_next_entity() == n + 2 + k,
                self.world.spec_entities() == start_entities + Seq::new(
                    (k + 2) as nat,
                    |i: int| (n + i) as Entity,
                ),
                self.world.spec_schedule() == old(self).world.spec_schedule(),
                self.world.spec_tracker() == old(self).world.spec_tracker(),
                self.is_running == old(self).is_running,
                self.target_fps == old(self).target_fps,
                start == old(self).world.spec_components(),
                start_entities == old(self).world.spec_entities(),
                n == old(self).world.spec_next_entity(),
                grid_at(self.world.spec_components(), grid) == Some(
                    GridComponent { width: 12, height: 8 },
                ),
                player_at(self.world.spec_components(), player) == Some((1i32, 1i32)),
                forall|j: int|
                    0 <= j < k ==> obstacle_pos(self.world.spec_components(), (n + 2 + j) as Entity)
                        == Some(#[trigger] game_obstacle_cells()[j]),
                forall|t: ComponentTypeId, e: Entity|
                    !(e == n && t == GAME_GRID_COMPONENT) && !(e == n + 1 && t
                        == GAME_PLAYER_COMPONENT) && !(n + 2 <= e < n + 2 + k && t
                        == GAME_OBSTACLE_COMPONENT) ==> same_component(
                        start,
                        self.world.spec_components(),
                        t,
                        e,
                    ),
            decreases 12 - k,
        {
            let ghost prev = self.world.spec_components();
            let cell = cells[k];
            let e = self.world.create_entity();
            self.world.add_component(
                e,
                GAME_OBSTACLE_COMPONENT,
                GameComponent::Obstacle(ObstacleComponent::new(cell.0, cell.1)),
            );
            proof {
                let now = self.world.spec_components();
                let oc = GameComponent::Obstacle(
                    ObstacleComponent { grid_x: cell.0, grid_y: cell.1, is_blocking: true },
                );
                crate::ecs::lemma_added_component_read_back(prev, GAME_OBSTACLE_COMPONENT, e, oc);
                assert(same_component(prev, now, GAME_GRID_COMPONENT, grid));
                assert(same_component(prev, now, GAME_PLAYER_COMPONENT, player));
                assert forall|j: int| 0 <= j < k + 1 implies obstacle_pos(
                    now,
                    (n + 2 + j) as Entity,
                ) == Some(#[trigger] game_obstacle_cells()[j]) by {
                    if j < k {
                        assert(same_component(
                            prev,
                            now,
                            GAME_OBSTACLE_COMPONENT,
                            (n + 2 + j) as Entity,
                        ));
                    }
                }
                assert forall|t: ComponentTypeId, x: Entity|
                    !(x == n && t == GAME_GRID_COMPONENT) && !(x == n + 1 && t
                        == GAME_PLAYER_COMPONENT) && !(n + 2 <= x < n + 2 + k + 1 && t
                        == GAME_OBSTACLE_COMPONENT) implies same_component(start, now, t, x) by {
                    assert(same_component(prev, now, t, x));
                    assert(same_component(start, prev, t, x));
                }
                assert(self.world.spec_entities() =~= start_entities + Seq::new(
                    (k + 3) as nat,
                    |i: int| (n + i) as Entity,
                ));
            }
            k = k + 1;
        }
    }

    /// One frame of game logic: the players step as the movement keys held
    /// in `input` ask (see `PlayerMovementSystem::update_player_movement`).
    /// Returns the players that moved.
    pub fn update(&mut self, input: &ButtonInput) -> (moved: Vec<Entity>)
        requires
            old(self).world.wf(),
        ensures
            ({
                let dx = movement_of(input.spec_keys()).0 as i32;
                let dy = movement_of(input.spec_keys()).1 as i32;
                &&& final(self).world.wf()
                &&& final(self).world.spec_entities() == old(self).world.spec_entities()
                &&& final(self).world.spec_next_entity() == old(self).world.spec_next_entity()
                &&& final(self).world.spec_schedule() == old(self).world.spec_schedule()
                &&& final(self).world.spec_tracker() == old(self).world.spec_tracker()
                &&& final(self).world.spec_components() == stepped_players(
                    old(self).world.spec_components(),
                    old(self).world.spec_entities(),
                    old(self).world.spec_entities().len() as int,
                    dx,
                    dy,
                )
                &&& moved@ == old(self).world.spec_entities().filter(
                    |e: Entity|
                        player_moves(
                            old(self).world.spec_components(),
                            old(self).world.spec_entities(),
                            e,
                            dx,
                            dy,
                        ),
                )
                &&& final(self).is_running == old(self).is_running
                &&& final(self).target_fps == old(self).target_fps
            }),
    {
        PlayerMovementSystem::update_player_movement(&mut self.world, input)
    }

    /// Stops the game.
    pub fn stop(&mut self)
        ensures
            !final(self).is_running,
            final(self).world == old(self).world,
            final(self).target_fps == old(self).target_fps,
    {
        self.is_running = false;
    }

    /// The game's world.
    pub fn get_world(&self) -> (w: &World<GameComponent>)
        ensures
            *w == self.world,
    {
        &self.world
    }

    /// The game's world, for changes.
    pub fn get_world_mut(&mut self) -> (w: &mut World<GameComponent>)
        ensures
            *w == old(self).world,
            final(self).world == *final(w),
            final(self).is_running == old(self).is_running,
            final(self).target_fps == old(self).target_fps,
    {
        &mut self.world
    }
}

} // verus!
