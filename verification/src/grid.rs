use vstd::prelude::*;
use vstd::string::StringExecFns;
use crate::ecs::{
    Component,
    ComponentTypeId,
    EntIt,
    Entity,
    Mut,
    System,
    SystemMarker,
    SystemRegistry,
    World,
    has_in,
    same_component,
};
use crate::text::push_char;

verus! {

/// The id under which grid positions are stored.
pub const GRID_POSITION_COMPONENT: ComponentTypeId = 10;

/// The id under which player markers are stored.
pub const PLAYER_COMPONENT: ComponentTypeId = 11;

/// The id under which obstacle markers are stored.
pub const OBSTACLE_COMPONENT: ComponentTypeId = 12;

/// The id under which movement input is stored.
pub const INPUT_COMPONENT: ComponentTypeId = 13;

/// The id under which render information is stored.
pub const RENDER_COMPONENT: ComponentTypeId = 14;

/// The number of columns of the playing field.
pub const GRID_WIDTH: i32 = 10;

/// The number of rows of the playing field.
pub const GRID_HEIGHT: i32 = 8;

/// A cell of the grid.
#[derive(Clone, Copy, Debug)]
pub struct GridPositionComponent {
    pub x: i32,
    pub y: i32,
}

impl Component for GridPositionComponent {
    /// A position lies within 0..1000 on both axes.
    open spec fn spec_valid(&self) -> bool {
        0 <= self.x < 1000 && 0 <= self.y < 1000
    }

    open spec fn spec_type_id() -> ComponentTypeId {
        GRID_POSITION_COMPONENT
    }

    fn validate(&self) -> (b: bool) {
        self.x >= 0 && self.y >= 0 && self.x < 1000 && self.y < 1000
    }

    fn component_type_id() -> (id: ComponentTypeId) {
        GRID_POSITION_COMPONENT
    }
}

/// Marks the player entity.
#[derive(Clone, Debug)]
pub struct PlayerComponent {
    pub name: String,
}

impl Component for PlayerComponent {
    open spec fn spec_valid(&self) -> bool {
        true
    }

    open spec fn spec_type_id() -> ComponentTypeId {
        PLAYER_COMPONENT
    }

    fn validate(&self) -> (b: bool) {
        true
    }

    fn component_type_id() -> (id: ComponentTypeId) {
        PLAYER_COMPONENT
    }
}

/// Marks an entity that blocks movement.
#[derive(Clone, Copy, Debug)]
pub struct ObstacleComponent {
    pub block_movement: bool,
}

impl Component for ObstacleComponent {
    open spec fn spec_valid(&self) -> bool {
        true
    }

    open spec fn spec_type_id() -> ComponentTypeId {
        OBSTACLE_COMPONENT
    }

    fn validate(&self) -> (b: bool) {
        true
    }

    fn component_type_id() -> (id: ComponentTypeId) {
        OBSTACLE_COMPONENT
    }
}

/// The movement requested for an entity.
#[derive(Clone, Copy, Debug)]
pub struct InputComponent {
    pub move_up: bool,
    pub move_down: bool,
    pub move_left: bool,
    pub move_right: bool,
}

impl InputComponent {
    /// No movement requested.
    pub open spec fn spec_idle(&self) -> bool {
        !self.move_up && !self.move_down && !self.move_left && !self.move_right
    }

    /// An input with no movement requested.
    pub fn new() -> (r: Self)
        ensures
            r.spec_idle(),
    {
        InputComponent { move_up: false, move_down: false, move_left: false, move_right: false }
    }

    /// Withdraws every movement request.
    pub fn clear(&mut self)
        ensures
            final(self).spec_idle(),
    {
        self.move_up = false;
        self.move_down = false;
        self.move_left = false;
        self.move_right = false;
    }
}

impl Component for InputComponent {
    open spec fn spec_valid(&self) -> bool {
        true
    }

    open spec fn spec_type_id() -> ComponentTypeId {
        INPUT_COMPONENT
    }

    fn validate(&self) -> (b: bool) {
        true
    }

    fn component_type_id() -> (id: ComponentTypeId) {
        INPUT_COMPONENT
    }
}

/// How an entity is drawn: a character and a colour name.
#[derive(Clone, Debug)]
pub struct RenderComponent {
    pub symbol: char,
    pub color: String,
}

impl Component for RenderComponent {
    open spec fn spec_valid(&self) -> bool {
        true
    }

    open spec fn spec_type_id() -> ComponentTypeId {
        RENDER_COMPONENT
    }

    fn validate(&self) -> (b: bool) {
        true
    }

    fn component_type_id() -> (id: ComponentTypeId) {
        RENDER_COMPONENT
    }
}

/// Any component of the grid game, as stored in its world.
#[derive(Clone, Debug)]
pub enum GridComponent {
    Position(GridPositionComponent),
    Player(PlayerComponent),
    Obstacle(ObstacleComponent),
    Input(InputComponent),
    Render(RenderComponent),
}

/// The components of a grid world, by type and entity.
pub type GridComponents = Map<ComponentTypeId, Map<Entity, GridComponent>>;

/// The cell of `entity`: its stored grid position, when there is one.
pub open spec fn position_at(comps: GridComponents, entity: Entity) -> Option<(i32, i32)> {
    if has_in(comps, GRID_POSITION_COMPONENT, entity) {
        match comps[GRID_POSITION_COMPONENT][entity] {
            GridComponent::Position(p) => Some((p.x, p.y)),
            _ => None,
        }
    } else {
        None
    }
}

/// The character `entity` is drawn with, when it has render information.
pub open spec fn symbol_at(comps: GridComponents, entity: Entity) -> Option<char> {
    if has_in(comps, RENDER_COMPONENT, entity) {
        match comps[RENDER_COMPONENT][entity] {
            GridComponent::Render(r) => Some(r.symbol),
            _ => None,
        }
    } else {
        None
    }
}

/// Whether the cell (`x`, `y`) lies on the playing field.
pub open spec fn in_grid(x: int, y: int) -> bool {
    0 <= x < GRID_WIDTH && 0 <= y < GRID_HEIGHT
}

/// The playing field is the 10 by 8 block of cells from (0, 0): a cell is
/// on it exactly when `0 <= x < 10` and `0 <= y < 8`.
pub proof fn lemma_grid_cells(x: int, y: int)
    ensures
        in_grid(x, y) <==> (0 <= x < 10 && 0 <= y < 8),
{
}

/// The first of `entities` that has a component of type `type_id`.
pub open spec fn first_with(comps: GridComponents, entities: Seq<Entity>, type_id: ComponentTypeId) -> Option<Entity>
    decreases entities.len(),
{
    if entities.len() == 0 {
        None
    } else if has_in(comps, type_id, entities[0]) {
        Some(entities[0])
    } else {
        first_with(comps, entities.drop_first(), type_id)
    }
}

/// The position of the first of `entities` that is a player and has a position.
pub open spec fn first_player_position(comps: GridComponents, entities: Seq<Entity>) -> Option<(i32, i32)>
    decreases entities.len(),
{
    if entities.len() == 0 {
        None
    } else if has_in(comps, PLAYER_COMPONENT, entities[0]) && position_at(comps, entities[0]) is Some {
        position_at(comps, entities[0])
    } else {
        first_player_position(comps, entities.drop_first())
    }
}

/// Whether one of `entities` is an obstacle standing on (`x`, `y`).
pub open spec fn obstacle_at(comps: GridComponents, entities: Seq<Entity>, x: i32, y: i32) -> bool {
    exists|i: int|
        0 <= i < entities.len() && has_in(comps, OBSTACLE_COMPONENT, #[trigger] entities[i])
            && position_at(comps, entities[i]) == Some((x, y))
}

/// Whether `entity`, as one of kind `kind`, is drawn on cell number `idx`
/// (counting row by row): it has that kind, a position on the field
/// numbered `idx`, and render information.
pub open spec fn paints(comps: GridComponents, entity: Entity, kind: ComponentTypeId, idx: int) -> bool {
    &&& has_in(comps, kind, entity)
    &&& symbol_at(comps, entity) is Some
    &&& position_at(comps, entity) matches Some(p) && in_grid(p.0 as int, p.1 as int) && p.1
        * GRID_WIDTH + p.0 == idx
}

/// Cell `idx` after drawing the entities of kind `kind` among `entities` in
/// order over `base`: the last one drawn there wins.
pub open spec fn layer_cell(
    comps: GridComponents,
    entities: Seq<Entity>,
    kind: ComponentTypeId,
    idx: int,
    base: char,
) -> char
    decreases entities.len(),
{
    if entities.len() == 0 {
        base
    } else if paints(comps, entities.last(), kind, idx) {
        symbol_at(comps, entities.last())->0
    } else {
        layer_cell(comps, entities.drop_last(), kind, idx, base)
    }
}

/// Cell `idx` of the board: `.`, then obstacles drawn over it, then players.
pub open spec fn board_cell(comps: GridComponents, entities: Seq<Entity>, idx: int) -> char {
    layer_cell(
        comps,
        entities,
        PLAYER_COMPONENT,
        idx,
        layer_cell(comps, entities, OBSTACLE_COMPONENT, idx, '.'),
    )
}

/// Row `row` of the board.
pub open spec fn board_row(comps: GridComponents, entities: Seq<Entity>, row: int) -> Seq<char> {
    Seq::new(GRID_WIDTH as nat, |x: int| board_cell(comps, entities, row * GRID_WIDTH + x))
}

/// The first `rows` rows of the board, separated by line breaks.
pub open spec fn board_text(comps: GridComponents, entities: Seq<Entity>, rows: nat) -> Seq<char>
    decreases rows,
{
    if rows == 0 {
        Seq::empty()
    } else if rows == 1 {
        board_row(comps, entities, 0)
    } else {
        board_text(comps, entities, (rows - 1) as nat) + seq!['\n'] + board_row(
            comps,
            entities,
            rows - 1,
        )
    }
}

/// The component types a player is made of.
pub open spec fn player_part(type_id: ComponentTypeId) -> bool {
    type_id == GRID_POSITION_COMPONENT || type_id == PLAYER_COMPONENT || type_id
        == INPUT_COMPONENT || type_id == RENDER_COMPONENT
}

/// The component types an obstacle is made of.
pub open spec fn obstacle_part(type_id: ComponentTypeId) -> bool {
    type_id == GRID_POSITION_COMPONENT || type_id == OBSTACLE_COMPONENT || type_id
        == RENDER_COMPONENT
}

/// `entity` is set up as the player: at (1, 1), named "Hero", with no
/// movement requested, drawn as a red `@`.
pub open spec fn player_spawned(comps: GridComponents, entity: Entity) -> bool {
    &&& position_at(comps, entity) == Some((1i32, 1i32))
    &&& has_in(comps, PLAYER_COMPONENT, entity)
    &&& comps[PLAYER_COMPONENT][entity] matches GridComponent::Player(pc) && pc.name@ == "Hero"@
    &&& has_in(comps, INPUT_COMPONENT, entity)
    &&& comps[INPUT_COMPONENT][entity] matches GridComponent::Input(ic) && ic.spec_idle()
    &&& has_in(comps, RENDER_COMPONENT, entity)
    &&& comps[RENDER_COMPONENT][entity] matches GridComponent::Render(rc) && rc.symbol == '@'
        && rc.color@ == "red"@
}

/// `entity` is set up as a blocking obstacle on `cell`, drawn as a brown `#`.
pub open spec fn obstacle_spawned(comps: GridComponents, entity: Entity, cell: (i32, i32)) -> bool {
    &&& position_at(comps, entity) == Some(cell)
    &&& has_in(comps, OBSTACLE_COMPONENT, entity)
    &&& comps[OBSTACLE_COMPONENT][entity] matches GridComponent::Obstacle(oc) && oc.block_movement
    &&& has_in(comps, RENDER_COMPONENT, entity)
    &&& comps[RENDER_COMPONENT][entity] matches GridComponent::Render(rc) && rc.symbol == '#'
        && rc.color@ == "brown"@
}

/// The cells of the obstacles of a new game: three walls of three and a
/// bottom wall of three.
pub open spec fn obstacle_cells() -> Seq<(i32, i32)> {
    seq![
        (3i32, 1i32),
        (4i32, 1i32),
        (5i32, 1i32),
        (3i32, 2i32),
        (3i32, 3i32),
        (3i32, 4i32),
        (7i32, 2i32),
        (8i32, 2i32),
        (9i32, 2i32),
        (1i32, 5i32),
        (2i32, 5i32),
        (3i32, 5i32),
    ]
}

/// The components that setting up a game on entities from `first` on
/// writes: the player's on `first`, the obstacles' on the twelve after it.
pub open spec fn spawn_written(first: int, type_id: ComponentTypeId, entity: Entity) -> bool {
    ||| entity == first && player_part(type_id)
    ||| first < entity <= first + 12 && obstacle_part(type_id)
}

/// The board text is 8 lines of 10 cells: the cell of row `r` and column
/// `x` stands at `11 * r + x`, and a line break ends each row but the last.
pub proof fn lemma_board_shape(comps: GridComponents, entities: Seq<Entity>)
    ensures
        board_text(comps, entities, GRID_HEIGHT as nat).len() == 87,
        forall|r: int, x: int|
            0 <= r < GRID_HEIGHT && 0 <= x < GRID_WIDTH ==> #[trigger] board_text(
                comps,
                entities,
                GRID_HEIGHT as nat,
            )[r * 11 + x] == board_cell(comps, entities, r * GRID_WIDTH + x),
        forall|r: int|
            0 <= r < GRID_HEIGHT - 1 ==> #[trigger] board_text(comps, entities, GRID_HEIGHT as nat)[r
                * 11 + 10] == '\n',
{
    lemma_board_rows(comps, entities, GRID_HEIGHT as nat);
}

proof fn lemma_board_rows(comps: GridComponents, entities: Seq<Entity>, n: nat)
    requires
        n >= 1,
    ensures
        board_text(comps, entities, n).len() == 11 * n - 1,
        forall|r: int, x: int|
            0 <= r < n && 0 <= x < GRID_WIDTH ==> #[trigger] board_text(comps, entities, n)[r * 11
                + x] == board_cell(comps, entities, r * GRID_WIDTH + x),
        forall|r: int| 0 <= r < n - 1 ==> #[trigger] board_text(comps, entities, n)[r * 11 + 10] == '\n',
    decreases n,
{
    if n > 1 {
        lemma_board_rows(comps, entities, (n - 1) as nat);
        let prev = board_text(comps, entities, (n - 1) as nat);
        let row = board_row(comps, entities, n - 1);
        let text = board_text(comps, entities, n);
        assert(text == prev + seq!['\n'] + row);
        assert forall|r: int, x: int| 0 <= r < n && 0 <= x < GRID_WIDTH implies #[trigger] text[r
            * 11 + x] == board_cell(comps, entities, r * GRID_WIDTH + x) by {
            if r < n - 1 {
                assert(text[r * 11 + x] == prev[r * 11 + x]);
            } else {
                assert(r * 11 + x == prev.len() + 1 + x);
                assert(text[r * 11 + x] == row[x]);
            }
        }
        assert forall|r: int| 0 <= r < n - 1 implies #[trigger] text[r * 11 + 10] == '\n' by {
            if r < n - 2 {
                assert(text[r * 11 + 10] == prev[r * 11 + 10]);
            } else {
                assert(r * 11 + 10 == prev.len());
            }
        }
    }
}

/// The player that a move acts on is the one whose position is reported:
/// when the first player has a position, that is the reported position,
/// and after moving it to (`x`, `y`) the reported position is (`x`, `y`).
pub proof fn lemma_moved_player_is_reported(
    comps: GridComponents,
    entities: Seq<Entity>,
    x: i32,
    y: i32,
)
    requires
        first_with(comps, entities, PLAYER_COMPONENT) matches Some(e) && position_at(comps, e) is Some,
    ensures
        ({
            let e = first_with(comps, entities, PLAYER_COMPONENT)->0;
            let moved = comps.insert(
                GRID_POSITION_COMPONENT,
                comps[GRID_POSITION_COMPONENT].insert(
                    e,
                    GridComponent::Position((GridPositionComponent { x, y })),
                ),
            );
            &&& first_player_position(comps, entities) == position_at(comps, e)
            &&& first_player_position(moved, entities) == Some((x, y))
        }),
    decreases entities.len(),
{
    let e = first_with(comps, entities, PLAYER_COMPONENT)->0;
    let moved = comps.insert(
        GRID_POSITION_COMPONENT,
        comps[GRID_POSITION_COMPONENT].insert(
            e,
            GridComponent::Position((GridPositionComponent { x, y })),
        ),
    );
    if entities.len() > 0 && entities[0] != e {
        assert(!has_in(comps, PLAYER_COMPONENT, entities[0]));
        lemma_moved_player_is_reported(comps, entities.drop_first(), x, y);
        assert(!has_in(moved, PLAYER_COMPONENT, entities[0]));
        assert(first_with(comps, entities.drop_first(), PLAYER_COMPONENT) == Some(e));
    } else {
        lemma_first_with_has(comps, entities, PLAYER_COMPONENT);
        assert(has_in(moved, PLAYER_COMPONENT, e));
        assert(moved[GRID_POSITION_COMPONENT][e] == GridComponent::Position(
            (GridPositionComponent { x, y }),
        ));
        assert(position_at(moved, e) == Some((x, y)));
    }
}

proof fn lemma_first_with_has(comps: GridComponents, entities: Seq<Entity>, type_id: ComponentTypeId)
    ensures
        first_with(comps, entities, type_id) matches Some(e) ==> has_in(comps, type_id, e),
    decreases entities.len(),
{
    if entities.len() > 0 && !has_in(comps, type_id, entities[0]) {
        lemma_first_with_has(comps, entities.drop_first(), type_id);
    }
}

/// A game whose first entity was set up as the player reports the player
/// at (1, 1).
pub proof fn lemma_new_game_player_position(comps: GridComponents, entities: Seq<Entity>)
    requires
        entities.len() > 0,
        player_spawned(comps, entities[0]),
    ensures
        first_player_position(comps, entities) == Some((1i32, 1i32)),
{
}

/// Handles input (depends on nothing).
pub struct GridInputSystem;

impl SystemMarker for GridInputSystem {
    open spec fn spec_name() -> Seq<char> {
        "GridInputSystem"@
    }

    fn name() -> (n: &'static str) {
        "GridInputSystem"
    }
}

impl System for GridInputSystem {
    type Dependencies = ();
    type Iterators = EntIt<(Mut<InputComponent>, ())>;

    fn update(&mut self, _iterators: Self::Iterators) {
    }
}

/// Moves the player (runs after input).
pub struct GridMovementSystem;

impl SystemMarker for GridMovementSystem {
    open spec fn spec_name() -> Seq<char> {
        "GridMovementSystem"@
    }

    fn name() -> (n: &'static str) {
        "GridMovementSystem"
    }
}

impl System for GridMovementSystem {
    type Dependencies = GridInputSystem;
    type Iterators = EntIt<(Mut<GridPositionComponent>, PlayerComponent)>;

    fn update(&mut self, _iterators: Self::Iterators) {
    }
}

/// Detects collisions with obstacles (runs after movement).
pub struct GridCollisionSystem;

impl SystemMarker for GridCollisionSystem {
    open spec fn spec_name() -> Seq<char> {
        "GridCollisionSystem"@
    }

    fn name() -> (n: &'static str) {
        "GridCollisionSystem"
    }
}

impl System for GridCollisionSystem {
    type Dependencies = GridMovementSystem;
    type Iterators = EntIt<(GridPositionComponent, ObstacleComponent)>;

    fn update(&mut self, _iterators: Self::Iterators) {
    }
}

/// Draws the entities (runs after movement and collision).
pub struct GridRenderSystem;

impl SystemMarker for GridRenderSystem {
    open spec fn spec_name() -> Seq<char> {
        "GridRenderSystem"@
    }

    fn name() -> (n: &'static str) {
        "GridRenderSystem"
    }
}

impl System for GridRenderSystem {
    type Dependencies = (GridMovementSystem, GridCollisionSystem);
    type Iterators = EntIt<(GridPositionComponent, RenderComponent)>;

    fn update(&mut self, _iterators: Self::Iterators) {
    }
}

/// The world of the grid game together with its systems.
pub struct GridGameWorld {
    pub world: World<GridComponent>,
    pub system_registry: SystemRegistry,
}

impl GridGameWorld {
    /// An empty world with the four grid systems registered in order.
    pub fn new() -> (g: Self)
        ensures
            g.world.wf(),
            g.world.spec_entities() == Seq::<Entity>::empty(),
            g.world.spec_next_entity() == 0,
            g.world.spec_components() == GridComponents::empty(),
            g.system_registry.wf(),
            g.system_registry.spec_systems() == seq![
                "GridInputSystem"@,
                "GridMovementSystem"@,
                "GridCollisionSystem"@,
                "GridRenderSystem"@,
            ],
            g.system_registry.spec_dependencies() == Map::<Seq<char>, Seq<Seq<char>>>::empty().insert(
                "GridInputSystem"@,
                Seq::empty(),
            ).insert("GridMovementSystem"@, seq!["GridInputSystem"@]).insert(
                "GridCollisionSystem"@,
                seq!["GridMovementSystem"@],
            ).insert("GridRenderSystem"@, seq!["GridMovementSystem"@, "GridCollisionSystem"@]),
    {
        let world = World::new();
        let mut system_registry = SystemRegistry::new();
        system_registry.register_system("GridInputSystem", GridInputSystem);
        system_registry.register_system("GridMovementSystem", GridMovementSystem);
        system_registry.register_system("GridCollisionSystem", GridCollisionSystem);
        system_registry.register_system("GridRenderSystem", GridRenderSystem);
        GridGameWorld { world, system_registry }
    }

    /// The position of the first entity, in creation order, that is a player
    /// and has a position.
    pub fn get_player_position(&self) -> (r: Option<(i32, i32)>)
        ensures
            r == first_player_position(self.world.spec_components(), self.world.spec_entities()),
    {
        let entities = self.world.get_all_entities();
        let ghost comps = self.world.spec_components();
        let ghost es = entities@;
        proof {
            assert(es.subrange(0, es.len() as int) =~= es);
        }
        let mut i: usize = 0;
        while i < entities.len()
            invariant
                i <= es.len(),
                es == entities@,
                es == self.world.spec_entities(),
                comps == self.world.spec_components(),
                first_player_position(comps, es) == first_player_position(
                    comps,
                    es.subrange(i as int, es.len() as int),
                ),
            decreases es.len() - i,
        {
            let e = entities[i];
            let ghost rest = es.subrange(i as int, es.len() as int);
            assert(rest[0] == e);
            if self.world.has_component(e, PLAYER_COMPONENT) {
                match self.world.get_component(e, GRID_POSITION_COMPONENT) {
                    Some(GridComponent::Position(p)) => {
                        return Some((p.x, p.y));
                    },
                    _ => {},
                }
            }
            assert(es.subrange(i + 1, es.len() as int) =~= rest.drop_first());
            i = i + 1;
        }
        None
    }

    /// The first entity, in creation order, with a component of type `type_id`.
    fn first_entity_with(&self, type_id: ComponentTypeId) -> (r: Option<Entity>)
        ensures
            r == first_with(self.world.spec_components(), self.world.spec_entities(), type_id),
    {
        let entities = self.world.get_all_entities();
        let ghost comps = self.world.spec_components();
        let ghost es = entities@;
        proof {
            assert(es.subrange(0, es.len() as int) =~= es);
        }
        let mut i: usize = 0;
        while i < entities.len()
            invariant
                i <= es.len(),
                es == entities@,
                es == self.world.spec_entities(),
                comps == self.world.spec_components(),
                first_with(comps, es, type_id) == first_with(
                    comps,
                    es.subrange(i as int, es.len() as int),
                    type_id,
                ),
            decreases es.len() - i,
        {
            let e = entities[i];
            let ghost rest = es.subrange(i as int, es.len() as int);
            assert(rest[0] == e);
            if self.world.has_component(e, type_id) {
                return Some(e);
            }
            assert(es.subrange(i + 1, es.len() as int) =~= rest.drop_first());
            i = i + 1;
        }
        None
    }

    /// The stored position of `entity`, when it has one.
    fn position_of(&self, entity: Entity) -> (r: Option<(i32, i32)>)
        ensures
            r == position_at(self.world.spec_components(), entity),
    {
        match self.world.get_component(entity, GRID_POSITION_COMPONENT) {
            Some(GridComponent::Position(p)) => Some((p.x, p.y)),
            _ => None,
        }
    }

    /// Whether an obstacle stands on (`x`, `y`).
    fn obstacle_on(&self, x: i32, y: i32) -> (b: bool)
        ensures
            b == obstacle_at(self.world.spec_components(), self.world.spec_entities(), x, y),
    {
        let entities = self.world.get_all_entities();
        let ghost comps = self.world.spec_components();
        let ghost es = entities@;
        let mut i: usize = 0;
        while i < entities.len()
            invariant
                i <= es.len(),
                es == entities@,
                es == self.world.spec_entities(),
                comps == self.world.spec_components(),
                forall|j: int|
                    0 <= j < i ==> !(has_in(comps, OBSTACLE_COMPONENT, #[trigger] es[j])
                        && position_at(comps, es[j]) == Some((x, y))),
            decreases es.len() - i,
        {
            let e = entities[i];
            if self.world.has_component(e, OBSTACLE_COMPONENT) {
                match self.position_of(e) {
                    Some(p) => {
                        if p.0 == x && p.1 == y {
                            return true;
                        }
                    },
                    None => {},
                }
            }
            i = i + 1;
        }
        false
    }

    /// Moves the first player, in creation order, by (`dx`, `dy`). The move
    /// is made, and `true` returned, when the player has a position, the
    /// target cell lies on the 10 by 8 field and no obstacle stands there;
    /// otherwise nothing changes and `false` is returned.
    pub fn move_player(&mut self, dx: i32, dy: i32) -> (moved: bool)
        requires
            old(self).world.wf(),
            ({
                let comps = old(self).world.spec_components();
                match first_with(comps, old(self).world.spec_entities(), PLAYER_COMPONENT) {
                    Some(e) => match position_at(comps, e) {
                        Some(p) => i32::MIN <= p.0 + dx <= i32::MAX && i32::MIN <= p.1 + dy
                            <= i32::MAX,
                        None => true,
                    },
                    None => true,
                }
            }),
        ensures
            ({
                let comps = old(self).world.spec_components();
                let es = old(self).world.spec_entities();
                match first_with(comps, es, PLAYER_COMPONENT) {
                    Some(e) => match position_at(comps, e) {
                        Some(p) => {
                            let nx = (p.0 + dx) as i32;
                            let ny = (p.1 + dy) as i32;
                            if in_grid(nx as int, ny as int) && !obstacle_at(comps, es, nx, ny) {
                                &&& moved
                                &&& final(self).world.wf()
                                &&& final(self).system_registry == old(self).system_registry
                                &&& final(self).world.spec_entities() == es
                                &&& final(self).world.spec_next_entity() == old(
                                    self,
                                ).world.spec_next_entity()
                                &&& final(self).world.spec_schedule() == old(
                                    self,
                                ).world.spec_schedule()
                                &&& final(self).world.spec_tracker() == old(
                                    self,
                                ).world.spec_tracker()
                                &&& final(self).world.spec_components() == comps.insert(
                                    GRID_POSITION_COMPONENT,
                                    comps[GRID_POSITION_COMPONENT].insert(
                                        e,
                                        GridComponent::Position(
                                            (GridPositionComponent { x: nx, y: ny }),
                                        ),
                                    ),
                                )
                            } else {
                                !moved && *final(self) == *old(self)
                            }
                        },
                        None => !moved && *final(self) == *old(self),
                    },
                    None => !moved && *final(self) == *old(self),
                }
            }),
    {
        let player = match self.first_entity_with(PLAYER_COMPONENT) {
            Some(e) => e,
            None => {
                return false;
            },
        };
        let current = match self.position_of(player) {
            Some(p) => p,
            None => {
                return false;
            },
        };
        let new_x = current.0 + dx;
        let new_y = current.1 + dy;
        if new_x < 0 || new_x >= GRID_WIDTH || new_y < 0 || new_y >= GRID_HEIGHT {
            return false;
        }
        if self.obstacle_on(new_x, new_y) {
            return false;
        }
        match self.world.get_component_mut(player, GRID_POSITION_COMPONENT) {
            Some(slot) => {
                *slot = GridComponent::Position(GridPositionComponent { x: new_x, y: new_y });
                true
            },
            None => false,
        }
    }

    /// The character `entity` is drawn with, when it has render information.
    fn symbol_of(&self, entity: Entity) -> (r: Option<char>)
        ensures
            r == symbol_at(self.world.spec_components(), entity),
    {
        match self.world.get_component(entity, RENDER_COMPONENT) {
            Some(GridComponent::Render(r)) => Some(r.symbol),
            _ => None,
        }
    }

    /// Draws the entities of kind `kind`, in creation order, onto `cells`.
    fn paint_layer(&self, cells: &mut Vec<char>, kind: ComponentTypeId)
        requires
            old(cells)@.len() == GRID_WIDTH * GRID_HEIGHT,
        ensures
            final(cells)@.len() == GRID_WIDTH * GRID_HEIGHT,
            forall|idx: int|
                0 <= idx < GRID_WIDTH * GRID_HEIGHT ==> #[trigger] final(cells)@[idx] == layer_cell(
                    self.world.spec_components(),
                    self.world.spec_entities(),
                    kind,
                    idx,
                    old(cells)@[idx],
                ),
    {
        let entities = self.world.get_all_entities();
        let ghost comps = self.world.spec_components();
        let ghost es = entities@;
        let ghost base = cells@;
        let mut i: usize = 0;
        while i < entities.len()
            invariant
                i <= es.len(),
                es == entities@,
                es == self.world.spec_entities(),
                comps == self.world.spec_components(),
                base == old(cells)@,
                cells@.len() == GRID_WIDTH * GRID_HEIGHT,
                forall|idx: int|
                    0 <= idx < GRID_WIDTH * GRID_HEIGHT ==> #[trigger] cells@[idx] == layer_cell(
                        comps,
                        es.take(i as int),
                        kind,
                        idx,
                        base[idx],
                    ),
            decreases es.len() - i,
        {
            let e = entities[i];
            let ghost prev = cells@;
            proof {
                assert(es.take(i + 1).drop_last() =~= es.take(i as int));
                assert(es.take(i + 1).last() == e);
            }
            if self.world.has_component(e, kind) {
                match (self.position_of(e), self.symbol_of(e)) {
                    (Some(p), Some(symbol)) => {
                        if p.0 >= 0 && p.0 < GRID_WIDTH && p.1 >= 0 && p.1 < GRID_HEIGHT {
                            let idx = (p.1 * GRID_WIDTH + p.0) as usize;
                            cells.set(idx, symbol);
                        }
                    },
                    _ => {},
                }
            }
            proof {
                assert forall|idx: int| 0 <= idx < GRID_WIDTH * GRID_HEIGHT implies #[trigger] cells@[idx]
                    == layer_cell(comps, es.take(i + 1), kind, idx, base[idx]) by {
                    assert(prev[idx] == layer_cell(comps, es.take(i as int), kind, idx, base[idx]));
                }
            }
            i = i + 1;
        }
        proof {
            assert(es.take(es.len() as int) =~= es);
        }
    }

    /// The board as text: 8 lines of 10 cells, separated by line breaks,
    /// showing `.` for an empty cell and otherwise the symbol of the entity
    /// drawn there, obstacles first and players over them, later entities
    /// over earlier ones.
    pub fn get_game_state(&self) -> (r: String)
        ensures
            r@ == board_text(
                self.world.spec_components(),
                self.world.spec_entities(),
                GRID_HEIGHT as nat,
            ),
    {
        let ghost comps = self.world.spec_components();
        let ghost es = self.world.spec_entities();
        let mut cells: Vec<char> = Vec::new();
        let mut k: usize = 0;
        while k < 80
            invariant
                k <= 80,
                cells@.len() == k,
                forall|idx: int| 0 <= idx < k ==> #[trigger] cells@[idx] == '.',
            decreases 80 - k,
        {
            cells.push('.');
            k = k + 1;
        }
        let ghost empty = cells@;
        self.paint_layer(&mut cells, OBSTACLE_COMPONENT);
        let ghost obstacles = cells@;
        self.paint_layer(&mut cells, PLAYER_COMPONENT);
        assert forall|idx: int| 0 <= idx < GRID_WIDTH * GRID_HEIGHT implies #[trigger] cells@[idx]
            == board_cell(comps, es, idx) by {
            assert(empty[idx] == '.');
            assert(obstacles[idx] == layer_cell(comps, es, OBSTACLE_COMPONENT, idx, '.'));
        }
        let mut out = String::new();
        let mut row: usize = 0;
        while row < 8
            invariant
                row <= 8,
                cells@.len() == GRID_WIDTH * GRID_HEIGHT,
                forall|idx: int| 0 <= idx < GRID_WIDTH * GRID_HEIGHT ==> #[trigger] cells@[idx]
                    == board_cell(comps, es, idx),
                out@ == board_text(comps, es, row as nat),
            decreases 8 - row,
        {
            let ghost start = out@;
            if row > 0 {
                push_char(&mut out, '\n');
            }
            let ghost prefix = out@;
            let mut col: usize = 0;
            while col < 10
                invariant
                    row < 8,
                    col <= 10,
                    cells@.len() == GRID_WIDTH * GRID_HEIGHT,
                    forall|idx: int| 0 <= idx < GRID_WIDTH * GRID_HEIGHT ==> #[trigger] cells@[idx]
                        == board_cell(comps, es, idx),
                    out@ == prefix + board_row(comps, es, row as int).take(col as int),
                decreases 10 - col,
            {
                let ghost before = out@;
                push_char(&mut out, cells[row * 10 + col]);
                proof {
                    assert(board_row(comps, es, row as int).take(col + 1) =~= board_row(
                        comps,
                        es,
                        row as int,
                    ).take(col as int).push(board_cell(comps, es, row * 10 + col)));
                }
                col = col + 1;
            }
            proof {
                assert(board_row(comps, es, row as int).take(10) =~= board_row(comps, es, row as int));
                if row == 0 {
                    assert(out@ =~= board_text(comps, es, 1));
                } else {
                    assert(out@ =~= board_text(comps, es, (row + 1) as nat));
                }
            }
            row = row + 1;
        }
        out
    }

    /// Creates the player entity.
    fn spawn_player(&mut self) -> (e: Entity)
        requires
            old(self).world.wf(),
            old(self).world.spec_next_entity() < u32::MAX,
        ensures
            final(self).world.wf(),
            e == old(self).world.spec_next_entity(),
            final(self).world.spec_next_entity() == old(self).world.spec_next_entity() + 1,
            final(self).world.spec_entities() == old(self).world.spec_entities().push(e),
            final(self).world.spec_schedule() == old(self).world.spec_schedule(),
            final(self).world.spec_tracker() == old(self).world.spec_tracker(),
            final(self).system_registry == old(self).system_registry,
            player_spawned(final(self).world.spec_components(), e),
            forall|t: ComponentTypeId, e2: Entity|
                !(e2 == e && player_part(t)) ==> same_component(
                    old(self).world.spec_components(),
                    final(self).world.spec_components(),
                    t,
                    e2,
                ),
    {
        let e = self.world.create_entity();
        self.world.add_component(
            e,
            GRID_POSITION_COMPONENT,
            GridComponent::Position(GridPositionComponent { x: 1, y: 1 }),
        );
        self.world.add_component(
            e,
            PLAYER_COMPONENT,
            GridComponent::Player(PlayerComponent { name: String::from_str("Hero") }),
        );
        self.world.add_component(e, INPUT_COMPONENT, GridComponent::Input(InputComponent::new()));
        self.world.add_component(
            e,
            RENDER_COMPONENT,
            GridComponent::Render(RenderComponent { symbol: '@', color: String::from_str("red") }),
        );
        e
    }

    /// Creates an obstacle entity on (`x`, `y`).
    fn spawn_obstacle(&mut self, x: i32, y: i32) -> (e: Entity)
        requires
            old(self).world.wf(),
            old(self).world.spec_next_entity() < u32::MAX,
        ensures
            final(self).world.wf(),
            e == old(self).world.spec_next_entity(),
            final(self).world.spec_next_entity() == old(self).world.spec_next_entity() + 1,
            final(self).world.spec_entities() == old(self).world.spec_entities().push(e),
            final(self).world.spec_schedule() == old(self).world.spec_schedule(),
            final(self).world.spec_tracker() == old(self).world.spec_tracker(),
            final(self).system_registry == old(self).system_registry,
            obstacle_spawned(final(self).world.spec_components(), e, (x, y)),
            forall|t: ComponentTypeId, e2: Entity|
                !(e2 == e && obstacle_part(t)) ==> same_component(
                    old(self).world.spec_components(),
                    final(self).world.spec_components(),
                    t,
                    e2,
                ),
    {
        let e = self.world.create_entity();
        self.world.add_component(
            e,
            GRID_POSITION_COMPONENT,
            GridComponent::Position(GridPositionComponent { x, y }),
        );
        self.world.add_component(
            e,
            OBSTACLE_COMPONENT,
            GridComponent::Obstacle(ObstacleComponent { block_movement: true }),
        );
        self.world.add_component(
            e,
            RENDER_COMPONENT,
            GridComponent::Render(RenderComponent { symbol: '#', color: String::from_str("brown") }),
        );
        e
    }

    /// Sets up a game: the player on the next entity, then one obstacle
    /// entity for each of the obstacle cells, in order.
    pub fn initialize_game(&mut self)
        requires
            old(self).world.wf(),
            old(self).world.spec_next_entity() + 13 <= u32::MAX,
        ensures
            ({
                let n = old(self).world.spec_next_entity();
                let before = old(self).world.spec_components();
                let after = final(self).world.spec_components();
                &&& final(self).world.wf()
                &&& final(self).world.spec_next_entity() == n + 13
                &&& final(self).world.spec_entities() == old(self).world.spec_entities() + Seq::new(
                    13,
                    |i: int| (n + i) as Entity,
                )
                &&& final(self).world.spec_schedule() == old(self).world.spec_schedule()
                &&& final(self).world.spec_tracker() == old(self).world.spec_tracker()
                &&& final(self).system_registry == old(self).system_registry
                &&& player_spawned(after, n as Entity)
                &&& forall|k: int|
                    0 <= k < 12 ==> obstacle_spawned(
                        after,
                        (n + 1 + k) as Entity,
                        #[trigger] obstacle_cells()[k],
                    )
                &&& forall|t: ComponentTypeId, e: Entity|
                    !spawn_written(n as int, t, e) ==> same_component(before, after, t, e)
            }),
    {
        let ghost n = self.world.spec_next_entity();
        let ghost start = self.world.spec_components();
        let ghost start_entities = self.world.spec_entities();
        let player = self.spawn_player();
        let mut cells: Vec<(i32, i32)> = Vec::new();
        cells.push((3, 1));
        cells.push((4, 1));
        cells.push((5, 1));
        cells.push((3, 2));
        cells.push((3, 3));
        cells.push((3, 4));
        cells.push((7, 2));
        cells.push((8, 2));
        cells.push((9, 2));
        cells.push((1, 5));
        cells.push((2, 5));
        cells.push((3, 5));
        assert(cells@ =~= obstacle_cells());
        let mut k: usize = 0;
        while k < cells.len()
            invariant
                k <= 12,
                cells@ == obstacle_cells(),
                player == n,
                n + 13 <= u32::MAX,
                self.world.wf(),
                self.world.spec_next_entity() == n + 1 + k,
                self.world.spec_entities() == start_entities + Seq::new(
                    (k + 1) as nat,
                    |i: int| (n + i) as Entity,
                ),
                self.world.spec_schedule() == old(self).world.spec_schedule(),
                self.world.spec_tracker() == old(self).world.spec_tracker(),
                self.system_registry == old(self).system_registry,
                start == old(self).world.spec_components(),
                start_entities == old(self).world.spec_entities(),
                n == old(self).world.spec_next_entity(),
                player_spawned(self.world.spec_components(), player),
                forall|j: int|
                    0 <= j < k ==> obstacle_spawned(
                        self.world.spec_components(),
                        (n + 1 + j) as Entity,
                        #[trigger] obstacle_cells()[j],
                    ),
                forall|t: ComponentTypeId, e: Entity|
                    !(e == n && player_part(t)) && !(n < e <= n + k && obstacle_part(t))
                        ==> same_component(start, self.world.spec_components(), t, e),
            decreases 12 - k,
        {
            let ghost prev = self.world.spec_components();
            let ghost prev_entities = self.world.spec_entities();
            let cell = cells[k];
            let e = self.spawn_obstacle(cell.0, cell.1);
            proof {
                let now = self.world.spec_components();
                assert(player_spawned(now, player)) by {
                    assert(same_component(prev, now, GRID_POSITION_COMPONENT, player));
                    assert(same_component(prev, now, PLAYER_COMPONENT, player));
                    assert(same_component(prev, now, INPUT_COMPONENT, player));
                    assert(same_component(prev, now, RENDER_COMPONENT, player));
                }
                assert forall|j: int| 0 <= j < k + 1 implies obstacle_spawned(
                    now,
                    (n + 1 + j) as Entity,
                    #[trigger] obstacle_cells()[j],
                ) by {
                    if j < k {
                        let ej = (n + 1 + j) as Entity;
                        assert(obstacle_spawned(prev, ej, obstacle_cells()[j]));
                        assert(same_component(prev, now, GRID_POSITION_COMPONENT, ej));
                        assert(same_component(prev, now, OBSTACLE_COMPONENT, ej));
                        assert(same_component(prev, now, RENDER_COMPONENT, ej));
                    }
                }
                assert forall|t: ComponentTypeId, x: Entity|
                    !(x == n && player_part(t)) && !(n < x <= n + k + 1 && obstacle_part(
                        t,
                    )) implies same_component(start, now, t, x) by {
                    assert(same_component(prev, now, t, x));
                    assert(same_component(start, prev, t, x));
                }
                assert(self.world.spec_entities() =~= start_entities + Seq::new(
                    (k + 2) as nat,
                    |i: int| (n + i) as Entity,
                ));
            }
            k = k + 1;
        }
    }

    /// Runs one update cycle: the registered systems run, each after the
    /// systems it depends on, and their names are returned in that order; a
    /// dependency cycle is an error and nothing runs.
    pub fn update(&mut self) -> (r: Result<Vec<String>, String>)
        requires
            old(self).system_registry.wf(),
        ensures
            *final(self) == *old(self),
            match r {
                Ok(names) => exists|order: Seq<int>|
                    crate::schedule::is_execution_order(
                        old(self).system_registry.spec_systems(),
                        old(self).system_registry.spec_system_deps(),
                        order,
                    ) && crate::ecs::string_views(names@) == order.map_values(
                        |k: int| old(self).system_registry.spec_systems()[k],
                    ),
                Err(m) => {
                    &&& m@ == "Circular dependency between systems"@
                    &&& !exists|order: Seq<int>|
                        crate::schedule::is_execution_order(
                            old(self).system_registry.spec_systems(),
                            old(self).system_registry.spec_system_deps(),
                            order,
                        )
                },
            },
            crate::schedule::is_execution_order(
                old(self).system_registry.spec_systems(),
                old(self).system_registry.spec_system_deps(),
                Seq::new(old(self).system_registry.spec_systems().len(), |k: int| k),
            ) ==> (r matches Ok(names) && crate::ecs::string_views(names@)
                == old(self).system_registry.spec_systems()),
    {
        self.system_registry.execute_systems(&self.world)
    }
}

} // verus!
