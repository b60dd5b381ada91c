//! The simulation state and its per-tick update: a hive, resource nodes,
//! programmable units, a movement system with tile collision and a harvest
//! system that moves resources between containers one unit at a time.

use vstd::prelude::*;

use crate::components::{lemma_map_key_has_owner, ComponentManager, DefaultComponent};
use crate::entity_manager::{Entity, EntityManager};
use crate::position::{dist_sq_spec, Position};
use crate::utils::{manhat_distance, manhat_spec};

verus! {

/// How much energy an entity carries.
#[derive(Clone, Copy, Debug, PartialEq, Eq, Structural)]
pub struct EnergyLevel {
    pub value: u32,
}

/// Per-resource counters for what an entity holds of each solid resource.
#[derive(Clone, Copy, Debug, PartialEq, Eq, Structural)]
pub struct SolidContainer {
    pub iron_count: u32,
    pub copper_count: u32,
}

/// A compass direction.
#[derive(Clone, Copy, Debug, PartialEq, Eq, Structural)]
pub enum Direction {
    North,
    East,
    South,
    West,
}

/// The solid resources a container can hold.
#[derive(Clone, Copy, Debug, PartialEq, Eq, Structural)]
pub enum ResourceKind {
    Iron,
    Copper,
}

/// Marks an entity as occupying its tile: no other entity may move onto the
/// tile of an entity that owns a `Collision` component.
#[derive(Clone, Copy, Debug, PartialEq, Eq, Structural)]
pub struct Collision {
    pub value: bool,
}

/// A mineable resource node's remaining and initial amounts.
#[derive(Clone, Copy, Debug, PartialEq, Eq, Structural)]
pub struct MineableNode {
    pub current_amount: u32,
    pub initial_amount: u32,
}

/// One tile of flooring in the world grid.
#[derive(Clone, Copy, Debug, PartialEq, Eq, Structural)]
pub struct Tile {}

/// One instruction of an entity's program.
#[derive(Clone, Copy, Debug, PartialEq, Eq, Structural)]
pub enum Command {
    /// Teleport to the exact position, subject to the collision and
    /// per-tick-displacement checks.
    MoveP(Position),
    /// Steer toward the destination at a fixed speed, over as many ticks as
    /// it takes.
    MoveD(Position),
    /// Pull one unit of iron out of the target entity.
    Harvest(Entity),
    /// Push one unit of iron into the target entity.
    Deposit(Entity),
}

/// An entity's program: a command list and the index of the next command to
/// run. The counter wraps to 0 after the last command, so programs loop.
#[derive(Clone, Debug)]
pub struct Memory {
    pub program_counter: u32,
    pub commands: Vec<Command>,
}

impl DefaultComponent for EnergyLevel {
    open spec fn default_spec() -> EnergyLevel {
        EnergyLevel { value: 0 }
    }

    fn make_default() -> (r: EnergyLevel) {
        EnergyLevel { value: 0 }
    }
}

impl DefaultComponent for SolidContainer {
    open spec fn default_spec() -> SolidContainer {
        SolidContainer { iron_count: 0, copper_count: 0 }
    }

    fn make_default() -> (r: SolidContainer) {
        SolidContainer { iron_count: 0, copper_count: 0 }
    }
}

impl DefaultComponent for Collision {
    open spec fn default_spec() -> Collision {
        Collision { value: false }
    }

    fn make_default() -> (r: Collision) {
        Collision { value: false }
    }
}

impl DefaultComponent for MineableNode {
    open spec fn default_spec() -> MineableNode {
        MineableNode { current_amount: 0, initial_amount: 0 }
    }

    fn make_default() -> (r: MineableNode) {
        MineableNode { current_amount: 0, initial_amount: 0 }
    }
}

impl DefaultComponent for Position {
    open spec fn default_spec() -> Position {
        Position::norm(0, 0)
    }

    fn make_default() -> (r: Position) {
        Position::new(0, 0)
    }
}

/// An empty program with the counter at 0.
pub fn empty_memory() -> (r: Memory)
    ensures
        r.program_counter == 0,
        r.commands@ == Seq::<Command>::empty(),
{
    Memory { program_counter: 0, commands: Vec::new() }
}

/// Specification-level value of a `Memory`: the counter and the commands as
/// a sequence.
#[verifier::ext_equal]
pub struct MemView {
    pub pc: u32,
    pub commands: Seq<Command>,
}

/// The specification-level value of a `Memory`.
pub open spec fn mem_view(m: Memory) -> MemView {
    MemView { pc: m.program_counter, commands: m.commands@ }
}

/// Specification-level value of one component store: the owners in dense
/// order and the contents as a map from owner identifier to component value.
#[verifier::ext_equal]
pub struct CompView<V> {
    pub order: Seq<Entity>,
    pub map: Map<u64, V>,
}

impl<V> CompView<V> {
    /// Whether `e` owns a component.
    pub open spec fn has(self, e: Entity) -> bool {
        self.map.contains_key(e.0)
    }

    /// The component `e` owns.
    pub open spec fn at(self, e: Entity) -> V {
        self.map[e.0]
    }

    /// Registers a component for a new owner, appended to the dense order.
    pub open spec fn insert_new(self, e: Entity, v: V) -> CompView<V> {
        CompView { order: self.order.push(e), map: self.map.insert(e.0, v) }
    }

    /// Overwrites an existing owner's component.
    pub open spec fn set(self, e: Entity, v: V) -> CompView<V> {
        CompView { order: self.order, map: self.map.insert(e.0, v) }
    }
}

/// The specification-level value of a component store.
pub open spec fn cm_view<T>(m: ComponentManager<T>) -> CompView<T> {
    CompView { order: m.owner_seq(), map: m.map_spec() }
}

/// Maps every stored `Memory` to its specification-level value.
pub open spec fn mem_map_view(m: Map<u64, Memory>) -> Map<u64, MemView> {
    Map::new(|k: u64| m.contains_key(k), |k: u64| mem_view(m[k]))
}

/// Inserting into a memory store and then taking views is the same as
/// inserting the view into the viewed store.
pub proof fn lemma_mem_map_view_insert(m: Map<u64, Memory>, k: u64, v: Memory)
    ensures
        mem_map_view(m.insert(k, v)) == mem_map_view(m).insert(k, mem_view(v)),
{
    assert(mem_map_view(m.insert(k, v)) =~= mem_map_view(m).insert(k, mem_view(v)));
}

/// The specification-level value of a memory store.
pub open spec fn cm_mem_view(m: ComponentManager<Memory>) -> CompView<MemView> {
    CompView { order: m.owner_seq(), map: mem_map_view(m.map_spec()) }
}

/// Specification-level value of a whole game state.
#[verifier::ext_equal]
pub struct GameView {
    /// Live entities in creation order.
    pub live: Seq<Entity>,
    /// The identifier the next created entity will get.
    pub next_id: u64,
    /// The distinguished hive entity, once created.
    pub hive: Option<Entity>,
    pub positions: CompView<Position>,
    pub collisions: CompView<Collision>,
    pub energy: CompView<EnergyLevel>,
    pub mines: CompView<MineableNode>,
    pub memories: CompView<MemView>,
    pub containers: CompView<SolidContainer>,
}

/// Every owner in `order` has an identifier below `n`.
pub open spec fn owners_below(order: Seq<Entity>, n: u64) -> bool {
    forall|i: int| 0 <= i < order.len() ==> (#[trigger] order[i]).0 < n
}

/// One frame of the game: the entity manager, one component store per
/// component kind, and the distinguished hive entity.
pub struct GameState {
    entity_manager: EntityManager,
    positions: ComponentManager<Position>,
    collision: ComponentManager<Collision>,
    energy_levels: ComponentManager<EnergyLevel>,
    hive_entity: Option<Entity>,
    iron_mines: ComponentManager<MineableNode>,
    memory: ComponentManager<Memory>,
    solid_containers: ComponentManager<SolidContainer>,
}

impl View for GameState {
    type V = GameView;

    closed spec fn view(&self) -> GameView {
        GameView {
            live: self.entity_manager.live(),
            next_id: self.entity_manager.next_id(),
            hive: self.hive_entity,
            positions: cm_view(self.positions),
            collisions: cm_view(self.collision),
            energy: cm_view(self.energy_levels),
            mines: cm_view(self.iron_mines),
            memories: cm_mem_view(self.memory),
            containers: cm_view(self.solid_containers),
        }
    }
}

impl GameState {
    /// The entity manager and every store are internally consistent, every
    /// component owner was created by the entity manager, and every stored
    /// program is short enough for its counter.
    pub closed spec fn wf(&self) -> bool {
        &&& self.entity_manager.wf()
        &&& self.positions.wf()
        &&& self.collision.wf()
        &&& self.energy_levels.wf()
        &&& self.iron_mines.wf()
        &&& self.memory.wf()
        &&& self.solid_containers.wf()
        &&& owners_below(self.positions.owner_seq(), self.entity_manager.next_id())
        &&& owners_below(self.collision.owner_seq(), self.entity_manager.next_id())
        &&& owners_below(self.energy_levels.owner_seq(), self.entity_manager.next_id())
        &&& owners_below(self.iron_mines.owner_seq(), self.entity_manager.next_id())
        &&& owners_below(self.memory.owner_seq(), self.entity_manager.next_id())
        &&& owners_below(self.solid_containers.owner_seq(), self.entity_manager.next_id())
        &&& match self.hive_entity {
            Some(e) => e.0 < self.entity_manager.next_id(),
            None => true,
        }
        &&& forall|k: u64| #[trigger]
            self.memory.map_spec().contains_key(k) ==> self.memory.map_spec()[k].commands@.len()
                <= u32::MAX
    }

    /// An empty game: no entities, no hive.
    pub fn new() -> (r: GameState)
        ensures
            r.wf(),
            r@ == empty_game_view(),
    {
        let r = GameState {
            entity_manager: EntityManager::new(),
            positions: ComponentManager::<Position>::new(),
            energy_levels: ComponentManager::<EnergyLevel>::new(),
            hive_entity: None,
            collision: ComponentManager::<Collision>::new(),
            iron_mines: ComponentManager::<MineableNode>::new(),
            memory: ComponentManager::<Memory>::new(),
            solid_containers: ComponentManager::<SolidContainer>::new(),
        };
        proof {
            assert(mem_map_view(r.memory.map_spec()) =~= Map::<u64, MemView>::empty());
            assert(r@ =~= empty_game_view());
        }
        r
    }

    /// Whether the hive has been created.
    pub fn has_hive(&self) -> (r: bool)
        ensures
            r == self@.hive.is_some(),
    {
        match self.hive_entity {
            Some(_) => true,
            None => false,
        }
    }

    /// Creates the distinguished hive entity at tile `(x, y)` with an empty
    /// resource container. Does nothing if the hive already exists.
    pub fn create_hive(&mut self, x: u32, y: u32)
        requires
            old(self).wf(),
            old(self)@.next_id < u64::MAX,
        ensures
            final(self).wf(),
            final(self)@ == create_hive_spec(old(self)@, x, y),
    {
        match self.hive_entity {
            None => {
                let e = self.entity_manager.create();
                proof {
                    lemma_fresh_key(&self.positions, e, old(self)@.next_id);
                    lemma_fresh_key(&self.solid_containers, e, old(self)@.next_id);
                }
                self.hive_entity = Some(e);
                self.positions.create_with(&e, Position::new(x, y));
                self.solid_containers.create_with(
                    &e,
                    SolidContainer { iron_count: 0, copper_count: 0 },
                );
                proof {
                    assert(self@ =~= create_hive_spec(old(self)@, x, y));
                    lemma_owners_below_grow(old(self).positions.owner_seq(), old(self)@.next_id);
                    lemma_owners_below_grow(old(self).collision.owner_seq(), old(self)@.next_id);
                    lemma_owners_below_grow(
                        old(self).energy_levels.owner_seq(),
                        old(self)@.next_id,
                    );
                    lemma_owners_below_grow(old(self).iron_mines.owner_seq(), old(self)@.next_id);
                    lemma_owners_below_grow(old(self).memory.owner_seq(), old(self)@.next_id);
                    lemma_owners_below_grow(
                        old(self).solid_containers.owner_seq(),
                        old(self)@.next_id,
                    );
                }
            },
            Some(_) => {},
        }
    }

    /// All live entities, in creation order.
    pub fn get_units(&self) -> (r: Vec<Entity>)
        ensures
            r@ == self@.live,
    {
        self.entity_manager.units()
    }

    /// All entities that own a program, in the store's dense order.
    pub fn get_programable_units(&self) -> (r: Vec<Entity>)
        ensures
            r@ == self@.memories.order,
    {
        self.memory.owners()
    }

    /// The position of `entity`, which must own one.
    pub fn get_entity_position(&self, entity: &Entity) -> (r: Position)
        requires
            self.wf(),
            self@.positions.has(*entity),
        ensures
            r == self@.positions.at(*entity),
    {
        match self.positions.get(entity) {
            Some(p) => *p,
            None => vstd::pervasive::unreached(),
        }
    }

    /// All entities that own a resource container, in the store's dense
    /// order.
    pub fn get_mineable_nodes(&self) -> (r: Vec<Entity>)
        ensures
            r@ == self@.containers.order,
    {
        self.solid_containers.owners()
    }

    /// The iron count of `mineable_entity`'s container, or `None` if it has
    /// no container.
    pub fn get_mineable_count(&self, mineable_entity: &Entity) -> (r: Option<u32>)
        requires
            self.wf(),
        ensures
            match r {
                Some(c) => self@.containers.has(*mineable_entity) && c == self@.containers.at(
                    *mineable_entity,
                ).iron_count,
                None => !self@.containers.has(*mineable_entity),
            },
    {
        match self.solid_containers.get(mineable_entity) {
            Some(t) => Some(t.iron_count),
            None => None,
        }
    }
}

/// Turns a walked path into a program: one exact-move command per path
/// point, in order.
pub fn generate_pathing_program(path: &crate::utils::Path) -> (r: Vec<Command>)
    ensures
        r@.len() == path.path_points@.len(),
        forall|i: int|
            0 <= i < r@.len() ==> r@[i] == Command::MoveP(
                Position::norm(
                    (#[trigger] path.path_points@[i]).0 * 100,
                    path.path_points@[i].1 * 100,
                ),
            ),
{
    let mut program = Vec::<Command>::new();
    let n = path.path_points.len();
    let mut i: usize = 0;
    while i < n
        invariant
            n == path.path_points@.len(),
            i <= n,
            program@.len() == i,
            forall|j: int|
                0 <= j < i ==> program@[j] == Command::MoveP(
                    Position::norm(
                        (#[trigger] path.path_points@[j]).0 * 100,
                        path.path_points@[j].1 * 100,
                    ),
                ),
        decreases n - i,
    {
        let p = path.path_points[i];
        let current_pos = Position::new(p.0, p.1);
        program.push(Command::MoveP(current_pos));
        i = i + 1;
    }
    program
}

/// The standard harvest round trip: steer to the target's tile, harvest it,
/// steer back to the hive tile `(0, 0)` and deposit into the hive entity.
pub fn program_harvest_unit(
    _entity: &Entity,
    target_entity: &Entity,
    target_pos: &Position,
) -> (r: Vec<Command>)
    ensures
        r@ == seq![
            Command::MoveD(
                Position::norm(target_pos.tile_x() * 100, target_pos.tile_y() * 100),
            ),
            Command::Harvest(*target_entity),
            Command::MoveD(Position::norm(0, 0)),
            Command::Deposit(Entity(1)),
        ],
{
    let mut prog = Vec::new();
    prog.push(Command::MoveD(Position::new(target_pos.get_x(), target_pos.get_y())));
    prog.push(Command::Harvest(*target_entity));
    prog.push(Command::MoveD(Position::new(0, 0)));
    prog.push(Command::Deposit(Entity(1)));
    proof {
        assert(prog@ =~= seq![
            Command::MoveD(
                Position::norm(target_pos.tile_x() * 100, target_pos.tile_y() * 100),
            ),
            Command::Harvest(*target_entity),
            Command::MoveD(Position::norm(0, 0)),
            Command::Deposit(Entity(1)),
        ]);
    }
    prog
}

/// The dump's heading for one entity.
pub open spec fn dump_head_spec(e: Entity) -> Seq<char> {
    "Entity: "@ + crate::utils::dec_str(e.0 as nat) + "\n"@
}

/// The dump's position line for one entity, giving the combined
/// coordinates in hundredths of a tile; empty if it owns no position.
pub open spec fn dump_pos_spec(g: GameView, e: Entity) -> Seq<char> {
    if g.positions.has(e) {
        "\t P: "@ + crate::utils::dec_str(g.positions.at(e).cx() as nat) + ", "@
            + crate::utils::dec_str(g.positions.at(e).cy() as nat) + "\n"@
    } else {
        Seq::empty()
    }
}

/// The dump's energy line for one entity; empty if it owns no energy level.
pub open spec fn dump_energy_spec(g: GameView, e: Entity) -> Seq<char> {
    if g.energy.has(e) {
        "\t E: "@ + crate::utils::dec_str(g.energy.at(e).value as nat) + "\n"@
    } else {
        Seq::empty()
    }
}

/// The dump's iron line for one entity; empty if it owns no container.
pub open spec fn dump_iron_spec(g: GameView, e: Entity) -> Seq<char> {
    if g.containers.has(e) {
        "\t I: "@ + crate::utils::dec_str(g.containers.at(e).iron_count as nat) + "\n"@
    } else {
        Seq::empty()
    }
}

/// One entity's part of the debug dump: its identifier, then one line per
/// component it owns.
pub open spec fn entity_line_spec(g: GameView, e: Entity) -> Seq<char> {
    dump_head_spec(e) + dump_pos_spec(g, e) + dump_energy_spec(g, e) + dump_iron_spec(g, e)
}

/// The debug dump of the first `n` live entities, in creation order.
pub open spec fn dump_spec(g: GameView, n: int) -> Seq<char>
    decreases n,
{
    if n <= 0 {
        Seq::empty()
    } else {
        dump_spec(g, n - 1) + entity_line_spec(g, g.live[n - 1])
    }
}

impl GameState {
    /// A human-readable dump of every live entity and its components, for
    /// debugging.
    pub fn string(&self) -> (r: String)
        requires
            self.wf(),
        ensures
            r@ == dump_spec(self@, self@.live.len() as int),
    {
        let mut res = String::new();
        let n = self.entity_manager.count();
        let mut i: usize = 0;
        proof {
            assert(res@ =~= dump_spec(self@, 0));
        }
        while i < n
            invariant
                self.wf(),
                n == self@.live.len(),
                i <= n,
                res@ == dump_spec(self@, i as int),
            decreases n - i,
        {
            let entity = self.entity_manager.entity_at(i);
            let line = self.dump_entity_line(&entity);
            res.push_str(line.as_str());
            proof {
                assert(res@ =~= dump_spec(self@, i + 1));
            }
            i = i + 1;
        }
        res
    }

    /// One entity's lines of the debug dump.
    fn dump_entity_line(&self, entity: &Entity) -> (r: String)
        requires
            self.wf(),
        ensures
            r@ == entity_line_spec(self@, *entity),
    {
        let mut res = String::new();
        let entity = *entity;
        let ghost base = res@;
        res.push_str("Entity: ");
        let id_digits = crate::utils::u64_dec(entity.0);
        res.push_str(id_digits.as_str());
        res.push_str("\n");
        proof {
            assert(res@ =~= base + dump_head_spec(entity));
        }
        let ghost after_head = res@;
        match self.positions.get(&entity) {
            Some(t) => {
                res.push_str("\t P: ");
                let cx_digits = crate::utils::u64_dec(t.combined_x());
                res.push_str(cx_digits.as_str());
                res.push_str(", ");
                let cy_digits = crate::utils::u64_dec(t.combined_y());
                res.push_str(cy_digits.as_str());
                res.push_str("\n");
                proof {
                    assert(res@ =~= after_head + dump_pos_spec(self@, entity));
                }
            },
            None => {},
        }
        let ghost after_pos = res@;
        match self.energy_levels.get(&entity) {
            Some(t) => {
                res.push_str("\t E: ");
                let e_digits = crate::utils::u64_dec(t.value as u64);
                res.push_str(e_digits.as_str());
                res.push_str("\n");
                proof {
                    assert(res@ =~= after_pos + dump_energy_spec(self@, entity));
                }
            },
            None => {},
        }
        let ghost after_energy = res@;
        match self.solid_containers.get(&entity) {
            Some(t) => {
                res.push_str("\t I: ");
                let i_digits = crate::utils::u64_dec(t.iron_count as u64);
                res.push_str(i_digits.as_str());
                res.push_str("\n");
                proof {
                    assert(res@ =~= after_energy + dump_iron_spec(self@, entity));
                }
            },
            None => {},
        }
        proof {
            assert(after_pos =~= after_head + dump_pos_spec(self@, entity));
            assert(after_energy =~= after_pos + dump_energy_spec(self@, entity));
            assert(res@ =~= after_energy + dump_iron_spec(self@, entity));
            assert(res@ =~= entity_line_spec(self@, entity));
        }
        res
    }
}

/// The view of an empty game.
pub open spec fn empty_game_view() -> GameView {
    GameView {
        live: Seq::empty(),
        next_id: 1,
        hive: None,
        positions: empty_comp_view(),
        collisions: empty_comp_view(),
        energy: empty_comp_view(),
        mines: empty_comp_view(),
        memories: empty_comp_view(),
        containers: empty_comp_view(),
    }
}

/// The view of an empty component store.
pub open spec fn empty_comp_view<V>() -> CompView<V> {
    CompView { order: Seq::empty(), map: Map::empty() }
}

/// What `create_hive` does: if no hive exists, a fresh entity becomes the
/// hive, placed at tile `(x, y)` with an empty resource container.
pub open spec fn create_hive_spec(g: GameView, x: u32, y: u32) -> GameView {
    if g.hive is Some {
        g
    } else {
        let e = Entity(g.next_id);
        GameView {
            live: g.live.push(e),
            next_id: (g.next_id + 1) as u64,
            hive: Some(e),
            positions: g.positions.insert_new(e, Position::norm(x * 100, y * 100)),
            containers: g.containers.insert_new(
                e,
                SolidContainer { iron_count: 0, copper_count: 0 },
            ),
            ..g
        }
    }
}

/// A fresh entity identifier is not a key of any store whose owners all lie
/// below it.
proof fn lemma_fresh_key<T>(m: &ComponentManager<T>, e: Entity, n: u64)
    requires
        m.wf(),
        owners_below(m.owner_seq(), n),
        e.0 >= n,
    ensures
        !m.map_spec().contains_key(e.0),
{
    if m.map_spec().contains_key(e.0) {
        lemma_map_key_has_owner(m, e.0);
    }
}

/// Owners below a bound stay below any larger bound.
proof fn lemma_owners_below_grow(order: Seq<Entity>, n: u64)
    requires
        owners_below(order, n),
        n < u64::MAX,
    ensures
        owners_below(order, (n + 1) as u64),
{
}

/// How a single call of the movement system ends.
#[derive(Clone, Copy, Debug, PartialEq, Eq, Structural)]
pub enum MoveOutcome {
    /// The entity's position was replaced by the requested one.
    Moved,
    /// Another collision-holding entity already occupies the target tile;
    /// nothing changed.
    Collides,
    /// The move would cover more than one tile-equivalent (100 offset
    /// units) in a single tick; nothing changed.
    TooFast,
}

/// How a single call of the harvest system ends.
#[derive(Clone, Copy, Debug, PartialEq, Eq, Structural)]
pub enum HarvestOutcome {
    /// One resource unit moved from the target into the harvester.
    Harvested,
    /// The two entities are more than 2 tiles apart; nothing changed.
    TooFar,
    /// The target owns no resource container; nothing changed.
    NothingToHarvest,
    /// The target's count for the requested resource is zero; nothing
    /// changed.
    Empty,
    /// The harvester's count for the requested resource is already at its
    /// maximum, so the unit could not be conserved; nothing changed.
    Full,
}

/// The count `c` holds of the resource `kind`.
pub open spec fn container_count(c: SolidContainer, kind: ResourceKind) -> u32 {
    match kind {
        ResourceKind::Iron => c.iron_count,
        ResourceKind::Copper => c.copper_count,
    }
}

/// `c` with its count for `kind` replaced by `n`.
pub open spec fn container_with(c: SolidContainer, kind: ResourceKind, n: u32) -> SolidContainer {
    match kind {
        ResourceKind::Iron => SolidContainer { iron_count: n, copper_count: c.copper_count },
        ResourceKind::Copper => SolidContainer { iron_count: c.iron_count, copper_count: n },
    }
}

/// The count `c` holds of the resource `kind`.
pub fn count_of(c: &SolidContainer, kind: ResourceKind) -> (r: u32)
    ensures
        r == container_count(*c, kind),
{
    match kind {
        ResourceKind::Iron => c.iron_count,
        ResourceKind::Copper => c.copper_count,
    }
}

/// `c` with its count for `kind` replaced by `n`.
pub fn with_count(c: SolidContainer, kind: ResourceKind, n: u32) -> (r: SolidContainer)
    ensures
        r == container_with(c, kind, n),
{
    match kind {
        ResourceKind::Iron => SolidContainer { iron_count: n, copper_count: c.copper_count },
        ResourceKind::Copper => SolidContainer { iron_count: c.iron_count, copper_count: n },
    }
}

/// Whether `owner` stands in the way of `entity` moving to `new_pos`:
/// a different entity whose position is on the same tile as `new_pos`.
pub open spec fn blocks_move(
    positions: CompView<Position>,
    owner: Entity,
    entity: Entity,
    new_pos: Position,
) -> bool {
    &&& owner != entity
    &&& positions.has(owner)
    &&& positions.at(owner).tile_x() == new_pos.tile_x()
    &&& positions.at(owner).tile_y() == new_pos.tile_y()
}

/// Whether any collision-holding entity other than `entity` occupies the
/// tile of `new_pos`.
pub open spec fn move_blocked_spec(
    positions: CompView<Position>,
    collisions: CompView<Collision>,
    entity: Entity,
    new_pos: Position,
) -> bool {
    exists|i: int|
        0 <= i < collisions.order.len() && blocks_move(
            positions,
            #[trigger] collisions.order[i],
            entity,
            new_pos,
        )
}

/// How the movement system decides: collision first, then the per-tick
/// displacement cap of 100 offset units, measured on squared distances.
pub open spec fn movement_outcome_spec(
    positions: CompView<Position>,
    collisions: CompView<Collision>,
    entity: Entity,
    new_pos: Position,
) -> MoveOutcome {
    if move_blocked_spec(positions, collisions, entity, new_pos) {
        MoveOutcome::Collides
    } else if dist_sq_spec(positions.at(entity), new_pos) > 10000 {
        MoveOutcome::TooFast
    } else {
        MoveOutcome::Moved
    }
}

/// Moves `entity` to `new_pos` unless a collision-holding entity already
/// occupies that tile or the displacement exceeds one tile-equivalent per
/// tick. On rejection nothing is changed, and the outcome says which check
/// failed; the collision store is never changed.
pub fn movement_system(
    entity: &Entity,
    positions: &mut ComponentManager<Position>,
    collisions: &mut ComponentManager<Collision>,
    new_pos: Position,
) -> (r: MoveOutcome)
    requires
        old(positions).wf(),
        old(positions).map_spec().contains_key(entity.0),
    ensures
        *final(collisions) == *old(collisions),
        final(positions).wf(),
        r == movement_outcome_spec(
            cm_view(*old(positions)),
            cm_view(*old(collisions)),
            *entity,
            new_pos,
        ),
        r == MoveOutcome::Moved ==> cm_view(*final(positions)) == cm_view(*old(positions)).set(
            *entity,
            new_pos,
        ),
        r != MoveOutcome::Moved ==> *final(positions) == *old(positions),
{
    let mut is_colliding = false;
    let n = collisions.len();
    let mut i: usize = 0;
    while i < n
        invariant
            *positions == *old(positions),
            *collisions == *old(collisions),
            old(positions).wf(),
            n == collisions.owner_seq().len(),
            i <= n,
            is_colliding == exists|j: int|
                0 <= j < i && blocks_move(
                    cm_view(*positions),
                    #[trigger] collisions.owner_seq()[j],
                    *entity,
                    new_pos,
                ),
        decreases n - i,
    {
        let ce = collisions.owner_at(i);
        if ce.0 != entity.0 {
            match positions.get(&ce) {
                Some(t) => {
                    if t.get_x() == new_pos.get_x() && t.get_y() == new_pos.get_y() {
                        is_colliding = true;
                        proof {
                            assert(blocks_move(
                                cm_view(*positions),
                                collisions.owner_seq()[i as int],
                                *entity,
                                new_pos,
                            ));
                        }
                    }
                },
                None => {},
            }
        }
        i = i + 1;
    }
    proof {
        let pv = cm_view(*old(positions));
        let clv = cm_view(*old(collisions));
        if is_colliding {
            let j = choose|j: int|
                0 <= j < n && blocks_move(
                    cm_view(*positions),
                    #[trigger] collisions.owner_seq()[j],
                    *entity,
                    new_pos,
                );
            assert(blocks_move(pv, clv.order[j], *entity, new_pos));
        } else if move_blocked_spec(pv, clv, *entity, new_pos) {
            let j = choose|j: int|
                0 <= j < clv.order.len() && blocks_move(
                    pv,
                    #[trigger] clv.order[j],
                    *entity,
                    new_pos,
                );
            assert(blocks_move(cm_view(*positions), collisions.owner_seq()[j], *entity, new_pos));
        }
        assert(is_colliding == move_blocked_spec(pv, clv, *entity, new_pos));
    }
    if is_colliding {
        return MoveOutcome::Collides;
    }
    let cur: Position = match positions.get(entity) {
        Some(p) => *p,
        None => vstd::pervasive::unreached(),
    };
    if cur.distance_squared(&new_pos) > 10000 {
        return MoveOutcome::TooFast;
    }
    positions.set(entity, new_pos);
    proof {
        assert(cm_view(*positions) =~= cm_view(*old(positions)).set(*entity, new_pos));
    }
    MoveOutcome::Moved
}

/// How the harvest system decides, checked in order: range, presence of the
/// target's container, the target's count, and room in the harvester's
/// count for the transferred unit.
pub open spec fn harvest_outcome_spec(
    positions: CompView<Position>,
    containers: CompView<SolidContainer>,
    entity: Entity,
    target: Entity,
    kind: ResourceKind,
) -> HarvestOutcome {
    let ep = positions.at(entity);
    let tp = positions.at(target);
    if manhat_spec(ep.tile_x(), ep.tile_y(), tp.tile_x(), tp.tile_y()) > 2 {
        HarvestOutcome::TooFar
    } else if !containers.has(target) {
        HarvestOutcome::NothingToHarvest
    } else if container_count(containers.at(target), kind) == 0 {
        HarvestOutcome::Empty
    } else if entity != target && containers.has(entity) && container_count(
        containers.at(entity),
        kind,
    ) == u32::MAX {
        HarvestOutcome::Full
    } else {
        HarvestOutcome::Harvested
    }
}

/// The container store after a successful harvest: the target's count for
/// `kind` drops by one, then the harvester's count rises by one, its
/// container created with a single unit if it had none.
pub open spec fn harvest_apply_spec(
    containers: CompView<SolidContainer>,
    entity: Entity,
    target: Entity,
    kind: ResourceKind,
) -> CompView<SolidContainer> {
    let tc = containers.at(target);
    let dec = containers.set(target, container_with(tc, kind, (container_count(tc, kind) - 1) as u32));
    if dec.has(entity) {
        let ec = dec.at(entity);
        dec.set(entity, container_with(ec, kind, (container_count(ec, kind) + 1) as u32))
    } else {
        dec.insert_new(
            entity,
            container_with(SolidContainer { iron_count: 0, copper_count: 0 }, kind, 1),
        )
    }
}

/// Pulls one unit of `harvest_type` out of `harvest_entity`'s container and
/// into `entity`'s, creating `entity`'s container on demand. Both entities
/// must own positions. The transfer happens only when the two are within
/// Manhattan distance 2, the target has a nonempty container and the
/// harvester has room; otherwise nothing changes and the outcome names the
/// first failed check. The two count changes happen together, so the total
/// amount of the resource is conserved. Positions are never changed.
pub fn harvest_system(
    entity: &Entity,
    positions: &mut ComponentManager<Position>,
    solid_containers: &mut ComponentManager<SolidContainer>,
    harvest_entity: &Entity,
    harvest_type: ResourceKind,
) -> (r: HarvestOutcome)
    requires
        old(positions).wf(),
        old(solid_containers).wf(),
        old(positions).map_spec().contains_key(entity.0),
        old(positions).map_spec().contains_key(harvest_entity.0),
    ensures
        *final(positions) == *old(positions),
        final(solid_containers).wf(),
        r == harvest_outcome_spec(
            cm_view(*old(positions)),
            cm_view(*old(solid_containers)),
            *entity,
            *harvest_entity,
            harvest_type,
        ),
        r == HarvestOutcome::Harvested ==> cm_view(*final(solid_containers)) == harvest_apply_spec(
            cm_view(*old(solid_containers)),
            *entity,
            *harvest_entity,
            harvest_type,
        ),
        r != HarvestOutcome::Harvested ==> *final(solid_containers) == *old(solid_containers),
        final(solid_containers).owner_seq() == old(solid_containers).owner_seq()
            || final(solid_containers).owner_seq() == old(solid_containers).owner_seq().push(
            *entity,
        ),
{
    let entity_pos: Position = match positions.get(entity) {
        Some(p) => *p,
        None => vstd::pervasive::unreached(),
    };
    let harvest_pos: Position = match positions.get(harvest_entity) {
        Some(p) => *p,
        None => vstd::pervasive::unreached(),
    };
    if manhat_distance(
        entity_pos.get_x(),
        entity_pos.get_y(),
        harvest_pos.get_x(),
        harvest_pos.get_y(),
    ) > 2 {
        return HarvestOutcome::TooFar;
    }
    let target_c: SolidContainer = match solid_containers.get(harvest_entity) {
        Some(c) => *c,
        None => {
            return HarvestOutcome::NothingToHarvest;
        },
    };
    let cnt = count_of(&target_c, harvest_type);
    if cnt == 0 {
        return HarvestOutcome::Empty;
    }
    if entity.0 != harvest_entity.0 {
        match solid_containers.get(entity) {
            Some(ec) => {
                if count_of(ec, harvest_type) == u32::MAX {
                    return HarvestOutcome::Full;
                }
            },
            None => {},
        }
    }
    solid_containers.set(harvest_entity, with_count(target_c, harvest_type, cnt - 1));
    match solid_containers.get(entity) {
        Some(ec) => {
            let ec = *ec;
            let rc = count_of(&ec, harvest_type);
            solid_containers.set(entity, with_count(ec, harvest_type, rc + 1));
        },
        None => {
            solid_containers.create_with(
                entity,
                with_count(SolidContainer { iron_count: 0, copper_count: 0 }, harvest_type, 1),
            );
        },
    }
    proof {
        assert(cm_view(*solid_containers) =~= harvest_apply_spec(
            cm_view(*old(solid_containers)),
            *entity,
            *harvest_entity,
            harvest_type,
        ));
    }
    HarvestOutcome::Harvested
}

/// One player request, applied during the next tick.
pub enum UserCommand {
    /// Append one command to the entity's program.
    LoadCommand(Entity, Command),
    /// Replace the entity's whole program, leaving its counter alone.
    LoadProgram(Entity, Vec<Command>),
}

/// Specification-level value of a `UserCommand`.
#[verifier::ext_equal]
pub enum UserCommandView {
    LoadCommand(Entity, Command),
    LoadProgram(Entity, Seq<Command>),
}

impl View for UserCommand {
    type V = UserCommandView;

    open spec fn view(&self) -> UserCommandView {
        match self {
            UserCommand::LoadCommand(e, c) => UserCommandView::LoadCommand(*e, *c),
            UserCommand::LoadProgram(e, p) => UserCommandView::LoadProgram(*e, p@),
        }
    }
}

/// The player's input for one tick. The caller resets it to the default
/// after each tick.
pub struct GameInput {
    pub create_unit: bool,
    pub create_hive: bool,
    pub user_commands: Vec<UserCommand>,
}

/// Specification-level value of a `GameInput`.
#[verifier::ext_equal]
pub struct GameInputView {
    pub create_unit: bool,
    pub create_hive: bool,
    pub user_commands: Seq<UserCommandView>,
}

impl View for GameInput {
    type V = GameInputView;

    open spec fn view(&self) -> GameInputView {
        GameInputView {
            create_unit: self.create_unit,
            create_hive: self.create_hive,
            user_commands: self.user_commands@.map_values(|u: UserCommand| u@),
        }
    }
}

impl GameInput {
    /// The empty input: no requests.
    pub fn default() -> (r: GameInput)
        ensures
            r@.create_unit == false,
            r@.create_hive == false,
            r@.user_commands == Seq::<UserCommandView>::empty(),
    {
        let r = GameInput { create_unit: false, create_hive: false, user_commands: Vec::new() };
        proof {
            assert(r@.user_commands =~= Seq::<UserCommandView>::empty());
        }
        r
    }
}

/// A fresh, empty game.
pub fn game_init() -> (r: GameState)
    ensures
        r.wf(),
        r@ == empty_game_view(),
{
    GameState::new()
}

/// What adding a resource node does: a fresh entity with the given
/// container, a position at tile `(x, y)`, and collision.
pub open spec fn add_node_spec(g: GameView, container: SolidContainer, x: u32, y: u32) -> GameView {
    let e = Entity(g.next_id);
    GameView {
        live: g.live.push(e),
        next_id: (g.next_id + 1) as u64,
        containers: g.containers.insert_new(e, container),
        positions: g.positions.insert_new(e, Position::norm(x * 100, y * 100)),
        collisions: g.collisions.insert_new(e, Collision { value: true }),
        ..g
    }
}

/// Creates a collision-holding resource node at tile `(x, y)` holding
/// `container`.
fn add_resource_node(game_state: &mut GameState, container: SolidContainer, x: u32, y: u32)
    requires
        old(game_state).wf(),
        old(game_state)@.next_id < u64::MAX,
    ensures
        final(game_state).wf(),
        final(game_state)@ == add_node_spec(old(game_state)@, container, x, y),
{
    let e = game_state.entity_manager.create();
    proof {
        lemma_fresh_key(&game_state.solid_containers, e, old(game_state)@.next_id);
        lemma_fresh_key(&game_state.positions, e, old(game_state)@.next_id);
        lemma_fresh_key(&game_state.collision, e, old(game_state)@.next_id);
    }
    game_state.solid_containers.create_with(&e, container);
    game_state.positions.create_with(&e, Position::new(x, y));
    game_state.collision.create_with(&e, Collision { value: true });
    proof {
        assert(game_state@ =~= add_node_spec(old(game_state)@, container, x, y));
        lemma_owners_below_grow(old(game_state).positions.owner_seq(), old(game_state)@.next_id);
        lemma_owners_below_grow(old(game_state).collision.owner_seq(), old(game_state)@.next_id);
        lemma_owners_below_grow(
            old(game_state).energy_levels.owner_seq(),
            old(game_state)@.next_id,
        );
        lemma_owners_below_grow(old(game_state).iron_mines.owner_seq(), old(game_state)@.next_id);
        lemma_owners_below_grow(old(game_state).memory.owner_seq(), old(game_state)@.next_id);
        lemma_owners_below_grow(
            old(game_state).solid_containers.owner_seq(),
            old(game_state)@.next_id,
        );
    }
}

/// The pre-initialized level: the hive at tile `(0, 0)`, an iron node with
/// 2 units at tile `(10, 5)` and an iron node with 900 units at tile
/// `(5, 10)`, both with collision.
pub open spec fn game_load_view() -> GameView {
    let g0 = create_hive_spec(empty_game_view(), 0, 0);
    let g1 = add_node_spec(g0, SolidContainer { iron_count: 2, copper_count: 0 }, 10, 5);
    add_node_spec(g1, SolidContainer { iron_count: 900, copper_count: 0 }, 5, 10)
}

/// Builds the pre-initialized level described by `game_load_view`.
pub fn game_load() -> (r: GameState)
    ensures
        r.wf(),
        r@ == game_load_view(),
{
    let mut new_game_state = GameState::new();
    new_game_state.create_hive(0, 0);
    add_resource_node(
        &mut new_game_state,
        SolidContainer { iron_count: 2, copper_count: 0 },
        10,
        5,
    );
    add_resource_node(
        &mut new_game_state,
        SolidContainer { iron_count: 900, copper_count: 0 },
        5,
        10,
    );
    new_game_state
}

/// What spawning a unit does: a fresh entity at `pos` with an empty
/// program, collision, and an empty resource container.
pub open spec fn spawn_unit_spec(g: GameView, pos: Position) -> GameView {
    let e = Entity(g.next_id);
    GameView {
        live: g.live.push(e),
        next_id: (g.next_id + 1) as u64,
        positions: g.positions.insert_new(e, pos),
        memories: g.memories.insert_new(e, MemView { pc: 0, commands: Seq::empty() }),
        collisions: g.collisions.insert_new(e, Collision { value: false }),
        containers: g.containers.insert_new(e, SolidContainer { iron_count: 0, copper_count: 0 }),
        ..g
    }
}

/// Spawns a unit at `p`: a fresh entity with that position, an empty
/// program, collision, and an empty resource container.
fn spawn_unit(game_state: &mut GameState, p: Position)
    requires
        old(game_state).wf(),
        old(game_state)@.next_id < u64::MAX,
    ensures
        final(game_state).wf(),
        final(game_state)@ == spawn_unit_spec(old(game_state)@, p),
{
    let new_entity = game_state.entity_manager.create();
    proof {
        lemma_fresh_key(&game_state.positions, new_entity, old(game_state)@.next_id);
        lemma_fresh_key(&game_state.memory, new_entity, old(game_state)@.next_id);
        lemma_fresh_key(&game_state.collision, new_entity, old(game_state)@.next_id);
        lemma_fresh_key(&game_state.solid_containers, new_entity, old(game_state)@.next_id);
    }
    game_state.positions.create_with(&new_entity, p);
    let fresh_mem = empty_memory();
    let ghost fresh_mem_spec = fresh_mem;
    game_state.memory.create_with(&new_entity, fresh_mem);
    game_state.collision.create_with(&new_entity, Collision { value: false });
    game_state.solid_containers.create_with(
        &new_entity,
        SolidContainer { iron_count: 0, copper_count: 0 },
    );
    proof {
        lemma_mem_map_view_insert(
            old(game_state).memory.map_spec(),
            new_entity.0,
            fresh_mem_spec,
        );
        assert(game_state@.memories =~= spawn_unit_spec(old(game_state)@, p).memories);
        assert(game_state@ =~= spawn_unit_spec(old(game_state)@, p));
        lemma_owners_below_grow(old(game_state).positions.owner_seq(), old(game_state)@.next_id);
        lemma_owners_below_grow(old(game_state).collision.owner_seq(), old(game_state)@.next_id);
        lemma_owners_below_grow(
            old(game_state).energy_levels.owner_seq(),
            old(game_state)@.next_id,
        );
        lemma_owners_below_grow(old(game_state).iron_mines.owner_seq(), old(game_state)@.next_id);
        lemma_owners_below_grow(old(game_state).memory.owner_seq(), old(game_state)@.next_id);
        lemma_owners_below_grow(
            old(game_state).solid_containers.owner_seq(),
            old(game_state)@.next_id,
        );
    }
}

/// A copy of a command list.
fn clone_commands(v: &Vec<Command>) -> (r: Vec<Command>)
    ensures
        r@ == v@,
{
    let mut r: Vec<Command> = Vec::new();
    let mut i: usize = 0;
    let n = v.len();
    while i < n
        invariant
            n == v@.len(),
            i <= n,
            r@ == v@.take(i as int),
        decreases n - i,
    {
        r.push(v[i]);
        proof {
            assert(r@ =~= v@.take(i + 1));
        }
        i = i + 1;
    }
    proof {
        assert(v@.take(n as int) =~= v@);
    }
    r
}

/// The next program counter after a completed instruction: one past `pc`,
/// wrapping to 0 at the end of the program.
pub open spec fn next_pc_spec(pc: u32, len: int) -> u32 {
    if pc + 1 >= len {
        0
    } else {
        (pc + 1) as u32
    }
}

/// Advances the stored program counter of `entity`'s memory, wrapping to 0
/// past the end of the command list.
fn advance_pc(memory: &mut ComponentManager<Memory>, entity: &Entity)
    requires
        old(memory).wf(),
        old(memory).map_spec().contains_key(entity.0),
        old(memory).map_spec()[entity.0].program_counter < old(memory).map_spec()[entity.0].commands@.len(),
        old(memory).map_spec()[entity.0].commands@.len() <= u32::MAX,
    ensures
        final(memory).wf(),
        final(memory).owner_seq() == old(memory).owner_seq(),
        cm_mem_view(*final(memory)) == cm_mem_view(*old(memory)).set(
            *entity,
            MemView {
                pc: next_pc_spec(
                    old(memory).map_spec()[entity.0].program_counter,
                    old(memory).map_spec()[entity.0].commands@.len() as int,
                ),
                commands: old(memory).map_spec()[entity.0].commands@,
            },
        ),
        final(memory).map_spec()[entity.0].commands@ == old(memory).map_spec()[entity.0].commands@,
        forall|k: u64|
            #[trigger] final(memory).map_spec().contains_key(k) <==> old(memory).map_spec().contains_key(k),
        forall|k: u64|
            k != entity.0 && #[trigger] final(memory).map_spec().contains_key(k) ==> final(memory).map_spec()[k] == old(memory).map_spec()[k],
{
    let mut m = empty_memory();
    memory.swap_at(entity, &mut m);
    let len = m.commands.len();
    let pc_us = m.program_counter as usize;
    let np: u32 = if pc_us >= len - 1 {
        0
    } else {
        m.program_counter + 1
    };
    m.program_counter = np;
    let ghost m_spec = m;
    memory.swap_at(entity, &mut m);
    proof {
        assert(memory.map_spec() =~= old(memory).map_spec().insert(entity.0, m_spec));
        lemma_mem_map_view_insert(old(memory).map_spec(), entity.0, m_spec);
        assert(cm_mem_view(*memory) =~= cm_mem_view(*old(memory)).set(
            *entity,
            MemView {
                pc: next_pc_spec(
                    old(memory).map_spec()[entity.0].program_counter,
                    old(memory).map_spec()[entity.0].commands@.len() as int,
                ),
                commands: old(memory).map_spec()[entity.0].commands@,
            },
        ));
    }
}

/// Overwrites the stored program of `entity`'s memory, leaving its counter
/// alone.
fn load_program_into(memory: &mut ComponentManager<Memory>, entity: &Entity, prog: &Vec<Command>)
    requires
        old(memory).wf(),
        old(memory).map_spec().contains_key(entity.0),
    ensures
        final(memory).wf(),
        final(memory).owner_seq() == old(memory).owner_seq(),
        cm_mem_view(*final(memory)) == cm_mem_view(*old(memory)).set(
            *entity,
            MemView { pc: old(memory).map_spec()[entity.0].program_counter, commands: prog@ },
        ),
        final(memory).map_spec()[entity.0].commands@ == prog@,
        forall|k: u64|
            #[trigger] final(memory).map_spec().contains_key(k) <==> old(memory).map_spec().contains_key(k),
        forall|k: u64|
            k != entity.0 && #[trigger] final(memory).map_spec().contains_key(k) ==> final(memory).map_spec()[k] == old(memory).map_spec()[k],
{
    let mut m = empty_memory();
    memory.swap_at(entity, &mut m);
    m.commands = clone_commands(prog);
    let ghost m_spec = m;
    memory.swap_at(entity, &mut m);
    proof {
        assert(memory.map_spec() =~= old(memory).map_spec().insert(entity.0, m_spec));
        lemma_mem_map_view_insert(old(memory).map_spec(), entity.0, m_spec);
        assert(cm_mem_view(*memory) =~= cm_mem_view(*old(memory)).set(
            *entity,
            MemView { pc: old(memory).map_spec()[entity.0].program_counter, commands: prog@ },
        ));
    }
}

/// Appends one command to the stored program of `entity`'s memory.
fn load_command_into(memory: &mut ComponentManager<Memory>, entity: &Entity, command: Command)
    requires
        old(memory).wf(),
        old(memory).map_spec().contains_key(entity.0),
        old(memory).map_spec()[entity.0].commands@.len() < u32::MAX,
    ensures
        final(memory).wf(),
        final(memory).owner_seq() == old(memory).owner_seq(),
        cm_mem_view(*final(memory)) == cm_mem_view(*old(memory)).set(
            *entity,
            MemView {
                pc: old(memory).map_spec()[entity.0].program_counter,
                commands: old(memory).map_spec()[entity.0].commands@.push(command),
            },
        ),
        final(memory).map_spec()[entity.0].commands@ == old(memory).map_spec()[entity.0].commands@.push(command),
        forall|k: u64|
            #[trigger] final(memory).map_spec().contains_key(k) <==> old(memory).map_spec().contains_key(k),
        forall|k: u64|
            k != entity.0 && #[trigger] final(memory).map_spec().contains_key(k) ==> final(memory).map_spec()[k] == old(memory).map_spec()[k],
{
    let mut m = empty_memory();
    memory.swap_at(entity, &mut m);
    m.commands.push(command);
    let ghost m_spec = m;
    memory.swap_at(entity, &mut m);
    proof {
        assert(memory.map_spec() =~= old(memory).map_spec().insert(entity.0, m_spec));
        lemma_mem_map_view_insert(old(memory).map_spec(), entity.0, m_spec);
        assert(cm_mem_view(*memory) =~= cm_mem_view(*old(memory)).set(
            *entity,
            MemView {
                pc: old(memory).map_spec()[entity.0].program_counter,
                commands: old(memory).map_spec()[entity.0].commands@.push(command),
            },
        ));
    }
}

/// Resets the stored program counter of `entity`'s memory to 0.
fn reset_pc(memory: &mut ComponentManager<Memory>, entity: &Entity)
    requires
        old(memory).wf(),
        old(memory).map_spec().contains_key(entity.0),
    ensures
        final(memory).wf(),
        final(memory).owner_seq() == old(memory).owner_seq(),
        cm_mem_view(*final(memory)) == cm_mem_view(*old(memory)).set(
            *entity,
            MemView { pc: 0, commands: old(memory).map_spec()[entity.0].commands@ },
        ),
        final(memory).map_spec()[entity.0].commands@ == old(memory).map_spec()[entity.0].commands@,
        forall|k: u64|
            #[trigger] final(memory).map_spec().contains_key(k) <==> old(memory).map_spec().contains_key(k),
        forall|k: u64|
            k != entity.0 && #[trigger] final(memory).map_spec().contains_key(k) ==> final(memory).map_spec()[k] == old(memory).map_spec()[k],
{
    let mut m = empty_memory();
    memory.swap_at(entity, &mut m);
    m.program_counter = 0;
    let ghost m_spec = m;
    memory.swap_at(entity, &mut m);
    proof {
        assert(memory.map_spec() =~= old(memory).map_spec().insert(entity.0, m_spec));
        lemma_mem_map_view_insert(old(memory).map_spec(), entity.0, m_spec);
        assert(cm_mem_view(*memory) =~= cm_mem_view(*old(memory)).set(
            *entity,
            MemView { pc: 0, commands: old(memory).map_spec()[entity.0].commands@ },
        ));
    }
}

/// `g` with `e`'s memory replaced.
pub open spec fn g_set_mem(g: GameView, e: Entity, m: MemView) -> GameView {
    GameView { memories: g.memories.set(e, m), ..g }
}

/// What one `UserCommand` does. A program only loads into an entity that
/// has a position within Manhattan distance 5 of the hive tile `(0, 0)` and
/// owns a memory; otherwise the command is rejected and nothing changes.
/// A whole program longer than the counter can address is also rejected, as
/// is one appended command that would push a program past that length.
pub open spec fn apply_user_command_spec(g: GameView, uc: UserCommandView) -> GameView {
    match uc {
        UserCommandView::LoadProgram(e, prog) => {
            if g.positions.has(e) && manhat_spec(
                g.positions.at(e).tile_x(),
                g.positions.at(e).tile_y(),
                0,
                0,
            ) <= 5 && g.memories.has(e) && prog.len() <= u32::MAX {
                g_set_mem(g, e, MemView { pc: g.memories.at(e).pc, commands: prog })
            } else {
                g
            }
        },
        UserCommandView::LoadCommand(e, c) => {
            if g.positions.has(e) && manhat_spec(
                g.positions.at(e).tile_x(),
                g.positions.at(e).tile_y(),
                0,
                0,
            ) <= 5 && g.memories.has(e) && g.memories.at(e).commands.len() < u32::MAX {
                g_set_mem(
                    g,
                    e,
                    MemView { pc: g.memories.at(e).pc, commands: g.memories.at(e).commands.push(c) },
                )
            } else {
                g
            }
        },
    }
}

/// The first `n` user commands applied in list order.
pub open spec fn apply_user_commands_spec(
    g: GameView,
    ucs: Seq<UserCommandView>,
    n: int,
) -> GameView
    decreases n,
{
    if n <= 0 {
        g
    } else {
        apply_user_command_spec(apply_user_commands_spec(g, ucs, n - 1), ucs[n - 1])
    }
}

/// Applies one `UserCommand` to the state.
fn apply_input_command(game_state: &mut GameState, input_command: &UserCommand)
    requires
        old(game_state).wf(),
    ensures
        final(game_state).wf(),
        final(game_state)@ == apply_user_command_spec(old(game_state)@, input_command@),
{
    match input_command {
        UserCommand::LoadProgram(entity_p, prog) => {
            let pos: Position = match game_state.positions.get(entity_p) {
                Some(t) => *t,
                None => {
                    return ;
                },
            };
            if manhat_distance(pos.get_x(), pos.get_y(), 0, 0) > 5 {
                return ;
            }
            if !game_state.memory.contains(entity_p) {
                return ;
            }
            if prog.len() > (u32::MAX as usize) {
                return ;
            }
            load_program_into(&mut game_state.memory, entity_p, prog);
            proof {
                assert(game_state@ =~= apply_user_command_spec(old(game_state)@, input_command@));
            }
        },
        UserCommand::LoadCommand(entity_c, command) => {
            let pos: Position = match game_state.positions.get(entity_c) {
                Some(t) => *t,
                None => {
                    return ;
                },
            };
            if manhat_distance(pos.get_x(), pos.get_y(), 0, 0) > 5 {
                return ;
            }
            if !game_state.memory.contains(entity_c) {
                return ;
            }
            let cur_len = match game_state.memory.get(entity_c) {
                Some(m) => m.commands.len(),
                None => vstd::pervasive::unreached(),
            };
            if cur_len >= (u32::MAX as usize) {
                return ;
            }
            load_command_into(&mut game_state.memory, entity_c, *command);
            proof {
                assert(game_state@ =~= apply_user_command_spec(old(game_state)@, input_command@));
            }
        },
    }
}

/// Whether some live entity with a position occupies the spawn tile
/// `(0, 1)`.
pub open spec fn spawn_tile_occupied_spec(g: GameView) -> bool {
    exists|i: int|
        0 <= i < g.live.len() && g.positions.has(#[trigger] g.live[i]) && g.positions.at(
            g.live[i],
        ).tile_x() == 0 && g.positions.at(g.live[i]).tile_y() == 1
}

/// What the spawn request does: with a hive present and the spawn tile
/// `(0, 1)` free, a unit spawns there; otherwise nothing changes.
pub open spec fn apply_spawn_spec(g: GameView, create_unit: bool) -> GameView {
    if g.hive is Some && create_unit {
        if spawn_tile_occupied_spec(g) {
            g
        } else {
            spawn_unit_spec(g, Position::norm(0, 100))
        }
    } else {
        g
    }
}

/// Handles the spawn request for one tick.
fn try_spawn(game_state: &mut GameState, create_unit: bool)
    requires
        old(game_state).wf(),
        old(game_state)@.next_id < u64::MAX,
    ensures
        final(game_state).wf(),
        final(game_state)@ == apply_spawn_spec(old(game_state)@, create_unit),
{
    if !game_state.has_hive() {
        return ;
    }
    if !create_unit {
        return ;
    }
    let mut is_colliding = false;
    let n = game_state.entity_manager.count();
    let mut i: usize = 0;
    while i < n
        invariant
            *game_state == *old(game_state),
            old(game_state).wf(),
            n == game_state@.live.len(),
            i <= n,
            is_colliding == exists|j: int|
                0 <= j < i && game_state@.positions.has(#[trigger] game_state@.live[j])
                    && game_state@.positions.at(game_state@.live[j]).tile_x() == 0
                    && game_state@.positions.at(game_state@.live[j]).tile_y() == 1,
        decreases n - i,
    {
        let tmp_e = game_state.entity_manager.entity_at(i);
        match game_state.positions.get(&tmp_e) {
            Some(t) => {
                if t.get_x() == 0 && t.get_y() == 1 {
                    is_colliding = true;
                }
            },
            None => {},
        }
        i = i + 1;
    }
    proof {
        assert(is_colliding == spawn_tile_occupied_spec(old(game_state)@));
    }
    if is_colliding {
        return ;
    }
    spawn_unit(game_state, Position::new(0, 1));
}

/// The units a `MoveD` command covers per axis in one tick: ten offset
/// units for each tenth of a second.
pub open spec fn step_units_spec(dt_ms: u32) -> u32 {
    (dt_ms / 100) as u32
}

/// One axis of a `MoveD` step: while the axis separation exceeds the
/// 2.5-unit tolerance (3 or more whole units), the combined coordinate
/// moves `step` units toward the destination's tile, clamped to the
/// representable range. The direction compares whole tiles only.
pub open spec fn axis_step_spec(c: int, ctile: u32, d: int, dtile: u32, step: u32) -> int {
    let dist = crate::utils::abs_diff_spec(c, d);
    if ctile >= dtile && dist > 2 {
        if c - step >= 0 {
            c - step
        } else {
            0
        }
    } else if ctile <= dtile && dist > 2 {
        if c + step <= crate::position::max_combined() {
            c + step
        } else {
            crate::position::max_combined()
        }
    } else {
        c
    }
}

/// The position a `MoveD` command steers to in one tick, moving each axis
/// independently.
pub open spec fn moved_toward_spec(cur: Position, dest: Position, step: u32) -> Position {
    Position::norm(
        axis_step_spec(cur.cx(), cur.tile_x(), dest.cx(), dest.tile_x(), step),
        axis_step_spec(cur.cy(), cur.tile_y(), dest.cy(), dest.tile_y(), step),
    )
}

/// What one movement attempt does to the whole state.
pub open spec fn apply_move_spec(g: GameView, e: Entity, new_pos: Position) -> GameView {
    if movement_outcome_spec(g.positions, g.collisions, e, new_pos) == MoveOutcome::Moved {
        GameView { positions: g.positions.set(e, new_pos), ..g }
    } else {
        g
    }
}

/// What one harvest attempt does to the whole state: `harvester` pulls one
/// unit of iron out of `target`.
pub open spec fn apply_harvest_spec(g: GameView, harvester: Entity, target: Entity) -> GameView {
    if harvest_outcome_spec(g.positions, g.containers, harvester, target, ResourceKind::Iron)
        == HarvestOutcome::Harvested {
        GameView {
            containers: harvest_apply_spec(g.containers, harvester, target, ResourceKind::Iron),
            ..g
        }
    } else {
        g
    }
}

/// `g` with `e`'s program counter advanced past a completed instruction.
pub open spec fn advance_spec(g: GameView, e: Entity) -> GameView {
    let m = g.memories.at(e);
    g_set_mem(g, e, MemView { pc: next_pc_spec(m.pc, m.commands.len() as int), commands: m.commands })
}

/// What one tick does for one entity: nothing without a program or with an
/// empty one; a counter past the end of the program (after a wholesale
/// program replacement) resets to 0 without executing; otherwise the
/// current instruction runs and the counter advances, except that `MoveD`
/// keeps retrying until the computed step lands within 5 offset units of
/// the destination. A movement or harvest instruction whose entity or
/// target lacks a position does nothing but still advances.
pub open spec fn step_program_spec(g: GameView, e: Entity, step: u32) -> GameView {
    if !g.memories.has(e) {
        g
    } else {
        let m = g.memories.at(e);
        if m.commands.len() == 0 {
            g
        } else if m.pc >= m.commands.len() {
            g_set_mem(g, e, MemView { pc: 0, commands: m.commands })
        } else {
            match m.commands[m.pc as int] {
                Command::MoveP(position) => {
                    let g1 = if g.positions.has(e) {
                        apply_move_spec(g, e, position)
                    } else {
                        g
                    };
                    advance_spec(g1, e)
                },
                Command::MoveD(destination) => {
                    if g.positions.has(e) {
                        let cur = g.positions.at(e);
                        let new_pos = moved_toward_spec(cur, destination, step);
                        let g1 = apply_move_spec(g, e, new_pos);
                        if dist_sq_spec(new_pos, destination) > 25 {
                            g1
                        } else {
                            advance_spec(g1, e)
                        }
                    } else {
                        advance_spec(g, e)
                    }
                },
                Command::Harvest(minable_entity) => {
                    let g1 = if g.positions.has(e) && g.positions.has(minable_entity) {
                        apply_harvest_spec(g, e, minable_entity)
                    } else {
                        g
                    };
                    advance_spec(g1, e)
                },
                Command::Deposit(mineable_entity) => {
                    let g1 = if g.positions.has(e) && g.positions.has(mineable_entity) {
                        apply_harvest_spec(g, mineable_entity, e)
                    } else {
                        g
                    };
                    advance_spec(g1, e)
                },
            }
        }
    }
}

/// Harvest conservation: a successful harvest between two distinct
/// entities moves exactly one unit, so the target's count drops by one,
/// the harvester's rises by one (a missing container is created holding
/// one), and the two counts' total is unchanged.
pub proof fn lemma_harvest_conserves(
    containers: CompView<SolidContainer>,
    entity: Entity,
    target: Entity,
    kind: ResourceKind,
)
    requires
        entity != target,
        containers.has(target),
        container_count(containers.at(target), kind) > 0,
        containers.has(entity) ==> container_count(containers.at(entity), kind) < u32::MAX,
    ensures
        harvest_apply_spec(containers, entity, target, kind).has(entity),
        harvest_apply_spec(containers, entity, target, kind).has(target),
        container_count(harvest_apply_spec(containers, entity, target, kind).at(target), kind)
            == container_count(containers.at(target), kind) - 1,
        container_count(harvest_apply_spec(containers, entity, target, kind).at(entity), kind) == (
        if containers.has(entity) {
            container_count(containers.at(entity), kind) + 1
        } else {
            1
        }),
        container_count(harvest_apply_spec(containers, entity, target, kind).at(entity), kind)
            + container_count(harvest_apply_spec(containers, entity, target, kind).at(target), kind)
            == (if containers.has(entity) {
            container_count(containers.at(entity), kind) as int
        } else {
            0
        }) + container_count(containers.at(target), kind),
{
}

/// Movement rejection: a move onto a tile occupied by a collision-holding
/// entity changes nothing, so the moving entity's position stays as it
/// was.
pub proof fn lemma_move_rejected_on_collision(g: GameView, e: Entity, new_pos: Position)
    requires
        move_blocked_spec(g.positions, g.collisions, e, new_pos),
    ensures
        apply_move_spec(g, e, new_pos) == g,
{
}

/// Program counter wraparound: advancing past a completed instruction is
/// stepping by one modulo the program length, so a program's instructions
/// run in order 0, 1, ..., n - 1, 0, 1, ... over consecutive completed
/// ticks.
pub proof fn lemma_pc_wraps(pc: u32, len: int)
    requires
        0 <= pc < len,
        len <= u32::MAX,
    ensures
        next_pc_spec(pc, len) == (pc + 1) % len,
{
    if pc + 1 == len {
        vstd::arithmetic::div_mod::lemma_fundamental_div_mod_converse(len, len, 1, 0);
    } else {
        vstd::arithmetic::div_mod::lemma_small_mod((pc + 1) as nat, len as nat);
    }
}

/// One tick's program step applied to the first `n` entities of `live`, in
/// order.
pub open spec fn run_programs_spec(g: GameView, live: Seq<Entity>, n: int, step: u32) -> GameView
    decreases n,
{
    if n <= 0 {
        g
    } else {
        step_program_spec(run_programs_spec(g, live, n - 1, step), live[n - 1], step)
    }
}

/// A program step never changes the live set, the next identifier or the
/// hive.
proof fn lemma_step_preserves(g: GameView, e: Entity, step: u32)
    ensures
        step_program_spec(g, e, step).live == g.live,
        step_program_spec(g, e, step).next_id == g.next_id,
        step_program_spec(g, e, step).hive == g.hive,
{
}

/// Running programs never changes the live set, the next identifier or the
/// hive.
proof fn lemma_run_programs_preserves(g: GameView, live: Seq<Entity>, n: int, step: u32)
    ensures
        run_programs_spec(g, live, n, step).live == g.live,
        run_programs_spec(g, live, n, step).next_id == g.next_id,
        run_programs_spec(g, live, n, step).hive == g.hive,
    decreases n,
{
    if n > 0 {
        lemma_run_programs_preserves(g, live, n - 1, step);
        lemma_step_preserves(run_programs_spec(g, live, n - 1, step), live[n - 1], step);
    }
}

/// A user command never changes anything but the memories.
proof fn lemma_user_command_preserves(g: GameView, uc: UserCommandView)
    ensures
        apply_user_command_spec(g, uc).live == g.live,
        apply_user_command_spec(g, uc).next_id == g.next_id,
        apply_user_command_spec(g, uc).hive == g.hive,
{
}

/// User commands never change anything but the memories.
proof fn lemma_user_commands_preserve(g: GameView, ucs: Seq<UserCommandView>, n: int)
    ensures
        apply_user_commands_spec(g, ucs, n).live == g.live,
        apply_user_commands_spec(g, ucs, n).next_id == g.next_id,
        apply_user_commands_spec(g, ucs, n).hive == g.hive,
    decreases n,
{
    if n > 0 {
        lemma_user_commands_preserve(g, ucs, n - 1);
        lemma_user_command_preserves(apply_user_commands_spec(g, ucs, n - 1), ucs[n - 1]);
    }
}

/// An identifier that is a key of a store with owners below `n` lies below
/// `n`.
proof fn lemma_key_below<T>(m: &ComponentManager<T>, k: u64, n: u64)
    requires
        m.wf(),
        owners_below(m.owner_seq(), n),
        m.map_spec().contains_key(k),
    ensures
        k < n,
{
    lemma_map_key_has_owner(m, k);
}

/// Executes one instruction of `e`'s program, as `step_program_spec` says.
fn run_one_program(game_state: &mut GameState, e: Entity, step: u32)
    requires
        old(game_state).wf(),
    ensures
        final(game_state).wf(),
        final(game_state)@ == step_program_spec(old(game_state)@, e, step),
{
    let info: Option<(usize, u32)> = match game_state.memory.get(&e) {
        Some(m) => Some((m.commands.len(), m.program_counter)),
        None => None,
    };
    let (len, pc): (usize, u32) = match info {
        Some(p) => p,
        None => {
            return ;
        },
    };
    if len == 0 {
        return ;
    }
    if pc as usize >= len {
        reset_pc(&mut game_state.memory, &e);
        proof {
            assert(game_state@ =~= step_program_spec(old(game_state)@, e, step));
        }
        return ;
    }
    let cmd: Command = match game_state.memory.get(&e) {
        Some(m) => m.commands[pc as usize],
        None => vstd::pervasive::unreached(),
    };
    let ghost g = old(game_state)@;
    match cmd {
        Command::MoveP(position) => {
            if game_state.positions.contains(&e) {
                movement_system(&e, &mut game_state.positions, &mut game_state.collision, position);
                proof {
                    assert(game_state@ =~= apply_move_spec(g, e, position));
                }
            }
            let ghost g1 = game_state@;
            advance_pc(&mut game_state.memory, &e);
            proof {
                assert(game_state@ =~= advance_spec(g1, e));
                assert(game_state@ =~= step_program_spec(g, e, step));
            }
        },
        Command::MoveD(destination) => {
            if game_state.positions.contains(&e) {
                let cur: Position = match game_state.positions.get(&e) {
                    Some(p) => *p,
                    None => vstd::pervasive::unreached(),
                };
                let new_pos = step_toward(&cur, &destination, step);
                movement_system(&e, &mut game_state.positions, &mut game_state.collision, new_pos);
                proof {
                    assert(game_state@ =~= apply_move_spec(g, e, new_pos));
                }
                let ghost g1 = game_state@;
                if new_pos.distance_squared(&destination) > 25 {
                    proof {
                        assert(game_state@ =~= step_program_spec(g, e, step));
                    }
                } else {
                    advance_pc(&mut game_state.memory, &e);
                    proof {
                        assert(game_state@ =~= advance_spec(g1, e));
                        assert(game_state@ =~= step_program_spec(g, e, step));
                    }
                }
            } else {
                advance_pc(&mut game_state.memory, &e);
                proof {
                    assert(game_state@ =~= advance_spec(g, e));
                    assert(game_state@ =~= step_program_spec(g, e, step));
                }
            }
        },
        Command::Harvest(minable_entity) => {
            if game_state.positions.contains(&e) && game_state.positions.contains(&minable_entity) {
                harvest_system(
                    &e,
                    &mut game_state.positions,
                    &mut game_state.solid_containers,
                    &minable_entity,
                    ResourceKind::Iron,
                );
                proof {
                    lemma_key_below(&old(game_state).positions, e.0, g.next_id);
                    assert(game_state@ =~= apply_harvest_spec(g, e, minable_entity));
                }
            }
            let ghost g1 = game_state@;
            advance_pc(&mut game_state.memory, &e);
            proof {
                assert(game_state@ =~= advance_spec(g1, e));
                assert(game_state@ =~= step_program_spec(g, e, step));
            }
        },
        Command::Deposit(mineable_entity) => {
            if game_state.positions.contains(&e) && game_state.positions.contains(&mineable_entity) {
                harvest_system(
                    &mineable_entity,
                    &mut game_state.positions,
                    &mut game_state.solid_containers,
                    &e,
                    ResourceKind::Iron,
                );
                proof {
                    lemma_key_below(&old(game_state).positions, mineable_entity.0, g.next_id);
                    assert(game_state@ =~= apply_harvest_spec(g, mineable_entity, e));
                }
            }
            let ghost g1 = game_state@;
            advance_pc(&mut game_state.memory, &e);
            proof {
                assert(game_state@ =~= advance_spec(g1, e));
                assert(game_state@ =~= step_program_spec(g, e, step));
            }
        },
    }
}

/// The position one `MoveD` tick steers to, per `moved_toward_spec`.
fn step_toward(cur: &Position, dest: &Position, step: u32) -> (r: Position)
    ensures
        r == moved_toward_spec(*cur, *dest, step),
{
    let ccx = cur.combined_x();
    let ccy = cur.combined_y();
    let dcx = dest.combined_x();
    let dcy = dest.combined_y();
    let step64 = step as u64;
    let xd: u64 = if ccx >= dcx {
        ccx - dcx
    } else {
        dcx - ccx
    };
    let yd: u64 = if ccy >= dcy {
        ccy - dcy
    } else {
        dcy - ccy
    };
    let ncx: u64 = if cur.get_x() >= dest.get_x() && xd > 2 {
        if step64 <= ccx {
            ccx - step64
        } else {
            0
        }
    } else if cur.get_x() <= dest.get_x() && xd > 2 {
        if ccx + step64 <= crate::position::MAX_COMBINED {
            ccx + step64
        } else {
            crate::position::MAX_COMBINED
        }
    } else {
        ccx
    };
    let ncy: u64 = if cur.get_y() >= dest.get_y() && yd > 2 {
        if step64 <= ccy {
            ccy - step64
        } else {
            0
        }
    } else if cur.get_y() <= dest.get_y() && yd > 2 {
        if ccy + step64 <= crate::position::MAX_COMBINED {
            ccy + step64
        } else {
            crate::position::MAX_COMBINED
        }
    } else {
        ccy
    };
    proof {
        assert(ncx == axis_step_spec(cur.cx(), cur.tile_x(), dest.cx(), dest.tile_x(), step));
        assert(ncy == axis_step_spec(cur.cy(), cur.tile_y(), dest.cy(), dest.tile_y(), step));
    }
    Position::from_combined(ncx, ncy)
}

/// What one whole tick does: the hive request, then the user commands in
/// list order, then the spawn request, then one program step for every
/// live entity in creation order.
pub open spec fn game_update_spec(g: GameView, dt_ms: u32, input: GameInputView) -> GameView {
    let g1 = if input.create_hive {
        create_hive_spec(g, 0, 0)
    } else {
        g
    };
    let g2 = apply_user_commands_spec(g1, input.user_commands, input.user_commands.len() as int);
    let g3 = apply_spawn_spec(g2, input.create_unit);
    run_programs_spec(g3, g3.live, g3.live.len() as int, step_units_spec(dt_ms))
}

/// Advances the game by one tick: applies the input's hive and spawn
/// requests and user commands, then executes one instruction of every
/// entity's program. `dt_ms` is the tick length in milliseconds; a `MoveD`
/// command covers one offset unit per axis for each 100 ms. Consumes the
/// old state and returns the new one.
pub fn game_update(game_state: GameState, dt_ms: u32, game_input: &GameInput) -> (r: GameState)
    requires
        game_state.wf(),
        game_state@.next_id <= u64::MAX - 2,
    ensures
        r.wf(),
        r@ == game_update_spec(game_state@, dt_ms, game_input@),
{
    let ghost g0 = game_state@;
    let mut new_game_state = game_state;
    if game_input.create_hive {
        new_game_state.create_hive(0, 0);
    }
    let ghost g1 = new_game_state@;
    let ncmds = game_input.user_commands.len();
    let mut ci: usize = 0;
    while ci < ncmds
        invariant
            new_game_state.wf(),
            ncmds == game_input@.user_commands.len(),
            ci <= ncmds,
            new_game_state@ == apply_user_commands_spec(g1, game_input@.user_commands, ci as int),
        decreases ncmds - ci,
    {
        apply_input_command(&mut new_game_state, &game_input.user_commands[ci]);
        proof {
            assert(game_input@.user_commands[ci as int] == game_input.user_commands@[ci as int]@);
        }
        ci = ci + 1;
    }
    let ghost g2 = new_game_state@;
    proof {
        lemma_user_commands_preserve(g1, game_input@.user_commands, ncmds as int);
        assert(g2.next_id <= u64::MAX - 1);
    }
    try_spawn(&mut new_game_state, game_input.create_unit);
    let ghost g3 = new_game_state@;
    let step: u32 = dt_ms / 100;
    let n_live = new_game_state.entity_manager.count();
    let mut i: usize = 0;
    while i < n_live
        invariant
            new_game_state.wf(),
            n_live == g3.live.len(),
            new_game_state@ == run_programs_spec(g3, g3.live, i as int, step),
            i <= n_live,
        decreases n_live - i,
    {
        proof {
            lemma_run_programs_preserves(g3, g3.live, i as int, step);
        }
        let e = new_game_state.entity_manager.entity_at(i);
        run_one_program(&mut new_game_state, e, step);
        i = i + 1;
    }
    proof {
        assert(new_game_state@ == game_update_spec(g0, dt_ms, game_input@));
    }
    new_game_state
}

} // verus!
